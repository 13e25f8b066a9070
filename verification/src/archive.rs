//! Opening a byte source as a zip container, listing the class-file entries
//! it holds, and extracting the class version of each.

use crate::text::{ends_with, spec_ends_with, spec_starts_with, starts_with};
use crate::version::{spec_parse_class, JavaClass, JavaClassError};
use std::io::Cursor;
use vstd::prelude::*;

verus! {

/// Why a byte source could not be read as a jar archive.
#[derive(Debug, Clone, Copy, PartialEq, Eq, Structural)]
pub enum ExtractedJarError {
    /// The archive library rejected the container.
    Zip,
    /// The first four bytes are not the zip local-file-header signature.
    NotAJar,
    /// Fewer than the 4 signature bytes were available; holds the exact count.
    InsufficientBytes(usize),
    /// One entry could not be parsed as a class file.
    JavaClass(JavaClassError),
    /// The archive holds no qualifying class-file entry.
    NoClassFiles,
}

/// The fixed local-file-header signature of every zip container.
pub open spec fn zip_magic() -> Seq<u8> {
    seq![0x50u8, 0x4Bu8, 0x03u8, 0x04u8]
}

#[verifier::external_type_specification]
#[verifier::external_body]
#[verifier::reject_recursive_types(R)]
pub struct ExZipArchive<R>(zip::ZipArchive<R>);

#[verifier::external_type_specification]
#[verifier::external_body]
#[verifier::reject_recursive_types(T)]
pub struct ExCursor<T>(Cursor<T>);

#[verifier::external_type_specification]
#[verifier::external_body]
pub struct ExZipError(zip::result::ZipError);

/// Whether the archive library accepts a byte source as a zip container;
/// parsing an in-memory buffer depends on its bytes alone.
pub uninterp spec fn zip_parse_ok(bytes: Seq<u8>) -> bool;

/// The entry names of a zip container, in the order of its central
/// directory; a function of the source bytes alone.
pub uninterp spec fn zip_names(bytes: Seq<u8>) -> Seq<Seq<char>>;

/// Whether the named entry of a zip container can be located and
/// decompressed; a function of the source bytes and the name alone.
pub uninterp spec fn zip_entry_ok(bytes: Seq<u8>, name: Seq<char>) -> bool;

/// The decompressed bytes of the named entry of a zip container; a function
/// of the source bytes and the name alone.
pub uninterp spec fn zip_entry_bytes(bytes: Seq<u8>, name: Seq<char>) -> Seq<u8>;

/// The byte source an open archive handle was parsed from.
pub uninterp spec fn archive_source(a: zip::ZipArchive<Cursor<Vec<u8>>>) -> Seq<u8>;

/// Relies on zip::ZipArchive::new: reading the central directory of an
/// in-memory buffer succeeds or fails by the bytes alone, and the handle it
/// returns wraps exactly those bytes.
#[verifier::external_body]
fn zip_open(bytes: &Vec<u8>) -> (r: Result<zip::ZipArchive<Cursor<Vec<u8>>>, zip::result::ZipError>)
    ensures
        r is Ok <==> zip_parse_ok(bytes@),
        r matches Ok(a) ==> archive_source(a) == bytes@,
{
    zip::ZipArchive::new(Cursor::new(bytes.clone()))
}

/// Relies on zip::ZipArchive::file_names: the names come from the handle's
/// directory map, in the order the central directory listed them.
#[verifier::external_body]
fn zip_entry_names(a: &zip::ZipArchive<Cursor<Vec<u8>>>) -> (r: Vec<String>)
    ensures
        r@.map_values(|s: String| s@) == zip_names(archive_source(*a)),
{
    a.file_names().map(|n| n.to_owned()).collect()
}

/// Relies on zip::ZipArchive::by_name and std::io::Read::read_to_end:
/// locating and decompressing one entry of an in-memory archive depends on
/// the source bytes and the name alone, and leaves the directory as it was.
#[verifier::external_body]
fn zip_read_entry(a: &mut zip::ZipArchive<Cursor<Vec<u8>>>, name: &String) -> (r: Result<
    Vec<u8>,
    zip::result::ZipError,
>)
    ensures
        archive_source(*final(a)) == archive_source(*old(a)),
        r is Ok <==> zip_entry_ok(archive_source(*old(a)), name@),
        r matches Ok(data) ==> data@ == zip_entry_bytes(archive_source(*old(a)), name@),
{
    let mut entry = a.by_name(name.as_str())?;
    let mut data = Vec::new();
    std::io::Read::read_to_end(&mut entry, &mut data)?;
    Ok(data)
}

/// The suffix that marks a class-file entry.
pub open spec fn class_suffix() -> Seq<char> {
    seq!['.', 'c', 'l', 'a', 's', 's']
}

/// The reserved metadata directory prefix, separator included, whose
/// entries never count.
pub open spec fn meta_prefix() -> Seq<char> {
    seq!['M', 'E', 'T', 'A', '-', 'I', 'N', 'F', '/']
}

/// Whether an entry name is a candidate class file: it ends in `.class`
/// and does not sit under the reserved metadata directory.
pub open spec fn qualifies(name: Seq<char>) -> bool {
    spec_ends_with(name, class_suffix()) && !spec_starts_with(name, meta_prefix())
}

/// The candidate class-file entries among some entry names, in order.
pub open spec fn spec_class_entries(names: Seq<Seq<char>>) -> Seq<Seq<char>> {
    names.filter(|n: Seq<char>| qualifies(n))
}

/// Entry filtering keeps exactly the candidate names: every kept name is a
/// candidate, and every candidate among the input names is kept.
pub proof fn lemma_class_entries_exact(names: Seq<Seq<char>>)
    ensures
        forall|i: int| 0 <= i < spec_class_entries(names).len() ==> qualifies(
            #[trigger] spec_class_entries(names)[i],
        ),
        forall|i: int| 0 <= i < names.len() && qualifies(#[trigger] names[i])
            ==> spec_class_entries(names).contains(names[i]),
{
    broadcast use Seq::lemma_filter_pred, Seq::lemma_filter_contains;

    let pred = |n: Seq<char>| qualifies(n);
    assert forall|i: int| 0 <= i < names.len() && qualifies(#[trigger] names[i]) implies
        spec_class_entries(names).contains(names[i]) by {
        assert(pred(names[i]));
        assert(names.filter(pred).contains(names[i]));
    }
}

pub(crate) fn class_suffix_chars() -> (r: Vec<char>)
    ensures
        r@ == class_suffix(),
{
    let mut v: Vec<char> = Vec::new();
    v.push('.');
    v.push('c');
    v.push('l');
    v.push('a');
    v.push('s');
    v.push('s');
    proof {
        assert(v@ =~= class_suffix());
    }
    v
}

fn meta_prefix_chars() -> (r: Vec<char>)
    ensures
        r@ == meta_prefix(),
{
    let mut v: Vec<char> = Vec::new();
    v.push('M');
    v.push('E');
    v.push('T');
    v.push('A');
    v.push('-');
    v.push('I');
    v.push('N');
    v.push('F');
    v.push('/');
    proof {
        assert(v@ =~= meta_prefix());
    }
    v
}

/// Keeps exactly the candidate class-file names, in their original order.
pub fn filter_class_names(names: &Vec<String>) -> (r: Vec<String>)
    ensures
        r@.map_values(|s: String| s@) == spec_class_entries(
            names@.map_values(|s: String| s@),
        ),
{
    let suffix = class_suffix_chars();
    let prefix = meta_prefix_chars();
    let ghost nv = names@.map_values(|s: String| s@);
    let mut out: Vec<String> = Vec::new();
    let mut i: usize = 0;
    proof {
        reveal(Seq::filter);
        assert(nv.take(0) =~= Seq::<Seq<char>>::empty());
        assert(out@.map_values(|s: String| s@) =~= spec_class_entries(nv.take(0)));
    }
    while i < names.len()
        invariant
            i <= names.len(),
            nv == names@.map_values(|s: String| s@),
            suffix@ == class_suffix(),
            prefix@ == meta_prefix(),
            out@.map_values(|s: String| s@) == spec_class_entries(nv.take(i as int)),
        decreases names.len() - i,
    {
        let name = &names[i];
        let keep = ends_with(name.as_str(), &suffix) && !starts_with(name.as_str(), &prefix);
        proof {
            reveal(Seq::filter);
            assert(nv[i as int] == names@[i as int]@);
            assert(nv.take(i as int + 1).drop_last() =~= nv.take(i as int));
            assert(nv.take(i as int + 1).last() == nv[i as int]);
            assert(spec_class_entries(nv.take(i as int + 1)) == (if qualifies(nv[i as int]) {
                spec_class_entries(nv.take(i as int)).push(nv[i as int])
            } else {
                spec_class_entries(nv.take(i as int))
            }));
            assert(keep == qualifies(nv[i as int]));
        }
        if keep {
            out.push(name.clone());
            proof {
                assert(out@.map_values(|s: String| s@) =~= spec_class_entries(
                    nv.take(i as int),
                ).push(nv[i as int]));
            }
        }
        i = i + 1;
    }
    proof {
        assert(nv.take(names@.len() as int) =~= nv);
    }
    out
}

/// Searches an open archive for all class-file entries outside of the
/// reserved metadata directory, in directory order.
pub fn get_class_files_in_jar(jar: &zip::ZipArchive<Cursor<Vec<u8>>>) -> (r: Vec<String>)
    ensures
        r@.map_values(|s: String| s@) == spec_class_entries(zip_names(archive_source(*jar))),
{
    let names = zip_entry_names(jar);
    filter_class_names(&names)
}

/// Whether the named entry of a zip container can be decompressed and then
/// parsed as a class file.
pub open spec fn entry_reads_ok(b: Seq<u8>, name: Seq<char>) -> bool {
    zip_entry_ok(b, name) && spec_parse_class(zip_entry_bytes(b, name)) is Ok
}

/// The class version carried by the named entry of a zip container.
pub open spec fn entry_class(b: Seq<u8>, name: Seq<char>) -> JavaClass {
    spec_parse_class(zip_entry_bytes(b, name))->Ok_0
}

/// The class versions of the first `i` named entries, in order.
pub open spec fn prefix_classes(b: Seq<u8>, names: Seq<Seq<char>>, i: int) -> Seq<JavaClass> {
    Seq::new(i as nat, |j: int| entry_class(b, names[j]))
}

/// What reading the named entries of a zip container in order returns: the
/// class version of each, or the error of the first entry that cannot be
/// decompressed or is not a class file.
pub open spec fn spec_read_all(b: Seq<u8>, names: Seq<Seq<char>>) -> Result<
    Seq<JavaClass>,
    ExtractedJarError,
>
    decreases names.len(),
{
    if names.len() == 0 {
        Ok(Seq::<JavaClass>::empty())
    } else if !zip_entry_ok(b, names[0]) {
        Err(ExtractedJarError::Zip)
    } else {
        match spec_parse_class(zip_entry_bytes(b, names[0])) {
            Result::Err(e) => Err(ExtractedJarError::JavaClass(e)),
            Result::Ok(c) => match spec_read_all(b, names.drop_first()) {
                Result::Err(e2) => Err(e2),
                Result::Ok(rest) => Ok(seq![c] + rest),
            },
        }
    }
}

/// Reading all named entries splits into the first `i`, when each of those
/// reads cleanly, and the remainder.
proof fn lemma_read_all_prefix(b: Seq<u8>, names: Seq<Seq<char>>, i: int)
    requires
        0 <= i <= names.len(),
        forall|j: int| 0 <= j < i ==> entry_reads_ok(b, #[trigger] names[j]),
    ensures
        spec_read_all(b, names) == (match spec_read_all(b, names.skip(i)) {
            Result::Ok(rest) => Result::<Seq<JavaClass>, ExtractedJarError>::Ok(
                prefix_classes(b, names, i) + rest,
            ),
            Result::Err(e) => Result::Err(e),
        }),
    decreases i,
{
    if i == 0 {
        assert(names.skip(0) =~= names);
        match spec_read_all(b, names) {
            Result::Ok(rest) => {
                assert(prefix_classes(b, names, 0) + rest =~= rest);
            },
            Result::Err(_) => {},
        }
    } else {
        lemma_read_all_prefix(b, names, i - 1);
        let s1 = names.skip(i - 1);
        assert(s1[0] == names[i - 1]);
        assert(s1.drop_first() =~= names.skip(i));
        assert(entry_reads_ok(b, names[i - 1]));
        let c = entry_class(b, names[i - 1]);
        match spec_read_all(b, names.skip(i)) {
            Result::Ok(rest) => {
                assert(spec_read_all(b, s1) == Result::<Seq<JavaClass>, ExtractedJarError>::Ok(
                    seq![c] + rest,
                ));
                assert(prefix_classes(b, names, i - 1) + (seq![c] + rest) =~= prefix_classes(
                    b,
                    names,
                    i,
                ) + rest);
            },
            Result::Err(e) => {
                assert(spec_read_all(b, s1) == Result::<Seq<JavaClass>, ExtractedJarError>::Err(e));
            },
        }
    }
}

/// What extracting the class versions out of a jar byte source returns, for
/// every byte source.
pub open spec fn spec_extract_jar(b: Seq<u8>) -> Result<Seq<JavaClass>, ExtractedJarError> {
    if b.len() < 4 {
        Err(ExtractedJarError::InsufficientBytes(b.len() as usize))
    } else if b.subrange(0, 4) != zip_magic() {
        Err(ExtractedJarError::NotAJar)
    } else if !zip_parse_ok(b) {
        Err(ExtractedJarError::Zip)
    } else {
        let candidates = spec_class_entries(zip_names(b));
        if candidates.len() == 0 {
            Err(ExtractedJarError::NoClassFiles)
        } else {
            spec_read_all(b, candidates)
        }
    }
}

/// A source of at least 4 bytes whose prefix is not the zip signature is
/// always rejected as not an archive.
pub proof fn lemma_wrong_magic_not_a_jar(b: Seq<u8>)
    requires
        b.len() >= 4,
        b.subrange(0, 4) != zip_magic(),
    ensures
        spec_extract_jar(b) == Result::<Seq<JavaClass>, ExtractedJarError>::Err(
            ExtractedJarError::NotAJar,
        ),
{
}

/// An archive that opens but holds no qualifying entry fails as holding no
/// class files, which is distinct from an archive that fails to open.
pub proof fn lemma_no_candidates_no_class_files(b: Seq<u8>)
    requires
        b.len() >= 4,
        b.subrange(0, 4) == zip_magic(),
        zip_parse_ok(b),
        spec_class_entries(zip_names(b)).len() == 0,
    ensures
        spec_extract_jar(b) == Result::<Seq<JavaClass>, ExtractedJarError>::Err(
            ExtractedJarError::NoClassFiles,
        ),
{
}

/// The class versions found inside one jar archive.
pub struct ExtractedJar {
    pub classfiles: Vec<JavaClass>,
}

impl ExtractedJar {
    /// Opens an in-memory byte source as a jar archive and reads the class
    /// version of every qualifying entry, in directory order.
    pub fn new(bytes: &Vec<u8>) -> (r: Result<ExtractedJar, ExtractedJarError>)
        ensures
            r is Ok <==> spec_extract_jar(bytes@) is Ok,
            r matches Ok(jar) ==> jar.classfiles@ == spec_extract_jar(bytes@)->Ok_0,
            r matches Err(e) ==> Err::<Seq<JavaClass>, ExtractedJarError>(e) == spec_extract_jar(
                bytes@,
            ),
    {
        if bytes.len() < 4 {
            return Err(ExtractedJarError::InsufficientBytes(bytes.len()));
        }
        if !(bytes[0] == 0x50 && bytes[1] == 0x4B && bytes[2] == 0x03 && bytes[3] == 0x04) {
            proof {
                let m = bytes@.subrange(0, 4);
                assert(m[0] == bytes@[0] && m[1] == bytes@[1] && m[2] == bytes@[2] && m[3]
                    == bytes@[3]);
                assert(m != zip_magic());
            }
            return Err(ExtractedJarError::NotAJar);
        }
        proof {
            assert(bytes@.subrange(0, 4) =~= zip_magic());
        }
        let mut archive = match zip_open(bytes) {
            Result::Err(_) => {
                return Err(ExtractedJarError::Zip);
            },
            Result::Ok(a) => a,
        };
        let candidates = get_class_files_in_jar(&archive);
        let ghost b = bytes@;
        let ghost cn = spec_class_entries(zip_names(b));
        proof {
            assert(candidates@.map_values(|s: String| s@) == cn);
            assert(candidates@.len() == cn.len());
        }
        if candidates.len() == 0 {
            return Err(ExtractedJarError::NoClassFiles);
        }
        let mut out: Vec<JavaClass> = Vec::new();
        let mut i: usize = 0;
        while i < candidates.len()
            invariant
                i <= candidates.len(),
                b == bytes@,
                candidates@.map_values(|s: String| s@) == cn,
                candidates@.len() == cn.len(),
                archive_source(archive) == b,
                spec_extract_jar(b) == spec_read_all(b, cn),
                forall|j: int| 0 <= j < i ==> entry_reads_ok(b, #[trigger] cn[j]),
                out@ == prefix_classes(b, cn, i as int),
            decreases candidates.len() - i,
        {
            let name = &candidates[i];
            proof {
                assert(cn[i as int] == candidates@[i as int]@);
            }
            let data = match zip_read_entry(&mut archive, name) {
                Result::Err(_) => {
                    proof {
                        lemma_read_all_prefix(b, cn, i as int);
                        assert(cn.skip(i as int)[0] == cn[i as int]);
                        assert(spec_read_all(b, cn.skip(i as int)) == Result::<
                            Seq<JavaClass>,
                            ExtractedJarError,
                        >::Err(ExtractedJarError::Zip));
                    }
                    return Err(ExtractedJarError::Zip);
                },
                Result::Ok(d) => d,
            };
            let class = match JavaClass::new(&data) {
                Result::Err(e) => {
                    proof {
                        lemma_read_all_prefix(b, cn, i as int);
                        assert(cn.skip(i as int)[0] == cn[i as int]);
                        assert(spec_read_all(b, cn.skip(i as int)) == Result::<
                            Seq<JavaClass>,
                            ExtractedJarError,
                        >::Err(ExtractedJarError::JavaClass(e)));
                    }
                    return Err(ExtractedJarError::JavaClass(e));
                },
                Result::Ok(c) => c,
            };
            out.push(class);
            proof {
                assert(out@ =~= prefix_classes(b, cn, i as int + 1));
            }
            i = i + 1;
        }
        proof {
            lemma_read_all_prefix(b, cn, cn.len() as int);
            assert(cn.skip(cn.len() as int) =~= Seq::<Seq<char>>::empty());
            assert(prefix_classes(b, cn, cn.len() as int) + Seq::<JavaClass>::empty() =~= out@);
        }
        Ok(ExtractedJar { classfiles: out })
    }
}

} // verus!
