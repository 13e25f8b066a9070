//! Class-file header parsing and the mapping from raw class versions to
//! public Java release numbers.

use vstd::prelude::*;
use vstd::string::StringExecFns;

verus! {

/// The raw major-version field of one class file: bytes 6 and 7 of its
/// header, big-endian.
#[derive(Debug, Clone, Copy, PartialEq, Eq, Structural, PartialOrd)]
pub struct JavaClass(pub u16);

/// A public Java release number. The value 0 is a sentinel meaning
/// "no class found", never a real release.
#[derive(Debug, Clone, Copy, PartialEq, Eq, Structural, PartialOrd, Ord)]
pub struct JavaVersion(pub u16);

/// Why a byte source could not be read as a class file.
#[derive(Debug, Clone, Copy, PartialEq, Eq, Structural)]
pub enum JavaClassError {
    /// Fewer than the 8 header bytes were available; holds the exact count.
    InsufficientBytes(usize),
    /// The first four bytes are not the class-file magic.
    NotAClassFile,
}

/// The fixed magic prefix of every class file.
pub open spec fn class_magic() -> Seq<u8> {
    seq![0xCAu8, 0xFEu8, 0xBAu8, 0xBEu8]
}

/// What parsing a class-file header returns, for every byte source.
pub open spec fn spec_parse_class(b: Seq<u8>) -> Result<JavaClass, JavaClassError> {
    if b.len() < 8 {
        Err(JavaClassError::InsufficientBytes(b.len() as usize))
    } else if b.subrange(0, 4) != class_magic() {
        Err(JavaClassError::NotAClassFile)
    } else {
        Ok(JavaClass((b[6] * 256 + b[7]) as u16))
    }
}

impl JavaClass {
    /// Reads the raw class version out of the first 8 bytes of an in-memory
    /// byte source; bytes beyond the header are never inspected.
    pub fn new(bytes: &Vec<u8>) -> (r: Result<JavaClass, JavaClassError>)
        ensures
            r == spec_parse_class(bytes@),
    {
        if bytes.len() < 8 {
            return Err(JavaClassError::InsufficientBytes(bytes.len()));
        }
        if bytes[0] == 0xCA && bytes[1] == 0xFE && bytes[2] == 0xBA && bytes[3] == 0xBE {
            proof {
                assert(bytes@.subrange(0, 4) =~= class_magic());
            }
            let hi = bytes[6];
            let lo = bytes[7];
            Ok(JavaClass((hi as u16) * 256 + (lo as u16)))
        } else {
            proof {
                let m = bytes@.subrange(0, 4);
                assert(m[0] == bytes@[0] && m[1] == bytes@[1] && m[2] == bytes@[2] && m[3]
                    == bytes@[3]);
                assert(m != class_magic());
            }
            Err(JavaClassError::NotAClassFile)
        }
    }
}

/// The release number that a raw class version stands for: the raw value
/// shifted down by the fixed offset 44, with u16 wrap-around below 44.
pub open spec fn release_of(raw: u16) -> u16 {
    if raw >= 44 {
        (raw - 44) as u16
    } else {
        (raw + 65536 - 44) as u16
    }
}

/// The raw class version shifted down by the fixed offset between the
/// class-file numbering and the public release numbering.
pub proof fn lemma_release_offset(raw: u16)
    requires
        raw >= 44,
    ensures
        release_of(raw) == raw - 44,
{
}

/// A source shorter than the 8-byte header always reports the exact count
/// of bytes it holds, never a magic mismatch.
pub proof fn lemma_short_source_insufficient(b: Seq<u8>)
    requires
        b.len() < 8,
    ensures
        spec_parse_class(b) == Err::<JavaClass, JavaClassError>(
            JavaClassError::InsufficientBytes(b.len() as usize),
        ),
{
}

/// A source of at least 8 bytes whose prefix is not the class-file magic is
/// always rejected as not a class file.
pub proof fn lemma_wrong_magic_not_a_class(b: Seq<u8>)
    requires
        b.len() >= 8,
        b.subrange(0, 4) != class_magic(),
    ensures
        spec_parse_class(b) == Err::<JavaClass, JavaClassError>(JavaClassError::NotAClassFile),
{
}

/// The decimal digit character for a value between 0 and 9.
pub open spec fn spec_digit(d: int) -> char {
    if d == 0 {
        '0'
    } else if d == 1 {
        '1'
    } else if d == 2 {
        '2'
    } else if d == 3 {
        '3'
    } else if d == 4 {
        '4'
    } else if d == 5 {
        '5'
    } else if d == 6 {
        '6'
    } else if d == 7 {
        '7'
    } else if d == 8 {
        '8'
    } else {
        '9'
    }
}

/// The decimal digits of a non-negative value, most significant first;
/// empty for 0.
pub open spec fn spec_decimal(n: int) -> Seq<char>
    decreases n,
{
    if n <= 0 {
        Seq::<char>::empty()
    } else {
        spec_decimal(n / 10).push(spec_digit(n % 10))
    }
}

/// The decimal rendering of a release number, with no leading zeros.
pub open spec fn spec_release_digits(n: u16) -> Seq<char> {
    if n == 0 {
        seq!['0']
    } else {
        spec_decimal(n as int)
    }
}

/// The human-readable form of a release number.
pub open spec fn spec_version_display(n: u16) -> Seq<char> {
    seq!['(', 'J', 'a', 'v', 'a', ' '] + spec_release_digits(n) + seq![')']
}

/// The decimal digits of some value, least significant first, read back in
/// display order.
pub open spec fn rev_chars(s: Seq<u8>) -> Seq<char> {
    Seq::new(s.len(), |k: int| spec_digit(s[s.len() - 1 - k] as int))
}

fn append_digit(s: &mut String, d: u8)
    requires
        d < 10,
    ensures
        final (s)@ == old(s)@.push(spec_digit(d as int)),
{
    let piece: &str = if d == 0 {
        "0"
    } else if d == 1 {
        "1"
    } else if d == 2 {
        "2"
    } else if d == 3 {
        "3"
    } else if d == 4 {
        "4"
    } else if d == 5 {
        "5"
    } else if d == 6 {
        "6"
    } else if d == 7 {
        "7"
    } else if d == 8 {
        "8"
    } else {
        "9"
    };
    proof {
        reveal_strlit("0");
        reveal_strlit("1");
        reveal_strlit("2");
        reveal_strlit("3");
        reveal_strlit("4");
        reveal_strlit("5");
        reveal_strlit("6");
        reveal_strlit("7");
        reveal_strlit("8");
        reveal_strlit("9");
        assert(piece@ =~= seq![spec_digit(d as int)]);
    }
    s.append(piece);
    proof {
        assert(old(s)@ + piece@ =~= old(s)@.push(spec_digit(d as int)));
    }
}

fn render_version(n: u16) -> (r: String)
    ensures
        r@ == spec_version_display(n),
{
    let mut s = String::from_str("(Java ");
    proof {
        reveal_strlit("(Java ");
        assert(s@ =~= seq!['(', 'J', 'a', 'v', 'a', ' ']);
    }
    let ghost header = s@;
    if n == 0 {
        append_digit(&mut s, 0);
    } else {
        let mut rev: Vec<u8> = Vec::new();
        let mut cur: u16 = n;
        proof {
            assert(spec_decimal(n as int) =~= spec_decimal(cur as int) + rev_chars(rev@));
        }
        while cur > 0
            invariant
                forall|k: int| 0 <= k < rev@.len() ==> rev@[k] < 10,
                spec_decimal(n as int) == spec_decimal(cur as int) + rev_chars(rev@),
            decreases cur,
        {
            let ghost prev = cur as int;
            let ghost old_rev = rev@;
            let d = (cur % 10) as u8;
            rev.push(d);
            cur = cur / 10;
            proof {
                assert(spec_decimal(prev) == spec_decimal(prev / 10).push(spec_digit(prev % 10)));
                assert(rev_chars(old_rev.push(d)) =~= seq![spec_digit(d as int)] + rev_chars(
                    old_rev,
                ));
                assert(spec_decimal(prev / 10) + rev_chars(old_rev.push(d)) =~= spec_decimal(
                    prev,
                ) + rev_chars(old_rev));
            }
        }
        let ghost digits = rev_chars(rev@);
        proof {
            assert(spec_decimal(n as int) =~= digits);
        }
        let mut j: usize = rev.len();
        proof {
            assert(s@ =~= header + digits.take(rev@.len() - j));
        }
        while j > 0
            invariant
                j <= rev@.len(),
                forall|k: int| 0 <= k < rev@.len() ==> rev@[k] < 10,
                digits == rev_chars(rev@),
                s@ == header + digits.take(rev@.len() - j),
            decreases j,
        {
            j = j - 1;
            append_digit(&mut s, rev[j]);
            proof {
                let done = rev@.len() - j;
                assert(digits[done - 1] == spec_digit(rev@[j as int] as int));
                assert(header + digits.take(done - 1) + seq![spec_digit(rev@[j as int] as int)]
                    =~= header + digits.take(done));
            }
        }
        proof {
            assert(digits.take(rev@.len() as int) =~= digits);
        }
    }
    s.append(")");
    proof {
        reveal_strlit(")");
        assert(s@ =~= spec_version_display(n));
    }
    s
}

impl From<JavaClass> for JavaVersion {
    fn from(value: JavaClass) -> (r: JavaVersion) {
        if value.0 >= 44 {
            JavaVersion(value.0 - 44)
        } else {
            JavaVersion(((value.0 as u32) + 65536 - 44) as u16)
        }
    }
}

impl vstd::std_specs::convert::FromSpecImpl<JavaClass> for JavaVersion {
    open spec fn obeys_from_spec() -> bool {
        true
    }

    open spec fn from_spec(v: JavaClass) -> JavaVersion {
        JavaVersion(release_of(v.0))
    }
}

/// The highest release among a sequence of raw class versions, or the
/// sentinel 0 when the sequence is empty.
pub open spec fn max_release(raws: Seq<u16>) -> u16
    decreases raws.len(),
{
    if raws.len() == 0 {
        0u16
    } else {
        let head = release_of(raws[0]);
        let rest = max_release(raws.drop_first());
        if head >= rest {
            head
        } else {
            rest
        }
    }
}

/// What aggregating many class versions into one verdict returns.
pub open spec fn spec_aggregate(raws: Seq<u16>) -> JavaVersion {
    JavaVersion(max_release(raws))
}

/// The aggregate of a collection of class versions is the highest release
/// among them: no release exceeds it, it is attained by some element
/// whenever there is one, and it is the sentinel 0 only by default.
pub proof fn lemma_aggregate_is_max(raws: Seq<u16>)
    ensures
        forall|i: int| 0 <= i < raws.len() ==> release_of(#[trigger] raws[i]) <= max_release(raws),
        raws.len() > 0 ==> exists|i: int|
            0 <= i < raws.len() && release_of(raws[i]) == max_release(raws),
        raws.len() == 0 ==> max_release(raws) == 0,
    decreases raws.len(),
{
    if raws.len() > 0 {
        let rest = raws.drop_first();
        lemma_aggregate_is_max(rest);
        assert forall|i: int| 0 <= i < raws.len() implies release_of(#[trigger] raws[i])
            <= max_release(raws) by {
            if i > 0 {
                assert(rest[i - 1] == raws[i]);
                assert(release_of(rest[i - 1]) <= max_release(rest));
            }
        }
        if release_of(raws[0]) >= max_release(rest) {
            assert(release_of(raws[0]) == max_release(raws));
        } else {
            let j = choose|j: int|
                0 <= j < rest.len() && release_of(rest[j]) == max_release(rest);
            assert(release_of(raws[j + 1]) == max_release(raws));
        }
    }
}

impl JavaVersion {
    /// The human-readable form of this release.
    pub fn to_display_string(&self) -> (r: String)
        ensures
            r@ == spec_version_display(self.0),
    {
        render_version(self.0)
    }

    /// Maps every class to its release and returns the maximum, or the
    /// sentinel release 0 for an empty collection.
    pub fn from_iter(classes: Vec<JavaClass>) -> (r: JavaVersion)
        ensures
            r == spec_aggregate(classes@.map_values(|c: JavaClass| c.0)),
    {
        let ghost raws = classes@.map_values(|c: JavaClass| c.0);
        let mut cur: u16 = 0;
        let mut i: usize = classes.len();
        proof {
            assert(raws.skip(i as int) =~= Seq::<u16>::empty());
        }
        while i > 0
            invariant
                i <= classes.len(),
                raws == classes@.map_values(|c: JavaClass| c.0),
                cur == max_release(raws.skip(i as int)),
            decreases i,
        {
            i = i - 1;
            let v = JavaVersion::from(classes[i]);
            proof {
                assert(raws[i as int] == classes@[i as int].0);
                assert(raws.skip(i as int)[0] == raws[i as int]);
                assert(raws.skip(i as int).drop_first() =~= raws.skip(i as int + 1));
            }
            if v.0 >= cur {
                cur = v.0;
            }
        }
        proof {
            assert(raws.skip(0) =~= raws);
        }
        JavaVersion(cur)
    }
}

} // verus!
