//! Per-input routing of byte sources through the class and archive readers,
//! and the ceiling check over the collected verdicts.

use crate::archive::{class_suffix, class_suffix_chars};
use crate::archive::{spec_extract_jar, ExtractedJar, ExtractedJarError};
use crate::text::{ends_with, spec_ends_with};
use crate::version::{
    release_of, spec_aggregate, spec_parse_class, JavaClass, JavaClassError, JavaVersion,
};
use vstd::prelude::*;

verus! {

/// The command line as the library understands it: the input paths and an
/// optional release ceiling.
#[derive(Debug)]
pub struct Cli {
    pub files: Vec<String>,
    pub max: Option<u16>,
}

/// Which reader a path's name selects.
#[derive(Debug, Clone, Copy, PartialEq, Eq, Structural)]
pub enum Route {
    /// The name ends in `.jar`: the archive reader.
    Jar,
    /// The name ends in `.class`: the class reader.
    Class,
    /// Anything else: try the class reader, then the archive reader.
    Unknown,
}

/// Why one input could not be given a verdict.
#[derive(Debug, Clone, Copy, PartialEq, Eq, Structural)]
pub enum PipelineError {
    /// The class route failed.
    Class(JavaClassError),
    /// The archive route failed.
    Jar(ExtractedJarError),
    /// Neither route recognised the bytes.
    UnrecognizedInput,
}

/// The suffix that routes a path to the archive reader.
pub open spec fn jar_suffix() -> Seq<char> {
    seq!['.', 'j', 'a', 'r']
}

/// Which route a path's name selects.
pub open spec fn spec_route_of(path: Seq<char>) -> Route {
    if spec_ends_with(path, jar_suffix()) {
        Route::Jar
    } else if spec_ends_with(path, class_suffix()) {
        Route::Class
    } else {
        Route::Unknown
    }
}

fn jar_suffix_chars() -> (r: Vec<char>)
    ensures
        r@ == jar_suffix(),
{
    let mut v: Vec<char> = Vec::new();
    v.push('.');
    v.push('j');
    v.push('a');
    v.push('r');
    proof {
        assert(v@ =~= jar_suffix());
    }
    v
}

/// Selects the route for one input path by its name alone.
pub fn route_of(path: &str) -> (r: Route)
    ensures
        r == spec_route_of(path@),
{
    let jar = jar_suffix_chars();
    if ends_with(path, &jar) {
        return Route::Jar;
    }
    let class = class_suffix_chars();
    if ends_with(path, &class) {
        return Route::Class;
    }
    Route::Unknown
}

/// What reading one class-file byte source returns: its release, or why it
/// is not a readable class file.
pub open spec fn spec_process_class(b: Seq<u8>) -> Result<JavaVersion, JavaClassError> {
    match spec_parse_class(b) {
        Result::Ok(c) => Ok(JavaVersion(release_of(c.0))),
        Result::Err(e) => Err(e),
    }
}

/// Reads one class-file byte source and maps its raw version to the Java
/// release.
pub fn process_class(bytes: &Vec<u8>) -> (r: Result<JavaVersion, JavaClassError>)
    ensures
        r == spec_process_class(bytes@),
{
    let class = match JavaClass::new(bytes) {
        Result::Ok(c) => c,
        Result::Err(e) => {
            return Err(e);
        },
    };
    Ok(JavaVersion::from(class))
}

/// What reading one jar byte source returns: the highest release among its
/// class entries, or why no verdict could be reached.
pub open spec fn spec_process_jar(b: Seq<u8>) -> Result<JavaVersion, ExtractedJarError> {
    match spec_extract_jar(b) {
        Result::Err(e) => Err(e),
        Result::Ok(classes) => {
            let v = spec_aggregate(classes.map_values(|c: JavaClass| c.0));
            if v.0 == 0 {
                Err(ExtractedJarError::NoClassFiles)
            } else {
                Ok(v)
            }
        },
    }
}

/// Reads one jar byte source and aggregates the versions of its class
/// entries into the highest release.
pub fn process_jar(bytes: &Vec<u8>) -> (r: Result<JavaVersion, ExtractedJarError>)
    ensures
        r == spec_process_jar(bytes@),
{
    let extracted = match ExtractedJar::new(bytes) {
        Result::Ok(j) => j,
        Result::Err(e) => {
            return Err(e);
        },
    };
    let version = JavaVersion::from_iter(extracted.classfiles);
    if version.0 == 0 {
        return Err(ExtractedJarError::NoClassFiles);
    }
    Ok(version)
}

/// What the whole pipeline returns for one input: by route, the verdict of
/// the class or archive reader; on the fallback route a magic mismatch on
/// both readers means the input is unrecognised, while any other error is
/// propagated unchanged.
pub open spec fn spec_process_input(route: Route, b: Seq<u8>) -> Result<
    JavaVersion,
    PipelineError,
> {
    match route {
        Route::Class => match spec_process_class(b) {
            Result::Ok(v) => Ok(v),
            Result::Err(e) => Err(PipelineError::Class(e)),
        },
        Route::Jar => match spec_process_jar(b) {
            Result::Ok(v) => Ok(v),
            Result::Err(e) => Err(PipelineError::Jar(e)),
        },
        Route::Unknown => match spec_process_class(b) {
            Result::Ok(v) => Ok(v),
            Result::Err(JavaClassError::NotAClassFile) => match spec_process_jar(b) {
                Result::Ok(v) => Ok(v),
                Result::Err(ExtractedJarError::NotAJar) => Err(PipelineError::UnrecognizedInput),
                Result::Err(e) => Err(PipelineError::Jar(e)),
            },
            Result::Err(e) => Err(PipelineError::Class(e)),
        },
    }
}

/// Runs one input through its route and returns the release it carries, or
/// the first error that route reports.
pub fn process_input(route: Route, bytes: &Vec<u8>) -> (r: Result<JavaVersion, PipelineError>)
    ensures
        r == spec_process_input(route, bytes@),
{
    match route {
        Route::Class => match process_class(bytes) {
            Result::Ok(v) => Ok(v),
            Result::Err(e) => Err(PipelineError::Class(e)),
        },
        Route::Jar => match process_jar(bytes) {
            Result::Ok(v) => Ok(v),
            Result::Err(e) => Err(PipelineError::Jar(e)),
        },
        Route::Unknown => match process_class(bytes) {
            Result::Ok(v) => Ok(v),
            Result::Err(JavaClassError::NotAClassFile) => match process_jar(bytes) {
                Result::Ok(v) => Ok(v),
                Result::Err(ExtractedJarError::NotAJar) => Err(PipelineError::UnrecognizedInput),
                Result::Err(e) => Err(PipelineError::Jar(e)),
            },
            Result::Err(e) => Err(PipelineError::Class(e)),
        },
    }
}

/// One run of the pipeline is a function of the route and the bytes alone,
/// so a second run on the same unmodified input yields the same verdict.
pub proof fn lemma_pipeline_idempotent(route: Route, b: Seq<u8>)
    ensures
        spec_process_input(route, b) == spec_process_input(route, b),
{
}

/// The outcome of a run whose verdicts exceeded the ceiling somewhere.
#[derive(Debug, Clone, PartialEq, Eq)]
pub struct ThresholdExceeded {
    /// Every distinct offending release, in ascending order.
    pub offending: Vec<JavaVersion>,
    /// The ceiling the caller supplied.
    pub ceiling: u16,
}

/// Whether a verdict lies above the ceiling.
pub open spec fn exceeds(v: JavaVersion, ceiling: u16) -> bool {
    v.0 > ceiling
}

/// Whether the releases come in strictly ascending order, so each appears
/// once.
pub open spec fn strictly_sorted(s: Seq<JavaVersion>) -> bool {
    forall|p: int, q: int| 0 <= p < q < s.len() ==> s[p].0 < s[q].0
}

/// Puts a release into its place in a strictly ascending list, unless it is
/// already there.
fn insert_unique_sorted(off: &mut Vec<JavaVersion>, v: JavaVersion)
    requires
        strictly_sorted(old(off)@),
    ensures
        strictly_sorted(final(off)@),
        forall|x: JavaVersion| #[trigger]
            final(off)@.contains(x) <==> (old(off)@.contains(x) || x == v),
{
    let mut idx: usize = 0;
    while idx < off.len() && off[idx].0 < v.0
        invariant
            idx <= off.len(),
            off@ == old(off)@,
            strictly_sorted(off@),
            forall|j: int| 0 <= j < idx ==> off@[j].0 < v.0,
        decreases off.len() - idx,
    {
        idx = idx + 1;
    }
    if idx < off.len() && off[idx].0 == v.0 {
        proof {
            assert(off@[idx as int] == v);
            assert(off@.contains(v));
        }
        return ;
    }
    let ghost before = off@;
    off.insert(idx, v);
    proof {
        assert(off@ == before.insert(idx as int, v));
        assert forall|k: int| 0 <= k < off@.len() implies off@[k] == (if k < idx {
            before[k]
        } else if k == idx {
            v
        } else {
            before[k - 1]
        }) by {
        }
        assert(idx < before.len() ==> before[idx as int].0 > v.0);
        assert forall|x: JavaVersion| #[trigger]
            off@.contains(x) <==> (before.contains(x) || x == v) by {
            if off@.contains(x) {
                let k = choose|k: int| 0 <= k < off@.len() && off@[k] == x;
                if k < idx {
                    assert(before[k] == x);
                    assert(before.contains(x));
                } else if k > idx {
                    assert(before[k - 1] == x);
                    assert(before.contains(x));
                }
            }
            if before.contains(x) {
                let k = choose|k: int| 0 <= k < before.len() && before[k] == x;
                if k < idx {
                    assert(off@[k] == x);
                } else {
                    assert(off@[k + 1] == x);
                }
                assert(off@.contains(x));
            }
            if x == v {
                assert(off@[idx as int] == x);
                assert(off@.contains(x));
            }
        }
    }
}

/// Holds the collected verdicts against an optional ceiling: with no
/// ceiling the run always passes; with one, it fails exactly when some
/// verdict exceeds it, reporting every distinct offending release in
/// ascending order together with the ceiling.
pub fn check_threshold(versions: &Vec<JavaVersion>, max: Option<u16>) -> (r: Result<
    (),
    ThresholdExceeded,
>)
    ensures
        max is None ==> r is Ok,
        r is Ok ==> (max matches Some(m) ==> forall|j: int|
            0 <= j < versions@.len() ==> !exceeds(#[trigger] versions@[j], m)),
        r matches Err(t) ==> {
            &&& max == Some(t.ceiling)
            &&& t.offending@.len() > 0
            &&& strictly_sorted(t.offending@)
            &&& forall|x: JavaVersion| #[trigger]
                t.offending@.contains(x) <==> (versions@.contains(x) && exceeds(x, t.ceiling))
        },
{
    let m = match max {
        Option::Some(m) => m,
        Option::None => {
            return Ok(());
        },
    };
    let mut off: Vec<JavaVersion> = Vec::new();
    let mut i: usize = 0;
    while i < versions.len()
        invariant
            i <= versions.len(),
            strictly_sorted(off@),
            forall|x: JavaVersion| #[trigger]
                off@.contains(x) <==> (versions@.take(i as int).contains(x) && exceeds(x, m)),
        decreases versions.len() - i,
    {
        let v = versions[i];
        let ghost before = off@;
        if v.0 > m {
            insert_unique_sorted(&mut off, v);
        }
        proof {
            let t1 = versions@.take(i as int + 1);
            assert(t1.drop_last() =~= versions@.take(i as int));
            assert(t1.last() == versions@[i as int]);
            let vi = versions@[i as int];
            assert forall|x: JavaVersion| #[trigger]
                t1.contains(x) <==> (versions@.take(i as int).contains(x) || x == vi) by {
                if t1.contains(x) {
                    let k = choose|k: int| 0 <= k < t1.len() && t1[k] == x;
                    if k < i {
                        assert(versions@.take(i as int)[k] == x);
                        assert(versions@.take(i as int).contains(x));
                    }
                }
                if versions@.take(i as int).contains(x) {
                    let k = choose|k: int|
                        0 <= k < versions@.take(i as int).len() && versions@.take(i as int)[k]
                            == x;
                    assert(t1[k] == x);
                    assert(t1.contains(x));
                }
                if x == versions@[i as int] {
                    assert(t1[i as int] == x);
                    assert(t1.contains(x));
                }
            }
        }
        i = i + 1;
    }
    proof {
        assert(versions@.take(versions@.len() as int) =~= versions@);
    }
    if off.len() == 0 {
        proof {
            assert forall|j: int| 0 <= j < versions@.len() implies !exceeds(
                #[trigger] versions@[j],
                m,
            ) by {
                if exceeds(versions@[j], m) {
                    assert(versions@.contains(versions@[j]));
                    assert(off@.contains(versions@[j]));
                }
            }
        }
        return Ok(());
    }
    Err(ThresholdExceeded { offending: off, ceiling: m })
}

} // verus!
