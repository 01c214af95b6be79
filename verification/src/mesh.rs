//! Mesh loaders and the resolution of `package://` URLs used in robot
//! descriptions.

use std::path::Path;
use vstd::prelude::*;
use crate::text::{spec_to_lowercase, starts_with, str_eq, to_lowercase};

verus! {

/// What `Path::extension` gives for the path `path`, as text.
pub uninterp spec fn spec_path_extension(path: Seq<char>) -> Option<Seq<char>>;

/// `Path::extension` of the path `path`, as text: the part of the file name
/// after its last dot, when there is one that does not start the name. Named
/// by `spec_path_extension`; nothing more is claimed of it.
#[verifier::external_body]
fn path_extension(path: &str) -> (r: Option<String>)
    ensures
        match r {
            Some(e) => spec_path_extension(path@) == Some(e@),
            None => spec_path_extension(path@) is None,
        },
{
    match Path::new(path).extension() {
        Some(e) => Some(e.to_string_lossy().into_owned()),
        None => None,
    }
}

/// Loader of STL mesh files.
#[derive(Debug, Clone, Copy, Default)]
pub struct StlLoader;

impl StlLoader {
    /// Create a new STL loader.
    pub fn new() -> (r: Self)
        ensures
            r == StlLoader,
    {
        StlLoader
    }

    /// The file extensions this loader reads.
    pub fn supported_extensions(&self) -> (r: Vec<String>)
        ensures
            r@.len() == 1,
            r@[0]@ == "stl"@,
    {
        let mut v: Vec<String> = Vec::new();
        v.push("stl".to_string());
        v
    }

    /// Whether the file at `path` has an extension this loader reads, in any
    /// case.
    pub fn supports(&self, path: &str) -> (r: bool)
        ensures
            r == match spec_path_extension(path@) {
                Some(e) => spec_to_lowercase(e) == "stl"@,
                None => false,
            },
    {
        match path_extension(path) {
            Some(e) => {
                let lower = to_lowercase(e.as_str());
                str_eq(lower.as_str(), "stl")
            },
            None => false,
        }
    }
}

/// The scheme prefix of package URLs.
pub open spec fn package_scheme() -> Seq<char> {
    "package://"@
}

/// `p` is the position of the first `c` in `s`.
pub open spec fn is_first_char(s: Seq<char>, c: char, p: int) -> bool {
    &&& 0 <= p < s.len()
    &&& s[p] == c
    &&& forall|j: int| 0 <= j < p ==> s[j] != c
}

/// The package name and the path within the package named by a package URL
/// (`package://<package>/<path>`); none when no `/` follows the package name.
pub open spec fn package_parts(url: Seq<char>) -> Option<(Seq<char>, Seq<char>)> {
    let rest = url.skip(10);
    if exists|p: int| is_first_char(rest, '/', p) {
        let p = choose|p: int| is_first_char(rest, '/', p);
        Some((rest.take(p), rest.skip(p + 1)))
    } else {
        None
    }
}

/// `url` is a package URL.
pub open spec fn is_package_url(url: Seq<char>) -> bool {
    10 <= url.len() && url.take(10) == package_scheme()
}

/// The file a package URL names under the search directory `base`.
pub open spec fn package_candidate(base: Seq<char>, package: Seq<char>, path: Seq<char>) -> Seq<
    char,
> {
    base + "/"@ + package + "/"@ + path
}

/// `Path::exists`: whether something is found at `path` on disk. The answer
/// depends on the file system; nothing is claimed of it.
#[verifier::external_body]
fn path_exists(path: &str) -> bool {
    std::path::Path::new(path).exists()
}

/// Splits a package URL into its package name and the path within the
/// package.
pub fn split_package_url(url: &str) -> (r: Option<(String, String)>)
    requires
        is_package_url(url@),
    ensures
        match r {
            Some((a, b)) => package_parts(url@) == Some((a@, b@)),
            None => package_parts(url@) is None,
        },
{
    let n = url.unicode_len();
    let ghost rest = url@.skip(10);
    let mut i: usize = 10;
    while i < n
        invariant
            n == url@.len(),
            10 <= i <= n,
            rest == url@.skip(10),
            forall|j: int| 0 <= j < i - 10 ==> rest[j] != '/',
        decreases n - i,
    {
        if url.get_char(i) == '/' {
            let ghost p = i - 10;
            assert(is_first_char(rest, '/', p));
            let ghost q = choose|q: int| is_first_char(rest, '/', q);
            assert(q == p) by {
                if q < p {
                    assert(rest[q] != '/');
                }
                if q > p {
                    assert(rest[p] != '/');
                }
            }
            let package = url.substring_char(10, i).to_owned();
            let path = url.substring_char(i + 1, n).to_owned();
            assert(package@ =~= rest.take(p));
            assert(path@ =~= rest.skip(p + 1));
            return Some((package, path));
        }
        i = i + 1;
    }
    assert forall|p: int| !is_first_char(rest, '/', p) by {
        if is_first_char(rest, '/', p) {
            assert(rest[p] != '/');
        }
    }
    None
}

/// What a URL asks to look for.
#[derive(Debug)]
pub enum PackageLookup {
    /// Not a package URL: it is used as it is
    Direct(String),
    /// A package URL that names no path within the package
    Malformed,
    /// A package URL: the files to look for, one per search directory, in order
    Candidates(Vec<String>),
}

/// The files a package URL names under the search directories `dirs`.
pub open spec fn candidates_of(dirs: Seq<&str>, package: Seq<char>, path: Seq<char>) -> Seq<
    Seq<char>,
> {
    Seq::new(dirs.len(), |k: int| package_candidate(dirs[k]@, package, path))
}

/// Classify `url`: a plain URL, a malformed package URL, or the files to look
/// for under each search directory, as `<dir>/<package>/<path>`.
pub fn package_candidates(url: &str, package_paths: &[&str]) -> (r: PackageLookup)
    ensures
        !is_package_url(url@) ==> (r matches PackageLookup::Direct(s) && s@ == url@),
        is_package_url(url@) ==> match package_parts(url@) {
            None => r is Malformed,
            Some((package, path)) => r matches PackageLookup::Candidates(c) && c@.map_values(
                |x: String| x@,
            ) == candidates_of(package_paths@, package, path),
        },
{
    if !starts_with(url, "package://") {
        return PackageLookup::Direct(url.to_string());
    }
    proof {
        reveal_strlit("package://");
    }
    assert(url@.subrange(0, 10) == url@.take(10));
    let (package, path) = match split_package_url(url) {
        Some(parts) => parts,
        None => {
            return PackageLookup::Malformed;
        },
    };
    let ghost want = candidates_of(package_paths@, package@, path@);
    let mut out: Vec<String> = Vec::new();
    let mut k: usize = 0;
    while k < package_paths.len()
        invariant
            k <= package_paths@.len(),
            want == candidates_of(package_paths@, package@, path@),
            out@.len() == k,
            out@.map_values(|x: String| x@) == want.take(k as int),
        decreases package_paths@.len() - k,
    {
        let mut full = package_paths[k].to_owned();
        full.append("/");
        full.append(package.as_str());
        full.append("/");
        full.append(path.as_str());
        assert(full@ == want[k as int]);
        let ghost before = out@;
        out.push(full);
        assert forall|i: int| 0 <= i < k implies out@[i]@ == want[i] by {
            assert(out@[i] == before[i]);
            assert(before.map_values(|x: String| x@)[i] == want.take(k as int)[i]);
        }
        assert(out@.map_values(|x: String| x@) =~= want.take(k as int + 1));
        k = k + 1;
    }
    assert(want.take(k as int) =~= want);
    PackageLookup::Candidates(out)
}

/// The first of `candidates` whose flag in `exists` is set, if any.
pub open spec fn first_flagged(candidates: Seq<Seq<char>>, exists: Seq<bool>) -> Option<Seq<char>>
    decreases candidates.len(),
{
    if candidates.len() == 0 || exists.len() == 0 {
        None
    } else if exists[0] {
        Some(candidates[0])
    } else {
        first_flagged(candidates.drop_first(), exists.drop_first())
    }
}

/// The first candidate, in order, that was found to exist.
pub fn first_existing(candidates: &Vec<String>, exists: &Vec<bool>) -> (r: Option<String>)
    requires
        candidates@.len() == exists@.len(),
    ensures
        match r {
            Some(s) => first_flagged(candidates@.map_values(|x: String| x@), exists@) == Some(s@),
            None => first_flagged(candidates@.map_values(|x: String| x@), exists@) is None,
        },
{
    let ghost cs = candidates@.map_values(|x: String| x@);
    let mut k: usize = 0;
    assert(cs.skip(0) =~= cs);
    assert(exists@.skip(0) =~= exists@);
    while k < candidates.len()
        invariant
            k <= candidates@.len(),
            candidates@.len() == exists@.len(),
            cs == candidates@.map_values(|x: String| x@),
            first_flagged(cs, exists@) == first_flagged(cs.skip(k as int), exists@.skip(k as int)),
        decreases candidates@.len() - k,
    {
        proof {
            assert(cs.skip(k as int).drop_first() =~= cs.skip(k as int + 1));
            assert(exists@.skip(k as int).drop_first() =~= exists@.skip(k as int + 1));
        }
        if exists[k] {
            let found = candidates[k].clone();
            assert(cs.skip(k as int)[0] == found@);
            return Some(found);
        }
        k = k + 1;
    }
    None
}

/// Whether something is found at each of `paths`, in order.
fn existence_of(paths: &Vec<String>) -> (r: Vec<bool>)
    ensures
        r@.len() == paths@.len(),
{
    let mut out: Vec<bool> = Vec::new();
    let mut k: usize = 0;
    while k < paths.len()
        invariant
            k <= paths@.len(),
            out@.len() == k,
        decreases paths@.len() - k,
    {
        out.push(path_exists(paths[k].as_str()));
        k = k + 1;
    }
    out
}

/// Resolve a `package://` URL used in ROS robot descriptions.
///
/// Any other URL is returned unchanged. A package URL is looked up under each
/// search directory in turn, as `<dir>/<package>/<path>`; the first file
/// found on disk is returned. None is returned when the URL names no path
/// within the package, or nothing is found. Which files exist depends on the
/// disk: whatever the answers, the result is the first candidate answered as
/// existing (`first_existing`), so it is one of the candidates.
pub fn resolve_package_url(url: &str, package_paths: &[&str]) -> (r: Option<String>)
    ensures
        !is_package_url(url@) ==> (r matches Some(s) && s@ == url@),
        is_package_url(url@) ==> match package_parts(url@) {
            None => r is None,
            Some((package, path)) => {
                &&& exists|found: Seq<bool>|
                    found.len() == package_paths@.len() && #[trigger] first_flagged(
                        candidates_of(package_paths@, package, path),
                        found,
                    ) == match r {
                        Some(s) => Some(s@),
                        None => None::<Seq<char>>,
                    }
                &&& match r {
                    None => true,
                    Some(s) => candidates_of(package_paths@, package, path).contains(s@),
                }
            },
        },
{
    match package_candidates(url, package_paths) {
        PackageLookup::Direct(s) => Some(s),
        PackageLookup::Malformed => None,
        PackageLookup::Candidates(c) => {
            let found = existence_of(&c);
            let r = first_existing(&c, &found);
            proof {
                let cs = c@.map_values(|x: String| x@);
                lemma_first_flagged_member(cs, found@);
            }
            r
        },
    }
}

/// What `first_flagged` picks is one of the candidates.
proof fn lemma_first_flagged_member(candidates: Seq<Seq<char>>, exists: Seq<bool>)
    ensures
        first_flagged(candidates, exists) matches Some(s) ==> candidates.contains(s),
    decreases candidates.len(),
{
    if candidates.len() > 0 && exists.len() > 0 {
        if exists[0] {
            assert(candidates[0] == candidates[0]);
        } else {
            lemma_first_flagged_member(candidates.drop_first(), exists.drop_first());
            if let Some(s) = first_flagged(candidates, exists) {
                let j = choose|j: int| 0 <= j < candidates.drop_first().len() && candidates.drop_first()[j] == s;
                assert(candidates[j + 1] == s);
            }
        }
    }
}

} // verus!
