//! What a copy from a GitHub repository takes out of its archive.
//!
//! GitHub serves a repository at a ref as one ZIP archive whose entries all sit
//! under a `repo-ref/` directory. A copy takes the requested path out of it,
//! and the license files at the repository root beside it.

use vstd::prelude::*;

use crate::archive::{
    extract_from_bytes, extraction, files_map, find_archive_prefix, first_dir, is_root_license,
    root_license, zip_listing, ArchiveError,
};
use crate::names::{entry_get, NameMap};
use crate::text::{owned, push_str};

verus! {

/// The files of a GitHub copy: those under the requested path, by their path
/// in the repository, and the license files at the repository root.
#[derive(Debug)]
pub struct GitHubFetchResult {
    pub files: NameMap<Vec<u8>>,
    pub license_files: Vec<(String, Vec<u8>)>,
}

/// Where GitHub serves an archive of `owner/repo` at `version`.
pub open spec fn archive_url_spec(base: Seq<char>, owner: Seq<char>, repo: Seq<char>, version: Seq<char>) -> Seq<char> {
    base + "/"@ + owner + "/"@ + repo + "/archive/"@ + version + ".zip"@
}

/// The URL of a repository archive at a ref.
pub fn archive_url(base: &str, owner: &str, repo: &str, version: &str) -> (r: String)
    ensures
        r@ == archive_url_spec(base@, owner@, repo@, version@),
{
    let mut u = owned(base);
    push_str(&mut u, "/");
    push_str(&mut u, owner);
    push_str(&mut u, "/");
    push_str(&mut u, repo);
    push_str(&mut u, "/archive/");
    push_str(&mut u, version);
    push_str(&mut u, ".zip");
    u
}

/// Where the GitHub API tells which commit a ref names.
pub open spec fn commit_url_spec(api: Seq<char>, owner: Seq<char>, repo: Seq<char>, version: Seq<char>) -> Seq<char> {
    api + "/repos/"@ + owner + "/"@ + repo + "/commits/"@ + version
}

/// The API URL that resolves a ref to its commit.
pub fn commit_url(api: &str, owner: &str, repo: &str, version: &str) -> (r: String)
    ensures
        r@ == commit_url_spec(api@, owner@, repo@, version@),
{
    let mut u = owned(api);
    push_str(&mut u, "/repos/");
    push_str(&mut u, owner);
    push_str(&mut u, "/");
    push_str(&mut u, repo);
    push_str(&mut u, "/commits/");
    push_str(&mut u, version);
    u
}

/// A copy of a byte vector.
fn copy_bytes(v: &Vec<u8>) -> (r: Vec<u8>)
    ensures
        r@ == v@,
{
    let mut r: Vec<u8> = Vec::new();
    let mut i: usize = 0;
    while i < v.len()
        invariant
            i <= v@.len(),
            r@ == v@.subrange(0, i as int),
        decreases v@.len() - i,
    {
        r.push(v[i]);
        i += 1;
        assert(r@ =~= v@.subrange(0, i as int));
    }
    assert(v@.subrange(0, v@.len() as int) =~= v@);
    r
}

/// The license files among `files`, in name order.
pub open spec fn licenses_among(files: Seq<(Seq<char>, Seq<u8>)>) -> Seq<(Seq<char>, Seq<u8>)> {
    files.filter(|f: (Seq<char>, Seq<u8>)| is_root_license(f.0))
}

/// The views of a list of named files.
pub open spec fn named_files(v: Seq<(String, Vec<u8>)>) -> Seq<(Seq<char>, Seq<u8>)> {
    v.map_values(|f: (String, Vec<u8>)| (f.0@, f.1@))
}

/// The license files at the root of an extracted repository, in name order.
pub fn root_license_files(all: &NameMap<Vec<u8>>) -> (r: Vec<(String, Vec<u8>)>)
    requires
        all.wf(),
    ensures
        named_files(r@) == licenses_among(all@),
{
    let ghost fs = all@;
    let ghost f = |x: (Seq<char>, Seq<u8>)| is_root_license(x.0);
    let n = all.size();
    let mut r: Vec<(String, Vec<u8>)> = Vec::new();
    let mut i: usize = 0;
    while i < n
        invariant
            i <= n,
            n == fs.len(),
            all.wf(),
            fs == all@,
            f == (|x: (Seq<char>, Seq<u8>)| is_root_license(x.0)),
            named_files(r@) == fs.subrange(0, i as int).filter(f),
        decreases n - i,
    {
        let ghost before = r@;
        let name = all.key_of(i);
        let keep = root_license(name.as_str());
        if keep {
            let contents = copy_bytes(all.value_of(i));
            r.push((name.clone(), contents));
            assert(named_files(r@) =~= named_files(before).push(fs[i as int]));
        }
        proof {
            let sub = fs.subrange(0, i + 1);
            assert(sub.drop_last() =~= fs.subrange(0, i as int));
            assert(sub.last() == fs[i as int]);
            assert(keep == f(fs[i as int]));
            reveal(Seq::filter);
            assert(named_files(r@) =~= sub.filter(f));
        }
        i += 1;
    }
    assert(fs.subrange(0, n as int) =~= fs);
    r
}

/// Takes a copy out of a downloaded repository archive: the files under
/// `path`, and the license files at the repository root, both with GitHub's
/// top-level directory taken off their names.
pub fn github_fetch_result(bytes: &[u8], path: &str) -> (r: Result<GitHubFetchResult, ArchiveError>)
    ensures
        r is Ok ==> zip_listing(bytes@) is Some && zip_listing(bytes@)->0.len() > 0,
        r matches Ok(res) ==> ({
            let es = zip_listing(bytes@)->0;
            let prefix = first_dir(es[0].0);
            &&& extraction(es, Some(path@), Some(prefix)) is Ok
            &&& extraction(es, None, Some(prefix)) is Ok
            &&& res.files.wf()
            &&& forall|k: Seq<char>| #[trigger] entry_get(res.files@, k) == if files_map(extraction(es, Some(path@), Some(prefix))->Ok_0).dom().contains(k) {
                Some(files_map(extraction(es, Some(path@), Some(prefix))->Ok_0)[k])
            } else {
                None
            }
            &&& exists|all: NameMap<Vec<u8>>| {
                &&& all.wf()
                &&& (forall|k: Seq<char>| #[trigger] entry_get(all@, k) == if files_map(extraction(es, None, Some(prefix))->Ok_0).dom().contains(k) {
                    Some(files_map(extraction(es, None, Some(prefix))->Ok_0)[k])
                } else {
                    None
                })
                &&& named_files(res.license_files@) == licenses_among(all@)
            }
        }),
        zip_listing(bytes@) is None ==> r matches Err(ArchiveError::Open { .. }),
        r is Ok <==> (zip_listing(bytes@) matches Some(es) && es.len() > 0 && es[0].1
            && extraction(es, Some(path@), Some(first_dir(es[0].0))) is Ok
            && extraction(es, None, Some(first_dir(es[0].0))) is Ok),
{
    let prefix = find_archive_prefix(bytes)?;
    let files = extract_from_bytes(bytes, Some(path), Some(prefix.as_str()))?;
    let all = extract_from_bytes(bytes, None, Some(prefix.as_str()))?;
    let license_files = root_license_files(&all);
    Ok(GitHubFetchResult { files, license_files })
}

/// A Unicode uppercase mapping, as `str::to_uppercase` computes it.
pub uninterp spec fn uppercase(s: Seq<char>) -> Seq<char>;

/// Calls `str::to_uppercase`, which maps every character through Unicode's
/// uppercase mapping. The contract names the result and does not spell the
/// mapping out.
#[verifier::external_body]
fn to_uppercase(s: &str) -> (r: String)
    ensures
        r@ == uppercase(s@),
{
    s.to_uppercase()
}

/// A license file at the root of a local registry: the part of its name before
/// the first `.`, in upper case, is `LICENSE`, `LICENCE` or `COPYING`.
pub open spec fn is_local_license(name: Seq<char>) -> bool {
    let stem = match crate::text::split_once(name, '.') {
        Some((a, _)) => a,
        None => name,
    };
    let up = uppercase(stem);
    up == "LICENSE"@ || up == "LICENCE"@ || up == "COPYING"@
}

/// Whether a file at the root of a local registry is one of its licenses.
pub fn local_license(name: &str) -> (r: bool)
    ensures
        r == is_local_license(name@),
{
    let v = crate::text::chars_of(name);
    let stem = match crate::text::find_first(v.as_slice(), '.') {
        Some(k) => {
            proof {
                crate::text::lemma_first_index(v@, '.', k as int);
            }
            crate::text::substring(v.as_slice(), 0, k)
        },
        None => crate::text::string_of(v.as_slice()),
    };
    let up = to_uppercase(stem.as_str());
    crate::text::str_eq(up.as_str(), "LICENSE") || crate::text::str_eq(up.as_str(), "LICENCE")
        || crate::text::str_eq(up.as_str(), "COPYING")
}

/// Directories of a local registry's working tree that are not part of a
/// component: Python's bytecode cache and git's own.
pub fn skipped_dir(name: &str) -> (r: bool)
    ensures
        r == (name@ == "__pycache__"@ || name@ == ".git"@),
{
    crate::text::str_eq(name, "__pycache__") || crate::text::str_eq(name, ".git")
}

} // verus!
