//! Source strings: where code can be copied from.
//!
//! A source is written as `github:owner/repo@version/path` (or `gh:` for short),
//! as an `http://` or `https://` URL, or as the URL of a `.zip` archive with an
//! optional `#inner/path`. [`parse_source`] turns such a string into a
//! [`Source`], and [`Source::to_source_string`] writes one back.

use vstd::prelude::*;

use crate::text::{
    chars_ends_with, chars_of, chars_starts_with, find_first, find_last, has_prefix, has_suffix,
    is_first_index, is_last_index, last_segment, push_str, rsplit_once, slice_chars, split_once,
    string_of, substring, first_index, lemma_first_index,
};

verus! {

/// A parsed source location from which files can be fetched.
#[derive(Debug, Clone)]
pub enum Source {
    GitHub { owner: String, repo: String, version: String, path: String },
    Http { url: String },
    Zip { url: String, inner_path: Option<String> },
}

pub enum SpecSource {
    GitHub { owner: Seq<char>, repo: Seq<char>, version: Seq<char>, path: Seq<char> },
    Http { url: Seq<char> },
    Zip { url: Seq<char>, inner_path: Option<Seq<char>> },
}

impl View for Source {
    type V = SpecSource;

    open spec fn view(&self) -> SpecSource {
        match self {
            Source::GitHub { owner, repo, version, path } => SpecSource::GitHub {
                owner: owner@,
                repo: repo@,
                version: version@,
                path: path@,
            },
            Source::Http { url } => SpecSource::Http { url: url@ },
            Source::Zip { url, inner_path } => SpecSource::Zip {
                url: url@,
                inner_path: match inner_path {
                    Some(p) => Some(p@),
                    None => None,
                },
            },
        }
    }
}

/// Why a source string was refused.
#[derive(Debug, Clone)]
pub enum SourceError {
    /// Not a GitHub source, nor an HTTP(S) URL.
    UnknownFormat { input: String },
    /// A GitHub source without `@version`.
    MissingVersion { input: String },
    /// A GitHub source whose part before `@` is not `owner/repo`.
    NotOwnerRepo { owner_repo: String },
    /// A GitHub source with nothing after the version.
    MissingPath { rest: String },
    /// A GitHub source with an empty owner, repo, version or path.
    EmptyComponents { input: String },
}

pub enum SpecSourceError {
    UnknownFormat { input: Seq<char> },
    MissingVersion { input: Seq<char> },
    NotOwnerRepo { owner_repo: Seq<char> },
    MissingPath { rest: Seq<char> },
    EmptyComponents { input: Seq<char> },
}

impl View for SourceError {
    type V = SpecSourceError;

    open spec fn view(&self) -> SpecSourceError {
        match self {
            SourceError::UnknownFormat { input } => SpecSourceError::UnknownFormat { input: input@ },
            SourceError::MissingVersion { input } => SpecSourceError::MissingVersion { input: input@ },
            SourceError::NotOwnerRepo { owner_repo } => SpecSourceError::NotOwnerRepo { owner_repo: owner_repo@ },
            SourceError::MissingPath { rest } => SpecSourceError::MissingPath { rest: rest@ },
            SourceError::EmptyComponents { input } => SpecSourceError::EmptyComponents { input: input@ },
        }
    }
}

/// How `github:owner/repo@version/path`, with its prefix removed, reads.
pub open spec fn parse_github(s: Seq<char>) -> Result<SpecSource, SpecSourceError> {
    match split_once(s, '@') {
        None => Err(SpecSourceError::MissingVersion { input: s }),
        Some((owner_repo, rest)) => match split_once(owner_repo, '/') {
            None => Err(SpecSourceError::NotOwnerRepo { owner_repo }),
            Some((owner, repo)) => match split_once(rest, '/') {
                None => Err(SpecSourceError::MissingPath { rest }),
                Some((version, path)) => if owner.len() == 0 || repo.len() == 0 || version.len() == 0 || path.len() == 0 {
                    Err(SpecSourceError::EmptyComponents { input: s })
                } else {
                    Ok(SpecSource::GitHub { owner, repo, version, path })
                },
            },
        },
    }
}

/// How a URL source reads: a `.zip` URL, with or without `#inner/path`, is an
/// archive; anything else is a plain file.
pub open spec fn parse_url(input: Seq<char>) -> SpecSource {
    match split_once(input, '#') {
        Some((url, inner)) if has_suffix(url, ".zip"@) => SpecSource::Zip { url, inner_path: Some(inner) },
        _ => if has_suffix(input, ".zip"@) {
            SpecSource::Zip { url: input, inner_path: None }
        } else {
            SpecSource::Http { url: input }
        },
    }
}

/// How a source string reads.
pub open spec fn parse(input: Seq<char>) -> Result<SpecSource, SpecSourceError> {
    if has_prefix(input, "github:"@) {
        parse_github(input.subrange("github:"@.len() as int, input.len() as int))
    } else if has_prefix(input, "gh:"@) {
        parse_github(input.subrange("gh:"@.len() as int, input.len() as int))
    } else if has_prefix(input, "http://"@) || has_prefix(input, "https://"@) {
        Ok(parse_url(input))
    } else {
        Err(SpecSourceError::UnknownFormat { input })
    }
}

/// The source string that names `s`.
pub open spec fn source_string(s: SpecSource) -> Seq<char> {
    match s {
        SpecSource::GitHub { owner, repo, version, path } => "github:"@ + owner + "/"@ + repo + "@"@ + version
            + "/"@ + path,
        SpecSource::Http { url } => url,
        SpecSource::Zip { url, inner_path } => match inner_path {
            Some(p) => url + "#"@ + p,
            None => url,
        },
    }
}

/// The name a source suggests for what it fetches.
pub open spec fn suggested(s: SpecSource) -> Seq<char> {
    match s {
        SpecSource::GitHub { path, .. } => path,
        SpecSource::Http { url } => last_segment(url, '/'),
        SpecSource::Zip { url, inner_path } => match inner_path {
            Some(p) => p,
            None => last_segment(url, '/'),
        },
    }
}

/// `s` with its version replaced; only a GitHub source has one.
pub open spec fn versioned(s: SpecSource, v: Seq<char>) -> SpecSource {
    match s {
        SpecSource::GitHub { owner, repo, path, .. } => SpecSource::GitHub { owner, repo, version: v, path },
        other => other,
    }
}

/// The text before and after the first `c` in `v`.
fn split_first(v: &[char], c: char) -> (r: Option<(Vec<char>, Vec<char>)>)
    ensures
        match split_once(v@, c) {
            None => r is None,
            Some((a, b)) => r matches Some((x, y)) && x@ == a && y@ == b,
        },
{
    match find_first(v, c) {
        None => None,
        Some(k) => {
            assert(k < v.len());
            Some((slice_chars(v, 0, k), slice_chars(v, k + 1, v.len())))
        },
    }
}

/// The text after the last `c` in `v`, or all of `v`.
pub fn after_last(v: &[char], c: char) -> (r: String)
    ensures
        r@ == last_segment(v@, c),
{
    match find_last(v, c) {
        None => string_of(v),
        Some(k) => {
            assert(k < v.len());
            substring(v, k + 1, v.len())
        },
    }
}

/// The name a file fetched over HTTP is saved under: the last segment of its
/// URL.
pub fn http_file_name(url: &str) -> (r: String)
    ensures
        r@ == last_segment(url@, '/'),
{
    let v = chars_of(url);
    after_last(v.as_slice(), '/')
}

/// Parses the part of a GitHub source after `github:` or `gh:`.
pub fn parse_github_source(input: &str) -> (r: Result<Source, SourceError>)
    ensures
        match parse_github(input@) {
            Ok(s) => r matches Ok(x) && x@ == s,
            Err(e) => r matches Err(x) && x@ == e,
        },
{
    let v = chars_of(input);
    let (owner_repo, rest) = match split_first(v.as_slice(), '@') {
        None => return Err(SourceError::MissingVersion { input: string_of(v.as_slice()) }),
        Some(parts) => parts,
    };
    let (owner, repo) = match split_first(owner_repo.as_slice(), '/') {
        None => return Err(SourceError::NotOwnerRepo { owner_repo: string_of(owner_repo.as_slice()) }),
        Some(parts) => parts,
    };
    let (version, path) = match split_first(rest.as_slice(), '/') {
        None => return Err(SourceError::MissingPath { rest: string_of(rest.as_slice()) }),
        Some(parts) => parts,
    };
    if owner.len() == 0 || repo.len() == 0 || version.len() == 0 || path.len() == 0 {
        return Err(SourceError::EmptyComponents { input: string_of(v.as_slice()) });
    }
    Ok(Source::GitHub {
        owner: string_of(owner.as_slice()),
        repo: string_of(repo.as_slice()),
        version: string_of(version.as_slice()),
        path: string_of(path.as_slice()),
    })
}

/// Parses a source string into a [`Source`].
///
/// | Input | Parsed as |
/// |-------|-----------|
/// | `github:owner/repo@version/path` | `Source::GitHub` |
/// | `gh:owner/repo@version/path` | `Source::GitHub` (alias) |
/// | `https://example.com/file.txt` | `Source::Http` |
/// | `https://example.com/a.zip` | `Source::Zip` (no inner path) |
/// | `https://example.com/a.zip#path` | `Source::Zip` (with inner path) |
///
/// Refuses anything else, and GitHub sources with missing or empty parts.
pub fn parse_source(input: &str) -> (r: Result<Source, SourceError>)
    ensures
        match parse(input@) {
            Ok(s) => r matches Ok(x) && x@ == s,
            Err(e) => r matches Err(x) && x@ == e,
        },
{
    let v = chars_of(input);
    let github = chars_of("github:");
    if chars_starts_with(v.as_slice(), github.as_slice()) {
        let rest = substring(v.as_slice(), github.len(), v.len());
        return parse_github_source(rest.as_str());
    }
    let gh = chars_of("gh:");
    if chars_starts_with(v.as_slice(), gh.as_slice()) {
        let rest = substring(v.as_slice(), gh.len(), v.len());
        return parse_github_source(rest.as_str());
    }
    let http = chars_of("http://");
    let https = chars_of("https://");
    if chars_starts_with(v.as_slice(), http.as_slice()) || chars_starts_with(v.as_slice(), https.as_slice()) {
        let zip = chars_of(".zip");
        if let Some((url, inner)) = split_first(v.as_slice(), '#') {
            if chars_ends_with(url.as_slice(), zip.as_slice()) {
                return Ok(Source::Zip { url: string_of(url.as_slice()), inner_path: Some(string_of(inner.as_slice())) });
            }
        }
        if chars_ends_with(v.as_slice(), zip.as_slice()) {
            return Ok(Source::Zip { url: string_of(v.as_slice()), inner_path: None });
        }
        return Ok(Source::Http { url: string_of(v.as_slice()) });
    }
    Err(SourceError::UnknownFormat { input: string_of(v.as_slice()) })
}

impl Source {
    /// The source string recorded for this source.
    pub fn to_source_string(&self) -> (r: String)
        ensures
            r@ == source_string(self@),
    {
        match self {
            Source::GitHub { owner, repo, version, path } => {
                let mut s = String::new();
                push_str(&mut s, "github:");
                push_str(&mut s, owner.as_str());
                push_str(&mut s, "/");
                push_str(&mut s, repo.as_str());
                push_str(&mut s, "@");
                push_str(&mut s, version.as_str());
                push_str(&mut s, "/");
                push_str(&mut s, path.as_str());
                s
            },
            Source::Http { url } => url.clone(),
            Source::Zip { url, inner_path } => match inner_path {
                Some(p) => {
                    let mut s = url.clone();
                    push_str(&mut s, "#");
                    push_str(&mut s, p.as_str());
                    s
                },
                None => url.clone(),
            },
        }
    }

    /// This source with a different version; only a GitHub source has one, so
    /// any other comes back unchanged.
    pub fn with_version(&self, new_version: &str) -> (r: Source)
        ensures
            r@ == versioned(self@, new_version@),
    {
        match self {
            Source::GitHub { owner, repo, path, .. } => Source::GitHub {
                owner: owner.clone(),
                repo: repo.clone(),
                version: crate::text::owned(new_version),
                path: path.clone(),
            },
            Source::Http { url } => Source::Http { url: url.clone() },
            Source::Zip { url, inner_path } => Source::Zip {
                url: url.clone(),
                inner_path: match inner_path {
                    Some(p) => Some(p.clone()),
                    None => None,
                },
            },
        }
    }

    /// The file name or path this source suggests for what it fetches.
    pub fn suggested_name(&self) -> (r: String)
        ensures
            r@ == suggested(self@),
    {
        match self {
            Source::GitHub { path, .. } => path.clone(),
            Source::Http { url } => {
                let v = chars_of(url.as_str());
                after_last(v.as_slice(), '/')
            },
            Source::Zip { url, inner_path } => match inner_path {
                Some(p) => p.clone(),
                None => {
                    let v = chars_of(url.as_str());
                    after_last(v.as_slice(), '/')
                },
            },
        }
    }
}

/// Splitting at the first `c` and joining the two parts with `c` gives the text back.
pub proof fn lemma_split_rejoin(s: Seq<char>, c: char)
    requires
        split_once(s, c) is Some,
    ensures
        (split_once(s, c)->0).0 + seq![c] + (split_once(s, c)->0).1 == s,
        !(split_once(s, c)->0).0.contains(c),
{
    let k = first_index(s, c);
    crate::text::lemma_index_exists(s, c);
    assert(s.subrange(0, k) + seq![c] + s.subrange(k + 1, s.len() as int) =~= s);
    assert forall|j: int| 0 <= j < s.subrange(0, k).len() implies s.subrange(0, k)[j] != c by {
        assert(s.subrange(0, k)[j] == s[j]);
    }
}

/// The first `c` in `a + [c] + b`, when `a` has none, is the one between them.
pub proof fn lemma_split_joined(a: Seq<char>, c: char, b: Seq<char>)
    requires
        !a.contains(c),
    ensures
        split_once(a + seq![c] + b, c) == Some((a, b)),
{
    let s = a + seq![c] + b;
    assert(s[a.len() as int] == c);
    assert forall|j: int| 0 <= j < a.len() implies s[j] != c by {
        assert(s[j] == a[j]);
        if a[j] == c {
            assert(a.contains(c));
        }
    }
    assert(crate::text::is_first_index(s, c, a.len() as int));
    lemma_first_index(s, c, a.len() as int);
    assert(s.contains(c));
    assert(s.subrange(0, a.len() as int) =~= a);
    assert(s.subrange(a.len() + 1int, s.len() as int) =~= b);
}

/// Writing a parsed source back gives the string it was parsed from, with the
/// `gh:` alias spelled out as `github:`.
pub proof fn lemma_source_string_of_parse(input: Seq<char>)
    requires
        parse(input) is Ok,
    ensures
        source_string(parse(input)->Ok_0) == if has_prefix(input, "github:"@) || !has_prefix(input, "gh:"@) {
            input
        } else {
            "github:"@ + input.subrange("gh:"@.len() as int, input.len() as int)
        },
{
    reveal_strlit("github:");
    reveal_strlit("gh:");
    reveal_strlit("/");
    reveal_strlit("@");
    reveal_strlit("#");
    let src = parse(input)->Ok_0;
    if has_prefix(input, "github:"@) || has_prefix(input, "gh:"@) {
        let n = if has_prefix(input, "github:"@) {
            "github:"@.len() as int
        } else {
            "gh:"@.len() as int
        };
        let s = input.subrange(n, input.len() as int);
        lemma_split_rejoin(s, '@');
        let (owner_repo, rest) = split_once(s, '@')->0;
        lemma_split_rejoin(owner_repo, '/');
        lemma_split_rejoin(rest, '/');
        let (owner, repo) = split_once(owner_repo, '/')->0;
        let (version, path) = split_once(rest, '/')->0;
        assert(source_string(src) =~= "github:"@ + (((owner + seq!['/'] + repo) + seq!['@']) + ((version + seq!['/']) + path)));
        assert(source_string(src) =~= "github:"@ + s);
        if has_prefix(input, "github:"@) {
            assert(input =~= input.subrange(0, n) + s);
        }
    } else {
        match split_once(input, '#') {
            Some((url, inner)) => {
                lemma_split_rejoin(input, '#');
            },
            None => {},
        }
    }
}

/// A parsed source, written back and parsed again, is the same source.
pub proof fn lemma_parse_source_string(input: Seq<char>)
    requires
        parse(input) is Ok,
    ensures
        parse(source_string(parse(input)->Ok_0)) == parse(input),
{
    reveal_strlit("github:");
    reveal_strlit("gh:");
    lemma_source_string_of_parse(input);
    if !has_prefix(input, "github:"@) && has_prefix(input, "gh:"@) {
        let s = input.subrange("gh:"@.len() as int, input.len() as int);
        let out = "github:"@ + s;
        assert(out.subrange(0, "github:"@.len() as int) =~= "github:"@);
        assert(out.subrange("github:"@.len() as int, out.len() as int) =~= s);
    }
}

/// Changing the version of a parsed GitHub source to one without a `/`, writing
/// it out and parsing it again gives the source with the new version.
pub proof fn lemma_with_version_round_trip(input: Seq<char>, v: Seq<char>)
    requires
        parse(input) matches Ok(SpecSource::GitHub { .. }),
        v.len() > 0,
        !v.contains('/'),
    ensures
        parse(source_string(versioned(parse(input)->Ok_0, v))) == Ok::<SpecSource, SpecSourceError>(versioned(parse(input)->Ok_0, v)),
{
    reveal_strlit("github:");
    reveal_strlit("gh:");
    reveal_strlit("/");
    reveal_strlit("@");
    let src = parse(input)->Ok_0;
    let n = if has_prefix(input, "github:"@) {
        "github:"@.len() as int
    } else {
        "gh:"@.len() as int
    };
    let s = input.subrange(n, input.len() as int);
    lemma_split_rejoin(s, '@');
    let (owner_repo, rest) = split_once(s, '@')->0;
    lemma_split_rejoin(owner_repo, '/');
    let (owner, repo) = split_once(owner_repo, '/')->0;
    let (version, path) = split_once(rest, '/')->0;
    let or2 = owner + seq!['/'] + repo;
    assert(or2 == owner_repo);
    let rest2 = v + seq!['/'] + path;
    let s2 = or2 + seq!['@'] + rest2;
    let out = "github:"@ + s2;
    assert(source_string(versioned(src, v)) =~= out);
    assert(out.subrange(0, "github:"@.len() as int) =~= "github:"@);
    assert(out.subrange("github:"@.len() as int, out.len() as int) =~= s2);
    lemma_split_joined(or2, '@', rest2);
    lemma_split_joined(owner, '/', repo);
    lemma_split_joined(v, '/', path);
}

} // verus!
