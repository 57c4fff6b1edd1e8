//! Which files of a source updates leave alone.
//!
//! An entry's `excludes` are glob patterns over paths inside the source, with
//! `*` stopping at `/` (`**` crosses directories). Matching is the `globset`
//! crate's; copit decides what path is matched and what happens when a
//! pattern does not compile.

use vstd::prelude::*;

use crate::names::names_view;
use crate::paths::{comps, components, cv, render, render_components};
use crate::text::push_str;

verus! {

#[verifier::external_type_specification]
#[verifier::external_body]
pub struct ExternalGlobError(globset::Error);

/// What `globset` says of `path` under `pattern` compiled with a literal
/// separator into a one-pattern `GlobSet`: whether it matches, or none when the
/// pattern does not compile. Only claimed for texts without `\\`, which
/// `globset` reads alike on every platform.
pub uninterp spec fn glob_verdict(pattern: Seq<char>, path: Seq<char>) -> Option<bool>;

/// A text without `\\`: `globset` escapes with it on Unix and reads it as a
/// separator on Windows, so only for such texts is its answer the same
/// everywhere.
pub open spec fn plain_text(s: Seq<char>) -> bool {
    !s.contains('\\')
}

/// Compiles `pattern` with `globset::GlobBuilder` (`literal_separator(true)`),
/// builds a `GlobSet` of it with `GlobSetBuilder::build`, which returns the
/// error when the compiled pattern is too large, and tests `path` with the
/// set's `is_match`. For texts without `\\` the result is named, not spelled
/// out: it is `glob_verdict` of the two. With a `\\` in either, the answer
/// depends on the platform and nothing is claimed of it.
#[verifier::external_body]
fn glob_match(pattern: &str, path: &str) -> (r: Result<bool, globset::Error>)
    ensures
        r matches Ok(b) ==> (plain_text(pattern@) && plain_text(path@) ==> glob_verdict(pattern@, path@) == Some(b)),
        r is Err ==> (plain_text(pattern@) && plain_text(path@) ==> glob_verdict(pattern@, path@) is None),
{
    match globset::GlobBuilder::new(pattern).literal_separator(true).build() {
        Ok(glob) => globset::GlobSetBuilder::new().add(glob).build().map(|set| set.is_match(path)),
        Err(e) => Err(e),
    }
}

/// The text of a `globset` error, as its `Display` writes it.
#[verifier::external_body]
fn glob_error_text(error: &globset::Error) -> String {
    error.to_string()
}

/// A pattern in `excludes` that does not compile.
#[derive(Debug)]
pub struct ExcludeError {
    pub pattern: String,
    pub detail: String,
}

impl ExcludeError {
    /// The message shown to the user.
    pub fn message(&self) -> (r: String)
        ensures
            r@ == "Invalid glob pattern: "@ + self.pattern@ + ": "@ + self.detail@,
    {
        let mut m = String::new();
        push_str(&mut m, "Invalid glob pattern: ");
        push_str(&mut m, self.pattern.as_str());
        push_str(&mut m, ": ");
        push_str(&mut m, self.detail.as_str());
        m
    }
}

/// Where `dest` lies inside the source tracked at `track`, written in normal
/// form; none when it is not inside it.
pub open spec fn within_source(dest: Seq<char>, track: Seq<char>) -> Option<Seq<char>> {
    let d = comps(dest);
    let t = comps(track);
    if t.len() <= d.len() && d.subrange(0, t.len() as int) == t {
        Some(render(d.subrange(t.len() as int, d.len() as int)))
    } else {
        None
    }
}

/// The patterns' verdict on `path`: the position of the first pattern that
/// does not compile, else whether any of them matches.
pub open spec fn patterns_verdict(patterns: Seq<Seq<char>>, path: Seq<char>) -> Result<bool, int>
    decreases patterns.len(),
{
    if patterns.len() == 0 {
        Ok(false)
    } else {
        match patterns_verdict(patterns.drop_last(), path) {
            Err(k) => Err(k),
            Ok(any) => match glob_verdict(patterns.last(), path) {
                None => Err(patterns.len() - 1),
                Some(b) => Ok(any || b),
            },
        }
    }
}

/// Whether an update leaves `dest` alone because the entry excludes it. With
/// no patterns, or for a file outside the source, nothing is excluded and no
/// pattern is compiled; otherwise every pattern must compile. The verdict is
/// stated for patterns and paths without `\\`, whose reading `globset` does
/// not vary by platform; any error names one of the patterns.
pub fn is_excluded(dest: &str, track_path: &str, excludes: &[String]) -> (r: Result<bool, ExcludeError>)
    ensures
        names_view(excludes@).len() == 0 ==> r matches Ok(false),
        names_view(excludes@).len() > 0 ==> match within_source(dest@, track_path@) {
            None => r matches Ok(false),
            Some(rel) => (plain_text(rel) && forall|k: int| 0 <= k < excludes@.len() ==> plain_text(
                #[trigger] excludes@[k]@,
            )) ==> match patterns_verdict(names_view(excludes@), rel) {
                Ok(b) => r matches Ok(x) && x == b,
                Err(k) => r matches Err(e) && e.pattern@ == names_view(excludes@)[k],
            },
        },
        r matches Err(e) ==> names_view(excludes@).contains(e.pattern@),
{
    if excludes.len() == 0 {
        return Ok(false);
    }
    let d = components(dest);
    let t = components(track_path);
    if t.len() > d.len() {
        return Ok(false);
    }
    let mut k: usize = 0;
    while k < t.len()
        invariant
            k <= t@.len(),
            t@.len() <= d@.len(),
            cv(d@) == comps(dest@),
            cv(t@) == comps(track_path@),
            cv(d@).subrange(0, k as int) == cv(t@).subrange(0, k as int),
        decreases t@.len() - k,
    {
        if !crate::text::chars_eq(d[k].as_slice(), t[k].as_slice()) {
            assert(cv(d@).subrange(0, t@.len() as int)[k as int] != cv(t@)[k as int]);
            return Ok(false);
        }
        k += 1;
        assert(cv(d@).subrange(0, k as int) =~= cv(t@).subrange(0, k as int));
    }
    assert(cv(t@).subrange(0, t@.len() as int) =~= cv(t@));
    let mut rest: Vec<Vec<char>> = Vec::new();
    let mut j: usize = t.len();
    while j < d.len()
        invariant
            t@.len() <= j <= d@.len(),
            cv(rest@) == cv(d@).subrange(t@.len() as int, j as int),
        decreases d@.len() - j,
    {
        let ghost before = rest@;
        let piece = crate::text::slice_chars(d[j].as_slice(), 0, d[j].len());
        assert(d@[j as int]@.subrange(0, d@[j as int]@.len() as int) =~= d@[j as int]@);
        rest.push(piece);
        assert(cv(rest@) =~= cv(before).push(d@[j as int]@));
        j += 1;
        assert(cv(rest@) =~= cv(d@).subrange(t@.len() as int, j as int));
    }
    let rel = render_components(&rest);
    assert(within_source(dest@, track_path@) == Some(rel@));
    let ghost raw = rel@;
    let ghost plain = plain_text(raw) && forall|k: int| 0 <= k < excludes@.len() ==> plain_text(
        #[trigger] excludes@[k]@,
    );
    let ghost pats = names_view(excludes@);
    let mut any = false;
    let mut i: usize = 0;
    while i < excludes.len()
        invariant
            i <= excludes@.len(),
            pats == names_view(excludes@),
            within_source(dest@, track_path@) == Some(raw),
            rel@ == raw,
            plain == (plain_text(raw) && forall|k: int| 0 <= k < excludes@.len() ==> plain_text(
                #[trigger] excludes@[k]@,
            )),
            plain ==> patterns_verdict(pats.subrange(0, i as int), raw) == Ok::<bool, int>(any),
        decreases excludes@.len() - i,
    {
        proof {
            assert(pats.subrange(0, i + 1).drop_last() =~= pats.subrange(0, i as int));
            assert(pats.subrange(0, i + 1).last() == excludes@[i as int]@);
        }
        match glob_match(excludes[i].as_str(), rel.as_str()) {
            Ok(b) => {
                any = any || b;
            },
            Err(e) => {
                proof {
                    if plain {
                        assert(plain_text(excludes@[i as int]@));
                        lemma_verdict_stays_err(pats, i as int + 1, raw);
                    }
                    assert(names_view(excludes@)[i as int] == excludes@[i as int]@);
                }
                return Err(ExcludeError { pattern: excludes[i].clone(), detail: glob_error_text(&e) });
            },
        }
        proof {
            if plain {
                assert(plain_text(excludes@[i as int]@));
            }
        }
        i += 1;
    }
    assert(pats.subrange(0, pats.len() as int) =~= pats);
    Ok(any)
}

/// Once a pattern fails to compile, the verdict on the whole list is that failure.
pub proof fn lemma_verdict_stays_err(patterns: Seq<Seq<char>>, k: int, path: Seq<char>)
    requires
        0 <= k <= patterns.len(),
        patterns_verdict(patterns.subrange(0, k), path) is Err,
    ensures
        patterns_verdict(patterns, path) == patterns_verdict(patterns.subrange(0, k), path),
    decreases patterns.len() - k,
{
    if k < patterns.len() {
        assert(patterns.subrange(0, k + 1).drop_last() =~= patterns.subrange(0, k));
        lemma_verdict_stays_err(patterns, k + 1, path);
    } else {
        assert(patterns.subrange(0, k) =~= patterns);
    }
}

} // verus!
