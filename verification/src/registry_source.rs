//! Where a registry's index and components are fetched from, and the names
//! registries go by.
//!
//! A registry source is `github:owner/repo@ref` (or `gh:`), or a local
//! directory. It has no path, so it is not a source string of its own: the
//! index and each component are found by appending their paths to it.

use vstd::prelude::*;

use crate::names::names_view;
use crate::paths::{comps, file_name, render};
use crate::text::{
    chars_of, has_prefix, push_char, push_str, split_once, string_of, substring, trim_end,
    trim_end_len, trim_start, trim_start_len,
};

verus! {

/// The file name of a registry's generated index, at the root of its source.
pub open spec fn index_file() -> Seq<char> {
    "copit-registry.json"@
}

/// The source string of a registry's index: the registry source, without its
/// trailing slashes, then the index file (`copit-registry.json` by default).
pub open spec fn index_source_spec(source: Seq<char>, index: Option<Seq<char>>) -> Seq<char> {
    trim_end(source, '/') + seq!['/'] + match index {
        Some(i) => i,
        None => index_file(),
    }
}

/// Where the index of a remote registry is fetched from.
pub fn index_source(source: &str, index: Option<&str>) -> (r: String)
    ensures
        r@ == index_source_spec(source@, crate::paths::opt_str(index)),
{
    let v = chars_of(source);
    let n = trim_end_len(v.as_slice(), '/');
    let mut r = substring(v.as_slice(), 0, n);
    push_char(&mut r, '/');
    match index {
        Some(i) => push_str(&mut r, i),
        None => push_str(&mut r, "copit-registry.json"),
    }
    r
}

/// Where one component lives: the registry source without its trailing
/// slashes, a `/`, then the component path without its leading ones.
pub open spec fn component_source_spec(source: Seq<char>, path: Seq<char>) -> Seq<char> {
    trim_end(source, '/') + seq!['/'] + trim_start(path, '/')
}

/// The source string of one component, built from the configured registry
/// source so the component comes from the ref the user pinned.
pub fn component_source(registry_source: &str, component_path: &str) -> (r: String)
    ensures
        r@ == component_source_spec(registry_source@, component_path@),
{
    let v = chars_of(registry_source);
    let n = trim_end_len(v.as_slice(), '/');
    let p = chars_of(component_path);
    let k = trim_start_len(p.as_slice(), '/');
    let mut r = substring(v.as_slice(), 0, n);
    push_char(&mut r, '/');
    let rest = substring(p.as_slice(), k, p.len());
    push_str(&mut r, rest.as_str());
    r
}

/// A fetched path made relative to its component: the component path, with
/// its slashes trimmed and one `/` after it, taken off the front when there.
pub open spec fn component_relative_spec(path: Seq<char>, component_path: Seq<char>) -> Seq<char> {
    let prefix = trim_start(trim_end(component_path, '/'), '/') + seq!['/'];
    if has_prefix(path, prefix) {
        path.subrange(prefix.len() as int, path.len() as int)
    } else {
        path
    }
}

/// A repository-relative path as a path inside its component directory.
pub fn component_relative(path: &str, component_path: &str) -> (r: String)
    ensures
        r@ == component_relative_spec(path@, component_path@),
{
    let c = chars_of(component_path);
    let end = trim_end_len(c.as_slice(), '/');
    let trimmed_end = crate::text::slice_chars(c.as_slice(), 0, end);
    let start = trim_start_len(trimmed_end.as_slice(), '/');
    let mut prefix = crate::text::slice_chars(trimmed_end.as_slice(), start, trimmed_end.len());
    assert(trimmed_end@ == trim_end(component_path@, '/'));
    assert(prefix@ == trim_start(trim_end(component_path@, '/'), '/'));
    prefix.push('/');
    assert(prefix@ == trim_start(trim_end(component_path@, '/'), '/') + seq!['/']);
    let v = chars_of(path);
    if crate::text::chars_starts_with(v.as_slice(), prefix.as_slice()) {
        substring(v.as_slice(), prefix.len(), v.len())
    } else {
        string_of(v.as_slice())
    }
}

/// Why `--ref` could not be applied to a registry.
#[derive(Debug)]
pub enum RefError {
    /// A local directory has no ref to move.
    LocalRegistry { source: String },
    /// Only GitHub registries have refs.
    NotGitHub { source: String },
}

impl RefError {
    /// The message shown to the user.
    pub fn message(&self) -> (r: String)
        ensures
            r@ == match self {
                RefError::LocalRegistry { source } => "--ref does not apply to the local registry at '"@
                    + source@ + "'. Point the registry at a tagged source first."@,
                RefError::NotGitHub { source } => "--ref is only supported for GitHub registries, not '"@
                    + source@ + "'"@,
            },
    {
        let mut m = String::new();
        match self {
            RefError::LocalRegistry { source } => {
                push_str(&mut m, "--ref does not apply to the local registry at '");
                push_str(&mut m, source.as_str());
                push_str(&mut m, "'. Point the registry at a tagged source first.");
            },
            RefError::NotGitHub { source } => {
                push_str(&mut m, "--ref is only supported for GitHub registries, not '");
                push_str(&mut m, source.as_str());
                push_str(&mut m, "'");
            },
        }
        m
    }
}

/// `owner/repo` of a GitHub registry source without its prefix: the text
/// before the first `@`, or all of it.
pub open spec fn owner_repo_of(rest: Seq<char>) -> Seq<char> {
    match split_once(rest, '@') {
        Some((a, _)) => a,
        None => rest,
    }
}

/// A GitHub registry source pointed at `new_ref`: its prefix (`github:` or
/// `gh:`) and `owner/repo` kept, `@` and the new ref after them. `None` for a
/// source that is not a GitHub one.
pub open spec fn with_ref_spec(source: Seq<char>, new_ref: Seq<char>) -> Option<Seq<char>> {
    if has_prefix(source, "github:"@) {
        Some("github:"@ + owner_repo_of(source.subrange(7, source.len() as int)) + seq!['@'] + new_ref)
    } else if has_prefix(source, "gh:"@) {
        Some("gh:"@ + owner_repo_of(source.subrange(3, source.len() as int)) + seq!['@'] + new_ref)
    } else {
        None
    }
}

/// `owner/repo` of a source without its prefix.
fn owner_repo(rest: &[char]) -> (r: String)
    ensures
        r@ == owner_repo_of(rest@),
{
    match crate::text::find_first(rest, '@') {
        Some(k) => {
            proof {
                crate::text::lemma_first_index(rest@, '@', k as int);
            }
            substring(rest, 0, k)
        },
        None => string_of(rest),
    }
}

/// Points a registry source at a different ref, so that the index and the
/// components of an update come from the same commit. `is_local` says whether
/// the source is a directory on disk, which has no ref to move.
pub fn with_ref(registry_source: &str, new_ref: &str, is_local: bool) -> (r: Result<String, RefError>)
    ensures
        is_local ==> (r matches Err(RefError::LocalRegistry { source }) && source@ == registry_source@),
        !is_local ==> match with_ref_spec(registry_source@, new_ref@) {
            Some(s) => (r matches Ok(t) && t@ == s),
            None => (r matches Err(RefError::NotGitHub { source }) && source@ == registry_source@),
        },
{
    if is_local {
        return Err(RefError::LocalRegistry { source: crate::text::owned(registry_source) });
    }
    let v = chars_of(registry_source);
    let github = chars_of("github:");
    let gh = chars_of("gh:");
    proof {
        reveal_strlit("github:");
        reveal_strlit("gh:");
    }
    if crate::text::chars_starts_with(v.as_slice(), github.as_slice()) {
        let rest = crate::text::slice_chars(v.as_slice(), 7, v.len());
        let mut r = crate::text::owned("github:");
        let o = owner_repo(rest.as_slice());
        push_str(&mut r, o.as_str());
        push_char(&mut r, '@');
        push_str(&mut r, new_ref);
        return Ok(r);
    }
    if crate::text::chars_starts_with(v.as_slice(), gh.as_slice()) {
        let rest = crate::text::slice_chars(v.as_slice(), 3, v.len());
        let mut r = crate::text::owned("gh:");
        let o = owner_repo(rest.as_slice());
        push_str(&mut r, o.as_str());
        push_char(&mut r, '@');
        push_str(&mut r, new_ref);
        return Ok(r);
    }
    Err(RefError::NotGitHub { source: crate::text::owned(registry_source) })
}

/// A registry reference without its leading `@`, as `search @my-kit` takes it.
pub open spec fn registry_name_spec(reference: Seq<char>) -> Seq<char> {
    if reference.len() > 0 && reference[0] == '@' {
        reference.drop_first()
    } else {
        reference
    }
}

/// Strips a leading `@` from a registry reference.
pub fn registry_name(reference: &str) -> (r: String)
    ensures
        r@ == registry_name_spec(reference@),
{
    let v = chars_of(reference);
    if v.len() > 0 && v[0] == '@' {
        substring(v.as_slice(), 1, v.len())
    } else {
        string_of(v.as_slice())
    }
}

/// A component reference `@registry/component`: the registry and the component
/// when both are there.
pub open spec fn component_ref_spec(input: Seq<char>) -> Option<(Seq<char>, Seq<char>)> {
    if input.len() > 0 && input[0] == '@' {
        match split_once(input.drop_first(), '/') {
            Some((reg, id)) => if reg.len() > 0 && id.len() > 0 {
                Some((reg, id))
            } else {
                None
            },
            None => None,
        }
    } else {
        None
    }
}

/// Reads `@registry/component`, the way components are named on the command line.
pub fn parse_component_ref(input: &str) -> (r: Option<(String, String)>)
    ensures
        match r {
            Some((reg, id)) => component_ref_spec(input@) == Some((reg@, id@)),
            None => component_ref_spec(input@) is None,
        },
{
    let v = chars_of(input);
    if v.len() == 0 || v[0] != '@' {
        return None;
    }
    let rest = crate::text::slice_chars(v.as_slice(), 1, v.len());
    assert(rest@ =~= input@.drop_first());
    match crate::text::find_first(rest.as_slice(), '/') {
        Some(k) => {
            proof {
                crate::text::lemma_first_index(rest@, '/', k as int);
            }
            if k == 0 || k + 1 == rest.len() {
                return None;
            }
            Some((substring(rest.as_slice(), 0, k), substring(rest.as_slice(), k + 1, rest.len())))
        },
        None => None,
    }
}

/// The characters Unicode counts as white space (`char::is_whitespace`).
pub open spec fn is_white_space(c: char) -> bool {
    ||| ('\u{9}' <= c && c <= '\u{d}')
    ||| c == ' '
    ||| c == '\u{85}'
    ||| c == '\u{a0}'
    ||| c == '\u{1680}'
    ||| ('\u{2000}' <= c && c <= '\u{200a}')
    ||| c == '\u{2028}'
    ||| c == '\u{2029}'
    ||| c == '\u{202f}'
    ||| c == '\u{205f}'
    ||| c == '\u{3000}'
}

/// Whether `c` is white space.
fn white_space(c: char) -> (r: bool)
    ensures
        r == is_white_space(c),
{
    ('\u{9}' <= c && c <= '\u{d}') || c == ' ' || c == '\u{85}' || c == '\u{a0}' || c == '\u{1680}'
        || ('\u{2000}' <= c && c <= '\u{200a}') || c == '\u{2028}' || c == '\u{2029}'
        || c == '\u{202f}' || c == '\u{205f}' || c == '\u{3000}'
}

/// A character a registry name cannot hold: it would not survive the round
/// trip through `@name/component` and the `name:component` backlink.
pub open spec fn forbidden_in_name(c: char) -> bool {
    c == ':' || c == '/' || c == '@' || is_white_space(c)
}

/// Why a registry name was refused.
#[derive(Debug)]
pub enum NameError {
    Empty,
    Forbidden { name: String, found: char },
}

impl NameError {
    /// The message shown to the user.
    pub fn message(&self) -> (r: String)
        ensures
            r@ == match self {
                NameError::Empty => "Registry name cannot be empty"@,
                NameError::Forbidden { name, found } => "Registry name '"@ + name@ + "' cannot contain '"@
                    + seq![*found] + "'"@,
            },
    {
        let mut m = String::new();
        match self {
            NameError::Empty => push_str(&mut m, "Registry name cannot be empty"),
            NameError::Forbidden { name, found } => {
                push_str(&mut m, "Registry name '");
                push_str(&mut m, name.as_str());
                push_str(&mut m, "' cannot contain '");
                push_char(&mut m, *found);
                push_str(&mut m, "'");
            },
        }
        m
    }
}

/// Refuses an empty registry name, or one holding `:`, `/`, `@` or white
/// space; the error names the first such character.
pub fn validate_registry_name(name: &str) -> (r: Result<(), NameError>)
    ensures
        match r {
            Ok(()) => name@.len() > 0 && forall|i: int| 0 <= i < name@.len() ==> !forbidden_in_name(#[trigger] name@[i]),
            Err(NameError::Empty) => name@.len() == 0,
            Err(NameError::Forbidden { name: n, found }) => n@ == name@ && exists|k: int|
                0 <= k < name@.len() && name@[k] == found && forbidden_in_name(found)
                && forall|j: int| 0 <= j < k ==> !forbidden_in_name(#[trigger] name@[j]),
        },
        r is Ok ==> !name@.contains(':') && !name@.contains('/') && !name@.contains('@') && !name@.contains(' '),
        r is Ok ==> registry_name_spec(name@) == name@,
{
    let v = chars_of(name);
    if v.len() == 0 {
        return Err(NameError::Empty);
    }
    let mut i: usize = 0;
    while i < v.len()
        invariant
            i <= v@.len(),
            v@ == name@,
            forall|j: int| 0 <= j < i ==> !forbidden_in_name(#[trigger] v@[j]),
        decreases v@.len() - i,
    {
        let c = v[i];
        if c == ':' || c == '/' || c == '@' || white_space(c) {
            return Err(NameError::Forbidden { name: crate::text::owned(name), found: c });
        }
        i += 1;
    }
    proof {
        assert forall|ch: char| ch == ':' || ch == '/' || ch == '@' || ch == ' ' implies !name@.contains(ch) by {
            if name@.contains(ch) {
                let k = choose|k: int| 0 <= k < name@.len() && name@[k] == ch;
                assert(!forbidden_in_name(v@[k]));
            }
        }
        assert(!name@.contains('@'));
        assert(registry_name_spec(name@) == name@) by {
            assert(!forbidden_in_name(v@[0]));
        }
    }
    Ok(())
}

/// A name the check accepts survives every way it is written back: bare and
/// with its `@` it names itself, and `@name/component` reads back as the name
/// and the component.
pub proof fn lemma_accepted_name_round_trips(name: Seq<char>, id: Seq<char>)
    requires
        name.len() > 0,
        forall|i: int| 0 <= i < name.len() ==> !forbidden_in_name(#[trigger] name[i]),
        id.len() > 0,
    ensures
        registry_name_spec(name) == name,
        registry_name_spec(seq!['@'] + name) == name,
        component_ref_spec(seq!['@'] + name + seq!['/'] + id) == Some((name, id)),
{
    assert(!forbidden_in_name(name[0]));
    assert((seq!['@'] + name).drop_first() =~= name);
    let input = seq!['@'] + name + seq!['/'] + id;
    assert(input.drop_first() =~= name + seq!['/'] + id);
    assert(!name.contains('/')) by {
        if name.contains('/') {
            let k = choose|k: int| 0 <= k < name.len() && name[k] == '/';
            assert(!forbidden_in_name(name[k]));
        }
    }
    crate::sources::lemma_split_joined(name, '/', id);
}

/// The directory a component is copied into: the last name of its registry
/// path, which is what its own imports expect, or its id when the path has none.
pub open spec fn component_dir_spec(c: crate::registry::SpecComponent) -> Seq<char> {
    match file_name(comps(c.path)) {
        Some(n) => n,
        None => c.name,
    }
}

/// The directory a component is copied into.
pub fn component_dir(component: &crate::registry::Component) -> (r: String)
    ensures
        r@ == component_dir_spec(component@),
{
    let c = crate::paths::components(component.path.as_str());
    if c.len() > 0 {
        let last = &c[c.len() - 1];
        assert(crate::paths::cv(c@).last() == c@[c@.len() - 1]@);
        let named = !((last.len() == 1 && (last[0] == '/' || last[0] == '.')) || (last.len() == 2 && last[0] == '.' && last[1] == '.'));
        proof {
            if last.len() == 1 {
                if last[0] == '/' {
                    assert(last@ =~= seq!['/']);
                } else if last[0] == '.' {
                    assert(last@ =~= seq!['.']);
                }
            }
            if last.len() == 2 && last[0] == '.' && last[1] == '.' {
                assert(last@ =~= seq!['.', '.']);
            }
        }
        if named {
            return string_of(last.as_slice());
        }
    }
    component.name.clone()
}

} // verus!
