//! Paths as copit writes them: `/`-separated text.
//!
//! Two views of a path are used. Joining works on the text, as `PathBuf::join`
//! does: a rooted right side replaces the left, otherwise a `/` goes between
//! them unless the left is empty or already ends in one. Everything that asks
//! what a path *is* (its parent, its file name, whether one path lies under
//! another) works on its components, the pieces between separators with empty
//! pieces and inner `.` pieces dropped, a leading `/` kept as the root and a
//! leading `.` kept as the current directory. Results computed on components
//! are written back in normal form: components joined by single `/`.

use vstd::prelude::*;

use crate::text::{chars_of, chars_eq, push_chars, string_of};

verus! {

/// `a` joined with `b`, as `PathBuf::join` writes it.
pub open spec fn join_spec(a: Seq<char>, b: Seq<char>) -> Seq<char> {
    if b.len() > 0 && b[0] == '/' {
        b
    } else if a.len() == 0 {
        b
    } else if a.last() == '/' {
        a + b
    } else {
        a + seq!['/'] + b
    }
}

/// `a` joined with `b`.
pub fn join(a: &str, b: &str) -> (r: String)
    ensures
        r@ == join_spec(a@, b@),
{
    let va = chars_of(a);
    let vb = chars_of(b);
    if vb.len() > 0 && vb[0] == '/' {
        return string_of(vb.as_slice());
    }
    let mut r = string_of(va.as_slice());
    if va.len() > 0 && va[va.len() - 1] != '/' {
        crate::text::push_char(&mut r, '/');
    }
    push_chars(&mut r, vb.as_slice());
    r
}

/// The pieces of `s` between the separators `x` and `y`, empty ones included.
pub open spec fn pieces(s: Seq<char>, x: char, y: char) -> Seq<Seq<char>>
    decreases s.len(),
{
    if s.len() == 0 {
        seq![Seq::<char>::empty()]
    } else {
        let p = pieces(s.drop_last(), x, y);
        if s.last() == x || s.last() == y {
            p.push(Seq::<char>::empty())
        } else {
            p.update(p.len() - 1, p.last().push(s.last()))
        }
    }
}

pub proof fn lemma_pieces_nonempty(s: Seq<char>, x: char, y: char)
    ensures
        pieces(s, x, y).len() >= 1,
    decreases s.len(),
{
    if s.len() > 0 {
        lemma_pieces_nonempty(s.drop_last(), x, y);
    }
}

/// The pieces of `s` between separators `x` and `y`.
pub fn split_pieces(s: &[char], x: char, y: char) -> (r: Vec<Vec<char>>)
    ensures
        r@.len() == pieces(s@, x, y).len(),
        forall|i: int| 0 <= i < r@.len() ==> #[trigger] r@[i]@ == pieces(s@, x, y)[i],
{
    let mut done: Vec<Vec<char>> = Vec::new();
    let mut cur: Vec<char> = Vec::new();
    let mut i: usize = 0;
    while i < s.len()
        invariant
            i <= s@.len(),
            done@.len() + 1 == pieces(s@.subrange(0, i as int), x, y).len(),
            forall|j: int| 0 <= j < done@.len() ==> #[trigger] done@[j]@ == pieces(s@.subrange(0, i as int), x, y)[j],
            cur@ == pieces(s@.subrange(0, i as int), x, y).last(),
        decreases s@.len() - i,
    {
        proof {
            lemma_pieces_nonempty(s@.subrange(0, i as int), x, y);
            assert(s@.subrange(0, i + 1).drop_last() == s@.subrange(0, i as int));
        }
        let c = s[i];
        if c == x || c == y {
            let finished = cur;
            done.push(finished);
            cur = Vec::new();
        } else {
            cur.push(c);
        }
        i += 1;
    }
    done.push(cur);
    assert(s@.subrange(0, s@.len() as int) == s@);
    proof {
        lemma_pieces_nonempty(s@, x, y);
    }
    done
}

/// The pieces that name something: not empty and not `.`.
pub open spec fn named(ps: Seq<Seq<char>>) -> Seq<Seq<char>>
    decreases ps.len(),
{
    if ps.len() == 0 {
        Seq::empty()
    } else {
        let rest = named(ps.drop_last());
        if ps.last().len() == 0 || ps.last() == seq!['.'] {
            rest
        } else {
            rest.push(ps.last())
        }
    }
}

/// The components of path `s`.
pub open spec fn comps(s: Seq<char>) -> Seq<Seq<char>> {
    let ps = pieces(s, '/', '/');
    let rooted = s.len() > 0 && s[0] == '/';
    let lead: Seq<Seq<char>> = if rooted {
        seq![seq!['/']]
    } else if ps[0] == seq!['.'] {
        seq![seq!['.']]
    } else {
        Seq::empty()
    };
    lead + named(ps)
}

/// Whether `c` is the one-character text `ch`.
fn is_single(c: &Vec<char>, ch: char) -> (r: bool)
    ensures
        r == (c@ == seq![ch]),
{
    if c.len() == 1 && c[0] == ch {
        assert(c@ =~= seq![ch]);
        true
    } else {
        false
    }
}

/// The texts of a list of character vectors.
pub open spec fn cv(v: Seq<Vec<char>>) -> Seq<Seq<char>> {
    v.map_values(|x: Vec<char>| x@)
}

/// The components of `s`.
pub fn components(s: &str) -> (r: Vec<Vec<char>>)
    ensures
        cv(r@) == comps(s@),
{
    let v = chars_of(s);
    let ps = split_pieces(v.as_slice(), '/', '/');
    proof {
        lemma_pieces_nonempty(s@, '/', '/');
    }
    let ghost sp = pieces(s@, '/', '/');
    let mut r: Vec<Vec<char>> = Vec::new();
    if v.len() > 0 && v[0] == '/' {
        r.push(vec!['/']);
    } else if is_single(&ps[0], '.') {
        r.push(vec!['.']);
    }
    let ghost lead: Seq<Seq<char>> = if s@.len() > 0 && s@[0] == '/' {
        seq![seq!['/']]
    } else if sp[0] == seq!['.'] {
        seq![seq!['.']]
    } else {
        Seq::empty()
    };
    assert(r@.len() == lead.len());
    assert(forall|j: int| 0 <= j < r@.len() ==> #[trigger] r@[j]@ == lead[j]);
    let mut i: usize = 0;
    while i < ps.len()
        invariant
            i <= ps@.len(),
            ps@.len() == sp.len(),
            forall|j: int| 0 <= j < ps@.len() ==> #[trigger] ps@[j]@ == sp[j],
            r@.len() == lead.len() + named(sp.subrange(0, i as int)).len(),
            forall|j: int| 0 <= j < r@.len() ==> #[trigger] r@[j]@ == (lead + named(sp.subrange(0, i as int)))[j],
        decreases ps@.len() - i,
    {
        assert(sp.subrange(0, i + 1).drop_last() == sp.subrange(0, i as int));
        assert(sp.subrange(0, i + 1).last() == sp[i as int]);
        let p = &ps[i];
        if p.len() == 0 || is_single(p, '.') {
        } else {
            r.push(dup(p));
        }
        i += 1;
    }
    assert(sp.subrange(0, sp.len() as int) == sp);
    assert(cv(r@) =~= comps(s@));
    r
}

/// Components written back as a path: joined by `/`, the root written once.
pub open spec fn render(c: Seq<Seq<char>>) -> Seq<char>
    decreases c.len(),
{
    if c.len() == 0 {
        Seq::empty()
    } else if c.len() == 1 {
        c[0]
    } else {
        let front = render(c.drop_last());
        if c.len() == 2 && c[0] == seq!['/'] {
            front + c.last()
        } else {
            front + seq!['/'] + c.last()
        }
    }
}

/// Writes components back as a path.
pub fn render_components(c: &Vec<Vec<char>>) -> (r: String)
    ensures
        r@ == render(cv(c@)),
{
    let ghost cv = cv(c@);
    let mut r = String::new();
    let mut i: usize = 0;
    while i < c.len()
        invariant
            i <= c@.len(),
            cv == crate::paths::cv(c@),
            r@ == render(cv.subrange(0, i as int)),
        decreases c@.len() - i,
    {
        let ghost sub = cv.subrange(0, i + 1);
        assert(sub.drop_last() == cv.subrange(0, i as int));
        assert(sub.last() == c@[i as int]@);
        if i == 0 {
            assert(sub.len() == 1);
        } else if i == 1 && is_single(&c[0], '/') {
            assert(sub[0] == c@[0]@);
        } else {
            assert(sub[0] == c@[0]@);
            crate::text::push_char(&mut r, '/');
        }
        push_chars(&mut r, c[i].as_slice());
        i += 1;
    }
    assert(cv.subrange(0, c@.len() as int) == cv);
    r
}


/// A component that names a file or directory: not the root, `.` or `..`.
pub open spec fn is_named(x: Seq<char>) -> bool {
    x != seq!['/'] && x != seq!['.'] && x != seq!['.', '.']
}

/// The last component when it names something (`Path::file_name`).
pub open spec fn file_name(c: Seq<Seq<char>>) -> Option<Seq<char>> {
    if c.len() > 0 && is_named(c.last()) {
        Some(c.last())
    } else {
        None
    }
}

/// A file name has an extension when it has a `.` after its first character.
pub open spec fn has_dot_ext(n: Seq<char>) -> bool {
    n.contains('.') && crate::text::last_index(n, '.') > 0
}

/// A file name without its extension (`Path::file_stem`).
pub open spec fn stem_of(n: Seq<char>) -> Seq<char> {
    if has_dot_ext(n) {
        n.subrange(0, crate::text::last_index(n, '.'))
    } else {
        n
    }
}

/// The path has a file name with an extension (`Path::extension` is some).
pub open spec fn has_extension(c: Seq<Seq<char>>) -> bool {
    match file_name(c) {
        Some(n) => has_dot_ext(n),
        None => false,
    }
}

/// Everything but the last component (`Path::parent`); none for the root or
/// the empty path.
pub open spec fn parent_of(c: Seq<Seq<char>>) -> Option<Seq<Seq<char>>> {
    if c.len() > 0 && c.last() != seq!['/'] {
        Some(c.drop_last())
    } else {
        None
    }
}

/// `b` joined onto `a`, by components: a rooted `b` replaces `a`, and a leading
/// `.` of `b` disappears in the middle of a path.
pub open spec fn join_c(a: Seq<Seq<char>>, b: Seq<Seq<char>>) -> Seq<Seq<char>> {
    if b.len() > 0 && b[0] == seq!['/'] {
        b
    } else if a.len() == 0 {
        b
    } else if b.len() > 0 && b[0] == seq!['.'] {
        a + b.drop_first()
    } else {
        a + b
    }
}

/// `p` with the components of `base` taken off its front, or all of `p` when it
/// does not start with them (`Path::strip_prefix`, falling back to the path).
pub open spec fn strip_c(p: Seq<Seq<char>>, base: Seq<Seq<char>>) -> Seq<Seq<char>> {
    if base.len() <= p.len() && p.subrange(0, base.len() as int) == base {
        p.subrange(base.len() as int, p.len() as int)
    } else {
        p
    }
}

/// The file stem of a path as a path, or the whole path when it has no file
/// name (`file_stem().unwrap_or(path)`).
pub open spec fn stem_part(c: Seq<Seq<char>>) -> Seq<Seq<char>> {
    match file_name(c) {
        Some(n) => comps(stem_of(n)),
        None => c,
    }
}

/// The texts after a push.
pub proof fn lemma_cv_push(s: Seq<Vec<char>>, x: Vec<char>)
    ensures
        cv(s.push(x)) == cv(s).push(x@),
{
    assert(cv(s.push(x)) =~= cv(s).push(x@));
}

/// The texts of a range.
pub proof fn lemma_cv_subrange(s: Seq<Vec<char>>, i: int, j: int)
    requires
        0 <= i <= j < s.len(),
    ensures
        cv(s).subrange(i, j + 1) == cv(s).subrange(i, j).push(s[j]@),
{
    assert(cv(s).subrange(i, j + 1) =~= cv(s).subrange(i, j).push(s[j]@));
}

/// An owned copy of a component.
fn dup(c: &Vec<char>) -> (r: Vec<char>)
    ensures
        r@ == c@,
{
    let r = crate::text::slice_chars(c.as_slice(), 0, c.len());
    assert(c@.subrange(0, c@.len() as int) =~= c@);
    r
}

/// An owned copy of a list of components.
fn copy_comps(c: &Vec<Vec<char>>) -> (r: Vec<Vec<char>>)
    ensures
        cv(r@) == cv(c@),
{
    let mut r: Vec<Vec<char>> = Vec::new();
    let mut i: usize = 0;
    while i < c.len()
        invariant
            i <= c@.len(),
            cv(r@) == cv(c@).subrange(0, i as int),
        decreases c@.len() - i,
    {
        proof {
            lemma_cv_push(r@, c@[i as int]);
            lemma_cv_subrange(c@, 0, i as int);
        }
        r.push(dup(&c[i]));
        i += 1;
    }
    assert(cv(c@).subrange(0, c@.len() as int) =~= cv(c@));
    r
}

/// `c` from position `from` on.
fn skip_comps(c: &Vec<Vec<char>>, from: usize) -> (r: Vec<Vec<char>>)
    requires
        from <= c@.len(),
    ensures
        cv(r@) == cv(c@).subrange(from as int, c@.len() as int),
{
    let mut r: Vec<Vec<char>> = Vec::new();
    let mut i: usize = from;
    while i < c.len()
        invariant
            from <= i <= c@.len(),
            cv(r@) == cv(c@).subrange(from as int, i as int),
        decreases c@.len() - i,
    {
        proof {
            lemma_cv_push(r@, c@[i as int]);
            lemma_cv_subrange(c@, from as int, i as int);
        }
        r.push(dup(&c[i]));
        i += 1;
    }
    r
}

/// `b` appended to `a`, from position `from` of `b` on.
fn append_comps(a: &mut Vec<Vec<char>>, b: &Vec<Vec<char>>, from: usize)
    requires
        from <= b@.len(),
    ensures
        cv(final(a)@) == cv(old(a)@) + cv(b@).subrange(from as int, b@.len() as int),
{
    let ghost start = cv(a@);
    let mut i: usize = from;
    while i < b.len()
        invariant
            from <= i <= b@.len(),
            cv(a@) == start + cv(b@).subrange(from as int, i as int),
        decreases b@.len() - i,
    {
        proof {
            lemma_cv_push(a@, b@[i as int]);
            lemma_cv_subrange(b@, from as int, i as int);
        }
        a.push(dup(&b[i]));
        i += 1;
    }
}

/// Joins `b` onto `a` by components.
fn join_comps(a: &Vec<Vec<char>>, b: &Vec<Vec<char>>) -> (r: Vec<Vec<char>>)
    ensures
        cv(r@) == join_c(cv(a@), cv(b@)),
{
    if b.len() > 0 && is_single(&b[0], '/') {
        assert(cv(b@)[0] == b@[0]@);
        return copy_comps(b);
    }
    if a.len() == 0 {
        return copy_comps(b);
    }
    let mut r = copy_comps(a);
    if b.len() > 0 && is_single(&b[0], '.') {
        assert(cv(b@)[0] == b@[0]@);
        append_comps(&mut r, b, 1);
        assert(cv(b@).subrange(1, b@.len() as int) =~= cv(b@).drop_first());
    } else {
        if b.len() > 0 {
            assert(cv(b@)[0] == b@[0]@);
        }
        append_comps(&mut r, b, 0);
        assert(cv(b@).subrange(0, b@.len() as int) =~= cv(b@));
    }
    r
}

/// Whether `c` is a named component.
fn is_named_comp(c: &Vec<char>) -> (r: bool)
    ensures
        r == is_named(c@),
{
    if is_single(c, '/') || is_single(c, '.') {
        return false;
    }
    if c.len() == 2 && c[0] == '.' && c[1] == '.' {
        assert(c@ =~= seq!['.', '.']);
        return false;
    }
    assert(c@ != seq!['.', '.']);
    true
}

/// The file name of a list of components.
fn file_name_of(c: &Vec<Vec<char>>) -> (r: Option<Vec<char>>)
    ensures
        match r {
            Some(n) => file_name(cv(c@)) == Some(n@),
            None => file_name(cv(c@)) is None,
        },
{
    if c.len() > 0 && is_named_comp(&c[c.len() - 1]) {
        assert(cv(c@).last() == c@[c@.len() - 1]@);
        Some(dup(&c[c.len() - 1]))
    } else {
        if c.len() > 0 {
            assert(cv(c@).last() == c@[c@.len() - 1]@);
        }
        None
    }
}

/// Where a file name's extension starts, if it has one.
fn dot_ext_at(n: &Vec<char>) -> (r: Option<usize>)
    ensures
        r is Some <==> has_dot_ext(n@),
        r matches Some(k) ==> k == crate::text::last_index(n@, '.') && k < n@.len(),
{
    match crate::text::find_last(n.as_slice(), '.') {
        Some(k) => {
            proof {
                crate::text::lemma_last_index(n@, '.', k as int);
            }
            if k > 0 {
                Some(k)
            } else {
                None
            }
        },
        None => None,
    }
}

/// Whether the path has an extension.
fn has_extension_comps(c: &Vec<Vec<char>>) -> (r: bool)
    ensures
        r == has_extension(cv(c@)),
{
    match file_name_of(c) {
        Some(n) => dot_ext_at(&n).is_some(),
        None => false,
    }
}

/// The stem of a path, as components.
fn stem_comps(c: &Vec<Vec<char>>) -> (r: Vec<Vec<char>>)
    ensures
        cv(r@) == stem_part(cv(c@)),
{
    match file_name_of(c) {
        Some(n) => {
            let stem = match dot_ext_at(&n) {
                Some(k) => crate::text::substring(n.as_slice(), 0, k),
                None => string_of(n.as_slice()),
            };
            components(stem.as_str())
        },
        None => copy_comps(c),
    }
}

/// Whether `c` starts with the components of `base`.
fn starts_with_comps(c: &Vec<Vec<char>>, base: &Vec<Vec<char>>) -> (r: bool)
    ensures
        r == (base@.len() <= c@.len() && cv(c@).subrange(0, base@.len() as int) == cv(base@)),
{
    if base.len() > c.len() {
        return false;
    }
    let mut i: usize = 0;
    while i < base.len()
        invariant
            i <= base@.len(),
            base@.len() <= c@.len(),
            cv(c@).subrange(0, i as int) == cv(base@).subrange(0, i as int),
        decreases base@.len() - i,
    {
        if !chars_eq(c[i].as_slice(), base[i].as_slice()) {
            assert(cv(c@).subrange(0, base@.len() as int)[i as int] != cv(base@)[i as int]);
            return false;
        }
        i += 1;
        assert(cv(c@).subrange(0, i as int) =~= cv(base@).subrange(0, i as int));
    }
    assert(cv(base@).subrange(0, base@.len() as int) =~= cv(base@));
    true
}

/// `c` without the components of `base` in front, or all of `c`.
fn strip_comps(c: &Vec<Vec<char>>, base: &Vec<Vec<char>>) -> (r: Vec<Vec<char>>)
    ensures
        cv(r@) == strip_c(cv(c@), cv(base@)),
{
    if starts_with_comps(c, base) {
        skip_comps(c, base.len())
    } else {
        copy_comps(c)
    }
}

/// Everything but the last component, or `fallback` when there is no parent.
fn parent_or(c: &Vec<Vec<char>>, fallback: Vec<Vec<char>>) -> (r: Vec<Vec<char>>)
    ensures
        cv(r@) == match parent_of(cv(c@)) {
            Some(p) => p,
            None => cv(fallback@),
        },
{
    if c.len() > 0 && !is_single(&c[c.len() - 1], '/') {
        assert(cv(c@).last() == c@[c@.len() - 1]@);
        let mut r = copy_comps(c);
        r.pop();
        assert(cv(r@) =~= cv(c@).drop_last());
        r
    } else {
        if c.len() > 0 {
            assert(cv(c@).last() == c@[c@.len() - 1]@);
        }
        fallback
    }
}

/// Where a source's license files go. With a licenses directory the layout
/// under the target is mirrored there: the source path without the target in
/// front, a single file standing as its stem (`vendor/lib.rs` gives
/// `licenses/lib`). Without one they sit beside the source: a single file's in
/// a folder named by its stem next to it, a directory's inside it.
pub open spec fn license_dir(track: Seq<char>, target: Seq<char>, dir: Option<Seq<char>>) -> Seq<Seq<char>> {
    let t = comps(track);
    match dir {
        Some(d) => {
            let rel = strip_c(t, comps(target));
            if has_extension(t) {
                let parent = match parent_of(rel) {
                    Some(p) => p,
                    None => Seq::empty(),
                };
                join_c(join_c(comps(d), parent), stem_part(rel))
            } else {
                join_c(comps(d), rel)
            }
        },
        None => {
            if has_extension(t) {
                let parent = match parent_of(t) {
                    Some(p) => p,
                    None => seq![seq!['.']],
                };
                join_c(parent, stem_part(t))
            } else {
                t
            }
        },
    }
}

/// The views of an optional borrowed string.
pub open spec fn opt_str(o: Option<&str>) -> Option<Seq<char>> {
    match o {
        Some(s) => Some(s@),
        None => None,
    }
}

/// The directory a source's license files belong in, written in normal form.
pub fn license_dir_for(track_path: &str, target: &str, licenses_dir: Option<&str>) -> (r: String)
    ensures
        r@ == render(license_dir(track_path@, target@, opt_str(licenses_dir))),
{
    let t = components(track_path);
    let with_ext = has_extension_comps(&t);
    let dir = match licenses_dir {
        Some(d) => {
            let dc = components(d);
            let base = components(target);
            let rel = strip_comps(&t, &base);
            if with_ext {
                let parent = parent_or(&rel, Vec::new());
                let stem = stem_comps(&rel);
                let inner = join_comps(&dc, &parent);
                join_comps(&inner, &stem)
            } else {
                join_comps(&dc, &rel)
            }
        },
        None => {
            if with_ext {
                let dot = vec!['.'];
                let fallback = vec![dot];
                proof {
                    assert(dot@ =~= seq!['.']);
                    assert(cv(fallback@) =~= seq![seq!['.']]);
                }
                let parent = parent_or(&t, fallback);
                let stem = stem_comps(&t);
                join_comps(&parent, &stem)
            } else {
                t
            }
        },
    };
    proof {
        if licenses_dir is Some && with_ext {
            assert(cv(Seq::<Vec<char>>::empty()) =~= Seq::<Seq<char>>::empty());
        }
    }
    render_components(&dir)
}

/// Every directory a source's licenses may be in, the current layout first: the
/// one for its own target, the one an older layout computed from the project
/// target, and the one beside the source; each once.
pub open spec fn license_candidates(
    track: Seq<char>,
    target: Seq<char>,
    project_target: Seq<char>,
    dir: Option<Seq<char>>,
) -> Seq<Seq<char>> {
    let first = render(license_dir(track, target, dir));
    let legacy = render(license_dir(track, project_target, dir));
    let beside = render(license_dir(track, target, None));
    let two = if legacy == first { seq![first] } else { seq![first, legacy] };
    if two.contains(beside) { two } else { two.push(beside) }
}

/// The directories a source's licenses may occupy, current layout first.
pub fn license_dir_candidates(
    track_path: &str,
    target: &str,
    project_target: &str,
    licenses_dir: Option<&str>,
) -> (r: Vec<String>)
    ensures
        crate::names::names_view(r@) == license_candidates(
            track_path@,
            target@,
            project_target@,
            opt_str(licenses_dir),
        ),
        r@.len() >= 1,
{
    let first = license_dir_for(track_path, target, licenses_dir);
    let legacy = license_dir_for(track_path, project_target, licenses_dir);
    let beside = license_dir_for(track_path, target, None);
    let mut r: Vec<String> = Vec::new();
    let same = crate::text::str_eq(legacy.as_str(), first.as_str());
    let in_two = crate::text::str_eq(beside.as_str(), first.as_str()) || (!same && crate::text::str_eq(beside.as_str(), legacy.as_str()));
    let ghost two: Seq<Seq<char>> = if same { seq![first@] } else { seq![first@, legacy@] };
    proof {
        if in_two {
            if beside@ == first@ {
                assert(two[0] == beside@);
            } else {
                assert(two[1] == beside@);
            }
        } else {
            assert forall|i: int| 0 <= i < two.len() implies two[i] != beside@ by {}
        }
    }
    r.push(first);
    if !same {
        r.push(legacy);
    }
    if !in_two {
        r.push(beside);
    }
    assert(crate::names::names_view(r@) =~= license_candidates(
        track_path@,
        target@,
        project_target@,
        opt_str(licenses_dir),
    ));
    r
}

/// The first candidate that holds license files, else the first candidate.
pub open spec fn existing_dir(candidates: Seq<Seq<char>>, holding: Seq<Seq<char>>) -> Seq<char> {
    if exists|i: int| 0 <= i < candidates.len() && holding.contains(#[trigger] candidates[i]) {
        let k = choose|k: int| 0 <= k < candidates.len() && holding.contains(candidates[k])
            && forall|j: int| 0 <= j < k ==> !holding.contains(#[trigger] candidates[j]);
        candidates[k]
    } else {
        candidates[0]
    }
}

/// Where a source's license files are now: the first candidate directory that
/// holds any, else where the current layout puts them. `holding` lists the
/// directories found to hold license files.
pub fn existing_license_dir(
    track_path: &str,
    target: &str,
    project_target: &str,
    licenses_dir: Option<&str>,
    holding: &[String],
) -> (r: String)
    ensures
        r@ == existing_dir(
            license_candidates(track_path@, target@, project_target@, opt_str(licenses_dir)),
            crate::names::names_view(holding@),
        ),
{
    let candidates = license_dir_candidates(track_path, target, project_target, licenses_dir);
    let ghost cs = crate::names::names_view(candidates@);
    let ghost hs = crate::names::names_view(holding@);
    let mut i: usize = 0;
    while i < candidates.len()
        invariant
            i <= candidates@.len(),
            cs == crate::names::names_view(candidates@),
            cs == license_candidates(track_path@, target@, project_target@, opt_str(licenses_dir)),
            hs == crate::names::names_view(holding@),
            forall|j: int| 0 <= j < i ==> !hs.contains(#[trigger] cs[j]),
        decreases candidates@.len() - i,
    {
        if crate::names::contains_name(holding, candidates[i].as_str()) {
            proof {
                assert(cs[i as int] == candidates@[i as int]@);
                assert(0 <= i < cs.len() && hs.contains(cs[i as int]));
                assert(0 <= i < cs.len() && hs.contains(cs[i as int])
                    && forall|j: int| 0 <= j < i ==> !hs.contains(#[trigger] cs[j]));
                let k = choose|k: int| 0 <= k < cs.len() && hs.contains(cs[k])
                    && forall|j: int| 0 <= j < k ==> !hs.contains(#[trigger] cs[j]);
                if k < i {
                } else if i < k {
                    assert(!hs.contains(cs[i as int]));
                }
                assert(existing_dir(cs, hs) == cs[i as int]);
            }
            return candidates[i].clone();
        }
        assert(cs[i as int] == candidates@[i as int]@);
        i += 1;
    }
    assert(cs.len() >= 1);
    assert(cs[0] == candidates@[0]@);
    candidates[0].clone()
}

/// The license directories a removal cleans: every candidate but the source
/// itself, whose licenses go with it.
pub open spec fn license_dirs_to_clean(
    track: Seq<char>,
    target: Seq<char>,
    project_target: Seq<char>,
    dir: Option<Seq<char>>,
) -> Seq<Seq<char>> {
    license_candidates(track, target, project_target, dir).filter(
        |d: Seq<char>| d != render(comps(track)),
    )
}

/// The directories tried, in order, when a directory is pruned: the directory,
/// then each parent in turn, stopping before the empty path or `.`, and after
/// the root.
pub open spec fn prune_chain_spec(c: Seq<Seq<char>>) -> Seq<Seq<char>>
    decreases c.len(),
{
    if c.len() == 0 || c == seq![seq!['.']] {
        Seq::empty()
    } else {
        seq![render(c)] + match parent_of(c) {
            Some(p) => prune_chain_spec(p),
            None => Seq::empty(),
        }
    }
}

/// The directories to try removing when `dir` may have become empty: `dir` and
/// its ancestors, nearest first.
pub fn prune_chain(dir: &str) -> (r: Vec<String>)
    ensures
        crate::names::names_view(r@) == prune_chain_spec(comps(dir@)),
{
    let mut c = components(dir);
    let mut out: Vec<String> = Vec::new();
    let ghost whole = comps(dir@);
    loop
        invariant
            whole == comps(dir@),
            crate::names::names_view(out@) + prune_chain_spec(cv(c@)) == prune_chain_spec(whole),
        decreases c@.len(),
    {
        if c.len() == 0 || (c.len() == 1 && is_single(&c[0], '.')) {
            proof {
                if c@.len() == 1 {
                    assert(cv(c@) =~= seq![seq!['.']]);
                }
                assert(crate::names::names_view(out@) + prune_chain_spec(cv(c@)) =~= crate::names::names_view(out@));
            }
            return out;
        }
        proof {
            if c@.len() == 1 {
                assert(cv(c@) != seq![seq!['.']]) by {
                    if cv(c@) == seq![seq!['.']] {
                        assert(cv(c@)[0] == c@[0]@);
                    }
                }
            }
        }
        let here = render_components(&c);
        let ghost before = out@;
        let ghost cs = cv(c@);
        out.push(here);
        assert(crate::names::names_view(out@) =~= crate::names::names_view(before).push(render(cs)));
        let n = c.len();
        if is_single(&c[n - 1], '/') {
            assert(cs.last() == seq!['/']);
            assert(prune_chain_spec(cs) =~= seq![render(cs)]);
            assert(crate::names::names_view(out@) + Seq::<Seq<char>>::empty() =~= crate::names::names_view(out@));
            assert(crate::names::names_view(before) + prune_chain_spec(cs) =~= crate::names::names_view(out@));
            return out;
        }
        assert(cs.last() != seq!['/']);
        c.pop();
        proof {
            assert(cv(c@) =~= cs.drop_last());
            assert(crate::names::names_view(before) + prune_chain_spec(cs) =~= crate::names::names_view(out@)
                + prune_chain_spec(cv(c@)));
        }
    }
}

/// How many entries a directory in a prune chain may hold and still be
/// removed: none for the first, and for each later one only the directory
/// before it.
pub open spec fn prunable_count(k: int) -> int {
    if k == 0 { 0 } else { 1 }
}

/// `prunable_count` as a number.
fn prunable(k: usize) -> (r: usize)
    ensures
        r == prunable_count(k as int),
{
    if k == 0 {
        0
    } else {
        1
    }
}

/// The directories of `dir`'s prune chain to remove, given how many entries
/// each holds now (`counts`, nearest first): the longest leading run in which
/// the first is empty and each later one holds only its emptied child.
pub fn dirs_to_prune(dir: &str, counts: &[usize]) -> (r: Vec<String>)
    ensures
        ({
            let chain = prune_chain_spec(comps(dir@));
            let n = r@.len() as int;
            &&& n <= chain.len() && n <= counts@.len()
            &&& crate::names::names_view(r@) == chain.subrange(0, n)
            &&& forall|k: int| 0 <= k < n ==> counts@[k] == prunable_count(k)
            &&& n == chain.len() || n == counts@.len() || counts@[n] != prunable_count(n)
        }),
{
    let chain = prune_chain(dir);
    let ghost spec_chain = prune_chain_spec(comps(dir@));
    let mut out: Vec<String> = Vec::new();
    let mut i: usize = 0;
    while i < chain.len() && i < counts.len() && counts[i] == prunable(i)
        invariant
            crate::names::names_view(chain@) == spec_chain,
            i <= chain@.len(),
            i <= counts@.len(),
            out@.len() == i,
            crate::names::names_view(out@) == spec_chain.subrange(0, i as int),
            forall|k: int| 0 <= k < i ==> counts@[k] == prunable_count(k),
        decreases chain@.len() - i,
    {
        let ghost before = out@;
        out.push(chain[i].clone());
        assert(crate::names::names_view(out@) =~= spec_chain.subrange(0, i + 1));
        i += 1;
    }
    out
}

/// The license directories removing a source must clean: each candidate
/// directory except the source's own path, in candidate order.
pub fn remove_license_files(
    track_path: &str,
    target: &str,
    project_target: &str,
    licenses_dir: Option<&str>,
) -> (r: Vec<String>)
    ensures
        crate::names::names_view(r@) == license_dirs_to_clean(
            track_path@,
            target@,
            project_target@,
            opt_str(licenses_dir),
        ),
{
    let candidates = license_dir_candidates(track_path, target, project_target, licenses_dir);
    let own = render_components(&components(track_path));
    let ghost cs = crate::names::names_view(candidates@);
    let ghost f = |d: Seq<char>| d != render(comps(track_path@));
    let mut r: Vec<String> = Vec::new();
    let mut i: usize = 0;
    while i < candidates.len()
        invariant
            i <= candidates@.len(),
            cs == crate::names::names_view(candidates@),
            own@ == render(comps(track_path@)),
            f == (|d: Seq<char>| d != render(comps(track_path@))),
            crate::names::names_view(r@) == cs.subrange(0, i as int).filter(f),
        decreases candidates@.len() - i,
    {
        let ghost before = r@;
        proof {
            assert(cs[i as int] == candidates@[i as int]@);
        }
        let keep = !crate::text::str_eq(candidates[i].as_str(), own.as_str());
        if keep {
            let c = candidates[i].clone();
            r.push(c);
            assert(crate::names::names_view(r@) =~= crate::names::names_view(before).push(cs[i as int]));
        }
        proof {
            assert(own@ == render(comps(track_path@)));
            assert(keep == f(cs[i as int]));
            let sub = cs.subrange(0, i + 1);
            assert(sub.drop_last() =~= cs.subrange(0, i as int));
            assert(sub.last() == cs[i as int]);
            reveal(Seq::filter);
            assert(sub.filter(f) == if f(sub.last()) {
                sub.drop_last().filter(f).push(sub.last())
            } else {
                sub.drop_last().filter(f)
            });
            assert(crate::names::names_view(r@) =~= sub.filter(f));
        }
        i += 1;
    }
    assert(cs.subrange(0, cs.len() as int) == cs);
    r
}

/// Why a destination path was refused.
#[derive(Debug)]
pub enum TraversalError {
    /// A `..` climbs above the start of the path.
    Escapes { dest: String, base: String },
    /// The path, once resolved, is not under the base directory.
    Outside { dest: String, base: String },
}

impl TraversalError {
    /// The message shown to the user.
    pub fn message(&self) -> (r: String)
        ensures
            r@ == match self {
                TraversalError::Escapes { dest, base } => "Path traversal detected: "@ + dest@
                    + " escapes target directory "@ + base@,
                TraversalError::Outside { dest, base } => "Path traversal detected: "@ + dest@
                    + " is outside target directory "@ + base@,
            },
    {
        let mut m = String::new();
        match self {
            TraversalError::Escapes { dest, base } => {
                crate::text::push_str(&mut m, "Path traversal detected: ");
                crate::text::push_str(&mut m, dest.as_str());
                crate::text::push_str(&mut m, " escapes target directory ");
                crate::text::push_str(&mut m, base.as_str());
            },
            TraversalError::Outside { dest, base } => {
                crate::text::push_str(&mut m, "Path traversal detected: ");
                crate::text::push_str(&mut m, dest.as_str());
                crate::text::push_str(&mut m, " is outside target directory ");
                crate::text::push_str(&mut m, base.as_str());
            },
        }
        m
    }
}

/// The components left after `.` is dropped and each `..` removes the one
/// before it; none when a `..` has nothing left to remove.
pub open spec fn resolve(c: Seq<Seq<char>>) -> Option<Seq<Seq<char>>>
    decreases c.len(),
{
    if c.len() == 0 {
        Some(Seq::empty())
    } else {
        match resolve(c.drop_last()) {
            None => None,
            Some(r) => {
                let x = c.last();
                if x == seq!['.'] {
                    Some(r)
                } else if x == seq!['.', '.'] {
                    if r.len() == 0 {
                        None
                    } else {
                        Some(r.drop_last())
                    }
                } else {
                    Some(r.push(x))
                }
            },
        }
    }
}

/// Once a `..` has climbed out, the rest of the path cannot bring it back.
pub proof fn lemma_resolve_stays_none(c: Seq<Seq<char>>, k: int)
    requires
        0 <= k <= c.len(),
        resolve(c.subrange(0, k)) is None,
    ensures
        resolve(c) is None,
    decreases c.len() - k,
{
    if k < c.len() {
        let next = c.subrange(0, k + 1);
        assert(next.drop_last() =~= c.subrange(0, k));
        lemma_resolve_stays_none(c, k + 1);
    } else {
        assert(c.subrange(0, k) =~= c);
    }
}

/// The separator a platform reads besides `/`: `\\` on Windows, none
/// elsewhere (given as `/` again).
pub open spec fn second_sep(windows: bool) -> char {
    if windows { '\\' } else { '/' }
}

/// The components of `s` as the platform reads them: split at `/`, and on
/// Windows at `\\` too; empty and `.` pieces dropped, a leading separator
/// kept as the root.
pub open spec fn sep_comps(s: Seq<char>, windows: bool) -> Seq<Seq<char>> {
    let y = second_sep(windows);
    let lead: Seq<Seq<char>> = if s.len() > 0 && (s[0] == '/' || s[0] == y) {
        seq![seq!['/']]
    } else {
        Seq::empty()
    };
    lead + named(pieces(s, '/', y))
}

/// The components of `s` as the platform reads them.
fn sep_components(s: &str, windows: bool) -> (r: Vec<Vec<char>>)
    ensures
        cv(r@) == sep_comps(s@, windows),
{
    let y = if windows { '\\' } else { '/' };
    let v = chars_of(s);
    let ps = split_pieces(v.as_slice(), '/', y);
    let ghost sp = pieces(s@, '/', y);
    let mut r: Vec<Vec<char>> = Vec::new();
    if v.len() > 0 && (v[0] == '/' || v[0] == y) {
        r.push(vec!['/']);
    }
    let ghost lead: Seq<Seq<char>> = if s@.len() > 0 && (s@[0] == '/' || s@[0] == y) {
        seq![seq!['/']]
    } else {
        Seq::empty()
    };
    assert(r@.len() == lead.len());
    assert(forall|j: int| 0 <= j < r@.len() ==> #[trigger] r@[j]@ == lead[j]);
    let mut i: usize = 0;
    while i < ps.len()
        invariant
            i <= ps@.len(),
            ps@.len() == sp.len(),
            forall|j: int| 0 <= j < ps@.len() ==> #[trigger] ps@[j]@ == sp[j],
            r@.len() == lead.len() + named(sp.subrange(0, i as int)).len(),
            forall|j: int| 0 <= j < r@.len() ==> #[trigger] r@[j]@ == (lead + named(sp.subrange(0, i as int)))[j],
        decreases ps@.len() - i,
    {
        assert(sp.subrange(0, i + 1).drop_last() == sp.subrange(0, i as int));
        assert(sp.subrange(0, i + 1).last() == sp[i as int]);
        let p = &ps[i];
        if p.len() == 0 || is_single(p, '.') {
        } else {
            r.push(dup(p));
        }
        i += 1;
    }
    assert(sp.subrange(0, sp.len() as int) == sp);
    assert(cv(r@) =~= sep_comps(s@, windows));
    r
}

/// Resolves `.` and `..` in a list of components; none when a `..` has
/// nothing left to remove.
fn resolve_components(c: &Vec<Vec<char>>) -> (r: Option<Vec<Vec<char>>>)
    ensures
        match r {
            Some(v) => resolve(cv(c@)) == Some(cv(v@)),
            None => resolve(cv(c@)) is None,
        },
{
    let ghost cs = cv(c@);
    let mut resolved: Vec<Vec<char>> = Vec::new();
    let mut i: usize = 0;
    while i < c.len()
        invariant
            i <= c@.len(),
            cs == cv(c@),
            resolve(cs.subrange(0, i as int)) == Some(cv(resolved@)),
        decreases c@.len() - i,
    {
        let ghost sub = cs.subrange(0, i + 1);
        proof {
            assert(sub.drop_last() =~= cs.subrange(0, i as int));
            assert(sub.last() == c@[i as int]@);
        }
        if is_single(&c[i], '.') {
        } else if c[i].len() == 2 && c[i][0] == '.' && c[i][1] == '.' {
            assert(c@[i as int]@ =~= seq!['.', '.']);
            if resolved.len() == 0 {
                proof {
                    assert(resolve(sub) is None);
                    lemma_resolve_stays_none(cs, i + 1);
                }
                return None;
            }
            let ghost before = resolved@;
            resolved.pop();
            assert(cv(resolved@) =~= cv(before).drop_last());
        } else {
            proof {
                assert(c@[i as int]@ != seq!['.', '.']);
                lemma_cv_push(resolved@, c@[i as int]);
            }
            resolved.push(dup(&c[i]));
        }
        i += 1;
    }
    assert(cs.subrange(0, cs.len() as int) == cs);
    Some(resolved)
}

/// The verdict on a destination: it escapes (`Some(true)`), lies outside
/// `base` (`Some(false)`), or is fine (`None`). Both paths are read as the
/// platform reads them, with `.` and `..` resolved; the destination is fine when
/// its resolved components start with the base's.
pub open spec fn traversal_check(dest: Seq<char>, base: Seq<char>, windows: bool) -> Option<bool> {
    match resolve(sep_comps(dest, windows)) {
        None => Some(true),
        Some(r) => match resolve(sep_comps(base, windows)) {
            Some(b) => if b.len() <= r.len() && r.subrange(0, b.len() as int) == b {
                None
            } else {
                Some(false)
            },
            None => Some(false),
        },
    }
}

/// Refuses a destination that leaves `base_target`, judged on the path itself
/// with `.` and `..` resolved in both, not on the disk; paths are read as
/// Windows reads them when `windows`, else with `/` as the only separator.
pub fn validate_no_path_traversal_on(dest: &str, base_target: &str, windows: bool) -> (r: Result<(), TraversalError>)
    ensures
        match r {
            Ok(()) => traversal_check(dest@, base_target@, windows) is None,
            Err(TraversalError::Escapes { dest: d, base: b }) => traversal_check(dest@, base_target@, windows)
                == Some(true) && d@ == dest@ && b@ == base_target@,
            Err(TraversalError::Outside { dest: d, base: b }) => traversal_check(dest@, base_target@, windows)
                == Some(false) && d@ == dest@ && b@ == base_target@,
        },
{
    let c = sep_components(dest, windows);
    let resolved = match resolve_components(&c) {
        Some(v) => v,
        None => {
            return Err(TraversalError::Escapes { dest: crate::text::owned(dest), base: crate::text::owned(base_target) });
        },
    };
    let b = sep_components(base_target, windows);
    let inside = match resolve_components(&b) {
        Some(base) => starts_with_comps(&resolved, &base),
        None => false,
    };
    if inside {
        Ok(())
    } else {
        Err(TraversalError::Outside { dest: crate::text::owned(dest), base: crate::text::owned(base_target) })
    }
}

/// Refuses a destination that leaves `base_target`, with `/` as the only
/// separator (as on Unix, where a `\\` belongs to a file name).
pub fn validate_no_path_traversal(dest: &str, base_target: &str) -> (r: Result<(), TraversalError>)
    ensures
        match r {
            Ok(()) => traversal_check(dest@, base_target@, false) is None,
            Err(TraversalError::Escapes { dest: d, base: b }) => traversal_check(dest@, base_target@, false)
                == Some(true) && d@ == dest@ && b@ == base_target@,
            Err(TraversalError::Outside { dest: d, base: b }) => traversal_check(dest@, base_target@, false)
                == Some(false) && d@ == dest@ && b@ == base_target@,
        },
{
    validate_no_path_traversal_on(dest, base_target, false)
}

/// Why an install target was refused.
#[derive(Debug)]
pub enum TargetError {
    /// No directory was given.
    Empty,
    /// Rooted, or naming a drive: it leaves the project.
    NotRelative { target: String },
    /// A `..` climbs above the project.
    Escapes { target: String },
}

impl TargetError {
    /// The message shown to the user.
    pub fn message(&self) -> (r: String)
        ensures
            r@ == match self {
                TargetError::Empty => "Target directory cannot be empty"@,
                TargetError::NotRelative { target } => "Target directory must be relative to the project: "@
                    + target@,
                TargetError::Escapes { target } => "Target directory escapes the project: "@ + target@,
            },
    {
        let mut m = String::new();
        match self {
            TargetError::Empty => {
                crate::text::push_str(&mut m, "Target directory cannot be empty");
            },
            TargetError::NotRelative { target } => {
                crate::text::push_str(&mut m, "Target directory must be relative to the project: ");
                crate::text::push_str(&mut m, target.as_str());
            },
            TargetError::Escapes { target } => {
                crate::text::push_str(&mut m, "Target directory escapes the project: ");
                crate::text::push_str(&mut m, target.as_str());
            },
        }
        m
    }
}

/// An ASCII letter.
pub open spec fn is_ascii_letter(c: char) -> bool {
    ('a' <= c && c <= 'z') || ('A' <= c && c <= 'Z')
}

/// How deep a walk through `ps` ends below its start: empty and `.` pieces
/// stay, `..` climbs, anything else descends; none once it climbs above.
pub open spec fn depth_walk(ps: Seq<Seq<char>>) -> Option<nat>
    decreases ps.len(),
{
    if ps.len() == 0 {
        Some(0)
    } else {
        match depth_walk(ps.drop_last()) {
            None => None,
            Some(d) => {
                let x = ps.last();
                if x.len() == 0 || x == seq!['.'] {
                    Some(d)
                } else if x == seq!['.', '.'] {
                    if d == 0 {
                        None
                    } else {
                        Some((d - 1) as nat)
                    }
                } else {
                    Some(d + 1)
                }
            },
        }
    }
}

pub proof fn lemma_depth_walk_stays_none(ps: Seq<Seq<char>>, k: int)
    requires
        0 <= k <= ps.len(),
        depth_walk(ps.subrange(0, k)) is None,
    ensures
        depth_walk(ps) is None,
    decreases ps.len() - k,
{
    if k < ps.len() {
        assert(ps.subrange(0, k + 1).drop_last() =~= ps.subrange(0, k));
        lemma_depth_walk_stays_none(ps, k + 1);
    } else {
        assert(ps.subrange(0, k) =~= ps);
    }
}

pub proof fn lemma_depth_walk_bound(ps: Seq<Seq<char>>)
    ensures
        depth_walk(ps) matches Some(d) ==> d <= ps.len(),
    decreases ps.len(),
{
    if ps.len() > 0 {
        lemma_depth_walk_bound(ps.drop_last());
    }
}

/// What is wrong with an install target, if anything. Judged on the text, the
/// same on every platform: `/` and `\` both separate, a leading one of either
/// or a drive letter (`C:`) leaves the project, and so does climbing above it.
pub open spec fn target_problem(t: Seq<char>) -> Option<int> {
    if t.len() == 0 {
        Some(0)
    } else if t[0] == '/' || t[0] == '\\' {
        Some(1)
    } else if t.len() >= 2 && t[1] == ':' && is_ascii_letter(t[0]) {
        Some(1)
    } else if depth_walk(pieces(t, '/', '\\')) is None {
        Some(2)
    } else {
        None
    }
}

/// Accepts a target directory only if it stays inside the project.
pub fn validate_install_target(target: &str) -> (r: Result<(), TargetError>)
    ensures
        match r {
            Ok(()) => target_problem(target@) is None,
            Err(TargetError::Empty) => target_problem(target@) == Some(0int),
            Err(TargetError::NotRelative { target: t }) => target_problem(target@) == Some(1int) && t@ == target@,
            Err(TargetError::Escapes { target: t }) => target_problem(target@) == Some(2int) && t@ == target@,
        },
{
    let v = chars_of(target);
    if v.len() == 0 {
        return Err(TargetError::Empty);
    }
    if v[0] == '/' || v[0] == '\\' {
        return Err(TargetError::NotRelative { target: crate::text::owned(target) });
    }
    if v.len() >= 2 && v[1] == ':' && (('a' <= v[0] && v[0] <= 'z') || ('A' <= v[0] && v[0] <= 'Z')) {
        return Err(TargetError::NotRelative { target: crate::text::owned(target) });
    }
    let ps = split_pieces(v.as_slice(), '/', '\\');
    let ghost sp = pieces(target@, '/', '\\');
    let mut depth: usize = 0;
    let mut i: usize = 0;
    while i < ps.len()
        invariant
            i <= ps@.len(),
            ps@.len() == sp.len(),
            forall|j: int| 0 <= j < ps@.len() ==> #[trigger] ps@[j]@ == sp[j],
            sp == pieces(target@, '/', '\\'),
            target@.len() > 0,
            target@[0] != '/' && target@[0] != '\\',
            !(target@.len() >= 2 && target@[1] == ':' && is_ascii_letter(target@[0])),
            depth_walk(sp.subrange(0, i as int)) == Some(depth as nat),
        decreases ps@.len() - i,
    {
        let ghost sub = sp.subrange(0, i + 1);
        proof {
            assert(sub.drop_last() =~= sp.subrange(0, i as int));
            assert(sub.last() == ps@[i as int]@);
            lemma_depth_walk_bound(sp.subrange(0, i as int));
        }
        let p = &ps[i];
        if p.len() == 0 || is_single(p, '.') {
        } else if p.len() == 2 && p[0] == '.' && p[1] == '.' {
            assert(p@ =~= seq!['.', '.']);
            if depth == 0 {
                proof {
                    assert(depth_walk(sub) is None);
                    lemma_depth_walk_stays_none(sp, i + 1);
                }
                return Err(TargetError::Escapes { target: crate::text::owned(target) });
            }
            depth = depth - 1;
        } else {
            assert(p@ != seq!['.', '.']);
            depth = depth + 1;
        }
        i += 1;
    }
    assert(sp.subrange(0, sp.len() as int) == sp);
    Ok(())
}

/// The prefix stripped from the paths of a multi-file source: the suggested
/// name's parent with a trailing `/`, or none when it has no parent to strip.
pub open spec fn strip_prefix_for(suggested: Seq<char>, multi: bool) -> Option<Seq<char>> {
    if !multi {
        None
    } else {
        match parent_of(comps(suggested)) {
            None => None,
            Some(p) => if render(p).len() == 0 {
                None
            } else {
                Some(render(p).push('/'))
            },
        }
    }
}

/// What to strip from each file of a multi-file source, so that only the last
/// folder of the source path is kept under the target.
pub fn compute_strip_prefix(suggested: &str, is_multi_file: bool) -> (r: Option<String>)
    ensures
        crate::text::opt_chars(r) == strip_prefix_for(suggested@, is_multi_file),
{
    if !is_multi_file {
        return None;
    }
    let c = components(suggested);
    if c.len() > 0 && !is_single(&c[c.len() - 1], '/') {
        assert(cv(c@).last() == c@[c@.len() - 1]@);
        let mut p = copy_comps(&c);
        p.pop();
        assert(cv(p@) =~= cv(c@).drop_last());
        let mut s = render_components(&p);
        if s.as_str().unicode_len() == 0 {
            None
        } else {
            crate::text::push_char(&mut s, '/');
            Some(s)
        }
    } else {
        if c.len() > 0 {
            assert(cv(c@).last() == c@[c@.len() - 1]@);
        }
        None
    }
}

/// Where one file of a source lands. A single file goes straight into the
/// target under its own file name (or the suggested name if it has none); the
/// files of a multi-file source keep their paths, less the strip prefix.
pub open spec fn dest_for(
    relative: Seq<char>,
    base: Seq<char>,
    suggested: Seq<char>,
    strip: Option<Seq<char>>,
    single: bool,
) -> Seq<char> {
    if single {
        let name = match file_name(comps(relative)) {
            Some(n) => n,
            None => suggested,
        };
        join_spec(base, name)
    } else {
        let stripped = match strip {
            Some(p) => if crate::text::has_prefix(relative, p) {
                relative.subrange(p.len() as int, relative.len() as int)
            } else {
                relative
            },
            None => relative,
        };
        join_spec(base, stripped)
    }
}

/// The destination of one file of a source.
pub fn compute_dest(
    relative_path: &str,
    base_target: &str,
    suggested: &str,
    strip_prefix: &Option<String>,
    is_single_file: bool,
) -> (r: String)
    ensures
        r@ == dest_for(relative_path@, base_target@, suggested@, crate::text::opt_chars(*strip_prefix), is_single_file),
{
    if is_single_file {
        let c = components(relative_path);
        let name = match file_name_of(&c) {
            Some(n) => string_of(n.as_slice()),
            None => crate::text::owned(suggested),
        };
        join(base_target, name.as_str())
    } else {
        let rel = chars_of(relative_path);
        let stripped = match strip_prefix {
            Some(p) => {
                let pv = chars_of(p.as_str());
                if crate::text::chars_starts_with(rel.as_slice(), pv.as_slice()) {
                    crate::text::substring(rel.as_slice(), pv.len(), rel.len())
                } else {
                    crate::text::owned(relative_path)
                }
            },
            None => crate::text::owned(relative_path),
        };
        join(base_target, stripped.as_str())
    }
}

/// `s` with every `\\` written as `/` when `windows` is set.
pub open spec fn portable(s: Seq<char>, windows: bool) -> Seq<char> {
    if windows {
        s.map_values(|c: char| if c == '\\' { '/' } else { c })
    } else {
        s
    }
}

/// A path written with forward slashes, the same on every platform: on
/// Windows, where the platform separator is `\\`, it is replaced by `/`.
pub fn portable_display(path: &str, windows: bool) -> (r: String)
    ensures
        r@ == portable(path@, windows),
{
    if !windows {
        return crate::text::owned(path);
    }
    let v = chars_of(path);
    let mut out: Vec<char> = Vec::new();
    let mut i: usize = 0;
    while i < v.len()
        invariant
            i <= v@.len(),
            v@ == path@,
            out@ == v@.subrange(0, i as int).map_values(|c: char| if c == '\\' { '/' } else { c }),
        decreases v@.len() - i,
    {
        let c = v[i];
        out.push(if c == '\\' { '/' } else { c });
        i += 1;
        assert(out@ =~= v@.subrange(0, i as int).map_values(|c: char| if c == '\\' { '/' } else { c }));
    }
    assert(v@.subrange(0, v@.len() as int) == v@);
    string_of(out.as_slice())
}

/// The names a license file goes by, in the order they are looked for.
pub open spec fn license_names() -> Seq<Seq<char>> {
    seq![
        "LICENSE"@,
        "LICENSE.md"@,
        "LICENSE.txt"@,
        "LICENSE-MIT"@,
        "LICENSE-APACHE"@,
        "LICENCE"@,
        "LICENCE.md"@,
        "LICENCE.txt"@,
        "COPYING"@,
        "COPYING.md"@,
    ]
}

/// The names a license file goes by.
pub fn license_file_names() -> (r: Vec<String>)
    ensures
        crate::names::names_view(r@) == license_names(),
{
    let mut r: Vec<String> = Vec::new();
    r.push(crate::text::owned("LICENSE"));
    r.push(crate::text::owned("LICENSE.md"));
    r.push(crate::text::owned("LICENSE.txt"));
    r.push(crate::text::owned("LICENSE-MIT"));
    r.push(crate::text::owned("LICENSE-APACHE"));
    r.push(crate::text::owned("LICENCE"));
    r.push(crate::text::owned("LICENCE.md"));
    r.push(crate::text::owned("LICENCE.txt"));
    r.push(crate::text::owned("COPYING"));
    r.push(crate::text::owned("COPYING.md"));
    assert(crate::names::names_view(r@) =~= license_names());
    r
}

/// The license names that are among `present`, in the order they are looked for.
pub open spec fn present_licenses(present: Seq<Seq<char>>) -> Seq<Seq<char>> {
    license_names().filter(|n: Seq<char>| present.contains(n))
}

/// The license files among the files `present` in a directory.
pub fn find_license_files(present: &[String]) -> (r: Vec<String>)
    ensures
        crate::names::names_view(r@) == present_licenses(crate::names::names_view(present@)),
{
    let names = license_file_names();
    let ghost ns = license_names();
    let ghost ps = crate::names::names_view(present@);
    let ghost f = |n: Seq<char>| ps.contains(n);
    let mut r: Vec<String> = Vec::new();
    let mut i: usize = 0;
    while i < names.len()
        invariant
            i <= names@.len(),
            crate::names::names_view(names@) == ns,
            ns == license_names(),
            ps == crate::names::names_view(present@),
            f == (|n: Seq<char>| ps.contains(n)),
            crate::names::names_view(r@) == ns.subrange(0, i as int).filter(f),
        decreases names@.len() - i,
    {
        let ghost before = r@;
        proof {
            assert(ns[i as int] == names@[i as int]@);
        }
        let keep = crate::names::contains_name(present, names[i].as_str());
        if keep {
            let n = names[i].clone();
            r.push(n);
            assert(crate::names::names_view(r@) =~= crate::names::names_view(before).push(ns[i as int]));
        }
        proof {
            let sub = ns.subrange(0, i + 1);
            assert(sub.drop_last() =~= ns.subrange(0, i as int));
            assert(sub.last() == ns[i as int]);
            assert(keep == f(ns[i as int]));
            reveal(Seq::filter);
            assert(crate::names::names_view(r@) =~= sub.filter(f));
        }
        i += 1;
    }
    assert(ns.subrange(0, ns.len() as int) == ns);
    r
}

/// Whether any of the files `present` in a directory is a license file.
pub fn has_license_files(present: &[String]) -> (r: bool)
    ensures
        r == (present_licenses(crate::names::names_view(present@)).len() > 0),
{
    find_license_files(present).len() > 0
}
} // verus!
