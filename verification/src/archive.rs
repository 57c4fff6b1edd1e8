//! Taking files out of a ZIP archive held in memory.
//!
//! The archive format itself is read by the `zip` crate. What is copit's own is
//! which entries are taken: directories and entries with a `..` piece never
//! are, a prefix (GitHub's `repo-ref/`) is taken off every name and entries
//! without it are left out, and an inner path keeps only itself or what lies
//! under it.

use vstd::prelude::*;

use crate::names::{names_view, NameMap};
use crate::paths::pieces;
use crate::text::{chars_of, has_prefix, opt_chars, owned, push_str, string_of, substring};

verus! {

#[verifier::external_type_specification]
#[verifier::external_body]
#[verifier::reject_recursive_types(R)]
pub struct ExternalZipArchive<R>(zip::ZipArchive<R>);

#[verifier::external_type_specification]
#[verifier::external_body]
pub struct ExternalZipError(zip::result::ZipError);

#[verifier::external_type_specification]
#[verifier::external_body]
#[verifier::reject_recursive_types(T)]
pub struct ExternalCursor<T>(std::io::Cursor<T>);

/// What one archive entry is, as far as extraction cares: its name, whether it
/// opens (`ZipArchive::by_index` succeeds), and its contents when they read.
pub type EntryFacts = (Seq<char>, bool, Option<Seq<u8>>);

/// The entries `ZipArchive::new` finds in `bytes`, in archive order; none when
/// the bytes are not an archive it can read.
pub uninterp spec fn zip_listing(bytes: Seq<u8>) -> Option<Seq<(Seq<char>, bool, Option<Seq<u8>>)>>;

/// The entries of an open archive, in archive order.
pub uninterp spec fn archive_entries(archive: zip::ZipArchive<std::io::Cursor<Vec<u8>>>) -> Seq<(Seq<char>, bool, Option<Seq<u8>>)>;

/// Opens the archive in `bytes` with `zip::ZipArchive::new`, over a copy of
/// the bytes. It succeeds exactly when the bytes hold a readable archive, and
/// the archive then lists what those bytes list.
#[verifier::external_body]
fn open_archive(bytes: &[u8]) -> (r: Result<zip::ZipArchive<std::io::Cursor<Vec<u8>>>, zip::result::ZipError>)
    ensures
        r is Ok <==> zip_listing(bytes@) is Some,
        r matches Ok(a) ==> archive_entries(a) == zip_listing(bytes@)->0,
{
    zip::ZipArchive::new(std::io::Cursor::new(bytes.to_vec()))
}

/// `ZipArchive::len`: how many entries the archive holds.
#[verifier::external_body]
fn archive_len(archive: &zip::ZipArchive<std::io::Cursor<Vec<u8>>>) -> (n: usize)
    ensures
        n == archive_entries(*archive).len(),
{
    archive.len()
}

/// `ZipArchive::name_for_index`: the name of the `i`-th entry, which is also
/// what that entry's `ZipFile::name` gives.
#[verifier::external_body]
fn entry_name(archive: &zip::ZipArchive<std::io::Cursor<Vec<u8>>>, i: usize) -> (r: Option<String>)
    ensures
        r is Some <==> i < archive_entries(*archive).len(),
        r matches Some(n) ==> n@ == archive_entries(*archive)[i as int].0,
{
    archive.name_for_index(i).map(|name| name.to_string())
}

/// `ZipArchive::by_index`, for whether the `i`-th entry opens; the entry is
/// dropped unread. The entries the archive lists are unchanged.
#[verifier::external_body]
fn open_entry(archive: &mut zip::ZipArchive<std::io::Cursor<Vec<u8>>>, i: usize) -> (r: Result<(), zip::result::ZipError>)
    ensures
        archive_entries(*final(archive)) == archive_entries(*old(archive)),
        r is Ok <==> (i < archive_entries(*old(archive)).len() && archive_entries(*old(archive))[i as int].1),
{
    archive.by_index(i).map(|_| ())
}

/// Reads the `i`-th entry to its end (`ZipFile` through `std::io::Read`). For an
/// entry that opens it succeeds exactly when the contents read, and gives them.
#[verifier::external_body]
fn read_entry(archive: &mut zip::ZipArchive<std::io::Cursor<Vec<u8>>>, i: usize) -> (r: Result<Vec<u8>, zip::result::ZipError>)
    ensures
        archive_entries(*final(archive)) == archive_entries(*old(archive)),
        r matches Ok(d) ==> i < archive_entries(*old(archive)).len() && archive_entries(*old(archive))[i as int].2 == Some(d@),
        r is Ok <== i < archive_entries(*old(archive)).len() && archive_entries(*old(archive))[i as int].1
            && archive_entries(*old(archive))[i as int].2 is Some,
{
    let mut file = archive.by_index(i)?;
    let mut contents = Vec::new();
    std::io::Read::read_to_end(&mut file, &mut contents)?;
    Ok(contents)
}

/// The text of a `zip` error, as its `Display` writes it.
#[verifier::external_body]
fn zip_error_text(error: &zip::result::ZipError) -> String {
    error.to_string()
}

/// Why files could not be taken out of an archive.
#[derive(Debug)]
pub enum ArchiveError {
    /// The bytes are not a ZIP archive that can be read.
    Open { detail: String },
    /// The archive holds no entries at all.
    Empty,
    /// An entry does not open.
    Entry { index: usize, detail: String },
    /// A selected entry's contents do not read.
    Content { name: String, detail: String },
}

impl ArchiveError {
    /// The message shown to the user.
    pub fn message(&self) -> (r: String)
        ensures
            r@ == match self {
                ArchiveError::Open { detail } => "Failed to open ZIP archive: "@ + detail@,
                ArchiveError::Empty => "ZIP archive is empty"@,
                ArchiveError::Entry { detail, .. } => "Failed to read ZIP entry: "@ + detail@,
                ArchiveError::Content { name, detail } => "Failed to read ZIP entry: "@ + name@ + ": "@
                    + detail@,
            },
    {
        let mut m = String::new();
        match self {
            ArchiveError::Open { detail } => {
                push_str(&mut m, "Failed to open ZIP archive: ");
                push_str(&mut m, detail.as_str());
            },
            ArchiveError::Empty => push_str(&mut m, "ZIP archive is empty"),
            ArchiveError::Entry { detail, .. } => {
                push_str(&mut m, "Failed to read ZIP entry: ");
                push_str(&mut m, detail.as_str());
            },
            ArchiveError::Content { name, detail } => {
                push_str(&mut m, "Failed to read ZIP entry: ");
                push_str(&mut m, name.as_str());
                push_str(&mut m, ": ");
                push_str(&mut m, detail.as_str());
            },
        }
        m
    }
}

/// A name the archive gives a directory: it ends in `/` or `\\`.
pub open spec fn is_dir_name(n: Seq<char>) -> bool {
    n.len() > 0 && (n.last() == '/' || n.last() == '\\')
}

/// A name with a `..` piece, which could climb out of wherever it is written.
pub open spec fn climbs(n: Seq<char>) -> bool {
    pieces(n, '/', '/').contains(seq!['.', '.'])
}

/// The name an entry is extracted under, or none when it is not extracted:
/// directories and climbing names never are; `strip` is taken off the front
/// and names without it are left out; `inner` keeps only itself and what lies
/// under it.
pub open spec fn selected_name(n: Seq<char>, inner: Option<Seq<char>>, strip: Option<Seq<char>>) -> Option<Seq<char>> {
    if is_dir_name(n) || climbs(n) {
        None
    } else {
        let stripped = match strip {
            Some(p) => if has_prefix(n, p) {
                Some(n.subrange(p.len() as int, n.len() as int))
            } else {
                None
            },
            None => Some(n),
        };
        match stripped {
            None => None,
            Some(x) => match inner {
                Some(i) => if x == i || has_prefix(x, i + seq!['/']) {
                    Some(x)
                } else {
                    None
                },
                None => Some(x),
            },
        }
    }
}

/// Reading the entries in order: every entry must open, and every selected
/// one must read. The files taken, in order, or where it stopped: the entry's
/// index and, when it opened but did not read, the name it was selected under.
pub open spec fn extraction(
    es: Seq<(Seq<char>, bool, Option<Seq<u8>>)>,
    inner: Option<Seq<char>>,
    strip: Option<Seq<char>>,
) -> Result<Seq<(Seq<char>, Seq<u8>)>, (int, Option<Seq<char>>)>
    decreases es.len(),
{
    if es.len() == 0 {
        Ok(Seq::empty())
    } else {
        match extraction(es.drop_last(), inner, strip) {
            Err(e) => Err(e),
            Ok(files) => {
                let e = es.last();
                let i = es.len() - 1;
                if !e.1 {
                    Err((i, None))
                } else {
                    match selected_name(e.0, inner, strip) {
                        None => Ok(files),
                        Some(k) => match e.2 {
                            None => Err((i, Some(k))),
                            Some(d) => Ok(files.push((k, d))),
                        },
                    }
                }
            },
        }
    }
}

/// The files taken, by name; a later file under the same name wins.
pub open spec fn files_map(files: Seq<(Seq<char>, Seq<u8>)>) -> Map<Seq<char>, Seq<u8>>
    decreases files.len(),
{
    if files.len() == 0 {
        Map::empty()
    } else {
        files_map(files.drop_last()).insert(files.last().0, files.last().1)
    }
}

/// Whether a name holds a `..` piece.
fn has_climb(v: &[char]) -> (r: bool)
    ensures
        r == climbs(v@),
{
    let ps = crate::paths::split_pieces(v, '/', '/');
    let mut i: usize = 0;
    while i < ps.len()
        invariant
            i <= ps@.len(),
            ps@.len() == pieces(v@, '/', '/').len(),
            forall|j: int| 0 <= j < ps@.len() ==> #[trigger] ps@[j]@ == pieces(v@, '/', '/')[j],
            forall|j: int| 0 <= j < i ==> pieces(v@, '/', '/')[j] != seq!['.', '.'],
        decreases ps@.len() - i,
    {
        let p = &ps[i];
        if p.len() == 2 && p[0] == '.' && p[1] == '.' {
            assert(ps@[i as int]@ =~= seq!['.', '.']);
            assert(pieces(v@, '/', '/')[i as int] == seq!['.', '.']);
            return true;
        }
        assert(ps@[i as int]@ != seq!['.', '.']);
        i += 1;
    }
    false
}

/// The name an entry is extracted under, if it is extracted.
pub fn select_name(name: &str, inner: Option<&str>, strip: Option<&str>) -> (r: Option<String>)
    ensures
        opt_chars(r) == selected_name(name@, crate::paths::opt_str(inner), crate::paths::opt_str(strip)),
{
    let v = chars_of(name);
    if v.len() > 0 && (v[v.len() - 1] == '/' || v[v.len() - 1] == '\\') {
        return None;
    }
    if has_climb(v.as_slice()) {
        return None;
    }
    let stripped: Vec<char> = match strip {
        Some(p) => {
            let pv = chars_of(p);
            if crate::text::chars_starts_with(v.as_slice(), pv.as_slice()) {
                crate::text::slice_chars(v.as_slice(), pv.len(), v.len())
            } else {
                return None;
            }
        },
        None => v,
    };
    match inner {
        Some(i) => {
            let iv = chars_of(i);
            let mut under = chars_of(i);
            under.push('/');
            assert(under@ =~= i@ + seq!['/']);
            if crate::text::chars_eq(stripped.as_slice(), iv.as_slice())
                || crate::text::chars_starts_with(stripped.as_slice(), under.as_slice()) {
                Some(string_of(stripped.as_slice()))
            } else {
                None
            }
        },
        None => Some(string_of(stripped.as_slice())),
    }
}

/// Extracts files from a ZIP archive held in memory: each selected entry (see
/// `selected_name`) under the name it was selected by, with its contents.
pub fn extract_from_bytes(bytes: &[u8], inner_path: Option<&str>, strip_prefix: Option<&str>) -> (r: Result<NameMap<Vec<u8>>, ArchiveError>)
    ensures
        zip_listing(bytes@) is None <==> r matches Err(ArchiveError::Open { .. }),
        zip_listing(bytes@) matches Some(es) ==> match extraction(
            es,
            crate::paths::opt_str(inner_path),
            crate::paths::opt_str(strip_prefix),
        ) {
            Ok(files) => (r matches Ok(m) && m.wf() && forall|k: Seq<char>| #[trigger] crate::names::entry_get(m@, k)
                == if files_map(files).dom().contains(k) {
                    Some(files_map(files)[k])
                } else {
                    None
                }),
            Err((i, None)) => (r matches Err(ArchiveError::Entry { index, .. }) && index == i),
            Err((_, Some(k))) => (r matches Err(ArchiveError::Content { name, .. }) && name@ == k),
        },
{
    let mut archive = match open_archive(bytes) {
        Ok(a) => a,
        Err(e) => return Err(ArchiveError::Open { detail: zip_error_text(&e) }),
    };
    let ghost es = archive_entries(archive);
    let ghost inner = crate::paths::opt_str(inner_path);
    let ghost strip = crate::paths::opt_str(strip_prefix);
    let n = archive_len(&archive);
    let mut files: NameMap<Vec<u8>> = NameMap::new();
    let ghost mut taken: Seq<(Seq<char>, Seq<u8>)> = Seq::empty();
    let mut i: usize = 0;
    while i < n
        invariant
            i <= n,
            n == es.len(),
            es == archive_entries(archive),
            zip_listing(bytes@) is Some,
            es == zip_listing(bytes@)->0,
            inner == crate::paths::opt_str(inner_path),
            strip == crate::paths::opt_str(strip_prefix),
            files.wf(),
            extraction(es.subrange(0, i as int), inner, strip) == Ok::<Seq<(Seq<char>, Seq<u8>)>, (int, Option<Seq<char>>)>(taken),
            forall|k: Seq<char>| #[trigger] files.lookup(k) is Some == files_map(taken).dom().contains(k),
            forall|k: Seq<char>| files_map(taken).dom().contains(k) ==> (#[trigger] files.lookup(k))->0@ == files_map(taken)[k],
        decreases n - i,
    {
        let ghost sub = es.subrange(0, i + 1);
        proof {
            assert(sub.drop_last() =~= es.subrange(0, i as int));
            assert(sub.last() == es[i as int]);
        }
        match open_entry(&mut archive, i) {
            Ok(()) => {},
            Err(e) => {
                proof {
                    lemma_extraction_stops(es, i as int + 1, inner, strip);
                }
                return Err(ArchiveError::Entry { index: i, detail: zip_error_text(&e) });
            },
        }
        let name = match entry_name(&archive, i) {
            Some(name) => name,
            None => {
                return Err(ArchiveError::Entry { index: i, detail: String::new() });
            },
        };
        match select_name(name.as_str(), inner_path, strip_prefix) {
            None => {},
            Some(key) => {
                match read_entry(&mut archive, i) {
                    Ok(contents) => {
                        let ghost old_taken = taken;
                        let ghost data = contents@;
                        proof {
                            taken = old_taken.push((key@, data));
                            assert(taken.drop_last() =~= old_taken);
                            assert(files_map(taken) == files_map(old_taken).insert(key@, data));
                        }
                        files.insert(key.as_str(), contents);
                        proof {
                            assert forall|k: Seq<char>| #[trigger] files.lookup(k) is Some == files_map(taken).dom().contains(k) by {
                                if k == key@ {
                                } else {
                                }
                            }
                            assert forall|k: Seq<char>| files_map(taken).dom().contains(k) implies (#[trigger] files.lookup(k))->0@ == files_map(taken)[k] by {
                                if k == key@ {
                                } else {
                                }
                            }
                        }
                    },
                    Err(e) => {
                        proof {
                            lemma_extraction_stops(es, i as int + 1, inner, strip);
                        }
                        return Err(ArchiveError::Content { name: key, detail: zip_error_text(&e) });
                    },
                }
            },
        }
        i += 1;
    }
    assert(es.subrange(0, n as int) =~= es);
    proof {
        files.lemma_view();
    }
    Ok(files)
}

/// Once reading stops at an entry, it stops there for the whole archive.
pub proof fn lemma_extraction_stops(
    es: Seq<(Seq<char>, bool, Option<Seq<u8>>)>,
    k: int,
    inner: Option<Seq<char>>,
    strip: Option<Seq<char>>,
)
    requires
        0 <= k <= es.len(),
        extraction(es.subrange(0, k), inner, strip) is Err,
    ensures
        extraction(es, inner, strip) == extraction(es.subrange(0, k), inner, strip),
    decreases es.len() - k,
{
    if k < es.len() {
        assert(es.subrange(0, k + 1).drop_last() =~= es.subrange(0, k));
        lemma_extraction_stops(es, k + 1, inner, strip);
    } else {
        assert(es.subrange(0, k) =~= es);
    }
}

/// The top-level directory GitHub puts every file of an archive under: the
/// first entry's name up to and including its first `/`, or the whole name.
pub open spec fn first_dir(n: Seq<char>) -> Seq<char> {
    if n.contains('/') {
        n.subrange(0, crate::text::first_index(n, '/') + 1)
    } else {
        n
    }
}

/// Finds the directory every file of a GitHub archive sits under, from its
/// first entry.
pub fn find_archive_prefix(bytes: &[u8]) -> (r: Result<String, ArchiveError>)
    ensures
        zip_listing(bytes@) is None <==> r matches Err(ArchiveError::Open { .. }),
        zip_listing(bytes@) matches Some(es) ==> if es.len() == 0 {
            r matches Err(ArchiveError::Empty)
        } else if !es[0].1 {
            r matches Err(ArchiveError::Entry { index, .. }) && index == 0
        } else {
            r matches Ok(p) && p@ == first_dir(es[0].0)
        },
{
    let mut archive = match open_archive(bytes) {
        Ok(a) => a,
        Err(e) => return Err(ArchiveError::Open { detail: zip_error_text(&e) }),
    };
    if archive_len(&archive) == 0 {
        return Err(ArchiveError::Empty);
    }
    match open_entry(&mut archive, 0) {
        Ok(()) => {},
        Err(e) => return Err(ArchiveError::Entry { index: 0, detail: zip_error_text(&e) }),
    }
    let name = match entry_name(&archive, 0) {
        Some(n) => n,
        None => return Err(ArchiveError::Entry { index: 0, detail: String::new() }),
    };
    let v = chars_of(name.as_str());
    let len = v.len();
    match crate::text::find_first(v.as_slice(), '/') {
        Some(k) => {
            proof {
                crate::text::lemma_first_index(v@, '/', k as int);
            }
            assert(k < len);
            Ok(substring(v.as_slice(), 0, k + 1))
        },
        None => Ok(name),
    }
}

/// ASCII letters in lower case, everything else as it is.
pub open spec fn ascii_lower(s: Seq<char>) -> Seq<char> {
    s.map_values(|c: char| if 'A' <= c && c <= 'Z' { ((c as u8) + 32) as char } else { c })
}

/// A file at the root of a repository that is one of its licenses: no `/` in
/// its name, which equals a license name up to ASCII case.
pub open spec fn is_root_license(name: Seq<char>) -> bool {
    !name.contains('/') && exists|k: int| 0 <= k < crate::paths::license_names().len()
        && ascii_lower(#[trigger] crate::paths::license_names()[k]) == ascii_lower(name)
}

/// The names a license file goes by are the ten GitHub's copies look for, in
/// lookup order; a root file is a license exactly when its name is one of them
/// up to ASCII case, and a directory's license files are those of the ten it
/// holds.
pub proof fn lemma_license_names()
    ensures
        crate::paths::license_names() == seq![
            "LICENSE"@, "LICENSE.md"@, "LICENSE.txt"@, "LICENSE-MIT"@, "LICENSE-APACHE"@, "LICENCE"@,
            "LICENCE.md"@, "LICENCE.txt"@, "COPYING"@, "COPYING.md"@,
        ],
        forall|n: Seq<char>| #[trigger] is_root_license(n) <==> (!n.contains('/') && {
            let l = ascii_lower(n);
            ||| l == ascii_lower("LICENSE"@)
            ||| l == ascii_lower("LICENSE.md"@)
            ||| l == ascii_lower("LICENSE.txt"@)
            ||| l == ascii_lower("LICENSE-MIT"@)
            ||| l == ascii_lower("LICENSE-APACHE"@)
            ||| l == ascii_lower("LICENCE"@)
            ||| l == ascii_lower("LICENCE.md"@)
            ||| l == ascii_lower("LICENCE.txt"@)
            ||| l == ascii_lower("COPYING"@)
            ||| l == ascii_lower("COPYING.md"@)
        }),
        forall|present: Seq<Seq<char>>| #[trigger] crate::paths::present_licenses(present) == seq![
            "LICENSE"@, "LICENSE.md"@, "LICENSE.txt"@, "LICENSE-MIT"@, "LICENSE-APACHE"@, "LICENCE"@,
            "LICENCE.md"@, "LICENCE.txt"@, "COPYING"@, "COPYING.md"@,
        ].filter(|n: Seq<char>| present.contains(n)),
{
    let ten: Seq<Seq<char>> = seq![
        "LICENSE"@, "LICENSE.md"@, "LICENSE.txt"@, "LICENSE-MIT"@, "LICENSE-APACHE"@, "LICENCE"@,
        "LICENCE.md"@, "LICENCE.txt"@, "COPYING"@, "COPYING.md"@,
    ];
    assert(crate::paths::license_names() =~= ten);
    assert forall|n: Seq<char>| #[trigger] is_root_license(n) <== (!n.contains('/') && {
        let l = ascii_lower(n);
        ||| l == ascii_lower("LICENSE"@)
        ||| l == ascii_lower("LICENSE.md"@)
        ||| l == ascii_lower("LICENSE.txt"@)
        ||| l == ascii_lower("LICENSE-MIT"@)
        ||| l == ascii_lower("LICENSE-APACHE"@)
        ||| l == ascii_lower("LICENCE"@)
        ||| l == ascii_lower("LICENCE.md"@)
        ||| l == ascii_lower("LICENCE.txt"@)
        ||| l == ascii_lower("COPYING"@)
        ||| l == ascii_lower("COPYING.md"@)
    }) by {
        let l = ascii_lower(n);
        if l == ascii_lower(ten[0]) { assert(ascii_lower(crate::paths::license_names()[0]) == l); }
        if l == ascii_lower(ten[1]) { assert(ascii_lower(crate::paths::license_names()[1]) == l); }
        if l == ascii_lower(ten[2]) { assert(ascii_lower(crate::paths::license_names()[2]) == l); }
        if l == ascii_lower(ten[3]) { assert(ascii_lower(crate::paths::license_names()[3]) == l); }
        if l == ascii_lower(ten[4]) { assert(ascii_lower(crate::paths::license_names()[4]) == l); }
        if l == ascii_lower(ten[5]) { assert(ascii_lower(crate::paths::license_names()[5]) == l); }
        if l == ascii_lower(ten[6]) { assert(ascii_lower(crate::paths::license_names()[6]) == l); }
        if l == ascii_lower(ten[7]) { assert(ascii_lower(crate::paths::license_names()[7]) == l); }
        if l == ascii_lower(ten[8]) { assert(ascii_lower(crate::paths::license_names()[8]) == l); }
        if l == ascii_lower(ten[9]) { assert(ascii_lower(crate::paths::license_names()[9]) == l); }
    }
    assert forall|n: Seq<char>| #[trigger] is_root_license(n) implies {
        let l = ascii_lower(n);
        ||| l == ascii_lower("LICENSE"@)
        ||| l == ascii_lower("LICENSE.md"@)
        ||| l == ascii_lower("LICENSE.txt"@)
        ||| l == ascii_lower("LICENSE-MIT"@)
        ||| l == ascii_lower("LICENSE-APACHE"@)
        ||| l == ascii_lower("LICENCE"@)
        ||| l == ascii_lower("LICENCE.md"@)
        ||| l == ascii_lower("LICENCE.txt"@)
        ||| l == ascii_lower("COPYING"@)
        ||| l == ascii_lower("COPYING.md"@)
    } by {
        let k = choose|k: int| 0 <= k < crate::paths::license_names().len()
            && ascii_lower(#[trigger] crate::paths::license_names()[k]) == ascii_lower(n);
        assert(crate::paths::license_names()[k] == ten[k]);
    }
}

/// `a` and `b` are equal up to ASCII case (`str::eq_ignore_ascii_case`).
fn eq_ignore_ascii_case(a: &str, b: &str) -> (r: bool)
    ensures
        r == (ascii_lower(a@) == ascii_lower(b@)),
{
    let va = chars_of(a);
    let vb = chars_of(b);
    if va.len() != vb.len() {
        assert(ascii_lower(a@).len() != ascii_lower(b@).len());
        return false;
    }
    let mut i: usize = 0;
    while i < va.len()
        invariant
            i <= va@.len(),
            va@ == a@,
            vb@ == b@,
            va@.len() == vb@.len(),
            forall|j: int| 0 <= j < i ==> ascii_lower(a@)[j] == ascii_lower(b@)[j],
        decreases va@.len() - i,
    {
        let x = va[i];
        let y = vb[i];
        let lx = if 'A' <= x && x <= 'Z' { ((x as u8) + 32) as char } else { x };
        let ly = if 'A' <= y && y <= 'Z' { ((y as u8) + 32) as char } else { y };
        assert(ascii_lower(a@)[i as int] == lx);
        assert(ascii_lower(b@)[i as int] == ly);
        if lx != ly {
            return false;
        }
        i += 1;
    }
    assert(ascii_lower(a@) =~= ascii_lower(b@));
    true
}

/// Whether a file at the root of a repository archive is a license file.
pub fn root_license(name: &str) -> (r: bool)
    ensures
        r == is_root_license(name@),
{
    let v = chars_of(name);
    if crate::text::chars_contain_char(v.as_slice(), '/') {
        return false;
    }
    let names = crate::paths::license_file_names();
    let mut k: usize = 0;
    while k < names.len()
        invariant
            k <= names@.len(),
            names_view(names@) == crate::paths::license_names(),
            !name@.contains('/'),
            forall|j: int| 0 <= j < k ==> ascii_lower(#[trigger] crate::paths::license_names()[j]) != ascii_lower(name@),
        decreases names@.len() - k,
    {
        assert(crate::paths::license_names()[k as int] == names@[k as int]@);
        if eq_ignore_ascii_case(names[k].as_str(), name) {
            return true;
        }
        k += 1;
    }
    false
}

} // verus!
