//! The decisions the commands make between fetching and writing.
//!
//! Each command reads the manifest, fetches, asks the disk and writes; what it
//! decides in between (which directory a copy goes to, which fetched files an
//! update may write, which settings win, whether a path may be adopted) is
//! stated here over plain values.

use vstd::prelude::*;

use crate::config::{entries_view, entry_paths, CopitConfig, SourceEntry, SpecEntry};
use crate::names::{contains_name, copy_names, entry_keys, is_sorted_unique_of, names_view};
use crate::paths::{comps, file_name, join_spec, opt_str, parent_of, render};
use crate::registry::{files_for, group_files, Component};
use crate::text::{chars_of, opt_chars, owned, push_str, str_eq};

verus! {

/// The variants an install or update uses: the ones recorded for the entry (or
/// given on the command line), else the registry's configured ones.
pub open spec fn chosen_variants(own: Seq<Seq<char>>, configured: Seq<Seq<char>>) -> Seq<Seq<char>> {
    if own.len() == 0 {
        configured
    } else {
        own
    }
}

/// Picks the variants an install or update uses.
pub fn selected_variants(own: &[String], configured: &[String]) -> (r: Vec<String>)
    ensures
        names_view(r@) == chosen_variants(names_view(own@), names_view(configured@)),
{
    if own.len() == 0 {
        copy_names(configured)
    } else {
        copy_names(own)
    }
}

/// The optional groups an update uses: the ones the entry recorded, else the
/// registry's when it sets any, else none recorded at all.
pub open spec fn chosen_groups(own: Option<Seq<Seq<char>>>, configured: Seq<Seq<char>>) -> Option<Seq<Seq<char>>> {
    match own {
        Some(g) => Some(g),
        None => if configured.len() == 0 {
            None
        } else {
            Some(configured)
        },
    }
}

/// Picks the optional groups an update uses.
pub fn recorded_optional(own: &Option<Vec<String>>, configured: &[String]) -> (r: Option<Vec<String>>)
    ensures
        crate::config::opt_names(r) == chosen_groups(crate::config::opt_names(*own), names_view(configured@)),
{
    match own {
        Some(g) => Some(copy_names(g.as_slice())),
        None => if configured.len() == 0 {
            None
        } else {
            Some(copy_names(configured))
        },
    }
}

/// The files an update of a registry component may write.
#[derive(Debug)]
pub struct UpdateSelection {
    /// What the index publishes under the chosen variants.
    pub published: Vec<String>,
    /// Files of the optional groups the entry selected.
    pub selected: Vec<String>,
    /// Files of every optional group, for an entry that predates optional
    /// groups and recorded no selection; empty otherwise.
    pub unrecorded: Vec<String>,
}

impl UpdateSelection {
    /// Whether a fetched file is written: published, selected, or from an
    /// unrecorded group and already on disk. A file that merely exists locally
    /// is never overwritten.
    pub fn wants(&self, within: &str, on_disk: bool) -> (r: bool)
        ensures
            r == (names_view(self.published@).contains(within@) || names_view(self.selected@).contains(within@)
                || (names_view(self.unrecorded@).contains(within@) && on_disk)),
    {
        contains_name(self.published.as_slice(), within)
            || contains_name(self.selected.as_slice(), within)
            || (contains_name(self.unrecorded.as_slice(), within) && on_disk)
    }
}

/// Works out which files an update of `component` may write, given the
/// variants it uses and the optional groups the entry recorded.
pub fn update_selection(component: &Component, variants: &[String], recorded: Option<&[String]>) -> (r: UpdateSelection)
    requires
        component.wf(),
    ensures
        names_view(r.published@) == files_for(component@, names_view(variants@)),
        forall|f: Seq<char>| #[trigger] names_view(r.selected@).contains(f) <==> match recorded {
            Some(g) => group_files(component@, names_view(g@)).contains(f),
            None => false,
        },
        forall|f: Seq<char>| #[trigger] names_view(r.unrecorded@).contains(f) <==> match recorded {
            Some(_) => false,
            None => group_files(component@, entry_keys(component@.optional)).contains(f),
        },
{
    let published = component.files_for(variants);
    let selected = match recorded {
        Some(g) => component.optional_files(g),
        None => Vec::new(),
    };
    let unrecorded = match recorded {
        Some(_) => Vec::new(),
        None => {
            let mut groups: Vec<String> = Vec::new();
            let n = component.optional.size();
            let mut k: usize = 0;
            proof {
                component.optional.lemma_view();
            }
            while k < n
                invariant
                    k <= n,
                    n == component.optional@.len(),
                    component.optional.wf(),
                    names_view(groups@) == entry_keys(component.optional@).subrange(0, k as int),
                decreases n - k,
            {
                let ghost before = groups@;
                let key = component.optional.key_of(k).clone();
                groups.push(key);
                assert(names_view(groups@) =~= names_view(before).push(entry_keys(component.optional@)[k as int]));
                k += 1;
                assert(names_view(groups@) =~= entry_keys(component.optional@).subrange(0, k as int));
            }
            assert(entry_keys(component.optional@).subrange(0, n as int) =~= entry_keys(component.optional@));
            component.optional_files(groups.as_slice())
        },
    };
    proof {
        if recorded is Some {
            assert(names_view(unrecorded@) =~= Seq::<Seq<char>>::empty());
        } else {
            assert(names_view(selected@) =~= Seq::<Seq<char>>::empty());
        }
    }
    UpdateSelection { published, selected, unrecorded }
}

/// A version as an update reports it: `before -> after` when it moved,
/// else the current one.
pub open spec fn version_change_spec(before: Option<Seq<char>>, after: Seq<char>) -> Seq<char> {
    match before {
        Some(b) => if b != after {
            b + " -> "@ + after
        } else {
            after
        },
        None => after,
    }
}

/// Reports how a component's version moved in an update.
pub fn version_change(before: Option<&str>, after: &str) -> (r: String)
    ensures
        r@ == version_change_spec(opt_str(before), after@),
{
    match before {
        Some(b) => {
            if !str_eq(b, after) {
                let mut m = owned(b);
                push_str(&mut m, " -> ");
                push_str(&mut m, after);
                m
            } else {
                owned(after)
            }
        },
        None => owned(after),
    }
}

/// The plural ending for a count: nothing for one, `s` otherwise.
pub fn plural(n: usize) -> (r: String)
    ensures
        r@ == if n == 1 { Seq::<char>::empty() } else { "s"@ },
{
    if n == 1 {
        String::new()
    } else {
        owned("s")
    }
}

/// The required components that are not installed yet, in order.
pub open spec fn missing_spec(required: Seq<Seq<char>>, installed: Seq<Seq<char>>) -> Seq<Seq<char>> {
    required.filter(|id: Seq<char>| !installed.contains(id))
}

/// The required components that are not installed yet.
pub fn missing_components(required: &[String], installed: &[String]) -> (r: Vec<String>)
    ensures
        names_view(r@) == missing_spec(names_view(required@), names_view(installed@)),
{
    let ghost rs = names_view(required@);
    let ghost f = |id: Seq<char>| !names_view(installed@).contains(id);
    let mut r: Vec<String> = Vec::new();
    let mut i: usize = 0;
    while i < required.len()
        invariant
            i <= required@.len(),
            rs == names_view(required@),
            f == (|id: Seq<char>| !names_view(installed@).contains(id)),
            names_view(r@) == rs.subrange(0, i as int).filter(f),
        decreases required@.len() - i,
    {
        let ghost before = r@;
        let keep = !contains_name(installed, required[i].as_str());
        if keep {
            let x = required[i].clone();
            r.push(x);
            assert(names_view(r@) =~= names_view(before).push(rs[i as int]));
        }
        proof {
            let sub = rs.subrange(0, i + 1);
            assert(sub.drop_last() =~= rs.subrange(0, i as int));
            assert(sub.last() == rs[i as int]);
            assert(keep == f(rs[i as int]));
            reveal(Seq::filter);
            assert(names_view(r@) =~= sub.filter(f));
        }
        i += 1;
    }
    assert(rs.subrange(0, rs.len() as int) =~= rs);
    r
}

/// Where components a group requires are installed during an update: beside
/// the component that requires them, else in the project target.
pub open spec fn sibling_target_spec(entry_path: Seq<char>, project_target: Seq<char>) -> Seq<char> {
    match parent_of(comps(entry_path)) {
        Some(p) => if render(p).len() > 0 {
            render(p)
        } else {
            project_target
        },
        None => project_target,
    }
}

/// The directory beside an installed component.
pub fn sibling_target(entry_path: &str, project_target: &str) -> (r: String)
    ensures
        r@ == sibling_target_spec(entry_path@, project_target@),
{
    let c = crate::paths::components(entry_path);
    if c.len() > 0 && !(c[c.len() - 1].len() == 1 && c[c.len() - 1][0] == '/') {
        assert(crate::paths::cv(c@).last() == c@[c@.len() - 1]@);
        let mut p = c;
        let ghost whole = crate::paths::cv(p@);
        p.pop();
        assert(crate::paths::cv(p@) =~= whole.drop_last());
        let s = crate::paths::render_components(&p);
        if s.as_str().unicode_len() > 0 {
            return s;
        }
    } else if c.len() > 0 {
        assert(crate::paths::cv(c@).last() == c@[c@.len() - 1]@);
        assert(c@[c@.len() - 1]@ =~= seq!['/']);
    }
    owned(project_target)
}

/// What `frozen` an update records: set by `--freeze`, removed by
/// `--unfreeze`, else left as it is.
pub open spec fn freeze_flag_spec(freeze: bool, unfreeze: bool) -> Option<bool> {
    if freeze {
        Some(true)
    } else if unfreeze {
        Some(false)
    } else {
        None
    }
}

/// The `frozen` change an update asks for.
pub fn freeze_flag(freeze: bool, unfreeze: bool) -> (r: Option<bool>)
    ensures
        r == freeze_flag_spec(freeze, unfreeze),
{
    if freeze {
        Some(true)
    } else if unfreeze {
        Some(false)
    } else {
        None
    }
}

/// Whether an update passes over an entry: it is frozen and not being unfrozen.
pub fn skips_frozen(frozen: Option<bool>, unfreeze: bool) -> (r: bool)
    ensures
        r == (frozen == Some(true) && !unfreeze),
{
    match frozen {
        Some(true) => !unfreeze,
        _ => false,
    }
}

/// Whether `--ref` cannot be applied because more than one source is tracked.
pub fn ref_is_ambiguous(has_ref: bool, source_count: usize) -> (r: bool)
    ensures
        r == (has_ref && source_count > 1),
{
    has_ref && source_count > 1
}

/// The backlink recorded for a registry component: `registry:component`.
pub fn backlink_for(registry: &str, component: &str) -> (r: String)
    ensures
        r@ == registry@ + seq![':'] + component@,
{
    let mut b = owned(registry);
    crate::text::push_char(&mut b, ':');
    push_str(&mut b, component);
    b
}

/// Why an install would not take over a path.
#[derive(Debug)]
pub enum AdoptError {
    /// The path is tracked as another registry component.
    OtherComponent { path: String, owner: String },
    /// The path is tracked as a plain source.
    PlainSource { path: String, source: String },
}

impl AdoptError {
    /// The message shown to the user.
    pub fn message(&self) -> (r: String)
        ensures
            r@ == match self {
                AdoptError::OtherComponent { path, owner } => path@ + " is already tracked as component '"@
                    + owner@ + "'. Remove it first, or install to a different target."@,
                AdoptError::PlainSource { path, source } => path@ + " is already tracked from "@ + source@
                    + ". Remove it first, or install to a different target."@,
            },
    {
        let mut m = String::new();
        match self {
            AdoptError::OtherComponent { path, owner } => {
                push_str(&mut m, path.as_str());
                push_str(&mut m, " is already tracked as component '");
                push_str(&mut m, owner.as_str());
                push_str(&mut m, "'. Remove it first, or install to a different target.");
            },
            AdoptError::PlainSource { path, source } => {
                push_str(&mut m, path.as_str());
                push_str(&mut m, " is already tracked from ");
                push_str(&mut m, source.as_str());
                push_str(&mut m, ". Remove it first, or install to a different target.");
            },
        }
        m
    }
}

/// An install may write to a path only if nothing tracks it yet or it is
/// tracked as this very component; stamping the backlink on anything else would
/// redirect that entry's later updates.
pub fn check_adoption(existing: Option<&SourceEntry>, track_key: &str, backlink: &str) -> (r: Result<(), AdoptError>)
    ensures
        match existing {
            None => r is Ok,
            Some(e) => match e@.component {
                Some(owner) => if owner == backlink@ {
                    r is Ok
                } else {
                    r matches Err(AdoptError::OtherComponent { path, owner: o }) && path@ == track_key@ && o@ == owner
                },
                None => r matches Err(AdoptError::PlainSource { path, source }) && path@ == track_key@ && source@ == e@.source,
            },
        },
{
    match existing {
        None => Ok(()),
        Some(e) => match &e.component {
            Some(owner) => {
                if str_eq(owner.as_str(), backlink) {
                    Ok(())
                } else {
                    Err(AdoptError::OtherComponent { path: owned(track_key), owner: owner.clone() })
                }
            },
            None => Err(AdoptError::PlainSource { path: owned(track_key), source: e.source.clone() }),
        },
    }
}

/// Where an install copies: the `--to` directory, else the registry's
/// configured target, else the project target.
pub open spec fn install_target_spec(to: Option<Seq<char>>, registry_target: Option<Seq<char>>, project_target: Seq<char>) -> Seq<char> {
    match to {
        Some(t) => t,
        None => match registry_target {
            Some(t) => t,
            None => project_target,
        },
    }
}

/// Picks the directory an install copies into.
pub fn install_target(to: Option<&str>, registry_target: Option<&str>, project_target: &str) -> (r: String)
    ensures
        r@ == install_target_spec(opt_str(to), opt_str(registry_target), project_target@),
{
    match to {
        Some(t) => owned(t),
        None => match registry_target {
            Some(t) => owned(t),
            None => owned(project_target),
        },
    }
}

/// Where a newly added source is tracked: a single file under its own name (or
/// the suggested one), a directory under the last name of the suggested path.
pub open spec fn add_track_path_spec(first: Seq<char>, base: Seq<char>, suggested: Seq<char>, single: bool) -> Seq<char> {
    let name = if single {
        match file_name(comps(first)) {
            Some(n) => n,
            None => suggested,
        }
    } else {
        match file_name(comps(suggested)) {
            Some(n) => n,
            None => suggested,
        }
    };
    join_spec(base, name)
}

/// The path a newly added source is tracked under.
pub fn add_track_path(first_relative: &str, base_target: &str, suggested: &str, is_single: bool) -> (r: String)
    ensures
        r@ == add_track_path_spec(first_relative@, base_target@, suggested@, is_single),
{
    let named = if is_single { first_relative } else { suggested };
    let c = crate::paths::components(named);
    let mut name = owned(suggested);
    if c.len() > 0 {
        let last = &c[c.len() - 1];
        assert(crate::paths::cv(c@).last() == c@[c@.len() - 1]@);
        let root = last.len() == 1 && last[0] == '/';
        let dot = last.len() == 1 && last[0] == '.';
        let dots = last.len() == 2 && last[0] == '.' && last[1] == '.';
        proof {
            if root {
                assert(last@ =~= seq!['/']);
            }
            if dot {
                assert(last@ =~= seq!['.']);
            }
            if dots {
                assert(last@ =~= seq!['.', '.']);
            }
        }
        if !root && !dot && !dots {
            name = crate::text::string_of(last.as_slice());
        }
    }
    crate::paths::join(base_target, name.as_str())
}

/// The directory an update writes a multi-file source into: the parent of its
/// tracked path, or `.` when it has none.
pub open spec fn update_base_spec(track: Seq<char>) -> Seq<char> {
    match parent_of(comps(track)) {
        Some(p) => render(p),
        None => "."@,
    }
}

/// The directory an update writes the files of a multi-file source into.
pub fn update_base_target(track_path: &str) -> (r: String)
    ensures
        r@ == update_base_spec(track_path@),
{
    let c = crate::paths::components(track_path);
    if c.len() > 0 && !(c[c.len() - 1].len() == 1 && c[c.len() - 1][0] == '/') {
        assert(crate::paths::cv(c@).last() == c@[c@.len() - 1]@);
        let mut p = c;
        let ghost whole = crate::paths::cv(p@);
        p.pop();
        assert(crate::paths::cv(p@) =~= whole.drop_last());
        crate::paths::render_components(&p)
    } else {
        if c.len() > 0 {
            assert(crate::paths::cv(c@).last() == c@[c@.len() - 1]@);
            assert(c@[c@.len() - 1]@ =~= seq!['/']);
        }
        owned(".")
    }
}

/// Where an update writes one fetched file: a single-file source onto its
/// tracked path, the files of a multi-file source as an add would place them.
pub open spec fn update_dest_spec(
    relative: Seq<char>,
    track: Seq<char>,
    suggested: Seq<char>,
    strip: Option<Seq<char>>,
    single: bool,
) -> Seq<char> {
    if single {
        track
    } else {
        crate::paths::dest_for(relative, update_base_spec(track), suggested, strip, false)
    }
}

/// Where an update writes one fetched file.
pub fn update_dest(
    relative_path: &str,
    track_path: &str,
    suggested: &str,
    strip_prefix: &Option<String>,
    is_single: bool,
) -> (r: String)
    ensures
        r@ == update_dest_spec(relative_path@, track_path@, suggested@, opt_chars(*strip_prefix), is_single),
{
    if is_single {
        owned(track_path)
    } else {
        let base = update_base_target(track_path);
        crate::paths::compute_dest(relative_path, base.as_str(), suggested, strip_prefix, false)
    }
}

/// Where `licenses-sync` moves license files to: beside the sources with
/// `--no-dir`, else the directory given, else the configured one.
pub open spec fn sync_target_spec(no_dir: bool, given: Option<Seq<char>>, configured: Option<Seq<char>>) -> Option<Seq<char>> {
    if no_dir {
        None
    } else {
        match given {
            Some(d) => Some(d),
            None => configured,
        }
    }
}

/// The licenses directory `licenses-sync` moves to.
pub fn sync_target(no_dir: bool, given: Option<&str>, configured: Option<&str>) -> (r: Option<String>)
    ensures
        opt_chars(r) == sync_target_spec(no_dir, opt_str(given), opt_str(configured)),
{
    if no_dir {
        None
    } else {
        match given {
            Some(d) => Some(owned(d)),
            None => crate::text::owned_opt(configured),
        }
    }
}

/// A license move for one source: from the directory its licenses were found
/// in to where the wanted layout puts them, or none when they agree.
pub open spec fn license_move_spec(
    found: Seq<char>,
    track: Seq<char>,
    target: Seq<char>,
    wanted: Option<Seq<char>>,
) -> Option<(Seq<char>, Seq<char>)> {
    let to = render(crate::paths::license_dir(track, target, wanted));
    if found == to {
        None
    } else {
        Some((found, to))
    }
}

/// The directories `licenses-sync` moves one source's licenses between:
/// from `found`, where they are, to the wanted layout's directory.
pub fn license_move(found: &str, track_path: &str, target: &str, wanted: Option<&str>) -> (r: Option<(String, String)>)
    ensures
        match r {
            Some((from, to)) => license_move_spec(found@, track_path@, target@, opt_str(wanted)) == Some((from@, to@)),
            None => license_move_spec(found@, track_path@, target@, opt_str(wanted)) is None,
        },
{
    let to = crate::paths::license_dir_for(track_path, target, wanted);
    if str_eq(found, to.as_str()) {
        None
    } else {
        Some((owned(found), to))
    }
}

/// The paths a removal asks for: every tracked path with `--all`, else the
/// paths given.
pub open spec fn removal_paths_spec(entries: Seq<SpecEntry>, all: bool, given: Seq<Seq<char>>) -> Seq<Seq<char>> {
    if all {
        entry_paths(entries)
    } else {
        given
    }
}

/// The paths a removal asks for.
pub fn removal_paths(cfg: &CopitConfig, all: bool, given: &[String]) -> (r: Vec<String>)
    ensures
        names_view(r@) == removal_paths_spec(cfg.entries(), all, names_view(given@)),
{
    if !all {
        return copy_names(given);
    }
    let ghost es = cfg.entries();
    let mut r: Vec<String> = Vec::new();
    let mut i: usize = 0;
    while i < cfg.sources.len()
        invariant
            i <= cfg.sources@.len(),
            es == cfg.entries(),
            names_view(r@) == entry_paths(es).subrange(0, i as int),
        decreases cfg.sources@.len() - i,
    {
        let ghost before = r@;
        let p = cfg.sources[i].path.clone();
        r.push(p);
        assert(names_view(r@) =~= names_view(before).push(es[i as int].path));
        i += 1;
        assert(names_view(r@) =~= entry_paths(es).subrange(0, i as int));
    }
    assert(entry_paths(es).subrange(0, es.len() as int) =~= entry_paths(es));
    r
}

/// The requested paths that were not tracked, in the order asked.
pub fn untracked_paths(requested: &[String], removed: &[String]) -> (r: Vec<String>)
    ensures
        names_view(r@) == missing_spec(names_view(requested@), names_view(removed@)),
{
    missing_components(requested, removed)
}

/// The target a registry records when it is added: the one given with `--to`,
/// else the one its index suggests, else none.
pub fn registry_target(to: Option<&str>, suggested: Option<&str>) -> (r: Option<String>)
    ensures
        opt_chars(r) == match opt_str(to) {
            Some(t) => Some(t),
            None => opt_str(suggested),
        },
{
    match to {
        Some(t) => Some(owned(t)),
        None => crate::text::owned_opt(suggested),
    }
}

/// Why a configured package manager was refused.
#[derive(Debug)]
pub struct UnknownManager {
    pub name: String,
    pub known: Vec<String>,
}

impl UnknownManager {
    /// The message shown to the user.
    pub fn message(&self) -> (r: String)
        ensures
            r@ == "Unknown package manager '"@ + self.name@ + "'. Known: "@
                + crate::text::joined(crate::names::names_view(self.known@), ", "@) + ", or 'none'"@,
    {
        let mut m = String::new();
        push_str(&mut m, "Unknown package manager '");
        push_str(&mut m, self.name.as_str());
        push_str(&mut m, "'. Known: ");
        crate::text::push_joined(&mut m, self.known.as_slice(), ", ");
        push_str(&mut m, ", or 'none'");
        m
    }
}

/// Accepts `none` or the name of a known package manager.
pub fn check_package_manager(name: &str) -> (r: Result<(), UnknownManager>)
    ensures
        r is Ok <==> (name@ == "none"@ || crate::installers::first_meeting(
            crate::installers::installer_table(),
            |s: crate::installers::SpecInstaller| s.name == name@,
        ) is Some),
        r matches Err(e) ==> e.name@ == name@ && names_view(e.known@)
            == crate::installers::installer_table().map_values(|s: crate::installers::SpecInstaller| s.name),
{
    proof {
        reveal_strlit("none");
    }
    if str_eq(name, "none") {
        return Ok(());
    }
    match crate::installers::by_name(name) {
        Some(_) => Ok(()),
        None => Err(UnknownManager { name: owned(name), known: crate::installers::known_names() }),
    }
}

/// The label the plan shows for its packages.
pub open spec fn packages_label_spec(skipping: bool, manager: Option<Seq<char>>) -> Seq<char> {
    if skipping {
        "Packages (not installed, --no-packages)"@
    } else {
        match manager {
            Some(name) => "Packages (via "@ + name + ")"@,
            None => "Packages (install these yourself)"@,
        }
    }
}

/// How the plan labels the packages an install needs.
pub fn packages_label(skipping: bool, manager: Option<&str>) -> (r: String)
    ensures
        r@ == packages_label_spec(skipping, opt_str(manager)),
{
    if skipping {
        return owned("Packages (not installed, --no-packages)");
    }
    match manager {
        Some(name) => {
            let mut m = owned("Packages (via ");
            push_str(&mut m, name);
            push_str(&mut m, ")");
            m
        },
        None => owned("Packages (install these yourself)"),
    }
}

/// The question an install asks before it writes anything.
pub open spec fn confirm_prompt_spec(components: nat, packages: nat) -> Seq<char> {
    let c = if components == 1 { Seq::<char>::empty() } else { "s"@ };
    if packages == 0 {
        "\nInstall "@ + crate::text::decimal(components) + " component"@ + c + "?"@
    } else {
        "\nInstall "@ + crate::text::decimal(components) + " component"@ + c + " and "@
            + crate::text::decimal(packages) + " package"@
            + (if packages == 1 { Seq::<char>::empty() } else { "s"@ }) + "?"@
    }
}

/// Asks to install the components and packages of a plan.
pub fn confirm_prompt(components: usize, packages: usize) -> (r: String)
    ensures
        r@ == confirm_prompt_spec(components as nat, packages as nat),
{
    let mut m = owned("\nInstall ");
    crate::text::push_decimal(&mut m, components as u64);
    push_str(&mut m, " component");
    let c = plural(components);
    push_str(&mut m, c.as_str());
    if packages == 0 {
        push_str(&mut m, "?");
    } else {
        push_str(&mut m, " and ");
        crate::text::push_decimal(&mut m, packages as u64);
        push_str(&mut m, " package");
        let p = plural(packages);
        push_str(&mut m, p.as_str());
        push_str(&mut m, "?");
    }
    m
}


/// What to do about a file that is about to be written.
#[derive(Debug, Clone, Copy, PartialEq, Eq, Structural)]
pub enum WriteDecision {
    Write,
    /// Keep the file on disk; it is reported as skipped.
    Skip,
    /// Ask the user; without an answer the file is kept.
    Ask,
}

/// A new file is written; an existing one is kept with `skip`, replaced with
/// `overwrite`, and asked about otherwise. `skip` wins over `overwrite`.
pub fn write_decision(exists: bool, overwrite: bool, skip: bool) -> (r: WriteDecision)
    ensures
        !exists ==> r == WriteDecision::Write,
        exists && skip ==> r == WriteDecision::Skip,
        exists && !skip && overwrite ==> r == WriteDecision::Write,
        exists && !skip && !overwrite ==> r == WriteDecision::Ask,
{
    if !exists {
        WriteDecision::Write
    } else if skip {
        WriteDecision::Skip
    } else if overwrite {
        WriteDecision::Write
    } else {
        WriteDecision::Ask
    }
}

/// What is said when a registry is not configured: how to configure it when
/// none are, else which ones are.
pub open spec fn unknown_registry_spec(name: Seq<char>, configured: Seq<Seq<char>>) -> Seq<char> {
    if configured.len() == 0 {
        "No registry named '"@ + name + "'. Configure one first:\n  copit registry add "@ + name
            + " github:owner/repo@ref"@
    } else {
        "No registry named '"@ + name + "'. Configured: "@ + crate::text::joined(configured, ", "@)
    }
}

/// The message for a registry that is not configured.
pub fn unknown_registry_message(name: &str, configured: &[String]) -> (r: String)
    ensures
        r@ == unknown_registry_spec(name@, names_view(configured@)),
{
    let mut m = owned("No registry named '");
    push_str(&mut m, name);
    if configured.len() == 0 {
        push_str(&mut m, "'. Configure one first:\n  copit registry add ");
        push_str(&mut m, name);
        push_str(&mut m, " github:owner/repo@ref");
    } else {
        push_str(&mut m, "'. Configured: ");
        crate::text::push_joined(&mut m, configured, ", ");
    }
    m
}

/// The version recorded for an installed component: its version, unless the
/// index gives none.
pub fn component_version(component: &Component) -> (r: Option<String>)
    ensures
        opt_chars(r) == if component@.version.len() == 0 { None } else { Some(component@.version) },
{
    if component.version.as_str().unicode_len() == 0 {
        None
    } else {
        Some(component.version.clone())
    }
}
} // verus!
