//! The `copit.toml` manifest as a value.
//!
//! A manifest records the default target directory, per-project defaults for
//! file handling, the configured registries, and one entry per copied source.
//! This module holds the edits the commands make to it and the rules that read
//! it; [`crate::manifest`] writes it out as text, and reading the file is the
//! caller's business.

use vstd::prelude::*;

use crate::names::{names_view, NameMap};
use crate::paths::opt_str;
use crate::text::{copy_opt, opt_chars, owned, owned_opt, rsplit_once, str_eq};

verus! {

/// One tracked source, a `[[sources]]` table.
#[derive(Debug)]
pub struct SourceEntry {
    /// Local path the source was copied to, e.g. `vendor/lib.rs`.
    pub path: String,
    /// The source string it was fetched from.
    pub source: String,
    /// The ref the user asked for (GitHub sources only), written `ref`.
    pub version_ref: Option<String>,
    /// The commit that ref resolved to (GitHub sources only).
    pub commit: Option<String>,
    /// When it was last copied, as an ISO 8601 UTC timestamp.
    pub copied_at: String,
    /// Paths inside the source that updates leave alone.
    pub excludes: Vec<String>,
    /// Pinned: updates skip it.
    pub frozen: Option<bool>,
    /// Per-source file handling overrides.
    pub overwrite: Option<bool>,
    pub skip: Option<bool>,
    pub backup: Option<bool>,
    /// Do not copy license files for this source.
    pub no_license: Option<bool>,
    /// `registry:component` when the source came from a registry.
    pub component: Option<String>,
    /// The component version installed.
    pub component_version: Option<String>,
    /// Variants selected when the component was installed.
    pub variants: Vec<String>,
    /// Optional groups selected when the component was installed; absent for
    /// installs that predate optional groups.
    pub optional: Option<Vec<String>>,
}

/// A configured registry, a `[registries.<name>]` table.
#[derive(Debug)]
pub struct RegistryConfig {
    /// Where the registry lives: `github:owner/repo@ref` or a local directory.
    pub source: String,
    /// Index file name relative to the source; `copit-registry.json` when absent.
    pub index: Option<String>,
    /// Directory components are installed into.
    pub target: Option<String>,
    /// Variants selected for every install.
    pub variants: Vec<String>,
    /// Optional groups selected for every install.
    pub optional: Vec<String>,
    /// Package manager to use; `none` never installs, absent detects one.
    pub package_manager: Option<String>,
}

/// The whole manifest.
#[derive(Debug)]
pub struct CopitConfig {
    /// Default target directory.
    pub target: String,
    /// Project-wide file handling defaults.
    pub overwrite: Option<bool>,
    pub skip: Option<bool>,
    pub backup: Option<bool>,
    /// Directory that gathers license files, when they are not kept beside
    /// each source.
    pub licenses_dir: Option<String>,
    /// Registries by name.
    pub registries: NameMap<RegistryConfig>,
    /// Tracked sources, in file order.
    pub sources: Vec<SourceEntry>,
}

pub struct SpecEntry {
    pub path: Seq<char>,
    pub source: Seq<char>,
    pub version_ref: Option<Seq<char>>,
    pub commit: Option<Seq<char>>,
    pub copied_at: Seq<char>,
    pub excludes: Seq<Seq<char>>,
    pub frozen: Option<bool>,
    pub overwrite: Option<bool>,
    pub skip: Option<bool>,
    pub backup: Option<bool>,
    pub no_license: Option<bool>,
    pub component: Option<Seq<char>>,
    pub component_version: Option<Seq<char>>,
    pub variants: Seq<Seq<char>>,
    pub optional: Option<Seq<Seq<char>>>,
}

pub struct SpecRegistryConfig {
    pub source: Seq<char>,
    pub index: Option<Seq<char>>,
    pub target: Option<Seq<char>>,
    pub variants: Seq<Seq<char>>,
    pub optional: Seq<Seq<char>>,
    pub package_manager: Option<Seq<char>>,
}

/// The names of an optional list.
pub open spec fn opt_names(o: Option<Vec<String>>) -> Option<Seq<Seq<char>>> {
    match o {
        Some(v) => Some(names_view(v@)),
        None => None,
    }
}

impl View for SourceEntry {
    type V = SpecEntry;

    open spec fn view(&self) -> SpecEntry {
        SpecEntry {
            path: self.path@,
            source: self.source@,
            version_ref: opt_chars(self.version_ref),
            commit: opt_chars(self.commit),
            copied_at: self.copied_at@,
            excludes: names_view(self.excludes@),
            frozen: self.frozen,
            overwrite: self.overwrite,
            skip: self.skip,
            backup: self.backup,
            no_license: self.no_license,
            component: opt_chars(self.component),
            component_version: opt_chars(self.component_version),
            variants: names_view(self.variants@),
            optional: opt_names(self.optional),
        }
    }
}

impl View for RegistryConfig {
    type V = SpecRegistryConfig;

    open spec fn view(&self) -> SpecRegistryConfig {
        SpecRegistryConfig {
            source: self.source@,
            index: opt_chars(self.index),
            target: opt_chars(self.target),
            variants: names_view(self.variants@),
            optional: names_view(self.optional@),
            package_manager: opt_chars(self.package_manager),
        }
    }
}

/// The entries of a manifest, each by its view.
pub open spec fn entries_view(s: Seq<SourceEntry>) -> Seq<SpecEntry> {
    s.map_values(|e: SourceEntry| e@)
}

/// The paths of a list of entries.
pub open spec fn entry_paths(s: Seq<SpecEntry>) -> Seq<Seq<char>> {
    s.map_values(|e: SpecEntry| e.path)
}

/// Position of the first entry tracked at `path`; meaningful only when one is.
pub open spec fn first_at(s: Seq<SpecEntry>, path: Seq<char>) -> int {
    crate::names::first_position(entry_paths(s), path)
}

/// The first entry tracked at `path`, the one every lookup by path finds.
pub open spec fn entry_at(s: Seq<SpecEntry>, path: Seq<char>) -> Option<SpecEntry> {
    if entry_paths(s).contains(path) {
        Some(s[first_at(s, path)])
    } else {
        None
    }
}

impl CopitConfig {
    /// The registry table is well formed.
    pub open spec fn wf(&self) -> bool {
        self.registries.wf()
    }

    /// The tracked entries, each by its view.
    pub open spec fn entries(&self) -> Seq<SpecEntry> {
        entries_view(self.sources@)
    }
}

impl Default for CopitConfig {
    /// A manifest that copies into `vendor` and tracks nothing yet.
    fn default() -> (r: Self)
        ensures
            r.wf(),
            r.target@ == "vendor"@,
            r.overwrite is None,
            r.skip is None,
            r.backup is None,
            r.licenses_dir is None,
            r.registries@.len() == 0,
            r.sources@.len() == 0,
    {
        let registries = NameMap::new();
        proof {
            registries.lemma_view();
        }
        CopitConfig {
            target: owned("vendor"),
            overwrite: None,
            skip: None,
            backup: None,
            licenses_dir: None,
            registries,
            sources: Vec::new(),
        }
    }
}

/// File name of the manifest.
pub open spec fn config_file() -> Seq<char> {
    "copit.toml"@
}

/// The manifest's path, relative to the current directory.
pub fn config_path() -> (r: String)
    ensures
        r@ == config_file(),
{
    owned("copit.toml")
}

/// The manifest's path inside `dir`.
pub fn config_path_in(dir: &str) -> (r: String)
    ensures
        r@ == crate::paths::join_spec(dir@, config_file()),
{
    let file = config_path();
    crate::paths::join(dir, file.as_str())
}

/// One setting after the priority chain: the command-line flag when it is set,
/// else the source's own setting, else the project default, else off.
pub open spec fn resolved_flag(cli: bool, source: Option<bool>, config: Option<bool>) -> bool {
    if cli {
        true
    } else {
        match source {
            Some(v) => v,
            None => match config {
                Some(v) => v,
                None => false,
            },
        }
    }
}

/// File-handling settings for one source after the priority chain.
#[derive(Debug)]
pub struct ResolvedSettings {
    pub overwrite: bool,
    pub skip: bool,
    pub backup: bool,
}

impl ResolvedSettings {
    /// Resolves each setting from the command-line flag, the source's own
    /// setting and the project default, in that order.
    pub fn resolve(
        cli_overwrite: bool,
        cli_skip: bool,
        cli_backup: bool,
        source: Option<&SourceEntry>,
        config: &CopitConfig,
    ) -> (r: Self)
        ensures
            r.overwrite == resolved_flag(
                cli_overwrite,
                match source { Some(s) => s.overwrite, None => None },
                config.overwrite,
            ),
            r.skip == resolved_flag(
                cli_skip,
                match source { Some(s) => s.skip, None => None },
                config.skip,
            ),
            r.backup == resolved_flag(
                cli_backup,
                match source { Some(s) => s.backup, None => None },
                config.backup,
            ),
    {
        let (so, ss, sb) = match source {
            Some(s) => (s.overwrite, s.skip, s.backup),
            None => (None, None, None),
        };
        ResolvedSettings {
            overwrite: Self::resolve_flag(cli_overwrite, so, config.overwrite),
            skip: Self::resolve_flag(cli_skip, ss, config.skip),
            backup: Self::resolve_flag(cli_backup, sb, config.backup),
        }
    }

    /// One setting: the flag wins when set, then the source, then the default.
    pub fn resolve_flag(cli: bool, source: Option<bool>, config: Option<bool>) -> (r: bool)
        ensures
            r == resolved_flag(cli, source, config),
    {
        if cli {
            return true;
        }
        if let Some(v) = source {
            return v;
        }
        match config {
            Some(v) => v,
            None => false,
        }
    }
}

/// Position of the first entry of `sources` tracked at `path`.
fn position_of(sources: &Vec<SourceEntry>, path: &str) -> (r: Option<usize>)
    ensures
        r is None <==> !entry_paths(entries_view(sources@)).contains(path@),
        r matches Some(k) ==> k < sources@.len() && k == first_at(entries_view(sources@), path@),
{
    let ghost ps = entry_paths(entries_view(sources@));
    let mut i: usize = 0;
    while i < sources.len()
        invariant
            i <= sources@.len(),
            ps == entry_paths(entries_view(sources@)),
            ps.len() == sources@.len(),
            forall|j: int| 0 <= j < i ==> ps[j] != path@,
        decreases sources@.len() - i,
    {
        if str_eq(sources[i].path.as_str(), path) {
            proof {
                assert(ps[i as int] == path@);
                let c = crate::names::first_position(ps, path@);
                assert(ps.contains(path@));
                assert(0 <= c < ps.len() && ps[c] == path@ && forall|j: int| 0 <= j < c ==> ps[j] != path@);
                if c < i {
                } else if i < c {
                    assert(ps[i as int] != path@);
                }
            }
            return Some(i);
        }
        assert(ps[i as int] == sources@[i as int]@.path);
        i += 1;
    }
    None
}

/// The entry tracked at `path`: the first one, should the file list it twice.
pub fn get_source_entry_from<'a>(config: &'a CopitConfig, path: &str) -> (r: Option<&'a SourceEntry>)
    ensures
        match r {
            Some(e) => entry_at(config.entries(), path@) == Some(e@),
            None => entry_at(config.entries(), path@) is None,
        },
{
    match position_of(&config.sources, path) {
        Some(k) => Some(&config.sources[k]),
        None => None,
    }
}

/// An entry refreshed from a new copy of its source. The ref and commit are
/// replaced (absent means removed); `frozen` and `no_license` are set by
/// `Some(true)`, removed by `Some(false)` and kept by `None`; everything the
/// user wrote, the excludes among it, is kept.
pub open spec fn refreshed(
    e: SpecEntry,
    source: Seq<char>,
    version_ref: Option<Seq<char>>,
    commit: Option<Seq<char>>,
    frozen: Option<bool>,
    no_license: Option<bool>,
    copied_at: Seq<char>,
) -> SpecEntry {
    SpecEntry {
        source,
        version_ref,
        commit,
        copied_at,
        frozen: match frozen {
            Some(true) => Some(true),
            Some(false) => None,
            None => e.frozen,
        },
        no_license: match no_license {
            Some(true) => Some(true),
            Some(false) => None,
            None => e.no_license,
        },
        ..e
    }
}

/// A new entry: `frozen` and `no_license` are recorded only when `Some(true)`.
pub open spec fn fresh(
    path: Seq<char>,
    source: Seq<char>,
    version_ref: Option<Seq<char>>,
    commit: Option<Seq<char>>,
    frozen: Option<bool>,
    no_license: Option<bool>,
    copied_at: Seq<char>,
) -> SpecEntry {
    SpecEntry {
        path,
        source,
        version_ref,
        commit,
        copied_at,
        excludes: Seq::empty(),
        frozen: if frozen == Some(true) { Some(true) } else { None },
        overwrite: None,
        skip: None,
        backup: None,
        no_license: if no_license == Some(true) { Some(true) } else { None },
        component: None,
        component_version: None,
        variants: Seq::empty(),
        optional: None,
    }
}

/// The entries after recording a copy of `source` at `path`: the first entry
/// at that path is refreshed in place, or a new one goes at the end.
pub open spec fn upserted(
    s: Seq<SpecEntry>,
    path: Seq<char>,
    source: Seq<char>,
    version_ref: Option<Seq<char>>,
    commit: Option<Seq<char>>,
    frozen: Option<bool>,
    no_license: Option<bool>,
    copied_at: Seq<char>,
) -> Seq<SpecEntry> {
    if entry_paths(s).contains(path) {
        let k = first_at(s, path);
        s.update(k, refreshed(s[k], source, version_ref, commit, frozen, no_license, copied_at))
    } else {
        s.push(fresh(path, source, version_ref, commit, frozen, no_license, copied_at))
    }
}


/// Records a copy of `source` at `path`, stamped with `copied_at`.
pub fn add_source_entry_at(
    config: &mut CopitConfig,
    path: &str,
    source: &str,
    version_ref: Option<&str>,
    commit: Option<&str>,
    frozen: Option<bool>,
    no_license: Option<bool>,
    copied_at: &str,
)
    ensures
        final(config).entries() == upserted(
            old(config).entries(),
            path@,
            source@,
            opt_str(version_ref),
            opt_str(commit),
            frozen,
            no_license,
            copied_at@,
        ),
        final(config).target == old(config).target,
        final(config).overwrite == old(config).overwrite,
        final(config).skip == old(config).skip,
        final(config).backup == old(config).backup,
        final(config).licenses_dir == old(config).licenses_dir,
        final(config).registries == old(config).registries,
{
    let ghost before = config.entries();
    match position_of(&config.sources, path) {
        Some(k) => {
            let mut e = config.sources.remove(k);
            let ghost old_e = e@;
            e.source = owned(source);
            e.version_ref = owned_opt(version_ref);
            e.commit = owned_opt(commit);
            e.copied_at = owned(copied_at);
            match frozen {
                Some(true) => e.frozen = Some(true),
                Some(false) => e.frozen = None,
                None => {},
            }
            match no_license {
                Some(true) => e.no_license = Some(true),
                Some(false) => e.no_license = None,
                None => {},
            }
            assert(e@ == refreshed(
                old_e,
                source@,
                opt_str(version_ref),
                opt_str(commit),
                frozen,
                no_license,
                copied_at@,
            ));
            config.sources.insert(k, e);
            assert(config.entries() =~= before.update(
                k as int,
                refreshed(before[k as int], source@, opt_str(version_ref), opt_str(commit), frozen, no_license, copied_at@),
            ));
        },
        None => {
            let e = SourceEntry {
                path: owned(path),
                source: owned(source),
                version_ref: owned_opt(version_ref),
                commit: owned_opt(commit),
                copied_at: owned(copied_at),
                excludes: Vec::new(),
                frozen: if frozen == Some(true) { Some(true) } else { None },
                overwrite: None,
                skip: None,
                backup: None,
                no_license: if no_license == Some(true) { Some(true) } else { None },
                component: None,
                component_version: None,
                variants: Vec::new(),
                optional: None,
            };
            assert(names_view(e.excludes@) =~= Seq::<Seq<char>>::empty());
            assert(names_view(e.variants@) =~= Seq::<Seq<char>>::empty());
            config.sources.push(e);
            assert(config.entries() =~= before.push(
                fresh(path@, source@, opt_str(version_ref), opt_str(commit), frozen, no_license, copied_at@),
            ));
        },
    }
}


/// What the character at position `k` of a `YYYY-MM-DDTHH:MM:SSZ` stamp is.
pub open spec fn stamp_char(k: int, c: char) -> bool {
    if k == 4 || k == 7 {
        c == '-'
    } else if k == 10 {
        c == 'T'
    } else if k == 13 || k == 16 {
        c == ':'
    } else if k == 19 {
        c == 'Z'
    } else {
        '0' <= c && c <= '9'
    }
}

/// A UTC timestamp as copit records it: its last twenty characters read
/// `YYYY-MM-DDTHH:MM:SSZ`, digits where the pattern has letters (a year past
/// 9999 is written longer, with a sign, before them).
pub open spec fn utc_stamp(s: Seq<char>) -> bool {
    &&& s.len() >= 20
    &&& forall|k: int| 0 <= k < 20 ==> stamp_char(k, #[trigger] s[s.len() - 20 + k])
}

/// The current time in UTC, as `YYYY-MM-DDTHH:MM:SSZ`.
///
/// Calls `chrono::Utc::now` and formats it with `%Y-%m-%dT%H:%M:%SZ`. Of the
/// result only its shape is claimed, not which time it names: the year is at
/// least four digits, and month, day, hour, minute and second are two digits
/// each, between the pattern's literal characters.
#[verifier::external_body]
fn utc_timestamp() -> (r: String)
    ensures
        utc_stamp(r@),
{
    chrono::Utc::now().format("%Y-%m-%dT%H:%M:%SZ").to_string()
}

/// Records a copy of `source` at `path`, stamped with the current time: the
/// first entry at `path` is refreshed, keeping its excludes and overrides, or
/// a new entry is appended.
pub fn add_source_entry(
    config: &mut CopitConfig,
    path: &str,
    source: &str,
    version_ref: Option<&str>,
    commit: Option<&str>,
    frozen: Option<bool>,
    no_license: Option<bool>,
)
    ensures
        exists|now: Seq<char>| utc_stamp(now) && #[trigger] final(config).entries() == upserted(
            old(config).entries(),
            path@,
            source@,
            opt_str(version_ref),
            opt_str(commit),
            frozen,
            no_license,
            now,
        ),
        final(config).target == old(config).target,
        final(config).overwrite == old(config).overwrite,
        final(config).skip == old(config).skip,
        final(config).backup == old(config).backup,
        final(config).licenses_dir == old(config).licenses_dir,
        final(config).registries == old(config).registries,
{
    let now = utc_timestamp();
    add_source_entry_at(config, path, source, version_ref, commit, frozen, no_license, now.as_str());
}

/// The entries not tracked at any of `paths`, in order.
pub open spec fn kept_entries(s: Seq<SpecEntry>, paths: Seq<Seq<char>>) -> Seq<SpecEntry> {
    s.filter(|e: SpecEntry| !paths.contains(e.path))
}

/// The paths of the entries tracked at one of `paths`, in entry order.
pub open spec fn removed_paths(s: Seq<SpecEntry>, paths: Seq<Seq<char>>) -> Seq<Seq<char>> {
    entry_paths(s.filter(|e: SpecEntry| paths.contains(e.path)))
}

/// Stops tracking every entry at one of `paths`, and gives the paths of the
/// entries removed, in entry order. A path that is not tracked is skipped.
pub fn remove_source_entries(config: &mut CopitConfig, paths: &[String]) -> (removed: Vec<String>)
    ensures
        final(config).entries() == kept_entries(old(config).entries(), names_view(paths@)),
        names_view(removed@) == removed_paths(old(config).entries(), names_view(paths@)),
        final(config).target == old(config).target,
        final(config).overwrite == old(config).overwrite,
        final(config).skip == old(config).skip,
        final(config).backup == old(config).backup,
        final(config).licenses_dir == old(config).licenses_dir,
        final(config).registries == old(config).registries,
{
    let ghost orig = config.entries();
    let ghost ps = names_view(paths@);
    let ghost keep = |e: SpecEntry| !ps.contains(e.path);
    let ghost drop = |e: SpecEntry| ps.contains(e.path);
    let mut all: Vec<SourceEntry> = Vec::new();
    std::mem::swap(&mut all, &mut config.sources);
    let total = all.len();
    let ghost n = all@.len();
    let mut kept: Vec<SourceEntry> = Vec::new();
    let mut removed: Vec<String> = Vec::new();
    let mut i: usize = 0;
    while all.len() > 0
        invariant
            i + all@.len() == n,
            n == total,
            n == orig.len(),
            orig == entries_view(old(config).sources@),
            entries_view(all@) == orig.subrange(i as int, n as int),
            ps == names_view(paths@),
            keep == (|e: SpecEntry| !ps.contains(e.path)),
            drop == (|e: SpecEntry| ps.contains(e.path)),
            entries_view(kept@) == orig.subrange(0, i as int).filter(keep),
            names_view(removed@) == entry_paths(orig.subrange(0, i as int).filter(drop)),
            config.target == old(config).target,
            config.overwrite == old(config).overwrite,
            config.skip == old(config).skip,
            config.backup == old(config).backup,
            config.licenses_dir == old(config).licenses_dir,
            config.registries == old(config).registries,
        decreases all@.len(),
    {
        let ghost before_all = all@;
        let ghost kept_before = kept@;
        let ghost removed_before = removed@;
        let e = all.remove(0);
        proof {
            assert(entries_view(before_all)[0] == e@);
            assert(all@ =~= before_all.subrange(1, before_all.len() as int));
            assert forall|j: int| 0 <= j < all@.len() implies #[trigger] entries_view(all@)[j] == orig.subrange(i + 1, n as int)[j] by {
                assert(entries_view(before_all)[j + 1] == orig.subrange(i as int, n as int)[j + 1]);
                assert(all@[j] == before_all[j + 1]);
            }
            assert(entries_view(all@) =~= orig.subrange(i + 1, n as int));
            assert(orig.subrange(i as int, n as int)[0] == orig[i as int]);
            assert(orig[i as int] == e@);
        }
        let gone = crate::names::contains_name(paths, e.path.as_str());
        if gone {
            let p = e.path.clone();
            removed.push(p);
            assert(names_view(removed@) =~= names_view(removed_before).push(e@.path));
        } else {
            kept.push(e);
            assert(entries_view(kept@) =~= entries_view(kept_before).push(orig[i as int]));
        }
        proof {
            let sub = orig.subrange(0, i + 1);
            assert(sub.drop_last() =~= orig.subrange(0, i as int));
            assert(sub.last() == orig[i as int]);
            reveal(Seq::filter);
            assert(gone == drop(orig[i as int]));
            assert(!gone == keep(orig[i as int]));
            assert(entries_view(kept@) =~= sub.filter(keep));
            assert(entry_paths(sub.filter(drop)) =~= if gone {
                entry_paths(orig.subrange(0, i as int).filter(drop)).push(orig[i as int].path)
            } else {
                entry_paths(orig.subrange(0, i as int).filter(drop))
            });
            assert(names_view(removed@) =~= entry_paths(sub.filter(drop)));
        }
        i += 1;
    }
    assert(orig.subrange(0, n as int) =~= orig);
    config.sources = kept;
    removed
}

/// The registry and component named by a `registry:component` backlink: the
/// text before and after its last `:`.
pub open spec fn backlink_parts(b: Seq<char>) -> Option<(Seq<char>, Seq<char>)> {
    rsplit_once(b, ':')
}

/// Splits a `registry:component` backlink at its last `:`.
pub fn split_backlink(backlink: &str) -> (r: Option<(String, String)>)
    ensures
        match r {
            Some((a, b)) => backlink_parts(backlink@) == Some((a@, b@)),
            None => backlink_parts(backlink@) is None,
        },
{
    let v = crate::text::chars_of(backlink);
    match crate::text::find_last(v.as_slice(), ':') {
        Some(k) => {
            assert(crate::text::is_last_index(v@, ':', k as int));
            let n = v.len();
            assert(k < n);
            let a = crate::text::substring(v.as_slice(), 0, k);
            let b = crate::text::substring(v.as_slice(), k + 1, n);
            Some((a, b))
        },
        None => None,
    }
}

/// The directory an entry was copied into: its registry's own target when it
/// came from a configured registry that sets one, else the project target.
pub open spec fn entry_target(
    target: Seq<char>,
    registries: Seq<(Seq<char>, SpecRegistryConfig)>,
    component: Option<Seq<char>>,
) -> Seq<char> {
    match component {
        Some(b) => match backlink_parts(b) {
            Some((reg, _)) => match crate::names::entry_get(registries, reg) {
                Some(rc) => match rc.target {
                    Some(t) => t,
                    None => target,
                },
                None => target,
            },
            None => target,
        },
        None => target,
    }
}

/// The directory a source was copied into, which decides where its licenses go.
pub fn target_for_entry(cfg: &CopitConfig, entry: &SourceEntry) -> (r: String)
    requires
        cfg.wf(),
    ensures
        r@ == entry_target(cfg.target@, cfg.registries@, entry@.component),
{
    if let Some(backlink) = &entry.component {
        if let Some((registry_name, _)) = split_backlink(backlink.as_str()) {
            if let Some(registry) = cfg.registries.find(registry_name.as_str()) {
                if let Some(t) = &registry.target {
                    return t.clone();
                }
            }
        }
    }
    cfg.target.clone()
}

/// The components of `registry` that entries record as installed, in entry order.
pub open spec fn installed_from(s: Seq<SpecEntry>, registry: Seq<char>) -> Seq<Seq<char>>
    decreases s.len(),
{
    if s.len() == 0 {
        Seq::empty()
    } else {
        let rest = installed_from(s.drop_last(), registry);
        match s.last().component {
            Some(b) => match backlink_parts(b) {
                Some((reg, id)) => if reg == registry {
                    rest.push(id)
                } else {
                    rest
                },
                None => rest,
            },
            None => rest,
        }
    }
}

/// The components of `registry` the manifest tracks.
pub fn installed_components(cfg: &CopitConfig, registry: &str) -> (r: Vec<String>)
    ensures
        names_view(r@) == installed_from(cfg.entries(), registry@),
{
    let ghost es = cfg.entries();
    let mut r: Vec<String> = Vec::new();
    let mut i: usize = 0;
    while i < cfg.sources.len()
        invariant
            i <= cfg.sources@.len(),
            es == cfg.entries(),
            names_view(r@) == installed_from(es.subrange(0, i as int), registry@),
        decreases cfg.sources@.len() - i,
    {
        let ghost before = r@;
        proof {
            let sub = es.subrange(0, i + 1);
            assert(sub.drop_last() =~= es.subrange(0, i as int));
            assert(sub.last() == cfg.sources@[i as int]@);
        }
        if let Some(b) = &cfg.sources[i].component {
            if let Some((reg, id)) = split_backlink(b.as_str()) {
                if str_eq(reg.as_str(), registry) {
                    r.push(id);
                    assert(names_view(r@) =~= names_view(before).push(id@));
                }
            }
        }
        i += 1;
    }
    assert(es.subrange(0, es.len() as int) =~= es);
    r
}

/// An entry with the backlink of the registry component it came from.
pub open spec fn linked(
    e: SpecEntry,
    component: Seq<char>,
    version: Option<Seq<char>>,
    variants: Seq<Seq<char>>,
    optional: Option<Seq<Seq<char>>>,
) -> SpecEntry {
    SpecEntry { component: Some(component), component_version: version, variants, optional, ..e }
}

/// The views of an optional borrowed list of names.
pub open spec fn opt_list(o: Option<&[String]>) -> Option<Seq<Seq<char>>> {
    match o {
        Some(v) => Some(names_view(v@)),
        None => None,
    }
}

/// Records on the entry at `path` the registry component it came from, its
/// version and the variants and optional groups it was installed with. Says
/// whether there was such an entry; without one nothing changes.
pub fn set_source_component(
    config: &mut CopitConfig,
    path: &str,
    component: &str,
    component_version: Option<&str>,
    variants: &[String],
    optional: Option<&[String]>,
) -> (found: bool)
    ensures
        found == entry_paths(old(config).entries()).contains(path@),
        found ==> final(config).entries() == old(config).entries().update(
            first_at(old(config).entries(), path@),
            linked(
                old(config).entries()[first_at(old(config).entries(), path@)],
                component@,
                opt_str(component_version),
                names_view(variants@),
                opt_list(optional),
            ),
        ),
        !found ==> final(config).entries() == old(config).entries(),
        final(config).target == old(config).target,
        final(config).overwrite == old(config).overwrite,
        final(config).skip == old(config).skip,
        final(config).backup == old(config).backup,
        final(config).licenses_dir == old(config).licenses_dir,
        final(config).registries == old(config).registries,
{
    let ghost before = config.entries();
    match position_of(&config.sources, path) {
        Some(k) => {
            let mut e = config.sources.remove(k);
            let ghost old_e = e@;
            e.component = Some(owned(component));
            e.component_version = owned_opt(component_version);
            e.variants = crate::names::copy_names(variants);
            e.optional = match optional {
                Some(v) => Some(crate::names::copy_names(v)),
                None => None,
            };
            assert(e@ == linked(old_e, component@, opt_str(component_version), names_view(variants@), opt_list(optional)));
            config.sources.insert(k, e);
            assert(config.entries() =~= before.update(
                k as int,
                linked(before[k as int], component@, opt_str(component_version), names_view(variants@), opt_list(optional)),
            ));
            true
        },
        None => false,
    }
}

/// Looking a path up in a list with one more entry at the end finds what the
/// shorter list held there, else that entry when it is at the path.
pub proof fn lemma_entry_at_push(s: Seq<SpecEntry>, e: SpecEntry, q: Seq<char>)
    ensures
        entry_at(s.push(e), q) == match entry_at(s, q) {
            Some(x) => Some(x),
            None => if e.path == q {
                Some(e)
            } else {
                None
            },
        },
{
    let t = s.push(e);
    assert(entry_paths(t) =~= entry_paths(s).push(e.path));
    crate::names::lemma_push_contains(entry_paths(s), e.path);
    if entry_paths(s).contains(q) {
        crate::names::lemma_first_position_exists(entry_paths(s), q);
        let k = first_at(s, q);
        assert(entry_paths(t)[k] == q);
        assert forall|j: int| 0 <= j < k implies entry_paths(t)[j] != q by {
            assert(entry_paths(t)[j] == entry_paths(s)[j]);
        }
        crate::names::lemma_first_position(entry_paths(t), q, k);
    } else if e.path == q {
        let k = s.len() as int;
        assert(entry_paths(t)[k] == q);
        assert forall|j: int| 0 <= j < k implies entry_paths(t)[j] != q by {
            assert(entry_paths(t)[j] == entry_paths(s)[j]);
        }
        crate::names::lemma_first_position(entry_paths(t), q, k);
    }
}

/// Recording a copy at a path and then looking that path up gives the entry
/// just recorded: the new source, ref, commit and time; `frozen` and
/// `no_license` as asked, or as they were when not asked; and, for an entry
/// that was already tracked, its excludes and overrides untouched. Every other
/// path looks up exactly what it did before, and the manifest grows by an entry
/// only when the path was not tracked.
pub proof fn lemma_lookup_after_add(
    s: Seq<SpecEntry>,
    path: Seq<char>,
    source: Seq<char>,
    version_ref: Option<Seq<char>>,
    commit: Option<Seq<char>>,
    frozen: Option<bool>,
    no_license: Option<bool>,
    now: Seq<char>,
)
    ensures
        ({
            let t = upserted(s, path, source, version_ref, commit, frozen, no_license, now);
            &&& entry_at(t, path) == Some(match entry_at(s, path) {
                Some(o) => refreshed(o, source, version_ref, commit, frozen, no_license, now),
                None => fresh(path, source, version_ref, commit, frozen, no_license, now),
            })
            &&& forall|q: Seq<char>| q != path ==> #[trigger] entry_at(t, q) == entry_at(s, q)
            &&& t.len() == if entry_at(s, path) is Some { s.len() } else { s.len() + 1 }
        }),
{
    let t = upserted(s, path, source, version_ref, commit, frozen, no_license, now);
    if entry_paths(s).contains(path) {
        crate::names::lemma_first_position_exists(entry_paths(s), path);
        let k = first_at(s, path);
        let e2 = refreshed(s[k], source, version_ref, commit, frozen, no_license, now);
        assert(entry_paths(t) =~= entry_paths(s));
        assert(t[k] == e2);
        assert forall|q: Seq<char>| q != path implies #[trigger] entry_at(t, q) == entry_at(s, q) by {
            if entry_paths(s).contains(q) {
                crate::names::lemma_first_position_exists(entry_paths(s), q);
                let j = first_at(s, q);
                assert(entry_paths(s)[j] == q);
                assert(j != k);
                assert(t[j] == s[j]);
            }
        }
    } else {
        lemma_entry_at_push(s, fresh(path, source, version_ref, commit, frozen, no_license, now), path);
        assert forall|q: Seq<char>| q != path implies #[trigger] entry_at(t, q) == entry_at(s, q) by {
            lemma_entry_at_push(s, fresh(path, source, version_ref, commit, frozen, no_license, now), q);
        }
    }
}

/// After removing paths, none of them is tracked any more, and every other
/// path looks up exactly what it did before.
pub proof fn lemma_lookup_after_remove(s: Seq<SpecEntry>, paths: Seq<Seq<char>>)
    ensures
        forall|p: Seq<char>| paths.contains(p) ==> (#[trigger] entry_at(kept_entries(s, paths), p)) is None,
        forall|q: Seq<char>| !paths.contains(q) ==> #[trigger] entry_at(kept_entries(s, paths), q) == entry_at(s, q),
    decreases s.len(),
{
    let keep = |e: SpecEntry| !paths.contains(e.path);
    if s.len() == 0 {
        reveal(Seq::filter);
        assert(kept_entries(s, paths) =~= Seq::<SpecEntry>::empty());
        assert(entry_paths(Seq::<SpecEntry>::empty()) =~= Seq::<Seq<char>>::empty());
    } else {
        let init = s.drop_last();
        let e = s.last();
        lemma_lookup_after_remove(init, paths);
        reveal(Seq::filter);
        assert(kept_entries(s, paths) == if keep(e) {
            kept_entries(init, paths).push(e)
        } else {
            kept_entries(init, paths)
        });
        assert(s =~= init.push(e));
        assert forall|p: Seq<char>| paths.contains(p) implies (#[trigger] entry_at(kept_entries(s, paths), p)) is None by {
            if keep(e) {
                lemma_entry_at_push(kept_entries(init, paths), e, p);
            }
        }
        assert forall|q: Seq<char>| !paths.contains(q) implies #[trigger] entry_at(kept_entries(s, paths), q) == entry_at(s, q) by {
            lemma_entry_at_push(init, e, q);
            if keep(e) {
                lemma_entry_at_push(kept_entries(init, paths), e, q);
            }
        }
    }
}
/// What a recorded copy reads back as, field by field: the new source, ref,
/// commit and time; `frozen` and `no_license` set by `Some(true)`, cleared by
/// `Some(false)` and otherwise kept (absent for a new entry); and, for an
/// entry that was already tracked, its excludes, overrides and registry link
/// untouched (empty or absent for a new one).
pub proof fn lemma_recorded_fields(
    s: Seq<SpecEntry>,
    path: Seq<char>,
    source: Seq<char>,
    version_ref: Option<Seq<char>>,
    commit: Option<Seq<char>>,
    frozen: Option<bool>,
    no_license: Option<bool>,
    now: Seq<char>,
)
    ensures
        ({
            let before = entry_at(s, path);
            let after = entry_at(upserted(s, path, source, version_ref, commit, frozen, no_license, now), path);
            &&& after matches Some(e) && {
                &&& e.path == path
                &&& e.source == source
                &&& e.version_ref == version_ref
                &&& e.commit == commit
                &&& e.copied_at == now
                &&& e.frozen == if frozen == Some(true) {
                    Some(true)
                } else if frozen == Some(false) {
                    None
                } else {
                    match before { Some(o) => o.frozen, None => None }
                }
                &&& e.no_license == if no_license == Some(true) {
                    Some(true)
                } else if no_license == Some(false) {
                    None
                } else {
                    match before { Some(o) => o.no_license, None => None }
                }
                &&& match before {
                    Some(o) => {
                        &&& e.excludes == o.excludes
                        &&& e.overwrite == o.overwrite
                        &&& e.skip == o.skip
                        &&& e.backup == o.backup
                        &&& e.component == o.component
                        &&& e.component_version == o.component_version
                        &&& e.variants == o.variants
                        &&& e.optional == o.optional
                    },
                    None => {
                        &&& e.excludes.len() == 0
                        &&& e.overwrite is None && e.skip is None && e.backup is None
                        &&& e.component is None && e.component_version is None
                        &&& e.variants.len() == 0 && e.optional is None
                    },
                }
            }
        }),
{
    lemma_lookup_after_add(s, path, source, version_ref, commit, frozen, no_license, now);
    if entry_paths(s).contains(path) {
        crate::names::lemma_first_position_exists(entry_paths(s), path);
        assert(entry_paths(s)[first_at(s, path)] == path);
    }
}

/// A source's own setting beats the manifest's, and a command-line flag beats
/// both; with neither set, a flag is off.
pub proof fn lemma_settings_priority(source: Option<bool>, config: Option<bool>)
    ensures
        resolved_flag(true, source, config),
        source matches Some(b) ==> resolved_flag(false, source, config) == b,
        source is None ==> resolved_flag(false, source, config) == match config {
            Some(c) => c,
            None => false,
        },
{
}

} // verus!
