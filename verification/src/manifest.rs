//! The text of `copit.toml`.
//!
//! The manifest is written as a `toml_edit` document: the root keys first
//! (`target`, the file-handling defaults, `licenses_dir`), then one
//! `[registries.<name>]` table per registry, then one `[[sources]]` table per
//! tracked source. Which keys are written, in which order, and which are left
//! out when empty is decided here; `toml_edit` renders the result.

use vstd::prelude::*;

use crate::config::{CopitConfig, RegistryConfig, SourceEntry, SpecEntry, SpecRegistryConfig};
use crate::names::{copy_names, names_view};
use crate::text::{opt_chars, owned};

verus! {

#[verifier::external_type_specification]
#[verifier::external_body]
pub struct ExternalTomlTable(toml_edit::Table);

/// A value written under a key.
pub enum TomlNode {
    Text(Seq<char>),
    Flag(bool),
    List(Seq<Seq<char>>),
    Table(TomlTable),
    Tables(Seq<TomlTable>),
}

/// A table: whether it is a document's root, whether it is implicit (written
/// only through its sub-tables), and its entries in order.
pub struct TomlTable {
    pub root: bool,
    pub implicit: bool,
    pub entries: Seq<(Seq<char>, TomlNode)>,
}

/// What is handed to `toml_edit` to be written under a key.
pub enum TomlItem {
    Text(String),
    Flag(bool),
    List(Vec<String>),
    Table(toml_edit::Table),
    Tables(Vec<toml_edit::Table>),
}

/// What a `toml_edit::Table` made by the functions below holds: whether it is
/// a document's root, whether it is implicit, and its entries in insertion
/// order; none for a table made any other way.
pub uninterp spec fn table_contents(table: toml_edit::Table) -> Option<TomlTable>;

/// The text `toml_edit` renders for a document whose root table holds `table`.
pub uninterp spec fn toml_text(table: TomlTable) -> Seq<char>;

/// The keys of a list of entries.
pub open spec fn table_keys(e: Seq<(Seq<char>, TomlNode)>) -> Seq<Seq<char>> {
    e.map_values(|p: (Seq<char>, TomlNode)| p.0)
}

/// What an item becomes once written; none when it holds a table not made
/// by the functions below.
pub open spec fn node_of(item: TomlItem) -> Option<TomlNode> {
    match item {
        TomlItem::Text(s) => Some(TomlNode::Text(s@)),
        TomlItem::Flag(b) => Some(TomlNode::Flag(b)),
        TomlItem::List(l) => Some(TomlNode::List(names_view(l@))),
        TomlItem::Table(t) => match table_contents(t) {
            Some(c) => Some(TomlNode::Table(c)),
            None => None,
        },
        TomlItem::Tables(ts) => if forall|i: int| 0 <= i < ts@.len() ==> (#[trigger] table_contents(ts@[i])) is Some {
            Some(TomlNode::Tables(ts@.map_values(|t: toml_edit::Table| table_contents(t)->0)))
        } else {
            None
        },
    }
}

/// Calls `toml_edit::DocumentMut::new` and takes its root table with
/// `into_table`: an empty, explicit table at the document's root position.
#[verifier::external_body]
fn toml_root() -> (r: toml_edit::Table)
    ensures
        table_contents(r) == Some(TomlTable { root: true, implicit: false, entries: Seq::empty() }),
{
    toml_edit::DocumentMut::new().into_table()
}

/// Calls `toml_edit::Table::new` and `Table::set_implicit`: an empty table that
/// is implicit as asked.
#[verifier::external_body]
fn toml_table(implicit: bool) -> (r: toml_edit::Table)
    ensures
        table_contents(r) == Some(TomlTable { root: false, implicit, entries: Seq::empty() }),
{
    let mut t = toml_edit::Table::new();
    t.set_implicit(implicit);
    t
}

/// `e` with `n` under `k`: in place of the entry under `k` when there is one,
/// else appended at the end.
pub open spec fn upsert(e: Seq<(Seq<char>, TomlNode)>, k: Seq<char>, n: TomlNode) -> Seq<(Seq<char>, TomlNode)> {
    if table_keys(e).contains(k) {
        e.update(table_keys(e).index_of(k), (k, n))
    } else {
        e.push((k, n))
    }
}

/// The value under `k` among a table's entries, as a reader finds it: the last
/// entry written under that key.
pub open spec fn value_at(e: Seq<(Seq<char>, TomlNode)>, k: Seq<char>) -> Option<TomlNode>
    decreases e.len(),
{
    if e.len() == 0 {
        None
    } else if e.last().0 == k {
        Some(e.last().1)
    } else {
        value_at(e.drop_last(), k)
    }
}

/// The text under `k`, if a text is written there.
pub open spec fn text_at(e: Seq<(Seq<char>, TomlNode)>, k: Seq<char>) -> Option<Seq<char>> {
    match value_at(e, k) {
        Some(TomlNode::Text(s)) => Some(s),
        _ => None,
    }
}

/// The boolean under `k`, if one is written there.
pub open spec fn flag_at(e: Seq<(Seq<char>, TomlNode)>, k: Seq<char>) -> Option<bool> {
    match value_at(e, k) {
        Some(TomlNode::Flag(b)) => Some(b),
        _ => None,
    }
}

/// The list of texts under `k`, if one is written there.
pub open spec fn list_at(e: Seq<(Seq<char>, TomlNode)>, k: Seq<char>) -> Option<Seq<Seq<char>>> {
    match value_at(e, k) {
        Some(TomlNode::List(l)) => Some(l),
        _ => None,
    }
}

/// A text that must be present, empty when it is not.
pub open spec fn text_or_empty(v: Option<Seq<char>>) -> Seq<char> {
    match v {
        Some(s) => s,
        None => Seq::empty(),
    }
}

/// A list that may be left out, empty when it is.
pub open spec fn list_or_empty(v: Option<Seq<Seq<char>>>) -> Seq<Seq<char>> {
    match v {
        Some(l) => l,
        None => Seq::empty(),
    }
}

/// How a `[[sources]]` table is read back into an entry, key by key, as
/// `docs/configuration.md` lists the fields: `path`, `source` and `copied_at`
/// as texts, `ref`, `commit`, `component` and `component_version` as texts when
/// present, the flags when present, `variants` and `excludes` as lists (empty
/// when absent), and `optional` as a list when present.
pub open spec fn read_entry(e: Seq<(Seq<char>, TomlNode)>) -> SpecEntry {
    SpecEntry {
        path: text_or_empty(text_at(e, "path"@)),
        source: text_or_empty(text_at(e, "source"@)),
        version_ref: text_at(e, "ref"@),
        commit: text_at(e, "commit"@),
        copied_at: text_or_empty(text_at(e, "copied_at"@)),
        excludes: list_or_empty(list_at(e, "excludes"@)),
        frozen: flag_at(e, "frozen"@),
        overwrite: flag_at(e, "overwrite"@),
        skip: flag_at(e, "skip"@),
        backup: flag_at(e, "backup"@),
        no_license: flag_at(e, "no_license"@),
        component: text_at(e, "component"@),
        component_version: text_at(e, "component_version"@),
        variants: list_or_empty(list_at(e, "variants"@)),
        optional: list_at(e, "optional"@),
    }
}

/// How a `[registries.<name>]` table is read back: `source` as a text, `index`,
/// `target` and `package_manager` as texts when present, and `variants` and
/// `optional` as lists (empty when absent).
pub open spec fn read_registry(e: Seq<(Seq<char>, TomlNode)>) -> SpecRegistryConfig {
    SpecRegistryConfig {
        source: text_or_empty(text_at(e, "source"@)),
        index: text_at(e, "index"@),
        target: text_at(e, "target"@),
        variants: list_or_empty(list_at(e, "variants"@)),
        optional: list_or_empty(list_at(e, "optional"@)),
        package_manager: text_at(e, "package_manager"@),
    }
}

/// Calls `toml_edit::Table::insert` with the item converted to a
/// `toml_edit::Item` (a string, boolean or string-array value, a table, or an
/// array of tables). `insert` replaces the value under a key the table holds,
/// keeping its place, and otherwise appends the entry at the end.
#[verifier::external_body]
fn toml_insert(table: &mut toml_edit::Table, key: &str, item: TomlItem)
    ensures
        table_contents(*old(table)) matches Some(c) ==> (node_of(item) matches Some(n) ==> table_contents(
            *final(table),
        ) == Some(TomlTable { root: c.root, implicit: c.implicit, entries: upsert(c.entries, key@, n) })),
{
    let item = match item {
        TomlItem::Text(s) => toml_edit::value(s),
        TomlItem::Flag(b) => toml_edit::value(b),
        TomlItem::List(l) => toml_edit::value(l.into_iter().collect::<toml_edit::Array>()),
        TomlItem::Table(t) => toml_edit::Item::Table(t),
        TomlItem::Tables(ts) => toml_edit::Item::ArrayOfTables(ts.into_iter().collect()),
    };
    table.insert(key, item);
}

/// Calls `toml_edit::DocumentMut::from` on the table and renders the document
/// with `to_string`.
#[verifier::external_body]
fn toml_render(table: toml_edit::Table) -> (r: String)
    ensures
        table_contents(table) matches Some(c) ==> r@ == toml_text(c),
{
    toml_edit::DocumentMut::from(table).to_string()
}

/// A table that is neither the root nor implicit.
pub open spec fn plain_table(entries: Seq<(Seq<char>, TomlNode)>) -> TomlTable {
    TomlTable { root: false, implicit: false, entries }
}

/// `e` with a text entry under `key` when there is a value.
pub open spec fn with_text(e: Seq<(Seq<char>, TomlNode)>, key: Seq<char>, v: Option<Seq<char>>) -> Seq<(Seq<char>, TomlNode)> {
    match v {
        Some(s) => upsert(e, key, TomlNode::Text(s)),
        None => e,
    }
}

/// `e` with a boolean entry under `key` when there is a value.
pub open spec fn with_flag(e: Seq<(Seq<char>, TomlNode)>, key: Seq<char>, v: Option<bool>) -> Seq<(Seq<char>, TomlNode)> {
    match v {
        Some(b) => upsert(e, key, TomlNode::Flag(b)),
        None => e,
    }
}

/// `e` with a list entry under `key` when the list is not empty.
pub open spec fn with_list(e: Seq<(Seq<char>, TomlNode)>, key: Seq<char>, l: Seq<Seq<char>>) -> Seq<(Seq<char>, TomlNode)> {
    if l.len() > 0 {
        upsert(e, key, TomlNode::List(l))
    } else {
        e
    }
}

/// `e` with a list entry under `key` when there is a list, empty or not.
pub open spec fn with_opt_list(e: Seq<(Seq<char>, TomlNode)>, key: Seq<char>, l: Option<Seq<Seq<char>>>) -> Seq<(Seq<char>, TomlNode)> {
    match l {
        Some(v) => upsert(e, key, TomlNode::List(v)),
        None => e,
    }
}

/// The entries of a `[registries.<name>]` table, in the order they are written:
/// `source`, then `index`, `target`, `variants`, `optional` and
/// `package_manager` when set.
pub open spec fn registry_items(r: SpecRegistryConfig) -> Seq<(Seq<char>, TomlNode)> {
    let e = upsert(Seq::empty(), "source"@, TomlNode::Text(r.source));
    let e = with_text(e, "index"@, r.index);
    let e = with_text(e, "target"@, r.target);
    let e = with_list(e, "variants"@, r.variants);
    let e = with_list(e, "optional"@, r.optional);
    with_text(e, "package_manager"@, r.package_manager)
}

/// The entries of a `[[sources]]` table, in the order they are written: `path`
/// and `source`, the registry link when there is one, the ref and commit, the
/// flags that are set, `copied_at`, and `excludes` when there are any.
pub open spec fn entry_items(s: SpecEntry) -> Seq<(Seq<char>, TomlNode)> {
    let e = upsert(Seq::empty(), "path"@, TomlNode::Text(s.path));
    let e = upsert(e, "source"@, TomlNode::Text(s.source));
    let e = with_text(e, "component"@, s.component);
    let e = with_text(e, "component_version"@, s.component_version);
    let e = with_list(e, "variants"@, s.variants);
    let e = with_opt_list(e, "optional"@, s.optional);
    let e = with_text(e, "ref"@, s.version_ref);
    let e = with_text(e, "commit"@, s.commit);
    let e = with_flag(e, "frozen"@, s.frozen);
    let e = with_flag(e, "overwrite"@, s.overwrite);
    let e = with_flag(e, "skip"@, s.skip);
    let e = with_flag(e, "backup"@, s.backup);
    let e = with_flag(e, "no_license"@, s.no_license);
    let e = upsert(e, "copied_at"@, TomlNode::Text(s.copied_at));
    with_list(e, "excludes"@, s.excludes)
}

/// The entries of the implicit `[registries]` table: one table per registry,
/// under its name, in the map's order.
pub open spec fn registry_tables(regs: Seq<(Seq<char>, SpecRegistryConfig)>) -> Seq<(Seq<char>, TomlNode)>
    decreases regs.len(),
{
    if regs.len() == 0 {
        Seq::empty()
    } else {
        upsert(
            registry_tables(regs.drop_last()),
            regs.last().0,
            TomlNode::Table(plain_table(registry_items(regs.last().1))),
        )
    }
}

/// What `copit.toml` holds for a manifest, in order: `target`; `overwrite`,
/// `skip`, `backup` and `licenses_dir` when set; the registries when there are
/// any; and the sources when there are any.
pub open spec fn config_items(config: &CopitConfig) -> TomlTable {
    let e = upsert(Seq::empty(), "target"@, TomlNode::Text(config.target@));
    let e = with_flag(e, "overwrite"@, config.overwrite);
    let e = with_flag(e, "skip"@, config.skip);
    let e = with_flag(e, "backup"@, config.backup);
    let e = with_text(e, "licenses_dir"@, opt_chars(config.licenses_dir));
    let e = if config.registries@.len() > 0 {
        upsert(e, "registries"@, TomlNode::Table(
            TomlTable { root: false, implicit: true, entries: registry_tables(config.registries@) },
        ))
    } else {
        e
    };
    let e = if config.sources@.len() > 0 {
        upsert(e, "sources"@, TomlNode::Tables(config.entries().map_values(|s: SpecEntry| plain_table(entry_items(s)))))
    } else {
        e
    };
    TomlTable { root: true, implicit: false, entries: e }
}

/// Inserts a text value under `key` when there is one.
fn put_text(t: &mut toml_edit::Table, key: &str, v: &Option<String>)
    requires
        table_contents(*old(t)) is Some,
    ensures
        table_contents(*final(t)) matches Some(c) && c == (TomlTable {
            root: table_contents(*old(t))->0.root,
            implicit: table_contents(*old(t))->0.implicit,
            entries: with_text(table_contents(*old(t))->0.entries, key@, opt_chars(*v)),
        }),
{
    match v {
        Some(s) => toml_insert(t, key, TomlItem::Text(owned(s.as_str()))),
        None => {},
    }
}

/// Inserts a boolean under `key` when there is one.
fn put_flag(t: &mut toml_edit::Table, key: &str, v: Option<bool>)
    requires
        table_contents(*old(t)) is Some,
    ensures
        table_contents(*final(t)) matches Some(c) && c == (TomlTable {
            root: table_contents(*old(t))->0.root,
            implicit: table_contents(*old(t))->0.implicit,
            entries: with_flag(table_contents(*old(t))->0.entries, key@, v),
        }),
{
    match v {
        Some(b) => toml_insert(t, key, TomlItem::Flag(b)),
        None => {},
    }
}

/// Inserts a list under `key` when it is not empty.
fn put_list(t: &mut toml_edit::Table, key: &str, l: &Vec<String>)
    requires
        table_contents(*old(t)) is Some,
    ensures
        table_contents(*final(t)) matches Some(c) && c == (TomlTable {
            root: table_contents(*old(t))->0.root,
            implicit: table_contents(*old(t))->0.implicit,
            entries: with_list(table_contents(*old(t))->0.entries, key@, names_view(l@)),
        }),
{
    if l.len() > 0 {
        toml_insert(t, key, TomlItem::List(copy_names(l.as_slice())));
    }
}

/// The table written for one registry.
fn registry_table(r: &RegistryConfig) -> (t: toml_edit::Table)
    ensures
        table_contents(t) == Some(plain_table(registry_items(r@))),
{
    let mut t = toml_table(false);
    toml_insert(&mut t, "source", TomlItem::Text(owned(r.source.as_str())));
    put_text(&mut t, "index", &r.index);
    put_text(&mut t, "target", &r.target);
    put_list(&mut t, "variants", &r.variants);
    put_list(&mut t, "optional", &r.optional);
    put_text(&mut t, "package_manager", &r.package_manager);
    t
}

/// The table written for one tracked source.
fn source_table(e: &SourceEntry) -> (t: toml_edit::Table)
    ensures
        table_contents(t) == Some(plain_table(entry_items(e@))),
{
    let mut t = toml_table(false);
    toml_insert(&mut t, "path", TomlItem::Text(owned(e.path.as_str())));
    toml_insert(&mut t, "source", TomlItem::Text(owned(e.source.as_str())));
    put_text(&mut t, "component", &e.component);
    put_text(&mut t, "component_version", &e.component_version);
    put_list(&mut t, "variants", &e.variants);
    match &e.optional {
        Some(l) => toml_insert(&mut t, "optional", TomlItem::List(copy_names(l.as_slice()))),
        None => {},
    }
    put_text(&mut t, "ref", &e.version_ref);
    put_text(&mut t, "commit", &e.commit);
    put_flag(&mut t, "frozen", e.frozen);
    put_flag(&mut t, "overwrite", e.overwrite);
    put_flag(&mut t, "skip", e.skip);
    put_flag(&mut t, "backup", e.backup);
    put_flag(&mut t, "no_license", e.no_license);
    toml_insert(&mut t, "copied_at", TomlItem::Text(owned(e.copied_at.as_str())));
    put_list(&mut t, "excludes", &e.excludes);
    t
}

/// The implicit table holding one table per registry.
fn registries_toml(config: &CopitConfig) -> (t: toml_edit::Table)
    requires
        config.wf(),
    ensures
        table_contents(t) == Some(TomlTable { root: false, implicit: true, entries: registry_tables(config.registries@) }),
{
    let ghost regs = config.registries@;
    let mut t = toml_table(true);
    let n = config.registries.size();
    let mut i: usize = 0;
    while i < n
        invariant
            config.wf(),
            regs == config.registries@,
            n == regs.len(),
            i <= n,
            table_contents(t) == Some(
                TomlTable { root: false, implicit: true, entries: registry_tables(regs.subrange(0, i as int)) },
            ),
        decreases n - i,
    {
        let name = config.registries.key_of(i);
        let sub = registry_table(config.registries.value_of(i));
        toml_insert(&mut t, name.as_str(), TomlItem::Table(sub));
        assert(regs.subrange(0, i + 1).drop_last() =~= regs.subrange(0, i as int));
        assert(regs.subrange(0, i + 1).last() == regs[i as int]);
        i += 1;
    }
    assert(regs.subrange(0, n as int) =~= regs);
    t
}

/// One `[[sources]]` table per tracked source, in order.
fn sources_toml(config: &CopitConfig) -> (ts: Vec<toml_edit::Table>)
    ensures
        ts@.len() == config.sources@.len(),
        forall|k: int| 0 <= k < ts@.len() ==> #[trigger] table_contents(ts@[k]) == Some(
            plain_table(entry_items(config.entries()[k])),
        ),
{
    let mut ts: Vec<toml_edit::Table> = Vec::new();
    let mut i: usize = 0;
    while i < config.sources.len()
        invariant
            i <= config.sources@.len(),
            ts@.len() == i,
            forall|k: int| 0 <= k < i ==> #[trigger] table_contents(ts@[k]) == Some(
                plain_table(entry_items(config.entries()[k])),
            ),
        decreases config.sources@.len() - i,
    {
        let t = source_table(&config.sources[i]);
        ts.push(t);
        i += 1;
    }
    ts
}

/// The text of `copit.toml` for a manifest, rendered by `toml_edit`.
pub fn config_document(config: &CopitConfig) -> (r: String)
    requires
        config.wf(),
    ensures
        r@ == toml_text(config_items(config)),
{
    let mut t = toml_root();
    toml_insert(&mut t, "target", TomlItem::Text(owned(config.target.as_str())));
    put_flag(&mut t, "overwrite", config.overwrite);
    put_flag(&mut t, "skip", config.skip);
    put_flag(&mut t, "backup", config.backup);
    put_text(&mut t, "licenses_dir", &config.licenses_dir);
    if config.registries.size() > 0 {
        let regs = registries_toml(config);
        toml_insert(&mut t, "registries", TomlItem::Table(regs));
    }
    if config.sources.len() > 0 {
        let ts = sources_toml(config);
        let ghost tables = ts@;
        assert(tables.map_values(|x: toml_edit::Table| table_contents(x)->0) =~= config.entries().map_values(
            |e: SpecEntry| plain_table(entry_items(e)),
        ));
        toml_insert(&mut t, "sources", TomlItem::Tables(ts));
    }
    toml_render(t)
}

/// Replacing the value of an entry leaves every other key's value alone.
proof fn lemma_value_at_update(e: Seq<(Seq<char>, TomlNode)>, i: int, n: TomlNode, q: Seq<char>)
    requires
        table_keys(e).no_duplicates(),
        0 <= i < e.len(),
    ensures
        value_at(e.update(i, (e[i].0, n)), q) == if q == e[i].0 {
            Some(n)
        } else {
            value_at(e, q)
        },
    decreases e.len(),
{
    let k = e[i].0;
    let e2 = e.update(i, (k, n));
    if i == e.len() - 1 {
        assert(e2.drop_last() =~= e.drop_last());
    } else {
        assert(e2.last() == e.last());
        assert(table_keys(e)[e.len() - 1] == e.last().0);
        assert(table_keys(e)[i] == k);
        assert(e.last().0 != k);
        let d = e.drop_last();
        assert(table_keys(d) =~= table_keys(e).drop_last());
        assert(table_keys(d).no_duplicates()) by {
            assert forall|a: int, b: int| 0 <= a < table_keys(d).len() && 0 <= b < table_keys(d).len() && a != b
                implies table_keys(d)[a] != table_keys(d)[b] by {
                assert(table_keys(d)[a] == table_keys(e)[a]);
                assert(table_keys(d)[b] == table_keys(e)[b]);
            }
        }
        assert(e2.drop_last() =~= d.update(i, (k, n)));
        lemma_value_at_update(d, i, n, q);
    }
}

/// Writing `n` under `k` keeps the keys distinct, and afterwards `k` reads
/// `n` while every other key reads what it did before.
pub proof fn lemma_upsert_reads(e: Seq<(Seq<char>, TomlNode)>, k: Seq<char>, n: TomlNode)
    requires
        table_keys(e).no_duplicates(),
    ensures
        table_keys(upsert(e, k, n)).no_duplicates(),
        forall|q: Seq<char>| #[trigger] value_at(upsert(e, k, n), q) == if q == k {
            Some(n)
        } else {
            value_at(e, q)
        },
{
    if table_keys(e).contains(k) {
        let i = table_keys(e).index_of(k);
        assert(e[i].0 == k);
        assert(table_keys(upsert(e, k, n)) =~= table_keys(e));
        assert forall|q: Seq<char>| #[trigger] value_at(upsert(e, k, n), q) == if q == k {
            Some(n)
        } else {
            value_at(e, q)
        } by {
            lemma_value_at_update(e, i, n, q);
        }
    } else {
        let e2 = e.push((k, n));
        assert(e2.drop_last() =~= e);
        assert(table_keys(e2) =~= table_keys(e).push(k));
        assert(table_keys(e2).no_duplicates()) by {
            assert forall|a: int, b: int| 0 <= a < table_keys(e2).len() && 0 <= b < table_keys(e2).len() && a != b
                implies table_keys(e2)[a] != table_keys(e2)[b] by {
                if a < e.len() && b < e.len() {
                    assert(table_keys(e2)[a] == table_keys(e)[a]);
                    assert(table_keys(e2)[b] == table_keys(e)[b]);
                } else if a < e.len() {
                    assert(table_keys(e2)[a] == table_keys(e)[a]);
                    assert(table_keys(e).contains(table_keys(e)[a]));
                } else if b < e.len() {
                    assert(table_keys(e2)[b] == table_keys(e)[b]);
                    assert(table_keys(e).contains(table_keys(e)[b]));
                }
            }
        }
    }
}

/// A `[[sources]]` table, read back, gives the entry it was written from:
/// every field survives writing `copit.toml`, the flags and optional texts when
/// set, and nothing appears that was not set.
pub proof fn lemma_entry_round_trip(s: SpecEntry)
    ensures
        read_entry(entry_items(s)) == s,
{
    reveal_strlit("path");
    reveal_strlit("source");
    reveal_strlit("component");
    reveal_strlit("component_version");
    reveal_strlit("variants");
    reveal_strlit("optional");
    reveal_strlit("ref");
    reveal_strlit("commit");
    reveal_strlit("frozen");
    reveal_strlit("overwrite");
    reveal_strlit("skip");
    reveal_strlit("backup");
    reveal_strlit("no_license");
    reveal_strlit("copied_at");
    reveal_strlit("excludes");
    assert("path"@.len() == 4);
    assert("source"@.len() == 6);
    assert("component"@.len() == 9);
    assert("component_version"@.len() == 17);
    assert("variants"@.len() == 8);
    assert("optional"@.len() == 8);
    assert("ref"@.len() == 3);
    assert("commit"@.len() == 6);
    assert("frozen"@.len() == 6);
    assert("overwrite"@.len() == 9);
    assert("skip"@.len() == 4);
    assert("backup"@.len() == 6);
    assert("no_license"@.len() == 10);
    assert("copied_at"@.len() == 9);
    assert("excludes"@.len() == 8);
    assert("path"@ != "skip"@) by {
        assert("path"@[0] != "skip"@[0]);
    }
    assert("source"@ != "commit"@) by {
        assert("source"@[0] != "commit"@[0]);
    }
    assert("source"@ != "frozen"@) by {
        assert("source"@[0] != "frozen"@[0]);
    }
    assert("source"@ != "backup"@) by {
        assert("source"@[0] != "backup"@[0]);
    }
    assert("component"@ != "overwrite"@) by {
        assert("component"@[0] != "overwrite"@[0]);
    }
    assert("component"@ != "copied_at"@) by {
        assert("component"@[2] != "copied_at"@[2]);
    }
    assert("variants"@ != "optional"@) by {
        assert("variants"@[0] != "optional"@[0]);
    }
    assert("variants"@ != "excludes"@) by {
        assert("variants"@[0] != "excludes"@[0]);
    }
    assert("optional"@ != "excludes"@) by {
        assert("optional"@[0] != "excludes"@[0]);
    }
    assert("commit"@ != "frozen"@) by {
        assert("commit"@[0] != "frozen"@[0]);
    }
    assert("commit"@ != "backup"@) by {
        assert("commit"@[0] != "backup"@[0]);
    }
    assert("frozen"@ != "backup"@) by {
        assert("frozen"@[0] != "backup"@[0]);
    }
    assert("overwrite"@ != "copied_at"@) by {
        assert("overwrite"@[0] != "copied_at"@[0]);
    }
    let e0: Seq<(Seq<char>, TomlNode)> = Seq::empty();
    assert(table_keys(e0).no_duplicates());
    lemma_upsert_reads(e0, "path"@, TomlNode::Text(s.path));
    let e1 = upsert(e0, "path"@, TomlNode::Text(s.path));
    lemma_upsert_reads(e1, "source"@, TomlNode::Text(s.source));
    let e2 = upsert(e1, "source"@, TomlNode::Text(s.source));
    lemma_with_text_reads(e2, "component"@, s.component);
    let e3 = with_text(e2, "component"@, s.component);
    lemma_with_text_reads(e3, "component_version"@, s.component_version);
    let e4 = with_text(e3, "component_version"@, s.component_version);
    lemma_with_list_reads(e4, "variants"@, s.variants);
    let e5 = with_list(e4, "variants"@, s.variants);
    lemma_with_opt_list_reads(e5, "optional"@, s.optional);
    let e6 = with_opt_list(e5, "optional"@, s.optional);
    lemma_with_text_reads(e6, "ref"@, s.version_ref);
    let e7 = with_text(e6, "ref"@, s.version_ref);
    lemma_with_text_reads(e7, "commit"@, s.commit);
    let e8 = with_text(e7, "commit"@, s.commit);
    lemma_with_flag_reads(e8, "frozen"@, s.frozen);
    let e9 = with_flag(e8, "frozen"@, s.frozen);
    lemma_with_flag_reads(e9, "overwrite"@, s.overwrite);
    let e10 = with_flag(e9, "overwrite"@, s.overwrite);
    lemma_with_flag_reads(e10, "skip"@, s.skip);
    let e11 = with_flag(e10, "skip"@, s.skip);
    lemma_with_flag_reads(e11, "backup"@, s.backup);
    let e12 = with_flag(e11, "backup"@, s.backup);
    lemma_with_flag_reads(e12, "no_license"@, s.no_license);
    let e13 = with_flag(e12, "no_license"@, s.no_license);
    lemma_upsert_reads(e13, "copied_at"@, TomlNode::Text(s.copied_at));
    let e14 = upsert(e13, "copied_at"@, TomlNode::Text(s.copied_at));
    lemma_with_list_reads(e14, "excludes"@, s.excludes);
    let e15 = with_list(e14, "excludes"@, s.excludes);
    assert(e15 == entry_items(s));
    let r = read_entry(e15);
    assert(r.path == s.path) by {
        assert(value_at(e2, "path"@) == value_at(e1, "path"@));
        assert(value_at(e3, "path"@) == value_at(e2, "path"@));
        assert(value_at(e4, "path"@) == value_at(e3, "path"@));
        assert(value_at(e5, "path"@) == value_at(e4, "path"@));
        assert(value_at(e6, "path"@) == value_at(e5, "path"@));
        assert(value_at(e7, "path"@) == value_at(e6, "path"@));
        assert(value_at(e8, "path"@) == value_at(e7, "path"@));
        assert(value_at(e9, "path"@) == value_at(e8, "path"@));
        assert(value_at(e10, "path"@) == value_at(e9, "path"@));
        assert(value_at(e11, "path"@) == value_at(e10, "path"@));
        assert(value_at(e12, "path"@) == value_at(e11, "path"@));
        assert(value_at(e13, "path"@) == value_at(e12, "path"@));
        assert(value_at(e14, "path"@) == value_at(e13, "path"@));
        assert(value_at(e15, "path"@) == value_at(e14, "path"@));
    }
    assert(r.source == s.source) by {
        assert(value_at(e1, "source"@) == value_at(e0, "source"@));
        assert(value_at(e3, "source"@) == value_at(e2, "source"@));
        assert(value_at(e4, "source"@) == value_at(e3, "source"@));
        assert(value_at(e5, "source"@) == value_at(e4, "source"@));
        assert(value_at(e6, "source"@) == value_at(e5, "source"@));
        assert(value_at(e7, "source"@) == value_at(e6, "source"@));
        assert(value_at(e8, "source"@) == value_at(e7, "source"@));
        assert(value_at(e9, "source"@) == value_at(e8, "source"@));
        assert(value_at(e10, "source"@) == value_at(e9, "source"@));
        assert(value_at(e11, "source"@) == value_at(e10, "source"@));
        assert(value_at(e12, "source"@) == value_at(e11, "source"@));
        assert(value_at(e13, "source"@) == value_at(e12, "source"@));
        assert(value_at(e14, "source"@) == value_at(e13, "source"@));
        assert(value_at(e15, "source"@) == value_at(e14, "source"@));
    }
    assert(r.component == s.component) by {
        assert(value_at(e1, "component"@) == value_at(e0, "component"@));
        assert(value_at(e2, "component"@) == value_at(e1, "component"@));
        assert(value_at(e4, "component"@) == value_at(e3, "component"@));
        assert(value_at(e5, "component"@) == value_at(e4, "component"@));
        assert(value_at(e6, "component"@) == value_at(e5, "component"@));
        assert(value_at(e7, "component"@) == value_at(e6, "component"@));
        assert(value_at(e8, "component"@) == value_at(e7, "component"@));
        assert(value_at(e9, "component"@) == value_at(e8, "component"@));
        assert(value_at(e10, "component"@) == value_at(e9, "component"@));
        assert(value_at(e11, "component"@) == value_at(e10, "component"@));
        assert(value_at(e12, "component"@) == value_at(e11, "component"@));
        assert(value_at(e13, "component"@) == value_at(e12, "component"@));
        assert(value_at(e14, "component"@) == value_at(e13, "component"@));
        assert(value_at(e15, "component"@) == value_at(e14, "component"@));
    }
    assert(r.component_version == s.component_version) by {
        assert(value_at(e1, "component_version"@) == value_at(e0, "component_version"@));
        assert(value_at(e2, "component_version"@) == value_at(e1, "component_version"@));
        assert(value_at(e3, "component_version"@) == value_at(e2, "component_version"@));
        assert(value_at(e5, "component_version"@) == value_at(e4, "component_version"@));
        assert(value_at(e6, "component_version"@) == value_at(e5, "component_version"@));
        assert(value_at(e7, "component_version"@) == value_at(e6, "component_version"@));
        assert(value_at(e8, "component_version"@) == value_at(e7, "component_version"@));
        assert(value_at(e9, "component_version"@) == value_at(e8, "component_version"@));
        assert(value_at(e10, "component_version"@) == value_at(e9, "component_version"@));
        assert(value_at(e11, "component_version"@) == value_at(e10, "component_version"@));
        assert(value_at(e12, "component_version"@) == value_at(e11, "component_version"@));
        assert(value_at(e13, "component_version"@) == value_at(e12, "component_version"@));
        assert(value_at(e14, "component_version"@) == value_at(e13, "component_version"@));
        assert(value_at(e15, "component_version"@) == value_at(e14, "component_version"@));
    }
    assert(r.variants == s.variants) by {
        assert(value_at(e1, "variants"@) == value_at(e0, "variants"@));
        assert(value_at(e2, "variants"@) == value_at(e1, "variants"@));
        assert(value_at(e3, "variants"@) == value_at(e2, "variants"@));
        assert(value_at(e4, "variants"@) == value_at(e3, "variants"@));
        assert(value_at(e6, "variants"@) == value_at(e5, "variants"@));
        assert(value_at(e7, "variants"@) == value_at(e6, "variants"@));
        assert(value_at(e8, "variants"@) == value_at(e7, "variants"@));
        assert(value_at(e9, "variants"@) == value_at(e8, "variants"@));
        assert(value_at(e10, "variants"@) == value_at(e9, "variants"@));
        assert(value_at(e11, "variants"@) == value_at(e10, "variants"@));
        assert(value_at(e12, "variants"@) == value_at(e11, "variants"@));
        assert(value_at(e13, "variants"@) == value_at(e12, "variants"@));
        assert(value_at(e14, "variants"@) == value_at(e13, "variants"@));
        assert(value_at(e15, "variants"@) == value_at(e14, "variants"@));
    }
    assert(r.optional == s.optional) by {
        assert(value_at(e1, "optional"@) == value_at(e0, "optional"@));
        assert(value_at(e2, "optional"@) == value_at(e1, "optional"@));
        assert(value_at(e3, "optional"@) == value_at(e2, "optional"@));
        assert(value_at(e4, "optional"@) == value_at(e3, "optional"@));
        assert(value_at(e5, "optional"@) == value_at(e4, "optional"@));
        assert(value_at(e7, "optional"@) == value_at(e6, "optional"@));
        assert(value_at(e8, "optional"@) == value_at(e7, "optional"@));
        assert(value_at(e9, "optional"@) == value_at(e8, "optional"@));
        assert(value_at(e10, "optional"@) == value_at(e9, "optional"@));
        assert(value_at(e11, "optional"@) == value_at(e10, "optional"@));
        assert(value_at(e12, "optional"@) == value_at(e11, "optional"@));
        assert(value_at(e13, "optional"@) == value_at(e12, "optional"@));
        assert(value_at(e14, "optional"@) == value_at(e13, "optional"@));
        assert(value_at(e15, "optional"@) == value_at(e14, "optional"@));
    }
    assert(r.version_ref == s.version_ref) by {
        assert(value_at(e1, "ref"@) == value_at(e0, "ref"@));
        assert(value_at(e2, "ref"@) == value_at(e1, "ref"@));
        assert(value_at(e3, "ref"@) == value_at(e2, "ref"@));
        assert(value_at(e4, "ref"@) == value_at(e3, "ref"@));
        assert(value_at(e5, "ref"@) == value_at(e4, "ref"@));
        assert(value_at(e6, "ref"@) == value_at(e5, "ref"@));
        assert(value_at(e8, "ref"@) == value_at(e7, "ref"@));
        assert(value_at(e9, "ref"@) == value_at(e8, "ref"@));
        assert(value_at(e10, "ref"@) == value_at(e9, "ref"@));
        assert(value_at(e11, "ref"@) == value_at(e10, "ref"@));
        assert(value_at(e12, "ref"@) == value_at(e11, "ref"@));
        assert(value_at(e13, "ref"@) == value_at(e12, "ref"@));
        assert(value_at(e14, "ref"@) == value_at(e13, "ref"@));
        assert(value_at(e15, "ref"@) == value_at(e14, "ref"@));
    }
    assert(r.commit == s.commit) by {
        assert(value_at(e1, "commit"@) == value_at(e0, "commit"@));
        assert(value_at(e2, "commit"@) == value_at(e1, "commit"@));
        assert(value_at(e3, "commit"@) == value_at(e2, "commit"@));
        assert(value_at(e4, "commit"@) == value_at(e3, "commit"@));
        assert(value_at(e5, "commit"@) == value_at(e4, "commit"@));
        assert(value_at(e6, "commit"@) == value_at(e5, "commit"@));
        assert(value_at(e7, "commit"@) == value_at(e6, "commit"@));
        assert(value_at(e9, "commit"@) == value_at(e8, "commit"@));
        assert(value_at(e10, "commit"@) == value_at(e9, "commit"@));
        assert(value_at(e11, "commit"@) == value_at(e10, "commit"@));
        assert(value_at(e12, "commit"@) == value_at(e11, "commit"@));
        assert(value_at(e13, "commit"@) == value_at(e12, "commit"@));
        assert(value_at(e14, "commit"@) == value_at(e13, "commit"@));
        assert(value_at(e15, "commit"@) == value_at(e14, "commit"@));
    }
    assert(r.frozen == s.frozen) by {
        assert(value_at(e1, "frozen"@) == value_at(e0, "frozen"@));
        assert(value_at(e2, "frozen"@) == value_at(e1, "frozen"@));
        assert(value_at(e3, "frozen"@) == value_at(e2, "frozen"@));
        assert(value_at(e4, "frozen"@) == value_at(e3, "frozen"@));
        assert(value_at(e5, "frozen"@) == value_at(e4, "frozen"@));
        assert(value_at(e6, "frozen"@) == value_at(e5, "frozen"@));
        assert(value_at(e7, "frozen"@) == value_at(e6, "frozen"@));
        assert(value_at(e8, "frozen"@) == value_at(e7, "frozen"@));
        assert(value_at(e10, "frozen"@) == value_at(e9, "frozen"@));
        assert(value_at(e11, "frozen"@) == value_at(e10, "frozen"@));
        assert(value_at(e12, "frozen"@) == value_at(e11, "frozen"@));
        assert(value_at(e13, "frozen"@) == value_at(e12, "frozen"@));
        assert(value_at(e14, "frozen"@) == value_at(e13, "frozen"@));
        assert(value_at(e15, "frozen"@) == value_at(e14, "frozen"@));
    }
    assert(r.overwrite == s.overwrite) by {
        assert(value_at(e1, "overwrite"@) == value_at(e0, "overwrite"@));
        assert(value_at(e2, "overwrite"@) == value_at(e1, "overwrite"@));
        assert(value_at(e3, "overwrite"@) == value_at(e2, "overwrite"@));
        assert(value_at(e4, "overwrite"@) == value_at(e3, "overwrite"@));
        assert(value_at(e5, "overwrite"@) == value_at(e4, "overwrite"@));
        assert(value_at(e6, "overwrite"@) == value_at(e5, "overwrite"@));
        assert(value_at(e7, "overwrite"@) == value_at(e6, "overwrite"@));
        assert(value_at(e8, "overwrite"@) == value_at(e7, "overwrite"@));
        assert(value_at(e9, "overwrite"@) == value_at(e8, "overwrite"@));
        assert(value_at(e11, "overwrite"@) == value_at(e10, "overwrite"@));
        assert(value_at(e12, "overwrite"@) == value_at(e11, "overwrite"@));
        assert(value_at(e13, "overwrite"@) == value_at(e12, "overwrite"@));
        assert(value_at(e14, "overwrite"@) == value_at(e13, "overwrite"@));
        assert(value_at(e15, "overwrite"@) == value_at(e14, "overwrite"@));
    }
    assert(r.skip == s.skip) by {
        assert(value_at(e1, "skip"@) == value_at(e0, "skip"@));
        assert(value_at(e2, "skip"@) == value_at(e1, "skip"@));
        assert(value_at(e3, "skip"@) == value_at(e2, "skip"@));
        assert(value_at(e4, "skip"@) == value_at(e3, "skip"@));
        assert(value_at(e5, "skip"@) == value_at(e4, "skip"@));
        assert(value_at(e6, "skip"@) == value_at(e5, "skip"@));
        assert(value_at(e7, "skip"@) == value_at(e6, "skip"@));
        assert(value_at(e8, "skip"@) == value_at(e7, "skip"@));
        assert(value_at(e9, "skip"@) == value_at(e8, "skip"@));
        assert(value_at(e10, "skip"@) == value_at(e9, "skip"@));
        assert(value_at(e12, "skip"@) == value_at(e11, "skip"@));
        assert(value_at(e13, "skip"@) == value_at(e12, "skip"@));
        assert(value_at(e14, "skip"@) == value_at(e13, "skip"@));
        assert(value_at(e15, "skip"@) == value_at(e14, "skip"@));
    }
    assert(r.backup == s.backup) by {
        assert(value_at(e1, "backup"@) == value_at(e0, "backup"@));
        assert(value_at(e2, "backup"@) == value_at(e1, "backup"@));
        assert(value_at(e3, "backup"@) == value_at(e2, "backup"@));
        assert(value_at(e4, "backup"@) == value_at(e3, "backup"@));
        assert(value_at(e5, "backup"@) == value_at(e4, "backup"@));
        assert(value_at(e6, "backup"@) == value_at(e5, "backup"@));
        assert(value_at(e7, "backup"@) == value_at(e6, "backup"@));
        assert(value_at(e8, "backup"@) == value_at(e7, "backup"@));
        assert(value_at(e9, "backup"@) == value_at(e8, "backup"@));
        assert(value_at(e10, "backup"@) == value_at(e9, "backup"@));
        assert(value_at(e11, "backup"@) == value_at(e10, "backup"@));
        assert(value_at(e13, "backup"@) == value_at(e12, "backup"@));
        assert(value_at(e14, "backup"@) == value_at(e13, "backup"@));
        assert(value_at(e15, "backup"@) == value_at(e14, "backup"@));
    }
    assert(r.no_license == s.no_license) by {
        assert(value_at(e1, "no_license"@) == value_at(e0, "no_license"@));
        assert(value_at(e2, "no_license"@) == value_at(e1, "no_license"@));
        assert(value_at(e3, "no_license"@) == value_at(e2, "no_license"@));
        assert(value_at(e4, "no_license"@) == value_at(e3, "no_license"@));
        assert(value_at(e5, "no_license"@) == value_at(e4, "no_license"@));
        assert(value_at(e6, "no_license"@) == value_at(e5, "no_license"@));
        assert(value_at(e7, "no_license"@) == value_at(e6, "no_license"@));
        assert(value_at(e8, "no_license"@) == value_at(e7, "no_license"@));
        assert(value_at(e9, "no_license"@) == value_at(e8, "no_license"@));
        assert(value_at(e10, "no_license"@) == value_at(e9, "no_license"@));
        assert(value_at(e11, "no_license"@) == value_at(e10, "no_license"@));
        assert(value_at(e12, "no_license"@) == value_at(e11, "no_license"@));
        assert(value_at(e14, "no_license"@) == value_at(e13, "no_license"@));
        assert(value_at(e15, "no_license"@) == value_at(e14, "no_license"@));
    }
    assert(r.copied_at == s.copied_at) by {
        assert(value_at(e1, "copied_at"@) == value_at(e0, "copied_at"@));
        assert(value_at(e2, "copied_at"@) == value_at(e1, "copied_at"@));
        assert(value_at(e3, "copied_at"@) == value_at(e2, "copied_at"@));
        assert(value_at(e4, "copied_at"@) == value_at(e3, "copied_at"@));
        assert(value_at(e5, "copied_at"@) == value_at(e4, "copied_at"@));
        assert(value_at(e6, "copied_at"@) == value_at(e5, "copied_at"@));
        assert(value_at(e7, "copied_at"@) == value_at(e6, "copied_at"@));
        assert(value_at(e8, "copied_at"@) == value_at(e7, "copied_at"@));
        assert(value_at(e9, "copied_at"@) == value_at(e8, "copied_at"@));
        assert(value_at(e10, "copied_at"@) == value_at(e9, "copied_at"@));
        assert(value_at(e11, "copied_at"@) == value_at(e10, "copied_at"@));
        assert(value_at(e12, "copied_at"@) == value_at(e11, "copied_at"@));
        assert(value_at(e13, "copied_at"@) == value_at(e12, "copied_at"@));
        assert(value_at(e15, "copied_at"@) == value_at(e14, "copied_at"@));
    }
    assert(r.excludes == s.excludes) by {
        assert(value_at(e1, "excludes"@) == value_at(e0, "excludes"@));
        assert(value_at(e2, "excludes"@) == value_at(e1, "excludes"@));
        assert(value_at(e3, "excludes"@) == value_at(e2, "excludes"@));
        assert(value_at(e4, "excludes"@) == value_at(e3, "excludes"@));
        assert(value_at(e5, "excludes"@) == value_at(e4, "excludes"@));
        assert(value_at(e6, "excludes"@) == value_at(e5, "excludes"@));
        assert(value_at(e7, "excludes"@) == value_at(e6, "excludes"@));
        assert(value_at(e8, "excludes"@) == value_at(e7, "excludes"@));
        assert(value_at(e9, "excludes"@) == value_at(e8, "excludes"@));
        assert(value_at(e10, "excludes"@) == value_at(e9, "excludes"@));
        assert(value_at(e11, "excludes"@) == value_at(e10, "excludes"@));
        assert(value_at(e12, "excludes"@) == value_at(e11, "excludes"@));
        assert(value_at(e13, "excludes"@) == value_at(e12, "excludes"@));
        assert(value_at(e14, "excludes"@) == value_at(e13, "excludes"@));
    }
}

/// `with_text` as a write: the key reads the text when there is one.
proof fn lemma_with_text_reads(e: Seq<(Seq<char>, TomlNode)>, k: Seq<char>, v: Option<Seq<char>>)
    requires
        table_keys(e).no_duplicates(),
    ensures
        table_keys(with_text(e, k, v)).no_duplicates(),
        forall|q: Seq<char>| #[trigger] value_at(with_text(e, k, v), q) == if q == k && v is Some {
            Some(TomlNode::Text(v->0))
        } else {
            value_at(e, q)
        },
{
    if let Some(s) = v {
        lemma_upsert_reads(e, k, TomlNode::Text(s));
    }
}

/// `with_flag` as a write.
proof fn lemma_with_flag_reads(e: Seq<(Seq<char>, TomlNode)>, k: Seq<char>, v: Option<bool>)
    requires
        table_keys(e).no_duplicates(),
    ensures
        table_keys(with_flag(e, k, v)).no_duplicates(),
        forall|q: Seq<char>| #[trigger] value_at(with_flag(e, k, v), q) == if q == k && v is Some {
            Some(TomlNode::Flag(v->0))
        } else {
            value_at(e, q)
        },
{
    if let Some(b) = v {
        lemma_upsert_reads(e, k, TomlNode::Flag(b));
    }
}

/// `with_list` as a write: the key reads the list when it is not empty.
proof fn lemma_with_list_reads(e: Seq<(Seq<char>, TomlNode)>, k: Seq<char>, l: Seq<Seq<char>>)
    requires
        table_keys(e).no_duplicates(),
    ensures
        table_keys(with_list(e, k, l)).no_duplicates(),
        forall|q: Seq<char>| #[trigger] value_at(with_list(e, k, l), q) == if q == k && l.len() > 0 {
            Some(TomlNode::List(l))
        } else {
            value_at(e, q)
        },
{
    if l.len() > 0 {
        lemma_upsert_reads(e, k, TomlNode::List(l));
    }
}

/// `with_opt_list` as a write: the key reads the list when there is one.
proof fn lemma_with_opt_list_reads(e: Seq<(Seq<char>, TomlNode)>, k: Seq<char>, l: Option<Seq<Seq<char>>>)
    requires
        table_keys(e).no_duplicates(),
    ensures
        table_keys(with_opt_list(e, k, l)).no_duplicates(),
        forall|q: Seq<char>| #[trigger] value_at(with_opt_list(e, k, l), q) == if q == k && l is Some {
            Some(TomlNode::List(l->0))
        } else {
            value_at(e, q)
        },
{
    if let Some(v) = l {
        lemma_upsert_reads(e, k, TomlNode::List(v));
    }
}

/// A `[registries.<name>]` table, read back, gives the registry it was
/// written from.
pub proof fn lemma_registry_round_trip(r: SpecRegistryConfig)
    ensures
        read_registry(registry_items(r)) == r,
{
    reveal_strlit("source");
    reveal_strlit("index");
    reveal_strlit("target");
    reveal_strlit("variants");
    reveal_strlit("optional");
    reveal_strlit("package_manager");
    assert("source"@.len() == 6);
    assert("index"@.len() == 5);
    assert("target"@.len() == 6);
    assert("variants"@.len() == 8);
    assert("optional"@.len() == 8);
    assert("package_manager"@.len() == 15);
    assert("source"@ != "target"@) by {
        assert("source"@[0] != "target"@[0]);
    }
    assert("variants"@ != "optional"@) by {
        assert("variants"@[0] != "optional"@[0]);
    }
    let e0: Seq<(Seq<char>, TomlNode)> = Seq::empty();
    assert(table_keys(e0).no_duplicates());
    lemma_upsert_reads(e0, "source"@, TomlNode::Text(r.source));
    let e1 = upsert(e0, "source"@, TomlNode::Text(r.source));
    lemma_with_text_reads(e1, "index"@, r.index);
    let e2 = with_text(e1, "index"@, r.index);
    lemma_with_text_reads(e2, "target"@, r.target);
    let e3 = with_text(e2, "target"@, r.target);
    lemma_with_list_reads(e3, "variants"@, r.variants);
    let e4 = with_list(e3, "variants"@, r.variants);
    lemma_with_list_reads(e4, "optional"@, r.optional);
    let e5 = with_list(e4, "optional"@, r.optional);
    lemma_with_text_reads(e5, "package_manager"@, r.package_manager);
    let e6 = with_text(e5, "package_manager"@, r.package_manager);
    assert(e6 == registry_items(r));
    let rd = read_registry(e6);
    assert(rd.source == r.source) by {
        assert(value_at(e2, "source"@) == value_at(e1, "source"@));
        assert(value_at(e3, "source"@) == value_at(e2, "source"@));
        assert(value_at(e4, "source"@) == value_at(e3, "source"@));
        assert(value_at(e5, "source"@) == value_at(e4, "source"@));
        assert(value_at(e6, "source"@) == value_at(e5, "source"@));
    }
    assert(rd.index == r.index) by {
        assert(value_at(e1, "index"@) == value_at(e0, "index"@));
        assert(value_at(e3, "index"@) == value_at(e2, "index"@));
        assert(value_at(e4, "index"@) == value_at(e3, "index"@));
        assert(value_at(e5, "index"@) == value_at(e4, "index"@));
        assert(value_at(e6, "index"@) == value_at(e5, "index"@));
    }
    assert(rd.target == r.target) by {
        assert(value_at(e1, "target"@) == value_at(e0, "target"@));
        assert(value_at(e2, "target"@) == value_at(e1, "target"@));
        assert(value_at(e4, "target"@) == value_at(e3, "target"@));
        assert(value_at(e5, "target"@) == value_at(e4, "target"@));
        assert(value_at(e6, "target"@) == value_at(e5, "target"@));
    }
    assert(rd.variants == r.variants) by {
        assert(value_at(e1, "variants"@) == value_at(e0, "variants"@));
        assert(value_at(e2, "variants"@) == value_at(e1, "variants"@));
        assert(value_at(e3, "variants"@) == value_at(e2, "variants"@));
        assert(value_at(e5, "variants"@) == value_at(e4, "variants"@));
        assert(value_at(e6, "variants"@) == value_at(e5, "variants"@));
    }
    assert(rd.optional == r.optional) by {
        assert(value_at(e1, "optional"@) == value_at(e0, "optional"@));
        assert(value_at(e2, "optional"@) == value_at(e1, "optional"@));
        assert(value_at(e3, "optional"@) == value_at(e2, "optional"@));
        assert(value_at(e4, "optional"@) == value_at(e3, "optional"@));
        assert(value_at(e6, "optional"@) == value_at(e5, "optional"@));
    }
    assert(rd.package_manager == r.package_manager) by {
        assert(value_at(e1, "package_manager"@) == value_at(e0, "package_manager"@));
        assert(value_at(e2, "package_manager"@) == value_at(e1, "package_manager"@));
        assert(value_at(e3, "package_manager"@) == value_at(e2, "package_manager"@));
        assert(value_at(e4, "package_manager"@) == value_at(e3, "package_manager"@));
        assert(value_at(e5, "package_manager"@) == value_at(e4, "package_manager"@));
    }
}

/// Strictly ascending names repeat none.
proof fn lemma_sorted_distinct(s: Seq<Seq<char>>)
    requires
        crate::names::strictly_sorted(s),
    ensures
        s.no_duplicates(),
{
    assert forall|i: int, j: int| 0 <= i < s.len() && 0 <= j < s.len() && i != j implies s[i] != s[j] by {
        if s[i] == s[j] {
            crate::names::lemma_name_lt_irreflexive(s[i]);
        }
    }
}

/// Each registry's table is found under its name in the `[registries]` table,
/// and nothing else is.
proof fn lemma_registry_tables(regs: Seq<(Seq<char>, SpecRegistryConfig)>)
    requires
        crate::names::entry_keys(regs).no_duplicates(),
    ensures
        table_keys(registry_tables(regs)).no_duplicates(),
        forall|k: int| 0 <= k < regs.len() ==> value_at(registry_tables(regs), (#[trigger] regs[k]).0) == Some(
            TomlNode::Table(plain_table(registry_items(regs[k].1))),
        ),
        forall|q: Seq<char>| !crate::names::entry_keys(regs).contains(q) ==> #[trigger] value_at(registry_tables(regs), q)
            is None,
    decreases regs.len(),
{
    if regs.len() == 0 {
        assert(table_keys(Seq::<(Seq<char>, TomlNode)>::empty()) =~= Seq::<Seq<char>>::empty());
    } else {
        let init = regs.drop_last();
        let keys = crate::names::entry_keys(regs);
        assert(crate::names::entry_keys(init) =~= keys.drop_last());
        assert(crate::names::entry_keys(init).no_duplicates()) by {
            assert forall|a: int, b: int| 0 <= a < init.len() && 0 <= b < init.len() && a != b
                implies crate::names::entry_keys(init)[a] != crate::names::entry_keys(init)[b] by {
                assert(keys[a] == crate::names::entry_keys(init)[a]);
                assert(keys[b] == crate::names::entry_keys(init)[b]);
            }
        }
        lemma_registry_tables(init);
        let last = regs.last();
        lemma_upsert_reads(registry_tables(init), last.0, TomlNode::Table(plain_table(registry_items(last.1))));
        assert forall|k: int| 0 <= k < regs.len() implies value_at(registry_tables(regs), (#[trigger] regs[k]).0) == Some(
            TomlNode::Table(plain_table(registry_items(regs[k].1))),
        ) by {
            if k < regs.len() - 1 {
                assert(init[k] == regs[k]);
                assert(keys[k] == regs[k].0);
                assert(keys[regs.len() - 1] == last.0);
            }
        }
        assert forall|q: Seq<char>| !keys.contains(q) implies #[trigger] value_at(registry_tables(regs), q) is None by {
            assert(keys[regs.len() - 1] == last.0);
            if crate::names::entry_keys(init).contains(q) {
                let j = choose|j: int| 0 <= j < init.len() && crate::names::entry_keys(init)[j] == q;
                assert(keys[j] == q);
            }
        }
    }
}

/// Writing a manifest and reading it back gives the same manifest: `target`,
/// the defaults and `licenses_dir` as set, every registry under its name with
/// all its fields, and every source entry, in order, with all its fields.
pub proof fn lemma_config_round_trip(config: &CopitConfig)
    requires
        config.wf(),
    ensures
        ({
            let e = config_items(config).entries;
            let regs = config.registries@;
            &&& text_at(e, "target"@) == Some(config.target@)
            &&& flag_at(e, "overwrite"@) == config.overwrite
            &&& flag_at(e, "skip"@) == config.skip
            &&& flag_at(e, "backup"@) == config.backup
            &&& text_at(e, "licenses_dir"@) == opt_chars(config.licenses_dir)
            &&& (regs.len() == 0 <==> value_at(e, "registries"@) is None)
            &&& forall|k: int| 0 <= k < regs.len() ==> (value_at(e, "registries"@) matches Some(TomlNode::Table(rt))
                && value_at(rt.entries, (#[trigger] regs[k]).0) matches Some(TomlNode::Table(x))
                && read_registry(x.entries) == regs[k].1)
            &&& (config.sources@.len() == 0 <==> value_at(e, "sources"@) is None)
            &&& value_at(e, "sources"@) matches Some(TomlNode::Tables(ts)) ==> ts.map_values(
                |x: TomlTable| read_entry(x.entries),
            ) == config.entries()
        }),
{
    reveal_strlit("target");
    reveal_strlit("overwrite");
    reveal_strlit("skip");
    reveal_strlit("backup");
    reveal_strlit("licenses_dir");
    reveal_strlit("registries");
    reveal_strlit("sources");
    assert("target"@.len() == 6);
    assert("overwrite"@.len() == 9);
    assert("skip"@.len() == 4);
    assert("backup"@.len() == 6);
    assert("licenses_dir"@.len() == 12);
    assert("registries"@.len() == 10);
    assert("sources"@.len() == 7);
    assert("target"@ != "backup"@) by {
        assert("target"@[0] != "backup"@[0]);
    }
    let regs = config.registries@;
    config.registries.lemma_view();
    lemma_sorted_distinct(crate::names::entry_keys(regs));
    lemma_registry_tables(regs);
    let e0: Seq<(Seq<char>, TomlNode)> = Seq::empty();
    assert(table_keys(e0).no_duplicates());
    lemma_upsert_reads(e0, "target"@, TomlNode::Text(config.target@));
    let e1 = upsert(e0, "target"@, TomlNode::Text(config.target@));
    lemma_with_flag_reads(e1, "overwrite"@, config.overwrite);
    let e2 = with_flag(e1, "overwrite"@, config.overwrite);
    lemma_with_flag_reads(e2, "skip"@, config.skip);
    let e3 = with_flag(e2, "skip"@, config.skip);
    lemma_with_flag_reads(e3, "backup"@, config.backup);
    let e4 = with_flag(e3, "backup"@, config.backup);
    lemma_with_text_reads(e4, "licenses_dir"@, opt_chars(config.licenses_dir));
    let e5 = with_text(e4, "licenses_dir"@, opt_chars(config.licenses_dir));
    let rnode = TomlNode::Table(TomlTable { root: false, implicit: true, entries: registry_tables(regs) });
    lemma_upsert_reads(e5, "registries"@, rnode);
    let e6 = if regs.len() > 0 { upsert(e5, "registries"@, rnode) } else { e5 };
    let snode = TomlNode::Tables(config.entries().map_values(|s: SpecEntry| plain_table(entry_items(s))));
    lemma_upsert_reads(e6, "sources"@, snode);
    let e7 = if config.sources@.len() > 0 { upsert(e6, "sources"@, snode) } else { e6 };
    assert(e7 == config_items(config).entries);
    assert(value_at(e0, "registries"@) is None);
    assert(value_at(e0, "sources"@) is None);
    assert(text_at(e7, "target"@) == Some(config.target@)) by {
        assert(value_at(e2, "target"@) == value_at(e1, "target"@));
        assert(value_at(e3, "target"@) == value_at(e2, "target"@));
        assert(value_at(e4, "target"@) == value_at(e3, "target"@));
        assert(value_at(e5, "target"@) == value_at(e4, "target"@));
        assert(value_at(e6, "target"@) == value_at(e5, "target"@));
        assert(value_at(e7, "target"@) == value_at(e6, "target"@));
    }
    assert(flag_at(e7, "overwrite"@) == config.overwrite) by {
        assert(value_at(e1, "overwrite"@) == value_at(e0, "overwrite"@));
        assert(value_at(e3, "overwrite"@) == value_at(e2, "overwrite"@));
        assert(value_at(e4, "overwrite"@) == value_at(e3, "overwrite"@));
        assert(value_at(e5, "overwrite"@) == value_at(e4, "overwrite"@));
        assert(value_at(e6, "overwrite"@) == value_at(e5, "overwrite"@));
        assert(value_at(e7, "overwrite"@) == value_at(e6, "overwrite"@));
    }
    assert(flag_at(e7, "skip"@) == config.skip) by {
        assert(value_at(e1, "skip"@) == value_at(e0, "skip"@));
        assert(value_at(e2, "skip"@) == value_at(e1, "skip"@));
        assert(value_at(e4, "skip"@) == value_at(e3, "skip"@));
        assert(value_at(e5, "skip"@) == value_at(e4, "skip"@));
        assert(value_at(e6, "skip"@) == value_at(e5, "skip"@));
        assert(value_at(e7, "skip"@) == value_at(e6, "skip"@));
    }
    assert(flag_at(e7, "backup"@) == config.backup) by {
        assert(value_at(e1, "backup"@) == value_at(e0, "backup"@));
        assert(value_at(e2, "backup"@) == value_at(e1, "backup"@));
        assert(value_at(e3, "backup"@) == value_at(e2, "backup"@));
        assert(value_at(e5, "backup"@) == value_at(e4, "backup"@));
        assert(value_at(e6, "backup"@) == value_at(e5, "backup"@));
        assert(value_at(e7, "backup"@) == value_at(e6, "backup"@));
    }
    assert(text_at(e7, "licenses_dir"@) == opt_chars(config.licenses_dir)) by {
        assert(value_at(e1, "licenses_dir"@) == value_at(e0, "licenses_dir"@));
        assert(value_at(e2, "licenses_dir"@) == value_at(e1, "licenses_dir"@));
        assert(value_at(e3, "licenses_dir"@) == value_at(e2, "licenses_dir"@));
        assert(value_at(e4, "licenses_dir"@) == value_at(e3, "licenses_dir"@));
        assert(value_at(e6, "licenses_dir"@) == value_at(e5, "licenses_dir"@));
        assert(value_at(e7, "licenses_dir"@) == value_at(e6, "licenses_dir"@));
    }
    assert(value_at(e7, "registries"@) == if regs.len() > 0 { Some(rnode) } else { None::<TomlNode> }) by {
        assert(value_at(e1, "registries"@) == value_at(e0, "registries"@));
        assert(value_at(e2, "registries"@) == value_at(e1, "registries"@));
        assert(value_at(e3, "registries"@) == value_at(e2, "registries"@));
        assert(value_at(e4, "registries"@) == value_at(e3, "registries"@));
        assert(value_at(e5, "registries"@) == value_at(e4, "registries"@));
    }
    assert(value_at(e7, "sources"@) == if config.sources@.len() > 0 { Some(snode) } else { None::<TomlNode> }) by {
        assert(value_at(e1, "sources"@) == value_at(e0, "sources"@));
        assert(value_at(e2, "sources"@) == value_at(e1, "sources"@));
        assert(value_at(e3, "sources"@) == value_at(e2, "sources"@));
        assert(value_at(e4, "sources"@) == value_at(e3, "sources"@));
        assert(value_at(e5, "sources"@) == value_at(e4, "sources"@));
        assert(value_at(e6, "sources"@) == value_at(e5, "sources"@));
    }
    assert forall|k: int| 0 <= k < regs.len() implies (value_at(e7, "registries"@) matches Some(TomlNode::Table(rt))
        && value_at(rt.entries, (#[trigger] regs[k]).0) matches Some(TomlNode::Table(x))
        && read_registry(x.entries) == regs[k].1) by {
        lemma_registry_round_trip(regs[k].1);
    }
    if config.sources@.len() > 0 {
        let ts = config.entries().map_values(|s: SpecEntry| plain_table(entry_items(s)));
        assert forall|i: int| 0 <= i < ts.len() implies #[trigger] read_entry(ts[i].entries) == config.entries()[i] by {
            lemma_entry_round_trip(config.entries()[i]);
        }
        assert(ts.map_values(|x: TomlTable| read_entry(x.entries)) =~= config.entries());
    }
}

} // verus!
