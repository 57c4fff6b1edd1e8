//! Registry index model and dependency resolution.
//!
//! A *registry* is a repository that publishes named **components**: folders of
//! source code a user installs by id rather than by path. The registry publishes a
//! generated index describing every component: where it lives, which other
//! components it requires, and which packages it needs. This module holds that
//! index, checks it, and turns a request into an install plan with every
//! dependency placed before the components that need it.
//!
//! An index is downloaded, so it is data, never code: components declare files,
//! dependencies and text, never commands to run.

use vstd::prelude::*;

use crate::names::{
    copy_names,
    find_name, first_position, lemma_distinct_subset_len,
    common_prefix_len, lemma_common_prefix_is, lemma_entry_position, strictly_sorted,
    contains_name, dedup, entry_get, entry_keys, extend_names, is_sorted_unique_of, names_view,
    push_unique, sorted_set, sorted_unique, DeepCopy, NameMap, lemma_sorted_set,
};
use crate::text::{
    chars_contain, chars_eq, chars_of, contains_seq, lowercase, slice_chars, to_lowercase,
};


verus! {

/// The index format version this build understands.
pub const SUPPORTED_VERSION: u32 = 1;

/// Per-variant additions to a component.
///
/// A variant is a registry-defined second axis, typically a framework, where the
/// same component ships a different adapter per target.
#[derive(Debug, Clone, Default)]
pub struct Variant {
    /// Extra packages required when this variant is selected.
    pub dependencies: Vec<String>,
    /// Files copied *only* when this variant is selected.
    pub includes: Vec<String>,
}

/// What an optional group brings in beyond its files.
#[derive(Debug, Clone, Default)]
pub struct OptionalSpec {
    pub includes: Vec<String>,
    /// Resolved like the component-level field, but only when the group is selected.
    pub requirements: Vec<String>,
    /// Needed only when the group is selected.
    pub dependencies: Vec<String>,
}

/// A named optional group: files, plus what they need to work.
#[derive(Debug, Clone)]
pub enum OptionalGroup {
    /// The shorthand: a bare list of files.
    Files(Vec<String>),
    Detailed(OptionalSpec),
}

pub struct SpecVariant {
    pub dependencies: Seq<Seq<char>>,
    pub includes: Seq<Seq<char>>,
}

pub enum SpecGroup {
    Files(Seq<Seq<char>>),
    Detailed { includes: Seq<Seq<char>>, requirements: Seq<Seq<char>>, dependencies: Seq<Seq<char>> },
}

impl View for Variant {
    type V = SpecVariant;

    open spec fn view(&self) -> SpecVariant {
        SpecVariant { dependencies: names_view(self.dependencies@), includes: names_view(self.includes@) }
    }
}

impl View for OptionalGroup {
    type V = SpecGroup;

    open spec fn view(&self) -> SpecGroup {
        match self {
            OptionalGroup::Files(files) => SpecGroup::Files(names_view(files@)),
            OptionalGroup::Detailed(spec) => SpecGroup::Detailed {
                includes: names_view(spec.includes@),
                requirements: names_view(spec.requirements@),
                dependencies: names_view(spec.dependencies@),
            },
        }
    }
}

impl DeepCopy for Variant {
    fn deep_copy(&self) -> (r: Self) {
        Variant { dependencies: self.dependencies.deep_copy(), includes: self.includes.deep_copy() }
    }
}

impl DeepCopy for OptionalGroup {
    fn deep_copy(&self) -> (r: Self) {
        match self {
            OptionalGroup::Files(files) => OptionalGroup::Files(files.deep_copy()),
            OptionalGroup::Detailed(spec) => OptionalGroup::Detailed(
                OptionalSpec {
                    includes: spec.includes.deep_copy(),
                    requirements: spec.requirements.deep_copy(),
                    dependencies: spec.dependencies.deep_copy(),
                },
            ),
        }
    }
}

/// Files a group copies.
pub open spec fn group_include(g: SpecGroup) -> Seq<Seq<char>> {
    match g {
        SpecGroup::Files(files) => files,
        SpecGroup::Detailed { includes, .. } => includes,
    }
}

/// Components a group pulls in; the bare-list form pulls in none.
pub open spec fn group_requires(g: SpecGroup) -> Seq<Seq<char>> {
    match g {
        SpecGroup::Files(_) => Seq::empty(),
        SpecGroup::Detailed { requirements, .. } => requirements,
    }
}

/// Packages a group needs; the bare-list form needs none.
pub open spec fn group_dependencies(g: SpecGroup) -> Seq<Seq<char>> {
    match g {
        SpecGroup::Files(_) => Seq::empty(),
        SpecGroup::Detailed { dependencies, .. } => dependencies,
    }
}

impl OptionalGroup {
    pub fn includes(&self) -> (r: &Vec<String>)
        ensures
            names_view(r@) == group_include(self@),
    {
        match self {
            Self::Files(files) => files,
            Self::Detailed(spec) => &spec.includes,
        }
    }

    pub fn requirements(&self) -> (r: &[String])
        ensures
            names_view(r@) == group_requires(self@),
    {
        match self {
            Self::Files(_) => {
                let r: &[String] = &[];
                assert(names_view(r@) =~= Seq::<Seq<char>>::empty());
                r
            },
            Self::Detailed(spec) => spec.requirements.as_slice(),
        }
    }

    pub fn dependencies(&self) -> (r: &[String])
        ensures
            names_view(r@) == group_dependencies(self@),
    {
        match self {
            Self::Files(_) => {
                let r: &[String] = &[];
                assert(names_view(r@) =~= Seq::<Seq<char>>::empty());
                r
            },
            Self::Detailed(spec) => spec.dependencies.as_slice(),
        }
    }
}

/// One installable component.
#[derive(Debug)]
pub struct Component {
    /// Registry-unique id, e.g. `auth`.
    pub name: String,
    /// Human-readable name.
    pub title: String,
    pub description: String,
    /// Free-form label such as `core` or `contrib`, treated as opaque.
    pub tier: String,
    pub version: String,
    /// Path within the registry repository.
    pub path: String,
    pub tags: Vec<String>,
    pub authors: Vec<String>,
    /// Other components in this registry, resolved transitively.
    pub requirements: Vec<String>,
    /// Ecosystem packages this component needs.
    pub dependencies: Vec<String>,
    pub variants: NameMap<Variant>,
    /// Variants this component requires. Empty means it installs anywhere.
    ///
    /// Distinct from `variants`, which only adds files and packages: a component
    /// listed here refuses to install unless one of these is selected.
    pub only_variants: Vec<String>,
    /// Files the registry expects to be copied, excludes already applied.
    pub files: Vec<String>,
    /// Named groups left out of a normal install, e.g. `tests`, installed on request.
    pub optional: NameMap<OptionalGroup>,
}

pub struct SpecComponent {
    pub name: Seq<char>,
    pub title: Seq<char>,
    pub description: Seq<char>,
    pub tier: Seq<char>,
    pub version: Seq<char>,
    pub path: Seq<char>,
    pub tags: Seq<Seq<char>>,
    pub authors: Seq<Seq<char>>,
    pub requirements: Seq<Seq<char>>,
    pub dependencies: Seq<Seq<char>>,
    pub variants: Seq<(Seq<char>, SpecVariant)>,
    pub only_variants: Seq<Seq<char>>,
    pub files: Seq<Seq<char>>,
    pub optional: Seq<(Seq<char>, SpecGroup)>,
}

impl View for Component {
    type V = SpecComponent;

    open spec fn view(&self) -> SpecComponent {
        SpecComponent {
            name: self.name@,
            title: self.title@,
            description: self.description@,
            tier: self.tier@,
            version: self.version@,
            path: self.path@,
            tags: names_view(self.tags@),
            authors: names_view(self.authors@),
            requirements: names_view(self.requirements@),
            dependencies: names_view(self.dependencies@),
            variants: self.variants@,
            only_variants: names_view(self.only_variants@),
            files: names_view(self.files@),
            optional: self.optional@,
        }
    }
}

/// Whether a component can be installed under `selected`.
pub open spec fn supports(c: SpecComponent, selected: Seq<Seq<char>>) -> bool {
    c.only_variants.len() == 0 || exists|i: int|
        0 <= i < c.only_variants.len() && selected.contains(#[trigger] c.only_variants[i])
}

/// Packages the selected variants add, in the order the variants are given.
pub open spec fn variant_packages(c: SpecComponent, vs: Seq<Seq<char>>) -> Seq<Seq<char>>
    decreases vs.len(),
{
    if vs.len() == 0 {
        Seq::empty()
    } else {
        variant_packages(c, vs.drop_last()) + match entry_get(c.variants, vs.last()) {
            Some(v) => v.dependencies,
            None => Seq::empty(),
        }
    }
}

/// Packages the selected groups add, in the order the groups are given.
pub open spec fn group_packages(c: SpecComponent, gs: Seq<Seq<char>>) -> Seq<Seq<char>>
    decreases gs.len(),
{
    if gs.len() == 0 {
        Seq::empty()
    } else {
        group_packages(c, gs.drop_last()) + match entry_get(c.optional, gs.last()) {
            Some(g) => group_dependencies(g),
            None => Seq::empty(),
        }
    }
}

/// Packages a component needs under the selected variants and groups.
pub open spec fn packages_for(c: SpecComponent, vs: Seq<Seq<char>>, gs: Seq<Seq<char>>) -> Seq<Seq<char>> {
    c.dependencies + variant_packages(c, vs) + group_packages(c, gs)
}

/// Some variant for which `selected` says yes lists `f` among its files.
pub open spec fn variant_lists(c: SpecComponent, vs: Seq<Seq<char>>, f: Seq<char>, selected: bool) -> bool {
    exists|k: int|
        0 <= k < c.variants.len() && vs.contains(c.variants[k].0) == selected
            && (#[trigger] c.variants[k]).1.includes.contains(f)
}

/// A file is copied unless only unselected variants list it.
pub open spec fn keeps_file(c: SpecComponent, vs: Seq<Seq<char>>, f: Seq<char>) -> bool {
    !variant_lists(c, vs, f, false) || variant_lists(c, vs, f, true)
}

/// The files of `files` that `keeps_file` keeps, in order.
pub open spec fn kept_files(c: SpecComponent, vs: Seq<Seq<char>>, files: Seq<Seq<char>>) -> Seq<Seq<char>>
    decreases files.len(),
{
    if files.len() == 0 {
        files
    } else {
        let rest = kept_files(c, vs, files.drop_last());
        if keeps_file(c, vs, files.last()) {
            rest.push(files.last())
        } else {
            rest
        }
    }
}

/// Files to copy under the selected variants.
pub open spec fn files_for(c: SpecComponent, vs: Seq<Seq<char>>) -> Seq<Seq<char>> {
    kept_files(c, vs, c.files)
}

/// Files the selected groups list, in the order the groups are given.
pub open spec fn group_files(c: SpecComponent, gs: Seq<Seq<char>>) -> Seq<Seq<char>>
    decreases gs.len(),
{
    if gs.len() == 0 {
        Seq::empty()
    } else {
        group_files(c, gs.drop_last()) + match entry_get(c.optional, gs.last()) {
            Some(g) => group_include(g),
            None => Seq::empty(),
        }
    }
}

/// Components the selected groups require, in the order the groups are given.
pub open spec fn group_requirements(c: SpecComponent, gs: Seq<Seq<char>>) -> Seq<Seq<char>>
    decreases gs.len(),
{
    if gs.len() == 0 {
        Seq::empty()
    } else {
        group_requirements(c, gs.drop_last()) + match entry_get(c.optional, gs.last()) {
            Some(g) => group_requires(g),
            None => Seq::empty(),
        }
    }
}

/// Components the selected groups pull in, each once, first occurrence first.
pub open spec fn optional_requirements(c: SpecComponent, gs: Seq<Seq<char>>) -> Seq<Seq<char>> {
    dedup(group_requirements(c, gs))
}

impl Component {
    /// Both maps of this component are well formed.
    pub open spec fn wf(&self) -> bool {
        self.variants.wf() && self.optional.wf()
    }

    /// A copy whose every part equals this one.
    pub fn duplicate(&self) -> (r: Self)
        ensures
            r@ == self@,
            r.wf() == self.wf(),
    {
        Component {
            name: self.name.clone(),
            title: self.title.clone(),
            description: self.description.clone(),
            tier: self.tier.clone(),
            version: self.version.clone(),
            path: self.path.clone(),
            tags: self.tags.deep_copy(),
            authors: self.authors.deep_copy(),
            requirements: self.requirements.deep_copy(),
            dependencies: self.dependencies.deep_copy(),
            variants: self.variants.deep_copy(),
            only_variants: self.only_variants.deep_copy(),
            files: self.files.deep_copy(),
            optional: self.optional.deep_copy(),
        }
    }
}

impl Component {
    /// Whether this component can be installed under `selected`.
    pub fn supports(&self, selected: &[String]) -> (r: bool)
        ensures
            r == supports(self@, names_view(selected@)),
    {
        if self.only_variants.len() == 0 {
            return true;
        }
        let mut i: usize = 0;
        while i < self.only_variants.len()
            invariant
                i <= self.only_variants@.len(),
                forall|j: int| 0 <= j < i ==> !names_view(selected@).contains(#[trigger] names_view(self.only_variants@)[j]),
            decreases self.only_variants@.len() - i,
        {
            if contains_name(selected, self.only_variants[i].as_str()) {
                assert(names_view(self.only_variants@)[i as int] == self.only_variants@[i as int]@);
                return true;
            }
            i += 1;
        }
        false
    }

    /// Packages needed for this component under the selected variants and groups.
    pub fn packages_for(&self, variants: &[String], groups: &[String]) -> (r: Vec<String>)
        requires
            self.wf(),
        ensures
            names_view(r@) == packages_for(self@, names_view(variants@), names_view(groups@)),
    {
        let mut packages = self.dependencies.deep_copy();
        let mut i: usize = 0;
        while i < variants.len()
            invariant
                self.wf(),
                i <= variants@.len(),
                names_view(packages@) == self@.dependencies + variant_packages(self@, names_view(variants@.subrange(0, i as int))),
            decreases variants@.len() - i,
        {
            let ghost before = packages@;
            if let Some(config) = self.variants.find(variants[i].as_str()) {
                extend_names(&mut packages, config.dependencies.as_slice());
            }
            proof {
                let vs = names_view(variants@.subrange(0, i + 1));
                assert(vs.drop_last() =~= names_view(variants@.subrange(0, i as int)));
                assert(vs.last() == variants@[i as int]@);
            }
            i += 1;
        }
        assert(variants@.subrange(0, variants@.len() as int) =~= variants@);
        let mut j: usize = 0;
        while j < groups.len()
            invariant
                self.wf(),
                j <= groups@.len(),
                names_view(packages@) == self@.dependencies + variant_packages(self@, names_view(variants@))
                    + group_packages(self@, names_view(groups@.subrange(0, j as int))),
            decreases groups@.len() - j,
        {
            if let Some(spec) = self.optional.find(groups[j].as_str()) {
                extend_names(&mut packages, spec.dependencies());
            }
            proof {
                let gs = names_view(groups@.subrange(0, j + 1));
                assert(gs.drop_last() =~= names_view(groups@.subrange(0, j as int)));
                assert(gs.last() == groups@[j as int]@);
            }
            j += 1;
        }
        assert(groups@.subrange(0, groups@.len() as int) =~= groups@);
        packages
    }

    /// Whether some variant, selected or not as `selected` says, lists `file`.
    fn variant_lists(&self, variants: &[String], file: &str, selected: bool) -> (r: bool)
        requires
            self.wf(),
        ensures
            r == variant_lists(self@, names_view(variants@), file@, selected),
    {
        let n = self.variants.size();
        let mut k: usize = 0;
        while k < n
            invariant
                self.wf(),
                n == self@.variants.len(),
                k <= n,
                forall|m: int| 0 <= m < k ==> !(names_view(variants@).contains(self@.variants[m].0) == selected
                    && (#[trigger] self@.variants[m]).1.includes.contains(file@)),
            decreases n - k,
        {
            let name = self.variants.key_of(k);
            let config = self.variants.value_of(k);
            if contains_name(variants, name.as_str()) == selected && contains_name(config.includes.as_slice(), file) {
                assert(self@.variants[k as int].1.includes.contains(file@));
                return true;
            }
            k += 1;
        }
        false
    }

    /// Files to copy under the selected variants. Variant files are additive: one
    /// listed under an unselected variant is left behind, unless a selected variant
    /// lists it too.
    pub fn files_for(&self, variants: &[String]) -> (r: Vec<String>)
        requires
            self.wf(),
        ensures
            names_view(r@) == files_for(self@, names_view(variants@)),
    {
        let mut out: Vec<String> = Vec::new();
        let mut i: usize = 0;
        while i < self.files.len()
            invariant
                self.wf(),
                i <= self.files@.len(),
                names_view(out@) == kept_files(self@, names_view(variants@), names_view(self.files@.subrange(0, i as int))),
            decreases self.files@.len() - i,
        {
            let file = &self.files[i];
            let keep = !self.variant_lists(variants, file.as_str(), false)
                || self.variant_lists(variants, file.as_str(), true);
            let ghost before = out@;
            if keep {
                out.push(file.clone());
                assert(names_view(out@) =~= names_view(before).push(file@));
            }
            proof {
                let fs = names_view(self.files@.subrange(0, i + 1));
                assert(fs.drop_last() =~= names_view(self.files@.subrange(0, i as int)));
                assert(fs.last() == file@);
            }
            i += 1;
        }
        assert(self.files@.subrange(0, self.files@.len() as int) =~= self.files@);
        out
    }

    /// Files from the named optional groups, listed apart from `files` because
    /// they are opt-in; each once, in ascending order.
    pub fn optional_files(&self, groups: &[String]) -> (r: Vec<String>)
        requires
            self.wf(),
        ensures
            is_sorted_unique_of(names_view(r@), group_files(self@, names_view(groups@))),
    {
        let mut files: Vec<String> = Vec::new();
        let mut j: usize = 0;
        while j < groups.len()
            invariant
                self.wf(),
                j <= groups@.len(),
                names_view(files@) == group_files(self@, names_view(groups@.subrange(0, j as int))),
            decreases groups@.len() - j,
        {
            if let Some(spec) = self.optional.find(groups[j].as_str()) {
                extend_names(&mut files, spec.includes().as_slice());
            }
            proof {
                let gs = names_view(groups@.subrange(0, j + 1));
                assert(gs.drop_last() =~= names_view(groups@.subrange(0, j as int)));
                assert(gs.last() == groups@[j as int]@);
            }
            j += 1;
        }
        assert(groups@.subrange(0, groups@.len() as int) =~= groups@);
        sorted_unique(&files)
    }

    /// Components the selected groups pull in, each once, first occurrence first.
    ///
    /// Separate from `requirements` because a group's files are opt-in: a test
    /// harness must not land in a project that never asked for the tests using it.
    pub fn optional_requires(&self, groups: &[String]) -> (r: Vec<String>)
        requires
            self.wf(),
        ensures
            names_view(r@) == optional_requirements(self@, names_view(groups@)),
    {
        let mut ids: Vec<String> = Vec::new();
        let mut j: usize = 0;
        while j < groups.len()
            invariant
                self.wf(),
                j <= groups@.len(),
                names_view(ids@) == dedup(group_requirements(self@, names_view(groups@.subrange(0, j as int)))),
            decreases groups@.len() - j,
        {
            let ghost done = group_requirements(self@, names_view(groups@.subrange(0, j as int)));
            if let Some(spec) = self.optional.find(groups[j].as_str()) {
                let reqs = spec.requirements();
                let mut k: usize = 0;
                while k < reqs.len()
                    invariant
                        k <= reqs@.len(),
                        names_view(ids@) == dedup(done + names_view(reqs@.subrange(0, k as int))),
                    decreases reqs@.len() - k,
                {
                    push_unique(&mut ids, &reqs[k]);
                    proof {
                        let s = done + names_view(reqs@.subrange(0, k + 1));
                        assert(s.drop_last() =~= done + names_view(reqs@.subrange(0, k as int)));
                        assert(s.last() == reqs@[k as int]@);
                    }
                    k += 1;
                }
                assert(reqs@.subrange(0, reqs@.len() as int) =~= reqs@);
            } else {
                assert(done + Seq::<Seq<char>>::empty() =~= done);
            }
            proof {
                let gs = names_view(groups@.subrange(0, j + 1));
                assert(gs.drop_last() =~= names_view(groups@.subrange(0, j as int)));
                assert(gs.last() == groups@[j as int]@);
            }
            j += 1;
        }
        assert(groups@.subrange(0, groups@.len() as int) =~= groups@);
        ids
    }
}

/// Whether `a` becomes `b` with a single insert, delete, substitution or
/// transposition of adjacent characters, judged after their common prefix.
pub open spec fn one_edit_apart(a: Seq<char>, b: Seq<char>) -> bool {
    if a.len() > b.len() + 1 || b.len() > a.len() + 1 {
        false
    } else {
        let k = common_prefix_len(a, b) as int;
        let ra = a.subrange(k, a.len() as int);
        let rb = b.subrange(k, b.len() as int);
        if ra.len() == 0 || rb.len() == 0 {
            ra.len() + rb.len() <= 1
        } else if ra.subrange(1, ra.len() as int) == rb.subrange(1, rb.len() as int) {
            true
        } else if ra.len() == rb.len() && ra.len() >= 2 && ra[0] == rb[1] && ra[1] == rb[0]
            && ra.subrange(2, ra.len() as int) == rb.subrange(2, rb.len() as int) {
            true
        } else {
            ra.subrange(1, ra.len() as int) == rb || ra == rb.subrange(1, rb.len() as int)
        }
    }
}

/// Whether `candidate` is close enough to `typed` to suggest it: one contains the
/// other, or their lowercase forms are one edit apart.
pub open spec fn near(candidate: Seq<char>, typed: Seq<char>) -> bool {
    contains_seq(candidate, typed) || contains_seq(typed, candidate) || one_edit_apart(
        lowercase(candidate),
        lowercase(typed),
    )
}

/// Whether one string becomes the other with a single insert, delete,
/// substitution or transposition of adjacent characters.
pub fn within_one_edit(a: &str, b: &str) -> (r: bool)
    ensures
        r == one_edit_apart(a@, b@),
        r == crate::registry_laws::single_edit(a@, b@),
{
    proof {
        crate::registry_laws::lemma_one_edit_apart_is_single_edit(a@, b@);
    }
    let a = chars_of(a);
    let b = chars_of(b);
    if (a.len() > b.len() && a.len() - b.len() > 1) || (b.len() > a.len() && b.len() - a.len() > 1) {
        return false;
    }
    let mut k: usize = 0;
    while k < a.len() && k < b.len() && a[k] == b[k]
        invariant
            k <= a@.len(),
            k <= b@.len(),
            forall|j: int| 0 <= j < k ==> a@[j] == b@[j],
        decreases a@.len() - k,
    {
        k += 1;
    }
    proof {
        lemma_common_prefix_is(a@, b@, k as int);
    }
    let ra = slice_chars(a.as_slice(), k, a.len());
    let rb = slice_chars(b.as_slice(), k, b.len());
    if ra.len() == 0 || rb.len() == 0 {
        return ra.len() + rb.len() <= 1;
    }
    let ra1 = slice_chars(ra.as_slice(), 1, ra.len());
    let rb1 = slice_chars(rb.as_slice(), 1, rb.len());
    if chars_eq(ra1.as_slice(), rb1.as_slice()) {
        return true;
    }
    if ra.len() == rb.len() && ra.len() >= 2 && ra[0] == rb[1] && ra[1] == rb[0] {
        let ra2 = slice_chars(ra.as_slice(), 2, ra.len());
        let rb2 = slice_chars(rb.as_slice(), 2, rb.len());
        if chars_eq(ra2.as_slice(), rb2.as_slice()) {
            return true;
        }
    }
    chars_eq(ra1.as_slice(), rb.as_slice()) || chars_eq(ra.as_slice(), rb1.as_slice())
}

/// Whether `candidate` is close enough to `typed` to suggest it.
///
/// Substring matching alone misses a typo anywhere in the word, so an edit
/// distance of one (a wrong, missing, extra or transposed letter) counts too.
pub fn is_near(candidate: &str, typed: &str) -> (r: bool)
    ensures
        r == near(candidate@, typed@),
{
    let c = chars_of(candidate);
    let t = chars_of(typed);
    if chars_contain(c.as_slice(), t.as_slice()) || chars_contain(t.as_slice(), c.as_slice()) {
        return true;
    }
    let lc = to_lowercase(candidate);
    let lt = to_lowercase(typed);
    within_one_edit(lc.as_str(), lt.as_str())
}

/// Installation defaults declared by the registry.
#[derive(Debug)]
pub struct InstallConfig {
    /// Suggested target directory.
    pub target: Option<String>,
    /// File to create in every directory made for a component, so the target is
    /// importable in languages that need it (Python's `__init__.py`).
    pub package_marker: Option<String>,
    /// Generator-side default: patterns the registry never publishes. Components
    /// list exactly what to copy in `files`, so this is not applied at install.
    pub exclude: Vec<String>,
    /// Named groups left out by default, installable on request (e.g. `tests`).
    pub optional: NameMap<OptionalGroup>,
}

impl InstallConfig {
    /// No suggested target, no marker, nothing excluded, no groups.
    pub fn new() -> (r: Self)
        ensures
            r.target is None,
            r.package_marker is None,
            r.exclude@.len() == 0,
            r.optional.wf(),
            r.optional@.len() == 0,
    {
        let optional = NameMap::new();
        proof {
            optional.lemma_view();
        }
        InstallConfig { target: None, package_marker: None, exclude: Vec::new(), optional }
    }
}

/// A fetched registry index.
#[derive(Debug)]
pub struct RegistryIndex {
    pub version: u32,
    pub name: String,
    pub title: String,
    pub description: String,
    /// Where the registry says it lives, e.g. `github:owner/repo`. Informational
    /// only: components are fetched from the source the user configured, at the
    /// ref they pinned.
    pub source: String,
    pub homepage: Option<String>,
    /// Package ecosystem, mapped to a package manager by the installers.
    pub ecosystem: String,
    pub variants: Vec<String>,
    pub install: InstallConfig,
    pub components: NameMap<Component>,
}

pub struct SpecIndex {
    pub version: u32,
    pub name: Seq<char>,
    pub variants: Seq<Seq<char>>,
    pub components: Seq<(Seq<char>, SpecComponent)>,
}

impl View for RegistryIndex {
    type V = SpecIndex;

    open spec fn view(&self) -> SpecIndex {
        SpecIndex {
            version: self.version,
            name: self.name@,
            variants: names_view(self.variants@),
            components: self.components@,
        }
    }
}

impl RegistryIndex {
    /// The component map and every component in it are well formed.
    pub open spec fn wf(&self) -> bool {
        &&& self.components.wf()
        &&& self.install.optional.wf()
        &&& forall|i: int| 0 <= i < self.components.value_seq().len() ==> (#[trigger] self.components.value_seq()[i]).wf()
    }
}

/// What can go wrong reading an index or planning an install.
#[derive(Debug)]
pub enum RegistryError {
    /// The index uses a format version this build does not know.
    UnsupportedVersion { registry: String, version: u32 },
    /// A component is listed under a key other than its own name.
    NameMismatch { registry: String, id: String, name: String },
    /// A component is restricted to a variant the registry does not declare.
    UndeclaredVariant { registry: String, id: String, variant: String, available: Vec<String> },
    /// No component has this id.
    UnknownComponent { registry: String, id: String, suggestions: Vec<String> },
    /// A selected variant is not declared by the registry.
    UnknownVariant { registry: String, variant: String, available: Vec<String> },
    /// No component publishes a selected optional group.
    UnknownGroup { registry: String, group: String, available: Vec<String> },
    /// Components require each other in a loop; `path` walks it and ends where it began.
    Cycle { registry: String, path: Vec<String> },
    /// A component restricted to variants none of which is selected.
    VariantRequired {
        registry: String,
        id: String,
        required_by: Option<String>,
        only_variants: Vec<String>,
        selected: Vec<String>,
    },
}

pub enum SpecRegistryError {
    UnsupportedVersion { registry: Seq<char>, version: u32 },
    NameMismatch { registry: Seq<char>, id: Seq<char>, name: Seq<char> },
    UndeclaredVariant { registry: Seq<char>, id: Seq<char>, variant: Seq<char>, available: Seq<Seq<char>> },
    UnknownComponent { registry: Seq<char>, id: Seq<char>, suggestions: Seq<Seq<char>> },
    UnknownVariant { registry: Seq<char>, variant: Seq<char>, available: Seq<Seq<char>> },
    UnknownGroup { registry: Seq<char>, group: Seq<char>, available: Seq<Seq<char>> },
    Cycle { registry: Seq<char>, path: Seq<Seq<char>> },
    VariantRequired {
        registry: Seq<char>,
        id: Seq<char>,
        required_by: Option<Seq<char>>,
        only_variants: Seq<Seq<char>>,
        selected: Seq<Seq<char>>,
    },
}

impl View for RegistryError {
    type V = SpecRegistryError;

    open spec fn view(&self) -> SpecRegistryError {
        match self {
            RegistryError::UnsupportedVersion { registry, version } => SpecRegistryError::UnsupportedVersion {
                registry: registry@,
                version: *version,
            },
            RegistryError::NameMismatch { registry, id, name } => SpecRegistryError::NameMismatch {
                registry: registry@,
                id: id@,
                name: name@,
            },
            RegistryError::UndeclaredVariant { registry, id, variant, available } => SpecRegistryError::UndeclaredVariant {
                registry: registry@,
                id: id@,
                variant: variant@,
                available: names_view(available@),
            },
            RegistryError::UnknownComponent { registry, id, suggestions } => SpecRegistryError::UnknownComponent {
                registry: registry@,
                id: id@,
                suggestions: names_view(suggestions@),
            },
            RegistryError::UnknownVariant { registry, variant, available } => SpecRegistryError::UnknownVariant {
                registry: registry@,
                variant: variant@,
                available: names_view(available@),
            },
            RegistryError::UnknownGroup { registry, group, available } => SpecRegistryError::UnknownGroup {
                registry: registry@,
                group: group@,
                available: names_view(available@),
            },
            RegistryError::Cycle { registry, path } => SpecRegistryError::Cycle {
                registry: registry@,
                path: names_view(path@),
            },
            RegistryError::VariantRequired { registry, id, required_by, only_variants, selected } => SpecRegistryError::VariantRequired {
                registry: registry@,
                id: id@,
                required_by: match required_by {
                    Some(p) => Some(p@),
                    None => None,
                },
                only_variants: names_view(only_variants@),
                selected: names_view(selected@),
            },
        }
    }
}

/// The names of `keys` near `id`, in order.
pub open spec fn near_names(keys: Seq<Seq<char>>, id: Seq<char>) -> Seq<Seq<char>>
    decreases keys.len(),
{
    if keys.len() == 0 {
        keys
    } else {
        let rest = near_names(keys.drop_last(), id);
        if near(keys.last(), id) {
            rest.push(keys.last())
        } else {
            rest
        }
    }
}

/// At most the first `n` elements of `s`.
pub open spec fn first_n(s: Seq<Seq<char>>, n: nat) -> Seq<Seq<char>> {
    if s.len() <= n {
        s
    } else {
        s.subrange(0, n as int)
    }
}

/// The error for an id no component has: up to three near names, in key order.
pub open spec fn unknown_component(idx: SpecIndex, id: Seq<char>) -> SpecRegistryError {
    SpecRegistryError::UnknownComponent {
        registry: idx.name,
        id,
        suggestions: first_n(near_names(entry_keys(idx.components), id), 3),
    }
}

/// The component listed under `id`, or the error naming what was meant.
pub open spec fn lookup_component(idx: SpecIndex, id: Seq<char>) -> Result<SpecComponent, SpecRegistryError> {
    match entry_get(idx.components, id) {
        Some(c) => Ok(c),
        None => Err(unknown_component(idx, id)),
    }
}

/// The first of `vs` the registry does not declare, as an error.
pub open spec fn variants_error(idx: SpecIndex, vs: Seq<Seq<char>>) -> Option<SpecRegistryError>
    decreases vs.len(),
{
    if vs.len() == 0 {
        None
    } else {
        match variants_error(idx, vs.drop_last()) {
            Some(e) => Some(e),
            None => if idx.variants.contains(vs.last()) {
                None
            } else {
                Some(SpecRegistryError::UnknownVariant { registry: idx.name, variant: vs.last(), available: idx.variants })
            },
        }
    }
}

/// Every optional group name the components publish, component by component.
pub open spec fn all_group_names(comps: Seq<(Seq<char>, SpecComponent)>) -> Seq<Seq<char>>
    decreases comps.len(),
{
    if comps.len() == 0 {
        Seq::empty()
    } else {
        all_group_names(comps.drop_last()) + entry_keys(comps.last().1.optional)
    }
}

/// Some component publishes the group `g`.
pub open spec fn group_known(idx: SpecIndex, g: Seq<char>) -> bool {
    exists|k: int| 0 <= k < idx.components.len() && entry_keys((#[trigger] idx.components[k]).1.optional).contains(g)
}

/// The first of `gs` that no component publishes, as an error.
pub open spec fn groups_error(idx: SpecIndex, gs: Seq<Seq<char>>) -> Option<SpecRegistryError>
    decreases gs.len(),
{
    if gs.len() == 0 {
        None
    } else {
        match groups_error(idx, gs.drop_last()) {
            Some(e) => Some(e),
            None => if group_known(idx, gs.last()) {
                None
            } else {
                Some(SpecRegistryError::UnknownGroup {
                    registry: idx.name,
                    group: gs.last(),
                    available: sorted_set(all_group_names(idx.components)),
                })
            },
        }
    }
}

/// The first of `only` the registry does not declare, as an error for component `id`.
pub open spec fn undeclared_error(idx: SpecIndex, id: Seq<char>, only: Seq<Seq<char>>) -> Option<SpecRegistryError>
    decreases only.len(),
{
    if only.len() == 0 {
        None
    } else {
        match undeclared_error(idx, id, only.drop_last()) {
            Some(e) => Some(e),
            None => if idx.variants.contains(only.last()) {
                None
            } else {
                Some(SpecRegistryError::UndeclaredVariant {
                    registry: idx.name,
                    id,
                    variant: only.last(),
                    available: idx.variants,
                })
            },
        }
    }
}

/// What is wrong with one listed component, if anything.
pub open spec fn entry_error(idx: SpecIndex, id: Seq<char>, c: SpecComponent) -> Option<SpecRegistryError> {
    if c.name != id {
        Some(SpecRegistryError::NameMismatch { registry: idx.name, id, name: c.name })
    } else {
        undeclared_error(idx, id, c.only_variants)
    }
}

/// The first problem among the listed components, in key order.
pub open spec fn entries_error(idx: SpecIndex, comps: Seq<(Seq<char>, SpecComponent)>) -> Option<SpecRegistryError>
    decreases comps.len(),
{
    if comps.len() == 0 {
        None
    } else {
        match entries_error(idx, comps.drop_last()) {
            Some(e) => Some(e),
            None => entry_error(idx, comps.last().0, comps.last().1),
        }
    }
}

/// Why an index must be refused, if it must.
pub open spec fn index_error(idx: SpecIndex) -> Option<SpecRegistryError> {
    if idx.version != SUPPORTED_VERSION {
        Some(SpecRegistryError::UnsupportedVersion { registry: idx.name, version: idx.version })
    } else {
        entries_error(idx, idx.components)
    }
}

/// The first of `ids` no component has, as an error.
pub open spec fn requested_error(idx: SpecIndex, ids: Seq<Seq<char>>) -> Option<SpecRegistryError>
    decreases ids.len(),
{
    if ids.len() == 0 {
        None
    } else {
        match requested_error(idx, ids.drop_last()) {
            Some(e) => Some(e),
            None => match lookup_component(idx, ids.last()) {
                Ok(_) => None,
                Err(e) => Some(e),
            },
        }
    }
}

/// Once a prefix of the variants holds an error, the whole list reports that error.
pub proof fn lemma_variants_error_prefix(idx: SpecIndex, vs: Seq<Seq<char>>, k: int)
    requires
        0 <= k <= vs.len(),
        variants_error(idx, vs.subrange(0, k)) is Some,
    ensures
        variants_error(idx, vs) == variants_error(idx, vs.subrange(0, k)),
    decreases vs.len() - k,
{
    if k < vs.len() {
        assert(vs.subrange(0, k + 1).drop_last() =~= vs.subrange(0, k));
        lemma_variants_error_prefix(idx, vs, k + 1);
    } else {
        assert(vs.subrange(0, k) =~= vs);
    }
}

/// Once a prefix of the groups holds an error, the whole list reports that error.
pub proof fn lemma_groups_error_prefix(idx: SpecIndex, gs: Seq<Seq<char>>, k: int)
    requires
        0 <= k <= gs.len(),
        groups_error(idx, gs.subrange(0, k)) is Some,
    ensures
        groups_error(idx, gs) == groups_error(idx, gs.subrange(0, k)),
    decreases gs.len() - k,
{
    if k < gs.len() {
        assert(gs.subrange(0, k + 1).drop_last() =~= gs.subrange(0, k));
        lemma_groups_error_prefix(idx, gs, k + 1);
    } else {
        assert(gs.subrange(0, k) =~= gs);
    }
}

/// Once a prefix of a component's restrictions holds an error, all of them report it.
pub proof fn lemma_undeclared_error_prefix(idx: SpecIndex, id: Seq<char>, only: Seq<Seq<char>>, k: int)
    requires
        0 <= k <= only.len(),
        undeclared_error(idx, id, only.subrange(0, k)) is Some,
    ensures
        undeclared_error(idx, id, only) == undeclared_error(idx, id, only.subrange(0, k)),
    decreases only.len() - k,
{
    if k < only.len() {
        assert(only.subrange(0, k + 1).drop_last() =~= only.subrange(0, k));
        lemma_undeclared_error_prefix(idx, id, only, k + 1);
    } else {
        assert(only.subrange(0, k) =~= only);
    }
}

/// Once a prefix of the components holds an error, the index reports that error.
pub proof fn lemma_entries_error_prefix(idx: SpecIndex, comps: Seq<(Seq<char>, SpecComponent)>, k: int)
    requires
        0 <= k <= comps.len(),
        entries_error(idx, comps.subrange(0, k)) is Some,
    ensures
        entries_error(idx, comps) == entries_error(idx, comps.subrange(0, k)),
    decreases comps.len() - k,
{
    if k < comps.len() {
        assert(comps.subrange(0, k + 1).drop_last() =~= comps.subrange(0, k));
        lemma_entries_error_prefix(idx, comps, k + 1);
    } else {
        assert(comps.subrange(0, k) =~= comps);
    }
}

/// Once a prefix of the requested ids holds an error, the whole list reports it.
pub proof fn lemma_requested_error_prefix(idx: SpecIndex, ids: Seq<Seq<char>>, k: int)
    requires
        0 <= k <= ids.len(),
        requested_error(idx, ids.subrange(0, k)) is Some,
    ensures
        requested_error(idx, ids) == requested_error(idx, ids.subrange(0, k)),
    decreases ids.len() - k,
{
    if k < ids.len() {
        assert(ids.subrange(0, k + 1).drop_last() =~= ids.subrange(0, k));
        lemma_requested_error_prefix(idx, ids, k + 1);
    } else {
        assert(ids.subrange(0, k) =~= ids);
    }
}

/// A component matches a search when its id, title, description or a tag
/// contains the lowercased query, compared in lowercase.
pub open spec fn matches_query(c: SpecComponent, needle: Seq<char>) -> bool {
    ||| contains_seq(lowercase(c.name), needle)
    ||| contains_seq(lowercase(c.title), needle)
    ||| contains_seq(lowercase(c.description), needle)
    ||| exists|i: int| 0 <= i < c.tags.len() && contains_seq(lowercase(#[trigger] c.tags[i]), needle)
}

/// The components, in key order, that match `needle`.
pub open spec fn search_results(comps: Seq<(Seq<char>, SpecComponent)>, needle: Seq<char>) -> Seq<SpecComponent>
    decreases comps.len(),
{
    if comps.len() == 0 {
        Seq::empty()
    } else {
        let rest = search_results(comps.drop_last(), needle);
        if matches_query(comps.last().1, needle) {
            rest.push(comps.last().1)
        } else {
            rest
        }
    }
}

/// Whether `text`, lowercased, contains `needle`.
fn lower_contains(text: &str, needle: &[char]) -> (r: bool)
    ensures
        r == contains_seq(lowercase(text@), needle@),
{
    let lower = to_lowercase(text);
    let chars = chars_of(lower.as_str());
    chars_contain(chars.as_slice(), needle)
}

impl RegistryIndex {
    /// Accepts an index only in a format this build understands, whose keys match
    /// their components' names, and whose components are restricted only to
    /// variants the registry declares.
    ///
    /// Lookups go through the key but an installed entry records the name, so an
    /// index where they drift installs components that can never be updated.
    pub fn validated(self) -> (r: Result<RegistryIndex, RegistryError>)
        requires
            self.wf(),
        ensures
            match index_error(self@) {
                None => r matches Ok(idx) && idx == self,
                Some(e) => r matches Err(x) && x@ == e,
            },
    {
        if self.version != SUPPORTED_VERSION {
            return Err(RegistryError::UnsupportedVersion { registry: self.name.clone(), version: self.version });
        }
        let n = self.components.size();
        let mut k: usize = 0;
        while k < n
            invariant
                self.wf(),
                self.version == SUPPORTED_VERSION,
                n == self@.components.len(),
                k <= n,
                entries_error(self@, self@.components.subrange(0, k as int)) is None,
            decreases n - k,
        {
            let id = self.components.key_of(k);
            let component = self.components.value_of(k);
            proof {
                let s = self@.components.subrange(0, k + 1);
                assert(s.drop_last() =~= self@.components.subrange(0, k as int));
                assert(s.last() == self@.components[k as int]);
            }
            if !crate::text::str_eq(component.name.as_str(), id.as_str()) {
                proof {
                    lemma_entries_error_prefix(self@, self@.components, k + 1);
                }
                return Err(RegistryError::NameMismatch {
                    registry: self.name.clone(),
                    id: id.clone(),
                    name: component.name.clone(),
                });
            }
            let mut j: usize = 0;
            while j < component.only_variants.len()
                invariant
                    j <= component.only_variants@.len(),
                    k < n,
                    n == self@.components.len(),
                    component@ == self@.components[k as int].1,
                    entries_error(self@, self@.components.subrange(0, k as int)) is None,
                    component@.name == id@,
                    self.version == SUPPORTED_VERSION,
                    id@ == self@.components[k as int].0,
                    undeclared_error(self@, id@, names_view(component.only_variants@).subrange(0, j as int)) is None,
                decreases component.only_variants@.len() - j,
            {
                let variant = &component.only_variants[j];
                proof {
                    let s = names_view(component.only_variants@).subrange(0, j + 1);
                    assert(s.drop_last() =~= names_view(component.only_variants@).subrange(0, j as int));
                    assert(s.last() == variant@);
                }
                if !contains_name(self.variants.as_slice(), variant.as_str()) {
                    proof {
                        lemma_undeclared_error_prefix(self@, id@, names_view(component.only_variants@), j + 1);
                        assert(names_view(component.only_variants@) == component@.only_variants);
                        let s = self@.components.subrange(0, k + 1);
                        assert(s.drop_last() =~= self@.components.subrange(0, k as int));
                        assert(s.last() == self@.components[k as int]);
                        lemma_entries_error_prefix(self@, self@.components, k + 1);
                    }
                    return Err(RegistryError::UndeclaredVariant {
                        registry: self.name.clone(),
                        id: id.clone(),
                        variant: variant.clone(),
                        available: self.variants.deep_copy(),
                    });
                }
                j += 1;
            }
            assert(names_view(component.only_variants@).subrange(0, j as int) =~= names_view(component.only_variants@));
            assert(entries_error(self@, self@.components.subrange(0, k + 1)) is None);
            k += 1;
        }
        assert(self@.components.subrange(0, n as int) =~= self@.components);
        Ok(self)
    }

    /// Looks up a component, suggesting close matches when the id is unknown.
    pub fn component(&self, id: &str) -> (r: Result<&Component, RegistryError>)
        requires
            self.wf(),
        ensures
            match lookup_component(self@, id@) {
                Ok(c) => r matches Ok(x) && x@ == c && x.wf(),
                Err(e) => r matches Err(x) && x@ == e,
            },
    {
        if let Some(component) = self.components.find(id) {
            return Ok(component);
        }
        let n = self.components.size();
        let mut suggestions: Vec<String> = Vec::new();
        let mut k: usize = 0;
        while k < n
            invariant
                self.wf(),
                n == self@.components.len(),
                k <= n,
                names_view(suggestions@) == first_n(near_names(entry_keys(self@.components).subrange(0, k as int), id@), 3),
            decreases n - k,
        {
            let key = self.components.key_of(k);
            let ghost before = suggestions@;
            let ghost prefix = entry_keys(self@.components).subrange(0, k as int);
            proof {
                let s = entry_keys(self@.components).subrange(0, k + 1);
                assert(s.drop_last() =~= prefix);
                assert(s.last() == key@);
            }
            if suggestions.len() < 3 && is_near(key.as_str(), id) {
                suggestions.push(key.clone());
                assert(names_view(suggestions@) =~= names_view(before).push(key@));
            } else if suggestions.len() >= 3 {
                assert(first_n(near_names(prefix, id@), 3).len() == 3);
            }
            k += 1;
        }
        assert(entry_keys(self@.components).subrange(0, n as int) =~= entry_keys(self@.components));
        Err(RegistryError::UnknownComponent { registry: self.name.clone(), id: crate::text::owned(id), suggestions })
    }

    /// Checks the selected variants against what the registry declares.
    pub fn check_variants(&self, variants: &[String]) -> (r: Result<(), RegistryError>)
        ensures
            match variants_error(self@, names_view(variants@)) {
                None => r is Ok,
                Some(e) => r matches Err(x) && x@ == e,
            },
    {
        let mut i: usize = 0;
        while i < variants.len()
            invariant
                i <= variants@.len(),
                variants_error(self@, names_view(variants@.subrange(0, i as int))) is None,
            decreases variants@.len() - i,
        {
            proof {
                let s = names_view(variants@.subrange(0, i + 1));
                assert(s.drop_last() =~= names_view(variants@.subrange(0, i as int)));
                assert(s.last() == variants@[i as int]@);
            }
            if !contains_name(self.variants.as_slice(), variants[i].as_str()) {
                proof {
                    lemma_variants_error_prefix(self@, names_view(variants@), i + 1);
                    assert(names_view(variants@.subrange(0, i + 1)) =~= names_view(variants@).subrange(0, i + 1));
                }
                return Err(RegistryError::UnknownVariant {
                    registry: self.name.clone(),
                    variant: variants[i].clone(),
                    available: self.variants.deep_copy(),
                });
            }
            i += 1;
        }
        assert(variants@.subrange(0, variants@.len() as int) =~= variants@);
        Ok(())
    }

    /// Whether some component publishes the group `group`.
    fn group_known(&self, group: &str) -> (r: bool)
        requires
            self.wf(),
        ensures
            r == group_known(self@, group@),
    {
        let n = self.components.size();
        let mut k: usize = 0;
        while k < n
            invariant
                self.wf(),
                n == self@.components.len(),
                k <= n,
                forall|m: int| 0 <= m < k ==> !entry_keys((#[trigger] self@.components[m]).1.optional).contains(group@),
            decreases n - k,
        {
            let component = self.components.value_of(k);
            assert(component.wf());
            if component.optional.has(group) {
                assert(entry_keys(self@.components[k as int].1.optional).contains(group@));
                return true;
            }
            k += 1;
        }
        false
    }

    /// Every optional group name some component publishes, each once, ascending.
    fn available_groups(&self) -> (r: Vec<String>)
        requires
            self.wf(),
        ensures
            names_view(r@) == sorted_set(all_group_names(self@.components)),
    {
        let n = self.components.size();
        let mut all: Vec<String> = Vec::new();
        let mut k: usize = 0;
        while k < n
            invariant
                self.wf(),
                n == self@.components.len(),
                k <= n,
                names_view(all@) == all_group_names(self@.components.subrange(0, k as int)),
            decreases n - k,
        {
            let component = self.components.value_of(k);
            assert(component.wf());
            let m = component.optional.size();
            let mut j: usize = 0;
            let ghost start = all@;
            while j < m
                invariant
                    component.wf(),
                    m == component@.optional.len(),
                    j <= m,
                    names_view(all@) == names_view(start) + entry_keys(component@.optional).subrange(0, j as int),
                decreases m - j,
            {
                let ghost before = all@;
                all.push(component.optional.key_of(j).clone());
                assert(names_view(all@) =~= names_view(before).push(component@.optional[j as int].0));
                assert(entry_keys(component@.optional).subrange(0, j + 1) =~= entry_keys(component@.optional).subrange(0, j as int).push(component@.optional[j as int].0));
                j += 1;
            }
            proof {
                assert(entry_keys(component@.optional).subrange(0, m as int) =~= entry_keys(component@.optional));
                let s = self@.components.subrange(0, k + 1);
                assert(s.drop_last() =~= self@.components.subrange(0, k as int));
                assert(s.last() == self@.components[k as int]);
            }
            k += 1;
        }
        assert(self@.components.subrange(0, n as int) =~= self@.components);
        let r = sorted_unique(&all);
        proof {
            lemma_sorted_set(names_view(r@), names_view(all@));
        }
        r
    }

    /// Checks requested optional groups against what the components publish.
    ///
    /// An index-level `install.optional` is a generator-side default: only groups a
    /// component materialised into its own `optional` map can be copied, so only
    /// those are accepted here.
    pub fn check_optional(&self, groups: &[String]) -> (r: Result<(), RegistryError>)
        requires
            self.wf(),
        ensures
            match groups_error(self@, names_view(groups@)) {
                None => r is Ok,
                Some(e) => r matches Err(x) && x@ == e,
            },
    {
        let mut i: usize = 0;
        while i < groups.len()
            invariant
                self.wf(),
                i <= groups@.len(),
                groups_error(self@, names_view(groups@.subrange(0, i as int))) is None,
            decreases groups@.len() - i,
        {
            proof {
                let s = names_view(groups@.subrange(0, i + 1));
                assert(s.drop_last() =~= names_view(groups@.subrange(0, i as int)));
                assert(s.last() == groups@[i as int]@);
            }
            if !self.group_known(groups[i].as_str()) {
                proof {
                    lemma_groups_error_prefix(self@, names_view(groups@), i + 1);
                    assert(names_view(groups@.subrange(0, i + 1)) =~= names_view(groups@).subrange(0, i + 1));
                }
                return Err(RegistryError::UnknownGroup {
                    registry: self.name.clone(),
                    group: groups[i].clone(),
                    available: self.available_groups(),
                });
            }
            i += 1;
        }
        assert(groups@.subrange(0, groups@.len() as int) =~= groups@);
        Ok(())
    }

    /// Components whose id, title, description or tags match `query`,
    /// ignoring case, in key order.
    pub fn search(&self, query: &str) -> (r: Vec<&Component>)
        requires
            self.wf(),
        ensures
            r@.map_values(|c: &Component| c@) == search_results(self@.components, lowercase(query@)),
    {
        let needle_string = to_lowercase(query);
        let needle = chars_of(needle_string.as_str());
        let n = self.components.size();
        let mut out: Vec<&Component> = Vec::new();
        let mut k: usize = 0;
        while k < n
            invariant
                self.wf(),
                n == self@.components.len(),
                k <= n,
                needle@ == lowercase(query@),
                out@.map_values(|c: &Component| c@) == search_results(self@.components.subrange(0, k as int), needle@),
            decreases n - k,
        {
            let component = self.components.value_of(k);
            let mut matched = lower_contains(component.name.as_str(), needle.as_slice())
                || lower_contains(component.title.as_str(), needle.as_slice())
                || lower_contains(component.description.as_str(), needle.as_slice());
            let mut t: usize = 0;
            while !matched && t < component.tags.len()
                invariant
                    t <= component.tags@.len(),
                    k < self@.components.len(),
                    component@ == self@.components[k as int].1,
                    !matched ==> forall|m: int| 0 <= m < t ==> !contains_seq(lowercase(#[trigger] component@.tags[m]), needle@),
                    matched ==> matches_query(component@, needle@),
                    !matched ==> !contains_seq(lowercase(component@.name), needle@)
                        && !contains_seq(lowercase(component@.title), needle@)
                        && !contains_seq(lowercase(component@.description), needle@),
                decreases component.tags@.len() - t,
            {
                if lower_contains(component.tags[t].as_str(), needle.as_slice()) {
                    assert(component@.tags[t as int] == component.tags@[t as int]@);
                    matched = true;
                }
                t += 1;
            }
            let ghost before = out@;
            proof {
                let s = self@.components.subrange(0, k + 1);
                assert(s.drop_last() =~= self@.components.subrange(0, k as int));
                assert(s.last() == self@.components[k as int]);
                if !matched {
                    assert forall|m: int| 0 <= m < component@.tags.len() implies !contains_seq(lowercase(#[trigger] component@.tags[m]), needle@) by {
                    }
                }
            }
            if matched {
                out.push(component);
                assert(out@.map_values(|c: &Component| c@) =~= before.map_values(|c: &Component| c@).push(component@));
                assert(matches_query(self@.components.subrange(0, k + 1).last().1, needle@));
            } else {
                assert(!matches_query(component@, needle@));
            }
            k += 1;
        }
        assert(self@.components.subrange(0, n as int) =~= self@.components);
        out
    }
}

/// One component in an install plan, with variants already applied.
#[derive(Debug)]
pub struct PlannedComponent {
    pub component: Component,
    /// Files to copy, variant filtering and requested optional groups applied.
    pub files: Vec<String>,
    /// True when the user asked for this component rather than it being pulled in.
    pub requested: bool,
}

pub struct SpecPlanned {
    pub component: SpecComponent,
    pub files: Seq<Seq<char>>,
    pub requested: bool,
}

impl View for PlannedComponent {
    type V = SpecPlanned;

    open spec fn view(&self) -> SpecPlanned {
        SpecPlanned { component: self.component@, files: names_view(self.files@), requested: self.requested }
    }
}

/// Whether an install plan follows each component's requirements.
#[derive(Debug, Clone, Copy, PartialEq, Eq, Structural)]
pub enum Deps {
    Resolve,
    /// Install only what was named.
    Skip,
}

/// What an install will do, in dependency order.
#[derive(Debug)]
pub struct InstallPlan {
    /// Components to install, dependencies before dependents.
    pub components: Vec<PlannedComponent>,
    /// Merged, de-duplicated packages across every component.
    pub packages: Vec<String>,
}

pub struct SpecPlan {
    pub components: Seq<SpecPlanned>,
    pub packages: Seq<Seq<char>>,
}

impl View for InstallPlan {
    type V = SpecPlan;

    open spec fn view(&self) -> SpecPlan {
        SpecPlan {
            components: self.components@.map_values(|p: PlannedComponent| p@),
            packages: names_view(self.packages@),
        }
    }
}

/// What stays fixed while a plan is resolved.
pub struct PlanCtx {
    pub idx: SpecIndex,
    pub variants: Seq<Seq<char>>,
    pub optional: Seq<Seq<char>>,
    pub installed: Seq<Seq<char>>,
    pub wanted: Seq<Seq<char>>,
    pub resolve: bool,
}

/// What resolution has produced so far: the ids finished, and the plan.
pub struct PlanState {
    pub done: Seq<Seq<char>>,
    pub planned: Seq<SpecPlanned>,
}

/// The files a planned component copies: its variant-filtered files, then the
/// files of the selected groups, each once, ascending.
pub open spec fn planned_files(c: SpecComponent, vs: Seq<Seq<char>>, gs: Seq<Seq<char>>) -> Seq<Seq<char>> {
    files_for(c, vs) + sorted_set(group_files(c, gs))
}

/// The components required once `id` is placed: its own requirements, then what
/// its selected groups pull in.
pub open spec fn after_requirements(
    ctx: PlanCtx,
    vis: Seq<Seq<char>>,
    st: PlanState,
    id: Seq<char>,
    c: SpecComponent,
) -> Result<PlanState, SpecRegistryError>
    decreases ctx.idx.components.len() - vis.len(), 1nat, 0nat,
{
    if ctx.resolve && vis.len() < ctx.idx.components.len() {
        match visit_all(ctx, vis.push(id), st, c.requirements) {
            Ok(s1) => visit_all(ctx, vis.push(id), s1, optional_requirements(c, ctx.optional)),
            Err(e) => Err(e),
        }
    } else {
        Ok(st)
    }
}

/// Visits `id` depth first: with `vis` the chain of components being resolved,
/// places its dependencies, then the component itself.
pub open spec fn visit(ctx: PlanCtx, vis: Seq<Seq<char>>, st: PlanState, id: Seq<char>) -> Result<PlanState, SpecRegistryError>
    decreases ctx.idx.components.len() - vis.len(), 2nat, 0nat,
{
    if st.done.contains(id) {
        Ok(st)
    } else if vis.contains(id) {
        Err(SpecRegistryError::Cycle {
            registry: ctx.idx.name,
            path: vis.subrange(first_position(vis, id), vis.len() as int).push(id),
        })
    } else {
        match entry_get(ctx.idx.components, id) {
            None => Err(unknown_component(ctx.idx, id)),
            Some(c) => match after_requirements(ctx, vis, st, id, c) {
                Err(e) => Err(e),
                Ok(s2) => {
                    let done = s2.done.push(id);
                    let requested = ctx.wanted.contains(id);
                    if ctx.installed.contains(id) && !requested {
                        Ok(PlanState { done, planned: s2.planned })
                    } else if !supports(c, ctx.variants) {
                        Err(SpecRegistryError::VariantRequired {
                            registry: ctx.idx.name,
                            id,
                            required_by: if vis.len() > 0 {
                                Some(vis.last())
                            } else {
                                None
                            },
                            only_variants: c.only_variants,
                            selected: ctx.variants,
                        })
                    } else {
                        Ok(PlanState {
                            done,
                            planned: s2.planned.push(SpecPlanned {
                                component: c,
                                files: planned_files(c, ctx.variants, ctx.optional),
                                requested,
                            }),
                        })
                    }
                },
            },
        }
    }
}

/// Visits each of `ids` in turn, stopping at the first error.
pub open spec fn visit_all(ctx: PlanCtx, vis: Seq<Seq<char>>, st: PlanState, ids: Seq<Seq<char>>) -> Result<PlanState, SpecRegistryError>
    decreases ctx.idx.components.len() - vis.len(), 3nat, ids.len(),
{
    if ids.len() == 0 {
        Ok(st)
    } else {
        match visit(ctx, vis, st, ids[0]) {
            Ok(s) => visit_all(ctx, vis, s, ids.subrange(1, ids.len() as int)),
            Err(e) => Err(e),
        }
    }
}

/// Every package the planned components need, component by component.
pub open spec fn plan_packages(planned: Seq<SpecPlanned>, vs: Seq<Seq<char>>, gs: Seq<Seq<char>>) -> Seq<Seq<char>>
    decreases planned.len(),
{
    if planned.len() == 0 {
        Seq::empty()
    } else {
        plan_packages(planned.drop_last(), vs, gs) + packages_for(planned.last().component, vs, gs)
    }
}

/// The install plan for `requested`, or the first error found on the way:
/// variants, groups and requested ids are checked first, then each requested
/// component is visited depth first, so dependencies come before dependents.
pub open spec fn plan_for(
    idx: SpecIndex,
    requested: Seq<Seq<char>>,
    vs: Seq<Seq<char>>,
    gs: Seq<Seq<char>>,
    installed: Seq<Seq<char>>,
    resolve: bool,
) -> Result<SpecPlan, SpecRegistryError> {
    match variants_error(idx, vs) {
        Some(e) => Err(e),
        None => match groups_error(idx, gs) {
            Some(e) => Err(e),
            None => match requested_error(idx, requested) {
                Some(e) => Err(e),
                None => {
                    let ctx = PlanCtx { idx, variants: vs, optional: gs, installed, wanted: requested, resolve };
                    match visit_all(ctx, Seq::empty(), PlanState { done: Seq::empty(), planned: Seq::empty() }, requested) {
                        Ok(st) => Ok(SpecPlan { components: st.planned, packages: dedup(plan_packages(st.planned, vs, gs)) }),
                        Err(e) => Err(e),
                    }
                },
            },
        },
    }
}

/// Traversal state for one [`RegistryIndex::plan`] call.
struct Resolver<'a> {
    index: &'a RegistryIndex,
    variants: &'a [String],
    optional: &'a [String],
    installed: &'a [String],
    wanted: &'a [String],
    deps: Deps,
    done: Vec<String>,
    visiting: Vec<String>,
    planned: Vec<PlannedComponent>,
}

impl<'a> Resolver<'a> {
    spec fn ctx(&self) -> PlanCtx {
        PlanCtx {
            idx: self.index@,
            variants: names_view(self.variants@),
            optional: names_view(self.optional@),
            installed: names_view(self.installed@),
            wanted: names_view(self.wanted@),
            resolve: self.deps == Deps::Resolve,
        }
    }

    spec fn state(&self) -> PlanState {
        PlanState {
            done: names_view(self.done@),
            planned: self.planned@.map_values(|p: PlannedComponent| p@),
        }
    }

    spec fn inv(&self) -> bool {
        &&& self.index.wf()
        &&& names_view(self.visiting@).no_duplicates()
        &&& forall|x: Seq<char>| names_view(self.visiting@).contains(x) ==> entry_keys(self.index@.components).contains(x)
        &&& forall|i: int| 0 <= i < self.planned@.len() ==> (#[trigger] self.planned@[i]).component.wf()
    }

    fn visit(&mut self, id: &str) -> (r: Result<(), RegistryError>)
        requires
            old(self).inv(),
        ensures
            final(self).index == old(self).index,
            final(self).variants == old(self).variants,
            final(self).optional == old(self).optional,
            final(self).installed == old(self).installed,
            final(self).wanted == old(self).wanted,
            final(self).deps == old(self).deps,
            r is Ok ==> final(self).inv() && names_view(final(self).visiting@) == names_view(old(self).visiting@),
            match visit(old(self).ctx(), names_view(old(self).visiting@), old(self).state(), id@) {
                Ok(st) => r is Ok && final(self).state() == st,
                Err(e) => r matches Err(x) && x@ == e,
            },
            (!old(self).state().done.contains(id@) && names_view(old(self).visiting@).contains(id@)) ==> (
            final(self).state() == old(self).state() && final(self).visiting@ == old(self).visiting@),
        decreases old(self).index@.components.len() - old(self).visiting@.len(),
    {
        let ghost ctx = self.ctx();
        let ghost vis0 = names_view(self.visiting@);
        let ghost st0 = self.state();
        let index: &'a RegistryIndex = self.index;
        if contains_name(self.done.as_slice(), id) {
            return Ok(());
        }
        if let Some(start) = find_name(self.visiting.as_slice(), id) {
            let mut path: Vec<String> = Vec::new();
            let mut k = start;
            while k < self.visiting.len()
                invariant
                    start <= k <= self.visiting@.len(),
                    names_view(path@) == names_view(self.visiting@).subrange(start as int, k as int),
                decreases self.visiting@.len() - k,
            {
                let ghost before = path@;
                path.push(self.visiting[k].clone());
                assert(names_view(path@) =~= names_view(before).push(self.visiting@[k as int]@));
                assert(names_view(self.visiting@).subrange(start as int, k + 1) =~= names_view(self.visiting@).subrange(start as int, k as int).push(self.visiting@[k as int]@));
                k += 1;
            }
            let ghost before = path@;
            path.push(crate::text::owned(id));
            assert(names_view(path@) =~= names_view(before).push(id@));
            return Err(RegistryError::Cycle { registry: index.name.clone(), path });
        }
        let component: &'a Component = match index.component(id) {
            Ok(c) => c,
            Err(e) => return Err(e),
        };
        let ghost c = component@;
        assert(entry_get(ctx.idx.components, id@) == Some(c));
        if self.deps == Deps::Resolve {
            proof {
                let vis1 = vis0.push(id@);
                assert(entry_keys(ctx.idx.components).contains(id@));
                assert(vis1.no_duplicates());
                assert forall|x: Seq<char>| vis1.contains(x) implies entry_keys(ctx.idx.components).contains(x) by {
                    if x != id@ {
                        let k = choose|k: int| 0 <= k < vis1.len() && vis1[k] == x;
                        assert(vis0[k] == x);
                        assert(vis0.contains(x));
                    }
                }
                lemma_distinct_subset_len(vis1, entry_keys(ctx.idx.components));
            }
            let ghost before = self.visiting@;
            self.visiting.push(crate::text::owned(id));
            assert(names_view(self.visiting@) =~= vis0.push(id@));
            let ghost vis1 = vis0.push(id@);
            assert(c.requirements.subrange(0, c.requirements.len() as int) =~= c.requirements);
            assert(self.state() == st0);
            let mut i: usize = 0;
            while i < component.requirements.len()
                invariant
                    self.inv(),
                    self.index == index,
                    index == old(self).index,
                    self.variants == old(self).variants,
                    self.optional == old(self).optional,
                    self.installed == old(self).installed,
                    self.wanted == old(self).wanted,
                    self.deps == old(self).deps,
                    self.ctx() == ctx,
                    names_view(self.visiting@) == vis1,
                    self.visiting@.len() == old(self).visiting@.len() + 1,
                    self.visiting@.len() <= index@.components.len(),
                    !st0.done.contains(id@),
                    !vis0.contains(id@),
                    entry_get(ctx.idx.components, id@) == Some(c),
                    ctx.resolve,
                    vis0.len() < ctx.idx.components.len(),
                    ctx == old(self).ctx(),
                    st0 == old(self).state(),
                    vis0 == names_view(old(self).visiting@),
                    vis1 == vis0.push(id@),
                    component@ == c,
                    component.wf(),
                    i <= component.requirements@.len(),
                    visit_all(ctx, vis1, self.state(), c.requirements.subrange(i as int, c.requirements.len() as int))
                        == visit_all(ctx, vis1, st0, c.requirements),
                decreases component.requirements@.len() - i,
            {
                let ghost sti = self.state();
                let ghost rest = c.requirements.subrange(i as int, c.requirements.len() as int);
                assert(rest[0] == component.requirements@[i as int]@);
                assert(rest.subrange(1, rest.len() as int) =~= c.requirements.subrange(i + 1, c.requirements.len() as int));
                match self.visit(component.requirements[i].as_str()) {
                    Ok(()) => {},
                    Err(e) => {
                        return Err(e);
                    },
                }
                i += 1;
            }
            assert(c.requirements.subrange(i as int, c.requirements.len() as int) =~= Seq::<Seq<char>>::empty());
            let ghost st1 = self.state();
            let extra = component.optional_requires(self.optional);
            assert(names_view(extra@).subrange(0, extra@.len() as int) =~= names_view(extra@));
            let mut j: usize = 0;
            while j < extra.len()
                invariant
                    self.inv(),
                    self.index == index,
                    index == old(self).index,
                    self.variants == old(self).variants,
                    self.optional == old(self).optional,
                    self.installed == old(self).installed,
                    self.wanted == old(self).wanted,
                    self.deps == old(self).deps,
                    self.ctx() == ctx,
                    names_view(self.visiting@) == vis1,
                    self.visiting@.len() == old(self).visiting@.len() + 1,
                    self.visiting@.len() <= index@.components.len(),
                    !st0.done.contains(id@),
                    !vis0.contains(id@),
                    entry_get(ctx.idx.components, id@) == Some(c),
                    ctx.resolve,
                    vis0.len() < ctx.idx.components.len(),
                    ctx == old(self).ctx(),
                    st0 == old(self).state(),
                    vis0 == names_view(old(self).visiting@),
                    vis1 == vis0.push(id@),
                    component@ == c,
                    component.wf(),
                    names_view(extra@) == optional_requirements(c, ctx.optional),
                    visit_all(ctx, vis1, st0, c.requirements) == Ok::<PlanState, SpecRegistryError>(st1),
                    j <= extra@.len(),
                    visit_all(ctx, vis1, self.state(), names_view(extra@).subrange(j as int, extra@.len() as int))
                        == visit_all(ctx, vis1, st1, names_view(extra@)),
                decreases extra@.len() - j,
            {
                let ghost rest = names_view(extra@).subrange(j as int, extra@.len() as int);
                assert(rest[0] == extra@[j as int]@);
                assert(rest.subrange(1, rest.len() as int) =~= names_view(extra@).subrange(j + 1, extra@.len() as int));
                match self.visit(extra[j].as_str()) {
                    Ok(()) => {},
                    Err(e) => {
                        return Err(e);
                    },
                }
                j += 1;
            }
            assert(names_view(extra@).subrange(j as int, extra@.len() as int) =~= Seq::<Seq<char>>::empty());
            assert(names_view(extra@).subrange(0, extra@.len() as int) =~= names_view(extra@));
            assert(c.requirements.subrange(0, c.requirements.len() as int) =~= c.requirements);
            let ghost vbefore = self.visiting@;
            self.visiting.pop();
            assert(self.visiting@ == vbefore.drop_last());
            assert(names_view(vbefore.drop_last()) =~= names_view(vbefore).drop_last());
            assert(names_view(self.visiting@) =~= vis0);
        }
        let ghost s2 = self.state();
        assert(after_requirements(ctx, vis0, st0, id@, c) == Ok::<PlanState, SpecRegistryError>(s2));
        let ghost done_before = self.done@;
        self.done.push(crate::text::owned(id));
        assert(names_view(self.done@) =~= names_view(done_before).push(id@));
        let requested = contains_name(self.wanted, id);
        if contains_name(self.installed, id) && !requested {
            return Ok(());
        }
        if !component.supports(self.variants) {
            let required_by = if self.visiting.len() > 0 {
                Some(self.visiting[self.visiting.len() - 1].clone())
            } else {
                None
            };
            return Err(RegistryError::VariantRequired {
                registry: index.name.clone(),
                id: crate::text::owned(id),
                required_by,
                only_variants: component.only_variants.deep_copy(),
                selected: copy_names(self.variants),
            });
        }
        let mut files = component.files_for(self.variants);
        let extra_files = component.optional_files(self.optional);
        proof {
            lemma_sorted_set(names_view(extra_files@), group_files(c, ctx.optional));
        }
        extend_names(&mut files, extra_files.as_slice());
        let ghost planned_before = self.planned@;
        self.planned.push(PlannedComponent { component: component.duplicate(), files, requested });
        assert(self.planned@.map_values(|p: PlannedComponent| p@) =~= planned_before.map_values(|p: PlannedComponent| p@).push(self.planned@[planned_before.len() as int]@));
        Ok(())
    }
}

impl RegistryIndex {
    /// Builds an install plan for `requested`.
    ///
    /// Dependencies come before the components that need them, so a component can
    /// use one that is already on disk. Components in `installed` are skipped
    /// unless requested directly. `deps` decides whether requirements are
    /// followed; validation and de-duplication apply either way.
    pub fn plan(
        &self,
        requested: &[String],
        variants: &[String],
        optional: &[String],
        installed: &[String],
        deps: Deps,
    ) -> (r: Result<InstallPlan, RegistryError>)
        requires
            self.wf(),
        ensures
            match plan_for(
                self@,
                names_view(requested@),
                names_view(variants@),
                names_view(optional@),
                names_view(installed@),
                deps == Deps::Resolve,
            ) {
                Ok(p) => r matches Ok(x) && x@ == p,
                Err(e) => r matches Err(x) && x@ == e,
            },
    {
        if let Err(e) = self.check_variants(variants) {
            return Err(e);
        }
        if let Err(e) = self.check_optional(optional) {
            return Err(e);
        }
        let ghost ids = names_view(requested@);
        let mut i: usize = 0;
        while i < requested.len()
            invariant
                self.wf(),
                i <= requested@.len(),
                ids == names_view(requested@),
                requested_error(self@, ids.subrange(0, i as int)) is None,
                variants_error(self@, names_view(variants@)) is None,
                groups_error(self@, names_view(optional@)) is None,
            decreases requested@.len() - i,
        {
            proof {
                let s = ids.subrange(0, i + 1);
                assert(s.drop_last() =~= ids.subrange(0, i as int));
                assert(s.last() == requested@[i as int]@);
            }
            if let Err(e) = self.component(requested[i].as_str()) {
                proof {
                    lemma_requested_error_prefix(self@, ids, i + 1);
                }
                return Err(e);
            }
            i += 1;
        }
        assert(ids.subrange(0, requested@.len() as int) =~= ids);
        let mut resolver = Resolver {
            index: self,
            variants,
            optional,
            installed,
            wanted: requested,
            deps,
            done: Vec::new(),
            visiting: Vec::new(),
            planned: Vec::new(),
        };
        let ghost ctx = resolver.ctx();
        let ghost st0 = resolver.state();
        assert(names_view(resolver.visiting@) =~= Seq::<Seq<char>>::empty());
        assert(st0 == PlanState { done: Seq::empty(), planned: Seq::empty() }) by {
            assert(names_view(resolver.done@) =~= Seq::<Seq<char>>::empty());
            assert(resolver.planned@.map_values(|p: PlannedComponent| p@) =~= Seq::<SpecPlanned>::empty());
        }
        let mut k: usize = 0;
        while k < requested.len()
            invariant
                resolver.inv(),
                resolver.index == self,
                resolver.variants == variants,
                resolver.optional == optional,
                resolver.installed == installed,
                resolver.wanted == requested,
                resolver.deps == deps,
                resolver.ctx() == ctx,
                names_view(resolver.visiting@) == Seq::<Seq<char>>::empty(),
                k <= requested@.len(),
                ids == names_view(requested@),
                variants_error(self@, names_view(variants@)) is None,
                groups_error(self@, names_view(optional@)) is None,
                requested_error(self@, ids) is None,
                st0 == (PlanState { done: Seq::empty(), planned: Seq::empty() }),
                visit_all(ctx, Seq::empty(), resolver.state(), ids.subrange(k as int, ids.len() as int))
                    == visit_all(ctx, Seq::empty(), st0, ids),
            decreases requested@.len() - k,
        {
            let ghost rest = ids.subrange(k as int, ids.len() as int);
            assert(rest[0] == requested@[k as int]@);
            assert(rest.subrange(1, rest.len() as int) =~= ids.subrange(k + 1, ids.len() as int));
            match resolver.visit(requested[k].as_str()) {
                Ok(()) => {},
                Err(e) => {
                    return Err(e);
                },
            }
            k += 1;
        }
        assert(ids.subrange(k as int, ids.len() as int) =~= Seq::<Seq<char>>::empty());
        let planned = resolver.planned;
        let ghost pv = planned@.map_values(|p: PlannedComponent| p@);
        let mut packages: Vec<String> = Vec::new();
        let mut m: usize = 0;
        while m < planned.len()
            invariant
                m <= planned@.len(),
                pv == planned@.map_values(|p: PlannedComponent| p@),
                forall|x: int| 0 <= x < planned@.len() ==> (#[trigger] planned@[x]).component.wf(),
                names_view(packages@) == dedup(plan_packages(pv.subrange(0, m as int), names_view(variants@), names_view(optional@))),
            decreases planned@.len() - m,
        {
            let needed = planned[m].component.packages_for(variants, optional);
            let ghost base = plan_packages(pv.subrange(0, m as int), names_view(variants@), names_view(optional@));
            assert(base + names_view(needed@).subrange(0, 0) =~= base);
            let mut j: usize = 0;
            while j < needed.len()
                invariant
                    j <= needed@.len(),
                    names_view(packages@) == dedup(base + names_view(needed@).subrange(0, j as int)),
                decreases needed@.len() - j,
            {
                push_unique(&mut packages, &needed[j]);
                proof {
                    let s = base + names_view(needed@).subrange(0, j + 1);
                    assert(s.drop_last() =~= base + names_view(needed@).subrange(0, j as int));
                    assert(s.last() == needed@[j as int]@);
                }
                j += 1;
            }
            proof {
                assert(names_view(needed@).subrange(0, needed@.len() as int) =~= names_view(needed@));
                let s = pv.subrange(0, m + 1);
                assert(s.drop_last() =~= pv.subrange(0, m as int));
                assert(s.last() == planned@[m as int]@);
            }
            m += 1;
        }
        assert(pv.subrange(0, planned@.len() as int) =~= pv);
        Ok(InstallPlan { components: planned, packages })
    }
}

} // verus!
