//! The package managers copit hands a component's package dependencies to.
//!
//! The set is fixed: a registry index is downloaded, so letting it name a
//! command to run would hand its author a shell on the user's machine. Each
//! manager is recognised by files in the project (a lockfile or manifest) or
//! by a table in `pyproject.toml`, and they are tried in a fixed order, so
//! that lockfile managers win over a stray `requirements.txt`.

use vstd::prelude::*;

use crate::names::{contains_name, copy_names, names_view};
use crate::text::{chars_contain, chars_of, contains_seq, owned, str_eq};

verus! {

/// A package manager copit can add dependencies with.
#[derive(Debug)]
pub struct PackageInstaller {
    /// Identifier used in `copit.toml` and on the command line.
    pub name: String,
    /// Ecosystem this manager belongs to, matching a registry's `ecosystem`.
    pub ecosystem: String,
    /// Subcommand that adds dependencies, e.g. `add` or `install`.
    pub subcommand: String,
    /// Files whose presence in the project identifies this manager.
    pub lockfiles: Vec<String>,
    /// `pyproject.toml` table that identifies this manager, e.g. `[tool.uv`.
    pub pyproject_table: Option<String>,
}

pub struct SpecInstaller {
    pub name: Seq<char>,
    pub ecosystem: Seq<char>,
    pub subcommand: Seq<char>,
    pub lockfiles: Seq<Seq<char>>,
    pub pyproject_table: Option<Seq<char>>,
}

impl View for PackageInstaller {
    type V = SpecInstaller;

    open spec fn view(&self) -> SpecInstaller {
        SpecInstaller {
            name: self.name@,
            ecosystem: self.ecosystem@,
            subcommand: self.subcommand@,
            lockfiles: names_view(self.lockfiles@),
            pyproject_table: crate::text::opt_chars(self.pyproject_table),
        }
    }
}

/// One row of the table.
pub open spec fn row(
    name: Seq<char>,
    ecosystem: Seq<char>,
    subcommand: Seq<char>,
    lockfiles: Seq<Seq<char>>,
    pyproject_table: Option<Seq<char>>,
) -> SpecInstaller {
    SpecInstaller { name, ecosystem, subcommand, lockfiles, pyproject_table }
}

/// Every known manager, in detection order.
pub open spec fn installer_table() -> Seq<SpecInstaller> {
    seq![
        row("uv"@, "python"@, "add"@, seq!["uv.lock"@], Some("[tool.uv"@)),
        row("poetry"@, "python"@, "add"@, seq!["poetry.lock"@], Some("[tool.poetry"@)),
        row("pdm"@, "python"@, "add"@, seq!["pdm.lock"@], Some("[tool.pdm"@)),
        row("pip"@, "python"@, "install"@, seq!["requirements.txt"@, "requirements/base.txt"@], None),
        row("pnpm"@, "node"@, "add"@, seq!["pnpm-lock.yaml"@], None),
        row("yarn"@, "node"@, "add"@, seq!["yarn.lock"@], None),
        row("npm"@, "node"@, "install"@, seq!["package-lock.json"@], None),
        row("cargo"@, "rust"@, "add"@, seq!["Cargo.toml"@], None),
    ]
}

/// The views of a list of installers.
pub open spec fn installers_view(v: Seq<PackageInstaller>) -> Seq<SpecInstaller> {
    v.map_values(|i: PackageInstaller| i@)
}

fn make(
    name: &str,
    ecosystem: &str,
    subcommand: &str,
    lockfiles: Vec<String>,
    pyproject_table: Option<&str>,
) -> (r: PackageInstaller)
    ensures
        r@ == row(name@, ecosystem@, subcommand@, names_view(lockfiles@), crate::paths::opt_str(pyproject_table)),
{
    PackageInstaller {
        name: owned(name),
        ecosystem: owned(ecosystem),
        subcommand: owned(subcommand),
        lockfiles,
        pyproject_table: crate::text::owned_opt(pyproject_table),
    }
}

fn one(s: &str) -> (r: Vec<String>)
    ensures
        names_view(r@) == seq![s@],
{
    let mut r: Vec<String> = Vec::new();
    r.push(owned(s));
    assert(names_view(r@) =~= seq![s@]);
    r
}

/// Every known manager, in detection order.
pub fn installers() -> (r: Vec<PackageInstaller>)
    ensures
        installers_view(r@) == installer_table(),
{
    let mut r: Vec<PackageInstaller> = Vec::new();
    r.push(make("uv", "python", "add", one("uv.lock"), Some("[tool.uv")));
    r.push(make("poetry", "python", "add", one("poetry.lock"), Some("[tool.poetry")));
    r.push(make("pdm", "python", "add", one("pdm.lock"), Some("[tool.pdm")));
    let mut pip = one("requirements.txt");
    let ghost before = pip@;
    pip.push(owned("requirements/base.txt"));
    assert(names_view(pip@) =~= names_view(before).push("requirements/base.txt"@));
    assert(names_view(pip@) =~= seq!["requirements.txt"@, "requirements/base.txt"@]);
    r.push(make("pip", "python", "install", pip, None));
    r.push(make("pnpm", "node", "add", one("pnpm-lock.yaml"), None));
    r.push(make("yarn", "node", "add", one("yarn.lock"), None));
    r.push(make("npm", "node", "install", one("package-lock.json"), None));
    r.push(make("cargo", "rust", "add", one("Cargo.toml"), None));
    assert(installers_view(r@) =~= installer_table());
    r
}

/// Whether a manager's files are among `present`, or its table is in the
/// project's `pyproject.toml` (when there is one to read).
pub open spec fn detected_by(i: SpecInstaller, present: Seq<Seq<char>>, pyproject: Option<Seq<char>>) -> bool {
    ||| exists|k: int| 0 <= k < i.lockfiles.len() && present.contains(#[trigger] i.lockfiles[k])
    ||| match (i.pyproject_table, pyproject) {
        (Some(t), Some(p)) => contains_seq(p, t),
        _ => false,
    }
}

/// Whether a manager is restricted away by the wanted ecosystem.
pub open spec fn in_ecosystem(i: SpecInstaller, ecosystem: Option<Seq<char>>) -> bool {
    match ecosystem {
        Some(e) => i.ecosystem == e,
        None => true,
    }
}

/// The first row of `t` meeting `p`, if any.
pub open spec fn first_meeting(t: Seq<SpecInstaller>, p: spec_fn(SpecInstaller) -> bool) -> Option<SpecInstaller> {
    if exists|k: int| 0 <= k < t.len() && p(#[trigger] t[k]) {
        let k = choose|k: int| 0 <= k < t.len() && p(t[k]) && forall|j: int| 0 <= j < k ==> !p(#[trigger] t[j]);
        Some(t[k])
    } else {
        None
    }
}

impl PackageInstaller {
    /// Whether this manager appears to be the one the project uses, judged from
    /// the files `present` at its root and its `pyproject.toml`, if readable.
    pub fn detect(&self, present: &[String], pyproject: Option<&str>) -> (r: bool)
        ensures
            r == detected_by(self@, names_view(present@), crate::paths::opt_str(pyproject)),
    {
        let mut k: usize = 0;
        while k < self.lockfiles.len()
            invariant
                k <= self.lockfiles@.len(),
                forall|j: int| 0 <= j < k ==> !names_view(present@).contains(#[trigger] names_view(self.lockfiles@)[j]),
            decreases self.lockfiles@.len() - k,
        {
            if contains_name(present, self.lockfiles[k].as_str()) {
                assert(names_view(self.lockfiles@)[k as int] == self.lockfiles@[k as int]@);
                assert(self@.lockfiles[k as int] == self.lockfiles@[k as int]@);
                assert(names_view(present@).contains(self@.lockfiles[k as int]));
                return true;
            }
            assert(names_view(self.lockfiles@)[k as int] == self.lockfiles@[k as int]@);
            k += 1;
        }
        match (&self.pyproject_table, pyproject) {
            (Some(t), Some(p)) => {
                let pv = chars_of(p);
                let tv = chars_of(t.as_str());
                chars_contain(pv.as_slice(), tv.as_slice())
            },
            _ => false,
        }
    }

    /// The command that adds `specs` as dependencies: the manager, its
    /// subcommand, then the specs verbatim.
    pub fn add_command(&self, specs: &[String]) -> (r: Vec<String>)
        ensures
            names_view(r@) == seq![self@.name, self@.subcommand] + names_view(specs@),
    {
        let mut command: Vec<String> = Vec::new();
        command.push(self.name.clone());
        command.push(self.subcommand.clone());
        let rest = copy_names(specs);
        let mut i: usize = 0;
        while i < rest.len()
            invariant
                i <= rest@.len(),
                rest@ == specs@,
                names_view(command@) == seq![self@.name, self@.subcommand] + names_view(specs@).subrange(0, i as int),
            decreases rest@.len() - i,
        {
            let ghost before = command@;
            let x = rest[i].clone();
            command.push(x);
            assert(names_view(command@) =~= names_view(before).push(specs@[i as int]@));
            i += 1;
            assert(names_view(command@) =~= seq![self@.name, self@.subcommand] + names_view(specs@).subrange(0, i as int));
        }
        assert(names_view(specs@).subrange(0, specs@.len() as int) =~= names_view(specs@));
        command
    }

    /// The files whose presence identifies this manager.
    pub fn lockfiles(&self) -> (r: &Vec<String>)
        ensures
            names_view(r@) == self@.lockfiles,
    {
        &self.lockfiles
    }
}

/// Takes the first installer of `table` meeting what `matches` says.
fn pick_first(candidates: Vec<PackageInstaller>, matches: Vec<bool>, Ghost(p): Ghost<spec_fn(SpecInstaller) -> bool>) -> (r: Option<PackageInstaller>)
    requires
        matches@.len() == candidates@.len(),
        forall|k: int| 0 <= k < candidates@.len() ==> matches@[k] == p(#[trigger] candidates@[k]@),
    ensures
        match r {
            Some(i) => first_meeting(installers_view(candidates@), p) == Some(i@),
            None => first_meeting(installers_view(candidates@), p) is None,
        },
{
    let ghost t = installers_view(candidates@);
    let mut table = candidates;
    let mut k: usize = 0;
    while k < matches.len()
        invariant
            k <= matches@.len(),
            matches@.len() == table@.len(),
            t == installers_view(table@),
            t == installers_view(candidates@),
            forall|j: int| 0 <= j < table@.len() ==> matches@[j] == p(#[trigger] table@[j]@),
            forall|j: int| 0 <= j < k ==> !p(#[trigger] t[j]),
        decreases matches@.len() - k,
    {
        assert(t[k as int] == table@[k as int]@);
        if matches[k] {
            proof {
                assert(0 <= k < t.len() && p(t[k as int]) && forall|j: int| 0 <= j < k ==> !p(#[trigger] t[j]));
                let c = choose|c: int| 0 <= c < t.len() && p(t[c]) && forall|j: int| 0 <= j < c ==> !p(#[trigger] t[j]);
                if c < k {
                } else if k < c {
                    assert(!p(t[k as int]));
                }
                assert(first_meeting(t, p) == Some(t[k as int]));
            }
            let chosen = table.remove(k);
            assert(chosen@ == t[k as int]);
            return Some(chosen);
        }
        k += 1;
    }
    None
}

/// Finds a manager by its `copit.toml` name.
pub fn by_name(name: &str) -> (r: Option<PackageInstaller>)
    ensures
        match r {
            Some(i) => first_meeting(installer_table(), |s: SpecInstaller| s.name == name@) == Some(i@),
            None => first_meeting(installer_table(), |s: SpecInstaller| s.name == name@) is None,
        },
        r matches Some(i) ==> i@.name == name@ && i@.subcommand == adding_subcommand(name@),
{
    proof {
        lemma_add_command_of_named(name@);
    }
    let table = installers();
    let mut matches: Vec<bool> = Vec::new();
    let mut k: usize = 0;
    while k < table.len()
        invariant
            k <= table@.len(),
            matches@.len() == k,
            forall|j: int| 0 <= j < k ==> matches@[j] == ((#[trigger] table@[j]@).name == name@),
        decreases table@.len() - k,
    {
        matches.push(str_eq(table[k].name.as_str(), name));
        k += 1;
    }
    pick_first(table, matches, Ghost(|s: SpecInstaller| s.name == name@))
}

/// The subcommand a known manager adds a dependency with: `pip install` and
/// `npm install`, `add` for every other one (`uv add`, `poetry add`,
/// `pdm add`, `pnpm add`, `yarn add`, `cargo add`).
pub open spec fn adding_subcommand(name: Seq<char>) -> Seq<char> {
    if name == "pip"@ || name == "npm"@ {
        "install"@
    } else {
        "add"@
    }
}

/// The known managers, in detection order, each adding dependencies with its
/// documented subcommand, belonging to its ecosystem, and recognised by its
/// lockfiles or `pyproject.toml` table.
pub proof fn lemma_known_managers()
    ensures
        installer_table().len() == 8,
        installer_table().map_values(|s: SpecInstaller| s.name) == seq![
            "uv"@, "poetry"@, "pdm"@, "pip"@, "pnpm"@, "yarn"@, "npm"@, "cargo"@,
        ],
        installer_table().map_values(|s: SpecInstaller| s.ecosystem) == seq![
            "python"@, "python"@, "python"@, "python"@, "node"@, "node"@, "node"@, "rust"@,
        ],
        forall|k: int| 0 <= k < installer_table().len() ==> (#[trigger] installer_table()[k]).subcommand
            == adding_subcommand(installer_table()[k].name),
        installer_table().map_values(|s: SpecInstaller| s.lockfiles) == seq![
            seq!["uv.lock"@], seq!["poetry.lock"@], seq!["pdm.lock"@],
            seq!["requirements.txt"@, "requirements/base.txt"@], seq!["pnpm-lock.yaml"@], seq!["yarn.lock"@],
            seq!["package-lock.json"@], seq!["Cargo.toml"@],
        ],
        installer_table().map_values(|s: SpecInstaller| s.pyproject_table) == seq![
            Some("[tool.uv"@), Some("[tool.poetry"@), Some("[tool.pdm"@), None, None, None, None, None,
        ],
{
    reveal_strlit("uv");
    reveal_strlit("poetry");
    reveal_strlit("pdm");
    reveal_strlit("pip");
    reveal_strlit("pnpm");
    reveal_strlit("yarn");
    reveal_strlit("npm");
    reveal_strlit("cargo");
    reveal_strlit("add");
    reveal_strlit("install");
    assert("pdm"@[1] != "pip"@[1]);
    assert("pdm"@[0] != "npm"@[0]);
    assert(installer_table().map_values(|s: SpecInstaller| s.name) =~= seq![
        "uv"@, "poetry"@, "pdm"@, "pip"@, "pnpm"@, "yarn"@, "npm"@, "cargo"@,
    ]);
    assert(installer_table().map_values(|s: SpecInstaller| s.ecosystem) =~= seq![
        "python"@, "python"@, "python"@, "python"@, "node"@, "node"@, "node"@, "rust"@,
    ]);
    assert(installer_table().map_values(|s: SpecInstaller| s.lockfiles) =~= seq![
        seq!["uv.lock"@], seq!["poetry.lock"@], seq!["pdm.lock"@],
        seq!["requirements.txt"@, "requirements/base.txt"@], seq!["pnpm-lock.yaml"@], seq!["yarn.lock"@],
        seq!["package-lock.json"@], seq!["Cargo.toml"@],
    ]);
    assert(installer_table().map_values(|s: SpecInstaller| s.pyproject_table) =~= seq![
        Some("[tool.uv"@), Some("[tool.poetry"@), Some("[tool.pdm"@), None, None, None, None, None,
    ]);
}

/// The command that adds `specs` with a manager looked up by name is the
/// name, its documented subcommand, then the specs.
pub proof fn lemma_add_command_of_named(name: Seq<char>)
    ensures
        first_meeting(installer_table(), |s: SpecInstaller| s.name == name) matches Some(i) ==> i.name == name
            && i.subcommand == adding_subcommand(name),
{
    lemma_known_managers();
    let p = |s: SpecInstaller| s.name == name;
    if exists|k: int| 0 <= k < installer_table().len() && p(#[trigger] installer_table()[k]) {
        let k = choose|k: int| 0 <= k < installer_table().len() && p(installer_table()[k]) && forall|j: int|
            0 <= j < k ==> !p(#[trigger] installer_table()[j]);
        assert(installer_table()[k].subcommand == adding_subcommand(installer_table()[k].name));
    }
}

/// A configured package manager wins over detection, and `none` means none:
/// the configured name is used as given unless it is `none`.
pub proof fn lemma_configured_manager_wins(
    name: Seq<char>,
    ecosystem: Seq<char>,
    present: Seq<Seq<char>>,
    pyproject: Option<Seq<char>>,
)
    ensures
        manager_for(Some("none"@), ecosystem, present, pyproject) is None,
        name != "none"@ ==> manager_for(Some(name), ecosystem, present, pyproject) == Some(name),
{
}

/// Detects the manager the project uses, restricted to `ecosystem` when given:
/// the first in detection order that belongs to it and is detected.
pub fn detect(present: &[String], pyproject: Option<&str>, ecosystem: Option<&str>) -> (r: Option<PackageInstaller>)
    ensures
        match r {
            Some(i) => first_meeting(
                installer_table(),
                |s: SpecInstaller| in_ecosystem(s, crate::paths::opt_str(ecosystem))
                    && detected_by(s, names_view(present@), crate::paths::opt_str(pyproject)),
            ) == Some(i@),
            None => first_meeting(
                installer_table(),
                |s: SpecInstaller| in_ecosystem(s, crate::paths::opt_str(ecosystem))
                    && detected_by(s, names_view(present@), crate::paths::opt_str(pyproject)),
            ) is None,
        },
{
    let ghost p = |s: SpecInstaller| in_ecosystem(s, crate::paths::opt_str(ecosystem))
        && detected_by(s, names_view(present@), crate::paths::opt_str(pyproject));
    let table = installers();
    let mut matches: Vec<bool> = Vec::new();
    let mut k: usize = 0;
    while k < table.len()
        invariant
            k <= table@.len(),
            matches@.len() == k,
            p == (|s: SpecInstaller| in_ecosystem(s, crate::paths::opt_str(ecosystem))
                && detected_by(s, names_view(present@), crate::paths::opt_str(pyproject))),
            forall|j: int| 0 <= j < k ==> matches@[j] == p(#[trigger] table@[j]@),
        decreases table@.len() - k,
    {
        let wanted = match ecosystem {
            Some(e) => str_eq(table[k].ecosystem.as_str(), e),
            None => true,
        };
        let m = wanted && table[k].detect(present, pyproject);
        matches.push(m);
        k += 1;
    }
    pick_first(table, matches, Ghost(p))
}

/// The names of every known manager, in detection order.
pub fn known_names() -> (r: Vec<String>)
    ensures
        names_view(r@) == installer_table().map_values(|s: SpecInstaller| s.name),
{
    let table = installers();
    let mut r: Vec<String> = Vec::new();
    let mut k: usize = 0;
    while k < table.len()
        invariant
            k <= table@.len(),
            installers_view(table@) == installer_table(),
            names_view(r@) == installer_table().map_values(|s: SpecInstaller| s.name).subrange(0, k as int),
        decreases table@.len() - k,
    {
        assert(installers_view(table@)[k as int] == table@[k as int]@);
        let ghost before = r@;
        let x = table[k].name.clone();
        r.push(x);
        assert(names_view(r@) =~= names_view(before).push(installer_table()[k as int].name));
        k += 1;
        assert(names_view(r@) =~= installer_table().map_values(|s: SpecInstaller| s.name).subrange(0, k as int));
    }
    assert(installer_table().map_values(|s: SpecInstaller| s.name).subrange(0, k as int) =~= installer_table().map_values(|s: SpecInstaller| s.name));
    r
}

/// The package manager an install uses: the configured one (`none` meaning
/// none at all), else the one detected in the project, restricted to the
/// registry's ecosystem when it declares one.
pub open spec fn manager_for(
    configured: Option<Seq<char>>,
    ecosystem: Seq<char>,
    present: Seq<Seq<char>>,
    pyproject: Option<Seq<char>>,
) -> Option<Seq<char>> {
    match configured {
        Some(n) => if n == "none"@ {
            None
        } else {
            Some(n)
        },
        None => match first_meeting(
            installer_table(),
            |s: SpecInstaller| in_ecosystem(s, if ecosystem.len() == 0 { None } else { Some(ecosystem) })
                && detected_by(s, present, pyproject),
        ) {
            Some(i) => Some(i.name),
            None => None,
        },
    }
}

/// Which package manager to use, honouring explicit configuration over detection.
pub fn resolve_manager(
    configured: Option<&str>,
    ecosystem: &str,
    present: &[String],
    pyproject: Option<&str>,
) -> (r: Option<String>)
    ensures
        crate::text::opt_chars(r) == manager_for(
            crate::paths::opt_str(configured),
            ecosystem@,
            names_view(present@),
            crate::paths::opt_str(pyproject),
        ),
{
    proof {
        reveal_strlit("none");
    }
    match configured {
        Some(name) => {
            if str_eq(name, "none") {
                None
            } else {
                Some(owned(name))
            }
        },
        None => {
            let e = chars_of(ecosystem);
            let wanted = if e.len() == 0 { None } else { Some(ecosystem) };
            match detect(present, pyproject, wanted) {
                Some(i) => Some(i.name),
                None => None,
            }
        },
    }
}

} // verus!
