//! What the user is told when a source or a registry request is refused.

use vstd::prelude::*;

use crate::names::names_view;
use crate::registry::{RegistryError, SpecRegistryError, SUPPORTED_VERSION};
use crate::sources::{SourceError, SpecSourceError};
use crate::text::{decimal, joined, push_decimal, push_joined, push_str};

verus! {

/// A list written out with `, `, or `none` when empty.
pub open spec fn list_or_none(items: Seq<Seq<char>>) -> Seq<char> {
    if items.len() == 0 {
        "none"@
    } else {
        joined(items, ", "@)
    }
}

/// Each item in single quotes.
pub open spec fn quoted(items: Seq<Seq<char>>) -> Seq<Seq<char>> {
    items.map_values(|x: Seq<char>| "'"@ + x + "'"@)
}

/// `["django"]` as `'django'`, `["a", "b"]` as `'a' or 'b'`.
pub open spec fn quoted_alternatives(items: Seq<Seq<char>>) -> Seq<char> {
    joined(quoted(items), " or "@)
}

/// Writes `items` quoted and separated by ` or `.
pub fn quoted_list(items: &[String]) -> (r: String)
    ensures
        r@ == quoted_alternatives(names_view(items@)),
{
    let mut q: Vec<String> = Vec::new();
    let mut i: usize = 0;
    while i < items.len()
        invariant
            i <= items@.len(),
            names_view(q@) == quoted(names_view(items@)).subrange(0, i as int),
        decreases items@.len() - i,
    {
        let mut one = String::new();
        push_str(&mut one, "'");
        push_str(&mut one, items[i].as_str());
        push_str(&mut one, "'");
        assert(one@ =~= "'"@ + items@[i as int]@ + "'"@);
        let ghost before = q@;
        q.push(one);
        assert(names_view(q@) =~= names_view(before).push("'"@ + items@[i as int]@ + "'"@));
        assert(names_view(q@) =~= quoted(names_view(items@)).subrange(0, i + 1));
        i += 1;
    }
    assert(quoted(names_view(items@)).subrange(0, items@.len() as int) =~= quoted(names_view(items@)));
    let mut r = String::new();
    push_joined(&mut r, q.as_slice(), " or ");
    assert(r@ =~= quoted_alternatives(names_view(items@)));
    r
}

/// Writes a list with `, `, or `none` when it is empty.
fn push_list_or_none(s: &mut String, items: &[String])
    ensures
        final(s)@ == old(s)@ + list_or_none(names_view(items@)),
{
    if items.len() == 0 {
        push_str(s, "none");
    } else {
        push_joined(s, items, ", ");
    }
}

/// The message for a refused registry request.
pub open spec fn registry_message(e: SpecRegistryError) -> Seq<char> {
    match e {
        SpecRegistryError::UnsupportedVersion { registry, version } => "Registry '"@ + registry
            + "' uses index version "@ + decimal(version as nat)
            + ", but this copit supports version "@ + decimal(SUPPORTED_VERSION as nat)
            + ". Upgrade copit, or pin an older registry ref."@,
        SpecRegistryError::NameMismatch { registry, id, name } => "Registry '"@ + registry
            + "' lists component '"@ + id + "' with name '"@ + name
            + "'. The key and the name must match."@,
        SpecRegistryError::UndeclaredVariant { registry, id, variant, available } => "Registry '"@
            + registry + "' restricts component '"@ + id + "' to variant '"@ + variant
            + "', which it does not declare. Available: "@ + list_or_none(available),
        SpecRegistryError::UnknownComponent { registry, id, suggestions } => if suggestions.len() == 0 {
            "Registry '"@ + registry + "' has no component '"@ + id + "'. Run `copit search @"@
                + registry + "` to list them."@
        } else {
            "Registry '"@ + registry + "' has no component '"@ + id + "'. Did you mean: "@
                + joined(suggestions, ", "@) + "?"@
        },
        SpecRegistryError::UnknownVariant { registry, variant, available } => "Registry '"@ + registry
            + "' has no variant '"@ + variant + "'. Available: "@ + list_or_none(available),
        SpecRegistryError::UnknownGroup { registry, group, available } => "Registry '"@ + registry
            + "' has no optional group '"@ + group + "'. Available: "@ + list_or_none(available),
        SpecRegistryError::Cycle { registry, path } => "Dependency cycle in registry '"@ + registry
            + "': "@ + joined(path, " -> "@),
        SpecRegistryError::VariantRequired { registry, id, required_by, only_variants, selected } =>
            "Component '@"@ + registry + "/"@ + id + "'"@ + match required_by {
                Some(p) => " (required by '"@ + p + "')"@,
                None => Seq::<char>::empty(),
            } + " requires variant "@ + quoted_alternatives(only_variants)
            + ".\n  This project selects: "@ + list_or_none(selected) + "\n  Pass --variant "@
            + if only_variants.len() > 0 {
                only_variants[0]
            } else {
                Seq::<char>::empty()
            } + ", or set `variants` for this registry in copit.toml."@,
    }
}

impl RegistryError {
    /// The message shown to the user.
    pub fn message(&self) -> (r: String)
        ensures
            r@ == registry_message(self@),
    {
        let mut m = String::new();
        match self {
            RegistryError::UnsupportedVersion { registry, version } => {
                push_str(&mut m, "Registry '");
                push_str(&mut m, registry.as_str());
                push_str(&mut m, "' uses index version ");
                push_decimal(&mut m, *version as u64);
                push_str(&mut m, ", but this copit supports version ");
                push_decimal(&mut m, SUPPORTED_VERSION as u64);
                push_str(&mut m, ". Upgrade copit, or pin an older registry ref.");
            },
            RegistryError::NameMismatch { registry, id, name } => {
                push_str(&mut m, "Registry '");
                push_str(&mut m, registry.as_str());
                push_str(&mut m, "' lists component '");
                push_str(&mut m, id.as_str());
                push_str(&mut m, "' with name '");
                push_str(&mut m, name.as_str());
                push_str(&mut m, "'. The key and the name must match.");
            },
            RegistryError::UndeclaredVariant { registry, id, variant, available } => {
                push_str(&mut m, "Registry '");
                push_str(&mut m, registry.as_str());
                push_str(&mut m, "' restricts component '");
                push_str(&mut m, id.as_str());
                push_str(&mut m, "' to variant '");
                push_str(&mut m, variant.as_str());
                push_str(&mut m, "', which it does not declare. Available: ");
                push_list_or_none(&mut m, available.as_slice());
            },
            RegistryError::UnknownComponent { registry, id, suggestions } => {
                push_str(&mut m, "Registry '");
                push_str(&mut m, registry.as_str());
                push_str(&mut m, "' has no component '");
                push_str(&mut m, id.as_str());
                if suggestions.len() == 0 {
                    push_str(&mut m, "'. Run `copit search @");
                    push_str(&mut m, registry.as_str());
                    push_str(&mut m, "` to list them.");
                } else {
                    push_str(&mut m, "'. Did you mean: ");
                    push_joined(&mut m, suggestions.as_slice(), ", ");
                    push_str(&mut m, "?");
                }
            },
            RegistryError::UnknownVariant { registry, variant, available } => {
                push_str(&mut m, "Registry '");
                push_str(&mut m, registry.as_str());
                push_str(&mut m, "' has no variant '");
                push_str(&mut m, variant.as_str());
                push_str(&mut m, "'. Available: ");
                push_list_or_none(&mut m, available.as_slice());
            },
            RegistryError::UnknownGroup { registry, group, available } => {
                push_str(&mut m, "Registry '");
                push_str(&mut m, registry.as_str());
                push_str(&mut m, "' has no optional group '");
                push_str(&mut m, group.as_str());
                push_str(&mut m, "'. Available: ");
                push_list_or_none(&mut m, available.as_slice());
            },
            RegistryError::Cycle { registry, path } => {
                push_str(&mut m, "Dependency cycle in registry '");
                push_str(&mut m, registry.as_str());
                push_str(&mut m, "': ");
                push_joined(&mut m, path.as_slice(), " -> ");
            },
            RegistryError::VariantRequired { registry, id, required_by, only_variants, selected } => {
                push_str(&mut m, "Component '@");
                push_str(&mut m, registry.as_str());
                push_str(&mut m, "/");
                push_str(&mut m, id.as_str());
                push_str(&mut m, "'");
                let ghost before_by = m@;
                match required_by {
                    Some(p) => {
                        push_str(&mut m, " (required by '");
                        push_str(&mut m, p.as_str());
                        push_str(&mut m, "')");
                    },
                    None => {},
                }
                assert(m@ =~= before_by + match self@ {
                    SpecRegistryError::VariantRequired { required_by, .. } => match required_by {
                        Some(p) => " (required by '"@ + p + "')"@,
                        None => Seq::<char>::empty(),
                    },
                    _ => Seq::<char>::empty(),
                });
                push_str(&mut m, " requires variant ");
                let q = quoted_list(only_variants.as_slice());
                push_str(&mut m, q.as_str());
                push_str(&mut m, ".\n  This project selects: ");
                push_list_or_none(&mut m, selected.as_slice());
                push_str(&mut m, "\n  Pass --variant ");
                let ghost before_first = m@;
                if only_variants.len() > 0 {
                    push_str(&mut m, only_variants[0].as_str());
                }
                assert(m@ =~= before_first + if names_view(only_variants@).len() > 0 {
                    names_view(only_variants@)[0]
                } else {
                    Seq::<char>::empty()
                });
                push_str(&mut m, ", or set `variants` for this registry in copit.toml.");
            },
        }
        m
    }
}

/// The message for a refused source string.
pub open spec fn source_message(e: SpecSourceError) -> Seq<char> {
    match e {
        SpecSourceError::UnknownFormat { input } => "Unknown source format: "@ + input
            + "\nExpected: github:owner/repo@version/path (or gh:), https://..., or url.zip#path"@,
        SpecSourceError::MissingVersion { input } => "GitHub source must contain @version: "@ + input,
        SpecSourceError::NotOwnerRepo { owner_repo } => "GitHub source must be owner/repo: "@ + owner_repo,
        SpecSourceError::MissingPath { rest } => "GitHub source must contain a path after version: "@ + rest,
        SpecSourceError::EmptyComponents { input } => "GitHub source has empty components: github:"@ + input,
    }
}

impl SourceError {
    /// The message shown to the user.
    pub fn message(&self) -> (r: String)
        ensures
            r@ == source_message(self@),
    {
        let mut m = String::new();
        match self {
            SourceError::UnknownFormat { input } => {
                push_str(&mut m, "Unknown source format: ");
                push_str(&mut m, input.as_str());
                push_str(
                    &mut m,
                    "\nExpected: github:owner/repo@version/path (or gh:), https://..., or url.zip#path",
                );
            },
            SourceError::MissingVersion { input } => {
                push_str(&mut m, "GitHub source must contain @version: ");
                push_str(&mut m, input.as_str());
            },
            SourceError::NotOwnerRepo { owner_repo } => {
                push_str(&mut m, "GitHub source must be owner/repo: ");
                push_str(&mut m, owner_repo.as_str());
            },
            SourceError::MissingPath { rest } => {
                push_str(&mut m, "GitHub source must contain a path after version: ");
                push_str(&mut m, rest.as_str());
            },
            SourceError::EmptyComponents { input } => {
                push_str(&mut m, "GitHub source has empty components: github:");
                push_str(&mut m, input.as_str());
            },
        }
        m
    }
}

} // verus!
