# copit

copit copies reusable source code into a project — single files over HTTP,
paths out of GitHub repositories, files out of ZIP archives, and components
published by registries — and tracks each copy in `copit.toml` so it can be
updated, frozen or removed later.

The crate is written in Verus. `src/` is the verified library: parsing source
specifications, the manifest, its edits and the text it is written as, path
and license-layout rules, archive extraction, exclude matching, package-manager detection, and registry
planning (variants, optional groups and dependency order). Each public function
states its result in its contract, and the properties that span several calls
are proved as lemmas:

- `sources`: parsing and re-writing a source string round-trip.
- `config`: what a lookup returns after a copy is recorded or removed.
- `registry_laws`: an install plan plans nothing twice, marks exactly what was
  asked for, and takes each component and its files as the index lists them;
  when it resolves requirements it lists every dependency before the
  components that need it, and when it does not it plans only what was asked
  for. An accepted index has the supported version, keys equal to names and
  declared variants only. Suggestions for typos are exactly the names one edit
  away (a deletion, insertion, substitution or adjacent swap).

The outside crates the logic relies on (`zip`, `globset`, `chrono`, and
`toml_edit` for rendering the manifest) are called
through small trusted wrappers whose contracts say what their documentation
promises.

`app/` is the command-line program around the library: argument parsing,
network and file I/O, prompts, parsing the TOML manifest and the JSON registry
index, and writing the manifest text the library renders.
