# grok_config

A verified library for the configuration file of Grok Build, `config.toml`, and
for the providers that are put into it and taken out of it.

What a provider owns in the file is its address (`[endpoints]`), its selection
of models (`[models]`), the routes of its subagents (`[subagents.models]`) and
its models (`[model.*]`). Everything else in the file, comments and blank space
included, stays as it is. A route may lead to a model of another provider; a
copy of that model then stands in the file under a stable identifier, and the
registry `[cc_switch.managed_xprov]` records where it comes from.

A section that is missing is made in braces, or under a header where what is put
into it stands under one: models, entries of the registry, routes that were
followed. Routes of a profile that stand in braces stay in braces.

## Layout

- `src/tree.rs` is the mathematical model of a TOML document: fields by name, in
  order, with their layout. `src/toml.rs`, `src/json.rs`, `src/digest.rs` and
  `src/provider.rs` declare what is believed of `toml_edit`, `serde_json`, `sha2`
  and `indexmap`; `src/text.rs` does so for three functions of `std`.
- `src/registry.rs`: which models are copies, under which name a copy is kept.
- `src/selection.rs`: the selected model, and what is read from it.
- `src/profile.rs`: putting a profile in, the official account, privacy.
- `src/routes.rs`: following routes, copying models, removing copies.
- `src/patch.rs`: writing a provider, with or without a takeover by the proxy.
- `src/import.rs`: importing the settings of a provider, undoing a takeover.
- `src/backup.rs`, `src/location.rs`: when a backup is made, which ones go, where
  files are.
- `src/laws/`: what holds of the library as a whole.
- `app/` does the reading and writing of files.

A function whose name begins with `checked_` is the one to call from code that is
not verified: it answers `None` where the function without the prefix asks for
something of its arguments that does not hold.
