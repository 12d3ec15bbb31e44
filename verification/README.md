# cargo_update

A library and a command (`cargo install-update`, `cargo install-update-config`) that check
and apply updates to executables installed with `cargo install`.

The library under `src/` is written in Verus: each public function carries a contract in
`requires`/`ensures`, and the properties that span several functions are stated and proved
as public proof functions whose names begin with `law_`. It covers the parsing of the package
descriptors of `.crates.toml`, the choice of the version to update to, the per-package build
configuration and its `cargo install` arguments, cargo's configuration and credential
providers, the resolution of registry source replacements, the layout of registry indices,
the version lists of index entries, the credentials offered to git, and the meaning of the
command lines.

Where the library relies on an outside crate (`semver`, `url`, `toml`, `json-deserializer`,
`hex`), the call stands behind a small trusted item whose contract states what that crate's
source shows of it.

`app/` holds the command itself: argument parsing with `clap`, reading and writing files,
running `git` and `cargo`, fetching with `git2` and `curl`, and printing the tables. `tests/`
runs the library on concrete values.
