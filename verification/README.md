# lockfile_metadata

Builds the metadata that `cargo metadata` would report from `Cargo.lock` and the
`Cargo.toml` files that it names, without running cargo and without network
access.

- `src/` is the library, verified with Verus: reading lock files and manifests,
  finding the package behind each dependency entry, choosing the declaration
  behind each dependency, and writing packages, nodes and the whole document.
- `app/` reads the files and runs the searches over the file system. Its
  `build_metadata` takes a `LockfileConfig` and returns
  `cargo_metadata::Metadata`.
- `tests/` run the library with the crates that it calls.

What the `toml`, `semver` and `serde_json` crates and a few functions of the
standard library do is taken for granted, and so is how `serde_json` reads
`cargo_metadata::Metadata` from a document. Each such call has a declaration with
a contract in `src/`, next to the code that makes it.
