# semwave

A static analysis tool that answers the question: *if I bump crates A, B and C in
this Rust workspace, what else do I need to bump, and how?*

It starts from seeds: crates whose change is given, either by name or by comparing
the manifests of two git refs. It walks the dependency graph of the workspace from
the seeds. A crate that exposes a type of a changing dependency in its public API
changes with it, and its dependents are looked at in turn. The result is three lists
of crates, for major, minor and patch bumps, and a check of the bumps that the
workspace already has.

## Layout

- `src/` is the library, verified with Verus. Every function states what it returns
  or changes; the proof functions named `law_*` state what holds of the library as a
  whole.
  - `seeds`, `manifest`: version changes between two states of the manifests
  - `semver`: versions, changes and the bumps that they call for
  - `workspace`, `rustdoc`: what is read of the metadata and of the documentation
  - `rustdoc_json`: reading the documentation from rustdoc's JSON
  - `leak`: which dependencies a crate exposes
  - `evaluate`: how a change in its dependencies affects a crate
  - `run`, `propagate`: how changes spread through a workspace, one crate or one wave
    at a time
  - `course`: what holds of a whole analysis, whatever the order of the nodes
  - `display`, `report`: the influence tree, the lists, and the text of reports
  - `graph`, `ids`, `names`, `order`, `text`, `types`, `cli`: what the rest is built on
- `app/` is the program around it: arguments, git, `cargo metadata`, rustdoc and the
  terminal.
- `tests/` are the tests of the library.
