# hut

hut is a build system and package manager for C and C++ projects: a
`hut.toml` manifest, a `hut.lock` lockfile, a package index of GitHub
repositories, semver resolution against git tags, incremental builds and a
small command line.

The library in `src/` is written in Verus and verified: every public function
carries a contract over a mathematical model of its inputs, and the laws of
the library (what a lockfile gives back after an insert, which version a
constraint selects, that resolution honours the lockfile, that include paths
and flags are deduplicated in order, how the command line is read) are proved
as public proof functions.

- `text`, `table`: character sequences, paths, and name-ordered tables with
  their map view.
- `versions`, `tags`, `registry`: semver versions and requirements, git tag
  normalisation and selection, the registry index.
- `config`, `package`, `lockfile`, `index`: the manifest, packages, the
  lockfile and the package index.
- `resolver`: the dependency resolution state machine.
- `headers`, `flags`, `builder`: include directories, compiler and linker
  flags, compiler choice and the compile and link commands.
- `fetch`: the package cache layout, integrity hashes, tarball URLs and the
  plan for building a package from its sources.
- `project`: what each subcommand decides.
- `cli`: the command-line grammar.

`app/` is the `hut` program around the library: reading and writing files,
running git, curl and the compiler, prompting, and printing.
