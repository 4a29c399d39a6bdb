# cargo-mkdist

A Cargo subcommand that builds native distribution packages (`.deb`,
`.pkg.tar.zst`, `.tar.gz`) for a Rust project without external packaging
tools.

- `src/` is the verified library: target configuration and the resolution of
  inheritance between targets (over a `petgraph` graph), the choice of
  targets and `cargo` arguments, package lookup in workspace metadata, and the
  text and fields of Debian `control` and pacman `.PKGINFO` files. Each
  function carries a `requires`/`ensures` contract proved by Verus.
- `app/` is the command-line program around it: argument parsing, reading the
  configuration file, running `cargo`, staging files and writing archives.
- `tests/` exercises the library on concrete inputs.
