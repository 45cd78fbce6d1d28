# licenses

A command line tool that collects the license files of a Rust project's dependencies
into a folder, checks that folder against the dependencies (missing, unexpected,
copyleft, misnamed, extraneous files, unmet `license` expressions, ...), prints a
summary table of license types, and prunes license files that no dependency needs.

The decisions are made by a library verified with Verus:

- `src/` is the library, and Verus verifies every function there against its
  contract. Two contracts are empty on purpose, because something outside the library
  decides the answer: `Interrupt::should_continue` reads a flag that another thread
  raises at any time, and `LicenseScanner::load` succeeds or fails as loading spdx's
  license texts does.
  It holds the dependency graph walk, the lints, the filters that change report
  levels, the combining and ordering of reports, the naming of output files and
  reading them back, the settings (command line over `Cargo.toml` over defaults),
  the summary rows, the choice of files to prune, the GitHub API address of a
  repository, and the identification of license files by name and by their text.
  Calls into `spdx`, `semver` and `url` stand behind a few trusted wrappers whose
  contracts name their results.
- `app/` is the program around it: argument parsing, `cargo metadata`, reading and
  writing files, HTTP requests to GitHub, spreading the license files over threads,
  and printing.
- `tests/` runs the library on concrete values.
