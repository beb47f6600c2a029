# sandbox-ffi-layers

Checks a `Cargo.lock` for dependencies that run code at build time
(proc-macro crates, build scripts, build dependencies) and for known
typosquats of `proc-macro2`.

- `src/text.rs`: trimming, searching and splitting of character windows,
  each stated over `Seq<char>`.
- `src/cargo_lock.rs`: the lockfile parser, a state machine over lines,
  with its model (`scan`, `parsed_packages`) and laws.
- `src/native_surface.rs`: the name heuristics, the analysis of a package
  list (`native_surfaces`) and its laws, the blocklist, the report lines
  and the exit code.
- `src/lockfile_path.rs`: which error a lockfile path is refused with
  (missing, directory, not a file, escaping the working directory through
  `..`), and the message of each read failure.
- `app/main.rs`: the command line, file system access and printing.
