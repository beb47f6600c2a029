//! Verified analysis of `Cargo.lock` files: a line-oriented parser that
//! extracts the packages of a lockfile, and a name-based heuristic that
//! flags the packages able to run code at build time (proc-macros, build
//! scripts, build dependencies).

pub mod text;
pub mod cargo_lock;
pub mod native_surface;
pub mod lockfile_path;
