//! Building native distribution packages (`.deb`, `.pkg.tar.zst`, `.tar.gz`)
//! for Rust projects: the verified core.
pub mod build_cmd;
pub mod cfg;
pub mod cli;
pub mod graph;
pub mod meta;
pub mod pkg;
pub mod stage;
pub mod text;
