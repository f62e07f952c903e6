//! Front end of a small line-oriented shell: flags, the built-in command
//! vocabulary, token resolution with `$name` substitution, and command building.

pub mod hsh_cmds;
mod text;
pub mod vars;
pub mod resolve;
pub mod errors;
