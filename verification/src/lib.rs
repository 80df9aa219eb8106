//! Layered environment loading and placeholder substitution.
//!
//! The library models the process environment as an explicit key/value
//! store, resolves the active mode, plans the cascade of `.env` files to
//! load, merges their contents with first-write-wins precedence, and
//! substitutes `@@NAME@:default@:` placeholders in command arguments.

pub mod assembler;
pub mod cascade;
pub mod errors;
pub mod resolver;
pub mod split;
pub mod store;
