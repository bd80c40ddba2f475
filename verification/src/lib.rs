//! Declarative command-line argument resolution.
//!
//! A schema states once which positional arguments, boolean flags,
//! value-taking flags and groups of mutually exclusive alternatives a command
//! line may hold. Raw items are first split into tokens, and the tokens are then
//! resolved against the schema into a structured result or a structured error.
//! Every function carries a contract over a mathematical model of its data.
//! The contracts are machine-checked, but for two that are taken on trust: the
//! one on the kebab-case spelling that `convert_case` computes, and the one on
//! `String::push`.

pub mod casing;
pub mod declaration;
pub mod descriptor;
pub mod error;
pub mod group;
pub mod laws;
pub mod parsed;
pub mod resolver;
pub mod schema;
pub mod slot;
pub mod token;
pub mod value;
