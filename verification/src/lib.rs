//! Points the git dependencies of a workspace at another repository.
//!
//! A run scans the paths of a workspace for manifests ([`scan`]), parses
//! each of them ([`store`]), changes every dependency that names a git
//! repository ([`mutate`]) and writes each document out again, with all that
//! it did not change left as it stood. The texts that it writes into a
//! manifest stand there between double quotes ([`quote`]).
//!
//! The documents are those of `toml_edit`, and the patterns of the scan
//! those of `globset`; [`document`] and [`glob`] say what is taken on trust
//! of the two. [`model`] is the picture of a manifest that the contracts
//! speak of, and [`laws`] holds what follows for every run.

pub mod config;
pub mod document;
pub mod error;
pub mod glob;
pub mod laws;
pub mod model;
pub mod mutate;
mod proofs;
pub mod quote;
pub mod scan;
pub mod store;
