//! The repository's release tooling: versions, the changelog and the
//! manifest as text, the command line, and the decisions of release
//! preparation and release verification. Running commands and touching files
//! is left to the caller.
pub mod changelog;
pub mod civil_date;
pub mod error;
pub mod invocation;
pub mod manifest;
pub mod release_prep;
pub mod release_verify;
pub mod semver_check;
pub mod version;
pub mod workflow;
