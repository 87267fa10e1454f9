//! Core logic of a process-launching wrapper: it parses a fetched secret
//! payload into environment variables (or derives a file-staging variable
//! name), builds the child's environment, classifies the outcome of the
//! credential fetch, and translates the child's termination status into
//! the wrapper's own exit code.

pub mod env_map;
pub mod errors;
pub mod fetch;
pub mod file_spec;
pub mod parse;
pub mod status;
pub mod text;
pub mod wrapper_env;
