//! The wrapper's error taxonomy. Every error here is unrecoverable at
//! the point it is detected and makes the wrapper exit with code 1;
//! child-process termination is relayed separately.

use vstd::prelude::*;

verus! {

/// Why a run failed before, or instead of, relaying the child's status.
#[derive(Debug)]
pub enum WrapperError {
    /// The credential command is not resolvable on the search path.
    PrerequisiteMissing,
    /// The credential command could not be started at all.
    LaunchError,
    /// The credential command ran but exited unsuccessfully; carries its
    /// exit code (`None` when it was ended by a signal) and its trimmed
    /// standard-error text.
    FetchError { code: Option<i32>, stderr: String },
    /// The credential command's output is not valid UTF-8.
    DecodeError,
    /// The file-mode variable-name specification is empty.
    ConfigError,
    /// The temporary file could not be created, written, or flushed.
    IOError,
    /// The child ended without a determinable exit code or signal.
    AbnormalTermination,
}

/// The exit code of a run that ends in a wrapper-level error: always 1,
/// whatever the error.
pub fn error_exit_code(e: &WrapperError) -> (c: i32)
    ensures
        c == 1,
{
    match e {
        WrapperError::PrerequisiteMissing => 1,
        WrapperError::LaunchError => 1,
        WrapperError::FetchError { .. } => 1,
        WrapperError::DecodeError => 1,
        WrapperError::ConfigError => 1,
        WrapperError::IOError => 1,
        WrapperError::AbnormalTermination => 1,
    }
}

} // verus!
