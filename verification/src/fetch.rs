//! Classification of what the credential command's run produced: the
//! decoded payload on success, and the owed error otherwise.

use vstd::prelude::*;
use crate::errors::WrapperError;
use crate::text::{trim, trim_str};
use vstd::string::StringExecFns;

verus! {

/// What was observed of the credential command's run: it could not be
/// started at all, or it completed with an exit code (`None` when ended
/// by a signal), its standard output decoded as UTF-8 (`None` when the
/// bytes are not valid UTF-8), and its standard-error text.
pub enum FetchOutcome {
    NotStarted,
    Completed { code: Option<i32>, stdout_utf8: Option<String>, stderr: String },
}

/// Whether the credential command ran and exited successfully.
pub open spec fn fetch_succeeded(o: FetchOutcome) -> bool {
    o matches FetchOutcome::Completed { code: Some(0i32), .. }
}

/// Turn the observed run of the credential command into the secret
/// payload or the owed error: the decoded standard output on a zero
/// exit; `DecodeError` on a zero exit with undecodable output;
/// `FetchError` with the exit code and the trimmed standard-error text
/// on any other completed run; `LaunchError` when the command never
/// started.
pub fn interpret_fetch_output(outcome: FetchOutcome) -> (r: Result<String, WrapperError>)
    ensures
        match outcome {
            FetchOutcome::NotStarted => r matches Err(WrapperError::LaunchError),
            FetchOutcome::Completed { code, stdout_utf8, stderr } => {
                if code == Some(0i32) {
                    match stdout_utf8 {
                        Some(text) => r matches Ok(p) && p@ == text@,
                        None => r matches Err(WrapperError::DecodeError),
                    }
                } else {
                    r matches Err(WrapperError::FetchError { code: c, stderr: e }) && c == code
                        && e@ == trim(stderr@)
                }
            },
        },
        r is Ok <==> fetch_succeeded(outcome) && (outcome matches FetchOutcome::Completed {
            stdout_utf8: Some(_),
            ..
        }),
{
    match outcome {
        FetchOutcome::NotStarted => Err(WrapperError::LaunchError),
        FetchOutcome::Completed { code, stdout_utf8, stderr } => {
            let exited_zero = match code {
                Some(c) => c == 0,
                None => false,
            };
            if !exited_zero {
                let trimmed = String::from_str(trim_str(stderr.as_str()));
                Err(WrapperError::FetchError { code, stderr: trimmed })
            } else {
                match stdout_utf8 {
                    Some(text) => Ok(text),
                    None => Err(WrapperError::DecodeError),
                }
            }
        },
    }
}

} // verus!
