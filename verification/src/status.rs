//! Translation of the child's termination status into the wrapper's own
//! exit code.

use vstd::prelude::*;

verus! {

/// How the child process ended: with a numeric exit code, by a signal,
/// or without a determinable reason.
#[derive(Debug)]
pub enum ChildStatus {
    Exited(i32),
    Signaled(i32),
    Unknown,
}

/// The exit code the wrapper owes for a given child termination: the
/// child's own code on a normal exit, `128 + signal` on a
/// signal-termination (the common shell convention), and 1 when the
/// reason is indeterminate.
pub open spec fn spec_exit_code(s: ChildStatus) -> int {
    match s {
        ChildStatus::Exited(c) => c as int,
        ChildStatus::Signaled(sig) => 128 + sig as int,
        ChildStatus::Unknown => 1,
    }
}

/// Compute the wrapper's exit code for the child's termination status.
pub fn handle_exit_status(status: &ChildStatus) -> (code: i32)
    requires
        *status matches ChildStatus::Signaled(sig) ==> 0 <= sig <= i32::MAX - 128,
    ensures
        code as int == spec_exit_code(*status),
{
    match status {
        ChildStatus::Exited(c) => *c,
        ChildStatus::Signaled(sig) => 128 + *sig,
        ChildStatus::Unknown => 1,
    }
}

} // verus!
