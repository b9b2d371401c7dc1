//! The guard of the thread that tails the log: when the thread ends in a
//! panic, the whole process is to end with it.

use vstd::prelude::*;

verus! {

/// Held by the thread that tails the log for as long as it runs.
#[derive(Debug)]
pub struct PanicGuard;

/// The status with which the process ends when the tailing thread has
/// panicked.
pub const EXIT_STATUS: i32 = 1;

impl PanicGuard {
    pub fn new() -> (guard: Self)
        ensures
            guard == PanicGuard,
    {
        PanicGuard
    }

    /// Decides what is to happen when the guard is released: the status with
    /// which the process must exit at once if the thread is panicking, and
    /// `None` if it is not, in which case nothing is to be done.
    pub fn exit_status(&self, panicking: bool) -> (status: Option<i32>)
        ensures
            panicking ==> status == Some(EXIT_STATUS),
            !panicking ==> status is None,
    {
        if panicking {
            Some(EXIT_STATUS)
        } else {
            None
        }
    }
}

} // verus!
