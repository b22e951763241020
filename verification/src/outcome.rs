//! What a job ends with.

use vstd::prelude::*;

verus! {

/// Why a job failed.
#[derive(Clone, Copy, Debug, PartialEq, Eq, Structural)]
pub enum Cause {
    /// The program could not be started. `os_error` is the error number the
    /// operating system gave, where it gave one.
    LaunchFailure { os_error: Option<i32> },
    /// The program ran and ended with a status other than zero. `code` is
    /// `None` where the program ended without an exit code, as after a signal.
    NonZeroExit { code: Option<i32> },
}

/// The single result of one job.
#[derive(Clone, Copy, Debug, PartialEq, Eq, Structural)]
pub enum Outcome {
    /// Every step of the job ended with status `code`, which is zero.
    Success { code: i32 },
    /// A step failed; no later step was attempted.
    Failure(Cause),
}

impl Outcome {
    /// The outcome of a job none of whose steps failed.
    pub open spec fn success() -> Outcome {
        Outcome::Success { code: 0 }
    }

    /// The job failed.
    pub open spec fn failed(self) -> bool {
        self is Failure
    }

    /// Whether the job failed.
    pub fn is_failure(&self) -> (b: bool)
        ensures
            b == self.failed(),
    {
        match self {
            Outcome::Success { .. } => false,
            Outcome::Failure(_) => true,
        }
    }

    /// The cause of the failure, if the job failed.
    pub fn cause(&self) -> (c: Option<Cause>)
        ensures
            c == match *self {
                Outcome::Success { .. } => None::<Cause>,
                Outcome::Failure(cause) => Some(cause),
            },
    {
        match self {
            Outcome::Success { .. } => None,
            Outcome::Failure(cause) => Some(*cause),
        }
    }
}

} // verus!
