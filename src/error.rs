use vstd::prelude::*;

verus! {

/// Why a pool could not be built.
#[derive(Debug, Clone, Copy, PartialEq, Eq, Structural)]
pub enum PoolCreationError {
    /// A pool of zero workers was asked for.
    WrongPoolSize,
    /// The thread of some worker could not be started.
    WorkerJobTrouble,
}

impl PoolCreationError {
    /// The text shown to an operator for this error.
    pub open spec fn spec_message(self) -> Seq<char> {
        match self {
            PoolCreationError::WrongPoolSize => "wrong thread pool size"@,
            PoolCreationError::WorkerJobTrouble => "worker did not get a job (problem thread spawning)"@,
        }
    }

    pub fn message(&self) -> (r: &'static str)
        ensures
            r@ == self.spec_message(),
    {
        match self {
            PoolCreationError::WrongPoolSize => "wrong thread pool size",
            PoolCreationError::WorkerJobTrouble => "worker did not get a job (problem thread spawning)",
        }
    }
}

} // verus!
