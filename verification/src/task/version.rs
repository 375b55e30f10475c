use vstd::prelude::*;

verus! {

/// Why a maintenance task stopped.
#[derive(Debug)]
pub struct TaskError {
    pub reason: String,
}

/// The `version` task, which bumps crate versions.
#[derive(Debug)]
pub struct Version {}

impl Version {
    /// Runs the task. There is nothing to bump yet, so it always succeeds.
    pub fn run(self) -> (outcome: Result<(), TaskError>)
        ensures
            outcome is Ok,
    {
        Ok(())
    }
}

} // verus!
