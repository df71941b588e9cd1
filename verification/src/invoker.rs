//! The command line of the player, and what became of starting it.
//!
//! Starting a process is the caller's work.  The player is started and left
//! to run on its own: nobody waits for it to exit, so the only outcomes are
//! those of the start itself.

use vstd::prelude::*;
use crate::scan::rows;

verus! {

/// The mathematical model of an invocation.
pub ghost struct InvocationView {
    pub program: Seq<u8>,
    pub args: Seq<Seq<u8>>,
}

/// An executable and the arguments to start it with, in order.
#[derive(Debug)]
pub struct PluginInvocation {
    pub program: Vec<u8>,
    pub args: Vec<Vec<u8>>,
}

impl View for PluginInvocation {
    type V = InvocationView;

    open spec fn view(&self) -> InvocationView {
        InvocationView { program: self.program@, args: rows(self.args@) }
    }
}

/// What the operating system answered when the player was started.
#[derive(Clone, Copy, Debug, PartialEq, Eq, Structural)]
pub enum SpawnOutcome {
    /// The player is running.
    Started,
    /// There is no executable at the configured path.
    NotFound,
    /// The start failed for another reason: permissions, resource limits.
    Refused,
}

/// Why the player is not running.
#[derive(Clone, Copy, Debug, PartialEq, Eq, Structural)]
pub enum SpawnError {
    PlayerNotFound,
    SpawnFailed,
}

/// Why a plugin did not do its work.
#[derive(Clone, Copy, Debug, PartialEq, Eq, Structural)]
pub enum ExecError {
    /// The player could not be started.
    Spawn(SpawnError),
}

/// The result that an outcome of the start amounts to.
pub open spec fn spec_spawn_result(outcome: SpawnOutcome) -> Result<(), SpawnError> {
    match outcome {
        SpawnOutcome::Started => Ok(()),
        SpawnOutcome::NotFound => Err(SpawnError::PlayerNotFound),
        SpawnOutcome::Refused => Err(SpawnError::SpawnFailed),
    }
}

/// Turns the outcome of the start into the invoker's result.
pub fn spawn_result(outcome: SpawnOutcome) -> (r: Result<(), SpawnError>)
    ensures
        r == spec_spawn_result(outcome),
{
    match outcome {
        SpawnOutcome::Started => Ok(()),
        SpawnOutcome::NotFound => Err(SpawnError::PlayerNotFound),
        SpawnOutcome::Refused => Err(SpawnError::SpawnFailed),
    }
}

} // verus!
