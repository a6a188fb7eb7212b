//! The model of a single worker: an identifier fixed at construction, the
//! state of its receive loop, the present-or-already-consumed thread handle,
//! and the record of the jobs it has run to completion.

use vstd::prelude::*;

verus! {

/// Where a worker's receive loop stands. Jobs are identified by their
/// submission index, so `Busy(j)` means the worker took job `j` from the
/// intake and has not yet run it to completion.
#[derive(Clone, Copy, Debug, PartialEq, Eq, Structural)]
pub enum WorkerState {
    /// Blocked on (or about to attempt) a receive from the intake.
    Idle,
    /// Executing the job with the given submission index.
    Busy(u64),
    /// Observed closure of the intake and left the receive loop.
    Exited,
}

/// A worker's thread handle is waited on exactly once during teardown; a
/// second take is impossible because taking it consumes `Present`.
#[derive(Clone, Copy, Debug, PartialEq, Eq, Structural)]
pub enum HandleState {
    /// The handle has not been waited on yet.
    Present,
    /// The handle was consumed by a join; it cannot be taken again.
    Taken,
}

/// One worker of the pool: the identifier it was given at construction, the
/// state of its receive loop, its thread handle, and the submission indices
/// of the jobs it has completed, in the order it ran them.
pub struct Worker {
    pub id: usize,
    pub state: WorkerState,
    pub handle: HandleState,
    pub completed: Vec<u64>,
}

impl Worker {
    /// A freshly spawned worker: idle, handle present, nothing completed.
    pub open spec fn fresh(self, id: usize) -> bool {
        &&& self.id == id
        &&& self.state is Idle
        &&& self.handle is Present
        &&& self.completed@ == Seq::<u64>::empty()
    }

    /// Create the record of a newly spawned worker with the given identifier.
    pub fn new(id: usize) -> (w: Worker)
        ensures
            w.fresh(id),
    {
        Worker { id, state: WorkerState::Idle, handle: HandleState::Present, completed: Vec::new() }
    }
}

} // verus!
