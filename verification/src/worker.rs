//! A worker: one background execution thread plus a stable numeric identity.
//!
//! The thread itself lives outside this model; what the model keeps is the
//! worker's identity and what its thread is doing at any moment of the pool's
//! life.

use vstd::prelude::*;

verus! {

/// What a worker's execution thread is doing.
#[derive(Clone, Copy, Debug, PartialEq, Eq, Structural)]
pub enum WorkerState {
    /// Blocked on the shared intake channel, waiting for a unit of work.
    Idle,
    /// Running the unit of work with this submission index, lock released.
    Busy { job: usize },
    /// Observed channel closure on an empty queue and terminated its loop.
    Exited,
}

/// One worker of a pool: a small integer identity, unique within its pool and
/// stable for the worker's lifetime, together with the state of its thread.
#[derive(Clone, Copy, Debug, PartialEq, Eq, Structural)]
pub struct Worker {
    /// Identity assigned at construction, unique within the owning pool.
    pub id: usize,
    /// What this worker's execution thread is doing.
    pub state: WorkerState,
}

impl Worker {
    /// A fresh worker: it starts its loop blocked on the intake channel.
    pub fn new(id: usize) -> (w: Worker)
        ensures
            w.id == id,
            w.state is Idle,
    {
        Worker { id, state: WorkerState::Idle }
    }
}

} // verus!
