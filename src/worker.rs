use vstd::prelude::*;

use crate::error::PoolCreationError;

verus! {

/// One slot of a pool: a stable id and the handle of the thread that runs
/// its receive loop, held until shutdown takes it out to join it.
pub struct Worker<H> {
    id: usize,
    thread: Option<H>,
}

impl<H> Worker<H> {
    /// The worker's id, fixed for its lifetime.
    pub closed spec fn spec_id(&self) -> usize {
        self.id
    }

    /// The handle still held, if shutdown has not taken it yet.
    pub closed spec fn thread(&self) -> Option<H> {
        self.thread
    }

    /// Makes worker `id` from the outcome of starting its thread: a started
    /// thread is kept for joining later, a failed start fails the pool.
    pub fn build<E>(id: usize, spawned: Result<H, E>) -> (r: Result<Self, PoolCreationError>)
        ensures
            spawned is Err <==> r == Err::<Self, PoolCreationError>(PoolCreationError::WorkerJobTrouble),
            spawned matches Ok(h) ==> r matches Ok(w) && w.spec_id() == id && w.thread() == Some(h),
    {
        match spawned {
            Ok(h) => Ok(Worker { id, thread: Some(h) }),
            Err(_) => Err(PoolCreationError::WorkerJobTrouble),
        }
    }

    pub fn id(&self) -> (r: usize)
        ensures
            r == self.spec_id(),
    {
        self.id
    }

    /// Hands the thread handle out exactly once: the first call returns it,
    /// every later call returns `None`, so a handle is never joined twice.
    pub fn take_thread(&mut self) -> (r: Option<H>)
        ensures
            r == old(self).thread(),
            final(self).thread() is None,
            final(self).spec_id() == old(self).spec_id(),
    {
        self.thread.take()
    }
}

} // verus!
