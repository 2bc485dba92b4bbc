use vstd::prelude::*;
use std::collections::VecDeque;

use crate::error::PoolCreationError;

verus! {

/// Where one worker stands in its receive loop.
#[derive(Debug, Clone, Copy, PartialEq, Eq, Structural)]
pub enum WorkerState {
    /// Ready for the next job, or blocked until one arrives.
    Waiting,
    /// Executing a job it took from the queue.
    Running,
    /// Saw the queue closed and drained; its loop has ended for good.
    Exited,
}

/// What a worker is told to do when it asks for work.
pub enum Receipt<J> {
    /// Run this job, which now belongs to the worker alone.
    Job(J),
    /// Nothing is queued yet: block until woken, then ask again.
    Wait,
    /// The queue is closed and empty: leave the loop.
    Disconnected,
}

/// The state that the workers of a pool share behind one lock: the queue of
/// submitted jobs, whether it still accepts jobs, and where each worker is.
///
/// Besides the executable state it keeps, as ghost state, every job ever
/// submitted (in order), how many of them have been handed out, which have
/// finished, and which job each running worker holds. Job `k` is the `k`-th
/// submission.
pub struct JobQueue<J> {
    pending: VecDeque<J>,
    open: bool,
    workers: Vec<WorkerState>,
    submitted: Ghost<Seq<J>>,
    taken: Ghost<nat>,
    finished: Ghost<Set<nat>>,
    holding: Ghost<Seq<nat>>,
}

impl<J> JobQueue<J> {
    /// Every job submitted so far, in submission order.
    pub closed spec fn submitted(&self) -> Seq<J> {
        self.submitted@
    }

    /// How many jobs have been handed to workers: always the oldest ones.
    pub closed spec fn taken(&self) -> nat {
        self.taken@
    }

    /// The indices of the jobs whose execution has completed.
    pub closed spec fn finished(&self) -> Set<nat> {
        self.finished@
    }

    /// The state of each worker, in creation order.
    pub closed spec fn workers(&self) -> Seq<WorkerState> {
        self.workers@
    }

    /// For each worker, the index of the job it executes while it is running.
    pub closed spec fn holding(&self) -> Seq<nat> {
        self.holding@
    }

    /// Whether submissions are still accepted.
    pub closed spec fn is_open(&self) -> bool {
        self.open
    }

    /// The jobs submitted and not yet handed out, oldest first.
    pub open spec fn queued(&self) -> Seq<J> {
        self.submitted().subrange(self.taken() as int, self.submitted().len() as int)
    }

    /// Worker `w` exists and executes job `k`.
    pub open spec fn runs(&self, w: int, k: nat) -> bool {
        &&& 0 <= w < self.workers().len()
        &&& self.workers()[w] == WorkerState::Running
        &&& self.holding()[w] == k
    }

    /// Job `k` is executing on some worker.
    pub open spec fn in_progress(&self, k: nat) -> bool {
        exists|w: int| #[trigger] self.runs(w, k)
    }

    /// The queue holds exactly the submitted jobs not yet handed out; each
    /// handed-out job is finished or held by one running worker; a worker
    /// exits only once the queue is closed and drained.
    pub closed spec fn wf(&self) -> bool {
        &&& self.workers@.len() > 0
        &&& self.holding@.len() == self.workers@.len()
        &&& self.taken@ <= self.submitted@.len()
        &&& self.pending@ == self.queued()
        &&& forall|w: int|
            0 <= w < self.workers@.len() && self.workers@[w] == WorkerState::Running ==> {
                &&& self.holding@[w] < self.taken@
                &&& !self.finished@.contains(self.holding@[w])
            }
        &&& forall|w1: int, w2: int|
            #![trigger self.holding@[w1], self.holding@[w2]]
            0 <= w1 < self.workers@.len() && 0 <= w2 < self.workers@.len() && w1 != w2
                && self.workers@[w1] == WorkerState::Running
                && self.workers@[w2] == WorkerState::Running
                ==> self.holding@[w1] != self.holding@[w2]
        &&& forall|k: nat| #[trigger] self.finished@.contains(k) ==> k < self.taken@
        &&& forall|k: nat|
            k < self.taken@ ==> #[trigger] self.finished@.contains(k) || self.in_progress(k)
        &&& forall|w: int|
            0 <= w < self.workers@.len() && self.workers@[w] == WorkerState::Exited ==> {
                &&& !self.open
                &&& self.pending@.len() == 0
            }
    }

    /// Sets up the shared state of a pool of `size` workers, all waiting on
    /// an open, empty queue. A pool of no workers is refused.
    pub fn build(size: usize) -> (r: Result<Self, PoolCreationError>)
        ensures
            size == 0 <==> r == Err::<Self, PoolCreationError>(PoolCreationError::WrongPoolSize),
            r is Ok <==> size > 0,
            r matches Ok(q) ==> {
                &&& q.wf()
                &&& q.is_open()
                &&& q.workers().len() == size
                &&& forall|w: int| 0 <= w < size ==> q.workers()[w] == WorkerState::Waiting
                &&& q.submitted().len() == 0
                &&& q.taken() == 0
                &&& q.finished().is_empty()
            },
    {
        if size == 0 {
            return Err(PoolCreationError::WrongPoolSize);
        }
        let mut workers: Vec<WorkerState> = Vec::with_capacity(size);
        let mut i: usize = 0;
        while i < size
            invariant
                i <= size,
                workers@.len() == i,
                forall|w: int| 0 <= w < i ==> workers@[w] == WorkerState::Waiting,
            decreases size - i,
        {
            workers.push(WorkerState::Waiting);
            i = i + 1;
        }
        let q = JobQueue {
            pending: VecDeque::new(),
            open: true,
            workers,
            submitted: Ghost(Seq::empty()),
            taken: Ghost(0),
            finished: Ghost(Set::empty()),
            holding: Ghost(Seq::new(size as nat, |w: int| 0)),
        };
        assert(q.pending@ =~= q.queued());
        Ok(q)
    }

    /// Everything but the queue contents and the open flag is as in `old`.
    pub open spec fn same_progress(&self, old: &Self) -> bool {
        &&& self.workers() == old.workers()
        &&& self.holding() == old.holding()
        &&& self.taken() == old.taken()
        &&& self.finished() == old.finished()
    }

    /// The number of workers.
    pub fn size(&self) -> (r: usize)
        requires
            self.wf(),
        ensures
            r == self.workers().len(),
    {
        self.workers.len()
    }

    /// Where worker `w` stands.
    pub fn state(&self, w: usize) -> (r: WorkerState)
        requires
            self.wf(),
            w < self.workers().len(),
        ensures
            r == self.workers()[w as int],
    {
        self.workers[w]
    }

    /// Whether submissions are still accepted.
    pub fn accepts(&self) -> (r: bool)
        ensures
            r == self.is_open(),
    {
        self.open
    }

    /// Enqueues `job` behind every job submitted before it. Once the queue
    /// is closed the job is refused and handed back untouched.
    pub fn submit(&mut self, job: J) -> (r: Result<(), J>)
        requires
            old(self).wf(),
        ensures
            final(self).wf(),
            final(self).same_progress(old(self)),
            final(self).is_open() == old(self).is_open(),
            old(self).is_open() ==> r is Ok && final(self).submitted() == old(self).submitted().push(job),
            !old(self).is_open() ==> r == Err::<(), J>(job) && final(self).submitted() == old(self).submitted(),
    {
        if !self.open {
            return Err(job);
        }
        self.pending.push_back(job);
        proof {
            self.submitted@ = self.submitted@.push(job);
            assert(self.pending@ =~= self.queued());
            assert forall|k: nat|
                k < self.taken@ implies #[trigger] self.finished@.contains(k) || self.in_progress(k) by {
                if !self.finished@.contains(k) {
                    assert(old(self).in_progress(k));
                    let w = choose|w: int| #[trigger] old(self).runs(w, k);
                    assert(self.runs(w, k));
                }
            }
        }
        Ok(())
    }

    /// Stops accepting submissions. Jobs already queued stay queued and are
    /// still handed out; closing twice changes nothing.
    pub fn close(&mut self)
        requires
            old(self).wf(),
        ensures
            final(self).wf(),
            !final(self).is_open(),
            final(self).same_progress(old(self)),
            final(self).submitted() == old(self).submitted(),
    {
        self.open = false;
        proof {
            assert forall|k: nat|
                k < self.taken@ implies #[trigger] self.finished@.contains(k) || self.in_progress(k) by {
                if !self.finished@.contains(k) {
                    assert(old(self).in_progress(k));
                    let w = choose|w: int| #[trigger] old(self).runs(w, k);
                    assert(self.runs(w, k));
                }
            }
        }
    }

    /// The decision of worker `w`'s receive loop. The oldest queued job, if
    /// any, goes to `w`, which is then running it; else an open queue makes
    /// `w` wait, and a closed one ends its loop.
    pub fn receive(&mut self, w: usize) -> (r: Receipt<J>)
        requires
            old(self).wf(),
            w < old(self).workers().len(),
            old(self).workers()[w as int] == WorkerState::Waiting,
        ensures
            final(self).wf(),
            final(self).submitted() == old(self).submitted(),
            final(self).is_open() == old(self).is_open(),
            final(self).finished() == old(self).finished(),
            r is Job <==> old(self).queued().len() > 0,
            r is Wait <==> old(self).queued().len() == 0 && old(self).is_open(),
            r is Disconnected <==> old(self).queued().len() == 0 && !old(self).is_open(),
            r matches Receipt::Job(job) ==> {
                &&& job == old(self).submitted()[old(self).taken() as int]
                &&& final(self).taken() == old(self).taken() + 1
                &&& final(self).workers() == old(self).workers().update(w as int, WorkerState::Running)
                &&& final(self).holding() == old(self).holding().update(w as int, old(self).taken())
            },
            r is Wait ==> final(self).same_progress(old(self)),
            r is Disconnected ==> {
                &&& final(self).workers() == old(self).workers().update(w as int, WorkerState::Exited)
                &&& final(self).holding() == old(self).holding()
                &&& final(self).taken() == old(self).taken()
            },
    {
        match self.pending.pop_front() {
            Some(job) => {
                self.workers.set(w, WorkerState::Running);
                proof {
                    let t = self.taken@;
                    self.holding@ = self.holding@.update(w as int, t);
                    self.taken@ = t + 1;
                    assert(self.pending@ =~= self.queued());
                    assert forall|k: nat|
                        k < self.taken@ implies #[trigger] self.finished@.contains(k) || self.in_progress(k) by {
                        if k == t {
                            assert(self.runs(w as int, k));
                        } else if !self.finished@.contains(k) {
                            assert(old(self).in_progress(k));
                            let v = choose|v: int| #[trigger] old(self).runs(v, k);
                            assert(self.runs(v, k));
                        }
                    }
                }
                Receipt::Job(job)
            },
            None => {
                if self.open {
                    proof {
                        assert forall|k: nat|
                            k < self.taken@ implies #[trigger] self.finished@.contains(k) || self.in_progress(k) by {
                            if !self.finished@.contains(k) {
                                assert(old(self).in_progress(k));
                                let v = choose|v: int| #[trigger] old(self).runs(v, k);
                                assert(self.runs(v, k));
                            }
                        }
                    }
                    Receipt::Wait
                } else {
                    self.workers.set(w, WorkerState::Exited);
                    proof {
                        assert forall|k: nat|
                            k < self.taken@ implies #[trigger] self.finished@.contains(k) || self.in_progress(k) by {
                            if !self.finished@.contains(k) {
                                assert(old(self).in_progress(k));
                                let v = choose|v: int| #[trigger] old(self).runs(v, k);
                                assert(self.runs(v, k));
                            }
                        }
                    }
                    Receipt::Disconnected
                }
            },
        }
    }

    /// Worker `w` has completed its job and waits for the next one.
    pub fn finish(&mut self, w: usize)
        requires
            old(self).wf(),
            w < old(self).workers().len(),
            old(self).workers()[w as int] == WorkerState::Running,
        ensures
            final(self).wf(),
            final(self).submitted() == old(self).submitted(),
            final(self).is_open() == old(self).is_open(),
            final(self).taken() == old(self).taken(),
            final(self).holding() == old(self).holding(),
            final(self).workers() == old(self).workers().update(w as int, WorkerState::Waiting),
            final(self).finished() == old(self).finished().insert(old(self).holding()[w as int]),
    {
        self.workers.set(w, WorkerState::Waiting);
        proof {
            let done = self.holding@[w as int];
            self.finished@ = self.finished@.insert(done);
            assert forall|k: nat|
                k < self.taken@ implies #[trigger] self.finished@.contains(k) || self.in_progress(k) by {
                if !self.finished@.contains(k) {
                    assert(old(self).in_progress(k));
                    let v = choose|v: int| #[trigger] old(self).runs(v, k);
                    assert(v != w);
                    assert(self.runs(v, k));
                }
            }
        }
    }
}

/// Each job is accounted for exactly once: a job that has been handed out is
/// either executing on exactly one worker or finished, never both, and a job
/// that has not been handed out (nor one never submitted) has neither run nor
/// started.
pub proof fn lemma_each_job_once<J>(q: &JobQueue<J>)
    requires
        q.wf(),
    ensures
        q.taken() <= q.submitted().len(),
        forall|k: nat| k < q.taken() ==> (#[trigger] q.finished().contains(k) <==> !q.in_progress(k)),
        forall|k: nat, w1: int, w2: int| #[trigger] q.runs(w1, k) && #[trigger] q.runs(w2, k) ==> w1 == w2,
        forall|k: nat| k >= q.taken() ==> !#[trigger] q.finished().contains(k) && !q.in_progress(k),
{
    assert forall|k: nat| k < q.taken() implies (#[trigger] q.finished().contains(k) <==> !q.in_progress(k)) by {
        if q.in_progress(k) {
            let w = choose|w: int| #[trigger] q.runs(w, k);
            assert(q.holding()[w] == k);
        }
    }
    assert forall|k: nat, w1: int, w2: int| #[trigger] q.runs(w1, k) && #[trigger] q.runs(w2, k) implies w1 == w2 by {
        assert(q.holding()[w1] == q.holding()[w2]);
    }
    assert forall|k: nat| k >= q.taken() implies !#[trigger] q.finished().contains(k) && !q.in_progress(k) by {
        if q.in_progress(k) {
            let w = choose|w: int| #[trigger] q.runs(w, k);
            assert(q.holding()[w] == k);
        }
    }
}

/// Once every worker has left its loop, the queue is closed and drained and
/// every job ever submitted has finished: no job is silently dropped.
pub proof fn lemma_shutdown_drains<J>(q: &JobQueue<J>)
    requires
        q.wf(),
        forall|w: int| 0 <= w < q.workers().len() ==> q.workers()[w] == WorkerState::Exited,
    ensures
        !q.is_open(),
        q.queued().len() == 0,
        q.taken() == q.submitted().len(),
        forall|k: nat| k < q.submitted().len() ==> #[trigger] q.finished().contains(k),
{
    assert(q.workers()[0] == WorkerState::Exited);
    assert forall|k: nat| k < q.submitted().len() implies #[trigger] q.finished().contains(k) by {
        if q.in_progress(k) {
            let w = choose|w: int| #[trigger] q.runs(w, k);
            assert(q.workers()[w] == WorkerState::Exited);
        }
    }
}

/// With a single worker, jobs run one after another in submission order:
/// whenever that worker is not running a job, every job handed out so far
/// has finished, and the next one it receives is the oldest queued one
/// (see `receive`).
pub proof fn lemma_single_worker_in_order<J>(q: &JobQueue<J>)
    requires
        q.wf(),
        q.workers().len() == 1,
        q.workers()[0] != WorkerState::Running,
    ensures
        forall|k: nat| k < q.taken() ==> #[trigger] q.finished().contains(k),
{
    assert forall|k: nat| k < q.taken() implies #[trigger] q.finished().contains(k) by {
        if q.in_progress(k) {
            let w = choose|w: int| #[trigger] q.runs(w, k);
            assert(w == 0);
        }
    }
}

} // verus!
