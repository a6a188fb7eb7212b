//! The model of the pool itself: a fixed set of workers, the shared
//! first-in-first-out intake, the dispatch log, and the shutdown protocol.
//!
//! Jobs are opaque to the pool, so the model identifies each submitted job by
//! its submission index: the `t`-th call of [`ThreadPool::execute`] submits
//! job `t`. The intake queue holds the indices not yet delivered, and the
//! dispatch log records, for each delivered job, which worker received it.
//! Well-formedness ties the two together: the queue always holds exactly the
//! submitted-but-undelivered indices in submission order, every delivered job
//! is either completed by or currently running on the worker it was delivered
//! to, and no job is ever delivered to, or completed by, two workers.

use vstd::prelude::*;

use crate::worker::HandleState;
use crate::worker::Worker;
use crate::worker::WorkerState;

verus! {

/// The error returned when a pool is requested with zero workers. No other
/// construction failure exists; it is never produced after construction.
#[derive(Clone, Copy, Debug, PartialEq, Eq, Structural)]
pub struct ThreadPoolCreationError;

impl ThreadPoolCreationError {
    /// The diagnostic text of the error.
    pub fn message(&self) -> (m: &'static str)
        ensures
            m@ == "size of ThreadPool cannot be zero"@,
    {
        "size of ThreadPool cannot be zero"
    }
}

/// What a worker's receive attempt on the intake yields.
#[derive(Clone, Copy, Debug, PartialEq, Eq, Structural)]
pub enum ReceiveOutcome {
    /// The next queued job, identified by its submission index; the worker
    /// now owns it exclusively.
    Received(u64),
    /// The queue is empty but the send side is still open: the worker keeps
    /// waiting (at run time the receive blocks instead of returning this).
    WouldBlock,
    /// The queue is empty and the send side is closed: the worker leaves its
    /// receive loop. This is a worker's only exit path.
    Closed,
}

/// The pool: a fixed collection of workers, the intake, and the send-side
/// state. `submitted` counts the jobs submitted so far, so job indices range
/// over `0..submitted`; `queue` holds the undelivered indices in submission
/// order; `dispatch[j]` names the worker that received job `j`.
pub struct ThreadPool {
    pub workers: Vec<Worker>,
    pub accepting: bool,
    pub submitted: u64,
    pub queue: Vec<u64>,
    pub dispatch: Vec<usize>,
}

impl ThreadPool {
    /// Well-formedness: the invariant every operation of the pool preserves.
    pub open spec fn wf(self) -> bool {
        &&& self.workers@.len() >= 1
        &&& forall|i: int|
            0 <= i < self.workers@.len() ==> (#[trigger] self.workers@[i]).id == i
        &&& self.dispatch@.len() + self.queue@.len() == self.submitted
        &&& forall|k: int|
            0 <= k < self.queue@.len() ==> (#[trigger] self.queue@[k]) as int == self.dispatch@.len() + k
        &&& forall|j: int|
            0 <= j < self.dispatch@.len() ==> (#[trigger] self.dispatch@[j]) < self.workers@.len()
        &&& forall|w: int, a: int, b: int|
            0 <= w < self.workers@.len() && 0 <= a < b < self.workers@[w].completed@.len()
                ==> #[trigger] self.workers@[w].completed@[a] < #[trigger] self.workers@[w].completed@[b]
        &&& forall|w: int, a: int|
            0 <= w < self.workers@.len() && 0 <= a < self.workers@[w].completed@.len()
                ==> (#[trigger] self.workers@[w].completed@[a]) < self.dispatch@.len()
                    && self.dispatch@[self.workers@[w].completed@[a] as int] == w
        &&& forall|w: int|
            0 <= w < self.workers@.len() ==> match (#[trigger] self.workers@[w]).state {
                WorkerState::Busy(j) => j < self.dispatch@.len() && self.dispatch@[j as int] == w
                    && (forall|a: int|
                        0 <= a < self.workers@[w].completed@.len()
                            ==> (#[trigger] self.workers@[w].completed@[a]) < j),
                _ => true,
            }
        &&& forall|j: int|
            0 <= j < self.dispatch@.len()
                ==> self.job_accounted(#[trigger] self.dispatch@[j] as int, j as u64)
    }

    /// Job `j` was delivered to worker `w` and is either already completed by
    /// `w` or currently running on `w`.
    pub open spec fn job_accounted(self, w: int, j: u64) -> bool {
        self.workers@[w].completed@.contains(j) || self.workers@[w].state == WorkerState::Busy(j)
    }

    /// Worker `w` ran job `j` to completion.
    pub open spec fn executed_by(self, w: int, j: u64) -> bool {
        0 <= w < self.workers@.len() && self.workers@[w].completed@.contains(j)
    }

    /// The intake is empty and no worker is mid-job: every delivered job has
    /// been run to completion.
    pub open spec fn drained(self) -> bool {
        &&& self.queue@.len() == 0
        &&& forall|w: int|
            0 <= w < self.workers@.len() ==> !((#[trigger] self.workers@[w]).state is Busy)
    }

    /// Terminal state: submission closed, every worker has observed closure
    /// and left its loop, and every thread handle has been consumed.
    pub open spec fn stopped(self) -> bool {
        &&& !self.accepting
        &&& forall|w: int|
            0 <= w < self.workers@.len() ==> (#[trigger] self.workers@[w]).state is Exited
        &&& forall|w: int|
            0 <= w < self.workers@.len() ==> (#[trigger] self.workers@[w]).handle is Taken
    }

    /// Create a pool of exactly `size` workers sharing one intake.
    ///
    /// A requested size of zero is the single validated precondition: it
    /// fails with `ThreadPoolCreationError`, and no worker record is created.
    /// Construction is atomic with respect to failure.
    pub fn build(size: usize) -> (r: Result<ThreadPool, ThreadPoolCreationError>)
        ensures
            size == 0 <==> r is Err,
            r matches Ok(p) ==> {
                &&& p.wf()
                &&& p.workers@.len() == size
                &&& forall|i: int| 0 <= i < size ==> (#[trigger] p.workers@[i]).fresh(i as usize)
                &&& p.accepting
                &&& p.submitted == 0
                &&& p.queue@.len() == 0
                &&& p.dispatch@.len() == 0
            },
    {
        if size == 0 {
            return Err(ThreadPoolCreationError);
        }
        let mut workers: Vec<Worker> = Vec::with_capacity(size);
        for id in 0..size
            invariant
                workers@.len() == id,
                forall|i: int| 0 <= i < id ==> (#[trigger] workers@[i]).fresh(i as usize),
        {
            workers.push(Worker::new(id));
        }
        Ok(ThreadPool { workers, accepting: true, submitted: 0, queue: Vec::new(), dispatch: Vec::new() })
    }

    /// Submit one job while the pool is accepting: the job is appended to the
    /// intake queue and its submission index is returned. Submission after
    /// the send side is closed is a lifecycle violation and is excluded by
    /// the precondition, as is exhaustion of the index space.
    pub fn execute(&mut self) -> (t: u64)
        requires
            old(self).wf(),
            old(self).accepting,
            old(self).submitted < u64::MAX,
        ensures
            final(self).wf(),
            t == old(self).submitted,
            final(self).submitted == old(self).submitted + 1,
            final(self).queue@ == old(self).queue@.push(t),
            final(self).workers@ == old(self).workers@,
            final(self).dispatch@ == old(self).dispatch@,
            final(self).accepting,
    {
        let ghost pre = *self;
        let t = self.submitted;
        self.queue.push(t);
        self.submitted = self.submitted + 1;
        proof {
            assert forall|k: int| 0 <= k < self.queue@.len() implies (#[trigger] self.queue@[k])
                as int == self.dispatch@.len() + k by {
                if k < self.queue@.len() - 1 {
                    assert(self.queue@[k] == pre.queue@[k]);
                }
            }
        }
        t
    }

    /// The submission index of the job worker `w` is currently running.
    pub open spec fn busy_job(self, w: int) -> u64 {
        self.workers@[w].state->Busy_0
    }

    /// One receive attempt by worker `wid` on the shared intake, made under
    /// exclusive access to the receive side (at run time, with the receive
    /// lock held for the attempt alone, never while the job runs).
    ///
    /// Delivery is first-in-first-out in global submission order: the job
    /// handed out is always the oldest queued one, and its index equals the
    /// number of jobs delivered before it. A delivered job leaves the queue
    /// at the same moment it is recorded against `wid`, so it can never be
    /// delivered twice or to two workers. Closure is reported only when the
    /// send side is closed and the queue is fully drained, so no queued job
    /// is ever discarded by shutdown.
    pub fn recv(&mut self, wid: usize) -> (r: ReceiveOutcome)
        requires
            old(self).wf(),
            wid < old(self).workers@.len(),
            old(self).workers@[wid as int].state is Idle,
        ensures
            final(self).wf(),
            final(self).submitted == old(self).submitted,
            final(self).accepting == old(self).accepting,
            final(self).workers@.len() == old(self).workers@.len(),
            forall|i: int|
                0 <= i < old(self).workers@.len() && i != wid
                    ==> final(self).workers@[i] == old(self).workers@[i],
            final(self).workers@[wid as int].id == wid,
            final(self).workers@[wid as int].handle == old(self).workers@[wid as int].handle,
            final(self).workers@[wid as int].completed == old(self).workers@[wid as int].completed,
            old(self).queue@.len() > 0 ==> {
                &&& r == ReceiveOutcome::Received(old(self).queue@[0])
                &&& old(self).queue@[0] == old(self).dispatch@.len()
                &&& final(self).queue@ == old(self).queue@.drop_first()
                &&& final(self).dispatch@ == old(self).dispatch@.push(wid)
                &&& final(self).workers@[wid as int].state == WorkerState::Busy(old(self).queue@[0])
            },
            old(self).queue@.len() == 0 && old(self).accepting ==> {
                &&& r == ReceiveOutcome::WouldBlock
                &&& final(self).queue@ == old(self).queue@
                &&& final(self).dispatch@ == old(self).dispatch@
                &&& final(self).workers@ == old(self).workers@
            },
            old(self).queue@.len() == 0 && !old(self).accepting ==> {
                &&& r == ReceiveOutcome::Closed
                &&& final(self).queue@ == old(self).queue@
                &&& final(self).dispatch@ == old(self).dispatch@
                &&& final(self).workers@[wid as int].state == WorkerState::Exited
            },
    {
        let ghost pre = *self;
        if self.queue.len() > 0 {
            let j = self.queue.remove(0);
            self.dispatch.push(wid);
            let w = &mut self.workers[wid];
            w.state = WorkerState::Busy(j);
            proof {
                assert forall|k: int|
                    0 <= k < self.queue@.len() implies (#[trigger] self.queue@[k]) as int
                    == self.dispatch@.len() + k by {
                    assert(self.queue@[k] == pre.queue@[k + 1]);
                }
            }
            ReceiveOutcome::Received(j)
        } else if self.accepting {
            ReceiveOutcome::WouldBlock
        } else {
            let w = &mut self.workers[wid];
            w.state = WorkerState::Exited;
            ReceiveOutcome::Closed
        }
    }

    /// Worker `wid` runs its current job to completion: the job moves from
    /// running to completed and the worker returns to its receive loop. The
    /// completed record stays strictly increasing, so a worker can never
    /// complete the same job twice.
    pub fn finish(&mut self, wid: usize)
        requires
            old(self).wf(),
            wid < old(self).workers@.len(),
            old(self).workers@[wid as int].state is Busy,
        ensures
            final(self).wf(),
            final(self).submitted == old(self).submitted,
            final(self).accepting == old(self).accepting,
            final(self).queue@ == old(self).queue@,
            final(self).dispatch@ == old(self).dispatch@,
            final(self).workers@.len() == old(self).workers@.len(),
            forall|i: int|
                0 <= i < old(self).workers@.len() && i != wid
                    ==> final(self).workers@[i] == old(self).workers@[i],
            final(self).workers@[wid as int].id == wid,
            final(self).workers@[wid as int].handle == old(self).workers@[wid as int].handle,
            final(self).workers@[wid as int].state is Idle,
            final(self).workers@[wid as int].completed@ == old(self).workers@[
                wid as int
            ].completed@.push(old(self).busy_job(wid as int)),
    {
        let ghost pre = *self;
        let w = &mut self.workers[wid];
        let j = match w.state {
            WorkerState::Busy(j) => j,
            _ => 0,  // unreachable under the precondition
        };
        w.completed.push(j);
        w.state = WorkerState::Idle;
        proof {
            let wi = wid as int;
            let done = self.workers@[wi].completed@;
            assert(done == pre.workers@[wi].completed@.push(j));
            assert(pre.workers@[wi].state == WorkerState::Busy(j));
            assert forall|w0: int, a: int, b: int|
                0 <= w0 < self.workers@.len() && 0 <= a < b < self.workers@[w0].completed@.len()
                implies self.workers@[w0].completed@[a] < self.workers@[w0].completed@[b] by {
                if w0 == wi {
                    assert(done[a] == pre.workers@[wi].completed@[a]);
                    if b < done.len() - 1 {
                        assert(done[b] == pre.workers@[wi].completed@[b]);
                    } else {
                        assert(done[b] == j);
                    }
                } else {
                    assert(self.workers@[w0] == pre.workers@[w0]);
                    assert(pre.workers@[w0].completed@[a] < pre.workers@[w0].completed@[b]);
                }
            }
            assert forall|w0: int, a: int|
                0 <= w0 < self.workers@.len() && 0 <= a < self.workers@[w0].completed@.len()
                implies self.workers@[w0].completed@[a] < self.dispatch@.len()
                    && self.dispatch@[self.workers@[w0].completed@[a] as int] == w0 by {
                if w0 == wi {
                    if a < done.len() - 1 {
                        assert(done[a] == pre.workers@[wi].completed@[a]);
                    } else {
                        assert(done[a] == j);
                    }
                } else {
                    assert(self.workers@[w0] == pre.workers@[w0]);
                    assert(pre.workers@[w0].completed@[a] < pre.dispatch@.len()
                        && pre.dispatch@[pre.workers@[w0].completed@[a] as int] == w0);
                }
            }
            assert forall|jj: int|
                0 <= jj < self.dispatch@.len() implies self.job_accounted(
                #[trigger] self.dispatch@[jj] as int,
                jj as u64,
            ) by {
                let w0 = pre.dispatch@[jj] as int;
                assert(pre.job_accounted(w0, jj as u64));
                if w0 == wi {
                    if pre.workers@[w0].completed@.contains(jj as u64) {
                        let a = choose|a: int|
                            0 <= a < pre.workers@[w0].completed@.len()
                                && pre.workers@[w0].completed@[a] == jj as u64;
                        assert(done[a] == jj as u64);
                    } else {
                        assert(jj as u64 == j);
                        assert(done[done.len() - 1] == j);
                    }
                }
            }
        }
    }

    /// Close the send side of the intake. This is the one-shot trigger of the
    /// `Accepting` to `Draining` transition; closing an already closed intake
    /// changes nothing, so the send side cannot be consumed twice. Jobs
    /// already queued stay queued and will still be delivered.
    pub fn close_intake(&mut self)
        requires
            old(self).wf(),
        ensures
            final(self).wf(),
            !final(self).accepting,
            final(self).workers@ == old(self).workers@,
            final(self).submitted == old(self).submitted,
            final(self).queue@ == old(self).queue@,
            final(self).dispatch@ == old(self).dispatch@,
    {
        self.accepting = false;
    }

    /// Consume worker `wid`'s thread handle, after the worker has observed
    /// closure and exited its loop (at run time this is the blocking join).
    /// The handle moves from present to taken; on a handle already taken the
    /// call changes nothing, so the handle can never be waited on twice.
    pub fn join_worker(&mut self, wid: usize)
        requires
            old(self).wf(),
            wid < old(self).workers@.len(),
            old(self).workers@[wid as int].state is Exited,
        ensures
            final(self).wf(),
            final(self).submitted == old(self).submitted,
            final(self).accepting == old(self).accepting,
            final(self).queue@ == old(self).queue@,
            final(self).dispatch@ == old(self).dispatch@,
            final(self).workers@.len() == old(self).workers@.len(),
            forall|i: int|
                0 <= i < old(self).workers@.len() && i != wid
                    ==> final(self).workers@[i] == old(self).workers@[i],
            final(self).workers@[wid as int].handle is Taken,
            final(self).workers@[wid as int].id == wid,
            final(self).workers@[wid as int].state == old(self).workers@[wid as int].state,
            final(self).workers@[wid as int].completed == old(self).workers@[wid as int].completed,
            old(self).workers@[wid as int].handle is Taken
                ==> final(self).workers@[wid as int] == old(self).workers@[wid as int],
    {
        let w = &mut self.workers[wid];
        w.handle = HandleState::Taken;
    }

    /// Tear the pool down: close the send side, then consume every worker's
    /// thread handle in ascending identifier order. Callable once every
    /// worker has observed closure (at run time each join blocks until its
    /// worker has); afterwards the pool is stopped: no queued job was
    /// discarded, the completion records are untouched, and no worker thread
    /// remains. A second teardown of a stopped pool changes nothing.
    pub fn shutdown(&mut self)
        requires
            old(self).wf(),
            forall|w: int|
                0 <= w < old(self).workers@.len()
                    ==> (#[trigger] old(self).workers@[w]).state is Exited,
        ensures
            final(self).wf(),
            final(self).stopped(),
            final(self).submitted == old(self).submitted,
            final(self).queue@ == old(self).queue@,
            final(self).dispatch@ == old(self).dispatch@,
            final(self).workers@.len() == old(self).workers@.len(),
            forall|i: int|
                0 <= i < old(self).workers@.len()
                    ==> (#[trigger] final(self).workers@[i]).id == old(self).workers@[i].id
                        && final(self).workers@[i].state == old(self).workers@[i].state
                        && final(self).workers@[i].completed == old(self).workers@[i].completed,
            old(self).stopped() ==> final(self).workers@ == old(self).workers@,
    {
        let ghost pre = *self;
        self.close_intake();
        let mut id: usize = 0;
        while id < self.workers.len()
            invariant
                self.wf(),
                id <= self.workers@.len(),
                self.workers@.len() == pre.workers@.len(),
                self.submitted == pre.submitted,
                self.queue@ == pre.queue@,
                self.dispatch@ == pre.dispatch@,
                !self.accepting,
                forall|w: int|
                    0 <= w < self.workers@.len()
                        ==> (#[trigger] self.workers@[w]).state is Exited,
                forall|i: int|
                    0 <= i < id ==> (#[trigger] self.workers@[i]).handle is Taken,
                forall|i: int|
                    0 <= i < self.workers@.len()
                        ==> (#[trigger] self.workers@[i]).id == pre.workers@[i].id
                            && self.workers@[i].state == pre.workers@[i].state
                            && self.workers@[i].completed == pre.workers@[i].completed,
                forall|i: int|
                    id <= i < self.workers@.len()
                        ==> (#[trigger] self.workers@[i]).handle == pre.workers@[i].handle,
            decreases self.workers@.len() - id,
        {
            self.join_worker(id);
            id = id + 1;
        }
        proof {
            if pre.stopped() {
                assert forall|i: int| 0 <= i < self.workers@.len() implies (
                #[trigger] self.workers@[i]) == pre.workers@[i] by {
                }
                assert(self.workers@ =~= pre.workers@);
            }
        }
    }

    /// Law: once the pool is drained, every submitted job has been executed
    /// exactly once, by exactly one worker — never zero times and never more
    /// than once. Job `j` was run by worker `dispatch[j]` and by no other,
    /// no worker ran any job twice, and no worker ran a job that was never
    /// submitted. This holds for every sequence of submissions, including
    /// jobs submitted immediately before the intake was closed.
    pub proof fn lemma_exactly_once(self)
        requires
            self.wf(),
            self.drained(),
        ensures
            self.dispatch@.len() == self.submitted,
            forall|j: int|
                0 <= j < self.submitted
                    ==> self.executed_by(#[trigger] self.dispatch@[j] as int, j as u64),
            forall|w1: int, w2: int, j: u64|
                self.executed_by(w1, j) && self.executed_by(w2, j) ==> w1 == w2,
            forall|w: int, a: int, b: int|
                0 <= w < self.workers@.len() && 0 <= a < self.workers@[w].completed@.len()
                    && 0 <= b < self.workers@[w].completed@.len()
                    && (#[trigger] self.workers@[w].completed@[a])
                        == (#[trigger] self.workers@[w].completed@[b]) ==> a == b,
            forall|w: int, j: u64| #[trigger] self.executed_by(w, j) ==> j < self.submitted,
    {
        assert forall|j: int|
            0 <= j < self.submitted implies self.executed_by(
            #[trigger] self.dispatch@[j] as int,
            j as u64,
        ) by {
            let w = self.dispatch@[j] as int;
            assert(self.job_accounted(w, j as u64));
            assert(!(self.workers@[w].state is Busy));
        }
        assert forall|w1: int, w2: int, j: u64|
            self.executed_by(w1, j) && self.executed_by(w2, j) implies w1 == w2 by {
            let a1 = choose|a: int|
                0 <= a < self.workers@[w1].completed@.len()
                    && self.workers@[w1].completed@[a] == j;
            let a2 = choose|a: int|
                0 <= a < self.workers@[w2].completed@.len()
                    && self.workers@[w2].completed@[a] == j;
            assert(self.dispatch@[self.workers@[w1].completed@[a1] as int] == w1);
            assert(self.dispatch@[self.workers@[w2].completed@[a2] as int] == w2);
        }
        assert forall|w: int, a: int, b: int|
            0 <= w < self.workers@.len() && 0 <= a < self.workers@[w].completed@.len()
                && 0 <= b < self.workers@[w].completed@.len()
                && (#[trigger] self.workers@[w].completed@[a])
                    == (#[trigger] self.workers@[w].completed@[b]) implies a == b by {
            if a < b {
                assert(self.workers@[w].completed@[a] < self.workers@[w].completed@[b]);
            }
            if b < a {
                assert(self.workers@[w].completed@[b] < self.workers@[w].completed@[a]);
            }
        }
    }

    /// Every index `0..=j` of the single worker's completion record holds its
    /// own value: the induction behind [`Self::lemma_single_worker_fifo`].
    proof fn lemma_identity_prefix(self, j: int)
        requires
            self.wf(),
            self.drained(),
            self.workers@.len() == 1,
            0 <= j < self.submitted,
        ensures
            forall|i: int|
                0 <= i <= j ==> i < self.workers@[0].completed@.len()
                    && (#[trigger] self.workers@[0].completed@[i]) == i,
        decreases j,
    {
        if j > 0 {
            self.lemma_identity_prefix(j - 1);
        }
        let done = self.workers@[0].completed@;
        assert(self.dispatch@.len() == self.submitted);
        assert(self.dispatch@[j] == 0);
        assert(self.job_accounted(0, j as u64));
        assert(!(self.workers@[0].state is Busy));
        let a = choose|a: int| 0 <= a < done.len() && done[a] == j as u64;
        if a < j {
            assert(done[a] == a);
        } else if a > j {
            assert(done[j] < done[a]);
            if j > 0 {
                assert(done[j - 1] < done[j]);
                assert(done[j - 1] == j - 1);
            }
        }
    }

    /// Law: with a single worker, delivery order is submission order, so the
    /// worker's completion record after draining is exactly the submission
    /// sequence `0, 1, ..., submitted - 1` in order.
    pub proof fn lemma_single_worker_fifo(self)
        requires
            self.wf(),
            self.drained(),
            self.workers@.len() == 1,
        ensures
            self.workers@[0].completed@.len() == self.submitted,
            forall|k: int|
                0 <= k < self.submitted ==> (#[trigger] self.workers@[0].completed@[k]) == k,
    {
        let done = self.workers@[0].completed@;
        let n = self.submitted as int;
        assert(self.dispatch@.len() == self.submitted);
        if n > 0 {
            self.lemma_identity_prefix(n - 1);
            assert(done[n - 1] == n - 1);
            assert(done.len() >= n);
            if done.len() > n {
                assert(done[n] < self.dispatch@.len());
                assert(done[n - 1] < done[n]);
                assert(done[n - 1] == n - 1);
                assert(false);
            }
        } else {
            if done.len() > 0 {
                assert(done[0] < self.dispatch@.len());
                assert(false);
            }
        }
    }
}

} // verus!
