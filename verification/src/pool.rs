//! The worker pool: a fixed set of workers, the sending half of one shared
//! intake channel, and the pool's lifecycle from construction through
//! drain-and-join shutdown.
//!
//! Each submitted unit of work is identified by its submission index: the
//! first unit ever handed to the pool is unit `0`, the next unit `1`, and so
//! on. The intake channel is unbounded and first-in-first-out, so at every
//! moment the queue holds exactly the consecutive indices that were submitted
//! but not yet claimed by a worker.

use vstd::prelude::*;

use crate::worker::Worker;
use crate::worker::WorkerState;

verus! {

/// Where the pool stands in its lifecycle.
#[derive(Clone, Copy, Debug, PartialEq, Eq, Structural)]
pub enum Phase {
    /// The sending endpoint is alive: submissions are accepted.
    Running,
    /// The sending endpoint was dropped: workers drain the queue and exit.
    Draining,
}

/// The pool's fatal errors. Neither is recovered from: a zero-size pool is
/// never constructed, and a submission after shutdown is caller misuse.
#[derive(Clone, Copy, Debug, PartialEq, Eq, Structural)]
pub enum PoolError {
    /// A pool of zero workers was requested.
    ZeroSize,
    /// A unit was submitted after pool shutdown had begun.
    ShutDown,
}

/// A fixed-size worker pool with its intake channel.
///
/// `submitted`, `started` and `completed` record the pool's history: how many
/// units were ever accepted, how many a worker has claimed, and which units
/// finished, in the order they finished. The queue holds the submission
/// indices of the units still waiting, oldest first.
pub struct ThreadPool {
    /// The workers, created once; worker `i` holds identity `i`.
    pub workers: Vec<Worker>,
    /// Submission indices accepted but not yet claimed, oldest first.
    pub queue: Vec<usize>,
    /// How many units have been submitted over the pool's life.
    pub submitted: usize,
    /// How many units a worker has claimed over the pool's life.
    pub started: usize,
    /// Submission indices of finished units, in completion order.
    pub completed: Vec<usize>,
    /// Where the pool stands in its lifecycle.
    pub phase: Phase,
}

impl ThreadPool {
    /// The number of workers, fixed at construction.
    pub open spec fn size(self) -> int {
        self.workers@.len() as int
    }

    /// Unit `j` is claimed by some worker that is still running it.
    pub open spec fn in_flight(self, j: usize) -> bool {
        exists|i: int|
            0 <= i < self.size() && self.workers@[i].state == (WorkerState::Busy { job: j })
    }

    /// Worker identities are exactly `0..size`, in order.
    pub open spec fn ids_in_order(self) -> bool {
        forall|i: int| 0 <= i < self.size() ==> (#[trigger] self.workers@[i]).id == i
    }

    /// The queue holds exactly the submitted-but-unclaimed indices, oldest
    /// first: first-in-first-out delivery.
    pub open spec fn queue_is_fifo(self) -> bool {
        &&& self.started + self.queue@.len() == self.submitted
        &&& forall|i: int|
            0 <= i < self.queue@.len() ==> #[trigger] self.queue@[i] == self.started + i
    }

    /// Every claimed-and-running unit was really claimed, no two workers run
    /// the same unit, and no running unit has already been recorded finished.
    pub open spec fn busy_ok(self) -> bool {
        &&& forall|i: int|
            0 <= i < self.size() ==> ((#[trigger] self.workers@[i]).state matches WorkerState::Busy
                { job } ==> job < self.started && !self.completed@.contains(job))
        &&& forall|i1: int, i2: int|
            #![trigger self.workers@[i1], self.workers@[i2]]
            0 <= i1 < self.size() && 0 <= i2 < self.size() && i1 != i2 ==> !(
            self.workers@[i1].state matches WorkerState::Busy { job: j1 }
                && self.workers@[i2].state matches WorkerState::Busy { job: j2 } && j1 == j2)
    }

    /// The completion log never names a unit twice, names only claimed units,
    /// and together with the units still in flight accounts for every claimed
    /// unit: nothing claimed is lost.
    pub open spec fn completed_ok(self) -> bool {
        &&& self.completed@.no_duplicates()
        &&& forall|k: int|
            0 <= k < self.completed@.len() ==> #[trigger] self.completed@[k] < self.started
        &&& forall|j: usize|
            j < self.started ==> #[trigger] self.completed@.contains(j) || self.in_flight(j)
    }

    /// A worker exits only on channel closure with nothing queued, and the
    /// queue can never grow again afterwards.
    pub open spec fn exited_ok(self) -> bool {
        forall|i: int|
            0 <= i < self.size() ==> ((#[trigger] self.workers@[i]).state is Exited ==> self.phase
                is Draining && self.queue@.len() == 0)
    }

    /// The pool's invariant: established by construction, preserved by every
    /// operation.
    pub open spec fn wf(self) -> bool {
        &&& self.size() > 0
        &&& self.ids_in_order()
        &&& self.queue_is_fifo()
        &&& self.busy_ok()
        &&& self.completed_ok()
        &&& self.exited_ok()
    }

    /// Every worker has observed channel closure and terminated: shutdown is
    /// complete.
    pub open spec fn terminated(self) -> bool {
        forall|i: int| 0 <= i < self.size() ==> (#[trigger] self.workers@[i]).state is Exited
    }

    /// Create a pool of `size` workers, each blocked on a fresh, empty intake
    /// channel. A zero-size pool is refused before any worker is created:
    /// submission would have no consumer and would silently queue forever.
    pub fn new(size: usize) -> (r: Result<ThreadPool, PoolError>)
        ensures
            size == 0 <==> r is Err,
            r is Err ==> r == Result::<ThreadPool, PoolError>::Err(PoolError::ZeroSize),
            r matches Ok(p) ==> {
                &&& p.wf()
                &&& p.size() == size
                &&& p.ids_in_order()
                &&& forall|i: int| 0 <= i < size ==> (#[trigger] p.workers@[i]).state is Idle
                &&& p.queue@ =~= Seq::<usize>::empty()
                &&& p.submitted == 0
                &&& p.started == 0
                &&& p.completed@ =~= Seq::<usize>::empty()
                &&& p.phase is Running
            },
    {
        if size == 0 {
            return Err(PoolError::ZeroSize);
        }
        let mut workers: Vec<Worker> = Vec::new();
        let mut id: usize = 0;
        while id < size
            invariant
                id <= size,
                workers@.len() == id,
                forall|i: int| 0 <= i < id ==> (#[trigger] workers@[i]).id == i,
                forall|i: int| 0 <= i < id ==> (#[trigger] workers@[i]).state is Idle,
            decreases size - id,
        {
            workers.push(Worker::new(id));
            id = id + 1;
        }
        Ok(
            ThreadPool {
                workers,
                queue: Vec::new(),
                submitted: 0,
                started: 0,
                completed: Vec::new(),
                phase: Phase::Running,
            },
        )
    }

    /// Submit one unit of work: enqueue it on the intake channel and return
    /// its submission index. Never blocks: the channel is unbounded. Fails,
    /// fatally for the calling operation, exactly when shutdown has begun and
    /// the receiving side is gone; the pool is left unchanged then.
    pub fn execute(&mut self) -> (r: Result<usize, PoolError>)
        requires
            old(self).wf(),
            old(self).submitted < usize::MAX,
        ensures
            final(self).wf(),
            old(self).phase is Running ==> {
                &&& r == Result::<usize, PoolError>::Ok(old(self).submitted)
                &&& final(self).queue@ == old(self).queue@.push(old(self).submitted)
                &&& final(self).submitted == old(self).submitted + 1
            },
            old(self).phase is Draining ==> {
                &&& r == Result::<usize, PoolError>::Err(PoolError::ShutDown)
                &&& final(self).queue@ == old(self).queue@
                &&& final(self).submitted == old(self).submitted
            },
            final(self).workers == old(self).workers,
            final(self).started == old(self).started,
            final(self).completed == old(self).completed,
            final(self).phase == old(self).phase,
    {
        match self.phase {
            Phase::Draining => Err(PoolError::ShutDown),
            Phase::Running => {
                let idx = self.submitted;
                self.queue.push(idx);
                self.submitted = self.submitted + 1;
                Ok(idx)
            },
        }
    }

    /// One pass of worker `wid`'s loop at the intake channel: the worker,
    /// currently waiting, acquires exclusive access to the shared receiving
    /// endpoint and receives. The receive call returns only when a unit is
    /// queued or the channel is closed, which is what the last precondition
    /// says. With a unit queued, the worker claims the oldest one — so units
    /// are claimed in exactly submission order — then releases the lock before
    /// running the unit, leaving the other workers free to claim. With the
    /// queue empty after shutdown began, the worker observes closure and
    /// terminates its loop.
    pub fn claim(&mut self, wid: usize) -> (r: Option<usize>)
        requires
            old(self).wf(),
            wid < old(self).size(),
            old(self).workers@[wid as int].state is Idle,
            old(self).queue@.len() > 0 || old(self).phase is Draining,
        ensures
            final(self).wf(),
            old(self).queue@.len() > 0 ==> {
                &&& r == Some(old(self).started)
                &&& r == Some(old(self).queue@[0])
                &&& final(self).workers@ == old(self).workers@.update(
                    wid as int,
                    (Worker { id: wid, state: WorkerState::Busy { job: old(self).started } }),
                )
                &&& final(self).queue@ == old(self).queue@.drop_first()
                &&& final(self).started == old(self).started + 1
            },
            old(self).queue@.len() == 0 ==> {
                &&& r is None
                &&& final(self).workers@ == old(self).workers@.update(
                    wid as int,
                    (Worker { id: wid, state: WorkerState::Exited }),
                )
                &&& final(self).queue@ == old(self).queue@
                &&& final(self).started == old(self).started
            },
            final(self).submitted == old(self).submitted,
            final(self).completed == old(self).completed,
            final(self).phase == old(self).phase,
    {
        proof {
            assert(old(self).workers@[wid as int].id == wid);
        }
        if self.queue.len() > 0 {
            let job = self.queue.remove(0);
            self.workers[wid].state = WorkerState::Busy { job };
            self.started = self.started + 1;
            proof {
                assert(self.queue@ =~= old(self).queue@.drop_first());
                assert forall|j: usize| j < self.started implies self.completed@.contains(j)
                    || self.in_flight(j) by {
                    if j < old(self).started {
                        if !old(self).completed@.contains(j) {
                            let i = choose|i: int|
                                0 <= i < old(self).size() && old(self).workers@[i].state == (
                                WorkerState::Busy { job: j });
                            assert(self.workers@[i].state == (WorkerState::Busy { job: j }));
                        }
                    } else {
                        assert(self.workers@[wid as int].state == (WorkerState::Busy { job: j }));
                    }
                }
            }
            Some(job)
        } else {
            self.workers[wid].state = WorkerState::Exited;
            proof {
                assert forall|j: usize| j < self.started implies self.completed@.contains(j)
                    || self.in_flight(j) by {
                    if !old(self).completed@.contains(j) {
                        let i = choose|i: int|
                            0 <= i < old(self).size() && old(self).workers@[i].state == (
                            WorkerState::Busy { job: j });
                        assert(self.workers@[i].state == (WorkerState::Busy { job: j }));
                    }
                }
            }
            None
        }
    }

    /// Worker `wid` runs its claimed unit to completion: the unit's index is
    /// appended to the completion log and the worker goes back to waiting at
    /// the intake channel. The unit was claimed by `wid` alone, so this is the
    /// one completion record that unit will ever get.
    pub fn complete(&mut self, wid: usize)
        requires
            old(self).wf(),
            wid < old(self).size(),
            old(self).workers@[wid as int].state is Busy,
        ensures
            final(self).wf(),
            final(self).workers@ == old(self).workers@.update(
                wid as int,
                (Worker { id: wid, state: WorkerState::Idle }),
            ),
            final(self).completed@ == old(self).completed@.push(
                old(self).workers@[wid as int].state->job,
            ),
            final(self).queue == old(self).queue,
            final(self).submitted == old(self).submitted,
            final(self).started == old(self).started,
            final(self).phase == old(self).phase,
    {
        proof {
            assert(old(self).workers@[wid as int].id == wid);
            self.lemma_completed_len();
        }
        let job = match self.workers[wid].state {
            WorkerState::Busy { job } => job,
            _ => vstd::pervasive::unreached(),
        };
        self.workers[wid].state = WorkerState::Idle;
        self.completed.push(job);
        proof {
            let oldc = old(self).completed@;
            assert forall|j: usize| j < self.started implies self.completed@.contains(j)
                || self.in_flight(j) by {
                if j == job {
                    assert(self.completed@[oldc.len() as int] == j);
                } else if oldc.contains(j) {
                    let k = choose|k: int| 0 <= k < oldc.len() && oldc[k] == j;
                    assert(self.completed@[k] == j);
                } else {
                    let i = choose|i: int|
                        0 <= i < old(self).size() && old(self).workers@[i].state == (
                        WorkerState::Busy { job: j });
                    assert(self.workers@[i].state == (WorkerState::Busy { job: j }));
                }
            }
            assert forall|i: int|
                0 <= i < self.size() && (#[trigger] self.workers@[i]).state is Busy implies
                self.workers@[i].state->job < self.started && !self.completed@.contains(
                self.workers@[i].state->job,
            ) by {
                let j = self.workers@[i].state->job;
                assert(i != wid as int);
                assert(old(self).workers@[i].state == (WorkerState::Busy { job: j }));
                assert(j != job);
                if self.completed@.contains(j) {
                    let k = choose|k: int| 0 <= k < self.completed@.len() && self.completed@[k] == j;
                    assert(oldc[k] == j);
                }
            }
        }
    }

    /// Begin pool shutdown: the pool drops its sending endpoint, so no further
    /// submission can succeed, and every worker that finds the queue empty
    /// from now on observes closure and exits.
    pub fn begin_shutdown(&mut self)
        requires
            old(self).wf(),
            old(self).phase is Running,
        ensures
            final(self).wf(),
            final(self).phase is Draining,
            final(self).workers == old(self).workers,
            final(self).queue == old(self).queue,
            final(self).submitted == old(self).submitted,
            final(self).started == old(self).started,
            final(self).completed == old(self).completed,
    {
        self.phase = Phase::Draining;
    }

    /// Law: the completion log never outgrows the number of claimed units,
    /// and while any worker is still running a unit the log is strictly
    /// shorter than that number.
    pub proof fn lemma_completed_len(self)
        requires
            self.wf(),
        ensures
            self.completed@.len() <= self.started,
            forall|i: int|
                0 <= i < self.size() && (#[trigger] self.workers@[i]).state is Busy
                    ==> self.completed@.len() < self.started,
    {
        let f = (|x: usize| x as int);
        let ints = self.completed@.map_values(f);
        assert(vstd::relations::injective(f));
        self.completed@.lemma_no_duplicates_injective(f);
        ints.unique_seq_to_set();
        let range = vstd::set_lib::set_int_range(0, self.started as int);
        vstd::set_lib::lemma_int_range(0, self.started as int);
        assert forall|v: int| ints.to_set().contains(v) implies range.contains(v) by {
            let k = choose|k: int| 0 <= k < ints.len() && ints[k] == v;
            assert(ints[k] == self.completed@[k] as int);
        }
        vstd::set_lib::lemma_len_subset(ints.to_set(), range);
        assert forall|i: int|
            0 <= i < self.size() && (#[trigger] self.workers@[i]).state is Busy implies
        self.completed@.len() < self.started by {
            let j = self.workers@[i].state->job;
            let smaller = range.remove(j as int);
            assert forall|v: int| ints.to_set().contains(v) implies smaller.contains(v) by {
                let k = choose|k: int| 0 <= k < ints.len() && ints[k] == v;
                assert(ints[k] == self.completed@[k] as int);
                assert(self.completed@.contains(self.completed@[k]));
            }
            vstd::set_lib::lemma_len_subset(ints.to_set(), smaller);
            assert(smaller.len() == range.len() - 1);
        }
    }

    /// Pool shutdown, as triggered by releasing the pool: the pool drops its
    /// sending endpoint, then joins every worker in creation order, each
    /// worker finishing its claimed unit and draining the queue until it
    /// observes closure. The call returns only once every worker has
    /// terminated, and then — the shutdown law — the completion log holds
    /// every unit ever submitted exactly once, with everything that had
    /// completed before shutdown still in place: no queued or in-flight unit
    /// is abandoned.
    pub fn shutdown(&mut self)
        requires
            old(self).wf(),
            old(self).phase is Running,
        ensures
            final(self).wf(),
            final(self).terminated(),
            final(self).phase is Draining,
            final(self).queue@.len() == 0,
            final(self).submitted == old(self).submitted,
            final(self).started == old(self).submitted,
            final(self).completed@.len() == old(self).submitted,
            final(self).completed@.no_duplicates(),
            forall|j: usize| j < old(self).submitted ==> final(self).completed@.contains(j),
            old(self).completed@.is_prefix_of(final(self).completed@),
    {
        self.begin_shutdown();
        let ghost orig: ThreadPool = *self;
        let n = self.workers.len();
        let mut i: usize = 0;
        while i < n
            invariant
                self.wf(),
                i <= n,
                n == self.size(),
                n == orig.size(),
                self.phase is Draining,
                self.submitted == orig.submitted,
                orig.completed@.is_prefix_of(self.completed@),
                forall|q: int| 0 <= q < i ==> (#[trigger] self.workers@[q]).state is Exited,
                forall|q: int|
                    i <= q < n ==> !((#[trigger] self.workers@[q]).state is Exited),
            decreases n - i,
        {
            let busy = match self.workers[i].state {
                WorkerState::Busy { .. } => true,
                _ => false,
            };
            if busy {
                self.complete(i);
            }
            let mut joined = false;
            while !joined
                invariant
                    self.wf(),
                    i < n,
                    n == self.size(),
                    self.phase is Draining,
                    self.submitted == orig.submitted,
                    orig.completed@.is_prefix_of(self.completed@),
                    !joined ==> self.workers@[i as int].state is Idle,
                    joined ==> self.workers@[i as int].state is Exited,
                    forall|q: int| 0 <= q < i ==> (#[trigger] self.workers@[q]).state is Exited,
                    forall|q: int|
                        i < q < n ==> !((#[trigger] self.workers@[q]).state is Exited),
                decreases self.queue@.len() * 2 + (if joined {
                    0int
                } else {
                    1int
                }),
            {
                let ghost before: ThreadPool = *self;
                match self.claim(i) {
                    Some(_) => {
                        self.complete(i);
                        proof {
                            assert(orig.completed@.is_prefix_of(before.completed@));
                            assert(self.completed@.subrange(0, orig.completed@.len() as int)
                                =~= orig.completed@);
                        }
                    },
                    None => {
                        joined = true;
                    },
                }
            }
            i = i + 1;
        }
        proof {
            self.lemma_shutdown_complete();
        }
    }

    /// Law: true parallel dispatch. With every worker waiting at the intake
    /// channel and no more queued units than there are workers, each queued
    /// unit is claimed by a distinct worker before any unit completes: all of
    /// them are in flight at once, none serialized behind another. (The
    /// exclusive-access window covers only the receive call, never the
    /// execution, so nothing forces one claimed unit to wait for another.)
    pub fn dispatch_all(&mut self) -> (k: usize)
        requires
            old(self).wf(),
            forall|i: int|
                0 <= i < old(self).size() ==> (#[trigger] old(self).workers@[i]).state is Idle,
            old(self).queue@.len() <= old(self).size(),
        ensures
            final(self).wf(),
            k == old(self).queue@.len(),
            final(self).queue@.len() == 0,
            final(self).started == old(self).submitted,
            final(self).submitted == old(self).submitted,
            final(self).completed == old(self).completed,
            final(self).phase == old(self).phase,
            final(self).size() == old(self).size(),
            forall|q: int|
                0 <= q < k ==> #[trigger] final(self).workers@[q].state == (WorkerState::Busy {
                    job: old(self).queue@[q],
                }),
            forall|q: int|
                k <= q < old(self).size() ==> (#[trigger] final(self).workers@[q]).state is Idle,
    {
        let ghost orig: ThreadPool = *self;
        let k = self.queue.len();
        let mut i: usize = 0;
        while i < k
            invariant
                self.wf(),
                i <= k,
                k == orig.queue@.len(),
                k <= orig.size(),
                self.size() == orig.size(),
                self.queue@ =~= orig.queue@.subrange(i as int, k as int),
                self.started == orig.started + i,
                self.submitted == orig.submitted,
                self.completed == orig.completed,
                self.phase == orig.phase,
                forall|q: int|
                    0 <= q < i ==> #[trigger] self.workers@[q].state == (WorkerState::Busy {
                        job: orig.queue@[q],
                    }),
                forall|q: int|
                    i <= q < self.size() ==> (#[trigger] self.workers@[q]).state is Idle,
            decreases k - i,
        {
            let ghost before: ThreadPool = *self;
            self.claim(i);
            proof {
                assert(self.queue@ =~= orig.queue@.subrange(i + 1 as int, k as int));
                assert(before.queue@[0] == orig.queue@[i as int]);
            }
            i = i + 1;
        }
        k
    }

    /// Law: exactly-once execution. Once every worker has observed channel
    /// closure and terminated — which is what the pool's drain-and-join
    /// shutdown waits for — the completion log records every submitted unit
    /// exactly once: nothing queued or in flight was abandoned, nothing ran
    /// twice, and nothing outside the submitted units was run.
    pub proof fn lemma_shutdown_complete(self)
        requires
            self.wf(),
            self.terminated(),
        ensures
            self.queue@.len() == 0,
            self.started == self.submitted,
            self.completed@.len() == self.submitted,
            self.completed@.no_duplicates(),
            forall|j: usize| j < self.submitted ==> self.completed@.contains(j),
            forall|k: int| 0 <= k < self.completed@.len() ==> self.completed@[k] < self.submitted,
    {
        assert(self.workers@[0].state is Exited);
        assert forall|j: usize| j < self.submitted implies self.completed@.contains(j) by {
            if !self.completed@.contains(j) {
                let i = choose|i: int|
                    0 <= i < self.size() && self.workers@[i].state == (WorkerState::Busy {
                        job: j,
                    });
                assert(self.workers@[i].state is Exited);
            }
        }
        let f = (|x: usize| x as int);
        let ints = self.completed@.map_values(f);
        assert(vstd::relations::injective(f));
        self.completed@.lemma_no_duplicates_injective(f);
        assert(ints.to_set() =~= vstd::set_lib::set_int_range(0, self.submitted as int)) by {
            assert forall|v: int| ints.to_set().contains(v) implies 0 <= v < self.submitted by {
                let k = choose|k: int| 0 <= k < ints.len() && ints[k] == v;
                assert(ints[k] == self.completed@[k] as int);
            }
            assert forall|v: int| 0 <= v < self.submitted implies ints.to_set().contains(v) by {
                let j = v as usize;
                assert(self.completed@.contains(j));
                let k = choose|k: int| 0 <= k < self.completed@.len() && self.completed@[k] == j;
                assert(ints[k] == v);
            }
        }
        vstd::set_lib::lemma_int_range(0, self.submitted as int);
        ints.unique_seq_to_set();
    }

    /// Law: conservation under normal operation. At every reachable state,
    /// each submitted unit is in exactly one place — still queued, in flight,
    /// or completed — and while it is in flight exactly one worker runs it.
    /// No unit is lost, duplicated, or invented.
    pub proof fn lemma_conservation(self, j: usize)
        requires
            self.wf(),
            j < self.submitted,
        ensures
            self.queue@.contains(j) || self.in_flight(j) || self.completed@.contains(j),
            !(self.queue@.contains(j) && self.in_flight(j)),
            !(self.queue@.contains(j) && self.completed@.contains(j)),
            !(self.in_flight(j) && self.completed@.contains(j)),
            forall|i1: int, i2: int|
                #![trigger self.workers@[i1], self.workers@[i2]]
                0 <= i1 < self.size() && 0 <= i2 < self.size() && self.workers@[i1].state == (
                WorkerState::Busy { job: j }) && self.workers@[i2].state == (WorkerState::Busy {
                    job: j,
                }) ==> i1 == i2,
    {
        if j >= self.started {
            assert(self.queue@[j - self.started] == j);
        }
        if self.queue@.contains(j) {
            let k = choose|k: int| 0 <= k < self.queue@.len() && self.queue@[k] == j;
            assert(j >= self.started);
        }
        if self.in_flight(j) {
            let i = choose|i: int|
                0 <= i < self.size() && self.workers@[i].state == (WorkerState::Busy { job: j });
            assert(j < self.started && !self.completed@.contains(j));
        }
        if self.completed@.contains(j) {
            let k = choose|k: int| 0 <= k < self.completed@.len() && self.completed@[k] == j;
            assert(j < self.started);
        }
    }

    /// Law: with a single worker, units execute serially in strict submission
    /// order. Whenever the one worker stands at the intake channel — in
    /// particular, at the moment it claims the next unit — every unit claimed
    /// earlier has already run to completion.
    pub proof fn lemma_single_worker_serial(self)
        requires
            self.wf(),
            self.size() == 1,
            !(self.workers@[0].state is Busy),
        ensures
            forall|j: usize| j < self.started ==> self.completed@.contains(j),
    {
        assert forall|j: usize| j < self.started implies self.completed@.contains(j) by {
            if !self.completed@.contains(j) {
                let i = choose|i: int|
                    0 <= i < self.size() && self.workers@[i].state == (WorkerState::Busy {
                        job: j,
                    });
                assert(i == 0);
            }
        }
    }
}

} // verus!
