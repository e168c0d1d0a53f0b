use vstd::prelude::*;

verus! {

/// A submitted unit of work together with the ticket it was given on
/// submission. Tickets are handed out in increasing order, one per item.
pub struct Job<T> {
    pub id: u64,
    pub item: T,
}

/// Where a worker stands in its control loop.
#[derive(PartialEq, Eq, Structural, Clone, Copy, Debug)]
pub enum WorkerPhase {
    /// About to look at the queue (the initial phase, and the phase after a
    /// job has completed).
    Polling,
    /// Found the queue empty with no stop requested; sleeps before looking again.
    Backoff,
    /// Running the job with this ticket; the queue is not held meanwhile.
    Executing(u64),
    /// Saw an empty queue with the stop signal raised, and left for good.
    Terminated,
    /// The job it was running failed; the worker is gone and the pool has one
    /// worker fewer.
    Failed,
}

/// What a worker is told to do after looking at the queue.
pub enum WorkerAction<T> {
    /// Run this job, then report back.
    Run(Job<T>),
    /// Nothing to do yet: sleep for the backoff interval, then look again.
    Sleep,
    /// Nothing left and stop requested: end the loop.
    Exit,
}

/// The abstract state of a pool: what is queued, the stop signal, each
/// worker's phase, and the history of executions.
pub struct PoolModel<T> {
    /// Pending jobs in order of submission; the last one is the next to run.
    pub queue: Seq<Job<T>>,
    pub stop: bool,
    pub phases: Seq<WorkerPhase>,
    /// The ticket the next submission will get; also the number submitted so far.
    pub next_id: nat,
    /// Tickets of the jobs handed to a worker, in the order they were handed out.
    pub started: Seq<u64>,
    /// Tickets of the jobs that ran to completion.
    pub finished: Set<u64>,
    /// Tickets of the jobs whose execution failed.
    pub aborted: Set<u64>,
}

pub open spec fn is_live(p: WorkerPhase) -> bool {
    p is Polling || p is Backoff || p is Executing
}

/// The number of workers that have not left the pool.
pub open spec fn live_count(phases: Seq<WorkerPhase>) -> nat
    decreases phases.len(),
{
    if phases.len() == 0 {
        0
    } else {
        live_count(phases.drop_last()) + if is_live(phases.last()) {
            1nat
        } else {
            0nat
        }
    }
}

/// Some job in `queue` has ticket `id`.
pub open spec fn in_queue<T>(queue: Seq<Job<T>>, id: u64) -> bool {
    exists|i: int| 0 <= i < queue.len() && #[trigger] queue[i].id == id
}

/// Some worker is executing the job with ticket `id`.
pub open spec fn held_by_worker(phases: Seq<WorkerPhase>, id: u64) -> bool {
    exists|w: int| 0 <= w < phases.len() && #[trigger] phases[w] == WorkerPhase::Executing(id)
}

impl<T> PoolModel<T> {
    pub open spec fn initial(worker_count: nat) -> PoolModel<T> {
        PoolModel {
            queue: Seq::empty(),
            stop: false,
            phases: Seq::new(worker_count, |w: int| WorkerPhase::Polling),
            next_id: 0,
            started: Seq::empty(),
            finished: Set::empty(),
            aborted: Set::empty(),
        }
    }

    /// A worker that may look at the queue.
    pub open spec fn can_poll(self, w: int) -> bool {
        0 <= w < self.phases.len() && (self.phases[w] is Polling || self.phases[w] is Backoff)
    }

    pub open spec fn is_executing(self, w: int) -> bool {
        0 <= w < self.phases.len() && self.phases[w] is Executing
    }

    /// Every worker has reached a terminal phase.
    pub open spec fn all_stopped(self) -> bool {
        forall|w: int| 0 <= w < self.phases.len() ==> !is_live(#[trigger] self.phases[w])
    }

    /// Each ticket ever handed out is in exactly one place: the queue, or the
    /// log of started jobs; a started job has finished, failed, or is held by
    /// exactly one executing worker.
    pub open spec fn wf(self) -> bool {
        &&& self.next_id <= u64::MAX
        &&& forall|i: int| 0 <= i < self.queue.len() ==> (#[trigger] self.queue[i].id as nat) < self.next_id
        &&& forall|i: int, j: int|
            0 <= i < j < self.queue.len() ==> #[trigger] self.queue[i].id < #[trigger] self.queue[j].id
        &&& forall|i: int| 0 <= i < self.queue.len() ==> !self.started.contains(#[trigger] self.queue[i].id)
        &&& self.started.no_duplicates()
        &&& forall|k: int| 0 <= k < self.started.len() ==> (#[trigger] self.started[k] as nat) < self.next_id
        &&& forall|id: u64|
            (id as nat) < self.next_id ==> #[trigger] self.started.contains(id) || in_queue(self.queue, id)
        &&& forall|w: int|
            #![trigger self.phases[w]]
            self.is_executing(w) ==> {
                let id = self.phases[w]->Executing_0;
                &&& self.started.contains(id)
                &&& !self.finished.contains(id)
                &&& !self.aborted.contains(id)
            }
        &&& forall|v: int, w: int|
            #![trigger self.phases[v], self.phases[w]]
            self.is_executing(v) && self.is_executing(w) && v != w ==> self.phases[v]
                != self.phases[w]
        &&& forall|id: u64|
            #[trigger] self.started.contains(id) ==> self.finished.contains(id) || self.aborted.contains(
                id,
            ) || held_by_worker(self.phases, id)
        &&& forall|id: u64|
            #[trigger] self.finished.contains(id) ==> self.started.contains(id)
                && !self.aborted.contains(id)
        &&& forall|id: u64| #[trigger] self.aborted.contains(id) ==> self.started.contains(id)
    }

    /// A producer pushes `item`; it gets the next ticket and goes on top of the queue.
    pub open spec fn submit(self, item: T) -> PoolModel<T> {
        PoolModel {
            queue: self.queue.push(Job { id: self.next_id as u64, item }),
            next_id: self.next_id + 1,
            ..self
        }
    }

    /// Worker `w` looks at the queue: it takes the top job if there is one;
    /// otherwise it leaves if stop was requested, and sleeps if not.
    pub open spec fn poll(self, w: int) -> (PoolModel<T>, WorkerAction<T>) {
        if self.queue.len() > 0 {
            let job = self.queue.last();
            (
                PoolModel {
                    queue: self.queue.drop_last(),
                    phases: self.phases.update(w, WorkerPhase::Executing(job.id)),
                    started: self.started.push(job.id),
                    ..self
                },
                WorkerAction::Run(job),
            )
        } else if self.stop {
            (
                PoolModel { phases: self.phases.update(w, WorkerPhase::Terminated), ..self },
                WorkerAction::Exit,
            )
        } else {
            (
                PoolModel { phases: self.phases.update(w, WorkerPhase::Backoff), ..self },
                WorkerAction::Sleep,
            )
        }
    }

    /// Worker `w` completed its job and goes back to polling.
    pub open spec fn finish(self, w: int) -> PoolModel<T> {
        PoolModel {
            phases: self.phases.update(w, WorkerPhase::Polling),
            finished: self.finished.insert(self.phases[w]->Executing_0),
            ..self
        }
    }

    /// The job of worker `w` failed; the worker leaves the pool.
    pub open spec fn fail(self, w: int) -> PoolModel<T> {
        PoolModel {
            phases: self.phases.update(w, WorkerPhase::Failed),
            aborted: self.aborted.insert(self.phases[w]->Executing_0),
            ..self
        }
    }

    /// The stop signal is raised; nothing ever lowers it.
    pub open spec fn request_stop(self) -> PoolModel<T> {
        PoolModel { stop: true, ..self }
    }
}

pub proof fn lemma_initial_wf<T>(worker_count: nat)
    ensures
        PoolModel::<T>::initial(worker_count).wf(),
{
}

pub proof fn lemma_submit_wf<T>(m: PoolModel<T>, item: T)
    requires
        m.wf(),
        m.next_id < u64::MAX,
    ensures
        m.submit(item).wf(),
{
    let m2 = m.submit(item);
    assert forall|id: u64| (id as nat) < m2.next_id implies #[trigger] m2.started.contains(id)
        || in_queue(m2.queue, id) by {
        if id as nat == m.next_id {
            assert(m2.queue[m.queue.len() as int].id == id);
        } else if !m.started.contains(id) {
            let i = choose|i: int| 0 <= i < m.queue.len() && #[trigger] m.queue[i].id == id;
            assert(m2.queue[i].id == id);
        }
    }
    assert forall|id: u64| #[trigger] m2.started.contains(id) implies m2.finished.contains(id)
        || m2.aborted.contains(id) || held_by_worker(m2.phases, id) by {
        if !m.finished.contains(id) && !m.aborted.contains(id) {
            let w = choose|w: int|
                0 <= w < m.phases.len() && #[trigger] m.phases[w] == WorkerPhase::Executing(id);
            assert(m2.phases[w] == WorkerPhase::Executing(id));
        }
    }
}

pub proof fn lemma_poll_wf<T>(m: PoolModel<T>, w: int)
    requires
        m.wf(),
        m.can_poll(w),
    ensures
        m.poll(w).0.wf(),
{
    let m2 = m.poll(w).0;
    if m.queue.len() > 0 {
        let top = m.queue.len() - 1;
        let job = m.queue.last();
        assert forall|id: u64| (id as nat) < m2.next_id implies #[trigger] m2.started.contains(id)
            || in_queue(m2.queue, id) by {
            if id == job.id {
                assert(m2.started[m.started.len() as int] == id);
            } else if m.started.contains(id) {
                let k = choose|k: int| 0 <= k < m.started.len() && m.started[k] == id;
                assert(m2.started[k] == id);
            } else {
                let i = choose|i: int| 0 <= i < m.queue.len() && #[trigger] m.queue[i].id == id;
                assert(i != top);
                assert(m2.queue[i].id == id);
            }
        }
        assert forall|i: int| 0 <= i < m2.queue.len() implies !m2.started.contains(
            #[trigger] m2.queue[i].id,
        ) by {
            assert(m.queue[i].id < m.queue[top].id);
            if m2.started.contains(m2.queue[i].id) {
                let k = choose|k: int| 0 <= k < m2.started.len() && m2.started[k] == m2.queue[i].id;
                if k < m.started.len() {
                    assert(m.started.contains(m.queue[i].id));
                }
            }
        }
        assert forall|id: u64| #[trigger] m2.started.contains(id) implies m2.finished.contains(id)
            || m2.aborted.contains(id) || held_by_worker(m2.phases, id) by {
            if id == job.id {
                assert(m2.phases[w] == WorkerPhase::Executing(id));
            } else {
                let k = choose|k: int| 0 <= k < m2.started.len() && m2.started[k] == id;
                assert(k < m.started.len());
                assert(m.started[k] == id);
                assert(m.started.contains(id));
                if !m.finished.contains(id) && !m.aborted.contains(id) {
                    let v = choose|v: int|
                        0 <= v < m.phases.len() && #[trigger] m.phases[v] == WorkerPhase::Executing(
                            id,
                        );
                    assert(m2.phases[v] == WorkerPhase::Executing(id));
                }
            }
        }
        assert forall|id: u64| #[trigger] m2.finished.contains(id) implies m2.started.contains(id)
            && !m2.aborted.contains(id) by {
            let k = choose|k: int| 0 <= k < m.started.len() && m.started[k] == id;
            assert(m2.started[k] == id);
        }
        assert forall|id: u64| #[trigger] m2.aborted.contains(id) implies m2.started.contains(id) by {
            let k = choose|k: int| 0 <= k < m.started.len() && m.started[k] == id;
            assert(m2.started[k] == id);
        }
        assert forall|v: int|
            #![trigger m2.phases[v]]
            m2.is_executing(v) implies {
                let id = m2.phases[v]->Executing_0;
                &&& m2.started.contains(id)
                &&& !m2.finished.contains(id)
                &&& !m2.aborted.contains(id)
            } by {
            if v == w {
                assert(m2.started[m.started.len() as int] == job.id);
            } else {
                let id = m.phases[v]->Executing_0;
                let k = choose|k: int| 0 <= k < m.started.len() && m.started[k] == id;
                assert(m2.started[k] == id);
            }
        }
        assert forall|v: int, u: int|
            #![trigger m2.phases[v], m2.phases[u]]
            m2.is_executing(v) && m2.is_executing(u) && v != u implies m2.phases[v]
                != m2.phases[u] by {
            if v == w {
                assert(m.started.contains(m.phases[u]->Executing_0));
            } else if u == w {
                assert(m.started.contains(m.phases[v]->Executing_0));
            }
        }
    } else {
        assert forall|id: u64| #[trigger] m2.started.contains(id) implies m2.finished.contains(id)
            || m2.aborted.contains(id) || held_by_worker(m2.phases, id) by {
            assert(m.started.contains(id));
            if !m.finished.contains(id) && !m.aborted.contains(id) {
                let v = choose|v: int|
                    0 <= v < m.phases.len() && #[trigger] m.phases[v] == WorkerPhase::Executing(id);
                assert(m2.phases[v] == WorkerPhase::Executing(id));
            }
        }
    }
}

pub proof fn lemma_finish_wf<T>(m: PoolModel<T>, w: int)
    requires
        m.wf(),
        m.is_executing(w),
    ensures
        m.finish(w).wf(),
{
    let m2 = m.finish(w);
    let done = m.phases[w]->Executing_0;
    assert forall|id: u64| #[trigger] m2.started.contains(id) implies m2.finished.contains(id)
        || m2.aborted.contains(id) || held_by_worker(m2.phases, id) by {
        if id != done && !m.finished.contains(id) && !m.aborted.contains(id) {
            let v = choose|v: int|
                0 <= v < m.phases.len() && #[trigger] m.phases[v] == WorkerPhase::Executing(id);
            assert(m2.phases[v] == WorkerPhase::Executing(id));
        }
    }
    assert forall|v: int|
        #![trigger m2.phases[v]]
        m2.is_executing(v) implies {
            let id = m2.phases[v]->Executing_0;
            &&& m2.started.contains(id)
            &&& !m2.finished.contains(id)
            &&& !m2.aborted.contains(id)
        } by {
        assert(m.phases[v] != m.phases[w]);
    }
}

pub proof fn lemma_fail_wf<T>(m: PoolModel<T>, w: int)
    requires
        m.wf(),
        m.is_executing(w),
    ensures
        m.fail(w).wf(),
{
    let m2 = m.fail(w);
    let lost = m.phases[w]->Executing_0;
    assert forall|id: u64| #[trigger] m2.started.contains(id) implies m2.finished.contains(id)
        || m2.aborted.contains(id) || held_by_worker(m2.phases, id) by {
        if id != lost && !m.finished.contains(id) && !m.aborted.contains(id) {
            let v = choose|v: int|
                0 <= v < m.phases.len() && #[trigger] m.phases[v] == WorkerPhase::Executing(id);
            assert(m2.phases[v] == WorkerPhase::Executing(id));
        }
    }
    assert forall|v: int|
        #![trigger m2.phases[v]]
        m2.is_executing(v) implies {
            let id = m2.phases[v]->Executing_0;
            &&& m2.started.contains(id)
            &&& !m2.finished.contains(id)
            &&& !m2.aborted.contains(id)
        } by {
        assert(m.phases[v] != m.phases[w]);
    }
}

pub proof fn lemma_request_stop_wf<T>(m: PoolModel<T>)
    requires
        m.wf(),
    ensures
        m.request_stop().wf(),
{
    let m2 = m.request_stop();
    assert forall|id: u64| #[trigger] m2.started.contains(id) implies m2.finished.contains(id)
        || m2.aborted.contains(id) || held_by_worker(m2.phases, id) by {
        if !m.finished.contains(id) && !m.aborted.contains(id) {
            let v = choose|v: int|
                0 <= v < m.phases.len() && #[trigger] m.phases[v] == WorkerPhase::Executing(id);
            assert(m2.phases[v] == WorkerPhase::Executing(id));
        }
    }
}

} // verus!
