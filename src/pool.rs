use vstd::prelude::*;

use crate::model::{
    Job, PoolModel, WorkerAction, WorkerPhase, lemma_fail_wf, lemma_finish_wf, lemma_initial_wf,
    lemma_poll_wf, lemma_request_stop_wf, lemma_submit_wf,
};
use crate::queue::TaskQueue;

verus! {

/// The shared state of a worker pool: the queue of pending jobs, the stop
/// signal and the phase of every worker. Every decision a worker takes is a
/// method here; whoever owns the threads holds this state under one lock and
/// carries out the returned actions.
///
/// Submissions made after the stop signal is raised are accepted, but they
/// run only if some worker is still polling: stopping is not a drain barrier.
pub struct PoolState<T> {
    queue: TaskQueue<Job<T>>,
    stop: bool,
    phases: Vec<WorkerPhase>,
    next_id: u64,
    started: Ghost<Seq<u64>>,
    finished: Ghost<Set<u64>>,
    aborted: Ghost<Set<u64>>,
}

impl<T> View for PoolState<T> {
    type V = PoolModel<T>;

    closed spec fn view(&self) -> PoolModel<T> {
        PoolModel {
            queue: self.queue@,
            stop: self.stop,
            phases: self.phases@,
            next_id: self.next_id as nat,
            started: self.started@,
            finished: self.finished@,
            aborted: self.aborted@,
        }
    }
}

impl<T> PoolState<T> {
    /// A pool of `worker_count` workers, all polling, with nothing queued.
    pub fn new(worker_count: usize) -> (r: Self)
        requires
            worker_count >= 1,
        ensures
            r@ == PoolModel::<T>::initial(worker_count as nat),
            r@.wf(),
    {
        let mut phases: Vec<WorkerPhase> = Vec::new();
        let mut w: usize = 0;
        while w < worker_count
            invariant
                w <= worker_count,
                phases@ == Seq::new(w as nat, |i: int| WorkerPhase::Polling),
            decreases worker_count - w,
        {
            phases.push(WorkerPhase::Polling);
            w = w + 1;
            assert(phases@ =~= Seq::new(w as nat, |i: int| WorkerPhase::Polling));
        }
        proof {
            lemma_initial_wf::<T>(worker_count as nat);
        }
        let r = PoolState {
            queue: TaskQueue::new(),
            stop: false,
            phases,
            next_id: 0,
            started: Ghost(Seq::empty()),
            finished: Ghost(Set::empty()),
            aborted: Ghost(Set::empty()),
        };
        assert(r@ =~= PoolModel::<T>::initial(worker_count as nat));
        r
    }

    pub fn worker_count(&self) -> (r: usize)
        ensures
            r == self@.phases.len(),
    {
        self.phases.len()
    }

    /// The number of jobs waiting in the queue.
    pub fn pending(&self) -> (r: usize)
        ensures
            r == self@.queue.len(),
    {
        self.queue.len()
    }

    pub fn is_stopping(&self) -> (r: bool)
        ensures
            r == self@.stop,
    {
        self.stop
    }

    pub fn phase(&self, w: usize) -> (r: WorkerPhase)
        requires
            w < self@.phases.len(),
        ensures
            r == self@.phases[w as int],
    {
        self.phases[w]
    }

    /// Whether another ticket can be handed out.
    pub fn can_submit(&self) -> (r: bool)
        ensures
            r == (self@.next_id < u64::MAX),
    {
        self.next_id < u64::MAX
    }

    /// Queues `item` on top of the stack and returns its ticket.
    pub fn submit(&mut self, item: T) -> (id: u64)
        requires
            old(self)@.wf(),
            old(self)@.next_id < u64::MAX,
        ensures
            final(self)@ == old(self)@.submit(item),
            id == old(self)@.next_id,
            final(self)@.wf(),
    {
        let id = self.next_id;
        self.queue.push(Job { id, item });
        self.next_id = self.next_id + 1;
        proof {
            lemma_submit_wf(old(self)@, item);
        }
        assert(self@ =~= old(self)@.submit(item));
        id
    }

    /// Worker `w` looks at the queue: it is handed the most recently queued
    /// job if there is one; else it is told to exit if stop was requested, and
    /// to sleep if not.
    pub fn poll(&mut self, w: usize) -> (r: WorkerAction<T>)
        requires
            old(self)@.wf(),
            old(self)@.can_poll(w as int),
        ensures
            (final(self)@, r) == old(self)@.poll(w as int),
            final(self)@.wf(),
    {
        proof {
            lemma_poll_wf(self@, w as int);
        }
        match self.queue.pop() {
            Some(job) => {
                self.phases.set(w, WorkerPhase::Executing(job.id));
                self.started = Ghost(self.started@.push(job.id));
                assert(self@ =~= old(self)@.poll(w as int).0);
                WorkerAction::Run(job)
            },
            None => {
                if self.stop {
                    self.phases.set(w, WorkerPhase::Terminated);
                    assert(self@ =~= old(self)@.poll(w as int).0);
                    WorkerAction::Exit
                } else {
                    self.phases.set(w, WorkerPhase::Backoff);
                    assert(self@ =~= old(self)@.poll(w as int).0);
                    WorkerAction::Sleep
                }
            },
        }
    }

    /// Worker `w` completed the job it was running and goes back to polling.
    pub fn finish(&mut self, w: usize)
        requires
            old(self)@.wf(),
            old(self)@.is_executing(w as int),
        ensures
            final(self)@ == old(self)@.finish(w as int),
            final(self)@.wf(),
    {
        proof {
            lemma_finish_wf(self@, w as int);
        }
        let ghost id = self.phases@[w as int]->Executing_0;
        self.phases.set(w, WorkerPhase::Polling);
        self.finished = Ghost(self.finished@.insert(id));
        assert(self@ =~= old(self)@.finish(w as int));
    }

    /// The job of worker `w` failed: the worker leaves the pool for good and
    /// nothing else changes.
    pub fn fail(&mut self, w: usize)
        requires
            old(self)@.wf(),
            old(self)@.is_executing(w as int),
        ensures
            final(self)@ == old(self)@.fail(w as int),
            final(self)@.wf(),
    {
        proof {
            lemma_fail_wf(self@, w as int);
        }
        let ghost id = self.phases@[w as int]->Executing_0;
        self.phases.set(w, WorkerPhase::Failed);
        self.aborted = Ghost(self.aborted@.insert(id));
        assert(self@ =~= old(self)@.fail(w as int));
    }

    /// Raises the stop signal. It is never lowered again.
    pub fn request_stop(&mut self)
        requires
            old(self)@.wf(),
        ensures
            final(self)@ == old(self)@.request_stop(),
            final(self)@.wf(),
    {
        proof {
            lemma_request_stop_wf(self@);
        }
        self.stop = true;
        assert(self@ =~= old(self)@.request_stop());
    }

    /// Whether every worker has terminated or failed.
    pub fn all_stopped(&self) -> (r: bool)
        ensures
            r == self@.all_stopped(),
    {
        let mut w: usize = 0;
        while w < self.phases.len()
            invariant
                w <= self@.phases.len(),
                forall|v: int| 0 <= v < w ==> !crate::model::is_live(#[trigger] self@.phases[v]),
            decreases self@.phases.len() - w,
        {
            match self.phases[w] {
                WorkerPhase::Terminated | WorkerPhase::Failed => {},
                _ => {
                    return false;
                },
            }
            w = w + 1;
        }
        true
    }
}

} // verus!
