use vstd::prelude::*;

use crate::model::{
    Job, PoolModel, WorkerAction, WorkerPhase, is_live, lemma_finish_wf, lemma_poll_wf,
    lemma_submit_wf, live_count,
};

verus! {

/// The item a worker was handed, if it was handed one.
pub open spec fn handed<T>(r: WorkerAction<T>) -> Option<T> {
    match r {
        WorkerAction::Run(job) => Some(job.item),
        _ => None,
    }
}

/// Stack order: with a single worker and an empty queue, items `a`, `b`, `c`
/// submitted one after the other are run as `c`, then `b`, then `a`.
pub proof fn lemma_stack_order<T>(m: PoolModel<T>, a: T, b: T, c: T)
    requires
        m.wf(),
        m.phases.len() == 1,
        m.can_poll(0),
        m.queue.len() == 0,
        m.next_id + 3 <= u64::MAX,
    ensures
        ({
            let m1 = m.submit(a).submit(b).submit(c);
            let (m2, r1) = m1.poll(0);
            let (m3, r2) = m2.finish(0).poll(0);
            let (m4, r3) = m3.finish(0).poll(0);
            &&& handed(r1) == Some(c)
            &&& handed(r2) == Some(b)
            &&& handed(r3) == Some(a)
            &&& m4.queue.len() == 0
        }),
{
    lemma_submit_wf(m, a);
    lemma_submit_wf(m.submit(a), b);
    lemma_submit_wf(m.submit(a).submit(b), c);
    let m1 = m.submit(a).submit(b).submit(c);
    lemma_poll_wf(m1, 0);
    let m2 = m1.poll(0).0;
    lemma_finish_wf(m2, 0);
    lemma_poll_wf(m2.finish(0), 0);
    let m3 = m2.finish(0).poll(0).0;
    lemma_finish_wf(m3, 0);
}

/// No double execution: whenever a worker is handed a job, that job has never
/// been handed to any worker before, and the log of started jobs stays free
/// of repeats.
pub proof fn lemma_at_most_once<T>(m: PoolModel<T>, w: int)
    requires
        m.wf(),
        m.can_poll(w),
    ensures
        ({
            let (m2, r) = m.poll(w);
            &&& r is Run ==> !m.started.contains(r->Run_0.id)
            &&& m2.started.no_duplicates()
            &&& m2.wf()
        }),
{
    lemma_poll_wf(m, w);
}

/// Completion: once the queue has drained, no worker is executing and no job
/// has failed, every job ever submitted has run exactly once.
pub proof fn lemma_completion<T>(m: PoolModel<T>)
    requires
        m.wf(),
        m.queue.len() == 0,
        forall|w: int| 0 <= w < m.phases.len() ==> !(#[trigger] m.phases[w] is Executing),
        m.aborted.is_empty(),
    ensures
        m.started.no_duplicates(),
        m.started.len() == m.next_id,
        forall|id: u64| (id as nat) < m.next_id ==> #[trigger] m.finished.contains(id),
        forall|id: u64| #[trigger] m.finished.contains(id) ==> (id as nat) < m.next_id,
{
    assert forall|id: u64| (id as nat) < m.next_id implies #[trigger] m.finished.contains(id) by {
        assert(m.started.contains(id));
        if !m.finished.contains(id) {
            assert(!m.aborted.contains(id));
            let w = choose|w: int|
                0 <= w < m.phases.len() && #[trigger] m.phases[w] == WorkerPhase::Executing(id);
            assert(m.phases[w] is Executing);
        }
    }
    assert forall|id: u64| #[trigger] m.finished.contains(id) implies (id as nat) < m.next_id by {
        let k = choose|k: int| 0 <= k < m.started.len() && m.started[k] == id;
    }
    lemma_log_is_all_tickets(m.started, m.next_id);
}

/// A repeat-free log whose entries are exactly the tickets below `n` has
/// length `n`.
proof fn lemma_log_is_all_tickets(log: Seq<u64>, n: nat)
    requires
        log.no_duplicates(),
        forall|k: int| 0 <= k < log.len() ==> (#[trigger] log[k] as nat) < n,
        forall|id: u64| (id as nat) < n ==> #[trigger] log.contains(id),
        n <= u64::MAX + 1,
    ensures
        log.len() == n,
{
    let s = log.to_set();
    let full = Set::new(|id: u64| (id as nat) < n);
    assert(s =~= full) by {
        assert forall|id: u64| full.contains(id) implies s.contains(id) by {
            assert(log.contains(id));
        }
    }
    log.unique_seq_to_set();
    lemma_ticket_set_len(n);
}

proof fn lemma_ticket_set_len(n: nat)
    requires
        n <= u64::MAX + 1,
    ensures
        Set::new(|id: u64| (id as nat) < n).finite(),
        Set::new(|id: u64| (id as nat) < n).len() == n,
    decreases n,
{
    let full = Set::new(|id: u64| (id as nat) < n);
    if n == 0 {
        assert(full =~= Set::empty());
    } else {
        let smaller = Set::new(|id: u64| (id as nat) < n - 1);
        lemma_ticket_set_len((n - 1) as nat);
        assert(full =~= smaller.insert((n - 1) as u64));
    }
}

/// Termination: with the queue empty and stop requested, a worker that looks
/// at the queue is told to exit and leaves, so the number of live workers
/// drops by one; no transition ever brings a worker back.
pub proof fn lemma_termination_step<T>(m: PoolModel<T>, w: int)
    requires
        m.wf(),
        m.can_poll(w),
        m.queue.len() == 0,
        m.stop,
    ensures
        ({
            let (m2, r) = m.poll(w);
            &&& r is Exit
            &&& m2.phases[w] == WorkerPhase::Terminated
            &&& live_count(m2.phases) + 1 == live_count(m.phases)
            &&& m2.queue.len() == 0
            &&& m2.stop
            &&& m2.wf()
        }),
{
    lemma_poll_wf(m, w);
    lemma_live_count_update(m.phases, w, WorkerPhase::Terminated);
}

/// With no live worker left, every worker has stopped.
pub proof fn lemma_no_live_all_stopped<T>(m: PoolModel<T>)
    requires
        live_count(m.phases) == 0,
    ensures
        m.all_stopped(),
{
    assert forall|w: int| 0 <= w < m.phases.len() implies !is_live(#[trigger] m.phases[w]) by {
        if is_live(m.phases[w]) {
            lemma_live_count_positive(m.phases, w);
        }
    }
}

proof fn lemma_live_count_positive(phases: Seq<WorkerPhase>, w: int)
    requires
        0 <= w < phases.len(),
        is_live(phases[w]),
    ensures
        live_count(phases) > 0,
    decreases phases.len(),
{
    if w < phases.len() - 1 {
        lemma_live_count_positive(phases.drop_last(), w);
    }
}

proof fn lemma_live_count_update(phases: Seq<WorkerPhase>, w: int, p: WorkerPhase)
    requires
        0 <= w < phases.len(),
        is_live(phases[w]),
        !is_live(p),
    ensures
        live_count(phases.update(w, p)) + 1 == live_count(phases),
    decreases phases.len(),
{
    let upd = phases.update(w, p);
    if w == phases.len() - 1 {
        assert(upd.drop_last() =~= phases.drop_last());
    } else {
        assert(upd.drop_last() =~= phases.drop_last().update(w, p));
        lemma_live_count_update(phases.drop_last(), w, p);
    }
}

/// Isolation of failure: when the job of worker `w` fails, the queue and the
/// other workers are untouched, and another worker that polls is still handed
/// the next queued job.
pub proof fn lemma_failure_isolated<T>(m: PoolModel<T>, w: int, v: int)
    requires
        m.wf(),
        m.is_executing(w),
        m.can_poll(v),
        m.queue.len() > 0,
    ensures
        ({
            let m2 = m.fail(w);
            &&& m2.queue == m.queue
            &&& forall|u: int| 0 <= u < m.phases.len() && u != w ==> m2.phases[u] == m.phases[u]
            &&& m2.phases[w] == WorkerPhase::Failed
            &&& m2.can_poll(v)
            &&& m2.poll(v).1 == WorkerAction::Run(m.queue.last())
        }),
{
}

/// The stop signal is one-way: once raised, no operation lowers it.
pub proof fn lemma_stop_is_one_way<T>(m: PoolModel<T>, item: T, w: int)
    requires
        m.stop,
    ensures
        m.submit(item).stop,
        m.poll(w).0.stop,
        m.finish(w).stop,
        m.fail(w).stop,
        m.request_stop().stop,
{
}

/// A worker that has terminated or failed cannot poll or be reported on, and
/// stays where it is whatever another worker or a producer does.
pub proof fn lemma_terminal_phases_stay<T>(m: PoolModel<T>, item: T, w: int, u: int)
    requires
        0 <= u < m.phases.len(),
        !is_live(m.phases[u]),
        m.can_poll(w) || m.is_executing(w),
    ensures
        !m.can_poll(u),
        !m.is_executing(u),
        m.submit(item).phases[u] == m.phases[u],
        m.poll(w).0.phases[u] == m.phases[u],
        m.finish(w).phases[u] == m.phases[u],
        m.fail(w).phases[u] == m.phases[u],
        m.request_stop().phases[u] == m.phases[u],
{
}

} // verus!
