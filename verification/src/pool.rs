//! Job lifecycle of the fixed-size worker pool.
//!
//! The pool keeps `size` worker threads alive and feeds them from one shared
//! queue; each submitted job is picked up by exactly one worker, executed
//! against that worker's private state, and its completion recorded.  The
//! threads and the concurrent queue are outside work; what is verified here
//! is the lifecycle they must follow: [`PoolState`] is that lifecycle as an
//! executable state machine over job tickets, with one transition per event
//! of the real pool (submission, a worker picking a job up, a worker
//! finishing one, closing the queue, draining at shutdown).
//!
//! The well-formedness invariant [`PoolState::wf`] is a single multiset
//! equation: the jobs still pending plus the jobs delivered are exactly the
//! tickets issued so far, each once.  Single delivery, loss-freedom and
//! shutdown completeness all fall out of it.

use vstd::multiset::Multiset;
use vstd::prelude::*;
use vstd::seq_lib::group_to_multiset_ensures;

verus! {

/// The multiset of jobs currently held by workers: one occurrence for each
/// slot of `s` that holds a ticket.
pub open spec fn busy_to_mset(s: Seq<Option<u64>>) -> Multiset<u64>
    decreases s.len(),
{
    if s.len() == 0 {
        Multiset::empty()
    } else {
        match s.last() {
            Some(id) => busy_to_mset(s.drop_last()).insert(id),
            None => busy_to_mset(s.drop_last()),
        }
    }
}

/// The tickets issued by the first `n` submissions: `0, 1, ..., n - 1`,
/// each exactly once.
pub open spec fn issued_upto(n: u64) -> Multiset<u64> {
    Seq::new(n as nat, |i: int| i as u64).to_multiset()
}

/// The jobs a single worker has executed, in execution order: the
/// subsequence of `jobs` at the positions where `workers` names worker `w`.
pub open spec fn history_of(jobs: Seq<u64>, workers: Seq<usize>, w: int) -> Seq<u64>
    decreases jobs.len(),
{
    if jobs.len() == 0 || workers.len() != jobs.len() {
        Seq::empty()
    } else if workers.last() as int == w {
        history_of(jobs.drop_last(), workers.drop_last(), w).push(jobs.last())
    } else {
        history_of(jobs.drop_last(), workers.drop_last(), w)
    }
}

/// The job lifecycle of a pool, as the real pool's threads drive it: every
/// job is identified by the ticket handed out when it was submitted.
pub struct PoolState {
    /// Tickets submitted and not yet picked up by any worker.
    pub queue: Vec<u64>,
    /// Per worker, the ticket it is currently executing, if any.
    pub running: Vec<Option<u64>>,
    /// Tickets whose execution finished, in completion order.
    pub done_jobs: Vec<u64>,
    /// For each entry of `done_jobs`, the worker that executed it.
    pub done_workers: Vec<usize>,
    /// Tickets handed out so far; the next submission gets this one.
    pub next_ticket: u64,
    /// Whether the producer side of the queue is still open.
    pub open: bool,
}

impl PoolState {
    /// The fixed number of workers.
    pub open spec fn size(self) -> int {
        self.running@.len() as int
    }

    /// Jobs submitted but not yet finished: still queued, or held by a
    /// worker.
    pub open spec fn pending(self) -> Multiset<u64> {
        self.queue@.to_multiset().add(busy_to_mset(self.running@))
    }

    /// Jobs whose execution finished.
    pub open spec fn delivered(self) -> Multiset<u64> {
        self.done_jobs@.to_multiset()
    }

    /// The execution history of worker `w`.
    pub open spec fn history(self, w: int) -> Seq<u64> {
        history_of(self.done_jobs@, self.done_workers@, w)
    }

    /// Well-formedness: the completion record pairs a worker with every
    /// finished job, and the pending and delivered jobs together are
    /// exactly the tickets issued so far, each exactly once.
    pub open spec fn wf(self) -> bool {
        &&& self.done_workers@.len() == self.done_jobs@.len()
        &&& forall|i: int|
            0 <= i < self.done_workers@.len() ==> (self.done_workers@[i] as int) < self.size()
        &&& self.pending().add(self.delivered()) == issued_upto(self.next_ticket)
    }

    /// A fresh pool of `size` workers: nothing queued, every worker idle,
    /// nothing delivered, the queue open.
    pub fn new(size: usize) -> (s: PoolState)
        ensures
            s.wf(),
            s.size() == size,
            s.queue@.len() == 0,
            forall|w: int| 0 <= w < size ==> s.running@[w] is None,
            s.done_jobs@.len() == 0,
            s.done_workers@.len() == 0,
            s.next_ticket == 0,
            s.open,
    {
        let mut running: Vec<Option<u64>> = Vec::new();
        let mut w: usize = 0;
        while w < size
            invariant
                w <= size,
                running@.len() == w,
                forall|i: int| 0 <= i < w ==> running@[i] is None,
            decreases size - w,
        {
            running.push(None);
            w = w + 1;
        }
        let s = PoolState {
            queue: Vec::new(),
            running,
            done_jobs: Vec::new(),
            done_workers: Vec::new(),
            next_ticket: 0,
            open: true,
        };
        proof {
            lemma_busy_all_idle(s.running@);
            broadcast use group_to_multiset_ensures;

            assert(s.queue@.to_multiset().len() == 0);
            assert(s.done_jobs@.to_multiset().len() == 0);
            assert(Seq::new(0nat, |i: int| i as u64).to_multiset().len() == 0);
            assert(s.pending().add(s.delivered()) =~= issued_upto(0));
        }
        s
    }

    /// Submit a job: the caller is handed the fresh ticket and the job
    /// joins the queue.  Submitting to a pool whose queue is already closed
    /// is a fatal usage error, so a closed pool is excluded here; the
    /// unverified shell checks the condition and fails loudly instead.
    pub fn submit(&mut self) -> (id: u64)
        requires
            old(self).wf(),
            old(self).open,
            old(self).next_ticket < u64::MAX,
        ensures
            final(self).wf(),
            id == old(self).next_ticket,
            final(self).queue@ == old(self).queue@.push(id),
            final(self).running@ == old(self).running@,
            final(self).done_jobs@ == old(self).done_jobs@,
            final(self).done_workers@ == old(self).done_workers@,
            final(self).next_ticket == old(self).next_ticket + 1,
            final(self).open,
    {
        let id = self.next_ticket;
        self.queue.push(id);
        self.next_ticket = self.next_ticket + 1;
        proof {
            broadcast use group_to_multiset_ensures;

            assert(Seq::new(self.next_ticket as nat, |i: int| i as u64) =~= Seq::new(
                id as nat,
                |i: int| i as u64,
            ).push(id));
            assert(issued_upto(self.next_ticket) =~= issued_upto(id).insert(id));
            assert(self.pending().add(self.delivered()) =~= issued_upto(self.next_ticket));
        }
        id
    }

    /// An idle worker picks the next job up.  Which pending job a worker
    /// receives is not part of the pool's contract; this machine hands out
    /// the most recently queued one.
    pub fn take(&mut self, w: usize) -> (id: u64)
        requires
            old(self).wf(),
            w < old(self).running@.len(),
            old(self).running@[w as int] is None,
            old(self).queue@.len() > 0,
        ensures
            final(self).wf(),
            id == old(self).queue@.last(),
            final(self).queue@ == old(self).queue@.drop_last(),
            final(self).running@ == old(self).running@.update(w as int, Some(id)),
            final(self).done_jobs@ == old(self).done_jobs@,
            final(self).done_workers@ == old(self).done_workers@,
            final(self).next_ticket == old(self).next_ticket,
            final(self).open == old(self).open,
    {
        let id = self.queue.pop().unwrap();
        self.running.set(w, Some(id));
        proof {
            broadcast use group_to_multiset_ensures;

            lemma_busy_take(old(self).running@, w as int, id);
            assert(old(self).queue@ =~= self.queue@.push(id));
            assert(old(self).queue@.to_multiset() == self.queue@.to_multiset().insert(id));
            assert(self.pending() =~= old(self).pending());
            assert(self.pending().add(self.delivered()) =~= issued_upto(self.next_ticket));
        }
        id
    }

    /// A worker finishes its current job: the ticket moves from the
    /// worker's hands into the completion record, and only that worker's
    /// history grows, by exactly this job.
    pub fn finish(&mut self, w: usize) -> (id: u64)
        requires
            old(self).wf(),
            w < old(self).running@.len(),
            old(self).running@[w as int] is Some,
        ensures
            final(self).wf(),
            old(self).running@[w as int] == Some(id),
            final(self).queue@ == old(self).queue@,
            final(self).running@ == old(self).running@.update(w as int, None),
            final(self).done_jobs@ == old(self).done_jobs@.push(id),
            final(self).done_workers@ == old(self).done_workers@.push(w),
            final(self).next_ticket == old(self).next_ticket,
            final(self).open == old(self).open,
            forall|v: int|
                final(self).history(v) == if v == w as int {
                    old(self).history(v).push(id)
                } else {
                    old(self).history(v)
                },
    {
        let id = self.running[w].unwrap();
        self.running.set(w, None);
        self.done_jobs.push(id);
        self.done_workers.push(w);
        proof {
            broadcast use group_to_multiset_ensures;

            lemma_busy_take(self.running@, w as int, id);
            assert(self.running@.update(w as int, Some(id)) =~= old(self).running@);
            assert(busy_to_mset(old(self).running@) == busy_to_mset(self.running@).insert(id));
            assert(self.pending().add(self.delivered()) =~= issued_upto(self.next_ticket));
            assert forall|v: int|
                self.history(v) == if v == w as int {
                    old(self).history(v).push(id)
                } else {
                    old(self).history(v)
                } by {
                lemma_history_extends(old(self).done_jobs@, old(self).done_workers@, id, w, v);
            }
        }
        id
    }

    /// Shutdown begins: the producer side of the queue is replaced by a
    /// closed one, so workers stop waiting once the queue is drained.
    /// Nothing already queued or running is cancelled.
    pub fn close(&mut self)
        requires
            old(self).wf(),
        ensures
            final(self).wf(),
            !final(self).open,
            final(self).queue@ == old(self).queue@,
            final(self).running@ == old(self).running@,
            final(self).done_jobs@ == old(self).done_jobs@,
            final(self).done_workers@ == old(self).done_workers@,
            final(self).next_ticket == old(self).next_ticket,
    {
        self.open = false;
    }

    /// What the workers do between the close and the join of their
    /// threads: finish whatever they hold, then keep taking jobs until the
    /// queue is empty.  When this returns, nothing is pending any more and
    /// every ticket ever issued has been delivered.
    pub fn drain(&mut self)
        requires
            old(self).wf(),
            !old(self).open,
            old(self).running@.len() >= 1,
        ensures
            final(self).wf(),
            !final(self).open,
            final(self).size() == old(self).size(),
            final(self).next_ticket == old(self).next_ticket,
            final(self).queue@.len() == 0,
            forall|w: int| 0 <= w < final(self).size() ==> final(self).running@[w] is None,
            final(self).delivered() == issued_upto(old(self).next_ticket),
    {
        let size = self.running.len();
        let mut w: usize = 0;
        while w < size
            invariant
                w <= size,
                self.wf(),
                !self.open,
                self.running@.len() == size,
                self.next_ticket == old(self).next_ticket,
                self.queue@ == old(self).queue@,
                forall|i: int| 0 <= i < w ==> self.running@[i] is None,
            decreases size - w,
        {
            if self.running[w].is_some() {
                self.finish(w);
            }
            w = w + 1;
        }
        while self.queue.len() > 0
            invariant
                self.wf(),
                !self.open,
                self.running@.len() == size,
                size >= 1,
                self.next_ticket == old(self).next_ticket,
                forall|i: int| 0 <= i < size ==> self.running@[i] is None,
            decreases self.queue@.len(),
        {
            self.take(0);
            self.finish(0);
        }
        proof {
            broadcast use group_to_multiset_ensures;

            lemma_busy_all_idle(self.running@);
            assert(self.queue@.to_multiset().len() == 0);
            assert(self.pending() =~= Multiset::empty());
            assert(self.delivered() =~= issued_upto(self.next_ticket));
        }
    }

    /// The whole of the pool's teardown, as its destructor performs it:
    /// close the queue, then let the workers run everything still pending
    /// to completion.  Control does not come back before every issued
    /// ticket has been delivered.
    pub fn shutdown(&mut self)
        requires
            old(self).wf(),
            old(self).running@.len() >= 1,
        ensures
            final(self).wf(),
            !final(self).open,
            final(self).size() == old(self).size(),
            final(self).next_ticket == old(self).next_ticket,
            final(self).queue@.len() == 0,
            forall|w: int| 0 <= w < final(self).size() ==> final(self).running@[w] is None,
            final(self).delivered() == issued_upto(old(self).next_ticket),
    {
        self.close();
        self.drain();
    }
}

/// Workers that hold nothing contribute nothing to the pending jobs.
proof fn lemma_busy_all_idle(s: Seq<Option<u64>>)
    requires
        forall|i: int| 0 <= i < s.len() ==> s[i] is None,
    ensures
        busy_to_mset(s) == Multiset::<u64>::empty(),
    decreases s.len(),
{
    if s.len() > 0 {
        assert(s.last() is None);
        lemma_busy_all_idle(s.drop_last());
    }
}

/// Handing a ticket to an idle worker adds exactly that ticket to the jobs
/// held by workers.
proof fn lemma_busy_take(s: Seq<Option<u64>>, w: int, id: u64)
    requires
        0 <= w < s.len(),
        s[w] is None,
    ensures
        busy_to_mset(s.update(w, Some(id))) == busy_to_mset(s).insert(id),
    decreases s.len(),
{
    let t = s.update(w, Some(id));
    if w == s.len() - 1 {
        assert(t.drop_last() =~= s.drop_last());
        assert(t.last() == Some(id));
        assert(s.last() is None);
    } else {
        assert(t.drop_last() =~= s.drop_last().update(w, Some(id)));
        assert(t.last() == s.last());
        lemma_busy_take(s.drop_last(), w, id);
        match s.last() {
            Some(x) => {
                assert(busy_to_mset(s.drop_last()).insert(id).insert(x) =~= busy_to_mset(
                    s.drop_last(),
                ).insert(x).insert(id));
            },
            None => {},
        }
    }
}

/// Each ticket below `n` was issued exactly once; nothing else was issued.
pub proof fn lemma_issued_count(n: u64, id: u64)
    ensures
        issued_upto(n).count(id) == if id < n {
            1nat
        } else {
            0nat
        },
    decreases n,
{
    broadcast use group_to_multiset_ensures;

    if n == 0 {
        assert(Seq::new(0nat, |i: int| i as u64).to_multiset().len() == 0);
    } else {
        let m = (n - 1) as u64;
        lemma_issued_count(m, id);
        assert(Seq::new(n as nat, |i: int| i as u64) =~= Seq::new(m as nat, |i: int| i as u64).push(
            m,
        ));
        assert(issued_upto(n) =~= issued_upto(m).insert(m));
    }
}

/// Recording one more completion for worker `w` appends exactly that job to
/// `w`'s history and leaves every other worker's history untouched.
pub proof fn lemma_history_extends(jobs: Seq<u64>, workers: Seq<usize>, id: u64, w: usize, v: int)
    requires
        workers.len() == jobs.len(),
    ensures
        history_of(jobs.push(id), workers.push(w), w as int) == history_of(
            jobs,
            workers,
            w as int,
        ).push(id),
        v != w as int ==> history_of(jobs.push(id), workers.push(w), v) == history_of(
            jobs,
            workers,
            v,
        ),
{
    assert(jobs.push(id).drop_last() =~= jobs);
    assert(workers.push(w).drop_last() =~= workers);
    assert(jobs.push(id).last() == id);
    assert(workers.push(w).last() == w);
}

/// Two different workers' histories never account for more occurrences of a
/// ticket than the completion record holds.
proof fn lemma_history_counts(jobs: Seq<u64>, workers: Seq<usize>, w1: int, w2: int, id: u64)
    requires
        workers.len() == jobs.len(),
        w1 != w2,
    ensures
        history_of(jobs, workers, w1).to_multiset().count(id) + history_of(
            jobs,
            workers,
            w2,
        ).to_multiset().count(id) <= jobs.to_multiset().count(id),
    decreases jobs.len(),
{
    broadcast use group_to_multiset_ensures;

    if jobs.len() == 0 {
        assert(history_of(jobs, workers, w1).to_multiset().len() == 0);
        assert(history_of(jobs, workers, w2).to_multiset().len() == 0);
        assert(jobs.to_multiset().len() == 0);
    } else {
        let j0 = jobs.drop_last();
        let k0 = workers.drop_last();
        lemma_history_counts(j0, k0, w1, w2, id);
        assert(jobs =~= j0.push(jobs.last()));
        assert(jobs.to_multiset() == j0.to_multiset().insert(jobs.last()));
        assert(history_of(jobs, workers, w1) == if workers.last() as int == w1 {
            history_of(j0, k0, w1).push(jobs.last())
        } else {
            history_of(j0, k0, w1)
        });
        assert(history_of(jobs, workers, w2) == if workers.last() as int == w2 {
            history_of(j0, k0, w2).push(jobs.last())
        } else {
            history_of(j0, k0, w2)
        });
    }
}

/// A single worker's history never accounts for more occurrences of a
/// ticket than the completion record holds.
proof fn lemma_history_count_le(jobs: Seq<u64>, workers: Seq<usize>, w: int, id: u64)
    requires
        workers.len() == jobs.len(),
    ensures
        history_of(jobs, workers, w).to_multiset().count(id) <= jobs.to_multiset().count(id),
    decreases jobs.len(),
{
    broadcast use group_to_multiset_ensures;

    if jobs.len() == 0 {
        assert(history_of(jobs, workers, w).to_multiset().len() == 0);
        assert(jobs.to_multiset().len() == 0);
    } else {
        let j0 = jobs.drop_last();
        let k0 = workers.drop_last();
        lemma_history_count_le(j0, k0, w, id);
        assert(jobs =~= j0.push(jobs.last()));
        assert(jobs.to_multiset() == j0.to_multiset().insert(jobs.last()));
        assert(history_of(jobs, workers, w) == if workers.last() as int == w {
            history_of(j0, k0, w).push(jobs.last())
        } else {
            history_of(j0, k0, w)
        });
    }
}

/// Law (exactly once per worker): in a well-formed pool, no worker's
/// history lists the same ticket twice — a job picked up by a worker is
/// executed once, not re-run.
pub proof fn lemma_no_repeat_execution(s: PoolState, w: int)
    requires
        s.wf(),
    ensures
        s.history(w).no_duplicates(),
{
    broadcast use group_to_multiset_ensures;

    let h = s.history(w);
    assert forall|x: u64| h.to_multiset().contains(x) implies h.to_multiset().count(x) == 1 by {
        lemma_history_count_le(s.done_jobs@, s.done_workers@, w, x);
        lemma_single_delivery(s, x);
    };
    h.lemma_multiset_has_no_duplicates_conv();
}

/// Law (single delivery): in a well-formed pool, every issued ticket is
/// accounted for exactly once between the pending jobs and the delivered
/// jobs, and a ticket never issued is accounted for nowhere.  No job is
/// lost, duplicated, or delivered to two callers.
pub proof fn lemma_single_delivery(s: PoolState, id: u64)
    requires
        s.wf(),
    ensures
        s.pending().count(id) + s.delivered().count(id) == if id < s.next_ticket {
            1nat
        } else {
            0nat
        },
{
    lemma_issued_count(s.next_ticket, id);
    assert(s.pending().add(s.delivered()).count(id) == s.pending().count(id) + s.delivered().count(
        id,
    ));
}

/// Law (no double delivery): in a well-formed pool, no ticket appears in
/// the histories of two different workers: each job was executed by one
/// worker only.
pub proof fn lemma_no_double_delivery(s: PoolState, w1: int, w2: int, id: u64)
    requires
        s.wf(),
        w1 != w2,
        s.history(w1).contains(id),
    ensures
        !s.history(w2).contains(id),
{
    broadcast use group_to_multiset_ensures;

    if s.history(w2).contains(id) {
        lemma_history_counts(s.done_jobs@, s.done_workers@, w1, w2, id);
        lemma_single_delivery(s, id);
        assert(false);
    }
}

/// Law (state isolation): two jobs finished in sequence by one worker land
/// in that worker's history in that order — the later job observes a state
/// that the earlier one has already shaped — while the history of every
/// other worker, and so the state evolution it stands for, is untouched.
pub proof fn lemma_state_isolation(
    jobs: Seq<u64>,
    workers: Seq<usize>,
    id1: u64,
    id2: u64,
    w: usize,
    v: int,
)
    requires
        workers.len() == jobs.len(),
        v != w as int,
    ensures
        history_of(jobs.push(id1).push(id2), workers.push(w).push(w), w as int) == history_of(
            jobs,
            workers,
            w as int,
        ).push(id1).push(id2),
        history_of(jobs.push(id1).push(id2), workers.push(w).push(w), v) == history_of(
            jobs,
            workers,
            v,
        ),
{
    lemma_history_extends(jobs, workers, id1, w, v);
    lemma_history_extends(jobs.push(id1), workers.push(w), id2, w, v);
}

} // verus!
