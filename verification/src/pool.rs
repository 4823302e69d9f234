//! The worker pool: a fixed set of workers sharing one receiving end of the
//! job channel. The pool owns the sending end; callers submit work through
//! `execute`, and teardown broadcasts one shutdown message per worker.
//!
//! Each worker walks the state machine
//! `Waiting -(Work)-> Executing -(job done)-> Waiting` or
//! `Waiting -(Shutdown)-> Terminated`, with `Terminated` absorbing. The pool
//! invariant `wf` accounts for every delivered message: each delivered Work
//! message is either finished (its tag is in the execution log) or in the
//! hands of exactly one executing worker, and each delivered Shutdown message
//! has terminated exactly one worker. From it follow the two theorems at the
//! bottom: every submitted job executes exactly once, and a drained channel
//! after a full shutdown broadcast leaves every worker terminated.

use vstd::prelude::*;

use crate::channel::Channel;
use crate::channel::ControlMessage;
use crate::channel::count_shutdown;
use crate::channel::count_work;
use crate::channel::lemma_counts_push;
use crate::channel::lemma_take_all;
use crate::channel::lemma_take_of_push;
use crate::channel::lemma_take_succ;

verus! {

/// The state of one worker thread. Workers are identified by their index in
/// the pool; the index serves diagnostics only and carries no meaning.
#[derive(Clone, Copy, PartialEq, Eq, Structural, Debug)]
pub enum WorkerState {
    /// Blocked on the shared receiving end, holding no work.
    Waiting,
    /// Running the job submitted under this tag.
    Executing(u64),
    /// Has consumed a shutdown message; this state is absorbing.
    Terminated,
}

/// Why constructing a pool failed.
#[derive(Clone, Copy, PartialEq, Eq, Structural, Debug)]
pub enum PoolError {
    /// A pool must have at least one worker: a size of zero is a violation of
    /// the caller's contract and is rejected before any worker exists.
    ZeroSize,
}

/// One if `w` is executing the job tagged `j`, else zero.
pub open spec fn executing_one(w: WorkerState, j: u64) -> nat {
    if w == WorkerState::Executing(j) { 1nat } else { 0nat }
}

/// One if `w` has terminated, else zero.
pub open spec fn terminated_one(w: WorkerState) -> nat {
    if w == WorkerState::Terminated { 1nat } else { 0nat }
}

/// How many workers in `ws` are executing the job tagged `j`.
pub open spec fn count_executing(ws: Seq<WorkerState>, j: u64) -> nat
    decreases ws.len(),
{
    if ws.len() == 0 {
        0
    } else {
        count_executing(ws.drop_last(), j) + executing_one(ws.last(), j)
    }
}

/// How many workers in `ws` have terminated.
pub open spec fn count_terminated(ws: Seq<WorkerState>) -> nat
    decreases ws.len(),
{
    if ws.len() == 0 {
        0
    } else {
        count_terminated(ws.drop_last()) + terminated_one(ws.last())
    }
}

/// How many entries of the execution log `s` carry the tag `j`.
pub open spec fn count_tag(s: Seq<u64>, j: u64) -> nat
    decreases s.len(),
{
    if s.len() == 0 {
        0
    } else {
        count_tag(s.drop_last(), j) + (if s.last() == j { 1nat } else { 0nat })
    }
}

/// A burst of `n` shutdown messages, as teardown broadcasts it.
pub open spec fn shutdown_burst(n: nat) -> Seq<ControlMessage> {
    Seq::new(n, |i: int| ControlMessage::Shutdown)
}

/// The worker pool. It owns the sending half of the job channel and the
/// states of its workers; `executed` logs the tag of every job a worker has
/// finished, in completion order.
pub struct ThreadPool {
    channel: Channel,
    workers: Vec<WorkerState>,
    executed: Vec<u64>,
}

impl ThreadPool {
    /// The job channel the pool and its workers share.
    pub closed spec fn chan(self) -> Channel {
        self.channel
    }

    /// The states of the workers, indexed by worker id.
    pub closed spec fn worker_states(self) -> Seq<WorkerState> {
        self.workers@
    }

    /// The tags of the jobs finished so far, in completion order.
    pub closed spec fn executed_log(self) -> Seq<u64> {
        self.executed@
    }

    /// Every message sent on the channel so far, in send order.
    pub open spec fn sent_log(self) -> Seq<ControlMessage> {
        self.chan().sent_log()
    }

    /// How many sent messages have been delivered to a worker.
    pub open spec fn delivered(self) -> int {
        self.chan().delivered()
    }

    /// The delivered prefix of the send log.
    pub open spec fn delivered_log(self) -> Seq<ControlMessage> {
        self.chan().delivered_log()
    }

    /// The protocol invariant. Every delivered Work message is accounted for
    /// exactly once — finished, or in the hands of one executing worker — and
    /// every delivered Shutdown message has terminated exactly one worker.
    pub open spec fn wf(self) -> bool {
        &&& self.chan().wf()
        &&& forall|j: u64|
            #[trigger] count_tag(self.executed_log(), j)
                + count_executing(self.worker_states(), j)
                == count_work(self.delivered_log(), j)
        &&& count_terminated(self.worker_states())
            == count_shutdown(self.delivered_log())
    }

    /// Every sent message has been delivered.
    pub open spec fn drained(self) -> bool {
        self.delivered() == self.sent_log().len()
    }

    /// No worker is mid-job.
    pub open spec fn no_job_in_flight(self) -> bool {
        forall|k: int|
            0 <= k < self.worker_states().len()
                ==> !(#[trigger] self.worker_states()[k] matches WorkerState::Executing(_))
    }

    /// Every worker has terminated.
    pub open spec fn all_terminated(self) -> bool {
        forall|k: int|
            0 <= k < self.worker_states().len()
                ==> self.worker_states()[k] == WorkerState::Terminated
    }

    /// Constructs a pool of exactly `size` workers, each immediately waiting
    /// on the shared receiving end with nothing yet sent, delivered or
    /// executed. A size of zero is rejected outright, before any worker
    /// exists.
    pub fn new(size: usize) -> (r: Result<ThreadPool, PoolError>)
        ensures
            size >= 1 <==> r is Ok,
            size == 0 <==> r == Result::<ThreadPool, PoolError>::Err(PoolError::ZeroSize),
            r matches Ok(p) ==> {
                &&& p.wf()
                &&& p.worker_states().len() == size
                &&& forall|k: int| 0 <= k < size ==> p.worker_states()[k] == WorkerState::Waiting
                &&& p.sent_log() == Seq::<ControlMessage>::empty()
                &&& p.delivered() == 0
                &&& p.executed_log() == Seq::<u64>::empty()
            },
    {
        if size == 0 {
            return Err(PoolError::ZeroSize);
        }
        let channel = Channel::new();
        let mut workers: Vec<WorkerState> = Vec::new();
        let mut i: usize = 0;
        while i < size
            invariant
                i <= size,
                workers@.len() == i,
                forall|k: int| 0 <= k < i ==> workers@[k] == WorkerState::Waiting,
            decreases size - i,
        {
            workers.push(WorkerState::Waiting);
            i = i + 1;
        }
        let p = ThreadPool { channel, workers, executed: Vec::new() };
        proof {
            assert(p.delivered_log() =~= Seq::<ControlMessage>::empty());
            lemma_counts_all_waiting(p.worker_states());
            assert forall|j: u64|
                #[trigger] count_tag(p.executed_log(), j)
                    + count_executing(p.worker_states(), j)
                    == count_work(p.delivered_log(), j) by {
                assert(count_tag(p.executed_log(), j) == 0);
                assert(count_executing(p.worker_states(), j) == 0);
                assert(count_work(p.delivered_log(), j) == 0);
            }
            assert(count_shutdown(p.delivered_log()) == 0);
        }
        Ok(p)
    }

    /// Wraps the job as a Work message and sends it. The call always
    /// succeeds and changes nothing but the send log, whatever the number of
    /// messages already pending: submission never waits on the workers.
    pub fn execute(&mut self, job: u64)
        requires
            old(self).wf(),
        ensures
            final(self).wf(),
            final(self).sent_log() == old(self).sent_log().push(ControlMessage::Work(job)),
            final(self).delivered() == old(self).delivered(),
            final(self).worker_states() == old(self).worker_states(),
            final(self).executed_log() == old(self).executed_log(),
    {
        self.channel.send(ControlMessage::Work(job));
        proof {
            lemma_wf_after_send(*old(self), *self, ControlMessage::Work(job));
        }
    }

    /// Teardown, first phase: broadcasts exactly one Shutdown message per
    /// worker, so that every worker — including any that are mid-job — will
    /// eventually receive one and terminate. Nothing else changes; in
    /// particular no message is withdrawn, so work already queued is still
    /// delivered ahead of the shutdown messages behind it.
    pub fn shutdown(&mut self)
        requires
            old(self).wf(),
        ensures
            final(self).wf(),
            final(self).sent_log() == old(self).sent_log()
                + shutdown_burst(old(self).worker_states().len() as nat),
            count_shutdown(final(self).sent_log()) == count_shutdown(old(self).sent_log())
                + old(self).worker_states().len(),
            final(self).delivered() == old(self).delivered(),
            final(self).worker_states() == old(self).worker_states(),
            final(self).executed_log() == old(self).executed_log(),
    {
        let n = self.workers.len();
        let mut i: usize = 0;
        while i < n
            invariant
                i <= n,
                self.wf(),
                self.sent_log() == old(self).sent_log() + shutdown_burst(i as nat),
                count_shutdown(self.sent_log()) == count_shutdown(old(self).sent_log()) + i,
                self.delivered() == old(self).delivered(),
                self.worker_states() == old(self).worker_states(),
                self.executed_log() == old(self).executed_log(),
                old(self).wf(),
            decreases n - i,
        {
            let ghost prev = *self;
            self.channel.send(ControlMessage::Shutdown);
            proof {
                lemma_wf_after_send(prev, *self, ControlMessage::Shutdown);
                lemma_counts_push(prev.sent_log(), ControlMessage::Shutdown);
                assert(prev.sent_log().push(ControlMessage::Shutdown)
                    =~= old(self).sent_log() + shutdown_burst((i + 1) as nat));
            }
            i = i + 1;
        }
    }

    /// One waiting worker takes the receive lock and dequeues the next
    /// message, in strict send order. A Work message moves the worker to
    /// Executing with that job in hand; a Shutdown message terminates it.
    /// Only a waiting worker receives: a worker mid-job finishes that job
    /// before it consumes another message.
    pub fn dispatch(&mut self, w: usize) -> (m: ControlMessage)
        requires
            old(self).wf(),
            w < old(self).worker_states().len(),
            old(self).worker_states()[w as int] == WorkerState::Waiting,
            old(self).delivered() < old(self).sent_log().len(),
        ensures
            final(self).wf(),
            m == old(self).sent_log()[old(self).delivered()],
            final(self).sent_log() == old(self).sent_log(),
            final(self).delivered() == old(self).delivered() + 1,
            final(self).executed_log() == old(self).executed_log(),
            m matches ControlMessage::Work(j) ==> final(self).worker_states()
                == old(self).worker_states().update(w as int, WorkerState::Executing(j)),
            m == ControlMessage::Shutdown ==> final(self).worker_states()
                == old(self).worker_states().update(w as int, WorkerState::Terminated),
    {
        let m = self.channel.receive();
        match m {
            ControlMessage::Work(j) => {
                self.workers.set(w, WorkerState::Executing(j));
            }
            ControlMessage::Shutdown => {
                self.workers.set(w, WorkerState::Terminated);
            }
        }
        proof {
            let ws0 = old(self).worker_states();
            let v = self.worker_states()[w as int];
            lemma_take_succ(old(self).sent_log(), old(self).delivered());
            assert(self.delivered_log() == old(self).delivered_log().push(m));
            lemma_counts_push(old(self).delivered_log(), m);
            lemma_counts_worker_update(ws0, w as int, v);
            assert(self.worker_states() == ws0.update(w as int, v));
            assert forall|j: u64|
                #[trigger] count_tag(self.executed_log(), j)
                    + count_executing(self.worker_states(), j)
                    == count_work(self.delivered_log(), j) by {
                assert(count_tag(old(self).executed_log(), j) + count_executing(ws0, j)
                    == count_work(old(self).delivered_log(), j));
                assert(count_executing(self.worker_states(), j) + executing_one(ws0[w as int], j)
                    == count_executing(ws0, j) + executing_one(v, j));
                assert(count_work(self.delivered_log(), j)
                    == count_work(old(self).delivered_log(), j)
                        + (if m == ControlMessage::Work(j) { 1nat } else { 0nat }));
            }
            assert(count_terminated(self.worker_states()) + terminated_one(ws0[w as int])
                == count_terminated(ws0) + terminated_one(v));
            assert(count_shutdown(self.delivered_log())
                == count_shutdown(old(self).delivered_log())
                    + (if m == ControlMessage::Shutdown { 1nat } else { 0nat }));
        }
        m
    }

    /// The worker finishes the job in its hands: the job's tag is appended
    /// to the execution log — each job runs exactly once, so this is the only
    /// point at which a tag is logged — and the worker returns to waiting.
    pub fn complete(&mut self, w: usize)
        requires
            old(self).wf(),
            w < old(self).worker_states().len(),
            old(self).worker_states()[w as int] matches WorkerState::Executing(_),
        ensures
            final(self).wf(),
            final(self).sent_log() == old(self).sent_log(),
            final(self).delivered() == old(self).delivered(),
            final(self).worker_states() == old(self).worker_states().update(
                w as int,
                WorkerState::Waiting,
            ),
            old(self).worker_states()[w as int] matches WorkerState::Executing(j)
                ==> final(self).executed_log() == old(self).executed_log().push(j),
    {
        let st = self.workers[w];
        match st {
            WorkerState::Executing(j) => {
                self.executed.push(j);
                self.workers.set(w, WorkerState::Waiting);
                proof {
                    let ws0 = old(self).worker_states();
                    assert(self.delivered_log() == old(self).delivered_log());
                    lemma_count_tag_push(old(self).executed_log(), j);
                    lemma_counts_worker_update(ws0, w as int, WorkerState::Waiting);
                    assert forall|jj: u64|
                        #[trigger] count_tag(self.executed_log(), jj)
                            + count_executing(self.worker_states(), jj)
                            == count_work(self.delivered_log(), jj) by {
                        assert(count_tag(old(self).executed_log(), jj) + count_executing(ws0, jj)
                            == count_work(old(self).delivered_log(), jj));
                        assert(count_tag(self.executed_log(), jj)
                            == count_tag(old(self).executed_log(), jj)
                                + (if j == jj { 1nat } else { 0nat }));
                        assert(count_executing(self.worker_states(), jj)
                            + executing_one(ws0[w as int], jj)
                            == count_executing(ws0, jj) + executing_one(WorkerState::Waiting, jj));
                    }
                    assert(count_terminated(self.worker_states())
                        + terminated_one(ws0[w as int])
                        == count_terminated(ws0) + terminated_one(WorkerState::Waiting));
                }
            }
            _ => {
                proof {
                    assert(false);
                }
            }
        }
    }

    /// How many workers the pool has.
    pub fn worker_count(&self) -> (n: usize)
        ensures
            n == self.worker_states().len(),
    {
        self.workers.len()
    }

    /// The state of the worker with index `w`.
    pub fn worker_state(&self, w: usize) -> (s: WorkerState)
        requires
            w < self.worker_states().len(),
        ensures
            s == self.worker_states()[w as int],
    {
        self.workers[w]
    }

    /// How many jobs have been finished so far.
    pub fn executed_count(&self) -> (n: usize)
        ensures
            n == self.executed_log().len(),
    {
        self.executed.len()
    }

    /// The tag of the `i`th finished job, in completion order.
    pub fn executed_tag(&self, i: usize) -> (t: u64)
        requires
            i < self.executed_log().len(),
        ensures
            t == self.executed_log()[i as int],
    {
        self.executed[i]
    }

    /// Whether a sent message is still awaiting delivery.
    pub fn has_pending(&self) -> (b: bool)
        ensures
            b <==> self.delivered() < self.sent_log().len(),
    {
        self.channel.has_pending()
    }

    /// How many messages have been sent so far.
    pub fn sent_count(&self) -> (n: usize)
        ensures
            n == self.sent_log().len(),
    {
        self.channel.sent_count()
    }

    /// How many messages have been delivered so far.
    pub fn delivered_count(&self) -> (n: usize)
        ensures
            n == self.delivered(),
    {
        self.channel.delivered_count()
    }
}

/// Workers that are all waiting execute nothing and none has terminated.
pub proof fn lemma_counts_all_waiting(ws: Seq<WorkerState>)
    requires
        forall|k: int| 0 <= k < ws.len() ==> ws[k] == WorkerState::Waiting,
    ensures
        forall|j: u64| #[trigger] count_executing(ws, j) == 0,
        count_terminated(ws) == 0,
    decreases ws.len(),
{
    if ws.len() > 0 {
        assert forall|k: int| 0 <= k < ws.drop_last().len()
            implies ws.drop_last()[k] == WorkerState::Waiting by {
            assert(ws[k] == WorkerState::Waiting);
        }
        lemma_counts_all_waiting(ws.drop_last());
        assert(ws.last() == WorkerState::Waiting);
        assert forall|j: u64| #[trigger] count_executing(ws, j) == 0 by {
            assert(count_executing(ws.drop_last(), j) == 0);
        }
    }
}

/// Sending a message touches neither the delivered prefix of the log nor any
/// worker, so the protocol invariant survives any send.
proof fn lemma_wf_after_send(p0: ThreadPool, p1: ThreadPool, m: ControlMessage)
    requires
        p0.wf(),
        p1.chan().wf(),
        p1.sent_log() == p0.sent_log().push(m),
        p1.delivered() == p0.delivered(),
        p1.worker_states() == p0.worker_states(),
        p1.executed_log() == p0.executed_log(),
    ensures
        p1.wf(),
{
    lemma_take_of_push(p0.sent_log(), m, p0.delivered());
    assert(p1.delivered_log() == p0.delivered_log());
    assert forall|j: u64|
        #[trigger] count_tag(p1.executed_log(), j) + count_executing(p1.worker_states(), j)
            == count_work(p1.delivered_log(), j) by {
        assert(count_tag(p0.executed_log(), j) + count_executing(p0.worker_states(), j)
            == count_work(p0.delivered_log(), j));
    }
}

/// Appending a tag to the execution log raises its own count by one and
/// leaves every other count unchanged.
pub proof fn lemma_count_tag_push(s: Seq<u64>, t: u64)
    ensures
        forall|j: u64|
            #[trigger] count_tag(s.push(t), j) == count_tag(s, j)
                + (if t == j { 1nat } else { 0nat }),
{
    assert(s.push(t).drop_last() =~= s);
    assert(s.push(t).last() == t);
}

/// Replacing the state of one worker moves the counts by exactly the
/// difference between the old state and the new one.
pub proof fn lemma_counts_worker_update(ws: Seq<WorkerState>, i: int, v: WorkerState)
    requires
        0 <= i < ws.len(),
    ensures
        forall|j: u64|
            #[trigger] count_executing(ws.update(i, v), j) + executing_one(ws[i], j)
                == count_executing(ws, j) + executing_one(v, j),
        count_terminated(ws.update(i, v)) + terminated_one(ws[i])
            == count_terminated(ws) + terminated_one(v),
    decreases ws.len(),
{
    let wsd = ws.drop_last();
    if i == ws.len() - 1 {
        assert(ws.update(i, v).drop_last() =~= wsd);
        assert(ws.update(i, v).last() == v);
        assert(ws.last() == ws[i]);
        assert forall|j: u64|
            #[trigger] count_executing(ws.update(i, v), j) + executing_one(ws[i], j)
                == count_executing(ws, j) + executing_one(v, j) by {
            assert(count_executing(ws.update(i, v), j)
                == count_executing(wsd, j) + executing_one(v, j));
            assert(count_executing(ws, j) == count_executing(wsd, j) + executing_one(ws[i], j));
        }
        assert(count_terminated(ws.update(i, v)) == count_terminated(wsd) + terminated_one(v));
        assert(count_terminated(ws) == count_terminated(wsd) + terminated_one(ws[i]));
    } else {
        assert(ws.update(i, v).drop_last() =~= wsd.update(i, v));
        assert(ws.update(i, v).last() == ws.last());
        lemma_counts_worker_update(wsd, i, v);
        assert(wsd[i] == ws[i]);
        assert forall|j: u64|
            #[trigger] count_executing(ws.update(i, v), j) + executing_one(ws[i], j)
                == count_executing(ws, j) + executing_one(v, j) by {
            assert(count_executing(wsd.update(i, v), j) + executing_one(ws[i], j)
                == count_executing(wsd, j) + executing_one(v, j));
            assert(count_executing(ws.update(i, v), j)
                == count_executing(wsd.update(i, v), j) + executing_one(ws.last(), j));
            assert(count_executing(ws, j) == count_executing(wsd, j) + executing_one(ws.last(), j));
        }
        assert(count_terminated(ws.update(i, v))
            == count_terminated(wsd.update(i, v)) + terminated_one(ws.last()));
        assert(count_terminated(ws) == count_terminated(wsd) + terminated_one(ws.last()));
    }
}

/// No more workers have terminated than there are workers.
pub proof fn lemma_count_terminated_le(ws: Seq<WorkerState>)
    ensures
        count_terminated(ws) <= ws.len(),
    decreases ws.len(),
{
    if ws.len() > 0 {
        lemma_count_terminated_le(ws.drop_last());
    }
}

/// When as many workers have terminated as there are workers, every single
/// one of them has.
pub proof fn lemma_count_terminated_full(ws: Seq<WorkerState>)
    requires
        count_terminated(ws) == ws.len(),
    ensures
        forall|k: int| 0 <= k < ws.len() ==> ws[k] == WorkerState::Terminated,
    decreases ws.len(),
{
    if ws.len() > 0 {
        lemma_count_terminated_le(ws.drop_last());
        lemma_count_terminated_full(ws.drop_last());
        assert forall|k: int| 0 <= k < ws.len() implies ws[k] == WorkerState::Terminated by {
            if k < ws.len() - 1 {
                assert(ws.drop_last()[k] == ws[k]);
            }
        }
    }
}

/// Workers none of which is executing contribute nothing to the in-flight
/// count of any job.
pub proof fn lemma_count_executing_none(ws: Seq<WorkerState>, j: u64)
    requires
        forall|k: int| 0 <= k < ws.len() ==> !(#[trigger] ws[k] matches WorkerState::Executing(_)),
    ensures
        count_executing(ws, j) == 0,
    decreases ws.len(),
{
    if ws.len() > 0 {
        lemma_count_executing_none(ws.drop_last(), j);
    }
}

/// Exactly-once execution. In any well-formed pool state in which every sent
/// message has been delivered and no worker is still mid-job, each job tag
/// has been executed exactly as many times as it was submitted: a job
/// submitted under a tag that no other submission shares ran exactly once —
/// never zero times, never twice.
pub proof fn lemma_each_job_executes_once(p: ThreadPool, j: u64)
    requires
        p.wf(),
        p.drained(),
        p.no_job_in_flight(),
    ensures
        count_tag(p.executed_log(), j) == count_work(p.sent_log(), j),
{
    lemma_take_all(p.sent_log());
    assert(p.delivered_log() == p.sent_log());
    lemma_count_executing_none(p.worker_states(), j);
}

/// Teardown retires every worker. Once the shutdown broadcast has put one
/// Shutdown message per worker on the channel and every sent message has
/// been delivered, every worker has terminated — so waiting for the workers
/// after the broadcast cannot leave one blocked forever, and joining them
/// all is exactly what teardown's second phase does.
pub proof fn lemma_shutdown_reaches_all(p: ThreadPool)
    requires
        p.wf(),
        p.drained(),
        count_shutdown(p.sent_log()) == p.worker_states().len(),
    ensures
        p.all_terminated(),
{
    lemma_take_all(p.sent_log());
    assert(p.delivered_log() == p.sent_log());
    lemma_count_terminated_full(p.worker_states());
}

} // verus!
