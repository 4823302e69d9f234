//! The job channel: an unbounded transport carrying either one unit of work
//! or a termination signal from the pool to its workers. Any number of
//! messages may be sent without waiting; workers receive them one at a time,
//! in strict send order.

use vstd::prelude::*;

verus! {

/// A message on the job channel: one unit of work, identified by the tag the
/// caller attached at submission, or an order for exactly one worker to shut
/// down. Jobs are opaque to the pool, so the model carries only their tags.
#[derive(Clone, Copy, PartialEq, Eq, Structural, Debug)]
pub enum ControlMessage {
    Work(u64),
    Shutdown,
}

/// The transport between the pool (the sending side) and its workers (one
/// shared receiving side). `sent` records every message ever sent, in send
/// order; `taken` counts how many of them have already been delivered to a
/// worker. A message is delivered at most once, and delivery follows send
/// order exactly (FIFO).
pub struct Channel {
    sent: Vec<ControlMessage>,
    taken: usize,
}

impl Channel {
    /// Every message sent so far, in send order.
    pub closed spec fn sent_log(self) -> Seq<ControlMessage> {
        self.sent@
    }

    /// How many of the sent messages have been delivered to a worker.
    pub closed spec fn delivered(self) -> int {
        self.taken as int
    }

    /// Delivery never runs ahead of sending.
    pub open spec fn wf(self) -> bool {
        0 <= self.delivered() <= self.sent_log().len()
    }

    /// The messages already delivered, in delivery order: because delivery is
    /// FIFO, this is exactly a prefix of the send log.
    pub open spec fn delivered_log(self) -> Seq<ControlMessage> {
        self.sent_log().take(self.delivered())
    }

    /// The messages sent but not yet delivered, oldest first.
    pub open spec fn pending(self) -> Seq<ControlMessage> {
        self.sent_log().skip(self.delivered())
    }

    /// A fresh channel: nothing sent, nothing delivered.
    pub fn new() -> (c: Channel)
        ensures
            c.wf(),
            c.sent_log() == Seq::<ControlMessage>::empty(),
            c.delivered() == 0,
    {
        Channel { sent: Vec::new(), taken: 0 }
    }

    /// Enqueues `m`. Sending never waits, whatever the number of pending
    /// messages: the channel is unbounded by design.
    pub fn send(&mut self, m: ControlMessage)
        requires
            old(self).wf(),
        ensures
            final(self).wf(),
            final(self).sent_log() == old(self).sent_log().push(m),
            final(self).delivered() == old(self).delivered(),
    {
        self.sent.push(m);
    }

    /// Hands out the next undelivered message, in strict send order. A real
    /// worker blocks here until a message arrives; the model takes this step
    /// only when one is pending.
    pub fn receive(&mut self) -> (m: ControlMessage)
        requires
            old(self).wf(),
            old(self).pending().len() > 0,
        ensures
            final(self).wf(),
            m == old(self).sent_log()[old(self).delivered()],
            final(self).sent_log() == old(self).sent_log(),
            final(self).delivered() == old(self).delivered() + 1,
    {
        let n = self.sent.len();
        let m = self.sent[self.taken];
        proof {
            assert(self.taken < n);
        }
        self.taken = self.taken + 1;
        m
    }

    /// Whether a sent message is still awaiting delivery.
    pub fn has_pending(&self) -> (b: bool)
        ensures
            b <==> self.delivered() < self.sent_log().len(),
    {
        self.taken < self.sent.len()
    }

    /// How many messages have been sent so far.
    pub fn sent_count(&self) -> (n: usize)
        ensures
            n == self.sent_log().len(),
    {
        self.sent.len()
    }

    /// How many messages have been delivered so far.
    pub fn delivered_count(&self) -> (n: usize)
        ensures
            n == self.delivered(),
    {
        self.taken
    }
}

/// How many Work messages in `s` carry the tag `j`.
pub open spec fn count_work(s: Seq<ControlMessage>, j: u64) -> nat
    decreases s.len(),
{
    if s.len() == 0 {
        0
    } else {
        count_work(s.drop_last(), j)
            + (if s.last() == ControlMessage::Work(j) { 1nat } else { 0nat })
    }
}

/// How many Shutdown messages `s` holds.
pub open spec fn count_shutdown(s: Seq<ControlMessage>) -> nat
    decreases s.len(),
{
    if s.len() == 0 {
        0
    } else {
        count_shutdown(s.drop_last())
            + (if s.last() == ControlMessage::Shutdown { 1nat } else { 0nat })
    }
}

/// Appending a message raises its own count by one and leaves the other
/// counts unchanged.
pub proof fn lemma_counts_push(s: Seq<ControlMessage>, m: ControlMessage)
    ensures
        forall|j: u64|
            #[trigger] count_work(s.push(m), j) == count_work(s, j)
                + (if m == ControlMessage::Work(j) { 1nat } else { 0nat }),
        count_shutdown(s.push(m)) == count_shutdown(s)
            + (if m == ControlMessage::Shutdown { 1nat } else { 0nat }),
{
    assert(s.push(m).drop_last() =~= s);
    assert(s.push(m).last() == m);
}

/// Extending a prefix by one element is a push of that element.
pub proof fn lemma_take_succ(s: Seq<ControlMessage>, i: int)
    requires
        0 <= i < s.len(),
    ensures
        s.take(i + 1) == s.take(i).push(s[i]),
{
    assert(s.take(i + 1) =~= s.take(i).push(s[i]));
}

/// A prefix as long as the sequence is the sequence itself.
pub proof fn lemma_take_all(s: Seq<ControlMessage>)
    ensures
        s.take(s.len() as int) == s,
{
    assert(s.take(s.len() as int) =~= s);
}

/// Pushing onto a sequence leaves its prefixes unchanged.
pub proof fn lemma_take_of_push(s: Seq<ControlMessage>, m: ControlMessage, i: int)
    requires
        0 <= i <= s.len(),
    ensures
        s.push(m).take(i) == s.take(i),
{
    assert(s.push(m).take(i) =~= s.take(i));
}

} // verus!
