//! A fixed-size worker pool: a single producer submits units of work over an
//! unbounded FIFO job channel, a fixed set of workers races to receive each
//! message, and an ordered two-phase teardown (broadcast one shutdown per
//! worker, then wait for all of them) retires the pool without dropping
//! in-flight work.
//!
//! The pool's protocol is what is verified here: the channel keeps a log of
//! every message sent and how many have been delivered, each worker walks the
//! state machine `Waiting -> Executing -> Waiting / Terminated`, and the pool
//! invariant ties the two together. From it follow the central theorems: every
//! submitted job is executed exactly once, and once the channel is drained the
//! shutdown broadcast has terminated every worker.
//!
//! Jobs themselves are opaque callables run on real threads; the model
//! identifies each by the tag the caller attaches at submission. The thin
//! shell that owns the threads and the real transport animates this model.

pub mod channel;
pub mod pool;
