//! A fixed-size worker pool: a bounded set of workers draws opaque units of
//! work from one shared first-in-first-out intake channel and runs each unit
//! exactly once.
//!
//! The pool's distribution protocol is modelled as a state machine over plain
//! values: each submitted unit is identified by its submission index, the
//! intake channel is the queue of indices not yet claimed, and every worker is
//! either waiting, running one claimed unit, or exited after observing channel
//! closure. The contracts pin down the protocol's guarantees: distinct worker
//! identities, first-in-first-out claiming, exactly-once execution, and a
//! drain-then-terminate shutdown.

pub mod pool;
pub mod worker;
