//! A fixed-size worker pool, stated as verified state machines.
//!
//! `channel` is the unbounded FIFO hand-off queue between submitters and
//! workers; `pool` adds the fixed roster of workers, their claim / run /
//! finish cycle and the shutdown protocol. Threads, locks and the running of
//! jobs live with the caller, who drives these machines one event at a time.
pub mod channel;
pub mod pool;
