//! A small asynchronous runtime: buffer pool, timer queue, reactor
//! bookkeeping, I/O readiness registration and the executor's scheduling
//! rules.

pub mod executor;
pub mod net;
pub mod pool;
pub mod reactor;
pub mod timer;
