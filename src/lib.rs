//! A single-threaded asynchronous runtime core: a FIFO task scheduler, a
//! readiness reactor that holds one continuation per (fd, direction), and the
//! decision that turns a would-block socket call into an armed interest.
//!
//! The state machines and tables here are verified; the poller, the sockets
//! and the future plumbing that drive them live with the program around them.

pub mod token;
pub mod reactor;
pub mod executor;
pub mod tcp;
