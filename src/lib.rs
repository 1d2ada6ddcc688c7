//! A single-threaded cooperative runtime that serves one fixed HTTP response:
//! a readiness reactor's registration table, a run-queue scheduler with
//! coalescing wakers, and the acceptor and connection state machines that run
//! on it. The caller owns the sockets and the multiplexer; these types decide
//! what to do with what it reports.

pub mod acceptor;
pub mod handler;
pub mod reactor;
pub mod scheduler;
