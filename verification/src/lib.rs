//! Scheduling and execution engine for recurring brokerage orders.
//!
//! A user defines recurring jobs (place an order, or transfer funds) with a
//! calendar-based schedule. The library decides which jobs are due, resolves
//! order quantities, drives the login/MFA state machine, records fills, and
//! persists the job list. All file and network activity happens outside the
//! library: callers hand in file contents, clock readings and broker replies
//! as plain values and receive plain values back.

pub mod auth;
pub mod codec;
pub mod codec_laws;
pub mod dates;
pub mod engine;
pub mod history;
pub mod model;
pub mod numstr;
pub mod orders;
pub mod runner;
pub mod store;
pub mod text;
