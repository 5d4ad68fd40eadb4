//! The task lifecycle and result exchange core of a query worker node.
//!
//! A worker takes tasks from a coordinator, runs them, and hands their result
//! pages to downstream consumers. This crate holds the three parts of that
//! work that have to be right:
//!
//! - [`task`]: the state machine of one task, with versioned updates that
//!   make repeated deliveries harmless, and [`registry`], which keeps the
//!   tasks of the worker by identity;
//! - [`buffer`]: one output buffer, pulled by token and acknowledged by
//!   token, and [`manager`], which keeps the buffers of one task;
//! - [`memory`]: the accountant, which grants and takes back memory
//!   reservations against the limits of named pools.
//!
//! [`service`] says what the worker answers to each request of its surface.
//! The transport, the clock and the waiting are the caller's: every
//! operation here takes plain values, the time included, and returns at
//! once.

pub mod buffer;
pub mod error;
pub mod ident;
pub mod manager;
pub mod memory;
pub mod names;
pub mod registry;
pub mod service;
pub mod task;
