//! A cooperative actor runtime for WebAssembly guests: address allocation,
//! per-actor mailboxes, argument marshalling between guests, and the
//! decisions of the run-to-quiescence dispatch loop.
pub mod bootstrap;
pub mod cell;
pub mod error;
pub mod host;
pub mod mailbox;
pub mod memory;
pub mod runtime;
pub mod services;
pub mod value;
