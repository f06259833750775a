//! A broadcast queue: one append-only chain of items and any number of
//! independent read positions into it.
//!
//! Producers append items to the chain. Every consumer holds a handle of its
//! own and pulls the items one by one, in the order of the chain, at its own
//! pace; what one consumer has pulled is still there for all the others. A
//! cell that every handle has passed is given up.
//!
//! - [`chain`] holds the chain of cells and the positions of its handles.
//! - [`handle`] holds the handles, with what a push and a pull do.
//! - [`history`] follows a chain and a handle through pushes and pulls in
//!   any order.
//! - [`laws`] proves what holds of every chain and every handle.

pub mod chain;
pub mod handle;
pub mod history;
pub mod laws;
