//! A contract-execution engine for a stack-based bytecode virtual machine.
//!
//! The crate interprets contract bytecode against an operand stack, linear
//! memory and a persistent key/value store, and drives the call lifecycle
//! that turns an external invocation into a committed (or discarded) state
//! transition. Contract storage is persisted in a content-addressed
//! hash-array-mapped trie and referenced by a root content address held in
//! the durable contract state.

pub mod word;
pub mod buffer;
pub mod bytecode;
pub mod storage;
pub mod system;
pub mod state;
pub mod interpreter;
pub mod actor;
