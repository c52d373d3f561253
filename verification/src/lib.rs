//! A distributed arithmetic-expression evaluator.
//!
//! An expression over 32-bit signed integers is a finite tree with one node
//! kind per primitive operation and integer literals at the leaves.  Four
//! operator services each own one operation; an orchestrator submits the root
//! of a tree to the service owning the root's operation, and each service
//! reduces the tree step by step, computing its own operation locally and
//! delegating the other three to its peers.
//!
//! This crate holds everything about that system that is pure logic.  The
//! network transport around it is ordinary I/O and lives outside this crate.

pub mod arith;
pub mod client;
pub mod codec;
pub mod config;
pub mod parse;
pub mod proto;
pub mod server;
