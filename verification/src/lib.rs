//! The core of a bootnode: a cache of contract events that serves a client's
//! history up to a retention cutoff and then hands the client off to its own
//! endpoint.
//!
//! The modules decide and compute; talking to the network, to a database and
//! to the user is left to the program around them. [`rpc`] says what requests
//! are answered, [`indexer`] drives rounds that copy upstream events into a
//! [`storage`], and [`config`], [`cli`], [`deployment`] and [`node`] settle what
//! a node starts from.
pub mod cli;
pub mod config;
pub mod deployment;
pub mod indexer;
pub mod messages;
pub mod node;
pub mod rpc;
pub mod storage;
pub mod text;

pub use deployment::DeploymentSpec;
pub use node::Bootnode;
pub use storage::{InMemory, Postgres};
