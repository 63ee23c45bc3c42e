//! A randomized dependency-graph oracle for exercising a module loader.
//!
//! A graph of modules is built so that every dependency edge points from a
//! later-created node to an earlier-created one. From the graph the library
//! derives the value each module must report, and the ordered transaction
//! requests that publish and invoke the modules.

pub mod account;
pub mod batch;
pub mod graph;
pub mod index;
pub mod laws;
pub mod node;
pub mod oracle;
pub mod shape;
pub mod state;
pub mod store;
pub mod transaction;
