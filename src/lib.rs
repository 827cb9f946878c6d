//! Search over a document object graph: finds every attribute key that
//! equals a query and reports the access path from the root to it.
//!
//! `node` holds the graph and the resolver of indirect references, `path`
//! the access paths and their display, `search` the search itself, `laws`
//! what holds of every search, and `loader` the gathering of the nodes that a
//! root reaches.

pub mod laws;
pub mod loader;
pub mod node;
pub mod path;
pub mod search;
