//! A typed reactive dataflow graph: nodes exchange typed values through
//! broadcast links, and a search over a catalog of node templates proposes
//! pipelines whose types chain together.
pub mod atom;
pub mod type_multiset;
pub mod link;
pub mod node;
pub mod graph;
pub mod synthesis;
pub mod vec_copy;
