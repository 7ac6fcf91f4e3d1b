//! The stores: the property graph, the relational metadata and the vectors.

pub mod dashless;
pub mod graph;
pub mod groups;
pub mod histogram;
pub mod refs;
pub mod relational;
pub mod vector;
pub mod vector_writer;
pub mod walk;
