//! From a text to the records that hold it.

pub mod assemble;
pub mod chunk;
pub mod datapoints;
pub mod extract;
pub mod ids;
pub mod points;
pub mod shape;
