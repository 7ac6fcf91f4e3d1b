//! What the library promises as a whole: how what comes out of an operation
//! relates to what went in, said of the rows and texts themselves.

pub mod calls;
pub mod chunking;
pub mod configuring;
pub mod forgetting;
pub mod graphs;
pub mod importing;
pub mod metadata;
pub mod models;
pub mod recall;
pub mod remembering;
pub mod repairing;
pub mod services;
pub mod serving;
pub mod texts;
pub mod vectors;
pub mod walking;
pub mod writing;
