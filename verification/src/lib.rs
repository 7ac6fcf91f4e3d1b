//! A memory for language models: a knowledge graph with vector search beside it.

pub mod calendar;
pub mod clock;
pub mod config;
pub mod doctor;
pub mod embed;
pub mod forget;
pub mod ingest;
pub mod json;
pub mod laws;
pub mod lists;
pub mod llm;
pub mod mcp;
pub mod migrate;
pub mod number;
pub mod pattern;
pub mod provenance;
pub mod recall;
pub mod remember;
pub mod settings;
pub mod storage;
pub mod text;
pub mod timeline;
pub mod uid;
