//! The semantic index: files cut into chunks of lines, one embedding for
//! each chunk, and search over the embeddings.
pub mod config;
pub mod embedding;
pub mod index;
pub mod vector_store;
