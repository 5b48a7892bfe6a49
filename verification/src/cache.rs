//! The cache of tool results: policy, bookkeeping and key derivation.
pub mod config;
pub mod index;
pub mod manager;
pub mod store;
pub mod tool_cache;
