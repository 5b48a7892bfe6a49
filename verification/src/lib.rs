//! Local persistence engines for a tool-execution runtime: a size- and
//! TTL-bounded cache of tool results, and a semantic index over line-bounded
//! chunks of source files.
pub mod cache;
pub mod hash;
pub mod json;
pub mod order;
pub mod paths;
pub mod search;
pub mod semantic;
pub mod telemetry;
pub mod text;
pub mod tools;
