//! The decisions of tools whose results are cached.
pub mod grep_files;
