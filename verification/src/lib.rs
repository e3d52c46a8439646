//! Verified core of the run-sync companion: pairing links, the run folders
//! and which of their files are runs, content hashes, upload batching, and
//! the rules by which commands change the settings.
pub mod background;
pub mod commands;
pub mod config;
pub mod deep_link;
pub mod digest;
pub mod json;
pub mod run_files;
pub mod text;
pub mod upload;
