//! Statistics over the commit history of a git repository: commits, authors,
//! tracked paths, file-content revisions and per-path revision counts.
pub mod byte_order;
pub mod byte_set;
pub mod model;
pub mod walker;
pub mod filter;
pub mod summary;
pub mod hotspot;
pub mod selector;
pub mod progress;
pub mod cli;
pub mod git;
pub mod render;
