//! Git views: the commit graph, the status lists, diffs and what the commands do.

pub mod diff;
pub mod graph;
pub mod operations;
pub mod repo;
