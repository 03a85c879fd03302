//! Fetching from remotes and pushing to them.
pub mod callbacks;
pub mod push;
