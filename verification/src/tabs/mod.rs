//! The tabs of the screen.
pub mod files;
pub mod stashlist;
pub mod status;
