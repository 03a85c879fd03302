//! Parts that several components share.
pub mod scroll_vertical;
