//! The decision logic of a terminal git client: parsing, layout, ordering and
//! the state machines behind its components, with machine-checked contracts.
#![allow(unused_imports)]

pub mod ansi;
pub mod asyncgit;
pub mod components;
pub mod external_diff;
pub mod options;
pub mod os_theme;
pub mod paths;
pub mod popups;
pub(crate) mod shared;
pub mod sorting;
pub mod tabs;
pub mod text;
pub mod ui;
pub mod unicode;
pub mod watcher;
