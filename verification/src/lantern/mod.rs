//! File-manager core shared with the Lantern front end.
pub mod bookmarks;
pub mod chooser;
pub mod config;
pub mod glob;
pub mod history;
pub mod thumbs;
