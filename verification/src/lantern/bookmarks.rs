//! Sidebar bookmarks for Lantern: the same home / user-directory model as
//! the Arca core.
pub use crate::arca_core::bookmarks::{standard_bookmarks, Bookmark, BookmarkKind};
