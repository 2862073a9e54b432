//! The Arca core: bookmarks, paste-destination naming and trash metadata
//! encoding.
pub mod bookmarks;
pub mod ops;
pub mod trash;
