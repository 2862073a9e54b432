//! Arca's file-manager engine: paths, listings, formatting, bookmarks,
//! clipboard payloads, undo bookkeeping and background-job bookkeeping.
pub mod bookmarks;
pub mod complete;
pub mod entry;
pub mod format;
pub mod path;
pub mod session;
pub mod state;
pub mod undo;
pub mod watch;
pub mod worker;
