//! Freedesktop.org (XDG) specifications: URIs, user dirs, base dirs, MIME,
//! desktop entries, clipboard payloads and trash metadata.
pub mod associations;
pub mod base;
pub mod clipboard;
pub mod desktop;
pub mod mime;
pub mod trash;
pub mod uri;
pub mod user_dirs;
