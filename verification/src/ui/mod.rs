//! Front-end decisions that do not draw: icons, input, menus, the chooser
//! dialog, thumbnail uploads and the
//! single-instance protocol.
pub mod browser;
pub mod chooser;
pub mod icons;
pub mod input;
pub mod ipc;
pub mod uploads;
