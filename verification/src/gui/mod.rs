//! The state of the desktop client and the decisions behind its panels.

pub mod chat;
pub mod errors;
pub mod files;
pub mod highlight;
pub mod settings;
pub mod state;
pub mod tabs;
pub mod theme;
