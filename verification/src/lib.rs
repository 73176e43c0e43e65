//! The deck model: line coordinates, layout, diagrams, live review state,
//! relocation of pinned lines, palettes and the editors they are borrowed
//! from, and the checks a group passes before it is written.

pub mod compose;
pub mod config;
pub mod diagram;
pub mod editor;
pub mod home;
pub mod json;
pub mod layout;
pub mod line;
pub mod live;
pub mod nvim;
pub mod page;
pub mod protocol;
pub mod refs;
pub mod relocate;
pub mod text;
pub mod theme;
pub mod vscode;
pub mod zed;
