//! Skin resolution engine: turns a theme document and a layout document into a
//! fully resolved, render-ready model plus a list of warnings. Missing files,
//! malformed values, unknown names, cycles and partial documents never make
//! resolution fail: each falls back to a documented default.

pub mod color;
pub mod document;
pub mod layout;
pub mod number;
pub mod skin;
pub mod text;
pub mod theme;
pub mod tokens;
