//! Width-aware pretty printing of query results and JSON for a database
//! shell, with the layout rules and literal formats stated as contracts.
//!
//! Values become layout documents (`value`, `json`), documents become text
//! at a line width (`render`), and `format` drives a whole result.
//! `laws` states the properties that tie these together.

pub mod config;
pub mod datetime;
pub mod diagnostic;
pub mod doc;
pub mod format;
pub mod json;
pub mod laws;
pub mod literal;
pub mod numeric;
pub mod question;
pub mod render;
pub mod value;
