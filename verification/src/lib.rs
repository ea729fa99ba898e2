//! Visual styling for sidebar thread and terminal rows.
//!
//! Producers describe how a row should look either through an entry of an
//! ACP `_meta` map or through a `[zed-style ...]` marker inside a terminal
//! title. This crate parses both forms into a [`style::ThreadVisualStyle`],
//! and decides how a row renders from it.

pub mod color;
pub mod text;
pub mod style;
pub mod marker;
pub mod meta;
pub mod render;
pub mod notification;
