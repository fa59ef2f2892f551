//! Styling-and-layout core of a minimal document rendering engine.
//!
//! Given a parsed document tree and a parsed stylesheet, the library
//! resolves which declarations apply to each element (cascade and
//! selector matching), computes box-model geometry for every visible
//! element (block and inline-block flow), and flattens the geometry
//! into an ordered list of solid-rectangle paint commands.
//!
//! All pixel quantities are integral (`i64`); colors are 8-bit RGBA.

pub mod command;
pub mod css;
pub mod css_parser;
pub mod dom;
pub mod layout;
pub mod style;
pub mod text;
