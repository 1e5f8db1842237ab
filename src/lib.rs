//! Reading IDE color schemes into a palette, and rendering JSON-like values
//! with that palette.

pub mod attribute;
pub mod color;
pub mod colored_json;
pub mod reader;
pub mod table;
pub mod theme;

pub use color::Color;
