//! Conversion of Doxygen-style comment bodies (`@param`, `\li`, ...) into Markdown.

pub mod laws;
pub mod model;
pub mod scan;
mod text;
mod transform;

pub use model::TransformError;
pub use transform::{emit_section_header, format_ref, transform};
