//! Places multi-line text on an image relative to an anchor point: splitting
//! into trimmed lines, wrapping them within a pixel width (breaking long words
//! with hyphens), and giving each line its draw origin from the justification
//! and vertical anchor. Glyph widths come from a measuring function that the
//! caller supplies; the result is a plan of the marker and text draws, with the
//! rusttype font and scale to draw them with, which the caller carries out.

pub mod layout;
pub mod measure;
pub mod options;
pub mod place;
pub mod render;
pub mod text;
pub mod theorems;
pub mod wrap;

pub use layout::Placement;
pub use options::{TextJustify, TextOnImageError, VerticalAnchor, WrapBehavior};
