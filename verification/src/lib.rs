//! A text-geometry library: an incremental text-layout cache that turns a
//! string plus style runs into wrapped lines and answers queries between
//! character offsets and pixel coordinates, together with a small selection
//! algebra that merges overlapping selections and clusters selections into
//! contiguous display-row bands.

pub mod error_view;
pub mod geometry;
pub mod interactive;
pub mod laws;
pub mod rows;
pub mod selection;
pub mod shaping;
pub mod style;
pub mod styled_text;
pub mod text_layout;
pub mod wrapped_line;
