//! Cel shading of a picture: every pixel is put into a cell of colour space
//! by its hue, its saturation and its value or luminance, and is then
//! replaced by the mean colour of the pixels in its cell.
//!
//! All arithmetic is exact. Hues and hue thresholds are whole millionths of a
//! degree, and saturation, value and luminance are fractions of integers, so
//! that a pixel lying precisely on the border between two cells is placed by
//! the rule and not by rounding.

pub mod bucket;
pub mod buffer;
pub mod color;
pub mod histogram;
pub mod shade;
pub mod table;
pub mod theorems;
