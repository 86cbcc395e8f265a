//! Raster images rendered as ASCII art.
//!
//! An image is resampled to a grid of character cells, every pixel of the
//! grid is reduced to its brightness, and the brightness picks a glyph from
//! a ramp of ten characters; in colour, the glyph is wrapped in a directive
//! that carries the colour of the pixel. The rows of the grid are rendered
//! in parallel and joined from top to bottom.
//!
//! Each module states what it computes over a mathematical model (`Grid`
//! for a bitmap, `Job` for a converter, sequences of characters for text)
//! and proves its functions against it:
//!
//! - `arith`: facts of arithmetic that the others share;
//! - `glyph`: brightness and the glyph ramp;
//! - `ratio`: the character ratio as a binary fraction;
//! - `plan`: the dimensions of the output;
//! - `bitmap`: pixel grids and their resampling;
//! - `paint`: colour directives, and what a text shows without them;
//! - `render`: rows, their joining, and the shape of the rendered text;
//! - `converter`: an image with the settings of a run, checked and rendered.

pub mod arith;
pub mod glyph;
pub mod ratio;
pub mod plan;
pub mod bitmap;
pub mod paint;
pub mod render;
pub mod converter;
