//! Classification of the colors of a rendered subtitle bitmap.
//!
//! Every distinct color of a bitmap is given one of three roles: transparent
//! background, shadow (an opaque outline that is treated as background when
//! letters are separated), or opaque glyph ink.

pub mod adjacency;
pub mod bitmap;
pub mod classify;
pub mod color;
pub mod colormap;
pub mod coords;
pub mod laws;
pub mod model;

pub use adjacency::{AdjacentPixelInfo, Fraction, Tally};
pub use bitmap::{Bitmap, BitmapView};
pub use classify::classify_colors;
pub use color::{Color, ColorType};
pub use colormap::ColorMap;
pub use coords::ClassifyError;
