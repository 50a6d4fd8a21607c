//! Conversion of colors between RGB, hexadecimal and HSV representations,
//! and generation of piecewise-linear gradients between colors.
//!
//! A color is stored as hue, saturation and value, each an exact rational
//! number; RGB and hexadecimal forms are derived on demand. RGB channel
//! values are carried as exact rationals too (see [`color::Channel`]), so
//! every conversion is exact integer arithmetic, and only the hexadecimal
//! form and the gradient's blending round, in stated ways.
pub mod color;
pub mod gradient;
pub mod hex;
pub mod laws;
pub mod rat;
pub mod rgb;

pub use color::Channel;
pub use color::Color;
pub use gradient::generate_gradient;
pub use gradient::GradientError;
pub use hex::ParseError;
