//! Procedural geometry for a family of animated fractal sketches.
//!
//! The crate holds the algorithmic core shared by the sketches: an
//! index-to-point reconstruction of a discrete self-similar space-filling
//! curve, a recursive cuboid subdivision that approximates a 3-D fractal,
//! a time-driven reveal window over an ordered sequence, and a
//! deterministic color map.  Rendering, window management and input
//! handling live outside the library and only consume the plain values
//! produced here.

pub mod color;
pub mod curve;
pub mod fractal;
pub mod window;
