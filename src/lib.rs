//! Procedural synthesis of a grayscale cloth bump-map texture.
//!
//! The pipeline turns a per-pixel noise field into a woven-looking texture:
//! noise layer, two directional blurs, multiply blend, contrast stretch and
//! fine-grain noise. Noise arrives as whole-number offsets, one per pixel, so
//! that every stage is an exact integer computation.
pub mod buffer;
pub mod blur;
pub mod compose;
pub mod synth;
