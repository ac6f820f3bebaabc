//! Remapping of RGB images through user-supplied complex expressions.
//!
//! An expression over the variable `z` (for example `z^2 + sin(z)`) is parsed
//! into a tree, evaluated at a centered complex coordinate for every output
//! pixel, and the resulting coordinate is mapped back into the source image
//! (with quadrant wrap-around at the borders and a black fallback at
//! singularities) and resampled bilinearly, or through a precomputed
//! nearest-pixel lookup table for repeated frames.
//!
//! Complex values are carried in fixed-point arithmetic (see [`fixed`]):
//! the transcendental functions of the registry are supplied by the caller
//! through the [`eval::ComplexFuncs`] trait, since their evaluation lives in
//! floating point outside this library.

pub mod cli;
pub mod complex;
pub mod eval;
pub mod fixed;
pub mod holo;
pub mod interpolation;
pub mod laws;
pub mod mapping;
pub mod parsing;
pub mod pixels;
pub mod polynomial;
pub mod transform;
pub mod wgsl;
