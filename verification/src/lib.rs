//! The verified core of an offline path tracer.
//!
//! The library holds what a render decides and keeps in order: which of two
//! roots is the hit and which of many hits the nearest, when a light path ends
//! and with what light, how samples make a pixel and pixels a scanline, how the
//! scanlines that workers finish in any order become the image, and how the
//! image is written as a plain pixmap.
//!
//! It does no arithmetic on rays and colours. Their types are parameters, and
//! the geometry, the materials and the camera reach the library as closures,
//! so that every contract here holds whatever numbers the caller computes with.

pub mod hittable;
pub mod path;
pub mod ppm_image;
pub mod renderer;
pub mod scanline;
pub mod utils;
