//! An image-processing library on raw RGBA pixel buffers: border-aware
//! sampling under zero/circular/reflective extension policies, kernel
//! convolution, edge detection, rank filters, geometric transforms and
//! histogram equalization, with machine-checked contracts throughout.
//!
//! All coordinate and intensity arithmetic is exact integer (or rational)
//! arithmetic, so every pixel of every result is pinned down by the
//! function contracts.

pub mod affine;
pub mod canvas_image;
pub mod convolution;
pub mod crop;
pub mod distance;
pub mod edge_detection;
pub mod filters;
pub mod flip;
pub mod histogram;
pub mod image_index;
pub mod interpolation;
pub mod rotation;
pub mod scaling;
pub mod single_pixel_transformation;
