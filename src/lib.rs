//! Verified core of a small ray tracer: matrix layout, fixture parsing,
//! hit selection, pixel encoding and canvas bounds.
pub mod error;
pub mod matrix;
pub mod fixture;
pub mod intersection;
pub mod pixels;
pub mod bounds;
