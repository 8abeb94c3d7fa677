//! Escape-time fractal rendering over a fixed-point model of the complex plane.
//!
//! A [`viewport::Viewport`] maps a pixel grid onto a window of the plane; the
//! renderer fills a caller-owned, row-major buffer with one packed color per
//! pixel, and the zoom transform derives a new window around a target pixel.
//! Plane coordinates are fixed-point integers with [`fixed::SCALE`] units per
//! plane unit, so every computation is exact and reproducible.

pub mod error;
pub mod fixed;
pub mod render;
pub mod viewport;
