//! Barcode candidate rectification, enhancement, and decode orchestration.
//!
//! Given a grayscale raster and quadrilateral corner hints for candidate
//! barcode regions, this library derives a perspective rectification for
//! each candidate, applies a configurable enhancement strategy to the
//! rectified crop, and drives symbol extraction through injected detect
//! and decode capabilities.

pub mod dto;
pub mod enhance;
pub mod error;
pub mod geometry;
pub mod payload;
pub mod pipeline;
pub mod raster;
pub mod region;
pub mod warp;

pub use error::Exception;
