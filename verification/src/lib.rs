//! Contour extraction for labelled raster images.
//!
//! The library scans a raster for connected foreground regions and walks
//! each region's edge with an immutable turtle cursor, yielding for every
//! region an ordered, duplicate-free polygon of boundary pixel coordinates.

pub mod borders;
pub mod raster;
pub mod region_labelling;
