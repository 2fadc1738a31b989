//! Geospatial enrichment core for Danish building-registry (BBR) and
//! terrain-model (DHM) data.
//!
//! The library holds the verified logic of the pipeline: query construction,
//! pagination control, record parsing, spatial reconciliation of fetched
//! records against a renderer's planar coordinates, and raster resampling,
//! smoothing and vertical mapping. Geodetic coordinates are carried as
//! fixed-point integers (ten-millionths of a degree); elevations as
//! centimeters. Network transfer, floating-point map projection and raster
//! decoding live outside the library and hand it plain values.

pub mod geo;
pub mod numfmt;
pub mod query;
pub mod reconcile;
pub mod records;
pub mod tags;
pub mod terrain;
pub mod wkt;
