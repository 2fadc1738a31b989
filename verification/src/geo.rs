//! Geodetic types in fixed-point representation.
//!
//! Latitudes and longitudes are stored as signed ten-millionths of a degree,
//! which represents WGS84 coordinates to about a centimeter of precision.

use vstd::prelude::*;

verus! {

/// Fixed-point units per degree.
pub const COORD_SCALE: i64 = 10_000_000;

/// A geodetic point: latitude and longitude in ten-millionths of a degree.
#[derive(Clone, Copy, PartialEq, Eq, Structural, Debug)]
pub struct GeoPoint {
    pub lat: i64,
    pub lon: i64,
}

/// A geodetic bounding box in ten-millionths of a degree.
#[derive(Clone, Copy, PartialEq, Eq, Structural, Debug)]
pub struct GeoBBox {
    pub min: GeoPoint,
    pub max: GeoPoint,
}

/// The point lies within the valid geodetic range.
pub open spec fn geo_point_valid(p: GeoPoint) -> bool {
    &&& -900_000_000 <= p.lat <= 900_000_000
    &&& -1_800_000_000 <= p.lon <= 1_800_000_000
}

/// Both corners are valid and the minimum corner is strictly below the
/// maximum corner on each axis.
pub open spec fn bbox_valid(b: GeoBBox) -> bool {
    &&& geo_point_valid(b.min)
    &&& geo_point_valid(b.max)
    &&& b.min.lat < b.max.lat
    &&& b.min.lon < b.max.lon
}

} // verus!
