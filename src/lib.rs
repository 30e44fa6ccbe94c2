//! Hilbert-curve encoding of two-dimensional vector geometries.
//!
//! Coordinates are fixed-point values with seven fractional digits. Each
//! coordinate is mapped onto one cell of a 2^32 x 2^32 grid and replaced by
//! that cell's position along a Hilbert curve; geometries keep their shape
//! around those positions, and can be framed into bytes and read back.
//!
//! The curve mapping works on 64-bit `usize` values: the library is meant
//! for 64-bit targets.

pub mod codec;
pub mod curve;
pub mod geometry;
pub mod normalize;

pub use codec::HilbertSerializer;
pub use curve::{decode_coord, encode_coord, Coord, HilbertPoint, CURVE_ORDER};
pub use geometry::{
    decode_geometry, encode_geometry, Geometry, HilbertError, HilbertGeometry, Polygon,
};
pub use normalize::{denormalize_lon_lat, normalize_lon_lat, HALF_TURN, QUARTER_TURN};
