use vstd::prelude::*;

verus! {

/// Order of the curve: the grid has 2^CURVE_ORDER cells along each axis.
pub const CURVE_ORDER: u64 = 32;

/// Number of grid cells along each axis.
pub const GRID_SIZE: u64 = 0x1_0000_0000;

/// Shift that moves a signed fixed-point value onto the unsigned grid.
pub const GRID_OFFSET: i64 = 0x8000_0000;

/// A coordinate pair in fixed point: `x` and `y` count units of 1e-7.
#[derive(Clone, Copy, Debug, PartialEq, Eq, Structural)]
pub struct Coord {
    pub x: i32,
    pub y: i32,
}

/// A position along the Hilbert curve, standing for one coordinate.
#[derive(Clone, Copy, Debug, PartialEq, Eq, Structural)]
pub struct HilbertPoint(pub u64);

/// Position along the order-32 Hilbert curve of the grid cell `(x, y)`.
pub uninterp spec fn curve_index(x: u64, y: u64) -> u64;

/// Grid cell at position `h` along the order-32 Hilbert curve.
pub uninterp spec fn curve_point(h: u64) -> (u64, u64);

/// Grid column or row of a fixed-point value.
pub open spec fn grid_of(v: i32) -> u64 {
    (v + GRID_OFFSET) as u64
}

/// Fixed-point value of a grid column or row.
pub open spec fn value_of_grid(g: u64) -> i32 {
    (g - GRID_OFFSET) as i32
}

/// Curve position of a coordinate.
pub open spec fn index_of(c: Coord) -> u64 {
    curve_index(grid_of(c.x), grid_of(c.y))
}

/// Coordinate at a curve position.
pub open spec fn coord_at(h: u64) -> Coord {
    Coord { x: value_of_grid(curve_point(h).0), y: value_of_grid(curve_point(h).1) }
}

/// Relies on hilbert_2d::u64::xy2h_discrete at order 32 with the Hilbert
/// variant: the curve position of the cell `(x, y)`, which
/// hilbert_2d::u64::h2xy_discrete maps back to that same cell. The crate
/// handles the values as `usize`, so the library needs a 64-bit target.
#[verifier::external_body]
fn cell_to_index(x: u64, y: u64) -> (r: u64)
    requires
        x < GRID_SIZE,
        y < GRID_SIZE,
    ensures
        r == curve_index(x, y),
        curve_point(r) == (x, y),
{
    hilbert_2d::u64::xy2h_discrete(x, y, CURVE_ORDER, hilbert_2d::Variant::Hilbert)
}

/// Relies on hilbert_2d::u64::h2xy_discrete at order 32 with the Hilbert
/// variant: the cell at curve position `h`, each axis below 2^32. The crate
/// shifts `h` as a `usize` by 62 bits, so the library needs a 64-bit target.
#[verifier::external_body]
fn index_to_cell(h: u64) -> (r: (u64, u64))
    ensures
        r == curve_point(h),
        r.0 < GRID_SIZE,
        r.1 < GRID_SIZE,
{
    hilbert_2d::u64::h2xy_discrete(h, CURVE_ORDER, hilbert_2d::Variant::Hilbert)
}

/// Grid column or row of a fixed-point value.
pub fn to_grid(v: i32) -> (r: u64)
    ensures
        r == grid_of(v),
        r < GRID_SIZE,
        value_of_grid(r) == v,
{
    (v as i64 + GRID_OFFSET) as u64
}

/// Fixed-point value of a grid column or row.
pub fn from_grid(g: u64) -> (r: i32)
    requires
        g < GRID_SIZE,
    ensures
        r == value_of_grid(g),
        grid_of(r) == g,
{
    (g as i64 - GRID_OFFSET) as i32
}

/// Encodes a coordinate as its position along the curve.
pub fn encode_coord(c: Coord) -> (r: HilbertPoint)
    ensures
        r.0 == index_of(c),
        coord_at(r.0) == c,
{
    HilbertPoint(cell_to_index(to_grid(c.x), to_grid(c.y)))
}

/// Decodes a curve position back into the coordinate it stands for.
pub fn decode_coord(p: HilbertPoint) -> (r: Coord)
    ensures
        r == coord_at(p.0),
{
    let (gx, gy) = index_to_cell(p.0);
    Coord { x: from_grid(gx), y: from_grid(gy) }
}

} // verus!
