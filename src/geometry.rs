use vstd::prelude::*;

use crate::curve::{coord_at, decode_coord, encode_coord, index_of, Coord, HilbertPoint};

verus! {

/// A polygon: an exterior ring and any number of interior rings (holes).
#[derive(Clone, Debug, PartialEq)]
pub struct Polygon {
    pub exterior: Vec<Coord>,
    pub interiors: Vec<Vec<Coord>>,
}

/// A vector geometry whose coordinates are in fixed point.
///
/// `Line`, `Rect` and `Triangle` have no Hilbert encoding.
#[derive(Clone, Debug, PartialEq)]
pub enum Geometry {
    Point(Coord),
    Line(Coord, Coord),
    LineString(Vec<Coord>),
    Polygon(Polygon),
    MultiPoint(Vec<Coord>),
    MultiLineString(Vec<Vec<Coord>>),
    MultiPolygon(Vec<Polygon>),
    Rect(Coord, Coord),
    Triangle(Coord, Coord, Coord),
}

/// A geometry with each coordinate replaced by its curve position.
///
/// A polygon is the list of its rings, the exterior first.
#[derive(Clone, Debug, PartialEq)]
pub enum HilbertGeometry {
    Point(HilbertPoint),
    LineString(Vec<HilbertPoint>),
    Polygon(Vec<Vec<HilbertPoint>>),
    MultiPoint(Vec<HilbertPoint>),
    MultiLineString(Vec<Vec<HilbertPoint>>),
    MultiPolygon(Vec<Vec<Vec<HilbertPoint>>>),
}

/// Failures of encoding and decoding.
#[derive(Clone, Copy, Debug, PartialEq, Eq, Structural)]
pub enum HilbertError {
    /// The geometry kind has no Hilbert encoding.
    UnsupportedGeometryKind,
    /// The binary codec could not write a value.
    EncodingFailure,
    /// The bytes are truncated or malformed.
    DecodingFailure,
}

/// Mathematical value of a polygon.
pub struct PolygonModel {
    pub exterior: Seq<Coord>,
    pub interiors: Seq<Seq<Coord>>,
}

/// Mathematical value of a geometry.
pub enum GeometryModel {
    Point(Coord),
    Line(Coord, Coord),
    LineString(Seq<Coord>),
    Polygon(PolygonModel),
    MultiPoint(Seq<Coord>),
    MultiLineString(Seq<Seq<Coord>>),
    MultiPolygon(Seq<PolygonModel>),
    Rect(Coord, Coord),
    Triangle(Coord, Coord, Coord),
}

/// Mathematical value of a Hilbert-encoded geometry.
pub enum HilbertModel {
    Point(u64),
    LineString(Seq<u64>),
    Polygon(Seq<Seq<u64>>),
    MultiPoint(Seq<u64>),
    MultiLineString(Seq<Seq<u64>>),
    MultiPolygon(Seq<Seq<Seq<u64>>>),
}

/// Mathematical value of a list of rings of coordinates.
pub open spec fn coords_model(v: Seq<Vec<Coord>>) -> Seq<Seq<Coord>> {
    v.map_values(|r: Vec<Coord>| r@)
}

/// Curve positions of a list of Hilbert points.
pub open spec fn points_model(v: Seq<HilbertPoint>) -> Seq<u64> {
    v.map_values(|p: HilbertPoint| p.0)
}

/// Curve positions of a list of rings.
pub open spec fn rings_model(v: Seq<Vec<HilbertPoint>>) -> Seq<Seq<u64>> {
    v.map_values(|r: Vec<HilbertPoint>| points_model(r@))
}

/// Curve positions of a list of polygons.
pub open spec fn polygons_model(v: Seq<Vec<Vec<HilbertPoint>>>) -> Seq<Seq<Seq<u64>>> {
    v.map_values(|p: Vec<Vec<HilbertPoint>>| rings_model(p@))
}

impl View for Polygon {
    type V = PolygonModel;

    open spec fn view(&self) -> PolygonModel {
        PolygonModel { exterior: self.exterior@, interiors: coords_model(self.interiors@) }
    }
}

impl View for Geometry {
    type V = GeometryModel;

    open spec fn view(&self) -> GeometryModel {
        match self {
            Geometry::Point(c) => GeometryModel::Point(*c),
            Geometry::Line(a, b) => GeometryModel::Line(*a, *b),
            Geometry::LineString(v) => GeometryModel::LineString(v@),
            Geometry::Polygon(p) => GeometryModel::Polygon(p@),
            Geometry::MultiPoint(v) => GeometryModel::MultiPoint(v@),
            Geometry::MultiLineString(v) => GeometryModel::MultiLineString(coords_model(v@)),
            Geometry::MultiPolygon(v) => GeometryModel::MultiPolygon(
                v@.map_values(|p: Polygon| p@),
            ),
            Geometry::Rect(a, b) => GeometryModel::Rect(*a, *b),
            Geometry::Triangle(a, b, c) => GeometryModel::Triangle(*a, *b, *c),
        }
    }
}

impl View for HilbertGeometry {
    type V = HilbertModel;

    open spec fn view(&self) -> HilbertModel {
        match self {
            HilbertGeometry::Point(p) => HilbertModel::Point(p.0),
            HilbertGeometry::LineString(v) => HilbertModel::LineString(points_model(v@)),
            HilbertGeometry::Polygon(v) => HilbertModel::Polygon(rings_model(v@)),
            HilbertGeometry::MultiPoint(v) => HilbertModel::MultiPoint(points_model(v@)),
            HilbertGeometry::MultiLineString(v) => HilbertModel::MultiLineString(rings_model(v@)),
            HilbertGeometry::MultiPolygon(v) => HilbertModel::MultiPolygon(polygons_model(v@)),
        }
    }
}

/// Curve positions of a sequence of coordinates, in order.
pub open spec fn ring_indices(s: Seq<Coord>) -> Seq<u64> {
    s.map_values(|c: Coord| index_of(c))
}

/// Coordinates of a sequence of curve positions, in order.
pub open spec fn ring_coords(s: Seq<u64>) -> Seq<Coord> {
    s.map_values(|h: u64| coord_at(h))
}

/// Rings of a polygon as curve positions: the exterior, then each interior.
pub open spec fn polygon_rings(p: PolygonModel) -> Seq<Seq<u64>> {
    seq![ring_indices(p.exterior)] + p.interiors.map_values(|r: Seq<Coord>| ring_indices(r))
}

/// Polygon of a list of rings: the first is the exterior, the rest the
/// interiors; no ring at all gives an empty exterior and no interiors.
pub open spec fn rings_polygon(rings: Seq<Seq<u64>>) -> PolygonModel {
    if rings.len() == 0 {
        PolygonModel { exterior: Seq::empty(), interiors: Seq::empty() }
    } else {
        PolygonModel {
            exterior: ring_coords(rings[0]),
            interiors: rings.drop_first().map_values(|r: Seq<u64>| ring_coords(r)),
        }
    }
}

/// Hilbert encoding of a geometry; `None` for a kind that has none.
pub open spec fn geometry_encoding(g: GeometryModel) -> Option<HilbertModel> {
    match g {
        GeometryModel::Point(c) => Some(HilbertModel::Point(index_of(c))),
        GeometryModel::LineString(s) => Some(HilbertModel::LineString(ring_indices(s))),
        GeometryModel::Polygon(p) => Some(HilbertModel::Polygon(polygon_rings(p))),
        GeometryModel::MultiPoint(s) => Some(HilbertModel::MultiPoint(ring_indices(s))),
        GeometryModel::MultiLineString(s) => Some(
            HilbertModel::MultiLineString(s.map_values(|r: Seq<Coord>| ring_indices(r))),
        ),
        GeometryModel::MultiPolygon(s) => Some(
            HilbertModel::MultiPolygon(s.map_values(|p: PolygonModel| polygon_rings(p))),
        ),
        _ => None,
    }
}

/// Geometry that a Hilbert encoding stands for.
pub open spec fn geometry_decoding(h: HilbertModel) -> GeometryModel {
    match h {
        HilbertModel::Point(p) => GeometryModel::Point(coord_at(p)),
        HilbertModel::LineString(s) => GeometryModel::LineString(ring_coords(s)),
        HilbertModel::Polygon(rings) => GeometryModel::Polygon(rings_polygon(rings)),
        HilbertModel::MultiPoint(s) => GeometryModel::MultiPoint(ring_coords(s)),
        HilbertModel::MultiLineString(s) => GeometryModel::MultiLineString(
            s.map_values(|r: Seq<u64>| ring_coords(r)),
        ),
        HilbertModel::MultiPolygon(s) => GeometryModel::MultiPolygon(
            s.map_values(|rings: Seq<Seq<u64>>| rings_polygon(rings)),
        ),
    }
}

/// Encodes each coordinate of a ring, keeping their order.
fn encode_points(pts: &Vec<Coord>) -> (r: Vec<HilbertPoint>)
    ensures
        points_model(r@) == ring_indices(pts@),
        ring_coords(points_model(r@)) == pts@,
{
    let mut out: Vec<HilbertPoint> = Vec::new();
    let mut i: usize = 0;
    while i < pts.len()
        invariant
            i <= pts@.len(),
            points_model(out@) == ring_indices(pts@.take(i as int)),
            ring_coords(points_model(out@)) == pts@.take(i as int),
        decreases pts@.len() - i,
    {
        let p = encode_coord(pts[i]);
        out.push(p);
        i += 1;
        assert(points_model(out@) =~= ring_indices(pts@.take(i as int)));
        assert(ring_coords(points_model(out@)) =~= pts@.take(i as int));
    }
    assert(pts@.take(i as int) =~= pts@);
    out
}

/// Decodes each curve position of a ring, keeping their order.
fn decode_points(hps: &Vec<HilbertPoint>) -> (r: Vec<Coord>)
    ensures
        r@ == ring_coords(points_model(hps@)),
{
    let mut out: Vec<Coord> = Vec::new();
    let mut i: usize = 0;
    while i < hps.len()
        invariant
            i <= hps@.len(),
            out@ == ring_coords(points_model(hps@.take(i as int))),
        decreases hps@.len() - i,
    {
        let c = decode_coord(hps[i]);
        out.push(c);
        i += 1;
        assert(out@ =~= ring_coords(points_model(hps@.take(i as int))));
    }
    assert(hps@.take(i as int) =~= hps@);
    out
}

/// Encodes each ring of a list, keeping the order of rings and of points.
fn encode_rings(rings: &Vec<Vec<Coord>>) -> (r: Vec<Vec<HilbertPoint>>)
    ensures
        rings_model(r@) == coords_model(rings@).map_values(|s: Seq<Coord>| ring_indices(s)),
        rings_model(r@).map_values(|s: Seq<u64>| ring_coords(s)) == coords_model(rings@),
{
    let mut out: Vec<Vec<HilbertPoint>> = Vec::new();
    let mut i: usize = 0;
    while i < rings.len()
        invariant
            i <= rings@.len(),
            out@.len() == i,
            forall|j: int|
                0 <= j < i ==> #[trigger] points_model(out@[j]@) == ring_indices(rings@[j]@)
                    && ring_coords(points_model(out@[j]@)) == rings@[j]@,
        decreases rings@.len() - i,
    {
        let ring = encode_points(&rings[i]);
        out.push(ring);
        i += 1;
    }
    assert(rings_model(out@) =~= coords_model(rings@).map_values(|s: Seq<Coord>| ring_indices(s)));
    assert(rings_model(out@).map_values(|s: Seq<u64>| ring_coords(s)) =~= coords_model(rings@));
    out
}

/// Decodes each ring of a list, keeping the order of rings and of points.
fn decode_rings(rings: &Vec<Vec<HilbertPoint>>) -> (r: Vec<Vec<Coord>>)
    ensures
        coords_model(r@) == rings_model(rings@).map_values(|s: Seq<u64>| ring_coords(s)),
{
    let mut out: Vec<Vec<Coord>> = Vec::new();
    let mut i: usize = 0;
    while i < rings.len()
        invariant
            i <= rings@.len(),
            out@.len() == i,
            forall|j: int|
                0 <= j < i ==> #[trigger] out@[j]@ == ring_coords(points_model(rings@[j]@)),
        decreases rings@.len() - i,
    {
        let ring = decode_points(&rings[i]);
        out.push(ring);
        i += 1;
    }
    assert(coords_model(out@) =~= rings_model(rings@).map_values(|s: Seq<u64>| ring_coords(s)));
    out
}

/// Rings of a polygon as curve positions: the exterior first, then each
/// interior in order.
fn encode_polygon(poly: &Polygon) -> (r: Vec<Vec<HilbertPoint>>)
    ensures
        rings_model(r@) == polygon_rings(poly@),
        rings_polygon(rings_model(r@)) == poly@,
{
    let exterior = encode_points(&poly.exterior);
    let mut interiors = encode_rings(&poly.interiors);
    let ghost inner = interiors@;
    let mut out: Vec<Vec<HilbertPoint>> = Vec::new();
    out.push(exterior);
    out.append(&mut interiors);
    assert(out@ == seq![exterior] + inner);
    proof {
        assert(rings_model(out@) =~= polygon_rings(poly@)) by {
            assert forall|j: int| 0 <= j < out@.len() implies rings_model(out@)[j]
                == polygon_rings(poly@)[j] by {
                if j > 0 {
                    assert(out@[j] == inner[j - 1]);
                    assert(rings_model(inner)[j - 1] == rings_model(out@)[j]);
                }
            }
        }
        let rp = rings_polygon(rings_model(out@));
        assert(rp.interiors =~= poly@.interiors) by {
            assert forall|j: int| 0 <= j < rp.interiors.len() implies rp.interiors[j]
                == poly@.interiors[j] by {
                assert(rings_model(out@)[j + 1] == rings_model(inner)[j]);
                assert(rings_model(inner).map_values(|s: Seq<u64>| ring_coords(s))[j]
                    == coords_model(poly.interiors@)[j]);
            }
        }
    }
    out
}

/// Polygon of a list of rings: the first ring is the exterior, the others the
/// interiors in order; no ring at all gives an empty polygon.
fn decode_polygon(rings: &Vec<Vec<HilbertPoint>>) -> (r: Polygon)
    ensures
        r@ == rings_polygon(rings_model(rings@)),
{
    if rings.len() == 0 {
        let r = Polygon { exterior: Vec::new(), interiors: Vec::new() };
        assert(r@.exterior =~= Seq::<Coord>::empty());
        assert(r@.interiors =~= Seq::<Seq<Coord>>::empty());
        return r;
    }
    let exterior = decode_points(&rings[0]);
    let mut interiors: Vec<Vec<Coord>> = Vec::new();
    let mut i: usize = 1;
    while i < rings.len()
        invariant
            1 <= i <= rings@.len(),
            interiors@.len() == i - 1,
            forall|j: int|
                0 <= j < i - 1 ==> #[trigger] interiors@[j]@ == ring_coords(
                    points_model(rings@[j + 1]@),
                ),
        decreases rings@.len() - i,
    {
        let ring = decode_points(&rings[i]);
        interiors.push(ring);
        i += 1;
    }
    let r = Polygon { exterior, interiors };
    assert(r@.interiors =~= rings_polygon(rings_model(rings@)).interiors);
    r
}

/// Encodes each polygon of a list, keeping their order.
fn encode_polygons(polys: &Vec<Polygon>) -> (r: Vec<Vec<Vec<HilbertPoint>>>)
    ensures
        polygons_model(r@) == polys@.map_values(|p: Polygon| p@).map_values(
            |p: PolygonModel| polygon_rings(p),
        ),
        polygons_model(r@).map_values(|rs: Seq<Seq<u64>>| rings_polygon(rs)) == polys@.map_values(
            |p: Polygon| p@,
        ),
{
    let mut out: Vec<Vec<Vec<HilbertPoint>>> = Vec::new();
    let mut i: usize = 0;
    while i < polys.len()
        invariant
            i <= polys@.len(),
            out@.len() == i,
            forall|j: int|
                0 <= j < i ==> #[trigger] rings_model(out@[j]@) == polygon_rings(polys@[j]@)
                    && rings_polygon(rings_model(out@[j]@)) == polys@[j]@,
        decreases polys@.len() - i,
    {
        let rings = encode_polygon(&polys[i]);
        out.push(rings);
        i += 1;
    }
    assert(polygons_model(out@) =~= polys@.map_values(|p: Polygon| p@).map_values(
        |p: PolygonModel| polygon_rings(p),
    ));
    assert(polygons_model(out@).map_values(|rs: Seq<Seq<u64>>| rings_polygon(rs))
        =~= polys@.map_values(|p: Polygon| p@));
    out
}

/// Decodes each polygon of a list, keeping their order.
fn decode_polygons(polys: &Vec<Vec<Vec<HilbertPoint>>>) -> (r: Vec<Polygon>)
    ensures
        r@.map_values(|p: Polygon| p@) == polygons_model(polys@).map_values(
            |rs: Seq<Seq<u64>>| rings_polygon(rs),
        ),
{
    let mut out: Vec<Polygon> = Vec::new();
    let mut i: usize = 0;
    while i < polys.len()
        invariant
            i <= polys@.len(),
            out@.len() == i,
            forall|j: int|
                0 <= j < i ==> #[trigger] out@[j]@ == rings_polygon(rings_model(polys@[j]@)),
        decreases polys@.len() - i,
    {
        let poly = decode_polygon(&polys[i]);
        out.push(poly);
        i += 1;
    }
    assert(out@.map_values(|p: Polygon| p@) =~= polygons_model(polys@).map_values(
        |rs: Seq<Seq<u64>>| rings_polygon(rs),
    ));
    out
}

/// Encodes a geometry into its Hilbert form.
///
/// Every coordinate is replaced by its curve position; the order of points,
/// rings and members is kept, and a polygon becomes the list of its rings
/// with the exterior first. Decoding the result gives back `geom` exactly.
pub fn encode_geometry(geom: &Geometry) -> (r: Result<HilbertGeometry, HilbertError>)
    ensures
        match geometry_encoding(geom@) {
            Some(h) => r is Ok && r->Ok_0@ == h && geometry_decoding(h) == geom@,
            None => r == Err::<HilbertGeometry, HilbertError>(
                HilbertError::UnsupportedGeometryKind,
            ),
        },
{
    match geom {
        Geometry::Point(c) => Ok(HilbertGeometry::Point(encode_coord(*c))),
        Geometry::LineString(pts) => Ok(HilbertGeometry::LineString(encode_points(pts))),
        Geometry::Polygon(poly) => Ok(HilbertGeometry::Polygon(encode_polygon(poly))),
        Geometry::MultiPoint(pts) => Ok(HilbertGeometry::MultiPoint(encode_points(pts))),
        Geometry::MultiLineString(lines) => Ok(
            HilbertGeometry::MultiLineString(encode_rings(lines)),
        ),
        Geometry::MultiPolygon(polys) => Ok(HilbertGeometry::MultiPolygon(encode_polygons(polys))),
        _ => Err(HilbertError::UnsupportedGeometryKind),
    }
}

/// Decodes a Hilbert form back into the geometry it stands for.
///
/// A polygon with no ring at all decodes to an empty exterior and no
/// interiors.
pub fn decode_geometry(hgeom: &HilbertGeometry) -> (r: Geometry)
    ensures
        r@ == geometry_decoding(hgeom@),
{
    match hgeom {
        HilbertGeometry::Point(p) => Geometry::Point(decode_coord(*p)),
        HilbertGeometry::LineString(hps) => Geometry::LineString(decode_points(hps)),
        HilbertGeometry::Polygon(rings) => Geometry::Polygon(decode_polygon(rings)),
        HilbertGeometry::MultiPoint(hps) => Geometry::MultiPoint(decode_points(hps)),
        HilbertGeometry::MultiLineString(lines) => Geometry::MultiLineString(decode_rings(lines)),
        HilbertGeometry::MultiPolygon(polys) => Geometry::MultiPolygon(decode_polygons(polys)),
    }
}

/// Encoding then decoding a polygon keeps its rings in order, the exterior
/// first and then each interior, and keeps the order of the points of each
/// ring: ring `i` comes back from ring `i`, point `k` from point `k`.
pub proof fn polygon_ring_order(p: PolygonModel)
    ensures
        rings_polygon(polygon_rings(p)).exterior == ring_coords(ring_indices(p.exterior)),
        rings_polygon(polygon_rings(p)).interiors.len() == p.interiors.len(),
        forall|i: int|
            0 <= i < p.interiors.len() ==> #[trigger] rings_polygon(polygon_rings(p)).interiors[i]
                == ring_coords(ring_indices(p.interiors[i])),
        forall|s: Seq<Coord>, k: int|
            0 <= k < s.len() ==> ring_coords(ring_indices(s)).len() == s.len()
                && #[trigger] ring_coords(ring_indices(s))[k] == coord_at(index_of(s[k])),
{
    let rings = polygon_rings(p);
    assert(rings.drop_first() =~= p.interiors.map_values(|r: Seq<Coord>| ring_indices(r)));
}

/// Encoding then decoding a multi-line-string or a multi-polygon keeps its
/// members in order, each member coming back from the member at the same
/// place.
pub proof fn multi_member_order(lines: Seq<Seq<Coord>>, polys: Seq<PolygonModel>)
    ensures
        ({
            let back = geometry_decoding(
                geometry_encoding(GeometryModel::MultiLineString(lines))->Some_0,
            );
            &&& back is MultiLineString
            &&& back->MultiLineString_0.len() == lines.len()
            &&& forall|i: int|
                0 <= i < lines.len() ==> #[trigger] back->MultiLineString_0[i] == ring_coords(
                    ring_indices(lines[i]),
                )
        }),
        ({
            let back = geometry_decoding(
                geometry_encoding(GeometryModel::MultiPolygon(polys))->Some_0,
            );
            &&& back is MultiPolygon
            &&& back->MultiPolygon_0.len() == polys.len()
            &&& forall|i: int|
                0 <= i < polys.len() ==> #[trigger] back->MultiPolygon_0[i] == rings_polygon(
                    polygon_rings(polys[i]),
                )
        }),
{
}

} // verus!
