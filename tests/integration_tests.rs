use hilbert_geometry::{
    decode_coord, decode_geometry, denormalize_lon_lat, encode_coord, encode_geometry,
    normalize_lon_lat, Coord, Geometry, HilbertError, HilbertGeometry, HilbertPoint,
    HilbertSerializer, Polygon,
};

/// Fixed-point value (units of 1e-7) of a decimal number.
fn fixed(v: f64) -> i32 {
    (v * 1e7).round() as i32
}

fn coord(x: f64, y: f64) -> Coord {
    Coord { x: fixed(x), y: fixed(y) }
}

fn ring(points: &[(f64, f64)]) -> Vec<Coord> {
    points.iter().map(|&(x, y)| coord(x, y)).collect()
}

fn unit_square() -> Geometry {
    Geometry::Polygon(Polygon {
        exterior: ring(&[(0.0, 0.0), (1.0, 0.0), (1.0, 1.0), (0.0, 1.0), (0.0, 0.0)]),
        interiors: vec![],
    })
}

fn round_trip(g: &Geometry) -> Geometry {
    decode_geometry(&encode_geometry(g).unwrap())
}

#[test]
fn test_point_encoding() {
    let pt = Geometry::Point(coord(0.5, 0.5));
    let encoded = encode_geometry(&pt).unwrap();
    let decoded = decode_geometry(&encoded);
    assert_eq!(pt, decoded);

    let pt = Geometry::Point(coord(-44., -22.));
    let encoded = encode_geometry(&pt).unwrap();
    let decoded = decode_geometry(&encoded);
    assert_eq!(pt, decoded);
}

#[test]
fn test_linestring_encoding() {
    let ls = Geometry::LineString(ring(&[(1.0, 1.0), (5.0, 5.0)]));
    let encoded = encode_geometry(&ls).unwrap();
    let decoded = decode_geometry(&encoded);
    assert_eq!(ls, decoded);
}

#[test]
fn test_polygon_encoding() {
    let poly = unit_square();
    let encoded = encode_geometry(&poly).unwrap();
    let decoded = decode_geometry(&encoded);
    assert_eq!(poly, decoded);
}

#[test]
fn test_serialization() {
    let serializer = HilbertSerializer::new();

    // Point
    let point = Geometry::Point(coord(1.0, 1.0));
    let encoded = serializer.encode(&point).unwrap();
    let decoded = serializer.decode(&encoded).unwrap();
    println!("Encoded point to {} bytes.", encoded.len(),);
    assert_eq!(point, decoded);

    // Linestring
    let ls = Geometry::LineString(ring(&[(1.0, 1.0), (5.0, 5.0)]));
    let encoded = serializer.encode(&ls).unwrap();
    let decoded = serializer.decode(&encoded).unwrap();
    println!("Encoded linestring to {} bytes.", encoded.len(),);
    assert_eq!(ls, decoded);

    // Polygon
    let poly = unit_square();
    let encoded = serializer.encode(&poly).unwrap();
    let decoded = serializer.decode(&encoded).unwrap();
    println!("Encoded polygon to {} bytes.", encoded.len(),);
    assert_eq!(poly, decoded);
}

#[test]
fn binary_polygon_is_non_empty_and_round_trips() {
    let serializer = HilbertSerializer::new();
    let poly = unit_square();
    let encoded = serializer.encode(&poly).unwrap();
    assert!(!encoded.is_empty());
    assert_eq!(serializer.decode(&encoded).unwrap(), poly);
}

#[test]
fn polygon_with_holes_keeps_ring_order() {
    let poly = Geometry::Polygon(Polygon {
        exterior: ring(&[(0.0, 0.0), (10.0, 0.0), (10.0, 10.0), (0.0, 10.0), (0.0, 0.0)]),
        interiors: vec![
            ring(&[(1.0, 1.0), (2.0, 1.0), (2.0, 2.0), (1.0, 1.0)]),
            ring(&[(5.0, 5.0), (6.0, 5.0), (6.0, 6.0), (5.0, 5.0)]),
            ring(&[(8.0, 8.0), (9.0, 8.0), (9.0, 9.0), (8.0, 8.0)]),
        ],
    });
    let encoded = encode_geometry(&poly).unwrap();
    match &encoded {
        HilbertGeometry::Polygon(rings) => {
            assert_eq!(rings.len(), 4);
            assert_eq!(rings[0][1], encode_coord(coord(10.0, 0.0)));
            assert_eq!(rings[2][0], encode_coord(coord(5.0, 5.0)));
        }
        other => panic!("unexpected encoding {:?}", other),
    }
    assert_eq!(decode_geometry(&encoded), poly);
}

#[test]
fn empty_polygon_decodes_to_empty_rings() {
    let decoded = decode_geometry(&HilbertGeometry::Polygon(vec![]));
    assert_eq!(
        decoded,
        Geometry::Polygon(Polygon { exterior: vec![], interiors: vec![] })
    );
}

#[test]
fn multi_geometries_keep_member_order() {
    let lines = Geometry::MultiLineString(vec![
        ring(&[(3.0, 3.0), (4.0, 4.0)]),
        ring(&[(-1.5, 2.25)]),
        vec![],
        ring(&[(0.1234567, -0.7654321), (179.9999999, -89.9999999)]),
    ]);
    assert_eq!(round_trip(&lines), lines);

    let polys = Geometry::MultiPolygon(vec![
        Polygon {
            exterior: ring(&[(0.0, 0.0), (1.0, 0.0), (0.0, 1.0), (0.0, 0.0)]),
            interiors: vec![ring(&[(0.1, 0.1), (0.2, 0.1), (0.1, 0.2), (0.1, 0.1)])],
        },
        Polygon { exterior: vec![], interiors: vec![] },
        Polygon {
            exterior: ring(&[(-50.0, -50.0), (-40.0, -50.0), (-40.0, -40.0), (-50.0, -50.0)]),
            interiors: vec![],
        },
    ]);
    let encoded = encode_geometry(&polys).unwrap();
    match &encoded {
        HilbertGeometry::MultiPolygon(members) => {
            assert_eq!(members.len(), 3);
            assert_eq!(members[1].len(), 1);
            assert_eq!(members[2][0][0], encode_coord(coord(-50.0, -50.0)));
        }
        other => panic!("unexpected encoding {:?}", other),
    }
    assert_eq!(decode_geometry(&encoded), polys);

    let points = Geometry::MultiPoint(ring(&[(7.0, 8.0), (-7.0, -8.0), (7.0, 8.0)]));
    assert_eq!(round_trip(&points), points);
}

#[test]
fn extreme_coordinates_round_trip() {
    let corners = Geometry::LineString(vec![
        Coord { x: i32::MIN, y: i32::MIN },
        Coord { x: i32::MAX, y: i32::MIN },
        Coord { x: i32::MAX, y: i32::MAX },
        Coord { x: i32::MIN, y: i32::MAX },
        Coord { x: 0, y: 0 },
    ]);
    assert_eq!(round_trip(&corners), corners);
    let serializer = HilbertSerializer::new();
    let bytes = serializer.encode(&corners).unwrap();
    assert_eq!(serializer.decode(&bytes).unwrap(), corners);
}

#[test]
fn unsupported_kinds_are_refused() {
    let a = coord(0.0, 0.0);
    let b = coord(1.0, 1.0);
    let c = coord(1.0, 0.0);
    for g in [Geometry::Line(a, b), Geometry::Rect(a, b), Geometry::Triangle(a, b, c)] {
        assert_eq!(encode_geometry(&g), Err(HilbertError::UnsupportedGeometryKind));
        assert_eq!(
            HilbertSerializer::new().encode(&g),
            Err(HilbertError::UnsupportedGeometryKind)
        );
    }
}

#[test]
fn curve_positions_follow_the_grid() {
    // The lowest grid cell starts the curve.
    let low = Coord { x: i32::MIN, y: i32::MIN };
    assert_eq!(encode_coord(low), HilbertPoint(0));
    assert_eq!(decode_coord(HilbertPoint(0)), low);
    // The origin lies in the third quadrant visited by the curve.
    let origin = encode_coord(Coord { x: 0, y: 0 });
    assert!(origin.0 >= 1u64 << 63);
    assert_ne!(origin.0, 1u64 << 31);
    assert_eq!(decode_coord(origin), Coord { x: 0, y: 0 });
    // Distinct coordinates get distinct positions.
    assert_ne!(encode_coord(coord(1.0, 2.0)), encode_coord(coord(2.0, 1.0)));
}

#[test]
fn bincode_bytes_of_small_geometries() {
    assert_eq!(HilbertGeometry::Point(HilbertPoint(5)).encode_bincode(), Ok(vec![0, 5]));
    assert_eq!(
        HilbertGeometry::Point(HilbertPoint(300)).encode_bincode(),
        Ok(vec![0, 251, 44, 1])
    );
    assert_eq!(
        HilbertGeometry::LineString(vec![HilbertPoint(1), HilbertPoint(2)]).encode_bincode(),
        Ok(vec![1, 2, 1, 2])
    );
    assert_eq!(
        HilbertGeometry::Polygon(vec![vec![HilbertPoint(7)], vec![]]).encode_bincode(),
        Ok(vec![2, 2, 1, 7, 0])
    );
    assert_eq!(
        HilbertGeometry::MultiPolygon(vec![vec![vec![HilbertPoint(70_000)]]]).encode_bincode(),
        Ok(vec![5, 1, 1, 1, 252, 0x70, 0x11, 0x01, 0x00])
    );
    assert_eq!(
        HilbertGeometry::decode_bincode(&[1, 2, 1, 251, 44, 1, 99]),
        Ok(HilbertGeometry::LineString(vec![HilbertPoint(1), HilbertPoint(300)]))
    );
}

#[test]
fn malformed_bytes_are_refused() {
    let failure = Err(HilbertError::DecodingFailure);
    // Empty input.
    assert_eq!(HilbertGeometry::decode_bincode(&[]), failure);
    // Unknown variant index.
    assert_eq!(HilbertGeometry::decode_bincode(&[6, 0]), failure);
    // Truncated payload.
    assert_eq!(HilbertGeometry::decode_bincode(&[0]), failure);
    assert_eq!(HilbertGeometry::decode_bincode(&[0, 251, 1]), failure);
    assert_eq!(HilbertGeometry::decode_bincode(&[1, 2, 1]), failure);
    // A length beyond the bytes left.
    assert_eq!(HilbertGeometry::decode_bincode(&[1, 200, 1, 2]), failure);
    // A marker byte that no u64 has.
    assert_eq!(HilbertGeometry::decode_bincode(&[0, 254, 0, 0]), failure);
    let serializer = HilbertSerializer::new();
    assert_eq!(serializer.decode(&[4, 1]), Err(HilbertError::DecodingFailure));
}

/// Fixed-point value (units of 1e-7) of a number of degrees, as `i64`.
fn degrees(v: f64) -> i64 {
    (v * 1e7).round() as i64
}

#[test]
fn lon_lat_wrap_and_back() {
    assert_eq!(normalize_lon_lat(0, 0), (1_800_000_000, 900_000_000));
    assert_eq!(normalize_lon_lat(degrees(-180.0), degrees(-90.0)), (0, 0));
    assert_eq!(normalize_lon_lat(degrees(180.0), degrees(90.0)), (0, 0));
    assert_eq!(normalize_lon_lat(degrees(200.0), degrees(100.0)), (200_000_000, 100_000_000));
    let (lon, lat) = normalize_lon_lat(degrees(12.3456789), degrees(-45.6));
    assert_eq!(denormalize_lon_lat(lon, lat), (degrees(12.3456789), degrees(-45.6)));
}

#[test]
fn lon_lat_out_of_range_folds_into_range() {
    // -190 degrees folds to 170 degrees: position 350/360.
    assert_eq!(normalize_lon_lat(degrees(-190.0), 0), (3_500_000_000, 900_000_000));
    assert_eq!(normalize_lon_lat(degrees(540.0), 0), (0, 900_000_000));
    assert_eq!(normalize_lon_lat(degrees(-100.0), degrees(-100.0)), (800_000_000, 1_700_000_000));
    // Whole turns do not change the position.
    assert_eq!(normalize_lon_lat(degrees(-200.0), 0), normalize_lon_lat(degrees(160.0), 0));
    assert_eq!(
        normalize_lon_lat(degrees(-1000.5), degrees(-370.25)),
        normalize_lon_lat(degrees(79.5), degrees(-10.25))
    );
    let far = normalize_lon_lat(i64::MIN, i64::MAX);
    assert!(0 <= far.0 && far.0 < 2 * 1_800_000_000);
    assert!(0 <= far.1 && far.1 < 2 * 900_000_000);
    // Denormalizing a folded position gives the in-range coordinate.
    let (lon, lat) = normalize_lon_lat(degrees(-190.0), degrees(95.0));
    assert_eq!(denormalize_lon_lat(lon, lat), (degrees(170.0), degrees(-85.0)));
}

#[test]
fn variant_index_is_a_32_bit_integer() {
    let point = Ok(HilbertGeometry::Point(HilbertPoint(5)));
    assert_eq!(HilbertGeometry::decode_bincode(&[0, 5]), point);
    assert_eq!(HilbertGeometry::decode_bincode(&[252, 0, 0, 0, 0, 5]), point);
    assert_eq!(
        HilbertGeometry::decode_bincode(&[253, 0, 0, 0, 0, 0, 0, 0, 0, 5]),
        Err(HilbertError::DecodingFailure)
    );
}
