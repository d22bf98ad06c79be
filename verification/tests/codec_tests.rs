//! Round-trip and header tests for the binary geometry codec.

use geocore::codec::{
    decode_geometry, encode_geometry, get_coordinate_dimension_of, get_srid_of, get_type_id_of,
    set_srid_of, to_ewkb, ByteOrder,
};
use geocore::error::Error;
use geocore::geometry::{Coord, GeomType, Geometry, Kind, Node};

fn c2(x: f64, y: f64) -> Coord {
    Coord { x: x.to_bits(), y: y.to_bits(), z: f64::NAN.to_bits(), m: f64::NAN.to_bits() }
}

fn c3(x: f64, y: f64, z: f64) -> Coord {
    Coord { x: x.to_bits(), y: y.to_bits(), z: z.to_bits(), m: f64::NAN.to_bits() }
}

fn c4(x: f64, y: f64, z: f64, m: f64) -> Coord {
    Coord { x: x.to_bits(), y: y.to_bits(), z: z.to_bits(), m: m.to_bits() }
}

fn geom(srid: i32, has_z: bool, has_m: bool, kind: Kind) -> Geometry {
    Geometry { srid, node: Node { has_z, has_m, kind } }
}

fn round_trip(g: &Geometry) {
    for order in [ByteOrder::Little, ByteOrder::Big] {
        let bytes = encode_geometry(g, order, true);
        let back = decode_geometry(&bytes).expect("decode of own encoding");
        assert_eq!(&back, g);
    }
}

#[test]
fn round_trip_points() {
    round_trip(&geom(0, false, false, Kind::Point(Some(c2(1.0, 2.0)))));
    round_trip(&geom(4326, false, false, Kind::Point(Some(c2(-1.5, 2.25)))));
    round_trip(&geom(0, true, false, Kind::Point(Some(c3(1.0, 2.0, 3.0)))));
    let m_only = Coord {
        x: 1.0f64.to_bits(),
        y: 2.0f64.to_bits(),
        z: f64::NAN.to_bits(),
        m: 7.0f64.to_bits(),
    };
    round_trip(&geom(0, false, true, Kind::Point(Some(m_only))));
    round_trip(&geom(31370, true, true, Kind::Point(Some(c4(1.0, 2.0, 3.0, 4.0)))));
    // Empty points, in every dimensionality.
    round_trip(&geom(0, false, false, Kind::Point(None)));
    round_trip(&geom(0, true, false, Kind::Point(None)));
    round_trip(&geom(0, false, true, Kind::Point(None)));
    round_trip(&geom(4326, true, true, Kind::Point(None)));
}

#[test]
fn round_trip_curves() {
    round_trip(&geom(0, false, false, Kind::LineString(vec![c2(0.0, 0.0), c2(1.0, 1.0)])));
    round_trip(&geom(0, true, false, Kind::LineString(vec![c3(0.0, 0.0, 5.0)])));
    round_trip(&geom(0, false, false, Kind::LineString(vec![])));
    round_trip(&geom(0, false, false, Kind::CircularString(vec![
        c2(0.0, 0.0),
        c2(1.0, 1.0),
        c2(2.0, 0.0),
    ])));
    round_trip(&geom(0, false, false, Kind::CircularString(vec![])));
    let seg1 = Node {
        has_z: false,
        has_m: false,
        kind: Kind::LineString(vec![c2(0.0, 0.0), c2(1.0, 0.0)]),
    };
    let seg2 = Node {
        has_z: false,
        has_m: false,
        kind: Kind::CircularString(vec![c2(1.0, 0.0), c2(2.0, 1.0), c2(3.0, 0.0)]),
    };
    round_trip(&geom(0, false, false, Kind::CompoundCurve(vec![seg1, seg2])));
    round_trip(&geom(0, false, false, Kind::CompoundCurve(vec![])));
}

#[test]
fn round_trip_surfaces() {
    let shell = vec![c2(0.0, 0.0), c2(4.0, 0.0), c2(4.0, 4.0), c2(0.0, 4.0), c2(0.0, 0.0)];
    let hole = vec![c2(1.0, 1.0), c2(2.0, 1.0), c2(2.0, 2.0), c2(1.0, 2.0), c2(1.0, 1.0)];
    round_trip(&geom(0, false, false, Kind::Polygon(vec![shell.clone(), hole.clone()])));
    round_trip(&geom(0, false, false, Kind::Polygon(vec![])));
    let ring = Node {
        has_z: false,
        has_m: false,
        kind: Kind::CircularString(vec![c2(0.0, 0.0), c2(1.0, 1.0), c2(0.0, 0.0)]),
    };
    round_trip(&geom(0, false, false, Kind::CurvePolygon(vec![ring])));
    round_trip(&geom(0, false, false, Kind::CurvePolygon(vec![])));
}

#[test]
fn round_trip_collections() {
    let p = Node { has_z: false, has_m: false, kind: Kind::Point(Some(c2(1.0, 2.0))) };
    let l = Node {
        has_z: false,
        has_m: false,
        kind: Kind::LineString(vec![c2(0.0, 0.0), c2(1.0, 1.0)]),
    };
    let shell = vec![c2(0.0, 0.0), c2(1.0, 0.0), c2(1.0, 1.0), c2(0.0, 0.0)];
    let poly = Node { has_z: false, has_m: false, kind: Kind::Polygon(vec![shell]) };
    round_trip(&geom(0, false, false, Kind::MultiPoint(vec![p.clone(), p.clone()])));
    round_trip(&geom(0, false, false, Kind::MultiPoint(vec![])));
    round_trip(&geom(0, false, false, Kind::MultiLineString(vec![l.clone()])));
    round_trip(&geom(0, false, false, Kind::MultiLineString(vec![])));
    round_trip(&geom(0, false, false, Kind::MultiPolygon(vec![poly.clone()])));
    round_trip(&geom(0, false, false, Kind::MultiPolygon(vec![])));
    round_trip(&geom(7, false, false, Kind::GeometryCollection(vec![p.clone(), l.clone()])));
    round_trip(&geom(0, false, false, Kind::GeometryCollection(vec![])));
    // A collection nested in a collection.
    let inner = Node {
        has_z: false,
        has_m: false,
        kind: Kind::MultiPoint(vec![p.clone()]),
    };
    round_trip(&geom(0, false, false, Kind::GeometryCollection(vec![inner])));
}

#[test]
fn decode_known_3d_point_bytes() {
    // Little-endian, type word 0x80000001 (point with z), then (1, 2, 3).
    let mut bytes: Vec<u8> = vec![1];
    bytes.extend_from_slice(&0x8000_0001u32.to_le_bytes());
    bytes.extend_from_slice(&1.0f64.to_le_bytes());
    bytes.extend_from_slice(&2.0f64.to_le_bytes());
    bytes.extend_from_slice(&3.0f64.to_le_bytes());
    let g = decode_geometry(&bytes).expect("well-formed bytes");
    assert!(g.node.has_z);
    assert!(!g.node.has_m);
    assert_eq!(g.srid, 0);
    match &g.node.kind {
        Kind::Point(Some(c)) => {
            assert_eq!(f64::from_bits(c.x), 1.0);
            assert_eq!(f64::from_bits(c.y), 2.0);
            assert_eq!(f64::from_bits(c.z), 3.0);
            assert!(f64::from_bits(c.m).is_nan());
        },
        other => panic!("expected a point, got {other:?}"),
    }
    // Encoding it back in the interchange form reproduces the bytes.
    assert_eq!(to_ewkb(&g), bytes);
}

#[test]
fn decode_rejects_malformed_input() {
    assert_eq!(decode_geometry(&vec![]), Err(Error::MalformedEncoding));
    assert_eq!(decode_geometry(&vec![1, 1, 0]), Err(Error::MalformedEncoding));
    // Unknown byte order.
    let mut bad = vec![9u8];
    bad.extend_from_slice(&1u32.to_le_bytes());
    assert_eq!(decode_geometry(&bad), Err(Error::MalformedEncoding));
    // Unknown shape code.
    let mut bad2 = vec![1u8];
    bad2.extend_from_slice(&99u32.to_le_bytes());
    assert_eq!(decode_geometry(&bad2), Err(Error::MalformedEncoding));
    // Truncated payload.
    let mut bad3 = vec![1u8];
    bad3.extend_from_slice(&1u32.to_le_bytes());
    bad3.extend_from_slice(&[0u8; 8]);
    assert_eq!(decode_geometry(&bad3), Err(Error::MalformedEncoding));
    // Trailing garbage after a whole geometry.
    let g = geom(0, false, false, Kind::Point(Some(c2(1.0, 2.0))));
    let mut bytes = to_ewkb(&g);
    bytes.push(0);
    assert_eq!(decode_geometry(&bytes), Err(Error::MalformedEncoding));
}

#[test]
fn srid_flag_only_when_nonzero() {
    let with = geom(4326, false, false, Kind::Point(Some(c2(1.0, 2.0))));
    let without = geom(0, false, false, Kind::Point(Some(c2(1.0, 2.0))));
    let b1 = to_ewkb(&with);
    let b2 = to_ewkb(&without);
    assert_eq!(b1.len(), b2.len() + 4);
    // Dropping the id on request gives the plain form.
    let b3 = encode_geometry(&with, ByteOrder::Little, false);
    let g3 = decode_geometry(&b3).unwrap();
    assert_eq!(g3.srid, 0);
    assert_eq!(g3.node, with.node);
}

#[test]
fn header_ops_read_and_write() {
    let g = geom(31370, true, false, Kind::Point(Some(c3(1.0, 2.0, 3.0))));
    let bytes = to_ewkb(&g);
    assert_eq!(get_srid_of(&bytes), Ok(31370));
    assert_eq!(get_type_id_of(&bytes), Ok(1));
    assert_eq!(get_coordinate_dimension_of(&bytes), Ok(3));
    // Rewriting the id touches only the header.
    let rewritten = set_srid_of(&bytes, 4326).unwrap();
    assert_eq!(get_srid_of(&rewritten), Ok(4326));
    let back = decode_geometry(&rewritten).unwrap();
    assert_eq!(back.node, g.node);
    assert_eq!(back.srid, 4326);
    // Clearing the id removes the field.
    let cleared = set_srid_of(&bytes, 0).unwrap();
    assert_eq!(get_srid_of(&cleared), Ok(0));
    assert_eq!(cleared.len(), bytes.len() - 4);
}

#[test]
fn big_endian_encoding_is_readable() {
    let g = geom(4326, true, true, Kind::LineString(vec![c4(1.0, 2.0, 3.0, 4.0)]));
    let be = encode_geometry(&g, ByteOrder::Big, true);
    assert_eq!(be[0], 0);
    let back = decode_geometry(&be).unwrap();
    assert_eq!(back, g);
}

#[test]
fn set_srid_works_on_big_endian_cells() {
    let g = geom(0, false, false, Kind::Point(Some(c2(5.0, 6.0))));
    let be = encode_geometry(&g, ByteOrder::Big, true);
    let tagged = set_srid_of(&be, 25832).unwrap();
    assert_eq!(get_srid_of(&tagged), Ok(25832));
    let back = decode_geometry(&tagged).unwrap();
    assert_eq!(back.node, g.node);
    assert_eq!(back.srid, 25832);
}

#[test]
fn mixed_dimension_members_survive_the_codec() {
    let flat = Node { has_z: false, has_m: false, kind: Kind::Point(Some(c2(1.0, 2.0))) };
    let tall = Node { has_z: true, has_m: false, kind: Kind::Point(Some(c3(1.0, 2.0, 3.0))) };
    round_trip(&geom(0, false, false, Kind::GeometryCollection(vec![flat, tall])));
}
