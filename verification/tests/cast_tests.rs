//! Tests of the type-cast rule table.

use geocore::cast::cast_geometry;
use geocore::column::cast;
use geocore::codec::decode_geometry;
use geocore::error::Error;
use geocore::geometry::{Coord, GeomType, Geometry, Kind, Node};

fn c2(x: f64, y: f64) -> Coord {
    Coord { x: x.to_bits(), y: y.to_bits(), z: f64::NAN.to_bits(), m: f64::NAN.to_bits() }
}

fn geom(srid: i32, kind: Kind) -> Geometry {
    Geometry { srid, node: Node { has_z: false, has_m: false, kind } }
}

#[test]
fn cast_to_own_variant_is_identity() {
    let p = geom(4326, Kind::Point(Some(c2(1.0, 2.0))));
    assert_eq!(cast_geometry(&p, GeomType::Point).unwrap(), p);
    let l = geom(0, Kind::LineString(vec![c2(0.0, 0.0), c2(1.0, 1.0)]));
    assert_eq!(cast_geometry(&l, GeomType::LineString).unwrap(), l);
    let mp = geom(7, Kind::MultiPoint(vec![p.node.clone()]));
    assert_eq!(cast_geometry(&mp, GeomType::MultiPoint).unwrap(), mp);
}

#[test]
fn cast_point_multipoint_collection_flattens() {
    let p = geom(4326, Kind::Point(Some(c2(1.0, 2.0))));
    let mp = cast_geometry(&p, GeomType::MultiPoint).unwrap();
    match &mp.node.kind {
        Kind::MultiPoint(ch) => {
            assert_eq!(ch.len(), 1);
            assert_eq!(ch[0], p.node);
        },
        other => panic!("expected a multi-point, got {other:?}"),
    }
    assert_eq!(mp.srid, 4326);
    // One more cast flattens a level: the collection holds the point
    // itself, not the multi-point.
    let gc = cast_geometry(&mp, GeomType::GeometryCollection).unwrap();
    match &gc.node.kind {
        Kind::GeometryCollection(ch) => {
            assert_eq!(ch.len(), 1);
            assert_eq!(ch[0], p.node);
        },
        other => panic!("expected a collection, got {other:?}"),
    }
    assert_eq!(gc.srid, 4326);
}

#[test]
fn cast_empty_point_gives_empty_multipoint() {
    let p = geom(0, Kind::Point(None));
    let mp = cast_geometry(&p, GeomType::MultiPoint).unwrap();
    assert_eq!(mp.node.kind, Kind::MultiPoint(vec![]));
}

#[test]
fn cast_empty_linestring_gives_empty_multilinestring() {
    let l = geom(0, Kind::LineString(vec![]));
    let ml = cast_geometry(&l, GeomType::MultiLineString).unwrap();
    // An empty collection, not a one-element collection holding an empty
    // line string.
    assert_eq!(ml.node.kind, Kind::MultiLineString(vec![]));
}

#[test]
fn cast_explodes_curve_into_points() {
    let l = geom(0, Kind::LineString(vec![c2(0.0, 0.0), c2(1.0, 1.0), c2(2.0, 0.0)]));
    let mp = cast_geometry(&l, GeomType::MultiPoint).unwrap();
    match &mp.node.kind {
        Kind::MultiPoint(ch) => {
            assert_eq!(ch.len(), 3);
            assert_eq!(ch[1].kind, Kind::Point(Some(c2(1.0, 1.0))));
        },
        other => panic!("expected a multi-point, got {other:?}"),
    }
}

#[test]
fn cast_gathers_multipoint_into_linestring() {
    let p1 = Node { has_z: false, has_m: false, kind: Kind::Point(Some(c2(0.0, 0.0))) };
    let empty = Node { has_z: false, has_m: false, kind: Kind::Point(None) };
    let p2 = Node { has_z: false, has_m: false, kind: Kind::Point(Some(c2(3.0, 4.0))) };
    let mp = geom(0, Kind::MultiPoint(vec![p1, empty, p2]));
    let l = cast_geometry(&mp, GeomType::LineString).unwrap();
    // Empty member points contribute nothing.
    assert_eq!(l.node.kind, Kind::LineString(vec![c2(0.0, 0.0), c2(3.0, 4.0)]));
}

#[test]
fn cast_reinterprets_arc_and_line() {
    let cs = geom(0, Kind::CircularString(vec![c2(0.0, 0.0), c2(1.0, 1.0), c2(2.0, 0.0)]));
    let l = cast_geometry(&cs, GeomType::LineString).unwrap();
    assert_eq!(
        l.node.kind,
        Kind::LineString(vec![c2(0.0, 0.0), c2(1.0, 1.0), c2(2.0, 0.0)])
    );
    let back = cast_geometry(&l, GeomType::CircularString).unwrap();
    assert_eq!(back.node.kind, cs.node.kind);
}

#[test]
fn cast_multilinestring_into_polygon_rings() {
    let shell = Node {
        has_z: false,
        has_m: false,
        kind: Kind::LineString(vec![c2(0.0, 0.0), c2(4.0, 0.0), c2(4.0, 4.0), c2(0.0, 0.0)]),
    };
    let hole = Node {
        has_z: false,
        has_m: false,
        kind: Kind::LineString(vec![c2(1.0, 1.0), c2(2.0, 1.0), c2(2.0, 2.0), c2(1.0, 1.0)]),
    };
    let ml = geom(0, Kind::MultiLineString(vec![shell, hole]));
    let poly = cast_geometry(&ml, GeomType::Polygon).unwrap();
    match &poly.node.kind {
        Kind::Polygon(rings) => {
            assert_eq!(rings.len(), 2);
            assert_eq!(rings[0].len(), 4);
            assert_eq!(rings[1][0], c2(1.0, 1.0));
        },
        other => panic!("expected a polygon, got {other:?}"),
    }
    // No rings gives the empty polygon.
    let ml0 = geom(0, Kind::MultiLineString(vec![]));
    let poly0 = cast_geometry(&ml0, GeomType::Polygon).unwrap();
    assert_eq!(poly0.node.kind, Kind::Polygon(vec![]));
}

#[test]
fn cast_unsupported_pair_is_refused() {
    let p = geom(0, Kind::Point(Some(c2(1.0, 2.0))));
    assert_eq!(
        cast_geometry(&p, GeomType::Polygon),
        Err(Error::UnsupportedCast(GeomType::Point, GeomType::Polygon))
    );
    let gc = geom(0, Kind::GeometryCollection(vec![]));
    assert_eq!(
        cast_geometry(&gc, GeomType::MultiPoint),
        Err(Error::UnsupportedCast(GeomType::GeometryCollection, GeomType::MultiPoint))
    );
}

#[test]
fn cast_column_maps_codes() {
    let p = geom(0, Kind::Point(Some(c2(1.0, 2.0))));
    let bytes = geocore::codec::to_ewkb(&p);
    let col = vec![Some(bytes), None];
    let codes = vec![Some(4u32), Some(4u32)];
    let out = cast(&col, &codes).unwrap();
    assert_eq!(out.len(), 2);
    assert!(out[1].is_none());
    let casted = decode_geometry(out[0].as_ref().unwrap()).unwrap();
    assert!(matches!(casted.node.kind, Kind::MultiPoint(_)));
}
