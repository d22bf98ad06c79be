//! Tests of the column plumbing: null propagation, broadcasting, header
//! queries, constructors and accessors.

use geocore::accessors::{
    bounds, circularstring, collect, collection_supertype, get_center, get_exterior_ring,
    get_geometry_n, get_interior_ring_n, get_interior_rings, get_m, get_num_coordinates,
    get_num_geometries, get_num_interior_rings, get_num_points, get_parts, get_point_n, get_x,
    get_y, get_z, linestring, multilinestring, multipoint, point, point_coords, polygon,
};
use geocore::codec::{decode_geometry, encode_geometry, to_ewkb, ByteOrder};
use geocore::column::{
    from_wkb, get_coordinate_dimension, get_srid, get_type_id, has_m, has_z, is_empty, multi,
    scale_from_center, set_srid, to_wkb,
};
use geocore::error::Error;
use geocore::geometry::{Coord, GeomType, Geometry, Kind, Node};

fn c2(x: f64, y: f64) -> Coord {
    Coord { x: x.to_bits(), y: y.to_bits(), z: f64::NAN.to_bits(), m: f64::NAN.to_bits() }
}

fn point2(srid: i32, x: f64, y: f64) -> Geometry {
    Geometry {
        srid,
        node: Node { has_z: false, has_m: false, kind: Kind::Point(Some(c2(x, y))) },
    }
}

#[test]
fn header_queries_pass_nulls_through() {
    let g = point2(4326, 1.0, 2.0);
    let col = vec![Some(to_ewkb(&g)), None];
    assert_eq!(get_srid(&col).unwrap(), vec![Some(4326), None]);
    assert_eq!(get_type_id(&col).unwrap(), vec![Some(1), None]);
    assert_eq!(get_coordinate_dimension(&col).unwrap(), vec![Some(2), None]);
    assert_eq!(has_z(&col).unwrap(), vec![Some(false), None]);
    assert_eq!(has_m(&col).unwrap(), vec![Some(false), None]);
    assert_eq!(is_empty(&col).unwrap(), vec![Some(false), None]);
}

#[test]
fn set_srid_broadcasts_a_scalar() {
    let a = point2(0, 1.0, 2.0);
    let b = point2(7, 3.0, 4.0);
    let col = vec![Some(to_ewkb(&a)), Some(to_ewkb(&b)), None];
    let out = set_srid(&col, &vec![Some(31370)]).unwrap();
    assert_eq!(out.len(), 3);
    assert_eq!(get_srid(&out).unwrap(), vec![Some(31370), Some(31370), None]);
    // Payloads survive the header rewrite.
    let back = decode_geometry(out[1].as_ref().unwrap()).unwrap();
    assert_eq!(back.node, b.node);
}

#[test]
fn from_wkb_normalizes_byte_order() {
    let g = point2(4326, 1.0, 2.0);
    let be = encode_geometry(&g, ByteOrder::Big, true);
    let col = vec![Some(be)];
    let out = from_wkb(&col).unwrap();
    assert_eq!(out[0].as_ref().unwrap(), &to_ewkb(&g));
}

#[test]
fn from_wkb_rejects_garbage() {
    let col = vec![Some(vec![2u8, 0, 0])];
    assert_eq!(from_wkb(&col), Err(Error::MalformedEncoding));
}

#[test]
fn multi_wraps_simple_shapes() {
    let p = point2(3, 1.0, 2.0);
    let col = vec![Some(to_ewkb(&p))];
    let out = multi(&col).unwrap();
    let mp = decode_geometry(out[0].as_ref().unwrap()).unwrap();
    assert!(matches!(mp.node.kind, Kind::MultiPoint(_)));
    assert_eq!(mp.srid, 3);
    // A collection passes through unchanged.
    let out2 = multi(&out).unwrap();
    assert_eq!(out2[0].as_ref().unwrap(), out[0].as_ref().unwrap());
}

#[test]
fn point_constructor_reads_arity() {
    let col = vec![
        Some(vec![1.0f64.to_bits(), 2.0f64.to_bits()]),
        Some(vec![1.0f64.to_bits(), 2.0f64.to_bits(), 3.0f64.to_bits()]),
        None,
    ];
    let out = point(&col).unwrap();
    let g0 = decode_geometry(out[0].as_ref().unwrap()).unwrap();
    assert_eq!(g0.node.kind, Kind::Point(Some(c2(1.0, 2.0))));
    let g1 = decode_geometry(out[1].as_ref().unwrap()).unwrap();
    assert!(g1.node.has_z && !g1.node.has_m);
    assert!(out[2].is_none());
    // A single ordinate is no coordinate.
    let bad = vec![Some(vec![1.0f64.to_bits()])];
    assert_eq!(point(&bad), Err(Error::NonUniformCoordinateDimension));
}

#[test]
fn linestring_constructor_requires_uniform_rows() {
    let rows = vec![
        vec![0.0f64.to_bits(), 0.0f64.to_bits()],
        vec![1.0f64.to_bits(), 1.0f64.to_bits()],
    ];
    let out = linestring(&vec![Some(rows)]).unwrap();
    let g = decode_geometry(out[0].as_ref().unwrap()).unwrap();
    assert_eq!(g.node.kind, Kind::LineString(vec![c2(0.0, 0.0), c2(1.0, 1.0)]));
    let mixed = vec![
        vec![0.0f64.to_bits(), 0.0f64.to_bits()],
        vec![1.0f64.to_bits(), 1.0f64.to_bits(), 2.0f64.to_bits()],
    ];
    assert_eq!(
        linestring(&vec![Some(mixed)]),
        Err(Error::NonUniformCoordinateDimension)
    );
}

#[test]
fn multipoint_constructor_explodes_rows() {
    let rows = vec![
        vec![0.0f64.to_bits(), 0.0f64.to_bits()],
        vec![1.0f64.to_bits(), 2.0f64.to_bits()],
    ];
    let out = multipoint(&vec![Some(rows)]).unwrap();
    let g = decode_geometry(out[0].as_ref().unwrap()).unwrap();
    match &g.node.kind {
        Kind::MultiPoint(ch) => {
            assert_eq!(ch.len(), 2);
            assert_eq!(ch[1].kind, Kind::Point(Some(c2(1.0, 2.0))));
        },
        other => panic!("expected a multi-point, got {other:?}"),
    }
}

#[test]
fn accessors_read_points_and_parts() {
    let p = point2(0, 1.5, -2.5);
    let l = Geometry {
        srid: 0,
        node: Node {
            has_z: false,
            has_m: false,
            kind: Kind::LineString(vec![c2(0.0, 0.0), c2(1.0, 1.0), c2(2.0, 0.0)]),
        },
    };
    let mp = Geometry {
        srid: 9,
        node: Node {
            has_z: false,
            has_m: false,
            kind: Kind::MultiPoint(vec![p.node.clone(), p.node.clone()]),
        },
    };
    let col = vec![Some(to_ewkb(&p)), Some(to_ewkb(&l)), Some(to_ewkb(&mp)), None];
    let pc = point_coords(&col).unwrap();
    assert_eq!(pc[0], Some(c2(1.5, -2.5)));
    // A non-point row gives the NaN sentinel.
    assert!(f64::from_bits(pc[1].unwrap().x).is_nan());
    assert!(pc[3].is_none());
    assert_eq!(get_num_geometries(&col).unwrap(), vec![Some(1), Some(1), Some(2), None]);
    assert_eq!(get_num_coordinates(&col).unwrap(), vec![Some(1), Some(3), Some(2), None]);
    // The second part of the multi-point, by index; out of range is null.
    let parts = get_geometry_n(&col, &vec![Some(1u32)]).unwrap();
    assert!(parts[0].is_none());
    let part = decode_geometry(parts[2].as_ref().unwrap()).unwrap();
    assert_eq!(part.node, p.node);
    assert_eq!(part.srid, 9);
    let all = get_parts(&col).unwrap();
    assert_eq!(all[2].as_ref().unwrap().len(), 2);
    assert_eq!(all[0].as_ref().unwrap().len(), 1);
}

#[test]
fn bounds_and_center() {
    let l = Geometry {
        srid: 0,
        node: Node {
            has_z: false,
            has_m: false,
            kind: Kind::LineString(vec![c2(0.0, -1.0), c2(4.0, 3.0)]),
        },
    };
    let empty = Geometry {
        srid: 0,
        node: Node { has_z: false, has_m: false, kind: Kind::Point(None) },
    };
    let col = vec![Some(to_ewkb(&l)), Some(to_ewkb(&empty))];
    let b = bounds(&col).unwrap();
    let (xmin, ymin, xmax, ymax) = b[0].unwrap();
    assert_eq!(f64::from_bits(xmin), 0.0);
    assert_eq!(f64::from_bits(ymin), -1.0);
    assert_eq!(f64::from_bits(xmax), 4.0);
    assert_eq!(f64::from_bits(ymax), 3.0);
    let (exm, _, _, _) = b[1].unwrap();
    assert!(f64::from_bits(exm).is_nan());
    let centers = get_center(&col).unwrap();
    let cg = decode_geometry(centers[0].as_ref().unwrap()).unwrap();
    assert_eq!(cg.node.kind, Kind::Point(Some(c2(2.0, 1.0))));
    let ce = decode_geometry(centers[1].as_ref().unwrap()).unwrap();
    assert_eq!(ce.node.kind, Kind::Point(None));
}

#[test]
fn supertype_and_collect() {
    let p = point2(0, 1.0, 2.0);
    let q = point2(0, 3.0, 4.0);
    let col = vec![Some(to_ewkb(&p)), None, Some(to_ewkb(&q))];
    assert_eq!(collection_supertype(&col).unwrap(), GeomType::MultiPoint);
    let agg = collect(&col, None).unwrap();
    let g = decode_geometry(&agg).unwrap();
    match &g.node.kind {
        Kind::MultiPoint(ch) => assert_eq!(ch.len(), 2),
        other => panic!("expected a multi-point, got {other:?}"),
    }
    // A mixed column aggregates to a geometry collection.
    let l = Geometry {
        srid: 0,
        node: Node { has_z: false, has_m: false, kind: Kind::LineString(vec![c2(0.0, 0.0)]) },
    };
    let mixed = vec![Some(to_ewkb(&p)), Some(to_ewkb(&l))];
    assert_eq!(collection_supertype(&mixed).unwrap(), GeomType::GeometryCollection);
    // A point cannot stand in a multi-line-string.
    assert_eq!(
        collect(&mixed, Some(GeomType::MultiLineString)),
        Err(Error::InvalidGeometryForOperation)
    );
}

#[test]
fn ring_and_point_accessors() {
    let shell = vec![c2(0.0, 0.0), c2(4.0, 0.0), c2(4.0, 4.0), c2(0.0, 0.0)];
    let hole = vec![c2(1.0, 1.0), c2(2.0, 1.0), c2(2.0, 2.0), c2(1.0, 1.0)];
    let poly = Geometry {
        srid: 6,
        node: Node {
            has_z: false,
            has_m: false,
            kind: Kind::Polygon(vec![shell.clone(), hole.clone()]),
        },
    };
    let line = Geometry {
        srid: 0,
        node: Node {
            has_z: false,
            has_m: false,
            kind: Kind::LineString(vec![c2(0.0, 0.0), c2(1.0, 1.0)]),
        },
    };
    let col = vec![Some(to_ewkb(&poly)), Some(to_ewkb(&line))];
    assert_eq!(get_num_interior_rings(&col).unwrap(), vec![Some(1), Some(0)]);
    assert_eq!(get_num_points(&col).unwrap(), vec![Some(0), Some(2)]);
    let ext = get_exterior_ring(&col).unwrap();
    let ring0 = decode_geometry(ext[0].as_ref().unwrap()).unwrap();
    assert_eq!(ring0.node.kind, Kind::LineString(shell));
    assert_eq!(ring0.srid, 6);
    assert!(ext[1].is_none());
    let inner = get_interior_ring_n(&col, &vec![Some(0u32)]).unwrap();
    let ring1 = decode_geometry(inner[0].as_ref().unwrap()).unwrap();
    assert_eq!(ring1.node.kind, Kind::LineString(hole));
    assert!(inner[1].is_none());
    // Ring indexes past the holes are null.
    let over = get_interior_ring_n(&col, &vec![Some(1u32)]).unwrap();
    assert!(over[0].is_none());
    let pts = get_point_n(&col, &vec![Some(1u32)]).unwrap();
    assert!(pts[0].is_none());
    let p = decode_geometry(pts[1].as_ref().unwrap()).unwrap();
    assert_eq!(p.node.kind, Kind::Point(Some(c2(1.0, 1.0))));
}

#[test]
fn polygon_and_multilinestring_constructors() {
    let shell = vec![
        vec![0.0f64.to_bits(), 0.0f64.to_bits()],
        vec![4.0f64.to_bits(), 0.0f64.to_bits()],
        vec![4.0f64.to_bits(), 4.0f64.to_bits()],
        vec![0.0f64.to_bits(), 0.0f64.to_bits()],
    ];
    let out = polygon(&vec![Some(vec![shell.clone()]), Some(vec![]), None]).unwrap();
    let g = decode_geometry(out[0].as_ref().unwrap()).unwrap();
    match &g.node.kind {
        Kind::Polygon(rings) => {
            assert_eq!(rings.len(), 1);
            assert_eq!(rings[0][1], c2(4.0, 0.0));
        },
        other => panic!("expected a polygon, got {other:?}"),
    }
    let empty = decode_geometry(out[1].as_ref().unwrap()).unwrap();
    assert_eq!(empty.node.kind, Kind::Polygon(vec![]));
    assert!(out[2].is_none());
    // Rings of differing arity are refused.
    let bad_ring = vec![vec![0.0f64.to_bits(), 0.0f64.to_bits(), 1.0f64.to_bits()]];
    assert_eq!(
        polygon(&vec![Some(vec![shell.clone(), bad_ring])]),
        Err(Error::NonUniformCoordinateDimension)
    );

    let line_a = vec![
        vec![0.0f64.to_bits(), 0.0f64.to_bits()],
        vec![1.0f64.to_bits(), 1.0f64.to_bits()],
    ];
    let line_b = vec![
        vec![5.0f64.to_bits(), 5.0f64.to_bits(), 9.0f64.to_bits()],
        vec![6.0f64.to_bits(), 6.0f64.to_bits(), 9.0f64.to_bits()],
    ];
    let mls = multilinestring(&vec![Some(vec![line_a, line_b])]).unwrap();
    let mg = decode_geometry(mls[0].as_ref().unwrap()).unwrap();
    match &mg.node.kind {
        Kind::MultiLineString(ch) => {
            assert_eq!(ch.len(), 2);
            assert!(!ch[0].has_z);
            assert!(ch[1].has_z);
        },
        other => panic!("expected a multi-line-string, got {other:?}"),
    }
    assert!(!mg.node.has_z);
}

#[test]
fn circularstring_constructor_keeps_arcs() {
    let rows = vec![
        vec![0.0f64.to_bits(), 0.0f64.to_bits()],
        vec![1.0f64.to_bits(), 1.0f64.to_bits()],
        vec![2.0f64.to_bits(), 0.0f64.to_bits()],
    ];
    let out = circularstring(&vec![Some(rows)]).unwrap();
    let g = decode_geometry(out[0].as_ref().unwrap()).unwrap();
    assert_eq!(
        g.node.kind,
        Kind::CircularString(vec![c2(0.0, 0.0), c2(1.0, 1.0), c2(2.0, 0.0)])
    );
}

#[test]
fn ordinate_getters_read_points() {
    let p = Geometry {
        srid: 0,
        node: Node {
            has_z: true,
            has_m: false,
            kind: Kind::Point(Some(Coord {
                x: 1.0f64.to_bits(),
                y: 2.0f64.to_bits(),
                z: 3.0f64.to_bits(),
                m: f64::NAN.to_bits(),
            })),
        },
    };
    let col = vec![Some(to_ewkb(&p)), None];
    assert_eq!(get_x(&col).unwrap(), vec![Some(1.0f64.to_bits()), None]);
    assert_eq!(get_y(&col).unwrap(), vec![Some(2.0f64.to_bits()), None]);
    assert_eq!(get_z(&col).unwrap(), vec![Some(3.0f64.to_bits()), None]);
    let m = get_m(&col).unwrap();
    assert!(f64::from_bits(m[0].unwrap()).is_nan());
}

#[test]
fn interior_rings_listed_per_row() {
    let shell = vec![c2(0.0, 0.0), c2(4.0, 0.0), c2(4.0, 4.0), c2(0.0, 0.0)];
    let hole = vec![c2(1.0, 1.0), c2(2.0, 1.0), c2(2.0, 2.0), c2(1.0, 1.0)];
    let poly = Geometry {
        srid: 0,
        node: Node {
            has_z: false,
            has_m: false,
            kind: Kind::Polygon(vec![shell, hole.clone()]),
        },
    };
    let p = point2(0, 1.0, 2.0);
    let col = vec![Some(to_ewkb(&poly)), Some(to_ewkb(&p)), None];
    let rings = get_interior_rings(&col).unwrap();
    assert_eq!(rings[0].as_ref().unwrap().len(), 1);
    let hole_g = decode_geometry(&rings[0].as_ref().unwrap()[0]).unwrap();
    assert_eq!(hole_g.node.kind, Kind::LineString(hole));
    // A non-polygon row gives an empty list, not a failure.
    assert_eq!(rings[1].as_ref().unwrap().len(), 0);
    assert!(rings[2].is_none());
}

#[test]
fn center_pivot_scale_keeps_the_middle() {
    let l = Geometry {
        srid: 0,
        node: Node {
            has_z: false,
            has_m: false,
            kind: Kind::LineString(vec![c2(0.0, 0.0), c2(2.0, 2.0)]),
        },
    };
    let col = vec![Some(to_ewkb(&l))];
    let f = vec![Some((3.0f64.to_bits(), 3.0f64.to_bits(), 1.0f64.to_bits()))];
    let out = scale_from_center(&col, &f).unwrap();
    let g = decode_geometry(out[0].as_ref().unwrap()).unwrap();
    match &g.node.kind {
        Kind::LineString(cs) => {
            // Tripling about the middle (1, 1) maps (0, 0) to (-2, -2).
            assert_eq!(f64::from_bits(cs[0].x), -2.0);
            assert_eq!(f64::from_bits(cs[0].y), -2.0);
            assert_eq!(f64::from_bits(cs[1].x), 4.0);
        },
        other => panic!("expected a line string, got {other:?}"),
    }
}

#[test]
fn supertype_follows_the_exact_table() {
    let ls = Geometry {
        srid: 0,
        node: Node { has_z: false, has_m: false, kind: Kind::LineString(vec![c2(0.0, 0.0)]) },
    };
    let cs = Geometry {
        srid: 0,
        node: Node { has_z: false, has_m: false, kind: Kind::CircularString(vec![c2(0.0, 0.0)]) },
    };
    let cc = Geometry {
        srid: 0,
        node: Node { has_z: false, has_m: false, kind: Kind::CompoundCurve(vec![]) },
    };
    // A lone arc or compound maps to a multi-curve, as do the listed
    // line-and-arc mixes.
    assert_eq!(
        collection_supertype(&vec![Some(to_ewkb(&cs))]).unwrap(),
        GeomType::MultiCurve
    );
    assert_eq!(
        collection_supertype(&vec![Some(to_ewkb(&cc))]).unwrap(),
        GeomType::MultiCurve
    );
    assert_eq!(
        collection_supertype(&vec![Some(to_ewkb(&ls)), Some(to_ewkb(&cs))]).unwrap(),
        GeomType::MultiCurve
    );
    assert_eq!(
        collection_supertype(&vec![Some(to_ewkb(&ls)), Some(to_ewkb(&cs)), Some(to_ewkb(&cc))])
            .unwrap(),
        GeomType::MultiCurve
    );
    // The mixes outside the table fall to a geometry collection.
    assert_eq!(
        collection_supertype(&vec![Some(to_ewkb(&cs)), Some(to_ewkb(&cc))]).unwrap(),
        GeomType::GeometryCollection
    );
    assert_eq!(
        collection_supertype(&vec![Some(to_ewkb(&ls)), Some(to_ewkb(&cc))]).unwrap(),
        GeomType::GeometryCollection
    );
}

#[test]
fn to_wkb_caps_the_output_dimension() {
    let zm = Geometry {
        srid: 0,
        node: Node {
            has_z: true,
            has_m: true,
            kind: Kind::Point(Some(Coord {
                x: 1.0f64.to_bits(),
                y: 2.0f64.to_bits(),
                z: 3.0f64.to_bits(),
                m: 4.0f64.to_bits(),
            })),
        },
    };
    let m_only = Geometry {
        srid: 0,
        node: Node {
            has_z: false,
            has_m: true,
            kind: Kind::Point(Some(Coord {
                x: 1.0f64.to_bits(),
                y: 2.0f64.to_bits(),
                z: f64::NAN.to_bits(),
                m: 4.0f64.to_bits(),
            })),
        },
    };
    let col = vec![Some(to_ewkb(&zm)), Some(to_ewkb(&m_only))];
    // Capped to two: a plain planar point.
    let flat = to_wkb(&col, ByteOrder::Little, true, 2).unwrap();
    let f0 = decode_geometry(flat[0].as_ref().unwrap()).unwrap();
    assert!(!f0.node.has_z && !f0.node.has_m);
    // Capped to three: z wins over m; a lone m survives.
    let three = to_wkb(&col, ByteOrder::Little, true, 3).unwrap();
    let t0 = decode_geometry(three[0].as_ref().unwrap()).unwrap();
    assert!(t0.node.has_z && !t0.node.has_m);
    let t1 = decode_geometry(three[1].as_ref().unwrap()).unwrap();
    assert!(!t1.node.has_z && t1.node.has_m);
    // Four keeps everything.
    let four = to_wkb(&col, ByteOrder::Little, true, 4).unwrap();
    assert_eq!(four[0].as_ref().unwrap(), col[0].as_ref().unwrap());
}
