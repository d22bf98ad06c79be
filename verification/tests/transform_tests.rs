//! Tests of the affine algebra and the reprojection engine.

use geocore::codec::{decode_geometry, to_ewkb};
use geocore::column::{
    flip_coordinates, force_2d, force_3d, rotate_around_center, rotate_around_point, scale_from_point,
    skew_from_point, to_srid, translate,
};
use geocore::error::Error;
use geocore::geometry::{Coord, Geometry, Kind, Node};

fn c2(x: f64, y: f64) -> Coord {
    Coord { x: x.to_bits(), y: y.to_bits(), z: f64::NAN.to_bits(), m: f64::NAN.to_bits() }
}

fn c3(x: f64, y: f64, z: f64) -> Coord {
    Coord { x: x.to_bits(), y: y.to_bits(), z: z.to_bits(), m: f64::NAN.to_bits() }
}

fn point2(x: f64, y: f64) -> Geometry {
    Geometry {
        srid: 0,
        node: Node { has_z: false, has_m: false, kind: Kind::Point(Some(c2(x, y))) },
    }
}

fn xy_of(bytes: &Vec<u8>) -> (f64, f64) {
    let g = decode_geometry(bytes).unwrap();
    match &g.node.kind {
        Kind::Point(Some(c)) => (f64::from_bits(c.x), f64::from_bits(c.y)),
        other => panic!("expected a point, got {other:?}"),
    }
}

#[test]
fn rotate_quarter_turn_about_pivot() {
    // Rotating the origin a quarter turn about (1, 0) lands at (1, -1)
    // exactly: whole quarter turns use the exact unit cosine and sine, so
    // the matrix arithmetic is exact.
    let col = vec![Some(to_ewkb(&point2(0.0, 0.0)))];
    let angle = vec![Some(90.0f64.to_bits())];
    let out = rotate_around_point(&col, &angle, (1.0f64.to_bits(), 0.0f64.to_bits())).unwrap();
    let (x, y) = xy_of(out[0].as_ref().unwrap());
    assert_eq!(x, 1.0);
    assert_eq!(y, -1.0);
    // The same turn written as 450 or -270 degrees reduces to the quarter.
    for a in [450.0f64, -270.0f64] {
        let out2 =
            rotate_around_point(&col, &vec![Some(a.to_bits())], (1.0f64.to_bits(), 0.0f64.to_bits()))
                .unwrap();
        let (x2, y2) = xy_of(out2[0].as_ref().unwrap());
        assert_eq!((x2, y2), (1.0, -1.0));
    }
    // A half turn about the origin negates both ordinates exactly.
    let col3 = vec![Some(to_ewkb(&point2(3.0, -2.0)))];
    let out3 =
        rotate_around_point(&col3, &vec![Some(180.0f64.to_bits())], (0u64, 0u64)).unwrap();
    let (x3, y3) = xy_of(out3[0].as_ref().unwrap());
    assert_eq!((x3, y3), (-3.0, 2.0));
}

#[test]
fn affine_pivot_stays_fixed() {
    // A point standing at the pivot is left at the pivot, within rounding.
    let col = vec![Some(to_ewkb(&point2(1.0, 0.0)))];
    let angle = vec![Some(37.5f64.to_bits())];
    let out = rotate_around_point(&col, &angle, (1.0f64.to_bits(), 0.0f64.to_bits())).unwrap();
    let (x, y) = xy_of(out[0].as_ref().unwrap());
    assert!((x - 1.0).abs() < 1e-9 && y.abs() < 1e-9);

    let col2 = vec![Some(to_ewkb(&point2(2.0, 3.0)))];
    let factors = vec![Some((4.0f64.to_bits(), 5.0f64.to_bits(), 6.0f64.to_bits()))];
    let out2 = scale_from_point(
        &col2,
        &factors,
        (2.0f64.to_bits(), 3.0f64.to_bits(), 0.0f64.to_bits()),
    )
    .unwrap();
    let (x2, y2) = xy_of(out2[0].as_ref().unwrap());
    assert!((x2 - 2.0).abs() < 1e-9 && (y2 - 3.0).abs() < 1e-9);

    let out3 = skew_from_point(
        &col2,
        &vec![Some((15.0f64.to_bits(), 10.0f64.to_bits(), 5.0f64.to_bits()))],
        (2.0f64.to_bits(), 3.0f64.to_bits(), 0.0f64.to_bits()),
    )
    .unwrap();
    let (x3, y3) = xy_of(out3[0].as_ref().unwrap());
    assert!((x3 - 2.0).abs() < 1e-9 && (y3 - 3.0).abs() < 1e-9);
}

#[test]
fn translate_and_back_is_exact() {
    let g = Geometry {
        srid: 4326,
        node: Node {
            has_z: true,
            has_m: false,
            kind: Kind::LineString(vec![c3(1.5, 2.25, -3.0), c3(-0.5, 8.0, 0.125)]),
        },
    };
    let col = vec![Some(to_ewkb(&g))];
    let d = (0.5f64.to_bits(), 0.25f64.to_bits(), 2.0f64.to_bits());
    let back_d = ((-0.5f64).to_bits(), (-0.25f64).to_bits(), (-2.0f64).to_bits());
    let moved = translate(&col, &vec![Some(d)]).unwrap();
    let back = translate(&moved, &vec![Some(back_d)]).unwrap();
    assert_eq!(back[0].as_ref().unwrap(), col[0].as_ref().unwrap());
}

#[test]
fn translate_skips_empty_rows() {
    let empty = Geometry {
        srid: 0,
        node: Node { has_z: false, has_m: false, kind: Kind::Point(None) },
    };
    let col = vec![Some(to_ewkb(&empty)), None];
    let d = vec![Some((1.0f64.to_bits(), 1.0f64.to_bits(), 0u64))];
    let out = translate(&col, &d).unwrap();
    assert_eq!(out[0].as_ref().unwrap(), &to_ewkb(&empty));
    assert!(out[1].is_none());
}

#[test]
fn rotate_about_center_keeps_box_middle() {
    let g = Geometry {
        srid: 0,
        node: Node {
            has_z: false,
            has_m: false,
            kind: Kind::LineString(vec![c2(0.0, 0.0), c2(2.0, 2.0)]),
        },
    };
    let col = vec![Some(to_ewkb(&g))];
    let out = rotate_around_center(&col, &vec![Some(180.0f64.to_bits())]).unwrap();
    let turned = decode_geometry(out[0].as_ref().unwrap()).unwrap();
    match &turned.node.kind {
        Kind::LineString(cs) => {
            // A half turn about (1, 1) swaps the endpoints, within rounding.
            let x0 = f64::from_bits(cs[0].x);
            let y0 = f64::from_bits(cs[0].y);
            assert!((x0 - 2.0).abs() < 1e-12 && (y0 - 2.0).abs() < 1e-12);
        },
        other => panic!("expected a line string, got {other:?}"),
    }
}

#[test]
fn force_dimensions_and_flip() {
    let g = Geometry {
        srid: 5,
        node: Node {
            has_z: true,
            has_m: false,
            kind: Kind::LineString(vec![c3(1.0, 2.0, 3.0)]),
        },
    };
    let col = vec![Some(to_ewkb(&g))];
    let flat = force_2d(&col).unwrap();
    let fg = decode_geometry(flat[0].as_ref().unwrap()).unwrap();
    assert!(!fg.node.has_z && !fg.node.has_m);
    assert_eq!(fg.srid, 5);
    assert_eq!(fg.node.kind, Kind::LineString(vec![c2(1.0, 2.0)]));

    let raised = force_3d(&flat, &vec![Some(9.0f64.to_bits())]).unwrap();
    let rg = decode_geometry(raised[0].as_ref().unwrap()).unwrap();
    assert!(rg.node.has_z);
    assert_eq!(rg.node.kind, Kind::LineString(vec![c3(1.0, 2.0, 9.0)]));

    let flipped = flip_coordinates(&col).unwrap();
    let pg = decode_geometry(flipped[0].as_ref().unwrap()).unwrap();
    assert_eq!(pg.node.kind, Kind::LineString(vec![c3(2.0, 1.0, 3.0)]));
}

#[test]
fn reprojection_identity_returns_input_bytes() {
    // Same source and destination code: the bytes pass through untouched,
    // for an ordinary and for an empty geometry.
    let mut g = point2(10.0, 50.0);
    g.srid = 4326;
    let empty = Geometry {
        srid: 4326,
        node: Node { has_z: false, has_m: false, kind: Kind::Point(None) },
    };
    let col = vec![Some(to_ewkb(&g)), Some(to_ewkb(&empty)), None];
    let out = to_srid(&col, &vec![Some(4326i64)]).unwrap();
    assert_eq!(out[0].as_ref().unwrap(), &to_ewkb(&g));
    assert_eq!(out[1].as_ref().unwrap(), &to_ewkb(&empty));
    assert!(out[2].is_none());
}

#[test]
fn reprojection_round_trip_recovers_coordinates() {
    let mut g = point2(10.0, 50.0);
    g.srid = 4326;
    let col = vec![Some(to_ewkb(&g))];
    let projected = to_srid(&col, &vec![Some(3857i64)]).unwrap();
    let pg = decode_geometry(projected[0].as_ref().unwrap()).unwrap();
    assert_eq!(pg.srid, 3857);
    let (px, py) = match &pg.node.kind {
        Kind::Point(Some(c)) => (f64::from_bits(c.x), f64::from_bits(c.y)),
        other => panic!("expected a point, got {other:?}"),
    };
    // The engine moved the coordinates.
    assert!((px - 10.0).abs() > 1.0 && (py - 50.0).abs() > 1.0);
    let back = to_srid(&projected, &vec![Some(4326i64)]).unwrap();
    let bg = decode_geometry(back[0].as_ref().unwrap()).unwrap();
    assert_eq!(bg.srid, 4326);
    match &bg.node.kind {
        Kind::Point(Some(c)) => {
            assert!((f64::from_bits(c.x) - 10.0).abs() < 1e-6);
            assert!((f64::from_bits(c.y) - 50.0).abs() < 1e-6);
        },
        other => panic!("expected a point, got {other:?}"),
    }
}

#[test]
fn reprojection_reports_the_unresolvable_code() {
    // An unknown source is reported even when the destination is unknown
    // too: the source resolves first.
    let mut g = point2(10.0, 50.0);
    g.srid = 1;
    let col = vec![Some(to_ewkb(&g))];
    assert_eq!(
        to_srid(&col, &vec![Some(99_999_999i64)]),
        Err(Error::UnknownReferenceSystem(1))
    );
}

#[test]
fn reprojection_rejects_unknown_codes() {
    let mut g = point2(10.0, 50.0);
    g.srid = 4326;
    let col = vec![Some(to_ewkb(&g))];
    assert_eq!(
        to_srid(&col, &vec![Some(99_999_999i64)]),
        Err(Error::UnknownReferenceSystem(99_999_999))
    );
    let mut g2 = point2(10.0, 50.0);
    g2.srid = 1; // No projection is defined for this code.
    let col2 = vec![Some(to_ewkb(&g2))];
    assert_eq!(to_srid(&col2, &vec![Some(3857i64)]), Err(Error::UnknownReferenceSystem(1)));
}

#[test]
fn skew_moves_points_off_the_pivot() {
    // Shearing x by a quarter-turn-half angle moves (0, 1) to about
    // (1, 1): the tangent of that angle is one.
    let col = vec![Some(to_ewkb(&point2(0.0, 1.0)))];
    let out = skew_from_point(
        &col,
        &vec![Some((45.0f64.to_bits(), 0.0f64.to_bits(), 0.0f64.to_bits()))],
        (0.0f64.to_bits(), 0.0f64.to_bits(), 0.0f64.to_bits()),
    )
    .unwrap();
    let (x, y) = xy_of(out[0].as_ref().unwrap());
    assert!((x - 1.0).abs() < 1e-12, "x was {x}");
    assert!((y - 1.0).abs() < 1e-12, "y was {y}");
}
