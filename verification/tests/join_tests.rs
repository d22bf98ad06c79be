//! Tests of the spatial-join engine: candidate pruning, ordering, null
//! handling, and the outcome filter.

use geocore::codec::to_ewkb;
use geocore::error::Error;
use geocore::geometry::{Coord, Geometry, Kind, Node};
use geocore::join::{filter_pairs, sjoin};

fn c2(x: f64, y: f64) -> Coord {
    Coord { x: x.to_bits(), y: y.to_bits(), z: f64::NAN.to_bits(), m: f64::NAN.to_bits() }
}

fn point(x: f64, y: f64) -> Vec<u8> {
    to_ewkb(&Geometry {
        srid: 0,
        node: Node { has_z: false, has_m: false, kind: Kind::Point(Some(c2(x, y))) },
    })
}

fn square(x0: f64, y0: f64, x1: f64, y1: f64) -> Vec<u8> {
    let ring = vec![c2(x0, y0), c2(x1, y0), c2(x1, y1), c2(x0, y1), c2(x0, y0)];
    to_ewkb(&Geometry {
        srid: 0,
        node: Node { has_z: false, has_m: false, kind: Kind::Polygon(vec![ring]) },
    })
}

#[test]
fn join_emits_only_overlapping_boxes() {
    // One polygon on the left; one point inside it, one far outside.
    let left = vec![Some(square(0.0, 0.0, 4.0, 4.0))];
    let right = vec![Some(point(1.0, 1.0)), Some(point(100.0, 100.0))];
    let (li, ri) = sjoin(&left, &right).unwrap();
    assert_eq!(li, vec![0]);
    assert_eq!(ri, vec![0]);
}

#[test]
fn join_is_complete_for_box_overlap() {
    // Two overlapping squares on the left, three points on the right: the
    // pairs are the full cross product restricted to box overlap, right
    // row ascending, left row ascending within a right row.
    let left = vec![
        Some(square(0.0, 0.0, 2.0, 2.0)),
        Some(square(1.0, 1.0, 3.0, 3.0)),
        None,
    ];
    let right = vec![
        Some(point(1.5, 1.5)),  // inside both boxes
        None,                   // null: never paired
        Some(point(2.5, 2.5)),  // inside the second box only
        Some(point(9.0, 9.0)),  // outside both
    ];
    let (li, ri) = sjoin(&left, &right).unwrap();
    assert_eq!(li, vec![0, 1, 1]);
    assert_eq!(ri, vec![0, 0, 2]);
}

#[test]
fn join_counts_touching_boxes() {
    // Boxes that only touch still count as overlapping.
    let left = vec![Some(square(0.0, 0.0, 1.0, 1.0))];
    let right = vec![Some(point(1.0, 1.0))];
    let (li, ri) = sjoin(&left, &right).unwrap();
    assert_eq!((li, ri), (vec![0], vec![0]));
}

#[test]
fn join_ignores_empty_geometries() {
    let empty = to_ewkb(&Geometry {
        srid: 0,
        node: Node { has_z: false, has_m: false, kind: Kind::Point(None) },
    });
    let left = vec![Some(square(0.0, 0.0, 4.0, 4.0)), Some(empty.clone())];
    let right = vec![Some(point(1.0, 1.0)), Some(empty)];
    let (li, ri) = sjoin(&left, &right).unwrap();
    assert_eq!((li, ri), (vec![0], vec![0]));
}

#[test]
fn join_aborts_on_malformed_cells() {
    let left = vec![Some(vec![9u8, 9, 9])];
    let right = vec![Some(point(0.0, 0.0))];
    assert_eq!(sjoin(&left, &right), Err(Error::MalformedEncoding));
    let left2 = vec![Some(square(0.0, 0.0, 1.0, 1.0))];
    let right2 = vec![Some(vec![])];
    assert_eq!(sjoin(&left2, &right2), Err(Error::MalformedEncoding));
}

#[test]
fn filter_keeps_true_outcomes_in_order() {
    let li = vec![0u32, 1, 1, 2];
    let ri = vec![0u32, 0, 2, 2];
    let keep = vec![true, false, true, false];
    let (lo, ro) = filter_pairs(&li, &ri, &keep);
    assert_eq!(lo, vec![0, 1]);
    assert_eq!(ro, vec![0, 2]);
}

#[test]
fn candidates_then_outcomes_give_exact_pairs() {
    // A polygon on the left; a point inside it and a point outside it but
    // within its box. The box phase emits both candidates; the outcomes of
    // an exact containment evaluation keep only the inner one.
    let triangle = {
        let ring = vec![c2(0.0, 0.0), c2(4.0, 0.0), c2(0.0, 4.0), c2(0.0, 0.0)];
        to_ewkb(&Geometry {
            srid: 0,
            node: Node { has_z: false, has_m: false, kind: Kind::Polygon(vec![ring]) },
        })
    };
    let inside = point(1.0, 1.0);
    let corner = point(3.9, 3.9); // in the box, outside the triangle
    let left = vec![Some(triangle)];
    let right = vec![Some(inside), Some(corner)];
    let (li, ri) = sjoin(&left, &right).unwrap();
    assert_eq!((li.clone(), ri.clone()), (vec![0, 0], vec![0, 1]));
    let outcomes = vec![true, false];
    let (lo, ro) = filter_pairs(&li, &ri, &outcomes);
    assert_eq!((lo, ro), (vec![0], vec![0]));
}
