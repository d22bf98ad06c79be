//! The column-level entry points: every operation maps over one or two
//! columns of optionally-null binary geometry cells.
//!
//! Null propagation is uniform: a null input row gives a null output row
//! and the underlying operation is not invoked. A length-one operand
//! broadcasts against a longer column. The first failing row aborts the
//! whole call: an `Err` carries no partial output.

use vstd::prelude::*;
use crate::affine::{
    affine_transform, apply_node, make_rotation, make_scale, make_skew, make_translation,
    rotation_matrix_deg, scale_matrix, skew_matrix_deg, translation_matrix, AffineMatrix,
};
use crate::bbox::{node_bbox, node_bbox_exec, BoundingBox};
use crate::bits::NAN_BITS;
use crate::cast::{cast_geometry, spec_cast};
use crate::codec::{
    cell_geom, decode_geometry, encode_geometry, get_coordinate_dimension_of, get_srid_of,
    get_type_id_of, parse_geometry, read_header, set_srid_of, spec_encode_geometry, spec_header,
    to_ewkb, type_code, ByteOrder, Header,
};
use crate::error::Error;
use crate::fp::{midpoint, midpoint_bits};
use crate::geometry::{
    geometry_wf, node_empty, node_is_empty, node_type, tag_of, GeomType, Geometry, GeometryV,
};
use crate::geometry::Coord;
use crate::ops::{
    coords_of_node, flip_node, flip_node_exec, force2_node, force3_node, force_2d_node,
    force_3d_node, node_coordinates,
};

verus! {

/// The operand cell row `i` sees: a length-one column broadcasts.
pub open spec fn bcast<T>(s: Seq<Option<T>>, i: int) -> Option<T> {
    if s.len() == 1 {
        s[0]
    } else {
        s[i]
    }
}

/// Compatible operand lengths: equal, or either is one.
pub open spec fn bcast_ok<A, B>(a: Seq<Option<A>>, b: Seq<Option<B>>) -> bool {
    a.len() == b.len() || a.len() == 1 || b.len() == 1
}

/// Rows of the broadcast result; an empty operand gives an empty result.
pub open spec fn bcast_len<A, B>(a: Seq<Option<A>>, b: Seq<Option<B>>) -> int {
    if a.len() == 0 || b.len() == 0 {
        0
    } else if a.len() >= b.len() {
        a.len() as int
    } else {
        b.len() as int
    }
}

/// What one row of a re-encoding guarantees: nulls pass, and a cell is
/// decoded, capped to the requested arity, and written back in the
/// requested form.
pub open spec fn row_recode(
    cin: Option<Vec<u8>>,
    cout: Option<Vec<u8>>,
    o: ByteOrder,
    include_srid: bool,
    dims: u32,
) -> bool {
    match cin {
        Option::None => cout is None,
        Option::Some(c) => {
            &&& cell_geom(c@) is Some
            &&& cout matches Some(oc) && oc@ == spec_encode_geometry(
                GeometryV {
                    srid: cell_geom(c@)->Some_0.srid,
                    node: crate::ops::capped_node(cell_geom(c@)->Some_0.node, dims),
                },
                o,
                include_srid,
            )
        },
    }
}

/// Re-encodes every cell in the requested byte order, with or without its
/// spatial reference id, capped to the requested output arity: two drops
/// z and m, three keeps one extra dimension with z preferred, four keeps
/// everything.
pub fn to_wkb(
    wkb: &Vec<Option<Vec<u8>>>,
    order: ByteOrder,
    include_srid: bool,
    output_dimension: u32,
) -> (r: Result<Vec<Option<Vec<u8>>>, Error>)
    requires
        2 <= output_dimension <= 4,
    ensures
        match r {
            Ok(out) => out@.len() == wkb@.len() && forall|i: int| 0 <= i < wkb@.len()
                ==> row_recode(#[trigger] wkb@[i], out@[i], order, include_srid, output_dimension),
            Err(e) => e == Error::MalformedEncoding && exists|i: int|
                0 <= i < wkb@.len() && ((#[trigger] wkb@[i]) matches Some(c) && cell_geom(c@)
                    is None),
        },
{
    let n = wkb.len();
    let mut out: Vec<Option<Vec<u8>>> = Vec::new();
    let mut i: usize = 0;
    while i < n
        invariant
            2 <= output_dimension <= 4,
            0 <= i <= n,
            n == wkb@.len(),
            out@.len() == i,
            forall|j: int| 0 <= j < i ==> row_recode(
                #[trigger] wkb@[j],
                out@[j],
                order,
                include_srid,
                output_dimension,
            ),
        decreases n - i,
    {
        match &wkb[i] {
            None => {
                out.push(None);
            },
            Some(cell) => {
                match decode_geometry(cell) {
                    Err(_) => {
                        return Err(Error::MalformedEncoding);
                    },
                    Ok(g) => {
                        let capped = Geometry {
                            srid: g.srid,
                            node: crate::ops::cap_node(&g.node, output_dimension),
                        };
                        out.push(Some(encode_geometry(&capped, order, include_srid)));
                    },
                }
            },
        }
        i = i + 1;
    }
    Ok(out)
}

/// Normalizes every cell to the interchange form: little-endian, spatial
/// reference id kept, every dimension kept.
pub fn from_wkb(wkb: &Vec<Option<Vec<u8>>>) -> (r: Result<Vec<Option<Vec<u8>>>, Error>)
    ensures
        match r {
            Ok(out) => out@.len() == wkb@.len() && forall|i: int| 0 <= i < wkb@.len()
                ==> row_recode(#[trigger] wkb@[i], out@[i], ByteOrder::Little, true, 4),
            Err(e) => e == Error::MalformedEncoding && exists|i: int|
                0 <= i < wkb@.len() && ((#[trigger] wkb@[i]) matches Some(c) && cell_geom(c@)
                    is None),
        },
{
    to_wkb(wkb, ByteOrder::Little, true, 4)
}

/// The spatial reference id of every cell, read from the header alone.
pub fn get_srid(wkb: &Vec<Option<Vec<u8>>>) -> (r: Result<Vec<Option<i32>>, Error>)
    ensures
        match r {
            Ok(out) => out@.len() == wkb@.len() && forall|i: int| 0 <= i < wkb@.len()
                ==> (match #[trigger] wkb@[i] {
                    Option::None => out@[i] is None,
                    Option::Some(c) => spec_header(c@) matches Some(h) && out@[i] == Some(h.srid),
                }),
            Err(e) => e == Error::MalformedEncoding && exists|i: int|
                0 <= i < wkb@.len() && ((#[trigger] wkb@[i]) matches Some(c) && spec_header(c@)
                    is None),
        },
{
    let n = wkb.len();
    let mut out: Vec<Option<i32>> = Vec::new();
    let mut i: usize = 0;
    while i < n
        invariant
            0 <= i <= n,
            n == wkb@.len(),
            out@.len() == i,
            forall|j: int| 0 <= j < i ==> (match #[trigger] wkb@[j] {
                Option::None => out@[j] is None,
                Option::Some(c) => spec_header(c@) matches Some(h) && out@[j] == Some(h.srid),
            }),
        decreases n - i,
    {
        match &wkb[i] {
            None => {
                out.push(None);
            },
            Some(cell) => match get_srid_of(cell) {
                Err(e) => {
                    return Err(e);
                },
                Ok(srid) => {
                    out.push(Some(srid));
                },
            },
        }
        i = i + 1;
    }
    Ok(out)
}

/// What one row of `set_srid` guarantees: the payload bytes stand, the
/// header carries the new id, and a decodable cell decodes to the same
/// node under the new id.
pub open spec fn row_set_srid(cin: Option<Vec<u8>>, srid: Option<i32>, cout: Option<Vec<u8>>) -> bool {
    match (cin, srid) {
        (Option::Some(c), Option::Some(s)) => {
            &&& spec_header(c@) is Some
            &&& cout matches Some(oc) && (match parse_geometry(c@) {
                Option::Some(t) => t.1 == c@.len() ==> parse_geometry(oc@) == Some(
                    (GeometryV { srid: s, node: t.0.node }, oc@.len() as int),
                ),
                Option::None => true,
            })
        },
        _ => cout is None,
    }
}

/// Rewrites the spatial reference id of every cell in the header bits,
/// without decoding payloads. Null in either operand gives null.
pub fn set_srid(wkb: &Vec<Option<Vec<u8>>>, srid: &Vec<Option<i32>>) -> (r: Result<
    Vec<Option<Vec<u8>>>,
    Error,
>)
    requires
        bcast_ok(wkb@, srid@),
    ensures
        match r {
            Ok(out) => out@.len() == bcast_len(wkb@, srid@) && forall|i: int|
                0 <= i < out@.len() ==> row_set_srid(
                    bcast(wkb@, i),
                    #[trigger] bcast(srid@, i),
                    out@[i],
                ),
            Err(e) => e == Error::MalformedEncoding && exists|i: int|
                0 <= i < bcast_len(wkb@, srid@) && ((#[trigger] bcast(wkb@, i)) matches Some(
                    c,
                ) && (bcast(srid@, i) is Some && spec_header(c@) is None)),
        },
{
    let nw = wkb.len();
    let ns = srid.len();
    if nw == 0 || ns == 0 {
        let out: Vec<Option<Vec<u8>>> = Vec::new();
        return Ok(out);
    }
    let n: usize = if nw >= ns {
        nw
    } else {
        ns
    };
    let mut out: Vec<Option<Vec<u8>>> = Vec::new();
    let mut i: usize = 0;
    while i < n
        invariant
            0 <= i <= n,
            nw == wkb@.len(),
            ns == srid@.len(),
            n == bcast_len(wkb@, srid@),
            nw == n || nw == 1,
            ns == n || ns == 1,
            out@.len() == i,
            forall|j: int| 0 <= j < i ==> row_set_srid(
                bcast(wkb@, j),
                #[trigger] bcast(srid@, j),
                out@[j],
            ),
        decreases n - i,
    {
        let wi: usize = if nw == 1 {
            0
        } else {
            i
        };
        let si: usize = if ns == 1 {
            0
        } else {
            i
        };
        match (&wkb[wi], &srid[si]) {
            (Some(cell), Some(s)) => match set_srid_of(cell, *s) {
                Err(e) => {
                    proof {
                        assert((#[trigger] bcast(wkb@, i as int)) == wkb@[wi as int]);
                        assert(bcast(srid@, i as int) is Some);
                    }
                    return Err(e);
                },
                Ok(oc) => {
                    out.push(Some(oc));
                },
            },
            _ => {
                out.push(None);
            },
        }
        i = i + 1;
    }
    Ok(out)
}

/// The shape code of every cell, read from the header alone.
pub fn get_type_id(wkb: &Vec<Option<Vec<u8>>>) -> (r: Result<Vec<Option<u32>>, Error>)
    ensures
        match r {
            Ok(out) => out@.len() == wkb@.len() && forall|i: int| 0 <= i < wkb@.len()
                ==> (match #[trigger] wkb@[i] {
                    Option::None => out@[i] is None,
                    Option::Some(c) => spec_header(c@) matches Some(h) && out@[i] == Some(
                        type_code(h.base_type),
                    ),
                }),
            Err(e) => e == Error::MalformedEncoding && exists|i: int|
                0 <= i < wkb@.len() && ((#[trigger] wkb@[i]) matches Some(c) && spec_header(c@)
                    is None),
        },
{
    let n = wkb.len();
    let mut out: Vec<Option<u32>> = Vec::new();
    let mut i: usize = 0;
    while i < n
        invariant
            0 <= i <= n,
            n == wkb@.len(),
            out@.len() == i,
            forall|j: int| 0 <= j < i ==> (match #[trigger] wkb@[j] {
                Option::None => out@[j] is None,
                Option::Some(c) => spec_header(c@) matches Some(h) && out@[j] == Some(
                    type_code(h.base_type),
                ),
            }),
        decreases n - i,
    {
        match &wkb[i] {
            None => {
                out.push(None);
            },
            Some(cell) => match get_type_id_of(cell) {
                Err(e) => {
                    return Err(e);
                },
                Ok(c) => {
                    out.push(Some(c));
                },
            },
        }
        i = i + 1;
    }
    Ok(out)
}

/// The coordinate arity every cell announces: 2, 3 or 4.
pub fn get_coordinate_dimension(wkb: &Vec<Option<Vec<u8>>>) -> (r: Result<Vec<Option<u32>>, Error>)
    ensures
        match r {
            Ok(out) => out@.len() == wkb@.len() && forall|i: int| 0 <= i < wkb@.len()
                ==> (match #[trigger] wkb@[i] {
                    Option::None => out@[i] is None,
                    Option::Some(c) => spec_header(c@) matches Some(h) && out@[i] == Some(
                        (2 + (if h.has_z {
                            1int
                        } else {
                            0int
                        }) + (if h.has_m {
                            1int
                        } else {
                            0int
                        })) as u32,
                    ),
                }),
            Err(e) => e == Error::MalformedEncoding && exists|i: int|
                0 <= i < wkb@.len() && ((#[trigger] wkb@[i]) matches Some(c) && spec_header(c@)
                    is None),
        },
{
    let n = wkb.len();
    let mut out: Vec<Option<u32>> = Vec::new();
    let mut i: usize = 0;
    while i < n
        invariant
            0 <= i <= n,
            n == wkb@.len(),
            out@.len() == i,
            forall|j: int| 0 <= j < i ==> (match #[trigger] wkb@[j] {
                Option::None => out@[j] is None,
                Option::Some(c) => spec_header(c@) matches Some(h) && out@[j] == Some(
                    (2 + (if h.has_z {
                        1int
                    } else {
                        0int
                    }) + (if h.has_m {
                        1int
                    } else {
                        0int
                    })) as u32,
                ),
            }),
        decreases n - i,
    {
        match &wkb[i] {
            None => {
                out.push(None);
            },
            Some(cell) => match get_coordinate_dimension_of(cell) {
                Err(e) => {
                    return Err(e);
                },
                Ok(d) => {
                    out.push(Some(d));
                },
            },
        }
        i = i + 1;
    }
    Ok(out)
}

/// Whether every cell carries a third dimension, from the header.
pub fn has_z(wkb: &Vec<Option<Vec<u8>>>) -> (r: Result<Vec<Option<bool>>, Error>)
    ensures
        match r {
            Ok(out) => out@.len() == wkb@.len() && forall|i: int| 0 <= i < wkb@.len()
                ==> (match #[trigger] wkb@[i] {
                    Option::None => out@[i] is None,
                    Option::Some(c) => spec_header(c@) matches Some(h) && out@[i] == Some(h.has_z),
                }),
            Err(e) => e == Error::MalformedEncoding && exists|i: int|
                0 <= i < wkb@.len() && ((#[trigger] wkb@[i]) matches Some(c) && spec_header(c@)
                    is None),
        },
{
    let n = wkb.len();
    let mut out: Vec<Option<bool>> = Vec::new();
    let mut i: usize = 0;
    while i < n
        invariant
            0 <= i <= n,
            n == wkb@.len(),
            out@.len() == i,
            forall|j: int| 0 <= j < i ==> (match #[trigger] wkb@[j] {
                Option::None => out@[j] is None,
                Option::Some(c) => spec_header(c@) matches Some(h) && out@[j] == Some(h.has_z),
            }),
        decreases n - i,
    {
        match &wkb[i] {
            None => {
                out.push(None);
            },
            Some(cell) => match read_header(cell) {
                Err(e) => {
                    return Err(e);
                },
                Ok(h) => {
                    out.push(Some(h.has_z));
                },
            },
        }
        i = i + 1;
    }
    Ok(out)
}

/// Whether every cell carries a measure, from the header.
pub fn has_m(wkb: &Vec<Option<Vec<u8>>>) -> (r: Result<Vec<Option<bool>>, Error>)
    ensures
        match r {
            Ok(out) => out@.len() == wkb@.len() && forall|i: int| 0 <= i < wkb@.len()
                ==> (match #[trigger] wkb@[i] {
                    Option::None => out@[i] is None,
                    Option::Some(c) => spec_header(c@) matches Some(h) && out@[i] == Some(h.has_m),
                }),
            Err(e) => e == Error::MalformedEncoding && exists|i: int|
                0 <= i < wkb@.len() && ((#[trigger] wkb@[i]) matches Some(c) && spec_header(c@)
                    is None),
        },
{
    let n = wkb.len();
    let mut out: Vec<Option<bool>> = Vec::new();
    let mut i: usize = 0;
    while i < n
        invariant
            0 <= i <= n,
            n == wkb@.len(),
            out@.len() == i,
            forall|j: int| 0 <= j < i ==> (match #[trigger] wkb@[j] {
                Option::None => out@[j] is None,
                Option::Some(c) => spec_header(c@) matches Some(h) && out@[j] == Some(h.has_m),
            }),
        decreases n - i,
    {
        match &wkb[i] {
            None => {
                out.push(None);
            },
            Some(cell) => match read_header(cell) {
                Err(e) => {
                    return Err(e);
                },
                Ok(h) => {
                    out.push(Some(h.has_m));
                },
            },
        }
        i = i + 1;
    }
    Ok(out)
}

/// The interchange encoding of a geometry.
pub open spec fn enc(g: GeometryV) -> Seq<u8> {
    spec_encode_geometry(g, ByteOrder::Little, true)
}

/// A geometry with the matrix applied, unless it is empty: an empty
/// geometry is never transformed.
pub open spec fn applied_geom(g: GeometryV, mx: AffineMatrix) -> GeometryV {
    if node_empty(g.node) {
        g
    } else {
        GeometryV { srid: g.srid, node: apply_node(mx, g.node) }
    }
}

/// Applies `mx` to a decoded cell, skipping empties, and re-encodes.
fn transform_cell(cell: &Vec<u8>, mx: &AffineMatrix) -> (r: Result<Vec<u8>, Error>)
    ensures
        match r {
            Ok(out) => cell_geom(cell@) matches Some(g) && out@ == enc(applied_geom(g, *mx)),
            Err(e) => e == Error::MalformedEncoding && cell_geom(cell@) is None,
        },
{
    let g = match decode_geometry(cell) {
        Err(_) => {
            return Err(Error::MalformedEncoding);
        },
        Ok(g) => g,
    };
    if node_is_empty(&g.node) {
        Ok(to_ewkb(&g))
    } else {
        let g2 = affine_transform(&g, mx);
        Ok(to_ewkb(&g2))
    }
}

/// What one row of a matrix transform guarantees.
pub open spec fn row_transformed(
    cin: Option<Vec<u8>>,
    cout: Option<Vec<u8>>,
    mx: AffineMatrix,
) -> bool {
    match cin {
        Option::None => cout is None,
        Option::Some(c) => {
            &&& cell_geom(c@) is Some
            &&& cout matches Some(oc) && oc@ == enc(applied_geom(cell_geom(c@)->Some_0, mx))
        },
    }
}

/// Translates every geometry by a per-row offset; empty rows are skipped.
pub fn translate(wkb: &Vec<Option<Vec<u8>>>, factors: &Vec<Option<(u64, u64, u64)>>) -> (r: Result<
    Vec<Option<Vec<u8>>>,
    Error,
>)
    requires
        bcast_ok(wkb@, factors@),
    ensures
        match r {
            Ok(out) => out@.len() == bcast_len(wkb@, factors@) && forall|i: int|
                0 <= i < out@.len() ==> (match (bcast(wkb@, i), #[trigger] bcast(factors@, i)) {
                    (Option::Some(_), Option::Some(f)) => row_transformed(
                        bcast(wkb@, i),
                        out@[i],
                        translation_matrix(f.0, f.1, f.2),
                    ),
                    _ => out@[i] is None,
                }),
            Err(e) => e == Error::MalformedEncoding && exists|i: int|
                0 <= i < bcast_len(wkb@, factors@) && ((#[trigger] bcast(wkb@, i)) matches Some(
                    c,
                ) && (bcast(factors@, i) is Some && cell_geom(c@) is None)),
        },
{
    let nw = wkb.len();
    let nf = factors.len();
    if nw == 0 || nf == 0 {
        let out: Vec<Option<Vec<u8>>> = Vec::new();
        return Ok(out);
    }
    let n: usize = if nw >= nf {
        nw
    } else {
        nf
    };
    let mut out: Vec<Option<Vec<u8>>> = Vec::new();
    let mut i: usize = 0;
    while i < n
        invariant
            0 <= i <= n,
            nw == wkb@.len(),
            nf == factors@.len(),
            n == bcast_len(wkb@, factors@),
            nw == n || nw == 1,
            nf == n || nf == 1,
            out@.len() == i,
            forall|j: int| 0 <= j < i ==> (match (bcast(wkb@, j), #[trigger] bcast(factors@, j)) {
                (Option::Some(_), Option::Some(f)) => row_transformed(
                    bcast(wkb@, j),
                    out@[j],
                    translation_matrix(f.0, f.1, f.2),
                ),
                _ => out@[j] is None,
            }),
        decreases n - i,
    {
        let wi: usize = if nw == 1 {
            0
        } else {
            i
        };
        let fi: usize = if nf == 1 {
            0
        } else {
            i
        };
        match (&wkb[wi], &factors[fi]) {
            (Some(cell), Some(f)) => {
                let mx = make_translation(f.0, f.1, f.2);
                match transform_cell(cell, &mx) {
                    Err(e) => {
                proof {
                    assert((#[trigger] bcast(wkb@, i as int)) == wkb@[wi as int]);
                    assert(bcast(factors@, i as int) is Some);
                }
                        return Err(e);
                    },
                    Ok(oc) => {
                        out.push(Some(oc));
                    },
                }
            },
            _ => {
                out.push(None);
            },
        }
        i = i + 1;
    }
    Ok(out)
}

/// Rotates every geometry about a caller-supplied pivot by a per-row angle
/// in degrees; empty rows are skipped.
pub fn rotate_around_point(
    wkb: &Vec<Option<Vec<u8>>>,
    angle: &Vec<Option<u64>>,
    origin: (u64, u64),
) -> (r: Result<Vec<Option<Vec<u8>>>, Error>)
    requires
        bcast_ok(wkb@, angle@),
    ensures
        match r {
            Ok(out) => out@.len() == bcast_len(wkb@, angle@) && forall|i: int|
                0 <= i < out@.len() ==> (match (bcast(wkb@, i), #[trigger] bcast(angle@, i)) {
                    (Option::Some(_), Option::Some(a)) => row_transformed(
                        bcast(wkb@, i),
                        out@[i],
                        rotation_matrix_deg(a, origin.0, origin.1),
                    ),
                    _ => out@[i] is None,
                }),
            Err(e) => e == Error::MalformedEncoding && exists|i: int|
                0 <= i < bcast_len(wkb@, angle@) && ((#[trigger] bcast(wkb@, i)) matches Some(
                    c,
                ) && (bcast(angle@, i) is Some && cell_geom(c@) is None)),
        },
{
    let nw = wkb.len();
    let na = angle.len();
    if nw == 0 || na == 0 {
        let out: Vec<Option<Vec<u8>>> = Vec::new();
        return Ok(out);
    }
    let n: usize = if nw >= na {
        nw
    } else {
        na
    };
    let mut out: Vec<Option<Vec<u8>>> = Vec::new();
    let mut i: usize = 0;
    while i < n
        invariant
            0 <= i <= n,
            nw == wkb@.len(),
            na == angle@.len(),
            n == bcast_len(wkb@, angle@),
            nw == n || nw == 1,
            na == n || na == 1,
            out@.len() == i,
            forall|j: int| 0 <= j < i ==> (match (bcast(wkb@, j), #[trigger] bcast(angle@, j)) {
                (Option::Some(_), Option::Some(a)) => row_transformed(
                    bcast(wkb@, j),
                    out@[j],
                    rotation_matrix_deg(a, origin.0, origin.1),
                ),
                _ => out@[j] is None,
            }),
        decreases n - i,
    {
        let wi: usize = if nw == 1 {
            0
        } else {
            i
        };
        let ai: usize = if na == 1 {
            0
        } else {
            i
        };
        match (&wkb[wi], &angle[ai]) {
            (Some(cell), Some(a)) => {
                let mx = make_rotation(*a, origin.0, origin.1);
                match transform_cell(cell, &mx) {
                    Err(e) => {
                proof {
                    assert((#[trigger] bcast(wkb@, i as int)) == wkb@[wi as int]);
                    assert(bcast(angle@, i as int) is Some);
                }
                        return Err(e);
                    },
                    Ok(oc) => {
                        out.push(Some(oc));
                    },
                }
            },
            _ => {
                out.push(None);
            },
        }
        i = i + 1;
    }
    Ok(out)
}

/// The pivot at the middle of a geometry's bounding box.
pub open spec fn center_pivot(g: GeometryV) -> Option<(u64, u64)> {
    match node_bbox(g.node) {
        Option::Some(b) => Option::Some(
            (midpoint_bits(b.xmin, b.xmax), midpoint_bits(b.ymin, b.ymax)),
        ),
        Option::None => Option::None,
    }
}

/// What one row of a center-pivot transform guarantees: a geometry with no
/// box (empty, or no numeric position) comes back re-encoded unchanged.
pub open spec fn row_center_transformed(
    cin: Option<Vec<u8>>,
    cout: Option<Vec<u8>>,
    mx_of: spec_fn((u64, u64)) -> AffineMatrix,
) -> bool {
    match cin {
        Option::None => cout is None,
        Option::Some(c) => {
            &&& cell_geom(c@) is Some
            &&& (match center_pivot(cell_geom(c@)->Some_0) {
                Option::Some(p) => cout matches Some(oc) && oc@ == enc(
                    applied_geom(cell_geom(c@)->Some_0, mx_of(p)),
                ),
                Option::None => cout matches Some(oc) && oc@ == enc(cell_geom(c@)->Some_0),
            })
        },
    }
}

/// Rotates every geometry about its bounding-box center.
pub fn rotate_around_center(wkb: &Vec<Option<Vec<u8>>>, angle: &Vec<Option<u64>>) -> (r: Result<
    Vec<Option<Vec<u8>>>,
    Error,
>)
    requires
        bcast_ok(wkb@, angle@),
    ensures
        match r {
            Ok(out) => out@.len() == bcast_len(wkb@, angle@) && forall|i: int|
                0 <= i < out@.len() ==> (match (bcast(wkb@, i), #[trigger] bcast(angle@, i)) {
                    (Option::Some(_), Option::Some(a)) => row_center_transformed(
                        bcast(wkb@, i),
                        out@[i],
                        |p: (u64, u64)| rotation_matrix_deg(a, p.0, p.1),
                    ),
                    _ => out@[i] is None,
                }),
            Err(e) => e == Error::MalformedEncoding && exists|i: int|
                0 <= i < bcast_len(wkb@, angle@) && ((#[trigger] bcast(wkb@, i)) matches Some(
                    c,
                ) && (bcast(angle@, i) is Some && cell_geom(c@) is None)),
        },
{
    let nw = wkb.len();
    let na = angle.len();
    if nw == 0 || na == 0 {
        let out: Vec<Option<Vec<u8>>> = Vec::new();
        return Ok(out);
    }
    let n: usize = if nw >= na {
        nw
    } else {
        na
    };
    let mut out: Vec<Option<Vec<u8>>> = Vec::new();
    let mut i: usize = 0;
    while i < n
        invariant
            0 <= i <= n,
            nw == wkb@.len(),
            na == angle@.len(),
            n == bcast_len(wkb@, angle@),
            nw == n || nw == 1,
            na == n || na == 1,
            out@.len() == i,
            forall|j: int| 0 <= j < i ==> (match (bcast(wkb@, j), #[trigger] bcast(angle@, j)) {
                (Option::Some(_), Option::Some(a)) => row_center_transformed(
                    bcast(wkb@, j),
                    out@[j],
                    |p: (u64, u64)| rotation_matrix_deg(a, p.0, p.1),
                ),
                _ => out@[j] is None,
            }),
        decreases n - i,
    {
        let wi: usize = if nw == 1 {
            0
        } else {
            i
        };
        let ai: usize = if na == 1 {
            0
        } else {
            i
        };
        match (&wkb[wi], &angle[ai]) {
            (Some(cell), Some(a)) => {
                let g = match decode_geometry(cell) {
                    Err(_) => {
                proof {
                    assert((#[trigger] bcast(wkb@, i as int)) == wkb@[wi as int]);
                    assert(bcast(angle@, i as int) is Some);
                }
                        return Err(Error::MalformedEncoding);
                    },
                    Ok(g) => g,
                };
                match node_bbox_exec(&g.node) {
                    Some(b) => {
                        let px = midpoint(b.xmin, b.xmax);
                        let py = midpoint(b.ymin, b.ymax);
                        let mx = make_rotation(*a, px, py);
                        if node_is_empty(&g.node) {
                            out.push(Some(to_ewkb(&g)));
                        } else {
                            let g2 = affine_transform(&g, &mx);
                            out.push(Some(to_ewkb(&g2)));
                        }
                    },
                    None => {
                        out.push(Some(to_ewkb(&g)));
                    },
                }
            },
            _ => {
                out.push(None);
            },
        }
        i = i + 1;
    }
    Ok(out)
}

/// Scales every geometry about its bounding-box center, at height zero.
pub fn scale_from_center(
    wkb: &Vec<Option<Vec<u8>>>,
    factors: &Vec<Option<(u64, u64, u64)>>,
) -> (r: Result<Vec<Option<Vec<u8>>>, Error>)
    requires
        bcast_ok(wkb@, factors@),
    ensures
        match r {
            Ok(out) => out@.len() == bcast_len(wkb@, factors@) && forall|i: int|
                0 <= i < out@.len() ==> (match (bcast(wkb@, i), #[trigger] bcast(factors@, i)) {
                    (Option::Some(_), Option::Some(f)) => row_center_transformed(
                        bcast(wkb@, i),
                        out@[i],
                        |p: (u64, u64)| scale_matrix(f.0, f.1, f.2, p.0, p.1, 0),
                    ),
                    _ => out@[i] is None,
                }),
            Err(e) => e == Error::MalformedEncoding && exists|i: int|
                0 <= i < bcast_len(wkb@, factors@) && ((#[trigger] bcast(wkb@, i)) matches Some(
                    c,
                ) && (bcast(factors@, i) is Some && cell_geom(c@) is None)),
        },
{
    let nw = wkb.len();
    let nf = factors.len();
    if nw == 0 || nf == 0 {
        let out: Vec<Option<Vec<u8>>> = Vec::new();
        return Ok(out);
    }
    let n: usize = if nw >= nf {
        nw
    } else {
        nf
    };
    let mut out: Vec<Option<Vec<u8>>> = Vec::new();
    let mut i: usize = 0;
    while i < n
        invariant
            0 <= i <= n,
            nw == wkb@.len(),
            nf == factors@.len(),
            n == bcast_len(wkb@, factors@),
            nw == n || nw == 1,
            nf == n || nf == 1,
            out@.len() == i,
            forall|j: int| 0 <= j < i ==> (match (bcast(wkb@, j), #[trigger] bcast(factors@, j)) {
                (Option::Some(_), Option::Some(f)) => row_center_transformed(
                    bcast(wkb@, j),
                    out@[j],
                    |p: (u64, u64)| scale_matrix(f.0, f.1, f.2, p.0, p.1, 0),
                ),
                _ => out@[j] is None,
            }),
        decreases n - i,
    {
        let wi: usize = if nw == 1 {
            0
        } else {
            i
        };
        let fi: usize = if nf == 1 {
            0
        } else {
            i
        };
        match (&wkb[wi], &factors[fi]) {
            (Some(cell), Some(f)) => {
                let g = match decode_geometry(cell) {
                    Err(_) => {
                proof {
                    assert((#[trigger] bcast(wkb@, i as int)) == wkb@[wi as int]);
                    assert(bcast(factors@, i as int) is Some);
                }
                        return Err(Error::MalformedEncoding);
                    },
                    Ok(g) => g,
                };
                match node_bbox_exec(&g.node) {
                    Some(b) => {
                        let px = midpoint(b.xmin, b.xmax);
                        let py = midpoint(b.ymin, b.ymax);
                        let mx = make_scale(f.0, f.1, f.2, px, py, 0);
                        if node_is_empty(&g.node) {
                            out.push(Some(to_ewkb(&g)));
                        } else {
                            let g2 = affine_transform(&g, &mx);
                            out.push(Some(to_ewkb(&g2)));
                        }
                    },
                    None => {
                        out.push(Some(to_ewkb(&g)));
                    },
                }
            },
            _ => {
                out.push(None);
            },
        }
        i = i + 1;
    }
    Ok(out)
}

/// Shears every geometry about its bounding-box center, at height zero.
pub fn skew_from_center(
    wkb: &Vec<Option<Vec<u8>>>,
    factors: &Vec<Option<(u64, u64, u64)>>,
) -> (r: Result<Vec<Option<Vec<u8>>>, Error>)
    requires
        bcast_ok(wkb@, factors@),
    ensures
        match r {
            Ok(out) => out@.len() == bcast_len(wkb@, factors@) && forall|i: int|
                0 <= i < out@.len() ==> (match (bcast(wkb@, i), #[trigger] bcast(factors@, i)) {
                    (Option::Some(_), Option::Some(f)) => row_center_transformed(
                        bcast(wkb@, i),
                        out@[i],
                        |p: (u64, u64)| skew_matrix_deg(f.0, f.1, f.2, p.0, p.1, 0),
                    ),
                    _ => out@[i] is None,
                }),
            Err(e) => e == Error::MalformedEncoding && exists|i: int|
                0 <= i < bcast_len(wkb@, factors@) && ((#[trigger] bcast(wkb@, i)) matches Some(
                    c,
                ) && (bcast(factors@, i) is Some && cell_geom(c@) is None)),
        },
{
    let nw = wkb.len();
    let nf = factors.len();
    if nw == 0 || nf == 0 {
        let out: Vec<Option<Vec<u8>>> = Vec::new();
        return Ok(out);
    }
    let n: usize = if nw >= nf {
        nw
    } else {
        nf
    };
    let mut out: Vec<Option<Vec<u8>>> = Vec::new();
    let mut i: usize = 0;
    while i < n
        invariant
            0 <= i <= n,
            nw == wkb@.len(),
            nf == factors@.len(),
            n == bcast_len(wkb@, factors@),
            nw == n || nw == 1,
            nf == n || nf == 1,
            out@.len() == i,
            forall|j: int| 0 <= j < i ==> (match (bcast(wkb@, j), #[trigger] bcast(factors@, j)) {
                (Option::Some(_), Option::Some(f)) => row_center_transformed(
                    bcast(wkb@, j),
                    out@[j],
                    |p: (u64, u64)| skew_matrix_deg(f.0, f.1, f.2, p.0, p.1, 0),
                ),
                _ => out@[j] is None,
            }),
        decreases n - i,
    {
        let wi: usize = if nw == 1 {
            0
        } else {
            i
        };
        let fi: usize = if nf == 1 {
            0
        } else {
            i
        };
        match (&wkb[wi], &factors[fi]) {
            (Some(cell), Some(f)) => {
                let g = match decode_geometry(cell) {
                    Err(_) => {
                proof {
                    assert((#[trigger] bcast(wkb@, i as int)) == wkb@[wi as int]);
                    assert(bcast(factors@, i as int) is Some);
                }
                        return Err(Error::MalformedEncoding);
                    },
                    Ok(g) => g,
                };
                match node_bbox_exec(&g.node) {
                    Some(b) => {
                        let px = midpoint(b.xmin, b.xmax);
                        let py = midpoint(b.ymin, b.ymax);
                        let mx = make_skew(f.0, f.1, f.2, px, py, 0);
                        if node_is_empty(&g.node) {
                            out.push(Some(to_ewkb(&g)));
                        } else {
                            let g2 = affine_transform(&g, &mx);
                            out.push(Some(to_ewkb(&g2)));
                        }
                    },
                    None => {
                        out.push(Some(to_ewkb(&g)));
                    },
                }
            },
            _ => {
                out.push(None);
            },
        }
        i = i + 1;
    }
    Ok(out)
}

/// Scales every geometry about a caller-supplied pivot.
pub fn scale_from_point(
    wkb: &Vec<Option<Vec<u8>>>,
    factors: &Vec<Option<(u64, u64, u64)>>,
    origin: (u64, u64, u64),
) -> (r: Result<Vec<Option<Vec<u8>>>, Error>)
    requires
        bcast_ok(wkb@, factors@),
    ensures
        match r {
            Ok(out) => out@.len() == bcast_len(wkb@, factors@) && forall|i: int|
                0 <= i < out@.len() ==> (match (bcast(wkb@, i), #[trigger] bcast(factors@, i)) {
                    (Option::Some(_), Option::Some(f)) => row_transformed(
                        bcast(wkb@, i),
                        out@[i],
                        scale_matrix(f.0, f.1, f.2, origin.0, origin.1, origin.2),
                    ),
                    _ => out@[i] is None,
                }),
            Err(e) => e == Error::MalformedEncoding && exists|i: int|
                0 <= i < bcast_len(wkb@, factors@) && ((#[trigger] bcast(wkb@, i)) matches Some(
                    c,
                ) && (bcast(factors@, i) is Some && cell_geom(c@) is None)),
        },
{
    let nw = wkb.len();
    let nf = factors.len();
    if nw == 0 || nf == 0 {
        let out: Vec<Option<Vec<u8>>> = Vec::new();
        return Ok(out);
    }
    let n: usize = if nw >= nf {
        nw
    } else {
        nf
    };
    let mut out: Vec<Option<Vec<u8>>> = Vec::new();
    let mut i: usize = 0;
    while i < n
        invariant
            0 <= i <= n,
            nw == wkb@.len(),
            nf == factors@.len(),
            n == bcast_len(wkb@, factors@),
            nw == n || nw == 1,
            nf == n || nf == 1,
            out@.len() == i,
            forall|j: int| 0 <= j < i ==> (match (bcast(wkb@, j), #[trigger] bcast(factors@, j)) {
                (Option::Some(_), Option::Some(f)) => row_transformed(
                    bcast(wkb@, j),
                    out@[j],
                    scale_matrix(f.0, f.1, f.2, origin.0, origin.1, origin.2),
                ),
                _ => out@[j] is None,
            }),
        decreases n - i,
    {
        let wi: usize = if nw == 1 {
            0
        } else {
            i
        };
        let fi: usize = if nf == 1 {
            0
        } else {
            i
        };
        match (&wkb[wi], &factors[fi]) {
            (Some(cell), Some(f)) => {
                let mx = make_scale(f.0, f.1, f.2, origin.0, origin.1, origin.2);
                match transform_cell(cell, &mx) {
                    Err(e) => {
                proof {
                    assert((#[trigger] bcast(wkb@, i as int)) == wkb@[wi as int]);
                    assert(bcast(factors@, i as int) is Some);
                }
                        return Err(e);
                    },
                    Ok(oc) => {
                        out.push(Some(oc));
                    },
                }
            },
            _ => {
                out.push(None);
            },
        }
        i = i + 1;
    }
    Ok(out)
}

/// Shears every geometry by per-row angles in degrees about a pivot.
pub fn skew_from_point(
    wkb: &Vec<Option<Vec<u8>>>,
    factors: &Vec<Option<(u64, u64, u64)>>,
    origin: (u64, u64, u64),
) -> (r: Result<Vec<Option<Vec<u8>>>, Error>)
    requires
        bcast_ok(wkb@, factors@),
    ensures
        match r {
            Ok(out) => out@.len() == bcast_len(wkb@, factors@) && forall|i: int|
                0 <= i < out@.len() ==> (match (bcast(wkb@, i), #[trigger] bcast(factors@, i)) {
                    (Option::Some(_), Option::Some(f)) => row_transformed(
                        bcast(wkb@, i),
                        out@[i],
                        skew_matrix_deg(f.0, f.1, f.2, origin.0, origin.1, origin.2),
                    ),
                    _ => out@[i] is None,
                }),
            Err(e) => e == Error::MalformedEncoding && exists|i: int|
                0 <= i < bcast_len(wkb@, factors@) && ((#[trigger] bcast(wkb@, i)) matches Some(
                    c,
                ) && (bcast(factors@, i) is Some && cell_geom(c@) is None)),
        },
{
    let nw = wkb.len();
    let nf = factors.len();
    if nw == 0 || nf == 0 {
        let out: Vec<Option<Vec<u8>>> = Vec::new();
        return Ok(out);
    }
    let n: usize = if nw >= nf {
        nw
    } else {
        nf
    };
    let mut out: Vec<Option<Vec<u8>>> = Vec::new();
    let mut i: usize = 0;
    while i < n
        invariant
            0 <= i <= n,
            nw == wkb@.len(),
            nf == factors@.len(),
            n == bcast_len(wkb@, factors@),
            nw == n || nw == 1,
            nf == n || nf == 1,
            out@.len() == i,
            forall|j: int| 0 <= j < i ==> (match (bcast(wkb@, j), #[trigger] bcast(factors@, j)) {
                (Option::Some(_), Option::Some(f)) => row_transformed(
                    bcast(wkb@, j),
                    out@[j],
                    skew_matrix_deg(f.0, f.1, f.2, origin.0, origin.1, origin.2),
                ),
                _ => out@[j] is None,
            }),
        decreases n - i,
    {
        let wi: usize = if nw == 1 {
            0
        } else {
            i
        };
        let fi: usize = if nf == 1 {
            0
        } else {
            i
        };
        match (&wkb[wi], &factors[fi]) {
            (Some(cell), Some(f)) => {
                let mx = make_skew(f.0, f.1, f.2, origin.0, origin.1, origin.2);
                match transform_cell(cell, &mx) {
                    Err(e) => {
                proof {
                    assert((#[trigger] bcast(wkb@, i as int)) == wkb@[wi as int]);
                    assert(bcast(factors@, i as int) is Some);
                }
                        return Err(e);
                    },
                    Ok(oc) => {
                        out.push(Some(oc));
                    },
                }
            },
            _ => {
                out.push(None);
            },
        }
        i = i + 1;
    }
    Ok(out)
}

/// Applies a per-row planar matrix `(m11, m12, m21, m22, tx, ty)`; the
/// third dimension is left alone. Every row is transformed, empty or not.
pub fn affine_transform_2d(
    wkb: &Vec<Option<Vec<u8>>>,
    matrix: &Vec<Option<(u64, u64, u64, u64, u64, u64)>>,
) -> (r: Result<Vec<Option<Vec<u8>>>, Error>)
    requires
        bcast_ok(wkb@, matrix@),
    ensures
        match r {
            Ok(out) => out@.len() == bcast_len(wkb@, matrix@) && forall|i: int|
                0 <= i < out@.len() ==> (match (bcast(wkb@, i), #[trigger] bcast(matrix@, i)) {
                    (Option::Some(c), Option::Some(m)) => cell_geom(c@) is Some && (out@[i]
                        matches Some(oc) && oc@ == enc(
                        GeometryV {
                            srid: cell_geom(c@)->Some_0.srid,
                            node: apply_node(planar_matrix(m), cell_geom(c@)->Some_0.node),
                        },
                    )),
                    _ => out@[i] is None,
                }),
            Err(e) => e == Error::MalformedEncoding && exists|i: int|
                0 <= i < bcast_len(wkb@, matrix@) && ((#[trigger] bcast(wkb@, i)) matches Some(
                    c,
                ) && (bcast(matrix@, i) is Some && cell_geom(c@) is None)),
        },
{
    let nw = wkb.len();
    let nm = matrix.len();
    if nw == 0 || nm == 0 {
        let out: Vec<Option<Vec<u8>>> = Vec::new();
        return Ok(out);
    }
    let n: usize = if nw >= nm {
        nw
    } else {
        nm
    };
    let mut out: Vec<Option<Vec<u8>>> = Vec::new();
    let mut i: usize = 0;
    while i < n
        invariant
            0 <= i <= n,
            nw == wkb@.len(),
            nm == matrix@.len(),
            n == bcast_len(wkb@, matrix@),
            nw == n || nw == 1,
            nm == n || nm == 1,
            out@.len() == i,
            forall|j: int| 0 <= j < i ==> (match (bcast(wkb@, j), #[trigger] bcast(matrix@, j)) {
                (Option::Some(c), Option::Some(m)) => cell_geom(c@) is Some && (out@[j]
                    matches Some(oc) && oc@ == enc(
                    GeometryV {
                        srid: cell_geom(c@)->Some_0.srid,
                        node: apply_node(planar_matrix(m), cell_geom(c@)->Some_0.node),
                    },
                )),
                _ => out@[j] is None,
            }),
        decreases n - i,
    {
        let wi: usize = if nw == 1 {
            0
        } else {
            i
        };
        let mi: usize = if nm == 1 {
            0
        } else {
            i
        };
        match (&wkb[wi], &matrix[mi]) {
            (Some(cell), Some(m)) => {
                let g = match decode_geometry(cell) {
                    Err(_) => {
                proof {
                    assert((#[trigger] bcast(wkb@, i as int)) == wkb@[wi as int]);
                    assert(bcast(matrix@, i as int) is Some);
                }
                        return Err(Error::MalformedEncoding);
                    },
                    Ok(g) => g,
                };
                let mx = AffineMatrix {
                    m11: m.0,
                    m12: m.1,
                    m13: 0,
                    m21: m.2,
                    m22: m.3,
                    m23: 0,
                    m31: 0,
                    m32: 0,
                    m33: crate::fp::ONE_BITS,
                    tx: m.4,
                    ty: m.5,
                    tz: 0,
                };
                let g2 = affine_transform(&g, &mx);
                out.push(Some(to_ewkb(&g2)));
            },
            _ => {
                out.push(None);
            },
        }
        i = i + 1;
    }
    Ok(out)
}

/// The full matrix a planar six-tuple denotes.
pub open spec fn planar_matrix(m: (u64, u64, u64, u64, u64, u64)) -> AffineMatrix {
    AffineMatrix {
        m11: m.0,
        m12: m.1,
        m13: 0,
        m21: m.2,
        m22: m.3,
        m23: 0,
        m31: 0,
        m32: 0,
        m33: crate::fp::ONE_BITS,
        tx: m.4,
        ty: m.5,
        tz: 0,
    }
}

/// Applies a per-row full matrix. Every row is transformed, empty or not.
pub fn affine_transform_3d(wkb: &Vec<Option<Vec<u8>>>, matrix: &Vec<Option<AffineMatrix>>) -> (r:
    Result<Vec<Option<Vec<u8>>>, Error>)
    requires
        bcast_ok(wkb@, matrix@),
    ensures
        match r {
            Ok(out) => out@.len() == bcast_len(wkb@, matrix@) && forall|i: int|
                0 <= i < out@.len() ==> (match (bcast(wkb@, i), #[trigger] bcast(matrix@, i)) {
                    (Option::Some(c), Option::Some(m)) => cell_geom(c@) is Some && (out@[i]
                        matches Some(oc) && oc@ == enc(
                        GeometryV {
                            srid: cell_geom(c@)->Some_0.srid,
                            node: apply_node(m, cell_geom(c@)->Some_0.node),
                        },
                    )),
                    _ => out@[i] is None,
                }),
            Err(e) => e == Error::MalformedEncoding && exists|i: int|
                0 <= i < bcast_len(wkb@, matrix@) && ((#[trigger] bcast(wkb@, i)) matches Some(
                    c,
                ) && (bcast(matrix@, i) is Some && cell_geom(c@) is None)),
        },
{
    let nw = wkb.len();
    let nm = matrix.len();
    if nw == 0 || nm == 0 {
        let out: Vec<Option<Vec<u8>>> = Vec::new();
        return Ok(out);
    }
    let n: usize = if nw >= nm {
        nw
    } else {
        nm
    };
    let mut out: Vec<Option<Vec<u8>>> = Vec::new();
    let mut i: usize = 0;
    while i < n
        invariant
            0 <= i <= n,
            nw == wkb@.len(),
            nm == matrix@.len(),
            n == bcast_len(wkb@, matrix@),
            nw == n || nw == 1,
            nm == n || nm == 1,
            out@.len() == i,
            forall|j: int| 0 <= j < i ==> (match (bcast(wkb@, j), #[trigger] bcast(matrix@, j)) {
                (Option::Some(c), Option::Some(m)) => cell_geom(c@) is Some && (out@[j]
                    matches Some(oc) && oc@ == enc(
                    GeometryV {
                        srid: cell_geom(c@)->Some_0.srid,
                        node: apply_node(m, cell_geom(c@)->Some_0.node),
                    },
                )),
                _ => out@[j] is None,
            }),
        decreases n - i,
    {
        let wi: usize = if nw == 1 {
            0
        } else {
            i
        };
        let mi: usize = if nm == 1 {
            0
        } else {
            i
        };
        match (&wkb[wi], &matrix[mi]) {
            (Some(cell), Some(m)) => {
                let g = match decode_geometry(cell) {
                    Err(_) => {
                proof {
                    assert((#[trigger] bcast(wkb@, i as int)) == wkb@[wi as int]);
                    assert(bcast(matrix@, i as int) is Some);
                }
                        return Err(Error::MalformedEncoding);
                    },
                    Ok(g) => g,
                };
                let g2 = affine_transform(&g, m);
                out.push(Some(to_ewkb(&g2)));
            },
            _ => {
                out.push(None);
            },
        }
        i = i + 1;
    }
    Ok(out)
}

/// What one row of `cast` guarantees.
pub open spec fn row_cast(cin: Option<Vec<u8>>, code: Option<u32>, cout: Option<Vec<u8>>) -> bool {
    match (cin, code) {
        (Option::Some(c), Option::Some(t)) => {
            &&& cell_geom(c@) is Some
            &&& crate::codec::code_type(t) is Some
            &&& spec_cast(cell_geom(c@)->Some_0, crate::codec::code_type(t)->Some_0) matches Some(
                g2,
            )
            &&& (cout matches Some(oc) && oc@ == enc(
                spec_cast(cell_geom(c@)->Some_0, crate::codec::code_type(t)->Some_0)->Some_0,
            ))
        },
        _ => cout is None,
    }
}

/// Casts every geometry to the per-row target shape code. Fails with
/// `UnsupportedCast` on a pair the rule table leaves out, and with
/// `InvalidGeometryForOperation` on a code that names no shape.
pub fn cast(wkb: &Vec<Option<Vec<u8>>>, into: &Vec<Option<u32>>) -> (r: Result<
    Vec<Option<Vec<u8>>>,
    Error,
>)
    requires
        bcast_ok(wkb@, into@),
    ensures
        match r {
            Ok(out) => out@.len() == bcast_len(wkb@, into@) && forall|i: int|
                0 <= i < out@.len() ==> row_cast(bcast(wkb@, i), #[trigger] bcast(into@, i), out@[i]),
            Err(e) => match e {
                Error::MalformedEncoding => exists|i: int|
                    0 <= i < bcast_len(wkb@, into@) && ((#[trigger] bcast(wkb@, i)) matches Some(
                        c,
                    ) && cell_geom(c@) is None),
                Error::InvalidGeometryForOperation => exists|i: int|
                    0 <= i < bcast_len(wkb@, into@) && ((#[trigger] bcast(into@, i)) matches Some(
                        t,
                    ) && crate::codec::code_type(t) is None),
                Error::UnsupportedCast(a, b) => exists|i: int|
                    0 <= i < bcast_len(wkb@, into@) && ((#[trigger] bcast(wkb@, i)) matches Some(
                        c,
                    ) && cell_geom(c@) matches Some(g) && tag_of(g.node.kind) == a && spec_cast(
                        g,
                        b,
                    ) is None),
                _ => false,
            },
        },
{
    let nw = wkb.len();
    let nt = into.len();
    if nw == 0 || nt == 0 {
        let out: Vec<Option<Vec<u8>>> = Vec::new();
        return Ok(out);
    }
    let n: usize = if nw >= nt {
        nw
    } else {
        nt
    };
    let mut out: Vec<Option<Vec<u8>>> = Vec::new();
    let mut i: usize = 0;
    while i < n
        invariant
            0 <= i <= n,
            nw == wkb@.len(),
            nt == into@.len(),
            n == bcast_len(wkb@, into@),
            nw == n || nw == 1,
            nt == n || nt == 1,
            out@.len() == i,
            forall|j: int| 0 <= j < i ==> row_cast(bcast(wkb@, j), #[trigger] bcast(into@, j), out@[j]),
        decreases n - i,
    {
        let wi: usize = if nw == 1 {
            0
        } else {
            i
        };
        let ti: usize = if nt == 1 {
            0
        } else {
            i
        };
        match (&wkb[wi], &into[ti]) {
            (Some(cell), Some(code)) => {
                let target = match crate::codec::type_from_code(*code) {
                    Some(t) => t,
                    None => {
                        proof {
                            assert((#[trigger] bcast(into@, i as int)) matches Some(t2)
                                && crate::codec::code_type(t2) is None);
                        }
                        return Err(Error::InvalidGeometryForOperation);
                    },
                };
                let g = match decode_geometry(cell) {
                    Err(_) => {
                        proof {
                            assert((#[trigger] bcast(wkb@, i as int)) matches Some(c)
                                && cell_geom(c@) is None);
                        }
                        return Err(Error::MalformedEncoding);
                    },
                    Ok(g) => g,
                };
                match cast_geometry(&g, target) {
                    Err(e) => {
                        proof {
                            assert((#[trigger] bcast(wkb@, i as int)) matches Some(c)
                                && cell_geom(c@) matches Some(g2) && spec_cast(g2, target)
                                is None);
                        }
                        return Err(e);
                    },
                    Ok(g2) => {
                        out.push(Some(to_ewkb(&g2)));
                    },
                }
            },
            _ => {
                out.push(None);
            },
        }
        i = i + 1;
    }
    Ok(out)
}

/// The multi form of a variant, where one exists.
pub open spec fn multi_target(t: GeomType) -> Option<GeomType> {
    match t {
        GeomType::Point => Option::Some(GeomType::MultiPoint),
        GeomType::LineString => Option::Some(GeomType::MultiLineString),
        GeomType::CircularString => Option::Some(GeomType::MultiCurve),
        GeomType::Polygon => Option::Some(GeomType::MultiPolygon),
        GeomType::CurvePolygon => Option::Some(GeomType::MultiSurface),
        _ => Option::None,
    }
}

/// What one row of `multi` guarantees: a simple shape is wrapped into its
/// multi form; everything else is re-encoded as it is.
pub open spec fn row_multi(cin: Option<Vec<u8>>, cout: Option<Vec<u8>>) -> bool {
    match cin {
        Option::None => cout is None,
        Option::Some(c) => {
            &&& cell_geom(c@) is Some
            &&& (match multi_target(tag_of(cell_geom(c@)->Some_0.node.kind)) {
                Option::Some(t) => spec_cast(cell_geom(c@)->Some_0, t) matches Some(g2) && (cout
                    matches Some(oc) && oc@ == enc(g2)),
                Option::None => cout matches Some(oc) && oc@ == enc(cell_geom(c@)->Some_0),
            })
        },
    }
}

/// Wraps every simple shape into its multi form. Every such wrap is in
/// the cast table, so only an undecodable cell can fail.
pub fn multi(wkb: &Vec<Option<Vec<u8>>>) -> (r: Result<Vec<Option<Vec<u8>>>, Error>)
    ensures
        match r {
            Ok(out) => out@.len() == wkb@.len() && forall|i: int| 0 <= i < wkb@.len()
                ==> row_multi(#[trigger] wkb@[i], out@[i]),
            Err(e) => e == Error::MalformedEncoding && exists|i: int|
                0 <= i < wkb@.len() && !crate::join::cell_ok(#[trigger] wkb@[i]),
        },
{
    let n = wkb.len();
    let mut out: Vec<Option<Vec<u8>>> = Vec::new();
    let mut i: usize = 0;
    while i < n
        invariant
            0 <= i <= n,
            n == wkb@.len(),
            out@.len() == i,
            forall|j: int| 0 <= j < i ==> row_multi(#[trigger] wkb@[j], out@[j]),
        decreases n - i,
    {
        match &wkb[i] {
            None => {
                out.push(None);
            },
            Some(cell) => {
                let g = match decode_geometry(cell) {
                    Err(_) => {
                        return Err(Error::MalformedEncoding);
                    },
                    Ok(g) => g,
                };
                let t = node_type(&g.node);
                let target: Option<GeomType> = match t {
                    GeomType::Point => Some(GeomType::MultiPoint),
                    GeomType::LineString => Some(GeomType::MultiLineString),
                    GeomType::CircularString => Some(GeomType::MultiCurve),
                    GeomType::Polygon => Some(GeomType::MultiPolygon),
                    GeomType::CurvePolygon => Some(GeomType::MultiSurface),
                    _ => None,
                };
                match target {
                    Some(t2) => match cast_geometry(&g, t2) {
                        Err(_) => {
                            // Unreachable: every wrap into a multi form is
                            // in the cast table.
                            proof {
                                assert(spec_cast(g@, t2) is Some);
                            }
                            return Err(Error::MalformedEncoding);
                        },
                        Ok(g2) => {
                            out.push(Some(to_ewkb(&g2)));
                        },
                    },
                    None => {
                        out.push(Some(to_ewkb(&g)));
                    },
                }
            },
        }
        i = i + 1;
    }
    Ok(out)
}

/// What one row of `to_srid` guarantees: bytes unchanged when the source
/// code equals the destination or the geometry is empty; otherwise, when
/// the row succeeds, a geometry of the same shape under the new code.
pub open spec fn row_to_srid(cin: Option<Vec<u8>>, dest: Option<i64>, cout: Option<Vec<u8>>) -> bool {
    match (cin, dest) {
        (Option::Some(c), Option::Some(d)) => {
            &&& cell_geom(c@) is Some
            &&& ((cell_geom(c@)->Some_0.srid as i64 == d || node_empty(cell_geom(c@)->Some_0.node))
                ==> (cout matches Some(oc) && oc@ == c@))
            &&& (!(cell_geom(c@)->Some_0.srid as i64 == d || node_empty(
                cell_geom(c@)->Some_0.node,
            )) ==> (cout matches Some(oc) && cell_geom(oc@) matches Some(g2) && g2.srid as i64 == d
                && crate::reproject::node_rel(cell_geom(c@)->Some_0.node, g2.node)))
        },
        _ => cout is None,
    }
}

/// Reprojects every geometry to a per-row destination code, with one
/// projection cache for the whole call. A row whose source code equals its
/// destination, or whose geometry is empty, passes through untouched.
pub fn to_srid(wkb: &Vec<Option<Vec<u8>>>, srid: &Vec<Option<i64>>) -> (r: Result<
    Vec<Option<Vec<u8>>>,
    Error,
>)
    requires
        bcast_ok(wkb@, srid@),
    ensures
        match r {
            Ok(out) => out@.len() == bcast_len(wkb@, srid@) && forall|i: int|
                0 <= i < out@.len() ==> row_to_srid(bcast(wkb@, i), #[trigger] bcast(srid@, i), out@[i]),
            Err(e) => match e {
                Error::MalformedEncoding => exists|i: int| 0 <= i < bcast_len(wkb@, srid@) && ((
                #[trigger] bcast(wkb@, i)) matches Some(c) && bcast(srid@, i) is Some && cell_geom(
                    c@,
                ) is None),
                Error::UnknownReferenceSystem(code) => exists|i: int|
                    0 <= i < bcast_len(wkb@, srid@) && ((#[trigger] bcast(wkb@, i)) matches Some(c)
                        && (bcast(srid@, i) matches Some(d) && (cell_geom(c@) matches Some(g) && {
                        &&& !(g.srid as i64 == d || node_empty(g.node))
                        &&& ((code == g.srid as i64 && (g.srid < 0 || g.srid > 0xffff
                            || !crate::reproject::epsg_known(g.srid as u16))) || (code == d && (d
                            < 0 || d > 0xffff || !crate::reproject::epsg_known(d as u16))))
                    }))),
                Error::ProjectionFailure(a, b) => exists|i: int|
                    0 <= i < bcast_len(wkb@, srid@) && ((#[trigger] bcast(wkb@, i)) matches Some(c)
                        && (bcast(srid@, i) matches Some(d) && (cell_geom(c@) matches Some(g) && {
                        &&& !(g.srid as i64 == d || node_empty(g.node))
                        &&& a == g.srid as i64
                        &&& b == d
                    }))),
                _ => false,
            },
        },
{
    let nw = wkb.len();
    let ns = srid.len();
    if nw == 0 || ns == 0 {
        let out: Vec<Option<Vec<u8>>> = Vec::new();
        return Ok(out);
    }
    let n: usize = if nw >= ns {
        nw
    } else {
        ns
    };
    let mut cache = crate::reproject::ProjCache::new();
    let mut out: Vec<Option<Vec<u8>>> = Vec::new();
    let mut i: usize = 0;
    while i < n
        invariant
            0 <= i <= n,
            nw == wkb@.len(),
            ns == srid@.len(),
            n == bcast_len(wkb@, srid@),
            nw == n || nw == 1,
            ns == n || ns == 1,
            cache.wf(),
            out@.len() == i,
            forall|j: int| 0 <= j < i ==> row_to_srid(bcast(wkb@, j), #[trigger] bcast(srid@, j), out@[j]),
        decreases n - i,
    {
        let wi: usize = if nw == 1 {
            0
        } else {
            i
        };
        let si: usize = if ns == 1 {
            0
        } else {
            i
        };
        match (&wkb[wi], &srid[si]) {
            (Some(cell), Some(d)) => match crate::reproject::to_srid_cell(cell, *d, &mut cache) {
                Err(e) => {
                    proof {
                        assert((#[trigger] bcast(wkb@, i as int)) == wkb@[wi as int]);
                        assert(bcast(srid@, i as int) == srid@[si as int]);
                    }
                    return Err(e);
                },
                Ok(oc) => {
                    out.push(Some(oc));
                },
            },
            _ => {
                out.push(None);
            },
        }
        i = i + 1;
    }
    Ok(out)
}

/// What one row of a coordinatewise rewrite guarantees.
pub open spec fn row_mapped(
    cin: Option<Vec<u8>>,
    cout: Option<Vec<u8>>,
    f: spec_fn(GeometryV) -> GeometryV,
) -> bool {
    match cin {
        Option::None => cout is None,
        Option::Some(c) => {
            &&& cell_geom(c@) is Some
            &&& (cout matches Some(oc) && oc@ == enc(f(cell_geom(c@)->Some_0)))
        },
    }
}

/// Drops every geometry to the plane: flags cleared, z and m gone.
pub fn force_2d(wkb: &Vec<Option<Vec<u8>>>) -> (r: Result<Vec<Option<Vec<u8>>>, Error>)
    ensures
        match r {
            Ok(out) => out@.len() == wkb@.len() && forall|i: int| 0 <= i < wkb@.len()
                ==> row_mapped(
                    #[trigger] wkb@[i],
                    out@[i],
                    |g: GeometryV| GeometryV { srid: g.srid, node: force2_node(g.node) },
                ),
            Err(e) => e == Error::MalformedEncoding && exists|i: int|
                0 <= i < wkb@.len() && ((#[trigger] wkb@[i]) matches Some(c) && cell_geom(c@)
                    is None),
        },
{
    let n = wkb.len();
    let mut out: Vec<Option<Vec<u8>>> = Vec::new();
    let mut i: usize = 0;
    while i < n
        invariant
            0 <= i <= n,
            n == wkb@.len(),
            out@.len() == i,
            forall|j: int| 0 <= j < i ==> row_mapped(
                #[trigger] wkb@[j],
                out@[j],
                |g: GeometryV| GeometryV { srid: g.srid, node: force2_node(g.node) },
            ),
        decreases n - i,
    {
        match &wkb[i] {
            None => {
                out.push(None);
            },
            Some(cell) => {
                let g = match decode_geometry(cell) {
                    Err(_) => {
                        return Err(Error::MalformedEncoding);
                    },
                    Ok(g) => g,
                };
                let nd = force_2d_node(&g.node);
                let g2 = Geometry { srid: g.srid, node: nd };
                out.push(Some(to_ewkb(&g2)));
            },
        }
        i = i + 1;
    }
    Ok(out)
}

/// Raises every geometry to three dimensions, filling an absent z with the
/// per-row value.
pub fn force_3d(wkb: &Vec<Option<Vec<u8>>>, z: &Vec<Option<u64>>) -> (r: Result<
    Vec<Option<Vec<u8>>>,
    Error,
>)
    requires
        bcast_ok(wkb@, z@),
    ensures
        match r {
            Ok(out) => out@.len() == bcast_len(wkb@, z@) && forall|i: int| 0 <= i < out@.len()
                ==> (match (bcast(wkb@, i), #[trigger] bcast(z@, i)) {
                    (Option::Some(_), Option::Some(fill)) => row_mapped(
                        bcast(wkb@, i),
                        out@[i],
                        |g: GeometryV| GeometryV { srid: g.srid, node: force3_node(g.node, fill) },
                    ),
                    _ => out@[i] is None,
                }),
            Err(e) => e == Error::MalformedEncoding && exists|i: int|
                0 <= i < bcast_len(wkb@, z@) && ((#[trigger] bcast(wkb@, i)) matches Some(
                    c,
                ) && (bcast(z@, i) is Some && cell_geom(c@) is None)),
        },
{
    let nw = wkb.len();
    let nz = z.len();
    if nw == 0 || nz == 0 {
        let out: Vec<Option<Vec<u8>>> = Vec::new();
        return Ok(out);
    }
    let n: usize = if nw >= nz {
        nw
    } else {
        nz
    };
    let mut out: Vec<Option<Vec<u8>>> = Vec::new();
    let mut i: usize = 0;
    while i < n
        invariant
            0 <= i <= n,
            nw == wkb@.len(),
            nz == z@.len(),
            n == bcast_len(wkb@, z@),
            nw == n || nw == 1,
            nz == n || nz == 1,
            out@.len() == i,
            forall|j: int| 0 <= j < i ==> (match (bcast(wkb@, j), #[trigger] bcast(z@, j)) {
                (Option::Some(_), Option::Some(fill)) => row_mapped(
                    bcast(wkb@, j),
                    out@[j],
                    |g: GeometryV| GeometryV { srid: g.srid, node: force3_node(g.node, fill) },
                ),
                _ => out@[j] is None,
            }),
        decreases n - i,
    {
        let wi: usize = if nw == 1 {
            0
        } else {
            i
        };
        let zi: usize = if nz == 1 {
            0
        } else {
            i
        };
        match (&wkb[wi], &z[zi]) {
            (Some(cell), Some(fill)) => {
                let g = match decode_geometry(cell) {
                    Err(_) => {
                proof {
                    assert((#[trigger] bcast(wkb@, i as int)) == wkb@[wi as int]);
                    assert(bcast(z@, i as int) is Some);
                }
                        return Err(Error::MalformedEncoding);
                    },
                    Ok(g) => g,
                };
                let nd = force_3d_node(&g.node, *fill);
                let g2 = Geometry { srid: g.srid, node: nd };
                out.push(Some(to_ewkb(&g2)));
            },
            _ => {
                out.push(None);
            },
        }
        i = i + 1;
    }
    Ok(out)
}

/// Swaps x and y in every coordinate of every geometry.
pub fn flip_coordinates(wkb: &Vec<Option<Vec<u8>>>) -> (r: Result<Vec<Option<Vec<u8>>>, Error>)
    ensures
        match r {
            Ok(out) => out@.len() == wkb@.len() && forall|i: int| 0 <= i < wkb@.len()
                ==> row_mapped(
                    #[trigger] wkb@[i],
                    out@[i],
                    |g: GeometryV| GeometryV { srid: g.srid, node: flip_node(g.node) },
                ),
            Err(e) => e == Error::MalformedEncoding && exists|i: int|
                0 <= i < wkb@.len() && ((#[trigger] wkb@[i]) matches Some(c) && cell_geom(c@)
                    is None),
        },
{
    let n = wkb.len();
    let mut out: Vec<Option<Vec<u8>>> = Vec::new();
    let mut i: usize = 0;
    while i < n
        invariant
            0 <= i <= n,
            n == wkb@.len(),
            out@.len() == i,
            forall|j: int| 0 <= j < i ==> row_mapped(
                #[trigger] wkb@[j],
                out@[j],
                |g: GeometryV| GeometryV { srid: g.srid, node: flip_node(g.node) },
            ),
        decreases n - i,
    {
        match &wkb[i] {
            None => {
                out.push(None);
            },
            Some(cell) => {
                let g = match decode_geometry(cell) {
                    Err(_) => {
                        return Err(Error::MalformedEncoding);
                    },
                    Ok(g) => g,
                };
                let nd = flip_node_exec(&g.node);
                let g2 = Geometry { srid: g.srid, node: nd };
                out.push(Some(to_ewkb(&g2)));
            },
        }
        i = i + 1;
    }
    Ok(out)
}

/// Every coordinate of every geometry, depth first, as bit-pattern tuples.
pub fn get_coordinates(wkb: &Vec<Option<Vec<u8>>>) -> (r: Result<Vec<Option<Vec<Coord>>>, Error>)
    ensures
        match r {
            Ok(out) => out@.len() == wkb@.len() && forall|i: int| 0 <= i < wkb@.len()
                ==> (match #[trigger] wkb@[i] {
                    Option::None => out@[i] is None,
                    Option::Some(c) => cell_geom(c@) matches Some(g) && (out@[i] matches Some(cs)
                        && cs@ == coords_of_node(g.node)),
                }),
            Err(e) => e == Error::MalformedEncoding && exists|i: int|
                0 <= i < wkb@.len() && ((#[trigger] wkb@[i]) matches Some(c) && cell_geom(c@)
                    is None),
        },
{
    let n = wkb.len();
    let mut out: Vec<Option<Vec<Coord>>> = Vec::new();
    let mut i: usize = 0;
    while i < n
        invariant
            0 <= i <= n,
            n == wkb@.len(),
            out@.len() == i,
            forall|j: int| 0 <= j < i ==> (match #[trigger] wkb@[j] {
                Option::None => out@[j] is None,
                Option::Some(c) => cell_geom(c@) matches Some(g) && (out@[j] matches Some(cs)
                    && cs@ == coords_of_node(g.node)),
            }),
        decreases n - i,
    {
        match &wkb[i] {
            None => {
                out.push(None);
            },
            Some(cell) => {
                let g = match decode_geometry(cell) {
                    Err(_) => {
                        return Err(Error::MalformedEncoding);
                    },
                    Ok(g) => g,
                };
                out.push(Some(node_coordinates(&g.node)));
            },
        }
        i = i + 1;
    }
    Ok(out)
}

/// Whether every cell's geometry is empty.
pub fn is_empty(wkb: &Vec<Option<Vec<u8>>>) -> (r: Result<Vec<Option<bool>>, Error>)
    ensures
        match r {
            Ok(out) => out@.len() == wkb@.len() && forall|i: int| 0 <= i < wkb@.len()
                ==> (match #[trigger] wkb@[i] {
                    Option::None => out@[i] is None,
                    Option::Some(c) => cell_geom(c@) matches Some(g) && out@[i] == Some(
                        node_empty(g.node),
                    ),
                }),
            Err(e) => e == Error::MalformedEncoding && exists|i: int|
                0 <= i < wkb@.len() && ((#[trigger] wkb@[i]) matches Some(c) && cell_geom(c@)
                    is None),
        },
{
    let n = wkb.len();
    let mut out: Vec<Option<bool>> = Vec::new();
    let mut i: usize = 0;
    while i < n
        invariant
            0 <= i <= n,
            n == wkb@.len(),
            out@.len() == i,
            forall|j: int| 0 <= j < i ==> (match #[trigger] wkb@[j] {
                Option::None => out@[j] is None,
                Option::Some(c) => cell_geom(c@) matches Some(g) && out@[j] == Some(
                    node_empty(g.node),
                ),
            }),
        decreases n - i,
    {
        match &wkb[i] {
            None => {
                out.push(None);
            },
            Some(cell) => match decode_geometry(cell) {
                Err(_) => {
                    return Err(Error::MalformedEncoding);
                },
                Ok(g) => {
                    out.push(Some(node_is_empty(&g.node)));
                },
            },
        }
        i = i + 1;
    }
    Ok(out)
}

} // verus!
