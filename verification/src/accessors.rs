//! Positional and scalar accessors over geometry columns, and the
//! coordinate-list constructors.
//!
//! Positional accessors past an element's range are soft: the row comes
//! back null rather than failing. Scalar accessors on shapes that do not
//! carry the value give the NaN sentinel or zero, as the operation says.

use vstd::prelude::*;
use crate::bbox::{node_bbox, node_bbox_exec, BoundingBox};
use crate::bits::NAN_BITS;
use crate::cast::{cast_geometry, spec_cast};
use crate::codec::{cell_geom, decode_geometry, to_ewkb, ByteOrder};
use crate::column::{bcast, bcast_len, bcast_ok, enc};
use crate::error::Error;
use crate::fp::{midpoint, midpoint_bits};
use crate::geometry::{
    clone_coords, clone_members, clone_node, geometry_wf, lemma_members_view_index,
    lemma_members_view_len, lemma_members_view_push, lemma_members_wf_build,
    lemma_members_wf_index, member_tag_ok, members_view, members_wf, node_empty, node_is_empty,
    node_type, node_wf, tag_of, Coord, GeomType, Geometry, GeometryV, Kind, KindV, Node, NodeV,
    MAX_COUNT,
};
use crate::ops::{
    coord_of_row, coords_from_rows, coords_of_node, mix_with, mix_with_exec, node_coordinates,
    supertype_of, supertype_of_exec, TagMix,
};

verus! {

/// The ordinates of a non-empty point; the sentinel otherwise.
pub open spec fn point_ordinates(g: GeometryV) -> Coord {
    match g.node.kind {
        KindV::Point(Option::Some(c)) => c,
        _ => Coord { x: NAN_BITS, y: NAN_BITS, z: NAN_BITS, m: NAN_BITS },
    }
}

/// The x, y, z and m of every cell: the coordinate of a non-empty point,
/// the NaN sentinel for anything else.
pub fn point_coords(wkb: &Vec<Option<Vec<u8>>>) -> (r: Result<Vec<Option<Coord>>, Error>)
    ensures
        match r {
            Ok(out) => out@.len() == wkb@.len() && forall|i: int| 0 <= i < wkb@.len()
                ==> (match #[trigger] wkb@[i] {
                    Option::None => out@[i] is None,
                    Option::Some(c) => cell_geom(c@) matches Some(g) && out@[i] == Some(
                        point_ordinates(g),
                    ),
                }),
            Err(e) => e == Error::MalformedEncoding && exists|i: int|
                0 <= i < wkb@.len() && ((#[trigger] wkb@[i]) matches Some(c) && cell_geom(c@)
                    is None),
        },
{
    let n = wkb.len();
    let mut out: Vec<Option<Coord>> = Vec::new();
    let mut i: usize = 0;
    while i < n
        invariant
            0 <= i <= n,
            n == wkb@.len(),
            out@.len() == i,
            forall|j: int| 0 <= j < i ==> (match #[trigger] wkb@[j] {
                Option::None => out@[j] is None,
                Option::Some(c) => cell_geom(c@) matches Some(g) && out@[j] == Some(
                    point_ordinates(g),
                ),
            }),
        decreases n - i,
    {
        match &wkb[i] {
            None => {
                out.push(None);
            },
            Some(cell) => {
                let g = match decode_geometry(cell) {
                    Err(_) => {
                        return Err(Error::MalformedEncoding);
                    },
                    Ok(g) => g,
                };
                let c: Coord = match &g.node.kind {
                    Kind::Point(Some(c)) => *c,
                    _ => Coord { x: NAN_BITS, y: NAN_BITS, z: NAN_BITS, m: NAN_BITS },
                };
                out.push(Some(c));
            },
        }
        i = i + 1;
    }
    Ok(out)
}

/// The x ordinate of every non-empty point cell; NaN for anything else.
pub fn get_x(wkb: &Vec<Option<Vec<u8>>>) -> (r: Result<Vec<Option<u64>>, Error>)
    ensures
        match r {
            Ok(out) => out@.len() == wkb@.len() && forall|i: int| 0 <= i < wkb@.len()
                ==> (match #[trigger] wkb@[i] {
                    Option::None => out@[i] is None,
                    Option::Some(c) => cell_geom(c@) matches Some(g) && out@[i] == Some(
                        point_ordinates(g).x,
                    ),
                }),
            Err(e) => e == Error::MalformedEncoding && exists|i: int|
                0 <= i < wkb@.len() && ((#[trigger] wkb@[i]) matches Some(c) && cell_geom(c@)
                    is None),
        },
{
    let cs = match point_coords(wkb) {
        Err(e) => {
            return Err(e);
        },
        Ok(cs) => cs,
    };
    let n = cs.len();
    let mut out: Vec<Option<u64>> = Vec::new();
    let mut i: usize = 0;
    while i < n
        invariant
            0 <= i <= n,
            n == cs@.len(),
            out@.len() == i,
            forall|j: int| 0 <= j < i ==> out@[j] == (match #[trigger] cs@[j] {
                Option::None => Option::<u64>::None,
                Option::Some(c) => Option::Some(c.x),
            }),
        decreases n - i,
    {
        match &cs[i] {
            None => {
                out.push(None);
            },
            Some(c) => {
                out.push(Some(c.x));
            },
        }
        i = i + 1;
    }
    Ok(out)
}

/// The y ordinate of every non-empty point cell; NaN for anything else.
pub fn get_y(wkb: &Vec<Option<Vec<u8>>>) -> (r: Result<Vec<Option<u64>>, Error>)
    ensures
        match r {
            Ok(out) => out@.len() == wkb@.len() && forall|i: int| 0 <= i < wkb@.len()
                ==> (match #[trigger] wkb@[i] {
                    Option::None => out@[i] is None,
                    Option::Some(c) => cell_geom(c@) matches Some(g) && out@[i] == Some(
                        point_ordinates(g).y,
                    ),
                }),
            Err(e) => e == Error::MalformedEncoding && exists|i: int|
                0 <= i < wkb@.len() && ((#[trigger] wkb@[i]) matches Some(c) && cell_geom(c@)
                    is None),
        },
{
    let cs = match point_coords(wkb) {
        Err(e) => {
            return Err(e);
        },
        Ok(cs) => cs,
    };
    let n = cs.len();
    let mut out: Vec<Option<u64>> = Vec::new();
    let mut i: usize = 0;
    while i < n
        invariant
            0 <= i <= n,
            n == cs@.len(),
            out@.len() == i,
            forall|j: int| 0 <= j < i ==> out@[j] == (match #[trigger] cs@[j] {
                Option::None => Option::<u64>::None,
                Option::Some(c) => Option::Some(c.y),
            }),
        decreases n - i,
    {
        match &cs[i] {
            None => {
                out.push(None);
            },
            Some(c) => {
                out.push(Some(c.y));
            },
        }
        i = i + 1;
    }
    Ok(out)
}

/// The z ordinate of every non-empty point cell; NaN when absent.
pub fn get_z(wkb: &Vec<Option<Vec<u8>>>) -> (r: Result<Vec<Option<u64>>, Error>)
    ensures
        match r {
            Ok(out) => out@.len() == wkb@.len() && forall|i: int| 0 <= i < wkb@.len()
                ==> (match #[trigger] wkb@[i] {
                    Option::None => out@[i] is None,
                    Option::Some(c) => cell_geom(c@) matches Some(g) && out@[i] == Some(
                        point_ordinates(g).z,
                    ),
                }),
            Err(e) => e == Error::MalformedEncoding && exists|i: int|
                0 <= i < wkb@.len() && ((#[trigger] wkb@[i]) matches Some(c) && cell_geom(c@)
                    is None),
        },
{
    let cs = match point_coords(wkb) {
        Err(e) => {
            return Err(e);
        },
        Ok(cs) => cs,
    };
    let n = cs.len();
    let mut out: Vec<Option<u64>> = Vec::new();
    let mut i: usize = 0;
    while i < n
        invariant
            0 <= i <= n,
            n == cs@.len(),
            out@.len() == i,
            forall|j: int| 0 <= j < i ==> out@[j] == (match #[trigger] cs@[j] {
                Option::None => Option::<u64>::None,
                Option::Some(c) => Option::Some(c.z),
            }),
        decreases n - i,
    {
        match &cs[i] {
            None => {
                out.push(None);
            },
            Some(c) => {
                out.push(Some(c.z));
            },
        }
        i = i + 1;
    }
    Ok(out)
}

/// The m ordinate of every non-empty point cell; NaN when absent.
pub fn get_m(wkb: &Vec<Option<Vec<u8>>>) -> (r: Result<Vec<Option<u64>>, Error>)
    ensures
        match r {
            Ok(out) => out@.len() == wkb@.len() && forall|i: int| 0 <= i < wkb@.len()
                ==> (match #[trigger] wkb@[i] {
                    Option::None => out@[i] is None,
                    Option::Some(c) => cell_geom(c@) matches Some(g) && out@[i] == Some(
                        point_ordinates(g).m,
                    ),
                }),
            Err(e) => e == Error::MalformedEncoding && exists|i: int|
                0 <= i < wkb@.len() && ((#[trigger] wkb@[i]) matches Some(c) && cell_geom(c@)
                    is None),
        },
{
    let cs = match point_coords(wkb) {
        Err(e) => {
            return Err(e);
        },
        Ok(cs) => cs,
    };
    let n = cs.len();
    let mut out: Vec<Option<u64>> = Vec::new();
    let mut i: usize = 0;
    while i < n
        invariant
            0 <= i <= n,
            n == cs@.len(),
            out@.len() == i,
            forall|j: int| 0 <= j < i ==> out@[j] == (match #[trigger] cs@[j] {
                Option::None => Option::<u64>::None,
                Option::Some(c) => Option::Some(c.m),
            }),
        decreases n - i,
    {
        match &cs[i] {
            None => {
                out.push(None);
            },
            Some(c) => {
                out.push(Some(c.m));
            },
        }
        i = i + 1;
    }
    Ok(out)
}

/// The direct member count: members of a collection, one otherwise.
pub open spec fn parts_count(n: NodeV) -> int {
    match n.kind {
        KindV::MultiPoint(ch) => ch.len() as int,
        KindV::MultiLineString(ch) => ch.len() as int,
        KindV::MultiCurve(ch) => ch.len() as int,
        KindV::MultiPolygon(ch) => ch.len() as int,
        KindV::MultiSurface(ch) => ch.len() as int,
        KindV::GeometryCollection(ch) => ch.len() as int,
        _ => 1,
    }
}

/// The direct member count of a well-formed node.
fn num_parts(nd: &Node) -> (k: u32)
    requires
        node_wf(nd@),
    ensures
        k == parts_count(nd@),
{
    match &nd.kind {
        Kind::MultiPoint(ch) => {
            proof {
                lemma_members_view_len(ch@);
            }
            ch.len() as u32
        },
        Kind::MultiLineString(ch) => {
            proof {
                lemma_members_view_len(ch@);
            }
            ch.len() as u32
        },
        Kind::MultiCurve(ch) => {
            proof {
                lemma_members_view_len(ch@);
            }
            ch.len() as u32
        },
        Kind::MultiPolygon(ch) => {
            proof {
                lemma_members_view_len(ch@);
            }
            ch.len() as u32
        },
        Kind::MultiSurface(ch) => {
            proof {
                lemma_members_view_len(ch@);
            }
            ch.len() as u32
        },
        Kind::GeometryCollection(ch) => {
            proof {
                lemma_members_view_len(ch@);
            }
            ch.len() as u32
        },
        _ => 1,
    }
}

/// The direct member count of every cell's geometry.
pub fn get_num_geometries(wkb: &Vec<Option<Vec<u8>>>) -> (r: Result<Vec<Option<u32>>, Error>)
    ensures
        match r {
            Ok(out) => out@.len() == wkb@.len() && forall|i: int| 0 <= i < wkb@.len()
                ==> (match #[trigger] wkb@[i] {
                    Option::None => out@[i] is None,
                    Option::Some(c) => cell_geom(c@) matches Some(g) && out@[i] == Some(
                        parts_count(g.node) as u32,
                    ),
                }),
            Err(e) => e == Error::MalformedEncoding && exists|i: int|
                0 <= i < wkb@.len() && ((#[trigger] wkb@[i]) matches Some(c) && cell_geom(c@)
                    is None),
        },
{
    let n = wkb.len();
    let mut out: Vec<Option<u32>> = Vec::new();
    let mut i: usize = 0;
    while i < n
        invariant
            0 <= i <= n,
            n == wkb@.len(),
            out@.len() == i,
            forall|j: int| 0 <= j < i ==> (match #[trigger] wkb@[j] {
                Option::None => out@[j] is None,
                Option::Some(c) => cell_geom(c@) matches Some(g) && out@[j] == Some(
                    parts_count(g.node) as u32,
                ),
            }),
        decreases n - i,
    {
        match &wkb[i] {
            None => {
                out.push(None);
            },
            Some(cell) => {
                let g = match decode_geometry(cell) {
                    Err(_) => {
                        return Err(Error::MalformedEncoding);
                    },
                    Ok(g) => g,
                };
                let k: u32 = num_parts(&g.node);
                out.push(Some(k));
            },
        }
        i = i + 1;
    }
    Ok(out)
}

/// Total coordinate count of every cell's geometry.
pub fn get_num_coordinates(wkb: &Vec<Option<Vec<u8>>>) -> (r: Result<Vec<Option<usize>>, Error>)
    ensures
        match r {
            Ok(out) => out@.len() == wkb@.len() && forall|i: int| 0 <= i < wkb@.len()
                ==> (match #[trigger] wkb@[i] {
                    Option::None => out@[i] is None,
                    Option::Some(c) => cell_geom(c@) matches Some(g) && out@[i] == Some(
                        coords_of_node(g.node).len() as usize,
                    ),
                }),
            Err(e) => e == Error::MalformedEncoding && exists|i: int|
                0 <= i < wkb@.len() && ((#[trigger] wkb@[i]) matches Some(c) && cell_geom(c@)
                    is None),
        },
{
    let n = wkb.len();
    let mut out: Vec<Option<usize>> = Vec::new();
    let mut i: usize = 0;
    while i < n
        invariant
            0 <= i <= n,
            n == wkb@.len(),
            out@.len() == i,
            forall|j: int| 0 <= j < i ==> (match #[trigger] wkb@[j] {
                Option::None => out@[j] is None,
                Option::Some(c) => cell_geom(c@) matches Some(g) && out@[j] == Some(
                    coords_of_node(g.node).len() as usize,
                ),
            }),
        decreases n - i,
    {
        match &wkb[i] {
            None => {
                out.push(None);
            },
            Some(cell) => {
                let g = match decode_geometry(cell) {
                    Err(_) => {
                        return Err(Error::MalformedEncoding);
                    },
                    Ok(g) => g,
                };
                let cs = node_coordinates(&g.node);
                out.push(Some(cs.len()));
            },
        }
        i = i + 1;
    }
    Ok(out)
}

/// Planar bounds of every cell's geometry; the NaN quad when it has none.
pub fn bounds(wkb: &Vec<Option<Vec<u8>>>) -> (r: Result<Vec<Option<(u64, u64, u64, u64)>>, Error>)
    ensures
        match r {
            Ok(out) => out@.len() == wkb@.len() && forall|i: int| 0 <= i < wkb@.len()
                ==> (match #[trigger] wkb@[i] {
                    Option::None => out@[i] is None,
                    Option::Some(c) => cell_geom(c@) matches Some(g) && out@[i] == Some(
                        match node_bbox(g.node) {
                            Option::Some(b) => (b.xmin, b.ymin, b.xmax, b.ymax),
                            Option::None => (NAN_BITS, NAN_BITS, NAN_BITS, NAN_BITS),
                        },
                    ),
                }),
            Err(e) => e == Error::MalformedEncoding && exists|i: int|
                0 <= i < wkb@.len() && ((#[trigger] wkb@[i]) matches Some(c) && cell_geom(c@)
                    is None),
        },
{
    let n = wkb.len();
    let mut out: Vec<Option<(u64, u64, u64, u64)>> = Vec::new();
    let mut i: usize = 0;
    while i < n
        invariant
            0 <= i <= n,
            n == wkb@.len(),
            out@.len() == i,
            forall|j: int| 0 <= j < i ==> (match #[trigger] wkb@[j] {
                Option::None => out@[j] is None,
                Option::Some(c) => cell_geom(c@) matches Some(g) && out@[j] == Some(
                    match node_bbox(g.node) {
                        Option::Some(b) => (b.xmin, b.ymin, b.xmax, b.ymax),
                        Option::None => (NAN_BITS, NAN_BITS, NAN_BITS, NAN_BITS),
                    },
                ),
            }),
        decreases n - i,
    {
        match &wkb[i] {
            None => {
                out.push(None);
            },
            Some(cell) => {
                let g = match decode_geometry(cell) {
                    Err(_) => {
                        return Err(Error::MalformedEncoding);
                    },
                    Ok(g) => g,
                };
                match node_bbox_exec(&g.node) {
                    Some(b) => {
                        out.push(Some((b.xmin, b.ymin, b.xmax, b.ymax)));
                    },
                    None => {
                        out.push(Some((NAN_BITS, NAN_BITS, NAN_BITS, NAN_BITS)));
                    },
                }
            },
        }
        i = i + 1;
    }
    Ok(out)
}

/// The middle of a geometry's bounding box as a planar point; the empty
/// point for a geometry with no box, or whose middle overflowed to NaN.
pub open spec fn center_geom(g: GeometryV) -> GeometryV {
    GeometryV {
        srid: 0,
        node: NodeV {
            has_z: false,
            has_m: false,
            kind: KindV::Point(
                match node_bbox(g.node) {
                    Option::Some(b) => {
                        let x = midpoint_bits(b.xmin, b.xmax);
                        let y = midpoint_bits(b.ymin, b.ymax);
                        if crate::bits::is_nan(x) && crate::bits::is_nan(y) {
                            Option::None
                        } else {
                            Option::Some(Coord { x, y, z: NAN_BITS, m: NAN_BITS })
                        }
                    },
                    Option::None => Option::None,
                },
            ),
        },
    }
}

/// The bounding-box middle of every cell's geometry, as an encoded point.
/// The middle of two numbers can itself be NaN only on overflow of their
/// sum; such a middle comes back as the empty point.
pub fn get_center(wkb: &Vec<Option<Vec<u8>>>) -> (r: Result<Vec<Option<Vec<u8>>>, Error>)
    ensures
        match r {
            Ok(out) => out@.len() == wkb@.len() && forall|i: int| 0 <= i < wkb@.len()
                ==> (match #[trigger] wkb@[i] {
                    Option::None => out@[i] is None,
                    Option::Some(c) => cell_geom(c@) matches Some(g) && (out@[i] matches Some(oc)
                        && oc@ == enc(center_geom(g))),
                }),
            Err(e) => e == Error::MalformedEncoding && exists|i: int|
                0 <= i < wkb@.len() && ((#[trigger] wkb@[i]) matches Some(c) && cell_geom(c@)
                    is None),
        },
{
    let n = wkb.len();
    let mut out: Vec<Option<Vec<u8>>> = Vec::new();
    let mut i: usize = 0;
    while i < n
        invariant
            0 <= i <= n,
            n == wkb@.len(),
            out@.len() == i,
            forall|j: int| 0 <= j < i ==> (match #[trigger] wkb@[j] {
                Option::None => out@[j] is None,
                Option::Some(c) => cell_geom(c@) matches Some(g) && (out@[j] matches Some(oc)
                    && oc@ == enc(center_geom(g))),
            }),
        decreases n - i,
    {
        match &wkb[i] {
            None => {
                out.push(None);
            },
            Some(cell) => {
                let g = match decode_geometry(cell) {
                    Err(_) => {
                        return Err(Error::MalformedEncoding);
                    },
                    Ok(g) => g,
                };
                let oc: Option<Coord> = match node_bbox_exec(&g.node) {
                    Some(b) => {
                        let x = midpoint(b.xmin, b.xmax);
                        let y = midpoint(b.ymin, b.ymax);
                        if crate::bits::nan_bits(x) && crate::bits::nan_bits(y) {
                            None
                        } else {
                            Some(Coord { x, y, z: NAN_BITS, m: NAN_BITS })
                        }
                    },
                    None => None,
                };
                let pt = Geometry {
                    srid: 0,
                    node: Node { has_z: false, has_m: false, kind: Kind::Point(oc) },
                };
                out.push(Some(to_ewkb(&pt)));
            },
        }
        i = i + 1;
    }
    Ok(out)
}

/// The shape-variant mix of the decodable cells below `upto`.
pub open spec fn col_mix(col: Seq<Option<Vec<u8>>>, upto: int) -> TagMix
    decreases upto,
{
    if upto <= 0 {
        TagMix::spec_empty()
    } else {
        let prev = col_mix(col, upto - 1);
        match col[upto - 1] {
            Option::None => prev,
            Option::Some(c) => mix_with(prev, tag_of(cell_geom(c@)->Some_0.node.kind)),
        }
    }
}

/// The nodes of the non-null cells below `upto`, in row order.
pub open spec fn collected_members(col: Seq<Option<Vec<u8>>>, upto: int) -> Seq<NodeV>
    decreases upto,
{
    if upto <= 0 {
        Seq::empty()
    } else {
        let prev = collected_members(col, upto - 1);
        match col[upto - 1] {
            Option::None => prev,
            Option::Some(c) => prev + seq![cell_geom(c@)->Some_0.node],
        }
    }
}

/// The collection variant the column's shape mix maps to, by the fixed
/// table of `supertype_of`.
pub fn collection_supertype(wkb: &Vec<Option<Vec<u8>>>) -> (r: Result<GeomType, Error>)
    ensures
        match r {
            Ok(t) => (forall|i: int| 0 <= i < wkb@.len() ==> crate::join::cell_ok(
                #[trigger] wkb@[i],
            )) && t == supertype_of(col_mix(wkb@, wkb@.len() as int)),
            Err(e) => e == Error::MalformedEncoding && exists|i: int|
                0 <= i < wkb@.len() && !crate::join::cell_ok(#[trigger] wkb@[i]),
        },
{
    let n = wkb.len();
    let mut mix = TagMix::empty();
    let mut i: usize = 0;
    while i < n
        invariant
            0 <= i <= n,
            n == wkb@.len(),
            mix == col_mix(wkb@, i as int),
            forall|j: int| 0 <= j < i ==> crate::join::cell_ok(#[trigger] wkb@[j]),
        decreases n - i,
    {
        match &wkb[i] {
            None => {},
            Some(cell) => {
                let g = match decode_geometry(cell) {
                    Err(_) => {
                        return Err(Error::MalformedEncoding);
                    },
                    Ok(g) => g,
                };
                mix = mix_with_exec(mix, node_type(&g.node));
            },
        }
        i = i + 1;
    }
    Ok(supertype_of_exec(mix))
}

/// The collection that gathering a column under `target` yields: the
/// non-null nodes in row order, the flags those of the first, the id
/// cleared.
pub open spec fn collected_geom(col: Seq<Option<Vec<u8>>>, target: GeomType) -> GeometryV {
    let ms = collected_members(col, col.len() as int);
    GeometryV {
        srid: 0,
        node: NodeV {
            has_z: ms.len() > 0 && ms[0].has_z,
            has_m: ms.len() > 0 && ms[0].has_m,
            kind: crate::codec::members_kind(target, ms),
        },
    }
}

/// Gathering more rows gathers at least as many members.
proof fn lemma_collected_members_mono(col: Seq<Option<Vec<u8>>>, j: int, j2: int)
    requires
        0 <= j <= j2,
    ensures
        collected_members(col, j).len() <= collected_members(col, j2).len(),
    decreases j2 - j,
{
    if j < j2 {
        lemma_collected_members_mono(col, j, j2 - 1);
    }
}

/// Gathers every non-null geometry of the column into one collection of
/// the requested variant, or of the column's supertype when none is named.
/// Succeeds exactly when every cell decodes, the target is a collection
/// variant, every member may stand in it, and the members fit one count
/// field; fails with `InvalidGeometryForOperation` on a bad target or
/// member, and with `MalformedEncoding` on an undecodable cell.
pub fn collect(wkb: &Vec<Option<Vec<u8>>>, into: Option<GeomType>) -> (r: Result<Vec<u8>, Error>)
    ensures
        match r {
            Ok(out) => {
                let target = match into {
                    Option::Some(t) => t,
                    Option::None => supertype_of(col_mix(wkb@, wkb@.len() as int)),
                };
                &&& forall|i: int| 0 <= i < wkb@.len() ==> crate::join::cell_ok(
                    #[trigger] wkb@[i],
                )
                &&& crate::cast::is_collection_tag(target)
                &&& out@ == enc(collected_geom(wkb@, target))
            },
            Err(e) => {
                let target = match into {
                    Option::Some(t) => t,
                    Option::None => supertype_of(col_mix(wkb@, wkb@.len() as int)),
                };
                match e {
                    Error::MalformedEncoding => exists|i: int| 0 <= i < wkb@.len() && ((
                    #[trigger] wkb@[i]) matches Some(c) && cell_geom(c@) is None),
                    Error::InvalidGeometryForOperation => !crate::cast::is_collection_tag(target)
                        || (exists|i: int| 0 <= i < wkb@.len() && ((#[trigger] wkb@[i])
                        matches Some(c) && (cell_geom(c@) matches Some(g) && !member_tag_ok(
                        target,
                        tag_of(g.node.kind),
                    )))) || collected_members(wkb@, wkb@.len() as int).len() > MAX_COUNT,
                    _ => false,
                }
            },
        },
{
    let target: GeomType = match into {
        Some(t) => t,
        None => match collection_supertype(wkb) {
            Ok(t) => t,
            Err(e) => {
                return Err(e);
            },
        },
    };
    let is_coll: bool = match target {
        GeomType::MultiPoint => true,
        GeomType::MultiLineString => true,
        GeomType::MultiCurve => true,
        GeomType::MultiPolygon => true,
        GeomType::MultiSurface => true,
        GeomType::GeometryCollection => true,
        _ => false,
    };
    if !is_coll {
        proof {
            assert(!crate::cast::is_collection_tag(target));
        }
        return Err(Error::InvalidGeometryForOperation);
    }
    let n = wkb.len();
    let mut members: Vec<Node> = Vec::new();
    let mut z: bool = false;
    let mut m: bool = false;
    let mut first: bool = true;
    let mut i: usize = 0;
    while i < n
        invariant
            0 <= i <= n,
            n == wkb@.len(),
            crate::cast::is_collection_tag(target),
            target == (match into {
                Option::Some(t) => t,
                Option::None => supertype_of(col_mix(wkb@, wkb@.len() as int)),
            }),
            members_wf(target, members_view(members@)),
            members_view(members@) == collected_members(wkb@, i as int),
            forall|j: int| 0 <= j < i ==> crate::join::cell_ok(#[trigger] wkb@[j]),
            first <==> members@.len() == 0,
            !first ==> z == members_view(members@)[0].has_z && m == members_view(
                members@,
            )[0].has_m,
            first ==> z == false && m == false,
        decreases n - i,
    {
        broadcast use lemma_members_view_len, lemma_members_view_index;

        match &wkb[i] {
            None => {},
            Some(cell) => {
                let g = match decode_geometry(cell) {
                    Err(_) => {
                        return Err(Error::MalformedEncoding);
                    },
                    Ok(g) => g,
                };
                let t = node_type(&g.node);
                if !member_allowed(target, t) {
                    proof {
                        assert((#[trigger] wkb@[i as int]) matches Some(c) && (cell_geom(c@)
                            matches Some(g2) && !member_tag_ok(target, tag_of(g2.node.kind))));
                    }
                    return Err(Error::InvalidGeometryForOperation);
                }
                if members.len() >= crate::geometry::MAX_COUNT {
                    proof {
                        // One more admissible member would overflow the
                        // count field, and later rows only add members.
                        lemma_members_view_len(members@);
                        assert(collected_members(wkb@, i + 1).len() == collected_members(
                            wkb@,
                            i as int,
                        ).len() + 1);
                        lemma_collected_members_mono(wkb@, i + 1, wkb@.len() as int);
                    }
                    return Err(Error::InvalidGeometryForOperation);
                }
                if first {
                    z = g.node.has_z;
                    m = g.node.has_m;
                    first = false;
                }
                proof {
                    lemma_members_view_push(members@, g.node);
                    lemma_members_wf_snoc(target, members_view(members@), g@.node);
                }
                members.push(g.node);
            },
        }
        i = i + 1;
    }
    let kind: Kind = match target {
        GeomType::MultiPoint => Kind::MultiPoint(members),
        GeomType::MultiLineString => Kind::MultiLineString(members),
        GeomType::MultiCurve => Kind::MultiCurve(members),
        GeomType::MultiPolygon => Kind::MultiPolygon(members),
        GeomType::MultiSurface => Kind::MultiSurface(members),
        _ => Kind::GeometryCollection(members),
    };
    let out = Geometry { srid: 0, node: Node { has_z: z, has_m: m, kind } };
    proof {
        assert(geometry_wf(out@));
        assert(out@ == collected_geom(wkb@, target));
    }
    Ok(to_ewkb(&out))
}

/// May a member of variant `child` stand in a collection of `parent`?
fn member_allowed(parent: GeomType, child: GeomType) -> (r: bool)
    ensures
        r == member_tag_ok(parent, child),
{
    match parent {
        GeomType::CompoundCurve => child == GeomType::LineString
            || child == GeomType::CircularString,
        GeomType::CurvePolygon => child == GeomType::LineString
            || child == GeomType::CircularString || child == GeomType::CompoundCurve,
        GeomType::MultiPoint => child == GeomType::Point,
        GeomType::MultiLineString => child == GeomType::LineString,
        GeomType::MultiCurve => child == GeomType::LineString
            || child == GeomType::CircularString || child == GeomType::CompoundCurve,
        GeomType::MultiPolygon => child == GeomType::Polygon,
        GeomType::MultiSurface => child == GeomType::Polygon
            || child == GeomType::CurvePolygon,
        GeomType::GeometryCollection => true,
        _ => false,
    }
}

/// A well-formed member list stays well-formed under one more admissible,
/// well-formed member.
proof fn lemma_members_wf_snoc(parent: GeomType, s: Seq<NodeV>, x: NodeV)
    requires
        members_wf(parent, s),
        s.len() < MAX_COUNT,
        node_wf(x),
        member_tag_ok(parent, tag_of(x.kind)),
    ensures
        members_wf(parent, s + seq![x]),
{
    let s2 = s + seq![x];
    assert forall|i: int| 0 <= i < s2.len() implies node_wf(#[trigger] s2[i]) && member_tag_ok(
        parent,
        tag_of(s2[i].kind),
    ) by {
        if i < s.len() {
            assert(s2[i] == s[i]);
            lemma_members_wf_index(parent, s, i);
        } else {
            assert(s2[i] == x);
        }
    }
    lemma_members_wf_build(parent, s2);
}

/// The point a row of ordinates denotes: an all-NaN position gives the
/// empty point.
pub open spec fn point_geom(row: Seq<u64>) -> GeometryV {
    GeometryV {
        srid: 0,
        node: NodeV {
            has_z: row.len() > 2,
            has_m: row.len() > 3,
            kind: KindV::Point(
                if crate::bits::is_nan(coord_of_row(row).x) && crate::bits::is_nan(
                    coord_of_row(row).y,
                ) {
                    Option::None
                } else {
                    Option::Some(coord_of_row(row))
                },
            ),
        },
    }
}

/// Builds one point per cell from a row of ordinates: x, y, optionally z
/// and m. Fails with `NonUniformCoordinateDimension` on an arity outside
/// two to four.
pub fn point(coords: &Vec<Option<Vec<u64>>>) -> (r: Result<Vec<Option<Vec<u8>>>, Error>)
    ensures
        match r {
            Ok(out) => out@.len() == coords@.len() && forall|i: int| 0 <= i < coords@.len()
                ==> (match #[trigger] coords@[i] {
                    Option::None => out@[i] is None,
                    Option::Some(row) => 2 <= row@.len() <= 4 && (out@[i] matches Some(oc) && oc@
                        == enc(point_geom(row@))),
                }),
            Err(e) => e == Error::NonUniformCoordinateDimension && exists|i: int|
                0 <= i < coords@.len() && ((#[trigger] coords@[i]) matches Some(row) && !(2
                    <= row@.len() <= 4)),
        },
{
    let n = coords.len();
    let mut out: Vec<Option<Vec<u8>>> = Vec::new();
    let mut i: usize = 0;
    while i < n
        invariant
            0 <= i <= n,
            n == coords@.len(),
            out@.len() == i,
            forall|j: int| 0 <= j < i ==> (match #[trigger] coords@[j] {
                Option::None => out@[j] is None,
                Option::Some(row) => 2 <= row@.len() <= 4 && (out@[j] matches Some(oc) && oc@
                    == enc(point_geom(row@))),
            }),
        decreases n - i,
    {
        match &coords[i] {
            None => {
                out.push(None);
            },
            Some(row) => {
                let dim = row.len();
                if dim < 2 || dim > 4 {
                    return Err(Error::NonUniformCoordinateDimension);
                }
                let c = Coord {
                    x: row[0],
                    y: row[1],
                    z: if dim > 2 {
                        row[2]
                    } else {
                        NAN_BITS
                    },
                    m: if dim > 3 {
                        row[3]
                    } else {
                        NAN_BITS
                    },
                };
                let oc: Option<Coord> = if crate::bits::nan_bits(c.x) && crate::bits::nan_bits(
                    c.y,
                ) {
                    None
                } else {
                    Some(c)
                };
                let g = Geometry {
                    srid: 0,
                    node: Node { has_z: dim > 2, has_m: dim > 3, kind: Kind::Point(oc) },
                };
                out.push(Some(to_ewkb(&g)));
            },
        }
        i = i + 1;
    }
    Ok(out)
}

/// The `k`-th direct part of a geometry: a member of a collection, the
/// geometry itself otherwise. Parts keep the parent's spatial reference.
pub open spec fn part_geom(g: GeometryV, k: int) -> GeometryV {
    match g.node.kind {
        KindV::MultiPoint(ch) => GeometryV { srid: g.srid, node: ch[k] },
        KindV::MultiLineString(ch) => GeometryV { srid: g.srid, node: ch[k] },
        KindV::MultiCurve(ch) => GeometryV { srid: g.srid, node: ch[k] },
        KindV::MultiPolygon(ch) => GeometryV { srid: g.srid, node: ch[k] },
        KindV::MultiSurface(ch) => GeometryV { srid: g.srid, node: ch[k] },
        KindV::GeometryCollection(ch) => GeometryV { srid: g.srid, node: ch[k] },
        _ => g,
    }
}

/// The `k`-th direct part of a decoded geometry, cloned out.
fn take_part(g: &Geometry, k: usize) -> (out: Geometry)
    requires
        geometry_wf(g@),
        0 <= k < parts_count(g@.node),
    ensures
        out@ == part_geom(g@, k as int),
        geometry_wf(out@),
{
    broadcast use lemma_members_view_len, lemma_members_view_index;

    let nd: Node = match &g.node.kind {
        Kind::MultiPoint(ch) => {
            proof {
                lemma_members_view_len(ch@);
            }
            clone_node(&ch[k])
        },
        Kind::MultiLineString(ch) => {
            proof {
                lemma_members_view_len(ch@);
            }
            clone_node(&ch[k])
        },
        Kind::MultiCurve(ch) => {
            proof {
                lemma_members_view_len(ch@);
            }
            clone_node(&ch[k])
        },
        Kind::MultiPolygon(ch) => {
            proof {
                lemma_members_view_len(ch@);
            }
            clone_node(&ch[k])
        },
        Kind::MultiSurface(ch) => {
            proof {
                lemma_members_view_len(ch@);
            }
            clone_node(&ch[k])
        },
        Kind::GeometryCollection(ch) => {
            proof {
                lemma_members_view_len(ch@);
            }
            clone_node(&ch[k])
        },
        _ => clone_node(&g.node),
    };
    proof {
        match g@.node.kind {
            KindV::MultiPoint(ch) => lemma_members_wf_index(
                tag_of(g@.node.kind),
                ch,
                k as int,
            ),
            KindV::MultiLineString(ch) => lemma_members_wf_index(
                tag_of(g@.node.kind),
                ch,
                k as int,
            ),
            KindV::MultiCurve(ch) => lemma_members_wf_index(tag_of(g@.node.kind), ch, k as int),
            KindV::MultiPolygon(ch) => lemma_members_wf_index(
                tag_of(g@.node.kind),
                ch,
                k as int,
            ),
            KindV::MultiSurface(ch) => lemma_members_wf_index(
                tag_of(g@.node.kind),
                ch,
                k as int,
            ),
            KindV::GeometryCollection(ch) => lemma_members_wf_index(
                tag_of(g@.node.kind),
                ch,
                k as int,
            ),
            _ => (),
        }
    }
    Geometry { srid: g.srid, node: nd }
}

/// The per-row part at a per-row index; a row whose index is out of range
/// comes back null rather than failing.
pub fn get_geometry_n(wkb: &Vec<Option<Vec<u8>>>, index: &Vec<Option<u32>>) -> (r: Result<
    Vec<Option<Vec<u8>>>,
    Error,
>)
    requires
        bcast_ok(wkb@, index@),
    ensures
        match r {
            Ok(out) => out@.len() == bcast_len(wkb@, index@) && forall|i: int|
                0 <= i < out@.len() ==> (match (bcast(wkb@, i), #[trigger] bcast(index@, i)) {
                    (Option::Some(c), Option::Some(k)) => cell_geom(c@) matches Some(g) && (
                    if (k as int) < parts_count(g.node) {
                        out@[i] matches Some(oc) && oc@ == enc(part_geom(g, k as int))
                    } else {
                        out@[i] is None
                    }),
                    _ => out@[i] is None,
                }),
            Err(e) => e == Error::MalformedEncoding && exists|i: int|
                0 <= i < bcast_len(wkb@, index@) && ((#[trigger] bcast(wkb@, i)) matches Some(
                    c,
                ) && (bcast(index@, i) is Some && cell_geom(c@) is None)),
        },
{
    let nw = wkb.len();
    let nk = index.len();
    if nw == 0 || nk == 0 {
        let out: Vec<Option<Vec<u8>>> = Vec::new();
        return Ok(out);
    }
    let n: usize = if nw >= nk {
        nw
    } else {
        nk
    };
    let mut out: Vec<Option<Vec<u8>>> = Vec::new();
    let mut i: usize = 0;
    while i < n
        invariant
            0 <= i <= n,
            nw == wkb@.len(),
            nk == index@.len(),
            n == bcast_len(wkb@, index@),
            nw == n || nw == 1,
            nk == n || nk == 1,
            out@.len() == i,
            forall|j: int| 0 <= j < i ==> (match (bcast(wkb@, j), #[trigger] bcast(index@, j)) {
                (Option::Some(c), Option::Some(k)) => cell_geom(c@) matches Some(g) && (
                if (k as int) < parts_count(g.node) {
                    out@[j] matches Some(oc) && oc@ == enc(part_geom(g, k as int))
                } else {
                    out@[j] is None
                }),
                _ => out@[j] is None,
            }),
        decreases n - i,
    {
        let wi: usize = if nw == 1 {
            0
        } else {
            i
        };
        let ki: usize = if nk == 1 {
            0
        } else {
            i
        };
        match (&wkb[wi], &index[ki]) {
            (Some(cell), Some(k)) => {
                let g = match decode_geometry(cell) {
                    Err(_) => {
                proof {
                    assert((#[trigger] bcast(wkb@, i as int)) == wkb@[wi as int]);
                    assert(bcast(index@, i as int) is Some);
                }
                        return Err(Error::MalformedEncoding);
                    },
                    Ok(g) => g,
                };
                let count = num_parts(&g.node);
                if *k < count {
                    let part = take_part(&g, *k as usize);
                    out.push(Some(to_ewkb(&part)));
                } else {
                    out.push(None);
                }
            },
            _ => {
                out.push(None);
            },
        }
        i = i + 1;
    }
    Ok(out)
}

/// Every direct part of every cell's geometry, in order.
pub fn get_parts(wkb: &Vec<Option<Vec<u8>>>) -> (r: Result<Vec<Option<Vec<Vec<u8>>>>, Error>)
    ensures
        match r {
            Ok(out) => out@.len() == wkb@.len() && forall|i: int| 0 <= i < wkb@.len()
                ==> (match #[trigger] wkb@[i] {
                    Option::None => out@[i] is None,
                    Option::Some(c) => cell_geom(c@) matches Some(g) && (out@[i] matches Some(ps)
                        && ps@.len() == parts_count(g.node) && forall|k: int|
                        0 <= k < ps@.len() ==> (#[trigger] ps@[k])@ == enc(part_geom(g, k))),
                }),
            Err(e) => e == Error::MalformedEncoding && exists|i: int|
                0 <= i < wkb@.len() && ((#[trigger] wkb@[i]) matches Some(c) && cell_geom(c@)
                    is None),
        },
{
    let n = wkb.len();
    let mut out: Vec<Option<Vec<Vec<u8>>>> = Vec::new();
    let mut i: usize = 0;
    while i < n
        invariant
            0 <= i <= n,
            n == wkb@.len(),
            out@.len() == i,
            forall|j: int| 0 <= j < i ==> (match #[trigger] wkb@[j] {
                Option::None => out@[j] is None,
                Option::Some(c) => cell_geom(c@) matches Some(g) && (out@[j] matches Some(ps)
                    && ps@.len() == parts_count(g.node) && forall|k: int|
                    0 <= k < ps@.len() ==> (#[trigger] ps@[k])@ == enc(part_geom(g, k))),
            }),
        decreases n - i,
    {
        match &wkb[i] {
            None => {
                out.push(None);
            },
            Some(cell) => {
                let g = match decode_geometry(cell) {
                    Err(_) => {
                        return Err(Error::MalformedEncoding);
                    },
                    Ok(g) => g,
                };
                let count = num_parts(&g.node);
                let mut ps: Vec<Vec<u8>> = Vec::new();
                let mut k: u32 = 0;
                while k < count
                    invariant
                        0 <= k <= count,
                        count == parts_count(g@.node),
                        geometry_wf(g@),
                        ps@.len() == k,
                        forall|q: int| 0 <= q < k ==> (#[trigger] ps@[q])@ == enc(
                            part_geom(g@, q),
                        ),
                    decreases count - k,
                {
                    let part = take_part(&g, k as usize);
                    ps.push(to_ewkb(&part));
                    k = k + 1;
                }
                out.push(Some(ps));
            },
        }
        i = i + 1;
    }
    Ok(out)
}

/// The line string a list of uniform coordinate rows denotes.
pub open spec fn linestring_geom(rows: Seq<Seq<u64>>) -> GeometryV {
    GeometryV {
        srid: 0,
        node: NodeV {
            has_z: rows.len() > 0 && rows[0].len() > 2,
            has_m: rows.len() > 0 && rows[0].len() > 3,
            kind: KindV::LineString(rows.map_values(|row: Seq<u64>| coord_of_row(row))),
        },
    }
}

/// Builds one line string per cell from a list of coordinate rows. Every
/// row must have the arity of the first; an empty list gives the empty
/// planar line string.
pub fn linestring(coords: &Vec<Option<Vec<Vec<u64>>>>) -> (r: Result<Vec<Option<Vec<u8>>>, Error>)
    ensures
        match r {
            Ok(out) => out@.len() == coords@.len() && forall|i: int| 0 <= i < coords@.len()
                ==> (match #[trigger] coords@[i] {
                    Option::None => out@[i] is None,
                    Option::Some(rows) => crate::ops::rows_ok(rows@.map_values(|r: Vec<u64>| r@))
                        && (out@[i] matches Some(oc) && oc@ == enc(
                        linestring_geom(rows@.map_values(|r: Vec<u64>| r@)),
                    )),
                }),
            Err(e) => e == Error::NonUniformCoordinateDimension && exists|i: int|
                0 <= i < coords@.len() && ((#[trigger] coords@[i]) matches Some(rows)
                    && !crate::ops::rows_ok(rows@.map_values(|r: Vec<u64>| r@))),
        },
{
    let n = coords.len();
    let mut out: Vec<Option<Vec<u8>>> = Vec::new();
    let mut i: usize = 0;
    while i < n
        invariant
            0 <= i <= n,
            n == coords@.len(),
            out@.len() == i,
            forall|j: int| 0 <= j < i ==> (match #[trigger] coords@[j] {
                Option::None => out@[j] is None,
                Option::Some(rows) => crate::ops::rows_ok(rows@.map_values(|r: Vec<u64>| r@))
                    && (out@[j] matches Some(oc) && oc@ == enc(
                    linestring_geom(rows@.map_values(|r: Vec<u64>| r@)),
                )),
            }),
        decreases n - i,
    {
        match &coords[i] {
            None => {
                out.push(None);
            },
            Some(rows) => {
                match build_linestring(rows) {
                    Err(e) => {
                        return Err(e);
                    },
                    Ok(g) => {
                        out.push(Some(to_ewkb(&g)));
                    },
                }
            },
        }
        i = i + 1;
    }
    Ok(out)
}

/// The coordinate count of a line string; zero for every other shape.
pub open spec fn line_point_count(n: NodeV) -> int {
    match n.kind {
        KindV::LineString(cs) => cs.len() as int,
        _ => 0,
    }
}

/// The coordinate count of every cell that is a line string; zero rows
/// for other shapes.
pub fn get_num_points(wkb: &Vec<Option<Vec<u8>>>) -> (r: Result<Vec<Option<u32>>, Error>)
    ensures
        match r {
            Ok(out) => out@.len() == wkb@.len() && forall|i: int| 0 <= i < wkb@.len()
                ==> (match #[trigger] wkb@[i] {
                    Option::None => out@[i] is None,
                    Option::Some(c) => cell_geom(c@) matches Some(g) && out@[i] == Some(
                        line_point_count(g.node) as u32,
                    ),
                }),
            Err(e) => e == Error::MalformedEncoding && exists|i: int|
                0 <= i < wkb@.len() && ((#[trigger] wkb@[i]) matches Some(c) && cell_geom(c@)
                    is None),
        },
{
    let n = wkb.len();
    let mut out: Vec<Option<u32>> = Vec::new();
    let mut i: usize = 0;
    while i < n
        invariant
            0 <= i <= n,
            n == wkb@.len(),
            out@.len() == i,
            forall|j: int| 0 <= j < i ==> (match #[trigger] wkb@[j] {
                Option::None => out@[j] is None,
                Option::Some(c) => cell_geom(c@) matches Some(g) && out@[j] == Some(
                    line_point_count(g.node) as u32,
                ),
            }),
        decreases n - i,
    {
        match &wkb[i] {
            None => {
                out.push(None);
            },
            Some(cell) => {
                let g = match decode_geometry(cell) {
                    Err(_) => {
                        return Err(Error::MalformedEncoding);
                    },
                    Ok(g) => g,
                };
                let k: u32 = match &g.node.kind {
                    Kind::LineString(cs) => cs.len() as u32,
                    _ => 0,
                };
                out.push(Some(k));
            },
        }
        i = i + 1;
    }
    Ok(out)
}

/// The interior-ring count of a polygon: its rings beyond the exterior.
pub open spec fn interior_ring_count(n: NodeV) -> int {
    match n.kind {
        KindV::Polygon(rs) => if rs.len() == 0 {
            0
        } else {
            rs.len() - 1
        },
        _ => 0,
    }
}

/// The interior-ring count of every cell that is a polygon.
pub fn get_num_interior_rings(wkb: &Vec<Option<Vec<u8>>>) -> (r: Result<Vec<Option<u32>>, Error>)
    ensures
        match r {
            Ok(out) => out@.len() == wkb@.len() && forall|i: int| 0 <= i < wkb@.len()
                ==> (match #[trigger] wkb@[i] {
                    Option::None => out@[i] is None,
                    Option::Some(c) => cell_geom(c@) matches Some(g) && out@[i] == Some(
                        interior_ring_count(g.node) as u32,
                    ),
                }),
            Err(e) => e == Error::MalformedEncoding && exists|i: int|
                0 <= i < wkb@.len() && ((#[trigger] wkb@[i]) matches Some(c) && cell_geom(c@)
                    is None),
        },
{
    let n = wkb.len();
    let mut out: Vec<Option<u32>> = Vec::new();
    let mut i: usize = 0;
    while i < n
        invariant
            0 <= i <= n,
            n == wkb@.len(),
            out@.len() == i,
            forall|j: int| 0 <= j < i ==> (match #[trigger] wkb@[j] {
                Option::None => out@[j] is None,
                Option::Some(c) => cell_geom(c@) matches Some(g) && out@[j] == Some(
                    interior_ring_count(g.node) as u32,
                ),
            }),
        decreases n - i,
    {
        match &wkb[i] {
            None => {
                out.push(None);
            },
            Some(cell) => {
                let g = match decode_geometry(cell) {
                    Err(_) => {
                        return Err(Error::MalformedEncoding);
                    },
                    Ok(g) => g,
                };
                let k: u32 = match &g.node.kind {
                    Kind::Polygon(rs) => if rs.len() == 0 {
                        0
                    } else {
                        (rs.len() - 1) as u32
                    },
                    _ => 0,
                };
                out.push(Some(k));
            },
        }
        i = i + 1;
    }
    Ok(out)
}

/// A polygon ring re-read as a line string under the parent's flags and
/// spatial reference.
pub open spec fn ring_geom(g: GeometryV, k: int) -> GeometryV {
    GeometryV {
        srid: g.srid,
        node: NodeV {
            has_z: g.node.has_z,
            has_m: g.node.has_m,
            kind: KindV::LineString(
                match g.node.kind {
                    KindV::Polygon(rs) => if 0 <= k < rs.len() {
                        rs[k]
                    } else {
                        Seq::empty()
                    },
                    _ => Seq::empty(),
                },
            ),
        },
    }
}

/// The exterior ring of every polygon cell, as a line string; the empty
/// line string for a polygon with no rings, null for any other shape.
pub fn get_exterior_ring(wkb: &Vec<Option<Vec<u8>>>) -> (r: Result<Vec<Option<Vec<u8>>>, Error>)
    ensures
        match r {
            Ok(out) => out@.len() == wkb@.len() && forall|i: int| 0 <= i < wkb@.len()
                ==> (match #[trigger] wkb@[i] {
                    Option::None => out@[i] is None,
                    Option::Some(c) => cell_geom(c@) matches Some(g) && (
                    if g.node.kind is Polygon {
                        out@[i] matches Some(oc) && oc@ == enc(ring_geom(g, 0))
                    } else {
                        out@[i] is None
                    }),
                }),
            Err(e) => e == Error::MalformedEncoding && exists|i: int|
                0 <= i < wkb@.len() && ((#[trigger] wkb@[i]) matches Some(c) && cell_geom(c@)
                    is None),
        },
{
    let n = wkb.len();
    let mut out: Vec<Option<Vec<u8>>> = Vec::new();
    let mut i: usize = 0;
    while i < n
        invariant
            0 <= i <= n,
            n == wkb@.len(),
            out@.len() == i,
            forall|j: int| 0 <= j < i ==> (match #[trigger] wkb@[j] {
                Option::None => out@[j] is None,
                Option::Some(c) => cell_geom(c@) matches Some(g) && (
                if g.node.kind is Polygon {
                    out@[j] matches Some(oc) && oc@ == enc(ring_geom(g, 0))
                } else {
                    out@[j] is None
                }),
            }),
        decreases n - i,
    {
        match &wkb[i] {
            None => {
                out.push(None);
            },
            Some(cell) => {
                let g = match decode_geometry(cell) {
                    Err(_) => {
                        return Err(Error::MalformedEncoding);
                    },
                    Ok(g) => g,
                };
                match &g.node.kind {
                    Kind::Polygon(rs) => {
                        let ring: Vec<Coord> = if rs.len() == 0 {
                            Vec::new()
                        } else {
                            clone_coords(&rs[0])
                        };
                        let rg = Geometry {
                            srid: g.srid,
                            node: Node {
                                has_z: g.node.has_z,
                                has_m: g.node.has_m,
                                kind: Kind::LineString(ring),
                            },
                        };
                        proof {
                            assert(rg@.node.kind->LineString_0 =~= ring_geom(
                                cell_geom(cell@)->Some_0,
                                0,
                            ).node.kind->LineString_0);
                            assert(rg@ == ring_geom(cell_geom(cell@)->Some_0, 0));
                        }
                        out.push(Some(to_ewkb(&rg)));
                    },
                    _ => {
                        out.push(None);
                    },
                }
            },
        }
        i = i + 1;
    }
    Ok(out)
}

/// The per-row interior ring at a per-row index, as a line string; out of
/// range or not a polygon gives null.
pub fn get_interior_ring_n(wkb: &Vec<Option<Vec<u8>>>, index: &Vec<Option<u32>>) -> (r: Result<
    Vec<Option<Vec<u8>>>,
    Error,
>)
    requires
        bcast_ok(wkb@, index@),
    ensures
        match r {
            Ok(out) => out@.len() == bcast_len(wkb@, index@) && forall|i: int|
                0 <= i < out@.len() ==> (match (bcast(wkb@, i), #[trigger] bcast(index@, i)) {
                    (Option::Some(c), Option::Some(k)) => cell_geom(c@) matches Some(g) && (
                    if (k as int) < interior_ring_count(g.node) {
                        out@[i] matches Some(oc) && oc@ == enc(ring_geom(g, k + 1))
                    } else {
                        out@[i] is None
                    }),
                    _ => out@[i] is None,
                }),
            Err(e) => e == Error::MalformedEncoding && exists|i: int|
                0 <= i < bcast_len(wkb@, index@) && ((#[trigger] bcast(wkb@, i)) matches Some(
                    c,
                ) && (bcast(index@, i) is Some && cell_geom(c@) is None)),
        },
{
    let nw = wkb.len();
    let nk = index.len();
    if nw == 0 || nk == 0 {
        let out: Vec<Option<Vec<u8>>> = Vec::new();
        return Ok(out);
    }
    let n: usize = if nw >= nk {
        nw
    } else {
        nk
    };
    let mut out: Vec<Option<Vec<u8>>> = Vec::new();
    let mut i: usize = 0;
    while i < n
        invariant
            0 <= i <= n,
            nw == wkb@.len(),
            nk == index@.len(),
            n == bcast_len(wkb@, index@),
            nw == n || nw == 1,
            nk == n || nk == 1,
            out@.len() == i,
            forall|j: int| 0 <= j < i ==> (match (bcast(wkb@, j), #[trigger] bcast(index@, j)) {
                (Option::Some(c), Option::Some(k)) => cell_geom(c@) matches Some(g) && (
                if (k as int) < interior_ring_count(g.node) {
                    out@[j] matches Some(oc) && oc@ == enc(ring_geom(g, k + 1))
                } else {
                    out@[j] is None
                }),
                _ => out@[j] is None,
            }),
        decreases n - i,
    {
        let wi: usize = if nw == 1 {
            0
        } else {
            i
        };
        let ki: usize = if nk == 1 {
            0
        } else {
            i
        };
        match (&wkb[wi], &index[ki]) {
            (Some(cell), Some(k)) => {
                let g = match decode_geometry(cell) {
                    Err(_) => {
                proof {
                    assert((#[trigger] bcast(wkb@, i as int)) == wkb@[wi as int]);
                    assert(bcast(index@, i as int) is Some);
                }
                        return Err(Error::MalformedEncoding);
                    },
                    Ok(g) => g,
                };
                let mut pushed = false;
                match &g.node.kind {
                    Kind::Polygon(rs) => {
                        if rs.len() > 0 && (*k as usize) < rs.len() - 1 {
                            let ring = clone_coords(&rs[(*k as usize) + 1]);
                            let rg = Geometry {
                                srid: g.srid,
                                node: Node {
                                    has_z: g.node.has_z,
                                    has_m: g.node.has_m,
                                    kind: Kind::LineString(ring),
                                },
                            };
                            proof {
                                assert(rg@.node.kind->LineString_0 =~= ring_geom(
                                    cell_geom(cell@)->Some_0,
                                    *k + 1,
                                ).node.kind->LineString_0);
                                assert(rg@ == ring_geom(cell_geom(cell@)->Some_0, *k + 1));
                            }
                            out.push(Some(to_ewkb(&rg)));
                            pushed = true;
                        }
                    },
                    _ => {},
                }
                if !pushed {
                    out.push(None);
                }
            },
            _ => {
                out.push(None);
            },
        }
        i = i + 1;
    }
    Ok(out)
}

/// Every interior ring of every polygon cell, each as a line string; an
/// empty list for any other shape.
pub fn get_interior_rings(wkb: &Vec<Option<Vec<u8>>>) -> (r: Result<
    Vec<Option<Vec<Vec<u8>>>>,
    Error,
>)
    ensures
        match r {
            Ok(out) => out@.len() == wkb@.len() && forall|i: int| 0 <= i < wkb@.len()
                ==> (match #[trigger] wkb@[i] {
                    Option::None => out@[i] is None,
                    Option::Some(c) => cell_geom(c@) matches Some(g) && (out@[i] matches Some(rs)
                        && rs@.len() == interior_ring_count(g.node) && forall|k: int|
                        0 <= k < rs@.len() ==> (#[trigger] rs@[k])@ == enc(ring_geom(g, k + 1))),
                }),
            Err(e) => e == Error::MalformedEncoding && exists|i: int|
                0 <= i < wkb@.len() && ((#[trigger] wkb@[i]) matches Some(c) && cell_geom(c@)
                    is None),
        },
{
    let n = wkb.len();
    let mut out: Vec<Option<Vec<Vec<u8>>>> = Vec::new();
    let mut i: usize = 0;
    while i < n
        invariant
            0 <= i <= n,
            n == wkb@.len(),
            out@.len() == i,
            forall|j: int| 0 <= j < i ==> (match #[trigger] wkb@[j] {
                Option::None => out@[j] is None,
                Option::Some(c) => cell_geom(c@) matches Some(g) && (out@[j] matches Some(rs)
                    && rs@.len() == interior_ring_count(g.node) && forall|k: int|
                    0 <= k < rs@.len() ==> (#[trigger] rs@[k])@ == enc(ring_geom(g, k + 1))),
            }),
        decreases n - i,
    {
        match &wkb[i] {
            None => {
                out.push(None);
            },
            Some(cell) => {
                let g = match decode_geometry(cell) {
                    Err(_) => {
                        return Err(Error::MalformedEncoding);
                    },
                    Ok(g) => g,
                };
                let mut rs: Vec<Vec<u8>> = Vec::new();
                match &g.node.kind {
                    Kind::Polygon(rings) => {
                        let nr = rings.len();
                        let mut k: usize = 1;
                        while k < nr
                            invariant
                                1 <= k <= nr || (nr == 0 && k == 1),
                                nr == rings@.len(),
                                g@.node.kind is Polygon,
                                g@.node.kind->Polygon_0 == crate::geometry::rings_view(rings@),
                                geometry_wf(g@),
                                rs@.len() == (if k > nr {
                                    0int
                                } else {
                                    k - 1
                                }),
                                forall|q: int| 0 <= q < rs@.len() ==> (#[trigger] rs@[q])@ == enc(
                                    ring_geom(g@, q + 1),
                                ),
                            decreases nr - k,
                        {
                            let ring = clone_coords(&rings[k]);
                            let rg = Geometry {
                                srid: g.srid,
                                node: Node {
                                    has_z: g.node.has_z,
                                    has_m: g.node.has_m,
                                    kind: Kind::LineString(ring),
                                },
                            };
                            proof {
                                assert(rg@.node.kind->LineString_0 =~= ring_geom(
                                    g@,
                                    k as int,
                                ).node.kind->LineString_0);
                                assert(rg@ == ring_geom(g@, k as int));
                            }
                            rs.push(to_ewkb(&rg));
                            k = k + 1;
                        }
                    },
                    _ => {},
                }
                out.push(Some(rs));
            },
        }
        i = i + 1;
    }
    Ok(out)
}

/// The point a line-string coordinate explodes into, under the parent's
/// flags and spatial reference; an all-NaN position is the empty point.
pub open spec fn line_point_geom(g: GeometryV, k: int) -> GeometryV {
    GeometryV {
        srid: g.srid,
        node: crate::cast::point_of_coord(
            g.node.has_z,
            g.node.has_m,
            match g.node.kind {
                KindV::LineString(cs) => if 0 <= k < cs.len() {
                    cs[k]
                } else {
                    Coord { x: NAN_BITS, y: NAN_BITS, z: NAN_BITS, m: NAN_BITS }
                },
                _ => Coord { x: NAN_BITS, y: NAN_BITS, z: NAN_BITS, m: NAN_BITS },
            },
        ),
    }
}

/// The per-row line-string coordinate at a per-row index, as a point; out
/// of range or not a line string gives null.
pub fn get_point_n(wkb: &Vec<Option<Vec<u8>>>, index: &Vec<Option<u32>>) -> (r: Result<
    Vec<Option<Vec<u8>>>,
    Error,
>)
    requires
        bcast_ok(wkb@, index@),
    ensures
        match r {
            Ok(out) => out@.len() == bcast_len(wkb@, index@) && forall|i: int|
                0 <= i < out@.len() ==> (match (bcast(wkb@, i), #[trigger] bcast(index@, i)) {
                    (Option::Some(c), Option::Some(k)) => cell_geom(c@) matches Some(g) && (
                    if (k as int) < line_point_count(g.node) {
                        out@[i] matches Some(oc) && oc@ == enc(line_point_geom(g, k as int))
                    } else {
                        out@[i] is None
                    }),
                    _ => out@[i] is None,
                }),
            Err(e) => e == Error::MalformedEncoding && exists|i: int|
                0 <= i < bcast_len(wkb@, index@) && ((#[trigger] bcast(wkb@, i)) matches Some(
                    c,
                ) && (bcast(index@, i) is Some && cell_geom(c@) is None)),
        },
{
    let nw = wkb.len();
    let nk = index.len();
    if nw == 0 || nk == 0 {
        let out: Vec<Option<Vec<u8>>> = Vec::new();
        return Ok(out);
    }
    let n: usize = if nw >= nk {
        nw
    } else {
        nk
    };
    let mut out: Vec<Option<Vec<u8>>> = Vec::new();
    let mut i: usize = 0;
    while i < n
        invariant
            0 <= i <= n,
            nw == wkb@.len(),
            nk == index@.len(),
            n == bcast_len(wkb@, index@),
            nw == n || nw == 1,
            nk == n || nk == 1,
            out@.len() == i,
            forall|j: int| 0 <= j < i ==> (match (bcast(wkb@, j), #[trigger] bcast(index@, j)) {
                (Option::Some(c), Option::Some(k)) => cell_geom(c@) matches Some(g) && (
                if (k as int) < line_point_count(g.node) {
                    out@[j] matches Some(oc) && oc@ == enc(line_point_geom(g, k as int))
                } else {
                    out@[j] is None
                }),
                _ => out@[j] is None,
            }),
        decreases n - i,
    {
        let wi: usize = if nw == 1 {
            0
        } else {
            i
        };
        let ki: usize = if nk == 1 {
            0
        } else {
            i
        };
        match (&wkb[wi], &index[ki]) {
            (Some(cell), Some(k)) => {
                let g = match decode_geometry(cell) {
                    Err(_) => {
                proof {
                    assert((#[trigger] bcast(wkb@, i as int)) == wkb@[wi as int]);
                    assert(bcast(index@, i as int) is Some);
                }
                        return Err(Error::MalformedEncoding);
                    },
                    Ok(g) => g,
                };
                let mut pushed = false;
                match &g.node.kind {
                    Kind::LineString(cs) => {
                        if (*k as usize) < cs.len() {
                            let c = cs[*k as usize];
                            let oc: Option<Coord> = if crate::bits::nan_bits(c.x)
                                && crate::bits::nan_bits(c.y) {
                                None
                            } else {
                                Some(Coord {
                                    x: c.x,
                                    y: c.y,
                                    z: if g.node.has_z {
                                        c.z
                                    } else {
                                        NAN_BITS
                                    },
                                    m: if g.node.has_m {
                                        c.m
                                    } else {
                                        NAN_BITS
                                    },
                                })
                            };
                            let pg = Geometry {
                                srid: g.srid,
                                node: Node {
                                    has_z: g.node.has_z,
                                    has_m: g.node.has_m,
                                    kind: Kind::Point(oc),
                                },
                            };
                            out.push(Some(to_ewkb(&pg)));
                            pushed = true;
                        }
                    },
                    _ => {},
                }
                if !pushed {
                    out.push(None);
                }
            },
            _ => {
                out.push(None);
            },
        }
        i = i + 1;
    }
    Ok(out)
}

/// Builds one circular string per cell from a list of coordinate rows:
/// the same coordinate run as a line string, under arc semantics. Arc
/// well-formedness is the caller's to ensure.
pub fn circularstring(coords: &Vec<Option<Vec<Vec<u64>>>>) -> (r: Result<
    Vec<Option<Vec<u8>>>,
    Error,
>)
    ensures
        match r {
            Ok(out) => out@.len() == coords@.len() && forall|i: int| 0 <= i < coords@.len()
                ==> (match #[trigger] coords@[i] {
                    Option::None => out@[i] is None,
                    Option::Some(rows) => crate::ops::rows_ok(rows@.map_values(|r: Vec<u64>| r@))
                        && (out@[i] matches Some(oc) && oc@ == enc(
                        circularstring_geom(rows@.map_values(|r: Vec<u64>| r@)),
                    )),
                }),
            Err(e) => e == Error::NonUniformCoordinateDimension && exists|i: int|
                0 <= i < coords@.len() && ((#[trigger] coords@[i]) matches Some(rows)
                    && !crate::ops::rows_ok(rows@.map_values(|r: Vec<u64>| r@))),
        },
{
    let n = coords.len();
    let mut out: Vec<Option<Vec<u8>>> = Vec::new();
    let mut i: usize = 0;
    while i < n
        invariant
            0 <= i <= n,
            n == coords@.len(),
            out@.len() == i,
            forall|j: int| 0 <= j < i ==> (match #[trigger] coords@[j] {
                Option::None => out@[j] is None,
                Option::Some(rows) => crate::ops::rows_ok(rows@.map_values(|r: Vec<u64>| r@))
                    && (out@[j] matches Some(oc) && oc@ == enc(
                    circularstring_geom(rows@.map_values(|r: Vec<u64>| r@)),
                )),
            }),
        decreases n - i,
    {
        match &coords[i] {
            None => {
                out.push(None);
            },
            Some(rows) => {
                match build_linestring(rows) {
                    Err(e) => {
                        return Err(e);
                    },
                    Ok(g) => {
                        let cs: Vec<Coord> = match g.node.kind {
                            Kind::LineString(cs) => cs,
                            _ => Vec::new(),
                        };
                        let g2 = Geometry {
                            srid: 0,
                            node: Node {
                                has_z: g.node.has_z,
                                has_m: g.node.has_m,
                                kind: Kind::CircularString(cs),
                            },
                        };
                        proof {
                            assert(g2@ == circularstring_geom(
                                rows@.map_values(|r: Vec<u64>| r@),
                            ));
                        }
                        out.push(Some(to_ewkb(&g2)));
                    },
                }
            },
        }
        i = i + 1;
    }
    Ok(out)
}

/// The circular string a list of uniform coordinate rows denotes.
pub open spec fn circularstring_geom(rows: Seq<Seq<u64>>) -> GeometryV {
    GeometryV {
        srid: 0,
        node: NodeV {
            has_z: rows.len() > 0 && rows[0].len() > 2,
            has_m: rows.len() > 0 && rows[0].len() > 3,
            kind: KindV::CircularString(rows.map_values(|row: Seq<u64>| coord_of_row(row))),
        },
    }
}

/// Builds one multi-point per cell from a list of coordinate rows: the
/// run is read as a line string and its coordinates exploded into points.
pub fn multipoint(coords: &Vec<Option<Vec<Vec<u64>>>>) -> (r: Result<Vec<Option<Vec<u8>>>, Error>)
    ensures
        match r {
            Ok(out) => out@.len() == coords@.len() && forall|i: int| 0 <= i < coords@.len()
                ==> (match #[trigger] coords@[i] {
                    Option::None => out@[i] is None,
                    Option::Some(rows) => crate::ops::rows_ok(rows@.map_values(|r: Vec<u64>| r@))
                        && (spec_cast(
                        linestring_geom(rows@.map_values(|r: Vec<u64>| r@)),
                        GeomType::MultiPoint,
                    ) matches Some(g2) && (out@[i] matches Some(oc) && oc@ == enc(g2))),
                }),
            Err(e) => e == Error::NonUniformCoordinateDimension && exists|i: int|
                0 <= i < coords@.len() && ((#[trigger] coords@[i]) matches Some(rows)
                    && !crate::ops::rows_ok(rows@.map_values(|r: Vec<u64>| r@))),
        },
{
    let n = coords.len();
    let mut out: Vec<Option<Vec<u8>>> = Vec::new();
    let mut i: usize = 0;
    while i < n
        invariant
            0 <= i <= n,
            n == coords@.len(),
            out@.len() == i,
            forall|j: int| 0 <= j < i ==> (match #[trigger] coords@[j] {
                Option::None => out@[j] is None,
                Option::Some(rows) => crate::ops::rows_ok(rows@.map_values(|r: Vec<u64>| r@))
                    && (spec_cast(
                    linestring_geom(rows@.map_values(|r: Vec<u64>| r@)),
                    GeomType::MultiPoint,
                ) matches Some(g2) && (out@[j] matches Some(oc) && oc@ == enc(g2))),
            }),
        decreases n - i,
    {
        match &coords[i] {
            None => {
                out.push(None);
            },
            Some(rows) => {
                match build_linestring(rows) {
                    Err(e) => {
                        return Err(e);
                    },
                    Ok(g) => {
                        match cast_geometry(&g, GeomType::MultiPoint) {
                            Err(_) => {
                                // Unreachable: a line string always casts
                                // to a multi-point.
                                proof {
                                    assert(spec_cast(g@, GeomType::MultiPoint) is Some);
                                }
                                return Err(Error::NonUniformCoordinateDimension);
                            },
                            Ok(g2) => {
                                out.push(Some(to_ewkb(&g2)));
                            },
                        }
                    },
                }
            },
        }
        i = i + 1;
    }
    Ok(out)
}

/// The arity of the first coordinate row in ring-major order; two when
/// there is none.
pub open spec fn first_arity(rings: Seq<Seq<Seq<u64>>>) -> int
    decreases rings.len(),
{
    if rings.len() == 0 {
        2
    } else if rings[0].len() > 0 {
        rings[0][0].len() as int
    } else {
        first_arity(rings.drop_first())
    }
}

proof fn lemma_first_arity_at(rings: Seq<Seq<Seq<u64>>>, i: int)
    requires
        0 <= i < rings.len(),
        forall|j: int| 0 <= j < i ==> (#[trigger] rings[j]).len() == 0,
        rings[i].len() > 0,
    ensures
        first_arity(rings) == rings[i][0].len(),
    decreases i,
{
    if i > 0 {
        assert(forall|j: int| 0 <= j < i - 1 ==> #[trigger] rings.drop_first()[j] == rings[j + 1]);
        assert(rings.drop_first()[i - 1] == rings[i]);
        lemma_first_arity_at(rings.drop_first(), i - 1);
    }
}

proof fn lemma_first_arity_all_empty(rings: Seq<Seq<Seq<u64>>>)
    requires
        forall|j: int| 0 <= j < rings.len() ==> (#[trigger] rings[j]).len() == 0,
    ensures
        first_arity(rings) == 2,
    decreases rings.len(),
{
    if rings.len() > 0 {
        assert(forall|j: int| 0 <= j < rings.drop_first().len() ==> #[trigger] rings.drop_first()[j]
            == rings[j + 1]);
        lemma_first_arity_all_empty(rings.drop_first());
    }
}

/// One ring from its rows, each of the given arity.
fn ring_from_rows(rows: &Vec<Vec<u64>>, dim: usize) -> (r: Result<Vec<Coord>, Error>)
    requires
        2 <= dim <= 4,
    ensures
        match r {
            Ok(cs) => cs@.len() == rows@.len() && (forall|j: int|
                0 <= j < rows@.len() ==> (#[trigger] rows@[j])@.len() == dim) && cs@
                == rows@.map_values(|row: Vec<u64>| coord_of_row(row@)),
            Err(e) => e == Error::NonUniformCoordinateDimension && exists|j: int|
                0 <= j < rows@.len() && (#[trigger] rows@[j])@.len() != dim,
        },
{
    let n = rows.len();
    let mut cs: Vec<Coord> = Vec::new();
    let mut j: usize = 0;
    while j < n
        invariant
            0 <= j <= n,
            n == rows@.len(),
            2 <= dim <= 4,
            cs@.len() == j,
            forall|q: int| 0 <= q < j ==> (#[trigger] rows@[q])@.len() == dim && cs@[q]
                == coord_of_row(rows@[q]@),
        decreases n - j,
    {
        let row = &rows[j];
        if row.len() != dim {
            return Err(Error::NonUniformCoordinateDimension);
        }
        cs.push(Coord {
            x: row[0],
            y: row[1],
            z: if dim > 2 {
                row[2]
            } else {
                NAN_BITS
            },
            m: if dim > 3 {
                row[3]
            } else {
                NAN_BITS
            },
        });
        j = j + 1;
    }
    proof {
        assert(cs@ =~= rows@.map_values(|row: Vec<u64>| coord_of_row(row@)));
    }
    Ok(cs)
}

/// The rings of a coordinate-list cell, viewed as sequences.
pub open spec fn rings_of_cell(rings: Seq<Vec<Vec<u64>>>) -> Seq<Seq<Seq<u64>>> {
    rings.map_values(|r: Vec<Vec<u64>>| r@.map_values(|row: Vec<u64>| row@))
}

/// The polygon a list of rings denotes: every row shares the arity of the
/// first, and the flags follow that arity.
pub open spec fn polygon_geom(rings: Seq<Seq<Seq<u64>>>) -> GeometryV {
    GeometryV {
        srid: 0,
        node: NodeV {
            has_z: first_arity(rings) > 2,
            has_m: first_arity(rings) > 3,
            kind: KindV::Polygon(
                rings.map_values(|r: Seq<Seq<u64>>| r.map_values(|row: Seq<u64>| coord_of_row(row))),
            ),
        },
    }
}

/// Builds one polygon per cell from a list of rings, the first exterior.
/// Every coordinate row must share the arity of the first row anywhere in
/// the cell; an empty ring list gives the empty planar polygon.
pub fn polygon(coords: &Vec<Option<Vec<Vec<Vec<u64>>>>>) -> (r: Result<Vec<Option<Vec<u8>>>, Error>)
    ensures
        match r {
            Ok(out) => out@.len() == coords@.len() && forall|i: int| 0 <= i < coords@.len()
                ==> (match #[trigger] coords@[i] {
                    Option::None => out@[i] is None,
                    Option::Some(rings) => poly_rings_ok(rings_of_cell(rings@)) && (out@[i]
                        matches Some(oc) && oc@ == enc(polygon_geom(rings_of_cell(rings@)))),
                }),
            Err(e) => e == Error::NonUniformCoordinateDimension && exists|i: int|
                0 <= i < coords@.len() && ((#[trigger] coords@[i]) matches Some(rings)
                    && !poly_rings_ok(rings_of_cell(rings@))),
        },
{
    let n = coords.len();
    let mut out: Vec<Option<Vec<u8>>> = Vec::new();
    let mut i: usize = 0;
    while i < n
        invariant
            0 <= i <= n,
            n == coords@.len(),
            out@.len() == i,
            forall|j: int| 0 <= j < i ==> (match #[trigger] coords@[j] {
                Option::None => out@[j] is None,
                Option::Some(rings) => poly_rings_ok(rings_of_cell(rings@)) && (out@[j]
                    matches Some(oc) && oc@ == enc(polygon_geom(rings_of_cell(rings@)))),
            }),
        decreases n - i,
    {
        match &coords[i] {
            None => {
                out.push(None);
            },
            Some(rings) => match build_polygon(rings) {
                Err(e) => {
                    return Err(e);
                },
                Ok(g) => {
                    out.push(Some(to_ewkb(&g)));
                },
            },
        }
        i = i + 1;
    }
    Ok(out)
}

/// Every row of a ring has arity `d`.
pub open spec fn all_rows_arity(ring: Seq<Seq<u64>>, d: int) -> bool {
    forall|j: int| 0 <= j < ring.len() ==> (#[trigger] ring[j]).len() == d
}

/// A usable ring list: counts fit their fields, the leading arity is
/// usable, and every row everywhere shares it.
pub open spec fn poly_rings_ok(rings: Seq<Seq<Seq<u64>>>) -> bool {
    &&& rings.len() <= MAX_COUNT
    &&& forall|r: int| 0 <= r < rings.len() ==> (#[trigger] rings[r]).len() <= MAX_COUNT
    &&& 2 <= first_arity(rings) <= 4
    &&& forall|r: int| 0 <= r < rings.len() ==> all_rows_arity(
        #[trigger] rings[r],
        first_arity(rings),
    )
}

/// One polygon from its rings; checks the shared arity.
fn build_polygon(rings: &Vec<Vec<Vec<u64>>>) -> (r: Result<Geometry, Error>)
    ensures
        match r {
            Ok(g) => g@ == polygon_geom(rings_of_cell(rings@)) && geometry_wf(g@)
                && poly_rings_ok(rings_of_cell(rings@)),
            Err(e) => e == Error::NonUniformCoordinateDimension && !poly_rings_ok(
                rings_of_cell(rings@),
            ),
        },
{
    let nr = rings.len();
    if nr > crate::geometry::MAX_COUNT {
        return Err(Error::NonUniformCoordinateDimension);
    }
    proof {
        assert(rings_of_cell(rings@).len() == rings@.len());
    }
    // The arity of the first row anywhere, ring-major.
    let mut dim: usize = 2;
    let mut found: bool = false;
    let mut k: usize = 0;
    while k < nr
        invariant
            0 <= k <= nr,
            nr == rings@.len(),
            !found ==> forall|q: int| 0 <= q < k ==> (#[trigger] rings@[q])@.len() == 0,
            !found ==> dim == 2,
            found ==> first_arity(rings_of_cell(rings@)) == dim,
        decreases nr - k,
    {
        if !found && rings[k].len() > 0 {
            dim = rings[k][0].len();
            found = true;
            proof {
                assert(forall|q: int| 0 <= q < k ==> (#[trigger] rings_of_cell(rings@)[q]).len()
                    == 0);
                assert(rings_of_cell(rings@)[k as int].len() > 0);
                assert(rings_of_cell(rings@)[k as int][0] == rings@[k as int]@[0]@);
                lemma_first_arity_at(rings_of_cell(rings@), k as int);
            }
        }
        k = k + 1;
    }
    proof {
        if !found {
            assert(forall|q: int| 0 <= q < rings_of_cell(rings@).len() ==> (
            #[trigger] rings_of_cell(rings@)[q]).len() == 0);
            lemma_first_arity_all_empty(rings_of_cell(rings@));
        }
    }
    if dim < 2 || dim > 4 {
        return Err(Error::NonUniformCoordinateDimension);
    }
    let mut built: Vec<Vec<Coord>> = Vec::new();
    let mut k2: usize = 0;
    while k2 < nr
        invariant
            0 <= k2 <= nr,
            nr == rings@.len(),
            nr <= crate::geometry::MAX_COUNT,
            2 <= dim <= 4,
            first_arity(rings_of_cell(rings@)) == dim,
            built@.len() == k2,
            forall|q: int| 0 <= q < k2 ==> (#[trigger] built@[q])@ == rings_of_cell(
                rings@,
            )[q].map_values(|row: Seq<u64>| coord_of_row(row)) && built@[q]@.len()
                == rings@[q]@.len() && rings@[q]@.len() <= crate::geometry::MAX_COUNT,
            forall|q: int| 0 <= q < k2 ==> crate::geometry::coords_wf(
                dim > 2,
                dim > 3,
                (#[trigger] built@[q])@,
            ),
            forall|q: int| 0 <= q < k2 ==> all_rows_arity(
                #[trigger] rings_of_cell(rings@)[q],
                dim as int,
            ),
        decreases nr - k2,
    {
        if rings[k2].len() > crate::geometry::MAX_COUNT {
            proof {
                assert((#[trigger] rings_of_cell(rings@)[k2 as int]).len() == rings@[k2 as int]@.len());
            }
            return Err(Error::NonUniformCoordinateDimension);
        }
        match ring_from_rows(&rings[k2], dim) {
            Err(e) => {
                proof {
                    let j = choose|j: int| 0 <= j < rings@[k2 as int]@.len() && (
                    #[trigger] rings@[k2 as int]@[j])@.len() != dim;
                    assert((#[trigger] rings_of_cell(rings@)[k2 as int])[j].len() != dim);
                    assert(!all_rows_arity(rings_of_cell(rings@)[k2 as int], dim as int));
                }
                return Err(e);
            },
            Ok(cs) => {
                proof {
                    assert(cs@ =~= rings_of_cell(rings@)[k2 as int].map_values(
                        |row: Seq<u64>| coord_of_row(row),
                    ));
                    assert forall|j: int| 0 <= j < cs@.len() implies crate::geometry::coord_wf(
                        dim > 2,
                        dim > 3,
                        #[trigger] cs@[j],
                    ) by {
                        assert(cs@[j] == coord_of_row(rings@[k2 as int]@[j]@));
                        assert(rings@[k2 as int]@[j]@.len() == dim);
                    }
                    assert forall|j: int| 0 <= j < rings_of_cell(rings@)[k2 as int].len()
                        implies (#[trigger] rings_of_cell(rings@)[k2 as int][j]).len()
                        == dim by {
                        assert(rings_of_cell(rings@)[k2 as int][j] == rings@[k2 as int]@[j]@);
                    }
                }
                built.push(cs);
            },
        }
        k2 = k2 + 1;
    }
    let g = Geometry {
        srid: 0,
        node: Node { has_z: dim > 2, has_m: dim > 3, kind: Kind::Polygon(built) },
    };
    proof {
        let want = polygon_geom(rings_of_cell(rings@));
        assert(g@.node.kind->Polygon_0 =~~= want.node.kind->Polygon_0);
        assert(g@.node.kind == want.node.kind);
        assert(g@ == want);
        assert forall|q: int| 0 <= q < g@.node.kind->Polygon_0.len() implies (
        #[trigger] g@.node.kind->Polygon_0[q]).len() <= crate::geometry::MAX_COUNT
            && crate::geometry::coords_wf(
            g@.node.has_z,
            g@.node.has_m,
            g@.node.kind->Polygon_0[q],
        ) by {
            assert(g@.node.kind->Polygon_0[q] == built@[q]@);
        }
        assert forall|r: int| 0 <= r < rings_of_cell(rings@).len() implies (
        #[trigger] rings_of_cell(rings@)[r]).len() <= crate::geometry::MAX_COUNT by {
            assert((#[trigger] built@[r])@.len() == rings@[r]@.len());
            assert(rings_of_cell(rings@)[r] == rings@[r]@.map_values(|row: Vec<u64>| row@));
        }
        assert(poly_rings_ok(rings_of_cell(rings@)));
    }
    Ok(g)
}

/// The multi-line-string a list of lines denotes: each line is read as its
/// own line string, with its own arity; the collection's flags follow the
/// first line.
pub open spec fn multilinestring_geom(lines: Seq<Seq<Seq<u64>>>) -> GeometryV {
    let members = lines.map_values(|rows: Seq<Seq<u64>>| linestring_geom(rows).node);
    GeometryV {
        srid: 0,
        node: NodeV {
            has_z: lines.len() > 0 && members[0].has_z,
            has_m: lines.len() > 0 && members[0].has_m,
            kind: KindV::MultiLineString(members),
        },
    }
}

/// Builds one multi-line-string per cell from a list of lines.
pub fn multilinestring(coords: &Vec<Option<Vec<Vec<Vec<u64>>>>>) -> (r: Result<
    Vec<Option<Vec<u8>>>,
    Error,
>)
    ensures
        match r {
            Ok(out) => out@.len() == coords@.len() && forall|i: int| 0 <= i < coords@.len()
                ==> (match #[trigger] coords@[i] {
                    Option::None => out@[i] is None,
                    Option::Some(lines) => mls_rows_ok(rings_of_cell(lines@)) && (out@[i]
                        matches Some(oc) && oc@ == enc(
                        multilinestring_geom(rings_of_cell(lines@)),
                    )),
                }),
            Err(e) => e == Error::NonUniformCoordinateDimension && exists|i: int|
                0 <= i < coords@.len() && ((#[trigger] coords@[i]) matches Some(lines)
                    && !mls_rows_ok(rings_of_cell(lines@))),
        },
{
    let n = coords.len();
    let mut out: Vec<Option<Vec<u8>>> = Vec::new();
    let mut i: usize = 0;
    while i < n
        invariant
            0 <= i <= n,
            n == coords@.len(),
            out@.len() == i,
            forall|j: int| 0 <= j < i ==> (match #[trigger] coords@[j] {
                Option::None => out@[j] is None,
                Option::Some(lines) => mls_rows_ok(rings_of_cell(lines@)) && (out@[j]
                    matches Some(oc) && oc@ == enc(
                    multilinestring_geom(rings_of_cell(lines@)),
                )),
            }),
        decreases n - i,
    {
        match &coords[i] {
            None => {
                out.push(None);
            },
            Some(lines) => match build_multilinestring(lines) {
                Err(e) => {
                    return Err(e);
                },
                Ok(g) => {
                    out.push(Some(to_ewkb(&g)));
                },
            },
        }
        i = i + 1;
    }
    Ok(out)
}

/// A usable line list: the count fits one field and every line is itself
/// a usable coordinate list.
pub open spec fn mls_rows_ok(lines: Seq<Seq<Seq<u64>>>) -> bool {
    &&& lines.len() <= MAX_COUNT
    &&& forall|k: int| 0 <= k < lines.len() ==> crate::ops::rows_ok(#[trigger] lines[k])
}

/// One multi-line-string from its lines.
fn build_multilinestring(lines: &Vec<Vec<Vec<u64>>>) -> (r: Result<Geometry, Error>)
    ensures
        match r {
            Ok(g) => g@ == multilinestring_geom(rings_of_cell(lines@)) && geometry_wf(g@)
                && mls_rows_ok(rings_of_cell(lines@)),
            Err(e) => e == Error::NonUniformCoordinateDimension && !mls_rows_ok(
                rings_of_cell(lines@),
            ),
        },
{
    broadcast use lemma_members_view_len, lemma_members_view_index;

    let nl = lines.len();
    if nl > crate::geometry::MAX_COUNT {
        return Err(Error::NonUniformCoordinateDimension);
    }
    let mut members: Vec<Node> = Vec::new();
    let mut k: usize = 0;
    while k < nl
        invariant
            0 <= k <= nl,
            nl == lines@.len(),
            nl <= crate::geometry::MAX_COUNT,
            members@.len() == k,
            forall|q: int| 0 <= q < k ==> members_view(members@)[q] == linestring_geom(
                #[trigger] rings_of_cell(lines@)[q],
            ).node,
            forall|q: int| 0 <= q < k ==> node_wf(#[trigger] members_view(members@)[q]),
            forall|q: int| 0 <= q < k ==> crate::ops::rows_ok(
                #[trigger] rings_of_cell(lines@)[q],
            ),
        decreases nl - k,
    {
        broadcast use lemma_members_view_len, lemma_members_view_index;

        match build_linestring(&lines[k]) {
            Err(e) => {
                proof {
                    assert((#[trigger] rings_of_cell(lines@)[k as int]) == lines@[k as int]@
                        .map_values(|row: Vec<u64>| row@));
                    assert(!crate::ops::rows_ok(rings_of_cell(lines@)[k as int]));
                }
                return Err(e);
            },
            Ok(lg) => {
                proof {
                    lemma_members_view_push(members@, lg.node);
                    assert(rings_of_cell(lines@)[k as int] == lines@[k as int]@.map_values(
                        |row: Vec<u64>| row@,
                    ));
                }
                members.push(lg.node);
            },
        }
        k = k + 1;
    }
    let z: bool = if members.len() > 0 {
        members[0].has_z
    } else {
        false
    };
    let m: bool = if members.len() > 0 {
        members[0].has_m
    } else {
        false
    };
    let g = Geometry {
        srid: 0,
        node: Node { has_z: z, has_m: m, kind: Kind::MultiLineString(members) },
    };
    proof {
        let want = multilinestring_geom(rings_of_cell(lines@));
        assert(g@.node.kind->MultiLineString_0 =~~= want.node.kind->MultiLineString_0);
        assert(g@.node.kind == want.node.kind);
        assert(g@ == want);
        assert forall|q: int| 0 <= q < g@.node.kind->MultiLineString_0.len() implies node_wf(
            #[trigger] g@.node.kind->MultiLineString_0[q],
        ) && member_tag_ok(
            GeomType::MultiLineString,
            tag_of(g@.node.kind->MultiLineString_0[q].kind),
        ) by {}
        lemma_members_wf_build(GeomType::MultiLineString, g@.node.kind->MultiLineString_0);
        assert(mls_rows_ok(rings_of_cell(lines@)));
    }
    Ok(g)
}

/// One line string from its rows; checks uniform arity.
fn build_linestring(rows: &Vec<Vec<u64>>) -> (r: Result<Geometry, Error>)
    ensures
        match r {
            Ok(g) => g@ == linestring_geom(rows@.map_values(|r: Vec<u64>| r@)) && geometry_wf(g@)
                && crate::ops::rows_ok(rows@.map_values(|r: Vec<u64>| r@)),
            Err(e) => e == Error::NonUniformCoordinateDimension && !crate::ops::rows_ok(
                rows@.map_values(|r: Vec<u64>| r@),
            ),
        },
{
    let n = rows.len();
    if n == 0 {
        let g = Geometry {
            srid: 0,
            node: Node { has_z: false, has_m: false, kind: Kind::LineString(Vec::new()) },
        };
        proof {
            let mapped = rows@.map_values(|r: Vec<u64>| r@);
            assert(mapped.len() == 0);
            let want = linestring_geom(mapped);
            assert(g@.node.kind->LineString_0 =~= want.node.kind->LineString_0);
            assert(g@.node.kind == want.node.kind);
            assert(g@ == want);
        }
        return Ok(g);
    }
    match coords_from_rows(rows) {
        Err(e) => {
            proof {
                let mapped = rows@.map_values(|r: Vec<u64>| r@);
                if exists|i: int| 0 <= i < rows@.len() && (#[trigger] rows@[i])@.len()
                    != rows@[0]@.len() {
                    let i = choose|i: int| 0 <= i < rows@.len() && (#[trigger] rows@[i])@.len()
                        != rows@[0]@.len();
                    assert(mapped[i].len() != mapped[0].len());
                }
                assert(!crate::ops::rows_ok(mapped));
            }
            Err(e)
        },
        Ok((cs, z, m)) => {
            if rows.len() > crate::geometry::MAX_COUNT {
                return Err(Error::NonUniformCoordinateDimension);
            }
            let g = Geometry {
                srid: 0,
                node: Node { has_z: z, has_m: m, kind: Kind::LineString(cs) },
            };
            proof {
                let mapped = rows@.map_values(|r: Vec<u64>| r@);
                let want = linestring_geom(mapped);
                assert(g@.node.kind->LineString_0 =~= want.node.kind->LineString_0);
                assert(g@.node.kind == want.node.kind);
                assert(g@.node.has_z == want.node.has_z);
                assert(g@.node.has_m == want.node.has_m);
                assert(g@ == want);
                assert forall|j: int| 0 <= j < mapped.len() implies (#[trigger] mapped[j]).len()
                    == mapped[0].len() by {
                    assert(mapped[j] == rows@[j]@);
                    assert(rows@[j]@.len() == rows@[0]@.len());
                }
                assert(crate::ops::rows_ok(mapped));
            }
            Ok(g)
        },
    }
}

} // verus!
