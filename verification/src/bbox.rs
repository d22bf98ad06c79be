//! Planar bounding boxes over bit-pattern ordinates.
//!
//! A box is the running minimum and maximum of every coordinate whose x and
//! y are both numbers; a shape contributing no such coordinate has no box.
//! Boxes drive the spatial-join candidate search and the center pivot.

use vstd::prelude::*;
use crate::bits::{f_le, f_max, f_min, is_nan, le_bits, max_bits, min_bits, nan_bits};
use crate::geometry::{
    lemma_members_view_index, lemma_members_view_len, members_view, node_view, rings_view, Coord,
    Geometry, GeometryV, Kind, KindV, Node, NodeV,
};

verus! {

/// The planar extent of a shape.
#[derive(Clone, Copy, Debug, PartialEq, Eq, Structural)]
pub struct BoundingBox {
    pub xmin: u64,
    pub ymin: u64,
    pub xmax: u64,
    pub ymax: u64,
}

/// A box grown to cover one more coordinate; a coordinate with a NaN
/// ordinate contributes nothing.
pub open spec fn merge_coord(acc: Option<BoundingBox>, c: Coord) -> Option<BoundingBox> {
    if is_nan(c.x) || is_nan(c.y) {
        acc
    } else {
        match acc {
            None => Some(BoundingBox { xmin: c.x, ymin: c.y, xmax: c.x, ymax: c.y }),
            Some(b) => Some(
                BoundingBox {
                    xmin: f_min(b.xmin, c.x),
                    ymin: f_min(b.ymin, c.y),
                    xmax: f_max(b.xmax, c.x),
                    ymax: f_max(b.ymax, c.y),
                },
            ),
        }
    }
}

pub open spec fn merge_coords(acc: Option<BoundingBox>, cs: Seq<Coord>) -> Option<BoundingBox>
    decreases cs.len(),
{
    if cs.len() == 0 {
        acc
    } else {
        merge_coords(merge_coord(acc, cs[0]), cs.drop_first())
    }
}

pub open spec fn merge_rings(acc: Option<BoundingBox>, rs: Seq<Seq<Coord>>) -> Option<BoundingBox>
    decreases rs.len(),
{
    if rs.len() == 0 {
        acc
    } else {
        merge_rings(merge_coords(acc, rs[0]), rs.drop_first())
    }
}

/// The box of a node merged into an accumulator.
pub open spec fn merge_node(acc: Option<BoundingBox>, n: NodeV) -> Option<BoundingBox>
    decreases n, 0int,
{
    match n.kind {
        KindV::Point(oc) => match oc {
            None => acc,
            Some(c) => merge_coord(acc, c),
        },
        KindV::LineString(cs) => merge_coords(acc, cs),
        KindV::CircularString(cs) => merge_coords(acc, cs),
        KindV::Polygon(rs) => merge_rings(acc, rs),
        KindV::CompoundCurve(ch) => merge_members(acc, ch),
        KindV::CurvePolygon(ch) => merge_members(acc, ch),
        KindV::MultiPoint(ch) => merge_members(acc, ch),
        KindV::MultiLineString(ch) => merge_members(acc, ch),
        KindV::MultiCurve(ch) => merge_members(acc, ch),
        KindV::MultiPolygon(ch) => merge_members(acc, ch),
        KindV::MultiSurface(ch) => merge_members(acc, ch),
        KindV::GeometryCollection(ch) => merge_members(acc, ch),
    }
}

pub open spec fn merge_members(acc: Option<BoundingBox>, s: Seq<NodeV>) -> Option<BoundingBox>
    decreases s, 1int,
{
    if s.len() == 0 {
        acc
    } else {
        merge_members(merge_node(acc, s[0]), s.drop_first())
    }
}

/// The box of a whole node; `None` when no coordinate is a number.
pub open spec fn node_bbox(n: NodeV) -> Option<BoundingBox> {
    merge_node(None, n)
}

/// Do two boxes overlap? Touching edges count as overlap.
pub open spec fn boxes_overlap(a: BoundingBox, b: BoundingBox) -> bool {
    f_le(a.xmin, b.xmax) && f_le(b.xmin, a.xmax) && f_le(a.ymin, b.ymax) && f_le(b.ymin, a.ymax)
}

fn merge_coord_exec(acc: Option<BoundingBox>, c: Coord) -> (r: Option<BoundingBox>)
    ensures
        r == merge_coord(acc, c),
{
    if nan_bits(c.x) || nan_bits(c.y) {
        acc
    } else {
        match acc {
            None => Some(BoundingBox { xmin: c.x, ymin: c.y, xmax: c.x, ymax: c.y }),
            Some(b) => Some(
                BoundingBox {
                    xmin: min_bits(b.xmin, c.x),
                    ymin: min_bits(b.ymin, c.y),
                    xmax: max_bits(b.xmax, c.x),
                    ymax: max_bits(b.ymax, c.y),
                },
            ),
        }
    }
}

/// The running fold stepped once more.
proof fn lemma_merge_coords_snoc(acc: Option<BoundingBox>, cs: Seq<Coord>, i: int)
    requires
        0 <= i < cs.len(),
    ensures
        merge_coords(acc, cs.take(i + 1)) == merge_coord(merge_coords(acc, cs.take(i)), cs[i]),
    decreases i,
{
    assert(cs.take(i + 1)[0] == cs[0]);
    if i == 0 {
        assert(cs.take(1).drop_first() =~= cs.take(0));
        assert(merge_coords(acc, cs.take(0)) == acc);
        assert(merge_coords(merge_coord(acc, cs[0]), cs.take(0)) == merge_coord(acc, cs[0]));
    } else {
        assert(cs.take(i)[0] == cs[0]);
        assert(cs.take(i + 1).drop_first() =~= cs.drop_first().take(i));
        assert(cs.take(i).drop_first() =~= cs.drop_first().take(i - 1));
        assert(cs.drop_first()[i - 1] == cs[i]);
        lemma_merge_coords_snoc(merge_coord(acc, cs[0]), cs.drop_first(), i - 1);
    }
}

fn merge_coords_exec(acc: Option<BoundingBox>, cs: &Vec<Coord>) -> (r: Option<BoundingBox>)
    ensures
        r == merge_coords(acc, cs@),
{
    let n = cs.len();
    let mut r = acc;
    let mut i: usize = 0;
    while i < n
        invariant
            0 <= i <= n,
            n == cs@.len(),
            r == merge_coords(acc, cs@.take(i as int)),
        decreases n - i,
    {
        r = merge_coord_exec(r, cs[i]);
        proof {
            lemma_merge_coords_snoc(acc, cs@, i as int);
        }
        i = i + 1;
    }
    proof {
        assert(cs@.take(n as int) =~= cs@);
    }
    r
}

proof fn lemma_merge_rings_snoc(acc: Option<BoundingBox>, rs: Seq<Seq<Coord>>, i: int)
    requires
        0 <= i < rs.len(),
    ensures
        merge_rings(acc, rs.take(i + 1)) == merge_coords(merge_rings(acc, rs.take(i)), rs[i]),
    decreases i,
{
    assert(rs.take(i + 1)[0] == rs[0]);
    if i == 0 {
        assert(rs.take(1).drop_first() =~= rs.take(0));
        assert(merge_rings(acc, rs.take(0)) == acc);
        assert(merge_rings(merge_coords(acc, rs[0]), rs.take(0)) == merge_coords(acc, rs[0]));
    } else {
        assert(rs.take(i)[0] == rs[0]);
        assert(rs.take(i + 1).drop_first() =~= rs.drop_first().take(i));
        assert(rs.take(i).drop_first() =~= rs.drop_first().take(i - 1));
        assert(rs.drop_first()[i - 1] == rs[i]);
        lemma_merge_rings_snoc(merge_coords(acc, rs[0]), rs.drop_first(), i - 1);
    }
}

fn merge_rings_exec(acc: Option<BoundingBox>, rs: &Vec<Vec<Coord>>) -> (r: Option<BoundingBox>)
    ensures
        r == merge_rings(acc, rings_view(rs@)),
{
    let n = rs.len();
    let mut r = acc;
    let mut i: usize = 0;
    while i < n
        invariant
            0 <= i <= n,
            n == rs@.len(),
            r == merge_rings(acc, rings_view(rs@).take(i as int)),
        decreases n - i,
    {
        proof {
            assert(rings_view(rs@)[i as int] == rs@[i as int]@);
        }
        r = merge_coords_exec(r, &rs[i]);
        proof {
            lemma_merge_rings_snoc(acc, rings_view(rs@), i as int);
        }
        i = i + 1;
    }
    proof {
        assert(rings_view(rs@).take(n as int) =~= rings_view(rs@));
    }
    r
}

proof fn lemma_merge_members_snoc(acc: Option<BoundingBox>, s: Seq<NodeV>, i: int)
    requires
        0 <= i < s.len(),
    ensures
        merge_members(acc, s.take(i + 1)) == merge_node(merge_members(acc, s.take(i)), s[i]),
    decreases i,
{
    assert(s.take(i + 1)[0] == s[0]);
    if i == 0 {
        assert(s.take(1).drop_first() =~= s.take(0));
        assert(merge_members(acc, s.take(0)) == acc);
        assert(merge_members(merge_node(acc, s[0]), s.take(0)) == merge_node(acc, s[0]));
    } else {
        assert(s.take(i)[0] == s[0]);
        assert(s.take(i + 1).drop_first() =~= s.drop_first().take(i));
        assert(s.take(i).drop_first() =~= s.drop_first().take(i - 1));
        assert(s.drop_first()[i - 1] == s[i]);
        lemma_merge_members_snoc(merge_node(acc, s[0]), s.drop_first(), i - 1);
    }
}

fn merge_members_exec(acc: Option<BoundingBox>, ch: &Vec<Node>) -> (r: Option<BoundingBox>)
    ensures
        r == merge_members(acc, members_view(ch@)),
    decreases ch@, 1int,
{
    broadcast use lemma_members_view_len, lemma_members_view_index;

    let n = ch.len();
    let mut r = acc;
    let mut i: usize = 0;
    while i < n
        invariant
            0 <= i <= n,
            n == ch@.len(),
            r == merge_members(acc, members_view(ch@).take(i as int)),
        decreases n - i,
    {
        broadcast use lemma_members_view_len, lemma_members_view_index;

        r = merge_node_exec(r, &ch[i]);
        proof {
            lemma_merge_members_snoc(acc, members_view(ch@), i as int);
        }
        i = i + 1;
    }
    proof {
        assert(members_view(ch@).take(n as int) =~= members_view(ch@));
    }
    r
}

fn merge_node_exec(acc: Option<BoundingBox>, n: &Node) -> (r: Option<BoundingBox>)
    ensures
        r == merge_node(acc, n@),
    decreases *n, 0int,
{
    match &n.kind {
        Kind::Point(oc) => match oc {
            None => acc,
            Some(c) => merge_coord_exec(acc, *c),
        },
        Kind::LineString(cs) => merge_coords_exec(acc, cs),
        Kind::CircularString(cs) => merge_coords_exec(acc, cs),
        Kind::Polygon(rs) => merge_rings_exec(acc, rs),
        Kind::CompoundCurve(ch) => merge_members_exec(acc, ch),
        Kind::CurvePolygon(ch) => merge_members_exec(acc, ch),
        Kind::MultiPoint(ch) => merge_members_exec(acc, ch),
        Kind::MultiLineString(ch) => merge_members_exec(acc, ch),
        Kind::MultiCurve(ch) => merge_members_exec(acc, ch),
        Kind::MultiPolygon(ch) => merge_members_exec(acc, ch),
        Kind::MultiSurface(ch) => merge_members_exec(acc, ch),
        Kind::GeometryCollection(ch) => merge_members_exec(acc, ch),
    }
}

/// The planar extent of a node.
pub fn node_bbox_exec(n: &Node) -> (r: Option<BoundingBox>)
    ensures
        r == node_bbox(n@),
{
    merge_node_exec(None, n)
}

/// Do two boxes overlap?
pub fn boxes_overlap_exec(a: &BoundingBox, b: &BoundingBox) -> (r: bool)
    ensures
        r == boxes_overlap(*a, *b),
{
    le_bits(a.xmin, b.xmax) && le_bits(b.xmin, a.xmax) && le_bits(a.ymin, b.ymax) && le_bits(
        b.ymin,
        a.ymax,
    )
}

} // verus!
