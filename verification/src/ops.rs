//! Structural operations on decoded geometries: dimension forcing,
//! coordinate flattening and flipping, the collection supertype, and the
//! shape builders behind the coordinate-list constructors.

use vstd::prelude::*;
use crate::bits::{is_nan, nan_bits, NAN_BITS};
use crate::error::Error;
use crate::geometry::{
    coord_wf, coords_wf, lemma_members_view_index, lemma_members_view_len,
    lemma_members_view_push, lemma_members_wf_build, lemma_members_wf_index, member_tag_ok,
    members_view, members_wf, node_wf, rings_view, tag_of, Coord, GeomType, Kind, KindV, Node,
    NodeV, MAX_COUNT,
};

verus! {

/// A coordinate reduced to the plane: z and m dropped to the sentinel.
pub open spec fn flat_coord(c: Coord) -> Coord {
    Coord { x: c.x, y: c.y, z: NAN_BITS, m: NAN_BITS }
}

/// A coordinate with x and y swapped, other ordinates untouched.
pub open spec fn flip_coord(c: Coord) -> Coord {
    Coord { x: c.y, y: c.x, z: c.z, m: c.m }
}

/// A coordinate raised to three dimensions: an absent z becomes `fill`.
pub open spec fn raise_coord(c: Coord, fill: u64) -> Coord {
    Coord {
        x: c.x,
        y: c.y,
        z: if is_nan(c.z) {
            fill
        } else {
            c.z
        },
        m: c.m,
    }
}

/// The new dimensionality flags a mapping mode gives a node: dropping to
/// the plane clears both, raising sets z, flipping keeps them, and capping
/// to three keeps one extra dimension with z preferred over m.
pub open spec fn mode_flags(which: u8, n: NodeV) -> (bool, bool) {
    if which == 0 {
        (false, false)
    } else if which == 1 {
        (true, n.has_m)
    } else if which == 3 {
        (n.has_z, n.has_m && !n.has_z)
    } else {
        (n.has_z, n.has_m)
    }
}

/// The coordinate map a mode applies on a node with flags `z`, `m`.
pub open spec fn chosen_map(which: u8, fill: u64, z: bool, m: bool) -> spec_fn(Coord) -> Coord {
    if which == 0 {
        |c: Coord| flat_coord(c)
    } else if which == 1 {
        |c: Coord| raise_coord(c, fill)
    } else if which == 3 {
        |c: Coord|
            Coord {
                x: c.x,
                y: c.y,
                z: c.z,
                m: if z && m {
                    NAN_BITS
                } else {
                    c.m
                },
            }
    } else {
        |c: Coord| flip_coord(c)
    }
}

/// A node mapped coordinatewise by a mode, recursively; every node's flags
/// are rewritten by the mode.
pub open spec fn map_node(which: u8, fill: u64, n: NodeV) -> NodeV
    decreases n,
{
    let f = chosen_map(which, fill, n.has_z, n.has_m);
    NodeV {
        has_z: mode_flags(which, n).0,
        has_m: mode_flags(which, n).1,
        kind: match n.kind {
            KindV::Point(oc) => KindV::Point(
                match oc {
                    Option::None => Option::None,
                    Option::Some(c) => Option::Some(f(c)),
                },
            ),
            KindV::LineString(cs) => KindV::LineString(cs.map_values(f)),
            KindV::CircularString(cs) => KindV::CircularString(cs.map_values(f)),
            KindV::Polygon(rs) => KindV::Polygon(rs.map_values(|r: Seq<Coord>| r.map_values(f))),
            KindV::CompoundCurve(ch) => KindV::CompoundCurve(map_members(which, fill, ch)),
            KindV::CurvePolygon(ch) => KindV::CurvePolygon(map_members(which, fill, ch)),
            KindV::MultiPoint(ch) => KindV::MultiPoint(map_members(which, fill, ch)),
            KindV::MultiLineString(ch) => KindV::MultiLineString(map_members(which, fill, ch)),
            KindV::MultiCurve(ch) => KindV::MultiCurve(map_members(which, fill, ch)),
            KindV::MultiPolygon(ch) => KindV::MultiPolygon(map_members(which, fill, ch)),
            KindV::MultiSurface(ch) => KindV::MultiSurface(map_members(which, fill, ch)),
            KindV::GeometryCollection(ch) => KindV::GeometryCollection(
                map_members(which, fill, ch),
            ),
        },
    }
}

pub open spec fn map_members(which: u8, fill: u64, s: Seq<NodeV>) -> Seq<NodeV>
    decreases s,
{
    if s.len() == 0 {
        Seq::empty()
    } else {
        seq![map_node(which, fill, s[0])] + map_members(which, fill, s.drop_first())
    }
}

pub broadcast proof fn lemma_map_members_len(which: u8, fill: u64, s: Seq<NodeV>)
    ensures
        (#[trigger] map_members(which, fill, s)).len() == s.len(),
    decreases s,
{
    if s.len() > 0 {
        lemma_map_members_len(which, fill, s.drop_first());
    }
}

pub broadcast proof fn lemma_map_members_index(which: u8, fill: u64, s: Seq<NodeV>, i: int)
    requires
        0 <= i < s.len(),
    ensures
        #[trigger] map_members(which, fill, s)[i] == map_node(which, fill, s[i]),
    decreases s,
{
    lemma_map_members_len(which, fill, s);
    if i > 0 {
        lemma_map_members_index(which, fill, s.drop_first(), i - 1);
    }
}

/// The planar version of a node: flags cleared, z and m dropped.
pub open spec fn force2_node(n: NodeV) -> NodeV {
    map_node(0, 0, n)
}

/// The three-dimensional version: the z flag set, absent z filled.
pub open spec fn force3_node(n: NodeV, fill: u64) -> NodeV {
    map_node(1, fill, n)
}

/// The node with every coordinate's x and y swapped.
pub open spec fn flip_node(n: NodeV) -> NodeV {
    map_node(2, 0, n)
}

/// A mapped well-formed node is well-formed in every mode: a mode either
/// writes the sentinel into a dropped dimension or preserves it, and never
/// turns a numeric position all-NaN.
pub proof fn lemma_map_node_wf(which: u8, fill: u64, n: NodeV)
    requires
        node_wf(n),
        which <= 3,
    ensures
        node_wf(map_node(which, fill, n)),
    decreases n,
{
    broadcast use lemma_map_members_len, lemma_map_members_index;

    crate::bits::lemma_nan_sentinel_is_nan();
    let f = chosen_map(which, fill, n.has_z, n.has_m);
    let z2 = mode_flags(which, n).0;
    let m2 = mode_flags(which, n).1;
    let out = map_node(which, fill, n);
    assert forall|c: Coord| coord_wf(n.has_z, n.has_m, c) implies coord_wf(
        z2,
        m2,
        #[trigger] f(c),
    ) by {}
    match n.kind {
        KindV::Point(oc) => {
        },
        KindV::LineString(cs) => {
            assert(coords_wf(z2, m2, cs.map_values(f)));
        },
        KindV::CircularString(cs) => {
            assert(coords_wf(z2, m2, cs.map_values(f)));
        },
        KindV::Polygon(rs) => {
            let rs2 = rs.map_values(|r: Seq<Coord>| r.map_values(f));
            assert forall|i: int| 0 <= i < rs2.len() implies (#[trigger] rs2[i]).len()
                <= MAX_COUNT && coords_wf(z2, m2, rs2[i]) by {
                assert(rs2[i] == rs[i].map_values(f));
            }
        },
        _ => {
            let ch = members_of_kind(n.kind);
            let ch2 = map_members(which, fill, ch);
            assert forall|i: int| 0 <= i < ch2.len() implies node_wf(#[trigger] ch2[i])
                && member_tag_ok(tag_of(out.kind), tag_of(ch2[i].kind)) by {
                lemma_members_wf_index(tag_of(n.kind), ch, i);
                lemma_map_node_wf(which, fill, ch[i]);
                lemma_map_tag(which, fill, ch[i]);
            }
            lemma_members_wf_build(tag_of(out.kind), ch2);
        },
    }
}

/// Mapping keeps the variant.
pub proof fn lemma_map_tag(which: u8, fill: u64, n: NodeV)
    ensures
        tag_of(map_node(which, fill, n).kind) == tag_of(n.kind),
{
}

/// The member list of a compound payload; empty for simple shapes.
pub open spec fn members_of_kind(k: KindV) -> Seq<NodeV> {
    match k {
        KindV::CompoundCurve(ch) => ch,
        KindV::CurvePolygon(ch) => ch,
        KindV::MultiPoint(ch) => ch,
        KindV::MultiLineString(ch) => ch,
        KindV::MultiCurve(ch) => ch,
        KindV::MultiPolygon(ch) => ch,
        KindV::MultiSurface(ch) => ch,
        KindV::GeometryCollection(ch) => ch,
        _ => Seq::empty(),
    }
}

fn map_coord_by(which: u8, c: Coord, fill: u64, z: bool, m: bool) -> (r: Coord)
    requires
        which <= 3,
    ensures
        r == chosen_map(which, fill, z, m)(c),
{
    if which == 0 {
        Coord { x: c.x, y: c.y, z: NAN_BITS, m: NAN_BITS }
    } else if which == 1 {
        Coord {
            x: c.x,
            y: c.y,
            z: if nan_bits(c.z) {
                fill
            } else {
                c.z
            },
            m: c.m,
        }
    } else if which == 3 {
        Coord {
            x: c.x,
            y: c.y,
            z: c.z,
            m: if z && m {
                NAN_BITS
            } else {
                c.m
            },
        }
    } else {
        Coord { x: c.y, y: c.x, z: c.z, m: c.m }
    }
}

fn map_coords_by(which: u8, cs: &Vec<Coord>, fill: u64, z: bool, m: bool) -> (out: Vec<Coord>)
    requires
        which <= 3,
    ensures
        out@ == cs@.map_values(chosen_map(which, fill, z, m)),
{
    let n = cs.len();
    let mut out: Vec<Coord> = Vec::new();
    let mut i: usize = 0;
    while i < n
        invariant
            which <= 3,
            0 <= i <= n,
            n == cs@.len(),
            out@.len() == i,
            forall|j: int| 0 <= j < i ==> out@[j] == chosen_map(which, fill, z, m)(
                #[trigger] cs@[j],
            ),
        decreases n - i,
    {
        out.push(map_coord_by(which, cs[i], fill, z, m));
        i = i + 1;
    }
    proof {
        assert(out@ =~= cs@.map_values(chosen_map(which, fill, z, m)));
    }
    out
}

fn map_rings_by(which: u8, rs: &Vec<Vec<Coord>>, fill: u64, z: bool, m: bool) -> (out: Vec<
    Vec<Coord>,
>)
    requires
        which <= 3,
    ensures
        rings_view(out@) == rings_view(rs@).map_values(
            |r: Seq<Coord>| r.map_values(chosen_map(which, fill, z, m)),
        ),
{
    let n = rs.len();
    let mut out: Vec<Vec<Coord>> = Vec::new();
    let mut i: usize = 0;
    while i < n
        invariant
            which <= 3,
            0 <= i <= n,
            n == rs@.len(),
            out@.len() == i,
            forall|j: int| 0 <= j < i ==> (#[trigger] out@[j])@ == rs@[j]@.map_values(
                chosen_map(which, fill, z, m),
            ),
        decreases n - i,
    {
        out.push(map_coords_by(which, &rs[i], fill, z, m));
        i = i + 1;
    }
    proof {
        assert(rings_view(out@) =~= rings_view(rs@).map_values(
            |r: Seq<Coord>| r.map_values(chosen_map(which, fill, z, m)),
        ));
    }
    out
}

fn map_members_by(which: u8, ch: &Vec<Node>, fill: u64) -> (out: Vec<Node>)
    requires
        which <= 3,
    ensures
        members_view(out@) == map_members(which, fill, members_view(ch@)),
    decreases ch@,
{
    broadcast use
        lemma_members_view_len,
        lemma_members_view_index,
        lemma_map_members_len,
        lemma_map_members_index,
    ;

    let n = ch.len();
    let mut out: Vec<Node> = Vec::new();
    let mut i: usize = 0;
    while i < n
        invariant
            which <= 3,
            0 <= i <= n,
            n == ch@.len(),
            out@.len() == i,
            forall|j: int| 0 <= j < i ==> members_view(out@)[j] == map_node(
                which,
                fill,
                #[trigger] members_view(ch@)[j],
            ),
        decreases n - i,
    {
        broadcast use
            lemma_members_view_len,
            lemma_members_view_index,
            lemma_map_members_len,
            lemma_map_members_index,
        ;

        let nd = map_node_by(which, &ch[i], fill);
        proof {
            lemma_members_view_push(out@, nd);
        }
        out.push(nd);
        i = i + 1;
    }
    proof {
        assert(members_view(out@) =~= map_members(which, fill, members_view(ch@)));
    }
    out
}

fn map_node_by(which: u8, n: &Node, fill: u64) -> (out: Node)
    requires
        which <= 3,
    ensures
        out@ == map_node(which, fill, n@),
    decreases *n,
{
    let z = n.has_z;
    let m = n.has_m;
    let z2: bool = if which == 0 {
        false
    } else if which == 1 {
        true
    } else {
        z
    };
    let m2: bool = if which == 0 {
        false
    } else if which == 3 {
        m && !z
    } else {
        m
    };
    let kind: Kind = match &n.kind {
        Kind::Point(oc) => Kind::Point(
            match oc {
                None => None,
                Some(c) => Some(map_coord_by(which, *c, fill, z, m)),
            },
        ),
        Kind::LineString(cs) => Kind::LineString(map_coords_by(which, cs, fill, z, m)),
        Kind::CircularString(cs) => Kind::CircularString(map_coords_by(which, cs, fill, z, m)),
        Kind::Polygon(rs) => Kind::Polygon(map_rings_by(which, rs, fill, z, m)),
        Kind::CompoundCurve(ch) => Kind::CompoundCurve(map_members_by(which, ch, fill)),
        Kind::CurvePolygon(ch) => Kind::CurvePolygon(map_members_by(which, ch, fill)),
        Kind::MultiPoint(ch) => Kind::MultiPoint(map_members_by(which, ch, fill)),
        Kind::MultiLineString(ch) => Kind::MultiLineString(map_members_by(which, ch, fill)),
        Kind::MultiCurve(ch) => Kind::MultiCurve(map_members_by(which, ch, fill)),
        Kind::MultiPolygon(ch) => Kind::MultiPolygon(map_members_by(which, ch, fill)),
        Kind::MultiSurface(ch) => Kind::MultiSurface(map_members_by(which, ch, fill)),
        Kind::GeometryCollection(ch) => Kind::GeometryCollection(map_members_by(which, ch, fill)),
    };
    Node { has_z: z2, has_m: m2, kind }
}

/// The planar version of a node.
pub fn force_2d_node(n: &Node) -> (out: Node)
    requires
        node_wf(n@),
    ensures
        out@ == force2_node(n@),
        node_wf(out@),
{
    let out = map_node_by(0, n, 0);
    proof {
        lemma_map_node_wf(0, 0, n@);
    }
    out
}

/// The three-dimensional version of a node, absent z filled with `fill`.
pub fn force_3d_node(n: &Node, fill: u64) -> (out: Node)
    requires
        node_wf(n@),
    ensures
        out@ == force3_node(n@, fill),
        node_wf(out@),
{
    let out = map_node_by(1, n, fill);
    proof {
        lemma_map_node_wf(1, fill, n@);
    }
    out
}

/// The node with every coordinate's x and y swapped.
pub fn flip_node_exec(n: &Node) -> (out: Node)
    requires
        node_wf(n@),
    ensures
        out@ == flip_node(n@),
        node_wf(out@),
{
    let out = map_node_by(2, n, 0);
    proof {
        lemma_map_node_wf(2, 0, n@);
    }
    out
}

/// The node with its measure dropped wherever a third dimension is also
/// carried; a node with only a measure keeps it.
pub open spec fn drop_m_node(n: NodeV) -> NodeV {
    map_node(3, 0, n)
}

/// A node capped to an output arity: two drops z and m, three keeps one
/// extra dimension with z preferred over m, four keeps everything.
pub open spec fn capped_node(n: NodeV, dims: u32) -> NodeV {
    if dims <= 2 {
        force2_node(n)
    } else if dims == 3 {
        drop_m_node(n)
    } else {
        n
    }
}

/// Caps a node to an output arity.
pub fn cap_node(n: &Node, dims: u32) -> (out: Node)
    requires
        node_wf(n@),
    ensures
        out@ == capped_node(n@, dims),
        node_wf(out@),
{
    if dims <= 2 {
        force_2d_node(n)
    } else if dims == 3 {
        let out = map_node_by(3, n, 0);
        proof {
            lemma_map_node_wf(3, 0, n@);
        }
        out
    } else {
        crate::geometry::clone_node(n)
    }
}

/// Every coordinate of a node, depth first: point, run, exterior then
/// interior rings, members in order.
pub open spec fn coords_of_node(n: NodeV) -> Seq<Coord>
    decreases n, 0int,
{
    match n.kind {
        KindV::Point(oc) => match oc {
            Option::None => Seq::empty(),
            Option::Some(c) => seq![c],
        },
        KindV::LineString(cs) => cs,
        KindV::CircularString(cs) => cs,
        KindV::Polygon(rs) => flatten_rings(rs),
        KindV::CompoundCurve(ch) => coords_of_members(ch),
        KindV::CurvePolygon(ch) => coords_of_members(ch),
        KindV::MultiPoint(ch) => coords_of_members(ch),
        KindV::MultiLineString(ch) => coords_of_members(ch),
        KindV::MultiCurve(ch) => coords_of_members(ch),
        KindV::MultiPolygon(ch) => coords_of_members(ch),
        KindV::MultiSurface(ch) => coords_of_members(ch),
        KindV::GeometryCollection(ch) => coords_of_members(ch),
    }
}

pub open spec fn flatten_rings(rs: Seq<Seq<Coord>>) -> Seq<Coord>
    decreases rs.len(),
{
    if rs.len() == 0 {
        Seq::empty()
    } else {
        rs[0] + flatten_rings(rs.drop_first())
    }
}

pub open spec fn coords_of_members(s: Seq<NodeV>) -> Seq<Coord>
    decreases s, 1int,
{
    if s.len() == 0 {
        Seq::empty()
    } else {
        coords_of_node(s[0]) + coords_of_members(s.drop_first())
    }
}

proof fn lemma_flatten_rings_snoc(rs: Seq<Seq<Coord>>, i: int)
    requires
        0 <= i < rs.len(),
    ensures
        flatten_rings(rs.take(i + 1)) == flatten_rings(rs.take(i)) + rs[i],
    decreases i,
{
    assert(rs.take(i + 1)[0] == rs[0]);
    if i == 0 {
        assert(rs.take(1).drop_first() =~= rs.take(0));
        assert(flatten_rings(rs.take(0)) == Seq::<Coord>::empty());
        assert(flatten_rings(rs.take(1)) == rs[0] + flatten_rings(rs.take(0)));
        assert(rs[0] + Seq::<Coord>::empty() =~= rs[0]);
        assert(Seq::<Coord>::empty() + rs[0] =~= rs[0]);
    } else {
        let df = rs.drop_first();
        assert(rs.take(i)[0] == rs[0]);
        assert(rs.take(i + 1).drop_first() =~= df.take(i));
        assert(rs.take(i).drop_first() =~= df.take(i - 1));
        assert(df[i - 1] == rs[i]);
        lemma_flatten_rings_snoc(df, i - 1);
        assert(flatten_rings(rs.take(i + 1)) == rs[0] + (flatten_rings(df.take(i - 1)) + rs[i]));
        assert(flatten_rings(rs.take(i)) == rs[0] + flatten_rings(df.take(i - 1)));
        assert(rs[0] + (flatten_rings(df.take(i - 1)) + rs[i]) =~= (rs[0] + flatten_rings(
            df.take(i - 1),
        )) + rs[i]);
    }
}

proof fn lemma_coords_of_members_snoc(s: Seq<NodeV>, i: int)
    requires
        0 <= i < s.len(),
    ensures
        coords_of_members(s.take(i + 1)) == coords_of_members(s.take(i)) + coords_of_node(s[i]),
    decreases i,
{
    assert(s.take(i + 1)[0] == s[0]);
    if i == 0 {
        assert(s.take(1).drop_first() =~= s.take(0));
        assert(coords_of_members(s.take(0)) == Seq::<Coord>::empty());
        assert(coords_of_members(s.take(1)) == coords_of_node(s[0]) + coords_of_members(
            s.take(0),
        ));
        assert(coords_of_node(s[0]) + Seq::<Coord>::empty() =~= coords_of_node(s[0]));
        assert(Seq::<Coord>::empty() + coords_of_node(s[0]) =~= coords_of_node(s[0]));
    } else {
        let df = s.drop_first();
        assert(s.take(i)[0] == s[0]);
        assert(s.take(i + 1).drop_first() =~= df.take(i));
        assert(s.take(i).drop_first() =~= df.take(i - 1));
        assert(df[i - 1] == s[i]);
        lemma_coords_of_members_snoc(df, i - 1);
        let a = coords_of_node(s[0]);
        let p = coords_of_members(df.take(i - 1));
        let c = coords_of_node(s[i]);
        assert(coords_of_members(s.take(i + 1)) == a + (p + c));
        assert(coords_of_members(s.take(i)) == a + p);
        assert(a + (p + c) =~= (a + p) + c);
    }
}

fn append_coords(out: &mut Vec<Coord>, cs: &Vec<Coord>)
    ensures
        final(out)@ == old(out)@ + cs@,
{
    let n = cs.len();
    let mut i: usize = 0;
    while i < n
        invariant
            0 <= i <= n,
            n == cs@.len(),
            out@ == old(out)@ + cs@.take(i as int),
        decreases n - i,
    {
        out.push(cs[i]);
        proof {
            assert(out@ =~= old(out)@ + cs@.take(i + 1));
        }
        i = i + 1;
    }
    proof {
        assert(old(out)@ + cs@.take(n as int) =~= old(out)@ + cs@);
    }
}

fn gather_node_coords(out: &mut Vec<Coord>, n: &Node)
    ensures
        final(out)@ == old(out)@ + coords_of_node(n@),
    decreases *n, 0int,
{
    match &n.kind {
        Kind::Point(oc) => {
            match oc {
                None => {},
                Some(c) => {
                    out.push(*c);
                },
            }
            proof {
                assert(out@ =~= old(out)@ + coords_of_node(n@));
            }
        },
        Kind::LineString(cs) => {
            append_coords(out, cs);
        },
        Kind::CircularString(cs) => {
            append_coords(out, cs);
        },
        Kind::Polygon(rs) => {
            let nr = rs.len();
            let mut i: usize = 0;
            while i < nr
                invariant
                    0 <= i <= nr,
                    nr == rs@.len(),
                    out@ == old(out)@ + flatten_rings(rings_view(rs@).take(i as int)),
                decreases nr - i,
            {
                proof {
                    assert(rings_view(rs@)[i as int] == rs@[i as int]@);
                }
                append_coords(out, &rs[i]);
                proof {
                    lemma_flatten_rings_snoc(rings_view(rs@), i as int);
                    crate::codec::seq_add_assoc(
                        old(out)@,
                        flatten_rings(rings_view(rs@).take(i as int)),
                        rs@[i as int]@,
                    );
                }
                i = i + 1;
            }
            proof {
                assert(rings_view(rs@).take(nr as int) =~= rings_view(rs@));
            }
        },
        Kind::CompoundCurve(ch) => gather_members_coords(out, ch),
        Kind::CurvePolygon(ch) => gather_members_coords(out, ch),
        Kind::MultiPoint(ch) => gather_members_coords(out, ch),
        Kind::MultiLineString(ch) => gather_members_coords(out, ch),
        Kind::MultiCurve(ch) => gather_members_coords(out, ch),
        Kind::MultiPolygon(ch) => gather_members_coords(out, ch),
        Kind::MultiSurface(ch) => gather_members_coords(out, ch),
        Kind::GeometryCollection(ch) => gather_members_coords(out, ch),
    }
}

fn gather_members_coords(out: &mut Vec<Coord>, ch: &Vec<Node>)
    ensures
        final(out)@ == old(out)@ + coords_of_members(members_view(ch@)),
    decreases ch@, 1int,
{
    broadcast use lemma_members_view_len, lemma_members_view_index;

    let n = ch.len();
    let mut i: usize = 0;
    while i < n
        invariant
            0 <= i <= n,
            n == ch@.len(),
            out@ == old(out)@ + coords_of_members(members_view(ch@).take(i as int)),
        decreases n - i,
    {
        broadcast use lemma_members_view_len, lemma_members_view_index;

        gather_node_coords(out, &ch[i]);
        proof {
            lemma_coords_of_members_snoc(members_view(ch@), i as int);
            crate::codec::seq_add_assoc(
                old(out)@,
                coords_of_members(members_view(ch@).take(i as int)),
                coords_of_node(members_view(ch@)[i as int]),
            );
        }
        i = i + 1;
    }
    proof {
        assert(members_view(ch@).take(n as int) =~= members_view(ch@));
    }
}

/// Every coordinate of a node, depth first.
pub fn node_coordinates(n: &Node) -> (out: Vec<Coord>)
    ensures
        out@ == coords_of_node(n@),
{
    let mut out: Vec<Coord> = Vec::new();
    gather_node_coords(&mut out, n);
    proof {
        assert(Seq::<Coord>::empty() + coords_of_node(n@) =~= coords_of_node(n@));
    }
    out
}

/// Which shape variants a column holds, for choosing an aggregate type.
#[derive(Clone, Copy, Debug, PartialEq, Eq, Structural)]
pub struct TagMix {
    pub point: bool,
    pub line: bool,
    pub circular: bool,
    pub compound: bool,
    pub polygon: bool,
    pub curve_polygon: bool,
    pub other: bool,
}

impl TagMix {
    pub open spec fn spec_empty() -> TagMix {
        TagMix {
            point: false,
            line: false,
            circular: false,
            compound: false,
            polygon: false,
            curve_polygon: false,
            other: false,
        }
    }

    pub fn empty() -> (r: TagMix)
        ensures
            r == TagMix::spec_empty(),
    {
        TagMix {
            point: false,
            line: false,
            circular: false,
            compound: false,
            polygon: false,
            curve_polygon: false,
            other: false,
        }
    }
}

/// The mix extended by one variant.
pub open spec fn mix_with(m: TagMix, t: GeomType) -> TagMix {
    match t {
        GeomType::Point => TagMix { point: true, ..m },
        GeomType::LineString => TagMix { line: true, ..m },
        GeomType::CircularString => TagMix { circular: true, ..m },
        GeomType::CompoundCurve => TagMix { compound: true, ..m },
        GeomType::Polygon => TagMix { polygon: true, ..m },
        GeomType::CurvePolygon => TagMix { curve_polygon: true, ..m },
        _ => TagMix { other: true, ..m },
    }
}

pub fn mix_with_exec(m: TagMix, t: GeomType) -> (r: TagMix)
    ensures
        r == mix_with(m, t),
{
    match t {
        GeomType::Point => TagMix { point: true, ..m },
        GeomType::LineString => TagMix { line: true, ..m },
        GeomType::CircularString => TagMix { circular: true, ..m },
        GeomType::CompoundCurve => TagMix { compound: true, ..m },
        GeomType::Polygon => TagMix { polygon: true, ..m },
        GeomType::CurvePolygon => TagMix { curve_polygon: true, ..m },
        _ => TagMix { other: true, ..m },
    }
}

/// The collection variant that can hold a mix, by a fixed table: one
/// variant maps to its multi form; exactly the mixes {circular},
/// {compound}, {line, circular} and {line, circular, compound} map to a
/// multi-curve; {curve polygon} and {polygon, curve polygon} map to a
/// multi-surface; every other mix — including {line, compound} and
/// {circular, compound} — to a geometry collection.
pub open spec fn supertype_of(m: TagMix) -> GeomType {
    if m.other {
        GeomType::GeometryCollection
    } else if m.point && !m.line && !m.circular && !m.compound && !m.polygon && !m.curve_polygon {
        GeomType::MultiPoint
    } else if m.line && !m.point && !m.circular && !m.compound && !m.polygon && !m.curve_polygon {
        GeomType::MultiLineString
    } else if !m.point && !m.polygon && !m.curve_polygon && ((m.circular && !m.compound
        && !m.line) || (m.compound && !m.circular && !m.line) || (m.line && m.circular)) {
        GeomType::MultiCurve
    } else if m.polygon && !m.point && !m.line && !m.circular && !m.compound && !m.curve_polygon {
        GeomType::MultiPolygon
    } else if m.curve_polygon && !m.point && !m.line && !m.circular && !m.compound {
        GeomType::MultiSurface
    } else {
        GeomType::GeometryCollection
    }
}

pub fn supertype_of_exec(m: TagMix) -> (r: GeomType)
    ensures
        r == supertype_of(m),
{
    if m.other {
        GeomType::GeometryCollection
    } else if m.point && !m.line && !m.circular && !m.compound && !m.polygon && !m.curve_polygon {
        GeomType::MultiPoint
    } else if m.line && !m.point && !m.circular && !m.compound && !m.polygon && !m.curve_polygon {
        GeomType::MultiLineString
    } else if !m.point && !m.polygon && !m.curve_polygon && ((m.circular && !m.compound
        && !m.line) || (m.compound && !m.circular && !m.line) || (m.line && m.circular)) {
        GeomType::MultiCurve
    } else if m.polygon && !m.point && !m.line && !m.circular && !m.compound && !m.curve_polygon {
        GeomType::MultiPolygon
    } else if m.curve_polygon && !m.point && !m.line && !m.circular && !m.compound {
        GeomType::MultiSurface
    } else {
        GeomType::GeometryCollection
    }
}

/// One coordinate from a row of ordinates: x, y, then z when the arity
/// carries it, then m; absent ordinates get the sentinel.
pub open spec fn coord_of_row(row: Seq<u64>) -> Coord {
    Coord {
        x: row[0],
        y: row[1],
        z: if row.len() > 2 {
            row[2]
        } else {
            NAN_BITS
        },
        m: if row.len() > 3 {
            row[3]
        } else {
            NAN_BITS
        },
    }
}

/// A usable arity: two to four ordinates.
pub open spec fn arity_ok(row: Seq<u64>) -> bool {
    2 <= row.len() <= 4
}

/// A usable coordinate list: the count fits one field, and every row has
/// the usable arity of the first.
pub open spec fn rows_ok(rows: Seq<Seq<u64>>) -> bool {
    &&& rows.len() <= MAX_COUNT
    &&& rows.len() > 0 ==> (arity_ok(rows[0]) && forall|j: int|
        0 <= j < rows.len() ==> (#[trigger] rows[j]).len() == rows[0].len())
}

/// Builds the coordinate run of a coordinate-list cell: every row must
/// have the same arity as the first, between two and four.
pub fn coords_from_rows(rows: &Vec<Vec<u64>>) -> (r: Result<(Vec<Coord>, bool, bool), Error>)
    ensures
        match r {
            Ok((cs, z, m)) => {
                &&& rows@.len() > 0
                &&& arity_ok(rows@[0]@)
                &&& z == (rows@[0]@.len() > 2)
                &&& m == (rows@[0]@.len() > 3)
                &&& cs@.len() == rows@.len()
                &&& forall|i: int| 0 <= i < rows@.len() ==> (#[trigger] rows@[i])@.len()
                    == rows@[0]@.len() && cs@[i] == coord_of_row(rows@[i]@)
            },
            Err(e) => {
                &&& e == Error::NonUniformCoordinateDimension
                &&& (rows@.len() == 0 || !arity_ok(rows@[0]@) || exists|i: int|
                    0 <= i < rows@.len() && (#[trigger] rows@[i])@.len() != rows@[0]@.len())
            },
        },
{
    let n = rows.len();
    if n == 0 {
        return Err(Error::NonUniformCoordinateDimension);
    }
    let dim = rows[0].len();
    if dim < 2 || dim > 4 {
        return Err(Error::NonUniformCoordinateDimension);
    }
    let z = dim > 2;
    let m = dim > 3;
    let mut cs: Vec<Coord> = Vec::new();
    let mut i: usize = 0;
    while i < n
        invariant
            0 <= i <= n,
            n == rows@.len(),
            n > 0,
            dim == rows@[0]@.len(),
            2 <= dim <= 4,
            cs@.len() == i,
            forall|j: int| 0 <= j < i ==> (#[trigger] rows@[j])@.len() == dim && cs@[j]
                == coord_of_row(rows@[j]@),
        decreases n - i,
    {
        let row = &rows[i];
        if row.len() != dim {
            return Err(Error::NonUniformCoordinateDimension);
        }
        let c = Coord {
            x: row[0],
            y: row[1],
            z: if dim > 2 {
                row[2]
            } else {
                NAN_BITS
            },
            m: if dim > 3 {
                row[3]
            } else {
                NAN_BITS
            },
        };
        cs.push(c);
        i = i + 1;
    }
    Ok((cs, z, m))
}

} // verus!
