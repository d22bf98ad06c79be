//! The geometry type-cast engine: a partial conversion function between the
//! shape variants, with the spatial reference id always carried over from
//! the source.
//!
//! `spec_cast` is the rule table; the executable `cast_geometry` is proved
//! to return exactly what the table says, and to fail with
//! `UnsupportedCast` exactly on the pairs the table leaves out.

use vstd::prelude::*;
use crate::bits::{is_nan, nan_bits, NAN_BITS};
use crate::error::Error;
use crate::geometry::{
    clone_coords, clone_members, clone_node, coord_wf, coords_wf, geometry_wf, Coord, GeomType,
    Geometry, GeometryV, Kind, KindV,
    lemma_members_view_index, lemma_members_view_len, lemma_members_view_push,
    lemma_members_wf_build, lemma_members_wf_index, member_tag_ok, members_empty, members_view,
    members_wf, node_empty, node_is_empty, node_type, node_view, node_wf, rings_view, tag_of,
    Node, NodeV, MAX_COUNT,
};

verus! {

/// The variants whose direct members a cast to a geometry collection
/// unwraps; every other source is wrapped whole as the sole element.
pub open spec fn is_collection_tag(t: GeomType) -> bool {
    match t {
        GeomType::MultiPoint => true,
        GeomType::MultiLineString => true,
        GeomType::MultiCurve => true,
        GeomType::MultiPolygon => true,
        GeomType::MultiSurface => true,
        GeomType::GeometryCollection => true,
        _ => false,
    }
}

/// The direct members of a compound payload; empty for the simple shapes.
pub open spec fn members_of(k: KindV) -> Seq<NodeV> {
    match k {
        KindV::CompoundCurve(ch) => ch,
        KindV::CurvePolygon(ch) => ch,
        KindV::MultiPoint(ch) => ch,
        KindV::MultiLineString(ch) => ch,
        KindV::MultiCurve(ch) => ch,
        KindV::MultiPolygon(ch) => ch,
        KindV::MultiSurface(ch) => ch,
        KindV::GeometryCollection(ch) => ch,
        _ => Seq::empty(),
    }
}

/// A coordinate carried over into a node with flags `z`, `m`: ordinates of
/// dimensions the target does not carry are replaced by the sentinel.
pub open spec fn adjust_coord(z: bool, m: bool, c: Coord) -> Coord {
    Coord {
        x: c.x,
        y: c.y,
        z: if z {
            c.z
        } else {
            NAN_BITS
        },
        m: if m {
            c.m
        } else {
            NAN_BITS
        },
    }
}

/// The point a single coordinate of a curve explodes into; an all-NaN
/// position becomes the empty point.
pub open spec fn point_of_coord(z: bool, m: bool, c: Coord) -> NodeV {
    NodeV {
        has_z: z,
        has_m: m,
        kind: KindV::Point(
            if is_nan(c.x) && is_nan(c.y) {
                None
            } else {
                Some(adjust_coord(z, m, c))
            },
        ),
    }
}

/// The coordinates of a curve exploded into points, one each.
pub open spec fn exploded_points(z: bool, m: bool, cs: Seq<Coord>) -> Seq<NodeV> {
    cs.map_values(|c: Coord| point_of_coord(z, m, c))
}

/// The coordinates that the member points of a multi-point contribute to a
/// single curve: one per non-empty point, in order.
pub open spec fn gathered_coords(z: bool, m: bool, ch: Seq<NodeV>) -> Seq<Coord>
    decreases ch,
{
    if ch.len() == 0 {
        Seq::empty()
    } else {
        let rest = gathered_coords(z, m, ch.drop_first());
        match ch[0].kind {
            KindV::Point(Some(c)) => seq![adjust_coord(z, m, c)] + rest,
            _ => rest,
        }
    }
}

/// The rings of a polygon built from the members of a multi-line-string.
pub open spec fn gathered_rings(z: bool, m: bool, ch: Seq<NodeV>) -> Seq<Seq<Coord>> {
    ch.map_values(
        |nd: NodeV|
            match nd.kind {
                KindV::LineString(cs) => cs.map_values(|c: Coord| adjust_coord(z, m, c)),
                _ => Seq::<Coord>::empty(),
            },
    )
}

/// The cast rule table. `None` stands for an unsupported pair.
pub open spec fn spec_cast_node(n: NodeV, into: GeomType) -> Option<NodeV> {
    let t = tag_of(n.kind);
    let z = n.has_z;
    let m = n.has_m;
    if t == into {
        Some(n)
    } else if into == GeomType::GeometryCollection {
        Some(
            NodeV {
                has_z: z,
                has_m: m,
                kind: KindV::GeometryCollection(
                    if is_collection_tag(t) {
                        members_of(n.kind)
                    } else {
                        seq![n]
                    },
                ),
            },
        )
    } else if t == GeomType::Point && into == GeomType::MultiPoint {
        Some(
            NodeV {
                has_z: z,
                has_m: m,
                kind: KindV::MultiPoint(
                    if node_empty(n) {
                        Seq::empty()
                    } else {
                        seq![n]
                    },
                ),
            },
        )
    } else if (t == GeomType::LineString || t == GeomType::CircularString) && into
        == GeomType::MultiPoint {
        Some(
            NodeV {
                has_z: z,
                has_m: m,
                kind: KindV::MultiPoint(exploded_points(z, m, curve_coords(n.kind))),
            },
        )
    } else if t == GeomType::MultiPoint && (into == GeomType::LineString || into
        == GeomType::CircularString) {
        let cs = gathered_coords(z, m, members_of(n.kind));
        if cs.len() <= MAX_COUNT {
            Some(
                NodeV {
                    has_z: z,
                    has_m: m,
                    kind: if into == GeomType::LineString {
                        KindV::LineString(cs)
                    } else {
                        KindV::CircularString(cs)
                    },
                },
            )
        } else {
            None
        }
    } else if t == GeomType::CircularString && into == GeomType::LineString {
        Some(NodeV { has_z: z, has_m: m, kind: KindV::LineString(curve_coords(n.kind)) })
    } else if t == GeomType::LineString && into == GeomType::CircularString {
        Some(NodeV { has_z: z, has_m: m, kind: KindV::CircularString(curve_coords(n.kind)) })
    } else if (t == GeomType::LineString || t == GeomType::CircularString) && into
        == GeomType::MultiLineString {
        Some(
            NodeV {
                has_z: z,
                has_m: m,
                kind: KindV::MultiLineString(
                    if node_empty(n) {
                        Seq::empty()
                    } else {
                        seq![
                            NodeV {
                                has_z: z,
                                has_m: m,
                                kind: KindV::LineString(curve_coords(n.kind)),
                            },
                        ]
                    },
                ),
            },
        )
    } else if (t == GeomType::LineString || t == GeomType::CircularString) && into
        == GeomType::MultiCurve {
        Some(
            NodeV {
                has_z: z,
                has_m: m,
                kind: KindV::MultiCurve(
                    if node_empty(n) {
                        Seq::empty()
                    } else {
                        seq![n]
                    },
                ),
            },
        )
    } else if t == GeomType::MultiLineString && into == GeomType::Polygon {
        Some(
            NodeV {
                has_z: z,
                has_m: m,
                kind: KindV::Polygon(gathered_rings(z, m, members_of(n.kind))),
            },
        )
    } else if t == GeomType::MultiPolygon && into == GeomType::MultiSurface {
        Some(NodeV { has_z: z, has_m: m, kind: KindV::MultiSurface(members_of(n.kind)) })
    } else if t == GeomType::Polygon && into == GeomType::MultiPolygon {
        Some(
            NodeV {
                has_z: z,
                has_m: m,
                kind: KindV::MultiPolygon(
                    if node_empty(n) {
                        Seq::empty()
                    } else {
                        seq![n]
                    },
                ),
            },
        )
    } else if (t == GeomType::Polygon || t == GeomType::CurvePolygon) && into
        == GeomType::MultiSurface {
        Some(
            NodeV {
                has_z: z,
                has_m: m,
                kind: KindV::MultiSurface(
                    if node_empty(n) {
                        Seq::empty()
                    } else {
                        seq![n]
                    },
                ),
            },
        )
    } else {
        None
    }
}

/// The coordinate run of a simple curve payload.
pub open spec fn curve_coords(k: KindV) -> Seq<Coord> {
    match k {
        KindV::LineString(cs) => cs,
        KindV::CircularString(cs) => cs,
        _ => Seq::empty(),
    }
}

/// The full cast: the rule table on the node, the spatial reference id
/// carried over unchanged.
pub open spec fn spec_cast(g: GeometryV, into: GeomType) -> Option<GeometryV> {
    match spec_cast_node(g.node, into) {
        Some(nd) => Some(GeometryV { srid: g.srid, node: nd }),
        None => None,
    }
}

/// Casting a geometry to its own variant gives it back unchanged.
pub proof fn lemma_cast_identity(g: GeometryV)
    ensures
        spec_cast(g, tag_of(g.node.kind)) == Some(g),
{
}

/// Casting a point to a multi-point and the result to a geometry collection
/// flattens one level: the collection holds the point itself, not the
/// multi-point, and an empty point gives an empty collection.
pub proof fn lemma_cast_point_collection(g: GeometryV)
    requires
        tag_of(g.node.kind) == GeomType::Point,
    ensures
        spec_cast(g, GeomType::MultiPoint) matches Some(mp) && spec_cast(
            mp,
            GeomType::GeometryCollection,
        ) == Some(
            GeometryV {
                srid: g.srid,
                node: NodeV {
                    has_z: g.node.has_z,
                    has_m: g.node.has_m,
                    kind: KindV::GeometryCollection(
                        if node_empty(g.node) {
                            Seq::empty()
                        } else {
                            seq![g.node]
                        },
                    ),
                },
            },
        ),
{
}

/// An empty curve casts to the empty multi-line-string, not to a collection
/// holding one empty member.
pub proof fn lemma_cast_empty_curve(g: GeometryV)
    requires
        tag_of(g.node.kind) == GeomType::LineString || tag_of(g.node.kind)
            == GeomType::CircularString,
        node_empty(g.node),
    ensures
        spec_cast(g, GeomType::MultiLineString) matches Some(r) && r.node.kind
            == KindV::MultiLineString(Seq::<NodeV>::empty()),
{
}

/// Gathering contributes at most one coordinate per member.
proof fn lemma_gathered_len(z: bool, m: bool, ch: Seq<NodeV>)
    ensures
        gathered_coords(z, m, ch).len() <= ch.len(),
    decreases ch,
{
    if ch.len() > 0 {
        lemma_gathered_len(z, m, ch.drop_first());
    }
}

/// The coordinate a member contributes to a gathered curve.
pub open spec fn gathered_one(z: bool, m: bool, nd: NodeV) -> Seq<Coord> {
    match nd.kind {
        KindV::Point(Some(c)) => seq![adjust_coord(z, m, c)],
        _ => Seq::empty(),
    }
}

/// Extending a member prefix extends the gathered run by its contribution.
proof fn lemma_gathered_snoc(z: bool, m: bool, s: Seq<NodeV>, i: int)
    requires
        0 <= i < s.len(),
    ensures
        gathered_coords(z, m, s.take(i + 1)) == gathered_coords(z, m, s.take(i)) + gathered_one(
            z,
            m,
            s[i],
        ),
    decreases i,
{
    let a = gathered_one(z, m, s[0]);
    assert(s.take(i + 1)[0] == s[0]);
    if i == 0 {
        assert(s.take(1).drop_first() =~= s.take(0));
        assert(gathered_coords(z, m, s.take(0)) == Seq::<Coord>::empty());
        assert(gathered_coords(z, m, s.take(1)) =~= a);
        assert(gathered_coords(z, m, s.take(0)) + a =~= a);
    } else {
        let df = s.drop_first();
        assert(s.take(i)[0] == s[0]);
        assert(s.take(i + 1).drop_first() =~= df.take(i));
        assert(s.take(i).drop_first() =~= df.take(i - 1));
        assert(df[i - 1] == s[i]);
        lemma_gathered_snoc(z, m, df, i - 1);
        let p = gathered_coords(z, m, df.take(i - 1));
        let c = gathered_one(z, m, s[i]);
        assert(gathered_coords(z, m, s.take(i + 1)) == a + (p + c));
        assert(gathered_coords(z, m, s.take(i)) == a + p);
        assert((a + p) + c =~= a + (p + c));
    }
}

/// Carries a coordinate into a node with flags `z`, `m`.
fn adjust_coord_exec(z: bool, m: bool, c: Coord) -> (r: Coord)
    ensures
        r == adjust_coord(z, m, c),
{
    Coord {
        x: c.x,
        y: c.y,
        z: if z {
            c.z
        } else {
            NAN_BITS
        },
        m: if m {
            c.m
        } else {
            NAN_BITS
        },
    }
}

/// Explodes the coordinates of a curve into one point each.
fn explode_points(z: bool, m: bool, cs: &Vec<Coord>) -> (out: Vec<Node>)
    ensures
        members_view(out@) == exploded_points(z, m, cs@),
{
    broadcast use lemma_members_view_len, lemma_members_view_index;

    let n = cs.len();
    let mut out: Vec<Node> = Vec::new();
    let mut i: usize = 0;
    while i < n
        invariant
            0 <= i <= n,
            n == cs@.len(),
            out@.len() == i,
            forall|j: int| 0 <= j < i ==> members_view(out@)[j] == point_of_coord(
                z,
                m,
                cs@[j],
            ),
        decreases n - i,
    {
        broadcast use lemma_members_view_len, lemma_members_view_index;

        let c = cs[i];
        let kind = if nan_bits(c.x) && nan_bits(c.y) {
            Kind::Point(None)
        } else {
            Kind::Point(Some(adjust_coord_exec(z, m, c)))
        };
        let nd = Node { has_z: z, has_m: m, kind };
        proof {
            lemma_members_view_push(out@, nd);
        }
        out.push(nd);
        i = i + 1;
    }
    proof {
        assert(members_view(out@) =~= exploded_points(z, m, cs@));
    }
    out
}

/// Gathers the coordinates of the non-empty member points of a multi-point.
fn gather_coords(z: bool, m: bool, ch: &Vec<Node>) -> (out: Vec<Coord>)
    ensures
        out@ == gathered_coords(z, m, members_view(ch@)),
        out@.len() <= ch@.len(),
    decreases ch@,
{
    broadcast use lemma_members_view_len, lemma_members_view_index;

    let n = ch.len();
    let mut out: Vec<Coord> = Vec::new();
    let mut i: usize = 0;
    while i < n
        invariant
            0 <= i <= n,
            n == ch@.len(),
            out@.len() <= i,
            out@ == gathered_coords(z, m, members_view(ch@).take(i as int)),
        decreases n - i,
    {
        broadcast use lemma_members_view_len, lemma_members_view_index;

        match &ch[i].kind {
            Kind::Point(Some(c)) => {
                out.push(adjust_coord_exec(z, m, *c));
            },
            _ => {},
        }
        proof {
            lemma_gathered_snoc(z, m, members_view(ch@), i as int);
            seq_add_unit_coord(
                gathered_coords(z, m, members_view(ch@).take(i as int)),
                gathered_one(z, m, members_view(ch@)[i as int]),
            );
        }
        i = i + 1;
    }
    proof {
        assert(members_view(ch@).take(n as int) =~= members_view(ch@));
        lemma_gathered_len(z, m, members_view(ch@));
    }
    out
}

/// Appending a run of at most one coordinate.
proof fn seq_add_unit_coord(a: Seq<Coord>, b: Seq<Coord>)
    requires
        b.len() <= 1,
    ensures
        b.len() == 0 ==> a + b =~= a,
        b.len() == 1 ==> a + b =~= a.push(b[0]),
{
}

/// Carries every coordinate of a run into flags `z`, `m`.
fn adjust_coords(z: bool, m: bool, cs: &Vec<Coord>) -> (out: Vec<Coord>)
    ensures
        out@ == cs@.map_values(|c: Coord| adjust_coord(z, m, c)),
{
    let n = cs.len();
    let mut out: Vec<Coord> = Vec::new();
    let mut i: usize = 0;
    while i < n
        invariant
            0 <= i <= n,
            n == cs@.len(),
            out@.len() == i,
            forall|j: int| 0 <= j < i ==> out@[j] == adjust_coord(z, m, #[trigger] cs@[j]),
        decreases n - i,
    {
        out.push(adjust_coord_exec(z, m, cs[i]));
        i = i + 1;
    }
    proof {
        assert(out@ =~= cs@.map_values(|c: Coord| adjust_coord(z, m, c)));
    }
    out
}

/// Builds polygon rings from the members of a multi-line-string.
fn gather_rings(z: bool, m: bool, ch: &Vec<Node>) -> (out: Vec<Vec<Coord>>)
    ensures
        rings_view(out@) == gathered_rings(z, m, members_view(ch@)),
{
    broadcast use lemma_members_view_len, lemma_members_view_index;

    let n = ch.len();
    let mut out: Vec<Vec<Coord>> = Vec::new();
    let mut i: usize = 0;
    while i < n
        invariant
            0 <= i <= n,
            n == ch@.len(),
            out@.len() == i,
            forall|j: int| 0 <= j < i ==> (#[trigger] out@[j])@ == gathered_rings(
                z,
                m,
                members_view(ch@),
            )[j],
        decreases n - i,
    {
        broadcast use lemma_members_view_len, lemma_members_view_index;

        let ring: Vec<Coord> = match &ch[i].kind {
            Kind::LineString(cs) => adjust_coords(z, m, cs),
            _ => Vec::new(),
        };
        proof {
            assert(members_view(ch@)[i as int] == node_view(ch@[i as int]));
        }
        out.push(ring);
        i = i + 1;
    }
    proof {
        assert(rings_view(out@) =~= gathered_rings(z, m, members_view(ch@)));
    }
    out
}

/// A gathered coordinate run is well-formed for its flags.
proof fn lemma_gathered_wf(z: bool, m: bool, ch: Seq<NodeV>)
    ensures
        coords_wf(z, m, gathered_coords(z, m, ch)),
    decreases ch,
{
    if ch.len() > 0 {
        lemma_gathered_wf(z, m, ch.drop_first());
        let rest = gathered_coords(z, m, ch.drop_first());
        match ch[0].kind {
            KindV::Point(Some(c)) => {
                let cs = seq![adjust_coord(z, m, c)] + rest;
                assert(forall|i: int| 1 <= i < cs.len() ==> #[trigger] cs[i] == rest[i - 1]);
                assert(coords_wf(z, m, cs));
            },
            _ => {},
        }
    }
}

/// The one-member list that wraps a node.
fn single_member(n: &Node) -> (out: Vec<Node>)
    ensures
        members_view(out@) == seq![n@],
{
    let mut out: Vec<Node> = Vec::new();
    let c = clone_node(n);
    proof {
        lemma_members_view_push(out@, c);
    }
    out.push(c);
    proof {
        assert(members_view(out@) =~= seq![n@]);
    }
    out
}

/// The variants whose members a geometry-collection cast unwraps.
fn is_collection_type(t: GeomType) -> (r: bool)
    ensures
        r == is_collection_tag(t),
{
    match t {
        GeomType::MultiPoint => true,
        GeomType::MultiLineString => true,
        GeomType::MultiCurve => true,
        GeomType::MultiPolygon => true,
        GeomType::MultiSurface => true,
        GeomType::GeometryCollection => true,
        _ => false,
    }
}

/// Applies the cast rule table to one node.
pub fn cast_node(n: &Node, into: GeomType) -> (r: Result<Node, Error>)
    ensures
        match r {
            Ok(out) => spec_cast_node(n@, into) == Some(out@),
            Err(e) => spec_cast_node(n@, into) is None && e == Error::UnsupportedCast(
                tag_of(n@.kind),
                into,
            ),
        },
{
    let t = node_type(n);
    let z = n.has_z;
    let m = n.has_m;
    if t == into {
        Ok(clone_node(n))
    } else if into == GeomType::GeometryCollection {
        let members: Vec<Node> = if is_collection_type(t) {
            match &n.kind {
                Kind::MultiPoint(ch) => clone_members(ch),
                Kind::MultiLineString(ch) => clone_members(ch),
                Kind::MultiCurve(ch) => clone_members(ch),
                Kind::MultiPolygon(ch) => clone_members(ch),
                Kind::MultiSurface(ch) => clone_members(ch),
                Kind::GeometryCollection(ch) => clone_members(ch),
                _ => Vec::new(),
            }
        } else {
            single_member(n)
        };
        Ok(Node { has_z: z, has_m: m, kind: Kind::GeometryCollection(members) })
    } else if t == GeomType::Point && into == GeomType::MultiPoint {
        let members: Vec<Node> = if node_is_empty(n) {
            Vec::new()
        } else {
            single_member(n)
        };
        Ok(Node { has_z: z, has_m: m, kind: Kind::MultiPoint(members) })
    } else if (t == GeomType::LineString || t == GeomType::CircularString) && into
        == GeomType::MultiPoint {
        let members: Vec<Node> = match &n.kind {
            Kind::LineString(cs) => explode_points(z, m, cs),
            Kind::CircularString(cs) => explode_points(z, m, cs),
            _ => Vec::new(),
        };
        Ok(Node { has_z: z, has_m: m, kind: Kind::MultiPoint(members) })
    } else if t == GeomType::MultiPoint && (into == GeomType::LineString || into
        == GeomType::CircularString) {
        let cs: Vec<Coord> = match &n.kind {
            Kind::MultiPoint(ch) => gather_coords(z, m, ch),
            _ => Vec::new(),
        };
        if cs.len() > MAX_COUNT {
            return Err(Error::UnsupportedCast(t, into));
        }
        if into == GeomType::LineString {
            Ok(Node { has_z: z, has_m: m, kind: Kind::LineString(cs) })
        } else {
            Ok(Node { has_z: z, has_m: m, kind: Kind::CircularString(cs) })
        }
    } else if t == GeomType::CircularString && into == GeomType::LineString {
        let cs: Vec<Coord> = match &n.kind {
            Kind::CircularString(cs) => clone_coords(cs),
            _ => Vec::new(),
        };
        Ok(Node { has_z: z, has_m: m, kind: Kind::LineString(cs) })
    } else if t == GeomType::LineString && into == GeomType::CircularString {
        let cs: Vec<Coord> = match &n.kind {
            Kind::LineString(cs) => clone_coords(cs),
            _ => Vec::new(),
        };
        Ok(Node { has_z: z, has_m: m, kind: Kind::CircularString(cs) })
    } else if (t == GeomType::LineString || t == GeomType::CircularString) && into
        == GeomType::MultiLineString {
        let members: Vec<Node> = if node_is_empty(n) {
            Vec::new()
        } else {
            let cs: Vec<Coord> = match &n.kind {
                Kind::LineString(cs) => clone_coords(cs),
                Kind::CircularString(cs) => clone_coords(cs),
                _ => Vec::new(),
            };
            let line = Node { has_z: z, has_m: m, kind: Kind::LineString(cs) };
            let mut out: Vec<Node> = Vec::new();
            proof {
                lemma_members_view_push(out@, line);
            }
            out.push(line);
            proof {
                assert(members_view(out@) =~= seq![
                    NodeV { has_z: z, has_m: m, kind: KindV::LineString(curve_coords(n@.kind)) },
                ]);
            }
            out
        };
        Ok(Node { has_z: z, has_m: m, kind: Kind::MultiLineString(members) })
    } else if (t == GeomType::LineString || t == GeomType::CircularString) && into
        == GeomType::MultiCurve {
        let members: Vec<Node> = if node_is_empty(n) {
            Vec::new()
        } else {
            single_member(n)
        };
        Ok(Node { has_z: z, has_m: m, kind: Kind::MultiCurve(members) })
    } else if t == GeomType::MultiLineString && into == GeomType::Polygon {
        let rings: Vec<Vec<Coord>> = match &n.kind {
            Kind::MultiLineString(ch) => gather_rings(z, m, ch),
            _ => Vec::new(),
        };
        Ok(Node { has_z: z, has_m: m, kind: Kind::Polygon(rings) })
    } else if t == GeomType::MultiPolygon && into == GeomType::MultiSurface {
        let members: Vec<Node> = match &n.kind {
            Kind::MultiPolygon(ch) => clone_members(ch),
            _ => Vec::new(),
        };
        Ok(Node { has_z: z, has_m: m, kind: Kind::MultiSurface(members) })
    } else if t == GeomType::Polygon && into == GeomType::MultiPolygon {
        let members: Vec<Node> = if node_is_empty(n) {
            Vec::new()
        } else {
            single_member(n)
        };
        Ok(Node { has_z: z, has_m: m, kind: Kind::MultiPolygon(members) })
    } else if (t == GeomType::Polygon || t == GeomType::CurvePolygon) && into
        == GeomType::MultiSurface {
        let members: Vec<Node> = if node_is_empty(n) {
            Vec::new()
        } else {
            single_member(n)
        };
        Ok(Node { has_z: z, has_m: m, kind: Kind::MultiSurface(members) })
    } else {
        Err(Error::UnsupportedCast(t, into))
    }
}

/// A cast of a well-formed node gives a well-formed node.
pub proof fn lemma_cast_wf(n: NodeV, into: GeomType)
    requires
        node_wf(n),
        spec_cast_node(n, into) is Some,
    ensures
        node_wf(spec_cast_node(n, into)->Some_0),
{
    let t = tag_of(n.kind);
    let z = n.has_z;
    let m = n.has_m;
    let out = spec_cast_node(n, into)->Some_0;
    if t == into {
    } else if into == GeomType::GeometryCollection {
        let ms = if is_collection_tag(t) {
            members_of(n.kind)
        } else {
            seq![n]
        };
        if is_collection_tag(t) {
            assert(members_wf(t, members_of(n.kind)));
            assert forall|i: int| 0 <= i < ms.len() implies node_wf(#[trigger] ms[i])
                && member_tag_ok(GeomType::GeometryCollection, tag_of(ms[i].kind)) by {
                lemma_members_wf_index(t, members_of(n.kind), i);
            }
            lemma_members_wf_build(GeomType::GeometryCollection, ms);
        } else {
            lemma_members_wf_build(GeomType::GeometryCollection, ms);
        }
    } else if t == GeomType::Point && into == GeomType::MultiPoint {
        lemma_members_wf_build(
            GeomType::MultiPoint,
            if node_empty(n) {
                Seq::empty()
            } else {
                seq![n]
            },
        );
    } else if (t == GeomType::LineString || t == GeomType::CircularString) && into
        == GeomType::MultiPoint {
        let cs = curve_coords(n.kind);
        let ms = exploded_points(z, m, cs);
        assert forall|i: int| 0 <= i < ms.len() implies node_wf(#[trigger] ms[i])
            && member_tag_ok(GeomType::MultiPoint, tag_of(ms[i].kind)) by {
            assert(ms[i] == point_of_coord(z, m, cs[i]));
        }
        lemma_members_wf_build(GeomType::MultiPoint, ms);
    } else if t == GeomType::MultiPoint && (into == GeomType::LineString || into
        == GeomType::CircularString) {
        lemma_gathered_wf(z, m, members_of(n.kind));
    } else if t == GeomType::CircularString && into == GeomType::LineString {
    } else if t == GeomType::LineString && into == GeomType::CircularString {
    } else if (t == GeomType::LineString || t == GeomType::CircularString) && into
        == GeomType::MultiLineString {
        if !node_empty(n) {
            let member = NodeV { has_z: z, has_m: m, kind: KindV::LineString(curve_coords(n.kind)) };
            assert(node_wf(member));
            lemma_members_wf_build(GeomType::MultiLineString, seq![member]);
        } else {
            lemma_members_wf_build(GeomType::MultiLineString, Seq::empty());
        }
    } else if (t == GeomType::LineString || t == GeomType::CircularString) && into
        == GeomType::MultiCurve {
        lemma_members_wf_build(
            GeomType::MultiCurve,
            if node_empty(n) {
                Seq::empty()
            } else {
                seq![n]
            },
        );
    } else if t == GeomType::MultiLineString && into == GeomType::Polygon {
        let ch = members_of(n.kind);
        let rings = gathered_rings(z, m, ch);
        assert forall|i: int| 0 <= i < rings.len() implies (#[trigger] rings[i]).len()
            <= MAX_COUNT && coords_wf(z, m, rings[i]) by {
            lemma_members_wf_index(t, ch, i);
            match ch[i].kind {
                KindV::LineString(cs) => {
                    let ring = cs.map_values(|c: Coord| adjust_coord(z, m, c));
                    assert(rings[i] == ring);
                    assert(forall|j: int| 0 <= j < ring.len() ==> #[trigger] ring[j]
                        == adjust_coord(z, m, cs[j]));
                },
                _ => {},
            }
        }
    } else if t == GeomType::MultiPolygon && into == GeomType::MultiSurface {
        let ch = members_of(n.kind);
        assert forall|i: int| 0 <= i < ch.len() implies node_wf(#[trigger] ch[i])
            && member_tag_ok(GeomType::MultiSurface, tag_of(ch[i].kind)) by {
            lemma_members_wf_index(t, ch, i);
        }
        lemma_members_wf_build(GeomType::MultiSurface, ch);
    } else if t == GeomType::Polygon && into == GeomType::MultiPolygon {
        lemma_members_wf_build(
            GeomType::MultiPolygon,
            if node_empty(n) {
                Seq::empty()
            } else {
                seq![n]
            },
        );
    } else if (t == GeomType::Polygon || t == GeomType::CurvePolygon) && into
        == GeomType::MultiSurface {
        lemma_members_wf_build(
            GeomType::MultiSurface,
            if node_empty(n) {
                Seq::empty()
            } else {
                seq![n]
            },
        );
    } else {
    }
}

/// Casts a geometry to the requested variant, carrying the spatial
/// reference id over. Succeeds exactly where the rule table has an entry,
/// and fails with `UnsupportedCast` on every other pair.
pub fn cast_geometry(g: &Geometry, into: GeomType) -> (r: Result<Geometry, Error>)
    requires
        geometry_wf(g@),
    ensures
        match r {
            Ok(out) => spec_cast(g@, into) == Some(out@) && geometry_wf(out@),
            Err(e) => spec_cast(g@, into) is None && e == Error::UnsupportedCast(
                tag_of(g@.node.kind),
                into,
            ),
        },
{
    match cast_node(&g.node, into) {
        Ok(nd) => {
            proof {
                lemma_cast_wf(g@.node, into);
            }
            Ok(Geometry { srid: g.srid, node: nd })
        },
        Err(e) => Err(e),
    }
}

} // verus!
