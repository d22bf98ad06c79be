//! The in-memory geometry model.
//!
//! A decoded geometry is a tree of `Node`s. Every node carries its own
//! dimensionality flags, as the binary format does, and coordinates are held
//! as binary64 bit patterns (see `bits`), so the whole model is plain data
//! that the verifier reasons about exactly.
//!
//! Contracts speak about the mathematical view of a node (`NodeV`), in which
//! every vector is a sequence.

use vstd::prelude::*;
use crate::bits::{is_nan, NAN_BITS};

verus! {

/// One coordinate. `z` and `m` hold the NaN sentinel whenever the owning
/// node does not carry that dimension.
#[derive(Clone, Copy, Debug, PartialEq, Eq, Structural)]
pub struct Coord {
    pub x: u64,
    pub y: u64,
    pub z: u64,
    pub m: u64,
}

/// The shape variants of the binary format.
#[derive(Clone, Copy, Debug, PartialEq, Eq, Structural)]
pub enum GeomType {
    Point,
    LineString,
    CircularString,
    CompoundCurve,
    Polygon,
    CurvePolygon,
    MultiPoint,
    MultiLineString,
    MultiCurve,
    MultiPolygon,
    MultiSurface,
    GeometryCollection,
}

/// Shape payload of a node. Polygon rings are raw coordinate sequences, as
/// in the binary format; every other compound shape holds full child nodes.
#[derive(Debug, PartialEq)]
pub enum Kind {
    Point(Option<Coord>),
    LineString(Vec<Coord>),
    CircularString(Vec<Coord>),
    CompoundCurve(Vec<Node>),
    Polygon(Vec<Vec<Coord>>),
    CurvePolygon(Vec<Node>),
    MultiPoint(Vec<Node>),
    MultiLineString(Vec<Node>),
    MultiCurve(Vec<Node>),
    MultiPolygon(Vec<Node>),
    MultiSurface(Vec<Node>),
    GeometryCollection(Vec<Node>),
}

/// A geometry node: dimensionality flags plus shape payload.
#[derive(Debug, PartialEq)]
pub struct Node {
    pub has_z: bool,
    pub has_m: bool,
    pub kind: Kind,
}

/// A full geometry: a spatial reference id (0 = none) and the root node.
#[derive(Debug, PartialEq)]
pub struct Geometry {
    pub srid: i32,
    pub node: Node,
}

/// Mathematical view of a payload.
#[verifier::ext_equal]
pub enum KindV {
    Point(Option<Coord>),
    LineString(Seq<Coord>),
    CircularString(Seq<Coord>),
    CompoundCurve(Seq<NodeV>),
    Polygon(Seq<Seq<Coord>>),
    CurvePolygon(Seq<NodeV>),
    MultiPoint(Seq<NodeV>),
    MultiLineString(Seq<NodeV>),
    MultiCurve(Seq<NodeV>),
    MultiPolygon(Seq<NodeV>),
    MultiSurface(Seq<NodeV>),
    GeometryCollection(Seq<NodeV>),
}

/// Mathematical view of a node.
#[verifier::ext_equal]
pub struct NodeV {
    pub has_z: bool,
    pub has_m: bool,
    pub kind: KindV,
}

/// Mathematical view of a geometry.
#[verifier::ext_equal]
pub struct GeometryV {
    pub srid: i32,
    pub node: NodeV,
}

pub open spec fn members_view(s: Seq<Node>) -> Seq<NodeV>
    decreases s,
{
    if s.len() == 0 {
        Seq::empty()
    } else {
        seq![node_view(s[0])] + members_view(s.drop_first())
    }
}

pub open spec fn rings_view(s: Seq<Vec<Coord>>) -> Seq<Seq<Coord>> {
    s.map_values(|r: Vec<Coord>| r@)
}

pub open spec fn kind_view(k: Kind) -> KindV
    decreases k,
{
    match k {
        Kind::Point(oc) => KindV::Point(oc),
        Kind::LineString(cs) => KindV::LineString(cs@),
        Kind::CircularString(cs) => KindV::CircularString(cs@),
        Kind::CompoundCurve(ch) => KindV::CompoundCurve(members_view(ch@)),
        Kind::Polygon(rings) => KindV::Polygon(rings_view(rings@)),
        Kind::CurvePolygon(ch) => KindV::CurvePolygon(members_view(ch@)),
        Kind::MultiPoint(ch) => KindV::MultiPoint(members_view(ch@)),
        Kind::MultiLineString(ch) => KindV::MultiLineString(members_view(ch@)),
        Kind::MultiCurve(ch) => KindV::MultiCurve(members_view(ch@)),
        Kind::MultiPolygon(ch) => KindV::MultiPolygon(members_view(ch@)),
        Kind::MultiSurface(ch) => KindV::MultiSurface(members_view(ch@)),
        Kind::GeometryCollection(ch) => KindV::GeometryCollection(members_view(ch@)),
    }
}

pub open spec fn node_view(n: Node) -> NodeV
    decreases n,
{
    NodeV { has_z: n.has_z, has_m: n.has_m, kind: kind_view(n.kind) }
}

impl View for Node {
    type V = NodeV;

    open spec fn view(&self) -> NodeV {
        node_view(*self)
    }
}

impl View for Geometry {
    type V = GeometryV;

    open spec fn view(&self) -> GeometryV {
        GeometryV { srid: self.srid, node: node_view(self.node) }
    }
}

pub broadcast proof fn lemma_members_view_len(s: Seq<Node>)
    ensures
        (#[trigger] members_view(s)).len() == s.len(),
    decreases s,
{
    if s.len() > 0 {
        lemma_members_view_len(s.drop_first());
    }
}

pub broadcast proof fn lemma_members_view_index(s: Seq<Node>, i: int)
    requires
        0 <= i < s.len(),
    ensures
        #[trigger] members_view(s)[i] == node_view(s[i]),
    decreases s,
{
    lemma_members_view_len(s);
    if i > 0 {
        lemma_members_view_index(s.drop_first(), i - 1);
    }
}

/// Appending one node to a list appends its view.
pub proof fn lemma_members_view_push(s: Seq<Node>, x: Node)
    ensures
        members_view(s.push(x)) == members_view(s) + seq![node_view(x)],
{
    broadcast use lemma_members_view_len, lemma_members_view_index;

    assert(members_view(s.push(x)) =~= members_view(s) + seq![node_view(x)]) by {
        assert(forall|j: int| 0 <= j < s.len() ==> s.push(x)[j] == #[trigger] s[j]);
        assert(s.push(x)[s.len() as int] == x);
    }
}

/// The shape variant of a payload view.
pub open spec fn tag_of(k: KindV) -> GeomType {
    match k {
        KindV::Point(_) => GeomType::Point,
        KindV::LineString(_) => GeomType::LineString,
        KindV::CircularString(_) => GeomType::CircularString,
        KindV::CompoundCurve(_) => GeomType::CompoundCurve,
        KindV::Polygon(_) => GeomType::Polygon,
        KindV::CurvePolygon(_) => GeomType::CurvePolygon,
        KindV::MultiPoint(_) => GeomType::MultiPoint,
        KindV::MultiLineString(_) => GeomType::MultiLineString,
        KindV::MultiCurve(_) => GeomType::MultiCurve,
        KindV::MultiPolygon(_) => GeomType::MultiPolygon,
        KindV::MultiSurface(_) => GeomType::MultiSurface,
        KindV::GeometryCollection(_) => GeomType::GeometryCollection,
    }
}

/// The shape variant of a node.
pub fn node_type(n: &Node) -> (t: GeomType)
    ensures
        t == tag_of(n@.kind),
{
    match &n.kind {
        Kind::Point(_) => GeomType::Point,
        Kind::LineString(_) => GeomType::LineString,
        Kind::CircularString(_) => GeomType::CircularString,
        Kind::CompoundCurve(_) => GeomType::CompoundCurve,
        Kind::Polygon(_) => GeomType::Polygon,
        Kind::CurvePolygon(_) => GeomType::CurvePolygon,
        Kind::MultiPoint(_) => GeomType::MultiPoint,
        Kind::MultiLineString(_) => GeomType::MultiLineString,
        Kind::MultiCurve(_) => GeomType::MultiCurve,
        Kind::MultiPolygon(_) => GeomType::MultiPolygon,
        Kind::MultiSurface(_) => GeomType::MultiSurface,
        Kind::GeometryCollection(_) => GeomType::GeometryCollection,
    }
}

/// A well-formed coordinate holds the sentinel in every absent dimension.
pub open spec fn coord_wf(has_z: bool, has_m: bool, c: Coord) -> bool {
    &&& !has_z ==> c.z == NAN_BITS
    &&& !has_m ==> c.m == NAN_BITS
}

pub open spec fn coords_wf(has_z: bool, has_m: bool, cs: Seq<Coord>) -> bool {
    forall|i: int| 0 <= i < cs.len() ==> coord_wf(has_z, has_m, #[trigger] cs[i])
}

/// May `child` stand as a direct member of a compound shape of variant
/// `parent`? Mirrors what the binary format accepts.
pub open spec fn member_tag_ok(parent: GeomType, child: GeomType) -> bool {
    match parent {
        GeomType::CompoundCurve => child == GeomType::LineString
            || child == GeomType::CircularString,
        GeomType::CurvePolygon => child == GeomType::LineString
            || child == GeomType::CircularString || child == GeomType::CompoundCurve,
        GeomType::MultiPoint => child == GeomType::Point,
        GeomType::MultiLineString => child == GeomType::LineString,
        GeomType::MultiCurve => child == GeomType::LineString
            || child == GeomType::CircularString || child == GeomType::CompoundCurve,
        GeomType::MultiPolygon => child == GeomType::Polygon,
        GeomType::MultiSurface => child == GeomType::Polygon
            || child == GeomType::CurvePolygon,
        GeomType::GeometryCollection => true,
        _ => false,
    }
}

pub const MAX_COUNT: usize = 0xffff_ffff;

/// Well-formedness of a node: sentinel ordinates in absent dimensions, a
/// non-empty point is not all-NaN in x and y, member counts fit the 32-bit
/// count fields, and members are of the variants their parent admits.
pub open spec fn node_wf(n: NodeV) -> bool
    decreases n,
{
    match n.kind {
        KindV::Point(oc) => match oc {
            Some(c) => coord_wf(n.has_z, n.has_m, c) && !(is_nan(c.x) && is_nan(c.y)),
            None => true,
        },
        KindV::LineString(cs) => cs.len() <= MAX_COUNT && coords_wf(n.has_z, n.has_m, cs),
        KindV::CircularString(cs) => cs.len() <= MAX_COUNT && coords_wf(n.has_z, n.has_m, cs),
        KindV::Polygon(rings) => rings.len() <= MAX_COUNT && forall|i: int|
            0 <= i < rings.len() ==> (#[trigger] rings[i]).len() <= MAX_COUNT && coords_wf(
                n.has_z,
                n.has_m,
                rings[i],
            ),
        KindV::CompoundCurve(ch) => members_wf(tag_of(n.kind), ch),
        KindV::CurvePolygon(ch) => members_wf(tag_of(n.kind), ch),
        KindV::MultiPoint(ch) => members_wf(tag_of(n.kind), ch),
        KindV::MultiLineString(ch) => members_wf(tag_of(n.kind), ch),
        KindV::MultiCurve(ch) => members_wf(tag_of(n.kind), ch),
        KindV::MultiPolygon(ch) => members_wf(tag_of(n.kind), ch),
        KindV::MultiSurface(ch) => members_wf(tag_of(n.kind), ch),
        KindV::GeometryCollection(ch) => members_wf(tag_of(n.kind), ch),
    }
}

/// Well-formedness of a member list under a parent variant.
pub open spec fn members_wf(parent: GeomType, s: Seq<NodeV>) -> bool
    decreases s,
{
    &&& s.len() <= MAX_COUNT
    &&& s.len() > 0 ==> {
        &&& member_tag_ok(parent, tag_of(s[0].kind))
        &&& node_wf(s[0])
        &&& members_wf(parent, s.drop_first())
    }
}

/// Every member of a well-formed list is itself well-formed and admissible.
pub proof fn lemma_members_wf_index(parent: GeomType, s: Seq<NodeV>, i: int)
    requires
        members_wf(parent, s),
        0 <= i < s.len(),
    ensures
        node_wf(s[i]),
        member_tag_ok(parent, tag_of(s[i].kind)),
    decreases s.len(),
{
    if i > 0 {
        lemma_members_wf_index(parent, s.drop_first(), i - 1);
        assert(s.drop_first()[i - 1] == s[i]);
    }
}

/// A member list whose every element is well-formed and admissible is
/// well-formed, provided its length fits the count field.
pub proof fn lemma_members_wf_build(parent: GeomType, s: Seq<NodeV>)
    requires
        s.len() <= MAX_COUNT,
        forall|i: int| 0 <= i < s.len() ==> node_wf(#[trigger] s[i]) && member_tag_ok(
            parent,
            tag_of(s[i].kind),
        ),
    ensures
        members_wf(parent, s),
    decreases s.len(),
{
    if s.len() > 0 {
        assert(forall|i: int| 0 <= i < s.drop_first().len() ==> #[trigger] s.drop_first()[i]
            == s[i + 1]);
        lemma_members_wf_build(parent, s.drop_first());
    }
}

pub open spec fn geometry_wf(g: GeometryV) -> bool {
    node_wf(g.node)
}

/// Emptiness: a point with no coordinate, a curve with no coordinates, a
/// polygon with no rings, and a compound shape whose members are all empty.
pub open spec fn node_empty(n: NodeV) -> bool
    decreases n,
{
    match n.kind {
        KindV::Point(oc) => oc is None,
        KindV::LineString(cs) => cs.len() == 0,
        KindV::CircularString(cs) => cs.len() == 0,
        KindV::Polygon(rings) => rings.len() == 0,
        KindV::CompoundCurve(ch) => members_empty(ch),
        KindV::CurvePolygon(ch) => members_empty(ch),
        KindV::MultiPoint(ch) => members_empty(ch),
        KindV::MultiLineString(ch) => members_empty(ch),
        KindV::MultiCurve(ch) => members_empty(ch),
        KindV::MultiPolygon(ch) => members_empty(ch),
        KindV::MultiSurface(ch) => members_empty(ch),
        KindV::GeometryCollection(ch) => members_empty(ch),
    }
}

pub open spec fn members_empty(s: Seq<NodeV>) -> bool
    decreases s,
{
    s.len() == 0 || (node_empty(s[0]) && members_empty(s.drop_first()))
}

/// Emptiness of a prefix extends by one empty element.
proof fn lemma_members_empty_push(s: Seq<NodeV>, i: int)
    requires
        0 <= i < s.len(),
        members_empty(s.take(i)),
        node_empty(s[i]),
    ensures
        members_empty(s.take(i + 1)),
    decreases i,
{
    if i == 0 {
        assert(s.take(1)[0] == s[0]);
        assert(s.take(1).drop_first() =~= s.take(0));
    } else {
        assert(s.take(i)[0] == s[0]);
        assert(s.take(i + 1)[0] == s[0]);
        assert(s.take(i).drop_first() =~= s.drop_first().take(i - 1));
        assert(s.take(i + 1).drop_first() =~= s.drop_first().take(i));
        assert(s.drop_first()[i - 1] == s[i]);
        lemma_members_empty_push(s.drop_first(), i - 1);
    }
}

/// A list with one non-empty element is not all empty.
proof fn lemma_members_empty_not(s: Seq<NodeV>, i: int)
    requires
        0 <= i < s.len(),
        !node_empty(s[i]),
    ensures
        !members_empty(s),
    decreases i,
{
    if i > 0 {
        assert(s.drop_first()[i - 1] == s[i]);
        lemma_members_empty_not(s.drop_first(), i - 1);
    }
}

/// Emptiness test over a member list.
fn members_is_empty(ch: &Vec<Node>) -> (r: bool)
    ensures
        r == members_empty(members_view(ch@)),
    decreases ch@,
{
    broadcast use lemma_members_view_len, lemma_members_view_index;

    let n = ch.len();
    let mut i: usize = 0;
    let mut all: bool = true;
    while i < n
        invariant
            0 <= i <= n,
            n == ch@.len(),
            all ==> members_empty(members_view(ch@).take(i as int)),
            !all ==> !members_empty(members_view(ch@)),
        decreases n - i,
    {
        broadcast use lemma_members_view_len, lemma_members_view_index;

        if !node_is_empty(&ch[i]) {
            proof {
                lemma_members_empty_not(members_view(ch@), i as int);
            }
            all = false;
        } else {
            proof {
                if all {
                    lemma_members_empty_push(members_view(ch@), i as int);
                }
            }
        }
        i = i + 1;
    }
    proof {
        if all {
            assert(members_view(ch@).take(n as int) =~= members_view(ch@));
        }
    }
    all
}

/// Emptiness test; degenerate shapes are normal values, not errors.
pub fn node_is_empty(n: &Node) -> (r: bool)
    ensures
        r == node_empty(n@),
    decreases *n,
{
    match &n.kind {
        Kind::Point(oc) => oc.is_none(),
        Kind::LineString(cs) => cs.len() == 0,
        Kind::CircularString(cs) => cs.len() == 0,
        Kind::Polygon(rings) => rings.len() == 0,
        Kind::CompoundCurve(ch) => members_is_empty(ch),
        Kind::CurvePolygon(ch) => members_is_empty(ch),
        Kind::MultiPoint(ch) => members_is_empty(ch),
        Kind::MultiLineString(ch) => members_is_empty(ch),
        Kind::MultiCurve(ch) => members_is_empty(ch),
        Kind::MultiPolygon(ch) => members_is_empty(ch),
        Kind::MultiSurface(ch) => members_is_empty(ch),
        Kind::GeometryCollection(ch) => members_is_empty(ch),
    }
}

pub fn geometry_is_empty(g: &Geometry) -> (r: bool)
    ensures
        r == node_empty(g@.node),
{
    node_is_empty(&g.node)
}

pub fn clone_coords(cs: &Vec<Coord>) -> (r: Vec<Coord>)
    ensures
        r@ == cs@,
{
    let mut r: Vec<Coord> = Vec::new();
    let n = cs.len();
    let mut i: usize = 0;
    while i < n
        invariant
            0 <= i <= n,
            n == cs@.len(),
            r@ == cs@.take(i as int),
        decreases n - i,
    {
        r.push(cs[i]);
        proof {
            assert(r@ =~= cs@.take(i + 1));
        }
        i = i + 1;
    }
    proof {
        assert(cs@.take(n as int) =~= cs@);
    }
    r
}

fn clone_rings(rings: &Vec<Vec<Coord>>) -> (r: Vec<Vec<Coord>>)
    ensures
        rings_view(r@) == rings_view(rings@),
{
    let mut r: Vec<Vec<Coord>> = Vec::new();
    let n = rings.len();
    let mut i: usize = 0;
    while i < n
        invariant
            0 <= i <= n,
            n == rings@.len(),
            r@.len() == i,
            forall|j: int| 0 <= j < i ==> (#[trigger] r@[j])@ == rings@[j]@,
        decreases n - i,
    {
        r.push(clone_coords(&rings[i]));
        i = i + 1;
    }
    proof {
        assert(rings_view(r@) =~= rings_view(rings@));
    }
    r
}

pub fn clone_members(ch: &Vec<Node>) -> (r: Vec<Node>)
    ensures
        members_view(r@) == members_view(ch@),
    decreases ch@,
{
    broadcast use lemma_members_view_len, lemma_members_view_index;

    let mut r: Vec<Node> = Vec::new();
    let n = ch.len();
    let mut i: usize = 0;
    while i < n
        invariant
            0 <= i <= n,
            n == ch@.len(),
            members_view(r@) == members_view(ch@).take(i as int),
        decreases n - i,
    {
        broadcast use lemma_members_view_len, lemma_members_view_index;

        let c = clone_node(&ch[i]);
        r.push(c);
        proof {
            assert(members_view(r@) =~= members_view(ch@).take(i + 1));
        }
        i = i + 1;
    }
    proof {
        assert(members_view(ch@).take(n as int) =~= members_view(ch@));
    }
    r
}

/// Structural copy of a node.
pub fn clone_node(n: &Node) -> (r: Node)
    ensures
        r@ == n@,
    decreases *n,
{
    let kind = match &n.kind {
        Kind::Point(oc) => Kind::Point(*oc),
        Kind::LineString(cs) => Kind::LineString(clone_coords(cs)),
        Kind::CircularString(cs) => Kind::CircularString(clone_coords(cs)),
        Kind::Polygon(rings) => Kind::Polygon(clone_rings(rings)),
        Kind::CompoundCurve(ch) => Kind::CompoundCurve(clone_members(ch)),
        Kind::CurvePolygon(ch) => Kind::CurvePolygon(clone_members(ch)),
        Kind::MultiPoint(ch) => Kind::MultiPoint(clone_members(ch)),
        Kind::MultiLineString(ch) => Kind::MultiLineString(clone_members(ch)),
        Kind::MultiCurve(ch) => Kind::MultiCurve(clone_members(ch)),
        Kind::MultiPolygon(ch) => Kind::MultiPolygon(clone_members(ch)),
        Kind::MultiSurface(ch) => Kind::MultiSurface(clone_members(ch)),
        Kind::GeometryCollection(ch) => Kind::GeometryCollection(clone_members(ch)),
    };
    Node { has_z: n.has_z, has_m: n.has_m, kind }
}

impl Clone for Node {
    /// Structural copy.
    fn clone(&self) -> (r: Self)
        ensures
            r@ == self@,
    {
        clone_node(self)
    }
}

impl Clone for Geometry {
    /// Structural copy.
    fn clone(&self) -> (r: Self)
        ensures
            r@ == self@,
    {
        Geometry { srid: self.srid, node: clone_node(&self.node) }
    }
}

} // verus!
