//! The affine-transform algebra: translate, rotate, scale and skew are all
//! one matrix applied to every coordinate.
//!
//! A node that carries a third dimension gets the full linear block and the
//! three-way translation; a node without one gets the upper-left block and
//! the planar translation, with the other ordinates passed through. The
//! measure ordinate always passes through. Empty shapes have no
//! coordinates, so they come back unchanged.

use vstd::prelude::*;
use crate::bits::{is_nan, nan_bits, NAN_BITS};
use crate::fp::{
    add_bits, cos_bits, degrees_bits, f_add, f_mod, f_mul, f_sub, fmod_bits, midpoint_bits,
    mul_bits, neg, neg_bits, radians_bits, sin_bits, sub_bits, tan_bits, to_radians, cos, sin,
    tan, NEG_ONE_BITS, ONE_BITS, SIGN_BIT,
};
use crate::geometry::{
    clone_node, coord_wf, coords_wf, geometry_wf, lemma_members_view_index,
    lemma_members_view_len, lemma_members_view_push, lemma_members_wf_build,
    lemma_members_wf_index, member_tag_ok, members_view, members_wf, node_type, node_view,
    node_wf, rings_view, tag_of, Coord, GeomType, Geometry, GeometryV, Kind, KindV, Node, NodeV,
    MAX_COUNT,
};

verus! {

/// A 3-by-3 linear block and a translation vector, all binary64 patterns.
#[derive(Clone, Copy, Debug, PartialEq, Eq, Structural)]
pub struct AffineMatrix {
    pub m11: u64,
    pub m12: u64,
    pub m13: u64,
    pub m21: u64,
    pub m22: u64,
    pub m23: u64,
    pub m31: u64,
    pub m32: u64,
    pub m33: u64,
    pub tx: u64,
    pub ty: u64,
    pub tz: u64,
}

/// Pattern of positive zero.
pub const ZERO_BITS: u64 = 0;

/// One coordinate through the matrix. The arithmetic order is fixed:
/// products first, then left-to-right sums, as the component formulas say.
pub open spec fn apply_coord(mx: AffineMatrix, has_z: bool, c: Coord) -> Coord {
    if has_z {
        Coord {
            x: add_bits(
                add_bits(add_bits(mul_bits(c.x, mx.m11), mul_bits(c.y, mx.m12)), mul_bits(mx.m13, c.z)),
                mx.tx,
            ),
            y: add_bits(
                add_bits(add_bits(mul_bits(c.x, mx.m21), mul_bits(c.y, mx.m22)), mul_bits(mx.m23, c.z)),
                mx.ty,
            ),
            z: add_bits(
                add_bits(add_bits(mul_bits(c.x, mx.m31), mul_bits(c.y, mx.m32)), mul_bits(mx.m33, c.z)),
                mx.tz,
            ),
            m: c.m,
        }
    } else {
        Coord {
            x: add_bits(add_bits(mul_bits(c.x, mx.m11), mul_bits(c.y, mx.m12)), mx.tx),
            y: add_bits(add_bits(mul_bits(c.x, mx.m21), mul_bits(c.y, mx.m22)), mx.ty),
            z: c.z,
            m: c.m,
        }
    }
}

/// A transformed point whose position became all-NaN is the empty point.
pub open spec fn apply_point(mx: AffineMatrix, has_z: bool, oc: Option<Coord>) -> Option<Coord> {
    match oc {
        None => None,
        Some(c) => {
            let c2 = apply_coord(mx, has_z, c);
            if is_nan(c2.x) && is_nan(c2.y) {
                None
            } else {
                Some(c2)
            }
        },
    }
}

pub open spec fn apply_coords(mx: AffineMatrix, has_z: bool, cs: Seq<Coord>) -> Seq<Coord> {
    cs.map_values(|c: Coord| apply_coord(mx, has_z, c))
}

pub open spec fn apply_rings(mx: AffineMatrix, has_z: bool, rs: Seq<Seq<Coord>>) -> Seq<
    Seq<Coord>,
> {
    rs.map_values(|r: Seq<Coord>| apply_coords(mx, has_z, r))
}

/// The matrix applied to every coordinate of a node, recursively. Flags and
/// shape stay as they are.
pub open spec fn apply_node(mx: AffineMatrix, n: NodeV) -> NodeV
    decreases n,
{
    NodeV {
        has_z: n.has_z,
        has_m: n.has_m,
        kind: match n.kind {
            KindV::Point(oc) => KindV::Point(apply_point(mx, n.has_z, oc)),
            KindV::LineString(cs) => KindV::LineString(apply_coords(mx, n.has_z, cs)),
            KindV::CircularString(cs) => KindV::CircularString(apply_coords(mx, n.has_z, cs)),
            KindV::Polygon(rs) => KindV::Polygon(apply_rings(mx, n.has_z, rs)),
            KindV::CompoundCurve(ch) => KindV::CompoundCurve(apply_members(mx, ch)),
            KindV::CurvePolygon(ch) => KindV::CurvePolygon(apply_members(mx, ch)),
            KindV::MultiPoint(ch) => KindV::MultiPoint(apply_members(mx, ch)),
            KindV::MultiLineString(ch) => KindV::MultiLineString(apply_members(mx, ch)),
            KindV::MultiCurve(ch) => KindV::MultiCurve(apply_members(mx, ch)),
            KindV::MultiPolygon(ch) => KindV::MultiPolygon(apply_members(mx, ch)),
            KindV::MultiSurface(ch) => KindV::MultiSurface(apply_members(mx, ch)),
            KindV::GeometryCollection(ch) => KindV::GeometryCollection(apply_members(mx, ch)),
        },
    }
}

pub open spec fn apply_members(mx: AffineMatrix, s: Seq<NodeV>) -> Seq<NodeV>
    decreases s,
{
    if s.len() == 0 {
        Seq::empty()
    } else {
        seq![apply_node(mx, s[0])] + apply_members(mx, s.drop_first())
    }
}

pub broadcast proof fn lemma_apply_members_len(mx: AffineMatrix, s: Seq<NodeV>)
    ensures
        (#[trigger] apply_members(mx, s)).len() == s.len(),
    decreases s,
{
    if s.len() > 0 {
        lemma_apply_members_len(mx, s.drop_first());
    }
}

pub broadcast proof fn lemma_apply_members_index(mx: AffineMatrix, s: Seq<NodeV>, i: int)
    requires
        0 <= i < s.len(),
    ensures
        #[trigger] apply_members(mx, s)[i] == apply_node(mx, s[i]),
    decreases s,
{
    lemma_apply_members_len(mx, s);
    if i > 0 {
        lemma_apply_members_index(mx, s.drop_first(), i - 1);
    }
}

/// Transforming keeps a node well-formed: flags, variants and counts are
/// untouched, sentinel ordinates pass through, and an all-NaN point
/// position becomes the empty point.
pub proof fn lemma_apply_wf(mx: AffineMatrix, n: NodeV)
    requires
        node_wf(n),
    ensures
        node_wf(apply_node(mx, n)),
    decreases n,
{
    broadcast use lemma_apply_members_len, lemma_apply_members_index;

    let out = apply_node(mx, n);
    match n.kind {
        KindV::Point(oc) => {
        },
        KindV::LineString(cs) => {
            lemma_apply_coords_wf(mx, n.has_z, n.has_m, cs);
        },
        KindV::CircularString(cs) => {
            lemma_apply_coords_wf(mx, n.has_z, n.has_m, cs);
        },
        KindV::Polygon(rs) => {
            assert forall|i: int| 0 <= i < apply_rings(mx, n.has_z, rs).len() implies (
            #[trigger] apply_rings(mx, n.has_z, rs)[i]).len() <= MAX_COUNT && coords_wf(
                n.has_z,
                n.has_m,
                apply_rings(mx, n.has_z, rs)[i],
            ) by {
                lemma_apply_coords_wf(mx, n.has_z, n.has_m, rs[i]);
            }
        },
        _ => {
            lemma_apply_members_wf(mx, tag_of(n.kind), members_of_node(n.kind));
        },
    }
}

/// The member list of a compound payload; empty for simple shapes.
pub open spec fn members_of_node(k: KindV) -> Seq<NodeV> {
    match k {
        KindV::CompoundCurve(ch) => ch,
        KindV::CurvePolygon(ch) => ch,
        KindV::MultiPoint(ch) => ch,
        KindV::MultiLineString(ch) => ch,
        KindV::MultiCurve(ch) => ch,
        KindV::MultiPolygon(ch) => ch,
        KindV::MultiSurface(ch) => ch,
        KindV::GeometryCollection(ch) => ch,
        _ => Seq::empty(),
    }
}

proof fn lemma_apply_coords_wf(mx: AffineMatrix, has_z: bool, has_m: bool, cs: Seq<Coord>)
    requires
        coords_wf(has_z, has_m, cs),
    ensures
        coords_wf(has_z, has_m, apply_coords(mx, has_z, cs)),
        apply_coords(mx, has_z, cs).len() == cs.len(),
{
    let out = apply_coords(mx, has_z, cs);
    assert forall|i: int| 0 <= i < out.len() implies coord_wf(has_z, has_m, #[trigger] out[i]) by {
        assert(out[i] == apply_coord(mx, has_z, cs[i]));
        assert(coord_wf(has_z, has_m, cs[i]));
    }
}

proof fn lemma_apply_members_wf(mx: AffineMatrix, parent: GeomType, s: Seq<NodeV>)
    requires
        members_wf(parent, s),
    ensures
        members_wf(parent, apply_members(mx, s)),
    decreases s,
{
    broadcast use lemma_apply_members_len, lemma_apply_members_index;

    let out = apply_members(mx, s);
    assert forall|i: int| 0 <= i < out.len() implies node_wf(#[trigger] out[i]) && member_tag_ok(
        parent,
        tag_of(out[i].kind),
    ) by {
        lemma_members_wf_index(parent, s, i);
        lemma_apply_wf(mx, s[i]);
    }
    lemma_members_wf_build(parent, out);
}

/// One coordinate through the matrix.
fn apply_coord_exec(mx: &AffineMatrix, has_z: bool, c: Coord) -> (r: Coord)
    ensures
        r == apply_coord(*mx, has_z, c),
{
    if has_z {
        let x = f_add(
            f_add(f_add(f_mul(c.x, mx.m11), f_mul(c.y, mx.m12)), f_mul(mx.m13, c.z)),
            mx.tx,
        );
        let y = f_add(
            f_add(f_add(f_mul(c.x, mx.m21), f_mul(c.y, mx.m22)), f_mul(mx.m23, c.z)),
            mx.ty,
        );
        let z = f_add(
            f_add(f_add(f_mul(c.x, mx.m31), f_mul(c.y, mx.m32)), f_mul(mx.m33, c.z)),
            mx.tz,
        );
        Coord { x, y, z, m: c.m }
    } else {
        let x = f_add(f_add(f_mul(c.x, mx.m11), f_mul(c.y, mx.m12)), mx.tx);
        let y = f_add(f_add(f_mul(c.x, mx.m21), f_mul(c.y, mx.m22)), mx.ty);
        Coord { x, y, z: c.z, m: c.m }
    }
}

fn apply_coords_exec(mx: &AffineMatrix, has_z: bool, cs: &Vec<Coord>) -> (out: Vec<Coord>)
    ensures
        out@ == apply_coords(*mx, has_z, cs@),
{
    let n = cs.len();
    let mut out: Vec<Coord> = Vec::new();
    let mut i: usize = 0;
    while i < n
        invariant
            0 <= i <= n,
            n == cs@.len(),
            out@.len() == i,
            forall|j: int| 0 <= j < i ==> out@[j] == apply_coord(*mx, has_z, #[trigger] cs@[j]),
        decreases n - i,
    {
        out.push(apply_coord_exec(mx, has_z, cs[i]));
        i = i + 1;
    }
    proof {
        assert(out@ =~= apply_coords(*mx, has_z, cs@));
    }
    out
}

fn apply_rings_exec(mx: &AffineMatrix, has_z: bool, rs: &Vec<Vec<Coord>>) -> (out: Vec<
    Vec<Coord>,
>)
    ensures
        rings_view(out@) == apply_rings(*mx, has_z, rings_view(rs@)),
{
    let n = rs.len();
    let mut out: Vec<Vec<Coord>> = Vec::new();
    let mut i: usize = 0;
    while i < n
        invariant
            0 <= i <= n,
            n == rs@.len(),
            out@.len() == i,
            forall|j: int| 0 <= j < i ==> (#[trigger] out@[j])@ == apply_coords(
                *mx,
                has_z,
                rs@[j]@,
            ),
        decreases n - i,
    {
        out.push(apply_coords_exec(mx, has_z, &rs[i]));
        i = i + 1;
    }
    proof {
        assert(rings_view(out@) =~= apply_rings(*mx, has_z, rings_view(rs@)));
    }
    out
}

fn apply_members_exec(mx: &AffineMatrix, ch: &Vec<Node>) -> (out: Vec<Node>)
    ensures
        members_view(out@) == apply_members(*mx, members_view(ch@)),
    decreases ch@,
{
    broadcast use
        lemma_members_view_len,
        lemma_members_view_index,
        lemma_apply_members_len,
        lemma_apply_members_index,
    ;

    let n = ch.len();
    let mut out: Vec<Node> = Vec::new();
    let mut i: usize = 0;
    while i < n
        invariant
            0 <= i <= n,
            n == ch@.len(),
            out@.len() == i,
            forall|j: int| 0 <= j < i ==> members_view(out@)[j] == apply_node(
                *mx,
                #[trigger] members_view(ch@)[j],
            ),
        decreases n - i,
    {
        broadcast use
            lemma_members_view_len,
            lemma_members_view_index,
            lemma_apply_members_len,
            lemma_apply_members_index,
        ;

        let nd = apply_node_exec(mx, &ch[i]);
        proof {
            lemma_members_view_push(out@, nd);
        }
        out.push(nd);
        i = i + 1;
    }
    proof {
        assert(members_view(out@) =~= apply_members(*mx, members_view(ch@)));
    }
    out
}

/// The matrix applied to every coordinate of a node.
pub fn apply_node_exec(mx: &AffineMatrix, n: &Node) -> (out: Node)
    ensures
        out@ == apply_node(*mx, n@),
    decreases *n,
{
    let z = n.has_z;
    let m = n.has_m;
    let kind: Kind = match &n.kind {
        Kind::Point(oc) => Kind::Point(
            match oc {
                None => None,
                Some(c) => {
                    let c2 = apply_coord_exec(mx, z, *c);
                    if nan_bits(c2.x) && nan_bits(c2.y) {
                        None
                    } else {
                        Some(c2)
                    }
                },
            },
        ),
        Kind::LineString(cs) => Kind::LineString(apply_coords_exec(mx, z, cs)),
        Kind::CircularString(cs) => Kind::CircularString(apply_coords_exec(mx, z, cs)),
        Kind::Polygon(rs) => Kind::Polygon(apply_rings_exec(mx, z, rs)),
        Kind::CompoundCurve(ch) => Kind::CompoundCurve(apply_members_exec(mx, ch)),
        Kind::CurvePolygon(ch) => Kind::CurvePolygon(apply_members_exec(mx, ch)),
        Kind::MultiPoint(ch) => Kind::MultiPoint(apply_members_exec(mx, ch)),
        Kind::MultiLineString(ch) => Kind::MultiLineString(apply_members_exec(mx, ch)),
        Kind::MultiCurve(ch) => Kind::MultiCurve(apply_members_exec(mx, ch)),
        Kind::MultiPolygon(ch) => Kind::MultiPolygon(apply_members_exec(mx, ch)),
        Kind::MultiSurface(ch) => Kind::MultiSurface(apply_members_exec(mx, ch)),
        Kind::GeometryCollection(ch) => Kind::GeometryCollection(apply_members_exec(mx, ch)),
    };
    Node { has_z: z, has_m: m, kind }
}

/// The matrix applied to a whole geometry; the spatial reference id stays.
pub fn affine_transform(g: &Geometry, mx: &AffineMatrix) -> (out: Geometry)
    requires
        geometry_wf(g@),
    ensures
        out@.srid == g@.srid,
        out@.node == apply_node(*mx, g@.node),
        geometry_wf(out@),
{
    let node = apply_node_exec(mx, &g.node);
    proof {
        lemma_apply_wf(*mx, g@.node);
    }
    Geometry { srid: g.srid, node }
}

/// The matrix of a plain translation: identity linear block.
pub open spec fn translation_matrix(dx: u64, dy: u64, dz: u64) -> AffineMatrix {
    AffineMatrix {
        m11: ONE_BITS,
        m12: ZERO_BITS,
        m13: ZERO_BITS,
        m21: ZERO_BITS,
        m22: ONE_BITS,
        m23: ZERO_BITS,
        m31: ZERO_BITS,
        m32: ZERO_BITS,
        m33: ONE_BITS,
        tx: dx,
        ty: dy,
        tz: dz,
    }
}

/// The matrix of a planar rotation with cosine `c` and sine `s` about the
/// pivot `(x0, y0)`: the translation is chosen so the pivot maps to itself
/// up to rounding.
pub open spec fn rotation_matrix(c: u64, s: u64, x0: u64, y0: u64) -> AffineMatrix {
    AffineMatrix {
        m11: c,
        m12: neg_bits(s),
        m13: ZERO_BITS,
        m21: s,
        m22: c,
        m23: ZERO_BITS,
        m31: ZERO_BITS,
        m32: ZERO_BITS,
        m33: ONE_BITS,
        tx: add_bits(sub_bits(x0, mul_bits(x0, c)), mul_bits(y0, s)),
        ty: sub_bits(sub_bits(y0, mul_bits(x0, s)), mul_bits(y0, c)),
        tz: ZERO_BITS,
    }
}

/// Pattern of ninety degrees.
pub const DEG90_BITS: u64 = 0x4056_8000_0000_0000;

/// Pattern of one hundred eighty degrees.
pub const DEG180_BITS: u64 = 0x4066_8000_0000_0000;

/// Pattern of two hundred seventy degrees.
pub const DEG270_BITS: u64 = 0x4070_e000_0000_0000;

/// Pattern of three hundred sixty degrees.
pub const DEG360_BITS: u64 = 0x4076_8000_0000_0000;

/// Pattern of minus ninety degrees.
pub const NEG_DEG90_BITS: u64 = 0xc056_8000_0000_0000;

/// Pattern of minus one hundred eighty degrees.
pub const NEG_DEG180_BITS: u64 = 0xc066_8000_0000_0000;

/// Pattern of minus two hundred seventy degrees.
pub const NEG_DEG270_BITS: u64 = 0xc070_e000_0000_0000;

/// The exact cosine and sine of a whole quarter turn, keyed by the
/// remainder of the angle by a full turn; `None` for every other angle.
/// Whole quarter turns get the exact unit values, so their matrix
/// arithmetic is exact, as the quarter-turn checks expect.
pub open spec fn quarter_cos_sin(r: u64) -> Option<(u64, u64)> {
    if r == 0 || r == SIGN_BIT {
        Option::Some((ONE_BITS, 0u64))
    } else if r == DEG90_BITS || r == NEG_DEG270_BITS {
        Option::Some((0u64, ONE_BITS))
    } else if r == DEG180_BITS || r == NEG_DEG180_BITS {
        Option::Some((NEG_ONE_BITS, 0u64))
    } else if r == DEG270_BITS || r == NEG_DEG90_BITS {
        Option::Some((0u64, NEG_ONE_BITS))
    } else {
        Option::None
    }
}

/// The cosine and sine a rotation angle in degrees gets: exact unit values
/// for whole quarter turns, the software trigonometry otherwise.
pub open spec fn rotation_cos_sin(angle: u64) -> (u64, u64) {
    match quarter_cos_sin(fmod_bits(angle, DEG360_BITS)) {
        Option::Some(cs) => cs,
        Option::None => (cos_bits(radians_bits(angle)), sin_bits(radians_bits(angle))),
    }
}

/// The rotation matrix for an angle in degrees.
pub open spec fn rotation_matrix_deg(angle: u64, x0: u64, y0: u64) -> AffineMatrix {
    rotation_matrix(rotation_cos_sin(angle).0, rotation_cos_sin(angle).1, x0, y0)
}

/// The matrix of an axis-wise scaling about a pivot.
pub open spec fn scale_matrix(sx: u64, sy: u64, sz: u64, x0: u64, y0: u64, z0: u64) -> AffineMatrix {
    AffineMatrix {
        m11: sx,
        m12: ZERO_BITS,
        m13: ZERO_BITS,
        m21: ZERO_BITS,
        m22: sy,
        m23: ZERO_BITS,
        m31: ZERO_BITS,
        m32: ZERO_BITS,
        m33: sz,
        tx: sub_bits(x0, mul_bits(x0, sx)),
        ty: sub_bits(y0, mul_bits(y0, sy)),
        tz: sub_bits(z0, mul_bits(z0, sz)),
    }
}

/// The matrix of a shear by the tangents `x`, `y`, `z` about a pivot: each
/// axis is sheared by the other two, and the translation fixes the pivot.
pub open spec fn skew_matrix(x: u64, y: u64, z: u64, x0: u64, y0: u64, z0: u64) -> AffineMatrix {
    AffineMatrix {
        m11: ONE_BITS,
        m12: x,
        m13: y,
        m21: z,
        m22: ONE_BITS,
        m23: x,
        m31: y,
        m32: z,
        m33: ONE_BITS,
        tx: sub_bits(sub_bits(sub_bits(x0, mul_bits(x0, ONE_BITS)), mul_bits(y0, x)), mul_bits(z0, y)),
        ty: sub_bits(sub_bits(sub_bits(y0, mul_bits(x0, z)), mul_bits(y0, ONE_BITS)), mul_bits(z0, x)),
        tz: sub_bits(sub_bits(sub_bits(z0, mul_bits(x0, y)), mul_bits(y0, z)), mul_bits(z0, ONE_BITS)),
    }
}

/// The skew matrix for angles in degrees.
pub open spec fn skew_matrix_deg(ax: u64, ay: u64, az: u64, x0: u64, y0: u64, z0: u64) -> AffineMatrix {
    skew_matrix(
        tan_bits(radians_bits(ax)),
        tan_bits(radians_bits(ay)),
        tan_bits(radians_bits(az)),
        x0,
        y0,
        z0,
    )
}

/// Builds the translation matrix.
pub fn make_translation(dx: u64, dy: u64, dz: u64) -> (mx: AffineMatrix)
    ensures
        mx == translation_matrix(dx, dy, dz),
{
    AffineMatrix {
        m11: ONE_BITS,
        m12: ZERO_BITS,
        m13: ZERO_BITS,
        m21: ZERO_BITS,
        m22: ONE_BITS,
        m23: ZERO_BITS,
        m31: ZERO_BITS,
        m32: ZERO_BITS,
        m33: ONE_BITS,
        tx: dx,
        ty: dy,
        tz: dz,
    }
}

/// Builds the rotation matrix for an angle in degrees about `(x0, y0)`;
/// whole quarter turns get exact unit cosine and sine.
pub fn make_rotation(angle: u64, x0: u64, y0: u64) -> (mx: AffineMatrix)
    ensures
        mx == rotation_matrix_deg(angle, x0, y0),
{
    let r = f_mod(angle, DEG360_BITS);
    let quarter: Option<(u64, u64)> = if r == 0 || r == SIGN_BIT {
        Some((ONE_BITS, 0u64))
    } else if r == DEG90_BITS || r == NEG_DEG270_BITS {
        Some((0u64, ONE_BITS))
    } else if r == DEG180_BITS || r == NEG_DEG180_BITS {
        Some((NEG_ONE_BITS, 0u64))
    } else if r == DEG270_BITS || r == NEG_DEG90_BITS {
        Some((0u64, NEG_ONE_BITS))
    } else {
        None
    };
    let (c, s): (u64, u64) = match quarter {
        Some(cs) => cs,
        None => {
            let rad = to_radians(angle);
            (cos(rad), sin(rad))
        },
    };
    AffineMatrix {
        m11: c,
        m12: neg(s),
        m13: ZERO_BITS,
        m21: s,
        m22: c,
        m23: ZERO_BITS,
        m31: ZERO_BITS,
        m32: ZERO_BITS,
        m33: ONE_BITS,
        tx: f_add(f_sub(x0, f_mul(x0, c)), f_mul(y0, s)),
        ty: f_sub(f_sub(y0, f_mul(x0, s)), f_mul(y0, c)),
        tz: ZERO_BITS,
    }
}

/// Builds the scale matrix.
pub fn make_scale(sx: u64, sy: u64, sz: u64, x0: u64, y0: u64, z0: u64) -> (mx: AffineMatrix)
    ensures
        mx == scale_matrix(sx, sy, sz, x0, y0, z0),
{
    AffineMatrix {
        m11: sx,
        m12: ZERO_BITS,
        m13: ZERO_BITS,
        m21: ZERO_BITS,
        m22: sy,
        m23: ZERO_BITS,
        m31: ZERO_BITS,
        m32: ZERO_BITS,
        m33: sz,
        tx: f_sub(x0, f_mul(x0, sx)),
        ty: f_sub(y0, f_mul(y0, sy)),
        tz: f_sub(z0, f_mul(z0, sz)),
    }
}

/// Builds the skew matrix for angles in degrees.
pub fn make_skew(ax: u64, ay: u64, az: u64, x0: u64, y0: u64, z0: u64) -> (mx: AffineMatrix)
    ensures
        mx == skew_matrix_deg(ax, ay, az, x0, y0, z0),
{
    let x = tan(to_radians(ax));
    let y = tan(to_radians(ay));
    let z = tan(to_radians(az));
    AffineMatrix {
        m11: ONE_BITS,
        m12: x,
        m13: y,
        m21: z,
        m22: ONE_BITS,
        m23: x,
        m31: y,
        m32: z,
        m33: ONE_BITS,
        tx: f_sub(f_sub(f_sub(x0, f_mul(x0, ONE_BITS)), f_mul(y0, x)), f_mul(z0, y)),
        ty: f_sub(f_sub(f_sub(y0, f_mul(x0, z)), f_mul(y0, ONE_BITS)), f_mul(z0, x)),
        tz: f_sub(f_sub(f_sub(z0, f_mul(x0, y)), f_mul(y0, z)), f_mul(z0, ONE_BITS)),
    }
}

} // verus!
