//! The coordinate-reference reprojection engine.
//!
//! Per column-level call a cache maps each spatial reference code to its
//! projection, built at most once. Per row: when the source code equals the
//! destination, or the geometry is empty, the input bytes come back
//! untouched; otherwise every coordinate is rewritten through the
//! projection engine — degrees to radians first when the source system is
//! geographic, a three-way transform when the coordinate carries a numeric
//! z, radians to degrees when the destination is geographic — and the
//! result carries the destination code. The first failed coordinate aborts
//! the row's geometry whole; no partially transformed geometry is returned.

use vstd::prelude::*;
use crate::bits::{is_nan, nan_bits, NAN_BITS};
use crate::codec::{cell_geom, decode_geometry, parse_geometry, spec_encode_geometry, to_ewkb, ByteOrder};
use crate::error::Error;
use crate::fp::{degrees_bits, radians_bits, to_degrees, to_radians};
use crate::geometry::{
    clone_node, coord_wf, coords_wf, geometry_wf, lemma_members_view_index,
    lemma_members_view_len, lemma_members_view_push, lemma_members_wf_build,
    lemma_members_wf_index, member_tag_ok, members_view, members_wf, node_empty, node_is_empty,
    node_wf, rings_view, tag_of, Coord, GeomType, Geometry, GeometryV, Kind, KindV, Node, NodeV,
    MAX_COUNT,
};

verus! {

/// Is an EPSG code in the projection engine's table?
pub uninterp spec fn epsg_known(code: u16) -> bool;

/// Is the system of an EPSG code geographic (long/lat in degrees)?
pub uninterp spec fn epsg_geographic(code: u16) -> bool;

/// A projection handle paired with the code it was built from.
pub struct Projection {
    proj: proj4rs::Proj,
    pub code: u16,
}

#[verifier::external_type_specification]
#[verifier::external_body]
pub struct ExProj(proj4rs::Proj);

/// Relies on `proj4rs::Proj::from_epsg_code`: the projection the crate's
/// built-in table defines for a code; it fails exactly for codes outside
/// the table, and the table is fixed data, the same everywhere.
#[verifier::external_body]
fn projection_from_code(code: u16) -> (r: Option<Projection>)
    ensures
        r is Some <==> epsg_known(code),
        r matches Some(p) ==> p.code == code,
{
    match proj4rs::Proj::from_epsg_code(code) {
        Ok(proj) => Some(Projection { proj, code }),
        Err(_) => None,
    }
}

/// Relies on `proj4rs::Proj::is_latlong`: whether the projection is a
/// geographic (long/lat) system; fixed per code.
#[verifier::external_body]
fn projection_is_geographic(p: &Projection) -> (r: bool)
    ensures
        r == epsg_geographic(p.code),
{
    p.proj.is_latlong()
}

/// Relies on `proj4rs::adaptors::transform_xy`. The projection mathematics
/// is wholly the engine's, so nothing is promised of the values; a failed
/// transform comes back as `None`.
#[verifier::external_body]
fn transform_xy_raw(src: &Projection, dst: &Projection, x: u64, y: u64) -> Option<(u64, u64)> {
    match proj4rs::adaptors::transform_xy(
        &src.proj,
        &dst.proj,
        bytemuck::cast(x),
        bytemuck::cast(y),
    ) {
        Ok((nx, ny)) => Some((bytemuck::cast(nx), bytemuck::cast(ny))),
        Err(_) => None,
    }
}

/// Relies on `proj4rs::adaptors::transform_xyz`; as `transform_xy`.
#[verifier::external_body]
fn transform_xyz_raw(src: &Projection, dst: &Projection, x: u64, y: u64, z: u64) -> Option<
    (u64, u64, u64),
> {
    match proj4rs::adaptors::transform_xyz(
        &src.proj,
        &dst.proj,
        bytemuck::cast(x),
        bytemuck::cast(y),
        bytemuck::cast(z),
    ) {
        Ok((nx, ny, nz)) => Some((bytemuck::cast(nx), bytemuck::cast(ny), bytemuck::cast(nz))),
        Err(_) => None,
    }
}

/// The per-call projection cache, keyed by code.
pub struct ProjCache {
    entries: Vec<Projection>,
}

impl ProjCache {
    /// Every cached slot was built from a code in the engine's table.
    pub closed spec fn wf(&self) -> bool {
        forall|k: int| 0 <= k < self.entries@.len() ==> epsg_known(
            (#[trigger] self.entries@[k]).code,
        )
    }

    /// An empty cache; built afresh for every column-level call.
    pub fn new() -> (r: ProjCache)
        ensures
            r.wf(),
    {
        ProjCache { entries: Vec::new() }
    }

    /// The cache slot for a code, filling it on first use. Fails exactly
    /// when the code is outside the engine's table.
    fn get(&mut self, code: u16) -> (r: Result<usize, Error>)
        requires
            old(self).wf(),
        ensures
            final(self).wf(),
            final(self).entries@.len() >= old(self).entries@.len(),
            forall|k: int| 0 <= k < old(self).entries@.len() ==> final(self).entries@[k]
                == old(self).entries@[k],
            match r {
                Ok(i) => epsg_known(code) && i < final(self).entries@.len()
                    && final(self).entries@[i as int].code == code,
                Err(e) => !epsg_known(code) && e == Error::UnknownReferenceSystem(code as i64),
            },
    {
        let n = self.entries.len();
        let mut i: usize = 0;
        while i < n
            invariant
                0 <= i <= n,
                n == self.entries@.len(),
                self.wf(),
                self == old(self),
            decreases n - i,
        {
            if self.entries[i].code == code {
                // A cached slot was built from a code in the table.
                proof {
                    assert(epsg_known(self.entries@[i as int].code));
                }
                return Ok(i);
            }
            i = i + 1;
        }
        match projection_from_code(code) {
            Some(p) => {
                self.entries.push(p);
                Ok(self.entries.len() - 1)
            },
            None => Err(Error::UnknownReferenceSystem(code as i64)),
        }
    }
}

/// How a reprojected coordinate relates to its source: the measure is
/// untouched, and a z that was absent (NaN) stays exactly as it was.
pub open spec fn coord_rel(a: Coord, b: Coord) -> bool {
    &&& b.m == a.m
    &&& is_nan(a.z) ==> b.z == a.z
}

pub open spec fn coords_rel(a: Seq<Coord>, b: Seq<Coord>) -> bool {
    a.len() == b.len() && forall|i: int| 0 <= i < a.len() ==> coord_rel(
        #[trigger] a[i],
        #[trigger] b[i],
    )
}

pub open spec fn rings_rel(a: Seq<Seq<Coord>>, b: Seq<Seq<Coord>>) -> bool {
    a.len() == b.len() && forall|i: int| 0 <= i < a.len() ==> coords_rel(
        #[trigger] a[i],
        #[trigger] b[i],
    )
}

/// Shape preservation of the rewrite: same flags, same variant, same
/// counts, coordinates related pointwise. A point whose position became
/// all-NaN may collapse to the empty point.
pub open spec fn node_rel(a: NodeV, b: NodeV) -> bool
    decreases a,
{
    &&& a.has_z == b.has_z
    &&& a.has_m == b.has_m
    &&& match (a.kind, b.kind) {
        (KindV::Point(oa), KindV::Point(ob)) => match (oa, ob) {
            (Option::None, Option::None) => true,
            (Option::Some(ca), Option::Some(cb)) => coord_rel(ca, cb) && !(is_nan(cb.x) && is_nan(
                cb.y,
            )),
            (Option::Some(_), Option::None) => true,
            (Option::None, Option::Some(_)) => false,
        },
        (KindV::LineString(ca), KindV::LineString(cb)) => coords_rel(ca, cb),
        (KindV::CircularString(ca), KindV::CircularString(cb)) => coords_rel(ca, cb),
        (KindV::Polygon(ra), KindV::Polygon(rb)) => rings_rel(ra, rb),
        (KindV::CompoundCurve(ma), KindV::CompoundCurve(mb)) => members_rel(ma, mb),
        (KindV::CurvePolygon(ma), KindV::CurvePolygon(mb)) => members_rel(ma, mb),
        (KindV::MultiPoint(ma), KindV::MultiPoint(mb)) => members_rel(ma, mb),
        (KindV::MultiLineString(ma), KindV::MultiLineString(mb)) => members_rel(ma, mb),
        (KindV::MultiCurve(ma), KindV::MultiCurve(mb)) => members_rel(ma, mb),
        (KindV::MultiPolygon(ma), KindV::MultiPolygon(mb)) => members_rel(ma, mb),
        (KindV::MultiSurface(ma), KindV::MultiSurface(mb)) => members_rel(ma, mb),
        (KindV::GeometryCollection(ma), KindV::GeometryCollection(mb)) => members_rel(ma, mb),
        _ => false,
    }
}

pub open spec fn members_rel(a: Seq<NodeV>, b: Seq<NodeV>) -> bool
    decreases a,
{
    &&& a.len() == b.len()
    &&& a.len() > 0 ==> node_rel(a[0], b[0]) && members_rel(a.drop_first(), b.drop_first())
}

pub proof fn lemma_members_rel_index(a: Seq<NodeV>, b: Seq<NodeV>, i: int)
    requires
        members_rel(a, b),
        0 <= i < a.len(),
    ensures
        node_rel(a[i], b[i]),
    decreases i,
{
    if i > 0 {
        assert(a.drop_first()[i - 1] == a[i]);
        assert(b.drop_first()[i - 1] == b[i]);
        lemma_members_rel_index(a.drop_first(), b.drop_first(), i - 1);
    }
}

pub proof fn lemma_members_rel_build(a: Seq<NodeV>, b: Seq<NodeV>)
    requires
        a.len() == b.len(),
        forall|i: int| 0 <= i < a.len() ==> node_rel(#[trigger] a[i], #[trigger] b[i]),
    ensures
        members_rel(a, b),
    decreases a.len(),
{
    if a.len() > 0 {
        assert(forall|i: int| 0 <= i < a.drop_first().len() ==> #[trigger] a.drop_first()[i]
            == a[i + 1]);
        assert(forall|i: int| 0 <= i < b.drop_first().len() ==> #[trigger] b.drop_first()[i]
            == b[i + 1]);
        lemma_members_rel_build(a.drop_first(), b.drop_first());
    }
}

/// A shape-preserving rewrite of a well-formed node is well-formed.
pub proof fn lemma_node_rel_wf(a: NodeV, b: NodeV)
    requires
        node_wf(a),
        node_rel(a, b),
    ensures
        node_wf(b),
    decreases a,
{
    crate::bits::lemma_nan_sentinel_is_nan();
    match (a.kind, b.kind) {
        (KindV::Point(oa), KindV::Point(ob)) => {
        },
        (KindV::LineString(ca), KindV::LineString(cb)) => {
            lemma_coords_rel_wf(a.has_z, a.has_m, ca, cb);
        },
        (KindV::CircularString(ca), KindV::CircularString(cb)) => {
            lemma_coords_rel_wf(a.has_z, a.has_m, ca, cb);
        },
        (KindV::Polygon(ra), KindV::Polygon(rb)) => {
            assert forall|i: int| 0 <= i < rb.len() implies (#[trigger] rb[i]).len() <= MAX_COUNT
                && coords_wf(b.has_z, b.has_m, rb[i]) by {
                lemma_coords_rel_wf(a.has_z, a.has_m, ra[i], rb[i]);
            }
        },
        _ => {
            let ma = members_of_kind(a.kind);
            let mb = members_of_kind(b.kind);
            assert forall|i: int| 0 <= i < mb.len() implies node_wf(#[trigger] mb[i])
                && member_tag_ok(tag_of(b.kind), tag_of(mb[i].kind)) by {
                lemma_members_wf_index(tag_of(a.kind), ma, i);
                lemma_members_rel_index(ma, mb, i);
                lemma_node_rel_wf(ma[i], mb[i]);
                lemma_node_rel_tag(ma[i], mb[i]);
            }
            lemma_members_wf_build(tag_of(b.kind), mb);
        },
    }
}

/// Related nodes have the same variant.
pub proof fn lemma_node_rel_tag(a: NodeV, b: NodeV)
    requires
        node_rel(a, b),
    ensures
        tag_of(a.kind) == tag_of(b.kind),
{
}

/// The member list of a compound payload; empty for simple shapes.
pub open spec fn members_of_kind(k: KindV) -> Seq<NodeV> {
    match k {
        KindV::CompoundCurve(ch) => ch,
        KindV::CurvePolygon(ch) => ch,
        KindV::MultiPoint(ch) => ch,
        KindV::MultiLineString(ch) => ch,
        KindV::MultiCurve(ch) => ch,
        KindV::MultiPolygon(ch) => ch,
        KindV::MultiSurface(ch) => ch,
        KindV::GeometryCollection(ch) => ch,
        _ => Seq::empty(),
    }
}

proof fn lemma_coords_rel_wf(has_z: bool, has_m: bool, a: Seq<Coord>, b: Seq<Coord>)
    requires
        coords_wf(has_z, has_m, a),
        coords_rel(a, b),
    ensures
        coords_wf(has_z, has_m, b),
        b.len() == a.len(),
{
    crate::bits::lemma_nan_sentinel_is_nan();
    assert forall|i: int| 0 <= i < b.len() implies coord_wf(has_z, has_m, #[trigger] b[i]) by {
        assert(coord_wf(has_z, has_m, a[i]));
        assert(coord_rel(a[i], b[i]));
    }
}

/// One coordinate through the engine.
fn reproject_coord(
    src: &Projection,
    dst: &Projection,
    src_geo: bool,
    dst_geo: bool,
    c: Coord,
) -> (r: Option<Coord>)
    ensures
        r matches Some(c2) ==> coord_rel(c, c2),
{
    let carries_z = !nan_bits(c.z);
    let mut x = c.x;
    let mut y = c.y;
    let mut z = c.z;
    if src_geo {
        x = to_radians(x);
        y = to_radians(y);
        if carries_z {
            z = to_radians(z);
        }
    }
    if carries_z {
        match transform_xyz_raw(src, dst, x, y, z) {
            Some((nx, ny, nz)) => {
                x = nx;
                y = ny;
                z = nz;
            },
            None => {
                return None;
            },
        }
    } else {
        match transform_xy_raw(src, dst, x, y) {
            Some((nx, ny)) => {
                x = nx;
                y = ny;
            },
            None => {
                return None;
            },
        }
    }
    if dst_geo {
        x = to_degrees(x);
        y = to_degrees(y);
        if carries_z {
            z = to_degrees(z);
        }
    }
    Some(Coord { x, y, z: if carries_z { z } else { c.z }, m: c.m })
}

fn reproject_coords(
    src: &Projection,
    dst: &Projection,
    src_geo: bool,
    dst_geo: bool,
    cs: &Vec<Coord>,
) -> (r: Option<Vec<Coord>>)
    ensures
        r matches Some(out) ==> coords_rel(cs@, out@),
{
    let n = cs.len();
    let mut out: Vec<Coord> = Vec::new();
    let mut i: usize = 0;
    while i < n
        invariant
            0 <= i <= n,
            n == cs@.len(),
            out@.len() == i,
            forall|j: int| 0 <= j < i ==> coord_rel(#[trigger] cs@[j], #[trigger] out@[j]),
        decreases n - i,
    {
        match reproject_coord(src, dst, src_geo, dst_geo, cs[i]) {
            Some(c2) => {
                out.push(c2);
            },
            None => {
                return None;
            },
        }
        i = i + 1;
    }
    Some(out)
}

fn reproject_rings(
    src: &Projection,
    dst: &Projection,
    src_geo: bool,
    dst_geo: bool,
    rs: &Vec<Vec<Coord>>,
) -> (r: Option<Vec<Vec<Coord>>>)
    ensures
        r matches Some(out) ==> rings_rel(rings_view(rs@), rings_view(out@)),
{
    let n = rs.len();
    let mut out: Vec<Vec<Coord>> = Vec::new();
    let mut i: usize = 0;
    while i < n
        invariant
            0 <= i <= n,
            n == rs@.len(),
            out@.len() == i,
            forall|j: int| 0 <= j < i ==> coords_rel(rs@[j]@, #[trigger] out@[j]@),
        decreases n - i,
    {
        match reproject_coords(src, dst, src_geo, dst_geo, &rs[i]) {
            Some(ring) => {
                out.push(ring);
            },
            None => {
                return None;
            },
        }
        i = i + 1;
    }
    proof {
        assert forall|j: int| 0 <= j < n implies coords_rel(
            rings_view(rs@)[j],
            #[trigger] rings_view(out@)[j],
        ) by {
            assert(rings_view(rs@)[j] == rs@[j]@);
            assert(rings_view(out@)[j] == out@[j]@);
        }
    }
    Some(out)
}

fn reproject_members(
    src: &Projection,
    dst: &Projection,
    src_geo: bool,
    dst_geo: bool,
    ch: &Vec<Node>,
) -> (r: Option<Vec<Node>>)
    ensures
        r matches Some(out) ==> members_rel(members_view(ch@), members_view(out@)),
    decreases ch@,
{
    broadcast use lemma_members_view_len, lemma_members_view_index;

    let n = ch.len();
    let mut out: Vec<Node> = Vec::new();
    let mut i: usize = 0;
    while i < n
        invariant
            0 <= i <= n,
            n == ch@.len(),
            out@.len() == i,
            forall|j: int| 0 <= j < i ==> node_rel(
                #[trigger] members_view(ch@)[j],
                #[trigger] members_view(out@)[j],
            ),
        decreases n - i,
    {
        broadcast use lemma_members_view_len, lemma_members_view_index;

        match reproject_node(src, dst, src_geo, dst_geo, &ch[i]) {
            Some(nd) => {
                proof {
                    lemma_members_view_push(out@, nd);
                }
                out.push(nd);
            },
            None => {
                return None;
            },
        }
        i = i + 1;
    }
    proof {
        lemma_members_rel_build(members_view(ch@), members_view(out@));
    }
    Some(out)
}

/// Every coordinate of a node through the engine; `None` as soon as any
/// coordinate fails, with nothing partial kept.
fn reproject_node(
    src: &Projection,
    dst: &Projection,
    src_geo: bool,
    dst_geo: bool,
    n: &Node,
) -> (r: Option<Node>)
    ensures
        r matches Some(out) ==> node_rel(n@, out@),
    decreases *n,
{
    let z = n.has_z;
    let m = n.has_m;
    let kind: Kind = match &n.kind {
        Kind::Point(oc) => match oc {
            None => Kind::Point(None),
            Some(c) => match reproject_coord(src, dst, src_geo, dst_geo, *c) {
                Some(c2) => {
                    if nan_bits(c2.x) && nan_bits(c2.y) {
                        Kind::Point(None)
                    } else {
                        Kind::Point(Some(c2))
                    }
                },
                None => {
                    return None;
                },
            },
        },
        Kind::LineString(cs) => match reproject_coords(src, dst, src_geo, dst_geo, cs) {
            Some(out) => Kind::LineString(out),
            None => {
                return None;
            },
        },
        Kind::CircularString(cs) => match reproject_coords(src, dst, src_geo, dst_geo, cs) {
            Some(out) => Kind::CircularString(out),
            None => {
                return None;
            },
        },
        Kind::Polygon(rs) => match reproject_rings(src, dst, src_geo, dst_geo, rs) {
            Some(out) => Kind::Polygon(out),
            None => {
                return None;
            },
        },
        Kind::CompoundCurve(ch) => match reproject_members(src, dst, src_geo, dst_geo, ch) {
            Some(out) => Kind::CompoundCurve(out),
            None => {
                return None;
            },
        },
        Kind::CurvePolygon(ch) => match reproject_members(src, dst, src_geo, dst_geo, ch) {
            Some(out) => Kind::CurvePolygon(out),
            None => {
                return None;
            },
        },
        Kind::MultiPoint(ch) => match reproject_members(src, dst, src_geo, dst_geo, ch) {
            Some(out) => Kind::MultiPoint(out),
            None => {
                return None;
            },
        },
        Kind::MultiLineString(ch) => match reproject_members(src, dst, src_geo, dst_geo, ch) {
            Some(out) => Kind::MultiLineString(out),
            None => {
                return None;
            },
        },
        Kind::MultiCurve(ch) => match reproject_members(src, dst, src_geo, dst_geo, ch) {
            Some(out) => Kind::MultiCurve(out),
            None => {
                return None;
            },
        },
        Kind::MultiPolygon(ch) => match reproject_members(src, dst, src_geo, dst_geo, ch) {
            Some(out) => Kind::MultiPolygon(out),
            None => {
                return None;
            },
        },
        Kind::MultiSurface(ch) => match reproject_members(src, dst, src_geo, dst_geo, ch) {
            Some(out) => Kind::MultiSurface(out),
            None => {
                return None;
            },
        },
        Kind::GeometryCollection(ch) => match reproject_members(src, dst, src_geo, dst_geo, ch) {
            Some(out) => Kind::GeometryCollection(out),
            None => {
                return None;
            },
        },
    };
    Some(Node { has_z: z, has_m: m, kind })
}

/// One cell through the engine: unchanged bytes when the source code
/// already equals the destination or the geometry is empty; otherwise the
/// rewritten geometry under the destination code.
pub fn to_srid_cell(bytes: &Vec<u8>, dest_srid: i64, cache: &mut ProjCache) -> (r: Result<
    Vec<u8>,
    Error,
>)
    requires
        old(cache).wf(),
    ensures
        final(cache).wf(),
        match r {
            Ok(out) => {
                let g = cell_geom(bytes@);
                &&& g is Some
                &&& (g->Some_0.srid as i64 == dest_srid || node_empty(g->Some_0.node)) ==> out@
                    == bytes@
                &&& !(g->Some_0.srid as i64 == dest_srid || node_empty(g->Some_0.node)) ==> (
                cell_geom(out@) matches Some(g2) && g2.srid as i64 == dest_srid
                    && node_rel(g->Some_0.node, g2.node))
            },
            Err(e) => match e {
                Error::MalformedEncoding => cell_geom(bytes@) is None,
                Error::UnknownReferenceSystem(c) => {
                    let g = cell_geom(bytes@)->Some_0;
                    &&& cell_geom(bytes@) is Some
                    &&& !(g.srid as i64 == dest_srid || node_empty(g.node))
                    &&& ((c == g.srid as i64 && (g.srid < 0 || g.srid > 0xffff || !epsg_known(
                        g.srid as u16,
                    ))) || (c == dest_srid && (dest_srid < 0 || dest_srid > 0xffff || !epsg_known(
                        dest_srid as u16,
                    ))))
                },
                Error::ProjectionFailure(a, b) => {
                    let g = cell_geom(bytes@)->Some_0;
                    &&& cell_geom(bytes@) is Some
                    &&& !(g.srid as i64 == dest_srid || node_empty(g.node))
                    &&& a == g.srid as i64
                    &&& b == dest_srid
                },
                _ => false,
            },
        },
        // A decodable row that needs the engine but whose source code the
        // engine cannot resolve must fail with that code.
        (cell_geom(bytes@) matches Some(g) && !(g.srid as i64 == dest_srid || node_empty(g.node))
            && (g.srid < 0 || g.srid > 0xffff || !epsg_known(g.srid as u16))) ==> r == Err::<Vec<u8>, Error>(
            Error::UnknownReferenceSystem(cell_geom(bytes@)->Some_0.srid as i64),
        ),
        // Likewise for an unresolvable destination code, once the source
        // resolved.
        (cell_geom(bytes@) matches Some(g) && !(g.srid as i64 == dest_srid || node_empty(g.node))
            && 0 <= g.srid <= 0xffff && epsg_known(g.srid as u16) && (dest_srid < 0 || dest_srid
            > 0xffff || !epsg_known(dest_srid as u16))) ==> r == Err::<Vec<u8>, Error>(
            Error::UnknownReferenceSystem(dest_srid),
        ),
{
    let g = match decode_geometry(bytes) {
        Ok(g) => g,
        Err(_) => {
            return Err(Error::MalformedEncoding);
        },
    };
    let geom_srid = g.srid;
    if geom_srid as i64 == dest_srid || geometry_is_empty_local(&g) {
        let mut out: Vec<u8> = Vec::new();
        let n = bytes.len();
        let mut i: usize = 0;
        while i < n
            invariant
                0 <= i <= n,
                n == bytes@.len(),
                out@ == bytes@.take(i as int),
            decreases n - i,
        {
            out.push(bytes[i]);
            proof {
                assert(out@ =~= bytes@.take(i + 1));
            }
            i = i + 1;
        }
        proof {
            assert(bytes@.take(n as int) =~= bytes@);
        }
        return Ok(out);
    }
    // The source code is resolved whole before the destination is looked
    // at, so an unresolvable source is always the code reported.
    if geom_srid < 0 || geom_srid > 0xffff {
        return Err(Error::UnknownReferenceSystem(geom_srid as i64));
    }
    let si = match cache.get(geom_srid as u16) {
        Ok(i) => i,
        Err(_) => {
            return Err(Error::UnknownReferenceSystem(geom_srid as i64));
        },
    };
    if dest_srid < 0 || dest_srid > 0xffff {
        return Err(Error::UnknownReferenceSystem(dest_srid));
    }
    let di = match cache.get(dest_srid as u16) {
        Ok(i) => i,
        Err(_) => {
            return Err(Error::UnknownReferenceSystem(dest_srid));
        },
    };
    let src_geo = projection_is_geographic(&cache.entries[si]);
    let dst_geo = projection_is_geographic(&cache.entries[di]);
    let node = match reproject_node(
        &cache.entries[si],
        &cache.entries[di],
        src_geo,
        dst_geo,
        &g.node,
    ) {
        Some(nd) => nd,
        None => {
            return Err(Error::ProjectionFailure(geom_srid as i64, dest_srid));
        },
    };
    proof {
        lemma_node_rel_wf(g@.node, node@);
    }
    let out_geom = Geometry { srid: dest_srid as i32, node };
    let out = to_ewkb(&out_geom);
    proof {
        crate::codec::lemma_parse_encode_geometry(out_geom@, ByteOrder::Little, true);
        assert((dest_srid as i32) as i64 == dest_srid) by (bit_vector)
            requires
                0 <= dest_srid <= 0xffff,
        ;
    }
    Ok(out)
}

/// Emptiness of a whole geometry.
fn geometry_is_empty_local(g: &Geometry) -> (r: bool)
    ensures
        r == node_empty(g@.node),
{
    node_is_empty(&g.node)
}

} // verus!
