//! The binary geometry codec.
//!
//! Layout: `[byte order][type word with z/m/srid flags][srid?][payload]`.
//! The type word carries the shape code in its low bits and three flags in
//! its top bits. Member geometries repeat the byte-order byte and type word;
//! only the outermost geometry may carry a spatial reference id.
//!
//! `spec_encode_node` and `parse_node` are the mathematical description of
//! the format; the executable encoder and decoder are proved against them,
//! and `lemma_parse_encode_node` shows that parsing inverts encoding on
//! every well-formed node.

use vstd::prelude::*;
use vstd::bytes::{
    spec_u32_to_le_bytes, spec_u32_from_le_bytes, lemma_auto_spec_u32_to_from_le_bytes,
    spec_u64_to_le_bytes, spec_u64_from_le_bytes, lemma_auto_spec_u64_to_from_le_bytes,
    u32_from_le_bytes, u32_to_le_bytes, u64_from_le_bytes, u64_to_le_bytes,
};
use vstd::slice::slice_subrange;
use vstd::arithmetic::div_mod::{
    lemma_div_multiples_vanish_fancy, lemma_mod_multiples_vanish, lemma_small_mod,
};
use crate::bits::{is_nan, nan_bits, NAN_BITS};
use crate::geometry::{
    Coord, GeomType, Kind, KindV, Node, NodeV, Geometry, GeometryV, coord_wf, coords_wf,
    kind_view, members_wf, members_view, member_tag_ok, node_type, node_wf, node_view, rings_view,
    tag_of, geometry_wf, lemma_members_view_len, lemma_members_view_index, lemma_members_view_push,
    lemma_members_wf_index, lemma_members_wf_build, MAX_COUNT,
};
use crate::error::Error;

verus! {

/// Order of the bytes of every multi-byte number in one encoded geometry.
#[derive(Clone, Copy, Debug, PartialEq, Eq, Structural)]
pub enum ByteOrder {
    Big,
    Little,
}

/// Flag bits of the type word.
pub const FLAG_Z: u32 = 0x8000_0000;

pub const FLAG_M: u32 = 0x4000_0000;

pub const FLAG_SRID: u32 = 0x2000_0000;

/// Shape code of each variant in the type word.
pub open spec fn type_code(t: GeomType) -> u32 {
    match t {
        GeomType::Point => 1,
        GeomType::LineString => 2,
        GeomType::Polygon => 3,
        GeomType::MultiPoint => 4,
        GeomType::MultiLineString => 5,
        GeomType::MultiPolygon => 6,
        GeomType::GeometryCollection => 7,
        GeomType::CircularString => 8,
        GeomType::CompoundCurve => 9,
        GeomType::CurvePolygon => 10,
        GeomType::MultiCurve => 11,
        GeomType::MultiSurface => 12,
    }
}

/// The variant a shape code denotes, if any.
pub open spec fn code_type(c: u32) -> Option<GeomType> {
    if c == 1 {
        Some(GeomType::Point)
    } else if c == 2 {
        Some(GeomType::LineString)
    } else if c == 3 {
        Some(GeomType::Polygon)
    } else if c == 4 {
        Some(GeomType::MultiPoint)
    } else if c == 5 {
        Some(GeomType::MultiLineString)
    } else if c == 6 {
        Some(GeomType::MultiPolygon)
    } else if c == 7 {
        Some(GeomType::GeometryCollection)
    } else if c == 8 {
        Some(GeomType::CircularString)
    } else if c == 9 {
        Some(GeomType::CompoundCurve)
    } else if c == 10 {
        Some(GeomType::CurvePolygon)
    } else if c == 11 {
        Some(GeomType::MultiCurve)
    } else if c == 12 {
        Some(GeomType::MultiSurface)
    } else {
        None
    }
}

/// Shape code of a variant.
pub fn geom_type_code(t: GeomType) -> (c: u32)
    ensures
        c == type_code(t),
{
    match t {
        GeomType::Point => 1,
        GeomType::LineString => 2,
        GeomType::Polygon => 3,
        GeomType::MultiPoint => 4,
        GeomType::MultiLineString => 5,
        GeomType::MultiPolygon => 6,
        GeomType::GeometryCollection => 7,
        GeomType::CircularString => 8,
        GeomType::CompoundCurve => 9,
        GeomType::CurvePolygon => 10,
        GeomType::MultiCurve => 11,
        GeomType::MultiSurface => 12,
    }
}

/// The variant a shape code denotes, if any.
pub fn type_from_code(c: u32) -> (t: Option<GeomType>)
    ensures
        t == code_type(c),
{
    if c == 1 {
        Some(GeomType::Point)
    } else if c == 2 {
        Some(GeomType::LineString)
    } else if c == 3 {
        Some(GeomType::Polygon)
    } else if c == 4 {
        Some(GeomType::MultiPoint)
    } else if c == 5 {
        Some(GeomType::MultiLineString)
    } else if c == 6 {
        Some(GeomType::MultiPolygon)
    } else if c == 7 {
        Some(GeomType::GeometryCollection)
    } else if c == 8 {
        Some(GeomType::CircularString)
    } else if c == 9 {
        Some(GeomType::CompoundCurve)
    } else if c == 10 {
        Some(GeomType::CurvePolygon)
    } else if c == 11 {
        Some(GeomType::MultiCurve)
    } else if c == 12 {
        Some(GeomType::MultiSurface)
    } else {
        None
    }
}

/// Every shape code is at most 12, so the flag bits never collide with it.
pub proof fn lemma_type_code_small(t: GeomType)
    ensures
        1 <= type_code(t) <= 12,
        code_type(type_code(t)) == Some(t),
{
}

/// The type word: shape code plus flag bits.
pub open spec fn flags_word(t: GeomType, z: bool, m: bool, srid: bool) -> u32 {
    ((if z {
        FLAG_Z as int
    } else {
        0
    }) + (if m {
        FLAG_M as int
    } else {
        0
    }) + (if srid {
        FLAG_SRID as int
    } else {
        0
    }) + type_code(t)) as u32
}

/// Low bits of a type word: the shape code field.
pub open spec fn word_base(w: u32) -> u32 {
    w % FLAG_SRID
}

pub open spec fn word_srid(w: u32) -> bool {
    (w / FLAG_SRID) % 2 == 1
}

pub open spec fn word_m(w: u32) -> bool {
    (w / FLAG_M) % 2 == 1
}

pub open spec fn word_z(w: u32) -> bool {
    (w / FLAG_Z) % 2 == 1
}

/// Reading the fields of a freshly built type word gives back its parts.
pub proof fn lemma_flags_word(t: GeomType, z: bool, m: bool, srid: bool)
    ensures
        word_base(flags_word(t, z, m, srid)) == type_code(t),
        word_z(flags_word(t, z, m, srid)) == z,
        word_m(flags_word(t, z, m, srid)) == m,
        word_srid(flags_word(t, z, m, srid)) == srid,
{
    lemma_type_code_small(t);
    let c = type_code(t) as int;
    let zi: int = if z { 1 } else { 0 };
    let mi: int = if m { 1 } else { 0 };
    let si: int = if srid { 1 } else { 0 };
    let w = flags_word(t, z, m, srid) as int;
    assert(w == zi * 0x8000_0000 + mi * 0x4000_0000 + si * 0x2000_0000 + c);
    // Shape code field.
    assert(w % 0x2000_0000 == c) by {
        let k = zi * 4 + mi * 2 + si;
        assert(w == 0x2000_0000 * k + c);
        lemma_mod_multiples_vanish(k, c, 0x2000_0000);
        lemma_small_mod(c as nat, 0x2000_0000nat);
    }
    // Flag of the spatial reference id.
    assert(w / 0x2000_0000 == zi * 4 + mi * 2 + si) by {
        lemma_div_multiples_vanish_fancy(zi * 4 + mi * 2 + si, c, 0x2000_0000);
    }
    // Measure flag.
    assert(w / 0x4000_0000 == zi * 2 + mi) by {
        assert(w == 0x4000_0000 * (zi * 2 + mi) + (si * 0x2000_0000 + c));
        lemma_div_multiples_vanish_fancy(zi * 2 + mi, si * 0x2000_0000 + c, 0x4000_0000);
    }
    // Third-dimension flag.
    assert(w / 0x8000_0000 == zi) by {
        assert(w == 0x8000_0000 * zi + (mi * 0x4000_0000 + si * 0x2000_0000 + c));
        lemma_div_multiples_vanish_fancy(zi, mi * 0x4000_0000 + si * 0x2000_0000 + c, 0x8000_0000);
    }
}

/// The byte that announces the byte order.
pub open spec fn order_byte(o: ByteOrder) -> u8 {
    match o {
        ByteOrder::Big => 0,
        ByteOrder::Little => 1,
    }
}

/// The byte order a leading byte announces, if any.
pub open spec fn byte_order_of(b: u8) -> Option<ByteOrder> {
    if b == 0 {
        Some(ByteOrder::Big)
    } else if b == 1 {
        Some(ByteOrder::Little)
    } else {
        None
    }
}

/// Bytes of a 32-bit number in a byte order.
pub open spec fn spec_u32_bytes(o: ByteOrder, x: u32) -> Seq<u8> {
    match o {
        ByteOrder::Little => spec_u32_to_le_bytes(x),
        ByteOrder::Big => spec_u32_to_le_bytes(x).reverse(),
    }
}

/// Bytes of a 64-bit number in a byte order.
pub open spec fn spec_u64_bytes(o: ByteOrder, x: u64) -> Seq<u8> {
    match o {
        ByteOrder::Little => spec_u64_to_le_bytes(x),
        ByteOrder::Big => spec_u64_to_le_bytes(x).reverse(),
    }
}

/// The 32-bit number whose bytes stand at `lo`.
pub open spec fn spec_read_u32(o: ByteOrder, s: Seq<u8>, lo: int) -> u32 {
    match o {
        ByteOrder::Little => spec_u32_from_le_bytes(s.subrange(lo, lo + 4)),
        ByteOrder::Big => spec_u32_from_le_bytes(s.subrange(lo, lo + 4).reverse()),
    }
}

/// The 64-bit number whose bytes stand at `lo`.
pub open spec fn spec_read_u64(o: ByteOrder, s: Seq<u8>, lo: int) -> u64 {
    match o {
        ByteOrder::Little => spec_u64_from_le_bytes(s.subrange(lo, lo + 8)),
        ByteOrder::Big => spec_u64_from_le_bytes(s.subrange(lo, lo + 8).reverse()),
    }
}

pub proof fn lemma_u32_bytes_len(o: ByteOrder, x: u32)
    ensures
        spec_u32_bytes(o, x).len() == 4,
{
    lemma_auto_spec_u32_to_from_le_bytes();
}

/// Reading at the seam of freshly written 32-bit bytes gives the number back.
pub proof fn lemma_read_u32_concat(o: ByteOrder, x: u32, s: Seq<u8>, lo: int)
    requires
        0 <= lo,
        lo + 4 <= s.len(),
        s.subrange(lo, lo + 4) == spec_u32_bytes(o, x),
    ensures
        spec_read_u32(o, s, lo) == x,
{
    lemma_auto_spec_u32_to_from_le_bytes();
    if o is Big {
        assert(s.subrange(lo, lo + 4).reverse() =~= spec_u32_to_le_bytes(x));
    } else {
        assert(s.subrange(lo, lo + 4) == spec_u32_to_le_bytes(x));
        assert(spec_u32_from_le_bytes(spec_u32_to_le_bytes(x)) == x);
    }
}

/// Reading at the seam of freshly written 64-bit bytes gives the number back.
pub proof fn lemma_read_u64_concat(o: ByteOrder, x: u64, s: Seq<u8>, lo: int)
    requires
        0 <= lo,
        lo + 8 <= s.len(),
        s.subrange(lo, lo + 8) == spec_u64_bytes(o, x),
    ensures
        spec_read_u64(o, s, lo) == x,
{
    lemma_auto_spec_u64_to_from_le_bytes();
    if o is Big {
        assert(s.subrange(lo, lo + 8).reverse() =~= spec_u64_to_le_bytes(x));
    }
}

/// Reads the 32-bit number at `pos`.
pub fn read_u32_at(bytes: &Vec<u8>, pos: usize, o: ByteOrder) -> (r: u32)
    requires
        pos + 4 <= bytes@.len(),
    ensures
        r == spec_read_u32(o, bytes@, pos as int),
{
    let n = bytes.len();
    match o {
        ByteOrder::Little => {
            let sl = slice_subrange(bytes.as_slice(), pos, pos + 4);
            u32_from_le_bytes(sl)
        },
        ByteOrder::Big => {
            let mut tmp: Vec<u8> = Vec::new();
            tmp.push(bytes[pos + 3]);
            tmp.push(bytes[pos + 2]);
            tmp.push(bytes[pos + 1]);
            tmp.push(bytes[pos]);
            proof {
                assert(tmp@ =~= bytes@.subrange(pos as int, pos + 4).reverse());
            }
            u32_from_le_bytes(tmp.as_slice())
        },
    }
}

/// Reads the 64-bit number at `pos`.
pub fn read_u64_at(bytes: &Vec<u8>, pos: usize, o: ByteOrder) -> (r: u64)
    requires
        pos + 8 <= bytes@.len(),
    ensures
        r == spec_read_u64(o, bytes@, pos as int),
{
    let n = bytes.len();
    match o {
        ByteOrder::Little => {
            let sl = slice_subrange(bytes.as_slice(), pos, pos + 8);
            u64_from_le_bytes(sl)
        },
        ByteOrder::Big => {
            let mut tmp: Vec<u8> = Vec::new();
            tmp.push(bytes[pos + 7]);
            tmp.push(bytes[pos + 6]);
            tmp.push(bytes[pos + 5]);
            tmp.push(bytes[pos + 4]);
            tmp.push(bytes[pos + 3]);
            tmp.push(bytes[pos + 2]);
            tmp.push(bytes[pos + 1]);
            tmp.push(bytes[pos]);
            proof {
                assert(tmp@ =~= bytes@.subrange(pos as int, pos + 8).reverse());
            }
            u64_from_le_bytes(tmp.as_slice())
        },
    }
}

/// Appends the bytes of a 32-bit number.
pub fn push_u32(out: &mut Vec<u8>, x: u32, o: ByteOrder)
    ensures
        final(out)@ == old(out)@ + spec_u32_bytes(o, x),
{
    proof {
        lemma_auto_spec_u32_to_from_le_bytes();
    }
    let bs = u32_to_le_bytes(x);
    match o {
        ByteOrder::Little => {
            out.push(bs[0]);
            out.push(bs[1]);
            out.push(bs[2]);
            out.push(bs[3]);
        },
        ByteOrder::Big => {
            out.push(bs[3]);
            out.push(bs[2]);
            out.push(bs[1]);
            out.push(bs[0]);
        },
    }
    proof {
        assert(out@ =~= old(out)@ + spec_u32_bytes(o, x));
    }
}

/// Appends the bytes of a 64-bit number.
pub fn push_u64(out: &mut Vec<u8>, x: u64, o: ByteOrder)
    ensures
        final(out)@ == old(out)@ + spec_u64_bytes(o, x),
{
    proof {
        lemma_auto_spec_u64_to_from_le_bytes();
    }
    let bs = u64_to_le_bytes(x);
    match o {
        ByteOrder::Little => {
            out.push(bs[0]);
            out.push(bs[1]);
            out.push(bs[2]);
            out.push(bs[3]);
            out.push(bs[4]);
            out.push(bs[5]);
            out.push(bs[6]);
            out.push(bs[7]);
        },
        ByteOrder::Big => {
            out.push(bs[7]);
            out.push(bs[6]);
            out.push(bs[5]);
            out.push(bs[4]);
            out.push(bs[3]);
            out.push(bs[2]);
            out.push(bs[1]);
            out.push(bs[0]);
        },
    }
    proof {
        assert(out@ =~= old(out)@ + spec_u64_bytes(o, x));
    }
}

/// The coordinate that encodes an empty point: every ordinate NaN.
pub open spec fn empty_point_coord() -> Coord {
    Coord { x: NAN_BITS, y: NAN_BITS, z: NAN_BITS, m: NAN_BITS }
}

/// Encoded size of one coordinate.
pub open spec fn coord_size(z: bool, m: bool) -> int {
    16 + (if z {
        8int
    } else {
        0int
    }) + (if m {
        8int
    } else {
        0int
    })
}

/// Bytes of one coordinate: x, y, then z and m when carried.
pub open spec fn spec_coord_bytes(o: ByteOrder, z: bool, m: bool, c: Coord) -> Seq<u8> {
    spec_u64_bytes(o, c.x) + spec_u64_bytes(o, c.y) + (if z {
        spec_u64_bytes(o, c.z)
    } else {
        Seq::empty()
    }) + (if m {
        spec_u64_bytes(o, c.m)
    } else {
        Seq::empty()
    })
}

pub proof fn lemma_coord_bytes_len(o: ByteOrder, z: bool, m: bool, c: Coord)
    ensures
        spec_coord_bytes(o, z, m, c).len() == coord_size(z, m),
{
    lemma_auto_spec_u64_to_from_le_bytes();
}

/// Bytes of a coordinate run, without a count field.
pub open spec fn spec_coords_bytes(o: ByteOrder, z: bool, m: bool, cs: Seq<Coord>) -> Seq<u8>
    decreases cs.len(),
{
    if cs.len() == 0 {
        Seq::empty()
    } else {
        spec_coord_bytes(o, z, m, cs[0]) + spec_coords_bytes(o, z, m, cs.drop_first())
    }
}

/// Bytes of a ring run: each ring is a count field and its coordinates.
pub open spec fn spec_rings_bytes(o: ByteOrder, z: bool, m: bool, rings: Seq<Seq<Coord>>) -> Seq<u8>
    decreases rings.len(),
{
    if rings.len() == 0 {
        Seq::empty()
    } else {
        spec_u32_bytes(o, rings[0].len() as u32) + spec_coords_bytes(o, z, m, rings[0])
            + spec_rings_bytes(o, z, m, rings.drop_first())
    }
}

/// Bytes of the payload of a node: what follows its type word.
pub open spec fn spec_encode_body(n: NodeV, o: ByteOrder) -> Seq<u8>
    decreases n, 0int,
{
    match n.kind {
        KindV::Point(oc) => spec_coord_bytes(
            o,
            n.has_z,
            n.has_m,
            match oc {
                Some(c) => c,
                None => empty_point_coord(),
            },
        ),
        KindV::LineString(cs) => spec_u32_bytes(o, cs.len() as u32) + spec_coords_bytes(
            o,
            n.has_z,
            n.has_m,
            cs,
        ),
        KindV::CircularString(cs) => spec_u32_bytes(o, cs.len() as u32) + spec_coords_bytes(
            o,
            n.has_z,
            n.has_m,
            cs,
        ),
        KindV::Polygon(rings) => spec_u32_bytes(o, rings.len() as u32) + spec_rings_bytes(
            o,
            n.has_z,
            n.has_m,
            rings,
        ),
        KindV::CompoundCurve(ch) => spec_u32_bytes(o, ch.len() as u32) + spec_encode_members(ch, o),
        KindV::CurvePolygon(ch) => spec_u32_bytes(o, ch.len() as u32) + spec_encode_members(ch, o),
        KindV::MultiPoint(ch) => spec_u32_bytes(o, ch.len() as u32) + spec_encode_members(ch, o),
        KindV::MultiLineString(ch) => spec_u32_bytes(o, ch.len() as u32) + spec_encode_members(
            ch,
            o,
        ),
        KindV::MultiCurve(ch) => spec_u32_bytes(o, ch.len() as u32) + spec_encode_members(ch, o),
        KindV::MultiPolygon(ch) => spec_u32_bytes(o, ch.len() as u32) + spec_encode_members(ch, o),
        KindV::MultiSurface(ch) => spec_u32_bytes(o, ch.len() as u32) + spec_encode_members(ch, o),
        KindV::GeometryCollection(ch) => spec_u32_bytes(o, ch.len() as u32) + spec_encode_members(
            ch,
            o,
        ),
    }
}

/// Bytes of one whole node: order byte, type word, payload.
pub open spec fn spec_encode_node(n: NodeV, o: ByteOrder) -> Seq<u8>
    decreases n, 1int,
{
    seq![order_byte(o)] + spec_u32_bytes(o, flags_word(tag_of(n.kind), n.has_z, n.has_m, false))
        + spec_encode_body(n, o)
}

/// Bytes of a member run: whole nodes, one after the other.
pub open spec fn spec_encode_members(s: Seq<NodeV>, o: ByteOrder) -> Seq<u8>
    decreases s, 2int,
{
    if s.len() == 0 {
        Seq::empty()
    } else {
        spec_encode_node(s[0], o) + spec_encode_members(s.drop_first(), o)
    }
}

/// Bytes of a full geometry. The spatial reference id is written, with its
/// flag, only when it is requested and non-zero.
pub open spec fn spec_encode_geometry(g: GeometryV, o: ByteOrder, include_srid: bool) -> Seq<u8> {
    if include_srid && g.srid != 0 {
        seq![order_byte(o)] + spec_u32_bytes(
            o,
            flags_word(tag_of(g.node.kind), g.node.has_z, g.node.has_m, true),
        ) + spec_u32_bytes(o, g.srid as u32) + spec_encode_body(g.node, o)
    } else {
        spec_encode_node(g.node, o)
    }
}

/// The coordinate read at the start of `s`; absent dimensions get the
/// sentinel.
pub open spec fn parse_coord(o: ByteOrder, z: bool, m: bool, s: Seq<u8>) -> Coord {
    Coord {
        x: spec_read_u64(o, s, 0),
        y: spec_read_u64(o, s, 8),
        z: if z {
            spec_read_u64(o, s, 16)
        } else {
            NAN_BITS
        },
        m: if m {
            spec_read_u64(
                o,
                s,
                if z {
                    24
                } else {
                    16
                },
            )
        } else {
            NAN_BITS
        },
    }
}

/// Parses `cnt` coordinates from the start of `s`.
pub open spec fn parse_coords(o: ByteOrder, z: bool, m: bool, s: Seq<u8>, cnt: nat) -> Option<
    (Seq<Coord>, int),
>
    decreases cnt,
{
    if cnt == 0 {
        Some((Seq::empty(), 0int))
    } else if s.len() < coord_size(z, m) {
        None
    } else {
        let c = parse_coord(o, z, m, s);
        match parse_coords(o, z, m, s.subrange(coord_size(z, m), s.len() as int), (cnt - 1) as nat) {
            Some((cs, used)) => Some((seq![c] + cs, coord_size(z, m) + used)),
            None => None,
        }
    }
}

/// Parses `cnt` rings from the start of `s`.
pub open spec fn parse_rings(o: ByteOrder, z: bool, m: bool, s: Seq<u8>, cnt: nat) -> Option<
    (Seq<Seq<Coord>>, int),
>
    decreases cnt,
{
    if cnt == 0 {
        Some((Seq::empty(), 0int))
    } else if s.len() < 4 {
        None
    } else {
        let k = spec_read_u32(o, s, 0);
        match parse_coords(o, z, m, s.subrange(4, s.len() as int), k as nat) {
            Some((cs, used)) => {
                let rest = s.subrange(4 + used, s.len() as int);
                match parse_rings(o, z, m, rest, (cnt - 1) as nat) {
                    Some((rs, used2)) => Some((seq![cs] + rs, 4 + used + used2)),
                    None => None,
                }
            },
            None => None,
        }
    }
}

/// Rebuilds a compound payload from its parsed members.
pub open spec fn members_kind(t: GeomType, ms: Seq<NodeV>) -> KindV {
    match t {
        GeomType::CompoundCurve => KindV::CompoundCurve(ms),
        GeomType::CurvePolygon => KindV::CurvePolygon(ms),
        GeomType::MultiPoint => KindV::MultiPoint(ms),
        GeomType::MultiLineString => KindV::MultiLineString(ms),
        GeomType::MultiCurve => KindV::MultiCurve(ms),
        GeomType::MultiPolygon => KindV::MultiPolygon(ms),
        GeomType::MultiSurface => KindV::MultiSurface(ms),
        _ => KindV::GeometryCollection(ms),
    }
}

/// Parses one whole node from the start of `s`. A member node never carries
/// a spatial reference id.
pub open spec fn parse_node(s: Seq<u8>) -> Option<(NodeV, int)>
    decreases s.len(), 0nat, 1int,
{
    if s.len() < 5 {
        None
    } else {
        match byte_order_of(s[0]) {
            None => None,
            Some(o) => {
                let w = spec_read_u32(o, s, 1);
                if word_srid(w) {
                    None
                } else {
                    match code_type(word_base(w)) {
                        None => None,
                        Some(t) => match parse_body(
                            t,
                            word_z(w),
                            word_m(w),
                            o,
                            s.subrange(5, s.len() as int),
                        ) {
                            Some((k, used)) => Some(
                                (NodeV { has_z: word_z(w), has_m: word_m(w), kind: k }, 5 + used),
                            ),
                            None => None,
                        },
                    }
                }
            },
        }
    }
}

/// Parses the payload of a node of known variant and flags.
pub open spec fn parse_body(t: GeomType, z: bool, m: bool, o: ByteOrder, s: Seq<u8>) -> Option<
    (KindV, int),
>
    decreases s.len(), 0nat, 0int,
{
    match t {
        GeomType::Point => {
            if s.len() < coord_size(z, m) {
                None
            } else {
                let c = parse_coord(o, z, m, s);
                Some(
                    (
                        KindV::Point(
                            if is_nan(c.x) && is_nan(c.y) {
                                None
                            } else {
                                Some(c)
                            },
                        ),
                        coord_size(z, m),
                    ),
                )
            }
        },
        GeomType::LineString => {
            if s.len() < 4 {
                None
            } else {
                let cnt = spec_read_u32(o, s, 0);
                match parse_coords(o, z, m, s.subrange(4, s.len() as int), cnt as nat) {
                    Some((cs, used)) => Some((KindV::LineString(cs), 4 + used)),
                    None => None,
                }
            }
        },
        GeomType::CircularString => {
            if s.len() < 4 {
                None
            } else {
                let cnt = spec_read_u32(o, s, 0);
                match parse_coords(o, z, m, s.subrange(4, s.len() as int), cnt as nat) {
                    Some((cs, used)) => Some((KindV::CircularString(cs), 4 + used)),
                    None => None,
                }
            }
        },
        GeomType::Polygon => {
            if s.len() < 4 {
                None
            } else {
                let cnt = spec_read_u32(o, s, 0);
                match parse_rings(o, z, m, s.subrange(4, s.len() as int), cnt as nat) {
                    Some((rs, used)) => Some((KindV::Polygon(rs), 4 + used)),
                    None => None,
                }
            }
        },
        _ => {
            if s.len() < 4 {
                None
            } else {
                let cnt = spec_read_u32(o, s, 0);
                match parse_members(t, s.subrange(4, s.len() as int), cnt as nat) {
                    Some((ms, used)) => Some((members_kind(t, ms), 4 + used)),
                    None => None,
                }
            }
        },
    }
}

/// Parses `cnt` member nodes from the start of `s`, checking that each may
/// stand under `parent`.
pub open spec fn parse_members(parent: GeomType, s: Seq<u8>, cnt: nat) -> Option<(Seq<NodeV>, int)>
    decreases s.len(), cnt, 2int,
{
    if cnt == 0 {
        Some((Seq::empty(), 0int))
    } else {
        match parse_node(s) {
            None => None,
            Some((nd, used)) => {
                if !member_tag_ok(parent, tag_of(nd.kind)) {
                    None
                } else {
                    let u = if 0 <= used <= s.len() {
                        used
                    } else {
                        0int
                    };
                    match parse_members(parent, s.subrange(u, s.len() as int), (cnt - 1) as nat) {
                        Some((rest, used2)) => Some((seq![nd] + rest, u + used2)),
                        None => None,
                    }
                }
            },
        }
    }
}

/// Parses a full geometry: like a node, but the type word may carry the
/// spatial reference flag, and then an id follows it.
pub open spec fn parse_geometry(s: Seq<u8>) -> Option<(GeometryV, int)> {
    if s.len() < 5 {
        None
    } else {
        match byte_order_of(s[0]) {
            None => None,
            Some(o) => {
                let w = spec_read_u32(o, s, 1);
                if word_srid(w) {
                    if s.len() < 9 {
                        None
                    } else {
                        let srid = spec_read_u32(o, s, 5);
                        match code_type(word_base(w)) {
                            None => None,
                            Some(t) => match parse_body(
                                t,
                                word_z(w),
                                word_m(w),
                                o,
                                s.subrange(9, s.len() as int),
                            ) {
                                Some((k, used)) => Some(
                                    (
                                        GeometryV {
                                            srid: srid as i32,
                                            node: NodeV {
                                                has_z: word_z(w),
                                                has_m: word_m(w),
                                                kind: k,
                                            },
                                        },
                                        9 + used,
                                    ),
                                ),
                                None => None,
                            },
                        }
                    }
                } else {
                    match parse_node(s) {
                        Some((nd, used)) => Some((GeometryV { srid: 0, node: nd }, used)),
                        None => None,
                    }
                }
            },
        }
    }
}

/// Concatenation of sequences is associative.
pub proof fn seq_add_assoc<A>(a: Seq<A>, b: Seq<A>, c: Seq<A>)
    ensures
        (a + b) + c == a + (b + c),
{
    assert((a + b) + c =~= a + (b + c));
}

/// The empty sequence is a unit of concatenation.
pub proof fn seq_add_empty<A>(a: Seq<A>)
    ensures
        Seq::<A>::empty() + a == a,
        a + Seq::<A>::empty() == a,
{
    assert(Seq::<A>::empty() + a =~= a);
    assert(a + Seq::<A>::empty() =~= a);
}

/// Extending a coordinate prefix by one element appends its bytes.
pub proof fn lemma_coords_bytes_snoc(o: ByteOrder, z: bool, m: bool, cs: Seq<Coord>, i: int)
    requires
        0 <= i < cs.len(),
    ensures
        spec_coords_bytes(o, z, m, cs.take(i + 1)) == spec_coords_bytes(o, z, m, cs.take(i))
            + spec_coord_bytes(o, z, m, cs[i]),
    decreases i,
{
    let a = spec_coord_bytes(o, z, m, cs[0]);
    assert(cs.take(i + 1)[0] == cs[0]);
    if i == 0 {
        assert(cs.take(1).drop_first() =~= cs.take(0));
        assert(spec_coords_bytes(o, z, m, cs.take(1)) == a + spec_coords_bytes(o, z, m, cs.take(0)));
        assert(spec_coords_bytes(o, z, m, cs.take(0)) == Seq::<u8>::empty());
        seq_add_empty(a);
    } else {
        let df = cs.drop_first();
        assert(cs.take(i)[0] == cs[0]);
        assert(cs.take(i + 1).drop_first() =~= df.take(i));
        assert(cs.take(i).drop_first() =~= df.take(i - 1));
        assert(df[i - 1] == cs[i]);
        lemma_coords_bytes_snoc(o, z, m, df, i - 1);
        let p = spec_coords_bytes(o, z, m, df.take(i - 1));
        let ci = spec_coord_bytes(o, z, m, cs[i]);
        assert(spec_coords_bytes(o, z, m, cs.take(i + 1)) == a + (p + ci));
        assert(spec_coords_bytes(o, z, m, cs.take(i)) == a + p);
        seq_add_assoc(a, p, ci);
    }
}

/// Extending a ring prefix by one element appends its bytes.
pub proof fn lemma_rings_bytes_snoc(o: ByteOrder, z: bool, m: bool, rs: Seq<Seq<Coord>>, i: int)
    requires
        0 <= i < rs.len(),
    ensures
        spec_rings_bytes(o, z, m, rs.take(i + 1)) == spec_rings_bytes(o, z, m, rs.take(i))
            + spec_u32_bytes(o, rs[i].len() as u32) + spec_coords_bytes(o, z, m, rs[i]),
    decreases i,
{
    let a = spec_u32_bytes(o, rs[0].len() as u32) + spec_coords_bytes(o, z, m, rs[0]);
    let hi = spec_u32_bytes(o, rs[i].len() as u32);
    let ci = spec_coords_bytes(o, z, m, rs[i]);
    assert(rs.take(i + 1)[0] == rs[0]);
    if i == 0 {
        assert(rs.take(1).drop_first() =~= rs.take(0));
        assert(spec_rings_bytes(o, z, m, rs.take(1)) == a + spec_rings_bytes(o, z, m, rs.take(0)));
        assert(spec_rings_bytes(o, z, m, rs.take(0)) == Seq::<u8>::empty());
        seq_add_empty(a);
        seq_add_empty(hi);
    } else {
        let df = rs.drop_first();
        assert(rs.take(i)[0] == rs[0]);
        assert(rs.take(i + 1).drop_first() =~= df.take(i));
        assert(rs.take(i).drop_first() =~= df.take(i - 1));
        assert(df[i - 1] == rs[i]);
        lemma_rings_bytes_snoc(o, z, m, df, i - 1);
        let p = spec_rings_bytes(o, z, m, df.take(i - 1));
        assert(spec_rings_bytes(o, z, m, rs.take(i + 1)) == a + (p + hi + ci));
        assert(spec_rings_bytes(o, z, m, rs.take(i)) == a + p);
        seq_add_assoc(a, p + hi, ci);
        seq_add_assoc(a, p, hi);
    }
}

/// Extending a member prefix by one element appends its bytes.
pub proof fn lemma_members_bytes_snoc(o: ByteOrder, s: Seq<NodeV>, i: int)
    requires
        0 <= i < s.len(),
    ensures
        spec_encode_members(s.take(i + 1), o) == spec_encode_members(s.take(i), o)
            + spec_encode_node(s[i], o),
    decreases i,
{
    let a = spec_encode_node(s[0], o);
    assert(s.take(i + 1)[0] == s[0]);
    if i == 0 {
        assert(s.take(1).drop_first() =~= s.take(0));
        assert(spec_encode_members(s.take(1), o) == a + spec_encode_members(s.take(0), o));
        assert(spec_encode_members(s.take(0), o) == Seq::<u8>::empty());
        seq_add_empty(a);
    } else {
        let df = s.drop_first();
        assert(s.take(i)[0] == s[0]);
        assert(s.take(i + 1).drop_first() =~= df.take(i));
        assert(s.take(i).drop_first() =~= df.take(i - 1));
        assert(df[i - 1] == s[i]);
        lemma_members_bytes_snoc(o, df, i - 1);
        let p = spec_encode_members(df.take(i - 1), o);
        let ni = spec_encode_node(s[i], o);
        assert(spec_encode_members(s.take(i + 1), o) == a + (p + ni));
        assert(spec_encode_members(s.take(i), o) == a + p);
        seq_add_assoc(a, p, ni);
    }
}


/// Builds a type word.
fn make_flags_word(t: GeomType, z: bool, m: bool, srid: bool) -> (w: u32)
    ensures
        w == flags_word(t, z, m, srid),
{
    proof {
        lemma_type_code_small(t);
    }
    let mut w: u32 = geom_type_code(t);
    if z {
        w = w + FLAG_Z;
    }
    if m {
        w = w + FLAG_M;
    }
    if srid {
        w = w + FLAG_SRID;
    }
    w
}

/// Appends the bytes of one coordinate.
fn encode_coord(out: &mut Vec<u8>, o: ByteOrder, z: bool, m: bool, c: Coord)
    ensures
        final(out)@ == old(out)@ + spec_coord_bytes(o, z, m, c),
{
    push_u64(out, c.x, o);
    push_u64(out, c.y, o);
    if z {
        push_u64(out, c.z, o);
    }
    if m {
        push_u64(out, c.m, o);
    }
    proof {
        assert(out@ =~= old(out)@ + spec_coord_bytes(o, z, m, c));
    }
}

/// Appends the bytes of a coordinate run.
fn encode_coords(out: &mut Vec<u8>, o: ByteOrder, z: bool, m: bool, cs: &Vec<Coord>)
    ensures
        final(out)@ == old(out)@ + spec_coords_bytes(o, z, m, cs@),
{
    let n = cs.len();
    let mut i: usize = 0;
    while i < n
        invariant
            0 <= i <= n,
            n == cs@.len(),
            out@ == old(out)@ + spec_coords_bytes(o, z, m, cs@.take(i as int)),
        decreases n - i,
    {
        encode_coord(out, o, z, m, cs[i]);
        proof {
            lemma_coords_bytes_snoc(o, z, m, cs@, i as int);
            seq_add_assoc(
                old(out)@,
                spec_coords_bytes(o, z, m, cs@.take(i as int)),
                spec_coord_bytes(o, z, m, cs@[i as int]),
            );
        }
        i = i + 1;
    }
    proof {
        assert(cs@.take(n as int) =~= cs@);
    }
}

/// Appends the bytes of a ring run.
fn encode_rings(out: &mut Vec<u8>, o: ByteOrder, z: bool, m: bool, rings: &Vec<Vec<Coord>>)
    requires
        forall|i: int| 0 <= i < rings@.len() ==> (#[trigger] rings@[i])@.len() <= MAX_COUNT,
    ensures
        final(out)@ == old(out)@ + spec_rings_bytes(o, z, m, rings_view(rings@)),
{
    let n = rings.len();
    let mut i: usize = 0;
    while i < n
        invariant
            0 <= i <= n,
            n == rings@.len(),
            forall|j: int| 0 <= j < rings@.len() ==> (#[trigger] rings@[j])@.len() <= MAX_COUNT,
            out@ == old(out)@ + spec_rings_bytes(o, z, m, rings_view(rings@).take(i as int)),
        decreases n - i,
    {
        let ring = &rings[i];
        push_u32(out, ring.len() as u32, o);
        encode_coords(out, o, z, m, ring);
        proof {
            assert(rings_view(rings@)[i as int] == rings@[i as int]@);
            lemma_rings_bytes_snoc(o, z, m, rings_view(rings@), i as int);
            let pre = spec_rings_bytes(o, z, m, rings_view(rings@).take(i as int));
            let h = spec_u32_bytes(o, rings@[i as int]@.len() as u32);
            let cb = spec_coords_bytes(o, z, m, rings@[i as int]@);
            seq_add_assoc(old(out)@, pre, h);
            seq_add_assoc(old(out)@, pre + h, cb);
        }
        i = i + 1;
    }
    proof {
        assert(rings_view(rings@).take(n as int) =~= rings_view(rings@));
    }
}

/// Appends the bytes of a member run.
fn encode_members_into(out: &mut Vec<u8>, o: ByteOrder, ch: &Vec<Node>)
    requires
        forall|i: int| 0 <= i < ch@.len() ==> node_wf(#[trigger] members_view(ch@)[i]),
    ensures
        final(out)@ == old(out)@ + spec_encode_members(members_view(ch@), o),
    decreases ch@, 2int,
{
    broadcast use lemma_members_view_len, lemma_members_view_index;

    let n = ch.len();
    let mut i: usize = 0;
    while i < n
        invariant
            0 <= i <= n,
            n == ch@.len(),
            forall|j: int| 0 <= j < ch@.len() ==> node_wf(#[trigger] members_view(ch@)[j]),
            out@ == old(out)@ + spec_encode_members(members_view(ch@).take(i as int), o),
        decreases n - i,
    {
        proof {
            lemma_members_view_len(ch@);
            lemma_members_view_index(ch@, i as int);
            assert(node_wf(members_view(ch@)[i as int]));
        }
        encode_node_into(out, o, &ch[i]);
        proof {
            lemma_members_bytes_snoc(o, members_view(ch@), i as int);
            seq_add_assoc(
                old(out)@,
                spec_encode_members(members_view(ch@).take(i as int), o),
                spec_encode_node(members_view(ch@)[i as int], o),
            );
        }
        i = i + 1;
    }
    proof {
        assert(members_view(ch@).take(n as int) =~= members_view(ch@));
    }
}

/// Appends the payload bytes of a node.
fn encode_body_into(out: &mut Vec<u8>, o: ByteOrder, n: &Node)
    requires
        node_wf(n@),
    ensures
        final(out)@ == old(out)@ + spec_encode_body(n@, o),
    decreases *n, 0int,
{
    broadcast use lemma_members_view_len;

    let z = n.has_z;
    let m = n.has_m;
    match &n.kind {
        Kind::Point(oc) => {
            match oc {
                Some(c) => encode_coord(out, o, z, m, *c),
                None => encode_coord(
                    out,
                    o,
                    z,
                    m,
                    Coord { x: NAN_BITS, y: NAN_BITS, z: NAN_BITS, m: NAN_BITS },
                ),
            }
            proof {
                assert(out@ == old(out)@ + spec_encode_body(n@, o));
            }
        },
        Kind::LineString(cs) => {
            push_u32(out, cs.len() as u32, o);
            encode_coords(out, o, z, m, cs);
            proof {
                seq_add_assoc(old(out)@, spec_u32_bytes(o, cs@.len() as u32), spec_coords_bytes(o, z, m, cs@));
                assert(spec_encode_body(n@, o) == spec_u32_bytes(o, cs@.len() as u32)
                    + spec_coords_bytes(o, z, m, cs@));
            }
        },
        Kind::CircularString(cs) => {
            push_u32(out, cs.len() as u32, o);
            encode_coords(out, o, z, m, cs);
            proof {
                seq_add_assoc(old(out)@, spec_u32_bytes(o, cs@.len() as u32), spec_coords_bytes(o, z, m, cs@));
                assert(spec_encode_body(n@, o) == spec_u32_bytes(o, cs@.len() as u32)
                    + spec_coords_bytes(o, z, m, cs@));
            }
        },
        Kind::Polygon(rings) => {
            proof {
                assert forall|i: int| 0 <= i < rings@.len() implies (#[trigger] rings@[i])@.len()
                    <= MAX_COUNT by {
                    assert(rings_view(rings@)[i] == rings@[i]@);
                }
            }
            push_u32(out, rings.len() as u32, o);
            encode_rings(out, o, z, m, rings);
            proof {
                seq_add_assoc(
                    old(out)@,
                    spec_u32_bytes(o, rings@.len() as u32),
                    spec_rings_bytes(o, z, m, rings_view(rings@)),
                );
                assert(spec_encode_body(n@, o) == spec_u32_bytes(o, rings@.len() as u32)
                    + spec_rings_bytes(o, z, m, rings_view(rings@)));
            }
        },
        Kind::CompoundCurve(ch) => {
            proof {
                encode_members_wf_from_node(n@);
                lemma_members_view_len(ch@);
            }
            push_u32(out, ch.len() as u32, o);
            encode_members_into(out, o, ch);
            proof {
                seq_add_assoc(
                    old(out)@,
                    spec_u32_bytes(o, ch@.len() as u32),
                    spec_encode_members(members_view(ch@), o),
                );
                assert(spec_encode_body(n@, o) == spec_u32_bytes(o, ch@.len() as u32)
                    + spec_encode_members(members_view(ch@), o));
            }
        },
        Kind::CurvePolygon(ch) => {
            proof {
                encode_members_wf_from_node(n@);
                lemma_members_view_len(ch@);
            }
            push_u32(out, ch.len() as u32, o);
            encode_members_into(out, o, ch);
            proof {
                seq_add_assoc(
                    old(out)@,
                    spec_u32_bytes(o, ch@.len() as u32),
                    spec_encode_members(members_view(ch@), o),
                );
                assert(spec_encode_body(n@, o) == spec_u32_bytes(o, ch@.len() as u32)
                    + spec_encode_members(members_view(ch@), o));
            }
        },
        Kind::MultiPoint(ch) => {
            proof {
                encode_members_wf_from_node(n@);
                lemma_members_view_len(ch@);
            }
            push_u32(out, ch.len() as u32, o);
            encode_members_into(out, o, ch);
            proof {
                seq_add_assoc(
                    old(out)@,
                    spec_u32_bytes(o, ch@.len() as u32),
                    spec_encode_members(members_view(ch@), o),
                );
                assert(spec_encode_body(n@, o) == spec_u32_bytes(o, ch@.len() as u32)
                    + spec_encode_members(members_view(ch@), o));
            }
        },
        Kind::MultiLineString(ch) => {
            proof {
                encode_members_wf_from_node(n@);
                lemma_members_view_len(ch@);
            }
            push_u32(out, ch.len() as u32, o);
            encode_members_into(out, o, ch);
            proof {
                seq_add_assoc(
                    old(out)@,
                    spec_u32_bytes(o, ch@.len() as u32),
                    spec_encode_members(members_view(ch@), o),
                );
                assert(spec_encode_body(n@, o) == spec_u32_bytes(o, ch@.len() as u32)
                    + spec_encode_members(members_view(ch@), o));
            }
        },
        Kind::MultiCurve(ch) => {
            proof {
                encode_members_wf_from_node(n@);
                lemma_members_view_len(ch@);
            }
            push_u32(out, ch.len() as u32, o);
            encode_members_into(out, o, ch);
            proof {
                seq_add_assoc(
                    old(out)@,
                    spec_u32_bytes(o, ch@.len() as u32),
                    spec_encode_members(members_view(ch@), o),
                );
                assert(spec_encode_body(n@, o) == spec_u32_bytes(o, ch@.len() as u32)
                    + spec_encode_members(members_view(ch@), o));
            }
        },
        Kind::MultiPolygon(ch) => {
            proof {
                encode_members_wf_from_node(n@);
                lemma_members_view_len(ch@);
            }
            push_u32(out, ch.len() as u32, o);
            encode_members_into(out, o, ch);
            proof {
                seq_add_assoc(
                    old(out)@,
                    spec_u32_bytes(o, ch@.len() as u32),
                    spec_encode_members(members_view(ch@), o),
                );
                assert(spec_encode_body(n@, o) == spec_u32_bytes(o, ch@.len() as u32)
                    + spec_encode_members(members_view(ch@), o));
            }
        },
        Kind::MultiSurface(ch) => {
            proof {
                encode_members_wf_from_node(n@);
                lemma_members_view_len(ch@);
            }
            push_u32(out, ch.len() as u32, o);
            encode_members_into(out, o, ch);
            proof {
                seq_add_assoc(
                    old(out)@,
                    spec_u32_bytes(o, ch@.len() as u32),
                    spec_encode_members(members_view(ch@), o),
                );
                assert(spec_encode_body(n@, o) == spec_u32_bytes(o, ch@.len() as u32)
                    + spec_encode_members(members_view(ch@), o));
            }
        },
        Kind::GeometryCollection(ch) => {
            proof {
                encode_members_wf_from_node(n@);
                lemma_members_view_len(ch@);
            }
            push_u32(out, ch.len() as u32, o);
            encode_members_into(out, o, ch);
            proof {
                seq_add_assoc(
                    old(out)@,
                    spec_u32_bytes(o, ch@.len() as u32),
                    spec_encode_members(members_view(ch@), o),
                );
                assert(spec_encode_body(n@, o) == spec_u32_bytes(o, ch@.len() as u32)
                    + spec_encode_members(members_view(ch@), o));
            }
        },
    }
}

/// The member list of a well-formed compound node is elementwise
/// well-formed.
proof fn encode_members_wf_from_node(n: NodeV)
    requires
        node_wf(n),
    ensures
        match n.kind {
            KindV::CompoundCurve(ch) => member_list_wf(ch),
            KindV::CurvePolygon(ch) => member_list_wf(ch),
            KindV::MultiPoint(ch) => member_list_wf(ch),
            KindV::MultiLineString(ch) => member_list_wf(ch),
            KindV::MultiCurve(ch) => member_list_wf(ch),
            KindV::MultiPolygon(ch) => member_list_wf(ch),
            KindV::MultiSurface(ch) => member_list_wf(ch),
            KindV::GeometryCollection(ch) => member_list_wf(ch),
            _ => true,
        },
{
    match n.kind {
        KindV::CompoundCurve(ch) => member_list_wf_from(tag_of(n.kind), ch),
        KindV::CurvePolygon(ch) => member_list_wf_from(tag_of(n.kind), ch),
        KindV::MultiPoint(ch) => member_list_wf_from(tag_of(n.kind), ch),
        KindV::MultiLineString(ch) => member_list_wf_from(tag_of(n.kind), ch),
        KindV::MultiCurve(ch) => member_list_wf_from(tag_of(n.kind), ch),
        KindV::MultiPolygon(ch) => member_list_wf_from(tag_of(n.kind), ch),
        KindV::MultiSurface(ch) => member_list_wf_from(tag_of(n.kind), ch),
        KindV::GeometryCollection(ch) => member_list_wf_from(tag_of(n.kind), ch),
        _ => (),
    }
}

/// Elementwise well-formedness and a bounded count.
pub open spec fn member_list_wf(ch: Seq<NodeV>) -> bool {
    ch.len() <= MAX_COUNT && forall|i: int| 0 <= i < ch.len() ==> node_wf(#[trigger] ch[i])
}

proof fn member_list_wf_from(parent: GeomType, ch: Seq<NodeV>)
    requires
        members_wf(parent, ch),
    ensures
        member_list_wf(ch),
{
    assert forall|i: int| 0 <= i < ch.len() implies node_wf(#[trigger] ch[i]) by {
        lemma_members_wf_index(parent, ch, i);
    }
}

/// Appends the bytes of one whole node.
fn encode_node_into(out: &mut Vec<u8>, o: ByteOrder, n: &Node)
    requires
        node_wf(n@),
    ensures
        final(out)@ == old(out)@ + spec_encode_node(n@, o),
    decreases *n, 1int,
{
    let ob: u8 = match o {
        ByteOrder::Big => 0,
        ByteOrder::Little => 1,
    };
    out.push(ob);
    let w = make_flags_word(node_type(n), n.has_z, n.has_m, false);
    push_u32(out, w, o);
    encode_body_into(out, o, n);
    proof {
        assert(out@ =~= old(out)@ + spec_encode_node(n@, o));
    }
}

/// Encodes one node, without a spatial reference id.
pub fn encode_node(n: &Node, o: ByteOrder) -> (out: Vec<u8>)
    requires
        node_wf(n@),
    ensures
        out@ == spec_encode_node(n@, o),
{
    let mut out: Vec<u8> = Vec::new();
    encode_node_into(&mut out, o, n);
    proof {
        assert(out@ =~= spec_encode_node(n@, o));
    }
    out
}

/// Encodes a geometry, honoring the requested byte order and whether the
/// spatial reference id is to be included.
pub fn encode_geometry(g: &Geometry, o: ByteOrder, include_srid: bool) -> (out: Vec<u8>)
    requires
        geometry_wf(g@),
    ensures
        out@ == spec_encode_geometry(g@, o, include_srid),
{
    if include_srid && g.srid != 0 {
        let mut out: Vec<u8> = Vec::new();
        let ob: u8 = match o {
            ByteOrder::Big => 0,
            ByteOrder::Little => 1,
        };
        out.push(ob);
        let w = make_flags_word(node_type(&g.node), g.node.has_z, g.node.has_m, true);
        push_u32(&mut out, w, o);
        push_u32(&mut out, g.srid as u32, o);
        encode_body_into(&mut out, o, &g.node);
        proof {
            assert(out@ =~= spec_encode_geometry(g@, o, include_srid));
        }
        out
    } else {
        encode_node(&g.node, o)
    }
}

/// Encodes a geometry in the interchange form: little-endian, spatial
/// reference id included when present.
pub fn to_ewkb(g: &Geometry) -> (out: Vec<u8>)
    requires
        geometry_wf(g@),
    ensures
        out@ == spec_encode_geometry(g@, ByteOrder::Little, true),
{
    encode_geometry(g, ByteOrder::Little, true)
}

/// What a successful coordinate-run parse guarantees: the count is honored,
/// the bytes used are exactly counted, and every coordinate is well-formed.
pub proof fn lemma_parse_coords_props(o: ByteOrder, z: bool, m: bool, s: Seq<u8>, cnt: nat)
    requires
        parse_coords(o, z, m, s, cnt) is Some,
    ensures
        ({
            let (cs, u) = parse_coords(o, z, m, s, cnt)->Some_0;
            &&& cs.len() == cnt
            &&& u == cnt * coord_size(z, m)
            &&& 0 <= u <= s.len()
            &&& coords_wf(z, m, cs)
        }),
    decreases cnt,
{
    let csize = coord_size(z, m);
    if cnt != 0 {
        let rest = s.subrange(csize, s.len() as int);
        lemma_parse_coords_props(o, z, m, rest, (cnt - 1) as nat);
        let (cs0, u0) = parse_coords(o, z, m, rest, (cnt - 1) as nat)->Some_0;
        assert(cnt * csize == csize + (cnt - 1) * csize) by (nonlinear_arith);
        let c = parse_coord(o, z, m, s);
        assert(coord_wf(z, m, c));
        let cs = seq![c] + cs0;
        assert(forall|i: int| 0 <= i < cs.len() ==> coord_wf(z, m, #[trigger] cs[i])) by {
            assert(forall|i: int| 1 <= i < cs.len() ==> #[trigger] cs[i] == cs0[i - 1]);
        }
    }
}

/// What a successful ring-run parse guarantees.
pub proof fn lemma_parse_rings_props(o: ByteOrder, z: bool, m: bool, s: Seq<u8>, cnt: nat)
    requires
        parse_rings(o, z, m, s, cnt) is Some,
    ensures
        ({
            let (rs, u) = parse_rings(o, z, m, s, cnt)->Some_0;
            &&& rs.len() == cnt
            &&& 0 <= u <= s.len()
            &&& forall|i: int| 0 <= i < rs.len() ==> (#[trigger] rs[i]).len() <= MAX_COUNT
                && coords_wf(z, m, rs[i])
        }),
    decreases cnt,
{
    if cnt != 0 {
        let k = spec_read_u32(o, s, 0);
        let sub = s.subrange(4, s.len() as int);
        lemma_parse_coords_props(o, z, m, sub, k as nat);
        let (cs, used) = parse_coords(o, z, m, sub, k as nat)->Some_0;
        let rest = s.subrange(4 + used, s.len() as int);
        lemma_parse_rings_props(o, z, m, rest, (cnt - 1) as nat);
        let (rs0, u0) = parse_rings(o, z, m, rest, (cnt - 1) as nat)->Some_0;
        let rs = seq![cs] + rs0;
        assert(forall|i: int| 1 <= i < rs.len() ==> #[trigger] rs[i] == rs0[i - 1]);
    }
}

/// What a successful node parse guarantees: at least the header was used,
/// no more than the input, and the node is well-formed.
pub proof fn lemma_parse_node_props(s: Seq<u8>)
    requires
        parse_node(s) is Some,
    ensures
        ({
            let (nd, u) = parse_node(s)->Some_0;
            &&& 5 <= u <= s.len()
            &&& node_wf(nd)
        }),
    decreases s.len(), 0nat, 1int,
{
    let o = byte_order_of(s[0])->Some_0;
    let w = spec_read_u32(o, s, 1);
    let t = code_type(word_base(w))->Some_0;
    lemma_parse_body_props(t, word_z(w), word_m(w), o, s.subrange(5, s.len() as int));
}

/// What a successful payload parse guarantees: the variant is the one asked
/// for, and the assembled node is well-formed.
pub proof fn lemma_parse_body_props(t: GeomType, z: bool, m: bool, o: ByteOrder, s: Seq<u8>)
    requires
        parse_body(t, z, m, o, s) is Some,
    ensures
        ({
            let (k, u) = parse_body(t, z, m, o, s)->Some_0;
            &&& 0 <= u <= s.len()
            &&& tag_of(k) == t
            &&& node_wf(NodeV { has_z: z, has_m: m, kind: k })
        }),
    decreases s.len(), 0nat, 0int,
{
    match t {
        GeomType::Point => {
        },
        GeomType::LineString => {
            let cnt = spec_read_u32(o, s, 0);
            lemma_parse_coords_props(o, z, m, s.subrange(4, s.len() as int), cnt as nat);
        },
        GeomType::CircularString => {
            let cnt = spec_read_u32(o, s, 0);
            lemma_parse_coords_props(o, z, m, s.subrange(4, s.len() as int), cnt as nat);
        },
        GeomType::Polygon => {
            let cnt = spec_read_u32(o, s, 0);
            lemma_parse_rings_props(o, z, m, s.subrange(4, s.len() as int), cnt as nat);
        },
        _ => {
            let cnt = spec_read_u32(o, s, 0);
            lemma_parse_members_props(t, s.subrange(4, s.len() as int), cnt as nat);
        },
    }
}

/// What a successful member-run parse guarantees: the count is honored and
/// the members form a well-formed list under `parent`.
pub proof fn lemma_parse_members_props(parent: GeomType, s: Seq<u8>, cnt: nat)
    requires
        cnt <= MAX_COUNT,
        parse_members(parent, s, cnt) is Some,
    ensures
        ({
            let (ms, u) = parse_members(parent, s, cnt)->Some_0;
            &&& ms.len() == cnt
            &&& 0 <= u <= s.len()
            &&& members_wf(parent, ms)
        }),
    decreases s.len(), cnt, 2int,
{
    if cnt != 0 {
        let (nd, used) = parse_node(s)->Some_0;
        lemma_parse_node_props(s);
        let u = if 0 <= used <= s.len() {
            used
        } else {
            0int
        };
        let rest = s.subrange(u, s.len() as int);
        lemma_parse_members_props(parent, rest, (cnt - 1) as nat);
        let (ms0, u0) = parse_members(parent, rest, (cnt - 1) as nat)->Some_0;
        let ms = seq![nd] + ms0;
        assert(ms.drop_first() =~= ms0);
    }
}

/// The bytes of `s` from `pos` on.
pub open spec fn suffix_of(s: Seq<u8>, pos: int) -> Seq<u8> {
    s.subrange(pos, s.len() as int)
}

/// Encoded size of one coordinate.
fn coord_size_exec(z: bool, m: bool) -> (r: usize)
    ensures
        r == coord_size(z, m),
{
    let mut r: usize = 16;
    if z {
        r = r + 8;
    }
    if m {
        r = r + 8;
    }
    r
}

/// Reads one coordinate at `pos`, filling absent dimensions with the
/// sentinel.
fn decode_coord(bytes: &Vec<u8>, pos: usize, o: ByteOrder, z: bool, m: bool) -> (c: Coord)
    requires
        pos + coord_size(z, m) <= bytes@.len(),
    ensures
        c == parse_coord(o, z, m, suffix_of(bytes@, pos as int)),
{
    let len = bytes.len();
    proof {
        let suf = suffix_of(bytes@, pos as int);
        assert(suf.subrange(0, 8) =~= bytes@.subrange(pos as int, pos + 8));
        assert(suf.subrange(8, 16) =~= bytes@.subrange(pos + 8, pos + 16));
        if z {
            assert(suf.subrange(16, 24) =~= bytes@.subrange(pos + 16, pos + 24));
            if m {
                assert(suf.subrange(24, 32) =~= bytes@.subrange(pos + 24, pos + 32));
            }
        } else if m {
            assert(suf.subrange(16, 24) =~= bytes@.subrange(pos + 16, pos + 24));
        }
        if o is Big {
            assert(suf.subrange(0, 8).reverse() =~= bytes@.subrange(pos as int, pos + 8).reverse());
        }
    }
    let x = read_u64_at(bytes, pos, o);
    let y = read_u64_at(bytes, pos + 8, o);
    let zc: u64 = if z {
        read_u64_at(bytes, pos + 16, o)
    } else {
        NAN_BITS
    };
    let mc: u64 = if m {
        if z {
            read_u64_at(bytes, pos + 24, o)
        } else {
            read_u64_at(bytes, pos + 16, o)
        }
    } else {
        NAN_BITS
    };
    Coord { x, y, z: zc, m: mc }
}

/// Reads `cnt` coordinates at `pos`.
fn decode_coords(bytes: &Vec<u8>, pos: usize, o: ByteOrder, z: bool, m: bool, cnt: u32) -> (r:
    Result<(Vec<Coord>, usize), Error>)
    requires
        pos <= bytes@.len(),
    ensures
        match r {
            Ok((cs, end)) => pos <= end <= bytes@.len() && parse_coords(
                o,
                z,
                m,
                suffix_of(bytes@, pos as int),
                cnt as nat,
            ) == Some((cs@, end - pos as int)),
            Err(e) => parse_coords(o, z, m, suffix_of(bytes@, pos as int), cnt as nat) is None
                && e == Error::MalformedEncoding,
        },
{
    let len = bytes.len();
    let csize = coord_size_exec(z, m);
    let mut cs: Vec<Coord> = Vec::new();
    let mut cur: usize = pos;
    let mut i: u32 = 0;
    while i < cnt
        invariant
            pos <= cur <= len,
            len == bytes@.len(),
            csize == coord_size(z, m),
            0 <= i <= cnt,
            cs@.len() == i,
            match parse_coords(o, z, m, suffix_of(bytes@, cur as int), (cnt - i) as nat) {
                Some(t) => parse_coords(o, z, m, suffix_of(bytes@, pos as int), cnt as nat)
                    == Some((cs@ + t.0, cur - pos + t.1)),
                None => parse_coords(o, z, m, suffix_of(bytes@, pos as int), cnt as nat) is None,
            },
        decreases cnt - i,
    {
        if len - cur < csize {
            assert(suffix_of(bytes@, cur as int).len() < coord_size(z, m));
            return Err(Error::MalformedEncoding);
        }
        let c = decode_coord(bytes, cur, o, z, m);
        proof {
            let suf = suffix_of(bytes@, cur as int);
            assert(suf.subrange(coord_size(z, m), suf.len() as int) =~= suffix_of(
                bytes@,
                cur + coord_size(z, m),
            ));
            match parse_coords(o, z, m, suffix_of(bytes@, cur + coord_size(z, m)), (cnt - i - 1) as nat) {
                Some(t) => {
                    seq_add_assoc(cs@, seq![c], t.0);
                    assert(cs@ + (seq![c] + t.0) == (cs@ + seq![c]) + t.0);
                },
                None => {},
            }
        }
        cs.push(c);
        cur = cur + csize;
        i = i + 1;
    }
    proof {
        seq_add_empty(cs@);
    }
    Ok((cs, cur))
}

/// Reads `cnt` rings at `pos`.
fn decode_rings(bytes: &Vec<u8>, pos: usize, o: ByteOrder, z: bool, m: bool, cnt: u32) -> (r:
    Result<(Vec<Vec<Coord>>, usize), Error>)
    requires
        pos <= bytes@.len(),
    ensures
        match r {
            Ok((rs, end)) => pos <= end <= bytes@.len() && parse_rings(
                o,
                z,
                m,
                suffix_of(bytes@, pos as int),
                cnt as nat,
            ) == Some((rings_view(rs@), end - pos as int)),
            Err(e) => parse_rings(o, z, m, suffix_of(bytes@, pos as int), cnt as nat) is None
                && e == Error::MalformedEncoding,
        },
{
    let len = bytes.len();
    let mut rs: Vec<Vec<Coord>> = Vec::new();
    let mut cur: usize = pos;
    let mut i: u32 = 0;
    while i < cnt
        invariant
            pos <= cur <= len,
            len == bytes@.len(),
            0 <= i <= cnt,
            rs@.len() == i,
            match parse_rings(o, z, m, suffix_of(bytes@, cur as int), (cnt - i) as nat) {
                Some(t) => parse_rings(o, z, m, suffix_of(bytes@, pos as int), cnt as nat)
                    == Some((rings_view(rs@) + t.0, cur - pos + t.1)),
                None => parse_rings(o, z, m, suffix_of(bytes@, pos as int), cnt as nat) is None,
            },
        decreases cnt - i,
    {
        if len - cur < 4 {
            assert(suffix_of(bytes@, cur as int).len() < 4);
            return Err(Error::MalformedEncoding);
        }
        let k = read_u32_at(bytes, cur, o);
        proof {
            let suf = suffix_of(bytes@, cur as int);
            assert(suf.subrange(0, 4) =~= bytes@.subrange(cur as int, cur + 4));
            if o is Big {
                assert(suf.subrange(0, 4).reverse() =~= bytes@.subrange(cur as int, cur + 4).reverse());
            }
            assert(spec_read_u32(o, suf, 0) == spec_read_u32(o, bytes@, cur as int));
            assert(suf.subrange(4, suf.len() as int) =~= suffix_of(bytes@, cur + 4));
        }
        let cres = decode_coords(bytes, cur + 4, o, z, m, k);
        match cres {
            Err(e) => {
                return Err(e);
            },
            Ok((ring, rend)) => {
                proof {
                    let suf = suffix_of(bytes@, cur as int);
                    let used = rend - (cur + 4);
                    assert(suf.subrange(4 + used, suf.len() as int) =~= suffix_of(bytes@, rend as int));
                    match parse_rings(o, z, m, suffix_of(bytes@, rend as int), (cnt - i - 1) as nat) {
                        Some(t) => {
                            seq_add_assoc(rings_view(rs@), seq![ring@], t.0);
                            assert(rings_view(rs@.push(ring)) =~= rings_view(rs@) + seq![ring@]);
                        },
                        None => {},
                    }
                }
                rs.push(ring);
                cur = rend;
                i = i + 1;
            },
        }
    }
    proof {
        seq_add_empty(rings_view(rs@));
    }
    Ok((rs, cur))
}

/// May `child` stand as a direct member of `parent`?
fn member_tag_allowed(parent: GeomType, child: GeomType) -> (r: bool)
    ensures
        r == member_tag_ok(parent, child),
{
    match parent {
        GeomType::CompoundCurve => child == GeomType::LineString
            || child == GeomType::CircularString,
        GeomType::CurvePolygon => child == GeomType::LineString
            || child == GeomType::CircularString || child == GeomType::CompoundCurve,
        GeomType::MultiPoint => child == GeomType::Point,
        GeomType::MultiLineString => child == GeomType::LineString,
        GeomType::MultiCurve => child == GeomType::LineString
            || child == GeomType::CircularString || child == GeomType::CompoundCurve,
        GeomType::MultiPolygon => child == GeomType::Polygon,
        GeomType::MultiSurface => child == GeomType::Polygon
            || child == GeomType::CurvePolygon,
        GeomType::GeometryCollection => true,
        _ => false,
    }
}

/// Rebuilds a compound payload from its decoded members.
fn make_members_kind(t: GeomType, ms: Vec<Node>) -> (k: Kind)
    ensures
        kind_view(k) == members_kind(t, members_view(ms@)),
{
    match t {
        GeomType::CompoundCurve => Kind::CompoundCurve(ms),
        GeomType::CurvePolygon => Kind::CurvePolygon(ms),
        GeomType::MultiPoint => Kind::MultiPoint(ms),
        GeomType::MultiLineString => Kind::MultiLineString(ms),
        GeomType::MultiCurve => Kind::MultiCurve(ms),
        GeomType::MultiPolygon => Kind::MultiPolygon(ms),
        GeomType::MultiSurface => Kind::MultiSurface(ms),
        _ => Kind::GeometryCollection(ms),
    }
}

/// Reads `cnt` member nodes at `pos`, each checked against `parent`.
fn decode_members(bytes: &Vec<u8>, pos: usize, parent: GeomType, cnt: u32) -> (r: Result<
    (Vec<Node>, usize),
    Error,
>)
    requires
        pos <= bytes@.len(),
    ensures
        match r {
            Ok((ms, end)) => pos <= end <= bytes@.len() && parse_members(
                parent,
                suffix_of(bytes@, pos as int),
                cnt as nat,
            ) == Some((members_view(ms@), end - pos as int)),
            Err(e) => parse_members(parent, suffix_of(bytes@, pos as int), cnt as nat) is None
                && e == Error::MalformedEncoding,
        },
    decreases bytes@.len() - pos, cnt, 2int,
{
    let len = bytes.len();
    let mut ms: Vec<Node> = Vec::new();
    let mut cur: usize = pos;
    let mut i: u32 = 0;
    while i < cnt
        invariant
            pos <= cur <= len,
            len == bytes@.len(),
            0 <= i <= cnt,
            ms@.len() == i,
            match parse_members(parent, suffix_of(bytes@, cur as int), (cnt - i) as nat) {
                Some(t) => parse_members(parent, suffix_of(bytes@, pos as int), cnt as nat)
                    == Some((members_view(ms@) + t.0, cur - pos + t.1)),
                None => parse_members(parent, suffix_of(bytes@, pos as int), cnt as nat) is None,
            },
        decreases cnt - i,
    {
        let nres = decode_node(bytes, cur);
        match nres {
            Err(_) => {
                return Err(Error::MalformedEncoding);
            },
            Ok((nd, nend)) => {
                let t = node_type(&nd);
                if !member_tag_allowed(parent, t) {
                    return Err(Error::MalformedEncoding);
                }
                proof {
                    lemma_members_view_len(ms@);
                    let suf = suffix_of(bytes@, cur as int);
                    assert(suf.subrange(nend - cur, suf.len() as int) =~= suffix_of(
                        bytes@,
                        nend as int,
                    ));
                    lemma_members_view_push(ms@, nd);
                    match parse_members(parent, suffix_of(bytes@, nend as int), (cnt - i - 1) as nat) {
                        Some(t2) => {
                            seq_add_assoc(members_view(ms@), seq![nd@], t2.0);
                        },
                        None => {},
                    }
                }
                ms.push(nd);
                cur = nend;
                i = i + 1;
            },
        }
    }
    proof {
        seq_add_empty(members_view(ms@));
    }
    Ok((ms, cur))
}

/// Reads the payload of a node of known variant and flags at `pos`.
fn decode_body(bytes: &Vec<u8>, pos: usize, t: GeomType, z: bool, m: bool, o: ByteOrder) -> (r:
    Result<(Kind, usize), Error>)
    requires
        pos <= bytes@.len(),
    ensures
        match r {
            Ok((k, end)) => pos <= end <= bytes@.len() && parse_body(
                t,
                z,
                m,
                o,
                suffix_of(bytes@, pos as int),
            ) == Some((kind_view(k), end - pos as int)),
            Err(e) => parse_body(t, z, m, o, suffix_of(bytes@, pos as int)) is None && e
                == Error::MalformedEncoding,
        },
    decreases bytes@.len() - pos, 0nat, 0int,
{
    let len = bytes.len();
    match t {
        GeomType::Point => {
            let csize = coord_size_exec(z, m);
            if len - pos < csize {
                return Err(Error::MalformedEncoding);
            }
            let c = decode_coord(bytes, pos, o, z, m);
            let k = if nan_bits(c.x) && nan_bits(c.y) {
                Kind::Point(None)
            } else {
                Kind::Point(Some(c))
            };
            Ok((k, pos + csize))
        },
        GeomType::LineString => {
            if len - pos < 4 {
                return Err(Error::MalformedEncoding);
            }
            let cnt = read_u32_at(bytes, pos, o);
            proof {
                bridge_u32_at(bytes@, pos as int, o);
                assert(suffix_of(bytes@, pos as int).subrange(
                    4,
                    suffix_of(bytes@, pos as int).len() as int,
                ) =~= suffix_of(bytes@, pos + 4));
            }
            match decode_coords(bytes, pos + 4, o, z, m, cnt) {
                Err(e) => Err(e),
                Ok((cs, end)) => Ok((Kind::LineString(cs), end)),
            }
        },
        GeomType::CircularString => {
            if len - pos < 4 {
                return Err(Error::MalformedEncoding);
            }
            let cnt = read_u32_at(bytes, pos, o);
            proof {
                bridge_u32_at(bytes@, pos as int, o);
                assert(suffix_of(bytes@, pos as int).subrange(
                    4,
                    suffix_of(bytes@, pos as int).len() as int,
                ) =~= suffix_of(bytes@, pos + 4));
            }
            match decode_coords(bytes, pos + 4, o, z, m, cnt) {
                Err(e) => Err(e),
                Ok((cs, end)) => Ok((Kind::CircularString(cs), end)),
            }
        },
        GeomType::Polygon => {
            if len - pos < 4 {
                return Err(Error::MalformedEncoding);
            }
            let cnt = read_u32_at(bytes, pos, o);
            proof {
                bridge_u32_at(bytes@, pos as int, o);
                assert(suffix_of(bytes@, pos as int).subrange(
                    4,
                    suffix_of(bytes@, pos as int).len() as int,
                ) =~= suffix_of(bytes@, pos + 4));
            }
            match decode_rings(bytes, pos + 4, o, z, m, cnt) {
                Err(e) => Err(e),
                Ok((rs, end)) => Ok((Kind::Polygon(rs), end)),
            }
        },
        _ => {
            if len - pos < 4 {
                return Err(Error::MalformedEncoding);
            }
            let cnt = read_u32_at(bytes, pos, o);
            proof {
                bridge_u32_at(bytes@, pos as int, o);
                assert(suffix_of(bytes@, pos as int).subrange(
                    4,
                    suffix_of(bytes@, pos as int).len() as int,
                ) =~= suffix_of(bytes@, pos + 4));
            }
            match decode_members(bytes, pos + 4, t, cnt) {
                Err(e) => Err(e),
                Ok((ms, end)) => Ok((make_members_kind(t, ms), end)),
            }
        },
    }
}

/// The number at offset 0 of the suffix at `pos` is the number at `pos`.
proof fn bridge_u32_at(s: Seq<u8>, pos: int, o: ByteOrder)
    requires
        0 <= pos,
        pos + 4 <= s.len(),
    ensures
        spec_read_u32(o, suffix_of(s, pos), 0) == spec_read_u32(o, s, pos),
{
    let suf = suffix_of(s, pos);
    assert(suf.subrange(0, 4) =~= s.subrange(pos, pos + 4));
    if o is Big {
        assert(suf.subrange(0, 4).reverse() =~= s.subrange(pos, pos + 4).reverse());
    }
}

/// Reads one whole node at `pos`.
fn decode_node(bytes: &Vec<u8>, pos: usize) -> (r: Result<(Node, usize), Error>)
    requires
        pos <= bytes@.len(),
    ensures
        match r {
            Ok((nd, end)) => pos + 5 <= end <= bytes@.len() && parse_node(
                suffix_of(bytes@, pos as int),
            ) == Some((nd@, end - pos as int)),
            Err(e) => parse_node(suffix_of(bytes@, pos as int)) is None && e
                == Error::MalformedEncoding,
        },
    decreases bytes@.len() - pos, 0nat, 1int,
{
    let len = bytes.len();
    if len - pos < 5 {
        return Err(Error::MalformedEncoding);
    }
    proof {
        assert(suffix_of(bytes@, pos as int)[0] == bytes@[pos as int]);
    }
    let ob = bytes[pos];
    let o: ByteOrder = if ob == 0 {
        ByteOrder::Big
    } else if ob == 1 {
        ByteOrder::Little
    } else {
        return Err(Error::MalformedEncoding);
    };
    let w = read_u32_at(bytes, pos + 1, o);
    proof {
        let suf = suffix_of(bytes@, pos as int);
        assert(suf.subrange(1, 5) =~= bytes@.subrange(pos + 1, pos + 5));
        if o is Big {
            assert(suf.subrange(1, 5).reverse() =~= bytes@.subrange(pos + 1, pos + 5).reverse());
        }
        assert(spec_read_u32(o, suf, 1) == spec_read_u32(o, bytes@, pos + 1));
    }
    if (w / FLAG_SRID) % 2 == 1 {
        return Err(Error::MalformedEncoding);
    }
    let base = w % FLAG_SRID;
    let t = match type_from_code(base) {
        Some(t) => t,
        None => {
            return Err(Error::MalformedEncoding);
        },
    };
    let z = (w / FLAG_Z) % 2 == 1;
    let m = (w / FLAG_M) % 2 == 1;
    proof {
        assert(suffix_of(bytes@, pos as int).subrange(
            5,
            suffix_of(bytes@, pos as int).len() as int,
        ) =~= suffix_of(bytes@, pos + 5));
    }
    match decode_body(bytes, pos + 5, t, z, m, o) {
        Err(e) => Err(e),
        Ok((k, end)) => Ok((Node { has_z: z, has_m: m, kind: k }, end)),
    }
}

/// Decodes one full geometry; the whole input must be consumed.
pub fn decode_geometry(bytes: &Vec<u8>) -> (r: Result<Geometry, Error>)
    ensures
        match r {
            Ok(g) => parse_geometry(bytes@) == Some((g@, bytes@.len() as int)) && geometry_wf(g@),
            Err(e) => e == Error::MalformedEncoding && (match parse_geometry(bytes@) {
                Some(t) => t.1 != bytes@.len(),
                None => true,
            }),
        },
{
    let len = bytes.len();
    if len < 5 {
        return Err(Error::MalformedEncoding);
    }
    let ob = bytes[0];
    let o: ByteOrder = if ob == 0 {
        ByteOrder::Big
    } else if ob == 1 {
        ByteOrder::Little
    } else {
        return Err(Error::MalformedEncoding);
    };
    let w = read_u32_at(bytes, 1, o);
    if (w / FLAG_SRID) % 2 == 1 {
        if len < 9 {
            return Err(Error::MalformedEncoding);
        }
        let srid_bits = read_u32_at(bytes, 5, o);
        let base = w % FLAG_SRID;
        let t = match type_from_code(base) {
            Some(t) => t,
            None => {
                return Err(Error::MalformedEncoding);
            },
        };
        let z = (w / FLAG_Z) % 2 == 1;
        let m = (w / FLAG_M) % 2 == 1;
        proof {
            assert(bytes@.subrange(9, bytes@.len() as int) =~= suffix_of(bytes@, 9));
        }
        match decode_body(bytes, 9, t, z, m, o) {
            Err(e) => Err(e),
            Ok((k, end)) => {
                if end != len {
                    return Err(Error::MalformedEncoding);
                }
                let g = Geometry { srid: srid_bits as i32, node: Node { has_z: z, has_m: m, kind: k } };
                proof {
                    lemma_parse_geometry_props(bytes@);
                }
                Ok(g)
            },
        }
    } else {
        proof {
            assert(suffix_of(bytes@, 0) =~= bytes@);
        }
        match decode_node(bytes, 0) {
            Err(e) => Err(e),
            Ok((nd, end)) => {
                if end != len {
                    return Err(Error::MalformedEncoding);
                }
                let g = Geometry { srid: 0, node: nd };
                proof {
                    lemma_parse_geometry_props(bytes@);
                }
                Ok(g)
            },
        }
    }
}

/// Total length of an encoded coordinate run.
pub proof fn lemma_coords_bytes_total_len(o: ByteOrder, z: bool, m: bool, cs: Seq<Coord>)
    ensures
        spec_coords_bytes(o, z, m, cs).len() == cs.len() * coord_size(z, m),
    decreases cs.len(),
{
    if cs.len() == 0 {
        let n = cs.len();
        let cz = coord_size(z, m);
        assert(n * cz == 0) by (nonlinear_arith)
            requires
                n == 0,
        ;
    } else {
        lemma_coord_bytes_len(o, z, m, cs[0]);
        lemma_coords_bytes_total_len(o, z, m, cs.drop_first());
        let nn = cs.len();
        let cz = coord_size(z, m);
        assert(nn * cz == cz + (nn - 1) * cz) by (nonlinear_arith);
    }
}

/// Parsing a freshly encoded coordinate gives it back.
proof fn lemma_parse_coord_encode(o: ByteOrder, z: bool, m: bool, c: Coord, rest: Seq<u8>)
    requires
        coord_wf(z, m, c),
    ensures
        parse_coord(o, z, m, spec_coord_bytes(o, z, m, c) + rest) == c,
{
    lemma_auto_spec_u64_to_from_le_bytes();
    let s = spec_coord_bytes(o, z, m, c) + rest;
    assert(s.subrange(0, 8) =~= spec_u64_bytes(o, c.x));
    lemma_read_u64_concat(o, c.x, s, 0);
    assert(s.subrange(8, 16) =~= spec_u64_bytes(o, c.y));
    lemma_read_u64_concat(o, c.y, s, 8);
    if z {
        assert(s.subrange(16, 24) =~= spec_u64_bytes(o, c.z));
        lemma_read_u64_concat(o, c.z, s, 16);
        if m {
            assert(s.subrange(24, 32) =~= spec_u64_bytes(o, c.m));
            lemma_read_u64_concat(o, c.m, s, 24);
        }
    } else if m {
        assert(s.subrange(16, 24) =~= spec_u64_bytes(o, c.m));
        lemma_read_u64_concat(o, c.m, s, 16);
    }
}

/// Parsing a freshly encoded coordinate run gives it back.
proof fn lemma_parse_coords_encode(o: ByteOrder, z: bool, m: bool, cs: Seq<Coord>, rest: Seq<u8>)
    requires
        coords_wf(z, m, cs),
    ensures
        parse_coords(o, z, m, spec_coords_bytes(o, z, m, cs) + rest, cs.len()) == Some(
            (cs, spec_coords_bytes(o, z, m, cs).len() as int),
        ),
    decreases cs.len(),
{
    let enc = spec_coords_bytes(o, z, m, cs);
    let s = enc + rest;
    if cs.len() == 0 {
        assert(cs =~= Seq::<Coord>::empty());
    } else {
        let csize = coord_size(z, m);
        let df = cs.drop_first();
        let enc0 = spec_coord_bytes(o, z, m, cs[0]);
        let encr = spec_coords_bytes(o, z, m, df);
        lemma_coord_bytes_len(o, z, m, cs[0]);
        lemma_coords_bytes_total_len(o, z, m, cs);
        lemma_coords_bytes_total_len(o, z, m, df);
        let nn = cs.len();
        assert(nn * csize == csize + (nn - 1) * csize) by (nonlinear_arith);
        assert((nn - 1) * csize >= 0) by (nonlinear_arith)
            requires
                nn >= 1 && csize >= 0,
        ;
        seq_add_assoc(enc0, encr, rest);
        assert(s == enc0 + (encr + rest));
        assert(s.len() >= csize);
        lemma_parse_coord_encode(o, z, m, cs[0], encr + rest);
        assert(parse_coord(o, z, m, s) == cs[0]);
        assert(s.subrange(csize, s.len() as int) =~= encr + rest);
        assert(coords_wf(z, m, df)) by {
            assert(forall|i: int| 0 <= i < df.len() ==> #[trigger] df[i] == cs[i + 1]);
        }
        lemma_parse_coords_encode(o, z, m, df, rest);
        assert(seq![cs[0]] + df =~= cs);
    }
}

/// Parsing a freshly encoded ring run gives it back.
#[verifier::rlimit(50)]
#[verifier::spinoff_prover]
proof fn lemma_parse_rings_encode(o: ByteOrder, z: bool, m: bool, rs: Seq<Seq<Coord>>, rest: Seq<u8>)
    requires
        forall|i: int| 0 <= i < rs.len() ==> (#[trigger] rs[i]).len() <= MAX_COUNT && coords_wf(
            z,
            m,
            rs[i],
        ),
    ensures
        parse_rings(o, z, m, spec_rings_bytes(o, z, m, rs) + rest, rs.len()) == Some(
            (rs, spec_rings_bytes(o, z, m, rs).len() as int),
        ),
    decreases rs.len(),
{
    let enc = spec_rings_bytes(o, z, m, rs);
    let s = enc + rest;
    if rs.len() == 0 {
        assert(rs =~= Seq::<Seq<Coord>>::empty());
    } else {
        let df = rs.drop_first();
        let h0 = spec_u32_bytes(o, rs[0].len() as u32);
        let c0 = spec_coords_bytes(o, z, m, rs[0]);
        let encr = spec_rings_bytes(o, z, m, df);
        lemma_u32_bytes_len(o, rs[0].len() as u32);
        assert(enc == h0 + c0 + encr);
        seq_add_assoc(h0 + c0, encr, rest);
        seq_add_assoc(h0, c0, encr + rest);
        assert(s == h0 + (c0 + (encr + rest)));
        assert(s.subrange(0, 4) =~= h0);
        lemma_read_u32_concat(o, rs[0].len() as u32, s, 0);
        let k = spec_read_u32(o, s, 0);
        assert(k as nat == rs[0].len());
        assert(s.subrange(4, s.len() as int) =~= c0 + (encr + rest));
        seq_add_assoc(c0, encr, rest);
        lemma_parse_coords_encode(o, z, m, rs[0], encr + rest);
        lemma_coords_bytes_total_len(o, z, m, rs[0]);
        lemma_coords_bytes_total_len(o, z, m, rs[0]);
        assert(s.subrange(4 + c0.len() as int, s.len() as int) =~= encr + rest);
        assert(forall|i: int| 0 <= i < df.len() ==> #[trigger] df[i] == rs[i + 1]);
        lemma_parse_rings_encode(o, z, m, df, rest);
        assert(seq![rs[0]] + df =~= rs);
    }
}

/// Parsing a freshly encoded node gives it back.
pub proof fn lemma_parse_encode_node(n: NodeV, o: ByteOrder, rest: Seq<u8>)
    requires
        node_wf(n),
    ensures
        parse_node(spec_encode_node(n, o) + rest) == Some(
            (n, spec_encode_node(n, o).len() as int),
        ),
    decreases n, 2int,
{
    let w = flags_word(tag_of(n.kind), n.has_z, n.has_m, false);
    let wb = spec_u32_bytes(o, w);
    let body = spec_encode_body(n, o);
    let enc = spec_encode_node(n, o);
    let s = enc + rest;
    lemma_u32_bytes_len(o, w);
    seq_add_assoc(seq![order_byte(o)] + wb, body, rest);
    seq_add_assoc(seq![order_byte(o)], wb, body + rest);
    assert(s == seq![order_byte(o)] + (wb + (body + rest)));
    assert(s[0] == order_byte(o));
    assert(byte_order_of(order_byte(o)) == Some(o));
    assert(s.subrange(1, 5) =~= wb);
    lemma_read_u32_concat(o, w, s, 1);
    lemma_flags_word(tag_of(n.kind), n.has_z, n.has_m, false);
    lemma_type_code_small(tag_of(n.kind));
    assert(s.subrange(5, s.len() as int) =~= body + rest);
    lemma_parse_encode_body(n, o, rest);
    assert(parse_body(tag_of(n.kind), n.has_z, n.has_m, o, body + rest) == Some(
        (n.kind, body.len() as int),
    ));
    let nd = NodeV { has_z: n.has_z, has_m: n.has_m, kind: n.kind };
    assert(nd == n);
}

/// Parsing a freshly encoded payload gives it back.
pub proof fn lemma_parse_encode_body(n: NodeV, o: ByteOrder, rest: Seq<u8>)
    requires
        node_wf(n),
    ensures
        parse_body(tag_of(n.kind), n.has_z, n.has_m, o, spec_encode_body(n, o) + rest) == Some(
            (n.kind, spec_encode_body(n, o).len() as int),
        ),
    decreases n, 1int,
{
    let z = n.has_z;
    let m = n.has_m;
    let body = spec_encode_body(n, o);
    let s = body + rest;
    match n.kind {
        KindV::Point(oc) => {
            let c = match oc {
                Some(c) => c,
                None => empty_point_coord(),
            };
            assert(coord_wf(z, m, c)) by {
                crate::bits::lemma_nan_sentinel_is_nan();
            }
            lemma_coord_bytes_len(o, z, m, c);
            lemma_parse_coord_encode(o, z, m, c, rest);
            crate::bits::lemma_nan_sentinel_is_nan();
        },
        KindV::LineString(cs) => {
            lemma_u32_bytes_len(o, cs.len() as u32);
            lemma_parse_encode_counted_coords(o, z, m, cs, rest);
        },
        KindV::CircularString(cs) => {
            lemma_u32_bytes_len(o, cs.len() as u32);
            lemma_parse_encode_counted_coords(o, z, m, cs, rest);
        },
        KindV::Polygon(rings) => {
            let h = spec_u32_bytes(o, rings.len() as u32);
            let rb = spec_rings_bytes(o, z, m, rings);
            lemma_u32_bytes_len(o, rings.len() as u32);
            seq_add_assoc(h, rb, rest);
            assert(s == h + (rb + rest));
            assert(s.subrange(0, 4) =~= h);
            lemma_read_u32_concat(o, rings.len() as u32, s, 0);
            assert(s.subrange(4, s.len() as int) =~= rb + rest);
            lemma_parse_rings_encode(o, z, m, rings, rest);
        },
        KindV::CompoundCurve(ch) => {
            lemma_parse_encode_compound(n, ch, o, rest);
        },
        KindV::CurvePolygon(ch) => {
            lemma_parse_encode_compound(n, ch, o, rest);
        },
        KindV::MultiPoint(ch) => {
            lemma_parse_encode_compound(n, ch, o, rest);
        },
        KindV::MultiLineString(ch) => {
            lemma_parse_encode_compound(n, ch, o, rest);
        },
        KindV::MultiCurve(ch) => {
            lemma_parse_encode_compound(n, ch, o, rest);
        },
        KindV::MultiPolygon(ch) => {
            lemma_parse_encode_compound(n, ch, o, rest);
        },
        KindV::MultiSurface(ch) => {
            lemma_parse_encode_compound(n, ch, o, rest);
        },
        KindV::GeometryCollection(ch) => {
            lemma_parse_encode_compound(n, ch, o, rest);
        },
    }
}

/// The counted-coordinate payloads (line strings and circular strings).
proof fn lemma_parse_encode_counted_coords(
    o: ByteOrder,
    z: bool,
    m: bool,
    cs: Seq<Coord>,
    rest: Seq<u8>,
)
    requires
        cs.len() <= MAX_COUNT,
        coords_wf(z, m, cs),
    ensures
        ({
            let s = spec_u32_bytes(o, cs.len() as u32) + spec_coords_bytes(o, z, m, cs) + rest;
            &&& spec_read_u32(o, s, 0) as nat == cs.len()
            &&& s.len() >= 4
            &&& parse_coords(o, z, m, s.subrange(4, s.len() as int), cs.len()) == Some(
                (cs, spec_coords_bytes(o, z, m, cs).len() as int),
            )
        }),
{
    let h = spec_u32_bytes(o, cs.len() as u32);
    let cb = spec_coords_bytes(o, z, m, cs);
    let s = h + cb + rest;
    lemma_u32_bytes_len(o, cs.len() as u32);
    seq_add_assoc(h, cb, rest);
    assert(s == h + (cb + rest));
    assert(s.subrange(0, 4) =~= h);
    lemma_read_u32_concat(o, cs.len() as u32, s, 0);
    assert(s.subrange(4, s.len() as int) =~= cb + rest);
    lemma_parse_coords_encode(o, z, m, cs, rest);
}

/// The compound payloads: a count field and a member run.
proof fn lemma_parse_encode_compound(n: NodeV, ch: Seq<NodeV>, o: ByteOrder, rest: Seq<u8>)
    requires
        node_wf(n),
        members_kind(tag_of(n.kind), ch) == n.kind,
        members_wf(tag_of(n.kind), ch),
        spec_encode_body(n, o) == spec_u32_bytes(o, ch.len() as u32) + spec_encode_members(ch, o),
    ensures
        parse_body(tag_of(n.kind), n.has_z, n.has_m, o, spec_encode_body(n, o) + rest) == Some(
            (n.kind, spec_encode_body(n, o).len() as int),
        ),
    decreases n, 1int, 0int,
{
    let t = tag_of(n.kind);
    let h = spec_u32_bytes(o, ch.len() as u32);
    let mb = spec_encode_members(ch, o);
    let s = spec_encode_body(n, o) + rest;
    lemma_u32_bytes_len(o, ch.len() as u32);
    seq_add_assoc(h, mb, rest);
    assert(s == h + (mb + rest));
    assert(s.subrange(0, 4) =~= h);
    lemma_read_u32_concat(o, ch.len() as u32, s, 0);
    assert(s.subrange(4, s.len() as int) =~= mb + rest);
    lemma_parse_encode_members(t, ch, o, rest);
}

/// Parsing a freshly encoded member run gives it back.
pub proof fn lemma_parse_encode_members(parent: GeomType, ch: Seq<NodeV>, o: ByteOrder, rest: Seq<u8>)
    requires
        members_wf(parent, ch),
    ensures
        parse_members(parent, spec_encode_members(ch, o) + rest, ch.len()) == Some(
            (ch, spec_encode_members(ch, o).len() as int),
        ),
    decreases ch, 3int,
{
    let enc = spec_encode_members(ch, o);
    let s = enc + rest;
    if ch.len() == 0 {
        assert(ch =~= Seq::<NodeV>::empty());
    } else {
        let df = ch.drop_first();
        let e0 = spec_encode_node(ch[0], o);
        let er = spec_encode_members(df, o);
        seq_add_assoc(e0, er, rest);
        assert(s == e0 + (er + rest));
        lemma_parse_encode_node(ch[0], o, er + rest);
        assert(parse_node(s) == Some((ch[0], e0.len() as int)));
        assert(0 <= e0.len() <= s.len());
        assert(s.subrange(e0.len() as int, s.len() as int) =~= er + rest);
        lemma_parse_encode_members(parent, df, o, rest);
        assert(seq![ch[0]] + df =~= ch);
    }
}

/// Round trip: parsing an encoded well-formed geometry reproduces its
/// variant, flags, coordinates, and spatial reference id, and consumes the
/// whole encoding. When the id is left out or zero, the decoded id is zero.
pub proof fn lemma_parse_encode_geometry(g: GeometryV, o: ByteOrder, include_srid: bool)
    requires
        geometry_wf(g),
    ensures
        ({
            let enc = spec_encode_geometry(g, o, include_srid);
            if include_srid {
                parse_geometry(enc) == Some((g, enc.len() as int)) || (g.srid == 0
                    && parse_geometry(enc) == Some(
                    (GeometryV { srid: 0, node: g.node }, enc.len() as int),
                ))
            } else {
                parse_geometry(enc) == Some(
                    (GeometryV { srid: 0, node: g.node }, enc.len() as int),
                )
            }
        }),
{
    let enc = spec_encode_geometry(g, o, include_srid);
    if include_srid && g.srid != 0 {
        let t = tag_of(g.node.kind);
        let w = flags_word(t, g.node.has_z, g.node.has_m, true);
        let wb = spec_u32_bytes(o, w);
        let sb = spec_u32_bytes(o, g.srid as u32);
        let body = spec_encode_body(g.node, o);
        lemma_u32_bytes_len(o, w);
        lemma_u32_bytes_len(o, g.srid as u32);
        seq_add_assoc(seq![order_byte(o)] + wb + sb, body, Seq::<u8>::empty());
        seq_add_empty(body);
        assert(enc == seq![order_byte(o)] + wb + sb + body);
        assert(enc[0] == order_byte(o));
        assert(byte_order_of(order_byte(o)) == Some(o));
        assert(enc.subrange(1, 5) =~= wb);
        lemma_read_u32_concat(o, w, enc, 1);
        lemma_flags_word(t, g.node.has_z, g.node.has_m, true);
        lemma_type_code_small(t);
        assert(enc.subrange(5, 9) =~= sb);
        lemma_read_u32_concat(o, g.srid as u32, enc, 5);
        let sr: i32 = g.srid;
        assert((sr as u32) as i32 == sr) by (bit_vector);
        assert(enc.subrange(9, enc.len() as int) =~= body + Seq::<u8>::empty());
        seq_add_empty(body);
        lemma_parse_encode_body(g.node, o, Seq::<u8>::empty());
        let nd = NodeV { has_z: g.node.has_z, has_m: g.node.has_m, kind: g.node.kind };
        assert(nd == g.node);
        let gv = GeometryV { srid: (g.srid as u32) as i32, node: nd };
        assert(gv == g);
    } else {
        let w = flags_word(tag_of(g.node.kind), g.node.has_z, g.node.has_m, false);
        let wb = spec_u32_bytes(o, w);
        let body = spec_encode_body(g.node, o);
        lemma_u32_bytes_len(o, w);
        seq_add_empty(spec_encode_node(g.node, o));
        lemma_parse_encode_node(g.node, o, Seq::<u8>::empty());
        assert(spec_encode_node(g.node, o) + Seq::<u8>::empty() == enc);
        assert(enc[0] == order_byte(o));
        assert(byte_order_of(order_byte(o)) == Some(o));
        assert(enc.subrange(1, 5) =~= wb);
        lemma_read_u32_concat(o, w, enc, 1);
        lemma_flags_word(tag_of(g.node.kind), g.node.has_z, g.node.has_m, false);
        assert(enc.len() >= 5);
    }
}

/// The header of an encoded geometry: what can be read without touching
/// the payload.
#[derive(Clone, Copy, Debug, PartialEq, Eq, Structural)]
pub struct Header {
    pub order: ByteOrder,
    pub base_type: GeomType,
    pub has_z: bool,
    pub has_m: bool,
    pub srid: i32,
}

/// The header at the front of `s`, if one is readable.
pub open spec fn spec_header(s: Seq<u8>) -> Option<Header> {
    if s.len() < 5 {
        None
    } else {
        match byte_order_of(s[0]) {
            None => None,
            Some(o) => {
                let w = spec_read_u32(o, s, 1);
                match code_type(word_base(w)) {
                    None => None,
                    Some(t) => {
                        if word_srid(w) {
                            if s.len() < 9 {
                                None
                            } else {
                                Some(
                                    Header {
                                        order: o,
                                        base_type: t,
                                        has_z: word_z(w),
                                        has_m: word_m(w),
                                        srid: spec_read_u32(o, s, 5) as i32,
                                    },
                                )
                            }
                        } else {
                            Some(
                                Header {
                                    order: o,
                                    base_type: t,
                                    has_z: word_z(w),
                                    has_m: word_m(w),
                                    srid: 0,
                                },
                            )
                        }
                    },
                }
            },
        }
    }
}

/// Header length in bytes: 9 with a spatial reference id, else 5.
pub open spec fn spec_header_len(s: Seq<u8>) -> int {
    if s.len() >= 5 && byte_order_of(s[0]) is Some && word_srid(
        spec_read_u32(byte_order_of(s[0])->Some_0, s, 1),
    ) {
        9
    } else {
        5
    }
}

/// Reads the header without decoding the payload.
pub fn read_header(bytes: &Vec<u8>) -> (r: Result<Header, Error>)
    ensures
        match r {
            Ok(h) => spec_header(bytes@) == Some(h),
            Err(e) => spec_header(bytes@) is None && e == Error::MalformedEncoding,
        },
{
    let len = bytes.len();
    if len < 5 {
        return Err(Error::MalformedEncoding);
    }
    let ob = bytes[0];
    let o: ByteOrder = if ob == 0 {
        ByteOrder::Big
    } else if ob == 1 {
        ByteOrder::Little
    } else {
        return Err(Error::MalformedEncoding);
    };
    let w = read_u32_at(bytes, 1, o);
    let t = match type_from_code(w % FLAG_SRID) {
        Some(t) => t,
        None => {
            return Err(Error::MalformedEncoding);
        },
    };
    let z = (w / FLAG_Z) % 2 == 1;
    let m = (w / FLAG_M) % 2 == 1;
    if (w / FLAG_SRID) % 2 == 1 {
        if len < 9 {
            return Err(Error::MalformedEncoding);
        }
        let srid_bits = read_u32_at(bytes, 5, o);
        Ok(Header { order: o, base_type: t, has_z: z, has_m: m, srid: srid_bits as i32 })
    } else {
        Ok(Header { order: o, base_type: t, has_z: z, has_m: m, srid: 0 })
    }
}

/// The spatial reference id in the header, read in constant time.
pub fn get_srid_of(bytes: &Vec<u8>) -> (r: Result<i32, Error>)
    ensures
        match r {
            Ok(srid) => spec_header(bytes@) matches Some(h) && h.srid == srid,
            Err(e) => spec_header(bytes@) is None && e == Error::MalformedEncoding,
        },
{
    match read_header(bytes) {
        Ok(h) => Ok(h.srid),
        Err(e) => Err(e),
    }
}

/// The shape code in the header.
pub fn get_type_id_of(bytes: &Vec<u8>) -> (r: Result<u32, Error>)
    ensures
        match r {
            Ok(c) => spec_header(bytes@) matches Some(h) && c == type_code(h.base_type),
            Err(e) => spec_header(bytes@) is None && e == Error::MalformedEncoding,
        },
{
    match read_header(bytes) {
        Ok(h) => Ok(geom_type_code(h.base_type)),
        Err(e) => Err(e),
    }
}

/// The coordinate arity announced by the header: 2, 3 or 4.
pub fn get_coordinate_dimension_of(bytes: &Vec<u8>) -> (r: Result<u32, Error>)
    ensures
        match r {
            Ok(d) => spec_header(bytes@) matches Some(h) && d == 2 + (if h.has_z {
                1int
            } else {
                0int
            }) + (if h.has_m {
                1int
            } else {
                0int
            }),
            Err(e) => spec_header(bytes@) is None && e == Error::MalformedEncoding,
        },
{
    match read_header(bytes) {
        Ok(h) => {
            let mut d: u32 = 2;
            if h.has_z {
                d = d + 1;
            }
            if h.has_m {
                d = d + 1;
            }
            Ok(d)
        },
        Err(e) => Err(e),
    }
}

/// Rewrites the spatial reference id in the header bits, leaving the
/// payload bytes untouched. When the input decodes, the output decodes to
/// the same node under the new id.
pub fn set_srid_of(bytes: &Vec<u8>, srid: i32) -> (r: Result<Vec<u8>, Error>)
    ensures
        match r {
            Ok(out) => spec_header(bytes@) is Some && (match parse_geometry(bytes@) {
                Some(t) => t.1 == bytes@.len() ==> parse_geometry(out@) == Some(
                    (GeometryV { srid, node: t.0.node }, out@.len() as int),
                ),
                None => true,
            }),
            Err(e) => spec_header(bytes@) is None && e == Error::MalformedEncoding,
        },
{
    let len = bytes.len();
    let h = match read_header(bytes) {
        Ok(h) => h,
        Err(e) => {
            return Err(e);
        },
    };
    let o = h.order;
    let old_hdr: usize = if (read_u32_at(bytes, 1, o) / FLAG_SRID) % 2 == 1 {
        9
    } else {
        5
    };
    let mut out: Vec<u8> = Vec::new();
    out.push(bytes[0]);
    let w2 = make_flags_word(h.base_type, h.has_z, h.has_m, srid != 0);
    push_u32(&mut out, w2, o);
    if srid != 0 {
        push_u32(&mut out, srid as u32, o);
    }
    let ghost pre = out@;
    proof {
        assert(pre =~= seq![bytes@[0]] + spec_u32_bytes(
            o,
            flags_word(h.base_type, h.has_z, h.has_m, srid != 0),
        ) + (if srid != 0 {
            spec_u32_bytes(o, srid as u32)
        } else {
            Seq::<u8>::empty()
        }));
    }
    let mut i: usize = old_hdr;
    while i < len
        invariant
            old_hdr <= i <= len,
            len == bytes@.len(),
            out@ == pre + bytes@.subrange(old_hdr as int, i as int),
        decreases len - i,
    {
        out.push(bytes[i]);
        proof {
            assert(out@ =~= pre + bytes@.subrange(old_hdr as int, i + 1));
        }
        i = i + 1;
    }
    proof {
        assert(out@ =~= pre + bytes@.subrange(old_hdr as int, len as int));
        lemma_set_srid_parse(bytes@, out@, h, srid, old_hdr as int);
    }
    Ok(out)
}

/// Helper for `set_srid_of`: the rebuilt bytes parse to the same node.
proof fn lemma_set_srid_parse(s: Seq<u8>, out: Seq<u8>, h: Header, srid: i32, old_hdr: int)
    requires
        spec_header(s) == Some(h),
        old_hdr == spec_header_len(s),
        out == seq![s[0]] + spec_u32_bytes(
            h.order,
            flags_word(h.base_type, h.has_z, h.has_m, srid != 0),
        ) + (if srid != 0 {
            spec_u32_bytes(h.order, srid as u32)
        } else {
            Seq::<u8>::empty()
        }) + s.subrange(old_hdr, s.len() as int),
    ensures
        match parse_geometry(s) {
            Some(t) => t.1 == s.len() ==> parse_geometry(out) == Some(
                (GeometryV { srid, node: t.0.node }, out.len() as int),
            ),
            None => true,
        },
{
    let o = h.order;
    let w = spec_read_u32(o, s, 1);
    let w2 = flags_word(h.base_type, h.has_z, h.has_m, srid != 0);
    let wb2 = spec_u32_bytes(o, w2);
    let sb2: Seq<u8> = if srid != 0 {
        spec_u32_bytes(o, srid as u32)
    } else {
        Seq::<u8>::empty()
    };
    let payload = s.subrange(old_hdr, s.len() as int);
    lemma_u32_bytes_len(o, w2);
    if srid != 0 {
        lemma_u32_bytes_len(o, srid as u32);
    }
    lemma_flags_word(h.base_type, h.has_z, h.has_m, srid != 0);
    lemma_type_code_small(h.base_type);
    if parse_geometry(s) is Some {
        let (g, used) = parse_geometry(s)->Some_0;
        if used == s.len() {
            // How the original parse went: through `parse_body` on the
            // payload, with the header fields of `h`.
            assert(byte_order_of(s[0]) == Some(o));
            let new_hdr: int = if srid != 0 {
                9
            } else {
                5
            };
            assert(out[0] == s[0]);
            assert(out.subrange(1, 5) =~= wb2);
            lemma_read_u32_concat(o, w2, out, 1);
            if srid != 0 {
                assert(out.subrange(5, 9) =~= sb2);
                lemma_read_u32_concat(o, srid as u32, out, 5);
                let sr: i32 = srid;
                assert((sr as u32) as i32 == sr) by (bit_vector);
            }
            assert(out.subrange(new_hdr, out.len() as int) =~= payload);
            if word_srid(w) {
                assert(parse_body(h.base_type, h.has_z, h.has_m, o, s.subrange(9, s.len() as int))
                    == Some((g.node.kind, used - 9)));
            } else {
                // The srid-less path reads through `parse_node`.
                assert(parse_node(s) == Some((g.node, used)));
                assert(s.subrange(5, s.len() as int) =~= payload);
            }
            assert(parse_body(h.base_type, h.has_z, h.has_m, o, payload) == Some(
                (g.node.kind, s.len() - old_hdr),
            ));
            let ndv = NodeV { has_z: h.has_z, has_m: h.has_m, kind: g.node.kind };
            assert(ndv == g.node);
            if srid != 0 {
                assert(parse_geometry(out) == Some(
                    (GeometryV { srid, node: g.node }, out.len() as int),
                ));
            } else {
                assert(parse_node(out) == Some((g.node, out.len() as int)));
            }
        }
    }
}

/// The geometry a cell holds, when the whole cell is one valid encoding.
pub open spec fn cell_geom(c: Seq<u8>) -> Option<GeometryV> {
    match parse_geometry(c) {
        Some(t) => if t.1 == c.len() {
            Some(t.0)
        } else {
            None
        },
        None => None,
    }
}

/// Round trip: a well-formed geometry, encoded in the interchange form
/// (spatial reference id included), parses back value-equal — the same
/// variant, flags, coordinates and id — consuming the whole encoding.
pub proof fn lemma_round_trip(g: GeometryV, o: ByteOrder)
    requires
        geometry_wf(g),
    ensures
        parse_geometry(spec_encode_geometry(g, o, true)) == Some(
            (g, spec_encode_geometry(g, o, true).len() as int),
        ),
{
    lemma_parse_encode_geometry(g, o, true);
    if g.srid == 0 {
        assert(GeometryV { srid: 0, node: g.node } == g);
    }
}

/// What a successful geometry parse guarantees.
pub proof fn lemma_parse_geometry_props(s: Seq<u8>)
    requires
        parse_geometry(s) is Some,
    ensures
        ({
            let (g, u) = parse_geometry(s)->Some_0;
            &&& 5 <= u <= s.len()
            &&& geometry_wf(g)
        }),
{
    let o = byte_order_of(s[0])->Some_0;
    let w = spec_read_u32(o, s, 1);
    if word_srid(w) {
        let t = code_type(word_base(w))->Some_0;
        lemma_parse_body_props(t, word_z(w), word_m(w), o, s.subrange(9, s.len() as int));
    } else {
        lemma_parse_node_props(s);
    }
}

} // verus!
