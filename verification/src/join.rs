//! The spatial-join engine over binary geometry columns.
//!
//! Build phase: every non-null left cell is decoded and its bounding box
//! kept, tagged with its row. Probe phase: every non-null right cell, in
//! row order, is decoded and held against every boxed left row in row
//! order; overlapping boxes emit the pair. The emitted pairs are exactly
//! the cross product restricted to box overlap, right row ascending and
//! left row ascending within one right row. Null rows never pair, and the
//! first undecodable cell aborts the whole call with no partial result.

use vstd::prelude::*;
use crate::bbox::{boxes_overlap, boxes_overlap_exec, node_bbox, node_bbox_exec, BoundingBox};
use crate::codec::{cell_geom, decode_geometry, parse_geometry, seq_add_assoc};
use crate::error::Error;
use crate::geometry::GeometryV;

verus! {

/// A cell that is null or holds one valid encoding.
pub open spec fn cell_ok(cell: Option<Vec<u8>>) -> bool {
    match cell {
        None => true,
        Some(c) => cell_geom(c@) is Some,
    }
}

/// The bounding box of a non-null, decodable cell.
pub open spec fn row_box(cell: Option<Vec<u8>>) -> Option<BoundingBox> {
    match cell {
        None => None,
        Some(c) => node_bbox(cell_geom(c@)->Some_0.node),
    }
}

/// Whether rows `i` and `j` pair up: both present, both boxed, overlapping.
pub open spec fn pair_matches(
    left: Seq<Option<Vec<u8>>>,
    right: Seq<Option<Vec<u8>>>,
    i: int,
    j: int,
) -> bool {
    &&& 0 <= i < left.len()
    &&& 0 <= j < right.len()
    &&& left[i] is Some
    &&& right[j] is Some
    &&& match (row_box(left[i]), row_box(right[j])) {
        (Some(a), Some(b)) => boxes_overlap(a, b),
        _ => false,
    }
}

/// The pairs of right row `j` with left rows below `upto_i`, ascending.
pub open spec fn row_pairs(
    left: Seq<Option<Vec<u8>>>,
    right: Seq<Option<Vec<u8>>>,
    j: int,
    upto_i: int,
) -> Seq<(u32, u32)>
    decreases upto_i,
{
    if upto_i <= 0 {
        Seq::empty()
    } else {
        row_pairs(left, right, j, upto_i - 1) + (if pair_matches(left, right, upto_i - 1, j) {
            seq![(((upto_i - 1) as u32), (j as u32))]
        } else {
            Seq::empty()
        })
    }
}

/// All pairs of right rows below `upto_j`, right row ascending.
pub open spec fn all_pairs(
    left: Seq<Option<Vec<u8>>>,
    right: Seq<Option<Vec<u8>>>,
    upto_j: int,
) -> Seq<(u32, u32)>
    decreases upto_j,
{
    if upto_j <= 0 {
        Seq::empty()
    } else {
        all_pairs(left, right, upto_j - 1) + row_pairs(left, right, upto_j - 1, left.len() as int)
    }
}

/// The two index columns zipped into pairs.
pub open spec fn pairs_of(li: Seq<u32>, ri: Seq<u32>) -> Seq<(u32, u32)> {
    Seq::new(li.len(), |k: int| (li[k], ri[k]))
}

/// Every emitted pair of one right row satisfies the box predicate, and the
/// left indices ascend.
pub proof fn lemma_row_pairs_sound(
    left: Seq<Option<Vec<u8>>>,
    right: Seq<Option<Vec<u8>>>,
    j: int,
    upto_i: int,
)
    requires
        0 <= j <= 0xffff_ffff,
        upto_i <= 0x1_0000_0000,
    ensures
        forall|k: int| 0 <= k < row_pairs(left, right, j, upto_i).len() ==> {
            let p = #[trigger] row_pairs(left, right, j, upto_i)[k];
            &&& pair_matches(left, right, p.0 as int, p.1 as int)
            &&& p.1 == j
            &&& p.0 < upto_i
        },
        forall|k1: int, k2: int|
            0 <= k1 < k2 < row_pairs(left, right, j, upto_i).len() ==> #[trigger] row_pairs(
                left,
                right,
                j,
                upto_i,
            )[k1].0 < #[trigger] row_pairs(left, right, j, upto_i)[k2].0,
    decreases upto_i,
{
    if upto_i > 0 {
        lemma_row_pairs_sound(left, right, j, upto_i - 1);
        let ps = row_pairs(left, right, j, upto_i);
        let pre = row_pairs(left, right, j, upto_i - 1);
        assert forall|k: int| 0 <= k < ps.len() implies {
            let p = #[trigger] ps[k];
            &&& pair_matches(left, right, p.0 as int, p.1 as int)
            &&& p.1 == j
            &&& p.0 < upto_i
        } by {
            if k < pre.len() {
                assert(ps[k] == pre[k]);
            } else {
                assert(pair_matches(left, right, upto_i - 1, j));
                assert(ps[k] == (((upto_i - 1) as u32), (j as u32)));
            }
        }
        assert forall|k1: int, k2: int| 0 <= k1 < k2 < ps.len() implies #[trigger] ps[k1].0
            < #[trigger] ps[k2].0 by {
            if k2 < pre.len() {
                assert(ps[k1] == pre[k1] && ps[k2] == pre[k2]);
            } else {
                assert(ps[k1] == pre[k1]);
                assert(pre[k1].0 < upto_i - 1);
                assert(ps[k2] == (((upto_i - 1) as u32), (j as u32)));
            }
        }
    }
}

/// Every matching pair of one right row is emitted.
pub proof fn lemma_row_pairs_complete(
    left: Seq<Option<Vec<u8>>>,
    right: Seq<Option<Vec<u8>>>,
    j: int,
    upto_i: int,
    i: int,
)
    requires
        0 <= i < upto_i,
        pair_matches(left, right, i, j),
    ensures
        row_pairs(left, right, j, upto_i).contains((i as u32, j as u32)),
    decreases upto_i,
{
    let ps = row_pairs(left, right, j, upto_i);
    let pre = row_pairs(left, right, j, upto_i - 1);
    if i == upto_i - 1 {
        assert(ps[pre.len() as int] == (i as u32, j as u32));
    } else {
        lemma_row_pairs_complete(left, right, j, upto_i - 1, i);
        let k = choose|k: int| 0 <= k < pre.len() && pre[k] == (i as u32, j as u32);
        assert(ps[k] == (i as u32, j as u32));
    }
}

/// Soundness and ordering of the whole emission.
pub proof fn lemma_all_pairs_sound(
    left: Seq<Option<Vec<u8>>>,
    right: Seq<Option<Vec<u8>>>,
    upto_j: int,
)
    requires
        left.len() <= 0xffff_ffff,
        upto_j <= 0x1_0000_0000,
    ensures
        forall|k: int| 0 <= k < all_pairs(left, right, upto_j).len() ==> {
            let p = #[trigger] all_pairs(left, right, upto_j)[k];
            &&& pair_matches(left, right, p.0 as int, p.1 as int)
            &&& p.1 < upto_j
        },
        forall|k1: int, k2: int|
            0 <= k1 < k2 < all_pairs(left, right, upto_j).len() ==> {
                let p1 = #[trigger] all_pairs(left, right, upto_j)[k1];
                let p2 = #[trigger] all_pairs(left, right, upto_j)[k2];
                p1.1 < p2.1 || (p1.1 == p2.1 && p1.0 < p2.0)
            },
    decreases upto_j,
{
    if upto_j > 0 {
        lemma_all_pairs_sound(left, right, upto_j - 1);
        lemma_row_pairs_sound(left, right, upto_j - 1, left.len() as int);
        let ps = all_pairs(left, right, upto_j);
        let pre = all_pairs(left, right, upto_j - 1);
        let row = row_pairs(left, right, upto_j - 1, left.len() as int);
        assert forall|k: int| 0 <= k < ps.len() implies {
            let p = #[trigger] ps[k];
            &&& pair_matches(left, right, p.0 as int, p.1 as int)
            &&& p.1 < upto_j
        } by {
            if k < pre.len() {
                assert(ps[k] == pre[k]);
            } else {
                assert(ps[k] == row[k - pre.len()]);
            }
        }
        assert forall|k1: int, k2: int| 0 <= k1 < k2 < ps.len() implies {
            let p1 = #[trigger] ps[k1];
            let p2 = #[trigger] ps[k2];
            p1.1 < p2.1 || (p1.1 == p2.1 && p1.0 < p2.0)
        } by {
            if k2 < pre.len() {
                assert(ps[k1] == pre[k1] && ps[k2] == pre[k2]);
            } else if k1 < pre.len() {
                assert(ps[k1] == pre[k1]);
                assert(ps[k2] == row[k2 - pre.len()]);
                assert(pre[k1].1 < upto_j - 1);
                assert(row[k2 - pre.len()].1 == upto_j - 1);
            } else {
                assert(ps[k1] == row[k1 - pre.len()]);
                assert(ps[k2] == row[k2 - pre.len()]);
            }
        }
    }
}

/// Completeness of the whole emission: every matching pair is in it.
pub proof fn lemma_all_pairs_complete(
    left: Seq<Option<Vec<u8>>>,
    right: Seq<Option<Vec<u8>>>,
    upto_j: int,
    i: int,
    j: int,
)
    requires
        0 <= j < upto_j,
        pair_matches(left, right, i, j),
    ensures
        all_pairs(left, right, upto_j).contains((i as u32, j as u32)),
    decreases upto_j,
{
    let ps = all_pairs(left, right, upto_j);
    let pre = all_pairs(left, right, upto_j - 1);
    if j == upto_j - 1 {
        lemma_row_pairs_complete(left, right, j, left.len() as int, i);
        let row = row_pairs(left, right, j, left.len() as int);
        let k = choose|k: int| 0 <= k < row.len() && row[k] == (i as u32, j as u32);
        assert(ps[pre.len() + k] == (i as u32, j as u32));
    } else {
        lemma_all_pairs_complete(left, right, upto_j - 1, i, j);
        let k = choose|k: int| 0 <= k < pre.len() && pre[k] == (i as u32, j as u32);
        assert(ps[k] == (i as u32, j as u32));
    }
}

/// The index-accelerated spatial join on the box-overlap predicate.
///
/// Returns two equal-length row-index columns: the emitted pairs are
/// exactly the cross product of non-null rows restricted to bounding-box
/// overlap, ordered by right row and then by left row. Fails with
/// `MalformedEncoding`, returning nothing, as soon as any non-null cell of
/// either column does not decode.
pub fn sjoin(left: &Vec<Option<Vec<u8>>>, right: &Vec<Option<Vec<u8>>>) -> (r: Result<
    (Vec<u32>, Vec<u32>),
    Error,
>)
    requires
        left@.len() <= 0xffff_ffff,
        right@.len() <= 0xffff_ffff,
    ensures
        match r {
            Ok(out) => {
                &&& out.0@.len() == out.1@.len()
                &&& pairs_of(out.0@, out.1@) == all_pairs(left@, right@, right@.len() as int)
                &&& forall|i: int| 0 <= i < left@.len() ==> cell_ok(#[trigger] left@[i])
                &&& forall|j: int| 0 <= j < right@.len() ==> cell_ok(#[trigger] right@[j])
            },
            Err(e) => {
                &&& e == Error::MalformedEncoding
                &&& (exists|i: int| 0 <= i < left@.len() && !cell_ok(#[trigger] left@[i])) || (
                exists|j: int| 0 <= j < right@.len() && !cell_ok(#[trigger] right@[j]))
            },
        },
{
    let nl = left.len();
    let nr = right.len();
    // Build phase: one box per left row.
    let mut boxes: Vec<Option<Option<BoundingBox>>> = Vec::new();
    let mut i: usize = 0;
    while i < nl
        invariant
            0 <= i <= nl,
            nl == left@.len(),
            boxes@.len() == i,
            forall|k: int| 0 <= k < i ==> cell_ok(#[trigger] left@[k]),
            forall|k: int| 0 <= k < i ==> (#[trigger] boxes@[k]) == (match left@[k] {
                Option::None => Option::<Option<BoundingBox>>::None,
                Option::Some(_) => Option::Some(row_box(left@[k])),
            }),
        decreases nl - i,
    {
        match &left[i] {
            None => {
                boxes.push(None);
            },
            Some(cell) => {
                match decode_geometry(cell) {
                    Err(e) => {
                        proof {
                            assert(!cell_ok(left@[i as int]));
                        }
                        return Err(Error::MalformedEncoding);
                    },
                    Ok(g) => {
                        boxes.push(Some(node_bbox_exec(&g.node)));
                    },
                }
            },
        }
        i = i + 1;
    }
    // Probe phase: right rows ascending, left rows ascending within one.
    let mut li: Vec<u32> = Vec::new();
    let mut ri: Vec<u32> = Vec::new();
    let mut j: usize = 0;
    while j < nr
        invariant
            0 <= j <= nr,
            nl == left@.len(),
            nr == right@.len(),
            nl <= 0xffff_ffff,
            nr <= 0xffff_ffff,
            boxes@.len() == nl,
            forall|k: int| 0 <= k < nl ==> cell_ok(#[trigger] left@[k]),
            forall|k: int| 0 <= k < nl ==> (#[trigger] boxes@[k]) == (match left@[k] {
                Option::None => Option::<Option<BoundingBox>>::None,
                Option::Some(_) => Option::Some(row_box(left@[k])),
            }),
            forall|k: int| 0 <= k < j ==> cell_ok(#[trigger] right@[k]),
            li@.len() == ri@.len(),
            pairs_of(li@, ri@) == all_pairs(left@, right@, j as int),
        decreases nr - j,
    {
        match &right[j] {
            None => {
                proof {
                    assert(row_pairs(left@, right@, j as int, 0) =~= Seq::<(u32, u32)>::empty());
                    lemma_row_pairs_empty_right(left@, right@, j as int, nl as int);
                    assert(pairs_of(li@, ri@) =~= all_pairs(left@, right@, j + 1));
                }
            },
            Some(cell) => {
                let g = match decode_geometry(cell) {
                    Err(_) => {
                        proof {
                            assert(!cell_ok(right@[j as int]));
                        }
                        return Err(Error::MalformedEncoding);
                    },
                    Ok(g) => g,
                };
                let rb = node_bbox_exec(&g.node);
                let mut i2: usize = 0;
                while i2 < nl
                    invariant
                        0 <= i2 <= nl,
                        j < nr,
                        nl == left@.len(),
                        nr == right@.len(),
                        nl <= 0xffff_ffff,
                        nr <= 0xffff_ffff,
                        boxes@.len() == nl,
                        forall|k: int| 0 <= k < nl ==> cell_ok(#[trigger] left@[k]),
                        forall|k: int| 0 <= k < nl ==> (#[trigger] boxes@[k]) == (match left@[k] {
                            Option::None => Option::<Option<BoundingBox>>::None,
                            Option::Some(_) => Option::Some(row_box(left@[k])),
                        }),
                        right@[j as int] is Some,
                        cell_ok(right@[j as int]),
                        rb == row_box(right@[j as int]),
                        li@.len() == ri@.len(),
                        pairs_of(li@, ri@) == all_pairs(left@, right@, j as int) + row_pairs(
                            left@,
                            right@,
                            j as int,
                            i2 as int,
                        ),
                    decreases nl - i2,
                {
                    let emit: bool = match (&boxes[i2], &rb) {
                        (Some(Some(lb)), Some(rbb)) => boxes_overlap_exec(lb, rbb),
                        _ => false,
                    };
                    proof {
                        assert(emit == pair_matches(left@, right@, i2 as int, j as int));
                    }
                    if emit {
                        li.push(i2 as u32);
                        ri.push(j as u32);
                        proof {
                            assert(row_pairs(left@, right@, j as int, i2 + 1) == row_pairs(
                                left@,
                                right@,
                                j as int,
                                i2 as int,
                            ) + seq![((i2 as u32), (j as u32))]);
                            seq_add_assoc(
                                all_pairs(left@, right@, j as int),
                                row_pairs(left@, right@, j as int, i2 as int),
                                seq![((i2 as u32), (j as u32))],
                            );
                            assert(pairs_of(li@, ri@) =~= all_pairs(left@, right@, j as int)
                                + row_pairs(left@, right@, j as int, i2 + 1));
                        }
                    } else {
                        proof {
                            assert(row_pairs(left@, right@, j as int, i2 + 1) =~= row_pairs(
                                left@,
                                right@,
                                j as int,
                                i2 as int,
                            ));
                        }
                    }
                    i2 = i2 + 1;
                }
                proof {
                    assert(pairs_of(li@, ri@) =~= all_pairs(left@, right@, j + 1));
                }
            },
        }
        j = j + 1;
    }
    Ok((li, ri))
}

/// A null right row emits nothing.
proof fn lemma_row_pairs_empty_right(
    left: Seq<Option<Vec<u8>>>,
    right: Seq<Option<Vec<u8>>>,
    j: int,
    upto_i: int,
)
    requires
        0 <= j < right.len(),
        right[j] is None,
    ensures
        row_pairs(left, right, j, upto_i) == Seq::<(u32, u32)>::empty(),
    decreases upto_i,
{
    if upto_i > 0 {
        lemma_row_pairs_empty_right(left, right, j, upto_i - 1);
        assert(row_pairs(left, right, j, upto_i) =~= Seq::<(u32, u32)>::empty());
    }
}

/// Keeps the pairs whose exact-predicate outcome is true, in order. The
/// outcome column is row-aligned with the pair list.
pub fn filter_pairs(li: &Vec<u32>, ri: &Vec<u32>, keep: &Vec<bool>) -> (out: (Vec<u32>, Vec<u32>))
    requires
        li@.len() == ri@.len(),
        keep@.len() == li@.len(),
    ensures
        out.0@.len() == out.1@.len(),
        pairs_of(out.0@, out.1@) == kept_pairs(li@, ri@, keep@, li@.len() as int),
{
    let n = li.len();
    let mut lo: Vec<u32> = Vec::new();
    let mut ro: Vec<u32> = Vec::new();
    let mut k: usize = 0;
    while k < n
        invariant
            0 <= k <= n,
            n == li@.len(),
            n == ri@.len(),
            n == keep@.len(),
            lo@.len() == ro@.len(),
            pairs_of(lo@, ro@) == kept_pairs(li@, ri@, keep@, k as int),
        decreases n - k,
    {
        if keep[k] {
            lo.push(li[k]);
            ro.push(ri[k]);
        }
        proof {
            assert(pairs_of(lo@, ro@) =~= kept_pairs(li@, ri@, keep@, k + 1));
        }
        k = k + 1;
    }
    (lo, ro)
}

/// The pairs below `upto` whose outcome is true.
pub open spec fn kept_pairs(li: Seq<u32>, ri: Seq<u32>, keep: Seq<bool>, upto: int) -> Seq<
    (u32, u32),
>
    decreases upto,
{
    if upto <= 0 {
        Seq::empty()
    } else {
        kept_pairs(li, ri, keep, upto - 1) + (if keep[upto - 1] {
            seq![(li[upto - 1], ri[upto - 1])]
        } else {
            Seq::empty()
        })
    }
}

/// A pair that stands at some input position whose outcome was true.
pub open spec fn selected_pair(li: Seq<u32>, ri: Seq<u32>, keep: Seq<bool>, p: (u32, u32)) -> bool {
    exists|k0: int| 0 <= k0 < li.len() && #[trigger] keep[k0] && p == (li[k0], ri[k0])
}

/// Every kept pair was an input pair whose outcome was true: the join is
/// sound with respect to whatever exact predicate produced the outcomes.
pub proof fn lemma_kept_pairs_sound(li: Seq<u32>, ri: Seq<u32>, keep: Seq<bool>, upto: int)
    requires
        li.len() == ri.len(),
        keep.len() == li.len(),
        upto <= li.len(),
    ensures
        forall|k: int| 0 <= k < kept_pairs(li, ri, keep, upto).len() ==> selected_pair(
            li,
            ri,
            keep,
            #[trigger] kept_pairs(li, ri, keep, upto)[k],
        ),
    decreases upto,
{
    if upto > 0 {
        lemma_kept_pairs_sound(li, ri, keep, upto - 1);
        let ps = kept_pairs(li, ri, keep, upto);
        let pre = kept_pairs(li, ri, keep, upto - 1);
        assert forall|k: int| 0 <= k < ps.len() implies selected_pair(
            li,
            ri,
            keep,
            #[trigger] ps[k],
        ) by {
            if k < pre.len() {
                assert(ps[k] == pre[k]);
            } else {
                assert(ps[k] == (li[upto - 1], ri[upto - 1]));
                assert(0 <= upto - 1 < li.len() && keep[upto - 1] && ps[k] == (
                    li[upto - 1],
                    ri[upto - 1],
                ));
            }
        }
    }
}

} // verus!
