//! Flattening a contour list for transfer across a host boundary: an
//! interleaved scalar buffer plus a parallel offsets array, so a caller
//! can slice per-contour coordinate ranges without nested structures.

use vstd::prelude::*;

use crate::region_labelling::Point;

verus! {

/// Scalars (two per point) contributed by the first `i` contours.
pub open spec fn scalar_count(cs: Seq<Seq<Point<u32>>>, i: int) -> int
    decreases i,
{
    if i <= 0 {
        0
    } else {
        scalar_count(cs, i - 1) + 2 * cs[i - 1].len()
    }
}

/// The cumulative scalar count never shrinks as contours are added.
proof fn lemma_scalar_count_monotone(cs: Seq<Seq<Point<u32>>>, i: int, j: int)
    requires
        0 <= i <= j,
    ensures
        scalar_count(cs, i) <= scalar_count(cs, j),
    decreases j,
{
    if i < j {
        lemma_scalar_count_monotone(cs, i, j - 1);
    }
}

/// Flattens a contour list into an interleaved x, y scalar buffer plus
/// the offsets array whose entry `i` is the cumulative scalar count
/// through contour `i`. Returns `None` exactly when the total scalar
/// count would not fit in a `usize`.
pub fn flatten_contours(contours: &Vec<Vec<Point<u32>>>) -> (r: Option<(Vec<usize>, Vec<u32>)>)
    ensures
        (r is Some) == (scalar_count(contours.deep_view(), contours.deep_view().len() as int)
            <= usize::MAX),
        r matches Some(flat) ==> {
            let cs = contours.deep_view();
            &&& flat.0@.len() == cs.len()
            &&& forall|i: int| 0 <= i < cs.len() ==> flat.0@[i] == scalar_count(cs, i + 1)
            &&& flat.1@.len() == scalar_count(cs, cs.len() as int)
            &&& forall|i: int, j: int|
                0 <= i < cs.len() && 0 <= j < cs[i].len() ==> flat.1@[scalar_count(cs, i) + 2 * j]
                    == cs[i][j].x && flat.1@[scalar_count(cs, i) + 2 * j + 1] == cs[i][j].y
        },
{
    let ghost cs = contours.deep_view();
    let n = contours.len();
    let mut border_indexes: Vec<usize> = Vec::new();
    let mut border_points: Vec<u32> = Vec::new();
    let mut i: usize = 0;
    while i < n
        invariant
            cs == contours.deep_view(),
            n == contours@.len(),
            cs.len() == contours@.len(),
            i <= n,
            border_points@.len() == scalar_count(cs, i as int),
            border_indexes@.len() == i,
            forall|k: int| 0 <= k < i ==> border_indexes@[k] == scalar_count(cs, k + 1),
            forall|k: int, j: int|
                0 <= k < i && 0 <= j < cs[k].len() ==> border_points@[scalar_count(cs, k) + 2 * j]
                    == cs[k][j].x && border_points@[scalar_count(cs, k) + 2 * j + 1] == cs[k][j].y,
        decreases n - i,
    {
        let contour = &contours[i];
        proof {
            assert(cs[i as int] == contour.deep_view());
            assert forall|j: int| 0 <= j < contour@.len() implies contour.deep_view()[j]
                == contour@[j] by {}
        }
        let len = contour.len();
        let cur = border_points.len();
        if len > (usize::MAX - cur) / 2 {
            proof {
                assert(2 * ((usize::MAX - cur) / 2) >= usize::MAX - cur - 1);
                assert(cs[i as int].len() == len);
                assert(scalar_count(cs, i + 1) == scalar_count(cs, i as int) + 2 * cs[i as int].len());
                assert(scalar_count(cs, i + 1) > usize::MAX);
                lemma_scalar_count_monotone(cs, i + 1, cs.len() as int);
            }
            return None;
        }
        let mut j: usize = 0;
        while j < len
            invariant
                cs == contours.deep_view(),
                i < contours@.len(),
                cs[i as int] == contour.deep_view(),
                contour@ == contours@[i as int]@,
                forall|jj: int| 0 <= jj < contour@.len() ==> cs[i as int][jj] == contour@[jj],
                len == contour@.len(),
                j <= len,
                2 * len <= usize::MAX - cur,
                cur == scalar_count(cs, i as int),
                border_points@.len() == cur + 2 * j,
                border_indexes@.len() == i,
                forall|k: int| 0 <= k < i ==> border_indexes@[k] == scalar_count(cs, k + 1),
                forall|k: int, jj: int|
                    0 <= k < i && 0 <= jj < cs[k].len() ==> border_points@[scalar_count(cs, k) + 2
                        * jj] == cs[k][jj].x && border_points@[scalar_count(cs, k) + 2 * jj + 1]
                        == cs[k][jj].y,
                forall|jj: int|
                    0 <= jj < j ==> border_points@[cur + 2 * jj] == cs[i as int][jj].x
                        && border_points@[cur + 2 * jj + 1] == cs[i as int][jj].y,
            decreases len - j,
        {
            let p = contour[j];
            let ghost bp_prev = border_points@;
            border_points.push(p.x);
            border_points.push(p.y);
            proof {
                assert(border_points@ == bp_prev.push(p.x).push(p.y));
                assert forall|k: int, jj: int|
                    0 <= k < i && 0 <= jj < cs[k].len() implies border_points@[scalar_count(cs, k)
                    + 2 * jj] == cs[k][jj].x && border_points@[scalar_count(cs, k) + 2 * jj + 1]
                    == cs[k][jj].y by {
                    assert(scalar_count(cs, k + 1) == scalar_count(cs, k) + 2 * cs[k].len());
                    lemma_scalar_count_monotone(cs, 0, k);
                    lemma_scalar_count_monotone(cs, k + 1, i as int);
                    assert(bp_prev[scalar_count(cs, k) + 2 * jj] == cs[k][jj].x);
                    assert(bp_prev[scalar_count(cs, k) + 2 * jj + 1] == cs[k][jj].y);
                }
                assert forall|jj: int|
                    0 <= jj < j + 1 implies border_points@[cur + 2 * jj] == cs[i as int][jj].x
                    && border_points@[cur + 2 * jj + 1] == cs[i as int][jj].y by {
                    if jj < j {
                        assert(bp_prev[cur + 2 * jj] == cs[i as int][jj].x);
                        assert(bp_prev[cur + 2 * jj + 1] == cs[i as int][jj].y);
                    } else {
                        assert(border_points@[cur + 2 * jj] == p.x);
                        assert(border_points@[cur + 2 * jj + 1] == p.y);
                        assert(cs[i as int][jj] == contour@[jj]);
                    }
                }
            }
            j = j + 1;
        }
        border_indexes.push(border_points.len());
        proof {
            assert(scalar_count(cs, i + 1) == scalar_count(cs, i as int) + 2 * cs[i as int].len());
        }
        i = i + 1;
    }
    let total = border_points.len();
    proof {
        assert(total as int == scalar_count(cs, cs.len() as int));
        assert(scalar_count(cs, cs.len() as int) <= usize::MAX);
    }
    Some((border_indexes, border_points))
}

} // verus!
