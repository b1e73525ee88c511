//! Boundary tracing: a turtle walk around one region's edge, with the
//! stopping test on the full cursor (position and heading both).

use vstd::prelude::*;
use vstd::set_lib::{lemma_int_range, lemma_len_subset, set_int_range};

use crate::raster::{GridView, Raster};
use crate::region_labelling::turtle::{
    heading_index, start_cursor, CursorView, Heading, Turtle,
};
use crate::region_labelling::Point;

verus! {

/// A candidate passes the foreground test when it lies inside the raster
/// and holds the traced color. Out-of-bounds candidates simply fail.
pub open spec fn accepts(g: GridView, fg: u32, c: CursorView) -> bool {
    g.in_bounds(c.x, c.y) && g.pixel(c.x, c.y) == fg
}

/// Pixel coordinates under a cursor.
pub open spec fn cursor_point(c: CursorView) -> Point<u32>
    recommends
        0 <= c.x <= u32::MAX,
        0 <= c.y <= u32::MAX,
{
    Point { x: c.x as u32, y: c.y as u32 }
}

/// One transition of the walk: advance through an accepted candidate, or
/// pivot to the fallback candidate of a rejected one.
#[verifier::opaque]
pub open spec fn advance(g: GridView, fg: u32, c: CursorView) -> CursorView {
    if accepts(g, fg, c) {
        c.preferred()
    } else {
        c.fallback()
    }
}

/// Points accumulated once the walk has examined candidate `c`: an accepted
/// candidate is appended unless its pixel was already collected.
pub open spec fn collect(g: GridView, fg: u32, c: CursorView, acc: Seq<Point<u32>>) -> Seq<
    Point<u32>,
> {
    if accepts(g, fg, c) && !acc.contains(cursor_point(c)) {
        acc.push(cursor_point(c))
    } else {
        acc
    }
}

/// The walk examining candidate `next`, with `fuel` transitions still
/// allowed: `Some(points)` when it reaches the start cursor again within
/// the fuel, `None` when the fuel runs out first.
#[verifier::opaque]
pub open spec fn run_trace(
    g: GridView,
    fg: u32,
    start: CursorView,
    next: CursorView,
    acc: Seq<Point<u32>>,
    fuel: nat,
) -> Option<Seq<Point<u32>>>
    decreases fuel,
{
    if next == start {
        Some(acc)
    } else if fuel == 0 {
        None
    } else {
        run_trace(g, fg, start, advance(g, fg, next), collect(g, fg, next, acc), (fuel - 1) as nat)
    }
}

/// The accumulator a trace starts from: the seed pixel alone.
pub open spec fn seed_acc(sx: int, sy: int) -> Seq<Point<u32>> {
    seq![cursor_point(start_cursor(sx, sy))]
}

/// Whether the walk from seed (sx, sy) returns to its start cursor within
/// some amount of fuel.
pub open spec fn trace_terminates(g: GridView, fg: u32, sx: int, sy: int) -> bool {
    exists|fuel: nat|
        (#[trigger] run_trace(
            g,
            fg,
            start_cursor(sx, sy),
            start_cursor(sx, sy).preferred(),
            seed_acc(sx, sy),
            fuel,
        )) is Some
}

/// The contour traced from seed (sx, sy): the seed pixel first, then every
/// pixel in the order the walk first accepts it, each recorded once.
pub open spec fn trace_spec(g: GridView, fg: u32, sx: int, sy: int) -> Seq<Point<u32>> {
    let start = start_cursor(sx, sy);
    let fuel = choose|fuel: nat|
        (#[trigger] run_trace(g, fg, start, start.preferred(), seed_acc(sx, sy), fuel)) is Some;
    match run_trace(g, fg, start, start.preferred(), seed_acc(sx, sy), fuel) {
        Some(points) => points,
        None => seed_acc(sx, sy),
    }
}

/// Extra fuel never changes a walk that already finished.
proof fn lemma_run_trace_monotone(
    g: GridView,
    fg: u32,
    start: CursorView,
    next: CursorView,
    acc: Seq<Point<u32>>,
    fuel1: nat,
    fuel2: nat,
)
    requires
        run_trace(g, fg, start, next, acc, fuel1) is Some,
        fuel1 <= fuel2,
    ensures
        run_trace(g, fg, start, next, acc, fuel2) == run_trace(g, fg, start, next, acc, fuel1),
    decreases fuel1,
{
    reveal_with_fuel(run_trace, 2);
    if next != start {
        lemma_run_trace_monotone(
            g,
            fg,
            start,
            advance(g, fg, next),
            collect(g, fg, next, acc),
            (fuel1 - 1) as nat,
            (fuel2 - 1) as nat,
        );
    }
}

/// Any fuel that finishes the walk names the contour `trace_spec` yields.
pub proof fn lemma_trace_spec_run(g: GridView, fg: u32, sx: int, sy: int, fuel: nat)
    requires
        run_trace(
            g,
            fg,
            start_cursor(sx, sy),
            start_cursor(sx, sy).preferred(),
            seed_acc(sx, sy),
            fuel,
        ) is Some,
    ensures
        trace_terminates(g, fg, sx, sy),
        run_trace(
            g,
            fg,
            start_cursor(sx, sy),
            start_cursor(sx, sy).preferred(),
            seed_acc(sx, sy),
            fuel,
        ) == Some(trace_spec(g, fg, sx, sy)),
{
    let start = start_cursor(sx, sy);
    let chosen = choose|f: nat|
        (#[trigger] run_trace(g, fg, start, start.preferred(), seed_acc(sx, sy), f)) is Some;
    if chosen <= fuel {
        lemma_run_trace_monotone(
            g,
            fg,
            start,
            start.preferred(),
            seed_acc(sx, sy),
            chosen,
            fuel,
        );
    } else {
        lemma_run_trace_monotone(
            g,
            fg,
            start,
            start.preferred(),
            seed_acc(sx, sy),
            fuel,
            chosen,
        );
    }
}

/// The j-th candidate examined while the walk pivots around an accepted
/// cursor `c`: first the preferred candidate, then successive fallbacks.
pub open spec fn ring(c: CursorView, j: nat) -> CursorView
    decreases j,
{
    if j == 0 {
        c.preferred()
    } else {
        ring(c, (j - 1) as nat).fallback()
    }
}

/// After three fallbacks the pivot examines its own cell again, so a walk
/// sitting on a foreground pixel can reject at most three candidates in a
/// row.
proof fn lemma_ring_closes(c: CursorView)
    ensures
        ring(c, 3).x == c.x,
        ring(c, 3).y == c.y,
{
    reveal_with_fuel(ring, 5);
    assert(ring(c, 3) == c.preferred().fallback().fallback().fallback());
}

/// Cursor positions the walk can ever examine: at most two cells beyond
/// the raster on each side.
pub open spec fn in_box(g: GridView, c: CursorView) -> bool {
    &&& -2 <= c.x <= g.width + 1
    &&& -2 <= c.y <= g.height + 1
}

/// Every pivot candidate stays within two cells of the pivot.
proof fn lemma_ring_in_box(g: GridView, c: CursorView, j: nat)
    requires
        g.in_bounds(c.x, c.y),
        j < 4,
    ensures
        in_box(g, ring(c, j)),
{
    reveal_with_fuel(ring, 5);
    assert(ring(c, 0) == c.preferred());
    assert(ring(c, 1) == c.preferred().fallback());
    assert(ring(c, 2) == c.preferred().fallback().fallback());
    assert(ring(c, 3) == c.preferred().fallback().fallback().fallback());
}

/// One walk transition is injective: two distinct cursors never advance to
/// the same cursor. Whether a cursor accepts depends on its position only,
/// and the two rotations land in headings a half turn apart.
proof fn lemma_advance_injective(g: GridView, fg: u32, a: CursorView, b: CursorView)
    requires
        advance(g, fg, a) == advance(g, fg, b),
    ensures
        a == b,
{
    reveal(advance);
    if accepts(g, fg, a) != accepts(g, fg, b) {
        assert(a.x == b.x && a.y == b.y);
        assert(false);
    }
}

/// Number of distinct cursor states over the box around a raster.
pub open spec fn state_count(g: GridView) -> int {
    (g.width + 4) * (g.height + 4) * 8
}

/// Injective encoding of a boxed cursor state as an integer below
/// `state_count`.
pub open spec fn state_id(g: GridView, c: CursorView) -> int {
    ((c.y + 2) * (g.width + 4) + (c.x + 2)) * 8 + heading_index(c.heading)
}

/// Mixed-radix encodings with digits in range are unique.
proof fn lemma_base_decompose_unique(base: int, q1: int, r1: int, q2: int, r2: int)
    by (nonlinear_arith)
    requires
        base > 0,
        0 <= r1 < base,
        0 <= r2 < base,
        q1 * base + r1 == q2 * base + r2,
    ensures
        q1 == q2,
        r1 == r2,
{
}

/// A mixed-radix encoding with digits in range stays within the radix
/// product.
proof fn lemma_box_id_bounds(w: int, h: int, x: int, y: int, k: int)
    by (nonlinear_arith)
    requires
        w >= 0,
        h >= 0,
        -2 <= x <= w + 1,
        -2 <= y <= h + 1,
        0 <= k < 8,
    ensures
        0 <= ((y + 2) * (w + 4) + (x + 2)) * 8 + k < (w + 4) * (h + 4) * 8,
{
}

proof fn lemma_state_id_bounds(g: GridView, c: CursorView)
    requires
        g.wf(),
        in_box(g, c),
    ensures
        0 <= state_id(g, c) < state_count(g),
{
    assert(0 <= heading_index(c.heading) < 8);
    lemma_box_id_bounds(g.width, g.height, c.x, c.y, heading_index(c.heading));
}

proof fn lemma_state_id_injective(g: GridView, a: CursorView, b: CursorView)
    requires
        g.wf(),
        in_box(g, a),
        in_box(g, b),
        state_id(g, a) == state_id(g, b),
    ensures
        a == b,
{
    lemma_base_decompose_unique(
        8,
        (a.y + 2) * (g.width + 4) + (a.x + 2),
        heading_index(a.heading),
        (b.y + 2) * (g.width + 4) + (b.x + 2),
        heading_index(b.heading),
    );
    lemma_base_decompose_unique(g.width + 4, a.y + 2, a.x + 2, b.y + 2, b.x + 2);
    assert(heading_index(a.heading) == heading_index(b.heading) ==> a.heading == b.heading);
}

/// Pairwise distinct boxed cursor states number at most `state_count`.
proof fn lemma_traj_len_bounded(g: GridView, traj: Seq<CursorView>)
    requires
        g.wf(),
        traj.no_duplicates(),
        forall|i: int| 0 <= i < traj.len() ==> in_box(g, #[trigger] traj[i]),
    ensures
        traj.len() <= state_count(g),
{
    let ids = traj.map_values(|c: CursorView| state_id(g, c));
    assert forall|i: int, j: int| 0 <= i < ids.len() && 0 <= j < ids.len() && i != j implies ids[i]
        != ids[j] by {
        if ids[i] == ids[j] {
            lemma_state_id_injective(g, traj[i], traj[j]);
        }
    }
    ids.unique_seq_to_set();
    assert forall|e: int| ids.to_set().contains(e) implies set_int_range(
        0,
        state_count(g),
    ).contains(e) by {
        let i = choose|i: int| 0 <= i < ids.len() && ids[i] == e;
        lemma_state_id_bounds(g, traj[i]);
    }
    lemma_int_range(0, state_count(g));
    lemma_len_subset(ids.to_set(), set_int_range(0, state_count(g)));
}

/// An isolated foreground pixel yields a one-point contour: when every
/// neighbor of the seed fails the foreground test, the walk pivots around
/// the seed until it returns to the start cursor, collecting nothing new.
pub proof fn lemma_isolated_pixel_contour(g: GridView, fg: u32, x: int, y: int)
    requires
        g.wf(),
        g.in_bounds(x, y),
        g.pixel(x, y) == fg,
        forall|nx: int, ny: int|
            x - 1 <= nx <= x + 1 && y - 1 <= ny <= y + 1 && (nx != x || ny != y) ==> !(
            g.in_bounds(nx, ny) && #[trigger] g.pixel(nx, ny) == fg),
    ensures
        trace_terminates(g, fg, x, y),
        trace_spec(g, fg, x, y) == seq![Point::<u32> { x: x as u32, y: y as u32 }],
{
    reveal_with_fuel(run_trace, 10);
    reveal(advance);
    let st = start_cursor(x, y);
    let acc0 = seed_acc(x, y);
    let c1 = st.preferred();
    assert(c1 == (CursorView { x, y: y - 1, heading: Heading::North }));
    assert(!accepts(g, fg, c1));
    let c2 = c1.fallback();
    assert(c2 == (CursorView { x: x + 1, y: y - 1, heading: Heading::East }));
    assert(!accepts(g, fg, c2));
    let c3 = c2.fallback();
    assert(c3 == (CursorView { x: x + 1, y, heading: Heading::South }));
    assert(!accepts(g, fg, c3));
    let c4 = c3.fallback();
    assert(c4 == (CursorView { x, y, heading: Heading::West }));
    assert(accepts(g, fg, c4));
    assert(cursor_point(c4) == acc0[0]);
    assert(collect(g, fg, c4, acc0) == acc0);
    let c5 = c4.preferred();
    assert(c5 == (CursorView { x, y: y + 1, heading: Heading::South }));
    assert(!accepts(g, fg, c5));
    let c6 = c5.fallback();
    assert(c6 == (CursorView { x: x - 1, y: y + 1, heading: Heading::West }));
    assert(!accepts(g, fg, c6));
    let c7 = c6.fallback();
    assert(c7 == (CursorView { x: x - 1, y, heading: Heading::North }));
    assert(!accepts(g, fg, c7));
    let c8 = c7.fallback();
    assert(c8 == st);
    assert(run_trace(g, fg, st, c1, acc0, 8) == Some(acc0));
    lemma_trace_spec_run(g, fg, x, y, 8);
    assert(acc0 =~= seq![Point::<u32> { x: x as u32, y: y as u32 }]);
}

/// Whether (x, y) lies inside the raster; candidates outside are treated
/// as background, never as errors.
pub fn is_in_bounds(x: i64, y: i64, image: &Raster) -> (b: bool)
    ensures
        b == image@.in_bounds(x as int, y as int),
{
    0 <= x && x < (image.width() as i64) && 0 <= y && y < (image.height() as i64)
}

/// Linear membership scan over the points collected so far.
fn contains_point(points: &Vec<Point<u32>>, p: Point<u32>) -> (b: bool)
    ensures
        b == points@.contains(p),
{
    let n = points.len();
    let mut i: usize = 0;
    while i < n
        invariant
            i <= n,
            n == points@.len(),
            forall|k: int| 0 <= k < i ==> points@[k] != p,
        decreases n - i,
    {
        let q = points[i];
        if q.x == p.x && q.y == p.y {
            assert(points@[i as int] == p);
            return true;
        }
        i = i + 1;
    }
    false
}

/// A rejected candidate on the pivot ring is followed by the next ring
/// candidate, which stays inside the box around the raster.
proof fn lemma_ring_pivot(g: GridView, fg: u32, cur: CursorView, next: CursorView)
    requires
        accepts(g, fg, cur),
        exists|j: nat| j < 4 && next == #[trigger] ring(cur, j),
        !accepts(g, fg, next),
    ensures
        exists|j: nat| j < 4 && next.fallback() == #[trigger] ring(cur, j),
        in_box(g, next.fallback()),
{
    let j = choose|j: nat| j < 4 && next == ring(cur, j);
    if j == 3 {
        lemma_ring_closes(cur);
        assert(accepts(g, fg, ring(cur, 3)));
        assert(false);
    }
    assert(ring(cur, (j + 1) as nat) == ring(cur, j).fallback());
    lemma_ring_in_box(g, cur, (j + 1) as nat);
}

/// Appending the walk's next candidate keeps the candidate history a
/// duplicate-free chain: the transition is injective and the history
/// starts at the seed cursor's unique successor.
#[verifier::rlimit(100)]
#[verifier::spinoff_prover]
proof fn lemma_traj_extend(
    g: GridView,
    fg: u32,
    st: CursorView,
    traj: Seq<CursorView>,
    next: CursorView,
)
    requires
        accepts(g, fg, st),
        traj.len() >= 1,
        traj.first() == st.preferred(),
        traj.last() != st,
        forall|i: int| 1 <= i < traj.len() ==> #[trigger] traj[i] == advance(g, fg, traj[i - 1]),
        traj.no_duplicates(),
        next == advance(g, fg, traj.last()),
    ensures
        traj.push(next).no_duplicates(),
        forall|i: int|
            1 <= i < traj.push(next).len() ==> #[trigger] traj.push(next)[i] == advance(
                g,
                fg,
                traj.push(next)[i - 1],
            ),
{
    reveal(advance);
    assert forall|i: int| 0 <= i < traj.len() implies traj[i] != next by {
        if traj[i] == next {
            if i == 0 {
                assert(traj[0] == advance(g, fg, st));
                lemma_advance_injective(g, fg, traj.last(), st);
            } else {
                lemma_advance_injective(g, fg, traj.last(), traj[i - 1]);
                assert(traj[i - 1] == traj[traj.len() - 1]);
            }
        }
    }
}

/// Taking one walk transition shifts the fuel bookkeeping by one.
proof fn lemma_bridge_step(
    g: GridView,
    fg: u32,
    st: CursorView,
    acc0: Seq<Point<u32>>,
    next_prev: CursorView,
    points_prev: Seq<Point<u32>>,
    steps: nat,
)
    requires
        next_prev != st,
        forall|m: nat|
            #[trigger] run_trace(g, fg, st, next_prev, points_prev, m) == run_trace(
                g,
                fg,
                st,
                st.preferred(),
                acc0,
                (m + steps) as nat,
            ),
    ensures
        forall|m: nat|
            #[trigger] run_trace(
                g,
                fg,
                st,
                advance(g, fg, next_prev),
                collect(g, fg, next_prev, points_prev),
                m,
            ) == run_trace(g, fg, st, st.preferred(), acc0, (m + steps + 1) as nat),
{
    assert forall|m: nat|
        #[trigger] run_trace(
            g,
            fg,
            st,
            advance(g, fg, next_prev),
            collect(g, fg, next_prev, points_prev),
            m,
        ) == run_trace(g, fg, st, st.preferred(), acc0, (m + steps + 1) as nat) by {
        reveal_with_fuel(run_trace, 2);
        assert(run_trace(g, fg, st, next_prev, points_prev, (m + 1) as nat) == run_trace(
            g,
            fg,
            st,
            st.preferred(),
            acc0,
            ((m + 1) + steps) as nat,
        ));
        assert(run_trace(g, fg, st, next_prev, points_prev, (m + 1) as nat) == run_trace(
            g,
            fg,
            st,
            advance(g, fg, next_prev),
            collect(g, fg, next_prev, points_prev),
            m,
        ));
    }
}

/// Collecting an accepted candidate preserves the collected points'
/// invariants: non-empty, seed first, duplicate-free, all foreground.
proof fn lemma_points_extend(
    g: GridView,
    fg: u32,
    points_prev: Seq<Point<u32>>,
    c: CursorView,
)
    requires
        g.wf(),
        accepts(g, fg, c),
        points_prev.len() >= 1,
        points_prev.no_duplicates(),
        forall|i: int|
            0 <= i < points_prev.len() ==> g.in_bounds(
                #[trigger] points_prev[i].x as int,
                points_prev[i].y as int,
            ) && g.pixel(points_prev[i].x as int, points_prev[i].y as int) == fg,
    ensures
        collect(g, fg, c, points_prev).len() >= 1,
        collect(g, fg, c, points_prev)[0] == points_prev[0],
        collect(g, fg, c, points_prev).no_duplicates(),
        forall|i: int|
            0 <= i < collect(g, fg, c, points_prev).len() ==> g.in_bounds(
                #[trigger] collect(g, fg, c, points_prev)[i].x as int,
                collect(g, fg, c, points_prev)[i].y as int,
            ) && g.pixel(
                collect(g, fg, c, points_prev)[i].x as int,
                collect(g, fg, c, points_prev)[i].y as int,
            ) == fg,
{
    if !points_prev.contains(cursor_point(c)) {
        let p = cursor_point(c);
        assert(p.x as int == c.x && p.y as int == c.y);
    }
}

/// The pivot relation the walk maintains: the examined candidate sits on
/// the pivot ring of the last accepted cursor, inside the box around the
/// raster.
#[verifier::opaque]
pub(crate) open spec fn ring_inv(g: GridView, fg: u32, cur: CursorView, nextv: CursorView) -> bool {
    &&& accepts(g, fg, cur)
    &&& exists|j: nat| j < 4 && nextv == #[trigger] ring(cur, j)
    &&& in_box(g, nextv)
}

/// The candidate history the walk maintains: a duplicate-free chain of
/// boxed states from the seed cursor's successor to the current candidate,
/// avoiding the seed cursor until its last entry.
#[verifier::opaque]
pub(crate) open spec fn traj_inv(
    g: GridView,
    fg: u32,
    st: CursorView,
    nextv: CursorView,
    traj: Seq<CursorView>,
) -> bool {
    &&& traj.len() >= 1
    &&& traj.last() == nextv
    &&& traj.first() == st.preferred()
    &&& forall|i: int| 1 <= i < traj.len() ==> #[trigger] traj[i] == advance(g, fg, traj[i - 1])
    &&& forall|i: int| 0 <= i < traj.len() - 1 ==> #[trigger] traj[i] != st
    &&& forall|i: int| 0 <= i < traj.len() ==> in_box(g, #[trigger] traj[i])
    &&& traj.no_duplicates()
}

/// The points the walk has collected: non-empty, the seed pixel first,
/// duplicate-free, and all foreground.
#[verifier::opaque]
pub(crate) open spec fn points_inv(
    g: GridView,
    fg: u32,
    st: CursorView,
    points: Seq<Point<u32>>,
) -> bool {
    &&& points.len() >= 1
    &&& points[0] == cursor_point(st)
    &&& points.no_duplicates()
    &&& forall|i: int|
        0 <= i < points.len() ==> g.in_bounds(#[trigger] points[i].x as int, points[i].y as int)
            && g.pixel(points[i].x as int, points[i].y as int) == fg
}

/// The fuel bookkeeping: examining the current candidate with the points
/// collected so far is the same walk as starting fresh, shifted by the
/// number of transitions already taken.
#[verifier::opaque]
pub(crate) open spec fn bridge_inv(
    g: GridView,
    fg: u32,
    st: CursorView,
    nextv: CursorView,
    points: Seq<Point<u32>>,
    steps: nat,
) -> bool {
    forall|m: nat|
        #[trigger] run_trace(g, fg, st, nextv, points, m) == run_trace(
            g,
            fg,
            st,
            st.preferred(),
            seq![cursor_point(st)],
            (m + steps) as nat,
        )
}

/// All four pieces hold when the walk starts.
proof fn lemma_trace_loop_init(g: GridView, fg: u32, st: CursorView)
    requires
        g.wf(),
        accepts(g, fg, st),
    ensures
        ring_inv(g, fg, st, st.preferred()),
        traj_inv(g, fg, st, st.preferred(), seq![st.preferred()]),
        points_inv(g, fg, st, seq![cursor_point(st)]),
        bridge_inv(g, fg, st, st.preferred(), seq![cursor_point(st)], 0),
        seq![st.preferred()].len() <= state_count(g),
{
    reveal(ring_inv);
    reveal(traj_inv);
    reveal(points_inv);
    reveal(bridge_inv);
    let traj = seq![st.preferred()];
    assert(st.preferred() == ring(st, 0));
    lemma_ring_in_box(g, st, 0);
    assert(traj.last() == st.preferred());
    assert(cursor_point(st).x as int == st.x && cursor_point(st).y as int == st.y);
    assert forall|m: nat|
        #[trigger] run_trace(g, fg, st, st.preferred(), seq![cursor_point(st)], m) == run_trace(
            g,
            fg,
            st,
            st.preferred(),
            seq![cursor_point(st)],
            (m + 0) as nat,
        ) by {
        assert((m + 0) as nat == m);
    }
    lemma_traj_len_bounded(g, traj);
}

/// The pivot relation survives one transition: an accepted candidate
/// becomes the new pivot, a rejected one is replaced by the next ring
/// candidate.
proof fn lemma_ring_step(g: GridView, fg: u32, cur: CursorView, nextv: CursorView)
    requires
        ring_inv(g, fg, cur, nextv),
    ensures
        ring_inv(
            g,
            fg,
            if accepts(g, fg, nextv) {
                nextv
            } else {
                cur
            },
            advance(g, fg, nextv),
        ),
        in_box(g, advance(g, fg, nextv)),
{
    reveal(ring_inv);
    reveal(advance);
    if accepts(g, fg, nextv) {
        assert(advance(g, fg, nextv) == ring(nextv, 0));
        lemma_ring_in_box(g, nextv, 0);
    } else {
        lemma_ring_pivot(g, fg, cur, nextv);
    }
}

/// The candidate history survives one transition and stays within the
/// state count of the box.
#[verifier::rlimit(100)]
#[verifier::spinoff_prover]
proof fn lemma_traj_step(
    g: GridView,
    fg: u32,
    st: CursorView,
    nextv: CursorView,
    traj: Seq<CursorView>,
)
    requires
        g.wf(),
        accepts(g, fg, st),
        traj_inv(g, fg, st, nextv, traj),
        nextv != st,
        in_box(g, advance(g, fg, nextv)),
    ensures
        traj_inv(g, fg, st, advance(g, fg, nextv), traj.push(advance(g, fg, nextv))),
        traj.push(advance(g, fg, nextv)).len() <= state_count(g),
{
    reveal(traj_inv);
    let nextv2 = advance(g, fg, nextv);
    lemma_traj_extend(g, fg, st, traj, nextv2);
    let traj2 = traj.push(nextv2);
    assert(traj2.last() == nextv2);
    assert forall|i: int| 0 <= i < traj2.len() - 1 implies #[trigger] traj2[i] != st by {
        assert(traj2[i] == traj[i]);
    }
    assert forall|i: int| 0 <= i < traj2.len() implies in_box(g, #[trigger] traj2[i]) by {
        if i < traj.len() {
            assert(in_box(g, traj[i]));
        }
    }
    lemma_traj_len_bounded(g, traj2);
}

/// The collected points survive one transition.
proof fn lemma_points_step(
    g: GridView,
    fg: u32,
    st: CursorView,
    nextv: CursorView,
    points: Seq<Point<u32>>,
)
    requires
        g.wf(),
        points_inv(g, fg, st, points),
    ensures
        points_inv(g, fg, st, collect(g, fg, nextv, points)),
{
    reveal(points_inv);
    if accepts(g, fg, nextv) {
        lemma_points_extend(g, fg, points, nextv);
    }
}

/// The fuel bookkeeping survives one transition.
proof fn lemma_bridge_inv_step(
    g: GridView,
    fg: u32,
    st: CursorView,
    nextv: CursorView,
    points: Seq<Point<u32>>,
    steps: nat,
)
    requires
        bridge_inv(g, fg, st, nextv, points, steps),
        nextv != st,
    ensures
        bridge_inv(
            g,
            fg,
            st,
            advance(g, fg, nextv),
            collect(g, fg, nextv, points),
            (steps + 1) as nat,
        ),
{
    reveal(bridge_inv);
    lemma_bridge_step(g, fg, st, seq![cursor_point(st)], nextv, points, steps);
}

/// When the walk reaches the seed cursor again the collected points are
/// exactly the contour `trace_spec` names.
proof fn lemma_trace_loop_exit(
    g: GridView,
    fg: u32,
    sx: int,
    sy: int,
    points: Seq<Point<u32>>,
    steps: nat,
)
    requires
        points_inv(g, fg, start_cursor(sx, sy), points),
        bridge_inv(g, fg, start_cursor(sx, sy), start_cursor(sx, sy), points, steps),
    ensures
        points == trace_spec(g, fg, sx, sy),
        trace_terminates(g, fg, sx, sy),
        points.len() >= 1,
        points[0] == cursor_point(start_cursor(sx, sy)),
        points.no_duplicates(),
        forall|i: int|
            0 <= i < points.len() ==> g.in_bounds(#[trigger] points[i].x as int, points[i].y as int)
                && g.pixel(points[i].x as int, points[i].y as int) == fg,
{
    reveal(points_inv);
    reveal(bridge_inv);
    let st = start_cursor(sx, sy);
    assert(run_trace(g, fg, st, st, points, 0) == run_trace(
        g,
        fg,
        st,
        st.preferred(),
        seq![cursor_point(st)],
        (0 + steps) as nat,
    ));
    assert(run_trace(g, fg, st, st, points, 0) == Some(points)) by {
        reveal_with_fuel(run_trace, 1);
    }
    assert(seq![cursor_point(st)] =~= seed_acc(sx, sy));
    lemma_trace_spec_run(g, fg, sx, sy, steps);
}

/// Walks the boundary of the region of `foreground_color` seeded at
/// (seed_x, seed_y): emits the seed, then follows preferred/fallback
/// candidates until the walk returns to the seed cursor with its starting
/// heading. The result is exactly the contour `trace_spec` names; it is
/// non-empty, starts at the seed, repeats no pixel, and holds foreground
/// pixels only.
pub fn trace_contour(image: &Raster, foreground_color: u32, seed_x: u32, seed_y: u32) -> (points:
    Vec<Point<u32>>)
    requires
        image@.in_bounds(seed_x as int, seed_y as int),
        image@.pixel(seed_x as int, seed_y as int) == foreground_color,
    ensures
        points@ == trace_spec(image@, foreground_color, seed_x as int, seed_y as int),
        trace_terminates(image@, foreground_color, seed_x as int, seed_y as int),
        points@.len() >= 1,
        points@[0] == (Point::<u32> { x: seed_x, y: seed_y }),
        points@.no_duplicates(),
        forall|i: int|
            0 <= i < points@.len() ==> image@.in_bounds(
                #[trigger] points@[i].x as int,
                points@[i].y as int,
            ) && image@.pixel(points@[i].x as int, points@[i].y as int) == foreground_color,
{
    proof {
        use_type_invariant(image);
    }
    let ghost g = image@;
    let ghost fg = foreground_color;
    let ghost st = start_cursor(seed_x as int, seed_y as int);
    let start = Turtle::new(seed_x, seed_y);
    let mut points: Vec<Point<u32>> = Vec::new();
    points.push(Point::new(seed_x, seed_y));
    let mut next = start.candidate_preferred();
    let ghost mut cur: CursorView = st;
    let ghost mut traj: Seq<CursorView> = seq![next@];
    proof {
        assert(points@ =~= seq![cursor_point(st)]);
        lemma_trace_loop_init(g, fg, st);
    }
    while next != start
        invariant
            g == image@,
            g.wf(),
            fg == foreground_color,
            st == start_cursor(seed_x as int, seed_y as int),
            start@ == st,
            accepts(g, fg, st),
            in_box(g, next@),
            ring_inv(g, fg, cur, next@),
            traj_inv(g, fg, st, next@, traj),
            points_inv(g, fg, st, points@),
            bridge_inv(g, fg, st, next@, points@, (traj.len() - 1) as nat),
            1 <= traj.len() <= state_count(g),
        decreases state_count(g) - traj.len(),
    {
        let ghost cur_prev = cur;
        let ghost next_prev = next@;
        let ghost points_prev = points@;
        let ghost traj_prev = traj;
        let inside = is_in_bounds(next.x, next.y, image);
        if inside && image.get_pixel(next.x as u32, next.y as u32) == foreground_color {
            assert(accepts(g, fg, next@));
            let p = Point::new(next.x as u32, next.y as u32);
            assert(p == cursor_point(next@));
            if !contains_point(&points, p) {
                points.push(p);
            }
            assert(points@ =~= collect(g, fg, next_prev, points_prev));
            proof {
                cur = next_prev;
            }
            next = next.candidate_preferred();
        } else {
            assert(!accepts(g, fg, next@));
            assert(points@ =~= collect(g, fg, next_prev, points_prev));
            next = next.candidate_fallback();
        }
        proof {
            assert(next@ == advance(g, fg, next_prev)) by {
                reveal(advance);
            }
            lemma_ring_step(g, fg, cur_prev, next_prev);
            lemma_traj_step(g, fg, st, next_prev, traj_prev);
            lemma_points_step(g, fg, st, next_prev, points_prev);
            lemma_bridge_inv_step(
                g,
                fg,
                st,
                next_prev,
                points_prev,
                (traj_prev.len() - 1) as nat,
            );
            traj = traj_prev.push(next@);
            assert(((traj_prev.len() - 1) as nat + 1) as nat == (traj.len() - 1) as nat);
        }
    }
    proof {
        lemma_trace_loop_exit(
            g,
            fg,
            seed_x as int,
            seed_y as int,
            points@,
            (traj.len() - 1) as nat,
        );
    }
    points
}

} // verus!
