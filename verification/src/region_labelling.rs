//! Contour extraction: a row-major seed scan drives one boundary trace per
//! newly encountered foreground color.

use vstd::prelude::*;
use std::collections::HashSet;

pub mod seen;
pub mod trace;
pub mod turtle;

use crate::raster::{GridView, Raster};
use crate::region_labelling::seen::{label_bits_new, LabelBitSet, SeenColors};
use crate::region_labelling::trace::{trace_contour, trace_spec, trace_terminates};

verus! {

broadcast use vstd::set::group_set_axioms;

/// Integer pixel coordinates; a plain value compared by its two fields.
#[derive(Debug, Copy, Clone, PartialEq, Eq, Hash)]
pub struct Point<T: Copy + PartialEq + Eq> {
    pub x: T,
    pub y: T,
}

impl<T: Copy + PartialEq + Eq> Point<T> {
    pub fn new(x: T, y: T) -> (p: Point<T>)
        ensures
            p.x == x,
            p.y == y,
    {
        Point::<T> { x, y }
    }
}

impl<T: Copy + PartialEq + Eq> View for Point<T> {
    type V = Point<T>;

    open spec fn view(&self) -> Point<T> {
        *self
    }
}

impl<T: Copy + PartialEq + Eq> DeepView for Point<T> {
    type V = Point<T>;

    open spec fn deep_view(&self) -> Point<T> {
        *self
    }
}

/// What the row-major scan has produced after some prefix of the cells:
/// the contours traced so far and the colors recorded as seen.
#[verifier::ext_equal]
pub struct ScanState {
    pub contours: Seq<Seq<Point<u32>>>,
    pub seen: Set<u32>,
}

/// The scan after handling every cell before row `y`, plus the first `x`
/// cells of row `y` itself: each cell whose color differs from the
/// background and is not yet seen becomes the seed of one trace.
pub open spec fn scan_upto(g: GridView, bg: u32, y: nat, x: nat) -> ScanState
    decreases y, x,
{
    if x > 0 {
        let prev = scan_upto(g, bg, y, (x - 1) as nat);
        let c = g.pixel(x - 1, y as int);
        if c != bg && !prev.seen.contains(c) {
            ScanState {
                contours: prev.contours.push(trace_spec(g, c, x - 1, y as int)),
                seen: prev.seen.insert(c),
            }
        } else {
            prev
        }
    } else if y > 0 {
        scan_upto(g, bg, (y - 1) as nat, g.width as nat)
    } else {
        ScanState { contours: Seq::empty(), seen: Set::empty() }
    }
}

/// The contour list the full scan of a raster yields.
pub open spec fn contours_spec(g: GridView, bg: u32) -> Seq<Seq<Point<u32>>> {
    scan_upto(g, bg, g.height as nat, 0).contours
}

/// The distinct non-background colors a raster holds.
pub open spec fn foreground_colors(g: GridView, bg: u32) -> Set<u32> {
    Set::new(
        |c: u32|
            c != bg && exists|px: int, py: int|
                g.in_bounds(px, py) && #[trigger] g.pixel(px, py) == c,
    )
}

/// Whether cell (px, py) lies strictly before position (x, y) in the
/// row-major scan.
pub open spec fn scanned_before(g: GridView, y: int, x: int, px: int, py: int) -> bool {
    g.in_bounds(px, py) && (py < y || (py == y && px < x))
}

/// The distinct non-background colors among the cells already scanned.
pub open spec fn scanned_colors(g: GridView, bg: u32, y: int, x: int) -> Set<u32> {
    Set::new(
        |c: u32|
            c != bg && exists|px: int, py: int|
                #![trigger scanned_before(g, y, x, px, py), g.pixel(px, py)]
                scanned_before(g, y, x, px, py) && g.pixel(px, py) == c,
    )
}

/// The colors the scan records are exactly the non-background colors of
/// the cells it has passed, and one contour is traced per recorded color.
proof fn lemma_scan_upto_seen(g: GridView, bg: u32, y: nat, x: nat)
    requires
        g.wf(),
        x <= g.width,
        y <= g.height,
        y == g.height ==> x == 0,
    ensures
        scan_upto(g, bg, y, x).seen == scanned_colors(g, bg, y as int, x as int),
        scan_upto(g, bg, y, x).seen.finite(),
        scan_upto(g, bg, y, x).contours.len() == scan_upto(g, bg, y, x).seen.len(),
    decreases y, x,
{
    let cur = scanned_colors(g, bg, y as int, x as int);
    if x > 0 {
        lemma_scan_upto_seen(g, bg, y, (x - 1) as nat);
        let prevset = scanned_colors(g, bg, y as int, x - 1);
        let c = g.pixel(x - 1, y as int);
        assert(g.in_bounds(x - 1, y as int));
        assert forall|c2: u32| cur.contains(c2) implies c2 == c && c2 != bg || prevset.contains(
            c2,
        ) by {
            let (px, py) = choose|px: int, py: int|
                #![trigger scanned_before(g, y as int, x as int, px, py), g.pixel(px, py)]
                scanned_before(g, y as int, x as int, px, py) && g.pixel(px, py) == c2;
            if !(px == x - 1 && py == y as int) {
                assert(scanned_before(g, y as int, x - 1, px, py));
            }
        }
        assert forall|c2: u32| prevset.contains(c2) implies cur.contains(c2) by {
            let (px, py) = choose|px: int, py: int|
                #![trigger scanned_before(g, y as int, x - 1, px, py), g.pixel(px, py)]
                scanned_before(g, y as int, x - 1, px, py) && g.pixel(px, py) == c2;
            assert(scanned_before(g, y as int, x as int, px, py));
        }
        if c != bg {
            assert(scanned_before(g, y as int, x as int, x - 1, y as int));
            assert(cur.contains(c));
            assert(cur =~= prevset.insert(c));
        } else {
            assert(cur =~= prevset);
        }
    } else if y > 0 {
        lemma_scan_upto_seen(g, bg, (y - 1) as nat, g.width as nat);
        let prevset = scanned_colors(g, bg, y - 1, g.width);
        assert forall|c2: u32| cur.contains(c2) implies prevset.contains(c2) by {
            let (px, py) = choose|px: int, py: int|
                #![trigger scanned_before(g, y as int, 0, px, py), g.pixel(px, py)]
                scanned_before(g, y as int, 0, px, py) && g.pixel(px, py) == c2;
            assert(scanned_before(g, y - 1, g.width, px, py));
        }
        assert forall|c2: u32| prevset.contains(c2) implies cur.contains(c2) by {
            let (px, py) = choose|px: int, py: int|
                #![trigger scanned_before(g, y - 1, g.width, px, py), g.pixel(px, py)]
                scanned_before(g, y - 1, g.width, px, py) && g.pixel(px, py) == c2;
            assert(scanned_before(g, y as int, 0, px, py));
        }
        assert(cur =~= prevset);
    } else {
        assert forall|c2: u32| !cur.contains(c2) by {
            if cur.contains(c2) {
                let (px, py) = choose|px: int, py: int|
                    #![trigger scanned_before(g, 0, 0, px, py), g.pixel(px, py)]
                    scanned_before(g, 0, 0, px, py) && g.pixel(px, py) == c2;
            }
        }
        assert(cur =~= Set::<u32>::empty());
    }
}

/// After the full scan the recorded colors are exactly the raster's
/// distinct non-background colors.
proof fn lemma_scan_full(g: GridView, bg: u32)
    requires
        g.wf(),
    ensures
        contours_spec(g, bg).len() == foreground_colors(g, bg).len(),
        foreground_colors(g, bg).finite(),
        scan_upto(g, bg, g.height as nat, 0).seen == foreground_colors(g, bg),
{
    lemma_scan_upto_seen(g, bg, g.height as nat, 0);
    let full = scanned_colors(g, bg, g.height, 0);
    assert forall|c2: u32| full.contains(c2) implies foreground_colors(g, bg).contains(c2) by {
        let (px, py) = choose|px: int, py: int|
            #![trigger scanned_before(g, g.height, 0, px, py), g.pixel(px, py)]
            scanned_before(g, g.height, 0, px, py) && g.pixel(px, py) == c2;
        assert(g.in_bounds(px, py) && g.pixel(px, py) == c2);
    }
    assert forall|c2: u32| foreground_colors(g, bg).contains(c2) implies full.contains(c2) by {
        let (px, py) = choose|px: int, py: int|
            g.in_bounds(px, py) && #[trigger] g.pixel(px, py) == c2;
        assert(scanned_before(g, g.height, 0, px, py));
    }
    assert(full =~= foreground_colors(g, bg));
}

/// What holds of every returned contour: non-empty, duplicate-free, and
/// made of in-bounds pixels that never hold the background color.
pub open spec fn contour_points_ok(g: GridView, bg: u32, contour: Seq<Point<u32>>) -> bool {
    &&& contour.len() >= 1
    &&& contour.no_duplicates()
    &&& forall|j: int|
        0 <= j < contour.len() ==> g.in_bounds(#[trigger] contour[j].x as int, contour[j].y as int)
            && g.pixel(contour[j].x as int, contour[j].y as int) != bg
}

/// A vector of points viewed deeply is its sequence of points.
proof fn lemma_points_deep_view(v: &Vec<Point<u32>>)
    ensures
        v.deep_view() =~= v@,
{
    assert forall|i: int| 0 <= i < v@.len() implies v.deep_view()[i] == v@[i] by {}
}

/// Row-major scan (y outer, x inner): each pixel whose color differs from
/// the background and has not been recorded yet seeds one boundary trace.
/// Written once against the `SeenColors` capability so the two membership
/// strategies cannot drift apart.
fn scan_contours<S: SeenColors>(
    background_color: u32,
    image: &Raster,
    colors_seen: &mut S,
) -> (contours: Vec<Vec<Point<u32>>>)
    requires
        old(colors_seen).colors() == Set::<u32>::empty(),
    ensures
        contours.deep_view() == contours_spec(image@, background_color),
        contours@.len() == foreground_colors(image@, background_color).len(),
        forall|i: int|
            0 <= i < contours.deep_view().len() ==> contour_points_ok(
                image@,
                background_color,
                #[trigger] contours.deep_view()[i],
            ),
{
    proof {
        use_type_invariant(image);
    }
    let ghost g = image@;
    let ghost bg = background_color;
    let width = image.width();
    let height = image.height();
    let mut contours: Vec<Vec<Point<u32>>> = Vec::new();
    let mut y: u32 = 0;
    proof {
        assert(contours.deep_view() =~= scan_upto(g, bg, 0, 0).contours);
    }
    while y < height
        invariant
            g == image@,
            g.wf(),
            bg == background_color,
            width == g.width,
            height == g.height,
            y <= height,
            contours.deep_view() == scan_upto(g, bg, y as nat, 0).contours,
            colors_seen.colors() == scan_upto(g, bg, y as nat, 0).seen,
            forall|i: int|
                0 <= i < contours.deep_view().len() ==> contour_points_ok(
                    g,
                    bg,
                    #[trigger] contours.deep_view()[i],
                ),
        decreases height - y,
    {
        let mut x: u32 = 0;
        while x < width
            invariant
                g == image@,
                g.wf(),
                bg == background_color,
                width == g.width,
                height == g.height,
                y < height,
                x <= width,
                contours.deep_view() == scan_upto(g, bg, y as nat, x as nat).contours,
                colors_seen.colors() == scan_upto(g, bg, y as nat, x as nat).seen,
                forall|i: int|
                    0 <= i < contours.deep_view().len() ==> contour_points_ok(
                        g,
                        bg,
                        #[trigger] contours.deep_view()[i],
                    ),
            decreases width - x,
        {
            let ghost deep_prev = contours.deep_view();
            let color = image.get_pixel(x, y);
            if color != background_color && !colors_seen.contains_color(color) {
                colors_seen.record_color(color);
                let contour = trace_contour(image, color, x, y);
                let ghost cv = contour@;
                proof {
                    lemma_points_deep_view(&contour);
                    assert(contour_points_ok(g, bg, cv));
                }
                contours.push(contour);
                proof {
                    assert(contours.deep_view() =~= deep_prev.push(cv));
                }
            }
            proof {
                assert(contours.deep_view() == scan_upto(g, bg, y as nat, (x + 1) as nat).contours);
                assert(colors_seen.colors() == scan_upto(g, bg, y as nat, (x + 1) as nat).seen);
            }
            x = x + 1;
        }
        proof {
            assert(scan_upto(g, bg, (y + 1) as nat, 0) == scan_upto(g, bg, y as nat, width as nat));
        }
        y = y + 1;
    }
    proof {
        lemma_scan_full(g, bg);
    }
    contours
}

/// Extracts one contour per distinct non-background color, in discovery
/// order of the row-major scan, using a hash set of seen colors. The
/// result is a pure function of the raster and background color — the
/// first clause pins it to `contours_spec` — so repeated calls agree. If
/// a color's pixels form several disconnected components, only the first
/// discovered component's contour is produced; this limitation is kept
/// deliberately.
pub fn find_contours(background_color: u32, image: &Raster) -> (contours: Vec<Vec<Point<u32>>>)
    ensures
        contours.deep_view() == contours_spec(image@, background_color),
        contours@.len() == foreground_colors(image@, background_color).len(),
        forall|i: int|
            0 <= i < contours.deep_view().len() ==> contour_points_ok(
                image@,
                background_color,
                #[trigger] contours.deep_view()[i],
            ),
{
    let mut colors_seen: HashSet<u32> = HashSet::new();
    scan_contours(background_color, image, &mut colors_seen)
}

/// The label-optimized variant of `find_contours`: identical tracing core
/// and scan, with the seen-color membership backed by a dense bit vector
/// indexed by label value. Note the vector grows to the largest label
/// inserted. Both variants meet the same `contours_spec` clause, so on
/// equal inputs they return element-for-element equal contour lists.
pub fn find_contours_in_luma(background_color: u32, image: &Raster) -> (contours: Vec<
    Vec<Point<u32>>,
>)
    ensures
        contours.deep_view() == contours_spec(image@, background_color),
        contours@.len() == foreground_colors(image@, background_color).len(),
        forall|i: int|
            0 <= i < contours.deep_view().len() ==> contour_points_ok(
                image@,
                background_color,
                #[trigger] contours.deep_view()[i],
            ),
{
    let mut colors_seen: LabelBitSet = label_bits_new();
    scan_contours(background_color, image, &mut colors_seen)
}

/// Repeated scans of one raster with one background color yield one
/// contour list: the result of `find_contours` is a function of its
/// inputs alone.
pub proof fn lemma_find_contours_deterministic(
    g: GridView,
    bg: u32,
    first: Seq<Seq<Point<u32>>>,
    second: Seq<Seq<Point<u32>>>,
)
    requires
        first == contours_spec(g, bg),
        second == contours_spec(g, bg),
    ensures
        first == second,
{
}

/// The generic and the label-optimized scans agree: any contour lists
/// meeting their respective contracts on one input are equal.
pub proof fn lemma_seen_strategies_agree(
    g: GridView,
    bg: u32,
    generic: Seq<Seq<Point<u32>>>,
    labelled: Seq<Seq<Point<u32>>>,
)
    requires
        generic == contours_spec(g, bg),
        labelled == contours_spec(g, bg),
    ensures
        generic == labelled,
{
}

/// The single-contour lookup's scan, from position (x, y) on: a
/// column-outer order, the outer loop over the x range and the inner loop
/// over the y range — deliberately different from the driver's row-major
/// order.
pub open spec fn lookup_first(g: GridView, fg: u32, x: nat, y: nat) -> Option<Point<u32>>
    decreases g.width - x, g.height - y,
{
    if x as int >= g.width {
        None
    } else if y as int >= g.height {
        lookup_first(g, fg, (x + 1) as nat, 0)
    } else if g.pixel(x as int, y as int) == fg {
        Some(Point { x: x as u32, y: y as u32 })
    } else {
        lookup_first(g, fg, x, (y + 1) as nat)
    }
}

/// The first pixel of the given color in column-outer order, or `None`
/// when the raster holds no such pixel.
pub open spec fn first_foreground_pixel(g: GridView, fg: u32) -> Option<Point<u32>> {
    lookup_first(g, fg, 0, 0)
}

/// Whether cell (px, py) is at or after position (x, y) in the lookup's
/// column-outer order.
pub open spec fn lookup_pending(g: GridView, x: int, y: int, px: int, py: int) -> bool {
    g.in_bounds(px, py) && (px > x || (px == x && py >= y))
}

/// The lookup from (x, y) finds a pixel exactly when one of the cells it
/// has yet to scan matches.
proof fn lemma_lookup_first_complete(g: GridView, fg: u32, x: nat, y: nat)
    requires
        g.wf(),
    ensures
        (lookup_first(g, fg, x, y) is Some) <==> exists|px: int, py: int|
            #![trigger lookup_pending(g, x as int, y as int, px, py), g.pixel(px, py)]
            lookup_pending(g, x as int, y as int, px, py) && g.pixel(px, py) == fg,
    decreases g.width - x, g.height - y,
{
    let found = exists|px: int, py: int|
        #![trigger lookup_pending(g, x as int, y as int, px, py), g.pixel(px, py)]
        lookup_pending(g, x as int, y as int, px, py) && g.pixel(px, py) == fg;
    if x as int >= g.width {
        if found {
            let (px, py) = choose|px: int, py: int|
                #![trigger lookup_pending(g, x as int, y as int, px, py), g.pixel(px, py)]
                lookup_pending(g, x as int, y as int, px, py) && g.pixel(px, py) == fg;
            assert(px < g.width && px >= x as int);
            assert(false);
        }
    } else if y as int >= g.height {
        lemma_lookup_first_complete(g, fg, (x + 1) as nat, 0);
        let prev = exists|px: int, py: int|
            #![trigger lookup_pending(g, x as int + 1, 0, px, py), g.pixel(px, py)]
            lookup_pending(g, x as int + 1, 0, px, py) && g.pixel(px, py) == fg;
        if found {
            let (px, py) = choose|px: int, py: int|
                #![trigger lookup_pending(g, x as int, y as int, px, py), g.pixel(px, py)]
                lookup_pending(g, x as int, y as int, px, py) && g.pixel(px, py) == fg;
            assert(px != x as int || py < g.height);
            assert(lookup_pending(g, x as int + 1, 0, px, py));
        }
        if prev {
            let (px, py) = choose|px: int, py: int|
                #![trigger lookup_pending(g, x as int + 1, 0, px, py), g.pixel(px, py)]
                lookup_pending(g, x as int + 1, 0, px, py) && g.pixel(px, py) == fg;
            assert(lookup_pending(g, x as int, y as int, px, py));
        }
    } else if g.pixel(x as int, y as int) == fg {
        assert(lookup_pending(g, x as int, y as int, x as int, y as int));
    } else {
        lemma_lookup_first_complete(g, fg, x, (y + 1) as nat);
        let prev = exists|px: int, py: int|
            #![trigger lookup_pending(g, x as int, y as int + 1, px, py), g.pixel(px, py)]
            lookup_pending(g, x as int, y as int + 1, px, py) && g.pixel(px, py) == fg;
        if found {
            let (px, py) = choose|px: int, py: int|
                #![trigger lookup_pending(g, x as int, y as int, px, py), g.pixel(px, py)]
                lookup_pending(g, x as int, y as int, px, py) && g.pixel(px, py) == fg;
            assert(px != x as int || py != y as int);
            assert(lookup_pending(g, x as int, y as int + 1, px, py));
        }
        if prev {
            let (px, py) = choose|px: int, py: int|
                #![trigger lookup_pending(g, x as int, y as int + 1, px, py), g.pixel(px, py)]
                lookup_pending(g, x as int, y as int + 1, px, py) && g.pixel(px, py) == fg;
            assert(lookup_pending(g, x as int, y as int, px, py));
        }
    }
}

/// Scans for the first pixel of the given color in column-outer order;
/// `None` exactly when no pixel of the raster holds that color.
pub fn find_first_foreground_pixel(color: u32, image: &Raster) -> (r: Option<Point<u32>>)
    ensures
        r == first_foreground_pixel(image@, color),
        (r is Some) <==> exists|px: int, py: int|
            image@.in_bounds(px, py) && #[trigger] image@.pixel(px, py) == color,
        r matches Some(p) ==> image@.in_bounds(p.x as int, p.y as int) && image@.pixel(
            p.x as int,
            p.y as int,
        ) == color,
{
    proof {
        use_type_invariant(image);
    }
    let ghost g = image@;
    let width = image.width();
    let height = image.height();
    let mut x: u32 = 0;
    while x < width
        invariant
            g == image@,
            g.wf(),
            width == g.width,
            height == g.height,
            x <= width,
            first_foreground_pixel(g, color) == lookup_first(g, color, x as nat, 0),
        decreases width - x,
    {
        let mut y: u32 = 0;
        while y < height
            invariant
                g == image@,
                g.wf(),
                width == g.width,
                height == g.height,
                x < width,
                y <= height,
                first_foreground_pixel(g, color) == lookup_first(g, color, x as nat, y as nat),
            decreases height - y,
        {
            if image.get_pixel(x, y) == color {
                return Some(Point::new(x, y));
            }
            y = y + 1;
        }
        x = x + 1;
    }
    proof {
        lemma_lookup_first_complete(g, color, 0, 0);
        if exists|px: int, py: int| g.in_bounds(px, py) && #[trigger] g.pixel(px, py) == color {
            let (px, py) = choose|px: int, py: int|
                g.in_bounds(px, py) && #[trigger] g.pixel(px, py) == color;
            assert(lookup_pending(g, 0, 0, px, py));
            assert(false);
        }
    }
    None
}

/// Looks up the first pixel of `foreground_color` in the lookup's
/// column-outer order and traces the contour of its region. The result is
/// an explicit absence exactly when no pixel of the raster holds that
/// color, never a failure.
pub fn find_contour(foreground_color: u32, image: &Raster) -> (contour: Option<Vec<Point<u32>>>)
    ensures
        (contour is Some) <==> exists|px: int, py: int|
            image@.in_bounds(px, py) && #[trigger] image@.pixel(px, py) == foreground_color,
        contour is Some <==> first_foreground_pixel(image@, foreground_color) is Some,
        contour matches Some(points) ==> {
            &&& first_foreground_pixel(image@, foreground_color) matches Some(seed)
            &&& points@ == trace_spec(image@, foreground_color, seed.x as int, seed.y as int)
            &&& trace_terminates(image@, foreground_color, seed.x as int, seed.y as int)
            &&& points@.len() >= 1
            &&& points@[0] == first_foreground_pixel(image@, foreground_color).unwrap()
            &&& points@.no_duplicates()
            &&& forall|j: int|
                0 <= j < points@.len() ==> image@.in_bounds(
                    #[trigger] points@[j].x as int,
                    points@[j].y as int,
                ) && image@.pixel(points@[j].x as int, points@[j].y as int) == foreground_color
        },
{
    match find_first_foreground_pixel(foreground_color, image) {
        Some(start) => Some(trace_contour(image, foreground_color, start.x, start.y)),
        None => None,
    }
}

} // verus!
