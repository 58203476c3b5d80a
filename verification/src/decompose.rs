use vstd::prelude::*;
use crate::errors::GeometryError;
use crate::point::Point;
use crate::rect::{rects_overlap, PolyRect, Rectangle};
use crate::rect_corner::RectCorner;
use crate::wall::Wall;
use crate::wall_model::WallModel;

verus! {

/// The sequence holds the value somewhere.
pub open spec fn seq_contains(s: Seq<i32>, y: int) -> bool {
    exists|k: int| 0 <= k < s.len() && s[k] == y
}

/// The sequence ascends strictly.
pub open spec fn strict_sorted(s: Seq<i32>) -> bool {
    forall|i: int, j: int| 0 <= i < j < s.len() ==> s[i] < s[j]
}

/// The corner's outgoing edge is vertical and its y-extent contains the
/// whole interval `[lo, hi]`.
pub open spec fn corner_edge_covers(c: RectCorner, lo: int, hi: int) -> bool {
    let a = c.point.y as int;
    let b = c.outgoing.y as int;
    &&& c.corner_type.spec_outgoing_part().spec_is_vertical()
    &&& if a <= b {
        a <= lo && hi <= b
    } else {
        b <= lo && hi <= a
    }
}

/// The smallest corner index at or after `i` whose outgoing vertical edge
/// covers `[lo, hi]`.
pub open spec fn first_edge_cover_from(s: Seq<RectCorner>, lo: int, hi: int, i: int) -> Option<int>
    decreases s.len() - i,
{
    if i < 0 || i >= s.len() {
        None
    } else if corner_edge_covers(s[i], lo, hi) {
        Some(i)
    } else {
        first_edge_cover_from(s, lo, hi, i + 1)
    }
}

/// The x-coordinate of the wall across the y-interval `[lo, hi]`: the x of
/// the first corner whose outgoing vertical edge covers the interval.
pub open spec fn wall_x_at(w: Wall, lo: int, hi: int) -> Option<int> {
    match first_edge_cover_from(w.rect_corners@, lo, hi, 0) {
        Some(i) => Some(w.rect_corners@[i].point.x as int),
        None => None,
    }
}

/// Some corner of the wall has an edge endpoint at height `y`.
pub open spec fn wall_has_endpoint_y(w: Wall, y: int) -> bool {
    exists|i: int| 0 <= i < w.rect_corners@.len()
        && ((#[trigger] w.rect_corners@[i]).point.y == y || w.rect_corners@[i].outgoing.y == y)
}

/// The wall at arena index `r` is a Reverse wall of the model.
pub open spec fn is_reverse_wall(m: WallModel, r: int) -> bool {
    0 <= r < m.walls@.len() && !m.walls@[r].spec_is_forward()
}

/// Height `y` lies within the reverse wall's y-span and is an edge
/// endpoint of that wall or of a shadowing forward wall among the first
/// `bound` walls of the arena.
pub open spec fn cut_candidate_below(m: WallModel, r: int, y: int, bound: int) -> bool {
    let rw = m.walls@[r];
    &&& rw.spec_bottom_most().point.y <= y <= rw.spec_top_most().point.y
    &&& (wall_has_endpoint_y(rw, y) || exists|f: int| 0 <= f < bound
        && (#[trigger] m.walls@[f]).spec_shadows(rw) && wall_has_endpoint_y(m.walls@[f], y))
}

/// Height `y` is a cut of the reverse wall at index `r`: it lies within the
/// wall's y-span and is an edge endpoint of that wall or of some forward
/// wall shadowing it. The cuts split the wall's span into the sub-spans
/// that each give one rectangle.
pub open spec fn is_cut(m: WallModel, r: int, y: int) -> bool {
    cut_candidate_below(m, r, y, m.walls@.len() as int)
}

/// `lo` and `hi` are consecutive cuts of the reverse wall at index `r`.
pub open spec fn adjacent_cuts(m: WallModel, r: int, lo: int, hi: int) -> bool {
    &&& is_cut(m, r, lo)
    &&& is_cut(m, r, hi)
    &&& lo < hi
    &&& forall|y: int| lo < y < hi ==> !is_cut(m, r, y)
}

/// `x` is the x-coordinate, across `[lo, hi]`, of some forward wall that
/// shadows the reverse wall at index `r`, considering only walls with arena
/// index below `bound`.
pub open spec fn forward_x_candidate_below(m: WallModel, r: int, lo: int, hi: int, x: int, bound: int) -> bool {
    exists|f: int| 0 <= f < bound && (#[trigger] m.walls@[f]).spec_shadows(m.walls@[r])
        && wall_x_at(m.walls@[f], lo, hi) == Some(x)
}

/// `x` is the x-coordinate, across `[lo, hi]`, of some forward wall that
/// shadows the reverse wall at index `r`.
pub open spec fn forward_x_candidate(m: WallModel, r: int, lo: int, hi: int, x: int) -> bool {
    forward_x_candidate_below(m, r, lo, hi, x, m.walls@.len() as int)
}

/// The sub-span `[lo, hi]` of the reverse wall at index `r` is bounded on
/// the left by that wall and on the right by at least one shadowing forward
/// wall whose edge spans it strictly to its right.
pub open spec fn span_covered(m: WallModel, r: int, lo: int, hi: int) -> bool {
    match wall_x_at(m.walls@[r], lo, hi) {
        Some(xr) => exists|x: int| #[trigger] forward_x_candidate(m, r, lo, hi, x) && x > xr,
        None => false,
    }
}

/// `rect` is the rectangle emitted for sub-span `[lo, hi]` of the reverse
/// wall at index `r`: its left edge on that wall, its right edge on the
/// nearest (minimal-x) shadowing forward wall strictly to the right, its
/// y-extent the sub-span.
pub open spec fn span_rect(m: WallModel, r: int, lo: int, hi: int, rect: Rectangle) -> bool {
    let xr = wall_x_at(m.walls@[r], lo, hi).unwrap();
    &&& wall_x_at(m.walls@[r], lo, hi) is Some
    &&& rect.p0.x as int == xr
    &&& rect.p0.y as int == lo
    &&& rect.p1.y as int == hi
    &&& rect.p1.x as int > xr
    &&& forward_x_candidate(m, r, lo, hi, rect.p1.x as int)
    &&& forall|x: int| #[trigger] forward_x_candidate(m, r, lo, hi, x) && x > xr
        ==> rect.p1.x as int <= x
}

/// The reverse wall at index `r` can be matched: its span is non-degenerate
/// and every sub-span between consecutive cuts is covered by a shadowing
/// forward wall.
pub open spec fn wall_decomposable(m: WallModel, r: int) -> bool {
    let rw = m.walls@[r];
    &&& rw.spec_bottom_most().point.y < rw.spec_top_most().point.y
    &&& forall|lo: int, hi: int| #[trigger] adjacent_cuts(m, r, lo, hi) ==> span_covered(m, r, lo, hi)
}

/// The x-coordinate of the wall across the y-interval `[lo, hi]`, as
/// executable code; see [`wall_x_at`].
fn x_at_span(w: &Wall, lo: i32, hi: i32) -> (r: Option<i32>)
    ensures
        r is Some <==> wall_x_at(*w, lo as int, hi as int) is Some,
        r is Some ==> r.unwrap() as int == wall_x_at(*w, lo as int, hi as int).unwrap(),
{
    let n: usize = w.rect_corners.len();
    let mut ix: usize = 0;
    while ix < n
        invariant
            n == w.rect_corners@.len(),
            ix <= n,
            first_edge_cover_from(w.rect_corners@, lo as int, hi as int, 0)
                == first_edge_cover_from(w.rect_corners@, lo as int, hi as int, ix as int),
        decreases n - ix,
    {
        let c: &RectCorner = &w.rect_corners[ix];
        if c.corner_type.outgoing_part().is_vertical() {
            let a: i32 = c.point.y;
            let b: i32 = c.outgoing.y;
            let covered: bool = if a <= b {
                a <= lo && hi <= b
            } else {
                b <= lo && hi <= a
            };
            if covered {
                assert(corner_edge_covers(w.rect_corners@[ix as int], lo as int, hi as int));
                return Some(c.point.x);
            }
        }
        assert(!corner_edge_covers(w.rect_corners@[ix as int], lo as int, hi as int));
        ix = ix + 1;
    }
    None
}

/// Inserts a value into a strictly sorted list, keeping it strictly sorted;
/// a value already present is left alone.
fn insert_sorted_unique(cuts0: Vec<i32>, val: i32) -> (r: Vec<i32>)
    requires
        strict_sorted(cuts0@),
    ensures
        strict_sorted(r@),
        forall|y: int| seq_contains(r@, y)
            <==> (seq_contains(cuts0@, y) || y == val as int),
{
    let mut cuts: Vec<i32> = cuts0;
    let ghost orig = cuts@;
    let n: usize = cuts.len();
    let mut pos: usize = 0;
    while pos < n && cuts[pos] < val
        invariant
            n == cuts@.len(),
            cuts@ =~= orig,
            pos <= n,
            forall|i: int| 0 <= i < pos as int ==> cuts@[i] < val,
        decreases n - pos,
    {
        pos = pos + 1;
    }
    assert(cuts@ =~= orig);
    assert(pos == n || cuts@[pos as int] >= val);
    if pos < n && cuts[pos] == val {
        assert(seq_contains(cuts@, val as int));
        assert(forall|y: int| seq_contains(cuts@, y)
            <==> (seq_contains(cuts0@, y) || y == val as int));
        return cuts;
    }
    let ghost before = cuts@;
    cuts.insert(pos, val);
    assert forall|y: int| seq_contains(cuts@, y)
        implies (seq_contains(before, y) || y == val as int) by {
        let k = choose|k: int| 0 <= k < cuts@.len() && cuts@[k] == y;
        if k < pos as int {
            assert(before[k] == y);
        } else if k > pos as int {
            assert(before[k - 1] == y);
        }
    }
    assert forall|y: int| seq_contains(before, y) || y == val as int
        implies seq_contains(cuts@, y) by {
        if y == val as int {
            assert(cuts@[pos as int] == y);
        } else {
            let k = choose|k: int| 0 <= k < before.len() && before[k] == y;
            if k < pos as int {
                assert(cuts@[k] == y);
            } else {
                assert(cuts@[k + 1] == y);
            }
        }
    }
    assert(forall|y: int| seq_contains(cuts@, y) <==> (seq_contains(orig, y) || y == val as int));
    assert(forall|y: int| seq_contains(cuts@, y) <==> (seq_contains(cuts0@, y) || y == val as int));
    assert forall|i: int, j: int| 0 <= i < j < cuts@.len() implies cuts@[i] < cuts@[j] by {
        if j < pos as int {
            assert(before[i] < before[j]);
        } else if i > pos as int {
            assert(before[i - 1] < before[j - 1]);
        } else if i == pos as int {
            assert(cuts@[j] == before[j - 1]);
            assert(before[j - 1] >= val);
            assert(before[j - 1] != val);
        } else if j == pos as int {
            assert(cuts@[i] == before[i]);
        } else {
            assert(cuts@[i] == before[i] && cuts@[j] == before[j - 1]);
            assert(before[i] < val);
            assert(before[j - 1] >= val);
        }
    }
    cuts
}

/// Some corner of the wall with index below `bound` has an edge endpoint at
/// height `y`.
pub open spec fn wall_endpoint_below(w: Wall, y: int, bound: int) -> bool {
    exists|i: int| 0 <= i < bound && i < w.rect_corners@.len()
        && ((#[trigger] w.rect_corners@[i]).point.y == y || w.rect_corners@[i].outgoing.y == y)
}

/// Inserts the value into the cut list when it lies within `[rb, rt]`.
fn insert_if_in_range(cuts0: Vec<i32>, val: i32, rb: i32, rt: i32) -> (r: Vec<i32>)
    requires
        strict_sorted(cuts0@),
    ensures
        strict_sorted(r@),
        forall|y: int| seq_contains(r@, y)
            <==> (seq_contains(cuts0@, y)
                || (rb as int <= y <= rt as int && y == val as int)),
{
    if rb <= val && val <= rt {
        insert_sorted_unique(cuts0, val)
    } else {
        cuts0
    }
}

/// One more corner extends the endpoint set by exactly that corner's two
/// edge endpoints.
proof fn lemma_endpoint_below_step(w: Wall, y: int, i: int, j: int)
    requires
        0 <= i < w.rect_corners@.len(),
        j == i + 1,
    ensures
        wall_endpoint_below(w, y, j)
            <==> (wall_endpoint_below(w, y, i)
                || w.rect_corners@[i].point.y == y
                || w.rect_corners@[i].outgoing.y == y),
{
    if wall_endpoint_below(w, y, j) {
        let k = choose|k: int| 0 <= k < j && k < w.rect_corners@.len()
            && ((#[trigger] w.rect_corners@[k]).point.y == y || w.rect_corners@[k].outgoing.y == y);
        if k < i {
            assert(wall_endpoint_below(w, y, i));
        } else {
            assert(w.rect_corners@[i].point.y == y || w.rect_corners@[i].outgoing.y == y);
        }
    }
    if wall_endpoint_below(w, y, i) {
        let k = choose|k: int| 0 <= k < i && k < w.rect_corners@.len()
            && ((#[trigger] w.rect_corners@[k]).point.y == y || w.rect_corners@[k].outgoing.y == y);
        assert(0 <= k < j && k < w.rect_corners@.len()
            && (w.rect_corners@[k].point.y == y || w.rect_corners@[k].outgoing.y == y));
        assert(wall_endpoint_below(w, y, j));
    }
    if w.rect_corners@[i].point.y == y || w.rect_corners@[i].outgoing.y == y {
        assert(0 <= i < j && i < w.rect_corners@.len()
            && (w.rect_corners@[i].point.y == y || w.rect_corners@[i].outgoing.y == y));
        assert(wall_endpoint_below(w, y, j));
    }
}

/// The full endpoint set is the set below the corner count.
proof fn lemma_endpoint_below_all(w: Wall, y: int)
    ensures
        wall_endpoint_below(w, y, w.rect_corners@.len() as int) <==> wall_has_endpoint_y(w, y),
{
}

/// Merges all of the wall's edge endpoints within `[rb, rt]` into a strictly
/// sorted cut list.
fn merge_wall_cuts(cuts0: Vec<i32>, w: &Wall, rb: i32, rt: i32) -> (r: Vec<i32>)
    requires
        strict_sorted(cuts0@),
    ensures
        strict_sorted(r@),
        forall|y: int| #![trigger seq_contains(cuts0@, y)] seq_contains(r@, y)
            <==> (seq_contains(cuts0@, y)
                || (rb as int <= y <= rt as int && wall_has_endpoint_y(*w, y))),
{
    let mut cuts: Vec<i32> = cuts0;
    let ghost base = cuts@;
    let n: usize = w.rect_corners.len();
    let mut i: usize = 0;
    while i < n
        invariant
            n == w.rect_corners@.len(),
            i <= n,
            strict_sorted(cuts@),
            forall|y: int| #![trigger seq_contains(base, y)] seq_contains(cuts@, y)
                <==> (seq_contains(base, y)
                    || (rb as int <= y <= rt as int && wall_endpoint_below(*w, y, i as int))),
        decreases n - i,
    {
        let ghost prev = cuts@;
        let ghost i0 = i as int;
        assert(forall|y: int| seq_contains(prev, y)
            <==> (seq_contains(base, y)
                || (rb as int <= y <= rt as int && wall_endpoint_below(*w, y, i0))));
        let c: &RectCorner = &w.rect_corners[i];
        let py: i32 = c.point.y;
        let oy: i32 = c.outgoing.y;
        let with_py: Vec<i32> = insert_if_in_range(cuts, py, rb, rt);
        let ghost mid = with_py@;
        cuts = insert_if_in_range(with_py, oy, rb, rt);
        i = i + 1;
        assert forall|y: int| #![trigger seq_contains(base, y)] seq_contains(cuts@, y)
            <==> (seq_contains(base, y)
                || (rb as int <= y <= rt as int && wall_endpoint_below(*w, y, i as int))) by {
            lemma_endpoint_below_step(*w, y, i0, i as int);
            assert(seq_contains(prev, y)
                <==> (seq_contains(base, y)
                    || (rb as int <= y <= rt as int && wall_endpoint_below(*w, y, i0))));
            assert(seq_contains(mid, y)
                <==> (seq_contains(prev, y)
                    || (rb as int <= y <= rt as int && y == py as int)));
            assert(seq_contains(cuts@, y)
                <==> (seq_contains(mid, y)
                    || (rb as int <= y <= rt as int && y == oy as int)));
        }
    }
    assert forall|y: int| #![trigger seq_contains(base, y)] seq_contains(cuts@, y)
        <==> (seq_contains(base, y)
            || (rb as int <= y <= rt as int && wall_has_endpoint_y(*w, y))) by {
        lemma_endpoint_below_all(*w, y);
    }
    assert(forall|y: int| #![trigger seq_contains(cuts0@, y)] seq_contains(cuts@, y)
        <==> (seq_contains(cuts0@, y)
            || (rb as int <= y <= rt as int && wall_has_endpoint_y(*w, y))));
    cuts
}

/// Equal bounds name the same cut candidates.
proof fn lemma_cut_below_eq(m: WallModel, r: int, y: int, b1: int, b2: int)
    requires
        b1 == b2,
    ensures
        cut_candidate_below(m, r, y, b1) == cut_candidate_below(m, r, y, b2),
{
}

/// One more wall extends the cut candidates by that wall's in-span
/// endpoints, when it shadows the reverse wall.
proof fn lemma_cut_below_step(m: WallModel, r: int, y: int, f: int, f1: int)
    requires
        0 <= r < m.walls@.len(),
        0 <= f < m.walls@.len(),
        f1 == f + 1,
    ensures
        cut_candidate_below(m, r, y, f1)
            <==> (cut_candidate_below(m, r, y, f)
                || (m.walls@[r].spec_bottom_most().point.y <= y
                    && y <= m.walls@[r].spec_top_most().point.y
                    && m.walls@[f].spec_shadows(m.walls@[r])
                    && wall_has_endpoint_y(m.walls@[f], y))),
{
    let rw = m.walls@[r];
    if cut_candidate_below(m, r, y, f1) && !wall_has_endpoint_y(rw, y) {
        let g = choose|g: int| 0 <= g < f1 && (#[trigger] m.walls@[g]).spec_shadows(rw)
            && wall_has_endpoint_y(m.walls@[g], y);
        if g < f {
            assert(exists|g2: int| 0 <= g2 < f && (#[trigger] m.walls@[g2]).spec_shadows(rw)
                && wall_has_endpoint_y(m.walls@[g2], y));
        } else {
            assert(m.walls@[f].spec_shadows(rw) && wall_has_endpoint_y(m.walls@[f], y));
        }
    }
    if cut_candidate_below(m, r, y, f) && !wall_has_endpoint_y(rw, y) {
        let g = choose|g: int| 0 <= g < f && (#[trigger] m.walls@[g]).spec_shadows(rw)
            && wall_has_endpoint_y(m.walls@[g], y);
        assert(0 <= g < f1 && m.walls@[g].spec_shadows(rw)
            && wall_has_endpoint_y(m.walls@[g], y));
    }
    if rw.spec_bottom_most().point.y <= y && y <= rw.spec_top_most().point.y
        && m.walls@[f].spec_shadows(rw) && wall_has_endpoint_y(m.walls@[f], y) {
        assert(0 <= f < f1 && m.walls@[f].spec_shadows(rw)
            && wall_has_endpoint_y(m.walls@[f], y));
        assert(cut_candidate_below(m, r, y, f1));
    }
}

/// The sorted cut list of the reverse wall at index `r_ix`: exactly the
/// heights that [`is_cut`] accepts.
fn collect_cuts(m: &WallModel, r_ix: usize) -> (cuts: Vec<i32>)
    requires
        m.wf(),
        is_reverse_wall(*m, r_ix as int),
    ensures
        strict_sorted(cuts@),
        forall|y: int| #![trigger is_cut(*m, r_ix as int, y)] seq_contains(cuts@, y)
            <==> is_cut(*m, r_ix as int, y),
{
    let rw: &Wall = &m.walls[r_ix];
    let rb: i32 = rw.bottom_most().point.y;
    let rt: i32 = rw.top_most().point.y;

    let empty: Vec<i32> = Vec::new();
    let ghost empty_view = empty@;
    assert(forall|y: int| !seq_contains(empty_view, y));
    let mut cuts: Vec<i32> = merge_wall_cuts(empty, rw, rb, rt);

    let n: usize = m.walls.len();
    let mut f: usize = 0;
    assert forall|y: int| #![trigger seq_contains(cuts@, y)] seq_contains(cuts@, y)
        <==> cut_candidate_below(*m, r_ix as int, y, f as int) by {
        assert(!seq_contains(empty_view, y));
        assert(wall_has_endpoint_y(*rw, y) == wall_has_endpoint_y(m.walls@[r_ix as int], y));
    }
    while f < n
        invariant
            m.wf(),
            is_reverse_wall(*m, r_ix as int),
            n == m.walls@.len(),
            (r_ix as int) < n as int,
            f <= n,
            *rw == m.walls@[r_ix as int],
            rb == rw.spec_bottom_most().point.y,
            rt == rw.spec_top_most().point.y,
            strict_sorted(cuts@),
            forall|y: int| #![trigger seq_contains(cuts@, y)] seq_contains(cuts@, y)
                <==> cut_candidate_below(*m, r_ix as int, y, f as int),
        decreases n - f,
    {
        let ghost prev = cuts@;
        let ghost f0 = f as int;
        let fw: &Wall = &m.walls[f];
        let shadow: bool = fw.shadows(rw);
        if shadow {
            let merged: Vec<i32> = merge_wall_cuts(cuts, fw, rb, rt);
            cuts = merged;
        }
        f = f + 1;
        assert forall|y: int| #![trigger seq_contains(cuts@, y)] seq_contains(cuts@, y)
            <==> cut_candidate_below(*m, r_ix as int, y, f as int) by {
            lemma_cut_below_step(*m, r_ix as int, y, f0, f as int);
            assert(seq_contains(prev, y) <==> cut_candidate_below(*m, r_ix as int, y, f0));
            if shadow {
                assert(seq_contains(cuts@, y)
                    <==> (seq_contains(prev, y)
                        || (rb as int <= y <= rt as int && wall_has_endpoint_y(*fw, y))));
            } else {
                assert(seq_contains(cuts@, y) <==> seq_contains(prev, y));
                assert(!(m.walls@[f0].spec_shadows(*rw)));
            }
        }
    }
    assert forall|y: int| #![trigger seq_contains(cuts@, y)] seq_contains(cuts@, y)
        <==> is_cut(*m, r_ix as int, y) by {
        lemma_cut_below_eq(*m, r_ix as int, y, f as int, m.walls@.len() as int);
    }
    assert forall|y: int| #![trigger is_cut(*m, r_ix as int, y)] seq_contains(cuts@, y)
        <==> is_cut(*m, r_ix as int, y) by {
        assert(seq_contains(cuts@, y) == seq_contains(cuts@, y));
    }
    cuts
}

/// Consecutive entries of the full sorted cut list are adjacent cuts.
proof fn lemma_consecutive_adjacent(m: WallModel, r: int, cuts: Seq<i32>, j: int)
    requires
        strict_sorted(cuts),
        forall|y: int| seq_contains(cuts, y) <==> is_cut(m, r, y),
        0 <= j,
        j + 1 < cuts.len(),
    ensures
        adjacent_cuts(m, r, cuts[j] as int, cuts[j + 1] as int),
{
    assert(seq_contains(cuts, cuts[j] as int));
    assert(seq_contains(cuts, cuts[j + 1] as int));
    assert forall|y: int| cuts[j] < y < cuts[j + 1] implies !is_cut(m, r, y) by {
        if is_cut(m, r, y) {
            assert(seq_contains(cuts, y));
            let k = choose|k: int| 0 <= k < cuts.len() && #[trigger] cuts[k] == y;
            assert(0 <= k < cuts.len() && cuts[k] == y);
            if k < j {
                assert(cuts[k] < cuts[j]);
            } else if k > j + 1 {
                assert(cuts[j + 1] < cuts[k]);
            }
        }
    }
}

/// Every adjacent cut pair appears as consecutive entries of the full
/// sorted cut list.
proof fn lemma_adjacent_is_consecutive(m: WallModel, r: int, cuts: Seq<i32>, lo: int, hi: int)
    requires
        strict_sorted(cuts),
        forall|y: int| seq_contains(cuts, y) <==> is_cut(m, r, y),
        adjacent_cuts(m, r, lo, hi),
    ensures
        exists|j: int| 0 <= j && j + 1 < cuts.len() && #[trigger] cuts[j] == lo && cuts[j + 1] == hi,
{
    assert(seq_contains(cuts, lo));
    assert(seq_contains(cuts, hi));
    let j = choose|j: int| 0 <= j < cuts.len() && #[trigger] cuts[j] == lo;
    let j2 = choose|k: int| 0 <= k < cuts.len() && #[trigger] cuts[k] == hi;
    assert(0 <= j < cuts.len() && cuts[j] == lo);
    assert(0 <= j2 < cuts.len() && cuts[j2] == hi);
    assert(j < j2) by {
        if j2 < j {
            assert(cuts[j2] < cuts[j]);
        } else if j2 == j {
        }
    }
    if j2 > j + 1 {
        assert(cuts[j] < cuts[j + 1] < cuts[j2]);
        assert(seq_contains(cuts, cuts[j + 1] as int));
        assert(is_cut(m, r, cuts[j + 1] as int));
        assert(false);
    }
    assert(cuts[j] == lo && cuts[j + 1] == hi);
}

/// One more wall extends the forward x-candidates by that wall's span
/// x-coordinate, when it is a shadowing forward wall with an edge across
/// the span.
proof fn lemma_candidate_step(m: WallModel, r: int, lo: int, hi: int, x: int, f: int, f1: int)
    requires
        0 <= r < m.walls@.len(),
        0 <= f < m.walls@.len(),
        f1 == f + 1,
    ensures
        forward_x_candidate_below(m, r, lo, hi, x, f1)
            <==> (forward_x_candidate_below(m, r, lo, hi, x, f)
                || (m.walls@[f].spec_shadows(m.walls@[r])
                    && wall_x_at(m.walls@[f], lo, hi) == Some(x))),
{
    if forward_x_candidate_below(m, r, lo, hi, x, f1) {
        let g = choose|g: int| 0 <= g < f1 && (#[trigger] m.walls@[g]).spec_shadows(m.walls@[r])
            && wall_x_at(m.walls@[g], lo, hi) == Some(x);
        if g < f {
            assert(forward_x_candidate_below(m, r, lo, hi, x, f));
        } else {
            assert(m.walls@[f].spec_shadows(m.walls@[r])
                && wall_x_at(m.walls@[f], lo, hi) == Some(x));
        }
    }
    if forward_x_candidate_below(m, r, lo, hi, x, f) {
        let g = choose|g: int| 0 <= g < f && (#[trigger] m.walls@[g]).spec_shadows(m.walls@[r])
            && wall_x_at(m.walls@[g], lo, hi) == Some(x);
        assert(0 <= g < f1 && m.walls@[g].spec_shadows(m.walls@[r])
            && wall_x_at(m.walls@[g], lo, hi) == Some(x));
    }
    if m.walls@[f].spec_shadows(m.walls@[r]) && wall_x_at(m.walls@[f], lo, hi) == Some(x) {
        assert(0 <= f < f1 && m.walls@[f].spec_shadows(m.walls@[r])
            && wall_x_at(m.walls@[f], lo, hi) == Some(x));
        assert(forward_x_candidate_below(m, r, lo, hi, x, f1));
    }
}

/// Equal bounds name the same forward x-candidates.
proof fn lemma_candidate_eq(m: WallModel, r: int, lo: int, hi: int, x: int, b1: int, b2: int)
    requires
        b1 == b2,
    ensures
        forward_x_candidate_below(m, r, lo, hi, x, b1) == forward_x_candidate_below(m, r, lo, hi, x, b2),
{
}

/// The smallest x-coordinate, strictly right of `xr`, at which a shadowing
/// forward wall crosses the span `[lo, hi]`; nothing when no such wall
/// does.
fn min_forward_x(m: &WallModel, r_ix: usize, lo: i32, hi: i32, xr: i32) -> (r: Option<i32>)
    requires
        m.wf(),
        is_reverse_wall(*m, r_ix as int),
    ensures
        r is Some ==> {
            &&& r.unwrap() > xr
            &&& forward_x_candidate(*m, r_ix as int, lo as int, hi as int, r.unwrap() as int)
            &&& forall|x: int| #[trigger] forward_x_candidate(*m, r_ix as int, lo as int, hi as int, x)
                && x > xr as int ==> r.unwrap() as int <= x
        },
        r is None ==> forall|x: int| #[trigger] forward_x_candidate(*m, r_ix as int, lo as int, hi as int, x)
            ==> !(x > xr as int),
{
    let rw: &Wall = &m.walls[r_ix];
    let n: usize = m.walls.len();
    let mut best: Option<i32> = None;
    let mut f: usize = 0;
    while f < n
        invariant
            m.wf(),
            is_reverse_wall(*m, r_ix as int),
            n == m.walls@.len(),
            (r_ix as int) < n as int,
            f <= n,
            *rw == m.walls@[r_ix as int],
            best is Some ==> {
                &&& best.unwrap() > xr
                &&& forward_x_candidate_below(*m, r_ix as int, lo as int, hi as int,
                    best.unwrap() as int, f as int)
                &&& forall|x: int| #[trigger] forward_x_candidate_below(*m, r_ix as int,
                    lo as int, hi as int, x, f as int) && x > xr as int
                    ==> best.unwrap() as int <= x
            },
            best is None ==> forall|x: int| #[trigger] forward_x_candidate_below(*m, r_ix as int,
                lo as int, hi as int, x, f as int) ==> !(x > xr as int),
        decreases n - f,
    {
        let ghost f0 = f as int;
        let ghost best0 = best;
        let fw: &Wall = &m.walls[f];
        let shadow: bool = fw.shadows(rw);
        let mut found: Option<i32> = None;
        if shadow {
            found = x_at_span(fw, lo, hi);
        }
        let ghost found0 = found;
        match found {
            Some(x) => {
                if x > xr {
                    match best {
                        Some(b) => {
                            if x < b {
                                best = Some(x);
                            }
                        },
                        None => {
                            best = Some(x);
                        },
                    }
                }
            },
            None => {},
        }
        f = f + 1;
        proof {
            assert forall|x: int| forward_x_candidate_below(*m, r_ix as int, lo as int,
                hi as int, x, f as int)
                == (forward_x_candidate_below(*m, r_ix as int, lo as int, hi as int, x, f0)
                    || (m.walls@[f0].spec_shadows(m.walls@[r_ix as int])
                        && wall_x_at(m.walls@[f0], lo as int, hi as int) == Some(x))) by {
                lemma_candidate_step(*m, r_ix as int, lo as int, hi as int, x, f0, f as int);
            }
            if shadow {
                assert(m.walls@[f0].spec_shadows(m.walls@[r_ix as int]));
                match found0 {
                    Some(x) => {
                        assert(wall_x_at(m.walls@[f0], lo as int, hi as int) == Some(x as int));
                        assert(forward_x_candidate_below(*m, r_ix as int, lo as int, hi as int,
                            x as int, f as int));
                    },
                    None => {
                        assert(wall_x_at(m.walls@[f0], lo as int, hi as int) is None);
                    },
                }
            } else {
                assert(!(m.walls@[f0].spec_shadows(m.walls@[r_ix as int])));
            }
            match best {
                Some(b) => {
                    assert(forward_x_candidate_below(*m, r_ix as int, lo as int, hi as int,
                        b as int, f as int)) by {
                        if best0 == Some(b) {
                            assert(forward_x_candidate_below(*m, r_ix as int, lo as int,
                                hi as int, b as int, f0));
                        }
                    }
                    assert forall|x: int| #[trigger] forward_x_candidate_below(*m, r_ix as int,
                        lo as int, hi as int, x, f as int) && x > xr as int
                        implies b as int <= x by {
                        if forward_x_candidate_below(*m, r_ix as int, lo as int, hi as int, x, f0) {
                            assert(best0 is Some);
                        }
                    }
                },
                None => {
                    assert forall|x: int| #[trigger] forward_x_candidate_below(*m, r_ix as int,
                        lo as int, hi as int, x, f as int) implies !(x > xr as int) by {
                    }
                },
            }
        }
    }
    proof {
        assert forall|x: int| forward_x_candidate(*m, r_ix as int, lo as int, hi as int, x)
            == forward_x_candidate_below(*m, r_ix as int, lo as int, hi as int, x, f as int) by {
            lemma_candidate_eq(*m, r_ix as int, lo as int, hi as int, x,
                m.walls@.len() as int, f as int);
        }
        match best {
            Some(b) => {
                assert(forward_x_candidate(*m, r_ix as int, lo as int, hi as int, b as int));
                assert forall|x: int| #[trigger] forward_x_candidate(*m, r_ix as int,
                    lo as int, hi as int, x) && x > xr as int implies b as int <= x by {
                    assert(forward_x_candidate_below(*m, r_ix as int, lo as int, hi as int,
                        x, f as int));
                }
            },
            None => {
                assert forall|x: int| #[trigger] forward_x_candidate(*m, r_ix as int,
                    lo as int, hi as int, x) implies !(x > xr as int) by {
                    assert(forward_x_candidate_below(*m, r_ix as int, lo as int, hi as int,
                        x, f as int));
                }
            },
        }
    }
    best
}

/// The cut heights of the reverse wall at index `r` from height `y`
/// upward, in ascending order.
pub open spec fn cuts_from(m: WallModel, r: int, y: int) -> Seq<i32>
    decreases m.walls@[r].spec_top_most().point.y + 1 - y,
{
    let rt = m.walls@[r].spec_top_most().point.y as int;
    if y > rt {
        Seq::empty()
    } else if is_cut(m, r, y) {
        seq![y as i32] + cuts_from(m, r, y + 1)
    } else {
        cuts_from(m, r, y + 1)
    }
}

/// The full sorted cut list of the reverse wall at index `r`.
pub open spec fn cut_seq(m: WallModel, r: int) -> Seq<i32> {
    cuts_from(m, r, m.walls@[r].spec_bottom_most().point.y as int)
}

/// The cut heights from `y0` upward are strictly sorted and are exactly the
/// cuts at or above `y0`.
proof fn lemma_cuts_from_props(m: WallModel, r: int, y0: int)
    ensures
        strict_sorted(cuts_from(m, r, y0)),
        forall|y: int| #[trigger] seq_contains(cuts_from(m, r, y0), y)
            <==> (is_cut(m, r, y) && y0 <= y),
    decreases m.walls@[r].spec_top_most().point.y + 1 - y0,
{
    let rt = m.walls@[r].spec_top_most().point.y as int;
    let s = cuts_from(m, r, y0);
    if y0 > rt {
        assert forall|y: int| #[trigger] seq_contains(s, y)
            implies (is_cut(m, r, y) && y0 <= y) by {
        }
        assert forall|y: int| is_cut(m, r, y) && y0 <= y
            implies #[trigger] seq_contains(s, y) by {
            assert(y <= rt);
        }
    } else {
        lemma_cuts_from_props(m, r, y0 + 1);
        let tail = cuts_from(m, r, y0 + 1);
        if is_cut(m, r, y0) {
            assert(s =~= seq![y0 as i32] + tail);
            assert(s[0] == y0 as i32);
            assert forall|y: int| #[trigger] seq_contains(s, y)
                implies (is_cut(m, r, y) && y0 <= y) by {
                let k = choose|k: int| 0 <= k < s.len() && #[trigger] s[k] == y;
                if k == 0 {
                } else {
                    assert(s[k] == tail[k - 1]);
                    assert(seq_contains(tail, y));
                }
            }
            assert forall|y: int| is_cut(m, r, y) && y0 <= y
                implies #[trigger] seq_contains(s, y) by {
                if y == y0 {
                    assert(s[0] == y);
                } else {
                    assert(seq_contains(tail, y));
                    let k = choose|k: int| 0 <= k < tail.len() && #[trigger] tail[k] == y;
                    assert(s[k + 1] == y);
                }
            }
            assert forall|i: int, j: int| 0 <= i < j < s.len() implies s[i] < s[j] by {
                if i == 0 {
                    assert(s[j] == tail[j - 1]);
                    assert(seq_contains(tail, tail[j - 1] as int));
                    assert(y0 + 1 <= tail[j - 1]);
                } else {
                    assert(s[i] == tail[i - 1] && s[j] == tail[j - 1]);
                    let i2 = i - 1;
                    let j2 = j - 1;
                    assert(tail[i2] < tail[j2]);
                }
            }
        } else {
            assert(s =~= tail);
            assert forall|y: int| is_cut(m, r, y) && y0 <= y
                implies #[trigger] seq_contains(s, y) by {
                assert(y != y0);
            }
        }
    }
}

/// Two strictly sorted lists with the same members are the same list.
proof fn lemma_sorted_same_content(a: Seq<i32>, b: Seq<i32>)
    requires
        strict_sorted(a),
        strict_sorted(b),
        forall|y: int| seq_contains(a, y) <==> seq_contains(b, y),
    ensures
        a =~= b,
    decreases a.len(),
{
    if a.len() == 0 {
        if b.len() > 0 {
            assert(seq_contains(b, b[0] as int));
            assert(seq_contains(a, b[0] as int));
            assert(false);
        }
    } else {
        assert(seq_contains(a, a[0] as int));
        assert(seq_contains(b, a[0] as int));
        assert(b.len() > 0);
        assert(seq_contains(b, b[0] as int));
        assert(seq_contains(a, b[0] as int));
        // Each head is its list's least member, so the heads agree.
        assert(a[0] == b[0]) by {
            let ka = choose|k: int| 0 <= k < a.len() && #[trigger] a[k] == b[0] as int;
            let kb = choose|k: int| 0 <= k < b.len() && #[trigger] b[k] == a[0] as int;
            if ka > 0 {
                assert(a[0] < a[ka]);
            }
            if kb > 0 {
                assert(b[0] < b[kb]);
            }
        }
        let at = a.skip(1);
        let bt = b.skip(1);
        assert(strict_sorted(at)) by {
            assert forall|i: int, j: int| 0 <= i < j < at.len() implies at[i] < at[j] by {
                assert(at[i] == a[i + 1] && at[j] == a[j + 1]);
            }
        }
        assert(strict_sorted(bt)) by {
            assert forall|i: int, j: int| 0 <= i < j < bt.len() implies bt[i] < bt[j] by {
                assert(bt[i] == b[i + 1] && bt[j] == b[j + 1]);
            }
        }
        assert forall|y: int| seq_contains(at, y) <==> seq_contains(bt, y) by {
            assert(seq_contains(at, y) <==> (seq_contains(a, y) && y != a[0] as int)) by {
                if seq_contains(at, y) {
                    let k = choose|k: int| 0 <= k < at.len() && #[trigger] at[k] == y;
                    assert(a[k + 1] == y);
                    assert(a[0] < a[k + 1]);
                }
                if seq_contains(a, y) && y != a[0] as int {
                    let k = choose|k: int| 0 <= k < a.len() && #[trigger] a[k] == y;
                    assert(k > 0);
                    assert(at[k - 1] == y);
                }
            }
            assert(seq_contains(bt, y) <==> (seq_contains(b, y) && y != b[0] as int)) by {
                if seq_contains(bt, y) {
                    let k = choose|k: int| 0 <= k < bt.len() && #[trigger] bt[k] == y;
                    assert(b[k + 1] == y);
                    assert(b[0] < b[k + 1]);
                }
                if seq_contains(b, y) && y != b[0] as int {
                    let k = choose|k: int| 0 <= k < b.len() && #[trigger] b[k] == y;
                    assert(k > 0);
                    assert(bt[k - 1] == y);
                }
            }
        }
        lemma_sorted_same_content(at, bt);
        assert forall|i: int| 0 <= i < a.len() implies a[i] == b[i] by {
            if i > 0 {
                assert(a[i] == at[i - 1] && b[i] == bt[i - 1]);
            }
        }
    }
}

/// Some forward wall of the model shadows the wall at index `r`.
pub open spec fn wall_shadowed(m: WallModel, r: int) -> bool {
    exists|f: int| 0 <= f < m.walls@.len() && (#[trigger] m.walls@[f]).spec_shadows(m.walls@[r])
}

/// A reverse wall that no forward wall shadows cannot be matched: the
/// polygon is not decomposable, exactly as an open or self-intersecting
/// boundary must be reported.
pub proof fn lemma_unshadowed_reverse_not_decomposable(m: WallModel, r: int)
    requires
        is_reverse_wall(m, r),
        m.walls@[r].rect_corners@.len() > 0,
        !wall_shadowed(m, r),
    ensures
        !wall_decomposable(m, r),
{
    let rw = m.walls@[r];
    let rb = rw.spec_bottom_most().point.y as int;
    let rt = rw.spec_top_most().point.y as int;
    if rb < rt {
        assert(wall_has_endpoint_y(rw, rb)) by {
            let last = rw.rect_corners@.len() - 1;
            assert(rw.rect_corners@[last].point.y == rw.spec_last().point.y);
            assert(rw.rect_corners@[0].point.y == rw.spec_first().point.y);
        }
        assert(wall_has_endpoint_y(rw, rt)) by {
            let last = rw.rect_corners@.len() - 1;
            assert(rw.rect_corners@[last].point.y == rw.spec_last().point.y);
            assert(rw.rect_corners@[0].point.y == rw.spec_first().point.y);
        }
        assert(is_cut(m, r, rb));
        assert(is_cut(m, r, rt));
        lemma_cuts_from_props(m, r, rb);
        let cuts = cut_seq(m, r);
        assert(seq_contains(cuts, rb));
        assert(seq_contains(cuts, rt));
        assert(cuts.len() >= 2) by {
            let ka = choose|k: int| 0 <= k < cuts.len() && #[trigger] cuts[k] == rb;
            let kb = choose|k: int| 0 <= k < cuts.len() && #[trigger] cuts[k] == rt;
            assert(ka != kb);
        }
        lemma_consecutive_adjacent(m, r, cuts, 0);
        let lo = cuts[0] as int;
        let hi = cuts[1] as int;
        assert(adjacent_cuts(m, r, lo, hi));
        if wall_decomposable(m, r) {
            assert(span_covered(m, r, lo, hi));
            let x = choose|x: int| #[trigger] forward_x_candidate(m, r, lo, hi, x)
                && x > wall_x_at(m.walls@[r], lo, hi).unwrap();
            let f = choose|f: int| 0 <= f < m.walls@.len()
                && (#[trigger] m.walls@[f]).spec_shadows(m.walls@[r])
                && wall_x_at(m.walls@[f], lo, hi) == Some(x);
            assert(wall_shadowed(m, r));
            assert(false);
        }
    }
}

/// The number of rectangles the decomposition emits for the first `n`
/// walls of the arena: one per sub-span between consecutive cuts of each
/// reverse wall.
pub open spec fn rect_count_prefix(m: WallModel, n: int) -> int
    decreases n,
{
    if n <= 0 {
        0
    } else {
        rect_count_prefix(m, n - 1) + if is_reverse_wall(m, n - 1) {
            let c = cut_seq(m, n - 1).len() - 1;
            if c >= 0 { c } else { 0 }
        } else {
            0int
        }
    }
}

/// One more wall adds its own sub-span count.
proof fn lemma_rect_count_step(m: WallModel, n: int, n1: int)
    requires
        n1 == n + 1,
        n >= 0,
    ensures
        rect_count_prefix(m, n1) == rect_count_prefix(m, n) + if is_reverse_wall(m, n) {
            let c = cut_seq(m, n).len() - 1;
            if c >= 0 { c } else { 0 }
        } else {
            0int
        },
{
}

/// The emitted-rectangle count never shrinks as more walls are counted.
proof fn lemma_rect_count_mono(m: WallModel, a: int, b: int)
    requires
        0 <= a <= b,
    ensures
        rect_count_prefix(m, a) <= rect_count_prefix(m, b),
    decreases b - a,
{
    if a < b {
        lemma_rect_count_mono(m, a, b - 1);
        lemma_rect_count_step(m, b - 1, b);
    }
}

/// The rectangle is the emission of some sub-span of the reverse wall at
/// index `r`.
pub open spec fn rect_from_wall(m: WallModel, r: int, rect: Rectangle) -> bool {
    exists|lo: int, hi: int| #[trigger] adjacent_cuts(m, r, lo, hi) && span_rect(m, r, lo, hi, rect)
}

/// The rectangle is the emission of some sub-span of some reverse wall of
/// the model.
pub open spec fn rect_from_model(m: WallModel, rect: Rectangle) -> bool {
    exists|r: int| #[trigger] is_reverse_wall(m, r) && rect_from_wall(m, r, rect)
}

/// The sub-span `[lo, hi]` of the reverse wall at index `r` has its
/// rectangle in the list.
pub open spec fn span_emitted(m: WallModel, r: int, lo: int, hi: int, rects: Seq<Rectangle>) -> bool {
    exists|k: int| 0 <= k < rects.len() && #[trigger] span_rect(m, r, lo, hi, rects[k])
}

/// An emitted rectangle has positive area: its span ascends and its right
/// edge lies strictly right of its left edge.
pub proof fn lemma_rect_from_model_well_formed(m: WallModel, rect: Rectangle)
    requires
        rect_from_model(m, rect),
    ensures
        rect.well_formed(),
{
    let r = choose|r: int| #[trigger] is_reverse_wall(m, r) && rect_from_wall(m, r, rect);
    let (lo, hi) = choose|lo: int, hi: int| #[trigger] adjacent_cuts(m, r, lo, hi)
        && span_rect(m, r, lo, hi, rect);
    assert(lo < hi);
}

/// Decomposes one reverse wall into its rectangle list: one rectangle per
/// sub-span between consecutive cuts, bounded left by the reverse wall and
/// right by the nearest shadowing forward wall. A no-coverage error when
/// the wall's span is degenerate or some sub-span has no cover.
fn decompose_reverse_wall(m: &WallModel, r_ix: usize) -> (r: Result<Vec<Rectangle>, GeometryError>)
    requires
        m.wf(),
        is_reverse_wall(*m, r_ix as int),
    ensures
        r is Ok <==> wall_decomposable(*m, r_ix as int),
        r is Err ==> r == Err::<Vec<Rectangle>, GeometryError>(GeometryError::NoCoverage),
        r is Ok ==> forall|k: int| #![trigger r.unwrap()@[k]] 0 <= k < r.unwrap()@.len()
            ==> rect_from_wall(*m, r_ix as int, r.unwrap()@[k]),
        r is Ok ==> forall|lo: int, hi: int| #[trigger] adjacent_cuts(*m, r_ix as int, lo, hi)
            ==> span_emitted(*m, r_ix as int, lo, hi, r.unwrap()@),
        r is Ok ==> r.unwrap()@.len() + 1 == cut_seq(*m, r_ix as int).len(),
        r is Ok ==> forall|j: int| 0 <= j && j + 1 < cut_seq(*m, r_ix as int).len()
            ==> span_rect(*m, r_ix as int, cut_seq(*m, r_ix as int)[j] as int,
                cut_seq(*m, r_ix as int)[j + 1] as int, #[trigger] r.unwrap()@[j]),
{
    let rw: &Wall = &m.walls[r_ix];
    let rb: i32 = rw.bottom_most().point.y;
    let rt: i32 = rw.top_most().point.y;
    if rb >= rt {
        assert(!wall_decomposable(*m, r_ix as int));
        return Err(GeometryError::NoCoverage);
    }

    let cuts: Vec<i32> = collect_cuts(m, r_ix);
    let ghost cutsv = cuts@;
    let n_cuts: usize = cuts.len();

    let mut rects: Vec<Rectangle> = Vec::new();
    let mut j: usize = 0;
    while j + 1 < n_cuts
        invariant
            m.wf(),
            is_reverse_wall(*m, r_ix as int),
            *rw == m.walls@[r_ix as int],
            n_cuts == cutsv.len(),
            cuts@ =~= cutsv,
            strict_sorted(cutsv),
            forall|y: int| #![trigger is_cut(*m, r_ix as int, y)] seq_contains(cutsv, y)
                <==> is_cut(*m, r_ix as int, y),
            n_cuts == 0 ==> j == 0,
            n_cuts > 0 ==> j < n_cuts,
            rects@.len() == j as int,
            forall|k: int| 0 <= k < j as int ==> #[trigger] span_rect(*m, r_ix as int,
                cutsv[k] as int, cutsv[k + 1] as int, rects@[k]),
        decreases n_cuts - j,
    {
        let lo: i32 = cuts[j];
        let hi: i32 = cuts[j + 1];
        proof {
            lemma_consecutive_adjacent(*m, r_ix as int, cutsv, j as int);
        }
        let xr: i32 = match x_at_span(rw, lo, hi) {
            Some(x) => x,
            None => {
                assert(!span_covered(*m, r_ix as int, lo as int, hi as int));
                assert(!wall_decomposable(*m, r_ix as int));
                return Err(GeometryError::NoCoverage);
            },
        };
        let xf: i32 = match min_forward_x(m, r_ix, lo, hi, xr) {
            Some(x) => x,
            None => {
                assert(!span_covered(*m, r_ix as int, lo as int, hi as int));
                assert(!wall_decomposable(*m, r_ix as int));
                return Err(GeometryError::NoCoverage);
            },
        };
        let rect: Rectangle = Rectangle {
            p0: Point { x: xr, y: lo },
            p1: Point { x: xf, y: hi },
        };
        assert(span_rect(*m, r_ix as int, lo as int, hi as int, rect));
        rects.push(rect);
        j = j + 1;
    }

    proof {
        assert(seq_contains(cutsv, rb as int)) by {
            assert(is_cut(*m, r_ix as int, rb as int)) by {
                let rwv = m.walls@[r_ix as int];
                let last = rwv.rect_corners@.len() - 1;
                assert(rwv.rect_corners@[last].point.y == rb);
                assert(wall_has_endpoint_y(rwv, rb as int));
            }
        }
        assert(n_cuts >= 1);
        assert forall|lo: int, hi: int| #[trigger] adjacent_cuts(*m, r_ix as int, lo, hi)
            implies span_covered(*m, r_ix as int, lo, hi)
                && span_emitted(*m, r_ix as int, lo, hi, rects@) by {
            lemma_adjacent_is_consecutive(*m, r_ix as int, cutsv, lo, hi);
            let k = choose|k: int| 0 <= k && k + 1 < cutsv.len()
                && #[trigger] cutsv[k] == lo && cutsv[k + 1] == hi;
            assert(span_rect(*m, r_ix as int, lo, hi, rects@[k]));
        }
        assert(wall_decomposable(*m, r_ix as int));
        assert forall|k: int| #![trigger rects@[k]] 0 <= k < rects@.len()
            implies rect_from_wall(*m, r_ix as int, rects@[k]) by {
            lemma_consecutive_adjacent(*m, r_ix as int, cutsv, k);
            assert(adjacent_cuts(*m, r_ix as int, cutsv[k] as int, cutsv[k + 1] as int)
                && span_rect(*m, r_ix as int, cutsv[k] as int, cutsv[k + 1] as int, rects@[k]));
        }
        // The collected cut list is the one the specification enumerates.
        lemma_cuts_from_props(*m, r_ix as int, rb as int);
        assert forall|y: int| seq_contains(cutsv, y)
            <==> seq_contains(cut_seq(*m, r_ix as int), y) by {
            assert(seq_contains(cutsv, y) <==> is_cut(*m, r_ix as int, y));
            assert(seq_contains(cut_seq(*m, r_ix as int), y)
                <==> (is_cut(*m, r_ix as int, y) && rb as int <= y));
        }
        lemma_sorted_same_content(cutsv, cut_seq(*m, r_ix as int));
        assert(cutsv == cut_seq(*m, r_ix as int));
        assert(rects@.len() + 1 == cut_seq(*m, r_ix as int).len());
        assert forall|j: int| 0 <= j && j + 1 < cut_seq(*m, r_ix as int).len()
            implies span_rect(*m, r_ix as int, cut_seq(*m, r_ix as int)[j] as int,
                cut_seq(*m, r_ix as int)[j + 1] as int, #[trigger] rects@[j]) by {
            assert(span_rect(*m, r_ix as int, cutsv[j] as int, cutsv[j + 1] as int, rects@[j]));
        }
    }
    Ok(rects)
}

impl WallModel {
    /// Decomposes the model into its rectangle list: for every reverse wall,
    /// in arena order, exactly one rectangle per sub-span between its
    /// consecutive cuts, each tagged with the model's layer through the
    /// returned [`PolyRect`]; the list's length and every position are
    /// pinned by [`rect_count_prefix`] and [`cut_seq`]. A no-coverage
    /// error, and no rectangle list, when any reverse wall has a degenerate
    /// or uncovered span — in particular whenever some reverse wall is
    /// shadowed by no forward wall.
    pub fn decompose(&self) -> (r: Result<PolyRect, GeometryError>)
        requires
            self.wf(),
        ensures
            r is Ok <==> (forall|i: int| #[trigger] is_reverse_wall(*self, i)
                ==> wall_decomposable(*self, i)),
            r is Err ==> r == Err::<PolyRect, GeometryError>(GeometryError::NoCoverage),
            r is Ok ==> {
                let out = r.unwrap();
                &&& out.layer == self.layer
                &&& forall|k: int| #![trigger out.rects@[k]] 0 <= k < out.rects@.len()
                    ==> rect_from_model(*self, out.rects@[k])
                &&& forall|i: int, lo: int, hi: int| is_reverse_wall(*self, i)
                    && #[trigger] adjacent_cuts(*self, i, lo, hi)
                    ==> span_emitted(*self, i, lo, hi, out.rects@)
                &&& forall|k: int| 0 <= k < out.rects@.len()
                    ==> (#[trigger] out.rects@[k]).well_formed()
                &&& out.rects@.len() == rect_count_prefix(*self, self.walls@.len() as int)
                &&& forall|ri: int, j: int| is_reverse_wall(*self, ri)
                    && 0 <= j && j + 1 < cut_seq(*self, ri).len()
                    ==> span_rect(*self, ri, cut_seq(*self, ri)[j] as int,
                        cut_seq(*self, ri)[j + 1] as int,
                        #[trigger] out.rects@[rect_count_prefix(*self, ri) + j])
                &&& forall|i: int| #[trigger] is_reverse_wall(*self, i)
                    ==> wall_shadowed(*self, i)
            },
    {
        let n: usize = self.walls.len();
        let mut rects: Vec<Rectangle> = Vec::new();
        let mut i: usize = 0;
        while i < n
            invariant
                self.wf(),
                n == self.walls@.len(),
                i <= n,
                forall|i2: int| 0 <= i2 < i as int && #[trigger] is_reverse_wall(*self, i2)
                    ==> wall_decomposable(*self, i2),
                forall|k: int| #![trigger rects@[k]] 0 <= k < rects@.len()
                    ==> rect_from_model(*self, rects@[k]),
                forall|i2: int, lo: int, hi: int| 0 <= i2 < i as int && is_reverse_wall(*self, i2)
                    && #[trigger] adjacent_cuts(*self, i2, lo, hi)
                    ==> span_emitted(*self, i2, lo, hi, rects@),
                rects@.len() == rect_count_prefix(*self, i as int),
                forall|ri: int, j: int| 0 <= ri < i as int && is_reverse_wall(*self, ri)
                    && 0 <= j && j + 1 < cut_seq(*self, ri).len()
                    ==> span_rect(*self, ri, cut_seq(*self, ri)[j] as int,
                        cut_seq(*self, ri)[j + 1] as int,
                        #[trigger] rects@[rect_count_prefix(*self, ri) + j]),
                forall|i2: int| 0 <= i2 < i as int && #[trigger] is_reverse_wall(*self, i2)
                    ==> wall_shadowed(*self, i2),
            decreases n - i,
        {
            let ghost i0 = i as int;
            let ghost rects0 = rects@;
            let is_rev: bool = self.walls[i].is_reverse();
            if is_rev {
                assert(is_reverse_wall(*self, i0));
                let mut wall_rects: Vec<Rectangle> = match decompose_reverse_wall(self, i) {
                    Ok(rs) => rs,
                    Err(_) => {
                        assert(!wall_decomposable(*self, i0));
                        return Err(GeometryError::NoCoverage);
                    },
                };
                let ghost wallv = wall_rects@;
                rects.append(&mut wall_rects);
                i = i + 1;
                proof {
                    assert(rects@ =~= rects0 + wallv);
                    assert forall|k: int| #![trigger rects@[k]] 0 <= k < rects@.len()
                        implies rect_from_model(*self, rects@[k]) by {
                        if k < rects0.len() {
                            assert(rects@[k] == rects0[k]);
                            assert(rect_from_model(*self, rects0[k]));
                        } else {
                            assert(rects@[k] == wallv[k - rects0.len()]);
                            assert(rect_from_wall(*self, i0, wallv[k - rects0.len()]));
                            assert(is_reverse_wall(*self, i0)
                                && rect_from_wall(*self, i0, rects@[k]));
                        }
                    }
                    assert forall|i2: int, lo: int, hi: int| 0 <= i2 < i as int
                        && is_reverse_wall(*self, i2)
                        && #[trigger] adjacent_cuts(*self, i2, lo, hi)
                        implies span_emitted(*self, i2, lo, hi, rects@) by {
                        if i2 < i0 {
                            let k = choose|k: int| 0 <= k < rects0.len()
                                && #[trigger] span_rect(*self, i2, lo, hi, rects0[k]);
                            assert(rects@[k] == rects0[k]);
                            assert(span_rect(*self, i2, lo, hi, rects@[k]));
                        } else {
                            assert(i2 == i0);
                            assert(span_emitted(*self, i0, lo, hi, wallv));
                            let k = choose|k: int| 0 <= k < wallv.len()
                                && #[trigger] span_rect(*self, i0, lo, hi, wallv[k]);
                            assert(rects@[k + rects0.len()] == wallv[k]);
                            assert(span_rect(*self, i2, lo, hi, rects@[k + rects0.len()]));
                        }
                    }
                    assert forall|i2: int| 0 <= i2 < i as int
                        && #[trigger] is_reverse_wall(*self, i2)
                        implies wall_decomposable(*self, i2) by {
                    }
                    lemma_rect_count_step(*self, i0, i as int);
                    assert(rects@.len() == rect_count_prefix(*self, i as int));
                    assert forall|ri: int, j: int| 0 <= ri < i as int
                        && is_reverse_wall(*self, ri)
                        && 0 <= j && j + 1 < cut_seq(*self, ri).len()
                        implies span_rect(*self, ri, cut_seq(*self, ri)[j] as int,
                            cut_seq(*self, ri)[j + 1] as int,
                            #[trigger] rects@[rect_count_prefix(*self, ri) + j]) by {
                        if ri < i0 {
                            lemma_rect_count_mono(*self, 0, ri);
                            lemma_rect_count_step(*self, ri, ri + 1);
                            lemma_rect_count_mono(*self, ri + 1, i0);
                            assert(0 <= rect_count_prefix(*self, ri));
                            assert(rect_count_prefix(*self, ri) + j < rects0.len());
                            assert(rects@[rect_count_prefix(*self, ri) + j]
                                == rects0[rect_count_prefix(*self, ri) + j]);
                        } else {
                            assert(ri == i0);
                            assert(rects@[rects0.len() + j] == wallv[j]);
                            assert(span_rect(*self, i0, cut_seq(*self, i0)[j] as int,
                                cut_seq(*self, i0)[j + 1] as int, wallv[j]));
                        }
                    }
                    assert forall|i2: int| 0 <= i2 < i as int
                        && #[trigger] is_reverse_wall(*self, i2)
                        implies wall_shadowed(*self, i2) by {
                        if !wall_shadowed(*self, i2) {
                            lemma_unshadowed_reverse_not_decomposable(*self, i2);
                        }
                    }
                }
            } else {
                assert(!is_reverse_wall(*self, i0));
                i = i + 1;
                proof {
                    assert forall|i2: int, lo: int, hi: int| 0 <= i2 < i as int
                        && is_reverse_wall(*self, i2)
                        && #[trigger] adjacent_cuts(*self, i2, lo, hi)
                        implies span_emitted(*self, i2, lo, hi, rects@) by {
                        assert(i2 < i0);
                    }
                    assert forall|i2: int| 0 <= i2 < i as int
                        && #[trigger] is_reverse_wall(*self, i2)
                        implies wall_decomposable(*self, i2) by {
                        assert(i2 < i0);
                    }
                    lemma_rect_count_step(*self, i0, i as int);
                    assert(rects@.len() == rect_count_prefix(*self, i as int));
                    assert forall|ri: int, j: int| 0 <= ri < i as int
                        && is_reverse_wall(*self, ri)
                        && 0 <= j && j + 1 < cut_seq(*self, ri).len()
                        implies span_rect(*self, ri, cut_seq(*self, ri)[j] as int,
                            cut_seq(*self, ri)[j + 1] as int,
                            #[trigger] rects@[rect_count_prefix(*self, ri) + j]) by {
                        assert(ri < i0);
                    }
                    assert forall|i2: int| 0 <= i2 < i as int
                        && #[trigger] is_reverse_wall(*self, i2)
                        implies wall_shadowed(*self, i2) by {
                        assert(i2 < i0);
                    }
                }
            }
        }
        proof {
            assert forall|i2: int| #[trigger] is_reverse_wall(*self, i2)
                implies wall_decomposable(*self, i2) by {
                assert(0 <= i2 < i as int);
            }
        }
        let out: PolyRect = PolyRect { rects, layer: self.layer };
        proof {
            assert forall|k: int| #![trigger out.rects@[k]] 0 <= k < out.rects@.len()
                implies rect_from_model(*self, out.rects@[k])
                    && out.rects@[k].well_formed() by {
                lemma_rect_from_model_well_formed(*self, out.rects@[k]);
            }
        }
        Ok(out)
    }
}

/// Rectangles emitted for two different sub-spans of one reverse wall do
/// not overlap in positive area: consecutive-cut sub-spans of one wall have
/// disjoint interiors, and each rectangle's y-extent is its sub-span.
pub proof fn lemma_same_wall_rects_disjoint(
    m: WallModel, r: int, lo1: int, hi1: int, lo2: int, hi2: int, a: Rectangle, b: Rectangle)
    requires
        adjacent_cuts(m, r, lo1, hi1),
        adjacent_cuts(m, r, lo2, hi2),
        lo1 != lo2 || hi1 != hi2,
        span_rect(m, r, lo1, hi1, a),
        span_rect(m, r, lo2, hi2, b),
    ensures
        !rects_overlap(a, b),
{
    if lo1 == lo2 {
        if hi1 < hi2 {
            assert(is_cut(m, r, hi1));
            assert(lo2 < hi1 < hi2);
            assert(false);
        } else if hi2 < hi1 {
            assert(is_cut(m, r, hi2));
            assert(false);
        }
    } else if lo1 < lo2 {
        if lo2 < hi1 {
            assert(is_cut(m, r, lo2));
            assert(false);
        }
        assert(hi1 <= lo2);
    } else {
        if lo1 < hi2 {
            assert(is_cut(m, r, lo1));
            assert(false);
        }
        assert(hi2 <= lo1);
    }
}

} // verus!