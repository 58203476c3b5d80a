use vstd::prelude::*;
use crate::errors::GeometryError;
use crate::polygon::{chained_corners, lemma_corners_chained, Polygon};
use crate::rect::RectDirection;
use crate::rect_corner::{lemma_corner_parts, RectCorner};
use crate::wall::{
    lemma_total_ordering_antisymmetric, lemma_total_ordering_equal_iff, projection_consistent,
    Wall, WallAttitude,
};
use core::cmp::Ordering;

verus! {

/// The completed set of walls of one polygon. Walls are owned by the model
/// in one flat arena; a wall's generation index is its arena index.
pub struct WallModel {
    /// The drawing layer, threaded through to every emitted rectangle.
    pub layer: u8,
    pub walls: Vec<Wall>,
}

impl WallModel {
    /// Every wall is non-empty, attitude-homogeneous and sits at the arena
    /// index that is its generation index.
    pub open spec fn wf(self) -> bool {
        forall|i: int| 0 <= i < self.walls@.len() ==> {
            &&& (#[trigger] self.walls@[i]).generation_index == i
            &&& self.walls@[i].rect_corners@.len() > 0
            &&& self.walls@[i].homogeneous()
        }
    }

    /// An empty model for one drawing layer.
    pub fn new(layer: u8) -> (r: WallModel)
        ensures
            r.layer == layer,
            r.walls@.len() == 0,
            r.wf(),
    {
        WallModel { layer, walls: Vec::new() }
    }

    /// Appends a finished wall to the arena.
    pub fn push(&mut self, wall: Wall)
        ensures
            final(self).walls@ =~= old(self).walls@.push(wall),
            final(self).layer == old(self).layer,
    {
        self.walls.push(wall);
    }

    /// The number of walls in the arena.
    pub fn len(&self) -> (r: usize)
        ensures
            r == self.walls@.len(),
    {
        self.walls.len()
    }

    /// The wall at one arena index.
    pub fn wall_at(&self, ix: usize) -> (r: &Wall)
        requires
            (ix as int) < self.walls@.len(),
        ensures
            *r == self.walls@[ix as int],
    {
        &self.walls[ix]
    }

    /// The insertion point for wall `i` in a partial left-to-right order:
    /// the first position whose wall does not come strictly before wall `i`.
    #[verifier::spinoff_prover]
    fn sorted_insert_position(&self, order: &Vec<usize>, i: usize) -> (pos: usize)
        requires
            self.wf(),
            (i as int) < self.walls@.len(),
            forall|k: int| 0 <= k < order@.len() ==> (#[trigger] order@[k]) < i,
        ensures
            pos <= order@.len(),
            forall|k: int| 0 <= k < pos as int
                ==> (#[trigger] self.walls@[order@[k] as int]).spec_total_ordering(
                    self.walls@[i as int]) == Ordering::Less,
            (pos as int) < order@.len() ==> self.walls@[order@[pos as int] as int]
                .spec_total_ordering(self.walls@[i as int]) != Ordering::Less,
    {
        let len: usize = order.len();
        let mut pos: usize = 0;
        while pos < len && matches!(
            self.walls[order[pos]].total_ordering(&self.walls[i]), Ordering::Less)
            invariant
                self.wf(),
                (i as int) < self.walls@.len(),
                len == order@.len(),
                forall|k: int| 0 <= k < order@.len() ==> (#[trigger] order@[k]) < i,
                pos <= len,
                forall|k: int| 0 <= k < pos as int
                    ==> (#[trigger] self.walls@[order@[k] as int]).spec_total_ordering(
                        self.walls@[i as int]) == Ordering::Less,
            decreases len - pos,
        {
            pos = pos + 1;
        }
        pos
    }

    /// The total left-to-right order over the model's walls, as a list of
    /// arena indices: every index appears, and consecutive entries ascend
    /// strictly in the wall order. The order is derived data, recomputed
    /// from the walls' geometry with the generation index as tie-break.
    #[verifier::rlimit(100)]
    #[verifier::spinoff_prover]
    pub fn sorted_walls(&self) -> (r: Vec<usize>)
        requires
            self.wf(),
            pairwise_projection_consistent(*self),
        ensures
            r@.len() == self.walls@.len(),
            forall|k: int| 0 <= k < r@.len() ==> (#[trigger] r@[k]) < self.walls@.len(),
            forall|i: int| 0 <= i < self.walls@.len() ==> #[trigger] order_contains(r@, i),
            forall|k: int| 0 <= k && k + 1 < r@.len()
                ==> (#[trigger] self.walls@[r@[k] as int]).spec_total_ordering(
                    self.walls@[r@[k + 1] as int]) == Ordering::Less,
    {
        let n: usize = self.walls.len();
        let mut order: Vec<usize> = Vec::new();
        let mut i: usize = 0;
        while i < n
            invariant
                self.wf(),
                pairwise_projection_consistent(*self),
                n == self.walls@.len(),
                i <= n,
                order@.len() == i as int,
                forall|k: int| 0 <= k < order@.len() ==> (#[trigger] order@[k]) < i,
                forall|j: int| 0 <= j < i as int ==> #[trigger] order_contains(order@, j),
                forall|k: int| 0 <= k && k + 1 < order@.len()
                    ==> (#[trigger] self.walls@[order@[k] as int]).spec_total_ordering(
                        self.walls@[order@[k + 1] as int]) == Ordering::Less,
            decreases n - i,
        {
            let ghost before = order@;
            let len: usize = order.len();
            let pos: usize = self.sorted_insert_position(&order, i);
            proof {
                if pos < len {
                    let prev_ix = order@[pos as int] as int;
                    assert(prev_ix != i as int);
                    assert(self.walls@[prev_ix].generation_index == prev_ix);
                    assert(self.walls@[i as int].generation_index == i as int);
                    lemma_total_ordering_antisymmetric(
                        self.walls@[prev_ix], self.walls@[i as int]);
                    lemma_total_ordering_antisymmetric(
                        self.walls@[i as int], self.walls@[prev_ix]);
                    assert(self.walls@[i as int].spec_total_ordering(self.walls@[prev_ix])
                        == Ordering::Less);
                }
            }
            order.insert(pos, i);
            i = i + 1;
            proof {
                assert forall|k: int| 0 <= k < order@.len()
                    implies (#[trigger] order@[k]) < i by {
                    if k < pos as int {
                        assert(order@[k] == before[k]);
                    } else if k > pos as int {
                        assert(order@[k] == before[k - 1]);
                    }
                }
                assert forall|j: int| 0 <= j < i as int
                    implies #[trigger] order_contains(order@, j) by {
                    if j == i as int - 1 {
                        assert(order@[pos as int] as int == j);
                    } else {
                        assert(order_contains(before, j));
                        let k = choose|k: int| 0 <= k < before.len()
                            && #[trigger] before[k] as int == j;
                        if k < pos as int {
                            assert(order@[k] as int == j);
                        } else {
                            assert(order@[k + 1] as int == j);
                        }
                    }
                }
                assert forall|k: int| 0 <= k && k + 1 < order@.len()
                    implies (#[trigger] self.walls@[order@[k] as int]).spec_total_ordering(
                        self.walls@[order@[k + 1] as int]) == Ordering::Less by {
                    if k + 1 < pos as int {
                        assert(order@[k] == before[k] && order@[k + 1] == before[k + 1]);
                    } else if k + 1 == pos as int {
                        assert(order@[k] == before[k]);
                        assert(order@[k + 1] as int == i as int - 1);
                    } else if k == pos as int {
                        assert(order@[k] as int == i as int - 1);
                        assert(order@[k + 1] == before[k]);
                    } else {
                        assert(order@[k] == before[k - 1] && order@[k + 1] == before[k]);
                    }
                }
            }
        }
        order
    }
}

/// Every distinct wall pair of the model compares consistently in the
/// geometric tier of the wall order: the two directions either both decide,
/// with opposite outcomes, or both fall through to the tie-break. Walls
/// built from one valid polygon are expected to satisfy this.
/// The index list names arena index `i` somewhere.
pub open spec fn order_contains(s: Seq<usize>, i: int) -> bool {
    exists|k: int| 0 <= k < s.len() && #[trigger] s[k] as int == i
}

pub open spec fn pairwise_projection_consistent(m: WallModel) -> bool {
    forall|i: int, j: int| #![trigger m.walls@[i], m.walls@[j]]
        0 <= i < m.walls@.len() && 0 <= j < m.walls@.len() && i != j
        ==> projection_consistent(m.walls@[i], m.walls@[j])
}

/// The corners of the first `n` walls of the arena, concatenated in
/// generation order.
pub open spec fn walls_corners_prefix(walls: Seq<Wall>, n: int) -> Seq<RectCorner>
    decreases n,
{
    if n <= 0 {
        Seq::empty()
    } else {
        walls_corners_prefix(walls, n - 1) + walls[n - 1].rect_corners@
    }
}

/// All corners of the model's walls, concatenated in generation order: the
/// partition the wall builder makes of a polygon's corner sequence.
pub open spec fn model_corners(m: WallModel) -> Seq<RectCorner> {
    walls_corners_prefix(m.walls@, m.walls@.len() as int)
}

/// The concatenated prefix only reads the first `n` walls.
proof fn lemma_prefix_ignores_tail(w1: Seq<Wall>, w2: Seq<Wall>, n: int)
    requires
        0 <= n <= w1.len(),
        n <= w2.len(),
        forall|i: int| 0 <= i < n ==> w1[i] == w2[i],
    ensures
        walls_corners_prefix(w1, n) == walls_corners_prefix(w2, n),
    decreases n,
{
    if n > 0 {
        lemma_prefix_ignores_tail(w1, w2, n - 1);
    }
}

/// Appending a wall appends its corners to the concatenation.
proof fn lemma_prefix_push(walls: Seq<Wall>, w: Wall, n: int, n1: int)
    requires
        n == walls.len(),
        n1 == n + 1,
    ensures
        walls_corners_prefix(walls.push(w), n1)
            == walls_corners_prefix(walls, n) + w.rect_corners@,
{
    lemma_prefix_ignores_tail(walls, walls.push(w), n);
    assert(walls.push(w)[n1 - 1] == w);
}

/// What a forced push with target attitude `att` does to the builder: when
/// the open wall already has that attitude the corner is appended to it;
/// otherwise the open wall is flushed into the model if it holds any corner
/// (the fresh wall taking the next generation index) or retyped in place if
/// it is still empty, and the corner starts the fresh run.
pub open spec fn force_pushed(m0: WallModeler, m1: WallModeler, c: RectCorner, att: WallAttitude) -> bool {
    &&& m1.wall_model.layer == m0.wall_model.layer
    &&& m1.default_wall_capacity == m0.default_wall_capacity
    &&& m1.current_wall.attitude == att
    &&& if m0.current_wall.attitude == att {
        &&& m1.wall_model.walls@ =~= m0.wall_model.walls@
        &&& m1.current_wall.rect_corners@ =~= m0.current_wall.rect_corners@.push(c)
        &&& m1.current_wall.generation_index == m0.current_wall.generation_index
    } else if m0.current_wall.rect_corners@.len() > 0 {
        &&& m1.wall_model.walls@ =~= m0.wall_model.walls@.push(m0.current_wall)
        &&& m1.current_wall.rect_corners@ =~= seq![c]
        &&& m1.current_wall.generation_index == m0.wall_model.walls@.len() + 1
    } else {
        &&& m1.wall_model.walls@ =~= m0.wall_model.walls@
        &&& m1.current_wall.rect_corners@ =~= seq![c]
        &&& m1.current_wall.generation_index == m0.current_wall.generation_index
    }
}

/// What appending to the open wall, without flushing, does to the builder.
pub open spec fn current_pushed(m0: WallModeler, m1: WallModeler, c: RectCorner) -> bool {
    &&& m1.wall_model.layer == m0.wall_model.layer
    &&& m1.wall_model.walls@ =~= m0.wall_model.walls@
    &&& m1.default_wall_capacity == m0.default_wall_capacity
    &&& m1.current_wall.attitude == m0.current_wall.attitude
    &&& m1.current_wall.generation_index == m0.current_wall.generation_index
    &&& m1.current_wall.rect_corners@ =~= m0.current_wall.rect_corners@.push(c)
}

/// Whether the builder accepts a corner: corners with a vertical outgoing
/// edge always force a wall of the matching attitude, while corners with a
/// horizontal outgoing edge must agree with the open wall's attitude.
pub open spec fn push_accepts(m: WallModeler, c: RectCorner) -> bool {
    ||| c.corner_type.spec_outgoing_part().spec_is_vertical()
    ||| c.corner_type.spec_vertical_part() == m.current_wall.attitude.spec_vertical_direction()
}

/// The incremental builder of a [`WallModel`]: consumes classified corners
/// in polygon traversal order, keeping exactly one wall open, and decides
/// per corner whether to continue that wall or flush it and start a new one.
pub struct WallModeler {
    pub default_wall_capacity: usize,
    pub current_wall: Wall,
    pub wall_model: WallModel,
}

impl WallModeler {
    /// The model so far is well-formed, the open wall is homogeneous and
    /// holds the next generation index.
    pub open spec fn wf(self) -> bool {
        &&& self.wall_model.wf()
        &&& self.current_wall.generation_index == self.wall_model.walls@.len()
        &&& self.current_wall.homogeneous()
    }

    /// A fresh builder for one layer: no finished wall, an empty Forward
    /// wall open.
    pub fn new(layer: u8, default_wall_capacity: usize) -> (r: WallModeler)
        ensures
            r.wf(),
            r.wall_model.layer == layer,
            r.wall_model.walls@.len() == 0,
            r.default_wall_capacity == default_wall_capacity,
            r.current_wall.attitude == WallAttitude::Forward,
            r.current_wall.rect_corners@.len() == 0,
    {
        WallModeler {
            default_wall_capacity,
            current_wall: Wall::new_forward(0, default_wall_capacity),
            wall_model: WallModel::new(layer),
        }
    }

    /// Forces the corner into a Forward wall, flushing the open wall first
    /// if it is a non-empty Reverse wall; an attitude-violation error,
    /// leaving the builder unchanged, when the corner's vertical edge does
    /// not ascend.
    fn force_push_forward(&mut self, rect_corner: RectCorner) -> (r: Result<(), GeometryError>)
        requires
            old(self).wf(),
            old(self).wall_model.walls@.len() < usize::MAX,
        ensures
            final(self).wf(),
            rect_corner.corner_type.spec_vertical_part() == RectDirection::Up ==> {
                &&& r is Ok
                &&& force_pushed(*old(self), *final(self), rect_corner, WallAttitude::Forward)
            },
            rect_corner.corner_type.spec_vertical_part() != RectDirection::Up ==> {
                &&& r == Err::<(), GeometryError>(GeometryError::AttitudeViolation)
                &&& *final(self) == *old(self)
            },
    {
        if rect_corner.corner_type.vertical_part() != RectDirection::Up {
            return Err(GeometryError::AttitudeViolation);
        }
        if self.current_wall.is_reverse() {
            if self.current_wall.len() > 0 {
                let mut finished: Wall = Wall::new_forward(
                    self.wall_model.len() + 1, self.default_wall_capacity);
                core::mem::swap(&mut self.current_wall, &mut finished);
                self.wall_model.push(finished);
            } else {
                self.current_wall = Wall::new_forward(
                    self.current_wall.generation_index, self.default_wall_capacity);
            }
        }
        match self.current_wall.push(rect_corner) {
            Ok(()) => Ok(()),
            Err(e) => Err(e),
        }
    }

    /// Forces the corner into a Reverse wall, flushing the open wall first
    /// if it is a non-empty Forward wall; an attitude-violation error,
    /// leaving the builder unchanged, when the corner's vertical edge does
    /// not descend.
    fn force_push_reverse(&mut self, rect_corner: RectCorner) -> (r: Result<(), GeometryError>)
        requires
            old(self).wf(),
            old(self).wall_model.walls@.len() < usize::MAX,
        ensures
            final(self).wf(),
            rect_corner.corner_type.spec_vertical_part() == RectDirection::Down ==> {
                &&& r is Ok
                &&& force_pushed(*old(self), *final(self), rect_corner, WallAttitude::Reverse)
            },
            rect_corner.corner_type.spec_vertical_part() != RectDirection::Down ==> {
                &&& r == Err::<(), GeometryError>(GeometryError::AttitudeViolation)
                &&& *final(self) == *old(self)
            },
    {
        if rect_corner.corner_type.vertical_part() != RectDirection::Down {
            return Err(GeometryError::AttitudeViolation);
        }
        if self.current_wall.is_forward() {
            if self.current_wall.len() > 0 {
                let mut finished: Wall = Wall::new_reverse(
                    self.wall_model.len() + 1, self.default_wall_capacity);
                core::mem::swap(&mut self.current_wall, &mut finished);
                self.wall_model.push(finished);
            } else {
                self.current_wall = Wall::new_reverse(
                    self.current_wall.generation_index, self.default_wall_capacity);
            }
        }
        match self.current_wall.push(rect_corner) {
            Ok(()) => Ok(()),
            Err(e) => Err(e),
        }
    }

    /// Appends the corner to the open wall without flushing; an
    /// attitude-violation error, leaving the builder unchanged, when the
    /// corner's vertical edge does not match the open wall's attitude.
    pub fn push_into_current(&mut self, rect_corner: RectCorner) -> (r: Result<(), GeometryError>)
        requires
            old(self).wf(),
        ensures
            final(self).wf(),
            rect_corner.corner_type.spec_vertical_part()
                == old(self).current_wall.attitude.spec_vertical_direction() ==> {
                &&& r is Ok
                &&& current_pushed(*old(self), *final(self), rect_corner)
            },
            rect_corner.corner_type.spec_vertical_part()
                != old(self).current_wall.attitude.spec_vertical_direction() ==> {
                &&& r == Err::<(), GeometryError>(GeometryError::AttitudeViolation)
                &&& *final(self) == *old(self)
            },
    {
        self.current_wall.push(rect_corner)
    }

    /// Routes one corner by its outgoing edge direction: a vertical outgoing
    /// edge forces a wall of the matching attitude, a horizontal one
    /// continues the open wall. An attitude-violation error, leaving the
    /// builder unchanged, when the corner is not accepted.
    pub fn push(&mut self, rect_corner: RectCorner) -> (r: Result<(), GeometryError>)
        requires
            old(self).wf(),
            old(self).wall_model.walls@.len() < usize::MAX,
        ensures
            final(self).wf(),
            !push_accepts(*old(self), rect_corner) ==> {
                &&& r == Err::<(), GeometryError>(GeometryError::AttitudeViolation)
                &&& *final(self) == *old(self)
            },
            push_accepts(*old(self), rect_corner) ==> r is Ok,
            rect_corner.corner_type.spec_outgoing_part() == RectDirection::Up
                ==> force_pushed(*old(self), *final(self), rect_corner, WallAttitude::Forward),
            rect_corner.corner_type.spec_outgoing_part() == RectDirection::Down
                ==> force_pushed(*old(self), *final(self), rect_corner, WallAttitude::Reverse),
            rect_corner.corner_type.spec_outgoing_part().spec_is_horizontal()
                && push_accepts(*old(self), rect_corner)
                ==> current_pushed(*old(self), *final(self), rect_corner),
    {
        proof {
            lemma_corner_parts(rect_corner.corner_type);
        }
        match rect_corner.corner_type.outgoing_part() {
            RectDirection::Down => self.force_push_reverse(rect_corner),
            RectDirection::Left => self.push_into_current(rect_corner),
            RectDirection::Right => self.push_into_current(rect_corner),
            RectDirection::Up => self.force_push_forward(rect_corner),
        }
    }

    /// Classifies a polygon's vertices and partitions the corners into
    /// walls: concatenating the walls' corner runs in generation order
    /// gives back exactly the polygon's classified corners, and consecutive
    /// walls alternate attitude, so each wall is a maximal run. On a
    /// canonical polygon every wall is also regular.
    ///
    /// An invalid-corner error when some vertex does not classify, an
    /// attitude-violation error when the corner stream is not a valid
    /// traversal; on a canonical polygon the build always succeeds.
    #[verifier::rlimit(100)]
    pub fn build(polygon: &Polygon) -> (r: Result<WallModel, GeometryError>)
        requires
            polygon.points@.len() > 0,
        ensures
            !polygon.all_corners_valid()
                ==> r == Err::<WallModel, GeometryError>(GeometryError::InvalidCorner),
            polygon.canonical() ==> r is Ok,
            r is Ok ==> {
                &&& r.unwrap().wf()
                &&& r.unwrap().layer == polygon.layer
                &&& r.unwrap().walls@.len() > 0
            },
            r is Ok ==> {
                let all = model_corners(r.unwrap());
                &&& all.len() == polygon.points@.len()
                &&& forall|k: int| 0 <= k < all.len()
                    ==> polygon.spec_corner_at(k) == Ok::<RectCorner, GeometryError>(#[trigger] all[k])
            },
            polygon.canonical() ==> forall|k: int| 0 <= k < r.unwrap().walls@.len()
                ==> (#[trigger] r.unwrap().walls@[k]).regular(),
            r is Ok ==> forall|k: int| #![trigger r.unwrap().walls@[k], r.unwrap().walls@[k + 1]]
                0 <= k < r.unwrap().walls@.len() - 1
                ==> r.unwrap().walls@[k].attitude != r.unwrap().walls@[k + 1].attitude,
    {
        let corners_struct = match polygon.corners() {
            Ok(c) => c,
            Err(e) => {
                return Err(e);
            },
        };
        let corners: Vec<RectCorner> = corners_struct.corners;
        let n: usize = corners.len();
        let ghost cs = corners@;
        let ghost canon = polygon.canonical();
        proof {
            lemma_corners_chained(*polygon, cs);
        }

        let mut builder: WallModeler = WallModeler::new(polygon.layer, n / 2);
        let mut i: usize = 0;
        while i < n
            invariant
                builder.wf(),
                builder.wall_model.layer == polygon.layer,
                n == cs.len(),
                corners@ =~= cs,
                n > 0,
                i <= n,
                chained_corners(cs),
                polygon.all_corners_valid(),
                forall|k: int| 0 <= k < n as int
                    ==> polygon.spec_corner_at(k) == Ok::<RectCorner, GeometryError>(#[trigger] cs[k]),
                forall|k: int| 0 <= k < n as int ==> (#[trigger] cs[k]).wf(),
                forall|k: int| #![trigger cs[k], cs[k + 1]] 0 <= k < n as int - 1
                    ==> cs[k].outgoing == cs[k + 1].point,
                canon == polygon.canonical(),
                builder.wall_model.walls@.len()
                    + (if builder.current_wall.rect_corners@.len() > 0 { 1int } else { 0int })
                    <= i as int,
                i >= 1 ==> builder.current_wall.rect_corners@.len() > 0,
                canon ==> cs[0].corner_type.spec_outgoing_part() == RectDirection::Up,
                canon && n as int >= 2 ==> cs[n as int - 1].corner_type.spec_outgoing_part()
                    == cs[0].corner_type.spec_incoming_part(),
                canon && i >= 1 ==> builder.current_wall.attitude.spec_vertical_direction()
                    == cs[i - 1].corner_type.spec_vertical_part(),
                walls_corners_prefix(builder.wall_model.walls@,
                    builder.wall_model.walls@.len() as int)
                    + builder.current_wall.rect_corners@ =~= cs.take(i as int),
                i as int - builder.current_wall.rect_corners@.len() >= 0,
                builder.current_wall.rect_corners@ =~= cs.subrange(
                    i as int - builder.current_wall.rect_corners@.len(), i as int),
                canon ==> forall|k: int| 0 <= k < builder.wall_model.walls@.len()
                    ==> (#[trigger] builder.wall_model.walls@[k]).regular(),
                forall|k: int| #![trigger builder.wall_model.walls@[k], builder.wall_model.walls@[k + 1]]
                    0 <= k < builder.wall_model.walls@.len() - 1
                    ==> builder.wall_model.walls@[k].attitude
                        != builder.wall_model.walls@[k + 1].attitude,
                builder.wall_model.walls@.len() > 0
                    ==> builder.wall_model.walls@[builder.wall_model.walls@.len() - 1].attitude
                        != builder.current_wall.attitude,
            decreases n - i,
        {
            let corner: RectCorner = corners[i];
            let ghost b0 = builder;
            let ghost i0 = i as int;
            proof {
                lemma_corner_parts(corner.corner_type);
                if canon && i >= 1 {
                    lemma_corner_parts(cs[i as int - 1].corner_type);
                    assert(corner.corner_type.spec_incoming_part()
                        == cs[i as int - 1].corner_type.spec_outgoing_part());
                }
                if canon {
                    assert(push_accepts(builder, corner));
                }
            }
            match builder.push(corner) {
                Ok(()) => {},
                Err(_) => {
                    return Err(GeometryError::AttitudeViolation);
                },
            }
            i = i + 1;
            proof {
                let walls0 = b0.wall_model.walls@;
                let cur0 = b0.current_wall.rect_corners@;
                let prefix0 = walls_corners_prefix(walls0, walls0.len() as int);
                let a0 = i0 - cur0.len();
                assert(cs.take(i as int) =~= cs.take(i0).push(cs[i0]));
                if corner.corner_type.spec_outgoing_part().spec_is_horizontal()
                    || b0.current_wall.attitude == (if corner.corner_type.spec_outgoing_part()
                        == RectDirection::Up { WallAttitude::Forward } else { WallAttitude::Reverse })
                    || !corner.corner_type.spec_outgoing_part().spec_is_vertical() {
                }
                if builder.wall_model.walls@ =~= walls0 {
                    // No flush: the corner went into the open wall.
                    assert(walls_corners_prefix(builder.wall_model.walls@,
                        builder.wall_model.walls@.len() as int) == prefix0);
                    assert(builder.current_wall.rect_corners@ =~= cur0.push(cs[i0])
                        || builder.current_wall.rect_corners@ =~= seq![cs[i0]]);
                    if builder.current_wall.rect_corners@ =~= cur0.push(cs[i0]) {
                        assert(cur0.push(cs[i0]) =~= cs.subrange(a0, i0).push(cs[i0]));
                        assert(cs.subrange(a0, i0).push(cs[i0]) =~= cs.subrange(a0, i as int));
                    } else {
                        // The open wall was empty and was retyped in place.
                        assert(cur0.len() == 0);
                        assert(seq![cs[i0]] =~= cs.subrange(i0, i as int));
                    }
                } else {
                    // The open wall was flushed and the corner started a
                    // fresh run.
                    assert(builder.wall_model.walls@ =~= walls0.push(b0.current_wall));
                    lemma_prefix_push(walls0, b0.current_wall, walls0.len() as int,
                        builder.wall_model.walls@.len() as int);
                    assert(b0.current_wall.attitude != builder.current_wall.attitude);
                    assert forall|k: int|
                        #![trigger builder.wall_model.walls@[k], builder.wall_model.walls@[k + 1]]
                        0 <= k < builder.wall_model.walls@.len() - 1
                        implies builder.wall_model.walls@[k].attitude
                            != builder.wall_model.walls@[k + 1].attitude by {
                        if k < walls0.len() - 1 {
                            assert(builder.wall_model.walls@[k] == walls0[k]);
                            assert(builder.wall_model.walls@[k + 1] == walls0[k + 1]);
                        } else {
                            assert(builder.wall_model.walls@[k] == walls0[walls0.len() - 1]);
                            assert(builder.wall_model.walls@[k + 1] == b0.current_wall);
                        }
                    }
                    assert(walls_corners_prefix(builder.wall_model.walls@,
                        builder.wall_model.walls@.len() as int) == prefix0 + cur0);
                    assert(builder.current_wall.rect_corners@ =~= seq![cs[i0]]);
                    assert(seq![cs[i0]] =~= cs.subrange(i0, i as int));
                    if canon {
                        assert(b0.current_wall.regular()) by {
                            reveal(Wall::regular);
                            assert(cur0.len() > 0);
                            assert(cur0 =~= cs.subrange(a0, i0));
                            assert forall|k: int| 0 <= k < cur0.len()
                                implies (#[trigger] cur0[k]).wf() by {
                                assert(cur0[k] == cs[a0 + k]);
                            }
                            assert forall|k: int| #![trigger cur0[k], cur0[k + 1]]
                                0 <= k < cur0.len() - 1
                                implies cur0[k].outgoing == cur0[k + 1].point by {
                                assert(cur0[k] == cs[a0 + k]);
                                assert(cur0[k + 1] == cs[a0 + k + 1]);
                                assert(cs[a0 + k].outgoing == cs[a0 + k + 1].point);
                            }
                            // The flush was forced by a corner with a
                            // vertical outgoing edge, whose incoming edge is
                            // therefore horizontal and equals the previous
                            // corner's outgoing direction.
                            assert(corner.corner_type.spec_outgoing_part().spec_is_vertical());
                            assert(cur0[cur0.len() - 1] == cs[i0 - 1]);
                            assert(cs[i0].corner_type.spec_incoming_part()
                                == cs[i0 - 1].corner_type.spec_outgoing_part());
                            assert(cs[i0 - 1].corner_type.spec_outgoing_part().spec_is_horizontal());
                        }
                        assert forall|k: int| 0 <= k < builder.wall_model.walls@.len()
                            implies (#[trigger] builder.wall_model.walls@[k]).regular() by {
                            if k < walls0.len() {
                                assert(builder.wall_model.walls@[k] == walls0[k]);
                            } else {
                                assert(builder.wall_model.walls@[k] == b0.current_wall);
                            }
                        }
                    }
                }
            }
        }
        let ghost final_builder = builder;
        let model: WallModel = builder.finish();
        proof {
            let walls0 = final_builder.wall_model.walls@;
            let cur0 = final_builder.current_wall.rect_corners@;
            let a0 = n as int - cur0.len();
            assert(cur0.len() > 0);
            assert(model.walls@ =~= walls0.push(final_builder.current_wall));
            lemma_prefix_push(walls0, final_builder.current_wall, walls0.len() as int,
                model.walls@.len() as int);
            assert(model_corners(model)
                == walls_corners_prefix(walls0, walls0.len() as int) + cur0);
            assert(model_corners(model) =~= cs.take(n as int));
            assert(cs.take(n as int) =~= cs);
            assert forall|k: int| #![trigger model.walls@[k], model.walls@[k + 1]]
                0 <= k < model.walls@.len() - 1
                implies model.walls@[k].attitude != model.walls@[k + 1].attitude by {
                if k < walls0.len() - 1 {
                    assert(model.walls@[k] == walls0[k]);
                    assert(model.walls@[k + 1] == walls0[k + 1]);
                } else {
                    assert(model.walls@[k] == walls0[walls0.len() - 1]);
                    assert(model.walls@[k + 1] == final_builder.current_wall);
                }
            }
            if canon {
                assert(final_builder.current_wall.regular()) by {
                    reveal(Wall::regular);
                    assert(cur0 =~= cs.subrange(a0, n as int));
                    assert forall|k: int| 0 <= k < cur0.len()
                        implies (#[trigger] cur0[k]).wf() by {
                        assert(cur0[k] == cs[a0 + k]);
                    }
                    assert forall|k: int| #![trigger cur0[k], cur0[k + 1]]
                        0 <= k < cur0.len() - 1
                        implies cur0[k].outgoing == cur0[k + 1].point by {
                        assert(cur0[k] == cs[a0 + k]);
                        assert(cur0[k + 1] == cs[a0 + k + 1]);
                        assert(cs[a0 + k].outgoing == cs[a0 + k + 1].point);
                    }
                    // The polygon is closed: the last corner's outgoing
                    // direction is the first corner's incoming direction,
                    // which is horizontal because the first edge goes up.
                    lemma_corner_parts(cs[0].corner_type);
                    assert(cur0[cur0.len() - 1] == cs[n as int - 1]);
                    assert(cs[n as int - 1].corner_type.spec_outgoing_part().spec_is_horizontal());
                }
                assert forall|k: int| 0 <= k < model.walls@.len()
                    implies (#[trigger] model.walls@[k]).regular() by {
                    if k < walls0.len() {
                        assert(model.walls@[k] == walls0[k]);
                    } else {
                        assert(model.walls@[k] == final_builder.current_wall);
                    }
                }
            }
        }
        Ok(model)
    }

    /// Flushes the open wall, if it holds any corner, and hands the finished
    /// model over. Because a closed polygon ends where it began, a builder
    /// fed a full corner cycle always has a non-empty open wall here.
    pub fn finish(self) -> (r: WallModel)
        requires
            self.wf(),
        ensures
            r.wf(),
            r.layer == self.wall_model.layer,
            self.current_wall.rect_corners@.len() > 0
                ==> r.walls@ =~= self.wall_model.walls@.push(self.current_wall),
            self.current_wall.rect_corners@.len() == 0 ==> r.walls@ =~= self.wall_model.walls@,
    {
        let WallModeler { default_wall_capacity: _, current_wall, mut wall_model } = self;
        if current_wall.len() > 0 {
            wall_model.push(current_wall);
        }
        wall_model
    }
}

} // verus!
