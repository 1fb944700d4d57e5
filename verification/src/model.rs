//! The mathematical value of a space, and what holds of a computed distance
//! matrix.

use vstd::prelude::*;
use vstd::arithmetic::div_mod::{
    lemma_div_pos_is_pos, lemma_fundamental_div_mod, lemma_mod_pos_bound, lemma_multiply_divide_lt,
};
use crate::vec2::{
    Position, Vec2, lemma_sq_dist_symmetric, lemma_sq_dist_unchanged_by_common_move, sq_dist,
};

verus! {

/// The content of a cell of which no distance is known. No squared distance is
/// negative, so no distance is mistaken for it.
pub const UNKNOWN: i128 = -1;

/// The positions of a sequence of points.
pub open spec fn positions(points: Seq<Vec2>) -> Seq<Position> {
    points.map_values(|p: Vec2| p@)
}

/// Where the cell of row `i` and column `j` stands among the cells of a matrix
/// of `count` rows and columns, stored row by row.
pub open spec fn cell_index(i: int, j: int, count: int) -> int {
    i * count + j
}

/// The matrix of the squared distances between the given positions, row by
/// row: its cell of row `i` and column `j` is the squared distance between
/// the positions `i` and `j`.
pub open spec fn distance_matrix(points: Seq<Position>) -> Seq<int> {
    Seq::new(
        points.len() * points.len(),
        |k: int| sq_dist(points[k / (points.len() as int)], points[k % (points.len() as int)]),
    )
}

/// The mathematical value of a [`BattleSpace`](crate::space::BattleSpace).
pub struct SpaceView {
    /// Where the points stand, by index.
    pub points: Seq<Position>,
    /// The cells of the distance matrix, row by row.
    pub cache: Seq<int>,
    /// Whether the matrix was computed for the points as they stand.
    pub computed: bool,
}

impl SpaceView {
    /// The number of points.
    pub open spec fn count(self) -> int {
        self.points.len() as int
    }

    /// The cell of row `i` and column `j`.
    pub open spec fn cell(self, i: int, j: int) -> int {
        self.cache[cell_index(i, j, self.count())]
    }

    /// Every cell holds the squared distance between the point of its row and
    /// the point of its column.
    pub open spec fn is_current(self) -> bool {
        forall|i: int, j: int|
            0 <= i < self.count() && 0 <= j < self.count() ==> #[trigger] self.cell(i, j)
                == sq_dist(self.points[i], self.points[j])
    }

    /// The matrix has one cell for each ordered pair of points, and where it
    /// counts as computed it is.
    pub open spec fn wf(self) -> bool {
        &&& self.cache.len() == self.count() * self.count()
        &&& self.computed ==> self.is_current()
    }

    /// Point `j` is the answer to a query for the point nearest to `target`:
    /// another point, no farther from `target` than any other, and the first
    /// such point by index.
    pub open spec fn is_nearest(self, target: int, j: int) -> bool {
        &&& 0 <= j < self.count()
        &&& j != target
        &&& forall|k: int|
            0 <= k < self.count() && k != target ==> sq_dist(self.points[target], self.points[j])
                <= sq_dist(self.points[target], #[trigger] self.points[k])
        &&& forall|k: int|
            0 <= k < j && k != target ==> sq_dist(self.points[target], self.points[j]) < sq_dist(
                self.points[target],
                #[trigger] self.points[k],
            )
    }
}

/// The place of a cell is a place of the matrix.
pub proof fn lemma_cell_index_in_range(i: int, j: int, count: int)
    requires
        0 <= i < count,
        0 <= j < count,
    ensures
        0 <= cell_index(i, j, count) < count * count,
{
    assert(0 <= i * count && i * count + j < count * count) by (nonlinear_arith)
        requires
            0 <= i < count,
            0 <= j < count,
    ;
}

/// Two cells at the same place of the matrix are the same cell.
pub proof fn lemma_cell_index_injective(i: int, j: int, a: int, b: int, count: int)
    requires
        0 <= i < count,
        0 <= j < count,
        0 <= a < count,
        0 <= b < count,
        cell_index(i, j, count) == cell_index(a, b, count),
    ensures
        i == a,
        j == b,
{
    assert(i == a) by (nonlinear_arith)
        requires
            0 <= i < count,
            0 <= j < count,
            0 <= a < count,
            0 <= b < count,
            i * count + j == a * count + b,
    ;
}

/// Every place of the matrix is the place of a cell.
pub proof fn lemma_cell_index_onto(k: int, count: int)
    requires
        0 <= k < count * count,
        0 <= count,
    ensures
        0 <= k / count < count,
        0 <= k % count < count,
        cell_index(k / count, k % count, count) == k,
{
    assert(count > 0) by (nonlinear_arith)
        requires
            0 <= k < count * count,
            0 <= count,
    ;
    lemma_fundamental_div_mod(k, count);
    lemma_mod_pos_bound(k, count);
    lemma_div_pos_is_pos(k, count);
    lemma_multiply_divide_lt(k, count, count);
    assert(count * (k / count) == (k / count) * count) by (nonlinear_arith);
}

/// In a computed matrix every cell of the diagonal is zero.
pub proof fn lemma_diagonal_is_zero(space: SpaceView, i: int)
    requires
        space.wf(),
        space.computed,
        0 <= i < space.count(),
    ensures
        space.cell(i, i) == 0,
{
}

/// A computed matrix is symmetric.
pub proof fn lemma_matrix_is_symmetric(space: SpaceView, i: int, j: int)
    requires
        space.wf(),
        space.computed,
        0 <= i < space.count(),
        0 <= j < space.count(),
    ensures
        space.cell(i, j) == space.cell(j, i),
{
    lemma_sq_dist_symmetric(space.points[i], space.points[j]);
}

/// A computed matrix is the matrix of the distances between the points.
pub proof fn lemma_computed_matrix(space: SpaceView)
    requires
        space.wf(),
        space.computed,
    ensures
        space.cache == distance_matrix(space.points),
{
    let n = space.count();
    assert forall|k: int| 0 <= k < space.cache.len() implies space.cache[k] == distance_matrix(
        space.points,
    )[k] by {
        lemma_cell_index_onto(k, n);
        assert(space.cell(k / n, k % n) == sq_dist(space.points[k / n], space.points[k % n]));
    }
    assert(space.cache =~= distance_matrix(space.points));
}

/// The computed matrix is a function of the positions alone: computed for the
/// same positions, two matrices hold the same cells.
pub proof fn lemma_computed_matrix_is_unique(a: SpaceView, b: SpaceView)
    requires
        a.wf(),
        b.wf(),
        a.computed,
        b.computed,
        a.points == b.points,
    ensures
        a.cache == b.cache,
{
    lemma_computed_matrix(a);
    lemma_computed_matrix(b);
}

/// A move of every point by the same amount leaves the computed matrix
/// unchanged, provided that no point is stopped at the edge of the coordinate
/// range.
pub proof fn lemma_matrix_unchanged_by_common_move(a: SpaceView, b: SpaceView, dx: int, dy: int)
    requires
        a.wf(),
        b.wf(),
        a.computed,
        b.computed,
        a.count() == b.count(),
        forall|i: int|
            0 <= i < a.count() ==> (#[trigger] a.points[i]).offset(dx, dy).on_grid() && b.points[i]
                == a.points[i].moved(dx, dy),
    ensures
        a.cache == b.cache,
{
    lemma_computed_matrix(a);
    lemma_computed_matrix(b);
    let n = a.count();
    assert forall|k: int| 0 <= k < a.cache.len() implies distance_matrix(a.points)[k]
        == distance_matrix(b.points)[k] by {
        lemma_cell_index_onto(k, n);
        lemma_sq_dist_unchanged_by_common_move(a.points[k / n], a.points[k % n], dx, dy);
    }
    assert(distance_matrix(a.points) =~= distance_matrix(b.points));
}

/// A query has one answer: two points that are both nearest to `target`, in
/// the sense of [`SpaceView::is_nearest`], are the same point.
pub proof fn lemma_nearest_is_unique(space: SpaceView, target: int, j: int, k: int)
    requires
        space.is_nearest(target, j),
        space.is_nearest(target, k),
    ensures
        j == k,
{
    if j < k {
        assert(sq_dist(space.points[target], space.points[k]) < sq_dist(
            space.points[target],
            space.points[j],
        ));
    } else if k < j {
        assert(sq_dist(space.points[target], space.points[j]) < sq_dist(
            space.points[target],
            space.points[k],
        ));
    }
}

} // verus!
