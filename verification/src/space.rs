//! A set of grid points with the matrix of their pairwise squared distances.
//!
//! The matrix is square and stored row by row in one vector: the cell of row
//! `i` and column `j` stands at `i * count + j`. It is filled on request, and
//! the space remembers whether it still describes the points as they stand.

use vstd::prelude::*;
use rayon::iter::{IntoParallelRefMutIterator, ParallelIterator};
use crate::model::{
    SpaceView, UNKNOWN, cell_index, distance_matrix, lemma_cell_index_in_range,
    lemma_cell_index_injective, lemma_computed_matrix, positions,
};
use crate::vec2::{
    Position, Vec2, lemma_sq_dist_nonnegative, lemma_sq_dist_symmetric,
    lemma_sq_dist_zero_iff_same, sq_dist,
};

verus! {

/// Why a query could not be answered.
#[derive(Debug, Clone, Copy, PartialEq, Eq, Structural)]
pub enum QueryError {
    /// The distance matrix was not computed since the space was made or since
    /// a point of it last moved.
    MatrixNotComputed,
}

/// Points of the grid and the matrix of their pairwise squared distances.
pub struct BattleSpace {
    points: Vec<Vec2>,
    distance_matrix: Vec<i128>,
    computed: bool,
}

impl View for BattleSpace {
    type V = SpaceView;

    closed spec fn view(&self) -> SpaceView {
        SpaceView {
            points: positions(self.points@),
            cache: self.distance_matrix@.map_values(|c: i128| c as int),
            computed: self.computed,
        }
    }
}

/// The fill pass, which walks the pairs row by row, has been at the pair
/// `(a, b)` when it stands before the pair `(i, j)`.
spec fn visited(a: int, b: int, i: int, j: int) -> bool {
    a < i || (a == i && b < j)
}

/// What the cell of the pair `(a, b)` holds when the fill pass stands before
/// the pair `(i, j)`: the distance, as soon as the pass has been at the pair
/// or at the mirrored pair, and nothing until then.
spec fn expected(points: Seq<Position>, i: int, j: int, a: int, b: int) -> int {
    if visited(a, b, i, j) || visited(b, a, i, j) {
        sq_dist(points[a], points[b])
    } else {
        UNKNOWN as int
    }
}

/// The cells as the fill pass leaves them when it stands before the pair
/// `(i, j)`.
spec fn filled_before(cells: Seq<i128>, points: Seq<Position>, i: int, j: int) -> bool {
    let n = points.len() as int;
    &&& cells.len() == n * n
    &&& forall|a: int, b: int|
        0 <= a < n && 0 <= b < n ==> cells[#[trigger] cell_index(a, b, n)] == expected(
            points,
            i,
            j,
            a,
            b,
        )
}

/// While the fill pass stands before `(i, j)`, a cell holds its distance
/// exactly when it is not negative.
proof fn lemma_known_cells(cells: Seq<i128>, points: Seq<Position>, i: int, j: int, a: int, b: int)
    requires
        filled_before(cells, points, i, j),
        0 <= a < points.len(),
        0 <= b < points.len(),
    ensures
        0 <= cell_index(a, b, points.len() as int) < cells.len(),
        cells[cell_index(a, b, points.len() as int)] == expected(points, i, j, a, b),
        cells[cell_index(a, b, points.len() as int)] >= 0 <==> visited(a, b, i, j) || visited(
            b,
            a,
            i,
            j,
        ),
{
    lemma_cell_index_in_range(a, b, points.len() as int);
    lemma_sq_dist_nonnegative(points[a], points[b]);
}

/// One step of the fill pass: where the cell of `(i, j)` and its mirror image
/// hold their distance afterwards and no other cell has changed, the cells
/// are as the pass leaves them before the next pair.
proof fn lemma_fill_step(before: Seq<i128>, after: Seq<i128>, points: Seq<Position>, i: int, j: int)
    requires
        filled_before(before, points, i, j),
        0 <= i < points.len(),
        0 <= j < points.len(),
        after.len() == before.len(),
        after[cell_index(i, j, points.len() as int)] == sq_dist(points[i], points[j]),
        after[cell_index(j, i, points.len() as int)] == sq_dist(points[j], points[i]),
        forall|k: int|
            0 <= k < before.len() && k != cell_index(i, j, points.len() as int) && k != cell_index(
                j,
                i,
                points.len() as int,
            ) ==> after[k] == before[k],
    ensures
        filled_before(after, points, i, j + 1),
{
    let n = points.len() as int;
    assert forall|a: int, b: int| 0 <= a < n && 0 <= b < n implies after[#[trigger] cell_index(
        a,
        b,
        n,
    )] == expected(points, i, j + 1, a, b) by {
        lemma_cell_index_in_range(a, b, n);
        let k = cell_index(a, b, n);
        if k == cell_index(i, j, n) {
            lemma_cell_index_injective(a, b, i, j, n);
        } else if k == cell_index(j, i, n) {
            lemma_cell_index_injective(a, b, j, i, n);
        } else {
            assert(after[k] == before[k]);
            assert(before[k] == expected(points, i, j, a, b));
        }
    }
}

/// Stores `value` in `cell`.
fn store(cell: &mut i128, value: i128)
    ensures
        *final(cell) == value,
{
    *cell = value;
}

/// Overwrites every cell with `value`, in parallel.
///
/// Calls rayon's `par_iter_mut` on the vector and `for_each` on the iterator
/// that it returns. Trusted, as rayon documents them: the iterator hands out
/// each element of the vector exactly once, and `for_each` runs the closure on
/// every one of them before it returns; the vector keeps its length.
#[verifier::external_body]
fn fill_cells(cells: &mut Vec<i128>, value: i128)
    ensures
        final(cells)@ == Seq::new(old(cells)@.len(), |k: int| value),
{
    cells.par_iter_mut().for_each(|cell| store(cell, value));
}

impl BattleSpace {
    /// What holds of every space: see [`SpaceView::wf`].
    #[verifier::type_invariant]
    pub open spec fn wf(&self) -> bool {
        self@.wf()
    }

    /// A space of the given points. Its matrix has a cell for every ordered
    /// pair of points, none of them known yet.
    ///
    /// The number of cells must fit in `usize`.
    pub fn new(points: Vec<Vec2>) -> (space: Self)
        requires
            points@.len() * points@.len() <= usize::MAX,
        ensures
            space@.points == positions(points@),
            space@.cache == Seq::new(
                (points@.len() * points@.len()) as nat,
                |k: int| UNKNOWN as int,
            ),
            !space@.computed,
    {
        let n: usize = points.len();
        let matrix: Vec<i128> = vec![UNKNOWN; n * n];
        let space = Self { points, distance_matrix: matrix, computed: false };
        assert(space@.cache =~= Seq::new((n * n) as nat, |k: int| UNKNOWN as int));
        space
    }

    /// The space of no points.
    fn empty() -> (space: Self)
        ensures
            space@.count() == 0,
    {
        let points: Vec<Vec2> = Vec::new();
        let cells: Vec<i128> = Vec::new();
        assert(positions(points@).len() == 0);
        assert(cells@.map_values(|c: i128| c as int).len() == 0 * 0);
        BattleSpace { points, distance_matrix: cells, computed: false }
    }

    /// Moves the point at `index` by `(x, y)`, as [`Vec2::move_point`] does.
    /// An index that names no point changes nothing.
    ///
    /// The cells of the matrix keep their contents, which from now on describe
    /// the points as they stood: the matrix no longer counts as computed.
    pub fn move_point(&mut self, x: i32, y: i32, index: usize)
        ensures
            index < old(self)@.count() ==> final(self)@ == (SpaceView {
                points: old(self)@.points.update(
                    index as int,
                    old(self)@.points[index as int].moved(x as int, y as int),
                ),
                cache: old(self)@.cache,
                computed: false,
            }),
            index >= old(self)@.count() ==> final(self)@ == old(self)@,
    {
        proof {
            use_type_invariant(&*self);
        }
        if index < self.points.len() {
            self.computed = false;
            self.points[index].move_point(x, y);
            assert(self@.points =~= old(self)@.points.update(
                index as int,
                old(self)@.points[index as int].moved(x as int, y as int),
            ));
        }
    }

    /// Where the cell of row `i` and column `j` stands in a matrix of `count`
    /// rows and columns.
    fn index(i: usize, j: usize, count: usize) -> (k: usize)
        requires
            i < count,
            j < count,
            count * count <= usize::MAX,
        ensures
            k == cell_index(i as int, j as int, count as int),
            k < count * count,
    {
        proof {
            lemma_cell_index_in_range(i as int, j as int, count as int);
            assert(0 <= i * count <= i * count + j) by (nonlinear_arith)
                requires
                    0 <= i,
                    0 <= j,
                    0 <= count,
            ;
        }
        i * count + j
    }

    /// Computes the distance matrix for the points as they stand.
    ///
    /// Every cell is first made unknown. Then the pairs are walked row by row.
    /// A cell of the diagonal becomes zero. At any other cell that is still
    /// unknown the distance is computed and written to the cell and to its
    /// mirror image, so that each distance is computed for one of the two
    /// orders of its pair only.
    pub fn calculate_distance_matrix(&mut self)
        ensures
            final(self)@.points == old(self)@.points,
            final(self)@.cache.len() == old(self)@.cache.len(),
            final(self)@.computed,
            final(self)@.is_current(),
            final(self)@.cache == distance_matrix(old(self)@.points),
            forall|i: int| 0 <= i < final(self)@.count() ==> #[trigger] final(self)@.cell(i, i) == 0,
            forall|i: int, j: int|
                0 <= i < final(self)@.count() && 0 <= j < final(self)@.count()
                    ==> #[trigger] final(self)@.cell(i, j) == final(self)@.cell(j, i),
    {
        proof {
            use_type_invariant(&*self);
        }
        // The points and the cells leave `self` while the matrix is filled again:
        // `self` is a space in good order at every moment, whatever happens
        // in the parallel pass.
        let mut taken = Self::empty();
        std::mem::swap(self, &mut taken);
        let BattleSpace { points, distance_matrix: mut cells, computed: _ } = taken;
        let point_count: usize = points.len();
        let ghost places = positions(points@);
        assert(places == old(self)@.points);
        assert(cells@.len() == old(self)@.cache.len());
        assert(cells.len() == point_count * point_count);

        fill_cells(&mut cells, UNKNOWN);

        assert(filled_before(cells@, places, 0, 0)) by {
            let n = point_count as int;
            assert forall|a: int, b: int| 0 <= a < n && 0 <= b < n implies cells@[#[trigger] cell_index(
                a,
                b,
                n,
            )] == expected(places, 0, 0, a, b) by {
                lemma_cell_index_in_range(a, b, n);
            }
        }

        let mut i: usize = 0;
        while i < point_count
            invariant
                i <= point_count,
                point_count == points@.len(),
                point_count * point_count <= usize::MAX,
                places == positions(points@),
                places.len() == point_count,
                filled_before(cells@, places, i as int, 0),
            decreases point_count - i,
        {
            let mut j: usize = 0;
            while j < point_count
                invariant
                    i < point_count,
                    j <= point_count,
                    point_count == points@.len(),
                    point_count * point_count <= usize::MAX,
                    places == positions(points@),
                    places.len() == point_count,
                    filled_before(cells@, places, i as int, j as int),
                decreases point_count - j,
            {
                let ghost before = cells@;
                let index: usize = Self::index(i, j, point_count);
                let reverse_index: usize = Self::index(j, i, point_count);
                proof {
                    lemma_known_cells(before, places, i as int, j as int, i as int, j as int);
                    lemma_known_cells(before, places, i as int, j as int, j as int, i as int);
                    lemma_sq_dist_symmetric(places[i as int], places[j as int]);
                    lemma_sq_dist_zero_iff_same(places[i as int], places[i as int]);
                }
                if i == j {
                    cells[index] = 0;
                } else if cells[index] < 0 {
                    let dist: i128 = points[i].distance2powi(&points[j]);
                    cells[index] = dist;
                    if cells[reverse_index] < 0 {
                        cells[reverse_index] = dist;
                    }
                }
                proof {
                    lemma_fill_step(before, cells@, places, i as int, j as int);
                }
                j += 1;
            }
            i += 1;
        }

        let ghost full = SpaceView {
            points: places,
            cache: cells@.map_values(|c: i128| c as int),
            computed: true,
        };
        proof {
            let n = point_count as int;
            assert forall|a: int, b: int| 0 <= a < n && 0 <= b < n implies #[trigger] full.cell(a, b)
                == sq_dist(full.points[a], full.points[b]) by {
                lemma_known_cells(cells@, places, n, 0, a, b);
            }
            assert forall|a: int, b: int| 0 <= a < n && 0 <= b < n implies #[trigger] full.cell(a, b)
                == full.cell(b, a) by {
                lemma_sq_dist_symmetric(full.points[a], full.points[b]);
            }
            assert forall|a: int| 0 <= a < n implies #[trigger] full.cell(a, a) == 0 by {
                lemma_sq_dist_zero_iff_same(full.points[a], full.points[a]);
            }
            lemma_computed_matrix(full);
        }
        *self = BattleSpace { points, distance_matrix: cells, computed: true };
    }

    /// The point nearest to the point at `target_index`, with its squared
    /// distance from it, read from the distance matrix.
    ///
    /// There is no such point, and the answer is `Ok(None)`, where
    /// `target_index` names no point or the space holds no other point. Of
    /// several points at the least distance the one of the lowest index is
    /// returned. Where the matrix does not count as computed, no cell of it is
    /// read and the query fails.
    pub fn find_nearest_point(&self, target_index: usize) -> (found: Result<
        Option<(usize, i128)>,
        QueryError,
    >)
        ensures
            target_index >= self@.count() || self@.count() < 2 ==> found matches Ok(None),
            target_index < self@.count() && self@.count() >= 2 && !self@.computed ==> found matches Err(
                QueryError::MatrixNotComputed,
            ),
            target_index < self@.count() && self@.count() >= 2 && self@.computed ==> (found matches Ok(
                Some((j, d)),
            ) && self@.is_nearest(target_index as int, j as int) && d == sq_dist(
                self@.points[target_index as int],
                self@.points[j as int],
            ) && d == self@.cell(target_index as int, j as int)),
    {
        proof {
            use_type_invariant(self);
        }
        let point_count: usize = self.points.len();
        if target_index >= point_count || point_count < 2 {
            return Ok(None);
        }
        if !self.computed {
            return Err(QueryError::MatrixNotComputed);
        }
        let ghost places = self@.points;
        let ghost target = target_index as int;
        assert(self.distance_matrix.len() == point_count * point_count);

        let mut nearest: Option<(usize, i128)> = None;
        let mut j: usize = 0;
        while j < point_count
            invariant
                j <= point_count,
                target_index < point_count,
                point_count >= 2,
                point_count == self.points@.len(),
                point_count * point_count == self.distance_matrix@.len(),
                point_count * point_count <= usize::MAX,
                places == self@.points,
                places.len() == point_count,
                target == target_index,
                self@.is_current(),
                nearest is None ==> j == 0 || (j == 1 && target_index == 0),
                nearest matches Some((best, least)) ==> {
                    &&& best < j
                    &&& best != target_index
                    &&& least == sq_dist(places[target], places[best as int])
                    &&& least == self@.cell(target, best as int)
                    &&& forall|k: int|
                        0 <= k < j && k != target ==> least <= sq_dist(
                            places[target],
                            #[trigger] places[k],
                        )
                    &&& forall|k: int|
                        0 <= k < best && k != target ==> least < sq_dist(
                            places[target],
                            #[trigger] places[k],
                        )
                },
            decreases point_count - j,
        {
            if j != target_index {
                let index: usize = Self::index(target_index, j, point_count);
                let dist_sq: i128 = self.distance_matrix[index];
                assert(dist_sq == self@.cell(target, j as int));
                let closer: bool = match nearest {
                    Some((_, least)) => dist_sq < least,
                    None => true,
                };
                if closer {
                    nearest = Some((j, dist_sq));
                }
            }
            j += 1;
        }
        Ok(nearest)
    }

    /// The points, by index.
    pub fn points(&self) -> (points: &Vec<Vec2>)
        ensures
            positions(points@) == self@.points,
    {
        &self.points
    }

    /// Whether the distance matrix was computed for the points as they stand.
    pub fn is_computed(&self) -> (computed: bool)
        ensures
            computed == self@.computed,
    {
        self.computed
    }

    /// What the cell of row `i` and column `j` of the distance matrix holds:
    /// a squared distance, or nothing where the cell is unknown or the matrix
    /// has no such cell.
    pub fn cached_distance(&self, i: usize, j: usize) -> (cell: Option<i128>)
        ensures
            i < self@.count() && j < self@.count() && self@.cell(i as int, j as int) != UNKNOWN ==> (
            cell matches Some(d) && d == self@.cell(i as int, j as int)),
            i >= self@.count() || j >= self@.count() || self@.cell(i as int, j as int) == UNKNOWN
                ==> cell is None,
    {
        proof {
            use_type_invariant(self);
        }
        let point_count: usize = self.points.len();
        if i < point_count && j < point_count {
            assert(self.distance_matrix.len() == point_count * point_count);
            let index: usize = Self::index(i, j, point_count);
            let value: i128 = self.distance_matrix[index];
            if value != UNKNOWN {
                Some(value)
            } else {
                None
            }
        } else {
            None
        }
    }
}

} // verus!
