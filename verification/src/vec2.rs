//! Grid points and the squared Euclidean metric between them.
//!
//! Coordinates are whole grid units held in `i32`. Distances are kept squared,
//! which is exact on integers and orders points as the true distance does. The
//! largest squared distance between two points is a little under `2^65`, so
//! squared distances are `i128`.

use vstd::prelude::*;

verus! {

/// Where a point stands: the mathematical value of a [`Vec2`].
pub struct Position {
    pub x: int,
    pub y: int,
}

/// A coordinate `c` moved by `d`, held at the end of the `i32` range where the
/// sum would leave it.
pub open spec fn shifted(c: int, d: int) -> int {
    if c + d > i32::MAX {
        i32::MAX as int
    } else if c + d < i32::MIN {
        i32::MIN as int
    } else {
        c + d
    }
}

/// The squared Euclidean distance between two positions.
pub open spec fn sq_dist(a: Position, b: Position) -> int {
    (a.x - b.x) * (a.x - b.x) + (a.y - b.y) * (a.y - b.y)
}

impl Position {
    /// This position moved by exactly `(dx, dy)`, on the unbounded grid.
    pub open spec fn offset(self, dx: int, dy: int) -> Position {
        Position { x: self.x + dx, y: self.y + dy }
    }

    /// This position after a move by `(dx, dy)` that stops at the edge of the
    /// coordinate range.
    pub open spec fn moved(self, dx: int, dy: int) -> Position {
        Position { x: shifted(self.x, dx), y: shifted(self.y, dy) }
    }

    /// Both coordinates fit in `i32`.
    pub open spec fn on_grid(self) -> bool {
        &&& i32::MIN <= self.x <= i32::MAX
        &&& i32::MIN <= self.y <= i32::MAX
    }
}

/// A point of the grid.
#[derive(Debug, Clone, Copy)]
pub struct Vec2 {
    x: i32,
    y: i32,
}

impl View for Vec2 {
    type V = Position;

    closed spec fn view(&self) -> Position {
        Position { x: self.x as int, y: self.y as int }
    }
}

/// One coordinate moved by `d`, stopping at the end of the range.
fn shift(c: i32, d: i32) -> (r: i32)
    ensures
        r == shifted(c as int, d as int),
{
    let sum: i64 = c as i64 + d as i64;
    if sum > i32::MAX as i64 {
        i32::MAX
    } else if sum < i32::MIN as i64 {
        i32::MIN
    } else {
        sum as i32
    }
}

impl Vec2 {
    /// The point at `(x, y)`.
    pub fn new(x: i32, y: i32) -> (p: Self)
        ensures
            p@.x == x,
            p@.y == y,
    {
        Self { x, y }
    }

    /// Moves the point by `(x, y)`. A coordinate that would leave the `i32`
    /// range stops at the end of the range.
    pub fn move_point(&mut self, x: i32, y: i32)
        ensures
            final(self)@ == old(self)@.moved(x as int, y as int),
    {
        self.x = shift(self.x, x);
        self.y = shift(self.y, y);
    }

    /// The horizontal coordinate.
    pub fn x(&self) -> (x: i32)
        ensures
            x == self@.x,
    {
        self.x
    }

    /// The vertical coordinate.
    pub fn y(&self) -> (y: i32)
        ensures
            y == self@.y,
    {
        self.y
    }

    /// The squared Euclidean distance to `other`, exactly.
    pub fn distance2powi(&self, other: &Vec2) -> (d: i128)
        ensures
            d == sq_dist(self@, other@),
    {
        let dx: i128 = self.x as i128 - other.x as i128;
        let dy: i128 = self.y as i128 - other.y as i128;
        assert(dx * dx <= 0x1_0000_0000 * 0x1_0000_0000) by (nonlinear_arith)
            requires
                -0x1_0000_0000 <= dx <= 0x1_0000_0000,
        ;
        assert(dy * dy <= 0x1_0000_0000 * 0x1_0000_0000) by (nonlinear_arith)
            requires
                -0x1_0000_0000 <= dy <= 0x1_0000_0000,
        ;
        assert(dx * dx >= 0 && dy * dy >= 0) by (nonlinear_arith);
        dx * dx + dy * dy
    }
}

/// A squared distance is never negative.
pub proof fn lemma_sq_dist_nonnegative(a: Position, b: Position)
    ensures
        sq_dist(a, b) >= 0,
{
    assert((a.x - b.x) * (a.x - b.x) >= 0) by (nonlinear_arith);
    assert((a.y - b.y) * (a.y - b.y) >= 0) by (nonlinear_arith);
}

/// The metric does not depend on the order of its arguments.
pub proof fn lemma_sq_dist_symmetric(a: Position, b: Position)
    ensures
        sq_dist(a, b) == sq_dist(b, a),
{
    assert((a.x - b.x) * (a.x - b.x) == (b.x - a.x) * (b.x - a.x)) by (nonlinear_arith);
    assert((a.y - b.y) * (a.y - b.y) == (b.y - a.y) * (b.y - a.y)) by (nonlinear_arith);
}

/// Two positions are at distance zero exactly when they are the same position.
pub proof fn lemma_sq_dist_zero_iff_same(a: Position, b: Position)
    ensures
        sq_dist(a, b) == 0 <==> a == b,
{
    let dx = a.x - b.x;
    let dy = a.y - b.y;
    assert(dx * dx >= 0 && (dx * dx == 0 <==> dx == 0)) by (nonlinear_arith);
    assert(dy * dy >= 0 && (dy * dy == 0 <==> dy == 0)) by (nonlinear_arith);
}

/// A move of two points by the same amount leaves their distance unchanged,
/// provided that neither point is stopped at the edge of the coordinate range.
pub proof fn lemma_sq_dist_unchanged_by_common_move(a: Position, b: Position, dx: int, dy: int)
    requires
        a.offset(dx, dy).on_grid(),
        b.offset(dx, dy).on_grid(),
    ensures
        sq_dist(a.moved(dx, dy), b.moved(dx, dy)) == sq_dist(a, b),
{
}

} // verus!
