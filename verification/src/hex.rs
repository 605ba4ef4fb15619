//! Cube coordinates of a hexagonal grid and their algebra.

use vstd::prelude::*;

verus! {

/// A point of the three-axis integer lattice, with unbounded coordinates.
///
/// This is the mathematical model of [`Hex`]. The cells of a hexagonal grid
/// are the points of the plane `q + r + s == 0`.
pub struct Cube {
    pub q: int,
    pub r: int,
    pub s: int,
}

/// The cube coordinates of one cell of a hexagonal grid.
///
/// A valid cell satisfies `q + r + s == 0`; see [`Hex::is_valid`].
#[derive(Copy, Clone, Debug, PartialEq, Eq, Structural)]
pub struct Hex {
    pub q: i64,
    pub r: i64,
    pub s: i64,
}

impl View for Hex {
    type V = Cube;

    open spec fn view(&self) -> Cube {
        Cube { q: self.q as int, r: self.r as int, s: self.s as int }
    }
}

/// The absolute value of `x`.
pub open spec fn abs(x: int) -> nat {
    if x < 0 {
        (-x) as nat
    } else {
        x as nat
    }
}

/// The largest of three numbers.
pub open spec fn max3(a: nat, b: nat, c: nat) -> nat {
    if a >= b && a >= c {
        a
    } else if b >= c {
        b
    } else {
        c
    }
}

/// `x` is representable as an `i64`.
pub open spec fn fits_i64(x: int) -> bool {
    i64::MIN <= x <= i64::MAX
}

impl Cube {
    /// The point lies on the plane of the grid.
    pub open spec fn is_valid(self) -> bool {
        self.q + self.r + self.s == 0
    }

    /// Every coordinate is representable as an `i64`.
    pub open spec fn fits(self) -> bool {
        fits_i64(self.q) && fits_i64(self.r) && fits_i64(self.s)
    }

    /// The origin.
    pub open spec fn zero() -> Cube {
        Cube { q: 0, r: 0, s: 0 }
    }

    /// Coordinate-wise sum.
    pub open spec fn plus(self, other: Cube) -> Cube {
        Cube { q: self.q + other.q, r: self.r + other.r, s: self.s + other.s }
    }

    /// Coordinate-wise difference.
    pub open spec fn minus(self, other: Cube) -> Cube {
        Cube { q: self.q - other.q, r: self.r - other.r, s: self.s - other.s }
    }

    /// Every coordinate multiplied by `n`.
    pub open spec fn times(self, n: int) -> Cube {
        Cube { q: self.q * n, r: self.r * n, s: self.s * n }
    }

    /// The point turned by 60 degrees about the origin, to the left.
    pub open spec fn rotated_left(self) -> Cube {
        Cube { q: -self.s, r: -self.q, s: -self.r }
    }

    /// The point turned by 60 degrees about the origin, to the right.
    pub open spec fn rotated_right(self) -> Cube {
        Cube { q: -self.r, r: -self.s, s: -self.q }
    }

    /// The step to the `i`-th of the six cells that share an edge with a cell.
    pub open spec fn direction(i: int) -> Cube {
        if i == 0 {
            Cube { q: 1, r: 0, s: -1 }
        } else if i == 1 {
            Cube { q: 1, r: -1, s: 0 }
        } else if i == 2 {
            Cube { q: 0, r: -1, s: 1 }
        } else if i == 3 {
            Cube { q: -1, r: 0, s: 1 }
        } else if i == 4 {
            Cube { q: -1, r: 1, s: 0 }
        } else {
            Cube { q: 0, r: 1, s: -1 }
        }
    }

    /// The step to the `i`-th of the six cells that lie diagonally across a
    /// corner of a cell.
    pub open spec fn diagonal(i: int) -> Cube {
        if i == 0 {
            Cube { q: 2, r: -1, s: -1 }
        } else if i == 1 {
            Cube { q: 1, r: -2, s: 1 }
        } else if i == 2 {
            Cube { q: -1, r: -1, s: 2 }
        } else if i == 3 {
            Cube { q: -2, r: 1, s: 1 }
        } else if i == 4 {
            Cube { q: -1, r: 2, s: -1 }
        } else {
            Cube { q: 1, r: 1, s: -2 }
        }
    }

    /// Half the sum of the absolute coordinates, rounded down: on the plane
    /// of the grid, the number of steps from the origin.
    pub open spec fn norm(self) -> nat {
        (abs(self.q) + abs(self.r) + abs(self.s)) / 2
    }

    /// The number of steps between two cells.
    pub open spec fn distance(self, other: Cube) -> nat {
        self.minus(other).norm()
    }
}

/// The absolute value of `x`, in a type wide enough for every `i128` that
/// arises from sums and differences of `i64` values.
fn magnitude(x: i128) -> (m: u128)
    requires
        x > i128::MIN,
    ensures
        m == abs(x as int),
{
    if x < 0 {
        (-x) as u128
    } else {
        x as u128
    }
}

impl Hex {
    /// The cell satisfies `q + r + s == 0`.
    pub open spec fn is_valid(&self) -> bool {
        self@.is_valid()
    }

    /// The cell with the coordinates of `c`, where they fit.
    pub open spec fn of(c: Cube) -> Hex {
        Hex { q: c.q as i64, r: c.r as i64, s: c.s as i64 }
    }

    /// The cell with the given coordinates, which must sum to zero.
    pub fn new(q: i64, r: i64, s: i64) -> (h: Hex)
        requires
            q + r + s == 0,
        ensures
            h.q == q,
            h.r == r,
            h.s == s,
            h.is_valid(),
    {
        Hex { q, r, s }
    }

    /// The step to the neighbor in the given direction, `0..6`.
    pub fn direction(direction: usize) -> (h: Hex)
        requires
            direction < 6,
        ensures
            h@ == Cube::direction(direction as int),
            h.is_valid(),
    {
        if direction == 0 {
            Hex { q: 1, r: 0, s: -1 }
        } else if direction == 1 {
            Hex { q: 1, r: -1, s: 0 }
        } else if direction == 2 {
            Hex { q: 0, r: -1, s: 1 }
        } else if direction == 3 {
            Hex { q: -1, r: 0, s: 1 }
        } else if direction == 4 {
            Hex { q: -1, r: 1, s: 0 }
        } else {
            Hex { q: 0, r: 1, s: -1 }
        }
    }

    /// The step to the diagonal neighbor in the given direction, `0..6`.
    pub fn diagonal(direction: usize) -> (h: Hex)
        requires
            direction < 6,
        ensures
            h@ == Cube::diagonal(direction as int),
            h.is_valid(),
    {
        if direction == 0 {
            Hex { q: 2, r: -1, s: -1 }
        } else if direction == 1 {
            Hex { q: 1, r: -2, s: 1 }
        } else if direction == 2 {
            Hex { q: -1, r: -1, s: 2 }
        } else if direction == 3 {
            Hex { q: -2, r: 1, s: 1 }
        } else if direction == 4 {
            Hex { q: -1, r: 2, s: -1 }
        } else {
            Hex { q: 1, r: 1, s: -2 }
        }
    }

    /// Every coordinate multiplied by `n`.
    pub fn scale(&self, n: i64) -> (h: Hex)
        requires
            self@.times(n as int).fits(),
        ensures
            h@ == self@.times(n as int),
            self.is_valid() ==> h.is_valid(),
    {
        proof {
            if self.is_valid() {
                lemma_times_valid(self@, n as int);
            }
        }
        Hex { q: self.q * n, r: self.r * n, s: self.s * n }
    }

    /// The cell turned by 60 degrees about the origin, to the left.
    pub fn rotate_left(&self) -> (h: Hex)
        requires
            self@.rotated_left().fits(),
        ensures
            h@ == self@.rotated_left(),
            self.is_valid() ==> h.is_valid(),
    {
        Hex { q: -self.s, r: -self.q, s: -self.r }
    }

    /// The cell turned by 60 degrees about the origin, to the right.
    pub fn rotate_right(&self) -> (h: Hex)
        requires
            self@.rotated_right().fits(),
        ensures
            h@ == self@.rotated_right(),
            self.is_valid() ==> h.is_valid(),
    {
        Hex { q: -self.r, r: -self.s, s: -self.q }
    }

    /// The cell one step away in the given direction, `0..6`.
    pub fn neighbor(&self, direction: usize) -> (h: Hex)
        requires
            direction < 6,
            self@.plus(Cube::direction(direction as int)).fits(),
        ensures
            h@ == self@.plus(Cube::direction(direction as int)),
            self.is_valid() ==> h.is_valid(),
    {
        *self + Hex::direction(direction)
    }

    /// The cell across the corner in the given diagonal direction, `0..6`.
    pub fn diagonal_neighbor(&self, direction: usize) -> (h: Hex)
        requires
            direction < 6,
            self@.plus(Cube::diagonal(direction as int)).fits(),
        ensures
            h@ == self@.plus(Cube::diagonal(direction as int)),
            self.is_valid() ==> h.is_valid(),
    {
        *self + Hex::diagonal(direction)
    }

    /// The number of steps from the origin to this cell.
    pub fn length(&self) -> (n: u64)
        ensures
            n == self@.norm(),
    {
        hex_length(*self)
    }

    /// The number of steps from this cell to `other`.
    ///
    /// Between two valid cells the distance always fits; see
    /// [`lemma_distance_fits`].
    pub fn distance(&self, other: Hex) -> (n: u64)
        requires
            self@.distance(other@) <= u64::MAX,
        ensures
            n == self@.distance(other@),
    {
        let dq: i128 = self.q as i128 - other.q as i128;
        let dr: i128 = self.r as i128 - other.r as i128;
        let ds: i128 = self.s as i128 - other.s as i128;
        let sum: u128 = magnitude(dq) + magnitude(dr) + magnitude(ds);
        (sum / 2) as u64
    }
}

/// The number of steps from the origin to `hex`.
pub fn hex_length(hex: Hex) -> (n: u64)
    ensures
        n == hex@.norm(),
{
    let sum: u128 = magnitude(hex.q as i128) + magnitude(hex.r as i128) + magnitude(
        hex.s as i128,
    );
    (sum / 2) as u64
}

impl core::ops::Add for Hex {
    type Output = Hex;

    /// Coordinate-wise sum.
    fn add(self, other: Hex) -> (h: Hex)
        ensures
            h@ == self@.plus(other@),
            self.is_valid() && other.is_valid() ==> h.is_valid(),
    {
        Hex { q: self.q + other.q, r: self.r + other.r, s: self.s + other.s }
    }
}

impl vstd::std_specs::ops::AddSpecImpl for Hex {
    open spec fn obeys_add_spec() -> bool {
        true
    }

    open spec fn add_req(self, other: Hex) -> bool {
        self@.plus(other@).fits()
    }

    open spec fn add_spec(self, other: Hex) -> Hex {
        Hex::of(self@.plus(other@))
    }
}

impl core::ops::Sub for Hex {
    type Output = Hex;

    /// Coordinate-wise difference.
    fn sub(self, other: Hex) -> (h: Hex)
        ensures
            h@ == self@.minus(other@),
            self.is_valid() && other.is_valid() ==> h.is_valid(),
    {
        Hex { q: self.q - other.q, r: self.r - other.r, s: self.s - other.s }
    }
}

impl vstd::std_specs::ops::SubSpecImpl for Hex {
    open spec fn obeys_sub_spec() -> bool {
        true
    }

    open spec fn sub_req(self, other: Hex) -> bool {
        self@.minus(other@).fits()
    }

    open spec fn sub_spec(self, other: Hex) -> Hex {
        Hex::of(self@.minus(other@))
    }
}

/// Scaling keeps a point on the plane of the grid.
pub proof fn lemma_times_valid(c: Cube, n: int)
    requires
        c.is_valid(),
    ensures
        c.times(n).is_valid(),
{
    assert(c.q * n + c.r * n + c.s * n == (c.q + c.r + c.s) * n) by (nonlinear_arith);
}

/// Sums, differences and rotations of points on the plane of the grid lie on
/// it, and so do the twelve direction steps.
pub proof fn lemma_algebra_valid(a: Cube, b: Cube, i: int)
    requires
        a.is_valid(),
        b.is_valid(),
    ensures
        a.plus(b).is_valid(),
        a.minus(b).is_valid(),
        a.rotated_left().is_valid(),
        a.rotated_right().is_valid(),
        Cube::direction(i).is_valid(),
        Cube::diagonal(i).is_valid(),
{
}

/// Adding a point and taking it away again, in either order, changes
/// nothing.
pub proof fn lemma_plus_minus_inverse(a: Cube, b: Cube)
    ensures
        a.plus(b).minus(b) == a,
        a.minus(b).plus(b) == a,
{
}

/// Scaling by one changes nothing.
pub proof fn lemma_times_one(c: Cube)
    ensures
        c.times(1) == c,
{
}

/// A turn to the left undoes a turn to the right, and the other way round.
pub proof fn lemma_rotations_inverse(c: Cube)
    ensures
        c.rotated_left().rotated_right() == c,
        c.rotated_right().rotated_left() == c,
{
}

/// Six turns to the left, or six to the right, come back to the start.
pub proof fn lemma_six_rotations(c: Cube)
    ensures
        c.rotated_left().rotated_left().rotated_left().rotated_left().rotated_left().rotated_left()
            == c,
        c.rotated_right().rotated_right().rotated_right().rotated_right().rotated_right()
            .rotated_right() == c,
{
}

/// A turn to the left carries each direction step to the next one, so the
/// six steps go once around a cell.
pub proof fn lemma_rotation_of_direction(i: int)
    requires
        0 <= i < 6,
    ensures
        Cube::direction(i).rotated_left() == Cube::direction((i + 1) % 6),
        Cube::diagonal(i).rotated_left() == Cube::diagonal((i + 1) % 6),
        Cube::direction(i).plus(Cube::direction((i + 1) % 6)) == Cube::diagonal(i),
{
}

/// Distance does not depend on the order of the two cells, and a cell is at
/// distance zero from itself.
pub proof fn lemma_distance_symmetric(a: Cube, b: Cube)
    ensures
        a.distance(b) == b.distance(a),
        a.distance(a) == 0,
{
}

/// On the plane of the grid the sum of the absolute coordinates is even, and
/// the norm is the largest absolute coordinate.
pub proof fn lemma_norm_valid(c: Cube)
    requires
        c.is_valid(),
    ensures
        (abs(c.q) + abs(c.r) + abs(c.s)) % 2 == 0,
        c.norm() == max3(abs(c.q), abs(c.r), abs(c.s)),
{
}

/// Only the origin has norm zero, every direction step has norm one and
/// every diagonal step has norm two.
pub proof fn lemma_norm_small(c: Cube, i: int)
    requires
        c.is_valid(),
    ensures
        c.norm() == 0 <==> c == Cube::zero(),
        Cube::direction(i).norm() == 1,
        Cube::diagonal(i).norm() == 2,
{
}

/// On the plane of the grid the norm of a sum is at most the sum of the
/// norms.
pub proof fn lemma_norm_subadditive(a: Cube, b: Cube)
    requires
        a.is_valid(),
        b.is_valid(),
    ensures
        a.plus(b).norm() <= a.norm() + b.norm(),
{
    let c = a.plus(b);
    lemma_norm_valid(a);
    lemma_norm_valid(b);
    lemma_norm_valid(c);
    assert(abs(c.q) <= abs(a.q) + abs(b.q) <= a.norm() + b.norm());
    assert(abs(c.r) <= abs(a.r) + abs(b.r) <= a.norm() + b.norm());
    assert(abs(c.s) <= abs(a.s) + abs(b.s) <= a.norm() + b.norm());
}

/// Between points on the plane of the grid, distance obeys the triangle
/// inequality.
pub proof fn lemma_triangle_inequality(a: Cube, b: Cube, c: Cube)
    requires
        a.is_valid(),
        b.is_valid(),
        c.is_valid(),
    ensures
        a.distance(c) <= a.distance(b) + b.distance(c),
{
    lemma_norm_subadditive(a.minus(b), b.minus(c));
    assert(a.minus(b).plus(b.minus(c)) == a.minus(c));
}

/// The distance between two valid cells fits in a `u64`.
pub proof fn lemma_distance_fits(a: Hex, b: Hex)
    requires
        a.is_valid(),
        b.is_valid(),
    ensures
        a@.distance(b@) <= u64::MAX,
{
    lemma_norm_valid(a@.minus(b@));
}

} // verus!
