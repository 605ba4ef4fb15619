//! The cells on a straight line between two cells.

use crate::fractional::{
    fits_i128, hex_round, lemma_lerp_valid, lemma_round_ratio_bounds, lemma_round_ratio_near,
    lemma_rounded_in_cell, lemma_rounded_keeps_close, round_error, round_ratio, Frac,
    FractionalHex,
};
use crate::hex::{abs, lemma_norm_valid, Cube, Hex};
use vstd::prelude::*;

verus! {

/// The largest absolute coordinate of a cell between which and another this
/// module draws lines: with it every intermediate value of the exact
/// arithmetic is representable as an `i128`.
pub const LINE_LIMIT: i64 = 0x100_0000_0000;

/// A nudge moves a cell's center by one, one and minus two units of the
/// reciprocal of this number.
pub const NUDGE_SCALE: i128 = 1_000_000;

/// Every coordinate of `c` is at most [`LINE_LIMIT`] in absolute value.
pub open spec fn in_line_range(c: Cube) -> bool {
    &&& abs(c.q) <= LINE_LIMIT
    &&& abs(c.r) <= LINE_LIMIT
    &&& abs(c.s) <= LINE_LIMIT
}

/// The center of the cell `c`, moved by a millionth of a cell along `q` and
/// along `r` and by two millionths back along `s`. Where a line between two
/// centers meets the edge between two cells, the line between the nudged
/// centers passes that edge on one side, unless the edge runs along the
/// nudge.
pub open spec fn nudged(c: Cube) -> Frac {
    Frac {
        q: c.q * NUDGE_SCALE + 1,
        r: c.r * NUDGE_SCALE + 1,
        s: c.s * NUDGE_SCALE - 2,
        den: NUDGE_SCALE as int,
    }
}

/// The number of equal parts into which the line from `a` to `b` is cut:
/// the distance between the two, or one where they coincide.
pub open spec fn line_steps(a: Cube, b: Cube) -> int {
    if a.distance(b) == 0 {
        1
    } else {
        a.distance(b) as int
    }
}

/// The point `i` parts of the way from the nudged center of `a` to that of
/// `b`.
pub open spec fn line_point(a: Cube, b: Cube, i: int) -> Frac {
    nudged(a).lerp(nudged(b), i, line_steps(a, b))
}

/// The `i`-th cell of the line from `a` to `b`: the cell nearest to the
/// `i`-th point of the way.
pub open spec fn line_cell(a: Cube, b: Cube, i: int) -> Cube {
    line_point(a, b, i).rounded()
}

/// Whether lines can be drawn from and to `h`: every coordinate is at most
/// [`LINE_LIMIT`] in absolute value.
pub fn hex_in_line_range(h: Hex) -> (ok: bool)
    ensures
        ok == in_line_range(h@),
{
    -LINE_LIMIT <= h.q && h.q <= LINE_LIMIT && -LINE_LIMIT <= h.r && h.r <= LINE_LIMIT
        && -LINE_LIMIT <= h.s && h.s <= LINE_LIMIT
}

/// The nudged center of `h`.
fn nudge(h: Hex) -> (f: FractionalHex)
    requires
        in_line_range(h@),
    ensures
        f@ == nudged(h@),
{
    FractionalHex {
        q: h.q as i128 * NUDGE_SCALE + 1,
        r: h.r as i128 * NUDGE_SCALE + 1,
        s: h.s as i128 * NUDGE_SCALE - 2,
        den: NUDGE_SCALE,
    }
}

/// The cells on the straight line from `a` to `b`, both included, in order.
///
/// There is one cell more than the distance between `a` and `b`. Between
/// valid cells the line starts at `a`, ends at `b`, and goes from each of
/// its cells to a neighbor of that cell.
pub fn hex_linedraw(a: Hex, b: Hex) -> (line: Vec<Hex>)
    requires
        in_line_range(a@),
        in_line_range(b@),
    ensures
        line@.len() == a@.distance(b@) + 1,
        forall|i: int| 0 <= i < line@.len() ==> (#[trigger] line@[i])@ == line_cell(a@, b@, i),
        forall|i: int| 0 <= i < line@.len() ==> (#[trigger] line@[i]).is_valid(),
        a.is_valid() ==> line@[0] == a,
        a.is_valid() && b.is_valid() ==> line@[line@.len() - 1] == b,
        a.is_valid() && b.is_valid() ==> forall|i: int|
            0 <= i < line@.len() - 1 ==> (#[trigger] line@[i])@.distance(line@[i + 1]@) == 1,
{
    let n: u64 = a.distance(b);
    let a_nudge = nudge(a);
    let b_nudge = nudge(b);
    let steps: u64 = if n == 0 {
        1
    } else {
        n
    };
    let mut results: Vec<Hex> = Vec::new();
    let mut i: u64 = 0;
    while i <= n
        invariant
            in_line_range(a@),
            in_line_range(b@),
            n == a@.distance(b@),
            steps == line_steps(a@, b@),
            a_nudge@ == nudged(a@),
            b_nudge@ == nudged(b@),
            0 <= i <= n + 1,
            results@.len() == i,
            forall|j: int| 0 <= j < i ==> (#[trigger] results@[j])@ == line_cell(a@, b@, j),
            forall|j: int| 0 <= j < i ==> (#[trigger] results@[j]).is_valid(),
        decreases n + 1 - i,
    {
        proof {
            lemma_line_cell_fits(a@, b@, i as int);
        }
        let point = a_nudge.lerp(b_nudge, i as i128, steps as i128);
        results.push(hex_round(point));
        i += 1;
    }
    proof {
        lemma_line_ends(a@, b@);
        if a.is_valid() && b.is_valid() {
            assert forall|i: int| 0 <= i < results@.len() - 1 implies (#[trigger] results@[i])@
                .distance(results@[i + 1]@) == 1 by {
                lemma_line_connected(a@, b@, i);
            }
        }
    }
    results
}

/// The line from a valid cell `a` to a valid cell `b` starts at `a` and ends
/// at `b`.
pub proof fn lemma_line_ends(a: Cube, b: Cube)
    ensures
        a.is_valid() ==> line_cell(a, b, 0) == a,
        b.is_valid() ==> line_cell(a, b, line_steps(a, b)) == b,
        a.is_valid() && b.is_valid() ==> line_cell(a, b, a.distance(b) as int) == b,
{
    let steps = line_steps(a, b);
    let scale = NUDGE_SCALE as int;
    let den = scale * scale * steps;
    let unit = scale * steps;
    assert(den == scale * unit && unit >= scale) by (nonlinear_arith)
        requires
            den == scale * scale * steps,
            unit == scale * steps,
            steps >= 1,
            scale > 0,
    ;
    lemma_line_end_coordinate(a.q, b.q, 1, steps);
    lemma_line_end_coordinate(a.r, b.r, 1, steps);
    lemma_line_end_coordinate(a.s, b.s, -2, steps);
    lemma_round_ratio_near(a.q, unit, den);
    lemma_round_ratio_near(a.r, unit, den);
    lemma_round_ratio_near(a.s, -2 * unit, den);
    lemma_round_ratio_near(b.q, unit, den);
    lemma_round_ratio_near(b.r, unit, den);
    lemma_round_ratio_near(b.s, -2 * unit, den);
}

/// Each cell of the line between two valid cells holds the point of the
/// straight way between their nudged centers that it stands for.
pub proof fn lemma_line_follows_the_way(a: Cube, b: Cube, i: int)
    requires
        a.is_valid(),
        b.is_valid(),
    ensures
        line_point(a, b, i).is_valid(),
        line_point(a, b, i).in_cell(line_cell(a, b, i)),
{
    lemma_lerp_valid(nudged(a), nudged(b), i, line_steps(a, b));
    lemma_rounded_in_cell(line_point(a, b, i));
}

/// Each cell of the line between two valid cells is a neighbor of the cell
/// before it: the line has no gaps, and no cell comes twice in a row.
pub proof fn lemma_line_connected(a: Cube, b: Cube, i: int)
    requires
        a.is_valid(),
        b.is_valid(),
        0 <= i < a.distance(b),
    ensures
        line_cell(a, b, i).distance(line_cell(a, b, i + 1)) == 1,
{
    let n = a.distance(b) as int;
    let t = b.minus(a);
    let v = line_cell(a, b, i + 1).minus(line_cell(a, b, i));
    assert(a.distance(b) == b.distance(a));
    lemma_norm_valid(t);
    lemma_line_step_gaps(a, b, i);
    lemma_line_whole_steps(a, b, i);
    assert(v.is_valid());
    if t.q == n {
        lemma_step_unit(n, 1, t.r, t.s, v.r, v.s);
    } else if t.q == -n {
        lemma_step_unit(n, -1, t.r, t.s, v.r, v.s);
    } else if t.r == n {
        lemma_step_unit(n, 1, t.s, t.q, v.s, v.q);
    } else if t.r == -n {
        lemma_step_unit(n, -1, t.s, t.q, v.s, v.q);
    } else if t.s == n {
        lemma_step_unit(n, 1, t.q, t.r, v.q, v.r);
    } else {
        lemma_step_unit(n, -1, t.q, t.r, v.q, v.r);
    }
}

/// The norm of a point whose coordinates are bounded is bounded.
proof fn lemma_line_length_bound(a: Cube, b: Cube)
    requires
        in_line_range(a),
        in_line_range(b),
    ensures
        1 <= line_steps(a, b) <= 3 * LINE_LIMIT,
        a.distance(b) <= 3 * LINE_LIMIT,
{
}

/// One coordinate of a point on the line: its numerator stays within the
/// range of `i128` at every step of the computation, and the point lies
/// between bounds one cell beyond [`LINE_LIMIT`].
proof fn lemma_line_coordinate(x: int, y: int, e: int, i: int, steps: int)
    requires
        abs(x) <= LINE_LIMIT,
        abs(y) <= LINE_LIMIT,
        abs(e) <= 2,
        0 <= i <= steps <= 3 * LINE_LIMIT,
        1 <= steps,
    ensures
        ({
            let w_self = NUDGE_SCALE * (steps - i);
            let w_other = NUDGE_SCALE * i;
            let from = x * NUDGE_SCALE + e;
            let to = y * NUDGE_SCALE + e;
            let den = NUDGE_SCALE * NUDGE_SCALE * steps;
            let limit = LINE_LIMIT + 1;
            &&& fits_i128(w_self)
            &&& fits_i128(w_other)
            &&& 0 < den
            &&& fits_i128(den)
            &&& fits_i128(from * w_self)
            &&& fits_i128(to * w_other)
            &&& fits_i128(from * w_self + to * w_other)
            &&& (-limit) * den <= from * w_self + to * w_other <= limit * den
        }),
{
    let scale: int = 1_000_000;
    let limit: int = 0x100_0000_0001;
    let w_self = scale * (steps - i);
    let w_other = scale * i;
    let from = x * scale + e;
    let to = y * scale + e;
    let den = scale * scale * steps;
    let bound = limit * scale;
    assert(-bound <= from <= bound && -bound <= to <= bound);
    assert(0 <= w_self && 0 <= w_other && w_self + w_other == scale * steps) by (nonlinear_arith)
        requires
            w_self == scale * (steps - i),
            w_other == scale * i,
            0 <= i <= steps,
            scale > 0,
    ;
    assert(-(bound * w_self) <= from * w_self <= bound * w_self) by (nonlinear_arith)
        requires
            -bound <= from <= bound,
            0 <= w_self,
    ;
    assert(-(bound * w_other) <= to * w_other <= bound * w_other) by (nonlinear_arith)
        requires
            -bound <= to <= bound,
            0 <= w_other,
    ;
    assert(bound * w_self + bound * w_other == limit * den && 0 <= bound * w_self && 0 <= bound
        * w_other) by (nonlinear_arith)
        requires
            w_self + w_other == scale * steps,
            bound == limit * scale,
            den == scale * scale * steps,
            0 <= bound,
            0 <= w_self,
            0 <= w_other,
    ;
    assert((-limit) * den == -(limit * den)) by (nonlinear_arith);
    assert(0 < den <= 3_298_534_883_328_000_000_000_000 && limit * den
        <= 3_626_777_458_847_186_059_001_856_000_000_000_000) by (nonlinear_arith)
        requires
            den == scale * scale * steps,
            scale == 1_000_000,
            limit == 0x100_0000_0001,
            1 <= steps <= 3 * 0x100_0000_0000,
    ;
}

/// Between cells in range, every cell of the line can be computed within
/// the range of `i128`, and its coordinates fit in an `i64`.
proof fn lemma_line_cell_fits(a: Cube, b: Cube, i: int)
    requires
        in_line_range(a),
        in_line_range(b),
        0 <= i <= line_steps(a, b),
    ensures
        nudged(a).lerp_fits(nudged(b), i, line_steps(a, b)),
        line_cell(a, b, i).fits(),
{
    let steps = line_steps(a, b);
    let point = nudged(a).lerp(nudged(b), i, steps);
    let limit = LINE_LIMIT + 1;
    lemma_line_length_bound(a, b);
    lemma_line_coordinate(a.q, b.q, 1, i, steps);
    lemma_line_coordinate(a.r, b.r, 1, i, steps);
    lemma_line_coordinate(a.s, b.s, -2, i, steps);
    lemma_round_ratio_bounds(point.q, point.den, -limit, limit);
    lemma_round_ratio_bounds(point.r, point.den, -limit, limit);
    lemma_round_ratio_bounds(point.s, point.den, -limit, limit);
}

/// One coordinate of the first and of the last point of a line: a whole
/// number of cells and the nudge.
proof fn lemma_line_end_coordinate(x: int, y: int, e: int, steps: int)
    ensures
        ({
            let scale = NUDGE_SCALE as int;
            let from = x * scale + e;
            let to = y * scale + e;
            let den = scale * scale * steps;
            &&& from * (scale * (steps - 0)) + to * (scale * 0) == x * den + e * (scale * steps)
            &&& from * (scale * (steps - steps)) + to * (scale * steps) == y * den + e * (scale
                * steps)
        }),
{
    let scale = NUDGE_SCALE as int;
    let from = x * scale + e;
    let to = y * scale + e;
    let den = scale * scale * steps;
    assert(from * (scale * (steps - 0)) + to * (scale * 0) == x * den + e * (scale * steps)) by (
        nonlinear_arith)
        requires
            from == x * scale + e,
            den == scale * scale * steps,
    ;
    assert(from * (scale * (steps - steps)) + to * (scale * steps) == y * den + e * (scale
        * steps)) by (nonlinear_arith)
        requires
            to == y * scale + e,
            den == scale * scale * steps,
    ;
}

/// The numerator of one coordinate of the `i`-th of the points that cut the
/// line into `n` parts, for a coordinate that goes from `x` to `y` and is
/// nudged by `e`.
spec fn line_numerator(x: int, y: int, e: int, i: int, n: int) -> int {
    (x * NUDGE_SCALE + e) * (NUDGE_SCALE * (n - i)) + (y * NUDGE_SCALE + e) * (NUDGE_SCALE * i)
}

/// The denominator of the points that cut a line into `n` parts.
spec fn line_denominator(n: int) -> int {
    NUDGE_SCALE * NUDGE_SCALE * n
}

/// One coordinate of a point on the line is the weighted mean of the two
/// ends and the nudge, and from each point to the next it grows by one part
/// of the way.
proof fn lemma_line_numerator(x: int, y: int, e: int, i: int, n: int)
    ensures
        line_numerator(x, y, e, i, n) == (x * n + i * (y - x)) * (NUDGE_SCALE * NUDGE_SCALE) + e
            * (NUDGE_SCALE * n),
        line_numerator(x, y, e, i + 1, n) - line_numerator(x, y, e, i, n) == (y - x) * (NUDGE_SCALE
            * NUDGE_SCALE),
{
    let scale: int = 1_000_000;
    let square = scale * scale;
    let from = x * scale + e;
    let to = y * scale + e;
    assert(from * (scale * (n - i)) == x * (square * (n - i)) + e * (scale * (n - i))) by (
        nonlinear_arith)
        requires
            from == x * scale + e,
            square == scale * scale,
    ;
    assert(to * (scale * i) == y * (square * i) + e * (scale * i)) by (nonlinear_arith)
        requires
            to == y * scale + e,
            square == scale * scale,
    ;
    assert(x * (square * (n - i)) + y * (square * i) == (x * n + i * (y - x)) * square) by (
        nonlinear_arith);
    assert(e * (scale * (n - i)) + e * (scale * i) == e * (scale * n)) by (nonlinear_arith);
    assert(from * (scale * (n - (i + 1))) == from * (scale * (n - i)) - from * scale) by (
        nonlinear_arith);
    assert(to * (scale * (i + 1)) == to * (scale * i) + to * scale) by (nonlinear_arith);
    assert(to * scale - from * scale == (y - x) * square) by (nonlinear_arith)
        requires
            from == x * scale + e,
            to == y * scale + e,
            square == scale * scale,
    ;
}

/// A coordinate that changes by a whole cell from each point of the line to
/// the next, or not at all, is a whole number and the nudge at every point:
/// it rounds to that number, with an error of less than a third of a cell.
proof fn lemma_line_whole_coordinate(x: int, y: int, e: int, i: int, n: int, step: int)
    requires
        n >= 1,
        abs(e) <= 2,
        -1 <= step <= 1,
        y - x == step * n,
    ensures
        round_ratio(line_numerator(x, y, e, i, n), line_denominator(n)) == x + step * i,
        3 * round_error(line_numerator(x, y, e, i, n), line_denominator(n)) < line_denominator(n),
{
    let scale: int = 1_000_000;
    let square = scale * scale;
    let den = square * n;
    let off = e * (scale * n);
    lemma_line_numerator(x, y, e, i, n);
    assert((x * n + i * (y - x)) * square == (x + step * i) * den) by (nonlinear_arith)
        requires
            y - x == step * n,
            den == square * n,
    ;
    assert(6 * abs(off) < den && den > 0) by (nonlinear_arith)
        requires
            off == e * (scale * n),
            den == scale * scale * n,
            scale == 1_000_000,
            abs(e) <= 2,
            n >= 1,
    ;
    lemma_round_ratio_near(x + step * i, off, den);
}

/// What [`lemma_line_whole_coordinate`] says of a coordinate, at a point of
/// the line and at the next, for each way in which the coordinate can
/// change by whole cells.
proof fn lemma_line_axis(x: int, y: int, e: int, i: int, n: int)
    requires
        n >= 1,
        abs(e) <= 2,
    ensures
        ({
            let den = line_denominator(n);
            let p_here = line_numerator(x, y, e, i, n);
            let p_next = line_numerator(x, y, e, i + 1, n);
            let whole = y - x == n || y - x == 0 || y - x == -n;
            &&& whole ==> 3 * round_error(p_here, den) < den && 3 * round_error(p_next, den) < den
            &&& y - x == n ==> round_ratio(p_next, den) - round_ratio(p_here, den) == 1
            &&& y - x == 0 ==> round_ratio(p_next, den) - round_ratio(p_here, den) == 0
            &&& y - x == -n ==> round_ratio(p_next, den) - round_ratio(p_here, den) == -1
        }),
{
    if y - x == n {
        lemma_line_whole_coordinate(x, y, e, i, n, 1);
        lemma_line_whole_coordinate(x, y, e, i + 1, n, 1);
    } else if y - x == 0 {
        lemma_line_whole_coordinate(x, y, e, i, n, 0);
        lemma_line_whole_coordinate(x, y, e, i + 1, n, 0);
    } else if y - x == -n {
        lemma_line_whole_coordinate(x, y, e, i, n, -1);
        lemma_line_whole_coordinate(x, y, e, i + 1, n, -1);
    }
}

/// Between two points that each lie in the hexagon around a cell, the
/// difference of two coordinates changes from the one cell to the other as
/// it does from the one point to the other, up to two cells.
proof fn lemma_step_gap(
    n: int,
    cy0: int,
    cz0: int,
    cy1: int,
    cz1: int,
    py0: int,
    pz0: int,
    py1: int,
    pz1: int,
    ty: int,
    tz: int,
)
    requires
        n >= 1,
        abs((cy0 * line_denominator(n) - py0) - (cz0 * line_denominator(n) - pz0))
            <= line_denominator(n),
        abs((cy1 * line_denominator(n) - py1) - (cz1 * line_denominator(n) - pz1))
            <= line_denominator(n),
        py1 - py0 == ty * (NUDGE_SCALE * NUDGE_SCALE),
        pz1 - pz0 == tz * (NUDGE_SCALE * NUDGE_SCALE),
    ensures
        -2 * n <= ((cy1 - cy0) - (cz1 - cz0)) * n - (ty - tz) <= 2 * n,
{
    let square: int = 1_000_000_000_000;
    let den = square * n;
    let w = (cy1 - cy0) - (cz1 - cz0);
    let u = ty - tz;
    assert(NUDGE_SCALE * NUDGE_SCALE == square);
    assert(line_denominator(n) == den);
    assert(w * den == (cy1 * den - cy0 * den) - (cz1 * den - cz0 * den)) by (nonlinear_arith)
        requires
            w == (cy1 - cy0) - (cz1 - cz0),
    ;
    assert(u * square == ty * square - tz * square) by (nonlinear_arith)
        requires
            u == ty - tz,
    ;
    assert(-2 * den <= w * den - u * square <= 2 * den);
    assert(-2 * n <= w * n - u <= 2 * n) by (nonlinear_arith)
        requires
            square > 0,
            den == square * n,
            -2 * den <= w * den - u * square <= 2 * den,
    ;
}

/// The step from one cell of a line to the next, along the two coordinates
/// that do not lead: one of them stays and the other moves by one cell,
/// against the leading coordinate.
proof fn lemma_step_unit(n: int, lead: int, ty: int, tz: int, vy: int, vz: int)
    requires
        n >= 1,
        lead == 1 || lead == -1,
        lead == 1 ==> ty + tz == -n && -n <= ty <= 0,
        lead == -1 ==> ty + tz == n && 0 <= ty <= n,
        vy + vz == -lead,
        -2 * n <= (vy - vz) * n - (ty - tz) <= 2 * n,
        ty == 0 ==> vy == 0,
        tz == 0 ==> vz == 0,
    ensures
        (vy == 0 && vz == -lead) || (vy == -lead && vz == 0),
{
    if ty != 0 && tz != 0 {
        let m = vy * n;
        assert((vy - vz) * n == 2 * m + lead * n) by (nonlinear_arith)
            requires
                vy + vz == -lead,
                m == vy * n,
        ;
        if lead == 1 {
            assert(lead * n == n);
            assert(-2 * n < m < n);
            assert(-2 < vy < 1) by (nonlinear_arith)
                requires
                    n >= 1,
                    m == vy * n,
                    -2 * n < m < n,
            ;
        } else {
            assert(lead * n == -n);
            assert(-n < m < 2 * n);
            assert(-1 < vy < 2) by (nonlinear_arith)
                requires
                    n >= 1,
                    m == vy * n,
                    -n < m < 2 * n,
            ;
        }
    }
}

/// From one cell of the line between two valid cells to the next, the
/// difference of any two coordinates changes as it does along the line, up
/// to two cells.
proof fn lemma_line_step_gaps(a: Cube, b: Cube, i: int)
    requires
        a.is_valid(),
        b.is_valid(),
        0 <= i < a.distance(b),
    ensures
        ({
            let n = a.distance(b) as int;
            let t = b.minus(a);
            let v = line_cell(a, b, i + 1).minus(line_cell(a, b, i));
            &&& -2 * n <= (v.q - v.r) * n - (t.q - t.r) <= 2 * n
            &&& -2 * n <= (v.r - v.s) * n - (t.r - t.s) <= 2 * n
            &&& -2 * n <= (v.s - v.q) * n - (t.s - t.q) <= 2 * n
        }),
{
    let n = a.distance(b) as int;
    let p_here = nudged(a).lerp(nudged(b), i, n);
    let p_next = nudged(a).lerp(nudged(b), i + 1, n);
    let c_here = p_here.rounded();
    let c_next = p_next.rounded();
    lemma_lerp_valid(nudged(a), nudged(b), i, n);
    lemma_lerp_valid(nudged(a), nudged(b), i + 1, n);
    lemma_rounded_in_cell(p_here);
    lemma_rounded_in_cell(p_next);
    lemma_line_numerator(a.q, b.q, 1, i, n);
    lemma_line_numerator(a.r, b.r, 1, i, n);
    lemma_line_numerator(a.s, b.s, -2, i, n);
    assert(p_here.den == line_denominator(n) && p_next.den == line_denominator(n));
    assert(p_here.q == line_numerator(a.q, b.q, 1, i, n));
    assert(p_next.q == line_numerator(a.q, b.q, 1, i + 1, n));
    assert(p_here.r == line_numerator(a.r, b.r, 1, i, n));
    assert(p_next.r == line_numerator(a.r, b.r, 1, i + 1, n));
    assert(p_here.s == line_numerator(a.s, b.s, -2, i, n));
    assert(p_next.s == line_numerator(a.s, b.s, -2, i + 1, n));
    lemma_step_gap(
        n,
        c_here.q,
        c_here.r,
        c_next.q,
        c_next.r,
        p_here.q,
        p_here.r,
        p_next.q,
        p_next.r,
        b.q - a.q,
        b.r - a.r,
    );
    lemma_step_gap(
        n,
        c_here.r,
        c_here.s,
        c_next.r,
        c_next.s,
        p_here.r,
        p_here.s,
        p_next.r,
        p_next.s,
        b.r - a.r,
        b.s - a.s,
    );
    lemma_step_gap(
        n,
        c_here.s,
        c_here.q,
        c_next.s,
        c_next.q,
        p_here.s,
        p_here.q,
        p_next.s,
        p_next.q,
        b.s - a.s,
        b.q - a.q,
    );
}

/// From one cell of the line between two valid cells to the next, a
/// coordinate that changes by a whole cell at every step of the line, or not
/// at all, does so.
proof fn lemma_line_whole_steps(a: Cube, b: Cube, i: int)
    requires
        a.is_valid(),
        b.is_valid(),
        0 <= i < a.distance(b),
    ensures
        ({
            let n = a.distance(b) as int;
            let t = b.minus(a);
            let v = line_cell(a, b, i + 1).minus(line_cell(a, b, i));
            &&& t.q == n ==> v.q == 1
            &&& t.q == 0 ==> v.q == 0
            &&& t.q == -n ==> v.q == -1
            &&& t.r == n ==> v.r == 1
            &&& t.r == 0 ==> v.r == 0
            &&& t.r == -n ==> v.r == -1
            &&& t.s == n ==> v.s == 1
            &&& t.s == 0 ==> v.s == 0
            &&& t.s == -n ==> v.s == -1
        }),
{
    let n = a.distance(b) as int;
    let p_here = nudged(a).lerp(nudged(b), i, n);
    let p_next = nudged(a).lerp(nudged(b), i + 1, n);
    lemma_lerp_valid(nudged(a), nudged(b), i, n);
    lemma_lerp_valid(nudged(a), nudged(b), i + 1, n);
    lemma_rounded_keeps_close(p_here);
    lemma_rounded_keeps_close(p_next);
    assert(p_here.den == line_denominator(n) && p_next.den == line_denominator(n));
    assert(p_here.q == line_numerator(a.q, b.q, 1, i, n));
    assert(p_next.q == line_numerator(a.q, b.q, 1, i + 1, n));
    assert(p_here.r == line_numerator(a.r, b.r, 1, i, n));
    assert(p_next.r == line_numerator(a.r, b.r, 1, i + 1, n));
    assert(p_here.s == line_numerator(a.s, b.s, -2, i, n));
    assert(p_next.s == line_numerator(a.s, b.s, -2, i + 1, n));
    lemma_line_axis(a.q, b.q, 1, i, n);
    lemma_line_axis(a.r, b.r, 1, i, n);
    lemma_line_axis(a.s, b.s, -2, i, n);
}

} // verus!
