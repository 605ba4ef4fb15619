//! Positions between the cells of a hexagonal grid, held as exact fractions,
//! and the rounding that snaps such a position to the nearest cell.

use crate::hex::{abs, Cube, Hex};
use vstd::arithmetic::div_mod::{lemma_fundamental_div_mod, lemma_fundamental_div_mod_converse_div};
use vstd::prelude::*;

verus! {

/// A point with the rational cube coordinates `q / den`, `r / den` and
/// `s / den`: the mathematical model of [`FractionalHex`].
pub struct Frac {
    pub q: int,
    pub r: int,
    pub s: int,
    pub den: int,
}

/// A position in cube coordinates that need not be whole: the three
/// numerators over one positive denominator.
#[derive(Copy, Clone, Debug)]
pub struct FractionalHex {
    pub q: i128,
    pub r: i128,
    pub s: i128,
    pub den: i128,
}

impl View for FractionalHex {
    type V = Frac;

    open spec fn view(&self) -> Frac {
        Frac { q: self.q as int, r: self.r as int, s: self.s as int, den: self.den as int }
    }
}

/// `x` is representable as an `i128`.
pub open spec fn fits_i128(x: int) -> bool {
    i128::MIN <= x <= i128::MAX
}

/// The weighted sum `x * wx + y * wy` and its two products are
/// representable as an `i128`.
pub open spec fn blend_fits(x: int, wx: int, y: int, wy: int) -> bool {
    fits_i128(x * wx) && fits_i128(y * wy) && fits_i128(x * wx + y * wy)
}

/// The integer nearest to `n / d`, for a positive `d`. A fraction halfway
/// between two integers goes to the one farther from zero.
pub open spec fn round_ratio(n: int, d: int) -> int {
    if n >= 0 {
        (2 * n + d) / (2 * d)
    } else {
        -((2 * (-n) + d) / (2 * d))
    }
}

/// The distance from `n / d` to the integer nearest to it, in units of
/// `1 / d`.
pub open spec fn round_error(n: int, d: int) -> nat {
    abs(round_ratio(n, d) * d - n)
}

/// `k` is the integer nearest to `n / d` by the rule of [`round_ratio`]: it
/// is at most half a unit away, and exactly half a unit away only on the
/// side that is farther from zero.
pub open spec fn is_nearest(n: int, d: int, k: int) -> bool {
    let e = n - k * d;
    ||| 2 * abs(e) < d
    ||| 2 * abs(e) == d && (n >= 0 <==> e < 0)
}

/// The cell that three separately rounded coordinates stand for: the
/// coordinate whose rounding error is strictly the largest is replaced by
/// what the other two leave for it on the plane of the grid. Where no error
/// is strictly the largest, `q` is kept, and `r` is replaced only if its
/// error exceeds that of `s`.
pub open spec fn snap(qi: int, ri: int, si: int, q_err: nat, r_err: nat, s_err: nat) -> Cube {
    if q_err > r_err && q_err > s_err {
        Cube { q: -ri - si, r: ri, s: si }
    } else if r_err > s_err {
        Cube { q: qi, r: -qi - si, s: si }
    } else {
        Cube { q: qi, r: ri, s: -qi - ri }
    }
}

impl Frac {
    /// The denominator is positive.
    pub open spec fn wf(self) -> bool {
        self.den > 0
    }

    /// The point is well formed and lies on the plane of the grid.
    pub open spec fn is_valid(self) -> bool {
        self.wf() && self.q + self.r + self.s == 0
    }

    /// The center of the cell `c`.
    pub open spec fn of_cube(c: Cube) -> Frac {
        Frac { q: c.q, r: c.r, s: c.s, den: 1 }
    }

    /// Two well-formed values stand for the same point.
    pub open spec fn same_point(self, other: Frac) -> bool {
        &&& self.q * other.den == other.q * self.den
        &&& self.r * other.den == other.r * self.den
        &&& self.s * other.den == other.s * self.den
    }

    /// The point at the fraction `tn / td` of the way from `self` to
    /// `other`: `self * (1 - t) + other * t`, for any `t`.
    pub open spec fn lerp(self, other: Frac, tn: int, td: int) -> Frac {
        let w_self = other.den * (td - tn);
        let w_other = self.den * tn;
        Frac {
            q: self.q * w_self + other.q * w_other,
            r: self.r * w_self + other.r * w_other,
            s: self.s * w_self + other.s * w_other,
            den: self.den * other.den * td,
        }
    }

    /// Every product and sum that [`Frac::lerp`] is made of is representable
    /// as an `i128`.
    pub open spec fn lerp_fits(self, other: Frac, tn: int, td: int) -> bool {
        let w_self = other.den * (td - tn);
        let w_other = self.den * tn;
        &&& fits_i128(td - tn)
        &&& fits_i128(w_self)
        &&& fits_i128(w_other)
        &&& fits_i128(self.den * other.den)
        &&& fits_i128(self.den * other.den * td)
        &&& blend_fits(self.q, w_self, other.q, w_other)
        &&& blend_fits(self.r, w_self, other.r, w_other)
        &&& blend_fits(self.s, w_self, other.s, w_other)
    }

    /// The cell nearest to the point: each coordinate is rounded by itself,
    /// and then the one that rounding moved the most is replaced so that
    /// the three sum to zero. See [`round_ratio`] and [`snap`].
    pub open spec fn rounded(self) -> Cube {
        snap(
            round_ratio(self.q, self.den),
            round_ratio(self.r, self.den),
            round_ratio(self.s, self.den),
            round_error(self.q, self.den),
            round_error(self.r, self.den),
            round_error(self.s, self.den),
        )
    }

    /// The point lies in the hexagon around the center of the cell `c`, its
    /// boundary included: none of the six neighbors of `c` is nearer to the
    /// point than `c` is.
    pub open spec fn in_cell(self, c: Cube) -> bool {
        let dq = c.q * self.den - self.q;
        let dr = c.r * self.den - self.r;
        let ds = c.s * self.den - self.s;
        &&& abs(dq - dr) <= self.den
        &&& abs(dr - ds) <= self.den
        &&& abs(ds - dq) <= self.den
    }

    /// The point lies in the hexagon around the center of the cell `c` and
    /// not on its boundary: `c` is nearer to the point than each of its six
    /// neighbors.
    pub open spec fn inside_cell(self, c: Cube) -> bool {
        let dq = c.q * self.den - self.q;
        let dr = c.r * self.den - self.r;
        let ds = c.s * self.den - self.s;
        &&& abs(dq - dr) < self.den
        &&& abs(dr - ds) < self.den
        &&& abs(ds - dq) < self.den
    }
}

impl FractionalHex {
    /// The position is well formed and its coordinates sum to zero.
    pub open spec fn is_valid(&self) -> bool {
        self@.is_valid()
    }

    /// The center of the cell `h`.
    pub fn from_hex(h: Hex) -> (f: FractionalHex)
        ensures
            f@ == Frac::of_cube(h@),
            h.is_valid() ==> f.is_valid(),
    {
        FractionalHex { q: h.q as i128, r: h.r as i128, s: h.s as i128, den: 1 }
    }

    /// The position `q / den`, `r / den`, with the third coordinate chosen
    /// so that the three sum to zero.
    pub fn new(q: i128, r: i128, den: i128) -> (f: FractionalHex)
        requires
            den > 0,
            fits_i128(-q - r),
        ensures
            f@ == (Frac { q: q as int, r: r as int, s: -q - r, den: den as int }),
            f.is_valid(),
    {
        // Neither branch leaves the range of `i128` on the way to `-q - r`.
        let s: i128 = if q >= 0 {
            -q - r
        } else {
            -(q + r)
        };
        FractionalHex { q, r, s, den }
    }

    /// The position `q / den`, `r / den`, `s / den`, whose numerators must
    /// sum to zero.
    pub fn new2(q: i128, r: i128, s: i128, den: i128) -> (f: FractionalHex)
        requires
            den > 0,
            q + r + s == 0,
        ensures
            f@ == (Frac { q: q as int, r: r as int, s: s as int, den: den as int }),
            f.is_valid(),
    {
        FractionalHex { q, r, s, den }
    }

    /// The position at the fraction `t_num / t_den` of the way from `self`
    /// to `other`. The fraction is not confined to the range from 0 to 1.
    pub fn lerp(&self, other: FractionalHex, t_num: i128, t_den: i128) -> (f: FractionalHex)
        requires
            self@.wf(),
            other@.wf(),
            t_den > 0,
            self@.lerp_fits(other@, t_num as int, t_den as int),
        ensures
            f@ == self@.lerp(other@, t_num as int, t_den as int),
            f@.wf(),
            self.is_valid() && other.is_valid() ==> f.is_valid(),
    {
        proof {
            lemma_lerp_valid(self@, other@, t_num as int, t_den as int);
        }
        let w_self: i128 = other.den * (t_den - t_num);
        let w_other: i128 = self.den * t_num;
        FractionalHex {
            q: self.q * w_self + other.q * w_other,
            r: self.r * w_self + other.r * w_other,
            s: self.s * w_self + other.s * w_other,
            den: self.den * other.den * t_den,
        }
    }
}

/// The integer nearest to `n / d`, and its distance from `n / d` in units
/// of `1 / d`.
fn round_nearest(n: i128, d: i128) -> (res: (i128, u128))
    requires
        d > 0,
    ensures
        res.0 == round_ratio(n as int, d as int),
        res.1 == round_error(n as int, d as int),
{
    let whole: i128 = n / d;
    let part: i128 = n % d;
    let low: i128 = if part < 0 {
        -part
    } else {
        part
    };
    let high: i128 = d - low;
    proof {
        if n >= 0 {
            lemma_fundamental_div_mod(n as int, d as int);
        } else {
            lemma_fundamental_div_mod(-(n as int), d as int);
        }
        assert(n == whole * d + part) by (nonlinear_arith)
            requires
                n >= 0 ==> n == d * whole + part,
                n < 0 ==> -n == d * (-whole) + (-part),
        ;
        if low >= high {
            assert(-i128::MAX / 2 <= whole <= i128::MAX / 2) by (nonlinear_arith)
                requires
                    n == whole * d + part,
                    d >= 2,
                    0 <= abs(part as int) < d,
                    n >= 0 ==> part >= 0 && whole >= 0,
                    n < 0 ==> part <= 0 && whole <= 0,
                    i128::MIN <= n <= i128::MAX,
            ;
        }
    }
    if low < high {
        proof {
            lemma_round_ratio_nearest(n as int, d as int, whole as int);
        }
        (whole, low as u128)
    } else if n >= 0 {
        proof {
            assert((whole + 1) * d == whole * d + d) by (nonlinear_arith);
            lemma_round_ratio_nearest(n as int, d as int, whole + 1);
        }
        (whole + 1, high as u128)
    } else {
        proof {
            assert((whole - 1) * d == whole * d - d) by (nonlinear_arith);
            lemma_round_ratio_nearest(n as int, d as int, whole - 1);
        }
        (whole - 1, high as u128)
    }
}

/// The cell that three separately rounded coordinates stand for, given
/// their rounding errors in any one unit: only the order of the errors
/// counts. See [`snap`].
pub fn hex_snap(qi: i128, ri: i128, si: i128, q_err: u128, r_err: u128, s_err: u128) -> (h: Hex)
    requires
        snap(qi as int, ri as int, si as int, q_err as nat, r_err as nat, s_err as nat).fits(),
    ensures
        h@ == snap(qi as int, ri as int, si as int, q_err as nat, r_err as nat, s_err as nat),
        h.is_valid(),
{
    if q_err > r_err && q_err > s_err {
        Hex { q: (-ri - si) as i64, r: ri as i64, s: si as i64 }
    } else if r_err > s_err {
        Hex { q: qi as i64, r: (-qi - si) as i64, s: si as i64 }
    } else {
        Hex { q: qi as i64, r: ri as i64, s: (-qi - ri) as i64 }
    }
}

/// The cell nearest to the position `h`.
///
/// The position lies in the hexagon around that cell; see
/// [`lemma_rounded_in_cell`] and [`lemma_rounded_inside_cell`].
pub fn hex_round(h: FractionalHex) -> (hex: Hex)
    requires
        h@.wf(),
        h@.rounded().fits(),
    ensures
        hex@ == h@.rounded(),
        hex.is_valid(),
{
    let (qi, q_err) = round_nearest(h.q, h.den);
    let (ri, r_err) = round_nearest(h.r, h.den);
    let (si, s_err) = round_nearest(h.s, h.den);
    hex_snap(qi, ri, si, q_err, r_err, s_err)
}

/// The integer that [`is_nearest`] describes is the one that
/// [`round_ratio`] computes, and there is no other.
pub proof fn lemma_round_ratio_nearest(n: int, d: int, k: int)
    requires
        d > 0,
    ensures
        is_nearest(n, d, round_ratio(n, d)),
        is_nearest(n, d, k) ==> round_ratio(n, d) == k && round_error(n, d) == abs(n - k * d),
{
    let two_d = 2 * d;
    let x = if n >= 0 {
        2 * n + d
    } else {
        2 * (-n) + d
    };
    let found = x / two_d;
    lemma_fundamental_div_mod(x, two_d);
    assert(two_d * found == 2 * (found * d)) by (nonlinear_arith)
        requires
            two_d == 2 * d,
    ;
    assert((-found) * d == -(found * d)) by (nonlinear_arith);
    if is_nearest(n, d, k) {
        let e = n - k * d;
        let want = if n >= 0 {
            k
        } else {
            -k
        };
        let rest = if n >= 0 {
            2 * e + d
        } else {
            d - 2 * e
        };
        assert(x == want * two_d + rest) by (nonlinear_arith)
            requires
                two_d == 2 * d,
                e == n - k * d,
                x == if n >= 0 {
                    2 * n + d
                } else {
                    2 * (-n) + d
                },
                want == if n >= 0 {
                    k
                } else {
                    -k
                },
                rest == if n >= 0 {
                    2 * e + d
                } else {
                    d - 2 * e
                },
        ;
        lemma_fundamental_div_mod_converse_div(x, two_d, want, rest);
    }
}

/// A whole number of units rounds to itself, without error, and so does
/// anything less than half a unit away from it.
pub proof fn lemma_round_ratio_near(k: int, e: int, d: int)
    requires
        d > 0,
        2 * abs(e) < d,
    ensures
        round_ratio(k * d + e, d) == k,
        round_error(k * d + e, d) == abs(e),
{
    lemma_round_ratio_nearest(k * d + e, d, k);
}

/// Where lower and upper bounds of a fraction are whole, they bound the
/// nearest integer too.
pub proof fn lemma_round_ratio_bounds(n: int, d: int, low: int, high: int)
    requires
        d > 0,
        low * d <= n <= high * d,
    ensures
        low <= round_ratio(n, d) <= high,
{
    let k = round_ratio(n, d);
    lemma_round_ratio_nearest(n, d, k);
    if k > high {
        assert(k * d >= high * d + d) by (nonlinear_arith)
            requires
                k >= high + 1,
                d > 0,
        ;
    }
    if k < low {
        assert(k * d <= low * d - d) by (nonlinear_arith)
            requires
                k <= low - 1,
                d > 0,
        ;
    }
}

/// The nearest integer and its distance do not depend on the denominator
/// by which a fraction is written.
pub proof fn lemma_round_ratio_scaled(n1: int, d1: int, n2: int, d2: int)
    requires
        d1 > 0,
        d2 > 0,
        n1 * d2 == n2 * d1,
    ensures
        round_ratio(n1, d1) == round_ratio(n2, d2),
        round_error(n1, d1) * d2 == round_error(n2, d2) * d1,
{
    let k = round_ratio(n1, d1);
    let e1 = n1 - k * d1;
    let e2 = n2 - k * d2;
    lemma_round_ratio_nearest(n1, d1, k);
    assert(e1 * d2 == e2 * d1) by (nonlinear_arith)
        requires
            n1 * d2 == n2 * d1,
            e1 == n1 - k * d1,
            e2 == n2 - k * d2,
    ;
    assert((n1 >= 0 <==> n2 >= 0) && (e1 < 0 <==> e2 < 0) && (e1 > 0 <==> e2 > 0)) by (
        nonlinear_arith)
        requires
            d1 > 0,
            d2 > 0,
            n1 * d2 == n2 * d1,
            e1 * d2 == e2 * d1,
    ;
    assert(abs(e1) * d2 == abs(e2) * d1) by (nonlinear_arith)
        requires
            e1 * d2 == e2 * d1,
            e1 < 0 <==> e2 < 0,
    ;
    assert((2 * abs(e1) < d1 <==> 2 * abs(e2) < d2) && (2 * abs(e1) == d1 <==> 2 * abs(e2) == d2))
        by (nonlinear_arith)
        requires
            d1 > 0,
            d2 > 0,
            abs(e1) * d2 == abs(e2) * d1,
    ;
    lemma_round_ratio_nearest(n2, d2, k);
}

/// Interpolation between well-formed points gives a well-formed point, and
/// between points on the plane of the grid a point on it.
pub proof fn lemma_lerp_valid(a: Frac, b: Frac, tn: int, td: int)
    requires
        a.wf(),
        b.wf(),
        td > 0,
    ensures
        a.lerp(b, tn, td).wf(),
        a.is_valid() && b.is_valid() ==> a.lerp(b, tn, td).is_valid(),
{
    let w_a = b.den * (td - tn);
    let w_b = a.den * tn;
    assert(a.den * b.den * td > 0) by (nonlinear_arith)
        requires
            a.den > 0,
            b.den > 0,
            td > 0,
    ;
    assert((a.q * w_a + b.q * w_b) + (a.r * w_a + b.r * w_b) + (a.s * w_a + b.s * w_b) == (a.q
        + a.r + a.s) * w_a + (b.q + b.r + b.s) * w_b) by (nonlinear_arith);
    if a.is_valid() && b.is_valid() {
        assert((a.q + a.r + a.s) * w_a + (b.q + b.r + b.s) * w_b == 0) by (nonlinear_arith)
            requires
                a.q + a.r + a.s == 0,
                b.q + b.r + b.s == 0,
        ;
    }
}

/// Interpolation starts at the first point and ends at the second.
pub proof fn lemma_lerp_ends(a: Frac, b: Frac, td: int)
    requires
        a.wf(),
        b.wf(),
        td > 0,
    ensures
        a.lerp(b, 0, td).same_point(a),
        a.lerp(b, td, td).same_point(b),
{
    let start = a.lerp(b, 0, td);
    let end = a.lerp(b, td, td);
    assert(start.same_point(a)) by (nonlinear_arith)
        requires
            start == a.lerp(b, 0, td),
    ;
    assert(end.same_point(b)) by (nonlinear_arith)
        requires
            end == a.lerp(b, td, td),
    ;
}

/// Whatever is rounded, the result is a cell of the grid.
pub proof fn lemma_rounded_valid(p: Frac)
    ensures
        p.rounded().is_valid(),
{
}

/// The center of a cell rounds to that cell.
pub proof fn lemma_rounded_center(c: Cube)
    requires
        c.is_valid(),
    ensures
        Frac::of_cube(c).rounded() == c,
{
    lemma_round_ratio_near(c.q, 0, 1);
    lemma_round_ratio_near(c.r, 0, 1);
    lemma_round_ratio_near(c.s, 0, 1);
}

/// Two values that stand for the same point round to the same cell.
pub proof fn lemma_rounded_same_point(a: Frac, b: Frac)
    requires
        a.wf(),
        b.wf(),
        a.same_point(b),
    ensures
        a.rounded() == b.rounded(),
{
    lemma_round_ratio_scaled(a.q, a.den, b.q, b.den);
    lemma_round_ratio_scaled(a.r, a.den, b.r, b.den);
    lemma_round_ratio_scaled(a.s, a.den, b.s, b.den);
    let (qa, ra, sa) = (
        round_error(a.q, a.den),
        round_error(a.r, a.den),
        round_error(a.s, a.den),
    );
    let (qb, rb, sb) = (
        round_error(b.q, b.den),
        round_error(b.r, b.den),
        round_error(b.s, b.den),
    );
    lemma_scaled_order(qa, ra, a.den, qb, rb, b.den);
    lemma_scaled_order(qa, sa, a.den, qb, sb, b.den);
    lemma_scaled_order(ra, sa, a.den, rb, sb, b.den);
}

/// Rounding takes a point of the plane of the grid to a cell nearest to
/// it: the point lies in the hexagon around that cell.
pub proof fn lemma_rounded_in_cell(p: Frac)
    requires
        p.is_valid(),
    ensures
        p.in_cell(p.rounded()),
{
    let d = p.den;
    let qi = round_ratio(p.q, d);
    let ri = round_ratio(p.r, d);
    let si = round_ratio(p.s, d);
    let over = qi + ri + si;
    lemma_round_error_signed(p.q, d);
    lemma_round_error_signed(p.r, d);
    lemma_round_error_signed(p.s, d);
    assert(over * d == qi * d + ri * d + si * d) by (nonlinear_arith)
        requires
            over == qi + ri + si,
    ;
    assert(-1 <= over <= 1) by (nonlinear_arith)
        requires
            d > 0,
            -3 * d <= 2 * (over * d) <= 3 * d,
    ;
    assert(over * d == if over == 0 {
        0
    } else if over == 1 {
        d
    } else {
        -d
    }) by (nonlinear_arith)
        requires
            -1 <= over <= 1,
    ;
    assert((-ri - si) * d == -(ri * d) - si * d && (-qi - si) * d == -(qi * d) - si * d && (-qi
        - ri) * d == -(qi * d) - ri * d) by (nonlinear_arith);
}

/// A point of the plane of the grid that lies inside the hexagon around a
/// cell, and not on its boundary, rounds to that cell.
pub proof fn lemma_rounded_inside_cell(p: Frac, c: Cube)
    requires
        p.is_valid(),
        c.is_valid(),
        p.inside_cell(c),
    ensures
        p.rounded() == c,
{
    let d = p.den;
    let found = p.rounded();
    let v = found.minus(c);
    lemma_rounded_in_cell(p);
    assert(found.q * d == c.q * d + v.q * d && found.r * d == c.r * d + v.r * d && found.s * d
        == c.s * d + v.s * d) by (nonlinear_arith)
        requires
            v == found.minus(c),
    ;
    lemma_small_multiple(v.q, v.r, d);
    lemma_small_multiple(v.r, v.s, d);
    lemma_small_multiple(v.s, v.q, d);
}

/// Rounding a point of the plane of the grid keeps every coordinate that
/// is less than a third of a unit away from an integer: such a coordinate
/// of the cell is that integer.
pub proof fn lemma_rounded_keeps_close(p: Frac)
    requires
        p.is_valid(),
    ensures
        3 * round_error(p.q, p.den) < p.den ==> p.rounded().q == round_ratio(p.q, p.den),
        3 * round_error(p.r, p.den) < p.den ==> p.rounded().r == round_ratio(p.r, p.den),
        3 * round_error(p.s, p.den) < p.den ==> p.rounded().s == round_ratio(p.s, p.den),
{
    let d = p.den;
    let qi = round_ratio(p.q, d);
    let ri = round_ratio(p.r, d);
    let si = round_ratio(p.s, d);
    let over = qi + ri + si;
    lemma_round_error_signed(p.q, d);
    lemma_round_error_signed(p.r, d);
    lemma_round_error_signed(p.s, d);
    assert(over * d == qi * d + ri * d + si * d) by (nonlinear_arith)
        requires
            over == qi + ri + si,
    ;
    assert(-d < over * d < d ==> over == 0) by (nonlinear_arith)
        requires
            d > 0,
    ;
}

/// On the way from a cell to one of its six neighbors, every point less
/// than half the way along rounds to the first cell, and every point more
/// than half the way along rounds to the second.
pub proof fn lemma_rounded_between_neighbors(a: Cube, i: int, tn: int, td: int)
    requires
        a.is_valid(),
        td > 0,
    ensures
        ({
            let b = a.plus(Cube::direction(i));
            let p = Frac::of_cube(a).lerp(Frac::of_cube(b), tn, td);
            &&& 2 * abs(tn) < td ==> p.rounded() == a
            &&& 2 * abs(td - tn) < td ==> p.rounded() == b
        }),
{
    let step = Cube::direction(i);
    lemma_between_coordinate(a.q, step.q, tn, td);
    lemma_between_coordinate(a.r, step.r, tn, td);
    lemma_between_coordinate(a.s, step.s, tn, td);
}

/// The signed rounding error of one coordinate, in units of `1 / d`: at most
/// half a unit either way.
proof fn lemma_round_error_signed(n: int, d: int)
    requires
        d > 0,
    ensures
        ({
            let e = round_ratio(n, d) * d - n;
            &&& -d <= 2 * e <= d
            &&& round_error(n, d) == abs(e)
        }),
{
    lemma_round_ratio_nearest(n, d, round_ratio(n, d));
}

/// Rounding errors that are written with different denominators compare in
/// the same way.
proof fn lemma_scaled_order(x1: nat, y1: nat, d1: int, x2: nat, y2: nat, d2: int)
    by (nonlinear_arith)
    requires
        d1 > 0,
        d2 > 0,
        x1 * d2 == x2 * d1,
        y1 * d2 == y2 * d1,
    ensures
        x1 > y1 <==> x2 > y2,
{
}

/// Two multiples of `d` that are less than two `d` apart are at most one
/// step apart.
proof fn lemma_small_multiple(j: int, k: int, d: int)
    by (nonlinear_arith)
    requires
        d > 0,
        -2 * d < j * d - k * d < 2 * d,
    ensures
        -1 <= j - k <= 1,
{
}

/// One coordinate of a point between a cell and its neighbor, where the
/// step from the one to the other changes that coordinate by `dx`.
proof fn lemma_between_coordinate(x: int, dx: int, tn: int, td: int)
    requires
        td > 0,
        -1 <= dx <= 1,
    ensures
        ({
            let n = x * (1 * (td - tn)) + (x + dx) * (1 * tn);
            let d = 1 * 1 * td;
            &&& 2 * abs(tn) < td ==> round_ratio(n, d) == x && round_error(n, d) == if dx == 0 {
                0
            } else {
                abs(tn)
            }
            &&& 2 * abs(td - tn) < td ==> round_ratio(n, d) == x + dx && round_error(n, d) == if dx
                == 0 {
                0
            } else {
                abs(td - tn)
            }
        }),
{
    let n = x * (1 * (td - tn)) + (x + dx) * (1 * tn);
    let near = if dx == 0 {
        0
    } else if dx == 1 {
        tn
    } else {
        -tn
    };
    let far = if dx == 0 {
        0
    } else if dx == 1 {
        tn - td
    } else {
        td - tn
    };
    assert(n == x * td + near && n == (x + dx) * td + far) by (nonlinear_arith)
        requires
            n == x * (1 * (td - tn)) + (x + dx) * (1 * tn),
            -1 <= dx <= 1,
            near == if dx == 0 {
                0
            } else if dx == 1 {
                tn
            } else {
                -tn
            },
            far == if dx == 0 {
                0
            } else if dx == 1 {
                tn - td
            } else {
                td - tn
            },
    ;
    assert(1 * 1 * td == td) by (nonlinear_arith);
    if 2 * abs(tn) < td {
        lemma_round_ratio_near(x, near, td);
    }
    if 2 * abs(td - tn) < td {
        lemma_round_ratio_near(x + dx, far, td);
    }
}

} // verus!
