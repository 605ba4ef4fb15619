//! Offset and doubled addressing of the cells of a hexagonal grid, and the
//! conversions between them and cube coordinates.

use crate::hex::{fits_i64, Cube, Hex};
use vstd::prelude::*;

verus! {

/// A column and a row, unbounded: the mathematical model of [`OffsetCoord`]
/// and of [`DoubledCoord`].
pub struct ColRow {
    pub col: int,
    pub row: int,
}

/// A cell addressed by column and row, where every other column (or row) is
/// shifted by half a cell.
#[derive(Copy, Clone, Debug, PartialEq, Eq, Structural)]
pub struct OffsetCoord {
    pub col: i64,
    pub row: i64,
}

/// A cell addressed by column and row, where one of the two advances in
/// steps of two so that no half steps arise.
#[derive(Copy, Clone, Debug, PartialEq, Eq, Structural)]
pub struct DoubledCoord {
    pub col: i64,
    pub row: i64,
}

impl View for OffsetCoord {
    type V = ColRow;

    open spec fn view(&self) -> ColRow {
        ColRow { col: self.col as int, row: self.row as int }
    }
}

impl View for DoubledCoord {
    type V = ColRow;

    open spec fn view(&self) -> ColRow {
        ColRow { col: self.col as int, row: self.row as int }
    }
}

impl ColRow {
    /// Both numbers are representable as an `i64`.
    pub open spec fn fits(self) -> bool {
        fits_i64(self.col) && fits_i64(self.row)
    }

    /// Column and row have the same parity, as the doubled coordinates of
    /// every cell have.
    pub open spec fn is_doubled(self) -> bool {
        (self.col + self.row) % 2 == 0
    }
}

/// The two admissible parity offsets: `+1` shifts the even columns or rows,
/// `-1` the odd ones.
pub open spec fn is_parity(p: int) -> bool {
    p == 1 || p == -1
}

/// Half of `x`, rounded toward zero.
pub open spec fn half(x: int) -> int {
    if x >= 0 {
        x / 2
    } else {
        -((-x) / 2)
    }
}

/// The number of whole cells by which column (or row) `x` is shifted under
/// the parity offset `p`.
pub open spec fn offset_shift(p: int, x: int) -> int {
    half(x + p * (x % 2))
}

/// The column-based offset coordinates of a cell.
pub open spec fn qoffset_of(p: int, c: Cube) -> ColRow {
    ColRow { col: c.q, row: c.r + offset_shift(p, c.q) }
}

/// The row-based offset coordinates of a cell.
pub open spec fn roffset_of(p: int, c: Cube) -> ColRow {
    ColRow { col: c.q + offset_shift(p, c.r), row: c.r }
}

/// The cell at the given column-based offset coordinates.
pub open spec fn cube_of_qoffset(p: int, o: ColRow) -> Cube {
    let q = o.col;
    let r = o.row - offset_shift(p, o.col);
    Cube { q, r, s: -q - r }
}

/// The cell at the given row-based offset coordinates.
pub open spec fn cube_of_roffset(p: int, o: ColRow) -> Cube {
    let q = o.col - offset_shift(p, o.row);
    let r = o.row;
    Cube { q, r, s: -q - r }
}

/// The doubled coordinates of a cell, rows advancing in steps of two.
pub open spec fn qdoubled_of(c: Cube) -> ColRow {
    ColRow { col: c.q, row: 2 * c.r + c.q }
}

/// The doubled coordinates of a cell, columns advancing in steps of two.
pub open spec fn rdoubled_of(c: Cube) -> ColRow {
    ColRow { col: 2 * c.q + c.r, row: c.r }
}

/// The cell at the given doubled coordinates, rows advancing in steps of
/// two. Where column and row differ in parity the half is rounded toward
/// zero.
pub open spec fn cube_of_qdoubled(d: ColRow) -> Cube {
    let q = d.col;
    let r = half(d.row - d.col);
    Cube { q, r, s: -q - r }
}

/// The cell at the given doubled coordinates, columns advancing in steps of
/// two. Where column and row differ in parity the half is rounded toward
/// zero.
pub open spec fn cube_of_rdoubled(d: ColRow) -> Cube {
    let q = half(d.col - d.row);
    let r = d.row;
    Cube { q, r, s: -q - r }
}

/// The shift of column (or row) `x` under the parity offset `offset`.
fn shift(offset: i64, x: i64) -> (n: i128)
    requires
        is_parity(offset as int),
    ensures
        n == offset_shift(offset as int, x as int),
        2 * n == x + offset * (x % 2),
{
    let wide: i128 = x as i128;
    let moved: i128 = if x % 2 == 0 {
        wide
    } else {
        wide + offset as i128
    };
    assert(moved == x + offset * (x % 2)) by (nonlinear_arith)
        requires
            x % 2 == 0 || x % 2 == 1,
            moved == if x % 2 == 0 {
                x as int
            } else {
                x + offset
            },
    ;
    moved / 2
}

/// Half of the difference `a - b`, rounded toward zero.
fn half_difference(a: i64, b: i64) -> (n: i128)
    ensures
        n == half(a - b),
{
    (a as i128 - b as i128) / 2
}

impl OffsetCoord {
    pub fn new(col: i64, row: i64) -> (o: OffsetCoord)
        ensures
            o.col == col,
            o.row == row,
    {
        OffsetCoord { col, row }
    }
}

impl DoubledCoord {
    pub fn new(col: i64, row: i64) -> (d: DoubledCoord)
        ensures
            d.col == col,
            d.row == row,
    {
        DoubledCoord { col, row }
    }
}

/// The column-based offset coordinates of `h` under the parity offset
/// `offset`, which is `+1` or `-1`.
pub fn qoffset_from_cube(offset: i64, h: Hex) -> (o: OffsetCoord)
    requires
        is_parity(offset as int),
        qoffset_of(offset as int, h@).fits(),
    ensures
        o@ == qoffset_of(offset as int, h@),
{
    let col = h.q;
    let row = h.r as i128 + shift(offset, h.q);
    OffsetCoord { col, row: row as i64 }
}

/// The row-based offset coordinates of `h` under the parity offset `offset`,
/// which is `+1` or `-1`.
pub fn roffset_from_cube(offset: i64, h: Hex) -> (o: OffsetCoord)
    requires
        is_parity(offset as int),
        roffset_of(offset as int, h@).fits(),
    ensures
        o@ == roffset_of(offset as int, h@),
{
    let col = h.q as i128 + shift(offset, h.r);
    let row = h.r;
    OffsetCoord { col: col as i64, row }
}

/// The cell at the column-based offset coordinates `offset_coord` under the
/// parity offset `offset`, which is `+1` or `-1`.
pub fn qoffset_to_cube(offset: i64, offset_coord: OffsetCoord) -> (h: Hex)
    requires
        is_parity(offset as int),
        cube_of_qoffset(offset as int, offset_coord@).fits(),
    ensures
        h@ == cube_of_qoffset(offset as int, offset_coord@),
        h.is_valid(),
{
    let q = offset_coord.col;
    let r = offset_coord.row as i128 - shift(offset, offset_coord.col);
    let s = -(q as i128) - r;
    Hex { q, r: r as i64, s: s as i64 }
}

/// The cell at the row-based offset coordinates `offset_coord` under the
/// parity offset `offset`, which is `+1` or `-1`.
pub fn roffset_to_cube(offset: i64, offset_coord: OffsetCoord) -> (h: Hex)
    requires
        is_parity(offset as int),
        cube_of_roffset(offset as int, offset_coord@).fits(),
    ensures
        h@ == cube_of_roffset(offset as int, offset_coord@),
        h.is_valid(),
{
    let q = offset_coord.col as i128 - shift(offset, offset_coord.row);
    let r = offset_coord.row;
    let s = -q - r as i128;
    Hex { q: q as i64, r, s: s as i64 }
}

/// The doubled coordinates of `h`, rows advancing in steps of two.
pub fn qdoubled_from_cube(h: Hex) -> (d: DoubledCoord)
    requires
        qdoubled_of(h@).fits(),
    ensures
        d@ == qdoubled_of(h@),
        d@.is_doubled(),
{
    let col = h.q;
    let row = 2 * (h.r as i128) + h.q as i128;
    DoubledCoord { col, row: row as i64 }
}

/// The doubled coordinates of `h`, columns advancing in steps of two.
pub fn rdoubled_from_cube(h: Hex) -> (d: DoubledCoord)
    requires
        rdoubled_of(h@).fits(),
    ensures
        d@ == rdoubled_of(h@),
        d@.is_doubled(),
{
    let col = 2 * (h.q as i128) + h.r as i128;
    let row = h.r;
    DoubledCoord { col: col as i64, row }
}

/// The cell at the doubled coordinates `doubled_coord`, rows advancing in
/// steps of two.
pub fn qdoubled_to_cube(doubled_coord: DoubledCoord) -> (h: Hex)
    requires
        cube_of_qdoubled(doubled_coord@).fits(),
    ensures
        h@ == cube_of_qdoubled(doubled_coord@),
        h.is_valid(),
{
    let q = doubled_coord.col;
    let r = half_difference(doubled_coord.row, doubled_coord.col);
    let s = -(q as i128) - r;
    Hex { q, r: r as i64, s: s as i64 }
}

/// The cell at the doubled coordinates `doubled_coord`, columns advancing in
/// steps of two.
pub fn rdoubled_to_cube(doubled_coord: DoubledCoord) -> (h: Hex)
    requires
        cube_of_rdoubled(doubled_coord@).fits(),
    ensures
        h@ == cube_of_rdoubled(doubled_coord@),
        h.is_valid(),
{
    let q = half_difference(doubled_coord.col, doubled_coord.row);
    let r = doubled_coord.row;
    let s = -q - r as i128;
    Hex { q: q as i64, r, s: s as i64 }
}

/// Under either parity offset the shifted column (or row) is even, so the
/// shift is an exact half: rounding never takes part in it.
pub proof fn lemma_offset_shift_exact(p: int, x: int)
    requires
        is_parity(p),
    ensures
        2 * offset_shift(p, x) == x + p * (x % 2),
        p == 1 ==> offset_shift(p, x) == (x + 1) / 2,
        p == -1 ==> offset_shift(p, x) == x / 2,
{
    let parity = x % 2;
    assert(p * parity == if parity == 0 {
        0
    } else {
        p
    }) by (nonlinear_arith)
        requires
            parity == 0 || parity == 1,
    ;
}

/// A cell that is converted to column-based offset coordinates and back is
/// unchanged, and so are offset coordinates that are converted to a cell
/// and back.
pub proof fn lemma_qoffset_round_trip(p: int, c: Cube, o: ColRow)
    requires
        is_parity(p),
        c.is_valid(),
    ensures
        cube_of_qoffset(p, qoffset_of(p, c)) == c,
        qoffset_of(p, cube_of_qoffset(p, o)) == o,
        cube_of_qoffset(p, o).is_valid(),
{
}

/// A cell that is converted to row-based offset coordinates and back is
/// unchanged, and so are offset coordinates that are converted to a cell
/// and back.
pub proof fn lemma_roffset_round_trip(p: int, c: Cube, o: ColRow)
    requires
        is_parity(p),
        c.is_valid(),
    ensures
        cube_of_roffset(p, roffset_of(p, c)) == c,
        roffset_of(p, cube_of_roffset(p, o)) == o,
        cube_of_roffset(p, o).is_valid(),
{
}

/// A cell that is converted to doubled coordinates and back is unchanged.
/// Doubled coordinates that are converted to a cell and back are unchanged
/// where column and row have the same parity, as those of every cell have.
pub proof fn lemma_qdoubled_round_trip(c: Cube, d: ColRow)
    requires
        c.is_valid(),
        d.is_doubled(),
    ensures
        qdoubled_of(c).is_doubled(),
        cube_of_qdoubled(qdoubled_of(c)) == c,
        qdoubled_of(cube_of_qdoubled(d)) == d,
        cube_of_qdoubled(d).is_valid(),
{
}

/// A cell that is converted to doubled coordinates and back is unchanged.
/// Doubled coordinates that are converted to a cell and back are unchanged
/// where column and row have the same parity, as those of every cell have.
pub proof fn lemma_rdoubled_round_trip(c: Cube, d: ColRow)
    requires
        c.is_valid(),
        d.is_doubled(),
    ensures
        rdoubled_of(c).is_doubled(),
        cube_of_rdoubled(rdoubled_of(c)) == c,
        rdoubled_of(cube_of_rdoubled(d)) == d,
        cube_of_rdoubled(d).is_valid(),
{
}

} // verus!
