//! Coordinate geometry for hexagonal grids: cube coordinates and their
//! algebra, offset and doubled addressing, exact fractional positions with
//! rounding, and line drawing.

pub mod coord;
pub mod fractional;
pub mod hex;
pub mod line;

pub use coord::{
    qdoubled_from_cube, qdoubled_to_cube, qoffset_from_cube, qoffset_to_cube, rdoubled_from_cube,
    rdoubled_to_cube, roffset_from_cube, roffset_to_cube, ColRow, DoubledCoord, OffsetCoord,
};
pub use fractional::{hex_round, hex_snap, Frac, FractionalHex};
pub use hex::{hex_length, Cube, Hex};
pub use line::{hex_in_line_range, hex_linedraw, LINE_LIMIT};
