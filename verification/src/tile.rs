//! Tile colors and the seeded color assignment used at board setup.

use vstd::prelude::*;

verus! {

/// The color of one grid cell.
///
/// `Undef` is not a valid game color; it only stands for "no color" in
/// transient data and is never held by a cell of a well-formed game board.
#[derive(Clone, Copy, Debug, PartialEq, Eq, Structural)]
pub enum Tile {
    Undef,
    Red,
    Green,
    Blue,
    Yellow,
}

impl Tile {
    /// The palette index of this tile color: `Undef` 0 through `Yellow` 4.
    pub fn index(&self) -> (r: usize)
        ensures
            r == self.spec_index(),
    {
        match self {
            Tile::Undef => 0,
            Tile::Red => 1,
            Tile::Green => 2,
            Tile::Blue => 3,
            Tile::Yellow => 4,
        }
    }

    pub open spec fn spec_index(self) -> int {
        match self {
            Tile::Undef => 0,
            Tile::Red => 1,
            Tile::Green => 2,
            Tile::Blue => 3,
            Tile::Yellow => 4,
        }
    }
}

/// One round of the seed mixer: fold `v` into the running seed `s`.
pub open spec fn mix(s: u64, v: u64) -> u64 {
    s ^ v.wrapping_add(0x9e3779b9u64).wrapping_add(s << 6u64).wrapping_add(s >> 2u64)
}

/// The seed after `k` double rounds of mixing in `ii` and `jj`.
pub open spec fn mixed_seed(seed: u64, ii: u64, jj: u64, k: nat) -> u64
    decreases k,
{
    if k == 0 {
        seed
    } else {
        mix(mix(mixed_seed(seed, ii, jj, (k - 1) as nat), ii), jj)
    }
}

/// One of the four real game colors, by ordinal 0..4.
pub open spec fn real_tile(ordinal: int) -> Tile {
    if ordinal == 0 {
        Tile::Red
    } else if ordinal == 1 {
        Tile::Green
    } else if ordinal == 2 {
        Tile::Blue
    } else {
        Tile::Yellow
    }
}

/// The color the seeded assignment gives the cell at (`row`, `column`).
///
/// Cells in the left half of the board map the mixed seed to a color
/// directly; cells in the right half use the mapping rotated by two, so
/// that two cells with mirrored coordinates (in particular the two home
/// corners) never receive the same color.
pub open spec fn spec_seeded_tile(row: int, column: int, width: int, height: int, seed: u64) -> Tile {
    let ii = (row * (height - 1 - row)) as u64;
    let jj = (column * (width - 1 - column)) as u64;
    let s = mixed_seed(seed, ii, jj, 16);
    if 2 * column < width {
        real_tile(s as int % 4)
    } else {
        real_tile((s as int % 4 + 2) % 4)
    }
}

impl Tile {
    /// The seeded color for the cell at (`row`, `column`) of a
    /// `width` x `height` board.
    ///
    /// Deterministic in its arguments; never returns `Tile::Undef`.
    pub fn from_row_and_column(row: usize, column: usize, width: usize, height: usize, seed: u64) -> (r: Tile)
        requires
            row < height,
            column < width,
            width * height <= 0x1000_0000,
        ensures
            r == spec_seeded_tile(row as int, column as int, width as int, height as int, seed),
            r != Tile::Undef,
    {
        proof {
            assert(height <= width * height && width <= width * height) by (nonlinear_arith)
                requires (1 <= width), (1 <= height);
            assert(row as int * (height as int - 1 - row as int) <= 0x1000_0000 * 0x1000_0000)
                by (nonlinear_arith)
                requires (0 <= row as int), ((row as int) < (height as int)), ((height as int) <= 0x1000_0000);
            assert(column as int * (width as int - 1 - column as int) <= 0x1000_0000 * 0x1000_0000)
                by (nonlinear_arith)
                requires (0 <= column as int), ((column as int) < (width as int)), ((width as int) <= 0x1000_0000);
            assert(0 <= row as int * (height as int - 1 - row as int)) by (nonlinear_arith)
                requires (0 <= row as int), ((row as int) < (height as int));
            assert(0 <= column as int * (width as int - 1 - column as int)) by (nonlinear_arith)
                requires (0 <= column as int), ((column as int) < (width as int));
        }
        let ii: u64 = (row as u64) * ((height - 1 - row) as u64);
        let jj: u64 = (column as u64) * ((width - 1 - column) as u64);
        let mut s: u64 = seed;
        let mut k: usize = 0;
        while k < 16
            invariant
                k <= 16,
                s == mixed_seed(seed, ii, jj, k as nat),
            decreases 16 - k,
        {
            s = s ^ ii.wrapping_add(0x9e3779b9u64).wrapping_add(s << 6u64).wrapping_add(s >> 2u64);
            s = s ^ jj.wrapping_add(0x9e3779b9u64).wrapping_add(s << 6u64).wrapping_add(s >> 2u64);
            k = k + 1;
        }
        let ordinal: u64 = if 2 * column < width {
            s % 4
        } else {
            (s % 4 + 2) % 4
        };
        if ordinal == 0 {
            Tile::Red
        } else if ordinal == 1 {
            Tile::Green
        } else if ordinal == 2 {
            Tile::Blue
        } else {
            Tile::Yellow
        }
    }
}

} // verus!
