//! The rectangular grid and its four-directional adjacency graph.
//!
//! Cells are identified by their index `row * width + column` in row-major
//! order. Adjacency links each cell to its in-bounds north, south, east and
//! west neighbors; it is symmetric by construction and never changes after
//! setup.

use vstd::prelude::*;
use vstd::arithmetic::div_mod::lemma_fundamental_div_mod;
use vstd::arithmetic::div_mod::lemma_fundamental_div_mod_converse;

verus! {

/// The largest number of cells a board may have; keeps every quantity the
/// engine computes (distances, queue priorities, encoded queue items)
/// comfortably inside the machine integer types.
pub open spec fn max_cells() -> int {
    0x1000_0000
}

/// Acceptable grid dimensions: room for two distinct, non-adjacent home
/// cells in each dimension, and a cell count within machine limits.
pub open spec fn grid_ok(width: int, height: int) -> bool {
    &&& 2 <= width
    &&& 2 <= height
    &&& width * height <= max_cells()
}

/// The row of the cell with index `i`.
pub open spec fn row_of(i: int, width: int) -> int {
    i / width
}

/// The column of the cell with index `i`.
pub open spec fn col_of(i: int, width: int) -> int {
    i % width
}

/// Cells `i` and `j` are four-directionally adjacent: both in bounds, and
/// their coordinates differ by one in exactly one dimension.
pub open spec fn adjacent(width: int, height: int, i: int, j: int) -> bool {
    &&& 0 <= i < width * height
    &&& 0 <= j < width * height
    &&& {
        let ri = row_of(i, width);
        let ci = col_of(i, width);
        let rj = row_of(j, width);
        let cj = col_of(j, width);
        ||| (ri == rj && (ci == cj + 1 || cj == ci + 1))
        ||| (ci == cj && (ri == rj + 1 || rj == ri + 1))
    }
}

/// Adjacency is symmetric: if `i` neighbors `j`, then `j` neighbors `i`.
pub proof fn lemma_adjacent_symmetric(width: int, height: int, i: int, j: int)
    ensures
        adjacent(width, height, i, j) == adjacent(width, height, j, i),
{
}

/// Row and column of an in-bounds cell index are in bounds, and the index
/// decomposes as `row * width + column`.
pub proof fn lemma_cell_coords(width: int, height: int, i: int)
    requires
        0 < width,
        0 < height,
        0 <= i < width * height,
    ensures
        0 <= row_of(i, width) < height,
        0 <= col_of(i, width) < width,
        i == row_of(i, width) * width + col_of(i, width),
{
    lemma_fundamental_div_mod(i, width);
    assert(i == width * (i / width) + i % width);
    assert(row_of(i, width) * width == width * (i / width)) by (nonlinear_arith);
    if i / width >= height {
        assert((i / width) * width >= height * width) by (nonlinear_arith)
            requires (i / width >= height), (width > 0);
        assert(width * height == height * width) by (nonlinear_arith);
        assert(false);
    }
    if i / width < 0 {
        assert((i / width) * width <= -width) by (nonlinear_arith)
            requires (i / width <= -1), (width > 0);
        assert(false);
    }
}

/// The index of the cell at (`r`, `c`) is in bounds and has row `r` and
/// column `c`.
pub proof fn lemma_coords_cell(width: int, height: int, r: int, c: int)
    requires
        0 < width,
        0 < height,
        0 <= r < height,
        0 <= c < width,
    ensures
        0 <= r * width + c < width * height,
        row_of(r * width + c, width) == r,
        col_of(r * width + c, width) == c,
{
    lemma_fundamental_div_mod_converse(r * width + c, width, r, c);
    assert(0 <= r * width + c) by (nonlinear_arith)
        requires (0 <= r), (0 <= c), (0 < width);
    assert(r * width + c < width * height) by (nonlinear_arith)
        requires (r < height), (0 <= c < width), (0 < width);
}

/// The in-bounds four-neighborhood of cell `i`, as a vector holding
/// exactly the cells adjacent to `i`.
pub fn neighbors(width: usize, height: usize, i: usize) -> (v: Vec<usize>)
    requires
        grid_ok(width as int, height as int),
        i < width * height,
    ensures
        forall|k: int|
            0 <= k < v@.len() ==> adjacent(
                width as int,
                height as int,
                i as int,
                #[trigger] v@[k] as int,
            ),
        forall|j: int|
            adjacent(width as int, height as int, i as int, j) ==> exists|k: int|
                0 <= k < v@.len() && v@[k] == j,
{
    let ghost wi: int = width as int;
    let ghost hi: int = height as int;
    proof {
        lemma_cell_coords(wi, hi, i as int);
    }
    let r: usize = i / width;
    let c: usize = i % width;
    let ghost north: int = i as int - wi;
    let ghost south: int = i as int + wi;
    proof {
        assert((r as int - 1) * wi == r as int * wi - wi) by (nonlinear_arith);
        assert((r as int + 1) * wi == r as int * wi + wi) by (nonlinear_arith);
        if r > 0 {
            lemma_coords_cell(wi, hi, r as int - 1, c as int);
        }
        if r as int + 1 < hi {
            lemma_coords_cell(wi, hi, r as int + 1, c as int);
        }
        if c > 0 {
            lemma_coords_cell(wi, hi, r as int, c as int - 1);
        }
        if c as int + 1 < wi {
            lemma_coords_cell(wi, hi, r as int, c as int + 1);
        }
    }
    let mut v: Vec<usize> = Vec::new();
    let ghost mut pos_north: int = 0;
    let ghost mut pos_south: int = 0;
    let ghost mut pos_west: int = 0;
    let ghost mut pos_east: int = 0;
    if r > 0 {
        proof {
            pos_north = v@.len() as int;
        }
        v.push(i - width);
    }
    if r + 1 < height {
        proof {
            pos_south = v@.len() as int;
        }
        v.push(i + width);
    }
    if c > 0 {
        proof {
            pos_west = v@.len() as int;
        }
        v.push(i - 1);
    }
    if c + 1 < width {
        proof {
            pos_east = v@.len() as int;
        }
        v.push(i + 1);
    }
    proof {
        assert forall|j: int| adjacent(wi, hi, i as int, j) implies exists|k: int|
            0 <= k < v@.len() && v@[k] == j by {
            lemma_cell_coords(wi, hi, j);
            let rj = row_of(j, wi);
            let cj = col_of(j, wi);
            if rj == r as int && cj + 1 == c as int {
                assert(v@[pos_west] == j);
            } else if rj == r as int && cj == c as int + 1 {
                assert(v@[pos_east] == j);
            } else if rj + 1 == r as int {
                assert(j == north);
                assert(v@[pos_north] == j);
            } else {
                assert(rj == r as int + 1 && cj == c as int);
                assert(j == south);
                assert(v@[pos_south] == j);
            }
        }
    }
    v
}

} // verus!
