//! The rules of the automaton, stated on a sequence of cells in row-major
//! order.

use vstd::prelude::*;
use vstd::arithmetic::div_mod::lemma_fundamental_div_mod;
use vstd::arithmetic::div_mod::lemma_fundamental_div_mod_converse;
use vstd::arithmetic::div_mod::lemma_mod_pos_bound;

verus! {

/// A grid as a plain value: `width * height` cells in row-major order, the
/// cell at (`row`, `column`) at the index `row * width + column`.
pub struct Grid {
    pub width: int,
    pub height: int,
    pub cells: Seq<bool>,
}

impl Grid {
    /// The sides are not negative, and there is one cell for each place.
    pub open spec fn wf(self) -> bool {
        &&& 0 <= self.width
        &&& 0 <= self.height
        &&& self.cells.len() == self.width * self.height
    }
}

/// The index of the cell at (`row`, `column`) in a grid `width` cells wide.
pub open spec fn index_of(width: int, row: int, column: int) -> int {
    row * width + column
}

/// The coordinate before `x` on a ring of `n` places.
pub open spec fn wrap_back(x: int, n: int) -> int {
    (x + (n - 1)) % n
}

/// The coordinate after `x` on a ring of `n` places.
pub open spec fn wrap_forth(x: int, n: int) -> int {
    (x + 1) % n
}

/// 1 if the cell at (`row`, `column`) is alive, else 0.
pub open spec fn alive(cells: Seq<bool>, width: int, row: int, column: int) -> int {
    if cells[index_of(width, row, column)] {
        1
    } else {
        0
    }
}

/// The number of live cells among the eight places around (`row`, `column`)
/// on the torus. A place that coincides with another on a narrow grid is
/// counted each time.
pub open spec fn live_neighbors(
    cells: Seq<bool>,
    width: int,
    height: int,
    row: int,
    column: int,
) -> int {
    let north = wrap_back(row, height);
    let south = wrap_forth(row, height);
    let west = wrap_back(column, width);
    let east = wrap_forth(column, width);
    alive(cells, width, north, west) + alive(cells, width, north, column) + alive(
        cells,
        width,
        north,
        east,
    ) + alive(cells, width, row, west) + alive(cells, width, row, east) + alive(
        cells,
        width,
        south,
        west,
    ) + alive(cells, width, south, column) + alive(cells, width, south, east)
}

/// The state of a cell in the next generation. The first rule that matches
/// decides.
pub open spec fn next_state(alive: bool, live_neighbors: int) -> bool {
    if alive && live_neighbors < 2 {
        false
    } else if alive && (live_neighbors == 2 || live_neighbors == 3) {
        true
    } else if alive && live_neighbors > 3 {
        false
    } else if !alive && live_neighbors == 3 {
        true
    } else {
        alive
    }
}

/// The next generation: every cell is judged by the current one.
pub open spec fn next_generation(cells: Seq<bool>, width: int, height: int) -> Seq<bool> {
    Seq::new(
        cells.len(),
        |i: int| next_state(cells[i], live_neighbors(cells, width, height, i / width, i % width)),
    )
}

/// Where a stamp asked for at coordinate `x` is anchored: three places
/// before `x`, but not before place 3.
pub open spec fn stamp_anchor(x: int) -> int {
    if x - 3 > 3 {
        x - 3
    } else {
        3
    }
}

/// `cells` with the 3x3 `block` written at (`row`, `column`), first down the
/// rows of one column, then on to the next column.
pub open spec fn stamped(
    cells: Seq<bool>,
    width: int,
    row: int,
    column: int,
    block: Seq<bool>,
) -> Seq<bool> {
    Seq::new(
        cells.len(),
        |i: int|
            {
                let r = i / width;
                let c = i % width;
                if row <= r < row + 3 && column <= c < column + 3 {
                    block[(c - column) * 3 + (r - row)]
                } else {
                    cells[i]
                }
            },
    )
}

/// A grid in which exactly the 2x2 block that starts at (`row`, `column`) is
/// alive. The block may cross the seam.
pub open spec fn block_grid(width: int, height: int, row: int, column: int) -> Seq<bool> {
    Seq::new(
        (width * height) as nat,
        |i: int|
            {
                let r = i / width;
                let c = i % width;
                (r == row || r == wrap_forth(row, height)) && (c == column || c == wrap_forth(
                    column,
                    width,
                ))
            },
    )
}

/// A cell inside the grid has an index inside the sequence, and the index
/// gives the row and the column back.
pub proof fn lemma_index(width: int, height: int, row: int, column: int)
    requires
        0 <= row < height,
        0 <= column < width,
    ensures
        0 <= index_of(width, row, column) < width * height,
        index_of(width, row, column) / width == row,
        index_of(width, row, column) % width == column,
{
    assert(row * width + column < width * height) by (nonlinear_arith)
        requires
            0 <= row < height,
            0 <= column < width,
    ;
    assert(0 <= row * width) by (nonlinear_arith)
        requires
            0 <= row,
            0 < width,
    ;
    lemma_fundamental_div_mod_converse(index_of(width, row, column), width, row, column);
}

/// An index inside the sequence belongs to a cell inside the grid.
pub proof fn lemma_cell(width: int, height: int, index: int)
    requires
        0 <= index < width * height,
        0 < width,
    ensures
        0 <= index / width < height,
        0 <= index % width < width,
        index_of(width, index / width, index % width) == index,
{
    lemma_fundamental_div_mod(index, width);
    lemma_mod_pos_bound(index, width);
    let q = index / width;
    let r = index % width;
    assert(width * q == q * width) by (nonlinear_arith);
    assert(0 <= q < height) by (nonlinear_arith)
        requires
            0 <= q * width + r < width * height,
            0 <= r < width,
    ;
}

/// The places before and after a coordinate, without a division.
pub proof fn lemma_wrap(x: int, n: int)
    requires
        0 <= x < n,
    ensures
        wrap_back(x, n) == if x == 0 {
            n - 1
        } else {
            x - 1
        },
        wrap_forth(x, n) == if x == n - 1 {
            0
        } else {
            x + 1
        },
{
    if x == 0 {
        lemma_fundamental_div_mod_converse(x + (n - 1), n, 0, n - 1);
    } else {
        lemma_fundamental_div_mod_converse(x + (n - 1), n, 1, x - 1);
    }
    if x == n - 1 {
        lemma_fundamental_div_mod_converse(x + 1, n, 1, 0);
    } else {
        lemma_fundamental_div_mod_converse(x + 1, n, 0, x + 1);
    }
}

/// The rules of the game, cell by cell: a live cell with fewer than two live
/// neighbors dies, one with two or three lives on, one with more than three
/// dies, a dead cell with exactly three comes alive, and any other dead cell
/// stays dead.
pub proof fn lemma_rules(cells: Seq<bool>, width: int, height: int, row: int, column: int)
    requires
        cells.len() == width * height,
        0 <= row < height,
        0 <= column < width,
    ensures
        ({
            let i = index_of(width, row, column);
            let count = live_neighbors(cells, width, height, row, column);
            let next = next_generation(cells, width, height);
            &&& 0 <= count <= 8
            &&& cells[i] && count < 2 ==> !next[i]
            &&& cells[i] && (count == 2 || count == 3) ==> next[i]
            &&& cells[i] && count > 3 ==> !next[i]
            &&& !cells[i] && count == 3 ==> next[i]
            &&& !cells[i] && count != 3 ==> !next[i]
        }),
{
    lemma_index(width, height, row, column);
}

/// On the torus the cell at the far corner is the north-west neighbor of the
/// cell at (0, 0): when it is alive, the cell at (0, 0) counts it.
pub proof fn lemma_toroidal_wrap(cells: Seq<bool>, width: int, height: int)
    requires
        cells.len() == width * height,
        0 < width,
        0 < height,
    ensures
        wrap_back(0, height) == height - 1,
        wrap_back(0, width) == width - 1,
        cells[index_of(width, height - 1, width - 1)] ==> live_neighbors(
            cells,
            width,
            height,
            0,
            0,
        ) >= 1,
{
    lemma_wrap(0, height);
    lemma_wrap(0, width);
}

/// A 2x2 block in an otherwise dead grid, three or more cells wide and high,
/// is a still life: the next generation is the same grid.
pub proof fn lemma_block_is_still(width: int, height: int, row: int, column: int)
    requires
        3 <= width,
        3 <= height,
        0 <= row < height,
        0 <= column < width,
    ensures
        next_generation(block_grid(width, height, row, column), width, height) == block_grid(
            width,
            height,
            row,
            column,
        ),
{
    let cells = block_grid(width, height, row, column);
    let next = next_generation(cells, width, height);
    assert(0 <= width * height) by (nonlinear_arith)
        requires
            3 <= width,
            3 <= height,
    ;
    lemma_wrap(row, height);
    lemma_wrap(column, width);
    assert forall|i: int| 0 <= i < cells.len() implies next[i] == cells[i] by {
        lemma_cell(width, height, i);
        let r = i / width;
        let c = i % width;
        lemma_wrap(r, height);
        lemma_wrap(c, width);
        let north = wrap_back(r, height);
        let south = wrap_forth(r, height);
        let west = wrap_back(c, width);
        let east = wrap_forth(c, width);
        lemma_index(width, height, north, west);
        lemma_index(width, height, north, c);
        lemma_index(width, height, north, east);
        lemma_index(width, height, r, west);
        lemma_index(width, height, r, east);
        lemma_index(width, height, south, west);
        lemma_index(width, height, south, c);
        lemma_index(width, height, south, east);
    }
    assert(next =~= cells);
}

} // verus!
