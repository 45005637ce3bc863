//! The grid of cells and its step from one generation to the next.

use vstd::prelude::*;
use crate::bitmask::Bitmask;
use crate::bitmask::packs;
use crate::grid::Grid;
use crate::grid::alive;
use crate::grid::index_of;
use crate::grid::lemma_cell;
use crate::grid::lemma_index;
use crate::grid::lemma_wrap;
use crate::grid::live_neighbors;
use crate::grid::next_generation;
use crate::grid::next_state;
use crate::grid::stamp_anchor;
use crate::grid::stamped;
use crate::grid::wrap_back;
use crate::grid::wrap_forth;
use crate::pattern::glider;
use crate::pattern::glider_block;
use crate::pattern::parity_alive;
use crate::utils;

verus! {

/// A toroidal grid of `width * height` cells, kept row by row in a packed
/// bit array.
///
/// A width or a height of 0 is allowed and gives a grid without cells:
/// `tick` leaves such a grid as it is, and no cell of it can be named.
pub struct Universe {
    width: u32,
    height: u32,
    cells: Bitmask,
}

impl View for Universe {
    type V = Grid;

    /// The width, the height and the cells in row-major order.
    closed spec fn view(&self) -> Grid {
        Grid { width: self.width as int, height: self.height as int, cells: self.cells@ }
    }
}

/// The cells that `stamped` has written once `done` flags of the block are
/// in place.
spec fn stamped_upto(
    cells: Seq<bool>,
    width: int,
    row: int,
    column: int,
    block: Seq<bool>,
    done: int,
) -> Seq<bool> {
    Seq::new(
        cells.len(),
        |i: int|
            {
                let r = i / width;
                let c = i % width;
                if row <= r < row + 3 && column <= c < column + 3 && (c - column) * 3 + (r - row)
                    < done {
                    block[(c - column) * 3 + (r - row)]
                } else {
                    cells[i]
                }
            },
    )
}

/// The state that the rules give a cell with `live_neighbors` live neighbors.
fn next_cell(cell: bool, live_neighbors: u8) -> (res: bool)
    ensures
        res == next_state(cell, live_neighbors as int),
{
    match (cell, live_neighbors) {
        (true, x) if x < 2 => false,
        (true, 2) | (true, 3) => true,
        (true, x) if x > 3 => false,
        (false, 3) => true,
        (otherwise, _) => otherwise,
    }
}

/// Where a stamp asked for at coordinate `x` is anchored.
fn anchor(x: u32) -> (res: u32)
    ensures
        res == stamp_anchor(x as int),
{
    utils::max(x.saturating_sub(3), 3)
}

/// A mask of `size` flags, all of them false.
fn blank(size: usize) -> (res: Bitmask)
    ensures
        res.wf(),
        res.len == size,
        res@ == Seq::new(size as nat, |i: int| false),
{
    let flags: Vec<bool> = vec![false; size];
    let res = Bitmask::new(flags.as_slice());
    assert(res@ =~= Seq::new(size as nat, |i: int| false));
    res
}

impl Universe {
    /// The packed words that hold the cells.
    pub closed spec fn words(&self) -> Seq<u32> {
        self.cells.data@
    }

    /// The number of cells is `width * height` and fits 32 bits, and the
    /// words are the packing of the cells.
    pub open spec fn wf(&self) -> bool {
        &&& self@.wf()
        &&& self@.width * self@.height <= u32::MAX
        &&& packs(self.words(), self@.cells)
    }

    pub fn width(&self) -> (res: u32)
        ensures
            res == self@.width,
    {
        self.width
    }

    pub fn height(&self) -> (res: u32)
        ensures
            res == self@.height,
    {
        self.height
    }

    /// The packed words, for a reader that decodes them by
    /// `bitmask::slot_of` and `bitmask::shift_of`.
    pub fn cells(&self) -> (res: &[u32])
        ensures
            res@ == self.words(),
    {
        self.cells.as_slice()
    }

    /// The number of cells.
    pub fn cells_len(&self) -> (res: usize)
        requires
            self.wf(),
        ensures
            res == self@.cells.len(),
            res == self@.width * self@.height,
    {
        self.cells.len()
    }

    fn get_index(&self, row: u32, column: u32) -> (res: usize)
        requires
            self.wf(),
            row < self@.height,
            column < self@.width,
        ensures
            res == index_of(self@.width, row as int, column as int),
            res < self@.cells.len(),
    {
        proof {
            lemma_index(self.width as int, self.height as int, row as int, column as int);
        }
        (row * self.width + column) as usize
    }

    /// Whether the cell at (`row`, `column`) is alive.
    pub fn is_alive(&self, row: u32, column: u32) -> (res: bool)
        requires
            self.wf(),
            row < self@.height,
            column < self@.width,
        ensures
            res == self@.cells[index_of(self@.width, row as int, column as int)],
    {
        let idx = self.get_index(row, column);
        self.cells.at(idx)
    }

    /// 1 if the cell at (`row`, `column`) is alive, else 0.
    fn live_at(&self, row: u32, column: u32) -> (res: u8)
        requires
            self.wf(),
            row < self@.height,
            column < self@.width,
        ensures
            res == alive(self@.cells, self@.width, row as int, column as int),
    {
        let idx = self.get_index(row, column);
        self.cells.at(idx) as u8
    }

    /// The number of live cells among the eight neighbors of the cell at
    /// (`row`, `column`) on the torus.
    pub fn live_neighbor_count(&self, row: u32, column: u32) -> (res: u8)
        requires
            self.wf(),
            row < self@.height,
            column < self@.width,
        ensures
            res == live_neighbors(
                self@.cells,
                self@.width,
                self@.height,
                row as int,
                column as int,
            ),
    {
        let mut count: u8 = 0;

        let north = if row == 0 {
            self.height - 1
        } else {
            row - 1
        };

        let south = if row == self.height - 1 {
            0
        } else {
            row + 1
        };

        let west = if column == 0 {
            self.width - 1
        } else {
            column - 1
        };

        let east = if column == self.width - 1 {
            0
        } else {
            column + 1
        };

        proof {
            lemma_wrap(row as int, self.height as int);
            lemma_wrap(column as int, self.width as int);
        }
        assert(north == wrap_back(row as int, self.height as int));
        assert(south == wrap_forth(row as int, self.height as int));
        assert(west == wrap_back(column as int, self.width as int));
        assert(east == wrap_forth(column as int, self.width as int));

        count += self.live_at(north, west);
        count += self.live_at(north, column);
        count += self.live_at(north, east);
        count += self.live_at(row, west);
        count += self.live_at(row, east);
        count += self.live_at(south, west);
        count += self.live_at(south, column);
        count += self.live_at(south, east);

        count
    }

    /// Moves the grid on by one generation. Every cell is judged by the
    /// generation before the call; the new generation replaces it as a whole.
    /// A grid without cells stays as it is.
    pub fn tick(&mut self)
        requires
            old(self).wf(),
        ensures
            final(self).wf(),
            final(self)@.width == old(self)@.width,
            final(self)@.height == old(self)@.height,
            final(self)@.cells == next_generation(
                old(self)@.cells,
                old(self)@.width,
                old(self)@.height,
            ),
    {
        let mut next = self.cells.clone();
        let ghost goal = next_generation(self@.cells, self.width as int, self.height as int);
        let mut row: u32 = 0;
        while row < self.height
            invariant
                *self == *old(self),
                self.wf(),
                row <= self.height,
                next.wf(),
                next.len == self.cells.len,
                goal == next_generation(self@.cells, self.width as int, self.height as int),
                forall|i: int|
                    0 <= i < row * self.width && i < goal.len() ==> next@[i] == goal[i],
            decreases self.height - row,
        {
            let mut col: u32 = 0;
            while col < self.width
                invariant
                    *self == *old(self),
                    self.wf(),
                    row < self.height,
                    col <= self.width,
                    next.wf(),
                    next.len == self.cells.len,
                    goal == next_generation(self@.cells, self.width as int, self.height as int),
                    forall|i: int|
                        0 <= i < row * self.width + col && i < goal.len() ==> next@[i] == goal[i],
                decreases self.width - col,
            {
                let idx = self.get_index(row, col);
                let cell = self.cells.at(idx);
                let live_neighbors = self.live_neighbor_count(row, col);
                proof {
                    lemma_index(self.width as int, self.height as int, row as int, col as int);
                }
                next.set(idx, next_cell(cell, live_neighbors));
                col += 1;
            }
            proof {
                assert(row * self.width + self.width == (row + 1) * self.width)
                    by (nonlinear_arith);
            }
            row += 1;
        }
        proof {
            assert(row * self.width == self.width * self.height) by (nonlinear_arith)
                requires
                    row == self.height,
            ;
            assert(next@ =~= goal);
        }
        self.cells = next;
    }

    /// Whether the block that `stamp_pattern` writes for (`row`, `column`)
    /// lies inside the grid.
    pub fn stamp_fits(&self, row: u32, column: u32) -> (res: bool)
        ensures
            res == (stamp_anchor(row as int) + 3 <= self@.height && stamp_anchor(column as int) + 3
                <= self@.width),
    {
        self.height >= 3 && anchor(row) <= self.height - 3 && self.width >= 3 && anchor(column)
            <= self.width - 3
    }

    /// Writes the 3x3 `pattern` into the grid. The block is anchored three
    /// places before (`row`, `column`), but not before place 3 in either
    /// direction, and written down the rows of one column, then on to the
    /// next column. The block must lie inside the grid.
    pub fn stamp_pattern(&mut self, row: u32, column: u32, pattern: &[bool; 9])
        requires
            old(self).wf(),
            stamp_anchor(row as int) + 3 <= old(self)@.height,
            stamp_anchor(column as int) + 3 <= old(self)@.width,
        ensures
            final(self).wf(),
            final(self)@.width == old(self)@.width,
            final(self)@.height == old(self)@.height,
            final(self)@.cells == stamped(
                old(self)@.cells,
                old(self)@.width,
                stamp_anchor(row as int),
                stamp_anchor(column as int),
                pattern@,
            ),
    {
        let init_row = anchor(row);
        let init_column = anchor(column);
        let mut row = init_row;
        let mut column = init_column;
        let mut k: usize = 0;
        while k < 9
            invariant
                k <= 9,
                self.wf(),
                self.width == old(self).width,
                self.height == old(self).height,
                init_row + 3 <= self.height,
                init_column + 3 <= self.width,
                row == init_row + k % 3,
                column == init_column + k / 3,
                self@.cells == stamped_upto(
                    old(self)@.cells,
                    self.width as int,
                    init_row as int,
                    init_column as int,
                    pattern@,
                    k as int,
                ),
            decreases 9 - k,
        {
            let idx = self.get_index(row, column);
            proof {
                lemma_index(self.width as int, self.height as int, row as int, column as int);
            }
            self.cells.set(idx, pattern[k]);
            proof {
                let ghost after = stamped_upto(
                    old(self)@.cells,
                    self.width as int,
                    init_row as int,
                    init_column as int,
                    pattern@,
                    k + 1,
                );
                assert forall|i: int| 0 <= i < self@.cells.len() implies self@.cells[i] == after[i] by {
                    lemma_cell(self.width as int, self.height as int, i);
                }
                assert(self@.cells =~= after);
            }
            row += 1;
            if row >= init_row + 3 {
                row = init_row;
                column += 1;
            }
            k += 1;
        }
        proof {
            assert(self@.cells =~= stamped(
                old(self)@.cells,
                self.width as int,
                init_row as int,
                init_column as int,
                pattern@,
            ));
        }
    }

    /// Stamps the glider block near (`row`, `column`), as `stamp_pattern`
    /// does.
    pub fn spawn_glider(&mut self, row: u32, column: u32)
        requires
            old(self).wf(),
            stamp_anchor(row as int) + 3 <= old(self)@.height,
            stamp_anchor(column as int) + 3 <= old(self)@.width,
        ensures
            final(self).wf(),
            final(self)@.width == old(self)@.width,
            final(self)@.height == old(self)@.height,
            final(self)@.cells == stamped(
                old(self)@.cells,
                old(self)@.width,
                stamp_anchor(row as int),
                stamp_anchor(column as int),
                glider_block(),
            ),
    {
        let block = glider();
        self.stamp_pattern(row, column, &block);
    }

    /// Flips the cell at (`row`, `column`) and no other.
    pub fn toggle_cell(&mut self, row: u32, column: u32)
        requires
            old(self).wf(),
            row < old(self)@.height,
            column < old(self)@.width,
        ensures
            final(self).wf(),
            final(self)@.width == old(self)@.width,
            final(self)@.height == old(self)@.height,
            final(self)@.cells == old(self)@.cells.update(
                index_of(old(self)@.width, row as int, column as int),
                !old(self)@.cells[index_of(old(self)@.width, row as int, column as int)],
            ),
    {
        let idx = self.get_index(row, column);
        let val = !self.cells.at(idx);
        self.cells.set(idx, val);
    }

    /// A grid of `width * height` cells whose cell `i` is alive when
    /// `seed[i]` is. The words are the packing of the seed.
    pub fn from_seed(width: u32, height: u32, seed: &[bool]) -> (res: Universe)
        requires
            width * height <= u32::MAX,
            seed@.len() == width * height,
        ensures
            res.wf(),
            res@.width == width,
            res@.height == height,
            res@.cells == seed@,
            packs(res.words(), seed@),
    {
        let cells = Bitmask::new(seed);
        Universe { width, height, cells }
    }

    /// A grid of 128 by 128 cells, seeded with the parity pattern.
    pub fn new() -> (res: Universe)
        ensures
            res.wf(),
            res@.width == 128,
            res@.height == 128,
            res@.cells == Seq::new(16384, |i: int| parity_alive(i)),
    {
        let width: u32 = 128;
        let height: u32 = 128;

        let size = (width * height) as usize;
        let mut cells = blank(size);
        let mut i: usize = 0;
        while i < size
            invariant
                i <= size,
                size == 16384,
                cells.wf(),
                cells.len == size,
                forall|k: int| 0 <= k < i ==> cells@[k] == parity_alive(k),
            decreases size - i,
        {
            cells.set(i, i % 2 == 0 || i % 7 == 0);
            i += 1;
        }
        assert(cells@ =~= Seq::new(16384, |i: int| parity_alive(i)));
        Universe { width, height, cells }
    }

    /// Sets the width of the grid. Every cell is dead afterwards.
    pub fn set_width(&mut self, width: u32)
        requires
            width * old(self)@.height <= u32::MAX,
        ensures
            final(self).wf(),
            final(self)@.width == width,
            final(self)@.height == old(self)@.height,
            final(self)@.cells == Seq::new((width * old(self)@.height) as nat, |i: int| false),
    {
        self.width = width;
        self.cells = blank((width * self.height) as usize);
    }

    /// Sets the height of the grid. Every cell is dead afterwards.
    pub fn set_height(&mut self, height: u32)
        requires
            old(self)@.width * height <= u32::MAX,
        ensures
            final(self).wf(),
            final(self)@.width == old(self)@.width,
            final(self)@.height == height,
            final(self)@.cells == Seq::new((old(self)@.width * height) as nat, |i: int| false),
    {
        self.height = height;
        self.cells = blank((self.width * height) as usize);
    }
}

} // verus!
