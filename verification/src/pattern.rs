//! Seeds for a whole grid and the block that `spawn_glider` stamps.

use vstd::prelude::*;
use crate::entity::Cell;

verus! {

/// The cell that stands for a boolean.
pub open spec fn cell_of(alive: bool) -> Cell {
    if alive {
        Cell::Alive
    } else {
        Cell::Dead
    }
}

/// The parity pattern: a cell is alive when its index is a multiple of 2 or
/// of 7.
pub open spec fn parity_alive(index: int) -> bool {
    index % 2 == 0 || index % 7 == 0
}

/// The space ship pattern, drawn in the first four rows of a grid that is
/// `width` cells wide:
///
/// ```text
/// #--#-
/// ----#
/// #---#
/// -####
/// ```
pub open spec fn space_ship_alive(width: int, index: int) -> bool {
    ||| index == 0
    ||| index == 3
    ||| index == width + 4
    ||| index == 2 * width
    ||| index == 2 * width + 4
    ||| index == 3 * width + 1
    ||| index == 3 * width + 2
    ||| index == 3 * width + 3
    ||| index == 3 * width + 4
}

/// The glider block, in the order in which it is stamped.
pub open spec fn glider_block() -> Seq<bool> {
    seq![false, false, true, true, false, true, false, true, true]
}

/// The parity pattern for a grid of `width * height` cells.
pub fn default(width: u32, height: u32) -> (res: Vec<Cell>)
    requires
        width * height <= u32::MAX,
    ensures
        res@ == Seq::new((width * height) as nat, |i: int| cell_of(parity_alive(i))),
{
    let size: u32 = width * height;
    let mut cells: Vec<Cell> = Vec::new();
    let mut i: u32 = 0;
    while i < size
        invariant
            i <= size,
            cells@ == Seq::new(i as nat, |k: int| cell_of(parity_alive(k))),
        decreases size - i,
    {
        let cell = if i % 2 == 0 || i % 7 == 0 {
            Cell::Alive
        } else {
            Cell::Dead
        };
        cells.push(cell);
        i += 1;
        assert(cells@ =~= Seq::new(i as nat, |k: int| cell_of(parity_alive(k))));
    }
    cells
}

/// Whether `index` is one of the nine points of the space ship.
fn is_ship_point(width: u32, index: u32) -> (res: bool)
    ensures
        res == space_ship_alive(width as int, index as int),
{
    let w: u64 = width as u64;
    let i: u64 = index as u64;
    let points: [u64; 9] = [
        0,
        3,
        w + 4,
        2 * w,
        2 * w + 4,
        3 * w + 1,
        3 * w + 2,
        3 * w + 3,
        3 * w + 4,
    ];
    let mut found = false;
    let mut k: usize = 0;
    while k < 9
        invariant
            k <= 9,
            found == exists|j: int| 0 <= j < k && points@[j] == i,
        decreases 9 - k,
    {
        if points[k] == i {
            found = true;
        }
        k += 1;
    }
    found
}

/// The space ship pattern for a grid of `width * height` cells.
pub fn space_ship(width: u32, height: u32) -> (res: Vec<Cell>)
    requires
        width * height <= u32::MAX,
    ensures
        res@ == Seq::new(
            (width * height) as nat,
            |i: int| cell_of(space_ship_alive(width as int, i)),
        ),
{
    let size: u32 = width * height;
    let mut cells: Vec<Cell> = Vec::new();
    let mut i: u32 = 0;
    while i < size
        invariant
            i <= size,
            cells@ == Seq::new(i as nat, |k: int| cell_of(space_ship_alive(width as int, k))),
        decreases size - i,
    {
        let cell = if is_ship_point(width, i) {
            Cell::Alive
        } else {
            Cell::Dead
        };
        cells.push(cell);
        i += 1;
        assert(cells@ =~= Seq::new(
            i as nat,
            |k: int| cell_of(space_ship_alive(width as int, k)),
        ));
    }
    cells
}

/// The glider block.
pub fn glider() -> (res: [bool; 9])
    ensures
        res@ == glider_block(),
{
    let block = [false, false, true, true, false, true, false, true, true];
    assert(block@ =~= glider_block());
    block
}

} // verus!
