use vstd::prelude::*;

pub mod map;
pub mod model;
pub mod player;
pub mod rect;

verus! {

/// Width of the level in tiles.
pub const WIDTH: i32 = 80;

/// Height of the level in tiles.
pub const HEIGHT: i32 = 50;

/// Number of tiles in a level.
pub const MAP_LENGTH: usize = 4000;

/// Row-major index of the cell `(x, y)`.
pub open spec fn idx_of(x: int, y: int) -> int {
    y * WIDTH + x
}

/// The cell `(x, y)` lies on the grid.
pub open spec fn in_grid(x: int, y: int) -> bool {
    0 <= x < WIDTH && 0 <= y < HEIGHT
}

/// Row-major index of an on-grid cell.
pub fn xy_idx(x: i32, y: i32) -> (r: usize)
    requires
        in_grid(x as int, y as int),
    ensures
        r as int == idx_of(x as int, y as int),
        r < MAP_LENGTH,
{
    (y as usize) * (WIDTH as usize) + (x as usize)
}

/// Every on-grid cell has its own index below `MAP_LENGTH`, and the column and
/// row are recovered from it by remainder and quotient by the width.
pub proof fn lemma_index_bijection(x: int, y: int)
    requires
        in_grid(x, y),
    ensures
        0 <= idx_of(x, y) < MAP_LENGTH,
        idx_of(x, y) % (WIDTH as int) == x,
        idx_of(x, y) / (WIDTH as int) == y,
        forall|x2: int, y2: int|
            in_grid(x2, y2) && idx_of(x2, y2) == idx_of(x, y) ==> x2 == x && y2 == y,
{
    assert(idx_of(x, y) % 80 == x && idx_of(x, y) / 80 == y) by (nonlinear_arith)
        requires
            0 <= x < 80,
            0 <= y < 50,
    ;
}

} // verus!
