use vstd::prelude::*;

use crate::map::{GameMap, TileType};
use crate::{idx_of, in_grid, xy_idx, HEIGHT, WIDTH};

verus! {

/// Where an entity stands.
#[derive(Clone, Copy, Debug, PartialEq, Eq, Structural)]
pub struct Position {
    pub x: i32,
    pub y: i32,
}

/// An entity's sight: how far it sees, and whether what it sees must be worked out again.
#[derive(Clone, Copy, Debug, PartialEq, Eq, Structural)]
pub struct Viewshed {
    pub range: i32,
    pub dirty: bool,
}

/// One of the four steps a player can take.
#[derive(Clone, Copy, Debug, PartialEq, Eq, Structural)]
pub enum Direction {
    Up,
    Left,
    Down,
    Right,
}

/// `v` held to `lo..=hi`.
pub open spec fn clamp(v: int, lo: int, hi: int) -> int {
    if v < lo {
        lo
    } else if v > hi {
        hi
    } else {
        v
    }
}

/// The cell the step from `pos` by `(dx, dy)` aims at lies on the grid, its index in the
/// level, and is no wall.
pub open spec fn step_open(tiles: Seq<TileType>, pos: Position, dx: int, dy: int) -> bool {
    let idx = idx_of(pos.x + dx, pos.y + dy);
    in_grid(pos.x + dx, pos.y + dy) && idx < tiles.len() && tiles[idx] != TileType::Wall
}

impl Direction {
    /// The change of column and row the step makes; rows grow downwards.
    pub fn delta(&self) -> (r: (i32, i32))
        ensures
            r == (match *self {
                Direction::Up => (0i32, -1i32),
                Direction::Left => (-1i32, 0i32),
                Direction::Down => (0i32, 1i32),
                Direction::Right => (1i32, 0i32),
            }),
    {
        match self {
            Direction::Up => (0, -1),
            Direction::Left => (-1, 0),
            Direction::Down => (0, 1),
            Direction::Right => (1, 0),
        }
    }
}

/// Moves the entity at `pos` by `(delta_x, delta_y)` when the destination lies on the
/// grid, its index in the level, and is no wall: the new coordinates are held to the grid, and the
/// viewshed, if there is one, is marked dirty. Otherwise nothing changes. Returns whether
/// the entity moved.
pub fn try_move_player(
    pos: &mut Position,
    viewshed: &mut Option<Viewshed>,
    map: &GameMap,
    delta_x: i32,
    delta_y: i32,
) -> (moved: bool)
    ensures
        moved == step_open(map.tiles@, *old(pos), delta_x as int, delta_y as int),
        moved ==> final(pos).x == clamp(old(pos).x + delta_x, 0, WIDTH - 1),
        moved ==> final(pos).y == clamp(old(pos).y + delta_y, 0, HEIGHT - 1),
        moved ==> match *old(viewshed) {
            Some(v) => *final(viewshed) == Some(Viewshed { dirty: true, ..v }),
            None => final(viewshed).is_none(),
        },
        !moved ==> *final(pos) == *old(pos) && *final(viewshed) == *old(viewshed),
{
    let x: i64 = pos.x as i64 + delta_x as i64;
    let y: i64 = pos.y as i64 + delta_y as i64;
    if x < 0 || x >= WIDTH as i64 || y < 0 || y >= HEIGHT as i64 {
        return false;
    }
    let destination_idx = xy_idx(x as i32, y as i32);
    if destination_idx >= map.tiles.len() {
        return false;
    }
    if map.tiles[destination_idx] == TileType::Wall {
        return false;
    }
    pos.x = clamp_i64(x, 0, WIDTH - 1);
    pos.y = clamp_i64(y, 0, HEIGHT - 1);
    match viewshed {
        Some(v) => {
            v.dirty = true;
        },
        None => {},
    }
    true
}

fn clamp_i64(v: i64, lo: i32, hi: i32) -> (r: i32)
    requires
        lo <= hi,
    ensures
        r == clamp(v as int, lo as int, hi as int),
{
    if v < lo as i64 {
        lo
    } else if v > hi as i64 {
        hi
    } else {
        v as i32
    }
}

} // verus!
