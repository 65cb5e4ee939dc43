use vstd::prelude::*;

use crate::model::{
    all_walls, carve_box, carve_column_span, carve_corridor, carve_horizontal, carve_room,
    carve_row_span, carve_vertical, floor_connected, floor_kept, generated, generated_from, place_rooms,
    lemma_carve_corridor, lemma_dogleg_walk, lemma_generated_keeps_floor, lemma_generated_sound, lemma_rooms_joined, lemma_walls_sound, level_sound, max_of, min_of, pairwise_disjoint, room_on_grid,
    rooms_carved, rooms_chained,
};
use crate::rect::Rect;
use crate::{idx_of, in_grid, xy_idx, HEIGHT, MAP_LENGTH, WIDTH};
use rltk::RandomNumberGenerator;

verus! {

/// Most candidate rooms offered while generating a level.
pub const MAX_ROOMS: usize = 30;

/// Least width and height of a room.
pub const MIN_SIZE: i32 = 6;

/// Greatest width and height of a room.
pub const MAX_SIZE: i32 = 10;

/// What a cell of the level is made of.
#[derive(Clone, Copy, Debug, PartialEq, Eq, Structural)]
pub enum TileType {
    Wall,
    Floor,
}

/// A level: its tiles in row-major order, the rooms in the order they were accepted, and
/// for each tile whether it was ever seen and whether it is seen now.
pub struct GameMap {
    pub tiles: Vec<TileType>,
    pub rooms: Vec<Rect>,
    pub revealed_tiles: Vec<bool>,
    pub visible_tiles: Vec<bool>,
}

#[verifier::external_type_specification]
#[verifier::external_body]
pub struct ExRandomNumberGenerator(RandomNumberGenerator);

/// Relies on `RandomNumberGenerator::range`: a value drawn from `min..max`, upper bound
/// excluded (it panics on an empty range).
#[verifier::external_body]
fn draw_range(rng: &mut RandomNumberGenerator, min: i32, max: i32) -> (r: i32)
    requires
        min < max,
    ensures
        min <= r < max,
{
    rng.range(min, max)
}

/// Relies on `RandomNumberGenerator::roll_dice`: the sum of `n` draws from `1..die_type + 1`.
#[verifier::external_body]
fn roll_dice(rng: &mut RandomNumberGenerator, n: i32, die_type: i32) -> (r: i32)
    requires
        1 <= n,
        1 <= die_type < i32::MAX,
        n * die_type <= i32::MAX,
    ensures
        n <= r <= n * die_type,
{
    rng.roll_dice(n, die_type)
}

/// A candidate room as the generator draws it: `MIN_SIZE..=MAX_SIZE` wide and high, with
/// at least one tile of margin on every side of the level.
pub open spec fn drawn_room(r: Rect) -> bool {
    &&& MIN_SIZE <= r.x2 - r.x1 <= MAX_SIZE
    &&& MIN_SIZE <= r.y2 - r.y1 <= MAX_SIZE
    &&& 1 <= r.x1 && r.x2 <= WIDTH - 2
    &&& 1 <= r.y1 && r.y2 <= HEIGHT - 2
}

/// Every room accepted from drawn candidates, onto drawn rooms, is a drawn room.
pub proof fn lemma_generated_rooms_drawn(t: Seq<TileType>, rooms: Seq<Rect>, c: Seq<(Rect, bool)>)
    requires
        forall|k: int| 0 <= k < rooms.len() ==> drawn_room(#[trigger] rooms[k]),
        forall|k: int| 0 <= k < c.len() ==> drawn_room(#[trigger] c[k].0),
    ensures
        forall|k: int|
            0 <= k < generated_from(t, rooms, c).1.len() ==> drawn_room(
                #[trigger] generated_from(t, rooms, c).1[k],
            ),
    decreases c.len(),
{
    if c.len() > 0 {
        let p = c.drop_last();
        assert forall|k: int| 0 <= k < p.len() implies drawn_room(#[trigger] p[k].0) by {
            assert(p[k] == c[k]);
        }
        lemma_generated_rooms_drawn(t, rooms, p);
        let rs1 = generated_from(t, rooms, p).1;
        let rs = generated_from(t, rooms, c).1;
        assert(rs == place_rooms(rs1, c.last().0));
        assert(drawn_room(c[c.len() - 1].0));
        assert forall|k: int| 0 <= k < rs.len() implies drawn_room(#[trigger] rs[k]) by {
            if k < rs1.len() {
                assert(rs[k] == rs1[k]);
            }
        }
    }
}

/// Candidate rooms paired with the corridor shape to use should each be accepted.
pub open spec fn candidates(rooms: Seq<Rect>, horizontal_first: Seq<bool>) -> Seq<(Rect, bool)> {
    Seq::new(rooms.len(), |k: int| (rooms[k], horizontal_first[k]))
}

impl GameMap {
    /// Row-major index of an on-grid cell.
    pub fn xy_idx(&self, x: i32, y: i32) -> (r: usize)
        requires
            in_grid(x as int, y as int),
        ensures
            r as int == idx_of(x as int, y as int),
            r < MAP_LENGTH,
    {
        xy_idx(x, y)
    }

    /// Width and height of the level.
    pub fn dimensions(&self) -> (r: (i32, i32))
        ensures
            r == (WIDTH, HEIGHT),
    {
        (WIDTH, HEIGHT)
    }

    /// Whether the tile at `idx` blocks sight: it does exactly when it is a wall.
    pub fn is_opaque(&self, idx: usize) -> (r: bool)
        requires
            idx < self.tiles.len(),
        ensures
            r == (self.tiles@[idx as int] == TileType::Wall),
    {
        self.tiles[idx] == TileType::Wall
    }

    /// Every per-tile array covers the whole level.
    pub open spec fn wf(&self) -> bool {
        &&& self.tiles.len() == MAP_LENGTH
        &&& self.revealed_tiles.len() == MAP_LENGTH
        &&& self.visible_tiles.len() == MAP_LENGTH
    }

    /// A fresh level of rooms joined by corridors, its candidates drawn from `rng`.
    pub fn new_map_rooms_and_corridors(rng: &mut RandomNumberGenerator) -> (map: GameMap)
        ensures
            map.wf(),
            exists|c: Seq<(Rect, bool)>|
                c.len() == MAX_ROOMS && (forall|k: int| 0 <= k < c.len() ==> drawn_room(#[trigger] c[k].0))
                    && generated(c) == (map.tiles@, map.rooms@),
            level_sound(map.tiles@, map.rooms@),
            pairwise_disjoint(map.rooms@),
            rooms_carved(map.tiles@, map.rooms@),
            rooms_chained(map.tiles@, map.rooms@),
            forall|k: int|
                1 <= k < map.rooms@.len() ==> floor_connected(
                    map.tiles@,
                    (map.rooms@[k - 1].center_x(), map.rooms@[k - 1].center_y()),
                    (#[trigger] map.rooms@[k].center_x(), map.rooms@[k].center_y()),
                ),
            map.rooms@.len() <= MAX_ROOMS,
            forall|k: int| 0 <= k < map.rooms@.len() ==> drawn_room(#[trigger] map.rooms@[k]),
            forall|i: int| 0 <= i < MAP_LENGTH ==> !(#[trigger] map.revealed_tiles@[i]),
            forall|i: int| 0 <= i < MAP_LENGTH ==> !(#[trigger] map.visible_tiles@[i]),
    {
        let mut rooms: Vec<Rect> = Vec::new();
        let mut shapes: Vec<bool> = Vec::new();
        let mut n: usize = 0;
        while n < MAX_ROOMS
            invariant
                n <= MAX_ROOMS,
                rooms.len() == n,
                shapes.len() == n,
                forall|k: int| 0 <= k < n ==> drawn_room(#[trigger] rooms@[k]) && room_on_grid(rooms@[k]),
            decreases MAX_ROOMS - n,
        {
            let w = draw_range(rng, MIN_SIZE, MAX_SIZE + 1);
            let h = draw_range(rng, MIN_SIZE, MAX_SIZE + 1);
            let x = roll_dice(rng, 1, WIDTH - w - 2);
            let y = roll_dice(rng, 1, HEIGHT - h - 2);
            rooms.push(Rect::new(x, y, w, h));
            shapes.push(draw_range(rng, 0, 2) == 1);
            n = n + 1;
        }
        let map = GameMap::rooms_and_corridors_from(&rooms, &shapes);
        proof {
            let c = candidates(rooms@, shapes@);
            assert forall|k: int| 0 <= k < c.len() implies drawn_room(#[trigger] c[k].0) by {
                assert(drawn_room(rooms@[k]));
            }
            lemma_walls_sound();
            lemma_generated_sound(all_walls(), Seq::empty(), c);
            lemma_generated_rooms_drawn(all_walls(), Seq::empty(), c);
            lemma_rooms_joined(map.tiles@, map.rooms@);
        }
        map
    }

    /// The level got by offering each candidate room in turn: one that overlaps an
    /// accepted room is skipped; one that does not has its interior carved, is joined to
    /// the room accepted before it by a corridor of the shape given beside it, and is
    /// accepted.
    pub fn rooms_and_corridors_from(rooms: &Vec<Rect>, horizontal_first: &Vec<bool>) -> (map: GameMap)
        requires
            rooms.len() == horizontal_first.len(),
            forall|k: int| 0 <= k < rooms.len() ==> room_on_grid(#[trigger] rooms@[k]),
        ensures
            map.wf(),
            generated(candidates(rooms@, horizontal_first@)) == (map.tiles@, map.rooms@),
            level_sound(map.tiles@, map.rooms@),
            map.rooms@.len() <= rooms.len(),
            forall|i: int| 0 <= i < MAP_LENGTH ==> !(#[trigger] map.revealed_tiles@[i]),
            forall|i: int| 0 <= i < MAP_LENGTH ==> !(#[trigger] map.visible_tiles@[i]),
    {
        let mut map = GameMap {
            tiles: vec![TileType::Wall; MAP_LENGTH],
            rooms: Vec::new(),
            revealed_tiles: vec![false; MAP_LENGTH],
            visible_tiles: vec![false; MAP_LENGTH],
        };
        proof {
            assert(map.tiles@ =~= all_walls());
            assert(map.rooms@ =~= Seq::empty());
        }
        map.add_rooms_and_corridors(rooms, horizontal_first);
        proof {
            let c = candidates(rooms@, horizontal_first@);
            assert forall|k: int| 0 <= k < c.len() implies room_on_grid(#[trigger] c[k].0) by {
                assert(room_on_grid(rooms@[k]));
            }
            lemma_walls_sound();
            lemma_generated_sound(all_walls(), Seq::empty(), c);
        }
        map
    }

    fn add_rooms_and_corridors(&mut self, rooms: &Vec<Rect>, horizontal_first: &Vec<bool>)
        requires
            old(self).tiles.len() == MAP_LENGTH,
            rooms.len() == horizontal_first.len(),
            forall|k: int| 0 <= k < rooms.len() ==> room_on_grid(#[trigger] rooms@[k]),
        ensures
            final(self).tiles.len() == MAP_LENGTH,
            (final(self).tiles@, final(self).rooms@) == generated_from(
                old(self).tiles@,
                old(self).rooms@,
                candidates(rooms@, horizontal_first@),
            ),
            floor_kept(old(self).tiles@, final(self).tiles@),
            final(self).revealed_tiles == old(self).revealed_tiles,
            final(self).visible_tiles == old(self).visible_tiles,
    {
        let ghost c = candidates(rooms@, horizontal_first@);
        let mut n: usize = 0;
        while n < rooms.len()
            invariant
                n <= rooms.len(),
                rooms.len() == horizontal_first.len(),
                c == candidates(rooms@, horizontal_first@),
                forall|k: int| 0 <= k < rooms.len() ==> room_on_grid(#[trigger] rooms@[k]),
                self.tiles.len() == MAP_LENGTH,
                (self.tiles@, self.rooms@) == generated_from(old(self).tiles@, old(self).rooms@, c.take(n as int)),
                self.revealed_tiles == old(self).revealed_tiles,
                self.visible_tiles == old(self).visible_tiles,
            decreases rooms.len() - n,
        {
            let new_room = rooms[n];
            proof {
                assert(c.take(n + 1).drop_last() =~= c.take(n as int));
                assert(c.take(n + 1).last() == c[n as int]);
            }
            let mut ok = true;
            let mut j: usize = 0;
            while j < self.rooms.len()
                invariant
                    j <= self.rooms.len(),
                    ok == (forall|k: int| 0 <= k < j ==> !new_room.spec_intersect(#[trigger] self.rooms@[k])),
                decreases self.rooms.len() - j,
            {
                if new_room.intersect(&self.rooms[j]) {
                    ok = false;
                }
                j = j + 1;
            }
            if ok {
                self.apply_room_to_map(&new_room);
                if self.rooms.len() > 0 {
                    let prev_room = self.rooms[self.rooms.len() - 1];
                    self.connect_room_to_previous_room(&new_room, &prev_room, horizontal_first[n]);
                }
                self.rooms.push(new_room);
            }
            n = n + 1;
        }
        proof {
            assert(c.take(n as int) =~= c);
            lemma_generated_keeps_floor(old(self).tiles@, old(self).rooms@, c);
        }
    }

    fn connect_room_to_previous_room(&mut self, new_room: &Rect, prev_room: &Rect, horizontal_first: bool)
        requires
            old(self).tiles.len() == MAP_LENGTH,
        ensures
            final(self).tiles@ == carve_corridor(old(self).tiles@, *new_room, *prev_room, horizontal_first),
            in_grid(new_room.center_x(), new_room.center_y()) && in_grid(
                prev_room.center_x(),
                prev_room.center_y(),
            ) ==> floor_kept(old(self).tiles@, final(self).tiles@) && floor_connected(
                final(self).tiles@,
                (prev_room.center_x(), prev_room.center_y()),
                (new_room.center_x(), new_room.center_y()),
            ),
            final(self).rooms == old(self).rooms,
            final(self).revealed_tiles == old(self).revealed_tiles,
            final(self).visible_tiles == old(self).visible_tiles,
    {
        let (new_x, new_y) = new_room.center();
        let (prev_x, prev_y) = prev_room.center();
        if horizontal_first {
            self.apply_horizontal_tunnel(prev_x, new_x, prev_y);
            self.apply_vertical_tunnel(prev_y, new_y, new_x);
        } else {
            self.apply_horizontal_tunnel(prev_x, new_x, new_y);
            self.apply_vertical_tunnel(prev_y, new_y, prev_x);
        }
        proof {
            if in_grid(new_room.center_x(), new_room.center_y()) && in_grid(
                prev_room.center_x(),
                prev_room.center_y(),
            ) {
                lemma_carve_corridor(old(self).tiles@, *new_room, *prev_room, horizontal_first);
                lemma_dogleg_walk(self.tiles@, *prev_room, *new_room);
            }
        }
    }

    fn apply_room_to_map(&mut self, room: &Rect)
        requires
            old(self).tiles.len() == MAP_LENGTH,
            room_on_grid(*room),
        ensures
            final(self).tiles@ == carve_room(old(self).tiles@, *room),
            final(self).rooms == old(self).rooms,
            final(self).revealed_tiles == old(self).revealed_tiles,
            final(self).visible_tiles == old(self).visible_tiles,
    {
        let ghost t0 = self.tiles@;
        let mut y: i32 = room.y1 + 1;
        while y <= room.y2
            invariant
                room_on_grid(*room),
                room.y1 + 1 <= y <= room.y2 + 1,
                self.tiles@ == carve_box(t0, room.x1 + 1, room.x2 as int, room.y1 + 1, y - 1),
                t0.len() == MAP_LENGTH,
                self.rooms == old(self).rooms,
                self.revealed_tiles == old(self).revealed_tiles,
                self.visible_tiles == old(self).visible_tiles,
            decreases room.y2 + 1 - y,
        {
            let ghost t1 = self.tiles@;
            let mut x: i32 = room.x1 + 1;
            while x <= room.x2
                invariant
                    room_on_grid(*room),
                    room.y1 + 1 <= y <= room.y2,
                    room.x1 + 1 <= x <= room.x2 + 1,
                    t1.len() == MAP_LENGTH,
                    self.tiles@ == carve_box(t1, room.x1 + 1, x - 1, y as int, y as int),
                    self.rooms == old(self).rooms,
                    self.revealed_tiles == old(self).revealed_tiles,
                    self.visible_tiles == old(self).visible_tiles,
                decreases room.x2 + 1 - x,
            {
                let idx = xy_idx(x, y);
                proof {
                    crate::lemma_index_bijection(x as int, y as int);
                }
                self.tiles.set(idx, TileType::Floor);
                proof {
                    assert(self.tiles@ =~= carve_box(t1, room.x1 + 1, x as int, y as int, y as int));
                }
                x = x + 1;
            }
            proof {
                assert(self.tiles@ =~= carve_box(t0, room.x1 + 1, room.x2 as int, room.y1 + 1, y as int));
            }
            y = y + 1;
        }
    }

    fn apply_horizontal_tunnel(&mut self, x1: i32, x2: i32, y: i32)
        requires
            old(self).tiles.len() == MAP_LENGTH,
        ensures
            final(self).tiles@ == carve_horizontal(old(self).tiles@, x1 as int, x2 as int, y as int),
            final(self).rooms == old(self).rooms,
            final(self).revealed_tiles == old(self).revealed_tiles,
            final(self).visible_tiles == old(self).visible_tiles,
    {
        let ghost t0 = self.tiles@;
        let lo: i64 = if x1 <= x2 { x1 as i64 } else { x2 as i64 };
        let hi: i64 = if x1 <= x2 { x2 as i64 } else { x1 as i64 };
        let mut x: i64 = lo;
        while x <= hi
            invariant
                lo == min_of(x1 as int, x2 as int),
                hi == max_of(x1 as int, x2 as int),
                lo <= x <= hi + 1,
                self.tiles@ == carve_row_span(t0, lo as int, x - 1, y as int),
                t0.len() == MAP_LENGTH,
                self.rooms == old(self).rooms,
                self.revealed_tiles == old(self).revealed_tiles,
                self.visible_tiles == old(self).visible_tiles,
            decreases hi + 1 - x,
        {
            let idx: i64 = (y as i64) * (WIDTH as i64) + x;
            if 0 <= idx && idx < MAP_LENGTH as i64 {
                self.tiles.set(idx as usize, TileType::Floor);
            }
            proof {
                assert(self.tiles@ =~= carve_row_span(t0, lo as int, x as int, y as int));
            }
            x = x + 1;
        }
    }

    fn apply_vertical_tunnel(&mut self, y1: i32, y2: i32, x: i32)
        requires
            old(self).tiles.len() == MAP_LENGTH,
        ensures
            final(self).tiles@ == carve_vertical(old(self).tiles@, y1 as int, y2 as int, x as int),
            final(self).rooms == old(self).rooms,
            final(self).revealed_tiles == old(self).revealed_tiles,
            final(self).visible_tiles == old(self).visible_tiles,
    {
        let ghost t0 = self.tiles@;
        let lo: i64 = if y1 <= y2 { y1 as i64 } else { y2 as i64 };
        let hi: i64 = if y1 <= y2 { y2 as i64 } else { y1 as i64 };
        let mut y: i64 = lo;
        while y <= hi
            invariant
                lo == min_of(y1 as int, y2 as int),
                hi == max_of(y1 as int, y2 as int),
                lo <= y <= hi + 1,
                i32::MIN <= lo,
                hi <= i32::MAX,
                self.tiles@ == carve_column_span(t0, lo as int, y - 1, x as int),
                t0.len() == MAP_LENGTH,
                self.rooms == old(self).rooms,
                self.revealed_tiles == old(self).revealed_tiles,
                self.visible_tiles == old(self).visible_tiles,
            decreases hi + 1 - y,
        {
            proof {
                assert(80 * (i32::MIN as int) <= y * WIDTH <= 80 * (i32::MAX as int)) by (nonlinear_arith)
                    requires
                        i32::MIN <= y <= i32::MAX,
                        WIDTH == 80,
                ;
            }
            let idx: i64 = y * (WIDTH as i64) + (x as i64);
            if 0 <= idx && idx < MAP_LENGTH as i64 {
                self.tiles.set(idx as usize, TileType::Floor);
            }
            proof {
                assert(self.tiles@ =~= carve_column_span(t0, lo as int, y as int, x as int));
            }
            y = y + 1;
        }
    }
}

} // verus!
