use vstd::prelude::*;

use crate::map::TileType;
use crate::rect::Rect;
use crate::{idx_of, in_grid, lemma_index_bijection, HEIGHT, MAP_LENGTH, WIDTH};

verus! {

/// A level with every tile a wall.
pub open spec fn all_walls() -> Seq<TileType> {
    Seq::new(MAP_LENGTH as nat, |i: int| TileType::Wall)
}

/// Smaller of two integers.
pub open spec fn min_of(a: int, b: int) -> int {
    if a <= b { a } else { b }
}

/// Larger of two integers.
pub open spec fn max_of(a: int, b: int) -> int {
    if a <= b { b } else { a }
}

/// Index `i` lies in the box of columns `xlo..=xhi` and rows `ylo..=yhi`.
pub open spec fn in_box(i: int, xlo: int, xhi: int, ylo: int, yhi: int) -> bool {
    xlo <= i % (WIDTH as int) <= xhi && ylo <= i / (WIDTH as int) <= yhi
}

/// `t` with every tile of the box turned to floor.
pub open spec fn carve_box(t: Seq<TileType>, xlo: int, xhi: int, ylo: int, yhi: int) -> Seq<TileType> {
    Seq::new(t.len(), |i: int| if in_box(i, xlo, xhi, ylo, yhi) { TileType::Floor } else { t[i] })
}

/// `t` with the interior of the room, `x1+1..=x2` by `y1+1..=y2`, turned to floor.
pub open spec fn carve_room(t: Seq<TileType>, r: Rect) -> Seq<TileType> {
    carve_box(t, r.x1 + 1, r.x2 as int, r.y1 + 1, r.y2 as int)
}

/// Index `i` is `y * WIDTH + x` for some `x` in `lo..=hi`.
pub open spec fn on_row_span(i: int, lo: int, hi: int, y: int) -> bool {
    lo <= i - idx_of(0, y) <= hi
}

/// Index `i` is `y * WIDTH + x` for some `y` in `lo..=hi`.
pub open spec fn on_column_span(i: int, lo: int, hi: int, x: int) -> bool {
    (i - x) % (WIDTH as int) == 0 && lo <= (i - x) / (WIDTH as int) <= hi
}

/// `t` with the indices `y * WIDTH + x`, for `x` from `lo` to `hi`, turned to floor.
pub open spec fn carve_row_span(t: Seq<TileType>, lo: int, hi: int, y: int) -> Seq<TileType> {
    Seq::new(t.len(), |i: int| if on_row_span(i, lo, hi, y) { TileType::Floor } else { t[i] })
}

/// `t` with the indices `y * WIDTH + x`, for `y` from `lo` to `hi`, turned to floor.
pub open spec fn carve_column_span(t: Seq<TileType>, lo: int, hi: int, x: int) -> Seq<TileType> {
    Seq::new(t.len(), |i: int| if on_column_span(i, lo, hi, x) { TileType::Floor } else { t[i] })
}

/// A horizontal corridor on row `y` between columns `x1` and `x2`, in either order.
/// Indices that fall outside the level are dropped.
pub open spec fn carve_horizontal(t: Seq<TileType>, x1: int, x2: int, y: int) -> Seq<TileType> {
    carve_row_span(t, min_of(x1, x2), max_of(x1, x2), y)
}

/// A vertical corridor on column `x` between rows `y1` and `y2`, in either order.
/// Indices that fall outside the level are dropped.
pub open spec fn carve_vertical(t: Seq<TileType>, y1: int, y2: int, x: int) -> Seq<TileType> {
    carve_column_span(t, min_of(y1, y2), max_of(y1, y2), x)
}

/// The dogleg corridor from the centre of `prev` to the centre of `new`: along the row of
/// `prev`'s centre and then down the column of `new`'s centre when `horizontal_first`, else
/// along the row of `new`'s centre and down the column of `prev`'s centre.
pub open spec fn carve_corridor(t: Seq<TileType>, new: Rect, prev: Rect, horizontal_first: bool) -> Seq<TileType> {
    if horizontal_first {
        carve_vertical(
            carve_horizontal(t, prev.center_x(), new.center_x(), prev.center_y()),
            prev.center_y(),
            new.center_y(),
            new.center_x(),
        )
    } else {
        carve_vertical(
            carve_horizontal(t, prev.center_x(), new.center_x(), new.center_y()),
            prev.center_y(),
            new.center_y(),
            prev.center_x(),
        )
    }
}

/// The candidate overlaps none of the accepted rooms.
pub open spec fn fits(rooms: Seq<Rect>, r: Rect) -> bool {
    forall|k: int| 0 <= k < rooms.len() ==> !r.spec_intersect(#[trigger] rooms[k])
}

/// Tiles after offering candidate `r`: unchanged when it overlaps an accepted room; else
/// its interior carved and, unless it is the first room, a corridor to the last room.
pub open spec fn place_tiles(t: Seq<TileType>, rooms: Seq<Rect>, r: Rect, horizontal_first: bool) -> Seq<TileType> {
    if !fits(rooms, r) {
        t
    } else if rooms.len() == 0 {
        carve_room(t, r)
    } else {
        carve_corridor(carve_room(t, r), r, rooms.last(), horizontal_first)
    }
}

/// Rooms after offering candidate `r`: appended when it overlaps no accepted room.
pub open spec fn place_rooms(rooms: Seq<Rect>, r: Rect) -> Seq<Rect> {
    if fits(rooms, r) { rooms.push(r) } else { rooms }
}

/// Tiles and rooms after offering each candidate, with its corridor shape, in turn,
/// starting from tiles `t` and accepted rooms `rooms`.
pub open spec fn generated_from(t: Seq<TileType>, rooms: Seq<Rect>, c: Seq<(Rect, bool)>) -> (
    Seq<TileType>,
    Seq<Rect>,
)
    decreases c.len(),
{
    if c.len() == 0 {
        (t, rooms)
    } else {
        let (t1, rooms1) = generated_from(t, rooms, c.drop_last());
        (place_tiles(t1, rooms1, c.last().0, c.last().1), place_rooms(rooms1, c.last().0))
    }
}

/// Tiles and rooms after offering each candidate in turn, starting from a level of walls
/// and no rooms.
pub open spec fn generated(c: Seq<(Rect, bool)>) -> (Seq<TileType>, Seq<Rect>) {
    generated_from(all_walls(), Seq::empty(), c)
}

/// The room, border included, lies on the grid.
pub open spec fn room_on_grid(r: Rect) -> bool {
    0 <= r.x1 < r.x2 < WIDTH && 0 <= r.y1 < r.y2 < HEIGHT
}

/// No two distinct accepted rooms overlap.
pub open spec fn pairwise_disjoint(rooms: Seq<Rect>) -> bool {
    forall|a: int, b: int|
        0 <= a < rooms.len() && 0 <= b < rooms.len() && a != b ==> !(#[trigger] rooms[a]).spec_intersect(
            #[trigger] rooms[b],
        )
}

/// Every interior cell of every room is floor.
pub open spec fn rooms_carved(t: Seq<TileType>, rooms: Seq<Rect>) -> bool {
    forall|k: int, x: int, y: int|
        #![trigger rooms[k], t[idx_of(x, y)]]
        0 <= k < rooms.len() && rooms[k].x1 < x <= rooms[k].x2 && rooms[k].y1 < y <= rooms[k].y2
            ==> t[idx_of(x, y)] == TileType::Floor
}

/// Every cell of row `y` between columns `x1` and `x2` is floor.
pub open spec fn row_is_floor(t: Seq<TileType>, x1: int, x2: int, y: int) -> bool {
    forall|x: int| min_of(x1, x2) <= x <= max_of(x1, x2) ==> #[trigger] t[idx_of(x, y)] == TileType::Floor
}

/// Every cell of column `x` between rows `y1` and `y2` is floor.
pub open spec fn column_is_floor(t: Seq<TileType>, y1: int, y2: int, x: int) -> bool {
    forall|y: int| min_of(y1, y2) <= y <= max_of(y1, y2) ==> #[trigger] t[idx_of(x, y)] == TileType::Floor
}

/// An L-shaped walk of floor cells joins the centres of the two rooms.
pub open spec fn dogleg_floor(t: Seq<TileType>, prev: Rect, new: Rect) -> bool {
    (row_is_floor(t, prev.center_x(), new.center_x(), prev.center_y())
        && column_is_floor(t, prev.center_y(), new.center_y(), new.center_x()))
    || (row_is_floor(t, prev.center_x(), new.center_x(), new.center_y())
        && column_is_floor(t, prev.center_y(), new.center_y(), prev.center_x()))
}

/// Each room after the first is joined to the one accepted before it.
pub open spec fn rooms_chained(t: Seq<TileType>, rooms: Seq<Rect>) -> bool {
    forall|k: int| 1 <= k < rooms.len() ==> dogleg_floor(t, rooms[k - 1], #[trigger] rooms[k])
}

/// What holds of every generated level.
pub open spec fn level_sound(t: Seq<TileType>, rooms: Seq<Rect>) -> bool {
    &&& t.len() == MAP_LENGTH
    &&& forall|k: int| 0 <= k < rooms.len() ==> room_on_grid(#[trigger] rooms[k])
    &&& pairwise_disjoint(rooms)
    &&& rooms_carved(t, rooms)
    &&& rooms_chained(t, rooms)
}

/// No floor tile of `t1` is a wall in `t2`.
pub open spec fn floor_kept(t1: Seq<TileType>, t2: Seq<TileType>) -> bool {
    t1.len() == t2.len() && forall|i: int|
        0 <= i < t1.len() && t1[i] == TileType::Floor ==> #[trigger] t2[i] == TileType::Floor
}

} // verus!
verus! {

/// The centre of an on-grid room is on the grid.
proof fn lemma_center_in_grid(r: Rect)
    requires
        room_on_grid(r),
    ensures
        in_grid(r.center_x(), r.center_y()),
{
}

proof fn lemma_floor_kept_trans(t1: Seq<TileType>, t2: Seq<TileType>, t3: Seq<TileType>)
    requires
        floor_kept(t1, t2),
        floor_kept(t2, t3),
    ensures
        floor_kept(t1, t3),
{
}

proof fn lemma_row_kept(t1: Seq<TileType>, t2: Seq<TileType>, x1: int, x2: int, y: int)
    requires
        floor_kept(t1, t2),
        t1.len() == MAP_LENGTH,
        in_grid(x1, y),
        in_grid(x2, y),
        row_is_floor(t1, x1, x2, y),
    ensures
        row_is_floor(t2, x1, x2, y),
{
    assert forall|x: int| min_of(x1, x2) <= x <= max_of(x1, x2) implies #[trigger] t2[idx_of(x, y)]
        == TileType::Floor by {
        lemma_index_bijection(x, y);
    }
}

proof fn lemma_column_kept(t1: Seq<TileType>, t2: Seq<TileType>, y1: int, y2: int, x: int)
    requires
        floor_kept(t1, t2),
        t1.len() == MAP_LENGTH,
        in_grid(x, y1),
        in_grid(x, y2),
        column_is_floor(t1, y1, y2, x),
    ensures
        column_is_floor(t2, y1, y2, x),
{
    assert forall|y: int| min_of(y1, y2) <= y <= max_of(y1, y2) implies #[trigger] t2[idx_of(x, y)]
        == TileType::Floor by {
        lemma_index_bijection(x, y);
    }
}

proof fn lemma_dogleg_kept(t1: Seq<TileType>, t2: Seq<TileType>, prev: Rect, new: Rect)
    requires
        floor_kept(t1, t2),
        t1.len() == MAP_LENGTH,
        room_on_grid(prev),
        room_on_grid(new),
        dogleg_floor(t1, prev, new),
    ensures
        dogleg_floor(t2, prev, new),
{
    lemma_center_in_grid(prev);
    lemma_center_in_grid(new);
    if row_is_floor(t1, prev.center_x(), new.center_x(), prev.center_y()) && column_is_floor(
        t1,
        prev.center_y(),
        new.center_y(),
        new.center_x(),
    ) {
        lemma_row_kept(t1, t2, prev.center_x(), new.center_x(), prev.center_y());
        lemma_column_kept(t1, t2, prev.center_y(), new.center_y(), new.center_x());
    } else {
        lemma_row_kept(t1, t2, prev.center_x(), new.center_x(), new.center_y());
        lemma_column_kept(t1, t2, prev.center_y(), new.center_y(), prev.center_x());
    }
}

/// Turning tiles to floor keeps the rooms carved and chained.
proof fn lemma_sound_kept(t1: Seq<TileType>, t2: Seq<TileType>, rooms: Seq<Rect>)
    requires
        floor_kept(t1, t2),
        level_sound(t1, rooms),
    ensures
        level_sound(t2, rooms),
{
    assert forall|k: int, x: int, y: int|
        #![trigger rooms[k], t2[idx_of(x, y)]]
        0 <= k < rooms.len() && rooms[k].x1 < x <= rooms[k].x2 && rooms[k].y1 < y <= rooms[k].y2
            implies t2[idx_of(x, y)] == TileType::Floor by {
        assert(room_on_grid(rooms[k]));
        lemma_index_bijection(x, y);
        assert(t1[idx_of(x, y)] == TileType::Floor);
    }
    assert forall|k: int| 1 <= k < rooms.len() implies dogleg_floor(t2, rooms[k - 1], #[trigger] rooms[k]) by {
        assert(room_on_grid(rooms[k - 1]));
        assert(room_on_grid(rooms[k]));
        lemma_dogleg_kept(t1, t2, rooms[k - 1], rooms[k]);
    }
}

/// Carving a room turns its whole interior to floor and keeps every floor tile.
proof fn lemma_carve_room(t: Seq<TileType>, r: Rect)
    requires
        t.len() == MAP_LENGTH,
        room_on_grid(r),
    ensures
        floor_kept(t, carve_room(t, r)),
        forall|x: int, y: int|
            r.x1 < x <= r.x2 && r.y1 < y <= r.y2 ==> #[trigger] carve_room(t, r)[idx_of(x, y)]
                == TileType::Floor,
{
    assert forall|x: int, y: int| r.x1 < x <= r.x2 && r.y1 < y <= r.y2 implies #[trigger] carve_room(
        t,
        r,
    )[idx_of(x, y)] == TileType::Floor by {
        lemma_index_bijection(x, y);
    }
}

/// A horizontal corridor between on-grid cells is all floor and keeps every floor tile.
proof fn lemma_carve_horizontal(t: Seq<TileType>, x1: int, x2: int, y: int)
    requires
        t.len() == MAP_LENGTH,
        in_grid(x1, y),
        in_grid(x2, y),
    ensures
        floor_kept(t, carve_horizontal(t, x1, x2, y)),
        row_is_floor(carve_horizontal(t, x1, x2, y), x1, x2, y),
{
    assert forall|x: int| min_of(x1, x2) <= x <= max_of(x1, x2) implies #[trigger] carve_horizontal(
        t,
        x1,
        x2,
        y,
    )[idx_of(x, y)] == TileType::Floor by {
        lemma_index_bijection(x, y);
    }
}

/// A vertical corridor between on-grid cells is all floor and keeps every floor tile.
proof fn lemma_carve_vertical(t: Seq<TileType>, y1: int, y2: int, x: int)
    requires
        t.len() == MAP_LENGTH,
        in_grid(x, y1),
        in_grid(x, y2),
    ensures
        floor_kept(t, carve_vertical(t, y1, y2, x)),
        column_is_floor(carve_vertical(t, y1, y2, x), y1, y2, x),
{
    assert forall|y: int| min_of(y1, y2) <= y <= max_of(y1, y2) implies #[trigger] carve_vertical(
        t,
        y1,
        y2,
        x,
    )[idx_of(x, y)] == TileType::Floor by {
        lemma_index_bijection(x, y);
        assert(idx_of(x, y) - x == y * WIDTH);
    }
}

/// The corridor joins the two centres by floor and keeps every floor tile.
pub proof fn lemma_carve_corridor(t: Seq<TileType>, new: Rect, prev: Rect, horizontal_first: bool)
    requires
        t.len() == MAP_LENGTH,
        in_grid(new.center_x(), new.center_y()),
        in_grid(prev.center_x(), prev.center_y()),
    ensures
        floor_kept(t, carve_corridor(t, new, prev, horizontal_first)),
        dogleg_floor(carve_corridor(t, new, prev, horizontal_first), prev, new),
{
    let (px, py, nx, ny) = (prev.center_x(), prev.center_y(), new.center_x(), new.center_y());
    if horizontal_first {
        let ta = carve_horizontal(t, px, nx, py);
        lemma_carve_horizontal(t, px, nx, py);
        lemma_carve_vertical(ta, py, ny, nx);
        lemma_row_kept(ta, carve_vertical(ta, py, ny, nx), px, nx, py);
        lemma_floor_kept_trans(t, ta, carve_vertical(ta, py, ny, nx));
    } else {
        let ta = carve_horizontal(t, px, nx, ny);
        lemma_carve_horizontal(t, px, nx, ny);
        lemma_carve_vertical(ta, py, ny, px);
        lemma_row_kept(ta, carve_vertical(ta, py, ny, px), px, nx, ny);
        lemma_floor_kept_trans(t, ta, carve_vertical(ta, py, ny, px));
    }
}

/// Offering one on-grid candidate to a sound level leaves it sound.
proof fn lemma_place_sound(t: Seq<TileType>, rooms: Seq<Rect>, r: Rect, horizontal_first: bool)
    requires
        level_sound(t, rooms),
        room_on_grid(r),
    ensures
        level_sound(place_tiles(t, rooms, r, horizontal_first), place_rooms(rooms, r)),
{
    if fits(rooms, r) {
        let t1 = carve_room(t, r);
        lemma_carve_room(t, r);
        let t2 = place_tiles(t, rooms, r, horizontal_first);
        if rooms.len() == 0 {
            assert(t2 == t1);
        } else {
            assert(room_on_grid(rooms[rooms.len() - 1]));
            lemma_center_in_grid(r);
            lemma_center_in_grid(rooms.last());
            lemma_carve_corridor(t1, r, rooms.last(), horizontal_first);
            lemma_floor_kept_trans(t, t1, t2);
        }
        lemma_sound_kept(t, t2, rooms);
        let rs = rooms.push(r);
        assert forall|k: int, x: int, y: int|
            #![trigger rs[k], t2[idx_of(x, y)]]
            0 <= k < rs.len() && rs[k].x1 < x <= rs[k].x2 && rs[k].y1 < y <= rs[k].y2
                implies t2[idx_of(x, y)] == TileType::Floor by {
            if k < rooms.len() {
                assert(rs[k] == rooms[k]);
            } else {
                lemma_index_bijection(x, y);
                assert(t1[idx_of(x, y)] == TileType::Floor);
            }
        }
        assert forall|k: int| 1 <= k < rs.len() implies dogleg_floor(t2, rs[k - 1], #[trigger] rs[k]) by {
            if k < rooms.len() {
                assert(rs[k] == rooms[k]);
                assert(rs[k - 1] == rooms[k - 1]);
            }
        }
        assert forall|a: int, b: int|
            0 <= a < rs.len() && 0 <= b < rs.len() && a != b implies !(#[trigger] rs[a]).spec_intersect(
                #[trigger] rs[b],
            ) by {
            if a == rooms.len() {
                assert(!r.spec_intersect(rooms[b]));
            } else if b == rooms.len() {
                assert(!r.spec_intersect(rooms[a]));
            }
        }
    }
}

/// Offering on-grid candidates to a sound level keeps it sound: its rooms lie on the
/// grid, no two overlap, each room's interior is floor, each room after the first is joined
/// to its predecessor by floor; no floor tile turns back to wall, and at most one room is
/// added per candidate.
pub proof fn lemma_generated_sound(t: Seq<TileType>, rooms: Seq<Rect>, c: Seq<(Rect, bool)>)
    requires
        level_sound(t, rooms),
        forall|k: int| 0 <= k < c.len() ==> room_on_grid(#[trigger] c[k].0),
    ensures
        level_sound(generated_from(t, rooms, c).0, generated_from(t, rooms, c).1),
        floor_kept(t, generated_from(t, rooms, c).0),
        generated_from(t, rooms, c).1.len() <= rooms.len() + c.len(),
    decreases c.len(),
{
    if c.len() > 0 {
        let p = c.drop_last();
        assert forall|k: int| 0 <= k < p.len() implies room_on_grid(#[trigger] p[k].0) by {
            assert(p[k] == c[k]);
        }
        lemma_generated_sound(t, rooms, p);
        let (t1, rooms1) = generated_from(t, rooms, p);
        assert(room_on_grid(c[c.len() - 1].0));
        lemma_place_sound(t1, rooms1, c.last().0, c.last().1);
    }
    lemma_generated_keeps_floor(t, rooms, c);
}

/// Offering candidates turns no floor tile to wall.
pub proof fn lemma_generated_keeps_floor(t: Seq<TileType>, rooms: Seq<Rect>, c: Seq<(Rect, bool)>)
    ensures
        floor_kept(t, generated_from(t, rooms, c).0),
    decreases c.len(),
{
    if c.len() == 0 {
    } else {
        let p = c.drop_last();
        lemma_generated_keeps_floor(t, rooms, p);
        let (t1, rooms1) = generated_from(t, rooms, p);
        lemma_place_keeps_floor(t1, rooms1, c.last().0, c.last().1);
        lemma_floor_kept_trans(t, t1, generated_from(t, rooms, c).0);
    }
}

/// The level of walls with no rooms is sound.
pub proof fn lemma_walls_sound()
    ensures
        level_sound(all_walls(), Seq::empty()),
{
}

/// Offering a candidate turns no floor tile to wall.
pub proof fn lemma_place_keeps_floor(t: Seq<TileType>, rooms: Seq<Rect>, r: Rect, horizontal_first: bool)
    ensures
        floor_kept(t, place_tiles(t, rooms, r, horizontal_first)),
{
    let t1 = carve_room(t, r);
    assert(floor_kept(t, t1));
    if fits(rooms, r) && rooms.len() > 0 {
        let prev = rooms.last();
        let (px, py, nx, ny) = (prev.center_x(), prev.center_y(), r.center_x(), r.center_y());
        if horizontal_first {
            let ta = carve_horizontal(t1, px, nx, py);
            assert(floor_kept(t1, ta));
            assert(floor_kept(ta, carve_vertical(ta, py, ny, nx)));
            lemma_floor_kept_trans(t1, ta, carve_vertical(ta, py, ny, nx));
        } else {
            let ta = carve_horizontal(t1, px, nx, ny);
            assert(floor_kept(t1, ta));
            assert(floor_kept(ta, carve_vertical(ta, py, ny, px)));
            lemma_floor_kept_trans(t1, ta, carve_vertical(ta, py, ny, px));
        }
        lemma_floor_kept_trans(t, t1, place_tiles(t, rooms, r, horizontal_first));
    }
}

} // verus!
verus! {

/// Generation is determined by its candidates: two levels generated from the same
/// candidates have the same tiles and the same rooms.
pub proof fn lemma_generation_deterministic(
    c1: Seq<(Rect, bool)>,
    c2: Seq<(Rect, bool)>,
    t1: Seq<TileType>,
    rooms1: Seq<Rect>,
    t2: Seq<TileType>,
    rooms2: Seq<Rect>,
)
    requires
        c1 == c2,
        generated(c1) == (t1, rooms1),
        generated(c2) == (t2, rooms2),
    ensures
        t1 == t2,
        rooms1 == rooms2,
{
}

} // verus!
verus! {

/// Cells `a` and `b` share a side.
pub open spec fn adjacent(a: (int, int), b: (int, int)) -> bool {
    (a.0 == b.0 && (a.1 - b.1 == 1 || b.1 - a.1 == 1)) || (a.1 == b.1 && (a.0 - b.0 == 1 || b.0
        - a.0 == 1))
}

/// `p` is a walk of on-grid floor cells, each sharing a side with the next.
pub open spec fn floor_walk(t: Seq<TileType>, p: Seq<(int, int)>) -> bool {
    &&& p.len() > 0
    &&& forall|k: int|
        0 <= k < p.len() ==> in_grid((#[trigger] p[k]).0, p[k].1) && t[idx_of(p[k].0, p[k].1)]
            == TileType::Floor
    &&& forall|k: int| 0 <= k < p.len() - 1 ==> adjacent(#[trigger] p[k], p[k + 1])
}

/// Some walk of floor cells leads from `a` to `b`.
pub open spec fn floor_connected(t: Seq<TileType>, a: (int, int), b: (int, int)) -> bool {
    exists|p: Seq<(int, int)>| floor_walk(t, p) && p[0] == a && p.last() == b
}

/// `a` moved `k` steps towards `b`.
pub open spec fn toward(a: int, b: int, k: int) -> int {
    if a <= b { a + k } else { a - k }
}

/// Distance between `a` and `b`.
pub open spec fn dist(a: int, b: int) -> int {
    if a <= b { b - a } else { a - b }
}

/// From `(x1, y1)` along row `y1` to column `x2`, then along column `x2` to row `y2`.
pub open spec fn row_then_column(x1: int, y1: int, x2: int, y2: int) -> Seq<(int, int)> {
    Seq::new(
        (dist(x1, x2) + dist(y1, y2) + 1) as nat,
        |k: int|
            if k <= dist(x1, x2) {
                (toward(x1, x2, k), y1)
            } else {
                (x2, toward(y1, y2, k - dist(x1, x2)))
            },
    )
}

/// From `(x1, y1)` along column `x1` to row `y2`, then along row `y2` to column `x2`.
pub open spec fn column_then_row(x1: int, y1: int, x2: int, y2: int) -> Seq<(int, int)> {
    Seq::new(
        (dist(x1, x2) + dist(y1, y2) + 1) as nat,
        |k: int|
            if k <= dist(y1, y2) {
                (x1, toward(y1, y2, k))
            } else {
                (toward(x1, x2, k - dist(y1, y2)), y2)
            },
    )
}

/// Where the dogleg between two on-grid centres is floor, a walk of floor cells joins them.
pub proof fn lemma_dogleg_walk(t: Seq<TileType>, prev: Rect, new: Rect)
    requires
        t.len() == MAP_LENGTH,
        in_grid(prev.center_x(), prev.center_y()),
        in_grid(new.center_x(), new.center_y()),
        dogleg_floor(t, prev, new),
    ensures
        floor_connected(t, (prev.center_x(), prev.center_y()), (new.center_x(), new.center_y())),
{
    let (px, py, nx, ny) = (prev.center_x(), prev.center_y(), new.center_x(), new.center_y());
    if row_is_floor(t, px, nx, py) && column_is_floor(t, py, ny, nx) {
        let p = row_then_column(px, py, nx, ny);
        assert forall|k: int| 0 <= k < p.len() implies in_grid((#[trigger] p[k]).0, p[k].1)
            && t[idx_of(p[k].0, p[k].1)] == TileType::Floor by {
            if k <= dist(px, nx) {
                assert(t[idx_of(toward(px, nx, k), py)] == TileType::Floor);
            } else {
                assert(t[idx_of(nx, toward(py, ny, k - dist(px, nx)))] == TileType::Floor);
            }
        }
        assert(p[p.len() - 1] == (nx, ny));
        assert(p[0] == (px, py));
        assert(floor_walk(t, p) && p[0] == (px, py) && p.last() == (nx, ny));
    } else {
        let p = column_then_row(px, py, nx, ny);
        assert forall|k: int| 0 <= k < p.len() implies in_grid((#[trigger] p[k]).0, p[k].1)
            && t[idx_of(p[k].0, p[k].1)] == TileType::Floor by {
            if k <= dist(py, ny) {
                assert(t[idx_of(px, toward(py, ny, k))] == TileType::Floor);
            } else {
                assert(t[idx_of(toward(px, nx, k - dist(py, ny)), ny)] == TileType::Floor);
            }
        }
        assert(p[p.len() - 1] == (nx, ny));
        assert(p[0] == (px, py));
        assert(floor_walk(t, p) && p[0] == (px, py) && p.last() == (nx, ny));
    }
}

/// In a sound level a walk of floor cells leads from the centre of each room after the
/// first to the centre of the room accepted before it.
pub proof fn lemma_rooms_joined(t: Seq<TileType>, rooms: Seq<Rect>)
    requires
        level_sound(t, rooms),
    ensures
        forall|k: int|
            1 <= k < rooms.len() ==> floor_connected(
                t,
                (rooms[k - 1].center_x(), rooms[k - 1].center_y()),
                (#[trigger] rooms[k].center_x(), rooms[k].center_y()),
            ),
{
    assert forall|k: int| 1 <= k < rooms.len() implies floor_connected(
        t,
        (rooms[k - 1].center_x(), rooms[k - 1].center_y()),
        (#[trigger] rooms[k].center_x(), rooms[k].center_y()),
    ) by {
        assert(room_on_grid(rooms[k - 1]));
        assert(room_on_grid(rooms[k]));
        assert(dogleg_floor(t, rooms[k - 1], rooms[k]));
        lemma_center_in_grid(rooms[k - 1]);
        lemma_center_in_grid(rooms[k]);
        lemma_dogleg_walk(t, rooms[k - 1], rooms[k]);
    }
}

} // verus!
