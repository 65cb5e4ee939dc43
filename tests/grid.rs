use roguelike::map::{GameMap, TileType};
use roguelike::player::{try_move_player, Direction, Position, Viewshed};
use roguelike::rect::Rect;
use roguelike::{xy_idx, HEIGHT, MAP_LENGTH, WIDTH};

fn walls() -> GameMap {
    GameMap {
        tiles: vec![TileType::Wall; MAP_LENGTH],
        rooms: Vec::new(),
        revealed_tiles: vec![false; MAP_LENGTH],
        visible_tiles: vec![false; MAP_LENGTH],
    }
}

#[test]
fn index_is_a_bijection() {
    let mut seen = vec![false; MAP_LENGTH];
    for y in 0..HEIGHT {
        for x in 0..WIDTH {
            let idx = xy_idx(x, y);
            assert!(idx < MAP_LENGTH);
            assert!(!seen[idx]);
            seen[idx] = true;
            assert_eq!(((idx % 80) as i32, (idx / 80) as i32), (x, y));
        }
    }
    assert!(seen.iter().all(|b| *b));
}

#[test]
fn index_values() {
    let map = walls();
    assert_eq!(xy_idx(0, 0), 0);
    assert_eq!(xy_idx(5, 4), 325);
    assert_eq!(map.xy_idx(79, 49), 3999);
    assert_eq!(map.dimensions(), (80, 50));
}

#[test]
fn opacity_follows_walls() {
    let mut map = walls();
    map.tiles[xy_idx(3, 3)] = TileType::Floor;
    assert!(!map.is_opaque(xy_idx(3, 3)));
    assert!(map.is_opaque(xy_idx(4, 3)));
}

#[test]
fn move_blocked_by_wall() {
    let mut map = walls();
    map.tiles[xy_idx(5, 5)] = TileType::Floor;
    let mut pos = Position { x: 5, y: 5 };
    let mut view = Some(Viewshed { range: 8, dirty: false });
    assert!(!try_move_player(&mut pos, &mut view, &map, 0, -1));
    assert_eq!(pos, Position { x: 5, y: 5 });
    assert_eq!(view, Some(Viewshed { range: 8, dirty: false }));
}

#[test]
fn move_onto_floor() {
    let mut map = walls();
    map.tiles[xy_idx(5, 5)] = TileType::Floor;
    map.tiles[xy_idx(6, 5)] = TileType::Floor;
    let mut pos = Position { x: 5, y: 5 };
    let mut view = Some(Viewshed { range: 8, dirty: false });
    assert!(try_move_player(&mut pos, &mut view, &map, 1, 0));
    assert_eq!(pos, Position { x: 6, y: 5 });
    assert_eq!(view, Some(Viewshed { range: 8, dirty: true }));
}

#[test]
fn move_without_viewshed() {
    let mut map = walls();
    map.tiles[xy_idx(6, 5)] = TileType::Floor;
    let mut pos = Position { x: 5, y: 5 };
    let mut view: Option<Viewshed> = None;
    assert!(try_move_player(&mut pos, &mut view, &map, 1, 0));
    assert_eq!(pos, Position { x: 6, y: 5 });
    assert_eq!(view, None);
}

#[test]
fn move_clamped_at_corner() {
    let mut map = walls();
    map.tiles[0] = TileType::Floor;
    let mut pos = Position { x: 0, y: 0 };
    let mut view = Some(Viewshed { range: 8, dirty: false });
    try_move_player(&mut pos, &mut view, &map, -1, 0);
    assert_eq!(pos.x, 0);
    assert_eq!(pos.y, 0);
}

#[test]
fn move_off_left_edge_is_blocked() {
    // the index one left of column 0 is the last cell of the row above: it is not read
    let mut map = walls();
    map.tiles[xy_idx(79, 4)] = TileType::Floor;
    map.tiles[xy_idx(0, 5)] = TileType::Floor;
    let mut pos = Position { x: 0, y: 5 };
    let mut view = Some(Viewshed { range: 8, dirty: false });
    assert!(!try_move_player(&mut pos, &mut view, &map, -1, 0));
    assert_eq!(pos, Position { x: 0, y: 5 });
    assert_eq!(view, Some(Viewshed { range: 8, dirty: false }));
}

#[test]
fn move_off_right_edge_is_blocked() {
    let mut map = walls();
    map.tiles[xy_idx(0, 6)] = TileType::Floor;
    map.tiles[xy_idx(79, 5)] = TileType::Floor;
    let mut pos = Position { x: 79, y: 5 };
    let mut view = None;
    assert!(!try_move_player(&mut pos, &mut view, &map, 1, 0));
    assert_eq!(pos, Position { x: 79, y: 5 });
}

#[test]
fn direction_deltas() {
    assert_eq!(Direction::Up.delta(), (0, -1));
    assert_eq!(Direction::Left.delta(), (-1, 0));
    assert_eq!(Direction::Down.delta(), (0, 1));
    assert_eq!(Direction::Right.delta(), (1, 0));
}

#[test]
fn rect_new_and_center() {
    let r = Rect::new(10, 20, 6, 7);
    assert_eq!(r, Rect { x1: 10, y1: 20, x2: 16, y2: 27 });
    assert_eq!(r.center(), (13, 23));
    let n = Rect { x1: -5, y1: -4, x2: 2, y2: 1 };
    assert_eq!(n.center(), (-2, -2));
}

#[test]
fn rect_intersection_counts_shared_edges() {
    let a = Rect::new(0, 0, 5, 5);
    assert!(a.intersect(&Rect::new(5, 5, 3, 3)));
    assert!(a.intersect(&Rect::new(2, 2, 1, 1)));
    assert!(!a.intersect(&Rect::new(6, 0, 3, 3)));
    assert!(!a.intersect(&Rect::new(0, 6, 3, 3)));
    assert!(Rect::new(5, 5, 3, 3).intersect(&a));
}
