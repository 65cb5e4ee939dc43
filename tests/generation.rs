use rltk::RandomNumberGenerator;
use roguelike::map::{GameMap, TileType, MAX_ROOMS, MAX_SIZE, MIN_SIZE};
use roguelike::rect::Rect;
use roguelike::{xy_idx, HEIGHT, MAP_LENGTH, WIDTH};
use std::collections::VecDeque;

fn generate(seed: u64) -> GameMap {
    let mut rng = RandomNumberGenerator::seeded(seed);
    GameMap::new_map_rooms_and_corridors(&mut rng)
}

fn floor_path_exists(map: &GameMap, from: (i32, i32), to: (i32, i32)) -> bool {
    let mut seen = vec![false; MAP_LENGTH];
    let mut queue = VecDeque::new();
    let start = xy_idx(from.0, from.1);
    if map.tiles[start] != TileType::Floor {
        return false;
    }
    seen[start] = true;
    queue.push_back(from);
    while let Some((x, y)) = queue.pop_front() {
        if (x, y) == to {
            return true;
        }
        for (dx, dy) in [(0, -1), (-1, 0), (0, 1), (1, 0)] {
            let (nx, ny) = (x + dx, y + dy);
            if nx < 0 || ny < 0 || nx >= WIDTH || ny >= HEIGHT {
                continue;
            }
            let i = xy_idx(nx, ny);
            if !seen[i] && map.tiles[i] == TileType::Floor {
                seen[i] = true;
                queue.push_back((nx, ny));
            }
        }
    }
    false
}

#[test]
fn same_seed_gives_same_level() {
    for seed in [0u64, 1, 7, 42, 12345] {
        let a = generate(seed);
        let b = generate(seed);
        assert!(a.tiles == b.tiles);
        assert_eq!(a.rooms, b.rooms);
        assert_eq!(a.tiles.len(), b.tiles.len());
        assert_eq!(a.revealed_tiles, b.revealed_tiles);
        assert_eq!(a.visible_tiles, b.visible_tiles);
    }
}

#[test]
fn arrays_cover_the_level() {
    let map = generate(3);
    assert_eq!(map.tiles.len(), 80 * 50);
    assert_eq!(map.revealed_tiles.len(), 80 * 50);
    assert_eq!(map.visible_tiles.len(), 80 * 50);
    assert!(map.revealed_tiles.iter().all(|b| !*b));
    assert!(map.visible_tiles.iter().all(|b| !*b));
}

#[test]
fn accepted_rooms_do_not_overlap() {
    for seed in 0u64..20 {
        let map = generate(seed);
        for (a, ra) in map.rooms.iter().enumerate() {
            for (b, rb) in map.rooms.iter().enumerate() {
                if a != b {
                    assert!(!ra.intersect(rb));
                }
            }
        }
    }
}

#[test]
fn room_interiors_are_floor() {
    for seed in 0u64..20 {
        let map = generate(seed);
        assert!(!map.rooms.is_empty());
        for r in map.rooms.iter() {
            for y in r.y1 + 1..=r.y2 {
                for x in r.x1 + 1..=r.x2 {
                    assert_eq!(map.tiles[xy_idx(x, y)], TileType::Floor);
                }
            }
        }
    }
}

#[test]
fn room_count_is_bounded() {
    for seed in 0u64..20 {
        assert!(generate(seed).rooms.len() <= 30);
        assert!(generate(seed).rooms.len() <= MAX_ROOMS);
    }
}

#[test]
fn each_room_reaches_its_predecessor() {
    for seed in 0u64..20 {
        let map = generate(seed);
        for k in 1..map.rooms.len() {
            let a = map.rooms[k - 1].center();
            let b = map.rooms[k].center();
            assert!(floor_path_exists(&map, a, b));
        }
    }
}

#[test]
fn drawn_rooms_vary_and_stay_inside() {
    let mut widths = Vec::new();
    let mut lefts = Vec::new();
    for seed in 0u64..20 {
        let map = generate(seed);
        for r in map.rooms.iter() {
            let w = r.x2 - r.x1;
            let h = r.y2 - r.y1;
            assert!(w >= MIN_SIZE && w <= MAX_SIZE);
            assert!(h >= MIN_SIZE && h <= MAX_SIZE);
            assert!(r.x1 >= 1 && r.y1 >= 1);
            assert!(r.x2 <= WIDTH - 2 && r.y2 <= HEIGHT - 2);
            widths.push(w);
            lefts.push(r.x1);
        }
    }
    assert!(widths.iter().any(|w| *w != MIN_SIZE));
    assert!(lefts.iter().any(|x| *x > 1));
}

#[test]
fn border_stays_wall() {
    for seed in 0u64..10 {
        let map = generate(seed);
        for x in 0..WIDTH {
            assert_eq!(map.tiles[xy_idx(x, 0)], TileType::Wall);
            assert_eq!(map.tiles[xy_idx(x, HEIGHT - 1)], TileType::Wall);
        }
        for y in 0..HEIGHT {
            assert_eq!(map.tiles[xy_idx(0, y)], TileType::Wall);
            assert_eq!(map.tiles[xy_idx(WIDTH - 1, y)], TileType::Wall);
        }
    }
}

fn two_rooms() -> Vec<Rect> {
    vec![Rect::new(1, 1, 6, 6), Rect::new(20, 10, 6, 6)]
}

fn count_floor(map: &GameMap) -> usize {
    map.tiles.iter().filter(|t| **t == TileType::Floor).count()
}

#[test]
fn corridor_horizontal_first() {
    let map = GameMap::rooms_and_corridors_from(&two_rooms(), &vec![false, true]);
    assert_eq!(map.rooms, two_rooms());
    assert_eq!(map.rooms[0].center(), (4, 4));
    assert_eq!(map.rooms[1].center(), (23, 13));
    assert_eq!(map.tiles[xy_idx(15, 4)], TileType::Floor);
    assert_eq!(map.tiles[xy_idx(23, 8)], TileType::Floor);
    assert_eq!(map.tiles[xy_idx(15, 13)], TileType::Wall);
    assert_eq!(map.tiles[xy_idx(4, 10)], TileType::Wall);
    // two interiors of 36 tiles, row 4 from x=8 to 23, column 23 from y=5 to 10
    assert_eq!(count_floor(&map), 36 + 36 + 16 + 6);
}

#[test]
fn corridor_vertical_first() {
    let map = GameMap::rooms_and_corridors_from(&two_rooms(), &vec![true, false]);
    assert_eq!(map.tiles[xy_idx(15, 13)], TileType::Floor);
    assert_eq!(map.tiles[xy_idx(4, 10)], TileType::Floor);
    assert_eq!(map.tiles[xy_idx(15, 4)], TileType::Wall);
    assert_eq!(map.tiles[xy_idx(23, 8)], TileType::Wall);
    // row 13 from x=4 to 20, column 4 from y=8 to 12
    assert_eq!(count_floor(&map), 36 + 36 + 17 + 5);
}

#[test]
fn overlapping_candidate_is_skipped() {
    let cands = vec![
        Rect::new(1, 1, 6, 6),
        Rect::new(7, 7, 6, 6),
        Rect::new(20, 10, 6, 6),
    ];
    let map = GameMap::rooms_and_corridors_from(&cands, &vec![true, true, true]);
    assert_eq!(map.rooms, vec![cands[0], cands[2]]);
    assert_eq!(map.tiles[xy_idx(10, 10)], TileType::Wall);
}

#[test]
fn no_candidates_leaves_walls() {
    let map = GameMap::rooms_and_corridors_from(&Vec::new(), &Vec::new());
    assert!(map.rooms.is_empty());
    assert_eq!(map.tiles.len(), MAP_LENGTH);
    assert!(map.tiles.iter().all(|t| *t == TileType::Wall));
}

#[test]
fn single_room_has_no_corridor() {
    let map = GameMap::rooms_and_corridors_from(&vec![Rect::new(30, 20, 10, 8)], &vec![true]);
    assert_eq!(map.rooms.len(), 1);
    assert_eq!(count_floor(&map), 10 * 8);
    assert_eq!(map.tiles[xy_idx(30, 20)], TileType::Wall);
    assert_eq!(map.tiles[xy_idx(31, 21)], TileType::Floor);
    assert_eq!(map.tiles[xy_idx(40, 28)], TileType::Floor);
}

#[test]
fn same_candidates_give_same_level() {
    let cands = vec![Rect::new(2, 3, 8, 7), Rect::new(40, 20, 9, 6), Rect::new(60, 5, 6, 10)];
    let shapes = vec![true, false, true];
    let a = GameMap::rooms_and_corridors_from(&cands, &shapes);
    let b = GameMap::rooms_and_corridors_from(&cands, &shapes);
    assert!(a.tiles == b.tiles);
    assert_eq!(a.rooms, b.rooms);
    assert_eq!(a.rooms, cands);
}

#[test]
fn room_reaching_the_last_column_and_row() {
    let map = GameMap::rooms_and_corridors_from(&vec![Rect::new(70, 40, 9, 9)], &vec![false]);
    assert_eq!(map.rooms.len(), 1);
    assert_eq!(count_floor(&map), 9 * 9);
    assert_eq!(map.tiles[xy_idx(79, 49)], TileType::Floor);
    assert_eq!(map.tiles[xy_idx(71, 41)], TileType::Floor);
    assert_eq!(map.tiles[xy_idx(70, 41)], TileType::Wall);
}
