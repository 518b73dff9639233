use dungeon_crawl::fov::fov_map_from_map;
use dungeon_crawl::map::{GameMap, Tile};
use dungeon_crawl::pos::Pos;

fn open_room(w: u16, h: u16) -> GameMap {
    let mut m = GameMap::new(w, h);
    for y in 0..h {
        for x in 0..w {
            m.set_tile(Pos::new(x as i32, y as i32), Tile::Ground);
        }
    }
    m
}

#[test]
fn observer_tile_always_visible() {
    let m = open_room(9, 9);
    let mut f = fov_map_from_map(&m);
    f.compute_fov(4, 4, 3);
    assert!(f.is_in_fov(4, 4));
    // even with radius zero
    f.compute_fov(4, 4, 0);
    assert!(f.is_in_fov(4, 4));
}

#[test]
fn wall_blocks_tile_behind_it() {
    let mut m = open_room(9, 3);
    m.set_tile(Pos::new(4, 1), Tile::Wall);
    let mut f = fov_map_from_map(&m);
    f.compute_fov(1, 1, 8);
    // the wall itself is lit, the cells directly behind it are not
    assert!(f.is_in_fov(4, 1));
    assert!(!f.is_in_fov(5, 1));
    assert!(!f.is_in_fov(7, 1));
    // unobstructed cells before the wall stay visible
    assert!(f.is_in_fov(3, 1));
}

#[test]
fn radius_bounds_the_visible_set() {
    let m = open_room(21, 3);
    let mut f = fov_map_from_map(&m);
    f.compute_fov(1, 1, 4);
    assert!(f.is_in_fov(5, 1));
    assert!(!f.is_in_fov(6, 1));
}

#[test]
fn growing_radius_is_monotonic() {
    let mut m = open_room(15, 15);
    m.set_tile(Pos::new(7, 7), Tile::Wall);
    m.set_tile(Pos::new(3, 9), Tile::Wall);
    let mut f = fov_map_from_map(&m);
    f.compute_fov(2, 2, 5);
    let mut small = Vec::new();
    for y in 0..15u16 {
        for x in 0..15u16 {
            if f.is_in_fov(x, y) {
                small.push((x, y));
            }
        }
    }
    f.compute_fov(2, 2, 6);
    for (x, y) in small {
        assert!(f.is_in_fov(x, y), "cell ({x},{y}) vanished when the radius grew");
    }
}

#[test]
fn straight_line_visibility_is_symmetric() {
    let mut m = open_room(11, 11);
    m.set_tile(Pos::new(5, 5), Tile::Wall);
    let mut f = fov_map_from_map(&m);
    let pairs = [((1u16, 1u16), (9u16, 9u16)), ((1, 5), (9, 5)), ((2, 3), (8, 7))];
    for (a, b) in pairs {
        f.compute_fov(a.0, a.1, 10);
        let ab = f.is_in_fov(b.0, b.1);
        f.compute_fov(b.0, b.1, 10);
        let ba = f.is_in_fov(a.0, a.1);
        assert_eq!(ab, ba, "asymmetric visibility between {a:?} and {b:?}");
    }
}

#[test]
fn empty_and_ground_are_transparent_walls_opaque() {
    let mut m = GameMap::new(7, 1);
    // leave (1,0) Empty, make (3,0) Wall, rest Ground
    for x in [0, 2, 4, 5, 6] {
        m.set_tile(Pos::new(x, 0), Tile::Ground);
    }
    m.set_tile(Pos::new(3, 0), Tile::Wall);
    let mut f = fov_map_from_map(&m);
    f.compute_fov(0, 0, 10);
    // sight passes through the unexcavated cell at x=1
    assert!(f.is_in_fov(2, 0));
    // and stops at the wall
    assert!(f.is_in_fov(3, 0));
    assert!(!f.is_in_fov(4, 0));
}
