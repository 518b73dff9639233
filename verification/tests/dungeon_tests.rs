use dungeon_crawl::dungeon::{Dungeon, DungeonConfig, HCorridor, RectRoom, VCorridor};
use dungeon_crawl::map::{GameMap, Tile};
use dungeon_crawl::pos::Pos;
use rand::SeedableRng;

fn seeded(seed: u64) -> rand::rngs::StdRng {
    rand::rngs::StdRng::seed_from_u64(seed)
}

#[test]
fn rect_room_new_center_intersects() {
    let r = RectRoom::new(2, 3, 6, 4);
    assert_eq!(r.x1, 2);
    assert_eq!(r.y1, 3);
    assert_eq!(r.x2, 8);
    assert_eq!(r.y2, 7);
    let c = r.center();
    assert_eq!(c, Pos::new(5, 5));

    let other = RectRoom::new(8, 7, 3, 3);
    // touching edges count as intersecting
    assert!(r.intersects_with(&other));
    let far = RectRoom::new(20, 20, 3, 3);
    assert!(!r.intersects_with(&far));
}

#[test]
fn generated_rooms_pairwise_disjoint() {
    let mut rng = seeded(7);
    let d = DungeonConfig::default().generate(&mut rng);
    assert!(d.rect_rooms.len() >= 2, "expected at least two rooms from this seed");
    for i in 0..d.rect_rooms.len() {
        for j in 0..d.rect_rooms.len() {
            if i != j {
                assert!(!d.rect_rooms[i].intersects_with(&d.rect_rooms[j]));
            }
        }
    }
}

#[test]
fn generated_rooms_sides_in_configured_range() {
    let mut rng = seeded(11);
    let config = DungeonConfig::default();
    let d = config.generate(&mut rng);
    for r in &d.rect_rooms {
        let w = r.x2 - r.x1;
        let h = r.y2 - r.y1;
        assert!(w >= config.room_size.0 as i32 && w <= config.room_size.1 as i32);
        assert!(h >= config.room_size.0 as i32 && h <= config.room_size.1 as i32);
        assert!(r.x1 >= 0 && r.x2 < config.size.0 as i32);
        assert!(r.y1 >= 0 && r.y2 < config.size.1 as i32);
    }
}

#[test]
fn corridor_count_matches_rooms() {
    let mut rng = seeded(3);
    let d = DungeonConfig::default().generate(&mut rng);
    let n = d.rect_rooms.len();
    assert!(n >= 1);
    assert_eq!(d.h_corridors.len(), n - 1);
    assert_eq!(d.v_corridors.len(), n - 1);
}

#[test]
fn generation_is_deterministic_for_a_seed() {
    let mut rng1 = seeded(42);
    let mut rng2 = seeded(42);
    let d1 = DungeonConfig::default().generate(&mut rng1);
    let d2 = DungeonConfig::default().generate(&mut rng2);
    assert_eq!(d1.rect_rooms.len(), d2.rect_rooms.len());
    for i in 0..d1.rect_rooms.len() {
        assert_eq!(d1.rect_rooms[i], d2.rect_rooms[i]);
    }
    let m1 = d1.as_map();
    let m2 = d2.as_map();
    assert_eq!(m1.tiles(), m2.tiles());
}

#[test]
fn as_map_is_idempotent_in_structure() {
    let mut rng = seeded(5);
    let d = DungeonConfig::default().generate(&mut rng);
    let m1 = d.as_map();
    let m2 = d.as_map();
    assert_eq!(m1.width, m2.width);
    assert_eq!(m1.height, m2.height);
    assert_eq!(m1.tiles(), m2.tiles());
}

#[test]
fn every_room_reachable_from_first_by_ground() {
    let mut rng = seeded(9);
    let d = DungeonConfig::default().generate(&mut rng);
    assert!(d.rect_rooms.len() >= 2);
    let m = d.as_map();
    let w = m.width as i32;
    let h = m.height as i32;
    let idx = |x: i32, y: i32| (y * w + x) as usize;
    let tiles = m.tiles();
    let start = d.rect_rooms[0].center();
    let mut visited = vec![false; (w * h) as usize];
    let mut queue = std::collections::VecDeque::new();
    visited[idx(start.x, start.y)] = true;
    queue.push_back((start.x, start.y));
    while let Some((x, y)) = queue.pop_front() {
        for (dx, dy) in [(1, 0), (-1, 0), (0, 1), (0, -1)] {
            let (nx, ny) = (x + dx, y + dy);
            if nx >= 0 && nx < w && ny >= 0 && ny < h && !visited[idx(nx, ny)] {
                if tiles[idx(nx, ny)] == Tile::Ground {
                    visited[idx(nx, ny)] = true;
                    queue.push_back((nx, ny));
                }
            }
        }
    }
    for r in &d.rect_rooms {
        let c = r.center();
        assert!(
            visited[idx(c.x, c.y)],
            "room center not reachable from the first room"
        );
    }
}

#[test]
fn zero_attempts_degenerate_dungeon() {
    let mut rng = seeded(1);
    let config = DungeonConfig { size: (10, 10), room_size: (4, 4), max_rooms: 0 };
    let d = config.generate(&mut rng);
    assert_eq!(d.rect_rooms.len(), 0);
    assert_eq!(d.h_corridors.len(), 0);
    assert_eq!(d.v_corridors.len(), 0);
    let m = d.as_map();
    for t in m.tiles() {
        assert_eq!(*t, Tile::Empty);
    }
}

#[test]
fn dungeon_accessors_report_config() {
    let mut rng = seeded(2);
    let config = DungeonConfig::default();
    let d = config.generate(&mut rng);
    assert_eq!(d.width(), 80);
    assert_eq!(d.height(), 45);
    assert_eq!(d.size(), (80, 45));
    assert_eq!(*d.config(), config);
}

#[test]
fn corridors_have_wall_buffer_on_straight_runs() {
    // a hand-built dungeon: two rooms joined by one horizontal leg and a
    // degenerate vertical leg; the run keeps a wall above and below.
    let d = Dungeon {
        config: DungeonConfig { size: (20, 9), room_size: (4, 4), max_rooms: 2 },
        rect_rooms: vec![RectRoom::new(0, 2, 4, 4), RectRoom::new(12, 2, 4, 4)],
        h_corridors: vec![HCorridor { x1: 2, x2: 14, y: 4 }],
        v_corridors: vec![VCorridor { y1: 4, y2: 4, x: 14 }],
    };
    let m = d.as_map();
    let tile = |x: i32, y: i32| m.tiles()[(y * 20 + x) as usize];
    // centerline carved between the rooms
    for x in 2..=14 {
        assert_eq!(tile(x, 4), Tile::Ground, "centerline at x={x}");
    }
    // the buffer rows outside both rooms stay walls
    for x in 5..=11 {
        assert_eq!(tile(x, 3), Tile::Wall);
        assert_eq!(tile(x, 5), Tile::Wall);
    }
}

#[test]
fn map_new_and_set_tile() {
    let mut m = GameMap::new(4, 3);
    assert_eq!(m.width, 4);
    assert_eq!(m.height, 3);
    for t in m.tiles() {
        assert_eq!(*t, Tile::Empty);
    }
    m.set_tile(Pos::new(2, 1), Tile::Wall);
    assert_eq!(m.tile(Pos::new(2, 1)), Tile::Wall);
    assert_eq!(m.tile(Pos::new(1, 1)), Tile::Empty);
}

#[test]
fn pos_moves() {
    let p = Pos::new(3, 4);
    assert_eq!(p.move_by(1, -1), Pos::new(4, 3));
    assert_eq!(p.move_by_pos(Pos::new(-3, -4)), Pos::new(0, 0));
    let mut q = Pos::new(0, 0);
    q.move_by_inplace(2, 5);
    assert_eq!(q, Pos::new(2, 5));
    q.move_by_pos_inplace(Pos::new(1, 1));
    assert_eq!(q, Pos::new(3, 6));
}
