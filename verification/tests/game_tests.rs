use dungeon_crawl::color::Rgb;
use dungeon_crawl::components::{AllComponents, CompMap, Health, Position, Stun};
use dungeon_crawl::dungeon::{Dungeon, DungeonConfig, RectRoom};
use dungeon_crawl::entity::{Entity, EntityGenerator};
use dungeon_crawl::fov::fov_map_from_map;
use dungeon_crawl::game::{tile_color, Game, TurnOutcome};
use dungeon_crawl::input::{Command, InputHandler};
use dungeon_crawl::map::{GameMap, Tile};
use dungeon_crawl::pos::Pos;
use rand::SeedableRng;
use std::collections::VecDeque;

fn seeded(seed: u64) -> rand::rngs::StdRng {
    rand::rngs::StdRng::seed_from_u64(seed)
}

struct Scripted {
    cmds: Vec<Command>,
    next: usize,
}

impl InputHandler for Scripted {
    fn wait_for_keypress(&mut self) -> Command {
        let c = self.cmds[self.next];
        self.next += 1;
        c
    }
}

/// A game over an all-ground map with no rooms, for hand-placed entities.
fn bare_game(w: u16, h: u16) -> Game {
    let mut map = GameMap::new(w, h);
    for y in 0..h {
        for x in 0..w {
            map.set_tile(Pos::new(x as i32, y as i32), Tile::Ground);
        }
    }
    let fov_map = fov_map_from_map(&map);
    Game {
        components: AllComponents::new(),
        entity_gen: EntityGenerator::new(),
        dungeon: Dungeon {
            config: DungeonConfig { size: (w, h), room_size: (2, 2), max_rooms: 0 },
            rect_rooms: vec![],
            h_corridors: vec![],
            v_corridors: vec![],
        },
        map,
        fov_map,
        tiles_seen: vec![false; w as usize * h as usize],
        turn_order: VecDeque::new(),
    }
}

#[test]
fn two_hits_leave_one_hp_third_reaps_at_end_of_turn() {
    let mut rng = seeded(1);
    let mut g = bare_game(10, 10);
    g.generate_player((5, 5));
    let e = g.generate_basic_enemy((5, 6));
    assert_eq!(g.components.health.get(e.0).unwrap().hp, 5);

    g.player_attack(&mut rng);
    assert_eq!(g.components.health.get(e.0).unwrap().hp, 3);
    g.player_attack(&mut rng);
    assert_eq!(g.components.health.get(e.0).unwrap().hp, 1);
    g.player_attack(&mut rng);
    // the third hit empties the health bar but the entity survives until
    // the end-of-turn reap
    assert_eq!(g.components.health.get(e.0).unwrap().hp, 0);
    assert!(g.entity_gen.contains(&e));
    g.remove_dead();
    assert!(!g.entity_gen.contains(&e));
    assert!(g.components.health.get(e.0).is_none());
    assert!(g.components.positions.get(e.0).is_none());
    assert!(g.components.enemies.get(e.0).is_none());
}

#[test]
fn damage_at_or_below_armor_costs_nothing() {
    let mut h = Health { hp: 8, ac: 3 };
    h.take_damage(3);
    assert_eq!(h.hp, 8);
    h.take_damage(2);
    assert_eq!(h.hp, 8);
}

#[test]
fn damage_above_armor_reduces_by_difference() {
    let mut h = Health { hp: 8, ac: 3 };
    h.take_damage(5);
    assert_eq!(h.hp, 6);
    assert_eq!(h.ac, 3);
}

#[test]
fn damage_clamps_at_zero_hp() {
    let mut h = Health { hp: 2, ac: 1 };
    h.take_damage(100);
    assert_eq!(h.hp, 0);
}

#[test]
fn stun_skips_exactly_five_phases_then_policy_resumes() {
    let mut g = bare_game(12, 12);
    g.generate_player((1, 1));
    let e = g.generate_basic_enemy((9, 9));
    g.components.stuns.insert(e.0, Stun { duration: 5 });

    for phase in 1..=5 {
        let before = *g.components.positions.get(e.0).unwrap();
        g.npc_turn(e);
        let after = *g.components.positions.get(e.0).unwrap();
        assert_eq!(before, after, "stunned enemy moved in phase {phase}");
    }
    assert!(g.components.stuns.get(e.0).is_none(), "stun should be spent after 5 phases");
    let before = *g.components.positions.get(e.0).unwrap();
    g.npc_turn(e);
    let after = *g.components.positions.get(e.0).unwrap();
    assert_ne!(before, after, "enemy should resume its policy on the 6th phase");
    assert_eq!(after, Position(8, 8));
}

#[test]
fn diagonal_blocked_falls_back_to_horizontal() {
    let mut g = bare_game(10, 10);
    g.generate_player((4, 4));
    let e = g.generate_basic_enemy((2, 2));
    // the diagonal step target is a wall, the horizontal step is ground
    g.map.set_tile(Pos::new(3, 3), Tile::Wall);
    let r = g.move_towards(e, (4, 4));
    assert!(r.is_some());
    assert_eq!(*g.components.positions.get(e.0).unwrap(), Position(3, 2));
}

#[test]
fn diagonal_and_horizontal_blocked_falls_back_to_vertical() {
    let mut g = bare_game(10, 10);
    g.generate_player((4, 4));
    let e = g.generate_basic_enemy((2, 2));
    g.map.set_tile(Pos::new(3, 3), Tile::Wall);
    g.map.set_tile(Pos::new(3, 2), Tile::Wall);
    g.move_towards(e, (4, 4));
    assert_eq!(*g.components.positions.get(e.0).unwrap(), Position(2, 3));
}

#[test]
fn all_steps_blocked_stays_in_place() {
    let mut g = bare_game(10, 10);
    g.generate_player((4, 4));
    let e = g.generate_basic_enemy((2, 2));
    g.map.set_tile(Pos::new(3, 3), Tile::Wall);
    g.map.set_tile(Pos::new(3, 2), Tile::Wall);
    g.map.set_tile(Pos::new(2, 3), Tile::Wall);
    g.move_towards(e, (4, 4));
    assert_eq!(*g.components.positions.get(e.0).unwrap(), Position(2, 2));
}

#[test]
fn move_towards_without_enemy_component_is_none() {
    let mut g = bare_game(10, 10);
    let p = g.generate_player((4, 4));
    let r = g.move_towards(p, (1, 1));
    assert!(r.is_none());
    assert_eq!(*g.components.positions.get(p.0).unwrap(), Position(4, 4));
}

#[test]
fn quit_on_degenerate_single_room_changes_nothing() {
    // a 1x1-floor room: borders at (0,0)-(2,2), its only interior cell is
    // the center (1,1)
    let room = RectRoom::new(0, 0, 2, 2);
    let dungeon = Dungeon {
        config: DungeonConfig { size: (5, 5), room_size: (2, 2), max_rooms: 1 },
        rect_rooms: vec![room],
        h_corridors: vec![],
        v_corridors: vec![],
    };
    let map = dungeon.as_map();
    assert_eq!(map.tile(Pos::new(1, 1)), Tile::Ground);
    let fov_map = fov_map_from_map(&map);
    let mut g = Game {
        components: AllComponents::new(),
        entity_gen: EntityGenerator::new(),
        dungeon,
        map,
        fov_map,
        tiles_seen: vec![false; 25],
        turn_order: VecDeque::new(),
    };
    let p = g.generate_player((1, 1));

    let mut rng = seeded(3);
    let mut input = Scripted { cmds: vec![Command::Quit], next: 0 };
    let outcome = g.turn(&mut input, &mut rng);
    assert_eq!(outcome, TurnOutcome::Quit, "quit is surfaced as the terminal outcome");
    assert_eq!(input.next, 1, "the quit command was consumed");
    assert_eq!(*g.components.positions.get(p.0).unwrap(), Position(1, 1));
    assert_eq!(g.components.health.get(p.0).unwrap().hp, 10);
    assert!(g.entity_gen.contains(&p));
    assert_eq!(g.turn_order.len(), 1);
    // player_turn itself reports the loop should stop and mutates nothing
    let before_hp = g.components.health.get(p.0).unwrap().hp;
    let stop = g.player_turn(Command::Quit, &mut rng);
    assert!(!stop);
    assert_eq!(g.components.health.get(p.0).unwrap().hp, before_hp);
}

#[test]
fn player_move_applies_on_ground_and_is_ignored_into_walls() {
    let mut rng = seeded(4);
    let mut g = bare_game(6, 6);
    let p = g.generate_player((2, 2));
    g.map.set_tile(Pos::new(2, 1), Tile::Wall);

    // the move into the wall is silently rejected; the turn is consumed
    let r = g.player_turn(Command::MoveUp, &mut rng);
    assert!(r);
    assert_eq!(*g.components.positions.get(p.0).unwrap(), Position(2, 2));

    let r = g.player_turn(Command::MoveRight, &mut rng);
    assert!(r);
    assert_eq!(*g.components.positions.get(p.0).unwrap(), Position(3, 2));

    let r = g.player_turn(Command::Other, &mut rng);
    assert!(r);
    assert_eq!(*g.components.positions.get(p.0).unwrap(), Position(3, 2));
}

#[test]
fn player_move_off_the_map_is_ignored() {
    let mut rng = seeded(5);
    let mut g = bare_game(6, 6);
    let p = g.generate_player((0, 0));
    g.player_turn(Command::MoveUp, &mut rng);
    assert_eq!(*g.components.positions.get(p.0).unwrap(), Position(0, 0));
    g.player_turn(Command::MoveLeft, &mut rng);
    assert_eq!(*g.components.positions.get(p.0).unwrap(), Position(0, 0));
}

#[test]
fn npc_adjacent_to_player_attacks_for_one() {
    let mut g = bare_game(8, 8);
    let p = g.generate_player((3, 3));
    let e = g.generate_basic_enemy((4, 4));
    g.npc_turn(e);
    assert_eq!(g.components.health.get(p.0).unwrap().hp, 9);
    // and the enemy did not move
    assert_eq!(*g.components.positions.get(e.0).unwrap(), Position(4, 4));
}

#[test]
fn player_attack_hits_only_adjacent_enemies() {
    let mut rng = seeded(6);
    let mut g = bare_game(10, 10);
    g.generate_player((5, 5));
    let near = g.generate_basic_enemy((6, 6));
    let far = g.generate_basic_enemy((1, 1));
    g.player_attack(&mut rng);
    assert_eq!(g.components.health.get(near.0).unwrap().hp, 3);
    assert_eq!(g.components.health.get(far.0).unwrap().hp, 5);
    if let Some(s) = g.components.stuns.get(near.0) {
        assert_eq!(s.duration, 5);
    }
    assert!(g.components.stuns.get(far.0).is_none());
}

#[test]
fn entity_ids_allocate_above_all_used() {
    let mut gen = EntityGenerator::new();
    let a = gen.generate();
    let b = gen.generate();
    let c = gen.generate();
    assert_eq!((a.0, b.0, c.0), (1, 2, 3));
    assert!(gen.contains(&b));
    gen.remove(&b);
    assert!(!gen.contains(&b));
    // the maximum is still 3, so the next identifier is 4
    let d = gen.generate();
    assert_eq!(d.0, 4);
    // freeing the maximum lets its number be reused
    gen.remove(&d);
    gen.remove(&c);
    let e = gen.generate();
    assert_eq!(e.0, 2);
}

#[test]
fn component_map_insert_get_remove() {
    let mut m: CompMap<Health> = CompMap::new();
    assert!(!m.contains_key(7));
    m.insert(7, Health { hp: 4, ac: 1 });
    assert!(m.contains_key(7));
    assert_eq!(m.get(7).unwrap().hp, 4);
    m.insert(7, Health { hp: 2, ac: 1 });
    assert_eq!(m.get(7).unwrap().hp, 2);
    m.insert(3, Health { hp: 9, ac: 0 });
    assert_eq!(m.keys(), vec![3, 7]);
    m.remove(7);
    assert!(m.get(7).is_none());
    assert_eq!(m.keys(), vec![3]);
}

#[test]
fn nearby_lists_adjacent_entities_in_id_order() {
    let mut ps: CompMap<Position> = CompMap::new();
    ps.insert(5, Position(3, 3));
    ps.insert(2, Position(4, 4));
    ps.insert(9, Position(3, 4));
    ps.insert(4, Position(9, 9));
    let r = Game::nearby(&Position(3, 3), &ps);
    let ids: Vec<u32> = r.iter().map(|e| e.0).collect();
    assert_eq!(ids, vec![2, 5, 9]);
}

#[test]
fn remove_all_clears_player_tag_and_components() {
    let mut g = bare_game(6, 6);
    let p = g.generate_player((2, 2));
    g.components.remove_all(p);
    assert!(g.components.player.is_none());
    assert!(g.components.positions.get(p.0).is_none());
    assert!(g.components.health.get(p.0).is_none());
}

#[test]
fn tile_color_exact_values() {
    assert_eq!(tile_color(Tile::Empty, false), None);
    assert_eq!(tile_color(Tile::Empty, true), None);
    assert_eq!(tile_color(Tile::Ground, false), Some(Rgb { r: 95, g: 95, b: 95 }));
    assert_eq!(tile_color(Tile::Wall, false), Some(Rgb { r: 223, g: 223, b: 223 }));
    assert_eq!(tile_color(Tile::Ground, true), Some(Rgb { r: 47, g: 47, b: 147 }));
    assert_eq!(tile_color(Tile::Wall, true), Some(Rgb { r: 111, g: 111, b: 211 }));
}

#[test]
fn rgb_mul_white_is_identity() {
    let c = Rgb { r: 223, g: 95, b: 47 };
    let white = Rgb { r: 255, g: 255, b: 255 };
    assert_eq!(c.mul(white), c);
    let red = Rgb { r: 191, g: 0, b: 0 };
    assert_eq!(white.mul(red), red);
}

#[test]
fn draw_produces_player_glyph_and_lit_tiles() {
    let mut g = bare_game(9, 9);
    let p = g.generate_player((4, 4));
    let frame = g.draw();
    let ppos = *g.components.positions.get(p.0).unwrap();
    assert!(
        frame.glyphs.iter().any(|e| e.x == ppos.0 && e.y == ppos.1 && e.glyph == '@'
            && e.color == Rgb { r: 255, g: 255, b: 255 })
    );
    // the player's own cell is drawn as fully lit ground
    assert!(
        frame.tiles.iter().any(|t| t.x == ppos.0 && t.y == ppos.1
            && t.color == Rgb { r: 95, g: 95, b: 95 })
    );
    // and the cell was remembered
    assert!(g.tiles_seen[4 * 9 + 4]);
}

#[test]
fn game_new_spawns_player_and_one_enemy_per_other_room() {
    let mut rng = seeded(8);
    let g = Game::new(&mut rng);
    let n_rooms = g.dungeon.rect_rooms.len();
    assert!(n_rooms >= 2);
    let (pe, _) = g.components.player.expect("player spawned");
    let ppos = *g.components.positions.get(pe.0).unwrap();
    let c = g.dungeon.rect_rooms[0].center();
    assert_eq!((ppos.0 as i32, ppos.1 as i32), (c.x, c.y));
    assert_eq!(g.components.enemies.keys().len(), n_rooms - 1);
    assert_eq!(g.turn_order.len(), n_rooms);
}

#[test]
fn turn_rotates_queue_and_skips_stale_ids() {
    let mut rng = seeded(10);
    let mut g = bare_game(8, 8);
    let p = g.generate_player((1, 1));
    let e = g.generate_basic_enemy((6, 6));
    // make the enemy's id stale without going through a turn
    g.entity_gen.remove(&e);
    g.components.remove_all(e);
    // two turns in a row both fall to the player: the stale id is skipped
    let mut input = Scripted { cmds: vec![Command::MoveRight, Command::MoveDown], next: 0 };
    let first = g.turn(&mut input, &mut rng);
    assert!(matches!(first, TurnOutcome::Played(_)));
    assert_eq!(*g.components.positions.get(p.0).unwrap(), Position(2, 1));
    g.turn(&mut input, &mut rng);
    assert_eq!(*g.components.positions.get(p.0).unwrap(), Position(2, 2));
}

#[test]
fn enemy_chases_and_kills_player_via_turns() {
    let mut rng = seeded(12);
    let mut g = bare_game(8, 8);
    let p = g.generate_player((2, 2));
    g.components.health.insert(p.0, Health { hp: 1, ac: 0 });
    g.generate_basic_enemy((3, 3));
    // player waits, enemy is adjacent and strikes for the kill; the corpse
    // is reaped at the end of the enemy's turn
    let mut input = Scripted { cmds: vec![Command::Other], next: 0 };
    g.turn(&mut input, &mut rng);
    assert!(g.entity_gen.contains(&p));
    g.turn(&mut input, &mut rng);
    assert!(!g.entity_gen.contains(&p));
    assert!(g.components.player.is_none());
}

#[test]
fn npc_phase_without_player_or_position_is_a_noop() {
    let mut g = bare_game(8, 8);
    let e = g.generate_basic_enemy((3, 3));
    // no player: the phase changes nothing
    g.npc_turn(e);
    assert_eq!(*g.components.positions.get(e.0).unwrap(), Position(3, 3));
    // a positionless entity: the phase changes nothing either
    g.generate_player((6, 6));
    let ghostly = Entity(99);
    g.npc_turn(ghostly);
    assert_eq!(*g.components.positions.get(e.0).unwrap(), Position(3, 3));
    assert_eq!(g.components.health.get(2).unwrap().hp, 10);
}

#[test]
fn game_new_enemies_carry_stock_components() {
    let mut rng = seeded(21);
    let g = Game::new(&mut rng);
    let n_rooms = g.dungeon.rect_rooms.len();
    assert!(n_rooms >= 2);
    for k in 1..n_rooms {
        let id = (k + 1) as u32;
        let c = g.dungeon.rect_rooms[k].center();
        let pos = *g.components.positions.get(id).unwrap();
        assert_eq!((pos.0 as i32, pos.1 as i32), (c.x, c.y));
        assert_eq!(g.components.health.get(id).unwrap().hp, 5);
        assert_eq!(g.components.health.get(id).unwrap().ac, 0);
        assert!(g.components.enemies.get(id).is_some());
        assert!(g.components.stuns.get(id).is_none());
    }
    // the queue holds the player first, then the enemies in room order
    for (i, e) in g.turn_order.iter().enumerate() {
        assert_eq!(e.0, (i + 1) as u32);
    }
}

#[test]
fn entity_equality_is_by_id() {
    assert_eq!(Entity(4), Entity(4));
    assert_ne!(Entity(4), Entity(5));
}
