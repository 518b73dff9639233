use dungeon_crawl::color::Rgb;
use dungeon_crawl::components::{UIBar, UILabel, UIPanel, UIRect, UITransform};
use dungeon_crawl::object::{basic_enemy, Damage, Health, Movement, Player};
use dungeon_crawl::pos::Pos;

#[test]
fn standalone_health_absorbs_armor() {
    let mut h = Health { hp: 10, ac: 2 };
    h.take_damage(1);
    assert_eq!(h.hp, 10);
    h.take_damage(5);
    assert_eq!(h.hp, 7);
    h.take_damage(100);
    assert_eq!(h.hp, 0);
}

#[test]
fn standalone_enemy_attacks_for_one() {
    let mut e = basic_enemy(Pos::new(3, 3), 5);
    assert_eq!(e.health.hp, 5);
    assert_eq!(e.ch, '#');
    assert_eq!(e.color, Rgb { r: 255, g: 255, b: 0 });
    assert_eq!(e.movement, Movement::Simple);
    let mut target = Health { hp: 4, ac: 0 };
    e.attack(&mut target);
    assert_eq!(target.hp, 3);
}

#[test]
fn standalone_enemy_reach_is_chebyshev_one() {
    let mut e = basic_enemy(Pos::new(3, 3), 5);
    assert!(e.can_attack(Pos::new(4, 4)));
    assert!(e.can_attack(Pos::new(3, 3)));
    assert!(!e.can_attack(Pos::new(5, 3)));
}

#[test]
fn standalone_enemy_stun_loads_configured_duration() {
    let mut e = basic_enemy(Pos::new(0, 0), 5);
    assert_eq!(e.stunned_turns_left, 0);
    e.stun();
    assert_eq!(e.stunned_turns_left, 5);
}

#[test]
fn standalone_player_new_and_reach() {
    let mut p = Player::new(Pos::new(2, 2), 20);
    assert_eq!(p.health.hp, 20);
    assert_eq!(p.health.ac, 0);
    assert!(p.can_reach(Pos::new(1, 3)));
    assert!(!p.can_reach(Pos::new(4, 2)));
}

#[test]
fn ui_component_values_hold_their_data() {
    let tr = UITransform { pos: (1, 2), size: (10, 1), panel: UIPanel::Bottom };
    assert_eq!(tr.panel, UIPanel::Bottom);
    let bar = UIBar {
        label: String::from("HP"),
        value: 7,
        maximum: 10,
        empty_color: Rgb { r: 120, g: 20, b: 20 },
        fill_color: Rgb { r: 20, g: 120, b: 20 },
    };
    assert_eq!(bar.value, 7);
    assert_eq!(bar.maximum, 10);
    let label = UILabel(String::from("hello"));
    assert_eq!(label.0, "hello");
    let rect = UIRect;
    assert_eq!(rect, UIRect);
}
