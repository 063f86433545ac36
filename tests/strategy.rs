use platformer_agent::bullets::{Bullets, ExplosionParams};
use platformer_agent::control::{make_start_node, Position};
use platformer_agent::graph::{build_all_paths, Paths};
use platformer_agent::level::{Level, Tile};
use platformer_agent::path::{Move, MoveType, VerticalState};
use platformer_agent::planner::{choose_path, Terminal};
use platformer_agent::properties::Properties;
use platformer_agent::rand::Random;
use platformer_agent::strategy::{Game, MyStrategy, UnitAction};
use platformer_agent::world::{
    can_plant_mine, get_vertical_state, suicide_is_effective, Item, JumpState, LootBox, Unit, Weapon, WeaponType,
};

fn level(rows: &[&str]) -> Level {
    let height = rows.len();
    let width = rows[0].len();
    let mut tiles = vec![vec![Tile::Empty; height]; width];
    for (r, row) in rows.iter().enumerate() {
        let y = height - 1 - r;
        for (x, c) in row.chars().enumerate() {
            tiles[x][y] = match c {
                '#' => Tile::Wall,
                'H' => Tile::Ladder,
                _ => Tile::Empty,
            };
        }
    }
    Level { tiles }
}

fn properties() -> Properties {
    Properties {
        ticks_per_second: 60,
        unit_size_x: 900_000,
        unit_size_y: 1_800_000,
        unit_max_horizontal_speed: 10_000_000,
        unit_fall_speed: 10_000_000,
        unit_jump_speed: 10_000_000,
        unit_jump_time: 550_000,
        jump_pad_jump_speed: 20_000_000,
        jump_pad_jump_time: 525_000,
        unit_max_health: 100,
        mine_explosion_radius: 3_000_000,
        mine_explosion_damage: 50,
    }
}

fn arena() -> Level {
    level(&[
        "############",
        "#..........#",
        "#..........#",
        "#..........#",
        "#..........#",
        "############",
    ])
}

fn standing() -> JumpState {
    JumpState { can_jump: true, speed: 10_000_000, max_time: 550_000 }
}

fn unit(id: i32, player_id: i32, x: i64, mines: i32, weapon: Option<Weapon>, health: i32) -> Unit {
    Unit { id, player_id, position: Position { x, y: 1_000_000 }, health, mines, jump_state: standing(), weapon }
}

fn rocket_launcher() -> Weapon {
    Weapon { typ: WeaponType::RocketLauncher, explosion: Some(ExplosionParams { radius: 3_000_000, damage: 50 }), fire_timer: None }
}

#[test]
fn mine_suicide_trigger() {
    let mut s = MyStrategy::new(arena(), properties());
    let me = unit(1, 1, 2_500_000, 1, Some(rocket_launcher()), 100);
    let enemy = unit(2, 2, 4_500_000, 0, None, 50);
    let game = Game { current_tick: 0, units: vec![me, enemy], bullets: vec![], loot_boxes: vec![] };
    let a = s.get_action(&me, &game);
    assert!(a.plant_mine);
    assert_eq!(a.velocity, 0);
    assert_eq!(a.shoot_override, Some(false));
    // next tick the mine is down: fire the rocket to set it off
    let me2 = unit(1, 1, 2_500_000, 0, Some(rocket_launcher()), 100);
    let game2 = Game { current_tick: 1, units: vec![me2, enemy], bullets: vec![], loot_boxes: vec![] };
    let b = s.get_action(&me2, &game2);
    assert!(b.plant_mine);
    assert_eq!(b.shoot_override, Some(true));
}

#[test]
fn no_suicide_against_healthy_enemy() {
    let mut s = MyStrategy::new(arena(), properties());
    let me = unit(1, 1, 2_500_000, 1, Some(rocket_launcher()), 100);
    let enemy = unit(2, 2, 4_500_000, 0, None, 150);
    let game = Game { current_tick: 0, units: vec![me, enemy], bullets: vec![], loot_boxes: vec![] };
    let a = s.get_action(&me, &game);
    assert!(!a.plant_mine);
    assert_eq!(a.shoot_override, None);
}

fn run(ticks: i32) -> Vec<UnitAction> {
    let mut s = MyStrategy::new(arena(), properties());
    let mut out = Vec::new();
    for t in 0..ticks {
        let me = Unit { position: Position { x: 2_500_000 + 10_000 * t as i64, y: 1_000_000 }, ..unit(1, 1, 0, 0, None, 100) };
        let enemy = unit(2, 2, 9_500_000, 0, None, 100);
        let game = Game { current_tick: t, units: vec![me, enemy], bullets: vec![], loot_boxes: vec![] };
        out.push(s.get_action(&me, &game));
    }
    out
}

#[test]
fn determinism() {
    let a = run(4);
    let b = run(4);
    assert_eq!(a, b);
}

#[test]
fn seeks_weapon_loot() {
    let mut s = MyStrategy::new(arena(), properties());
    let me = unit(1, 1, 2_500_000, 0, None, 100);
    let enemy = unit(2, 2, 10_500_000, 0, None, 100);
    let loot = LootBox { position: Position { x: 6_500_000, y: 1_000_000 }, item: Item::Weapon(WeaponType::Pistol) };
    let game = Game { current_tick: 0, units: vec![me, enemy], bullets: vec![], loot_boxes: vec![loot] };
    let a = s.get_action(&me, &game);
    assert!(a.velocity != 0 || a.jump || a.jump_down);
}

#[test]
fn warm_start_reuse() {
    let l = arena();
    let p = properties();
    let mut paths = Paths::new(&l, &p);
    paths.update_paths((2, 1), VerticalState::Default, &l, &p);
    let walk = |x: isize| paths.outgoing_of((x, 1), VerticalState::Default, &l, &p).unwrap().iter().find(|m| m.typ == MoveType::WalkRight).copied().unwrap();
    // committed on the tick before: (2,1) -> (3,1) -> (4,1)
    let old: Vec<Move> = vec![make_start_node((2, 1), VerticalState::Default), walk(2), walk(3)];
    let target_map = build_all_paths((4, 1), &paths, &l, &p);
    let terminal = Terminal::Loot { targets: vec![(4, 1)] };
    let mut rand = Random::new(98754);
    let bullets = Bullets::new(&vec![], &l, &p);
    let (best, used_old) = choose_path(
        ((3, 1), VerticalState::Default),
        &target_map,
        &old,
        &terminal,
        &vec![],
        1,
        Position { x: 3_500_000, y: 1_000_000 },
        &vec![],
        &bullets,
        &mut rand,
        &paths,
        &l,
        &p,
    );
    assert!(used_old);
    assert!(best.len() >= 2);
    assert_eq!(best[0], old[1]);
    assert_eq!(best[1], old[2]);
}

#[test]
fn helpers_on_concrete_values() {
    let l = level(&["....", ".H..", "....", "####"]);
    let p = properties();
    assert!(can_plant_mine((0, 1), &l));
    assert!(!can_plant_mine((1, 1), &l));
    let jumping = Unit { jump_state: JumpState { can_jump: true, speed: 10_000_000, max_time: 300_000 }, ..unit(1, 1, 500_000, 0, None, 100) };
    assert_eq!(get_vertical_state(&jumping, &p), VerticalState::Jump(3));
    let padding = Unit { jump_state: JumpState { can_jump: true, speed: 20_000_000, max_time: 300_000 }, ..unit(1, 1, 500_000, 0, None, 100) };
    assert_eq!(get_vertical_state(&padding, &p), VerticalState::PadJump(6));
    let grounded = unit(1, 1, 500_000, 0, None, 100);
    assert_eq!(get_vertical_state(&grounded, &p), VerticalState::Default);
    let enemy = unit(2, 2, 3_500_000, 0, None, 40);
    assert!(suicide_is_effective(Position { x: 500_000, y: 1_000_000 }, 1, 50, &vec![enemy], &p));
    assert!(!suicide_is_effective(Position { x: 500_000, y: 1_000_000 }, 1, 30, &vec![enemy], &p));
    assert!(!suicide_is_effective(Position { x: 500_000, y: 1_000_000 }, 2, 50, &vec![enemy], &p));
}

#[test]
fn enemy_forecast_stays_near() {
    let mut s = MyStrategy::new(arena(), properties());
    let me = unit(1, 1, 2_500_000, 0, None, 100);
    let enemy = unit(2, 2, 6_500_000, 0, None, 100);
    let game = Game { current_tick: 0, units: vec![me, enemy], bullets: vec![], loot_boxes: vec![] };
    s.get_action(&me, &game);
    s.get_action(&enemy, &game);
    // no time ahead: the enemy's own tile
    let now = s.estimate_enemy_position(&enemy, 0, 20);
    assert_eq!(now, Position { x: 6_500_000, y: 1_000_000 });
    let later = s.estimate_enemy_position(&enemy, 6, 20);
    assert!(later.x > 1_000_000 && later.x < 11_000_000);
    assert!(later.y >= 1_000_000 && later.y < 5_000_000);
}

#[test]
fn unplanned_unit_stays_put() {
    let s = MyStrategy::new(arena(), properties());
    let here = Position { x: 2_500_000, y: 1_000_000 };
    let (a, b) = s.planned_position(5, here, 3, 0, false);
    assert_eq!(a, here);
    assert_eq!(b, here);
}

#[test]
fn astray_unit_recovers() {
    let mut s = MyStrategy::new(arena(), properties());
    let me = unit(1, 1, 2_500_000, 0, None, 100);
    let enemy = unit(2, 2, 9_500_000, 0, None, 100);
    let game = Game { current_tick: 0, units: vec![me, enemy], bullets: vec![], loot_boxes: vec![] };
    s.get_action(&me, &game);
    // knocked two tiles up, away from any first move: jump back to the tile centre
    let moved = Unit { position: Position { x: 2_500_000, y: 3_500_000 }, ..me };
    let game2 = Game { current_tick: 1, units: vec![moved, enemy], bullets: vec![], loot_boxes: vec![] };
    let a = s.get_action(&moved, &game2);
    assert!(a.jump);
    assert_eq!(a.velocity, 0);
    assert!(!a.plant_mine);
}
