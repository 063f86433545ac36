use platformer_agent::graph::{build_all_paths, Paths};
use platformer_agent::level::{Level, Tile};
use platformer_agent::path::{get_movements, MoveType, VerticalState};
use platformer_agent::properties::Properties;

fn level(rows: &[&str]) -> Level {
    let height = rows.len();
    let width = rows[0].len();
    let mut tiles = vec![vec![Tile::Empty; height]; width];
    for (r, row) in rows.iter().enumerate() {
        let y = height - 1 - r;
        for (x, c) in row.chars().enumerate() {
            tiles[x][y] = match c {
                '#' => Tile::Wall,
                '^' => Tile::Platform,
                'H' => Tile::Ladder,
                'T' => Tile::JumpPad,
                _ => Tile::Empty,
            };
        }
    }
    Level { tiles }
}

fn properties() -> Properties {
    Properties {
        ticks_per_second: 60,
        unit_size_x: 900_000,
        unit_size_y: 1_800_000,
        unit_max_horizontal_speed: 10_000_000,
        unit_fall_speed: 10_000_000,
        unit_jump_speed: 10_000_000,
        unit_jump_time: 550_000,
        jump_pad_jump_speed: 20_000_000,
        jump_pad_jump_time: 525_000,
        unit_max_health: 100,
        mine_explosion_radius: 3_000_000,
        mine_explosion_damage: 50,
    }
}

fn arena() -> Level {
    level(&[
        "##########",
        "#........#",
        "#........#",
        "#...^^...#",
        "#........#",
        "#.H......#",
        "#.H....T.#",
        "##########",
    ])
}

#[test]
fn graph_lists_exactly_the_legal_moves() {
    let l = arena();
    let p = properties();
    let mut paths = Paths::new(&l, &p);
    paths.update_paths((1, 1), VerticalState::Default, &l, &p);
    assert!(paths.contains_node((1, 1), VerticalState::Default, &l, &p));
    assert!(paths.node_count() > 10);
    let kinds = get_movements();
    for x in 0..10isize {
        for y in 0..8isize {
            for vs in [VerticalState::Default, VerticalState::Jump(2), VerticalState::PadJump(10)] {
                if let Some(out) = paths.outgoing_of((x, y), vs, &l, &p) {
                    let expected: Vec<_> = kinds.iter().filter_map(|k| k.can_move((x, y), vs, &l, &p)).collect();
                    assert_eq!(out, &expected);
                    for m in out {
                        assert_ne!(l.tiles[m.pos2.0 as usize][m.pos2.1 as usize], Tile::Wall);
                        let inc = paths.incoming_of(m.pos2, m.vertical_state2, &l, &p).unwrap();
                        assert_eq!(inc.iter().filter(|i| *i == m).count(), 1);
                    }
                }
                if let Some(inc) = paths.incoming_of((x, y), vs, &l, &p) {
                    for m in inc {
                        assert_eq!((m.pos2, m.vertical_state2), ((x, y), vs));
                        let out = paths.outgoing_of(m.pos1, m.vertical_state1, &l, &p).unwrap();
                        assert!(out.contains(m));
                    }
                }
            }
        }
    }
}

#[test]
fn graph_update_is_idempotent() {
    let l = arena();
    let p = properties();
    let mut paths = Paths::new(&l, &p);
    paths.update_paths((1, 1), VerticalState::Default, &l, &p);
    let n = paths.node_count();
    paths.update_paths((1, 1), VerticalState::Default, &l, &p);
    assert_eq!(paths.node_count(), n);
}

#[test]
fn unknown_node_has_no_lists() {
    let l = arena();
    let p = properties();
    let paths = Paths::new(&l, &p);
    assert!(paths.outgoing_of((1, 1), VerticalState::Default, &l, &p).is_none());
    assert!(!paths.contains_node((1, 1), VerticalState::Default, &l, &p));
}

#[test]
fn distance_map_on_flat_floor() {
    let l = level(&["#######", "#.....#", "#.....#", "#.....#", "#######"]);
    let p = properties();
    let mut paths = Paths::new(&l, &p);
    paths.update_paths((1, 1), VerticalState::Default, &l, &p);
    let map = build_all_paths((4, 1), &paths, &l, &p);
    assert_eq!(map.get(&paths, (4, 1), VerticalState::Default, &l, &p), Some(0));
    // three walks of six ticks each
    assert_eq!(map.get(&paths, (1, 1), VerticalState::Default, &l, &p), Some(18));
    assert_eq!(map.get(&paths, (3, 1), VerticalState::Default, &l, &p), Some(6));
    assert_eq!(map.get(&paths, (5, 1), VerticalState::Default, &l, &p), Some(6));
}

#[test]
fn distance_map_is_shortest() {
    let l = arena();
    let p = properties();
    let mut paths = Paths::new(&l, &p);
    paths.update_paths((1, 1), VerticalState::Default, &l, &p);
    let map = build_all_paths((8, 1), &paths, &l, &p);
    for x in 0..10isize {
        for y in 0..8isize {
            for vs in [VerticalState::Default, VerticalState::Jump(3), VerticalState::PadJump(10)] {
                if let Some(out) = paths.outgoing_of((x, y), vs, &l, &p) {
                    let here = map.get(&paths, (x, y), vs, &l, &p);
                    if x == 8 && y == 1 {
                        assert_eq!(here, Some(0));
                        continue;
                    }
                    // the distance of a node is the best over its moves
                    let best = out
                        .iter()
                        .filter_map(|m| map.get(&paths, m.pos2, m.vertical_state2, &l, &p).map(|d| d + m.ticks as u64))
                        .min();
                    assert_eq!(here, best);
                }
            }
        }
    }
}

#[test]
fn unreachable_target_has_no_distance() {
    let l = level(&["#######", "#..#..#", "#..#..#", "#..#..#", "#######"]);
    let p = properties();
    let mut paths = Paths::new(&l, &p);
    paths.update_paths((1, 1), VerticalState::Default, &l, &p);
    let map = build_all_paths((5, 1), &paths, &l, &p);
    assert_eq!(map.get(&paths, (1, 1), VerticalState::Default, &l, &p), None);
}

#[test]
fn start_node_is_zero_ticks() {
    let m = platformer_agent::control::make_start_node((3, 4), VerticalState::Jump(2));
    assert_eq!(m.typ, MoveType::Start);
    assert_eq!(m.ticks, 0);
    assert_eq!(m.pos1, m.pos2);
}
