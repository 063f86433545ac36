use platformer_agent::control::{ControlResult, Position};
use platformer_agent::level::{Level, Tile};
use platformer_agent::path::{get_movements, Move, MoveType, VerticalState};
use platformer_agent::properties::Properties;

/// Rows from top to bottom: '#' wall, '.' empty, '^' platform, 'H' ladder, 'T' jump pad.
fn level(rows: &[&str]) -> Level {
    let height = rows.len();
    let width = rows[0].len();
    let mut tiles = vec![vec![Tile::Empty; height]; width];
    for (r, row) in rows.iter().enumerate() {
        let y = height - 1 - r;
        for (x, c) in row.chars().enumerate() {
            tiles[x][y] = match c {
                '#' => Tile::Wall,
                '^' => Tile::Platform,
                'H' => Tile::Ladder,
                'T' => Tile::JumpPad,
                _ => Tile::Empty,
            };
        }
    }
    Level { tiles }
}

fn properties() -> Properties {
    Properties {
        ticks_per_second: 60,
        unit_size_x: 900_000,
        unit_size_y: 1_800_000,
        unit_max_horizontal_speed: 10_000_000,
        unit_fall_speed: 10_000_000,
        unit_jump_speed: 10_000_000,
        unit_jump_time: 550_000,
        jump_pad_jump_speed: 20_000_000,
        jump_pad_jump_time: 525_000,
        unit_max_health: 100,
        mine_explosion_radius: 3_000_000,
        mine_explosion_damage: 50,
    }
}

fn moves_from(l: &Level, p: &Properties, pos: (isize, isize), vs: VerticalState) -> Vec<Move> {
    get_movements().iter().filter_map(|m| m.can_move(pos, vs, l, p)).collect()
}

#[test]
fn walk_right_on_flat_floor() {
    let l = level(&[".....", ".....", ".....", "#####"]);
    let p = properties();
    let moves = moves_from(&l, &p, (1, 1), VerticalState::Default);
    let right: Vec<&Move> = moves.iter().filter(|m| m.typ == MoveType::WalkRight).collect();
    assert_eq!(right.len(), 1);
    assert_eq!(right[0].pos2, (2, 1));
    assert_eq!(right[0].vertical_state2, VerticalState::Default);
    assert_eq!(right[0].ticks, 6);
    match right[0].control(Position { x: 1_500_000, y: 1_000_000 }, VerticalState::Default) {
        ControlResult::MoveAction(a) => {
            assert_eq!(a.velocity, 10_000_000);
            assert!(!a.jump);
            assert!(!a.jump_down);
        }
        _ => panic!("expected controls"),
    }
}

#[test]
fn ladder_up() {
    let l = level(&[".....", ".....", "..H..", "..H..", "..H..", "#####"]);
    let p = properties();
    let moves = moves_from(&l, &p, (2, 1), VerticalState::Default);
    let up: Vec<&Move> = moves.iter().filter(|m| m.typ == MoveType::LadderUp).collect();
    assert_eq!(up.len(), 1);
    assert_eq!(up[0].pos2, (2, 2));
    assert_eq!(up[0].vertical_state2, VerticalState::Default);
    match up[0].control(Position { x: 2_500_000, y: 1_000_000 }, VerticalState::Default) {
        ControlResult::MoveAction(a) => {
            assert_eq!(a.velocity, 0);
            assert!(a.jump);
            assert!(!a.jump_down);
        }
        _ => panic!("expected controls"),
    }
}

#[test]
fn pad_jump_budget() {
    let mut rows = vec!["......"; 15];
    rows.push("...T..");
    let l = level(&rows);
    let p = properties();
    // falling onto the pad from above launches a pad jump of ten tiles
    let fall = moves_from(&l, &p, (3, 1), VerticalState::Default);
    let onto_pad: Vec<&Move> = fall.iter().filter(|m| m.typ == MoveType::Fall).collect();
    assert_eq!(onto_pad.len(), 1);
    assert_eq!(onto_pad[0].pos2, (3, 0));
    assert_eq!(onto_pad[0].vertical_state2, VerticalState::PadJump(10));
    // stepping onto it from beside does too
    let walk = moves_from(&l, &p, (2, 0), VerticalState::Default);
    let step: Vec<&Move> = walk.iter().filter(|m| m.typ == MoveType::WalkRight).collect();
    assert_eq!(step[0].vertical_state2, VerticalState::PadJump(10));
    // up by one costs one tile of rise, aside and up by two costs two
    let from = moves_from(&l, &p, (3, 1), VerticalState::PadJump(10));
    let up: Vec<&Move> = from.iter().filter(|m| m.typ == MoveType::PadJumpUp).collect();
    assert_eq!(up[0].pos2, (3, 2));
    assert_eq!(up[0].vertical_state2, VerticalState::PadJump(9));
    let right: Vec<&Move> = from.iter().filter(|m| m.typ == MoveType::PadJumpRight).collect();
    assert_eq!(right[0].pos2, (4, 3));
    assert_eq!(right[0].vertical_state2, VerticalState::PadJump(8));
    // the budget runs down to the default state
    let mut vs = VerticalState::PadJump(10);
    let mut y = 1;
    let mut steps = 0;
    while vs != VerticalState::Default {
        let m = moves_from(&l, &p, (3, y), vs).into_iter().find(|m| m.typ == MoveType::PadJumpUp).unwrap();
        vs = m.vertical_state2;
        y = m.pos2.1;
        steps += 1;
    }
    assert_eq!(steps, 10);
    // with less than two tiles left the side jump is not possible
    let low = moves_from(&l, &p, (3, 5), VerticalState::PadJump(1));
    assert!(low.iter().all(|m| m.typ != MoveType::PadJumpLeft && m.typ != MoveType::PadJumpRight));
}

#[test]
fn walk_control_reaches_target() {
    let l = level(&[".....", ".....", ".....", "#####"]);
    let p = properties();
    let moves = moves_from(&l, &p, (1, 1), VerticalState::Default);
    let right = moves.into_iter().find(|m| m.typ == MoveType::WalkRight).unwrap();
    let mut x: i64 = 1_500_000;
    let mut last_distance = (2_500_000 - x).abs();
    let mut reached = false;
    for _ in 0..=right.ticks {
        match right.control(Position { x, y: 1_000_000 }, VerticalState::Default) {
            ControlResult::TargetReached => {
                reached = true;
                break;
            }
            ControlResult::MoveAction(a) => {
                x += a.velocity / 60;
                let d = (2_500_000 - x).abs();
                assert!(d < last_distance);
                last_distance = d;
            }
            ControlResult::Recover => panic!("went astray"),
        }
    }
    assert!(reached);
}

#[test]
fn control_recovers_outside_envelope() {
    let l = level(&[".....", ".....", ".....", "#####"]);
    let p = properties();
    let moves = moves_from(&l, &p, (1, 1), VerticalState::Default);
    let right = moves.into_iter().find(|m| m.typ == MoveType::WalkRight).unwrap();
    let r = right.control(Position { x: 1_500_000, y: 2_500_000 }, VerticalState::Default);
    assert_eq!(r, ControlResult::Recover);
}

#[test]
fn jump_decrements_budget() {
    let l = level(&["......", "......", "......", "......", "......", "......", "######"]);
    let p = properties();
    let from = moves_from(&l, &p, (2, 1), VerticalState::Default);
    let jump = from.iter().find(|m| m.typ == MoveType::Jump).unwrap();
    assert_eq!(jump.vertical_state2, VerticalState::Jump(4));
    let again = moves_from(&l, &p, (2, 2), VerticalState::Jump(4));
    let jump2 = again.iter().find(|m| m.typ == MoveType::Jump).unwrap();
    assert_eq!(jump2.vertical_state2, VerticalState::Jump(3));
    assert!(again.iter().any(|m| m.typ == MoveType::JumpStop && m.vertical_state2 == VerticalState::Default && m.ticks == 2));
    let last = moves_from(&l, &p, (2, 4), VerticalState::Jump(1));
    let jump3 = last.iter().find(|m| m.typ == MoveType::Jump).unwrap();
    assert_eq!(jump3.vertical_state2, VerticalState::Default);
}

#[test]
fn no_jump_without_floor() {
    let l = level(&["......", "......", "......", "......", "######"]);
    let p = properties();
    let from = moves_from(&l, &p, (2, 2), VerticalState::Default);
    assert!(from.iter().all(|m| m.typ != MoveType::Jump));
    assert!(from.iter().any(|m| m.typ == MoveType::Fall));
}

#[test]
fn fall_edge_needs_floor_and_gap() {
    let l = level(&["......", "......", "......", "##....", "######"]);
    let p = properties();
    let from = moves_from(&l, &p, (1, 2), VerticalState::Default);
    let edge: Vec<&Move> = from.iter().filter(|m| m.typ == MoveType::FallEdgeRight).collect();
    assert_eq!(edge.len(), 2);
    assert!(edge.iter().any(|m| m.pos2 == (2, 1)));
    assert!(edge.iter().any(|m| m.pos2 == (3, 1)));
    assert!(edge.iter().all(|m| m.ticks == 6));
}

#[test]
fn no_move_into_wall() {
    let l = level(&["......", "......", "...#..", "######"]);
    let p = properties();
    let from = moves_from(&l, &p, (2, 1), VerticalState::Default);
    assert!(from.iter().all(|m| l.tiles[m.pos2.0 as usize][m.pos2.1 as usize] != Tile::Wall));
    assert!(from.iter().all(|m| m.typ != MoveType::WalkRight));
}

#[test]
fn two_axis_moves_take_summed_time() {
    // a block beside to step onto, little room above
    let l = level(&["......", "..#...", "......", "......", "...#..", "######"]);
    let p = properties();
    let from = moves_from(&l, &p, (2, 1), VerticalState::Default);
    let j2 = from.iter().find(|m| m.typ == MoveType::Jump2Right).unwrap();
    assert_eq!(j2.pos2, (3, 2));
    assert_eq!(j2.ticks, 12);
}

#[test]
fn level_size() {
    let l = level(&["......", "......", "######"]);
    assert_eq!(l.width(), 6);
    assert_eq!(l.height(), 3);
    assert_eq!(l.tile_at(-1, 0), Tile::Wall);
    assert_eq!(l.tile_at(0, 1), Tile::Empty);
}

#[test]
fn l_shaped_moves_add_axis_times() {
    // at eight tiles a second a tile takes 7.5 ticks, eight when rounded up
    let l = level(&["......", "..#...", "......", "......", "...#..", "######"]);
    let mut p = properties();
    p.unit_max_horizontal_speed = 8_000_000;
    p.unit_jump_speed = 8_000_000;
    let from = moves_from(&l, &p, (2, 1), VerticalState::Default);
    let j2 = from.iter().find(|m| m.typ == MoveType::Jump2Right).unwrap();
    assert_eq!(j2.ticks, 16);
    let walk = moves_from(&l, &p, (2, 1), VerticalState::Default).into_iter().find(|m| m.typ == MoveType::WalkLeft).unwrap();
    assert_eq!(walk.ticks, 8);
}
