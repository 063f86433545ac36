use platformer_agent::control::{
    choose_horizontal_speed, get_mine_suicide_move, get_recover_move, target_reached, tile_pos, to_unit_position,
    ControlResult, Position,
};
use platformer_agent::path::{MoveType, VerticalState};

#[test]
fn full_speed_far_from_target() {
    assert_eq!(choose_horizontal_speed(1_000_000, 2_500_000), 10_000_000);
    assert_eq!(choose_horizontal_speed(4_000_000, 2_500_000), -10_000_000);
}

#[test]
fn slows_to_land_on_target() {
    // a tenth of a tile left: six tiles a second covers it in one tick
    assert_eq!(choose_horizontal_speed(2_400_000, 2_500_000), 6_000_000);
    assert_eq!(choose_horizontal_speed(2_600_000, 2_500_000), -6_000_000);
    assert_eq!(choose_horizontal_speed(2_500_000, 2_500_000), 0);
}

#[test]
fn reached_tolerances() {
    let centre = Position { x: 2_500_000, y: 1_000_000 };
    assert!(target_reached(centre, (2, 1), VerticalState::Default));
    assert!(target_reached(Position { x: 2_548_000, y: 1_199_000 }, (2, 1), VerticalState::Default));
    assert!(!target_reached(Position { x: 2_549_000, y: 1_000_000 }, (2, 1), VerticalState::Default));
    assert!(!target_reached(Position { x: 2_500_000, y: 1_300_000 }, (2, 1), VerticalState::Jump(2)));
    // twice the height on a pad jump
    assert!(target_reached(Position { x: 2_500_000, y: 1_300_000 }, (2, 1), VerticalState::PadJump(2)));
    assert!(!target_reached(Position { x: 2_500_000, y: 999_999 }, (2, 1), VerticalState::Default));
}

#[test]
fn recover_jumps_to_tile_centre() {
    let m = get_recover_move();
    assert_eq!(m.typ, MoveType::Recover);
    assert_eq!(m.ticks, 1);
    match m.control(Position { x: 3_200_000, y: 1_500_000 }, VerticalState::Default) {
        ControlResult::MoveAction(a) => {
            assert_eq!(a.typ, MoveType::Recover);
            assert_eq!(a.velocity, 10_000_000);
            assert!(a.jump);
            assert!(!a.jump_down);
        }
        _ => panic!("expected controls"),
    }
    assert_eq!(m.control(Position { x: 3_500_000, y: 1_000_000 }, VerticalState::Default), ControlResult::TargetReached);
}

#[test]
fn mine_suicide_stands_still() {
    let m = get_mine_suicide_move();
    match m.control(Position { x: 3_200_000, y: 1_500_000 }, VerticalState::Default) {
        ControlResult::MoveAction(a) => {
            assert_eq!(a.typ, MoveType::MineSuicide);
            assert_eq!(a.velocity, 0);
            assert!(!a.jump && !a.jump_down);
        }
        _ => panic!("expected controls"),
    }
}

#[test]
fn tiles_and_positions() {
    assert_eq!(tile_pos(Position { x: 3_999_999, y: 1_000_000 }), (3, 1));
    let p = to_unit_position((4, 2));
    assert_eq!(p, Position { x: 4_500_000, y: 2_000_000 });
}
