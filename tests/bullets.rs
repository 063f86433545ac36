use platformer_agent::bullets::{bullet_end, Bullet, Bullets, BulletsState, ExplosionParams};
use platformer_agent::control::Position;
use platformer_agent::level::{Level, Tile};
use platformer_agent::properties::Properties;

fn level(rows: &[&str]) -> Level {
    let height = rows.len();
    let width = rows[0].len();
    let mut tiles = vec![vec![Tile::Empty; height]; width];
    for (r, row) in rows.iter().enumerate() {
        let y = height - 1 - r;
        for (x, c) in row.chars().enumerate() {
            tiles[x][y] = if c == '#' { Tile::Wall } else { Tile::Empty };
        }
    }
    Level { tiles }
}

fn properties() -> Properties {
    Properties {
        ticks_per_second: 60,
        unit_size_x: 900_000,
        unit_size_y: 1_800_000,
        unit_max_horizontal_speed: 10_000_000,
        unit_fall_speed: 10_000_000,
        unit_jump_speed: 10_000_000,
        unit_jump_time: 550_000,
        jump_pad_jump_speed: 20_000_000,
        jump_pad_jump_time: 525_000,
        unit_max_health: 100,
        mine_explosion_radius: 3_000_000,
        mine_explosion_damage: 50,
    }
}

fn open_field() -> Level {
    level(&[
        "....................",
        "....................",
        "....................",
        "....................",
        "....................",
    ])
}

/// One bullet near (0, 2) flying right at five tiles a tick, 30 damage. It
/// starts half a tile in, as a bullet on the world's edge is already spent.
fn fast_bullet(unit_id: i32) -> Bullet {
    Bullet {
        unit_id,
        position: Position { x: 500_000, y: 2_000_000 },
        velocity_x: 300_000_000,
        velocity_y: 0,
        size: 200_000,
        damage: 30,
        explosion: None,
    }
}

#[test]
fn bullet_ends_at_wall() {
    let l = level(&["..........", "..........", ".......#..", ".........."]);
    let p = properties();
    let b = Bullet {
        unit_id: 1,
        position: Position { x: 1_500_000, y: 1_500_000 },
        velocity_x: 6_000_000,
        velocity_y: 0,
        size: 200_000,
        damage: 5,
        explosion: None,
    };
    // the leading corner reaches x = 7 after 5.4 tiles: 5400 micro-ticks at 0.001 tiles each
    let (end, tick) = bullet_end(&b, &l, &p);
    assert_eq!(tick, 5400);
    assert_eq!(end.x, 6_900_000);
    assert_eq!(end.y, 1_500_000);
}

#[test]
fn bullet_evasion() {
    let l = open_field();
    let p = properties();
    let bullets = Bullets::new(&vec![fast_bullet(7)], &l, &p);
    // 0.9 ticks later the bullet is at x = 5: a unit standing at (5, 1) is hit
    let standing = Position { x: 5_500_000, y: 1_000_000 };
    let (hits, splashes, after) = bullets.test(standing, 1, 90, &BulletsState::new(), &p);
    assert_eq!(hits.len(), 1);
    assert_eq!(hits[0].1, 30);
    assert!(splashes.is_empty());
    assert!(after.is_bullet_removed(0));
    // one tile lower it passes overhead
    let lower = Position { x: 5_500_000, y: 0 };
    let (hits, _, after) = bullets.test(lower, 1, 90, &BulletsState::new(), &p);
    assert!(hits.is_empty());
    assert!(!after.is_bullet_removed(0));
}

#[test]
fn probing_twice_gives_the_same() {
    let l = open_field();
    let p = properties();
    let bullets = Bullets::new(&vec![fast_bullet(7)], &l, &p);
    let at = Position { x: 5_500_000, y: 1_000_000 };
    let state = BulletsState::new();
    let (h1, s1, r1) = bullets.test(at, 1, 90, &state, &p);
    let (h2, s2, r2) = bullets.test(at, 1, 90, &state, &p);
    assert_eq!(h1, h2);
    assert_eq!(s1, s2);
    assert_eq!(r1.count_removed_bullets(), r2.count_removed_bullets());
    assert_eq!(r1.is_bullet_removed(0), r2.is_bullet_removed(0));
    // probing again with what the first probe spent finds nothing more
    let (h3, s3, r3) = bullets.test(at, 1, 90, &r1, &p);
    assert!(h3.is_empty());
    assert!(s3.is_empty());
    assert_eq!(r3.count_removed_bullets(), 1);
}

#[test]
fn own_bullet_does_not_hit() {
    let l = open_field();
    let p = properties();
    let bullets = Bullets::new(&vec![fast_bullet(1)], &l, &p);
    let at = Position { x: 5_500_000, y: 1_000_000 };
    let (hits, _, after) = bullets.test(at, 1, 90, &BulletsState::new(), &p);
    assert!(hits.is_empty());
    assert!(!after.is_bullet_removed(0));
    assert!(bullets.need_test(&after));
}

#[test]
fn expired_rocket_splashes() {
    let l = level(&["..........", "..........", "..........", "#########."]);
    let p = properties();
    let rocket = Bullet {
        unit_id: 9,
        position: Position { x: 3_500_000, y: 2_500_000 },
        velocity_x: 0,
        velocity_y: -6_000_000,
        size: 400_000,
        damage: 20,
        explosion: Some(ExplosionParams { radius: 3_000_000, damage: 40 }),
    };
    let bullets = Bullets::new(&vec![rocket], &l, &p);
    // well after the rocket meets the floor, a unit near it takes the splash only
    let near = Position { x: 5_500_000, y: 1_000_000 };
    let (hits, splashes, after) = bullets.test(near, 1, 1_400, &BulletsState::new(), &p);
    assert!(hits.is_empty());
    assert_eq!(splashes.len(), 1);
    assert_eq!(splashes[0].1, 40);
    assert_eq!(splashes[0].2, 3_000_000);
    assert!(after.is_bullet_removed(0));
    assert!(!bullets.need_test(&after));
}

#[test]
fn removed_state_bookkeeping() {
    let mut s = BulletsState::new();
    assert!(!s.is_bullet_removed(3));
    s.remove_bullet(3);
    assert!(s.is_bullet_removed(3));
    assert!(!s.is_bullet_removed(2));
    s.remove_bullet(1);
    s.remove_bullet(3);
    assert_eq!(s.count_removed_bullets(), 2);
}
