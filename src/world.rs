//! The snapshot of the world that the agent decides from, in integer units.
use vstd::prelude::*;
use crate::bullets::{Bullet, ExplosionParams};
use crate::control::{Position, in_world, MAX_COORD};
use crate::level::{Level, Tile};
use crate::path::{TilePos, VerticalState};
use crate::properties::{Properties, tiles_covered, MAX_SPEED, MAX_TIME};

verus! {

#[derive(Clone, Copy, Debug, PartialEq, Eq, Structural)]
pub enum WeaponType {
    Pistol,
    AssaultRifle,
    RocketLauncher,
}

#[derive(Clone, Copy, Debug, PartialEq, Eq, Structural)]
pub struct Weapon {
    pub typ: WeaponType,
    pub explosion: Option<ExplosionParams>,
    /// Time until the weapon may fire again, in microseconds.
    pub fire_timer: Option<u64>,
}

/// Speeds in micro-tiles per second, times in microseconds.
#[derive(Clone, Copy, Debug, PartialEq, Eq, Structural)]
pub struct JumpState {
    pub can_jump: bool,
    pub speed: u64,
    pub max_time: u64,
}

#[derive(Clone, Copy, Debug, PartialEq, Eq, Structural)]
pub struct Unit {
    pub id: i32,
    pub player_id: i32,
    pub position: Position,
    pub health: i32,
    pub mines: i32,
    pub jump_state: JumpState,
    pub weapon: Option<Weapon>,
}

#[derive(Clone, Copy, Debug, PartialEq, Eq, Structural)]
pub enum Item {
    Weapon(WeaponType),
    HealthPack(i32),
    Mine,
}

#[derive(Clone, Copy, Debug, PartialEq, Eq, Structural)]
pub struct LootBox {
    pub position: Position,
    pub item: Item,
}

impl Unit {
    pub open spec fn wf(&self) -> bool {
        &&& in_world(self.position)
        &&& 0 <= self.mines <= 1000
        &&& 0 <= self.health <= 1_000_000
        &&& self.jump_state.speed <= MAX_SPEED
        &&& self.jump_state.max_time <= MAX_TIME
        &&& match self.weapon {
            Some(w) => match w.explosion {
                Some(e) => 0 <= e.damage <= 1_000_000,
                None => true,
            },
            None => true,
        }
    }
}

/// The vertical state of a unit: walking or falling unless it is part way
/// through a jump, standard or from a pad, with the tiles of rise left.
pub open spec fn vertical_state_of(unit: Unit, p: Properties) -> VerticalState {
    let js = unit.jump_state;
    if !js.can_jump || js.max_time == p.unit_jump_time {
        VerticalState::Default
    } else if js.speed == p.jump_pad_jump_speed {
        VerticalState::PadJump(tiles_covered(js.max_time, js.speed) as usize)
    } else {
        VerticalState::Jump(tiles_covered(js.max_time, js.speed) as usize)
    }
}

pub fn get_vertical_state(unit: &Unit, properties: &Properties) -> (r: VerticalState)
    requires
        unit.wf(),
    ensures
        r == vertical_state_of(*unit, *properties),
{
    let js = unit.jump_state;
    if !js.can_jump || js.max_time == properties.unit_jump_time {
        return VerticalState::Default;
    }
    let t = js.max_time as u128;
    let v = js.speed as u128;
    assert(t * v <= 1_000_000_000_000_000_000) by (nonlinear_arith)
        requires
            t <= 1_000_000_000,
            v <= 1_000_000_000,
    ;
    let k = t * v / 1_000_000_000_000u128;
    assert(k <= 1_000_000) by {
        vstd::arithmetic::div_mod::lemma_div_is_ordered((t * v) as int, 1_000_000_000_000_000_000, 1_000_000_000_000);
    }
    if js.speed == properties.jump_pad_jump_speed {
        VerticalState::PadJump(k as usize)
    } else {
        VerticalState::Jump(k as usize)
    }
}

/// A mine may be planted at `pos`: feet on a wall or platform, and neither
/// feet nor head on a ladder.
pub open spec fn plantable(level: Level, pos: TilePos) -> bool {
    let (x, y) = (pos.0 as int, pos.1 as int);
    &&& level.tile(x, y) != Tile::Ladder
    &&& level.tile(x, y + 1) != Tile::Ladder
    &&& (level.tile(x, y - 1) == Tile::Wall || level.tile(x, y - 1) == Tile::Platform)
}

pub fn can_plant_mine(pos: TilePos, level: &Level) -> (r: bool)
    requires
        level.wf(),
        -1 <= pos.0 <= crate::level::MAX_SIDE,
        -1 <= pos.1 <= crate::level::MAX_SIDE,
    ensures
        r == plantable(*level, pos),
{
    if level.tile_at(pos.0, pos.1) == Tile::Ladder || level.tile_at(pos.0, pos.1 + 1) == Tile::Ladder {
        return false;
    }
    let below = level.tile_at(pos.0, pos.1 - 1);
    below == Tile::Wall || below == Tile::Platform
}

pub open spec fn abs(v: int) -> int {
    if v < 0 {
        -v
    } else {
        v
    }
}

/// Some enemy of `my_player_id` would die of `damage` from a mine set off at
/// `at`.
pub open spec fn suicide_effective(units: Seq<Unit>, at: Position, my_player_id: i32, damage: int, p: Properties) -> bool {
    exists|i: int|
        0 <= i < units.len() && {
            let u = #[trigger] units[i];
            &&& u.player_id != my_player_id
            &&& u.health <= damage
            &&& abs(u.position.x - at.x) <= p.mine_explosion_radius
            &&& abs(u.position.y - at.y) <= p.mine_explosion_radius
        }
}

pub fn suicide_is_effective(planting_unit_position: Position, my_player_id: i32, suicide_damage: i64, units: &Vec<Unit>, properties: &Properties) -> (r: bool)
    requires
        in_world(planting_unit_position),
        forall|i: int| 0 <= i < units@.len() ==> (#[trigger] units@[i]).wf(),
        properties.wf(),
    ensures
        r == suicide_effective(units@, planting_unit_position, my_player_id, suicide_damage as int, *properties),
{
    let mut i: usize = 0;
    while i < units.len()
        invariant
            i <= units@.len(),
            forall|i: int| 0 <= i < units@.len() ==> (#[trigger] units@[i]).wf(),
            in_world(planting_unit_position),
            forall|k: int|
                0 <= k < i ==> !{
                    let u = #[trigger] units@[k];
                    &&& u.player_id != my_player_id
                    &&& u.health <= suicide_damage
                    &&& abs(u.position.x - planting_unit_position.x) <= properties.mine_explosion_radius
                    &&& abs(u.position.y - planting_unit_position.y) <= properties.mine_explosion_radius
                },
        decreases units@.len() - i,
    {
        let u = units[i];
        let dx = if u.position.x >= planting_unit_position.x {
            u.position.x - planting_unit_position.x
        } else {
            planting_unit_position.x - u.position.x
        };
        let dy = if u.position.y >= planting_unit_position.y {
            u.position.y - planting_unit_position.y
        } else {
            planting_unit_position.y - u.position.y
        };
        if u.player_id != my_player_id && u.health as i64 <= suicide_damage && dx <= properties.mine_explosion_radius
            && dy <= properties.mine_explosion_radius {
            return true;
        }
        i = i + 1;
    }
    false
}

/// The damage a unit would deal by blowing itself up: its mines, and the
/// explosion of its rocket launcher if it holds one.
pub open spec fn suicide_damage_of(unit: Unit, p: Properties) -> int {
    unit.mines * p.mine_explosion_damage + match unit.weapon {
        Some(w) => if w.typ == WeaponType::RocketLauncher {
            match w.explosion {
                Some(e) => e.damage as int,
                None => 0,
            }
        } else {
            0
        },
        None => 0,
    }
}

pub fn suicide_damage(unit: &Unit, properties: &Properties) -> (r: i64)
    requires
        unit.wf(),
        properties.wf(),
    ensures
        r == suicide_damage_of(*unit, *properties),
        0 <= r <= 1_001_000_000,
{
    assert(unit.mines * properties.mine_explosion_damage <= 1_000_000_000) by (nonlinear_arith)
        requires
            0 <= unit.mines <= 1000,
            0 <= properties.mine_explosion_damage <= 1_000_000,
    ;
    assert(unit.mines * properties.mine_explosion_damage >= 0) by (nonlinear_arith)
        requires
            0 <= unit.mines,
            0 <= properties.mine_explosion_damage,
    ;
    let mines = unit.mines as i64 * properties.mine_explosion_damage as i64;
    let rocket: i64 = match unit.weapon {
        Some(w) => if w.typ == WeaponType::RocketLauncher {
            match w.explosion {
                Some(e) => e.damage as i64,
                None => 0,
            }
        } else {
            0
        },
        None => 0,
    };
    mines + rocket
}

/// The damage of a blast set off by a unit that has planted its mine: at
/// least one mine goes off, with its rocket if it holds a launcher.
pub open spec fn blast_damage_of(unit: Unit, p: Properties) -> int {
    (if unit.mines > 1 { unit.mines as int } else { 1 }) * p.mine_explosion_damage + (suicide_damage_of(unit, p)
        - unit.mines * p.mine_explosion_damage)
}

pub fn blast_damage(unit: &Unit, properties: &Properties) -> (r: i64)
    requires
        unit.wf(),
        properties.wf(),
    ensures
        r == blast_damage_of(*unit, *properties),
{
    let all = suicide_damage(unit, properties);
    proof {
        let m = unit.mines as int;
        let d = properties.mine_explosion_damage as int;
        if m == 0 {
            assert(m * d == 0) by (nonlinear_arith)
                requires
                    m == 0,
            ;
        } else if m == 1 {
            assert(m * d == d) by (nonlinear_arith)
                requires
                    m == 1,
            ;
        }
    }
    if unit.mines == 0 {
        all + properties.mine_explosion_damage as i64
    } else {
        all
    }
}

/// The weapon may fire within a tick.
pub open spec fn fire_ready(unit: Unit, p: Properties) -> bool {
    match unit.weapon {
        Some(w) => match w.fire_timer {
            Some(t) => t * p.ticks_per_second <= 1_000_000,
            None => true,
        },
        None => false,
    }
}

} // verus!
