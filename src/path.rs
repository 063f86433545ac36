//! The tile movement catalog: which moves are legal from a tile and vertical
//! state, where they lead, and how many ticks they take.
use vstd::prelude::*;
use crate::level::{Level, Tile};
use crate::properties::{
    Properties, MICRO, axis_ticks, sum_axis_ticks, one_axis_ticks, two_axis_ticks,
    tiles_covered,
};

verus! {

pub type TilePos = (isize, isize);

/// The node coordinate beyond the tile: walking or falling, or in flight with
/// a number of tiles of rise left.
#[derive(Clone, Copy, Debug, PartialEq, Eq, Structural, Hash)]
pub enum VerticalState {
    Default,
    Jump(usize),
    PadJump(usize),
}

#[derive(Clone, Copy, Debug, PartialEq, Eq, Structural, Hash)]
pub enum MoveType {
    Start,
    Recover,
    MineSuicide,
    WalkLeft,
    WalkRight,
    LadderUp,
    LadderDown,
    Fall,
    FallLeft,
    FallRight,
    Fall2Left,
    Fall2Right,
    FallEdgeLeft,
    FallEdgeRight,
    Jump,
    JumpLeft,
    JumpRight,
    Jump2Left,
    Jump2Right,
    JumpStop,
    PadJumpLeft,
    PadJumpRight,
    PadJump2Left,
    PadJump2Right,
    PadJumpUp,
    PadJumpStop,
}

/// An edge of the movement graph. How the unit is steered along it follows
/// from its kind and its two ends (see `Move::control`).
#[derive(Clone, Copy, Debug, Hash)]
pub struct Move {
    pub typ: MoveType,
    pub pos1: TilePos,
    pub vertical_state1: VerticalState,
    pub pos2: TilePos,
    pub vertical_state2: VerticalState,
    pub ticks: i32,
}

impl PartialEq for Move {
    fn eq(&self, other: &Move) -> (r: bool) {
        self.typ == other.typ && self.pos1.0 == other.pos1.0 && self.pos1.1 == other.pos1.1
            && self.pos2.0 == other.pos2.0 && self.pos2.1 == other.pos2.1
            && self.vertical_state1 == other.vertical_state1
            && self.vertical_state2 == other.vertical_state2 && self.ticks == other.ticks
    }
}

impl vstd::std_specs::cmp::PartialEqSpecImpl for Move {
    open spec fn obeys_eq_spec() -> bool {
        true
    }

    open spec fn eq_spec(&self, other: &Move) -> bool {
        *self == *other
    }
}

impl Eq for Move {
}

// ---------------------------------------------------------------------------
// Tile predicates

/// A unit may be in `(x, y)`: inside the grid and not a wall, nor a ladder or
/// a jump pad where the caller asks to avoid those.
pub open spec fn passable(level: Level, x: int, y: int, avoid_ladders: bool, avoid_jump_pad: bool) -> bool {
    &&& level.in_grid(x, y)
    &&& level.tile(x, y) != Tile::Wall
    &&& !(avoid_ladders && level.tile(x, y) == Tile::Ladder)
    &&& !(avoid_jump_pad && level.tile(x, y) == Tile::JumpPad)
}

/// The unit standing in `(x, y)` touches a ladder with its feet or its head.
pub open spec fn on_ladder(level: Level, x: int, y: int) -> bool {
    level.tile(x, y) == Tile::Ladder || level.tile(x, y + 1) == Tile::Ladder
}

/// A tile that gives no footing.
pub open spec fn no_floor(t: Tile) -> bool {
    t == Tile::Empty || t == Tile::JumpPad
}

pub open spec fn solid(t: Tile) -> bool {
    t == Tile::Wall || t == Tile::Platform
}

/// Tiles of rise of a standard jump.
pub open spec fn jump_max(p: Properties) -> int {
    tiles_covered(p.unit_jump_time, p.unit_jump_speed)
}

/// Tiles of rise of a jump from a pad.
pub open spec fn pad_max(p: Properties) -> int {
    tiles_covered(p.jump_pad_jump_time, p.jump_pad_jump_speed)
}

/// The state on arriving in `(x, y)` by a move that ends any flight: a pad
/// launches a new pad jump.
pub open spec fn landing_state(level: Level, p: Properties, x: int, y: int) -> VerticalState {
    if level.tile(x, y) == Tile::JumpPad {
        VerticalState::PadJump(pad_max(p) as usize)
    } else {
        VerticalState::Default
    }
}

pub open spec fn is_pad_jump(vs: VerticalState) -> bool {
    vs is PadJump
}

/// A standard jump may begin or go on: from a footing in the default state,
/// or with rise left.
pub open spec fn can_rise(level: Level, x: int, y: int, vs: VerticalState) -> bool {
    match vs {
        VerticalState::Default => !no_floor(level.tile(x, y - 1)),
        VerticalState::Jump(k) => k >= 1,
        VerticalState::PadJump(_) => false,
    }
}

/// Pad rise left in `vs`, or none.
pub open spec fn pad_left(vs: VerticalState) -> int {
    match vs {
        VerticalState::PadJump(k) => k as int,
        _ => -1,
    }
}

/// The state after rising one tile into `(x, y)` on a standard jump. A ladder
/// there, or just above, catches the unit.
pub open spec fn rise_state(level: Level, p: Properties, x: int, y: int, vs: VerticalState) -> VerticalState {
    if level.tile(x, y) == Tile::JumpPad {
        VerticalState::PadJump(pad_max(p) as usize)
    } else if level.tile(x, y) == Tile::Ladder || level.tile(x, y + 1) == Tile::Ladder {
        VerticalState::Default
    } else {
        match vs {
            VerticalState::Jump(k) => if k > 1 {
                VerticalState::Jump((k - 1) as usize)
            } else {
                VerticalState::Default
            },
            _ => VerticalState::Jump((jump_max(p) - 1) as usize),
        }
    }
}

/// The state after rising `n` tiles into `(x, y)` on a pad jump with `k`
/// tiles left; `ladder_above` says whether a ladder just above also stops it.
pub open spec fn pad_rise_state(
    level: Level,
    p: Properties,
    x: int,
    y: int,
    k: int,
    n: int,
    ladder_above: bool,
) -> VerticalState {
    if level.tile(x, y) == Tile::JumpPad {
        VerticalState::PadJump(pad_max(p) as usize)
    } else if level.tile(x, y) == Tile::Ladder || (ladder_above && level.tile(x, y + 1) == Tile::Ladder) {
        VerticalState::Default
    } else if k > n {
        VerticalState::PadJump((k - n) as usize)
    } else {
        VerticalState::Default
    }
}

// ---------------------------------------------------------------------------
// The kinds of movement

pub struct WalkSideMovement {
    pub delta: isize,
}

pub struct LadderMovement {
    pub vdelta: isize,
}

pub struct FallMovement {
    pub delta: isize,
}

/// Sliding down past a wall beside the destination:
/// ```text
/// P##
/// P.#
/// ..#
/// .##
/// ```
pub struct Fall2Movement {
    pub delta: isize,
}

/// Stepping off the edge of a floor, one or two columns aside.
pub struct FallEdgeMovement {
    pub delta: isize,
}

pub struct JumpMovement {
    pub delta: isize,
}

/// Jumping onto a block with little room above:
/// ```text
/// .#.
/// ...
/// P..
/// P#.
/// ```
pub struct Jump2Movement {
    pub delta: isize,
}

/// Ends a standard jump where it is, to climb platforms without side steps.
pub struct JumpStopMovement {}

pub struct PadJumpMovement {
    pub delta: isize,
}

/// From a pad jump onto a block beside, under a wall:
/// ```text
/// .#
/// ..
/// P.
/// P#
/// ```
pub struct PadJump2Movement {
    pub delta: isize,
}

pub struct PadJumpUpMovement {}

/// Ends a pad jump under a ceiling.
pub struct PadJumpStopMovement {}

pub enum TileMovement {
    WalkSide(WalkSideMovement),
    Ladder(LadderMovement),
    Fall(FallMovement),
    Fall2(Fall2Movement),
    FallEdge(FallEdgeMovement),
    Jump(JumpMovement),
    Jump2(Jump2Movement),
    JumpStop(JumpStopMovement),
    PadJump(PadJumpMovement),
    PadJump2(PadJump2Movement),
    PadJumpUp(PadJumpUpMovement),
    PadJumpStop(PadJumpStopMovement),
}

pub open spec fn side(d: int) -> bool {
    d == -1 || d == 1
}

pub open spec fn sign(d: int) -> int {
    if d > 0 {
        1
    } else {
        -1
    }
}

impl TileMovement {
    /// Offsets as the catalog uses them: one column aside for most kinds,
    /// up to two for stepping off an edge, and straight down or up for falls
    /// and jumps.
    pub open spec fn wf(&self) -> bool {
        match self {
            TileMovement::WalkSide(m) => side(m.delta as int),
            TileMovement::Ladder(m) => side(m.vdelta as int),
            TileMovement::Fall(m) => -1 <= m.delta <= 1,
            TileMovement::Fall2(m) => side(m.delta as int),
            TileMovement::FallEdge(m) => m.delta != 0 && -2 <= m.delta <= 2,
            TileMovement::Jump(m) => -1 <= m.delta <= 1,
            TileMovement::Jump2(m) => side(m.delta as int),
            TileMovement::PadJump(m) => side(m.delta as int),
            TileMovement::PadJump2(m) => side(m.delta as int),
            _ => true,
        }
    }

    /// The destination tile from `(x, y)`.
    pub open spec fn target(&self, x: int, y: int) -> (int, int) {
        match self {
            TileMovement::WalkSide(m) => (x + m.delta, y),
            TileMovement::Ladder(m) => (x, y + m.vdelta),
            TileMovement::Fall(m) => (x + m.delta, y - 1),
            TileMovement::Fall2(m) => (x + m.delta, y - 1),
            TileMovement::FallEdge(m) => (x + m.delta, y - 1),
            TileMovement::Jump(m) => (x + m.delta, y + 1),
            TileMovement::Jump2(m) => (x + m.delta, y + 1),
            TileMovement::JumpStop(_) => (x, y),
            TileMovement::PadJump(m) => (x + m.delta, y + 2),
            TileMovement::PadJump2(m) => (x + m.delta, y + 1),
            TileMovement::PadJumpUp(_) => (x, y + 1),
            TileMovement::PadJumpStop(_) => (x, y),
        }
    }

    pub open spec fn move_type(&self) -> MoveType {
        match self {
            TileMovement::WalkSide(m) => if m.delta < 0 { MoveType::WalkLeft } else { MoveType::WalkRight },
            TileMovement::Ladder(m) => if m.vdelta < 0 { MoveType::LadderDown } else { MoveType::LadderUp },
            TileMovement::Fall(m) => if m.delta < 0 {
                MoveType::FallLeft
            } else if m.delta > 0 {
                MoveType::FallRight
            } else {
                MoveType::Fall
            },
            TileMovement::Fall2(m) => if m.delta < 0 { MoveType::Fall2Left } else { MoveType::Fall2Right },
            TileMovement::FallEdge(m) => if m.delta < 0 {
                MoveType::FallEdgeLeft
            } else {
                MoveType::FallEdgeRight
            },
            TileMovement::Jump(m) => if m.delta < 0 {
                MoveType::JumpLeft
            } else if m.delta > 0 {
                MoveType::JumpRight
            } else {
                MoveType::Jump
            },
            TileMovement::Jump2(m) => if m.delta < 0 { MoveType::Jump2Left } else { MoveType::Jump2Right },
            TileMovement::JumpStop(_) => MoveType::JumpStop,
            TileMovement::PadJump(m) => if m.delta < 0 {
                MoveType::PadJumpLeft
            } else {
                MoveType::PadJumpRight
            },
            TileMovement::PadJump2(m) => if m.delta < 0 {
                MoveType::PadJump2Left
            } else {
                MoveType::PadJump2Right
            },
            TileMovement::PadJumpUp(_) => MoveType::PadJumpUp,
            TileMovement::PadJumpStop(_) => MoveType::PadJumpStop,
        }
    }

    /// Ticks the move takes: one tile on one axis, or one on each for the
    /// kinds that turn a corner. The two stops take fixed times.
    pub open spec fn cost(&self, p: Properties) -> int {
        let tps = p.ticks_per_second;
        match self {
            TileMovement::WalkSide(_) => one_axis_ticks(tps, p.unit_max_horizontal_speed),
            TileMovement::Ladder(m) => if m.vdelta > 0 {
                one_axis_ticks(tps, p.unit_jump_speed)
            } else {
                one_axis_ticks(tps, p.unit_fall_speed)
            },
            TileMovement::Fall(_) => one_axis_ticks(tps, p.unit_fall_speed),
            TileMovement::Fall2(_) => two_axis_ticks(tps, p.unit_max_horizontal_speed, p.unit_fall_speed),
            TileMovement::FallEdge(_) => one_axis_ticks(tps, p.unit_fall_speed),
            TileMovement::Jump(_) => one_axis_ticks(tps, p.unit_jump_speed),
            TileMovement::Jump2(_) => two_axis_ticks(tps, p.unit_max_horizontal_speed, p.unit_jump_speed),
            TileMovement::JumpStop(_) => 2,
            TileMovement::PadJump(_) => one_axis_ticks((2 * tps) as u64, p.jump_pad_jump_speed),
            TileMovement::PadJump2(_) => two_axis_ticks(tps, p.unit_max_horizontal_speed, p.jump_pad_jump_speed),
            TileMovement::PadJumpUp(_) => one_axis_ticks(tps, p.jump_pad_jump_speed),
            TileMovement::PadJumpStop(_) => 3,
        }
    }

    /// Whether the move may be made from `(x, y)` in state `vs`.
    pub open spec fn legal(&self, level: Level, x: int, y: int, vs: VerticalState) -> bool {
        let (tx, ty) = self.target(x, y);
        match self {
            TileMovement::WalkSide(_) => {
                &&& !is_pad_jump(vs)
                &&& !(no_floor(level.tile(x, y - 1)) && !on_ladder(level, x, y))
                &&& !(no_floor(level.tile(tx, y - 1)) && !on_ladder(level, x, y))
                &&& passable(level, tx, ty, false, false)
                &&& passable(level, tx, ty + 1, false, true)
            },
            TileMovement::Ladder(_) => {
                &&& !is_pad_jump(vs)
                &&& on_ladder(level, x, y)
                &&& passable(level, tx, ty, false, false)
                &&& passable(level, tx, ty + 1, false, true)
            },
            TileMovement::Fall(m) => {
                &&& !is_pad_jump(vs)
                &&& passable(level, tx, ty, false, false)
                &&& passable(level, tx, ty + 1, false, true)
                &&& (m.delta != 0 ==> passable(level, tx, ty + 2, false, true))
                &&& (m.delta != 0 ==> passable(level, x, y - 1, false, true))
            },
            TileMovement::Fall2(_) => {
                &&& !is_pad_jump(vs)
                &&& level.tile(tx, ty + 2) == Tile::Wall
                &&& passable(level, tx, ty, false, false)
                &&& passable(level, tx, ty + 1, false, true)
                &&& passable(level, x, y - 1, false, true)
            },
            TileMovement::FallEdge(m) => {
                let s = sign(m.delta as int);
                &&& !is_pad_jump(vs)
                &&& solid(level.tile(x, y - 1))
                &&& level.tile(x + s, y - 1) == Tile::Empty
                &&& passable(level, tx, ty, false, false)
                &&& passable(level, tx, ty + 1, false, true)
                &&& passable(level, tx, ty + 2, false, true)
                &&& (s != m.delta ==> {
                    &&& passable(level, x + s, y - 1, false, true)
                    &&& passable(level, x + s, y, false, true)
                    &&& passable(level, x + s, y + 1, false, true)
                })
            },
            TileMovement::Jump(m) => {
                &&& can_rise(level, x, y, vs)
                &&& passable(level, tx, ty, false, false)
                &&& passable(level, tx, ty + 1, false, true)
                &&& (m.delta != 0 ==> passable(level, tx, ty - 1, false, true))
                &&& (m.delta != 0 ==> passable(level, x, y + 2, false, true))
            },
            TileMovement::Jump2(_) => {
                &&& can_rise(level, x, y, vs)
                &&& solid(level.tile(tx, ty - 1))
                &&& passable(level, tx, ty, false, false)
                &&& passable(level, tx, ty + 1, false, true)
                &&& passable(level, x, y + 2, false, true)
            },
            TileMovement::JumpStop(_) => vs is Jump,
            TileMovement::PadJump(_) => {
                &&& pad_left(vs) >= 2
                &&& passable(level, tx, ty, false, false)
                &&& passable(level, tx, ty + 1, false, true)
                &&& passable(level, tx, ty - 2, true, true)
                &&& passable(level, tx, ty - 1, true, true)
                &&& passable(level, x, y + 2, true, true)
                &&& passable(level, x, y + 3, true, true)
            },
            TileMovement::PadJump2(_) => {
                &&& pad_left(vs) >= 1
                &&& passable(level, tx, ty, false, false)
                &&& passable(level, tx, ty + 1, false, true)
                &&& level.tile(tx, ty - 1) == Tile::Wall
                &&& level.tile(tx, ty + 2) == Tile::Wall
                &&& passable(level, x, y + 2, true, true)
            },
            TileMovement::PadJumpUp(_) => {
                &&& pad_left(vs) >= 1
                &&& passable(level, tx, ty, false, false)
                &&& passable(level, tx, ty + 1, false, true)
            },
            TileMovement::PadJumpStop(_) => {
                &&& is_pad_jump(vs)
                &&& level.tile(x, y + 2) == Tile::Wall
            },
        }
    }

    /// The vertical state on arrival.
    pub open spec fn target_state(&self, level: Level, p: Properties, x: int, y: int, vs: VerticalState) -> VerticalState {
        let (tx, ty) = self.target(x, y);
        match self {
            TileMovement::Jump(_) => rise_state(level, p, tx, ty, vs),
            TileMovement::JumpStop(_) => VerticalState::Default,
            TileMovement::PadJump(_) => pad_rise_state(level, p, tx, ty, pad_left(vs), 2, true),
            TileMovement::PadJumpUp(_) => pad_rise_state(level, p, tx, ty, pad_left(vs), 1, false),
            TileMovement::PadJumpStop(_) => VerticalState::Default,
            _ => landing_state(level, p, tx, ty),
        }
    }

    /// What `can_move` gives from `pos` in state `vs`.
    pub open spec fn result(&self, level: Level, p: Properties, pos: TilePos, vs: VerticalState) -> Option<Move> {
        let (x, y) = (pos.0 as int, pos.1 as int);
        let (tx, ty) = self.target(x, y);
        if self.legal(level, x, y, vs) {
            Some(Move {
                typ: self.move_type(),
                pos1: pos,
                vertical_state1: vs,
                pos2: (tx as isize, ty as isize),
                vertical_state2: self.target_state(level, p, x, y, vs),
                ticks: self.cost(p) as i32,
            })
        } else {
            None
        }
    }
}

/// Where `can_move` may be asked: a well-formed grid and properties, and a
/// source tile inside the grid.
pub open spec fn can_move_pre(level: Level, p: Properties, pos: TilePos) -> bool {
    level.wf() && p.wf() && level.in_grid(pos.0 as int, pos.1 as int)
}

// ---------------------------------------------------------------------------
// Executable helpers

pub fn check_possible_location(pos: TilePos, level: &Level, avoid_ladders: bool, avoid_jump_pad: bool) -> (r: bool)
    requires
        level.wf(),
    ensures
        r == passable(*level, pos.0 as int, pos.1 as int, avoid_ladders, avoid_jump_pad),
{
    if pos.0 < 0 || pos.0 as usize >= level.width() {
        return false;
    }
    if pos.1 < 0 || pos.1 as usize >= level.height() {
        return false;
    }
    match level.tile_at(pos.0, pos.1) {
        Tile::Wall => false,
        Tile::Ladder => !avoid_ladders,
        Tile::JumpPad => !avoid_jump_pad,
        _ => true,
    }
}

pub fn jump_max_tiles(properties: &Properties) -> (r: usize)
    requires
        properties.wf(),
    ensures
        r == jump_max(*properties),
        r >= 1,
{
    covered_tiles(properties.unit_jump_time, properties.unit_jump_speed)
}

pub fn pad_jump_max_tiles(properties: &Properties) -> (r: usize)
    requires
        properties.wf(),
    ensures
        r == pad_max(*properties),
{
    covered_tiles(properties.jump_pad_jump_time, properties.jump_pad_jump_speed)
}

fn covered_tiles(time: u64, speed: u64) -> (r: usize)
    requires
        time <= crate::properties::MAX_TIME,
        crate::properties::speed_ok(speed),
    ensures
        r == tiles_covered(time, speed),
{
    let t = time as u128;
    let v = speed as u128;
    assert(t * v <= 1_000_000_000_000_000_000) by (nonlinear_arith)
        requires
            t <= 1_000_000_000,
            v <= 1_000_000_000,
    ;
    let d: u128 = 1_000_000_000_000;
    assert(d == (MICRO as int) * (MICRO as int));
    let r = t * v / d;
    assert(r <= 1_000_000) by {
        vstd::arithmetic::div_mod::lemma_div_is_ordered((t * v) as int, 1_000_000_000_000_000_000, 1_000_000_000_000);
    }
    r as usize
}

pub fn unit_is_on_ladder(pos: TilePos, level: &Level) -> (r: bool)
    requires
        level.wf(),
        pos.1 < isize::MAX,
    ensures
        r == on_ladder(*level, pos.0 as int, pos.1 as int),
{
    if level.tile_at(pos.0, pos.1) == Tile::Ladder {
        return true;
    }
    level.tile_at(pos.0, pos.1 + 1) == Tile::Ladder
}

fn landing_vertical_state(pos: TilePos, level: &Level, properties: &Properties) -> (r: VerticalState)
    requires
        level.wf(),
        properties.wf(),
    ensures
        r == landing_state(*level, *properties, pos.0 as int, pos.1 as int),
{
    if level.tile_at(pos.0, pos.1) == Tile::JumpPad {
        VerticalState::PadJump(pad_jump_max_tiles(properties))
    } else {
        VerticalState::Default
    }
}

fn pad_rise_vertical_state(
    pos: TilePos,
    k: usize,
    n: usize,
    ladder_above: bool,
    level: &Level,
    properties: &Properties,
) -> (r: VerticalState)
    requires
        level.wf(),
        properties.wf(),
        level.in_grid(pos.0 as int, pos.1 as int),
    ensures
        r == pad_rise_state(*level, *properties, pos.0 as int, pos.1 as int, k as int, n as int, ladder_above),
{
    let t = level.tile_at(pos.0, pos.1);
    if t == Tile::JumpPad {
        VerticalState::PadJump(pad_jump_max_tiles(properties))
    } else if t == Tile::Ladder || (ladder_above && level.tile_at(pos.0, pos.1 + 1) == Tile::Ladder) {
        VerticalState::Default
    } else if k > n {
        VerticalState::PadJump(k - n)
    } else {
        VerticalState::Default
    }
}

fn no_floor_tile(t: Tile) -> (r: bool)
    ensures
        r == no_floor(t),
{
    t == Tile::Empty || t == Tile::JumpPad
}

fn solid_tile(t: Tile) -> (r: bool)
    ensures
        r == solid(t),
{
    t == Tile::Wall || t == Tile::Platform
}

impl WalkSideMovement {
    pub fn can_move(&self, tile_pos: TilePos, vertical_state: VerticalState, level: &Level, properties: &Properties) -> (r: Option<Move>)
        requires
            side(self.delta as int),
            can_move_pre(*level, *properties, tile_pos),
        ensures
            r == TileMovement::WalkSide(WalkSideMovement { delta: self.delta }).result(*level, *properties, tile_pos, vertical_state),
    {
        if matches!(vertical_state, VerticalState::PadJump(_)) {
            return None;
        }
        let (x, y) = tile_pos;
        let ladder = unit_is_on_ladder(tile_pos, level);
        if no_floor_tile(level.tile_at(x, y - 1)) && !ladder {
            return None;
        }
        let new_pos = (x + self.delta, y);
        // stepping off an edge is a move of its own
        if no_floor_tile(level.tile_at(new_pos.0, new_pos.1 - 1)) && !ladder {
            return None;
        }
        if !check_possible_location(new_pos, level, false, false) {
            return None;
        }
        // the upper half of the unit
        if !check_possible_location((new_pos.0, new_pos.1 + 1), level, false, true) {
            return None;
        }
        let new_vertical_state = landing_vertical_state(new_pos, level, properties);
        let typ = if self.delta < 0 { MoveType::WalkLeft } else { MoveType::WalkRight };
        Some(Move {
            typ,
            pos1: tile_pos,
            vertical_state1: vertical_state,
            pos2: new_pos,
            vertical_state2: new_vertical_state,
            ticks: axis_ticks(properties.ticks_per_second, properties.unit_max_horizontal_speed),
        })
    }
}

impl LadderMovement {
    pub fn can_move(&self, tile_pos: TilePos, vertical_state: VerticalState, level: &Level, properties: &Properties) -> (r: Option<Move>)
        requires
            side(self.vdelta as int),
            can_move_pre(*level, *properties, tile_pos),
        ensures
            r == TileMovement::Ladder(LadderMovement { vdelta: self.vdelta }).result(*level, *properties, tile_pos, vertical_state),
    {
        if matches!(vertical_state, VerticalState::PadJump(_)) {
            return None;
        }
        if !unit_is_on_ladder(tile_pos, level) {
            return None;
        }
        let new_pos = (tile_pos.0, tile_pos.1 + self.vdelta);
        if !check_possible_location(new_pos, level, false, false) {
            return None;
        }
        if !check_possible_location((new_pos.0, new_pos.1 + 1), level, false, true) {
            return None;
        }
        let new_vertical_state = landing_vertical_state(new_pos, level, properties);
        let speed = if self.vdelta > 0 { properties.unit_jump_speed } else { properties.unit_fall_speed };
        let typ = if self.vdelta < 0 { MoveType::LadderDown } else { MoveType::LadderUp };
        Some(Move {
            typ,
            pos1: tile_pos,
            vertical_state1: vertical_state,
            pos2: new_pos,
            vertical_state2: new_vertical_state,
            ticks: axis_ticks(properties.ticks_per_second, speed),
        })
    }
}

impl FallMovement {
    pub fn can_move(&self, tile_pos: TilePos, vertical_state: VerticalState, level: &Level, properties: &Properties) -> (r: Option<Move>)
        requires
            -1 <= self.delta <= 1,
            can_move_pre(*level, *properties, tile_pos),
        ensures
            r == TileMovement::Fall(FallMovement { delta: self.delta }).result(*level, *properties, tile_pos, vertical_state),
    {
        if matches!(vertical_state, VerticalState::PadJump(_)) {
            return None;
        }
        let new_pos = (tile_pos.0 + self.delta, tile_pos.1 - 1);
        if !check_possible_location(new_pos, level, false, false) {
            return None;
        }
        if !check_possible_location((new_pos.0, new_pos.1 + 1), level, false, true) {
            return None;
        }
        if self.delta != 0 && !check_possible_location((new_pos.0, new_pos.1 + 2), level, false, true) {
            return None;
        }
        // the tile below must be free, even when falling aside
        if self.delta != 0 && !check_possible_location((tile_pos.0, tile_pos.1 - 1), level, false, true) {
            return None;
        }
        let new_vertical_state = landing_vertical_state(new_pos, level, properties);
        let typ = if self.delta < 0 {
            MoveType::FallLeft
        } else if self.delta > 0 {
            MoveType::FallRight
        } else {
            MoveType::Fall
        };
        Some(Move {
            typ,
            pos1: tile_pos,
            vertical_state1: vertical_state,
            pos2: new_pos,
            vertical_state2: new_vertical_state,
            ticks: axis_ticks(properties.ticks_per_second, properties.unit_fall_speed),
        })
    }
}

impl Fall2Movement {
    pub fn can_move(&self, tile_pos: TilePos, vertical_state: VerticalState, level: &Level, properties: &Properties) -> (r: Option<Move>)
        requires
            side(self.delta as int),
            can_move_pre(*level, *properties, tile_pos),
        ensures
            r == TileMovement::Fall2(Fall2Movement { delta: self.delta }).result(*level, *properties, tile_pos, vertical_state),
    {
        if matches!(vertical_state, VerticalState::PadJump(_)) {
            return None;
        }
        let new_pos = (tile_pos.0 + self.delta, tile_pos.1 - 1);
        // a wall beside
        if level.tile_at(new_pos.0, new_pos.1 + 2) != Tile::Wall {
            return None;
        }
        if !check_possible_location(new_pos, level, false, false) {
            return None;
        }
        if !check_possible_location((new_pos.0, new_pos.1 + 1), level, false, true) {
            return None;
        }
        if !check_possible_location((tile_pos.0, tile_pos.1 - 1), level, false, true) {
            return None;
        }
        let new_vertical_state = landing_vertical_state(new_pos, level, properties);
        let typ = if self.delta < 0 { MoveType::Fall2Left } else { MoveType::Fall2Right };
        Some(Move {
            typ,
            pos1: tile_pos,
            vertical_state1: vertical_state,
            pos2: new_pos,
            vertical_state2: new_vertical_state,
            ticks: sum_axis_ticks(
                properties.ticks_per_second,
                properties.unit_max_horizontal_speed,
                properties.unit_fall_speed,
            ),
        })
    }
}

impl FallEdgeMovement {
    pub fn can_move(&self, tile_pos: TilePos, vertical_state: VerticalState, level: &Level, properties: &Properties) -> (r: Option<Move>)
        requires
            self.delta != 0 && -2 <= self.delta <= 2,
            can_move_pre(*level, *properties, tile_pos),
        ensures
            r == TileMovement::FallEdge(FallEdgeMovement { delta: self.delta }).result(*level, *properties, tile_pos, vertical_state),
    {
        if matches!(vertical_state, VerticalState::PadJump(_)) {
            return None;
        }
        let (x, y) = tile_pos;
        // a floor below; a ladder would start the fall too early
        if !solid_tile(level.tile_at(x, y - 1)) {
            return None;
        }
        // and an empty tile aside to fall through
        let delta1: isize = if self.delta > 0 { 1 } else { -1 };
        if level.tile_at(x + delta1, y - 1) != Tile::Empty {
            return None;
        }
        let new_pos = (x + self.delta, y - 1);
        if !check_possible_location(new_pos, level, false, false) {
            return None;
        }
        if !check_possible_location((new_pos.0, new_pos.1 + 1), level, false, true) {
            return None;
        }
        if !check_possible_location((new_pos.0, new_pos.1 + 2), level, false, true) {
            return None;
        }
        if delta1 != self.delta {
            if !check_possible_location((x + delta1, y - 1), level, false, true) {
                return None;
            }
            if !check_possible_location((x + delta1, y), level, false, true) {
                return None;
            }
            if !check_possible_location((x + delta1, y + 1), level, false, true) {
                return None;
            }
        }
        let new_vertical_state = landing_vertical_state(new_pos, level, properties);
        let typ = if self.delta < 0 { MoveType::FallEdgeLeft } else { MoveType::FallEdgeRight };
        Some(Move {
            typ,
            pos1: tile_pos,
            vertical_state1: vertical_state,
            pos2: new_pos,
            vertical_state2: new_vertical_state,
            ticks: axis_ticks(properties.ticks_per_second, properties.unit_fall_speed),
        })
    }
}

fn rise_allowed(tile_pos: TilePos, vertical_state: VerticalState, level: &Level) -> (r: bool)
    requires
        level.wf(),
        level.in_grid(tile_pos.0 as int, tile_pos.1 as int),
    ensures
        r == can_rise(*level, tile_pos.0 as int, tile_pos.1 as int, vertical_state),
{
    match vertical_state {
        VerticalState::Default => !no_floor_tile(level.tile_at(tile_pos.0, tile_pos.1 - 1)),
        VerticalState::Jump(k) => k >= 1,
        VerticalState::PadJump(_) => false,
    }
}

impl JumpMovement {
    pub fn can_move(&self, tile_pos: TilePos, vertical_state: VerticalState, level: &Level, properties: &Properties) -> (r: Option<Move>)
        requires
            -1 <= self.delta <= 1,
            can_move_pre(*level, *properties, tile_pos),
        ensures
            r == TileMovement::Jump(JumpMovement { delta: self.delta }).result(*level, *properties, tile_pos, vertical_state),
    {
        if !rise_allowed(tile_pos, vertical_state, level) {
            return None;
        }
        let new_pos = (tile_pos.0 + self.delta, tile_pos.1 + 1);
        if !check_possible_location(new_pos, level, false, false) {
            return None;
        }
        if !check_possible_location((new_pos.0, new_pos.1 + 1), level, false, true) {
            return None;
        }
        // a wall at the side
        if self.delta != 0 && !check_possible_location((new_pos.0, new_pos.1 - 1), level, false, true) {
            return None;
        }
        // a wall above
        if self.delta != 0 && !check_possible_location((tile_pos.0, tile_pos.1 + 2), level, false, true) {
            return None;
        }
        let t = level.tile_at(new_pos.0, new_pos.1);
        let new_vertical_state = if t == Tile::JumpPad {
            VerticalState::PadJump(pad_jump_max_tiles(properties))
        } else if t == Tile::Ladder || level.tile_at(new_pos.0, new_pos.1 + 1) == Tile::Ladder {
            // a ladder here or just above ends the jump
            VerticalState::Default
        } else {
            match vertical_state {
                VerticalState::Jump(k) => if k > 1 {
                    VerticalState::Jump(k - 1)
                } else {
                    VerticalState::Default
                },
                _ => VerticalState::Jump(jump_max_tiles(properties) - 1),
            }
        };
        let typ = if self.delta < 0 {
            MoveType::JumpLeft
        } else if self.delta > 0 {
            MoveType::JumpRight
        } else {
            MoveType::Jump
        };
        Some(Move {
            typ,
            pos1: tile_pos,
            vertical_state1: vertical_state,
            pos2: new_pos,
            vertical_state2: new_vertical_state,
            ticks: axis_ticks(properties.ticks_per_second, properties.unit_jump_speed),
        })
    }
}

impl Jump2Movement {
    pub fn can_move(&self, tile_pos: TilePos, vertical_state: VerticalState, level: &Level, properties: &Properties) -> (r: Option<Move>)
        requires
            side(self.delta as int),
            can_move_pre(*level, *properties, tile_pos),
        ensures
            r == TileMovement::Jump2(Jump2Movement { delta: self.delta }).result(*level, *properties, tile_pos, vertical_state),
    {
        if !rise_allowed(tile_pos, vertical_state, level) {
            return None;
        }
        let new_pos = (tile_pos.0 + self.delta, tile_pos.1 + 1);
        // a block beside to step onto
        if !solid_tile(level.tile_at(new_pos.0, new_pos.1 - 1)) {
            return None;
        }
        if !check_possible_location(new_pos, level, false, false) {
            return None;
        }
        if !check_possible_location((new_pos.0, new_pos.1 + 1), level, false, true) {
            return None;
        }
        // a wall above
        if !check_possible_location((tile_pos.0, tile_pos.1 + 2), level, false, true) {
            return None;
        }
        let new_vertical_state = landing_vertical_state(new_pos, level, properties);
        let typ = if self.delta < 0 { MoveType::Jump2Left } else { MoveType::Jump2Right };
        Some(Move {
            typ,
            pos1: tile_pos,
            vertical_state1: vertical_state,
            pos2: new_pos,
            vertical_state2: new_vertical_state,
            ticks: sum_axis_ticks(
                properties.ticks_per_second,
                properties.unit_max_horizontal_speed,
                properties.unit_jump_speed,
            ),
        })
    }
}

impl JumpStopMovement {
    pub fn can_move(&self, tile_pos: TilePos, vertical_state: VerticalState, level: &Level, properties: &Properties) -> (r: Option<Move>)
        requires
            can_move_pre(*level, *properties, tile_pos),
        ensures
            r == TileMovement::JumpStop(JumpStopMovement {}).result(*level, *properties, tile_pos, vertical_state),
    {
        if !matches!(vertical_state, VerticalState::Jump(_)) {
            return None;
        }
        Some(Move {
            typ: MoveType::JumpStop,
            pos1: tile_pos,
            vertical_state1: vertical_state,
            pos2: tile_pos,
            vertical_state2: VerticalState::Default,
            ticks: 2,
        })
    }
}

fn pad_rise_left(vertical_state: VerticalState) -> (r: Option<usize>)
    ensures
        r is Some <==> vertical_state is PadJump,
        r is Some ==> r->0 == pad_left(vertical_state),
{
    match vertical_state {
        VerticalState::PadJump(k) => Some(k),
        _ => None,
    }
}

impl PadJumpMovement {
    pub fn can_move(&self, tile_pos: TilePos, vertical_state: VerticalState, level: &Level, properties: &Properties) -> (r: Option<Move>)
        requires
            side(self.delta as int),
            can_move_pre(*level, *properties, tile_pos),
        ensures
            r == TileMovement::PadJump(PadJumpMovement { delta: self.delta }).result(*level, *properties, tile_pos, vertical_state),
    {
        let k = match pad_rise_left(vertical_state) {
            Some(k) => k,
            None => return None,
        };
        if k < 2 {
            return None;
        }
        let (x, y) = tile_pos;
        let new_pos = (x + self.delta, y + 2);
        if !check_possible_location(new_pos, level, false, false) {
            return None;
        }
        if !check_possible_location((new_pos.0, new_pos.1 + 1), level, false, true) {
            return None;
        }
        // walls at the side
        if !check_possible_location((new_pos.0, new_pos.1 - 2), level, true, true) {
            return None;
        }
        if !check_possible_location((new_pos.0, new_pos.1 - 1), level, true, true) {
            return None;
        }
        // walls above
        if !check_possible_location((x, y + 2), level, true, true) {
            return None;
        }
        if !check_possible_location((x, y + 3), level, true, true) {
            return None;
        }
        let new_vertical_state = pad_rise_vertical_state(new_pos, k, 2, true, level, properties);
        let typ = if self.delta < 0 { MoveType::PadJumpLeft } else { MoveType::PadJumpRight };
        Some(Move {
            typ,
            pos1: tile_pos,
            vertical_state1: vertical_state,
            pos2: new_pos,
            vertical_state2: new_vertical_state,
            ticks: axis_ticks(2 * properties.ticks_per_second, properties.jump_pad_jump_speed),
        })
    }
}

impl PadJump2Movement {
    pub fn can_move(&self, tile_pos: TilePos, vertical_state: VerticalState, level: &Level, properties: &Properties) -> (r: Option<Move>)
        requires
            side(self.delta as int),
            can_move_pre(*level, *properties, tile_pos),
        ensures
            r == TileMovement::PadJump2(PadJump2Movement { delta: self.delta }).result(*level, *properties, tile_pos, vertical_state),
    {
        let k = match pad_rise_left(vertical_state) {
            Some(k) => k,
            None => return None,
        };
        if k < 1 {
            return None;
        }
        let new_pos = (tile_pos.0 + self.delta, tile_pos.1 + 1);
        if !check_possible_location(new_pos, level, false, false) {
            return None;
        }
        if !check_possible_location((new_pos.0, new_pos.1 + 1), level, false, true) {
            return None;
        }
        // a block beside, and another above it
        if level.tile_at(new_pos.0, new_pos.1 - 1) != Tile::Wall {
            return None;
        }
        if level.tile_at(new_pos.0, new_pos.1 + 2) != Tile::Wall {
            return None;
        }
        // a wall above
        if !check_possible_location((tile_pos.0, tile_pos.1 + 2), level, true, true) {
            return None;
        }
        let new_vertical_state = landing_vertical_state(new_pos, level, properties);
        let typ = if self.delta < 0 { MoveType::PadJump2Left } else { MoveType::PadJump2Right };
        Some(Move {
            typ,
            pos1: tile_pos,
            vertical_state1: vertical_state,
            pos2: new_pos,
            vertical_state2: new_vertical_state,
            ticks: sum_axis_ticks(
                properties.ticks_per_second,
                properties.unit_max_horizontal_speed,
                properties.jump_pad_jump_speed,
            ),
        })
    }
}

impl PadJumpUpMovement {
    pub fn can_move(&self, tile_pos: TilePos, vertical_state: VerticalState, level: &Level, properties: &Properties) -> (r: Option<Move>)
        requires
            can_move_pre(*level, *properties, tile_pos),
        ensures
            r == TileMovement::PadJumpUp(PadJumpUpMovement {}).result(*level, *properties, tile_pos, vertical_state),
    {
        let k = match pad_rise_left(vertical_state) {
            Some(k) => k,
            None => return None,
        };
        if k < 1 {
            return None;
        }
        let new_pos = (tile_pos.0, tile_pos.1 + 1);
        if !check_possible_location(new_pos, level, false, false) {
            return None;
        }
        if !check_possible_location((new_pos.0, new_pos.1 + 1), level, false, true) {
            return None;
        }
        let new_vertical_state = pad_rise_vertical_state(new_pos, k, 1, false, level, properties);
        Some(Move {
            typ: MoveType::PadJumpUp,
            pos1: tile_pos,
            vertical_state1: vertical_state,
            pos2: new_pos,
            vertical_state2: new_vertical_state,
            ticks: axis_ticks(properties.ticks_per_second, properties.jump_pad_jump_speed),
        })
    }
}

impl PadJumpStopMovement {
    pub fn can_move(&self, tile_pos: TilePos, vertical_state: VerticalState, level: &Level, properties: &Properties) -> (r: Option<Move>)
        requires
            can_move_pre(*level, *properties, tile_pos),
        ensures
            r == TileMovement::PadJumpStop(PadJumpStopMovement {}).result(*level, *properties, tile_pos, vertical_state),
    {
        if !matches!(vertical_state, VerticalState::PadJump(_)) {
            return None;
        }
        // a ceiling above the head
        if level.tile_at(tile_pos.0, tile_pos.1 + 2) != Tile::Wall {
            return None;
        }
        Some(Move {
            typ: MoveType::PadJumpStop,
            pos1: tile_pos,
            vertical_state1: vertical_state,
            pos2: tile_pos,
            vertical_state2: VerticalState::Default,
            ticks: 3,
        })
    }
}

impl TileMovement {
    /// Whether this kind of move is legal from `tile_pos` in `vertical_state`,
    /// and the move if so.
    pub fn can_move(&self, tile_pos: TilePos, vertical_state: VerticalState, level: &Level, properties: &Properties) -> (r: Option<Move>)
        requires
            self.wf(),
            can_move_pre(*level, *properties, tile_pos),
        ensures
            r == self.result(*level, *properties, tile_pos, vertical_state),
    {
        match self {
            TileMovement::WalkSide(m) => m.can_move(tile_pos, vertical_state, level, properties),
            TileMovement::Ladder(m) => m.can_move(tile_pos, vertical_state, level, properties),
            TileMovement::Fall(m) => m.can_move(tile_pos, vertical_state, level, properties),
            TileMovement::Fall2(m) => m.can_move(tile_pos, vertical_state, level, properties),
            TileMovement::FallEdge(m) => m.can_move(tile_pos, vertical_state, level, properties),
            TileMovement::Jump(m) => m.can_move(tile_pos, vertical_state, level, properties),
            TileMovement::Jump2(m) => m.can_move(tile_pos, vertical_state, level, properties),
            TileMovement::JumpStop(m) => m.can_move(tile_pos, vertical_state, level, properties),
            TileMovement::PadJump(m) => m.can_move(tile_pos, vertical_state, level, properties),
            TileMovement::PadJump2(m) => m.can_move(tile_pos, vertical_state, level, properties),
            TileMovement::PadJumpUp(m) => m.can_move(tile_pos, vertical_state, level, properties),
            TileMovement::PadJumpStop(m) => m.can_move(tile_pos, vertical_state, level, properties),
        }
    }
}

/// The kinds of move that the graph is built from, in the order they are
/// tried.
pub open spec fn movement_catalog() -> Seq<TileMovement> {
    seq![
        TileMovement::WalkSide(WalkSideMovement { delta: -1isize }),
        TileMovement::WalkSide(WalkSideMovement { delta: 1isize }),
        TileMovement::Ladder(LadderMovement { vdelta: 1isize }),
        TileMovement::Ladder(LadderMovement { vdelta: -1isize }),
        TileMovement::Fall(FallMovement { delta: 0isize }),
        TileMovement::Fall(FallMovement { delta: -1isize }),
        TileMovement::Fall(FallMovement { delta: 1isize }),
        TileMovement::Fall2(Fall2Movement { delta: -1isize }),
        TileMovement::Fall2(Fall2Movement { delta: 1isize }),
        TileMovement::FallEdge(FallEdgeMovement { delta: -2isize }),
        TileMovement::FallEdge(FallEdgeMovement { delta: -1isize }),
        TileMovement::FallEdge(FallEdgeMovement { delta: 1isize }),
        TileMovement::FallEdge(FallEdgeMovement { delta: 2isize }),
        TileMovement::Jump(JumpMovement { delta: 0isize }),
        TileMovement::Jump(JumpMovement { delta: -1isize }),
        TileMovement::Jump(JumpMovement { delta: 1isize }),
        TileMovement::Jump2(Jump2Movement { delta: -1isize }),
        TileMovement::Jump2(Jump2Movement { delta: 1isize }),
        TileMovement::JumpStop(JumpStopMovement {}),
        TileMovement::PadJump(PadJumpMovement { delta: -1isize }),
        TileMovement::PadJump(PadJumpMovement { delta: 1isize }),
        TileMovement::PadJump2(PadJump2Movement { delta: -1isize }),
        TileMovement::PadJump2(PadJump2Movement { delta: 1isize }),
        TileMovement::PadJumpUp(PadJumpUpMovement {}),
        TileMovement::PadJumpStop(PadJumpStopMovement {}),
    ]
}

pub fn get_movements() -> (r: Vec<TileMovement>)
    ensures
        r@ == movement_catalog(),
        forall|i: int| 0 <= i < r@.len() ==> (#[trigger] r@[i]).wf(),
{
    let r = vec![
        TileMovement::WalkSide(WalkSideMovement { delta: -1 }),
        TileMovement::WalkSide(WalkSideMovement { delta: 1 }),
        TileMovement::Ladder(LadderMovement { vdelta: 1 }),
        TileMovement::Ladder(LadderMovement { vdelta: -1 }),
        TileMovement::Fall(FallMovement { delta: 0 }),
        TileMovement::Fall(FallMovement { delta: -1 }),
        TileMovement::Fall(FallMovement { delta: 1 }),
        TileMovement::Fall2(Fall2Movement { delta: -1 }),
        TileMovement::Fall2(Fall2Movement { delta: 1 }),
        TileMovement::FallEdge(FallEdgeMovement { delta: -2 }),
        TileMovement::FallEdge(FallEdgeMovement { delta: -1 }),
        TileMovement::FallEdge(FallEdgeMovement { delta: 1 }),
        TileMovement::FallEdge(FallEdgeMovement { delta: 2 }),
        TileMovement::Jump(JumpMovement { delta: 0 }),
        TileMovement::Jump(JumpMovement { delta: -1 }),
        TileMovement::Jump(JumpMovement { delta: 1 }),
        TileMovement::Jump2(Jump2Movement { delta: -1 }),
        TileMovement::Jump2(Jump2Movement { delta: 1 }),
        TileMovement::JumpStop(JumpStopMovement {}),
        TileMovement::PadJump(PadJumpMovement { delta: -1 }),
        TileMovement::PadJump(PadJumpMovement { delta: 1 }),
        TileMovement::PadJump2(PadJump2Movement { delta: -1 }),
        TileMovement::PadJump2(PadJump2Movement { delta: 1 }),
        TileMovement::PadJumpUp(PadJumpUpMovement {}),
        TileMovement::PadJumpStop(PadJumpStopMovement {}),
    ];
    assert(r@ =~= movement_catalog());
    r
}

} // verus!
