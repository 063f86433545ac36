//! Steering along a move: from the unit's continuous position, whether the
//! move is done, has gone astray, or which controls to apply this tick.
//! Positions are in micro-tiles, velocities in micro-tiles per second.
use vstd::prelude::*;
use crate::path::{Move, MoveType, TilePos, VerticalState};

verus! {

pub const MICRO_TILE: i64 = 1_000_000;

pub const HALF_TILE: i64 = 500_000;

/// How close to the column centre a move must end: the whole unit is then
/// inside the column.
pub const HORIZONTAL_EPSILON: i64 = 49_000;

/// How far above the row baseline a move may end; twice that on a pad jump.
pub const VERTICAL_EPSILON: i64 = 200_000;

pub const MAX_HORIZONTAL_SPEED: i64 = 10_000_000;

pub const FALL_SPEED: i64 = 10_000_000;

pub const TICKS_PER_SECOND: i64 = 60;

/// Coordinates of positions in the world stay within this bound.
pub const MAX_COORD: i64 = 0x100_0000_0000;

/// A continuous position: the middle of the unit's feet.
#[derive(Clone, Copy, Debug, PartialEq, Eq, Structural)]
pub struct Position {
    pub x: i64,
    pub y: i64,
}

#[derive(Clone, Copy, Debug, PartialEq, Eq, Structural)]
pub struct MoveAction {
    pub typ: MoveType,
    pub velocity: i64,
    pub jump: bool,
    pub jump_down: bool,
}

#[derive(Clone, Copy, Debug, PartialEq, Eq, Structural)]
pub enum ControlResult {
    TargetReached,
    Recover,
    MoveAction(MoveAction),
}

pub open spec fn in_world(p: Position) -> bool {
    0 <= p.x <= MAX_COORD && 0 <= p.y <= MAX_COORD
}

pub open spec fn abs(v: int) -> int {
    if v < 0 {
        -v
    } else {
        v
    }
}

/// The centre of column `x`.
pub open spec fn column_centre(x: int) -> int {
    x * MICRO_TILE + HALF_TILE
}

/// The tile that holds a position.
pub open spec fn tile_of(p: Position) -> (int, int) {
    (p.x as int / MICRO_TILE as int, p.y as int / MICRO_TILE as int)
}

/// The unit stands at the centre of `target`, within the tolerances.
pub open spec fn reached(p: Position, target: TilePos, vs: VerticalState) -> bool {
    let vertical_epsilon = if vs is PadJump {
        2 * VERTICAL_EPSILON
    } else {
        VERTICAL_EPSILON as int
    };
    &&& abs(p.x - column_centre(target.0 as int)) < HORIZONTAL_EPSILON
    &&& p.y >= target.1 * MICRO_TILE
    &&& p.y - target.1 * MICRO_TILE < vertical_epsilon
}

/// Full speed towards `target`, slowing to land on it exactly when one tick
/// at full speed would pass it.
pub open spec fn horizontal_speed(pos: int, target: int) -> int {
    let delta = abs(pos - target);
    let speed = if delta * TICKS_PER_SECOND < MAX_HORIZONTAL_SPEED {
        delta * TICKS_PER_SECOND
    } else {
        MAX_HORIZONTAL_SPEED as int
    };
    if pos > target {
        -speed
    } else {
        speed
    }
}

pub fn target_reached(position: Position, target: TilePos, vertical_state: VerticalState) -> (r: bool)
    requires
        in_world(position),
        -(MAX_COORD / MICRO_TILE) <= target.0 as int <= MAX_COORD / MICRO_TILE,
        -(MAX_COORD / MICRO_TILE) <= target.1 as int <= MAX_COORD / MICRO_TILE,
    ensures
        r == reached(position, target, vertical_state),
{
    let vertical_epsilon = if matches!(vertical_state, VerticalState::PadJump(_)) {
        2 * VERTICAL_EPSILON
    } else {
        VERTICAL_EPSILON
    };
    let cx = target.0 as i64 * MICRO_TILE + HALF_TILE;
    let base = target.1 as i64 * MICRO_TILE;
    let dx = if position.x >= cx { position.x - cx } else { cx - position.x };
    dx < HORIZONTAL_EPSILON && position.y >= base && position.y - base < vertical_epsilon
}

/// The velocity that moves a unit at `pos` towards `target`. One tick of it
/// never passes the target, and brings the unit closer unless it is there.
pub fn choose_horizontal_speed(pos: i64, target: i64) -> (r: i64)
    requires
        -2 * MAX_COORD <= pos <= 2 * MAX_COORD,
        -2 * MAX_COORD <= target <= 2 * MAX_COORD,
    ensures
        r == horizontal_speed(pos as int, target as int),
        pos != target ==> abs(TICKS_PER_SECOND * (pos - target) + r) < TICKS_PER_SECOND * abs(pos - target),
        (TICKS_PER_SECOND * (pos - target) + r) * (pos - target) >= 0,
        abs(TICKS_PER_SECOND * (pos - target) + r) == gap_after_tick(TICKS_PER_SECOND * abs(pos - target)),
{
    let delta = if pos > target { pos - target } else { target - pos };
    let speed = if delta * TICKS_PER_SECOND < MAX_HORIZONTAL_SPEED {
        delta * TICKS_PER_SECOND
    } else {
        MAX_HORIZONTAL_SPEED
    };
    let r = if pos > target { -speed } else { speed };
    assert((TICKS_PER_SECOND * (pos - target) + r) * (pos - target) >= 0) by (nonlinear_arith)
        requires
            delta == abs(pos - target),
            speed <= delta * TICKS_PER_SECOND,
            speed >= 0,
            r == (if pos > target { -speed as int } else { speed as int }),
    ;
    r
}

/// The horizontal gap to the target, in micro-tiles times ticks per second,
/// after one tick of steering: full speed closes `MAX_HORIZONTAL_SPEED` of
/// it, and a smaller gap is closed exactly.
pub open spec fn gap_after_tick(gap: int) -> int {
    if gap < MAX_HORIZONTAL_SPEED {
        0
    } else {
        gap - MAX_HORIZONTAL_SPEED
    }
}

/// The gap after `n` ticks of steering.
pub open spec fn gap_after(gap: int, n: nat) -> int
    decreases n,
{
    if n == 0 {
        gap
    } else {
        gap_after(gap_after_tick(gap), (n - 1) as nat)
    }
}

/// Steering closes the horizontal gap at full speed without ever passing the
/// target: after `n` ticks what is left of a gap is what full speed has not
/// covered, and a gap of at most `n` ticks of full-speed travel is closed
/// within `n` ticks.
pub proof fn lemma_steering_arrives(gap: int, n: nat)
    requires
        gap >= 0,
    ensures
        gap_after(gap, n) == if gap - n * MAX_HORIZONTAL_SPEED > 0 {
            gap - n * MAX_HORIZONTAL_SPEED
        } else {
            0
        },
        gap <= n * MAX_HORIZONTAL_SPEED ==> gap_after(gap, n) == 0,
    decreases n,
{
    if n > 0 {
        lemma_steering_arrives(gap_after_tick(gap), (n - 1) as nat);
        assert(n * MAX_HORIZONTAL_SPEED == (n - 1) * MAX_HORIZONTAL_SPEED + MAX_HORIZONTAL_SPEED) by (nonlinear_arith);
    }
}

impl Move {
    /// Tiles that a unit may pass through on this move: outside them it has
    /// gone astray and must recover.
    pub open spec fn envelope(&self, t: (int, int)) -> bool {
        let (x1, y1) = (self.pos1.0 as int, self.pos1.1 as int);
        let (x2, y2) = (self.pos2.0 as int, self.pos2.1 as int);
        let (tx, ty) = t;
        let either_row = ty == y1 || ty == y2;
        let either_column = tx == x1 || tx == x2;
        let rows_between = y1 <= ty <= y2;
        match self.typ {
            MoveType::WalkLeft | MoveType::WalkRight => ty == y2 && either_column,
            MoveType::LadderUp | MoveType::LadderDown => either_row && tx == x2,
            MoveType::FallEdgeLeft | MoveType::FallEdgeRight => {
                let x_mid = if x2 > x1 { x1 + 1 } else { x1 - 1 };
                either_row && (either_column || tx == x_mid)
            },
            MoveType::JumpStop | MoveType::PadJumpStop | MoveType::PadJumpUp => rows_between && tx == x2,
            MoveType::PadJumpLeft | MoveType::PadJumpRight | MoveType::PadJump2Left
            | MoveType::PadJump2Right => rows_between && either_column,
            _ => either_row && either_column,
        }
    }

    /// The jump and jump-down flags while steering.
    pub open spec fn flags(&self, p: Position, vs: VerticalState) -> (bool, bool) {
        let (tx, ty) = tile_of(p);
        match self.typ {
            MoveType::WalkLeft | MoveType::WalkRight => (false, false),
            MoveType::LadderUp | MoveType::LadderDown => (self.pos2.1 > self.pos1.1, self.pos2.1 < self.pos1.1),
            MoveType::Fall | MoveType::FallLeft | MoveType::FallRight | MoveType::Fall2Left
            | MoveType::Fall2Right => (false, true),
            MoveType::FallEdgeLeft | MoveType::FallEdgeRight => (false, tx == self.pos2.0),
            MoveType::Jump2Left | MoveType::Jump2Right => (ty == self.pos1.1, false),
            // falling at once would drop out of the tile
            MoveType::JumpStop => ((p.y - self.pos1.1 * MICRO_TILE) * TICKS_PER_SECOND <= FALL_SPEED, false),
            MoveType::PadJumpStop => (vs != VerticalState::Default, vs == VerticalState::Default),
            _ => (true, false),
        }
    }

    /// What steering gives at `p` in state `vs`.
    pub open spec fn control_result(&self, p: Position, vs: VerticalState) -> ControlResult {
        match self.typ {
            MoveType::Start => ControlResult::TargetReached,
            MoveType::MineSuicide => ControlResult::MoveAction(
                MoveAction { typ: MoveType::MineSuicide, velocity: 0, jump: false, jump_down: false },
            ),
            MoveType::Recover => {
                let (tx, ty) = tile_of(p);
                if reached(p, (tx as isize, ty as isize), vs) {
                    ControlResult::TargetReached
                } else {
                    ControlResult::MoveAction(
                        MoveAction {
                            typ: MoveType::Recover,
                            velocity: horizontal_speed(p.x as int, column_centre(tx)) as i64,
                            jump: true,
                            jump_down: false,
                        },
                    )
                }
            },
            _ => {
                let stops = self.typ == MoveType::JumpStop || self.typ == MoveType::PadJumpStop;
                if (!stops || vs == VerticalState::Default) && reached(p, self.pos2, vs) {
                    ControlResult::TargetReached
                } else if !self.envelope(tile_of(p)) {
                    ControlResult::Recover
                } else {
                    let (jump, jump_down) = self.flags(p, vs);
                    ControlResult::MoveAction(
                        MoveAction {
                            typ: self.typ,
                            velocity: horizontal_speed(p.x as int, column_centre(self.pos2.0 as int)) as i64,
                            jump,
                            jump_down,
                        },
                    )
                }
            },
        }
    }

    /// Both ends of a move lie in the world, or, for the synthetic moves that
    /// have no ends, are `(-1, -1)`.
    pub open spec fn ends_bounded(&self) -> bool {
        let b = MAX_COORD / MICRO_TILE;
        &&& -1 <= self.pos1.0 <= b && -1 <= self.pos1.1 <= b
        &&& -1 <= self.pos2.0 <= b && -1 <= self.pos2.1 <= b
    }

    /// Steers a unit at `position` in state `vertical_state` along this move.
    pub fn control(&self, position: Position, vertical_state: VerticalState) -> (r: ControlResult)
        requires
            in_world(position),
            self.ends_bounded(),
        ensures
            r == self.control_result(position, vertical_state),
    {
        let tile = tile_pos(position);
        match self.typ {
            MoveType::Start => {
                return ControlResult::TargetReached;
            },
            MoveType::MineSuicide => {
                return ControlResult::MoveAction(
                    MoveAction { typ: MoveType::MineSuicide, velocity: 0, jump: false, jump_down: false },
                );
            },
            MoveType::Recover => {
                if target_reached(position, tile, vertical_state) {
                    return ControlResult::TargetReached;
                }
                return ControlResult::MoveAction(
                    MoveAction {
                        typ: MoveType::Recover,
                        velocity: choose_horizontal_speed(position.x, tile.0 as i64 * MICRO_TILE + HALF_TILE),
                        jump: true,
                        jump_down: false,
                    },
                );
            },
            _ => {},
        }
        let stops = self.typ == MoveType::JumpStop || self.typ == MoveType::PadJumpStop;
        if (!stops || vertical_state == VerticalState::Default) && target_reached(position, self.pos2, vertical_state) {
            return ControlResult::TargetReached;
        }
        if !self.in_envelope(tile) {
            return ControlResult::Recover;
        }
        let (jump, jump_down) = self.control_flags(position, tile, vertical_state);
        ControlResult::MoveAction(
            MoveAction {
                typ: self.typ,
                velocity: choose_horizontal_speed(position.x, self.pos2.0 as i64 * MICRO_TILE + HALF_TILE),
                jump,
                jump_down,
            },
        )
    }

    fn in_envelope(&self, t: TilePos) -> (r: bool)
        requires
            self.ends_bounded(),
        ensures
            r == self.envelope((t.0 as int, t.1 as int)),
    {
        let (x1, y1) = self.pos1;
        let (x2, y2) = self.pos2;
        let (tx, ty) = t;
        let either_row = ty == y1 || ty == y2;
        let either_column = tx == x1 || tx == x2;
        let rows_between = y1 <= ty && ty <= y2;
        match self.typ {
            MoveType::WalkLeft | MoveType::WalkRight => ty == y2 && either_column,
            MoveType::LadderUp | MoveType::LadderDown => either_row && tx == x2,
            MoveType::FallEdgeLeft | MoveType::FallEdgeRight => {
                let x_mid = if x2 > x1 { x1 + 1 } else { x1 - 1 };
                either_row && (either_column || tx == x_mid)
            },
            MoveType::JumpStop | MoveType::PadJumpStop | MoveType::PadJumpUp => rows_between && tx == x2,
            MoveType::PadJumpLeft | MoveType::PadJumpRight | MoveType::PadJump2Left
            | MoveType::PadJump2Right => rows_between && either_column,
            _ => either_row && either_column,
        }
    }

    fn control_flags(&self, p: Position, t: TilePos, vs: VerticalState) -> (r: (bool, bool))
        requires
            in_world(p),
            self.ends_bounded(),
            t == (tile_of(p).0 as isize, tile_of(p).1 as isize),
        ensures
            r == self.flags(p, vs),
    {
        match self.typ {
            MoveType::WalkLeft | MoveType::WalkRight => (false, false),
            MoveType::LadderUp | MoveType::LadderDown => (self.pos2.1 > self.pos1.1, self.pos2.1 < self.pos1.1),
            MoveType::Fall | MoveType::FallLeft | MoveType::FallRight | MoveType::Fall2Left
            | MoveType::Fall2Right => (false, true),
            MoveType::FallEdgeLeft | MoveType::FallEdgeRight => (false, t.0 == self.pos2.0),
            MoveType::Jump2Left | MoveType::Jump2Right => (t.1 == self.pos1.1, false),
            MoveType::JumpStop => ((p.y - self.pos1.1 as i64 * MICRO_TILE) * TICKS_PER_SECOND <= FALL_SPEED, false),
            MoveType::PadJumpStop => (vs != VerticalState::Default, vs == VerticalState::Default),
            _ => (true, false),
        }
    }
}

/// The tile that holds a position.
pub fn tile_pos(position: Position) -> (r: TilePos)
    requires
        in_world(position),
    ensures
        r == ((position.x / MICRO_TILE) as isize, (position.y / MICRO_TILE) as isize),
        r.0 as int == tile_of(position).0,
        r.1 as int == tile_of(position).1,
        0 <= r.0 <= MAX_COORD / MICRO_TILE,
        0 <= r.1 <= MAX_COORD / MICRO_TILE,
{
    ((position.x / MICRO_TILE) as isize, (position.y / MICRO_TILE) as isize)
}

/// Where a unit stands in the middle of a tile.
pub open spec fn unit_position_of(pos: TilePos) -> Position {
    Position { x: (pos.0 * MICRO_TILE + HALF_TILE) as i64, y: (pos.1 * MICRO_TILE) as i64 }
}

pub fn to_unit_position(pos: TilePos) -> (r: Position)
    requires
        -1 <= pos.0 <= MAX_COORD / MICRO_TILE,
        -1 <= pos.1 <= MAX_COORD / MICRO_TILE,
    ensures
        r == unit_position_of(pos),
{
    Position { x: pos.0 as i64 * MICRO_TILE + HALF_TILE, y: pos.1 as i64 * MICRO_TILE }
}

pub open spec fn recover_move() -> Move {
    Move {
        typ: MoveType::Recover,
        pos1: (-1isize, -1isize),
        vertical_state1: VerticalState::Default,
        pos2: (-1isize, -1isize),
        vertical_state2: VerticalState::Default,
        ticks: 1,
    }
}

pub open spec fn mine_suicide_move() -> Move {
    Move {
        typ: MoveType::MineSuicide,
        pos1: (-1isize, -1isize),
        vertical_state1: VerticalState::Default,
        pos2: (-1isize, -1isize),
        vertical_state2: VerticalState::Default,
        ticks: 1,
    }
}

/// Steers back to the centre of whatever tile the unit is in, jumping to get
/// free; used after a move has gone astray.
pub fn get_recover_move() -> (r: Move)
    ensures
        r == recover_move(),
        r.typ == MoveType::Recover,
        r.pos1 == (-1isize, -1isize) && r.pos2 == (-1isize, -1isize),
        r.vertical_state1 == VerticalState::Default,
        r.vertical_state2 == VerticalState::Default,
        r.ticks == 1,
{
    Move {
        typ: MoveType::Recover,
        pos1: (-1, -1),
        vertical_state1: VerticalState::Default,
        pos2: (-1, -1),
        vertical_state2: VerticalState::Default,
        ticks: 1,
    }
}

/// Stands still to plant a mine and set it off.
pub fn get_mine_suicide_move() -> (r: Move)
    ensures
        r == mine_suicide_move(),
        r.typ == MoveType::MineSuicide,
        r.pos1 == (-1isize, -1isize) && r.pos2 == (-1isize, -1isize),
        r.vertical_state1 == VerticalState::Default,
        r.vertical_state2 == VerticalState::Default,
        r.ticks == 1,
{
    Move {
        typ: MoveType::MineSuicide,
        pos1: (-1, -1),
        vertical_state1: VerticalState::Default,
        pos2: (-1, -1),
        vertical_state2: VerticalState::Default,
        ticks: 1,
    }
}

/// The zero-tick node that a path starts with: the unit's own tile and state.
pub open spec fn start_node(pos: TilePos, vertical_state: VerticalState) -> Move {
    Move {
        typ: MoveType::Start,
        pos1: pos,
        vertical_state1: vertical_state,
        pos2: pos,
        vertical_state2: vertical_state,
        ticks: 0,
    }
}

pub fn make_start_node(pos: TilePos, vertical_state: VerticalState) -> (r: Move)
    ensures
        r == start_node(pos, vertical_state),
{
    Move {
        typ: MoveType::Start,
        pos1: pos,
        vertical_state1: vertical_state,
        pos2: pos,
        vertical_state2: vertical_state,
        ticks: 0,
    }
}

} // verus!
