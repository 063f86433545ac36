//! The game constants that the movement catalog reads, in integer units:
//! lengths in micro-tiles, times in microseconds, speeds in micro-tiles per
//! second.
use vstd::prelude::*;

verus! {

/// Micro-units in one tile, or in one second.
pub const MICRO: u64 = 1_000_000;

pub const MAX_TICKS_PER_SECOND: u64 = 1000;

pub const MAX_SPEED: u64 = 1_000_000_000;

pub const MAX_TIME: u64 = 1_000_000_000;

pub struct Properties {
    pub ticks_per_second: u64,
    /// Unit width and height, in micro-tiles.
    pub unit_size_x: i64,
    pub unit_size_y: i64,
    pub unit_max_horizontal_speed: u64,
    pub unit_fall_speed: u64,
    pub unit_jump_speed: u64,
    /// How long a jump lasts, in microseconds.
    pub unit_jump_time: u64,
    pub jump_pad_jump_speed: u64,
    pub jump_pad_jump_time: u64,
    pub unit_max_health: i32,
    /// Half the side of the square a mine's explosion covers, in micro-tiles.
    pub mine_explosion_radius: i64,
    pub mine_explosion_damage: i32,
}

pub open spec fn speed_ok(s: u64) -> bool {
    1 <= s <= MAX_SPEED
}

/// `ceil(a / b)` for `b > 0`.
pub open spec fn ceil_div(a: int, b: int) -> int {
    (a + b - 1) / b
}

/// The whole tiles covered at `speed` during `time`.
pub open spec fn tiles_covered(time: u64, speed: u64) -> int {
    (time as int * speed as int) / (MICRO as int * MICRO as int)
}

/// Ticks to cross one tile at `speed`: `ceil(tps / speed)`.
pub open spec fn one_axis_ticks(tps: u64, speed: u64) -> int {
    ceil_div(tps as int * MICRO as int, speed as int)
}

/// Ticks to cross one tile at `s1` and then one at `s2`: the times of the
/// two axes add, `ceil(tps / s1) + ceil(tps / s2)`.
pub open spec fn two_axis_ticks(tps: u64, s1: u64, s2: u64) -> int {
    one_axis_ticks(tps, s1) + one_axis_ticks(tps, s2)
}

impl Properties {
    /// Every rate is positive and bounded, sizes are positive and below one
    /// tile in width, and a standard jump rises at least one tile.
    pub open spec fn wf(&self) -> bool {
        &&& 1 <= self.ticks_per_second <= MAX_TICKS_PER_SECOND
        &&& 0 < self.unit_size_x < MICRO
        &&& 0 < self.unit_size_y <= 4 * MICRO
        &&& speed_ok(self.unit_max_horizontal_speed)
        &&& speed_ok(self.unit_fall_speed)
        &&& speed_ok(self.unit_jump_speed)
        &&& speed_ok(self.jump_pad_jump_speed)
        &&& self.unit_jump_time <= MAX_TIME
        &&& self.jump_pad_jump_time <= MAX_TIME
        &&& tiles_covered(self.unit_jump_time, self.unit_jump_speed) >= 1
        &&& 0 <= self.mine_explosion_radius <= 16 * MICRO
        &&& 0 <= self.mine_explosion_damage <= 1_000_000
    }
}

/// `ceil(tps / speed)` ticks.
pub fn axis_ticks(tps: u64, speed: u64) -> (r: i32)
    requires
        1 <= tps <= 2 * MAX_TICKS_PER_SECOND,
        speed_ok(speed),
    ensures
        r == one_axis_ticks(tps, speed),
        1 <= r <= tps * MICRO,
{
    let a = tps * MICRO;
    let r = (a + speed - 1) / speed;
    assert(r <= a) by {
        assert((a + speed - 1) < speed * (a + 1)) by (nonlinear_arith)
            requires
                speed >= 1,
                a >= 0,
        ;
        vstd::arithmetic::div_mod::lemma_multiply_divide_lt((a + speed - 1) as int, speed as int, a + 1);
    }
    assert(r >= 1) by {
        vstd::arithmetic::div_mod::lemma_div_is_ordered(speed as int, (a + speed - 1) as int, speed as int);
        vstd::arithmetic::div_mod::lemma_div_by_self(speed as int);
    }
    r as i32
}

/// `ceil(tps / s1 + tps / s2)` ticks, for a move that crosses one tile on
/// each axis.
pub fn sum_axis_ticks(tps: u64, s1: u64, s2: u64) -> (r: i32)
    requires
        1 <= tps <= MAX_TICKS_PER_SECOND,
        speed_ok(s1),
        speed_ok(s2),
    ensures
        r == two_axis_ticks(tps, s1, s2),
        r >= 1,
{
    let a = axis_ticks(tps, s1);
    let b = axis_ticks(tps, s2);
    a + b
}

/// No jump, standard or from a pad, rises more than a million tiles.
pub proof fn lemma_rise_bounded(time: u64, speed: u64)
    requires
        time <= MAX_TIME,
        speed_ok(speed),
    ensures
        0 <= tiles_covered(time, speed) <= 1_000_000,
{
    assert(time as int * speed as int <= 1_000_000_000_000_000_000) by (nonlinear_arith)
        requires
            time <= 1_000_000_000,
            speed <= 1_000_000_000,
    ;
    vstd::arithmetic::div_mod::lemma_div_is_ordered(
        time as int * speed as int,
        1_000_000_000_000_000_000,
        1_000_000_000_000,
    );
    vstd::arithmetic::div_mod::lemma_div_pos_is_pos(time as int * speed as int, 1_000_000_000_000);
}

pub proof fn lemma_one_axis_bounds(tps: u64, speed: u64)
    requires
        1 <= tps <= 2 * MAX_TICKS_PER_SECOND,
        speed_ok(speed),
    ensures
        1 <= one_axis_ticks(tps, speed) <= tps * 1_000_000,
{
    let a: int = tps as int * MICRO as int;
    assert((a + speed - 1) < speed * (a + 1)) by (nonlinear_arith)
        requires
            speed >= 1,
            a >= 0,
    ;
    vstd::arithmetic::div_mod::lemma_multiply_divide_lt((a + speed - 1) as int, speed as int, a + 1);
    vstd::arithmetic::div_mod::lemma_div_is_ordered(speed as int, (a + speed - 1) as int, speed as int);
    vstd::arithmetic::div_mod::lemma_div_by_self(speed as int);
}

pub proof fn lemma_two_axis_bounds(tps: u64, s1: u64, s2: u64)
    requires
        1 <= tps <= MAX_TICKS_PER_SECOND,
        speed_ok(s1),
        speed_ok(s2),
    ensures
        1 <= two_axis_ticks(tps, s1, s2) <= 2_000_000_000,
{
    lemma_one_axis_bounds(tps, s1);
    lemma_one_axis_bounds(tps, s2);
}

} // verus!
