//! The bullet forecaster: where each live bullet ends, and which of them hit
//! or splash a unit probed at a given position and time.
//! Times are in micro-ticks, a hundredth of a tick.
use vstd::prelude::*;
use crate::control::{Position, MAX_COORD, MICRO_TILE};
use crate::level::{Level, Tile};
use crate::properties::{Properties, MAX_SPEED};

verus! {

pub const MICRO_TICKS: i64 = 100;

/// Probes never look further ahead than this, in micro-ticks.
pub const MAX_PROBE_TIME: i64 = 0x4000_0000;

#[derive(Clone, Copy, Debug, PartialEq, Eq, Structural)]
pub struct ExplosionParams {
    pub radius: i64,
    pub damage: i32,
}

/// A live bullet: position in micro-tiles, velocity in micro-tiles per
/// second, side of its square in micro-tiles.
#[derive(Clone, Copy, Debug, PartialEq, Eq, Structural)]
pub struct Bullet {
    pub unit_id: i32,
    pub position: Position,
    pub velocity_x: i64,
    pub velocity_y: i64,
    pub size: i64,
    pub damage: i32,
    pub explosion: Option<ExplosionParams>,
}

impl Bullet {
    pub open spec fn wf(&self) -> bool {
        &&& crate::control::in_world(self.position)
        &&& -(MAX_SPEED as int) <= self.velocity_x <= MAX_SPEED
        &&& -(MAX_SPEED as int) <= self.velocity_y <= MAX_SPEED
        &&& 0 <= self.size <= 4 * MICRO_TILE
        &&& 0 <= self.damage <= 1_000_000
        &&& match self.explosion {
            Some(e) => 0 <= e.radius <= 16 * MICRO_TILE && 0 <= e.damage <= 1_000_000,
            None => true,
        }
    }
}

/// `a * t / d`, rounded down.
pub open spec fn scaled(a: int, t: int, d: int) -> int {
    (a * t) / d
}

/// Where bullet `b` is after `t` micro-ticks of flight.
pub open spec fn position_at(b: Bullet, t: int, tps: int) -> (int, int) {
    (
        b.position.x + scaled(b.velocity_x as int, t, tps * MICRO_TICKS),
        b.position.y + scaled(b.velocity_y as int, t, tps * MICRO_TICKS),
    )
}

fn scale(a: i64, t: i64, d: i64) -> (r: i64)
    requires
        -(MAX_SPEED as int) <= a <= MAX_SPEED,
        0 <= t <= MAX_PROBE_TIME,
        1 <= d <= 0x100_0000,
    ensures
        r == scaled(a as int, t as int, d as int),
{
    assert(-0x1000_0000_0000_0000 <= a * t <= 0x1000_0000_0000_0000) by (nonlinear_arith)
        requires
            -1_000_000_000 <= a <= 1_000_000_000,
            0 <= t <= 0x4000_0000,
    ;
    let p = a * t;
    if p >= 0 {
        p / d
    } else {
        let q = ((-p) + d - 1) / d;
        proof {
            let pi = p as int;
            let qi = q as int;
            vstd::arithmetic::div_mod::lemma_fundamental_div_mod(-pi + d - 1, d as int);
            vstd::arithmetic::div_mod::lemma_fundamental_div_mod(pi, d as int);
            vstd::arithmetic::div_mod::lemma_mod_bound(-pi + d - 1, d as int);
            vstd::arithmetic::div_mod::lemma_mod_bound(pi, d as int);
            assert(pi / (d as int) == -qi) by (nonlinear_arith)
                requires
                    -pi + d - 1 == d * qi + (-pi + d - 1) % (d as int),
                    0 <= (-pi + d - 1) % (d as int) < d,
                    pi == d * (pi / (d as int)) + pi % (d as int),
                    0 <= pi % (d as int) < d,
                    d >= 1,
            ;
        }
        -q
    }
}

/// A point stops a bullet: on or outside the world's edge, or in a wall.
pub open spec fn collides(level: Level, x: int, y: int) -> bool {
    x <= 0 || x >= level.spec_width() * MICRO_TILE || y <= 0 || y >= level.spec_height() * MICRO_TILE
        || level.tile(x / MICRO_TILE as int, y / MICRO_TILE as int) == Tile::Wall
}

/// A corner of the bullet's square is stopped after `t` micro-ticks.
pub open spec fn corner_hits(level: Level, b: Bullet, t: int, tps: int) -> bool {
    let (x, y) = position_at(b, t, tps);
    let h = b.size / 2;
    collides(level, x - h, y - h) || collides(level, x + h, y - h) || collides(level, x - h, y + h)
        || collides(level, x + h, y + h)
}

/// How far ahead the flight of a bullet is followed: long enough to cross
/// the whole world at its speed.
pub open spec fn search_limit(level: Level, b: Bullet, tps: int) -> int {
    let speed = if abs(b.velocity_x as int) >= abs(b.velocity_y as int) {
        abs(b.velocity_x as int)
    } else {
        abs(b.velocity_y as int)
    };
    if speed == 0 {
        1
    } else {
        let steps = (level.spec_width() + level.spec_height() + 2) * MICRO_TILE * tps * MICRO_TICKS / speed + 1;
        if steps > MAX_PROBE_TIME {
            MAX_PROBE_TIME as int
        } else {
            steps
        }
    }
}

pub open spec fn abs(v: int) -> int {
    if v < 0 {
        -v
    } else {
        v
    }
}

fn wall_collision(x: i64, y: i64, level: &Level) -> (r: bool)
    requires
        level.wf(),
        -2 * MAX_COORD <= x <= 2 * MAX_COORD,
        -2 * MAX_COORD <= y <= 2 * MAX_COORD,
    ensures
        r == collides(*level, x as int, y as int),
{
    let w = level.width() as i64 * MICRO_TILE;
    let h = level.height() as i64 * MICRO_TILE;
    if x <= 0 || x >= w || y <= 0 || y >= h {
        return true;
    }
    level.tile_at((x / MICRO_TILE) as isize, (y / MICRO_TILE) as isize) == Tile::Wall
}

/// Where a bullet's flight ends and after how many micro-ticks: the first
/// micro-tick at which a corner of its square meets a wall or the world's
/// edge, or the end of the search.
pub fn bullet_end(b: &Bullet, level: &Level, properties: &Properties) -> (r: (Position, i64))
    requires
        b.wf(),
        level.wf(),
        properties.wf(),
    ensures
        1 <= r.1 <= search_limit(*level, *b, properties.ticks_per_second as int),
        corner_hits(*level, *b, r.1 as int, properties.ticks_per_second as int)
            || r.1 == search_limit(*level, *b, properties.ticks_per_second as int),
        forall|t: int| 1 <= t < r.1 ==> !corner_hits(*level, *b, t, properties.ticks_per_second as int),
        (r.0.x as int, r.0.y as int) == position_at(*b, r.1 as int, properties.ticks_per_second as int),
{
    let tps = properties.ticks_per_second as i64;
    let d = tps * MICRO_TICKS;
    let ax = if b.velocity_x < 0 { -b.velocity_x } else { b.velocity_x };
    let ay = if b.velocity_y < 0 { -b.velocity_y } else { b.velocity_y };
    let speed = if ax >= ay { ax } else { ay };
    let limit: i64 = if speed == 0 {
        1
    } else {
        let extent = (level.width() as i64 + level.height() as i64 + 2) * MICRO_TILE;
        assert(extent * d <= 0x100_0000_0000_0000) by (nonlinear_arith)
            requires
                0 <= extent <= 0x2_0002 * 1_000_000,
                0 <= d <= 100_000,
        ;
        assert(extent * d == (level.spec_width() + level.spec_height() + 2) * MICRO_TILE * (tps as int) * MICRO_TICKS) by (nonlinear_arith)
            requires
                extent == (level.spec_width() + level.spec_height() + 2) * MICRO_TILE,
                d == tps * MICRO_TICKS,
        ;
        let steps = extent * d / speed + 1;
        if steps > MAX_PROBE_TIME { MAX_PROBE_TIME } else { steps }
    };
    let half = b.size / 2;
    let mut t: i64 = 1;
    loop
        invariant
            1 <= t <= limit,
            limit == search_limit(*level, *b, tps as int),
            limit <= MAX_PROBE_TIME,
            d == tps * MICRO_TICKS,
            1 <= tps <= 1000,
            tps as int == properties.ticks_per_second as int,
            half == b.size / 2,
            speed == 0 ==> limit == 1 && b.velocity_x == 0 && b.velocity_y == 0,
            speed != 0 ==> limit <= (level.spec_width() + level.spec_height() + 2) * MICRO_TILE * (d as int) / (speed as int) + 1,
            speed == (if abs(b.velocity_x as int) >= abs(b.velocity_y as int) { abs(b.velocity_x as int) } else { abs(b.velocity_y as int) }),
            b.wf(),
            level.wf(),
            forall|s: int| 1 <= s < t ==> !corner_hits(*level, *b, s, tps as int),
        decreases limit - t,
    {
        let sx = scale(b.velocity_x, t, d);
        let sy = scale(b.velocity_y, t, d);
        proof {
            if speed == 0 {
                assert(b.velocity_x == 0 && b.velocity_y == 0);
                assert(scaled(0, t as int, d as int) == 0);
            } else {
                let extent = (level.spec_width() + level.spec_height() + 2) * MICRO_TILE;
                lemma_flight_bounded(b.velocity_x as int, speed as int, t as int, extent, d as int);
                lemma_flight_bounded(b.velocity_y as int, speed as int, t as int, extent, d as int);
            }
        }
        let x = b.position.x + sx;
        let y = b.position.y + sy;
        if wall_collision(x - half, y - half, level) || wall_collision(x + half, y - half, level)
            || wall_collision(x - half, y + half, level) || wall_collision(x + half, y + half, level) || t == limit {
            return (Position { x, y }, t);
        }
        t = t + 1;
    }
}

/// Floor division by a positive number keeps a bounded value bounded.
proof fn lemma_div_bounds(p: int, m: int, d: int)
    requires
        -m <= p <= m,
        d >= 1,
        m >= 0,
    ensures
        -m - 1 <= p / d <= m,
{
    vstd::arithmetic::div_mod::lemma_div_is_ordered(p, m, d);
    vstd::arithmetic::div_mod::lemma_div_is_ordered_by_denominator(m, 1, d);
    vstd::arithmetic::div_mod::lemma_div_basics(m);
    vstd::arithmetic::div_mod::lemma_div_is_ordered(-m, p, d);
    vstd::arithmetic::div_mod::lemma_fundamental_div_mod(-m, d);
    vstd::arithmetic::div_mod::lemma_mod_bound(-m, d);
    let q = (-m) / d;
    let r = (-m) % d;
    assert(q >= -m - 1) by (nonlinear_arith)
        requires
            d * q + r == -m,
            0 <= r < d,
            d >= 1,
            m >= 0,
    ;
}

/// Within the search limit a bullet stays within a bounded distance of where
/// it started.
proof fn lemma_flight_bounded(v: int, speed: int, t: int, extent: int, d: int)
    requires
        -speed <= v <= speed,
        1 <= speed <= 1_000_000_000,
        1 <= t <= extent * d / speed + 1,
        0 <= extent <= 0x2_0002 * 1_000_000,
        1 <= d <= 100_000,
    ensures
        -extent - 1_000_000_001 <= scaled(v, t, d) <= extent + 1_000_000_000,
{
    vstd::arithmetic::div_mod::lemma_fundamental_div_mod(extent * d, speed);
    vstd::arithmetic::div_mod::lemma_mod_bound(extent * d, speed);
    let q = extent * d / speed;
    assert(speed * t <= extent * d + speed) by (nonlinear_arith)
        requires
            t <= q + 1,
            speed * q + (extent * d) % speed == extent * d,
            0 <= (extent * d) % speed,
            speed >= 1,
    ;
    let m = extent * d + speed;
    assert(-m <= v * t <= m) by (nonlinear_arith)
        requires
            -speed <= v <= speed,
            t >= 1,
            speed * t <= m,
    ;
    lemma_div_bounds(v * t, m, d);
    assert(m / d <= extent + speed) by {
        vstd::arithmetic::div_mod::lemma_fundamental_div_mod(m, d);
        vstd::arithmetic::div_mod::lemma_mod_bound(m, d);
        let mq = m / d;
        assert(mq <= extent + speed) by (nonlinear_arith)
            requires
                d * mq + m % d == m,
                0 <= m % d,
                m == extent * d + speed,
                d >= 1,
                speed >= 0,
        ;
    }
    vstd::arithmetic::div_mod::lemma_div_is_ordered(v * t, m, d);
    vstd::arithmetic::div_mod::lemma_div_is_ordered(-m, v * t, d);
    assert((-m) / d >= -extent - speed - 1) by {
        vstd::arithmetic::div_mod::lemma_fundamental_div_mod(-m, d);
        vstd::arithmetic::div_mod::lemma_mod_bound(-m, d);
        let nq = (-m) / d;
        assert(nq >= -extent - speed - 1) by (nonlinear_arith)
            requires
                d * nq + (-m) % d == -m,
                (-m) % d < d,
                m == extent * d + speed,
                d >= 1,
                speed >= 0,
        ;
    }
}

// ---------------------------------------------------------------------------
// Which bullets are gone along one line of simulation

/// `v` with entry `i` set, padded with unset entries as needed.
pub open spec fn mark(v: Seq<bool>, i: int) -> Seq<bool> {
    if i < v.len() {
        v.update(i, true)
    } else {
        (v + Seq::new((i - v.len()) as nat, |k: int| false)).push(true)
    }
}

pub open spec fn is_marked(v: Seq<bool>, i: int) -> bool {
    0 <= i < v.len() && v[i]
}

pub open spec fn count_marked(v: Seq<bool>) -> nat
    decreases v.len(),
{
    if v.len() == 0 {
        0
    } else {
        count_marked(v.drop_last()) + if v.last() {
            1nat
        } else {
            0
        }
    }
}

/// The bullets, by index, that are spent on one simulated line of events.
#[derive(Clone, Debug)]
pub struct BulletsState {
    removed_bullets: Vec<bool>,
}

impl View for BulletsState {
    type V = Seq<bool>;

    closed spec fn view(&self) -> Seq<bool> {
        self.removed_bullets@
    }
}

impl BulletsState {
    pub fn new() -> (r: Self)
        ensures
            r@ == Seq::<bool>::empty(),
    {
        BulletsState { removed_bullets: Vec::new() }
    }

    pub fn is_bullet_removed(&self, index: usize) -> (r: bool)
        ensures
            r == is_marked(self@, index as int),
    {
        if index < self.removed_bullets.len() {
            self.removed_bullets[index]
        } else {
            false
        }
    }

    pub fn remove_bullet(&mut self, index: usize)
        requires
            index < usize::MAX,
        ensures
            final(self)@ == mark(old(self)@, index as int),
    {
        let ghost start = self@;
        assert(self.removed_bullets@ =~= start + Seq::new(0, |k: int| false));
        while self.removed_bullets.len() <= index
            invariant
                start.len() <= self.removed_bullets@.len(),
                self.removed_bullets@.len() <= index + 1 || self.removed_bullets@.len() == start.len(),
                self.removed_bullets@ == start + Seq::new((self.removed_bullets@.len() - start.len()) as nat, |k: int| false),
            decreases index + 1 - self.removed_bullets@.len(),
        {
            self.removed_bullets.push(false);
            proof {
                let n = (self.removed_bullets@.len() - start.len()) as nat;
                assert(self.removed_bullets@ =~= start + Seq::new(n, |k: int| false));
            }
        }
        self.removed_bullets.set(index, true);
        proof {
            if index as int >= start.len() {
                let n = (index - start.len()) as nat;
                assert(self.removed_bullets@ =~= (start + Seq::new(n, |k: int| false)).push(true));
            } else {
                assert(self.removed_bullets@ =~= start.update(index as int, true));
            }
        }
    }

    pub fn count_removed_bullets(&self) -> (r: usize)
        ensures
            r == count_marked(self@),
    {
        let mut count: usize = 0;
        let mut i: usize = 0;
        while i < self.removed_bullets.len()
            invariant
                i <= self.removed_bullets@.len(),
                count == count_marked(self.removed_bullets@.subrange(0, i as int)),
                count <= i,
            decreases self.removed_bullets@.len() - i,
        {
            proof {
                let s = self.removed_bullets@.subrange(0, i + 1);
                assert(s.drop_last() =~= self.removed_bullets@.subrange(0, i as int));
            }
            if self.removed_bullets[i] {
                count = count + 1;
            }
            i = i + 1;
        }
        proof {
            assert(self.removed_bullets@.subrange(0, i as int) =~= self.removed_bullets@);
        }
        count
    }

    pub fn copy(&self) -> (r: Self)
        ensures
            r@ == self@,
    {
        let mut v: Vec<bool> = Vec::new();
        let mut i: usize = 0;
        while i < self.removed_bullets.len()
            invariant
                i <= self.removed_bullets@.len(),
                v@ == self.removed_bullets@.subrange(0, i as int),
            decreases self.removed_bullets@.len() - i,
        {
            v.push(self.removed_bullets[i]);
            proof {
                assert(v@ =~= self.removed_bullets@.subrange(0, i + 1));
            }
            i = i + 1;
        }
        proof {
            assert(v@ =~= self.removed_bullets@);
        }
        BulletsState { removed_bullets: v }
    }
}

// ---------------------------------------------------------------------------
// The forecaster

/// A hit: where the bullet was, and its damage.
pub type Hit = (Position, i32);

/// A splash: where the explosion was, its damage and radius.
pub type Splash = (Position, i32, i64);

/// What probing one live bullet gives: whether it is spent, the hit, and the
/// splash. The unit's box is centred half its height above `pos`; a bullet
/// hits when it lies within the box grown by half the bullet's side, unless
/// the unit fired it; an exploding bullet splashes the unit when it lies
/// within the box grown by the radius. A bullet past the end of its flight is
/// spent, and explodes.
pub open spec fn outcome(b: Bullet, end_tick: int, pos: Position, unit_id: i32, t: int, p: Properties) -> (bool, Option<Hit>, Option<Splash>) {
    let (bx, by) = position_at(b, t, p.ticks_per_second as int);
    let dx2 = abs(2 * bx - 2 * pos.x);
    let dy2 = abs(2 * by - (2 * pos.y + p.unit_size_y));
    let expired = end_tick < t;
    let hit = !expired && dx2 <= p.unit_size_x + b.size && dy2 <= p.unit_size_y + b.size && b.unit_id != unit_id;
    let spent = expired || hit;
    let at = Position { x: bx as i64, y: by as i64 };
    let splash = match b.explosion {
        Some(e) => spent && dx2 <= p.unit_size_x + 2 * e.radius && dy2 <= p.unit_size_y + 2 * e.radius,
        None => false,
    };
    (
        spent,
        if hit { Some((at, b.damage)) } else { None },
        if splash { Some((at, b.explosion->0.damage, b.explosion->0.radius)) } else { None },
    )
}

pub open spec fn opt_seq<A>(o: Option<A>) -> Seq<A> {
    match o {
        Some(a) => seq![a],
        None => seq![],
    }
}

/// The probe over the first `k` bullets: hits, splashes, and the spent
/// bullets afterwards. Bullets already spent in `removed` are skipped.
pub open spec fn probe_prefix(
    bullets: Seq<(Bullet, Position, i64)>,
    removed: Seq<bool>,
    pos: Position,
    unit_id: i32,
    t: int,
    p: Properties,
    k: int,
) -> (Seq<Hit>, Seq<Splash>, Seq<bool>)
    decreases k,
{
    if k <= 0 {
        (seq![], seq![], removed)
    } else {
        let (h, sp, v) = probe_prefix(bullets, removed, pos, unit_id, t, p, k - 1);
        if is_marked(removed, k - 1) {
            (h, sp, v)
        } else {
            let (spent, hit, splash) = outcome(bullets[k - 1].0, bullets[k - 1].2 as int, pos, unit_id, t, p);
            (h + opt_seq(hit), sp + opt_seq(splash), if spent { mark(v, k - 1) } else { v })
        }
    }
}

/// Every live bullet, with where and when its flight ends.
pub struct Bullets {
    bullets: Vec<(Bullet, Position, i64)>,
}

impl View for Bullets {
    type V = Seq<(Bullet, Position, i64)>;

    closed spec fn view(&self) -> Seq<(Bullet, Position, i64)> {
        self.bullets@
    }
}

impl Bullets {
    pub open spec fn wf(&self) -> bool {
        forall|i: int|
            0 <= i < self@.len() ==> {
                &&& (#[trigger] self@[i]).0.wf()
                &&& 1 <= self@[i].2 <= MAX_PROBE_TIME
            }
    }

    /// The probe of a unit at `pos` at micro-tick `t` against every bullet.
    pub open spec fn probe(&self, pos: Position, unit_id: i32, t: int, removed: Seq<bool>, p: Properties) -> (Seq<Hit>, Seq<Splash>, Seq<bool>) {
        probe_prefix(self@, removed, pos, unit_id, t, p, self@.len() as int)
    }

    pub fn new(bullets: &Vec<Bullet>, level: &Level, properties: &Properties) -> (r: Bullets)
        requires
            forall|i: int| 0 <= i < bullets@.len() ==> (#[trigger] bullets@[i]).wf(),
            level.wf(),
            properties.wf(),
        ensures
            r.wf(),
            r@.len() == bullets@.len(),
            forall|i: int| 0 <= i < bullets@.len() ==> {
                let (b, end, tick) = #[trigger] r@[i];
                &&& b == bullets@[i]
                &&& 1 <= tick <= search_limit(*level, b, properties.ticks_per_second as int)
                &&& corner_hits(*level, b, tick as int, properties.ticks_per_second as int)
                    || tick == search_limit(*level, b, properties.ticks_per_second as int)
                &&& forall|s: int| 1 <= s < tick ==> !corner_hits(*level, b, s, properties.ticks_per_second as int)
                &&& (end.x as int, end.y as int) == position_at(b, tick as int, properties.ticks_per_second as int)
            },
    {
        let mut v: Vec<(Bullet, Position, i64)> = Vec::new();
        let mut i: usize = 0;
        while i < bullets.len()
            invariant
                i <= bullets@.len(),
                v@.len() == i,
                forall|i: int| 0 <= i < bullets@.len() ==> (#[trigger] bullets@[i]).wf(),
                level.wf(),
                properties.wf(),
                forall|k: int| 0 <= k < i ==> {
                    let (b, end, tick) = #[trigger] v@[k];
                    &&& b == bullets@[k]
                    &&& 1 <= tick <= search_limit(*level, b, properties.ticks_per_second as int)
                    &&& corner_hits(*level, b, tick as int, properties.ticks_per_second as int)
                        || tick == search_limit(*level, b, properties.ticks_per_second as int)
                    &&& forall|s: int| 1 <= s < tick ==> !corner_hits(*level, b, s, properties.ticks_per_second as int)
                    &&& (end.x as int, end.y as int) == position_at(b, tick as int, properties.ticks_per_second as int)
                },
            decreases bullets@.len() - i,
        {
            let b = bullets[i];
            let (end, tick) = bullet_end(&b, level, properties);
            v.push((b, end, tick));
            i = i + 1;
        }
        let r = Bullets { bullets: v };
        proof {
            assert forall|k: int| 0 <= k < r@.len() implies {
                &&& (#[trigger] r@[k]).0.wf()
                &&& 1 <= r@[k].2 <= MAX_PROBE_TIME
            } by {
                let b = r@[k].0;
                assert(search_limit(*level, b, properties.ticks_per_second as int) <= MAX_PROBE_TIME);
            }
        }
        r
    }

    /// Whether any bullet is still live on this line of events.
    pub fn need_test(&self, bullets_state: &BulletsState) -> (r: bool)
        ensures
            r == (self@.len() > count_marked(bullets_state@)),
    {
        self.bullets.len() > bullets_state.count_removed_bullets()
    }

    /// Probes a unit of id `unit_id` standing at `unit_position` at micro-tick
    /// `tick`: the hits and splashes it takes from the live bullets, and the
    /// spent bullets afterwards.
    pub fn test(&self, unit_position: Position, unit_id: i32, tick: i64, bullets_state: &BulletsState, properties: &Properties) -> (r: (Vec<Hit>, Vec<Splash>, BulletsState))
        requires
            self.wf(),
            properties.wf(),
            crate::control::in_world(unit_position),
            0 <= tick <= MAX_PROBE_TIME,
            self@.len() < usize::MAX,
        ensures
            (r.0@, r.1@, r.2@) == self.probe(unit_position, unit_id, tick as int, bullets_state@, *properties),
    {
        let mut hits: Vec<Hit> = Vec::new();
        let mut splashes: Vec<Splash> = Vec::new();
        let mut state = bullets_state.copy();
        let ghost p = *properties;
        let d = properties.ticks_per_second as i64 * MICRO_TICKS;
        let mut i: usize = 0;
        while i < self.bullets.len()
            invariant
                i <= self@.len(),
                self.wf(),
                p == *properties,
                p.wf(),
                d == p.ticks_per_second * MICRO_TICKS,
                crate::control::in_world(unit_position),
                0 <= tick <= MAX_PROBE_TIME,
                self@.len() < usize::MAX,
                (hits@, splashes@, state@) == probe_prefix(self@, bullets_state@, unit_position, unit_id, tick as int, p, i as int),
            decreases self@.len() - i,
        {
            let ghost before = (hits@, splashes@, state@);
            if !bullets_state.is_bullet_removed(i) {
                let (b, _end, end_tick) = self.bullets[i];
                let sx = scale(b.velocity_x, tick, d);
                let sy = scale(b.velocity_y, tick, d);
                proof {
                    assert(-0x1000_0000_0000_0000 <= b.velocity_x as int * tick as int <= 0x1000_0000_0000_0000) by (nonlinear_arith)
                        requires
                            -1_000_000_000 <= b.velocity_x <= 1_000_000_000,
                            0 <= tick <= 0x4000_0000,
                    ;
                    assert(-0x1000_0000_0000_0000 <= b.velocity_y as int * tick as int <= 0x1000_0000_0000_0000) by (nonlinear_arith)
                        requires
                            -1_000_000_000 <= b.velocity_y <= 1_000_000_000,
                            0 <= tick <= 0x4000_0000,
                    ;
                    lemma_div_bounds(b.velocity_x as int * tick as int, 0x1000_0000_0000_0000, d as int);
                    lemma_div_bounds(b.velocity_y as int * tick as int, 0x1000_0000_0000_0000, d as int);
                }
                let bx = b.position.x as i128 + sx as i128;
                let by = b.position.y as i128 + sy as i128;
                let ux = unit_position.x as i128;
                let uy = unit_position.y as i128;
                let size_x = properties.unit_size_x as i128;
                let size_y = properties.unit_size_y as i128;
                let dx2 = if 2 * bx >= 2 * ux { 2 * bx - 2 * ux } else { 2 * ux - 2 * bx };
                let dy2 = if 2 * by >= 2 * uy + size_y { 2 * by - (2 * uy + size_y) } else { (2 * uy + size_y) - 2 * by };
                let expired = end_tick < tick;
                let hit = !expired && dx2 <= size_x + b.size as i128 && dy2 <= size_y + b.size as i128 && b.unit_id != unit_id;
                let spent = expired || hit;
                let at = Position { x: bx as i64, y: by as i64 };
                if hit {
                    hits.push((at, b.damage));
                }
                match b.explosion {
                    Some(e) => {
                        if spent && dx2 <= size_x + 2 * e.radius as i128 && dy2 <= size_y + 2 * e.radius as i128 {
                            splashes.push((at, e.damage, e.radius));
                        }
                    },
                    None => {},
                }
                if spent {
                    state.remove_bullet(i);
                }
                proof {
                    let o = outcome(b, end_tick as int, unit_position, unit_id, tick as int, p);
                    assert(hits@ =~= before.0 + opt_seq(o.1));
                    assert(splashes@ =~= before.1 + opt_seq(o.2));
                }
            } else {
            }
            i = i + 1;
        }
        (hits, splashes, state)
    }
}

proof fn lemma_mark(v: Seq<bool>, i: int, j: int)
    requires
        i >= 0,
    ensures
        is_marked(mark(v, i), j) <==> (is_marked(v, j) || j == i),
{
    if i >= v.len() {
        let pad = v + Seq::new((i - v.len()) as nat, |k: int| false);
        if 0 <= j < v.len() {
            assert(pad[j] == v[j]);
        } else if v.len() <= j < i {
            assert(pad[j] == false);
        }
    }
}

/// After the probe over the first `k` bullets, a bullet is spent exactly when
/// it was before, or it is one of them and this probe spent it.
proof fn lemma_probe_marks(
    bullets: Seq<(Bullet, Position, i64)>,
    removed: Seq<bool>,
    pos: Position,
    unit_id: i32,
    t: int,
    p: Properties,
    k: int,
    j: int,
)
    requires
        0 <= k <= bullets.len(),
    ensures
        is_marked(probe_prefix(bullets, removed, pos, unit_id, t, p, k).2, j) <==> (is_marked(removed, j) || (0 <= j < k
            && outcome(bullets[j].0, bullets[j].2 as int, pos, unit_id, t, p).0)),
    decreases k,
{
    if k > 0 {
        lemma_probe_marks(bullets, removed, pos, unit_id, t, p, k - 1, j);
        let v = probe_prefix(bullets, removed, pos, unit_id, t, p, k - 1).2;
        lemma_mark(v, k - 1, j);
    }
}

/// A probe in which no live bullet is spent changes nothing and finds
/// nothing.
proof fn lemma_probe_quiet(
    bullets: Seq<(Bullet, Position, i64)>,
    removed: Seq<bool>,
    pos: Position,
    unit_id: i32,
    t: int,
    p: Properties,
    k: int,
)
    requires
        0 <= k <= bullets.len(),
        forall|j: int|
            0 <= j < k && !is_marked(removed, j) ==> !(#[trigger] outcome(bullets[j].0, bullets[j].2 as int, pos, unit_id, t, p)).0,
    ensures
        probe_prefix(bullets, removed, pos, unit_id, t, p, k) == (Seq::<Hit>::empty(), Seq::<Splash>::empty(), removed),
    decreases k,
{
    if k > 0 {
        lemma_probe_quiet(bullets, removed, pos, unit_id, t, p, k - 1);
        if !is_marked(removed, k - 1) {
            let o = outcome(bullets[k - 1].0, bullets[k - 1].2 as int, pos, unit_id, t, p);
            assert(!o.0);
            assert(Seq::<Hit>::empty() + opt_seq(o.1) =~= Seq::<Hit>::empty());
            assert(Seq::<Splash>::empty() + opt_seq(o.2) =~= Seq::<Splash>::empty());
        }
    }
}

/// Probing is repeatable: the same probe on the same spent set gives the same
/// hits, splashes and spent set; and probing again with the spent set it
/// returned finds nothing more and spends nothing more.
pub proof fn lemma_probe_idempotent(
    bullets: Bullets,
    pos: Position,
    unit_id: i32,
    t: int,
    removed: Seq<bool>,
    removed2: Seq<bool>,
    p: Properties,
)
    requires
        removed2 == removed,
    ensures
        bullets.probe(pos, unit_id, t, removed, p) == bullets.probe(pos, unit_id, t, removed2, p),
        bullets.probe(pos, unit_id, t, bullets.probe(pos, unit_id, t, removed, p).2, p) == (
            Seq::<Hit>::empty(),
            Seq::<Splash>::empty(),
            bullets.probe(pos, unit_id, t, removed, p).2,
        ),
{
    let bs = bullets@;
    let n = bs.len() as int;
    let v = bullets.probe(pos, unit_id, t, removed, p).2;
    assert forall|j: int|
        0 <= j < n && !is_marked(v, j) implies !(#[trigger] outcome(bs[j].0, bs[j].2 as int, pos, unit_id, t, p)).0 by {
        lemma_probe_marks(bs, removed, pos, unit_id, t, p, n, j);
    }
    lemma_probe_quiet(bs, v, pos, unit_id, t, p, n);
}

/// A unit is never hit by its own bullets: if every live bullet was fired by
/// the probed unit, the probe records no hit.
pub proof fn lemma_no_self_hit(bullets: Bullets, pos: Position, unit_id: i32, t: int, removed: Seq<bool>, p: Properties)
    requires
        forall|j: int| 0 <= j < bullets@.len() && !is_marked(removed, j) ==> (#[trigger] bullets@[j]).0.unit_id == unit_id,
    ensures
        bullets.probe(pos, unit_id, t, removed, p).0 == Seq::<Hit>::empty(),
{
    lemma_no_self_hit_prefix(bullets@, removed, pos, unit_id, t, p, bullets@.len() as int);
}

proof fn lemma_no_self_hit_prefix(
    bullets: Seq<(Bullet, Position, i64)>,
    removed: Seq<bool>,
    pos: Position,
    unit_id: i32,
    t: int,
    p: Properties,
    k: int,
)
    requires
        0 <= k <= bullets.len(),
        forall|j: int| 0 <= j < bullets.len() && !is_marked(removed, j) ==> (#[trigger] bullets[j]).0.unit_id == unit_id,
    ensures
        probe_prefix(bullets, removed, pos, unit_id, t, p, k).0 == Seq::<Hit>::empty(),
    decreases k,
{
    if k > 0 {
        lemma_no_self_hit_prefix(bullets, removed, pos, unit_id, t, p, k - 1);
        if !is_marked(removed, k - 1) {
            let o = outcome(bullets[k - 1].0, bullets[k - 1].2 as int, pos, unit_id, t, p);
            assert(o.1 is None);
            assert(Seq::<Hit>::empty() + opt_seq(o.1) =~= Seq::<Hit>::empty());
        }
    }
}

} // verus!
