//! The per-tick planner: predicted positions along paths, damage taken along
//! a move, and the choice of the path to follow.
use vstd::prelude::*;
use crate::bullets::{Bullets, BulletsState, MAX_PROBE_TIME, MICRO_TICKS, Hit, Splash};
use crate::control::{Position, MICRO_TILE, HALF_TILE, unit_position_of, to_unit_position, in_world};
use crate::graph::{Paths, DistanceMap, Node, source, target, lemma_graph_legality, lemma_costs_positive, node_ok, lemma_graph_nodes_ok};
use crate::level::Level;
use crate::path::{Move, MoveType, TilePos, VerticalState, movement_catalog};
use crate::properties::Properties;
use crate::rand::Random;

verus! {

/// The largest tile coordinate of a path's moves.
pub const MAX_TILE: isize = 0x10000;

/// A move between two tiles of the grid, taking at least one tick.
pub open spec fn step_ok(m: Move) -> bool {
    &&& 0 <= m.pos1.0 <= MAX_TILE && 0 <= m.pos1.1 <= MAX_TILE
    &&& 0 <= m.pos2.0 <= MAX_TILE && 0 <= m.pos2.1 <= MAX_TILE
    &&& 1 <= m.ticks <= 0x7FFF_FFFF
}

/// A path: a start node, then moves between grid tiles.
pub open spec fn path_ok(path: Seq<Move>) -> bool {
    &&& forall|i: int| 1 <= i < path.len() ==> step_ok(#[trigger] path[i])
    &&& path.len() > 0 ==> 0 <= path.last().pos2.0 <= MAX_TILE && 0 <= path.last().pos2.1 <= MAX_TILE
}

/// The point a fraction `num / den` of the way from `a` to `b`, rounded down.
pub open spec fn between(a: int, b: int, num: int, den: int) -> int {
    a + (b - a) * num / den
}

pub open spec fn interpolate(m: Move, num: int, den: int) -> Position {
    let p1 = unit_position_of(m.pos1);
    let p2 = unit_position_of(m.pos2);
    Position { x: between(p1.x as int, p2.x as int, num, den) as i64, y: between(p1.y as int, p2.y as int, num, den) as i64 }
}

/// Where a unit following `path` is at the start and at the end of tick
/// `tick` of it, looking from move `i` on; past the end it stays at the last
/// tile, and with no path it stays at `here`.
pub open spec fn positions_from(path: Seq<Move>, i: int, tick: int) -> (Position, Position)
    decreases path.len() - i,
{
    if i >= path.len() {
        let p = unit_position_of(path.last().pos2);
        (p, p)
    } else if tick < path[i].ticks {
        (interpolate(path[i], tick, path[i].ticks as int), interpolate(path[i], tick + 1, path[i].ticks as int))
    } else {
        positions_from(path, i + 1, tick - path[i].ticks)
    }
}

pub open spec fn positions_at(here: Position, path: Seq<Move>, tick: int) -> (Position, Position) {
    if path.len() == 0 {
        (here, here)
    } else {
        positions_from(path, 1, tick)
    }
}

proof fn lemma_between_bounded(a: int, b: int, num: int, den: int)
    requires
        0 <= a <= 0x1_0001 * 1_000_000,
        0 <= b <= 0x1_0001 * 1_000_000,
        1 <= den <= 0x7FFF_FFFF * 100,
        0 <= num <= den,
    ensures
        0 <= between(a, b, num, den) <= 0x1_0001 * 1_000_000,
{
    let d = b - a;
    if d >= 0 {
        assert(0 <= d * num <= d * den) by (nonlinear_arith)
            requires
                d >= 0,
                0 <= num <= den,
        ;
        vstd::arithmetic::div_mod::lemma_div_is_ordered(d * num, d * den, den);
        vstd::arithmetic::div_mod::lemma_div_multiples_vanish(d, den);
        vstd::arithmetic::div_mod::lemma_div_pos_is_pos(d * num, den);
        assert(d * den == den * d) by (nonlinear_arith);
    } else {
        assert(d * den <= d * num <= 0) by (nonlinear_arith)
            requires
                d < 0,
                0 <= num <= den,
        ;
        vstd::arithmetic::div_mod::lemma_div_is_ordered(d * den, d * num, den);
        vstd::arithmetic::div_mod::lemma_div_multiples_vanish(d, den);
        vstd::arithmetic::div_mod::lemma_div_is_ordered(d * num, 0, den);
        assert(d * den == den * d) by (nonlinear_arith);
    }
}

fn interpolate_exec(m: Move, num: i64, den: i64) -> (r: Position)
    requires
        step_ok(m),
        den == m.ticks || den == m.ticks * MICRO_TICKS,
        0 <= num <= den,
    ensures
        r == interpolate(m, num as int, den as int),
        in_world(r),
{
    let p1 = to_unit_position(m.pos1);
    let p2 = to_unit_position(m.pos2);
    proof {
        lemma_between_bounded(p1.x as int, p2.x as int, num as int, den as int);
        lemma_between_bounded(p1.y as int, p2.y as int, num as int, den as int);
        assert(-0x1_0001 * 1_000_000 * 0x8000_0000 * 100 <= (p2.x - p1.x) * num <= 0x1_0001 * 1_000_000 * 0x8000_0000 * 100) by (nonlinear_arith)
            requires
                -0x1_0001 * 1_000_000 <= p2.x - p1.x <= 0x1_0001 * 1_000_000,
                0 <= num <= 0x8000_0000 * 100,
        ;
        assert(-0x1_0001 * 1_000_000 * 0x8000_0000 * 100 <= (p2.y - p1.y) * num <= 0x1_0001 * 1_000_000 * 0x8000_0000 * 100) by (nonlinear_arith)
            requires
                -0x1_0001 * 1_000_000 <= p2.y - p1.y <= 0x1_0001 * 1_000_000,
                0 <= num <= 0x8000_0000 * 100,
        ;
    }
    let dx = floor_div((p2.x as i128 - p1.x as i128) * num as i128, den as i128);
    let dy = floor_div((p2.y as i128 - p1.y as i128) * num as i128, den as i128);
    Position { x: (p1.x as i128 + dx) as i64, y: (p1.y as i128 + dy) as i64 }
}

/// `a / d` rounded down, for a positive `d`.
pub fn floor_div(a: i128, d: i128) -> (r: i128)
    requires
        1 <= d <= 0x7FFF_FFFF * 100,
        -0x4000_0000_0000_0000_0000_0000 <= a <= 0x4000_0000_0000_0000_0000_0000,
    ensures
        r == a as int / d as int,
{
    if a >= 0 {
        a / d
    } else {
        let q = ((-a) + d - 1) / d;
        proof {
            let ai = a as int;
            let qi = q as int;
            vstd::arithmetic::div_mod::lemma_fundamental_div_mod(-ai + d - 1, d as int);
            vstd::arithmetic::div_mod::lemma_fundamental_div_mod(ai, d as int);
            vstd::arithmetic::div_mod::lemma_mod_bound(-ai + d - 1, d as int);
            vstd::arithmetic::div_mod::lemma_mod_bound(ai, d as int);
            assert(ai / (d as int) == -qi) by (nonlinear_arith)
                requires
                    -ai + d - 1 == d * qi + (-ai + d - 1) % (d as int),
                    0 <= (-ai + d - 1) % (d as int) < d,
                    ai == d * (ai / (d as int)) + ai % (d as int),
                    0 <= ai % (d as int) < d,
                    d >= 1,
            ;
        }
        -q
    }
}

/// Where a unit at `here` following `path` is at the start and at the end of
/// tick `path_tick` of the path.
pub fn get_unit_position_at_tick(here: Position, path: &Vec<Move>, path_tick: i64) -> (r: (Position, Position))
    requires
        path_ok(path@),
        0 <= path_tick <= 0x4000_0000_0000,
    ensures
        r == positions_at(here, path@, path_tick as int),
{
    if path.len() == 0 {
        return (here, here);
    }
    let mut tick = path_tick;
    let mut i: usize = 1;
    while i < path.len()
        invariant
            1 <= i <= path@.len(),
            path_ok(path@),
            0 <= tick <= 0x4000_0000_0000,
            positions_from(path@, i as int, tick as int) == positions_from(path@, 1, path_tick as int),
        decreases path@.len() - i,
    {
        let m = path[i];
        assert(step_ok(path@[i as int]));
        if tick < m.ticks as i64 {
            let a = interpolate_exec(m, tick, m.ticks as i64);
            let b = interpolate_exec(m, tick + 1, m.ticks as i64);
            return (a, b);
        }
        tick = tick - m.ticks as i64;
        i = i + 1;
    }
    let last = to_unit_position(path[path.len() - 1].pos2);
    (last, last)
}

pub open spec fn hits_damage(h: Seq<Hit>) -> int
    decreases h.len(),
{
    if h.len() == 0 {
        0
    } else {
        hits_damage(h.drop_last()) + h.last().1
    }
}

pub open spec fn splashes_damage(s: Seq<Splash>) -> int
    decreases s.len(),
{
    if s.len() == 0 {
        0
    } else {
        splashes_damage(s.drop_last()) + s.last().1
    }
}

/// Damage taken, and the spent bullets, over the first `k` micro-ticks of
/// move `m` begun at tick `from_tick`: the unit is probed at each micro-tick
/// on the straight line between the move's two tiles.
pub open spec fn damage_along(bullets: Bullets, m: Move, from_tick: int, unit_id: i32, removed: Seq<bool>, p: Properties, k: int) -> (int, Seq<bool>)
    decreases k,
{
    if k <= 0 {
        (0, removed)
    } else {
        let (d, v) = damage_along(bullets, m, from_tick, unit_id, removed, p, k - 1);
        let (h, s, v2) = bullets.probe(
            interpolate(m, k - 1, m.ticks * MICRO_TICKS),
            unit_id,
            from_tick * MICRO_TICKS + k - 1,
            v,
            p,
        );
        (d + hits_damage(h) + splashes_damage(s), v2)
    }
}

/// What `calc_damage` gives: nothing when no bullet is live.
pub open spec fn move_damage(bullets: Bullets, m: Move, from_tick: int, unit_id: i32, removed: Seq<bool>, p: Properties) -> (int, Seq<bool>) {
    if bullets@.len() > crate::bullets::count_marked(removed) {
        damage_along(bullets, m, from_tick, unit_id, removed, p, m.ticks * MICRO_TICKS)
    } else {
        (0, removed)
    }
}

proof fn lemma_probe_sizes(
    bullets: Seq<(crate::bullets::Bullet, Position, i64)>,
    removed: Seq<bool>,
    pos: Position,
    unit_id: i32,
    t: int,
    p: Properties,
    k: int,
)
    requires
        0 <= k <= bullets.len(),
        forall|i: int| 0 <= i < bullets.len() ==> (#[trigger] bullets[i]).0.wf(),
    ensures
        0 <= hits_damage(crate::bullets::probe_prefix(bullets, removed, pos, unit_id, t, p, k).0) <= k * 1_000_000,
        0 <= splashes_damage(crate::bullets::probe_prefix(bullets, removed, pos, unit_id, t, p, k).1) <= k * 1_000_000,
        forall|i: int| 0 <= i < crate::bullets::probe_prefix(bullets, removed, pos, unit_id, t, p, k).0.len()
            ==> 0 <= (#[trigger] crate::bullets::probe_prefix(bullets, removed, pos, unit_id, t, p, k).0[i]).1,
        forall|i: int| 0 <= i < crate::bullets::probe_prefix(bullets, removed, pos, unit_id, t, p, k).1.len()
            ==> 0 <= (#[trigger] crate::bullets::probe_prefix(bullets, removed, pos, unit_id, t, p, k).1[i]).1,
    decreases k,
{
    if k > 0 {
        lemma_probe_sizes(bullets, removed, pos, unit_id, t, p, k - 1);
        let (h, sp, v) = crate::bullets::probe_prefix(bullets, removed, pos, unit_id, t, p, k - 1);
        if !crate::bullets::is_marked(removed, k - 1) {
            let o = crate::bullets::outcome(bullets[k - 1].0, bullets[k - 1].2 as int, pos, unit_id, t, p);
            let h2 = h + crate::bullets::opt_seq(o.1);
            let s2 = sp + crate::bullets::opt_seq(o.2);
            if o.1 is Some {
                assert(h2.drop_last() =~= h);
                assert(h2.last() == o.1->0);
            } else {
                assert(h2 =~= h);
            }
            if o.2 is Some {
                assert(s2.drop_last() =~= sp);
                assert(s2.last() == o.2->0);
            } else {
                assert(s2 =~= sp);
            }
            assert forall|i: int| 0 <= i < h2.len() implies 0 <= (#[trigger] h2[i]).1 by {
                if i < h.len() {
                    assert(h2[i] == h[i]);
                }
            }
            assert forall|i: int| 0 <= i < s2.len() implies 0 <= (#[trigger] s2[i]).1 by {
                if i < sp.len() {
                    assert(s2[i] == sp[i]);
                }
            }
        }
    }
}

fn sum_damage(hits: &Vec<Hit>, splashes: &Vec<Splash>) -> (r: i128)
    requires
        0 <= hits_damage(hits@) + splashes_damage(splashes@) <= 0x1000_0000_0000_0000_0000,
        0 <= hits_damage(hits@),
        0 <= splashes_damage(splashes@),
        forall|i: int| 0 <= i < hits@.len() ==> 0 <= (#[trigger] hits@[i]).1,
        forall|i: int| 0 <= i < splashes@.len() ==> 0 <= (#[trigger] splashes@[i]).1,
    ensures
        r == hits_damage(hits@) + splashes_damage(splashes@),
{
    let mut total: i128 = 0;
    let mut i: usize = 0;
    while i < hits.len()
        invariant
            i <= hits@.len(),
            total == hits_damage(hits@.subrange(0, i as int)),
            0 <= hits_damage(hits@) <= 0x1000_0000_0000_0000_0000,
            forall|i: int| 0 <= i < hits@.len() ==> 0 <= (#[trigger] hits@[i]).1,
        decreases hits@.len() - i,
    {
        proof {
            assert(hits@.subrange(0, i + 1).drop_last() =~= hits@.subrange(0, i as int));
            lemma_prefix_damage_le(hits@, i + 1);
        }
        total = total + hits[i].1 as i128;
        i = i + 1;
    }
    assert(hits@.subrange(0, i as int) =~= hits@);
    let mut j: usize = 0;
    while j < splashes.len()
        invariant
            j <= splashes@.len(),
            total == hits_damage(hits@) + splashes_damage(splashes@.subrange(0, j as int)),
            0 <= hits_damage(hits@),
            0 <= hits_damage(hits@) + splashes_damage(splashes@) <= 0x1000_0000_0000_0000_0000,
            forall|i: int| 0 <= i < splashes@.len() ==> 0 <= (#[trigger] splashes@[i]).1,
        decreases splashes@.len() - j,
    {
        proof {
            assert(splashes@.subrange(0, j + 1).drop_last() =~= splashes@.subrange(0, j as int));
            lemma_prefix_splash_le(splashes@, j + 1);
        }
        total = total + splashes[j].1 as i128;
        j = j + 1;
    }
    assert(splashes@.subrange(0, j as int) =~= splashes@);
    total
}

proof fn lemma_prefix_damage_le(h: Seq<Hit>, k: int)
    requires
        0 <= k <= h.len(),
        forall|i: int| 0 <= i < h.len() ==> 0 <= (#[trigger] h[i]).1,
    ensures
        0 <= hits_damage(h.subrange(0, k)) <= hits_damage(h),
    decreases h.len(),
{
    if h.len() > 0 {
        if k == h.len() {
            assert(h.subrange(0, k) =~= h);
            lemma_prefix_damage_le(h.drop_last(), k - 1);
            assert(h.drop_last().subrange(0, k - 1) =~= h.drop_last());
        } else {
            lemma_prefix_damage_le(h.drop_last(), k);
            assert(h.drop_last().subrange(0, k) =~= h.subrange(0, k));
        }
    }
}

proof fn lemma_prefix_splash_le(h: Seq<Splash>, k: int)
    requires
        0 <= k <= h.len(),
        forall|i: int| 0 <= i < h.len() ==> 0 <= (#[trigger] h[i]).1,
    ensures
        0 <= splashes_damage(h.subrange(0, k)) <= splashes_damage(h),
    decreases h.len(),
{
    if h.len() > 0 {
        if k == h.len() {
            assert(h.subrange(0, k) =~= h);
            lemma_prefix_splash_le(h.drop_last(), k - 1);
            assert(h.drop_last().subrange(0, k - 1) =~= h.drop_last());
        } else {
            lemma_prefix_splash_le(h.drop_last(), k);
            assert(h.drop_last().subrange(0, k) =~= h.subrange(0, k));
        }
    }
}

/// Damage taken along move `mov` begun at tick `from_tick`, probing the unit
/// at every micro-tick, and the spent bullets afterwards.
pub fn calc_damage(mov: &Move, from_tick: i64, unit_id: i32, bullets_state: &BulletsState, bullets: &Bullets, properties: &Properties) -> (r: (i128, BulletsState))
    requires
        bullets.wf(),
        bullets@.len() <= 0x1_0000_0000,
        bullets@.len() < usize::MAX,
        properties.wf(),
        step_ok(*mov),
        0 <= from_tick,
        (from_tick + mov.ticks) * MICRO_TICKS <= MAX_PROBE_TIME,
    ensures
        (r.0 as int, r.1@) == move_damage(*bullets, *mov, from_tick as int, unit_id, bullets_state@, *properties),
        0 <= r.0 <= mov.ticks * MICRO_TICKS * 0x40_0000_0000_0000,
{
    if !bullets.need_test(bullets_state) {
        assert(mov.ticks * MICRO_TICKS * 0x40_0000_0000_0000 >= 0) by (nonlinear_arith)
            requires
                mov.ticks >= 1,
        ;
        return (0, bullets_state.copy());
    }
    let ghost p = *properties;
    let den = mov.ticks as i64 * MICRO_TICKS;
    let mut damage: i128 = 0;
    let mut state = bullets_state.copy();
    let mut k: i64 = 0;
    while k < den
        invariant
            0 <= k <= den,
            den == mov.ticks * MICRO_TICKS,
            bullets.wf(),
            bullets@.len() <= 0x1_0000_0000,
            bullets@.len() < usize::MAX,
            p == *properties,
            p.wf(),
            step_ok(*mov),
            0 <= from_tick,
            (from_tick + mov.ticks) * MICRO_TICKS <= MAX_PROBE_TIME,
            (damage as int, state@) == damage_along(*bullets, *mov, from_tick as int, unit_id, bullets_state@, p, k as int),
            0 <= damage <= k * 0x40_0000_0000_0000,
        decreases den - k,
    {
        let position = interpolate_exec(*mov, k, den);
        let (hits, splashes, next) = bullets.test(position, unit_id, from_tick * MICRO_TICKS + k, &state, properties);
        proof {
            lemma_probe_sizes(bullets@, state@, position, unit_id, from_tick * MICRO_TICKS + k, p, bullets@.len() as int);
            assert forall|i: int| 0 <= i < bullets@.len() implies (#[trigger] bullets@[i]).0.wf() by {}
            let n = bullets@.len() as int;
            assert(n * 1_000_000 <= 0x1_0000_0000 * 1_000_000) by (nonlinear_arith)
                requires
                    0 <= n <= 0x1_0000_0000,
            ;
        }
        let d = sum_damage(&hits, &splashes);
        assert((k + 1) * 0x40_0000_0000_0000 == k * 0x40_0000_0000_0000 + 0x40_0000_0000_0000) by (nonlinear_arith);
        damage = damage + d;
        state = next;
        k = k + 1;
    }
    (damage, state)
}

// ---------------------------------------------------------------------------
// Paths through the graph

/// `path` starts at node `start`, and each later move leaves, by a move of
/// the graph, the node the one before it reached.
pub open spec fn walk_ok(paths: Paths, start: Node, path: Seq<Move>) -> bool {
    &&& path.len() > 0
    &&& target(path[0]) == start
    &&& forall|i: int| 1 <= i < path.len() ==> #[trigger] paths.out(target(path[i - 1])).contains(path[i])
}

/// A move of the graph is a move between grid tiles taking at least a tick.
pub proof fn lemma_graph_step_ok(paths: Paths, level: Level, p: Properties, n: Node, m: Move)
    requires
        paths.wf(level, p),
        paths.out(n).contains(m),
    ensures
        step_ok(m),
        paths.known(target(m)),
        source(m) == n,
{
    lemma_graph_legality(paths, level, p, n, m);
    lemma_graph_legality(paths, level, p, target(m), m);
    lemma_graph_nodes_ok(paths, level, p, n);
    lemma_graph_nodes_ok(paths, level, p, target(m));
    let c = choose|c: int| 0 <= c < movement_catalog().len() && #[trigger] movement_catalog()[c].result(level, p, n.0, n.1) == Some(m);
    lemma_costs_positive(p, c);
}

/// A walk of the graph is a path of grid moves ending at a node of the graph.
pub proof fn lemma_walk_path_ok(paths: Paths, level: Level, p: Properties, start: Node, path: Seq<Move>)
    requires
        paths.wf(level, p),
        paths.known(start),
        walk_ok(paths, start, path),
    ensures
        path_ok(path),
        paths.known(target(path.last())),
{
    assert forall|i: int| 1 <= i < path.len() implies step_ok(#[trigger] path[i]) by {
        lemma_graph_step_ok(paths, level, p, target(path[i - 1]), path[i]);
    }
    if path.len() > 1 {
        let i = path.len() - 1;
        assert(paths.out(target(path[i - 1])).contains(path[i]));
        lemma_graph_step_ok(paths, level, p, target(path[i - 1]), path[i]);
    }
    lemma_graph_nodes_ok(paths, level, p, start);
    lemma_graph_nodes_ok(paths, level, p, target(path.last()));
    if path.len() > 1 {
        let i = path.len() - 1;
        lemma_graph_step_ok(paths, level, p, target(path[i - 1]), path[i]);
    }
}

/// A uniform draw below `n`.
fn pick(rand: &mut Random, n: u32) -> (r: u32)
    requires
        old(rand).wf(),
        n > 0,
    ensures
        final(rand).wf(),
        r < n,
{
    rand.next_u32_bounded(n)
}

proof fn lemma_walk_push(paths: Paths, start: Node, path: Seq<Move>, m: Move, keep: int)
    requires
        walk_ok(paths, start, path),
        paths.out(target(path.last())).contains(m),
        0 <= keep <= path.len(),
    ensures
        walk_ok(paths, start, path.push(m)),
        path.push(m).subrange(0, keep) == path.subrange(0, keep),
{
    let q = path.push(m);
    assert forall|i: int| 1 <= i < q.len() implies #[trigger] paths.out(target(q[i - 1])).contains(q[i]) by {
        if i < path.len() {
            assert(q[i] == path[i] && q[i - 1] == path[i - 1]);
        }
    }
    assert(q.subrange(0, keep) =~= path.subrange(0, keep));
}

/// Extends `path` with moves drawn uniformly from the graph until it spans
/// at least `max_ticks` ticks or reaches a node with no way out.
fn random_extend(
    path: &mut Vec<Move>,
    ticks: i64,
    max_ticks: i64,
    paths: &Paths,
    rand: &mut Random,
    level: &Level,
    properties: &Properties,
    Ghost(start): Ghost<Node>,
)
    requires
        paths.wf(*level, *properties),
        paths.known(start),
        walk_ok(*paths, start, old(path)@),
        old(rand).wf(),
        0 <= ticks <= max_ticks <= 1000,
    ensures
        walk_ok(*paths, start, final(path)@),
        final(path)@.len() >= old(path)@.len(),
        final(path)@.subrange(0, old(path)@.len() as int) == old(path)@,
        final(rand).wf(),
{
    let ghost p = *properties;
    let ghost level_g = *level;
    let ghost start_path = path@;
    let mut ticks = ticks;
    while ticks < max_ticks
        invariant
            paths.wf(level_g, p),
            level_g == *level,
            p == *properties,
            paths.known(start),
            walk_ok(*paths, start, path@),
            rand.wf(),
            path@.len() >= start_path.len(),
            path@.subrange(0, start_path.len() as int) == start_path,
            0 <= ticks <= 1000 + 0x8000_0000,
            max_ticks <= 1000,
        decreases 1000 + 0x8000_0000 - ticks,
    {
        let last = path[path.len() - 1];
        proof {
            lemma_walk_path_ok(*paths, level_g, p, start, path@);
        }
        let movs = match paths.outgoing_of(last.pos2, last.vertical_state2, level, properties) {
            Some(v) => v,
            None => break,
        };
        if movs.len() == 0 {
            break;
        }
        if movs.len() > u32::MAX as usize {
            break;
        }
        let k = pick(rand, movs.len() as u32) as usize;
        let m = movs[k];
        proof {
            assert(paths.out(target(last)).contains(m));
            lemma_graph_step_ok(*paths, level_g, p, target(last), m);
        }
        let ghost before = path@;
        proof {
            lemma_walk_push(*paths, start, before, m, start_path.len() as int);
        }
        path.push(m);
        assert(m.ticks >= 1);
        ticks = ticks + m.ticks as i64;
    }
}

/// How long the planner looks ahead, in ticks.
pub const MAX_TICKS: i64 = 60;

/// How many candidate paths the planner tries each tick.
pub const PATH_COUNT: usize = 100;

/// How many candidates may start from the previous plan.
pub const WARM_STARTS: usize = 5;

/// The distance taken for a node from which the target cannot be reached.
pub const VERY_LONG_DIST: u64 = 1_000_000;

/// The separation from the enemy, in ticks, that the planner prefers.
pub const PREFERRED_DISTANCE: i128 = 50;

/// The distance of node `n` in `map`, or the stand-in for unreachable.
fn dist_or_long(map: &DistanceMap, n: Node, paths: &Paths, level: &Level, properties: &Properties) -> (r: u64)
    requires
        paths.wf(*level, *properties),
    ensures
        r == match map.dist_of(*paths, n) {
            Some(d) => d,
            None => VERY_LONG_DIST,
        },
{
    match map.get(paths, n.0, n.1, level, properties) {
        Some(d) => d,
        None => VERY_LONG_DIST,
    }
}

/// How a greedy step rates a move: its ticks plus the distance left from
/// where it leads.
pub open spec fn greedy_key(map: DistanceMap, paths: Paths, m: Move) -> int {
    m.ticks + match map.dist_of(paths, target(m)) {
        Some(d) => d as int,
        None => VERY_LONG_DIST as int,
    }
}

/// A greedy walk goes on from the end of `prefix`: it spans fewer than
/// `max_ticks` ticks, has not reached the target, and can move on.
pub open spec fn greedy_goes_on(map: DistanceMap, paths: Paths, max_ticks: int, prefix: Seq<Move>) -> bool {
    &&& ticks_sum(prefix) < max_ticks
    &&& map.dist_of(paths, target(prefix.last())) != Some(0u64)
    &&& paths.out(target(prefix.last())).len() > 0
}

/// `g` is a greedy walk from `start`: each move rates best among those out
/// of the node before it, and the walk stops where it may no longer go on.
pub open spec fn greedy_like(map: DistanceMap, paths: Paths, start: Node, max_ticks: int, g: Seq<Move>) -> bool {
    &&& walk_ok(paths, start, g)
    &&& g[0] == crate::control::start_node(start.0, start.1)
    &&& forall|i: int, m: Move|
        #![trigger paths.out(target(g[i - 1])).contains(m)]
        1 <= i < g.len() && paths.out(target(g[i - 1])).contains(m) ==> greedy_key(map, paths, g[i]) <= greedy_key(map, paths, m)
    &&& forall|i: int| 1 <= i < g.len() ==> greedy_goes_on(map, paths, max_ticks, #[trigger] g.subrange(0, i))
    &&& !greedy_goes_on(map, paths, max_ticks, g)
}

/// Follows from `start` the move that minimises its ticks plus the distance
/// left to the target of `target_map`, the first such in graph order, until
/// the target or a dead end is reached or `max_ticks` have passed.
pub fn greedy_path(start: Node, target_map: &DistanceMap, max_ticks: i64, paths: &Paths, level: &Level, properties: &Properties) -> (r: Vec<Move>)
    requires
        paths.wf(*level, *properties),
        paths.known(start),
        0 <= max_ticks <= 1000,
    ensures
        walk_ok(*paths, start, r@),
        r@[0] == crate::control::start_node(start.0, start.1),
        forall|i: int, m: Move|
            #![trigger paths.out(target(r@[i - 1])).contains(m)]
            1 <= i < r@.len() && paths.out(target(r@[i - 1])).contains(m) ==> greedy_key(*target_map, *paths, r@[i])
                <= greedy_key(*target_map, *paths, m),
        forall|i: int| 1 <= i < r@.len() ==> greedy_goes_on(*target_map, *paths, max_ticks as int, #[trigger] r@.subrange(0, i)),
        !greedy_goes_on(*target_map, *paths, max_ticks as int, r@),
        greedy_like(*target_map, *paths, start, max_ticks as int, r@),
{
    let ghost p = *properties;
    let ghost level_g = *level;
    let mut path: Vec<Move> = Vec::new();
    path.push(crate::control::make_start_node(start.0, start.1));
    let mut ticks: i64 = 0;
    proof {
        assert(path@.drop_last() =~= Seq::<Move>::empty());
        assert(path@.last() == path@[0]);
        reveal_with_fuel(ticks_sum, 2);
        assert(ticks_sum(path@) == 0);
    }
    while ticks < max_ticks
        invariant
            paths.wf(level_g, p),
            level_g == *level,
            p == *properties,
            paths.known(start),
            walk_ok(*paths, start, path@),
            path@[0] == crate::control::start_node(start.0, start.1),
            0 <= ticks <= 1000 + 0x8000_0000,
            max_ticks <= 1000,
            forall|i: int, m: Move|
                #![trigger paths.out(target(path@[i - 1])).contains(m)]
                1 <= i < path@.len() && paths.out(target(path@[i - 1])).contains(m) ==> greedy_key(*target_map, *paths, path@[i])
                    <= greedy_key(*target_map, *paths, m),
            ticks == ticks_sum(path@),
            forall|i: int| 1 <= i < path@.len() ==> greedy_goes_on(*target_map, *paths, max_ticks as int, #[trigger] path@.subrange(0, i)),
        ensures
            !greedy_goes_on(*target_map, *paths, max_ticks as int, path@),
            walk_ok(*paths, start, path@),
            path@[0] == crate::control::start_node(start.0, start.1),
            forall|i: int, m: Move|
                #![trigger paths.out(target(path@[i - 1])).contains(m)]
                1 <= i < path@.len() && paths.out(target(path@[i - 1])).contains(m) ==> greedy_key(*target_map, *paths, path@[i])
                    <= greedy_key(*target_map, *paths, m),
            forall|i: int| 1 <= i < path@.len() ==> greedy_goes_on(*target_map, *paths, max_ticks as int, #[trigger] path@.subrange(0, i)),
        decreases 1000 + 0x8000_0000 - ticks,
    {
        let last = path[path.len() - 1];
        proof {
            lemma_graph_nodes_ok(*paths, level_g, p, target(path@.last()));
        }
        let here = (last.pos2, last.vertical_state2);
        if let Some(d) = target_map.get(paths, here.0, here.1, level, properties) {
            if d == 0 {
                break;
            }
        }
        let movs = match paths.outgoing_of(here.0, here.1, level, properties) {
            Some(v) => v,
            None => break,
        };
        if movs.len() == 0 {
            break;
        }
        let mut best: usize = 0;
        let mut best_key: u128 = 0;
        let mut k: usize = 0;
        while k < movs.len()
            invariant
                paths.wf(level_g, p),
                level_g == *level,
                p == *properties,
                movs@ == paths.out(here),
                k <= movs@.len(),
                k > 0 ==> best < k,
                k > 0 ==> best_key == greedy_key(*target_map, *paths, movs@[best as int]),
                forall|k2: int| 0 <= k2 < k ==> best_key <= #[trigger] greedy_key(*target_map, *paths, movs@[k2]),
                movs@.len() > 0,
            decreases movs@.len() - k,
        {
            let m = movs[k];
            proof {
                assert(paths.out(here).contains(m));
                lemma_graph_step_ok(*paths, level_g, p, here, m);
            }
            let key = m.ticks as u128 + dist_or_long(target_map, (m.pos2, m.vertical_state2), paths, level, properties) as u128;
            if k == 0 || key < best_key {
                best = k;
                best_key = key;
            }
            k = k + 1;
        }
        let m = movs[best];
        let ghost before = path@;
        proof {
            assert(paths.out(here).contains(m));
            lemma_graph_step_ok(*paths, level_g, p, here, m);
            lemma_walk_push(*paths, start, path@, m, 1);
        }
        path.push(m);
        proof {
            assert(path@.drop_last() =~= before);
            assert(path@.subrange(0, before.len() as int) =~= before);
            assert forall|i: int| 1 <= i < path@.len() implies greedy_goes_on(*target_map, *paths, max_ticks as int, #[trigger] path@.subrange(0, i)) by {
                if i < before.len() {
                    assert(path@.subrange(0, i) =~= before.subrange(0, i));
                }
            }
            assert forall|i: int, m2: Move|
                #![trigger paths.out(target(path@[i - 1])).contains(m2)]
                1 <= i < path@.len() && paths.out(target(path@[i - 1])).contains(m2) implies greedy_key(*target_map, *paths, path@[i])
                    <= greedy_key(*target_map, *paths, m2) by {
                if i < before.len() {
                    assert(path@[i] == before[i] && path@[i - 1] == before[i - 1]);
                } else {
                    assert(path@[i - 1] == before.last());
                    let k2 = choose|k2: int| 0 <= k2 < movs@.len() && movs@[k2] == m2;
                    assert(greedy_key(*target_map, *paths, movs@[k2]) >= best_key);
                }
            }
        }
        ticks = ticks + m.ticks as i64;
    }
    path
}

/// Another unit, as the planner predicts it: an ally follows its committed
/// path, begun `path_offset` ticks ago; an enemy stays where it is.
pub struct OtherUnit {
    pub position: Position,
    pub path: Vec<Move>,
    pub path_offset: i64,
}

impl OtherUnit {
    pub open spec fn wf(&self) -> bool {
        &&& in_world(self.position)
        &&& path_ok(self.path@)
        &&& 0 <= self.path_offset <= 0x1000_0000
    }
}

/// The two boxes, centred at `a` and `b`, overlap: closer than half a unit on
/// both axes.
pub open spec fn overlap(a: Position, b: Position, p: Properties) -> bool {
    2 * crate::world::abs(a.x - b.x) < p.unit_size_x && 2 * crate::world::abs(a.y - b.y) < p.unit_size_y
}

fn overlaps(a: Position, b: Position, properties: &Properties) -> (r: bool)
    requires
        in_world(a),
        in_world(b),
    ensures
        r == overlap(a, b, *properties),
{
    let dx = if a.x >= b.x { a.x - b.x } else { b.x - a.x };
    let dy = if a.y >= b.y { a.y - b.y } else { b.y - a.y };
    2 * dx < properties.unit_size_x && 2 * dy < properties.unit_size_y
}

proof fn lemma_positions_in_world(here: Position, path: Seq<Move>, tick: int)
    requires
        in_world(here),
        path_ok(path),
        0 <= tick,
    ensures
        in_world(positions_at(here, path, tick).0),
        in_world(positions_at(here, path, tick).1),
{
    if path.len() > 0 {
        lemma_positions_from_in_world(path, 1, tick);
    }
}

proof fn lemma_positions_from_in_world(path: Seq<Move>, i: int, tick: int)
    requires
        path_ok(path),
        path.len() > 0,
        1 <= i,
        0 <= tick,
    ensures
        in_world(positions_from(path, i, tick).0),
        in_world(positions_from(path, i, tick).1),
    decreases path.len() - i,
{
    if i >= path.len() {
    } else if tick < path[i].ticks {
        let m = path[i];
        assert(step_ok(m));
        let p1 = unit_position_of(m.pos1);
        let p2 = unit_position_of(m.pos2);
        lemma_between_bounded(p1.x as int, p2.x as int, tick, m.ticks as int);
        lemma_between_bounded(p1.y as int, p2.y as int, tick, m.ticks as int);
        lemma_between_bounded(p1.x as int, p2.x as int, tick + 1, m.ticks as int);
        lemma_between_bounded(p1.y as int, p2.y as int, tick + 1, m.ticks as int);
    } else {
        assert(step_ok(path[i]));
        lemma_positions_from_in_world(path, i + 1, tick - path[i].ticks);
    }
}

/// The unit, at `here` and following `path`, runs into one of `others`
/// during the ticks of move `i` of the path, begun at tick `from_tick`.
pub open spec fn collision_during(path: Seq<Move>, i: int, from_tick: int, here: Position, others: Seq<OtherUnit>, p: Properties) -> bool {
    exists|t: int, k: int|
        0 <= t < path[i].ticks && 0 <= k < others.len() && overlap(
            positions_at(here, path, from_tick + t).0,
            #[trigger] positions_at(others[k].position, others[k].path@, from_tick + t + others[k].path_offset).0,
            p,
        )
}

/// Damage taken along `path` from move `i` on, begun at tick `ticks` with the
/// bullets of `removed` spent; nothing if the unit runs into another unit.
/// Moves that begin or last past `MAX_PROBED_TICKS` are neither probed nor
/// checked.
pub open spec fn path_outcome(
    path: Seq<Move>,
    i: int,
    ticks: int,
    removed: Seq<bool>,
    unit_id: i32,
    here: Position,
    others: Seq<OtherUnit>,
    bullets: Bullets,
    p: Properties,
) -> Option<int>
    decreases path.len() - i,
{
    if i >= path.len() || i < 1 {
        Some(0)
    } else {
        let m = path[i];
        if ticks > MAX_PROBED_TICKS || m.ticks > MAX_PROBED_TICKS {
            path_outcome(path, i + 1, ticks + m.ticks, removed, unit_id, here, others, bullets, p)
        } else if collision_during(path, i, ticks, here, others, p) {
            None
        } else {
            let (d, v) = move_damage(bullets, m, ticks, unit_id, removed, p);
            match path_outcome(path, i + 1, ticks + m.ticks, v, unit_id, here, others, bullets, p) {
                Some(rest) => Some(d + rest),
                None => None,
            }
        }
    }
}

pub open spec fn add_opt(a: int, o: Option<int>) -> Option<int> {
    match o {
        Some(b) => Some(a + b),
        None => None,
    }
}

/// Whether the unit, at `unit_position` and following `path`, runs into one
/// of `others` during the ticks of move `i` of the path, begun at tick
/// `from_tick`.
fn collides_during(
    path: &Vec<Move>,
    i: usize,
    from_tick: i64,
    unit_position: Position,
    others: &Vec<OtherUnit>,
    properties: &Properties,
) -> (r: bool)
    requires
        path_ok(path@),
        1 <= i < path@.len(),
        0 <= from_tick <= 0x1000_0000,
        path@[i as int].ticks <= 0x1000_0000,
        in_world(unit_position),
        forall|k: int| 0 <= k < others@.len() ==> (#[trigger] others@[k]).wf(),
    ensures
        r == collision_during(path@, i as int, from_tick as int, unit_position, others@, *properties),
{
    let m = path[i];
    assert(step_ok(path@[i as int]));
    let mut t: i64 = 0;
    while t < m.ticks as i64
        invariant
            0 <= t <= m.ticks,
            m == path@[i as int],
            path_ok(path@),
            0 <= from_tick <= 0x1000_0000,
            m.ticks <= 0x1000_0000,
            in_world(unit_position),
            forall|k: int| 0 <= k < others@.len() ==> (#[trigger] others@[k]).wf(),
            forall|t2: int, k: int|
                0 <= t2 < t && 0 <= k < others@.len() ==> !overlap(
                    positions_at(unit_position, path@, from_tick + t2).0,
                    #[trigger] positions_at(others@[k].position, others@[k].path@, from_tick + t2 + others@[k].path_offset).0,
                    *properties,
                ),
        decreases m.ticks - t,
    {
        let tick = from_tick + t;
        let here = get_unit_position_at_tick(unit_position, path, tick).0;
        proof {
            lemma_positions_in_world(unit_position, path@, tick as int);
        }
        let mut k: usize = 0;
        while k < others.len()
            invariant
                0 <= t < m.ticks,
                tick == from_tick + t,
                m == path@[i as int],
                0 <= from_tick <= 0x1000_0000,
                m.ticks <= 0x1000_0000,
                k <= others@.len(),
                in_world(here),
                here == positions_at(unit_position, path@, tick as int).0,
                forall|k: int| 0 <= k < others@.len() ==> (#[trigger] others@[k]).wf(),
                forall|t2: int, k: int|
                    0 <= t2 < t && 0 <= k < others@.len() ==> !overlap(
                        positions_at(unit_position, path@, from_tick + t2).0,
                        #[trigger] positions_at(others@[k].position, others@[k].path@, from_tick + t2 + others@[k].path_offset).0,
                        *properties,
                    ),
                forall|k2: int| 0 <= k2 < k ==> !overlap(
                    here,
                    #[trigger] positions_at(others@[k2].position, others@[k2].path@, tick + others@[k2].path_offset).0,
                    *properties,
                ),
            decreases others@.len() - k,
        {
            let o = &others[k];
            let there = get_unit_position_at_tick(o.position, &o.path, tick + o.path_offset).0;
            proof {
                lemma_positions_in_world(o.position, o.path@, tick + o.path_offset);
            }
            if overlaps(here, there, properties) {
                return true;
            }
            k = k + 1;
        }
        t = t + 1;
    }
    false
}

/// The paths the planner integrates damage over are short; later ticks of a
/// path are not probed.
pub const MAX_PROBED_TICKS: i64 = 0x10_0000;

/// Damage taken along `path`, or nothing if the unit would run into another
/// unit on the way.
pub fn path_damage(
    path: &Vec<Move>,
    unit_id: i32,
    unit_position: Position,
    others: &Vec<OtherUnit>,
    bullets: &Bullets,
    properties: &Properties,
) -> (r: Option<i128>)
    requires
        path_ok(path@),
        path@.len() <= 0x1000,
        in_world(unit_position),
        forall|k: int| 0 <= k < others@.len() ==> (#[trigger] others@[k]).wf(),
        bullets.wf(),
        bullets@.len() <= 0x1_0000_0000,
        bullets@.len() < usize::MAX,
        properties.wf(),
    ensures
        r is Some ==> 0 <= r->0 <= 0x1000 * 0x10_0000_0000_0000_0000_0000_0000,
        (match r {
            Some(d) => Some(d as int),
            None => None,
        }) == path_outcome(path@, 1, 0, Seq::empty(), unit_id, unit_position, others@, *bullets, *properties),
{
    let mut ticks: i64 = 0;
    let mut damage: i128 = 0;
    let mut state = BulletsState::new();
    let mut i: usize = 1;
    if path.len() == 0 {
        return Some(0);
    }
    let ghost whole = path_outcome(path@, 1, 0, Seq::<bool>::empty(), unit_id, unit_position, others@, *bullets, *properties);
    while i < path.len()
        invariant
            1 <= i <= path@.len(),
            path_ok(path@),
            path@.len() <= 0x1000,
            0 <= ticks <= i * 0x1_0000_0000,
            0 <= damage <= i * 0x10_0000_0000_0000_0000_0000_0000,
            in_world(unit_position),
            forall|k: int| 0 <= k < others@.len() ==> (#[trigger] others@[k]).wf(),
            bullets.wf(),
            bullets@.len() <= 0x1_0000_0000,
            bullets@.len() < usize::MAX,
            properties.wf(),
            whole == path_outcome(path@, 1, 0, Seq::<bool>::empty(), unit_id, unit_position, others@, *bullets, *properties),
            whole == add_opt(damage as int, path_outcome(path@, i as int, ticks as int, state@, unit_id, unit_position, others@, *bullets, *properties)),
        decreases path@.len() - i,
    {
        let m = path[i];
        assert(step_ok(path@[i as int]));
        if ticks <= MAX_PROBED_TICKS && m.ticks as i64 <= MAX_PROBED_TICKS {
            if collides_during(path, i, ticks, unit_position, others, properties) {
                proof {
                    assert(1 <= i < path@.len());
                    assert(path@[i as int] == m);
                    assert(path_outcome(path@, i as int, ticks as int, state@, unit_id, unit_position, others@, *bullets, *properties) is None);
                }
                return None;
            }
            let (d, next) = calc_damage(&m, ticks, unit_id, &state, bullets, properties);
            assert(MICRO_TICKS == 100);
            assert(m.ticks <= 0x10_0000);
            assert(m.ticks * MICRO_TICKS * 0x40_0000_0000_0000 <= 0x10_0000 * 100 * 0x40_0000_0000_0000) by (nonlinear_arith)
                requires
                    m.ticks <= 0x10_0000,
                    MICRO_TICKS == 100,
            ;
            assert(d <= m.ticks * MICRO_TICKS * 0x40_0000_0000_0000);
            assert(0x10_0000 * 100 * 0x40_0000_0000_0000 <= 0x10_0000_0000_0000_0000_0000_0000);
            assert(d <= 0x10_0000_0000_0000_0000_0000_0000);
            assert((i + 1) * 0x10_0000_0000_0000_0000_0000_0000 == i * 0x10_0000_0000_0000_0000_0000_0000 + 0x10_0000_0000_0000_0000_0000_0000) by (nonlinear_arith);
            damage = damage + d;
            state = next;
        }
        assert((i + 1) * 0x1_0000_0000 == i * 0x1_0000_0000 + 0x1_0000_0000) by (nonlinear_arith);
        assert(i * 0x10_0000_0000_0000_0000_0000_0000 <= 0x1000 * 0x10_0000_0000_0000_0000_0000_0000) by (nonlinear_arith)
            requires
                i <= 0x1000,
        ;
        assert((i + 1) * 0x10_0000_0000_0000_0000_0000_0000 >= i * 0x10_0000_0000_0000_0000_0000_0000) by (nonlinear_arith)
            requires
                i >= 0,
        ;
        ticks = ticks + m.ticks as i64;
        i = i + 1;
    }
    Some(damage)
}

// ---------------------------------------------------------------------------
// Scoring and choosing paths

/// What the end of a path is scored against.
pub enum Terminal {
    /// The tiles holding loot of the kind needed.
    Loot { targets: Vec<TilePos> },
    /// The distance map of each enemy, with the ticks until it may fire.
    Enemy { maps: Vec<(DistanceMap, i64)> },
}

pub open spec fn contains_tile(s: Seq<TilePos>, t: TilePos) -> bool {
    exists|i: int| 0 <= i < s.len() && s[i] == t
}

fn tile_in(s: &Vec<TilePos>, t: TilePos) -> (r: bool)
    ensures
        r == contains_tile(s@, t),
{
    let mut i: usize = 0;
    while i < s.len()
        invariant
            i <= s@.len(),
            forall|k: int| 0 <= k < i ==> s@[k] != t,
        decreases s@.len() - i,
    {
        if s[i].0 == t.0 && s[i].1 == t.1 {
            return true;
        }
        i = i + 1;
    }
    false
}

/// The loot term of a path: nothing if the path passes a target tile, else
/// the least distance from its last node to a target with a map, or the
/// stand-in for unreachable.
pub fn loot_term(path: &Vec<Move>, targets: &Vec<TilePos>, loot_maps: &Vec<(TilePos, DistanceMap)>, paths: &Paths, level: &Level, properties: &Properties) -> (r: i128)
    requires
        paths.wf(*level, *properties),
        path@.len() > 0,
    ensures
        0 <= r <= u64::MAX,
        (exists|i: int| 0 <= i < path@.len() && contains_tile(targets@, #[trigger] path@[i].pos2)) ==> r == 0,
        !(exists|i: int| 0 <= i < path@.len() && contains_tile(targets@, #[trigger] path@[i].pos2)) ==> {
            let last = target(path@.last());
            &&& forall|j: int|
                0 <= j < loot_maps@.len() && contains_tile(targets@, loot_maps@[j].0) && (#[trigger] loot_maps@[j]).1.dist_of(*paths, last) is Some
                    ==> r <= loot_maps@[j].1.dist_of(*paths, last)->0
            &&& (r == VERY_LONG_DIST || exists|j: int|
                0 <= j < loot_maps@.len() && contains_tile(targets@, loot_maps@[j].0) && (#[trigger] loot_maps@[j]).1.dist_of(*paths, last) == Some(r as u64))
            &&& 0 <= r <= u64::MAX
        },
{
    let mut i: usize = 0;
    while i < path.len()
        invariant
            i <= path@.len(),
            forall|k: int| 0 <= k < i ==> !contains_tile(targets@, #[trigger] path@[k].pos2),
        decreases path@.len() - i,
    {
        if tile_in(targets, path[i].pos2) {
            return 0;
        }
        i = i + 1;
    }
    let last = path[path.len() - 1];
    let node = (last.pos2, last.vertical_state2);
    let mut best: Option<u64> = None;
    let mut j: usize = 0;
    while j < loot_maps.len()
        invariant
            paths.wf(*level, *properties),
            j <= loot_maps@.len(),
            node == target(path@.last()),
            forall|k: int|
                0 <= k < j && contains_tile(targets@, loot_maps@[k].0) && (#[trigger] loot_maps@[k]).1.dist_of(*paths, node) is Some
                    ==> best is Some && best->0 <= loot_maps@[k].1.dist_of(*paths, node)->0,
            best is Some ==> exists|k: int|
                0 <= k < j && contains_tile(targets@, loot_maps@[k].0) && (#[trigger] loot_maps@[k]).1.dist_of(*paths, node) == best,
        decreases loot_maps@.len() - j,
    {
        let (t, map) = &loot_maps[j];
        if tile_in(targets, *t) {
            match map.get(paths, node.0, node.1, level, properties) {
                Some(d) => {
                    match best {
                        Some(b) => if d < b {
                            best = Some(d);
                        },
                        None => {
                            best = Some(d);
                        },
                    }
                },
                None => {},
            }
        }
        j = j + 1;
    }
    match best {
        Some(b) => b as i128,
        None => VERY_LONG_DIST as i128,
    }
}

pub open spec fn abs_int(v: int) -> int {
    if v < 0 {
        -v
    } else {
        v
    }
}

/// The enemy term of a path: ten times how far the closest approach to an
/// enemy along it, in ticks of distance plus the enemy's ticks until it may
/// fire, is from the preferred separation.
pub fn enemy_term(path: &Vec<Move>, maps: &Vec<(DistanceMap, i64)>, paths: &Paths, level: &Level, properties: &Properties) -> (r: i128)
    requires
        paths.wf(*level, *properties),
        forall|j: int| 0 <= j < maps@.len() ==> 0 <= (#[trigger] maps@[j]).1 <= 0x1000_0000,
    ensures
        0 <= r <= (u64::MAX + 0x1000_0000 + 50) * 10,
        exists|m: int| {
            &&& r == #[trigger] abs_int(m - PREFERRED_DISTANCE) * 10
            &&& forall|i: int, j: int|
                0 <= i < path@.len() && 0 <= j < maps@.len() && (#[trigger] maps@[j]).0.dist_of(*paths, target(#[trigger] path@[i])) is Some
                    ==> m <= maps@[j].0.dist_of(*paths, target(path@[i]))->0 + maps@[j].1
            &&& (m == VERY_LONG_DIST || exists|i: int, j: int|
                0 <= i < path@.len() && 0 <= j < maps@.len() && (#[trigger] maps@[j]).0.dist_of(*paths, target(#[trigger] path@[i])) is Some
                    && m == maps@[j].0.dist_of(*paths, target(path@[i]))->0 + maps@[j].1)
        },
{
    let mut best: Option<i128> = None;
    let mut i: usize = 0;
    while i < path.len()
        invariant
            paths.wf(*level, *properties),
            i <= path@.len(),
            forall|j: int| 0 <= j < maps@.len() ==> 0 <= (#[trigger] maps@[j]).1 <= 0x1000_0000,
            best is Some ==> 0 <= best->0 <= u64::MAX + 0x1000_0000,
            forall|i2: int, j: int|
                0 <= i2 < i && 0 <= j < maps@.len() && (#[trigger] maps@[j]).0.dist_of(*paths, target(#[trigger] path@[i2])) is Some
                    ==> best is Some && best->0 <= maps@[j].0.dist_of(*paths, target(path@[i2]))->0 + maps@[j].1,
            best is Some ==> exists|i2: int, j: int|
                0 <= i2 < i && 0 <= j < maps@.len() && (#[trigger] maps@[j]).0.dist_of(*paths, target(#[trigger] path@[i2])) is Some
                    && best->0 == maps@[j].0.dist_of(*paths, target(path@[i2]))->0 + maps@[j].1,
        decreases path@.len() - i,
    {
        let node = (path[i].pos2, path[i].vertical_state2);
        let mut j: usize = 0;
        while j < maps.len()
            invariant
                paths.wf(*level, *properties),
                i < path@.len(),
                node == target(path@[i as int]),
                j <= maps@.len(),
                forall|j: int| 0 <= j < maps@.len() ==> 0 <= (#[trigger] maps@[j]).1 <= 0x1000_0000,
                best is Some ==> 0 <= best->0 <= u64::MAX + 0x1000_0000,
                forall|i2: int, j2: int|
                    0 <= i2 < i && 0 <= j2 < maps@.len() && (#[trigger] maps@[j2]).0.dist_of(*paths, target(#[trigger] path@[i2])) is Some
                        ==> best is Some && best->0 <= maps@[j2].0.dist_of(*paths, target(path@[i2]))->0 + maps@[j2].1,
                forall|j2: int|
                    0 <= j2 < j && (#[trigger] maps@[j2]).0.dist_of(*paths, node) is Some
                        ==> best is Some && best->0 <= maps@[j2].0.dist_of(*paths, node)->0 + maps@[j2].1,
                best is Some ==> exists|i2: int, j2: int|
                    0 <= i2 <= i && 0 <= j2 < maps@.len() && (#[trigger] maps@[j2]).0.dist_of(*paths, target(#[trigger] path@[i2])) is Some
                        && best->0 == maps@[j2].0.dist_of(*paths, target(path@[i2]))->0 + maps@[j2].1,
            decreases maps@.len() - j,
        {
            let (map, timer) = &maps[j];
            match map.get(paths, node.0, node.1, level, properties) {
                Some(d) => {
                    let v = d as i128 + *timer as i128;
                    match best {
                        Some(b) => if v < b {
                            best = Some(v);
                        },
                        None => {
                            best = Some(v);
                        },
                    }
                },
                None => {},
            }
            j = j + 1;
        }
        i = i + 1;
    }
    let m = match best {
        Some(b) => b,
        None => VERY_LONG_DIST as i128,
    };
    let off = if m >= PREFERRED_DISTANCE { m - PREFERRED_DISTANCE } else { PREFERRED_DISTANCE - m };
    let r = off * 10;
    assert(r == abs_int(m as int - PREFERRED_DISTANCE) * 10);
    r
}

pub open spec fn ticks_sum(path: Seq<Move>) -> int
    decreases path.len(),
{
    if path.len() == 0 {
        0
    } else {
        ticks_sum(path.drop_last()) + path.last().ticks
    }
}

/// The ticks of `path` after its first node, exactly while they stay under
/// `cap`; past it, some number beyond the cap.
fn span_ticks(path: &Vec<Move>, cap: i64) -> (r: i64)
    requires
        path_ok(path@),
        path@.len() > 0,
        0 <= cap <= 0x1000_0000,
    ensures
        ticks_sum(path@.subrange(1, path@.len() as int)) <= cap ==> r == ticks_sum(path@.subrange(1, path@.len() as int)),
        ticks_sum(path@.subrange(1, path@.len() as int)) > cap ==> r > cap,
        r >= 0,
{
    let mut total: i64 = 0;
    let mut i: usize = 1;
    while i < path.len()
        invariant
            1 <= i <= path@.len(),
            path_ok(path@),
            0 <= cap <= 0x1000_0000,
            total == ticks_sum(path@.subrange(1, i as int)),
            0 <= total <= cap,
        decreases path@.len() - i,
    {
        assert(step_ok(path@[i as int]));
        assert(path@.subrange(1, i + 1).drop_last() =~= path@.subrange(1, i as int));
        total = total + path[i].ticks as i64;
        i = i + 1;
        if total > cap {
            proof {
                lemma_ticks_sum_grows(path@, i as int);
            }
            return total;
        }
    }
    total
}

proof fn lemma_ticks_sum_grows(path: Seq<Move>, i: int)
    requires
        path_ok(path),
        1 <= i <= path.len(),
    ensures
        ticks_sum(path.subrange(1, path.len() as int)) >= ticks_sum(path.subrange(1, i)),
    decreases path.len() - i,
{
    if i < path.len() {
        lemma_ticks_sum_grows(path, i + 1);
        assert(path.subrange(1, i + 1).drop_last() =~= path.subrange(1, i));
        assert(step_ok(path[i]));
    }
}

/// The moves of `path` after its first.
fn tail(path: &Vec<Move>) -> (r: Vec<Move>)
    requires
        path@.len() > 0,
    ensures
        r@ == path@.subrange(1, path@.len() as int),
{
    let mut r: Vec<Move> = Vec::new();
    let mut i: usize = 1;
    while i < path.len()
        invariant
            1 <= i <= path@.len(),
            r@ == path@.subrange(1, i as int),
        decreases path@.len() - i,
    {
        r.push(path[i]);
        assert(r@ =~= path@.subrange(1, i + 1));
        i = i + 1;
    }
    r
}

proof fn lemma_walk_tail(paths: Paths, s0: Node, path: Seq<Move>)
    requires
        walk_ok(paths, s0, path),
        path.len() > 1,
    ensures
        walk_ok(paths, target(path[1]), path.subrange(1, path.len() as int)),
{
    let q = path.subrange(1, path.len() as int);
    assert forall|i: int| 1 <= i < q.len() implies #[trigger] paths.out(target(q[i - 1])).contains(q[i]) by {
        assert(q[i] == path[i + 1] && q[i - 1] == path[i]);
        assert(paths.out(target(path[(i + 1) - 1])).contains(path[i + 1]));
    }
}

/// Tries `PATH_COUNT` candidate paths from `start` and keeps the cheapest
/// that runs into no other unit: cost is a hundred per point of damage taken
/// along the path, plus the terminal term. The last candidate is the greedy
/// path to the target of `target_map`; the first `WARM_STARTS` continue the
/// previous plan, when its second node is `start`; the others, and the
/// continuations, are random walks out to `MAX_TICKS` ticks. Returns the
/// chosen path, empty if none of two nodes or more was cheapest, and whether
/// the cheapest came from the previous plan.
pub fn choose_path(
    start: Node,
    target_map: &DistanceMap,
    old_path: &Vec<Move>,
    terminal: &Terminal,
    loot_maps: &Vec<(TilePos, DistanceMap)>,
    unit_id: i32,
    unit_position: Position,
    others: &Vec<OtherUnit>,
    bullets: &Bullets,
    rand: &mut Random,
    paths: &Paths,
    level: &Level,
    properties: &Properties,
) -> (r: (Vec<Move>, bool))
    requires
        paths.wf(*level, *properties),
        paths.known(start),
        old(rand).wf(),
        old_path@.len() == 0 || (paths.known(target(old_path@[0])) && walk_ok(*paths, target(old_path@[0]), old_path@)),
        in_world(unit_position),
        forall|k: int| 0 <= k < others@.len() ==> (#[trigger] others@[k]).wf(),
        bullets.wf(),
        bullets@.len() <= 0x1_0000_0000,
        bullets@.len() < usize::MAX,
        match terminal {
            Terminal::Enemy { maps } => forall|j: int| 0 <= j < maps@.len() ==> 0 <= (#[trigger] maps@[j]).1 <= 0x1000_0000,
            _ => true,
        },
    ensures
        final(rand).wf(),
        r.0@.len() == 0 || (r.0@.len() >= 2 && walk_ok(*paths, start, r.0@)),
        r.1 ==> old_path@.len() > 1 && target(old_path@[1]) == start && r.0@.len() >= old_path@.len() - 1
            && r.0@.subrange(0, old_path@.len() - 1) == old_path@.subrange(1, old_path@.len() as int),
        r.0@.len() > 0 ==> path_outcome(r.0@, 1, 0, Seq::empty(), unit_id, unit_position, others@, *bullets, *properties) is Some,
        r.0@.len() == 0 ==> exists|g: Seq<Move>| #[trigger] greedy_like(*target_map, *paths, start, MAX_TICKS as int, g) && (g.len() < 2
            || g.len() > 0x1000 || path_outcome(g, 1, 0, Seq::empty(), unit_id, unit_position, others@, *bullets, *properties) is None),
{
    let ghost p = *properties;
    let ghost level_g = *level;
    let mut best_cost: Option<i128> = None;
    let mut best_path: Vec<Move> = Vec::new();
    let mut best_used_old = false;
    let mut i: usize = 0;
    while i < PATH_COUNT
        invariant
            paths.wf(level_g, p),
            level_g == *level,
            p == *properties,
            paths.known(start),
            rand.wf(),
            old_path@.len() == 0 || (paths.known(target(old_path@[0])) && walk_ok(*paths, target(old_path@[0]), old_path@)),
            in_world(unit_position),
            forall|k: int| 0 <= k < others@.len() ==> (#[trigger] others@[k]).wf(),
            bullets.wf(),
            bullets@.len() <= 0x1_0000_0000,
            bullets@.len() < usize::MAX,
            match terminal {
                Terminal::Enemy { maps } => forall|j: int| 0 <= j < maps@.len() ==> 0 <= (#[trigger] maps@[j]).1 <= 0x1000_0000,
                _ => true,
            },
            best_path@.len() == 0 || (best_path@.len() >= 2 && walk_ok(*paths, start, best_path@)),
            best_used_old ==> old_path@.len() > 1 && target(old_path@[1]) == start && best_path@.len() >= old_path@.len() - 1
                && best_path@.subrange(0, old_path@.len() - 1) == old_path@.subrange(1, old_path@.len() as int),
            best_cost is Some <==> best_path@.len() > 0,
            best_path@.len() > 0 ==> path_outcome(best_path@, 1, 0, Seq::empty(), unit_id, unit_position, others@, *bullets, *properties) is Some,
            i <= PATH_COUNT,
            i == PATH_COUNT && best_path@.len() == 0 ==> exists|g: Seq<Move>| #[trigger] greedy_like(*target_map, *paths, start, MAX_TICKS as int, g) && (g.len() < 2
                || g.len() > 0x1000 || path_outcome(g, 1, 0, Seq::empty(), unit_id, unit_position, others@, *bullets, *properties) is None),
        decreases PATH_COUNT - i,
    {
        let ghost tail_len: int = old_path@.len() - 1;
        let (path, used_old) = if i == PATH_COUNT - 1 {
            // the quick path
            (greedy_path(start, target_map, MAX_TICKS, paths, level, properties), false)
        } else {
            let warm = i < WARM_STARTS && old_path.len() > 1 && old_path[1].pos2.0 == start.0.0
                && old_path[1].pos2.1 == start.0.1 && old_path[1].vertical_state2 == start.1;
            let (mut path, ticks, used_old) = if warm {
                proof {
                    lemma_walk_tail(*paths, target(old_path@[0]), old_path@);
                    assert(target(old_path@[1]) == start);
                }
                let path = tail(old_path);
                proof {
                    lemma_walk_path_ok(*paths, level_g, p, start, path@);
                    assert(path@.subrange(0, old_path@.len() - 1) =~= path@);
                }
                let ticks = span_ticks(&path, MAX_TICKS);
                (path, ticks, true)
            } else {
                let mut path: Vec<Move> = Vec::new();
                path.push(crate::control::make_start_node(start.0, start.1));
                (path, 0i64, false)
            };
            let ghost before_extend = path@;
            if ticks < MAX_TICKS {
                random_extend(&mut path, ticks, MAX_TICKS, paths, rand, level, properties, Ghost(start));
            }
            proof {
                if used_old {
                    assert(path@.subrange(0, before_extend.len() as int) == before_extend);
                    assert(before_extend.len() == tail_len);
                    assert(before_extend == old_path@.subrange(1, old_path@.len() as int));
                }
            }
            (path, used_old)
        };
        proof {
            lemma_walk_path_ok(*paths, level_g, p, start, path@);
            lemma_graph_nodes_ok(*paths, level_g, p, start);
        }
        if path.len() > 1 && path.len() <= 0x1000 {
            match path_damage(&path, unit_id, unit_position, others, bullets, properties) {
                Some(damage) => {
                    let term = match terminal {
                        Terminal::Loot { targets } => loot_term(&path, targets, loot_maps, paths, level, properties),
                        Terminal::Enemy { maps } => enemy_term(&path, maps, paths, level, properties),
                    };
                    let cost = 100 * damage + term;
                    let better = match best_cost {
                        Some(b) => cost < b,
                        None => true,
                    };
                    if better {
                        best_cost = Some(cost);
                        best_used_old = used_old;
                        best_path = path;
                    }
                },
                None => {},
            }
        }
        i = i + 1;
    }
    (best_path, best_used_old)
}

} // verus!
