//! The agent: one decision per tick and controlled unit, from the world
//! snapshot and the plan committed on earlier ticks.
use vstd::prelude::*;
use crate::bullets::{Bullet, Bullets};
use crate::control::{
    ControlResult, MoveAction, Position, in_world, tile_pos, to_unit_position, get_recover_move,
    get_mine_suicide_move, recover_move, mine_suicide_move, unit_position_of,
};
use crate::graph::{
    Paths, DistanceMap, Node, build_all_paths, node_in_bounds, target, lemma_graph_legality,
    lemma_graph_nodes_ok, node_ok,
};
use crate::level::Level;
use crate::path::{Move, MoveType, TilePos, VerticalState};
use crate::planner::{OtherUnit, Terminal, choose_path, walk_ok, path_ok, MAX_TICKS, lemma_walk_path_ok};
use crate::properties::Properties;
use crate::rand::Random;
use crate::world::{
    Item, LootBox, Unit, can_plant_mine, get_vertical_state, suicide_damage, suicide_is_effective,
    blast_damage, blast_damage_of, fire_ready, plantable, suicide_damage_of, suicide_effective,
    vertical_state_of,
};

verus! {

/// The fixed seed of the agent's random numbers.
pub const SEED: u64 = 98754;

/// What changes in the world from tick to tick.
pub struct Game {
    pub current_tick: i32,
    pub units: Vec<Unit>,
    pub bullets: Vec<Bullet>,
    pub loot_boxes: Vec<LootBox>,
}

impl Game {
    pub open spec fn wf(&self) -> bool {
        &&& 0 <= self.current_tick <= 0x1000_0000
        &&& forall|i: int| 0 <= i < self.units@.len() ==> (#[trigger] self.units@[i]).wf()
        &&& forall|i: int| 0 <= i < self.bullets@.len() ==> (#[trigger] self.bullets@[i]).wf()
        &&& self.bullets@.len() <= 0x1_0000_0000
        &&& self.bullets@.len() < usize::MAX
        &&& forall|i: int| 0 <= i < self.loot_boxes@.len() ==> in_world(#[trigger] self.loot_boxes@[i].position)
    }
}

/// The plan kept for one controlled unit.
pub struct UnitData {
    pub id: i32,
    pub move_: Option<Move>,
    pub path: Vec<Move>,
    pub path_start_tick: i32,
    pub last_position: Position,
}

/// The controls chosen for a unit: velocity in micro-tiles per second, the
/// jump flags, whether to plant a mine; and for firing, a decision that
/// overrides any other, or whether firing is held back for a coming
/// mine blast.
#[derive(Clone, Copy, Debug, PartialEq, Eq, Structural)]
pub struct UnitAction {
    pub velocity: i64,
    pub jump: bool,
    pub jump_down: bool,
    pub plant_mine: bool,
    pub shoot_override: Option<bool>,
    pub hold_fire: bool,
}

pub struct MyStrategy {
    pub level: Level,
    pub properties: Properties,
    rand: Random,
    paths: Paths,
    distance_map: Vec<(TilePos, DistanceMap)>,
    unit1_data: UnitData,
    unit2_data: UnitData,
}

impl UnitData {
    pub open spec fn wf(&self, paths: Paths) -> bool {
        &&& (self.path@.len() == 0 || (paths.known(target(self.path@[0])) && walk_ok(paths, target(self.path@[0]), self.path@)))
        &&& match self.move_ {
            Some(m) => m.ends_bounded(),
            None => true,
        }
        &&& 0 <= self.path_start_tick <= 0x1000_0000
    }

    fn empty() -> (r: UnitData)
        ensures
            r.id == -1,
            r.move_ is None,
            r.path@.len() == 0,
            r.path_start_tick == 0,
    {
        UnitData { id: -1, move_: None, path: Vec::new(), path_start_tick: 0, last_position: Position { x: -1_000_000, y: -1_000_000 } }
    }
}

fn copy_moves(v: &Vec<Move>) -> (r: Vec<Move>)
    ensures
        r@ == v@,
{
    let mut r: Vec<Move> = Vec::new();
    let mut i: usize = 0;
    while i < v.len()
        invariant
            i <= v@.len(),
            r@ == v@.subrange(0, i as int),
        decreases v@.len() - i,
    {
        r.push(v[i]);
        assert(r@ =~= v@.subrange(0, i + 1));
        i = i + 1;
    }
    assert(r@ =~= v@);
    r
}

/// A walk stays a walk when the graph grows.
proof fn lemma_walk_kept(old_paths: Paths, new_paths: Paths, level: Level, p: Properties, start: Node, path: Seq<Move>)
    requires
        old_paths.wf(level, p),
        new_paths.wf(level, p),
        forall|x: Node| #[trigger] old_paths.known(x) ==> new_paths.known(x),
        old_paths.known(start),
        walk_ok(old_paths, start, path),
    ensures
        new_paths.known(start),
        walk_ok(new_paths, start, path),
{
    assert forall|i: int| 1 <= i < path.len() implies #[trigger] new_paths.out(target(path[i - 1])).contains(path[i]) by {
        let n = target(path[i - 1]);
        assert(old_paths.out(n).contains(path[i]));
        lemma_graph_nodes_ok(old_paths, level, p, n);
        lemma_graph_legality(old_paths, level, p, n, path[i]);
        lemma_graph_legality(new_paths, level, p, n, path[i]);
    }
}

/// The move action of a control result, if it is one.
fn action_of(r: ControlResult) -> (a: Option<MoveAction>)
    ensures
        a == match r {
            ControlResult::MoveAction(x) => Some(x),
            _ => None,
        },
{
    match r {
        ControlResult::MoveAction(x) => Some(x),
        _ => None,
    }
}

fn is_weapon(l: &LootBox) -> (r: bool)
    ensures
        r == (l.item is Weapon),
{
    matches!(l.item, Item::Weapon(_))
}

fn is_health(l: &LootBox) -> (r: bool)
    ensures
        r == (l.item is HealthPack),
{
    matches!(l.item, Item::HealthPack(_))
}

impl MyStrategy {
    /// The state of the strategy's random numbers.
    pub closed spec fn rand_state(&self) -> nat {
        self.rand.state()
    }

    /// The plans of the first and second controlled unit.
    pub closed spec fn unit1(&self) -> UnitData {
        self.unit1_data
    }

    pub closed spec fn unit2(&self) -> UnitData {
        self.unit2_data
    }

    /// The plan kept for unit `unit_id`: the first unit's if the id is its,
    /// else the second's.
    pub open spec fn data_of(&self, unit_id: i32) -> UnitData {
        if self.unit1().id == unit_id {
            self.unit1()
        } else {
            self.unit2()
        }
    }

    /// The plan that `get_action` for unit `unit_id` at tick `tick` starts
    /// from: on tick 0 a first unit not yet seen takes the first slot.
    pub closed spec fn plan_before(&self, unit_id: i32, tick: i32) -> UnitData {
        if (tick == 0 && self.unit1_data.id == -1) || self.unit1_data.id == unit_id {
            self.unit1_data
        } else {
            self.unit2_data
        }
    }

    /// The movement graph.
    pub closed spec fn graph(&self) -> Paths {
        self.paths
    }

    pub closed spec fn game_level(&self) -> Level {
        self.level
    }

    pub closed spec fn game_properties(&self) -> Properties {
        self.properties
    }

    pub closed spec fn wf(&self) -> bool {
        &&& self.paths.wf(self.level, self.properties)
        &&& self.rand.wf()
        &&& self.unit1_data.wf(self.paths)
        &&& self.unit2_data.wf(self.paths)
    }

    /// A strategy for a game on `level` with `properties`, which stay fixed for
    /// the whole game.
    pub fn new(level: Level, properties: Properties) -> (r: Self)
        requires
            level.wf(),
            properties.wf(),
        ensures
            r.wf(),
            r.rand_state() == ((SEED ^ crate::rand::MULTIPLIER) & crate::rand::MASK) as nat,
            r.unit1().id == -1 && r.unit1().move_ is None && r.unit1().path@.len() == 0,
            r.unit2().id == -1 && r.unit2().move_ is None && r.unit2().path@.len() == 0,
            forall|n: Node| !r.graph().known(n),
    {
        let paths = Paths::new(&level, &properties);
        MyStrategy {
            level,
            properties,
            rand: Random::new(SEED),
            paths,
            distance_map: Vec::new(),
            unit1_data: UnitData::empty(),
            unit2_data: UnitData::empty(),
        }
    }
}

/// The tile and vertical state of a unit, if the graph may hold it.
fn unit_node(unit: &Unit, level: &Level, properties: &Properties) -> (r: Option<Node>)
    requires
        unit.wf(),
        level.wf(),
    ensures
        r is Some ==> node_ok(*level, r->0),
        r is Some ==> r->0 == (unit_tile(*unit), vertical_state_of(*unit, *properties)),
        r is None ==> !node_ok(*level, (unit_tile(*unit), vertical_state_of(*unit, *properties))),
{
    let n = (tile_pos(unit.position), get_vertical_state(unit, properties));
    if node_in_bounds(n, level) {
        Some(n)
    } else {
        None
    }
}

impl MyStrategy {
    /// Of the loot boxes holding weapons (or, without `weapons`, health
    /// packs), the distance map of the one nearest to `node`; unreachable ones
    /// count as farthest.
    fn nearest_loot_map(&self, node: Node, game: &Game, weapons: bool) -> (r: Option<usize>)
        requires
            self.wf(),
        ensures
            r is Some ==> r->0 < self.distance_map@.len(),
    {
        let mut best: Option<usize> = None;
        let mut best_d: u64 = 0;
        let mut i: usize = 0;
        while i < game.loot_boxes.len()
            invariant
                self.wf(),
                i <= game.loot_boxes@.len(),
                best is Some ==> best->0 < self.distance_map@.len(),
            decreases game.loot_boxes@.len() - i,
        {
            let l = &game.loot_boxes[i];
            let wanted = if weapons { is_weapon(l) } else { is_health(l) };
            if wanted && in_world_exec(l.position) {
                let t = tile_pos(l.position);
                let mut j: usize = 0;
                while j < self.distance_map.len()
                    invariant
                        self.wf(),
                        j <= self.distance_map@.len(),
                        best is Some ==> best->0 < self.distance_map@.len(),
                    decreases self.distance_map@.len() - j,
                {
                    if self.distance_map[j].0.0 == t.0 && self.distance_map[j].0.1 == t.1 {
                        let d = match self.distance_map[j].1.get(&self.paths, node.0, node.1, &self.level, &self.properties) {
                            Some(d) => d,
                            None => u64::MAX,
                        };
                        if best.is_none() || d < best_d {
                            best = Some(j);
                            best_d = d;
                        }
                        break;
                    }
                    j = j + 1;
                }
            }
            i = i + 1;
        }
        best
    }

    /// Decides the controls of `unit` for this tick of `game`, and updates the
    /// unit's plan.
    pub fn get_action(&mut self, unit: &Unit, game: &Game) -> (r: UnitAction)
        requires
            old(self).wf(),
            unit.wf(),
            game.wf(),
        ensures
            final(self).wf(),
            final(self).game_level() == old(self).game_level(),
            final(self).game_properties() == old(self).game_properties(),
            decision(
                old(self).plan_before(unit.id, game.current_tick),
                final(self).data_of(unit.id),
                r,
                *unit,
                *game,
                old(self).game_level(),
                old(self).game_properties(),
                final(self).graph(),
            ),
    {
        if game.current_tick == 0 {
            if self.unit1_data.id == -1 {
                self.unit1_data.id = unit.id;
            } else if self.unit2_data.id == -1 {
                self.unit2_data.id = unit.id;
            }
        }
        let ghost level = self.level;
        let ghost p = self.properties;
        let ghost reg1 = self.unit1_data;
        let ghost reg2 = self.unit2_data;
        proof {
            lemma_graph_nodes_ok(self.paths, level, p, (tile_pos_spec(unit.position), VerticalState::Default));
        }
        // cover the unit's node with the graph
        let node = unit_node(unit, &self.level, &self.properties);
        let ghost before = self.paths;
        match node {
            Some(n) => {
                if !self.paths.contains_node(n.0, n.1, &self.level, &self.properties) {
                    self.paths.update_paths(n.0, n.1, &self.level, &self.properties);
                }
            },
            None => {},
        }
        proof {
            if self.unit1_data.path@.len() > 0 {
                lemma_walk_kept(before, self.paths, level, p, target(self.unit1_data.path@[0]), self.unit1_data.path@);
            }
            if self.unit2_data.path@.len() > 0 {
                lemma_walk_kept(before, self.paths, level, p, target(self.unit2_data.path@[0]), self.unit2_data.path@);
            }
        }
        // distances to the loot, which never moves
        if game.current_tick == 0 {
            let mut i: usize = 0;
            while i < game.loot_boxes.len()
                invariant
                    self.wf(),
                    game.wf(),
                    i <= game.loot_boxes@.len(),
                    node is Some ==> self.paths.known(node->0),
                    self.properties == p,
                    self.level == level,
                    self.unit1_data == reg1,
                    self.unit2_data == reg2,
                decreases game.loot_boxes@.len() - i,
            {
                let pos = tile_pos(game.loot_boxes[i].position);
                let map = build_all_paths(pos, &self.paths, &self.level, &self.properties);
                self.distance_map.push((pos, map));
                i = i + 1;
            }
        }
        let first = unit.id == self.unit1_data.id;
        let (ally_id, ally_path, ally_start) = if first {
            (self.unit2_data.id, copy_moves(&self.unit2_data.path), self.unit2_data.path_start_tick)
        } else {
            (self.unit1_data.id, copy_moves(&self.unit1_data.path), self.unit1_data.path_start_tick)
        };
        let mut data = if first {
            UnitData {
                id: self.unit1_data.id,
                move_: self.unit1_data.move_,
                path: copy_moves(&self.unit1_data.path),
                path_start_tick: self.unit1_data.path_start_tick,
                last_position: self.unit1_data.last_position,
            }
        } else {
            UnitData {
                id: self.unit2_data.id,
                move_: self.unit2_data.move_,
                path: copy_moves(&self.unit2_data.path),
                path_start_tick: self.unit2_data.path_start_tick,
                last_position: self.unit2_data.last_position,
            }
        };
        let action = self.decide(&mut data, ally_id, &ally_path, ally_start, node, unit, game);
        let ghost done = data;
        if first {
            self.unit1_data = data;
        } else {
            self.unit2_data = data;
        }
        proof {
            assert(self.data_of(unit.id) == done);
        }
        action
    }
}

fn in_world_exec(p: Position) -> (r: bool)
    ensures
        r == in_world(p),
{
    0 <= p.x && p.x <= crate::control::MAX_COORD && 0 <= p.y && p.y <= crate::control::MAX_COORD
}


// ---------------------------------------------------------------------------
// What a decision is

/// The controls that steering along `mv` gives at `pos`: velocity, jump,
/// jump down, and whether a mine is planted; nothing without a move or when
/// the move gives no controls.
pub open spec fn controls_of(mv: Option<Move>, pos: Position, vs: VerticalState) -> (i64, bool, bool, bool) {
    match mv {
        Some(m) => match m.control_result(pos, vs) {
            ControlResult::MoveAction(a) => (a.velocity, a.jump, a.jump_down, a.typ == MoveType::MineSuicide),
            _ => (0, false, false, false),
        },
        None => (0, false, false, false),
    }
}

/// The unit has a move other than a mine blast and has not moved since the
/// last tick.
pub open spec fn is_stuck(o: UnitData, unit: Unit) -> bool {
    o.move_ is Some && o.last_position == unit.position && o.move_->0.typ != MoveType::MineSuicide
}

/// The current move goes on this tick: the unit is not stuck, the move gives
/// controls, and a mine blast still kills an enemy.
pub open spec fn continues(o: UnitData, unit: Unit, units: Seq<Unit>, p: Properties) -> bool {
    let vs = vertical_state_of(unit, p);
    &&& !is_stuck(o, unit)
    &&& o.move_ is Some
    &&& o.move_->0.control_result(unit.position, vs) is MoveAction
    &&& (o.move_->0.typ == MoveType::MineSuicide ==> suicide_effective(
        units,
        unit.position,
        unit.player_id,
        blast_damage_of(unit, p),
        p,
    ))
}

/// The current move went astray and the recover move takes over.
pub open spec fn recovers(o: UnitData, unit: Unit, p: Properties) -> bool {
    let vs = vertical_state_of(unit, p);
    &&& !is_stuck(o, unit)
    &&& o.move_ is Some
    &&& o.move_->0.control_result(unit.position, vs) == ControlResult::Recover
    &&& recover_move().control_result(unit.position, vs) is MoveAction
}

/// The unit's tile, from its position.
pub open spec fn unit_tile(unit: Unit) -> TilePos {
    ((unit.position.x / 1_000_000) as isize, (unit.position.y / 1_000_000) as isize)
}

/// A mine blast here and now would kill an enemy: the unit is armed, has a
/// mine, stands where one may be planted, may fire within a tick, and the
/// blast of its mines and rocket kills an enemy in range.
pub open spec fn suicide_ready(unit: Unit, units: Seq<Unit>, level: Level, p: Properties) -> bool {
    let t = unit_tile(unit);
    &&& unit.weapon is Some
    &&& unit.mines > 0
    &&& t.0 <= crate::level::MAX_SIDE && t.1 <= crate::level::MAX_SIDE
    &&& plantable(level, t)
    &&& fire_ready(unit, p)
    &&& suicide_effective(units, unit.position, unit.player_id, suicide_damage_of(unit, p), p)
}

/// Fire is held: a blast set off where the current move ends would kill an
/// enemy.
pub open spec fn holds_fire(mv: Option<Move>, unit: Unit, units: Seq<Unit>, level: Level, p: Properties) -> bool {
    &&& suicide_damage_of(unit, p) > 0
    &&& mv is Some
    &&& mv->0.typ != MoveType::MineSuicide
    &&& mv->0.typ != MoveType::Recover
    &&& -1 <= mv->0.pos2.0 <= crate::level::MAX_SIDE && -1 <= mv->0.pos2.1 <= crate::level::MAX_SIDE
    &&& plantable(level, mv->0.pos2)
    &&& in_world(unit_position_of(mv->0.pos2))
    &&& suicide_effective(units, unit_position_of(mv->0.pos2), unit.player_id, suicide_damage_of(unit, p), p)
}

/// The decision of one tick for `unit`, from its plan `o` to its plan `f`
/// and the action `r`:
/// - the action is what steering along the final move gives, and a mine is
///   planted exactly when that move is the mine blast;
/// - a move that goes on is kept with its path; one that went astray gives
///   way to the recover move, and the path is dropped;
/// - otherwise (no move, the move is done, the unit is stuck, or the blast
///   no longer kills) the mine blast is chosen exactly when it is ready, and
///   else a new path of the graph from the unit's node is committed this
///   tick, or none, with no move;
/// - fire is held exactly when a blast where the move ends would kill.
pub open spec fn decision(o: UnitData, f: UnitData, r: UnitAction, unit: Unit, game: Game, level: Level, p: Properties, paths: Paths) -> bool {
    let vs = vertical_state_of(unit, p);
    let units = game.units@;
    &&& (r.velocity, r.jump, r.jump_down, r.plant_mine) == controls_of(f.move_, unit.position, vs)
    &&& r.plant_mine <==> (f.move_ is Some && f.move_->0.typ == MoveType::MineSuicide)
    &&& r.shoot_override == if r.plant_mine { Some(unit.mines == 0) } else { None }
    &&& r.hold_fire == holds_fire(f.move_, unit, units, level, p)
    &&& f.last_position == unit.position
    &&& continues(o, unit, units, p) ==> f.move_ == o.move_ && f.path@ == o.path@ && f.path_start_tick == o.path_start_tick
    &&& recovers(o, unit, p) ==> f.move_ == Some(recover_move()) && f.path@.len() == 0
    &&& (!continues(o, unit, units, p) && !recovers(o, unit, p)) ==> {
        &&& (f.move_ == Some(mine_suicide_move())) == suicide_ready(unit, units, level, p)
        &&& !suicide_ready(unit, units, level, p) ==> {
            ||| f.path@.len() == 0 && f.move_ is None
            ||| f.path@.len() >= 2 && walk_ok(paths, (unit_tile(unit), vs), f.path@) && f.move_ == Some(f.path@[1])
                && f.path_start_tick == game.current_tick
        }
    }
}

impl MyStrategy {
    fn decide(
        &mut self,
        data: &mut UnitData,
        ally_id: i32,
        ally_path: &Vec<Move>,
        ally_start: i32,
        node: Option<Node>,
        unit: &Unit,
        game: &Game,
    ) -> (r: UnitAction)
        requires
            old(self).wf(),
            old(data).wf(old(self).paths),
            ally_path@.len() == 0 || (old(self).paths.known(target(ally_path@[0])) && walk_ok(old(self).paths, target(ally_path@[0]), ally_path@)),
            0 <= ally_start <= 0x1000_0000,
            node is Some ==> old(self).paths.known(node->0),
            node is Some ==> node->0 == (unit_tile(*unit), vertical_state_of(*unit, old(self).properties)),
            unit.wf(),
            game.wf(),
        ensures
            final(self).wf(),
            final(self).paths == old(self).paths,
            final(self).level == old(self).level,
            final(self).properties == old(self).properties,
            final(self).unit1_data == old(self).unit1_data,
            final(self).unit2_data == old(self).unit2_data,
            final(data).wf(final(self).paths),
            final(data).id == old(data).id,
            decision(*old(data), *final(data), r, *unit, *game, old(self).level, old(self).properties, old(self).paths),
    {
        let ghost level = self.level;
        let ghost p = self.properties;
        proof {
            lemma_graph_nodes_ok(self.paths, level, p, (tile_pos_spec(unit.position), VerticalState::Default));
        }
        let sdamage = suicide_damage(unit, &self.properties);
        let vs = get_vertical_state(unit, &self.properties);
        // stuck, most likely on another unit: a new plan is needed
        let stuck = match data.move_ {
            Some(m) => data.last_position == unit.position && m.typ != MoveType::MineSuicide,
            None => false,
        };
        if stuck {
            data.path.clear();
            data.move_ = None;
        }
        data.last_position = unit.position;
        let mut move_action: Option<MoveAction> = None;
        match data.move_ {
            Some(m) => {
                match m.control(unit.position, vs) {
                    ControlResult::TargetReached => {},
                    ControlResult::Recover => {
                        let recover = get_recover_move();
                        move_action = action_of(recover.control(unit.position, vs));
                        data.path.clear();
                        data.move_ = Some(recover);
                    },
                    ControlResult::MoveAction(a) => {
                        if m.typ == MoveType::MineSuicide && !suicide_is_effective(
                            unit.position,
                            unit.player_id,
                            blast_damage(unit, &self.properties),
                            &game.units,
                            &self.properties,
                        ) {
                            // survived, or the enemy ran off
                            data.path.clear();
                            data.move_ = None;
                        } else {
                            move_action = Some(a);
                        }
                    },
                }
            },
            None => {},
        }
        if move_action.is_none() {
            let old_path = copy_moves(&data.path);
            data.path.clear();
            data.move_ = None;
            let tile = tile_pos(unit.position);
            let fire_ready = match unit.weapon {
                Some(w) => match w.fire_timer {
                    Some(t) => {
                        assert((t as u128) * (self.properties.ticks_per_second as u128) <= 0xFFFF_FFFF_FFFF_FFFF * 1000) by (nonlinear_arith)
                            requires
                                t <= 0xFFFF_FFFF_FFFF_FFFF,
                                self.properties.ticks_per_second <= 1000,
                        ;
                        (t as u128) * (self.properties.ticks_per_second as u128) <= 1_000_000
                    },
                    None => true,
                },
                None => false,
            };
            let on_grid = tile.0 <= crate::level::MAX_SIDE as isize && tile.1 <= crate::level::MAX_SIDE as isize;
            if unit.weapon.is_some() && unit.mines > 0 && on_grid && can_plant_mine(tile, &self.level) && fire_ready
                && suicide_is_effective(unit.position, unit.player_id, sdamage, &game.units, &self.properties) {
                let m = get_mine_suicide_move();
                data.move_ = Some(m);
                move_action = action_of(m.control(unit.position, vs));
            } else {
                match node {
                    Some(n) => {
                        move_action = self.plan(data, &old_path, ally_id, ally_path, ally_start, n, unit, game);
                    },
                    None => {},
                }
            }
        }
        // hold fire if a mine blast is coming at the end of this move
        let mut hold_fire = false;
        if sdamage > 0 {
            match data.move_ {
                Some(m) => {
                    if m.typ != MoveType::MineSuicide && m.typ != MoveType::Recover {
                        let pos2 = m.pos2;
                        if -1 <= pos2.0 && pos2.0 <= crate::level::MAX_SIDE as isize && -1 <= pos2.1 && pos2.1 <= crate::level::MAX_SIDE as isize {
                            let at = to_unit_position(pos2);
                            if can_plant_mine(pos2, &self.level) && in_world_exec(at)
                                && suicide_is_effective(at, unit.player_id, sdamage, &game.units, &self.properties) {
                                hold_fire = true;
                            }
                        }
                    }
                },
                None => {},
            }
        }
        let (velocity, jump, jump_down, plant_mine) = match move_action {
            Some(a) => (a.velocity, a.jump, a.jump_down, a.typ == MoveType::MineSuicide),
            None => (0, false, false, false),
        };
        UnitAction {
            velocity,
            jump,
            jump_down,
            plant_mine,
            shoot_override: if plant_mine { Some(unit.mines == 0) } else { None },
            hold_fire,
        }
    }

    /// Plans a new path for the unit from node `n`, commits it, and returns
    /// the controls for its first move.
    fn plan(
        &mut self,
        data: &mut UnitData,
        old_path: &Vec<Move>,
        ally_id: i32,
        ally_path: &Vec<Move>,
        ally_start: i32,
        n: Node,
        unit: &Unit,
        game: &Game,
    ) -> (r: Option<MoveAction>)
        requires
            old(self).wf(),
            old(data).wf(old(self).paths),
            old(data).move_ is None,
            old(data).path@.len() == 0,
            n.1 == vertical_state_of(*unit, old(self).properties),
            old_path@.len() == 0 || (old(self).paths.known(target(old_path@[0])) && walk_ok(old(self).paths, target(old_path@[0]), old_path@)),
            ally_path@.len() == 0 || (old(self).paths.known(target(ally_path@[0])) && walk_ok(old(self).paths, target(ally_path@[0]), ally_path@)),
            0 <= ally_start <= 0x1000_0000,
            old(self).paths.known(n),
            unit.wf(),
            game.wf(),
        ensures
            final(self).wf(),
            final(self).paths == old(self).paths,
            final(self).level == old(self).level,
            final(self).properties == old(self).properties,
            final(self).unit1_data == old(self).unit1_data,
            final(self).unit2_data == old(self).unit2_data,
            final(data).wf(final(self).paths),
            final(data).last_position == old(data).last_position,
            final(data).id == old(data).id,
            (match r {
                Some(a) => (a.velocity, a.jump, a.jump_down, a.typ == MoveType::MineSuicide),
                None => (0i64, false, false, false),
            }) == controls_of(final(data).move_, unit.position, n.1),
            final(data).move_ is Some ==> final(data).move_->0.typ != MoveType::MineSuicide,
            (final(data).path@.len() == 0 && final(data).move_ is None) || (final(data).path@.len() >= 2 && walk_ok(
                old(self).paths,
                n,
                final(data).path@,
            ) && final(data).move_ == Some(final(data).path@[1]) && final(data).path_start_tick == game.current_tick),
    {
        let ghost level = self.level;
        let ghost p = self.properties;
        proof {
            lemma_graph_nodes_ok(self.paths, level, p, n);
        }
        let mut need_weapon = unit.weapon.is_none();
        let mut any_weapon = false;
        let mut any_health = false;
        let mut weapon_tiles: Vec<TilePos> = Vec::new();
        let mut health_tiles: Vec<TilePos> = Vec::new();
        let mut i: usize = 0;
        while i < game.loot_boxes.len()
            invariant
                game.wf(),
                i <= game.loot_boxes@.len(),
            decreases game.loot_boxes@.len() - i,
        {
            let l = &game.loot_boxes[i];
            let t = tile_pos(l.position);
            if is_weapon(l) {
                any_weapon = true;
                weapon_tiles.push(t);
            }
            if is_health(l) {
                any_health = true;
                health_tiles.push(t);
            }
            i = i + 1;
        }
        need_weapon = need_weapon && any_weapon;
        let need_health = unit.health < self.properties.unit_max_health && any_health;
        // the enemies' distance maps, with the ticks until each may fire
        let mut maps: Vec<(DistanceMap, i64)> = Vec::new();
        let mut k: usize = 0;
        while k < game.units.len()
            invariant
                self.wf(),
                self.properties.wf(),
                game.wf(),
                k <= game.units@.len(),
                forall|j: int| 0 <= j < maps@.len() ==> 0 <= (#[trigger] maps@[j]).1 <= 0x1000_0000,
            decreases game.units@.len() - k,
        {
            let u2 = &game.units[k];
            if u2.player_id != unit.player_id {
                let map = build_all_paths(tile_pos(u2.position), &self.paths, &self.level, &self.properties);
                let timer: u64 = match u2.weapon {
                    Some(w) => match w.fire_timer {
                        Some(t) => t,
                        None => 0,
                    },
                    None => 0,
                };
                assert((timer as u128) * (self.properties.ticks_per_second as u128) <= 0xFFFF_FFFF_FFFF_FFFF * 1000) by (nonlinear_arith)
                    requires
                        timer <= 0xFFFF_FFFF_FFFF_FFFF,
                        self.properties.ticks_per_second <= 1000,
                ;
                let ticks = (timer as u128) * (self.properties.ticks_per_second as u128) / 1_000_000;
                let ticks = if ticks > 0x1000_0000 { 0x1000_0000i64 } else { ticks as i64 };
                maps.push((map, ticks));
            }
            k = k + 1;
        }
        // the target: the nearest loot needed, else the nearest enemy
        let terminal;
        let loot_index: Option<usize>;
        let mut enemy_index: Option<usize> = None;
        if need_weapon || need_health {
            loot_index = self.nearest_loot_map(n, game, need_weapon);
            terminal = Terminal::Loot { targets: if need_weapon { weapon_tiles } else { health_tiles } };
        } else {
            loot_index = None;
            let mut best_d: u64 = 0;
            let mut j: usize = 0;
            while j < maps.len()
                invariant
                    self.wf(),
                    j <= maps@.len(),
                    enemy_index is Some ==> enemy_index->0 < maps@.len(),
                decreases maps@.len() - j,
            {
                let d = match maps[j].0.get(&self.paths, n.0, n.1, &self.level, &self.properties) {
                    Some(d) => d,
                    None => u64::MAX,
                };
                if enemy_index.is_none() || d < best_d {
                    enemy_index = Some(j);
                    best_d = d;
                }
                j = j + 1;
            }
            terminal = Terminal::Enemy { maps };
        }
        // the other units: the ally along its plan, enemies where they stand
        let mut others: Vec<OtherUnit> = Vec::new();
        let mut k: usize = 0;
        proof {
            if ally_path@.len() > 0 {
                lemma_walk_path_ok(self.paths, level, p, target(ally_path@[0]), ally_path@);
            }
        }
        while k < game.units.len()
            invariant
                game.wf(),
                k <= game.units@.len(),
                ally_path@.len() == 0 || path_ok(ally_path@),
                0 <= ally_start <= 0x1000_0000,
                forall|j: int| 0 <= j < others@.len() ==> (#[trigger] others@[j]).wf(),
            decreases game.units@.len() - k,
        {
            let u2 = &game.units[k];
            if u2.id != unit.id {
                let ally = u2.player_id == unit.player_id && ally_id != -1;
                let offset = game.current_tick as i64 - ally_start as i64;
                if ally && offset >= 0 {
                    others.push(OtherUnit { position: u2.position, path: copy_moves(ally_path), path_offset: offset });
                } else {
                    others.push(OtherUnit { position: u2.position, path: Vec::new(), path_offset: 0 });
                }
            }
            k = k + 1;
        }
        let bullets = Bullets::new(&game.bullets, &self.level, &self.properties);
        let target_map = match &terminal {
            Terminal::Loot { .. } => match loot_index {
                Some(li) => &self.distance_map[li].1,
                None => return None,
            },
            Terminal::Enemy { maps } => match enemy_index {
                Some(ei) => &maps[ei].0,
                None => return None,
            },
        };
        let (best, _used_old) = choose_path(
            n,
            target_map,
            old_path,
            &terminal,
            &self.distance_map,
            unit.id,
            unit.position,
            &others,
            &bullets,
            &mut self.rand,
            &self.paths,
            &self.level,
            &self.properties,
        );
        if best.len() < 2 {
            return None;
        }
        let m = best[1];
        if m.typ == MoveType::MineSuicide {
            return None;
        }
        proof {
            assert(self.paths.out(target(best@[1 - 1])).contains(best@[1]));
            crate::planner::lemma_graph_step_ok(self.paths, level, p, target(best@[0]), m);
            lemma_graph_nodes_ok(self.paths, level, p, target(best@[0]));
        }
        data.path = best;
        data.path_start_tick = game.current_tick;
        data.move_ = Some(m);
        action_of(m.control(unit.position, get_vertical_state(unit, &self.properties)))
    }
}

pub open spec fn tile_pos_spec(p: Position) -> TilePos {
    ((p.x / 1_000_000) as isize, (p.y / 1_000_000) as isize)
}

/// The most nodes the enemy forecast visits.
pub const MAX_FORECAST_NODES: u64 = 1_000_000;

impl MyStrategy {
    /// Where the enemy may be in `ticks` ticks, at most `max_ticks` ahead:
    /// the mean of the tiles reached by every sequence of graph moves from its
    /// node that first spans that long, or where it is if there are none.
    pub fn estimate_enemy_position(&self, enemy: &Unit, ticks: i64, max_ticks: i64) -> (r: Position)
        requires
            self.wf(),
            enemy.wf(),
        ensures
            in_world(r),
            ({
                let n = (unit_tile(*enemy), vertical_state_of(*enemy, self.game_properties()));
                &&& !node_ok(self.game_level(), n) ==> r == enemy.position
                &&& node_ok(self.game_level(), n) && (if ticks < max_ticks { ticks } else { max_ticks }) <= 0
                    ==> r == unit_position_of(n.0)
                &&& node_ok(self.game_level(), n) && !self.graph().known(n) && (if ticks < max_ticks { ticks } else { max_ticks }) > 0
                    ==> r == enemy.position
            }),
    {
        let ghost level = self.level;
        let ghost p = self.properties;
        proof {
            lemma_graph_nodes_ok(self.paths, level, p, (tile_pos_spec(enemy.position), VerticalState::Default));
        }
        let horizon = if ticks < max_ticks { ticks } else { max_ticks };
        let start = match unit_node(enemy, &self.level, &self.properties) {
            Some(n) => n,
            None => return enemy.position,
        };
        let mut stack: Vec<(Node, i64)> = Vec::new();
        stack.push((start, 0));
        let mut sum_x: i128 = 0;
        let mut sum_y: i128 = 0;
        let mut count: u64 = 0;
        let mut visits: u64 = 0;
        while visits < MAX_FORECAST_NODES
            invariant
                self.wf(),
                self.level == level,
                self.properties == p,
                level.wf(),
                count <= visits <= MAX_FORECAST_NODES,
                horizon <= 0 && visits == 0 ==> stack@ == seq![(start, 0i64)] && count == 0,
                horizon <= 0 && visits > 0 ==> stack@.len() == 0 && count == 1 && sum_x == unit_position_of(start.0).x
                    && sum_y == unit_position_of(start.0).y,
                horizon > 0 && !self.paths.known(start) ==> count == 0,
                horizon > 0 && !self.paths.known(start) && visits == 0 ==> stack@ == seq![(start, 0i64)],
                horizon > 0 && !self.paths.known(start) && visits > 0 ==> stack@.len() == 0,
                0 <= sum_x <= count * 0x100_0000_0000,
                0 <= sum_y <= count * 0x100_0000_0000,
                forall|i: int| 0 <= i < stack@.len() ==> 0 <= (#[trigger] stack@[i]).1 <= 0x1_0000_0000_0000 && node_ok(level, stack@[i].0),
            ensures
                count <= MAX_FORECAST_NODES,
                horizon <= 0 ==> count == 1 && sum_x == unit_position_of(start.0).x && sum_y == unit_position_of(start.0).y,
                horizon > 0 && !self.paths.known(start) ==> count == 0,
                0 <= sum_x <= count * 0x100_0000_0000,
                0 <= sum_y <= count * 0x100_0000_0000,
            decreases MAX_FORECAST_NODES - visits,
        {
            let (node, t) = match stack.pop() {
                Some(e) => e,
                None => break,
            };
            proof {
                assert(node_ok(level, node));
            }
            visits = visits + 1;
            if t >= horizon {
                let at = to_unit_position(node.0);
                assert((count + 1) * 0x100_0000_0000 == count * 0x100_0000_0000 + 0x100_0000_0000) by (nonlinear_arith);
                sum_x = sum_x + at.x as i128;
                sum_y = sum_y + at.y as i128;
                count = count + 1;
                continue;
            }
            match self.paths.outgoing_of(node.0, node.1, &self.level, &self.properties) {
                Some(out) => {
                    let mut k: usize = 0;
                    while k < out.len()
                        invariant
                            self.wf(),
                            self.level == level,
                            self.properties == p,
                            out@ == self.paths.out(node),
                            k <= out@.len(),
                            0 <= t <= 0x1_0000_0000_0000,
                            t < horizon,
                            forall|i: int| 0 <= i < stack@.len() ==> 0 <= (#[trigger] stack@[i]).1 <= 0x1_0000_0000_0000 && node_ok(level, stack@[i].0),
                        decreases out@.len() - k,
                    {
                        let m = out[k];
                        proof {
                            assert(self.paths.out(node).contains(m));
                            crate::planner::lemma_graph_step_ok(self.paths, level, p, node, m);
                            lemma_graph_nodes_ok(self.paths, level, p, target(m));
                        }
                        let nt = t + m.ticks as i64;
                        if nt <= 0x1_0000_0000_0000 {
                            stack.push(((m.pos2, m.vertical_state2), nt));
                        }
                        k = k + 1;
                    }
                },
                None => {},
            }
        }
        proof {
            assert(start.0 == unit_tile(*enemy));
        }
        if count == 0 {
            return enemy.position;
        }
        assert(sum_x / (count as i128) >= 0) by {
            vstd::arithmetic::div_mod::lemma_div_pos_is_pos(sum_x as int, count as int);
        }
        assert(sum_y / (count as i128) >= 0) by {
            vstd::arithmetic::div_mod::lemma_div_pos_is_pos(sum_y as int, count as int);
        }
        assert(sum_x / (count as i128) <= 0x100_0000_0000) by {
            vstd::arithmetic::div_mod::lemma_multiply_divide_le(sum_x as int, count as int, 0x100_0000_0000);
        }
        assert(sum_y / (count as i128) <= 0x100_0000_0000) by {
            vstd::arithmetic::div_mod::lemma_multiply_divide_le(sum_y as int, count as int, 0x100_0000_0000);
        }
        proof {
            if count == 1 {
                assert(sum_x / 1 == sum_x);
                assert(sum_y / 1 == sum_y);
            }
        }
        Position { x: (sum_x / count as i128) as i64, y: (sum_y / count as i128) as i64 }
    }

    /// Where unit `unit_id`, at `here`, is at the start and end of tick
    /// `tick` of this game's future, following its committed path, or only
    /// the path's first node when `first_only`; a unit without a plan stays.
    pub fn planned_position(&self, unit_id: i32, here: Position, tick: i64, current_tick: i32, first_only: bool) -> (r: (Position, Position))
        requires
            self.wf(),
            in_world(here),
            0 <= tick <= 0x1000_0000,
            0 <= current_tick <= 0x1000_0000,
        ensures
            tick + current_tick - self.data_of(unit_id).path_start_tick < 0 ==> r == (here, here),
            tick + current_tick - self.data_of(unit_id).path_start_tick >= 0 ==> r == crate::planner::positions_at(
                here,
                if first_only && self.data_of(unit_id).path@.len() > 0 {
                    self.data_of(unit_id).path@.subrange(0, 1)
                } else {
                    self.data_of(unit_id).path@
                },
                tick + current_tick - self.data_of(unit_id).path_start_tick,
            ),
    {
        let data = if self.unit1_data.id == unit_id { &self.unit1_data } else { &self.unit2_data };
        let ghost level = self.level;
        let ghost p = self.properties;
        let path_tick = tick + current_tick as i64 - data.path_start_tick as i64;
        if path_tick < 0 {
            return (here, here);
        }
        proof {
            if data.path@.len() > 0 {
                lemma_walk_path_ok(self.paths, level, p, target(data.path@[0]), data.path@);
            }
        }
        if first_only && data.path.len() > 0 {
            let first: Vec<Move> = vec![data.path[0]];
            proof {
                assert(first@ =~= data.path@.subrange(0, 1));
                assert(first@.last() == data.path@[0]);
                lemma_graph_nodes_ok(self.paths, level, p, target(data.path@[0]));
            }
            crate::planner::get_unit_position_at_tick(here, &first, path_tick)
        } else {
            crate::planner::get_unit_position_at_tick(here, &data.path, path_tick)
        }
    }
}

} // verus!
