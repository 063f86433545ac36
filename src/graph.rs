//! The movement graph: every node `(tile, vertical state)` reachable from the
//! nodes asked about, with its outgoing moves and the moves coming in, and
//! per-target distance maps over it.
use std::collections::HashMap;
use vstd::prelude::*;
use crate::level::{Level, Tile};
use crate::properties::{Properties, lemma_rise_bounded, lemma_one_axis_bounds, lemma_two_axis_bounds};
use crate::path::{
    Move, TilePos, VerticalState, TileMovement, movement_catalog, get_movements, can_move_pre,
    jump_max, pad_max,
};

verus! {

broadcast use vstd::std_specs::hash::group_hash_axioms;

pub type Node = (TilePos, VerticalState);

/// Vertical states in the graph have fewer tiles of rise left than this.
pub const RISE_LIMIT: usize = 0x20_0000;

pub open spec fn rise_ok(vs: VerticalState) -> bool {
    match vs {
        VerticalState::Default => true,
        VerticalState::Jump(k) => k < RISE_LIMIT,
        VerticalState::PadJump(k) => k < RISE_LIMIT,
    }
}

/// A node the graph may hold: a tile of the grid that is not a wall, and a
/// bounded vertical state.
pub open spec fn node_ok(level: Level, n: Node) -> bool {
    &&& level.in_grid(n.0.0 as int, n.0.1 as int)
    &&& level.tile(n.0.0 as int, n.0.1 as int) != Tile::Wall
    &&& rise_ok(n.1)
}

pub open spec fn source(m: Move) -> Node {
    (m.pos1, m.vertical_state1)
}

pub open spec fn target(m: Move) -> Node {
    (m.pos2, m.vertical_state2)
}

pub open spec fn state_code(vs: VerticalState) -> int {
    match vs {
        VerticalState::Default => 0,
        VerticalState::Jump(k) => RISE_LIMIT + k,
        VerticalState::PadJump(k) => 2 * RISE_LIMIT + k,
    }
}

/// A number per node, distinct for the nodes a graph may hold.
pub open spec fn node_key(n: Node) -> int {
    (n.0.0 * 0x10000 + n.0.1) * 0x80_0000 + state_code(n.1)
}

pub open spec fn key_limit() -> int {
    0x80_0000_0000_0000
}

proof fn lemma_key_range(level: Level, n: Node)
    requires
        level.wf(),
        node_ok(level, n),
    ensures
        0 <= node_key(n) < key_limit(),
{
    let a = n.0.0 * 0x10000 + n.0.1;
    assert(0 <= a < 0x1_0000_0000);
    assert(0 <= a * 0x80_0000 <= (0x1_0000_0000 - 1) * 0x80_0000) by (nonlinear_arith)
        requires
            0 <= a < 0x1_0000_0000,
    ;
}

proof fn lemma_key_injective(level: Level, a: Node, b: Node)
    requires
        level.wf(),
        node_ok(level, a),
        node_ok(level, b),
        node_key(a) == node_key(b),
    ensures
        a == b,
{
    let ha = a.0.0 * 0x10000 + a.0.1;
    let hb = b.0.0 * 0x10000 + b.0.1;
    vstd::arithmetic::div_mod::lemma_fundamental_div_mod_converse(
        node_key(a),
        0x80_0000,
        ha,
        state_code(a.1),
    );
    vstd::arithmetic::div_mod::lemma_fundamental_div_mod_converse(
        node_key(b),
        0x80_0000,
        hb,
        state_code(b.1),
    );
    vstd::arithmetic::div_mod::lemma_fundamental_div_mod_converse(ha, 0x10000, a.0.0 as int, a.0.1 as int);
    vstd::arithmetic::div_mod::lemma_fundamental_div_mod_converse(hb, 0x10000, b.0.0 as int, b.0.1 as int);
}

fn key_of(n: Node, Ghost(level): Ghost<Level>) -> (r: u64)
    requires
        level.wf(),
        node_ok(level, n),
    ensures
        r == node_key(n),
{
    proof {
        lemma_key_range(level, n);
    }
    let code: u64 = match n.1 {
        VerticalState::Default => 0,
        VerticalState::Jump(k) => RISE_LIMIT as u64 + k as u64,
        VerticalState::PadJump(k) => 2 * RISE_LIMIT as u64 + k as u64,
    };
    ((n.0.0 as u64) * 0x10000 + n.0.1 as u64) * 0x80_0000 + code
}

/// What the catalog gives from a node, in catalog order, over its first `c`
/// kinds.
pub open spec fn moves_from_prefix(level: Level, p: Properties, n: Node, c: int) -> Seq<Move>
    decreases c,
{
    if c <= 0 {
        seq![]
    } else {
        let before = moves_from_prefix(level, p, n, c - 1);
        match movement_catalog()[c - 1].result(level, p, n.0, n.1) {
            Some(m) => before.push(m),
            None => before,
        }
    }
}

/// Every legal move from `n`, once each, in catalog order.
pub open spec fn moves_from(level: Level, p: Properties, n: Node) -> Seq<Move> {
    moves_from_prefix(level, p, n, movement_catalog().len() as int)
}

/// A move from a node the graph may hold leads to such a node.
proof fn lemma_target_ok(level: Level, p: Properties, n: Node, c: int)
    requires
        level.wf(),
        p.wf(),
        node_ok(level, n),
        0 <= c < movement_catalog().len(),
        movement_catalog()[c].result(level, p, n.0, n.1) is Some,
    ensures
        node_ok(level, target(movement_catalog()[c].result(level, p, n.0, n.1)->0)),
        source(movement_catalog()[c].result(level, p, n.0, n.1)->0) == n,
{
    lemma_rise_bounded(p.unit_jump_time, p.unit_jump_speed);
    lemma_rise_bounded(p.jump_pad_jump_time, p.jump_pad_jump_speed);
}

/// Distinct values below `bound`, at most `bound` of them.
proof fn lemma_distinct_bounded(s: Seq<int>, bound: int)
    requires
        s.no_duplicates(),
        bound >= 0,
        forall|i: int| 0 <= i < s.len() ==> 0 <= #[trigger] s[i] < bound,
    ensures
        s.len() <= bound,
{
    s.unique_seq_to_set();
    let r = vstd::set_lib::set_int_range(0, bound);
    assert(s.to_set().subset_of(r)) by {
        assert forall|v: int| s.to_set().contains(v) implies r.contains(v) by {
            assert(s.contains(v));
        }
    }
    vstd::set_lib::lemma_int_range(0, bound);
    vstd::set_lib::lemma_len_subset(s.to_set(), r);
}

proof fn lemma_push_contains(s: Seq<Move>, x: Move, y: Move)
    ensures
        s.push(x).contains(y) <==> (s.contains(y) || y == x),
{
    if s.push(x).contains(y) && y != x {
        let i = choose|i: int| 0 <= i < s.push(x).len() && s.push(x)[i] == y;
        assert(s[i] == y);
    }
    if s.contains(y) {
        let i = choose|i: int| 0 <= i < s.len() && s[i] == y;
        assert(s.push(x)[i] == y);
    }
    if y == x {
        assert(s.push(x)[s.len() as int] == y);
    }
}

pub struct Paths {
    index: HashMap<u64, usize>,
    nodes: Vec<Node>,
    outgoing: Vec<Vec<Move>>,
    incoming: Vec<Vec<Move>>,
}

impl Paths {
    /// The node is in the graph.
    pub closed spec fn known(&self, n: Node) -> bool {
        let k = node_key(n) as u64;
        &&& self.index@.contains_key(k)
        &&& (self.index@[k] as int) < self.nodes@.len()
        &&& self.nodes@[self.index@[k] as int] == n
    }

    closed spec fn id(&self, n: Node) -> int {
        self.index@[node_key(n) as u64] as int
    }

    /// The moves out of a node, in the order the graph lists them.
    pub closed spec fn out(&self, n: Node) -> Seq<Move> {
        if self.known(n) {
            self.outgoing@[self.id(n)]@
        } else {
            seq![]
        }
    }

    /// The moves into a node.
    pub closed spec fn inc(&self, n: Node) -> Seq<Move> {
        if self.known(n) {
            self.incoming@[self.id(n)]@
        } else {
            seq![]
        }
    }

    /// The nodes of the graph, in the order they were found.
    pub closed spec fn node_seq(&self) -> Seq<Node> {
        self.nodes@
    }

    closed spec fn filled(&self, level: Level, p: Properties, head: int, partial: int, i: int) -> Seq<Move> {
        if i < head {
            moves_from(level, p, self.nodes@[i])
        } else if i == head {
            moves_from_prefix(level, p, self.nodes@[i], partial)
        } else {
            seq![]
        }
    }

    /// Nodes before `head` are explored, `head` itself through `partial`
    /// kinds of the catalog; every move in the graph is listed at its target.
    closed spec fn inv(&self, level: Level, p: Properties, head: int, partial: int) -> bool {
        let len = self.nodes@.len();
        &&& level.wf()
        &&& p.wf()
        &&& self.outgoing@.len() == len
        &&& self.incoming@.len() == len
        &&& 0 <= head <= len
        &&& 0 <= partial <= movement_catalog().len()
        &&& len <= key_limit()
        &&& forall|i: int|
            0 <= i < len ==> {
                &&& node_ok(level, #[trigger] self.nodes@[i])
                &&& self.index@.contains_key(node_key(self.nodes@[i]) as u64)
                &&& self.index@[node_key(self.nodes@[i]) as u64] == i
            }
        &&& forall|k: u64|
            #[trigger] self.index@.contains_key(k) ==> {
                &&& (self.index@[k] as int) < len
                &&& node_key(self.nodes@[self.index@[k] as int]) == k
            }
        &&& forall|i: int| 0 <= i < len ==> #[trigger] self.outgoing@[i]@ == self.filled(level, p, head, partial, i)
        &&& forall|j: int, m: Move|
            0 <= j < len ==> (#[trigger] self.incoming@[j]@.contains(m) <==> {
                &&& target(m) == self.nodes@[j]
                &&& self.known(source(m))
                &&& self.outgoing@[self.id(source(m))]@.contains(m)
            })
        &&& forall|i: int, m: Move|
            0 <= i < len && #[trigger] self.outgoing@[i]@.contains(m) ==> {
                &&& self.known(target(m))
                &&& source(m) == self.nodes@[i]
            }
    }

    /// A complete graph over `level` and `p`: every node explored.
    pub closed spec fn wf(&self, level: Level, p: Properties) -> bool {
        self.inv(level, p, self.nodes@.len() as int, 0)
    }

    /// An empty graph over `level` and `properties`.
    pub fn new(level: &Level, properties: &Properties) -> (r: Paths)
        requires
            level.wf(),
            properties.wf(),
        ensures
            r.wf(*level, *properties),
            forall|n: Node| !r.known(n),
    {
        Paths { index: HashMap::new(), nodes: Vec::new(), outgoing: Vec::new(), incoming: Vec::new() }
    }
}

impl Paths {
    /// The id of node `n`, added (with no moves yet) if it is new.
    fn lookup_or_create(
        &mut self,
        n: Node,
        Ghost(level): Ghost<Level>,
        Ghost(p): Ghost<Properties>,
        Ghost(head): Ghost<int>,
        Ghost(partial): Ghost<int>,
    ) -> (r: usize)
        requires
            old(self).inv(level, p, head, partial),
            head < old(self).nodes@.len() || partial == 0,
            node_ok(level, n),
        ensures
            final(self).inv(level, p, head, partial),
            final(self).known(n),
            r as int == final(self).id(n),
            (r as int) < final(self).nodes@.len(),
            final(self).nodes@.len() == old(self).nodes@.len() || final(self).nodes@ == old(self).nodes@.push(n),
            forall|i: int| 0 <= i < old(self).nodes@.len() ==> final(self).outgoing@[i] == old(self).outgoing@[i],
            forall|i: int| 0 <= i < old(self).nodes@.len() ==> final(self).incoming@[i] == old(self).incoming@[i],
            forall|x: Node| #[trigger] old(self).known(x) ==> final(self).known(x) && final(self).id(x) == old(self).id(x),
            old(self).nodes@.len() <= final(self).nodes@.len(),
            final(self).nodes@.subrange(0, old(self).nodes@.len() as int) == old(self).nodes@,
    {
        let key = key_of(n, Ghost(level));
        match self.index.get(&key) {
            Some(id) => {
                let id = *id;
                proof {
                    lemma_key_injective(level, self.nodes@[id as int], n);
                    assert(self.nodes@.subrange(0, self.nodes@.len() as int) =~= self.nodes@);
                }
                return id;
            },
            None => {},
        }
        let id = self.nodes.len();
        proof {
            let keys = Seq::new(self.nodes@.len(), |i: int| node_key(self.nodes@[i])).push(key as int);
            assert forall|i: int| 0 <= i < keys.len() implies 0 <= #[trigger] keys[i] < key_limit() by {
                if i < self.nodes@.len() {
                    lemma_key_range(level, self.nodes@[i]);
                } else {
                    lemma_key_range(level, n);
                }
            }
            assert(keys.no_duplicates()) by {
                assert forall|i: int, j: int| 0 <= i < keys.len() && 0 <= j < keys.len() && i != j implies keys[i] != keys[j] by {
                    if i < self.nodes@.len() && j < self.nodes@.len() {
                        lemma_key_range(level, self.nodes@[i]);
                        lemma_key_range(level, self.nodes@[j]);
                    } else if i < self.nodes@.len() {
                        lemma_key_range(level, self.nodes@[i]);
                    } else {
                        lemma_key_range(level, self.nodes@[j]);
                    }
                }
            }
            lemma_distinct_bounded(keys, key_limit());
        }
        let ghost old_self = *self;
        self.index.insert(key, id);
        self.nodes.push(n);
        self.outgoing.push(Vec::new());
        self.incoming.push(Vec::new());
        proof {
            lemma_key_range(level, n);
            assert forall|x: Node| #[trigger] old_self.known(x) implies self.known(x) && self.id(x) == old_self.id(x) by {
                lemma_key_range(level, x);
                lemma_key_range(level, old_self.nodes@[old_self.id(x)]);
            }
            assert forall|x: Node| #[trigger] self.known(x) implies old_self.known(x) || x == n by {
                if x != n {
                    let k = node_key(x) as u64;
                    assert(k != key);
                }
            }
            assert forall|i: int| 0 <= i < self.nodes@.len() implies {
                &&& node_ok(level, #[trigger] self.nodes@[i])
                &&& self.index@.contains_key(node_key(self.nodes@[i]) as u64)
                &&& self.index@[node_key(self.nodes@[i]) as u64] == i
            } by {
                if i < id {
                    lemma_key_range(level, self.nodes@[i]);
                    assert(old_self.index@.contains_key(node_key(old_self.nodes@[i]) as u64));
                }
            }
            assert forall|k: u64| #[trigger] self.index@.contains_key(k) implies {
                &&& (self.index@[k] as int) < self.nodes@.len()
                &&& node_key(self.nodes@[self.index@[k] as int]) == k
            } by {
                if k != key {
                    assert(old_self.index@.contains_key(k));
                }
            }
            assert forall|i: int| 0 <= i < self.nodes@.len() implies #[trigger] self.outgoing@[i]@ == self.filled(level, p, head, partial, i) by {
                if i < id {
                    assert(old_self.outgoing@[i]@ == old_self.filled(level, p, head, partial, i));
                } else {
                    assert(self.outgoing@[i]@ =~= seq![]);
                }
            }
            assert forall|j: int, m: Move| 0 <= j < self.nodes@.len() implies (#[trigger] self.incoming@[j]@.contains(m) <==> {
                &&& target(m) == self.nodes@[j]
                &&& self.known(source(m))
                &&& self.outgoing@[self.id(source(m))]@.contains(m)
            }) by {
                if self.known(source(m)) && source(m) != n {
                    assert(old_self.known(source(m)));
                }
                if j < id {
                    assert(old_self.incoming@[j]@.contains(m) <==> {
                        &&& target(m) == old_self.nodes@[j]
                        &&& old_self.known(source(m))
                        &&& old_self.outgoing@[old_self.id(source(m))]@.contains(m)
                    });
                } else {
                    if self.known(source(m)) && source(m) != n && self.outgoing@[self.id(source(m))]@.contains(m) {
                        let si = old_self.id(source(m));
                        assert(old_self.outgoing@[si]@.contains(m));
                        assert(old_self.known(target(m)));
                    }
                }
            }
            assert forall|i: int, m: Move| 0 <= i < self.nodes@.len() && #[trigger] self.outgoing@[i]@.contains(m) implies {
                &&& self.known(target(m))
                &&& source(m) == self.nodes@[i]
            } by {
                if i < id {
                    assert(old_self.outgoing@[i]@.contains(m));
                }
            }
            assert(self.nodes@.subrange(0, id as int) =~= old_self.nodes@);
        }
        id
    }
}

impl Paths {
    /// Lists the moves out of node `h`, adding their targets as nodes and
    /// the moves to their targets' incoming lists.
    fn explore(&mut self, h: usize, level: &Level, properties: &Properties)
        requires
            old(self).inv(*level, *properties, h as int, 0),
            h < old(self).nodes@.len(),
        ensures
            final(self).inv(*level, *properties, h + 1, 0),
            old(self).nodes@.len() <= final(self).nodes@.len(),
            final(self).nodes@.subrange(0, old(self).nodes@.len() as int) == old(self).nodes@,
            forall|x: Node| #[trigger] old(self).known(x) ==> final(self).known(x),
    {
        let ghost level_g = *level;
        let ghost p = *properties;
        let ghost old_nodes = self.nodes@;
        let movements = get_movements();
        let n = self.nodes[h];
        let mut c: usize = 0;
        while c < movements.len()
            invariant
                self.inv(level_g, p, h as int, c as int),
                level_g == *level,
                p == *properties,
                h < self.nodes@.len(),
                self.nodes@[h as int] == n,
                movements@ == movement_catalog(),
                forall|i: int| 0 <= i < movements@.len() ==> (#[trigger] movements@[i]).wf(),
                old_nodes.len() <= self.nodes@.len(),
                self.nodes@.subrange(0, old_nodes.len() as int) == old_nodes,
                forall|x: Node| #[trigger] old(self).known(x) ==> self.known(x),
            decreases movements.len() - c,
        {
            proof {
                assert(node_ok(level_g, self.nodes@[h as int]));
            }
            match movements[c].can_move(n.0, n.1, level, properties) {
                Some(m) => {
                    proof {
                        lemma_target_ok(level_g, p, n, c as int);
                    }
                    let j = self.lookup_or_create((m.pos2, m.vertical_state2), Ghost(level_g), Ghost(p), Ghost(h as int), Ghost(c as int));
                    let ghost mid = *self;
                    self.outgoing[h].push(m);
                    self.incoming[j].push(m);
                    proof {
                        assert(self.nodes@ == mid.nodes@);
                        assert(self.index@ == mid.index@);
                        assert forall|x: Node| #[trigger] mid.known(x) == self.known(x) by {}
                        assert(moves_from_prefix(level_g, p, n, c + 1) == moves_from_prefix(level_g, p, n, c as int).push(m));
                        assert forall|i: int| 0 <= i < self.nodes@.len() implies #[trigger] self.outgoing@[i]@ == self.filled(level_g, p, h as int, c + 1, i) by {
                            if i != h {
                                assert(self.outgoing@[i] == mid.outgoing@[i]);
                                assert(mid.outgoing@[i]@ == mid.filled(level_g, p, h as int, c as int, i));
                            }
                        }
                        assert forall|j2: int, m2: Move| 0 <= j2 < self.nodes@.len() implies (#[trigger] self.incoming@[j2]@.contains(m2) <==> {
                            &&& target(m2) == self.nodes@[j2]
                            &&& self.known(source(m2))
                            &&& self.outgoing@[self.id(source(m2))]@.contains(m2)
                        }) by {
                            assert(self.id(n) == h && self.known(n));
                            assert(self.nodes@[j as int] == target(m));
                            assert(source(m) == n);
                            assert(mid.incoming@[j2]@.contains(m2) <==> {
                                &&& target(m2) == mid.nodes@[j2]
                                &&& mid.known(source(m2))
                                &&& mid.outgoing@[mid.id(source(m2))]@.contains(m2)
                            });
                            if self.known(source(m2)) && self.id(source(m2)) == h {
                                assert(self.outgoing@[h as int]@ == mid.outgoing@[h as int]@.push(m));
                                lemma_push_contains(mid.outgoing@[h as int]@, m, m2);
                            }
                            if j2 == j {
                                assert(self.incoming@[j2]@ == mid.incoming@[j2]@.push(m));
                                lemma_push_contains(mid.incoming@[j2]@, m, m2);
                            } else {
                                assert(self.incoming@[j2] == mid.incoming@[j2]);
                                if m2 == m {
                                    assert(self.nodes@[j as int] == target(m));
                                    assert(mid.index@[node_key(mid.nodes@[j2]) as u64] == j2);
                                }
                            }
                        }
                        assert forall|i: int, m2: Move| 0 <= i < self.nodes@.len() && #[trigger] self.outgoing@[i]@.contains(m2) implies {
                            &&& self.known(target(m2))
                            &&& source(m2) == self.nodes@[i]
                        } by {
                            if i == h {
                                assert(self.outgoing@[h as int]@ == mid.outgoing@[h as int]@.push(m));
                                lemma_push_contains(mid.outgoing@[h as int]@, m, m2);
                                if m2 != m {
                                    assert(mid.outgoing@[i]@.contains(m2));
                                }
                            } else {
                                assert(mid.outgoing@[i]@.contains(m2));
                            }
                        }
                        assert(self.nodes@.subrange(0, old_nodes.len() as int) == old_nodes);
                    }
                },
                None => {
                    proof {
                        assert(moves_from_prefix(level_g, p, n, c + 1) == moves_from_prefix(level_g, p, n, c as int));
                        assert forall|i: int| 0 <= i < self.nodes@.len() implies #[trigger] self.outgoing@[i]@ == self.filled(level_g, p, h as int, c + 1, i) by {
                            assert(self.outgoing@[i]@ == self.filled(level_g, p, h as int, c as int, i));
                        }
                    }
                },
            }
            c = c + 1;
        }
        proof {
            assert forall|i: int| 0 <= i < self.nodes@.len() implies #[trigger] self.outgoing@[i]@ == self.filled(level_g, p, h + 1, 0, i) by {
                assert(self.outgoing@[i]@ == self.filled(level_g, p, h as int, c as int, i));
            }
        }
    }

    /// Explores every node reachable from `(pos, vertical_state)` that the
    /// graph does not hold yet.
    pub fn update_paths(&mut self, pos: TilePos, vertical_state: VerticalState, level: &Level, properties: &Properties)
        requires
            old(self).wf(*level, *properties),
            node_ok(*level, (pos, vertical_state)),
        ensures
            final(self).wf(*level, *properties),
            final(self).known((pos, vertical_state)),
            forall|x: Node| #[trigger] old(self).known(x) ==> final(self).known(x),
            forall|x: Node| #[trigger] old(self).known(x) ==> final(self).out(x) == old(self).out(x),
            old(self).known((pos, vertical_state)) ==> *final(self) == *old(self),
    {
        let ghost level_g = *level;
        let ghost p = *properties;
        let root = (pos, vertical_state);
        let key = key_of(root, Ghost(level_g));
        if self.index.get(&key).is_some() {
            proof {
                let id = self.index@[key] as int;
                lemma_key_injective(level_g, self.nodes@[id], root);
            }
            return;
        }
        let first = self.nodes.len();
        self.lookup_or_create(root, Ghost(level_g), Ghost(p), Ghost(first as int), Ghost(0));
        let mut head = first;
        while head < self.nodes.len()
            invariant
                self.inv(level_g, p, head as int, 0),
                level_g == *level,
                p == *properties,
                self.known(root),
                forall|x: Node| #[trigger] old(self).known(x) ==> self.known(x),
            decreases key_limit() - head,
        {
            let ghost before = *self;
            self.explore(head, level, properties);
            proof {
                assert forall|x: Node| #[trigger] old(self).known(x) implies self.known(x) by {
                    assert(before.known(x));
                }
            }
            head = head + 1;
        }
        proof {
            assert forall|x: Node| #[trigger] old(self).known(x) implies self.out(x) == old(self).out(x) by {
                lemma_graph_legality(*old(self), level_g, p, x, any_move());
                lemma_graph_legality(*self, level_g, p, x, any_move());
            }
        }
    }
}

/// Whether `n` is a node a graph over `level` may hold.
pub fn node_in_bounds(n: Node, level: &Level) -> (r: bool)
    requires
        level.wf(),
    ensures
        r == node_ok(*level, n),
{
    let (x, y) = n.0;
    if x < 0 || y < 0 || x as usize >= level.width() || y as usize >= level.height() {
        return false;
    }
    if level.tile_at(x, y) == Tile::Wall {
        return false;
    }
    match n.1 {
        VerticalState::Default => true,
        VerticalState::Jump(k) => k < RISE_LIMIT,
        VerticalState::PadJump(k) => k < RISE_LIMIT,
    }
}

proof fn lemma_prefix_members(level: Level, p: Properties, n: Node, c: int, m: Move)
    requires
        0 <= c <= movement_catalog().len(),
        moves_from_prefix(level, p, n, c).contains(m),
    ensures
        exists|i: int| 0 <= i < c && #[trigger] movement_catalog()[i].result(level, p, n.0, n.1) == Some(m),
    decreases c,
{
    let before = moves_from_prefix(level, p, n, c - 1);
    match movement_catalog()[c - 1].result(level, p, n.0, n.1) {
        Some(x) => {
            lemma_push_contains(before, x, m);
            if m != x {
                lemma_prefix_members(level, p, n, c - 1, m);
            }
        },
        None => {
            lemma_prefix_members(level, p, n, c - 1, m);
        },
    }
}

impl Paths {
    fn id_of(&self, n: Node, level: &Level, Ghost(p): Ghost<Properties>) -> (r: Option<usize>)
        requires
            self.wf(*level, p),
        ensures
            r is Some <==> self.known(n),
            r is Some ==> r->0 as int == self.id(n) && (r->0 as int) < self.nodes@.len(),
    {
        if !node_in_bounds(n, level) {
            return None;
        }
        let key = key_of(n, Ghost(*level));
        match self.index.get(&key) {
            Some(id) => {
                proof {
                    lemma_key_injective(*level, self.nodes@[*id as int], n);
                }
                Some(*id)
            },
            None => None,
        }
    }
}

impl Paths {
    /// The moves out of `(pos, vertical_state)`, if the graph holds it.
    pub fn outgoing_of(&self, pos: TilePos, vertical_state: VerticalState, level: &Level, properties: &Properties) -> (r: Option<&Vec<Move>>)
        requires
            self.wf(*level, *properties),
        ensures
            r is Some <==> self.known((pos, vertical_state)),
            r is Some ==> r->0@ == self.out((pos, vertical_state)),
    {
        match self.id_of((pos, vertical_state), level, Ghost(*properties)) {
            Some(id) => Some(&self.outgoing[id]),
            None => None,
        }
    }

    /// The moves into `(pos, vertical_state)`, if the graph holds it.
    pub fn incoming_of(&self, pos: TilePos, vertical_state: VerticalState, level: &Level, properties: &Properties) -> (r: Option<&Vec<Move>>)
        requires
            self.wf(*level, *properties),
        ensures
            r is Some <==> self.known((pos, vertical_state)),
            r is Some ==> r->0@ == self.inc((pos, vertical_state)),
    {
        match self.id_of((pos, vertical_state), level, Ghost(*properties)) {
            Some(id) => Some(&self.incoming[id]),
            None => None,
        }
    }

    /// Whether the graph holds `(pos, vertical_state)`.
    pub fn contains_node(&self, pos: TilePos, vertical_state: VerticalState, level: &Level, properties: &Properties) -> (r: bool)
        requires
            self.wf(*level, *properties),
        ensures
            r == self.known((pos, vertical_state)),
    {
        self.id_of((pos, vertical_state), level, Ghost(*properties)).is_some()
    }

    /// How many nodes the graph holds.
    pub fn node_count(&self) -> (r: usize)
        ensures
            r == self.node_seq().len(),
    {
        self.nodes.len()
    }
}

spec fn any_move() -> Move {
    crate::control::start_node((0, 0), VerticalState::Default)
}

/// The movement graph is legal and closed: a node lists exactly the moves
/// that the catalog allows from it, each the result of one kind, none into a
/// wall, each leading to a node the graph holds; and the incoming lists are
/// the exact inverse of the outgoing ones.
pub proof fn lemma_graph_legality(paths: Paths, level: Level, p: Properties, n: Node, m: Move)
    requires
        paths.wf(level, p),
    ensures
        paths.known(n) ==> node_ok(level, n) && paths.out(n) == moves_from(level, p, n),
        paths.out(n).contains(m) ==> {
            &&& source(m) == n
            &&& paths.known(target(m))
            &&& level.tile(m.pos2.0 as int, m.pos2.1 as int) != Tile::Wall
            &&& exists|i: int|
                0 <= i < movement_catalog().len() && #[trigger] movement_catalog()[i].result(level, p, n.0, n.1) == Some(m)
        },
        paths.inc(n).contains(m) <==> (target(m) == n && paths.out(source(m)).contains(m)),
{
    if paths.known(n) {
        let i = paths.id(n);
        assert(paths.outgoing@[i]@ == paths.filled(level, p, paths.nodes@.len() as int, 0, i));
    }
    if paths.out(n).contains(m) {
        let i = paths.id(n);
        assert(paths.outgoing@[i]@.contains(m));
        lemma_prefix_members(level, p, n, movement_catalog().len() as int, m);
        let t = paths.id(target(m));
        assert(node_ok(level, paths.nodes@[t]));
    }
    if target(m) == n && paths.out(source(m)).contains(m) {
        let i = paths.id(source(m));
        assert(paths.outgoing@[i]@.contains(m));
    }
    if paths.known(n) {
        let j = paths.id(n);
        assert(paths.incoming@[j]@.contains(m) <==> {
            &&& target(m) == paths.nodes@[j]
            &&& paths.known(source(m))
            &&& paths.outgoing@[paths.id(source(m))]@.contains(m)
        });
    }
}

// ---------------------------------------------------------------------------
// Distance maps

/// Total ticks of a sequence of moves.
pub open spec fn walk_cost(w: Seq<Move>) -> int
    decreases w.len(),
{
    if w.len() == 0 {
        0
    } else {
        w[0].ticks + walk_cost(w.drop_first())
    }
}

/// `w` is a sequence of moves of the graph that leads from `n` to a node in
/// tile `tpos`.
pub open spec fn is_walk(paths: Paths, n: Node, w: Seq<Move>, tpos: TilePos) -> bool
    decreases w.len(),
{
    if w.len() == 0 {
        paths.known(n) && n.0 == tpos
    } else {
        paths.out(n).contains(w[0]) && is_walk(paths, target(w[0]), w.drop_first(), tpos)
    }
}

/// Ticks from each node of a graph to a target tile, for the nodes that can
/// reach it.
pub struct DistanceMap {
    dist: Vec<Option<u64>>,
}

spec fn weight(v: Option<u64>) -> nat {
    match v {
        Some(d) => d as nat,
        None => 0x1_0000_0000_0000_0000,
    }
}

spec fn total_weight(s: Seq<Option<u64>>) -> nat
    decreases s.len(),
{
    if s.len() == 0 {
        0
    } else {
        total_weight(s.drop_last()) + weight(s.last())
    }
}

proof fn lemma_weight_update(s: Seq<Option<u64>>, i: int, v: Option<u64>)
    requires
        0 <= i < s.len(),
    ensures
        total_weight(s.update(i, v)) + weight(s[i]) == total_weight(s) + weight(v),
    decreases s.len(),
{
    if i < s.len() - 1 {
        lemma_weight_update(s.drop_last(), i, v);
        assert(s.update(i, v).drop_last() =~= s.drop_last().update(i, v));
    } else {
        assert(s.update(i, v).drop_last() =~= s.drop_last());
    }
}

impl DistanceMap {
    /// The distance recorded for node `n` of `paths`.
    pub closed spec fn dist_of(&self, paths: Paths, n: Node) -> Option<u64> {
        if paths.known(n) && paths.id(n) < self.dist@.len() {
            self.dist@[paths.id(n)]
        } else {
            None
        }
    }

    /// The distance from `(pos, vertical_state)`, if it reaches the target.
    pub fn get(&self, paths: &Paths, pos: TilePos, vertical_state: VerticalState, level: &Level, properties: &Properties) -> (r: Option<u64>)
        requires
            paths.wf(*level, *properties),
        ensures
            r == self.dist_of(*paths, (pos, vertical_state)),
    {
        match paths.id_of((pos, vertical_state), level, Ghost(*properties)) {
            Some(id) => if id < self.dist.len() {
                self.dist[id]
            } else {
                None
            },
            None => None,
        }
    }
}

/// Each recorded distance is the cost of some walk to the target.
spec fn sound(paths: Paths, dist: Seq<Option<u64>>, tpos: TilePos) -> bool {
    forall|i: int|
        0 <= i < dist.len() && #[trigger] dist[i] is Some ==> exists|w: Seq<Move>|
            is_walk(paths, paths.nodes@[i], w, tpos) && walk_cost(w) == dist[i]->0
}

proof fn lemma_walk_extend(paths: Paths, level: Level, p: Properties, m: Move, w: Seq<Move>, tpos: TilePos)
    requires
        paths.wf(level, p),
        paths.out(source(m)).contains(m),
        is_walk(paths, target(m), w, tpos),
    ensures
        is_walk(paths, source(m), seq![m].add(w), tpos),
        walk_cost(seq![m].add(w)) == m.ticks + walk_cost(w),
{
    let w2 = seq![m].add(w);
    assert(w2.drop_first() =~= w);
    assert(w2[0] == m);
}

/// Ticks from every node of `paths` to tile `target_pos`: the least total of
/// the moves of any walk there, and nothing for nodes that cannot get there.
/// Totals that do not fit in 64 bits are not considered.
pub fn build_all_paths(target_pos: TilePos, paths: &Paths, level: &Level, properties: &Properties) -> (r: DistanceMap)
    requires
        paths.wf(*level, *properties),
    ensures
        forall|n: Node| #[trigger] r.dist_of(*paths, n) is Some ==> exists|w: Seq<Move>|
            is_walk(*paths, n, w, target_pos) && walk_cost(w) == r.dist_of(*paths, n)->0,
        forall|n: Node, w: Seq<Move>|
            #[trigger] is_walk(*paths, n, w, target_pos) && walk_cost(w) < 0x1_0000_0000_0000_0000 ==> {
                &&& r.dist_of(*paths, n) is Some
                &&& r.dist_of(*paths, n)->0 <= walk_cost(w)
            },
{
    let ghost level_g = *level;
    let ghost p = *properties;
    let n_nodes = paths.nodes.len();
    let mut dist: Vec<Option<u64>> = Vec::new();
    let mut i: usize = 0;
    while i < n_nodes
        invariant
            i <= n_nodes == paths.nodes@.len(),
            dist@.len() == i,
            forall|k: int| 0 <= k < i ==> #[trigger] dist@[k] == if paths.nodes@[k].0 == target_pos {
                Some(0u64)
            } else {
                None
            },
        decreases n_nodes - i,
    {
        let pos = paths.nodes[i].0;
        if pos.0 == target_pos.0 && pos.1 == target_pos.1 {
            dist.push(Some(0));
        } else {
            dist.push(None);
        }
        i = i + 1;
    }
    proof {
        assert forall|k: int| 0 <= k < dist@.len() && #[trigger] dist@[k] is Some implies exists|w: Seq<Move>|
            is_walk(*paths, paths.nodes@[k], w, target_pos) && walk_cost(w) == dist@[k]->0 by {
            let w = Seq::<Move>::empty();
            assert(node_ok(level_g, paths.nodes@[k]));
            assert(paths.known(paths.nodes@[k]));
            assert(dist@[k] == Some(0u64));
            assert(paths.nodes@[k].0 == target_pos);
            assert(walk_cost(w) == 0);
            assert(is_walk(*paths, paths.nodes@[k], w, target_pos));
        }
    }
    let mut changed = true;
    while changed
        invariant
            paths.wf(level_g, p),
            level_g == *level,
            p == *properties,
            dist@.len() == n_nodes == paths.nodes@.len(),
            sound(*paths, dist@, target_pos),
            forall|k: int| 0 <= k < n_nodes && paths.nodes@[k].0 == target_pos ==> #[trigger] dist@[k] == Some(0u64),
            !changed ==> forall|j: int, m: Move|
                0 <= j < n_nodes && dist@[j] is Some && #[trigger] paths.incoming@[j]@.contains(m)
                    && dist@[j]->0 + m.ticks < 0x1_0000_0000_0000_0000 ==> {
                        &&& dist@[paths.id(source(m))] is Some
                        &&& dist@[paths.id(source(m))]->0 <= dist@[j]->0 + m.ticks
                    },
        decreases total_weight(dist@) + if changed { 1int } else { 0 },
    {
        changed = false;
        let ghost start = dist@;
        let mut j: usize = 0;
        while j < n_nodes
            invariant
                paths.wf(level_g, p),
                level_g == *level,
                p == *properties,
                j <= n_nodes,
                dist@.len() == n_nodes == paths.nodes@.len(),
                sound(*paths, dist@, target_pos),
                forall|k: int| 0 <= k < n_nodes && paths.nodes@[k].0 == target_pos ==> #[trigger] dist@[k] == Some(0u64),
                changed ==> total_weight(dist@) < total_weight(start),
                !changed ==> dist@ == start,
                !changed ==> forall|j2: int, m: Move|
                    0 <= j2 < j && dist@[j2] is Some && #[trigger] paths.incoming@[j2]@.contains(m)
                        && dist@[j2]->0 + m.ticks < 0x1_0000_0000_0000_0000 ==> {
                            &&& dist@[paths.id(source(m))] is Some
                            &&& dist@[paths.id(source(m))]->0 <= dist@[j2]->0 + m.ticks
                        },
            decreases n_nodes - j,
        {
            if let Some(dj) = dist[j] {
                let incoming = &paths.incoming[j];
                let mut e: usize = 0;
                while e < incoming.len()
                    invariant
                        paths.wf(level_g, p),
                        level_g == *level,
                        p == *properties,
                        j < n_nodes,
                        e <= incoming@.len(),
                        incoming@ == paths.incoming@[j as int]@,
                        dist@.len() == n_nodes == paths.nodes@.len(),
                        dist@[j as int] == Some(dj),
                        sound(*paths, dist@, target_pos),
                        forall|k: int| 0 <= k < n_nodes && paths.nodes@[k].0 == target_pos ==> #[trigger] dist@[k] == Some(0u64),
                        changed ==> total_weight(dist@) < total_weight(start),
                        !changed ==> dist@ == start,
                        !changed ==> forall|j2: int, m: Move|
                            0 <= j2 < j && dist@[j2] is Some && #[trigger] paths.incoming@[j2]@.contains(m)
                                && dist@[j2]->0 + m.ticks < 0x1_0000_0000_0000_0000 ==> {
                                    &&& dist@[paths.id(source(m))] is Some
                                    &&& dist@[paths.id(source(m))]->0 <= dist@[j2]->0 + m.ticks
                                },
                        !changed ==> forall|e2: int|
                            0 <= e2 < e && dj + incoming@[e2].ticks < 0x1_0000_0000_0000_0000 ==> {
                                &&& dist@[paths.id(source(incoming@[e2]))] is Some
                                &&& dist@[paths.id(source(incoming@[e2]))]->0 <= dj + incoming@[e2].ticks
                            },
                    decreases incoming@.len() - e,
                {
                    let m = incoming[e];
                    proof {
                        assert(incoming@.contains(m));
                        assert(paths.known(source(m)));
                        assert(paths.outgoing@[paths.id(source(m))]@.contains(m));
                        assert(target(m) == paths.nodes@[j as int]);
                    }
                    let si = paths.id_of((m.pos1, m.vertical_state1), level, Ghost(p)).unwrap();
                    proof {
                        assert(paths.out(source(m)).contains(m));
                        assert(m.ticks >= 0) by {
                            lemma_graph_legality(*paths, level_g, p, source(m), m);
                            let c = choose|c: int| 0 <= c < movement_catalog().len() && #[trigger] movement_catalog()[c].result(level_g, p, source(m).0, source(m).1) == Some(m);
                            lemma_costs_positive(p, c);
                            let k = movement_catalog()[c];
                            assert(k.legal(level_g, source(m).0.0 as int, source(m).0.1 as int, source(m).1));
                            assert(m.ticks == k.cost(p) as i32);
                        }
                    }
                    if m.ticks >= 0 && dj <= u64::MAX - m.ticks as u64 {
                        let nd = dj + m.ticks as u64;
                        let better = match dist[si] {
                            Some(ds) => nd < ds,
                            None => true,
                        };
                        if better {
                            proof {
                                lemma_weight_update(dist@, si as int, Some(nd));
                                // a walk from the target of m extends by m
                                let w = choose|w: Seq<Move>| is_walk(*paths, paths.nodes@[j as int], w, target_pos) && walk_cost(w) == dj;
                                lemma_walk_extend(*paths, level_g, p, m, w, target_pos);
                                assert(paths.nodes@[si as int] == source(m));
                            }
                            let ghost before = dist@;
                            dist.set(si, Some(nd));
                            changed = true;
                            proof {
                                assert forall|k: int| 0 <= k < dist@.len() && #[trigger] dist@[k] is Some implies exists|w: Seq<Move>|
                                    is_walk(*paths, paths.nodes@[k], w, target_pos) && walk_cost(w) == dist@[k]->0 by {
                                    if k != si {
                                        assert(before[k] is Some);
                                    } else {
                                        let w = choose|w: Seq<Move>| is_walk(*paths, paths.nodes@[j as int], w, target_pos) && walk_cost(w) == dj;
                                        assert(is_walk(*paths, paths.nodes@[k], seq![m].add(w), target_pos));
                                    }
                                }
                                if paths.nodes@[si as int].0 == target_pos {
                                    assert(before[si as int] == Some(0u64));
                                }
                            }
                        }
                    }
                    e = e + 1;
                }
                proof {
                    if !changed {
                        assert forall|j2: int, m: Move|
                            0 <= j2 < j + 1 && dist@[j2] is Some && #[trigger] paths.incoming@[j2]@.contains(m)
                                && dist@[j2]->0 + m.ticks < 0x1_0000_0000_0000_0000 implies {
                                    &&& dist@[paths.id(source(m))] is Some
                                    &&& dist@[paths.id(source(m))]->0 <= dist@[j2]->0 + m.ticks
                                } by {
                            if j2 == j {
                                let e2 = choose|e2: int| 0 <= e2 < incoming@.len() && incoming@[e2] == m;
                            }
                        }
                    }
                }
            }
            j = j + 1;
        }
    }
    let r = DistanceMap { dist };
    proof {
        assert forall|n: Node| #[trigger] r.dist_of(*paths, n) is Some implies exists|w: Seq<Move>|
            is_walk(*paths, n, w, target_pos) && walk_cost(w) == r.dist_of(*paths, n)->0 by {
            assert(r.dist@[paths.id(n)] is Some);
        }
        assert forall|n: Node, w: Seq<Move>|
            #[trigger] is_walk(*paths, n, w, target_pos) && walk_cost(w) < 0x1_0000_0000_0000_0000 implies {
                &&& r.dist_of(*paths, n) is Some
                &&& r.dist_of(*paths, n)->0 <= walk_cost(w)
            } by {
            lemma_fixpoint_optimal(*paths, level_g, p, r.dist@, target_pos, n, w);
        }
    }
    r
}

/// Every move of the catalog takes at least one tick.
pub(crate) proof fn lemma_costs_positive(p: Properties, c: int)
    requires
        p.wf(),
        0 <= c < movement_catalog().len(),
    ensures
        1 <= movement_catalog()[c].cost(p) <= 0x7FFF_FFFF,
{
    let tps = p.ticks_per_second;
    lemma_one_axis_bounds(tps, p.unit_max_horizontal_speed);
    lemma_one_axis_bounds(tps, p.unit_jump_speed);
    lemma_one_axis_bounds(tps, p.unit_fall_speed);
    lemma_one_axis_bounds(tps, p.jump_pad_jump_speed);
    lemma_one_axis_bounds((2 * tps) as u64, p.jump_pad_jump_speed);
    lemma_two_axis_bounds(tps, p.unit_max_horizontal_speed, p.unit_fall_speed);
    lemma_two_axis_bounds(tps, p.unit_max_horizontal_speed, p.unit_jump_speed);
    lemma_two_axis_bounds(tps, p.unit_max_horizontal_speed, p.jump_pad_jump_speed);
}

/// At a fixed point of relaxation, no walk is shorter than the recorded
/// distance of its start.
proof fn lemma_fixpoint_optimal(
    paths: Paths,
    level: Level,
    p: Properties,
    dist: Seq<Option<u64>>,
    tpos: TilePos,
    n: Node,
    w: Seq<Move>,
)
    requires
        paths.wf(level, p),
        dist.len() == paths.nodes@.len(),
        forall|k: int| 0 <= k < dist.len() && paths.nodes@[k].0 == tpos ==> #[trigger] dist[k] == Some(0u64),
        forall|j: int, m: Move|
            0 <= j < dist.len() && dist[j] is Some && #[trigger] paths.incoming@[j]@.contains(m)
                && dist[j]->0 + m.ticks < 0x1_0000_0000_0000_0000 ==> {
                    &&& dist[paths.id(source(m))] is Some
                    &&& dist[paths.id(source(m))]->0 <= dist[j]->0 + m.ticks
                },
        is_walk(paths, n, w, tpos),
        walk_cost(w) < 0x1_0000_0000_0000_0000,
    ensures
        paths.known(n),
        dist[paths.id(n)] is Some,
        dist[paths.id(n)]->0 <= walk_cost(w),
    decreases w.len(),
{
    if w.len() == 0 {
        assert(paths.nodes@[paths.id(n)] == n);
    } else {
        let m = w[0];
        let rest = w.drop_first();
        lemma_graph_legality(paths, level, p, n, m);
        let c = choose|c: int|
            0 <= c < movement_catalog().len() && #[trigger] movement_catalog()[c].result(level, p, n.0, n.1) == Some(m);
        lemma_costs_positive(p, c);
        lemma_fixpoint_optimal(paths, level, p, dist, tpos, target(m), rest);
        lemma_graph_legality(paths, level, p, target(m), m);
        let j = paths.id(target(m));
        assert(paths.inc(target(m)).contains(m));
        assert(paths.incoming@[j]@.contains(m));
    }
}

/// A graph over `level` and `p` holds only nodes of the grid, and both are
/// well formed.
pub proof fn lemma_graph_nodes_ok(paths: Paths, level: Level, p: Properties, n: Node)
    requires
        paths.wf(level, p),
    ensures
        level.wf(),
        p.wf(),
        paths.known(n) ==> node_ok(level, n),
        !paths.known(n) ==> paths.out(n).len() == 0 && paths.inc(n).len() == 0,
{
    if paths.known(n) {
        assert(node_ok(level, paths.nodes@[paths.id(n)]));
    }
}

} // verus!
