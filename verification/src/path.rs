//! Path finding on the tile grid (A* over the four neighbours of a tile).

use vstd::prelude::*;
use crate::types::{Pos, TileKind};
use crate::world::{World, lookup};

verus! {

/// `a` and `b` share a side.
pub open spec fn adjacent(a: Pos, b: Pos) -> bool {
    ||| a.x == b.x && (a.y - b.y == 1 || b.y - a.y == 1)
    ||| a.y == b.y && (a.x - b.x == 1 || b.x - a.x == 1)
}

/// Cost of stepping onto `p`: water cannot be entered, a road costs 1,
/// grass 4 and forest 7.
pub open spec fn step_cost(w: World, p: Pos) -> Option<int> {
    match w.tile_at(p) {
        TileKind::Water => None,
        TileKind::Grass => Some(if w.road_at(p) { 1 } else { 4 }),
        TileKind::Forest => Some(if w.road_at(p) { 1 } else { 7 }),
    }
}

/// `path` leads from `start` to `goal` through side-adjacent tiles, every
/// tile after the first one enterable.
pub open spec fn is_walk(w: World, path: Seq<Pos>, start: Pos, goal: Pos) -> bool {
    &&& path.len() >= 1
    &&& path[0] == start
    &&& path.last() == goal
    &&& forall|i: int| 1 <= i < path.len() ==> adjacent(path[i - 1], #[trigger] path[i]) && step_cost(w, path[i]) is Some
}

/// Manhattan-distance estimate.
pub fn heuristic(a: Pos, b: Pos) -> (d: i64)
    ensures
        d == crate::types::manhattan(a, b),
{
    crate::types::manhattan_distance(a, b)
}

/// What entering a tile costs: water cannot be entered; a land tile with a
/// road costs 1 whatever its terrain; without a road grass costs 4 and
/// forest 7. So a road tile is the cheapest tile there is, and no tile costs
/// more than road-free forest.
pub proof fn lemma_step_costs(w: World, p: Pos)
    ensures
        w.tile_at(p) == TileKind::Water <==> step_cost(w, p) is None,
        w.tile_at(p) != TileKind::Water && w.road_at(p) ==> step_cost(w, p) == Some(1int),
        w.tile_at(p) == TileKind::Grass && !w.road_at(p) ==> step_cost(w, p) == Some(4int),
        w.tile_at(p) == TileKind::Forest && !w.road_at(p) ==> step_cost(w, p) == Some(7int),
        step_cost(w, p) matches Some(c) ==> 1 <= c <= 7,
{
}

/// Cost of stepping onto `p`.
pub fn tile_cost(world: &World, p: Pos) -> (r: Option<i32>)
    ensures
        r matches Some(c) ==> step_cost(*world, p) == Some(c as int) && 1 <= c <= 7,
        r is None <==> step_cost(*world, p) is None,
{
    match world.get_tile(p.x, p.y) {
        TileKind::Water => None,
        TileKind::Grass => Some(if world.is_road(p) { 1 } else { 4 }),
        TileKind::Forest => Some(if world.is_road(p) { 1 } else { 7 }),
    }
}

/// What entering `p` costs; nothing for water, which no walk enters.
pub open spec fn enter_cost(w: World, p: Pos) -> int {
    match step_cost(w, p) {
        Some(c) => c,
        None => 0,
    }
}

/// What a walk costs: the sum of entering each tile after the first.
pub open spec fn walk_cost(w: World, path: Seq<Pos>) -> int
    decreases path.len(),
{
    if path.len() <= 1 {
        0
    } else {
        walk_cost(w, path.drop_last()) + enter_cost(w, path.last())
    }
}

/// `path` is a walk from `start` to `goal` and no such walk costs less.
pub open spec fn is_cheapest_walk(w: World, path: Seq<Pos>, start: Pos, goal: Pos) -> bool {
    &&& is_walk(w, path, start, goal)
    &&& forall|q: Seq<Pos>| #[trigger] is_walk(w, q, start, goal) ==> walk_cost(w, path) <= walk_cost(w, q)
}

/// The positions the map has a terrain entry for.
pub open spec fn listed_positions(w: World) -> Set<Pos> {
    w.tiles@.map_values(|e: (Pos, TileKind)| e.0).to_set()
}

/// The tiles a walk can enter: the positions with land terrain.
pub open spec fn enterable_positions(w: World) -> Set<Pos> {
    listed_positions(w).filter(|p: Pos| step_cost(w, p) is Some)
}

/// How many tiles a walk can enter.
pub open spec fn enterable_count(w: World) -> nat {
    enterable_positions(w).len()
}

/// What the path search promises of its result `r` between `start` and
/// `goal` with a budget of `budget` expansions: `[start]` when the two
/// coincide; otherwise a walk or nothing, nothing when the goal is water;
/// and, when the budget exceeds the number of enterable tiles, a cheapest
/// walk, with nothing only when no walk exists.
pub open spec fn search_outcome(w: World, start: Pos, goal: Pos, budget: int, r: Option<Seq<Pos>>) -> bool {
    &&& start == goal ==> r == Some(seq![start])
    &&& r matches Some(p) ==> is_walk(w, p, start, goal)
    &&& start != goal && step_cost(w, goal) is None ==> r is None
    &&& budget > enterable_count(w) ==> (r matches Some(p) ==> is_cheapest_walk(w, p, start, goal))
    &&& budget > enterable_count(w) ==> (r is None ==> forall|q: Seq<Pos>| !is_walk(w, q, start, goal))
}

/// The view of a search result.
pub open spec fn path_view(r: Option<Vec<Pos>>) -> Option<Seq<Pos>> {
    match r {
        Some(p) => Some(p@),
        None => None,
    }
}

proof fn lemma_lookup_listed<V>(s: Seq<(Pos, V)>, p: Pos)
    requires
        lookup(s, p) is Some,
    ensures
        s.map_values(|e: (Pos, V)| e.0).contains(p),
    decreases s.len(),
{
    let m = s.map_values(|e: (Pos, V)| e.0);
    if s.last().0 == p {
        assert(m[s.len() - 1] == p);
    } else {
        lemma_lookup_listed(s.drop_last(), p);
        let m0 = s.drop_last().map_values(|e: (Pos, V)| e.0);
        let i = choose|i: int| 0 <= i < m0.len() && m0[i] == p;
        assert(m[i] == m0[i]);
    }
}

/// An enterable tile has a terrain entry.
proof fn lemma_enterable_is_listed(w: World, p: Pos)
    requires
        step_cost(w, p) is Some,
    ensures
        listed_positions(w).contains(p),
        enterable_positions(w).contains(p),
{
    lemma_lookup_listed(w.tiles@, p);
}

/// No more distinct tiles have terrain entries than there are entries.
proof fn lemma_listed_count(w: World)
    ensures
        listed_positions(w).finite(),
        listed_positions(w).len() <= w.tiles@.len(),
        enterable_positions(w).finite(),
        enterable_count(w) <= w.tiles@.len(),
{
    let m = w.tiles@.map_values(|e: (Pos, TileKind)| e.0);
    m.lemma_cardinality_of_set();
    vstd::seq_lib::seq_to_set_is_finite(m);
    vstd::set_lib::lemma_len_subset(enterable_positions(w), listed_positions(w));
}

proof fn lemma_walk_cost_nonneg(w: World, q: Seq<Pos>)
    ensures
        walk_cost(w, q) >= 0,
    decreases q.len(),
{
    if q.len() > 1 {
        lemma_walk_cost_nonneg(w, q.drop_last());
    }
}

/// The prefix of a walk up to its `k`-th tile is a walk to that tile, and
/// one tile more costs what entering it costs.
proof fn lemma_walk_prefix(w: World, q: Seq<Pos>, start: Pos, goal: Pos, k: int)
    requires
        is_walk(w, q, start, goal),
        1 <= k <= q.len(),
    ensures
        is_walk(w, q.take(k), start, q[k - 1]),
        k < q.len() ==> walk_cost(w, q.take(k + 1)) == walk_cost(w, q.take(k)) + enter_cost(w, q[k]),
{
    let t = q.take(k);
    assert forall|i: int| 1 <= i < t.len() implies adjacent(t[i - 1], #[trigger] t[i]) && step_cost(w, t[i]) is Some by {
        assert(t[i] == q[i]);
        assert(t[i - 1] == q[i - 1]);
    }
    if k < q.len() {
        assert(q.take(k + 1).drop_last() =~= t);
        assert(q.take(k + 1).last() == q[k]);
    }
}

/// Along a walk, the cost so far plus the distance left to `goal` never
/// drops: a step costs at least one and moves one tile.
proof fn lemma_cost_covers_distance(w: World, q: Seq<Pos>, start: Pos, goal: Pos, target: Pos, k: int, m: int)
    requires
        is_walk(w, q, start, target),
        0 <= k < m <= q.len(),
    ensures
        walk_cost(w, q.take(m)) + crate::types::manhattan(q[m - 1], goal) >= walk_cost(w, q.take(k + 1))
            + crate::types::manhattan(q[k], goal),
    decreases m - k,
{
    if m > k + 1 {
        lemma_cost_covers_distance(w, q, start, goal, target, k, m - 1);
        lemma_walk_prefix(w, q, start, target, m - 1);
        assert(adjacent(q[m - 2], q[m - 1]) && step_cost(w, q[m - 1]) is Some);
    }
}

/// `n` is a known tile whose recorded cost is at most `bound`.
spec fn known_within(nodes: Seq<Pos>, g: Seq<i128>, n: Pos, bound: int) -> bool {
    exists|j: int| 0 <= j < nodes.len() && j < g.len() && #[trigger] nodes[j] == n && g[j] <= bound
}

/// `p` is a known tile that has been expanded.
spec fn closed_at(nodes: Seq<Pos>, closed: Seq<bool>, p: Pos) -> bool {
    exists|i: int| 0 <= i < nodes.len() && i < closed.len() && #[trigger] nodes[i] == p && closed[i]
}

/// Search state: discovered tiles, their best known cost, the tile they were
/// reached from, and whether they have been expanded. The four are parallel
/// vectors indexed by discovery order, not a priority queue and maps keyed by
/// tile: a tile's entry then never moves, so the back-pointers in `prev` are
/// plain indices and the proofs (every known tile is reached by a walk that
/// costs its score; the expanded tiles form the cheapest frontier) speak of
/// sequences. The open tile to expand next is found by a scan: the one with
/// the lowest score, on ties the one further east.
struct Search {
    nodes: Vec<Pos>,
    g: Vec<i128>,
    prev: Vec<usize>,
    closed: Vec<bool>,
}

impl Search {
    spec fn wf(&self, w: World, start: Pos) -> bool {
        &&& self.nodes.len() >= 1
        &&& self.g.len() == self.nodes.len()
        &&& self.prev.len() == self.nodes.len()
        &&& self.closed.len() == self.nodes.len()
        &&& self.nodes@[0] == start
        &&& forall|i: int| 0 <= i < self.prev.len() ==> #[trigger] self.prev@[i] < self.nodes.len()
        &&& forall|i: int|
            1 <= i < self.nodes.len() ==> adjacent(self.nodes@[self.prev@[i] as int], #[trigger] self.nodes@[i])
                && step_cost(w, self.nodes@[i]) is Some
    }

    spec fn distinct(&self) -> bool {
        forall|i: int, j: int| 0 <= i < j < self.nodes.len() ==> self.nodes@[i] != self.nodes@[j]
    }

    /// Each cost is that of the tile it was reached from, which has been
    /// expanded, plus entering the tile.
    spec fn costs(&self, w: World) -> bool {
        &&& self.g@[0] == 0
        &&& forall|i: int| 0 <= i < self.g.len() ==> 0 <= #[trigger] self.g@[i] <= 7 * self.nodes.len()
        &&& forall|i: int|
            #![trigger self.g@[i]]
            #![trigger self.prev@[i]]
            1 <= i < self.nodes.len() ==> self.closed@[self.prev@[i] as int] && self.g@[i] == self.g@[self.prev@[i] as int]
                + enter_cost(w, self.nodes@[i])
    }

    /// Expanded tiles carry the cost of a cheapest walk.
    spec fn settled(&self, w: World, start: Pos) -> bool {
        forall|i: int, q: Seq<Pos>|
            #![trigger self.g@[i], is_walk(w, q, start, self.nodes@[i])]
            0 <= i < self.nodes.len() && self.closed@[i] && is_walk(w, q, start, self.nodes@[i]) ==> self.g@[i]
                <= walk_cost(w, q)
    }

    /// Every enterable neighbour of tile `c` is known, at most one step dearer.
    spec fn reached_from(&self, w: World, c: int) -> bool {
        forall|n: Pos|
            #[trigger] adjacent(self.nodes@[c], n) && step_cost(w, n) is Some ==> known_within(
                self.nodes@,
                self.g@,
                n,
                self.g@[c] + enter_cost(w, n),
            )
    }

    /// Every expanded tile but `skip` has had its neighbours offered.
    spec fn frontier(&self, w: World, skip: int) -> bool {
        forall|c: int| 0 <= c < self.nodes.len() && self.closed@[c] && c != skip ==> #[trigger] self.reached_from(w, c)
    }

    spec fn inv(&self, w: World, start: Pos, goal: Pos, skip: int) -> bool {
        &&& self.wf(w, start)
        &&& self.distinct()
        &&& self.costs(w)
        &&& self.settled(w, start)
        &&& self.frontier(w, skip)
        &&& forall|i: int| 0 <= i < self.nodes.len() && #[trigger] self.closed@[i] ==> self.nodes@[i] != goal
    }
}

/// `s2` grew from `s1`: known tiles keep their place and expansion, expanded
/// tiles keep their cost, the others only get cheaper, and new tiles are open.
spec fn grew(s1: Search, s2: Search) -> bool {
    &&& s2.nodes.len() >= s1.nodes.len()
    &&& s2.g.len() == s2.nodes.len()
    &&& s2.closed.len() == s2.nodes.len()
    &&& forall|i: int|
        #![trigger s2.nodes@[i]]
        #![trigger s2.closed@[i]]
        #![trigger s2.g@[i]]
        0 <= i < s1.nodes.len() ==> s2.nodes@[i] == s1.nodes@[i] && s2.closed@[i] == s1.closed@[i] && s2.g@[i] <= s1.g@[i] && (
        s1.closed@[i] ==> s2.g@[i] == s1.g@[i])
    &&& forall|i: int| #![trigger s2.closed@[i]] s1.nodes.len() <= i < s2.nodes.len() ==> !s2.closed@[i]
}

/// Following the recorded predecessors from tile `i` back to the start is a
/// walk costing `g[i]`.
proof fn lemma_chain_walk(w: World, s: Search, start: Pos, i: int) -> (q: Seq<Pos>)
    requires
        s.wf(w, start),
        s.costs(w),
        0 <= i < s.nodes.len(),
    ensures
        is_walk(w, q, start, s.nodes@[i]),
        walk_cost(w, q) == s.g@[i],
    decreases s.g@[i],
{
    if i == 0 {
        seq![start]
    } else {
        let p = s.prev@[i] as int;
        assert(s.g@[i] == s.g@[p] + enter_cost(w, s.nodes@[i]));
        assert(0 <= s.g@[p]);
        let q0 = lemma_chain_walk(w, s, start, p);
        let q = q0.push(s.nodes@[i]);
        assert(q.drop_last() =~= q0);
        assert forall|k: int| 1 <= k < q.len() implies adjacent(q[k - 1], #[trigger] q[k]) && step_cost(w, q[k]) is Some by {
            if k < q.len() - 1 {
                assert(q[k] == q0[k]);
                assert(q[k - 1] == q0[k - 1]);
            } else {
                assert(q[k - 1] == q0.last());
            }
        }
        q
    }
}

/// The first tile of `q` from `k0` on that has not been expanded.
proof fn lemma_first_open(nodes: Seq<Pos>, closed: Seq<bool>, q: Seq<Pos>, k0: int) -> (k: int)
    requires
        0 <= k0 < q.len(),
        !closed_at(nodes, closed, q.last()),
        forall|j: int| 0 <= j < k0 ==> closed_at(nodes, closed, #[trigger] q[j]),
    ensures
        k0 <= k < q.len(),
        !closed_at(nodes, closed, q[k]),
        forall|j: int| 0 <= j < k ==> closed_at(nodes, closed, #[trigger] q[j]),
    decreases q.len() - k0,
{
    if !closed_at(nodes, closed, q[k0]) {
        k0
    } else {
        lemma_first_open(nodes, closed, q, k0 + 1)
    }
}

/// An open tile whose estimate is the lowest among the open tiles carries
/// the cost of a cheapest walk.
proof fn lemma_selected_is_cheapest(w: World, s: Search, start: Pos, goal: Pos, b: int, q: Seq<Pos>)
    requires
        s.inv(w, start, goal, -1),
        0 <= b < s.nodes.len(),
        !s.closed@[b],
        forall|i: int|
            0 <= i < s.nodes.len() && !s.closed@[i] ==> s.g@[b] + crate::types::manhattan(s.nodes@[b], goal)
                <= #[trigger] s.g@[i] + crate::types::manhattan(s.nodes@[i], goal),
        is_walk(w, q, start, s.nodes@[b]),
    ensures
        s.g@[b] <= walk_cost(w, q),
{
    let nodes = s.nodes@;
    let closed = s.closed@;
    if closed_at(nodes, closed, q.last()) {
        let i = choose|i: int| 0 <= i < nodes.len() && i < closed.len() && #[trigger] nodes[i] == q.last() && closed[i];
        assert(i != b);
    }
    let k = lemma_first_open(nodes, closed, q, 0);
    assert(q.take(q.len() as int) =~= q);
    if k == 0 {
        assert(q[0] == nodes[0]);
        assert(!closed[0]);
        assert(s.g@[0] == 0);
        assert(q.take(1).len() == 1);
        lemma_cost_covers_distance(w, q, start, goal, s.nodes@[b], 0, q.len() as int);
        assert(s.g@[b] + crate::types::manhattan(s.nodes@[b], goal) <= s.g@[0] + crate::types::manhattan(nodes[0], goal));
    } else {
        let c = choose|i: int| 0 <= i < nodes.len() && i < closed.len() && #[trigger] nodes[i] == q[k - 1] && closed[i];
        assert(s.reached_from(w, c));
        lemma_walk_prefix(w, q, start, s.nodes@[b], k);
        assert(adjacent(q[k - 1], q[k]) && step_cost(w, q[k]) is Some);
        assert(adjacent(s.nodes@[c], q[k]));
        assert(known_within(nodes, s.g@, q[k], s.g@[c] + enter_cost(w, q[k])));
        let j = choose|j: int| 0 <= j < nodes.len() && j < s.g@.len() && #[trigger] nodes[j] == q[k] && s.g@[j] <= s.g@[c]
            + enter_cost(w, q[k]);
        assert(!closed[j]);
        assert(is_walk(w, q.take(k), start, s.nodes@[c]));
        assert(s.g@[c] <= walk_cost(w, q.take(k)));
        lemma_cost_covers_distance(w, q, start, goal, s.nodes@[b], k, q.len() as int);
        assert(s.g@[b] + crate::types::manhattan(s.nodes@[b], goal) <= s.g@[j] + crate::types::manhattan(nodes[j], goal));
    }
}

/// With no open tile left, no walk reaches a tile that was never expanded.
proof fn lemma_exhausted(w: World, s: Search, start: Pos, goal: Pos, q: Seq<Pos>)
    requires
        s.inv(w, start, goal, -1),
        forall|i: int| 0 <= i < s.nodes.len() ==> #[trigger] s.closed@[i],
    ensures
        !is_walk(w, q, start, goal),
{
    if is_walk(w, q, start, goal) {
        let nodes = s.nodes@;
        let closed = s.closed@;
        if closed_at(nodes, closed, q.last()) {
            let i = choose|i: int| 0 <= i < nodes.len() && i < closed.len() && #[trigger] nodes[i] == q.last() && closed[i];
            assert(nodes[i] != goal);
        }
        let k = lemma_first_open(nodes, closed, q, 0);
        if k == 0 {
            assert(nodes[0] == q[0] && closed[0]);
        } else {
            let c = choose|i: int| 0 <= i < nodes.len() && i < closed.len() && #[trigger] nodes[i] == q[k - 1] && closed[i];
            assert(s.reached_from(w, c));
            assert(adjacent(q[k - 1], q[k]) && step_cost(w, q[k]) is Some);
            assert(adjacent(s.nodes@[c], q[k]));
            let j = choose|j: int| 0 <= j < nodes.len() && j < s.g@.len() && #[trigger] nodes[j] == q[k] && s.g@[j] <= s.g@[c]
                + enter_cost(w, q[k]);
            assert(closed[j]);
        }
    }
}

fn find_node(nodes: &Vec<Pos>, p: Pos) -> (r: Option<usize>)
    ensures
        r matches Some(i) ==> i < nodes.len() && nodes@[i as int] == p,
        r is None ==> forall|i: int| 0 <= i < nodes.len() ==> nodes@[i] != p,
{
    let mut i: usize = 0;
    while i < nodes.len()
        invariant
            i <= nodes.len(),
            forall|j: int| 0 <= j < i ==> nodes@[j] != p,
        decreases nodes.len() - i,
    {
        if nodes[i] == p {
            return Some(i);
        }
        i += 1;
    }
    None
}

/// The walk to the expanded tile `b` followed by a step onto `np` costs
/// `g[b]` plus entering `np`, and no expanded tile on `np` costs more.
proof fn lemma_step_walk(w: World, s: Search, start: Pos, goal: Pos, b: int, np: Pos)
    requires
        s.inv(w, start, goal, b),
        0 <= b < s.nodes.len(),
        s.closed@[b],
        adjacent(s.nodes@[b], np),
        step_cost(w, np) is Some,
    ensures
        forall|j: int| 0 <= j < s.nodes.len() && s.closed@[j] && s.nodes@[j] == np ==> s.g@[j] <= s.g@[b] + enter_cost(w, np),
{
    let q = lemma_chain_walk(w, s, start, b);
    let q2 = q.push(np);
    assert(q2.drop_last() =~= q);
    assert forall|k: int| 1 <= k < q2.len() implies adjacent(q2[k - 1], #[trigger] q2[k]) && step_cost(w, q2[k]) is Some by {
        if k < q2.len() - 1 {
            assert(q2[k] == q[k]);
            assert(q2[k - 1] == q[k - 1]);
        } else {
            assert(q2[k - 1] == q.last());
        }
    }
    assert forall|j: int| 0 <= j < s.nodes.len() && s.closed@[j] && s.nodes@[j] == np implies s.g@[j] <= s.g@[b]
        + enter_cost(w, np) by {
        assert(is_walk(w, q2, start, s.nodes@[j]));
    }
}

/// Lowering the cost of the open tile `j` to `t`, reached from `b`, keeps
/// the search's invariant.
proof fn lemma_relax_update(w: World, s0: Search, s: Search, start: Pos, goal: Pos, b: int, j: int, t: int)
    requires
        s0.inv(w, start, goal, b),
        0 <= b < s0.nodes.len(),
        s0.closed@[b],
        0 < j < s0.nodes.len(),
        !s0.closed@[j],
        t == s0.g@[b] + enter_cost(w, s0.nodes@[j]),
        t < s0.g@[j],
        adjacent(s0.nodes@[b], s0.nodes@[j]),
        s.nodes@ == s0.nodes@,
        s.closed@ == s0.closed@,
        s.g@ == s0.g@.update(j, t as i128),
        s.prev@ == s0.prev@.update(j, b as usize),
        s.nodes.len() == s0.nodes.len(),
        s.g.len() == s0.g.len(),
        s.prev.len() == s0.prev.len(),
        s.closed.len() == s0.closed.len(),
    ensures
        s.inv(w, start, goal, b),
        grew(s0, s),
{
    assert forall|i: int| 1 <= i < s.nodes.len() implies adjacent(s.nodes@[s.prev@[i] as int], #[trigger] s.nodes@[i])
        && step_cost(w, s.nodes@[i]) is Some by {
        if i != j {
            assert(s.prev@[i] == s0.prev@[i]);
        }
    }
    assert forall|i: int| 0 <= i < s.prev.len() implies #[trigger] s.prev@[i] < s.nodes.len() by {
        if i != j {
            assert(s.prev@[i] == s0.prev@[i]);
        }
    }
    assert forall|i: int| 1 <= i < s.nodes.len() implies s.closed@[s.prev@[i] as int] && #[trigger] s.g@[i] == s.g@[s.prev@[i] as int]
        + enter_cost(w, s.nodes@[i]) by {
        if i != j {
            assert(s.prev@[i] == s0.prev@[i]);
            assert(s0.closed@[s0.prev@[i] as int]);
            assert(s0.g@[i] == s0.g@[s0.prev@[i] as int] + enter_cost(w, s0.nodes@[i]));
        }
    }
    assert forall|i: int| 0 <= i < s.g.len() implies 0 <= #[trigger] s.g@[i] <= 7 * s.nodes.len() by {
        if i != j {
            assert(s.g@[i] == s0.g@[i]);
        } else {
            assert(0 <= s0.g@[b]);
            assert(s0.g@[j] <= 7 * s0.nodes.len());
        }
    }
    assert forall|i: int, q: Seq<Pos>|
        #![trigger s.g@[i], is_walk(w, q, start, s.nodes@[i])]
        0 <= i < s.nodes.len() && s.closed@[i] && is_walk(w, q, start, s.nodes@[i]) implies s.g@[i] <= walk_cost(w, q) by {
        assert(s.g@[i] == s0.g@[i]);
        assert(s0.g@[i] <= walk_cost(w, q));
    }
    assert forall|c: int| 0 <= c < s.nodes.len() && s.closed@[c] && c != b implies #[trigger] s.reached_from(w, c) by {
        assert(s0.reached_from(w, c));
        assert forall|n: Pos| #[trigger] adjacent(s.nodes@[c], n) && step_cost(w, n) is Some implies known_within(
            s.nodes@,
            s.g@,
            n,
            s.g@[c] + enter_cost(w, n),
        ) by {
            assert(adjacent(s0.nodes@[c], n));
            let jj = choose|jj: int| 0 <= jj < s0.nodes@.len() && jj < s0.g@.len() && #[trigger] s0.nodes@[jj] == n && s0.g@[jj]
                <= s0.g@[c] + enter_cost(w, n);
            assert(s.nodes@[jj] == n);
        }
    }
    assert forall|i: int| 0 <= i < s0.nodes.len() implies #[trigger] s.nodes@[i] == s0.nodes@[i] && s.closed@[i] == s0.closed@[i]
        && s.g@[i] <= s0.g@[i] && (s0.closed@[i] ==> s.g@[i] == s0.g@[i]) by {
    }
}

/// Adding the new tile `np` at cost `t`, reached from `b`, keeps the
/// search's invariant.
proof fn lemma_relax_push(w: World, s0: Search, s: Search, start: Pos, goal: Pos, b: int, np: Pos, t: int)
    requires
        s0.inv(w, start, goal, b),
        0 <= b < s0.nodes.len(),
        s0.closed@[b],
        adjacent(s0.nodes@[b], np),
        step_cost(w, np) is Some,
        forall|i: int| 0 <= i < s0.nodes.len() ==> s0.nodes@[i] != np,
        t == s0.g@[b] + enter_cost(w, np),
        s.nodes@ == s0.nodes@.push(np),
        s.closed@ == s0.closed@.push(false),
        s.g@ == s0.g@.push(t as i128),
        s.prev@ == s0.prev@.push(b as usize),
        s.nodes.len() == s0.nodes.len() + 1,
        s.g.len() == s0.g.len() + 1,
        s.prev.len() == s0.prev.len() + 1,
        s.closed.len() == s0.closed.len() + 1,
    ensures
        s.inv(w, start, goal, b),
        grew(s0, s),
{
    let n0 = s0.nodes.len() as int;
    assert forall|i: int| 1 <= i < s.nodes.len() implies adjacent(s.nodes@[s.prev@[i] as int], #[trigger] s.nodes@[i])
        && step_cost(w, s.nodes@[i]) is Some by {
        if i < n0 {
            assert(s.prev@[i] == s0.prev@[i]);
            assert(s.nodes@[i] == s0.nodes@[i]);
            assert(s.nodes@[s0.prev@[i] as int] == s0.nodes@[s0.prev@[i] as int]);
        }
    }
    assert forall|i: int| 0 <= i < s.prev.len() implies #[trigger] s.prev@[i] < s.nodes.len() by {
        if i < n0 {
            assert(s.prev@[i] == s0.prev@[i]);
        }
    }
    assert forall|i: int, j: int| 0 <= i < j < s.nodes.len() implies s.nodes@[i] != s.nodes@[j] by {
        assert(s.nodes@[i] == s0.nodes@[i]);
        if j < n0 {
            assert(s.nodes@[j] == s0.nodes@[j]);
        }
    }
    assert forall|i: int| 1 <= i < s.nodes.len() implies s.closed@[s.prev@[i] as int] && #[trigger] s.g@[i] == s.g@[s.prev@[i] as int]
        + enter_cost(w, s.nodes@[i]) by {
        if i < n0 {
            assert(s.prev@[i] == s0.prev@[i]);
            assert(s0.closed@[s0.prev@[i] as int]);
            assert(s0.g@[i] == s0.g@[s0.prev@[i] as int] + enter_cost(w, s0.nodes@[i]));
        }
    }
    assert forall|i: int| 0 <= i < s.g.len() implies 0 <= #[trigger] s.g@[i] <= 7 * s.nodes.len() by {
        if i < n0 {
            assert(s.g@[i] == s0.g@[i]);
        } else {
            assert(0 <= s0.g@[b] <= 7 * s0.nodes.len());
        }
    }
    assert forall|i: int, q: Seq<Pos>|
        #![trigger s.g@[i], is_walk(w, q, start, s.nodes@[i])]
        0 <= i < s.nodes.len() && s.closed@[i] && is_walk(w, q, start, s.nodes@[i]) implies s.g@[i] <= walk_cost(w, q) by {
        assert(i < n0);
        assert(s.g@[i] == s0.g@[i]);
        assert(s0.g@[i] <= walk_cost(w, q));
    }
    assert forall|c: int| 0 <= c < s.nodes.len() && s.closed@[c] && c != b implies #[trigger] s.reached_from(w, c) by {
        assert(c < n0);
        assert(s0.reached_from(w, c));
        assert forall|n: Pos| #[trigger] adjacent(s.nodes@[c], n) && step_cost(w, n) is Some implies known_within(
            s.nodes@,
            s.g@,
            n,
            s.g@[c] + enter_cost(w, n),
        ) by {
            assert(adjacent(s0.nodes@[c], n));
            let jj = choose|jj: int| 0 <= jj < s0.nodes@.len() && jj < s0.g@.len() && #[trigger] s0.nodes@[jj] == n && s0.g@[jj]
                <= s0.g@[c] + enter_cost(w, n);
            assert(s.nodes@[jj] == n);
        }
    }
    assert forall|i: int| 0 <= i < s.nodes.len() && #[trigger] s.closed@[i] implies s.nodes@[i] != goal by {
        assert(i < n0);
    }
    assert forall|i: int| 0 <= i < s0.nodes.len() implies #[trigger] s.nodes@[i] == s0.nodes@[i] && s.closed@[i] == s0.closed@[i]
        && s.g@[i] <= s0.g@[i] && (s0.closed@[i] ==> s.g@[i] == s0.g@[i]) by {
    }
}

proof fn lemma_grew_refl(a: Search)
    requires
        a.g.len() == a.nodes.len(),
        a.closed.len() == a.nodes.len(),
    ensures
        grew(a, a),
{
}

/// Offer `np`, a neighbour of the expanded tile `b`, to the search.
fn relax(world: &World, s: &mut Search, start: Pos, goal: Pos, b: usize, np: Pos)
    requires
        old(s).inv(*world, start, goal, b as int),
        b < old(s).nodes.len(),
        old(s).closed@[b as int],
        adjacent(old(s).nodes@[b as int], np),
    ensures
        final(s).inv(*world, start, goal, b as int),
        grew(*old(s), *final(s)),
        step_cost(*world, np) is Some ==> known_within(
            final(s).nodes@,
            final(s).g@,
            np,
            old(s).g@[b as int] + enter_cost(*world, np),
        ),
{
    let ghost s0 = *s;
    proof {
        lemma_grew_refl(s0);
    }
    if let Some(c) = tile_cost(world, np) {
        proof {
            lemma_step_walk(*world, s0, start, goal, b as int, np);
            assert(0 <= s0.g@[b as int] <= 7 * s0.nodes.len());
        }
        let tentative: i128 = s.g[b] + c as i128;
        match find_node(&s.nodes, np) {
            Some(j) => {
                if tentative < s.g[j] {
                    proof {
                        assert(!s0.closed@[j as int]);
                        assert(j != 0);
                    }
                    s.g.set(j, tentative);
                    s.prev.set(j, b);
                    proof {
                        lemma_relax_update(*world, s0, *s, start, goal, b as int, j as int, tentative as int);
                        assert(s.nodes@[j as int] == np);
                    }
                } else {
                    proof {
                        assert(s.nodes@[j as int] == np);
                    }
                }
            },
            None => {
                s.nodes.push(np);
                s.g.push(tentative);
                s.prev.push(b);
                s.closed.push(false);
                proof {
                    lemma_relax_push(*world, s0, *s, start, goal, b as int, np, tentative as int);
                    assert(s.nodes@[s0.nodes.len() as int] == np);
                }
            },
        }
    }
}

/// Follow the recorded predecessors from the tile at `gi` back to the start.
fn reconstruct(world: &World, s: &Search, start: Pos, gi: usize) -> (path: Vec<Pos>)
    requires
        s.wf(*world, start),
        s.costs(*world),
        gi < s.nodes.len(),
    ensures
        is_walk(*world, path@, start, s.nodes@[gi as int]),
        walk_cost(*world, path@) == s.g@[gi as int],
{
    let mut chain: Vec<usize> = Vec::new();
    chain.push(gi);
    let mut cur: usize = gi;
    while cur != 0
        invariant
            s.wf(*world, start),
            s.costs(*world),
            chain.len() >= 1,
            chain@[0] == gi,
            chain@[chain.len() - 1] == cur,
            cur < s.nodes.len(),
            forall|t: int| 0 <= t < chain.len() ==> #[trigger] chain@[t] < s.nodes.len(),
            forall|t: int|
                0 <= t < chain.len() - 1 ==> #[trigger] chain@[t] != 0 && chain@[t + 1] == s.prev@[chain@[t] as int],
        decreases s.g@[cur as int],
    {
        proof {
            assert(s.g@[cur as int] == s.g@[s.prev@[cur as int] as int] + enter_cost(*world, s.nodes@[cur as int]));
            assert(0 <= s.g@[s.prev@[cur as int] as int]);
        }
        let ghost before = chain@;
        cur = s.prev[cur];
        chain.push(cur);
        proof {
            assert forall|t: int| 0 <= t < chain.len() - 1 implies #[trigger] chain@[t] != 0 && chain@[t + 1] == s.prev@[
                chain@[t] as int
            ] by {
                if t < before.len() - 1 {
                    assert(chain@[t] == before[t]);
                    assert(chain@[t + 1] == before[t + 1]);
                }
            }
        }
    }
    let ghost len = chain.len() as int;
    let mut path: Vec<Pos> = Vec::new();
    path.push(start);
    let mut k: usize = chain.len() - 1;
    proof {
        assert(walk_cost(*world, path@) == 0);
    }
    while k > 0
        invariant
            s.wf(*world, start),
            s.costs(*world),
            chain.len() == len,
            len >= 1,
            k < len,
            chain@[0] == gi,
            chain@[len - 1] == 0,
            forall|t: int| 0 <= t < len ==> #[trigger] chain@[t] < s.nodes.len(),
            forall|t: int| 0 <= t < len - 1 ==> #[trigger] chain@[t] != 0 && chain@[t + 1] == s.prev@[chain@[t] as int],
            path.len() >= 1,
            path@[0] == start,
            path@.last() == s.nodes@[chain@[k as int] as int],
            forall|i: int| 1 <= i < path.len() ==> adjacent(path@[i - 1], #[trigger] path@[i]) && step_cost(*world, path@[i]) is Some,
            walk_cost(*world, path@) == s.g@[chain@[k as int] as int],
        decreases k,
    {
        let ghost before = path@;
        k -= 1;
        let idx = chain[k];
        path.push(s.nodes[idx]);
        proof {
            let t = k as int;
            assert(chain@[t] != 0 && chain@[t + 1] == s.prev@[chain@[t] as int]);
            assert(path@.drop_last() =~= before);
            assert forall|i: int| 1 <= i < path.len() implies adjacent(path@[i - 1], #[trigger] path@[i]) && step_cost(
                *world,
                path@[i],
            ) is Some by {
                if i < before.len() {
                    assert(path@[i] == before[i]);
                    assert(path@[i - 1] == before[i - 1]);
                } else {
                    assert(path@[i - 1] == before.last());
                }
            }
        }
    }
    path
}

/// The open tile with the lowest cost so far plus distance left; on ties
/// the one with the larger x. None when every known tile is expanded.
fn select_open(s: &Search, start: Pos, goal: Pos, Ghost(w): Ghost<World>) -> (best: Option<usize>)
    requires
        s.inv(w, start, goal, -1),
    ensures
        best matches Some(b) ==> b < s.nodes.len() && !s.closed@[b as int] && forall|k: int|
            0 <= k < s.nodes.len() && !s.closed@[k] ==> s.g@[b as int] + crate::types::manhattan(s.nodes@[b as int], goal)
                <= #[trigger] s.g@[k] + crate::types::manhattan(s.nodes@[k], goal),
        best is None ==> forall|k: int| 0 <= k < s.nodes.len() ==> #[trigger] s.closed@[k],
{
    let mut best: Option<usize> = None;
    let mut best_f: i128 = 0;
    let mut i: usize = 0;
    while i < s.nodes.len()
        invariant
            s.inv(w, start, goal, -1),
            i <= s.nodes.len(),
            best matches Some(b) ==> b < i && !s.closed@[b as int] && best_f == s.g@[b as int] + crate::types::manhattan(
                s.nodes@[b as int],
                goal,
            ),
            best matches Some(b) ==> forall|k: int|
                0 <= k < i && !s.closed@[k] ==> best_f <= #[trigger] s.g@[k] + crate::types::manhattan(s.nodes@[k], goal),
            best is None ==> forall|k: int| 0 <= k < i ==> #[trigger] s.closed@[k],
        decreases s.nodes.len() - i,
    {
        if !s.closed[i] {
            proof {
                assert(0 <= s.g@[i as int] <= 7 * s.nodes.len());
            }
            let f: i128 = s.g[i] + heuristic(s.nodes[i], goal) as i128;
            let better = match best {
                None => true,
                Some(b) => f < best_f || (f == best_f && s.nodes[i].x > s.nodes[b].x),
            };
            if better {
                best = Some(i);
                best_f = f;
            }
        }
        i += 1;
    }
    best
}

/// Offer the four neighbours of the expanded tile `b`.
fn expand(world: &World, s: &mut Search, start: Pos, goal: Pos, b: usize)
    requires
        old(s).inv(*world, start, goal, b as int),
        b < old(s).nodes.len(),
        old(s).closed@[b as int],
    ensures
        final(s).inv(*world, start, goal, -1),
        grew(*old(s), *final(s)),
{
    let pos = s.nodes[b];
    let ghost s0 = *s;
    if pos.x < i32::MAX {
        relax(world, s, start, goal, b, Pos { x: pos.x + 1, y: pos.y });
    }
    proof {
        if pos.x >= i32::MAX {
            lemma_grew_refl(s0);
        }
        assert(s.nodes@[b as int] == s0.nodes@[b as int]);
    }
    let ghost s1 = *s;
    if pos.x > i32::MIN {
        relax(world, s, start, goal, b, Pos { x: pos.x - 1, y: pos.y });
    }
    proof {
        if pos.x <= i32::MIN {
            lemma_grew_refl(s1);
        }
        assert(s.nodes@[b as int] == s1.nodes@[b as int]);
    }
    let ghost s2 = *s;
    if pos.y < i32::MAX {
        relax(world, s, start, goal, b, Pos { x: pos.x, y: pos.y + 1 });
    }
    proof {
        if pos.y >= i32::MAX {
            lemma_grew_refl(s2);
        }
        assert(s.nodes@[b as int] == s2.nodes@[b as int]);
    }
    let ghost s3 = *s;
    if pos.y > i32::MIN {
        relax(world, s, start, goal, b, Pos { x: pos.x, y: pos.y - 1 });
    }
    proof {
        if pos.y <= i32::MIN {
            lemma_grew_refl(s3);
        }
        lemma_four_neighbours(*world, s0, s1, s2, s3, *s, b as int);
        lemma_grew_trans(s0, s1, s2);
        lemma_grew_trans(s0, s2, s3);
        lemma_grew_trans(s0, s3, *s);
        assert forall|c: int| 0 <= c < s.nodes.len() && s.closed@[c] && c != -1 implies #[trigger] s.reached_from(*world, c) by {
        }
    }
}

/// Search a path from `start` to `goal`, expanding at most `max_expansions`
/// tiles, always the open tile whose cost so far plus distance left is
/// lowest (on ties the one further east). The path starts at `start`, ends
/// at `goal`, moves between side-adjacent tiles and never enters water;
/// `[start]` when the two coincide; none when the goal is water. When the
/// budget exceeds the number of enterable tiles it never runs out: the path is
/// then a cheapest one, and there is none only when no walk exists.
pub fn astar(world: &World, start: Pos, goal: Pos, max_expansions: usize) -> (r: Option<Vec<Pos>>)
    ensures
        start == goal ==> (r matches Some(p) && p@ == seq![start]),
        r matches Some(p) ==> is_walk(*world, p@, start, goal),
        start != goal && step_cost(*world, goal) is None ==> r is None,
        max_expansions > enterable_count(*world) ==> (r matches Some(p) ==> is_cheapest_walk(*world, p@, start, goal)),
        max_expansions > enterable_count(*world) ==> (r is None ==> forall|q: Seq<Pos>| !is_walk(*world, q, start, goal)),
        search_outcome(*world, start, goal, max_expansions as int, path_view(r)),
{
    if start == goal {
        let v = vec![start];
        proof {
            assert(v@ =~= seq![start]);
            assert forall|q: Seq<Pos>| #[trigger] is_walk(*world, q, start, goal) implies walk_cost(*world, v@) <= walk_cost(
                *world,
                q,
            ) by {
                lemma_walk_cost_nonneg(*world, q);
            }
        }
        return Some(v);
    }
    let mut s = Search { nodes: vec![start], g: vec![0i128], prev: vec![0usize], closed: vec![false] };
    let mut expansions: usize = 0;
    let ghost mut seen: Set<Pos> = Set::empty();
    proof {
        lemma_listed_count(*world);
        assert(s.nodes@.len() == 1);
        assert forall|i: int, q: Seq<Pos>|
            #![trigger s.g@[i], is_walk(*world, q, start, s.nodes@[i])]
            0 <= i < s.nodes.len() && s.closed@[i] && is_walk(*world, q, start, s.nodes@[i]) implies s.g@[i]
            <= walk_cost(*world, q) by {
            assert(i == 0);
        }
    }
    loop
        invariant_except_break
            s.inv(*world, start, goal, -1),
            seen.finite(),
            seen.subset_of(enterable_positions(*world)),
            forall|p: Pos| seen.contains(p) ==> closed_at(s.nodes@, s.closed@, p),
            expansions == 0 ==> s.nodes.len() == 1 && !s.closed@[0] && seen.len() == 0,
            expansions >= 1 ==> s.closed@[0] && seen.len() + 1 == expansions,
        invariant
            start != goal,
            expansions <= max_expansions,
            enterable_positions(*world).finite(),
        ensures
            s.wf(*world, start),
            s.costs(*world),
            max_expansions <= enterable_count(*world),
        decreases max_expansions - expansions,
    {
        let best = select_open(&s, start, goal, Ghost(*world));
        let b = match best {
            None => {
                proof {
                    assert forall|q: Seq<Pos>| !is_walk(*world, q, start, goal) by {
                        lemma_exhausted(*world, s, start, goal, q);
                    }
                }
                return None;
            },
            Some(b) => b,
        };
        let pos = s.nodes[b];
        proof {
            assert forall|q: Seq<Pos>| is_walk(*world, q, start, s.nodes@[b as int]) implies s.g@[b as int] <= walk_cost(
                *world,
                q,
            ) by {
                lemma_selected_is_cheapest(*world, s, start, goal, b as int, q);
            }
        }
        if pos == goal {
            let path = reconstruct(world, &s, start, b);
            proof {
                assert forall|q: Seq<Pos>| #[trigger] is_walk(*world, q, start, goal) implies walk_cost(*world, path@)
                    <= walk_cost(*world, q) by {
                    assert(is_walk(*world, q, start, s.nodes@[b as int]));
                }
            }
            return Some(path);
        }
        let ghost s_open = s;
        proof {
            if pos != start {
                assert(b != 0);
            }
        }
        s.closed.set(b, true);
        proof {
            lemma_close_selected(*world, s_open, s, start, goal, b as int);
            seen = lemma_seen_after_close(*world, s_open, s, start, goal, b as int, seen, expansions as int);
            lemma_len_subset_listed(seen, *world);
        }
        if expansions >= max_expansions {
            break;
        }
        expansions += 1;
        let ghost s0 = s;
        expand(world, &mut s, start, goal, b);
        proof {
            lemma_seen_kept(s0, s, seen);
        }
    }
    match find_node(&s.nodes, goal) {
        Some(gi) => {
            if gi == 0 {
                None
            } else {
                Some(reconstruct(world, &s, start, gi))
            }
        },
        None => None,
    }
}

/// Expanding the selected open tile `b`, which is not the goal, keeps the
/// invariant with `b` still to be offered its neighbours.
proof fn lemma_close_selected(w: World, s_open: Search, s: Search, start: Pos, goal: Pos, b: int)
    requires
        s_open.inv(w, start, goal, -1),
        0 <= b < s_open.nodes.len(),
        !s_open.closed@[b],
        s_open.nodes@[b] != goal,
        forall|q: Seq<Pos>| is_walk(w, q, start, s_open.nodes@[b]) ==> s_open.g@[b] <= walk_cost(w, q),
        s.nodes@ == s_open.nodes@,
        s.g@ == s_open.g@,
        s.prev@ == s_open.prev@,
        s.closed@ == s_open.closed@.update(b, true),
        s.nodes.len() == s_open.nodes.len(),
        s.g.len() == s_open.g.len(),
        s.prev.len() == s_open.prev.len(),
        s.closed.len() == s_open.closed.len(),
    ensures
        s.inv(w, start, goal, b),
        s.closed@[b],
{
    assert forall|i: int, q: Seq<Pos>|
        #![trigger s.g@[i], is_walk(w, q, start, s.nodes@[i])]
        0 <= i < s.nodes.len() && s.closed@[i] && is_walk(w, q, start, s.nodes@[i]) implies s.g@[i] <= walk_cost(w, q) by {
        if i != b {
            assert(s_open.closed@[i]);
        }
    }
    assert forall|c: int| 0 <= c < s.nodes.len() && s.closed@[c] && c != b implies #[trigger] s.reached_from(w, c) by {
        assert(s_open.closed@[c]);
        assert(s_open.reached_from(w, c));
    }
    assert forall|i: int| 1 <= i < s.nodes.len() implies s.closed@[s.prev@[i] as int] && #[trigger] s.g@[i] == s.g@[s.prev@[i] as int]
        + enter_cost(w, s.nodes@[i]) by {
        assert(s_open.closed@[s_open.prev@[i] as int]);
        assert(s_open.g@[i] == s_open.g@[s_open.prev@[i] as int] + enter_cost(w, s_open.nodes@[i]));
    }
    assert forall|i: int| 0 <= i < s.nodes.len() && #[trigger] s.closed@[i] implies s.nodes@[i] != goal by {
        if i != b {
            assert(s_open.closed@[i]);
        }
    }
}

/// The expanded tiles other than the start, counted by the expansions so
/// far; each has a terrain entry.
proof fn lemma_seen_after_close(
    w: World,
    s_open: Search,
    s: Search,
    start: Pos,
    goal: Pos,
    b: int,
    seen: Set<Pos>,
    expansions: int,
) -> (seen2: Set<Pos>)
    requires
        s_open.inv(w, start, goal, -1),
        0 <= b < s_open.nodes.len(),
        !s_open.closed@[b],
        s.nodes@ == s_open.nodes@,
        s.closed@ == s_open.closed@.update(b, true),
        s.closed.len() == s_open.closed.len(),
        s.nodes.len() == s_open.nodes.len(),
        seen.finite(),
        seen.subset_of(enterable_positions(w)),
        forall|p: Pos| seen.contains(p) ==> closed_at(s_open.nodes@, s_open.closed@, p),
        expansions == 0 ==> s_open.nodes.len() == 1 && !s_open.closed@[0] && seen.len() == 0,
        expansions >= 1 ==> s_open.closed@[0] && seen.len() + 1 == expansions,
        expansions >= 0,
    ensures
        seen2.finite(),
        seen2.subset_of(enterable_positions(w)),
        forall|p: Pos| seen2.contains(p) ==> closed_at(s.nodes@, s.closed@, p),
        s.closed@[0],
        seen2.len() == expansions,
{
    let pos = s_open.nodes@[b];
    let seen2 = if expansions == 0 {
        assert(b == 0);
        seen
    } else {
        assert(b != 0);
        assert(pos != start);
        lemma_enterable_is_listed(w, pos);
        if seen.contains(pos) {
            let i = choose|i: int| 0 <= i < s_open.nodes@.len() && i < s_open.closed@.len() && #[trigger] s_open.nodes@[i] == pos
                && s_open.closed@[i];
            assert(i != b);
        }
        seen.insert(pos)
    };
    assert forall|p: Pos| seen2.contains(p) implies closed_at(s.nodes@, s.closed@, p) by {
        if p == pos {
            assert(s.nodes@[b] == p && s.closed@[b]);
        } else {
            let i = choose|i: int| 0 <= i < s_open.nodes@.len() && i < s_open.closed@.len() && #[trigger] s_open.nodes@[i] == p
                && s_open.closed@[i];
            assert(s.nodes@[i] == p && s.closed@[i]);
        }
    }
    seen2
}

/// After offering all four neighbours of `b`, the tile has been reached from
/// on every side.
proof fn lemma_four_neighbours(w: World, s0: Search, s1: Search, s2: Search, s3: Search, s4: Search, b: int)
    requires
        s0.g.len() == s0.nodes.len(),
        s0.closed.len() == s0.nodes.len(),
        grew(s0, s1),
        grew(s1, s2),
        grew(s2, s3),
        grew(s3, s4),
        0 <= b < s0.nodes.len(),
        s0.closed@[b],
        ({
            let p = s0.nodes@[b];
            let n = Pos { x: (p.x + 1) as i32, y: p.y };
            p.x < i32::MAX && step_cost(w, n) is Some ==> known_within(s1.nodes@, s1.g@, n, s0.g@[b] + enter_cost(w, n))
        }),
        ({
            let p = s0.nodes@[b];
            let n = Pos { x: (p.x - 1) as i32, y: p.y };
            p.x > i32::MIN && step_cost(w, n) is Some ==> known_within(s2.nodes@, s2.g@, n, s1.g@[b] + enter_cost(w, n))
        }),
        ({
            let p = s0.nodes@[b];
            let n = Pos { x: p.x, y: (p.y + 1) as i32 };
            p.y < i32::MAX && step_cost(w, n) is Some ==> known_within(s3.nodes@, s3.g@, n, s2.g@[b] + enter_cost(w, n))
        }),
        ({
            let p = s0.nodes@[b];
            let n = Pos { x: p.x, y: (p.y - 1) as i32 };
            p.y > i32::MIN && step_cost(w, n) is Some ==> known_within(s4.nodes@, s4.g@, n, s3.g@[b] + enter_cost(w, n))
        }),
    ensures
        s4.reached_from(w, b),
{
    lemma_grew_trans(s0, s1, s2);
    lemma_grew_trans(s0, s2, s3);
    lemma_grew_trans(s0, s3, s4);
    lemma_grew_trans(s1, s2, s3);
    lemma_grew_trans(s1, s3, s4);
    let p = s0.nodes@[b];
    assert(s1.nodes@[b] == p && s1.g@[b] == s0.g@[b]);
    assert(s2.nodes@[b] == p && s2.g@[b] == s0.g@[b]);
    assert(s3.nodes@[b] == p && s3.g@[b] == s0.g@[b]);
    assert(s4.nodes@[b] == p && s4.g@[b] == s0.g@[b]);
    assert forall|n: Pos| #[trigger] adjacent(s4.nodes@[b], n) && step_cost(w, n) is Some implies known_within(
        s4.nodes@,
        s4.g@,
        n,
        s4.g@[b] + enter_cost(w, n),
    ) by {
        let bound = s0.g@[b] + enter_cost(w, n);
        if n.x == p.x + 1 && n.y == p.y {
            assert(n == Pos { x: (p.x + 1) as i32, y: p.y });
            lemma_known_grows(s1, s4, n, bound);
        } else if n.x == p.x - 1 && n.y == p.y {
            assert(n == Pos { x: (p.x - 1) as i32, y: p.y });
            lemma_known_grows(s2, s4, n, bound);
        } else if n.x == p.x && n.y == p.y + 1 {
            assert(n == Pos { x: p.x, y: (p.y + 1) as i32 });
            lemma_known_grows(s3, s4, n, bound);
        } else {
            assert(n == Pos { x: p.x, y: (p.y - 1) as i32 });
        }
    }
}

/// Expanded tiles stay expanded as the search grows.
proof fn lemma_seen_kept(s0: Search, s: Search, seen: Set<Pos>)
    requires
        grew(s0, s),
        forall|p: Pos| seen.contains(p) ==> closed_at(s0.nodes@, s0.closed@, p),
    ensures
        forall|p: Pos| seen.contains(p) ==> closed_at(s.nodes@, s.closed@, p),
{
    assert forall|p: Pos| seen.contains(p) implies closed_at(s.nodes@, s.closed@, p) by {
        let i = choose|i: int| 0 <= i < s0.nodes@.len() && i < s0.closed@.len() && #[trigger] s0.nodes@[i] == p && s0.closed@[i];
        assert(s.nodes@[i] == p && s.closed@[i]);
    }
}

/// Growth is transitive.
proof fn lemma_grew_trans(a: Search, b: Search, c: Search)
    requires
        grew(a, b),
        grew(b, c),
    ensures
        grew(a, c),
{
    assert forall|i: int| 0 <= i < a.nodes.len() implies #[trigger] c.nodes@[i] == a.nodes@[i] && c.closed@[i] == a.closed@[i]
        && c.g@[i] <= a.g@[i] && (a.closed@[i] ==> c.g@[i] == a.g@[i]) by {
        assert(b.nodes@[i] == a.nodes@[i] && b.closed@[i] == a.closed@[i] && b.g@[i] <= a.g@[i] && (a.closed@[i] ==> b.g@[i]
            == a.g@[i]));
        assert(c.nodes@[i] == b.nodes@[i] && c.closed@[i] == b.closed@[i] && c.g@[i] <= b.g@[i] && (b.closed@[i] ==> c.g@[i]
            == b.g@[i]));
    }
    assert forall|i: int| a.nodes.len() <= i < c.nodes.len() implies !#[trigger] c.closed@[i] by {
        if i < b.nodes.len() {
            assert(!b.closed@[i]);
            assert(c.nodes@[i] == b.nodes@[i] && c.closed@[i] == b.closed@[i]);
        }
    }
}

/// A known tile stays known, no dearer, as the search grows.
proof fn lemma_known_grows(a: Search, b: Search, n: Pos, bound: int)
    requires
        grew(a, b),
        a.g.len() == a.nodes.len(),
        known_within(a.nodes@, a.g@, n, bound),
    ensures
        known_within(b.nodes@, b.g@, n, bound),
{
    let j = choose|j: int| 0 <= j < a.nodes@.len() && j < a.g@.len() && #[trigger] a.nodes@[j] == n && a.g@[j] <= bound;
    assert(b.nodes@[j] == n);
}

proof fn lemma_len_subset_listed(seen: Set<Pos>, w: World)
    requires
        seen.subset_of(enterable_positions(w)),
        enterable_positions(w).finite(),
    ensures
        seen.len() <= enterable_count(w),
{
    vstd::set_lib::lemma_len_subset(seen, enterable_positions(w));
}

} // verus!
