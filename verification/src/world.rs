//! The map: terrain tiles, biomes, trees, roads and occupied tiles.
//!
//! Each layer is a list of entries; a later entry for a position overrides an
//! earlier one. Tiles without an entry are water, and tiles without a biome
//! entry are meadow.

use vstd::prelude::*;
use crate::types::{Pos, TileKind, BiomeKind};

verus! {

/// The value of the last entry for `p`, if any.
pub open spec fn lookup<V>(s: Seq<(Pos, V)>, p: Pos) -> Option<V>
    decreases s.len(),
{
    if s.len() == 0 {
        None
    } else if s.last().0 == p {
        Some(s.last().1)
    } else {
        lookup(s.drop_last(), p)
    }
}

/// Entries that are not for `p`.
pub open spec fn not_at<V>(p: Pos) -> spec_fn((Pos, V)) -> bool {
    |e: (Pos, V)| e.0 != p
}

/// Dropping every entry for `p` makes `p` absent and keeps every other position.
pub proof fn lemma_lookup_without<V>(s: Seq<(Pos, V)>, p: Pos, q: Pos)
    ensures
        lookup(s.filter(not_at::<V>(p)), q) == if q == p {
            None
        } else {
            lookup(s, q)
        },
    decreases s.len(),
{
    reveal(Seq::filter);
    if s.len() > 0 {
        lemma_lookup_without(s.drop_last(), p, q);
        let f = not_at::<V>(p);
        let sub = s.drop_last().filter(f);
        assert(s.filter(f) == if f(s.last()) {
            sub.push(s.last())
        } else {
            sub
        });
        if f(s.last()) {
            lemma_lookup_push(sub, s.last().0, s.last().1, q);
        }
    }
}

/// Adding an entry for `p` sets `p` and keeps every other position.
pub proof fn lemma_lookup_push<V>(s: Seq<(Pos, V)>, p: Pos, v: V, q: Pos)
    ensures
        lookup(s.push((p, v)), q) == if q == p {
            Some(v)
        } else {
            lookup(s, q)
        },
{
    assert(s.push((p, v)).drop_last() =~= s);
}

/// The value of the last entry for `p`.
pub fn lookup_exec<V: Copy>(s: &Vec<(Pos, V)>, p: Pos) -> (r: Option<V>)
    ensures
        r == lookup(s@, p),
{
    let mut found: Option<V> = None;
    let mut i: usize = 0;
    while i < s.len()
        invariant
            i <= s.len(),
            found == lookup(s@.take(i as int), p),
        decreases s.len() - i,
    {
        let e = s[i];
        proof {
            assert(s@.take(i + 1).drop_last() =~= s@.take(i as int));
            assert(s@.take(i + 1).last() == e);
        }
        if e.0 == p {
            found = Some(e.1);
        }
        i += 1;
    }
    proof {
        assert(s@.take(s.len() as int) =~= s@);
    }
    found
}

/// Whether `p` is in the list.
pub fn contains_pos(s: &Vec<Pos>, p: Pos) -> (r: bool)
    ensures
        r == s@.contains(p),
{
    let mut i: usize = 0;
    while i < s.len()
        invariant
            i <= s.len(),
            forall|j: int| 0 <= j < i ==> s@[j] != p,
        decreases s.len() - i,
    {
        if s[i] == p {
            assert(s@[i as int] == p);
            return true;
        }
        i += 1;
    }
    false
}

/// The game map.
#[derive(Clone, Debug)]
pub struct World {
    pub tiles: Vec<(Pos, TileKind)>,
    pub biomes: Vec<(Pos, BiomeKind)>,
    /// Trees and their growth stage (0 sapling, 1 young, 2 mature).
    pub trees: Vec<(Pos, u8)>,
    pub roads: Vec<Pos>,
    pub occupied: Vec<Pos>,
}

impl World {
    /// Terrain at `p`: the last tile entry for it, water when there is none.
    pub open spec fn tile_at(&self, p: Pos) -> TileKind {
        match lookup(self.tiles@, p) {
            Some(k) => k,
            None => TileKind::Water,
        }
    }

    /// Biome at `p`: the last biome entry for it, meadow when there is none.
    pub open spec fn biome_at(&self, p: Pos) -> BiomeKind {
        match lookup(self.biomes@, p) {
            Some(b) => b,
            None => BiomeKind::Meadow,
        }
    }

    /// Growth stage of the tree at `p`, if there is one.
    pub open spec fn tree_at(&self, p: Pos) -> Option<u8> {
        lookup(self.trees@, p)
    }

    pub open spec fn road_at(&self, p: Pos) -> bool {
        self.roads@.contains(p)
    }

    pub open spec fn occupied_at(&self, p: Pos) -> bool {
        self.occupied@.contains(p)
    }

    /// An empty map: water everywhere.
    pub fn new() -> (w: World)
        ensures
            w.tiles@ == Seq::<(Pos, TileKind)>::empty(),
            w.biomes@ == Seq::<(Pos, BiomeKind)>::empty(),
            w.trees@ == Seq::<(Pos, u8)>::empty(),
            w.roads@ == Seq::<Pos>::empty(),
            w.occupied@ == Seq::<Pos>::empty(),
    {
        World { tiles: Vec::new(), biomes: Vec::new(), trees: Vec::new(), roads: Vec::new(), occupied: Vec::new() }
    }

    pub fn get_tile(&self, x: i32, y: i32) -> (t: TileKind)
        ensures
            t == self.tile_at(Pos { x, y }),
    {
        match lookup_exec(&self.tiles, Pos { x, y }) {
            Some(k) => k,
            None => TileKind::Water,
        }
    }

    pub fn set_tile(&mut self, p: Pos, kind: TileKind)
        ensures
            final(self).tiles@ == old(self).tiles@.push((p, kind)),
            final(self).biomes == old(self).biomes,
            final(self).trees == old(self).trees,
            final(self).roads == old(self).roads,
            final(self).occupied == old(self).occupied,
            forall|q: Pos| #[trigger] final(self).tile_at(q) == if q == p {
                kind
            } else {
                old(self).tile_at(q)
            },
    {
        self.tiles.push((p, kind));
        proof {
            assert forall|q: Pos| #[trigger] self.tile_at(q) == if q == p {
                kind
            } else {
                old(self).tile_at(q)
            } by {
                lemma_lookup_push(old(self).tiles@, p, kind, q);
            }
        }
    }

    pub fn biome(&self, p: Pos) -> (b: BiomeKind)
        ensures
            b == self.biome_at(p),
    {
        match lookup_exec(&self.biomes, p) {
            Some(b) => b,
            None => BiomeKind::Meadow,
        }
    }

    pub fn set_biome(&mut self, p: Pos, biome: BiomeKind)
        ensures
            final(self).biomes@ == old(self).biomes@.push((p, biome)),
            final(self).tiles == old(self).tiles,
            final(self).trees == old(self).trees,
            final(self).roads == old(self).roads,
            final(self).occupied == old(self).occupied,
    {
        self.biomes.push((p, biome));
    }

    pub fn tree_stage(&self, p: Pos) -> (s: Option<u8>)
        ensures
            s == self.tree_at(p),
    {
        lookup_exec(&self.trees, p)
    }

    pub fn has_tree(&self, p: Pos) -> (b: bool)
        ensures
            b == self.tree_at(p) is Some,
    {
        self.tree_stage(p).is_some()
    }

    /// Put a tree of the given stage at `p`, replacing any tree there.
    pub fn set_tree(&mut self, p: Pos, stage: u8)
        ensures
            final(self).trees@ == old(self).trees@.push((p, stage)),
            final(self).tiles == old(self).tiles,
            final(self).biomes == old(self).biomes,
            final(self).roads == old(self).roads,
            final(self).occupied == old(self).occupied,
            forall|q: Pos| #[trigger] final(self).tree_at(q) == if q == p {
                Some(stage)
            } else {
                old(self).tree_at(q)
            },
    {
        self.trees.push((p, stage));
        proof {
            assert forall|q: Pos| #[trigger] self.tree_at(q) == if q == p {
                Some(stage)
            } else {
                old(self).tree_at(q)
            } by {
                lemma_lookup_push(old(self).trees@, p, stage, q);
            }
        }
    }

    /// Plant a sapling at `p` unless a tree already grows there.
    pub fn plant_tree(&mut self, p: Pos)
        ensures
            final(self).tiles == old(self).tiles,
            final(self).biomes == old(self).biomes,
            final(self).roads == old(self).roads,
            final(self).occupied == old(self).occupied,
            forall|q: Pos| #[trigger] final(self).tree_at(q) == if q == p && old(self).tree_at(p) is None {
                Some(0u8)
            } else {
                old(self).tree_at(q)
            },
    {
        if !self.has_tree(p) {
            self.set_tree(p, 0);
        }
    }

    /// Remove the tree at `p`, if any.
    pub fn remove_tree(&mut self, p: Pos)
        ensures
            final(self).trees@ == old(self).trees@.filter(not_at::<u8>(p)),
            final(self).tiles == old(self).tiles,
            final(self).biomes == old(self).biomes,
            final(self).roads == old(self).roads,
            final(self).occupied == old(self).occupied,
            forall|q: Pos| #[trigger] final(self).tree_at(q) == if q == p {
                None
            } else {
                old(self).tree_at(q)
            },
    {
        let ghost pred = not_at::<u8>(p);
        let mut kept: Vec<(Pos, u8)> = Vec::new();
        let mut i: usize = 0;
        while i < self.trees.len()
            invariant
                i <= self.trees.len(),
                pred == not_at::<u8>(p),
                kept@ == self.trees@.take(i as int).filter(pred),
            decreases self.trees.len() - i,
        {
            let e = self.trees[i];
            proof {
                reveal(Seq::filter);
                assert(self.trees@.take(i + 1).drop_last() =~= self.trees@.take(i as int));
                assert(self.trees@.take(i + 1).last() == e);
                assert(pred(e) == (e.0 != p));
                assert(self.trees@.take(i + 1).filter(pred) == if pred(e) {
                    self.trees@.take(i as int).filter(pred).push(e)
                } else {
                    self.trees@.take(i as int).filter(pred)
                });
            }
            if e.0 != p {
                kept.push(e);
            }
            i += 1;
        }
        proof {
            assert(self.trees@.take(self.trees.len() as int) =~= self.trees@);
        }
        let ghost old_trees = self.trees@;
        self.trees = kept;
        proof {
            assert forall|q: Pos| #[trigger] self.tree_at(q) == if q == p {
                None
            } else {
                old(self).tree_at(q)
            } by {
                lemma_lookup_without(old_trees, p, q);
            }
        }
    }

    pub fn is_road(&self, p: Pos) -> (b: bool)
        ensures
            b == self.road_at(p),
    {
        contains_pos(&self.roads, p)
    }

    /// Lay a road at `p`.
    pub fn build_road(&mut self, p: Pos)
        ensures
            final(self).tiles == old(self).tiles,
            final(self).biomes == old(self).biomes,
            final(self).trees == old(self).trees,
            final(self).occupied == old(self).occupied,
            forall|q: Pos| #[trigger] final(self).road_at(q) == (q == p || old(self).road_at(q)),
    {
        if !contains_pos(&self.roads, p) {
            self.roads.push(p);
            proof {
                assert forall|q: Pos| #[trigger] self.road_at(q) == (q == p || old(self).road_at(q)) by {
                    if old(self).road_at(q) {
                        let j = choose|j: int| 0 <= j < old(self).roads@.len() && old(self).roads@[j] == q;
                        assert(self.roads@[j] == q);
                    }
                    if q == p {
                        assert(self.roads@[self.roads@.len() - 1] == p);
                    }
                    if self.road_at(q) && q != p {
                        let j = choose|j: int| 0 <= j < self.roads@.len() && self.roads@[j] == q;
                        assert(old(self).roads@[j] == q);
                    }
                }
            }
        }
    }

    /// Take the road off `p`, if there is one.
    pub fn remove_road(&mut self, p: Pos)
        ensures
            final(self).tiles == old(self).tiles,
            final(self).biomes == old(self).biomes,
            final(self).trees == old(self).trees,
            final(self).occupied == old(self).occupied,
            forall|q: Pos| #[trigger] final(self).road_at(q) == (q != p && old(self).road_at(q)),
    {
        let ghost roads0 = self.roads@;
        let mut kept: Vec<Pos> = Vec::new();
        let mut i: usize = 0;
        while i < self.roads.len()
            invariant
                i <= self.roads.len(),
                self.roads@ == roads0,
                forall|j: int| 0 <= j < kept@.len() ==> #[trigger] kept@[j] != p && roads0.contains(kept@[j]),
                forall|j: int| 0 <= j < i && #[trigger] roads0[j] != p ==> kept@.contains(roads0[j]),
            decreases self.roads.len() - i,
        {
            let q = self.roads[i];
            if q != p {
                let ghost before = kept@;
                kept.push(q);
                proof {
                    assert forall|j: int| 0 <= j < i + 1 && #[trigger] roads0[j] != p implies kept@.contains(
                        roads0[j],
                    ) by {
                        if j < i {
                            let k = choose|k: int| 0 <= k < before.len() && before[k] == roads0[j];
                            assert(kept@[k] == roads0[j]);
                        } else {
                            assert(kept@[before.len() as int] == roads0[j]);
                        }
                    }
                    assert(roads0[i as int] == q);
                }
            }
            i += 1;
        }
        self.roads = kept;
        proof {
            assert forall|q: Pos| #[trigger] self.road_at(q) == (q != p && old(self).road_at(q)) by {
                if self.road_at(q) {
                    let k = choose|k: int| 0 <= k < self.roads@.len() && self.roads@[k] == q;
                    assert(self.roads@[k] != p);
                }
                if q != p && old(self).road_at(q) {
                    let j = choose|j: int| 0 <= j < roads0.len() && roads0[j] == q;
                    assert(roads0[j] != p);
                }
            }
        }
    }

    /// Lay (`on`) or take up a road at `p`.
    pub fn set_road(&mut self, p: Pos, on: bool)
        ensures
            final(self).tiles == old(self).tiles,
            final(self).biomes == old(self).biomes,
            final(self).trees == old(self).trees,
            final(self).occupied == old(self).occupied,
            forall|q: Pos| #[trigger] final(self).road_at(q) == if q == p {
                on
            } else {
                old(self).road_at(q)
            },
    {
        if on {
            self.build_road(p);
        } else {
            self.remove_road(p);
        }
    }

    pub fn is_occupied(&self, p: Pos) -> (b: bool)
        ensures
            b == self.occupied_at(p),
    {
        contains_pos(&self.occupied, p)
    }

    /// Mark `p` as occupied by a building.
    pub fn occupy(&mut self, p: Pos)
        ensures
            final(self).tiles == old(self).tiles,
            final(self).biomes == old(self).biomes,
            final(self).trees == old(self).trees,
            final(self).roads == old(self).roads,
            forall|q: Pos| #[trigger] final(self).occupied_at(q) == (q == p || old(self).occupied_at(q)),
    {
        if !contains_pos(&self.occupied, p) {
            self.occupied.push(p);
            proof {
                assert forall|q: Pos| #[trigger] self.occupied_at(q) == (q == p || old(self).occupied_at(q)) by {
                    if old(self).occupied_at(q) {
                        let j = choose|j: int| 0 <= j < old(self).occupied@.len() && old(self).occupied@[j] == q;
                        assert(self.occupied@[j] == q);
                    }
                    if q == p {
                        assert(self.occupied@[self.occupied@.len() - 1] == p);
                    }
                    if self.occupied_at(q) && q != p {
                        let j = choose|j: int| 0 <= j < self.occupied@.len() && self.occupied@[j] == q;
                        assert(old(self).occupied@[j] == q);
                    }
                }
            }
        }
    }
}

} // verus!
