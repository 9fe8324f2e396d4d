//! What stands on the map's tiles as the view draws them: the order of
//! trees and buildings, so that the nearer sprites of the isometric view
//! cover the farther ones, and the road piece that fits each road tile.

use vstd::prelude::*;
use crate::types::{Pos, Building};
use crate::world::World;

verus! {

/// A sprite standing on a tile.
#[derive(Clone, Copy, Debug, PartialEq, Eq, Structural)]
pub enum Structure {
    /// The tree on tile (x, y) at its growth stage.
    Tree { x: i32, y: i32, stage: u8 },
    /// The building with this index.
    Building { index: usize },
}

/// The tile bounds stay far from the ends of `i32`.
pub open spec fn view_fits(min_tx: i32, min_ty: i32, max_tx: i32, max_ty: i32) -> bool {
    &&& -0x1000_0000 <= min_tx <= 0x1000_0000
    &&& -0x1000_0000 <= min_ty <= 0x1000_0000
    &&& -0x1000_0000 <= max_tx <= 0x1000_0000
    &&& -0x1000_0000 <= max_ty <= 0x1000_0000
}

/// The tree on `p`, if there is one.
pub open spec fn tree_item(w: World, p: Pos) -> Seq<Structure> {
    match w.tree_at(p) {
        Some(stage) => seq![Structure::Tree { x: p.x, y: p.y, stage }],
        None => seq![],
    }
}

/// The last of the first `n` buildings standing on `p`, or -1.
pub open spec fn last_building_at(bs: Seq<Building>, p: Pos, n: int) -> int
    decreases n,
{
    if n <= 0 {
        -1
    } else if bs[n - 1].pos == p {
        n - 1
    } else {
        last_building_at(bs, p, n - 1)
    }
}

/// Every one of the first `n` buildings standing on `p`, in order.
pub open spec fn buildings_at(bs: Seq<Building>, p: Pos, n: int) -> Seq<Structure>
    decreases n,
{
    if n <= 0 {
        seq![]
    } else if bs[n - 1].pos == p {
        buildings_at(bs, p, n - 1).push(Structure::Building { index: (n - 1) as usize })
    } else {
        buildings_at(bs, p, n - 1)
    }
}

/// What stands on `p`: its tree, then either every building on it (`all`)
/// or only the last one listed.
pub open spec fn tile_items(w: World, bs: Seq<Building>, p: Pos, all: bool) -> Seq<Structure> {
    let b = if all {
        buildings_at(bs, p, bs.len() as int)
    } else {
        let k = last_building_at(bs, p, bs.len() as int);
        if k >= 0 {
            seq![Structure::Building { index: k as usize }]
        } else {
            seq![]
        }
    };
    tree_item(w, p) + b
}

/// The first `n` tiles of row `y` from column `x0`, west to east.
pub open spec fn row_items(w: World, bs: Seq<Building>, x0: int, y: int, n: int, all: bool) -> Seq<Structure>
    decreases n,
{
    if n <= 0 {
        seq![]
    } else {
        row_items(w, bs, x0, y, n - 1, all) + tile_items(
            w,
            bs,
            Pos { x: (x0 + n - 1) as i32, y: y as i32 },
            all,
        )
    }
}

/// The first `n` rows from `y0`, north to south, each `ncols` tiles from `x0`.
pub open spec fn rows_items(w: World, bs: Seq<Building>, x0: int, ncols: int, y0: int, n: int) -> Seq<Structure>
    decreases n,
{
    if n <= 0 {
        seq![]
    } else {
        rows_items(w, bs, x0, ncols, y0, n - 1) + row_items(w, bs, x0, y0 + n - 1, ncols, false)
    }
}

/// The first `n` tiles of the diagonal `x + y == s`, by column from `x0`,
/// keeping the rows `y0 ..= y1`.
pub open spec fn diagonal_items(
    w: World,
    bs: Seq<Building>,
    s: int,
    x0: int,
    y0: int,
    y1: int,
    n: int,
    all: bool,
) -> Seq<Structure>
    decreases n,
{
    if n <= 0 {
        seq![]
    } else {
        let x = x0 + n - 1;
        let y = s - x;
        let prev = diagonal_items(w, bs, s, x0, y0, y1, n - 1, all);
        if y0 <= y <= y1 {
            prev + tile_items(w, bs, Pos { x: x as i32, y: y as i32 }, all)
        } else {
            prev
        }
    }
}

/// The first `n` diagonals from `s0`, each scanned over `ncols` columns.
pub open spec fn diagonals_items(
    w: World,
    bs: Seq<Building>,
    s0: int,
    x0: int,
    ncols: int,
    y0: int,
    y1: int,
    n: int,
    all: bool,
) -> Seq<Structure>
    decreases n,
{
    if n <= 0 {
        seq![]
    } else {
        diagonals_items(w, bs, s0, x0, ncols, y0, y1, n - 1, all) + diagonal_items(
            w,
            bs,
            s0 + n - 1,
            x0,
            y0,
            y1,
            ncols,
            all,
        )
    }
}

fn push_tile_items(out: &mut Vec<Structure>, world: &World, buildings: &Vec<Building>, p: Pos, all: bool)
    ensures
        final(out)@ == old(out)@ + tile_items(*world, buildings@, p, all),
{
    let ghost start = out@;
    if let Some(stage) = world.tree_stage(p) {
        out.push(Structure::Tree { x: p.x, y: p.y, stage });
    }
    assert(out@ == start + tree_item(*world, p));
    let ghost with_tree = out@;
    if all {
        let mut i: usize = 0;
        while i < buildings.len()
            invariant
                i <= buildings.len(),
                all,
                out@ == with_tree + buildings_at(buildings@, p, i as int),
            decreases buildings.len() - i,
        {
            if buildings[i].pos == p {
                out.push(Structure::Building { index: i });
            }
            i += 1;
        }
    } else {
        let mut last: Option<usize> = None;
        let mut i: usize = 0;
        while i < buildings.len()
            invariant
                i <= buildings.len(),
                match last {
                    Some(k) => k == last_building_at(buildings@, p, i as int) && k < i,
                    None => last_building_at(buildings@, p, i as int) == -1,
                },
            decreases buildings.len() - i,
        {
            if buildings[i].pos == p {
                last = Some(i);
            }
            i += 1;
        }
        if let Some(k) = last {
            out.push(Structure::Building { index: k });
        }
    }
    assert(out@ =~= start + tile_items(*world, buildings@, p, all));
}

/// Tile by tile, row after row (north to south, each west to east): the
/// tree on the tile, then the building on it (the last listed, when
/// several share the tile).
pub fn structures_scanned(
    world: &World,
    buildings: &Vec<Building>,
    min_tx: i32,
    min_ty: i32,
    max_tx: i32,
    max_ty: i32,
) -> (r: Vec<Structure>)
    requires
        view_fits(min_tx, min_ty, max_tx, max_ty),
    ensures
        r@ == rows_items(*world, buildings@, min_tx as int, max_tx - min_tx + 1, min_ty as int, max_ty - min_ty + 1),
{
    let mut out: Vec<Structure> = Vec::new();
    let mut my = min_ty;
    while my <= max_ty
        invariant
            view_fits(min_tx, min_ty, max_tx, max_ty),
            min_ty <= my,
            my <= max_ty + 1 || my == min_ty,
            out@ == rows_items(*world, buildings@, min_tx as int, max_tx - min_tx + 1, min_ty as int, my - min_ty),
        decreases max_ty + 1 - my,
    {
        let ghost before = out@;
        let mut mx = min_tx;
        while mx <= max_tx
            invariant
                view_fits(min_tx, min_ty, max_tx, max_ty),
                min_ty <= my <= max_ty,
                min_tx <= mx,
                mx <= max_tx + 1 || mx == min_tx,
                out@ == before + row_items(*world, buildings@, min_tx as int, my as int, mx - min_tx, false),
            decreases max_tx + 1 - mx,
        {
            let ghost prev = out@;
            push_tile_items(&mut out, world, buildings, Pos { x: mx, y: my }, false);
            assert(out@ =~= before + row_items(*world, buildings@, min_tx as int, my as int, mx + 1 - min_tx, false));
            mx += 1;
        }
        assert(out@ =~= rows_items(
            *world,
            buildings@,
            min_tx as int,
            max_tx - min_tx + 1,
            min_ty as int,
            my + 1 - min_ty,
        ));
        my += 1;
    }
    out
}

fn diagonal_pass(world: &World, buildings: &Vec<Building>, min_tx: i32, min_ty: i32, max_tx: i32, max_ty: i32, all: bool)
    -> (r: Vec<Structure>)
    requires
        view_fits(min_tx, min_ty, max_tx, max_ty),
    ensures
        r@ == diagonals_items(
            *world,
            buildings@,
            min_tx + min_ty,
            min_tx as int,
            max_tx - min_tx + 1,
            min_ty as int,
            max_ty as int,
            max_tx + max_ty - (min_tx + min_ty) + 1,
            all,
        ),
{
    let mut out: Vec<Structure> = Vec::new();
    let min_s = min_tx + min_ty;
    let max_s = max_tx + max_ty;
    let mut s = min_s;
    while s <= max_s
        invariant
            view_fits(min_tx, min_ty, max_tx, max_ty),
            min_s == min_tx + min_ty,
            max_s == max_tx + max_ty,
            min_s <= s,
            s <= max_s + 1 || s == min_s,
            out@ == diagonals_items(
                *world,
                buildings@,
                min_s as int,
                min_tx as int,
                max_tx - min_tx + 1,
                min_ty as int,
                max_ty as int,
                s - min_s,
                all,
            ),
        decreases max_s + 1 - s,
    {
        let ghost before = out@;
        let mut mx = min_tx;
        while mx <= max_tx
            invariant
                view_fits(min_tx, min_ty, max_tx, max_ty),
                min_s <= s <= max_s,
                min_s == min_tx + min_ty,
                max_s == max_tx + max_ty,
                min_tx <= mx,
                mx <= max_tx + 1 || mx == min_tx,
                out@ == before + diagonal_items(
                    *world,
                    buildings@,
                    s as int,
                    min_tx as int,
                    min_ty as int,
                    max_ty as int,
                    mx - min_tx,
                    all,
                ),
            decreases max_tx + 1 - mx,
        {
            let my = s - mx;
            if my >= min_ty && my <= max_ty {
                push_tile_items(&mut out, world, buildings, Pos { x: mx, y: my }, all);
            }
            assert(out@ =~= before + diagonal_items(
                *world,
                buildings@,
                s as int,
                min_tx as int,
                min_ty as int,
                max_ty as int,
                mx + 1 - min_tx,
                all,
            ));
            mx += 1;
        }
        assert(out@ =~= diagonals_items(
            *world,
            buildings@,
            min_s as int,
            min_tx as int,
            max_tx - min_tx + 1,
            min_ty as int,
            max_ty as int,
            s + 1 - min_s,
            all,
        ));
        s += 1;
    }
    out
}

/// Diagonal by diagonal (`x + y` rising), each west to east: the tree on
/// the tile, then the building on it (the last listed, when several share
/// the tile).
pub fn structures_diagonal_scan(
    world: &World,
    buildings: &Vec<Building>,
    min_tx: i32,
    min_ty: i32,
    max_tx: i32,
    max_ty: i32,
) -> (r: Vec<Structure>)
    requires
        view_fits(min_tx, min_ty, max_tx, max_ty),
    ensures
        r@ == diagonals_items(
            *world,
            buildings@,
            min_tx + min_ty,
            min_tx as int,
            max_tx - min_tx + 1,
            min_ty as int,
            max_ty as int,
            max_tx + max_ty - (min_tx + min_ty) + 1,
            false,
        ),
{
    diagonal_pass(world, buildings, min_tx, min_ty, max_tx, max_ty, false)
}

/// Trees and buildings in view ordered by depth: by `x + y`, then by `x`,
/// a tree before the buildings on its tile, and buildings on one tile in
/// the order they are listed.
pub fn structures_sorted(
    world: &World,
    buildings: &Vec<Building>,
    min_tx: i32,
    min_ty: i32,
    max_tx: i32,
    max_ty: i32,
) -> (r: Vec<Structure>)
    requires
        view_fits(min_tx, min_ty, max_tx, max_ty),
    ensures
        r@ == diagonals_items(
            *world,
            buildings@,
            min_tx + min_ty,
            min_tx as int,
            max_tx - min_tx + 1,
            min_ty as int,
            max_ty as int,
            max_tx + max_ty - (min_tx + min_ty) + 1,
            true,
        ),
{
    diagonal_pass(world, buildings, min_tx, min_ty, max_tx, max_ty, true)
}

/// Which neighbours of `p` carry road: 1 north (y - 1), 2 east (x + 1),
/// 4 south (y + 1), 8 west (x - 1), added up. It picks the road piece.
pub open spec fn road_mask(w: World, p: Pos) -> u8 {
    let n: u8 = if w.road_at(Pos { x: p.x, y: (p.y - 1) as i32 }) { 1 } else { 0 };
    let e: u8 = if w.road_at(Pos { x: (p.x + 1) as i32, y: p.y }) { 2 } else { 0 };
    let s: u8 = if w.road_at(Pos { x: p.x, y: (p.y + 1) as i32 }) { 4 } else { 0 };
    let west: u8 = if w.road_at(Pos { x: (p.x - 1) as i32, y: p.y }) { 8 } else { 0 };
    (n + e + s + west) as u8
}

/// The road piece for tile `p`: which of its neighbours carry road.
pub fn road_neighbours(world: &World, p: Pos) -> (m: u8)
    requires
        i32::MIN < p.x < i32::MAX,
        i32::MIN < p.y < i32::MAX,
    ensures
        m == road_mask(*world, p),
        m < 16,
{
    let mut m: u8 = 0;
    if world.is_road(Pos { x: p.x, y: p.y - 1 }) {
        m = m + 1;
    }
    if world.is_road(Pos { x: p.x + 1, y: p.y }) {
        m = m + 2;
    }
    if world.is_road(Pos { x: p.x, y: p.y + 1 }) {
        m = m + 4;
    }
    if world.is_road(Pos { x: p.x - 1, y: p.y }) {
        m = m + 8;
    }
    m
}

/// A building's depth in the isometric view: the diagonal it stands on.
pub open spec fn depth(b: Building) -> int {
    b.pos.x + b.pos.y
}

/// The first index at or after `i` of a building of `t` deeper than `d`, or
/// the length of `t`.
pub open spec fn first_deeper(t: Seq<Building>, d: int, i: int) -> int
    decreases t.len() - i,
{
    if i < 0 || i >= t.len() {
        t.len() as int
    } else if depth(t[i]) > d {
        i
    } else {
        first_deeper(t, d, i + 1)
    }
}

/// The buildings of `s` stably sorted by depth: each one in turn goes after
/// those placed before it that are no deeper.
pub open spec fn sorted_by_depth(s: Seq<Building>) -> Seq<Building>
    decreases s.len(),
{
    if s.len() == 0 {
        s
    } else {
        let t = sorted_by_depth(s.drop_last());
        t.insert(first_deeper(t, depth(s.last()), 0), s.last())
    }
}

proof fn lemma_first_deeper(t: Seq<Building>, d: int, i: int)
    requires
        0 <= i <= t.len(),
    ensures
        i <= first_deeper(t, d, i) <= t.len(),
        forall|j: int| i <= j < first_deeper(t, d, i) ==> depth(#[trigger] t[j]) <= d,
        first_deeper(t, d, i) < t.len() ==> depth(t[first_deeper(t, d, i)]) > d,
    decreases t.len() - i,
{
    if i < t.len() && depth(t[i]) <= d {
        lemma_first_deeper(t, d, i + 1);
    }
}

/// Sorting by depth keeps the buildings (each as many times as before) and
/// leaves them in order of depth; buildings on one diagonal keep their
/// order, as each one is placed after those before it that are no deeper.
pub proof fn lemma_sorted_by_depth(s: Seq<Building>)
    ensures
        sorted_by_depth(s).len() == s.len(),
        sorted_by_depth(s).to_multiset() == s.to_multiset(),
        forall|i: int, j: int|
            0 <= i <= j < s.len() ==> depth(#[trigger] sorted_by_depth(s)[i]) <= depth(
                #[trigger] sorted_by_depth(s)[j],
            ),
    decreases s.len(),
{
    if s.len() > 0 {
        let rest = s.drop_last();
        let x = s.last();
        lemma_sorted_by_depth(rest);
        let t = sorted_by_depth(rest);
        let d = depth(x);
        lemma_first_deeper(t, d, 0);
        let p = first_deeper(t, d, 0);
        let r = t.insert(p, x);
        assert(r == sorted_by_depth(s));
        vstd::seq_lib::to_multiset_insert(t, p, x);
        vstd::seq_lib::to_multiset_build(rest, x);
        assert(rest.push(x) =~= s);
        assert forall|i: int, j: int| 0 <= i <= j < s.len() implies depth(#[trigger] r[i]) <= depth(
            #[trigger] r[j],
        ) by {
            if i < p && j < p {
                assert(r[i] == t[i] && r[j] == t[j]);
            } else if i < p && j == p {
                assert(r[i] == t[i] && depth(t[i]) <= d);
            } else if i < p {
                assert(r[i] == t[i] && r[j] == t[j - 1]);
                if j - 1 < p {
                    assert(depth(t[j - 1]) <= d);
                    assert(depth(t[i]) <= depth(t[j - 1]));
                }
            } else if i == p && j == p {
            } else if i == p {
                assert(r[j] == t[j - 1]);
                assert(p < t.len());
                assert(depth(t[p]) > d);
                assert(depth(t[p]) <= depth(t[j - 1]));
            } else {
                assert(r[i] == t[i - 1] && r[j] == t[j - 1]);
            }
        }
    }
}

fn deeper_than(b: &Building, d: i64) -> (r: bool)
    ensures
        r == (depth(*b) > d),
{
    (b.pos.x as i64) + (b.pos.y as i64) > d
}

/// Sort the buildings by depth (`x + y`), keeping the order of buildings
/// on the same diagonal, so that nearer ones are drawn over farther ones.
pub fn sort_buildings_by_depth(buildings: &mut Vec<Building>)
    ensures
        final(buildings)@ == sorted_by_depth(old(buildings)@),
{
    let ghost s0 = buildings@;
    let n = buildings.len();
    let mut i: usize = 0;
    while i < n
        invariant
            i <= n,
            n == s0.len(),
            buildings@.len() == n,
            buildings@.take(i as int) == sorted_by_depth(s0.take(i as int)),
            buildings@.skip(i as int) == s0.skip(i as int),
        decreases n - i,
    {
        let ghost before = buildings@;
        let b = buildings.remove(i);
        let d: i64 = (b.pos.x as i64) + (b.pos.y as i64);
        let ghost t = before.take(i as int);
        assert(buildings@.take(i as int) == t);
        proof {
            lemma_first_deeper(t, depth(b), 0);
        }
        let mut p: usize = 0;
        while p < i && !deeper_than(&buildings[p], d)
            invariant
                p <= i,
                i < n,
                buildings@.len() == n - 1,
                buildings@.take(i as int) == t,
                d == depth(b),
                first_deeper(t, depth(b), 0) == first_deeper(t, depth(b), p as int),
            decreases i - p,
        {
            p += 1;
        }
        proof {
            if p < i {
                assert(depth(t[p as int]) > d);
            }
            assert(first_deeper(t, depth(b), 0) == p);
        }
        buildings.insert(p, b);
        proof {
            assert(s0.take(i + 1).drop_last() =~= s0.take(i as int));
            assert(s0.take(i + 1).last() == b) by {
                assert(before.skip(i as int)[0] == s0.skip(i as int)[0]);
            }
            assert(buildings@.take(i + 1) =~= t.insert(p as int, b));
            assert(buildings@.skip(i + 1) =~= s0.skip(i + 1)) by {
                assert forall|j: int| 0 <= j < n - (i + 1) implies #[trigger] buildings@.skip(i + 1)[j] == s0.skip(i + 1)[j] by {
                    assert(before.skip(i as int)[j + 1] == s0.skip(i as int)[j + 1]);
                }
            }
        }
        i += 1;
    }
    assert(buildings@ =~= buildings@.take(n as int));
    assert(s0 =~= s0.take(n as int));
}

/// The tile a structure stands on.
pub open spec fn tile_of(s: Structure, bs: Seq<Building>) -> Pos {
    match s {
        Structure::Tree { x, y, .. } => Pos { x, y },
        Structure::Building { index } => bs[index as int].pos,
    }
}

/// `p` lies on an earlier diagonal than `q`, or on the same one no further east.
pub open spec fn not_deeper(p: Pos, q: Pos) -> bool {
    p.x + p.y < q.x + q.y || (p.x + p.y == q.x + q.y && p.x <= q.x)
}

/// `a` may be drawn before `b`: it stands no deeper, and on one tile a tree
/// comes before the buildings.
pub open spec fn drawn_before(a: Structure, b: Structure, bs: Seq<Building>) -> bool {
    &&& not_deeper(tile_of(a, bs), tile_of(b, bs))
    &&& tile_of(a, bs) == tile_of(b, bs) ==> !(a is Building && b is Tree)
}

/// Every structure of `r` may be drawn before every later one.
pub open spec fn in_depth_order(r: Seq<Structure>, bs: Seq<Building>) -> bool {
    forall|i: int, j: int| 0 <= i < j < r.len() ==> drawn_before(#[trigger] r[i], #[trigger] r[j], bs)
}

proof fn lemma_buildings_at(bs: Seq<Building>, p: Pos, n: int)
    requires
        0 <= n <= bs.len(),
        bs.len() <= usize::MAX,
    ensures
        forall|i: int|
            0 <= i < buildings_at(bs, p, n).len() ==> (#[trigger] buildings_at(bs, p, n)[i]) is Building
                && tile_of(buildings_at(bs, p, n)[i], bs) == p,
    decreases n,
{
    if n > 0 {
        lemma_buildings_at(bs, p, n - 1);
        let prev = buildings_at(bs, p, n - 1);
        assert forall|i: int|
            0 <= i < buildings_at(bs, p, n).len() implies (#[trigger] buildings_at(bs, p, n)[i]) is Building
            && tile_of(buildings_at(bs, p, n)[i], bs) == p by {
            if i < prev.len() {
                assert(buildings_at(bs, p, n)[i] == prev[i]);
            }
        }
    }
}

proof fn lemma_tile_items(w: World, bs: Seq<Building>, p: Pos)
    requires
        bs.len() <= usize::MAX,
    ensures
        forall|i: int|
            0 <= i < tile_items(w, bs, p, true).len() ==> tile_of(#[trigger] tile_items(w, bs, p, true)[i], bs)
                == p,
        in_depth_order(tile_items(w, bs, p, true), bs),
{
    lemma_buildings_at(bs, p, bs.len() as int);
    let t = tree_item(w, p);
    let b = buildings_at(bs, p, bs.len() as int);
    let r = tile_items(w, bs, p, true);
    assert(r == t + b);
    assert forall|i: int| 0 <= i < r.len() implies tile_of(#[trigger] r[i], bs) == p by {
        if i >= t.len() {
            assert(r[i] == b[i - t.len()]);
        }
    }
    assert forall|i: int, j: int| 0 <= i < j < r.len() implies drawn_before(#[trigger] r[i], #[trigger] r[j], bs) by {
        assert(tile_of(r[i], bs) == p);
        assert(tile_of(r[j], bs) == p);
        if i >= t.len() {
            assert(r[j] == b[j - t.len()]);
        } else {
            assert(j >= 1);
            assert(r[j] == b[j - t.len()]);
        }
    }
}

/// Joining two runs in depth order, the first wholly before the second,
/// keeps the order.
proof fn lemma_join_in_order(a: Seq<Structure>, b: Seq<Structure>, bs: Seq<Building>)
    requires
        in_depth_order(a, bs),
        in_depth_order(b, bs),
        forall|i: int, j: int| 0 <= i < a.len() && 0 <= j < b.len() ==> drawn_before(#[trigger] a[i], #[trigger] b[j], bs),
    ensures
        in_depth_order(a + b, bs),
{
    let r = a + b;
    assert forall|i: int, j: int| 0 <= i < j < r.len() implies drawn_before(#[trigger] r[i], #[trigger] r[j], bs) by {
        if j < a.len() {
            assert(r[i] == a[i] && r[j] == a[j]);
        } else if i >= a.len() {
            assert(r[i] == b[i - a.len()] && r[j] == b[j - a.len()]);
        } else {
            assert(r[i] == a[i] && r[j] == b[j - a.len()]);
        }
    }
}

proof fn lemma_diagonal_order(w: World, bs: Seq<Building>, s: int, x0: int, y0: int, y1: int, n: int)
    requires
        0 <= n,
        bs.len() <= usize::MAX,
        -0x3000_0000 <= s <= 0x3000_0000,
        -0x1000_0000 <= x0,
        x0 + n <= 0x1000_0001,
        -0x1000_0000 <= y0,
        y1 <= 0x1000_0000,
    ensures
        in_depth_order(diagonal_items(w, bs, s, x0, y0, y1, n, true), bs),
        forall|i: int|
            0 <= i < diagonal_items(w, bs, s, x0, y0, y1, n, true).len() ==> {
                let t = tile_of(#[trigger] diagonal_items(w, bs, s, x0, y0, y1, n, true)[i], bs);
                &&& t.x + t.y == s
                &&& x0 <= t.x < x0 + n
            },
    decreases n,
{
    if n > 0 {
        lemma_diagonal_order(w, bs, s, x0, y0, y1, n - 1);
        let prev = diagonal_items(w, bs, s, x0, y0, y1, n - 1, true);
        let x = x0 + n - 1;
        let y = s - x;
        if y0 <= y <= y1 {
            let p = Pos { x: x as i32, y: y as i32 };
            lemma_tile_items(w, bs, p);
            let t = tile_items(w, bs, p, true);
            assert forall|i: int, j: int| 0 <= i < prev.len() && 0 <= j < t.len() implies drawn_before(
                #[trigger] prev[i],
                #[trigger] t[j],
                bs,
            ) by {
                assert(tile_of(t[j], bs) == p);
                let q = tile_of(prev[i], bs);
                assert(q.x + q.y == s && q.x < x);
            }
            lemma_join_in_order(prev, t, bs);
            let r = diagonal_items(w, bs, s, x0, y0, y1, n, true);
            assert(r == prev + t);
            assert forall|i: int| 0 <= i < r.len() implies {
                let q = tile_of(#[trigger] r[i], bs);
                &&& q.x + q.y == s
                &&& x0 <= q.x < x0 + n
            } by {
                if i < prev.len() {
                    assert(r[i] == prev[i]);
                } else {
                    assert(r[i] == t[i - prev.len()]);
                    assert(tile_of(t[i - prev.len()], bs) == p);
                }
            }
        }
    }
}

proof fn lemma_diagonals_order(
    w: World,
    bs: Seq<Building>,
    s0: int,
    x0: int,
    ncols: int,
    y0: int,
    y1: int,
    n: int,
)
    requires
        0 <= n,
        0 <= ncols,
        bs.len() <= usize::MAX,
        -0x2000_0000 <= s0,
        s0 + n <= 0x2000_0001,
        -0x1000_0000 <= x0,
        x0 + ncols <= 0x1000_0001,
        -0x1000_0000 <= y0,
        y1 <= 0x1000_0000,
    ensures
        in_depth_order(diagonals_items(w, bs, s0, x0, ncols, y0, y1, n, true), bs),
        forall|i: int|
            0 <= i < diagonals_items(w, bs, s0, x0, ncols, y0, y1, n, true).len() ==> {
                let t = tile_of(#[trigger] diagonals_items(w, bs, s0, x0, ncols, y0, y1, n, true)[i], bs);
                s0 <= t.x + t.y < s0 + n
            },
    decreases n,
{
    if n > 0 {
        lemma_diagonals_order(w, bs, s0, x0, ncols, y0, y1, n - 1);
        let prev = diagonals_items(w, bs, s0, x0, ncols, y0, y1, n - 1, true);
        let s = s0 + n - 1;
        lemma_diagonal_order(w, bs, s, x0, y0, y1, ncols);
        let d = diagonal_items(w, bs, s, x0, y0, y1, ncols, true);
        assert forall|i: int, j: int| 0 <= i < prev.len() && 0 <= j < d.len() implies drawn_before(
            #[trigger] prev[i],
            #[trigger] d[j],
            bs,
        ) by {
            let q = tile_of(prev[i], bs);
            let t = tile_of(d[j], bs);
            assert(q.x + q.y < s);
            assert(t.x + t.y == s);
        }
        lemma_join_in_order(prev, d, bs);
        let r = diagonals_items(w, bs, s0, x0, ncols, y0, y1, n, true);
        assert(r == prev + d);
        assert forall|i: int| 0 <= i < r.len() implies {
            let t = tile_of(#[trigger] r[i], bs);
            s0 <= t.x + t.y < s0 + n
        } by {
            if i < prev.len() {
                assert(r[i] == prev[i]);
            } else {
                assert(r[i] == d[i - prev.len()]);
            }
        }
    }
}

/// What `structures_sorted` lists is in depth order: by diagonal `x + y`,
/// then west to east, a tree before the buildings on its tile.
pub proof fn lemma_sorted_structures_in_depth_order(
    w: World,
    bs: Seq<Building>,
    min_tx: i32,
    min_ty: i32,
    max_tx: i32,
    max_ty: i32,
)
    requires
        view_fits(min_tx, min_ty, max_tx, max_ty),
        bs.len() <= usize::MAX,
    ensures
        in_depth_order(
            diagonals_items(
                w,
                bs,
                min_tx + min_ty,
                min_tx as int,
                max_tx - min_tx + 1,
                min_ty as int,
                max_ty as int,
                max_tx + max_ty - (min_tx + min_ty) + 1,
                true,
            ),
            bs,
        ),
{
    let ncols = if max_tx - min_tx + 1 >= 0 { max_tx - min_tx + 1 } else { 0 };
    let n = max_tx + max_ty - (min_tx + min_ty) + 1;
    if n > 0 && max_tx - min_tx + 1 >= 0 {
        lemma_diagonals_order(w, bs, min_tx + min_ty, min_tx as int, ncols, min_ty as int, max_ty as int, n);
    } else {
        lemma_empty_runs(w, bs, min_tx + min_ty, min_tx as int, max_tx - min_tx + 1, min_ty as int, max_ty as int, n);
    }
}

proof fn lemma_empty_runs(w: World, bs: Seq<Building>, s0: int, x0: int, ncols: int, y0: int, y1: int, n: int)
    requires
        n <= 0 || ncols <= 0,
    ensures
        diagonals_items(w, bs, s0, x0, ncols, y0, y1, n, true).len() == 0,
    decreases n,
{
    if n > 0 {
        lemma_empty_runs(w, bs, s0, x0, ncols, y0, y1, n - 1);
        assert(diagonal_items(w, bs, s0 + n - 1, x0, y0, y1, ncols, true) =~= Seq::<Structure>::empty());
    }
}

} // verus!
