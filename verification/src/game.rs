//! Daily economy (feeding, happiness, upkeep, migration) and route planning
//! for citizens.

use vstd::prelude::*;
use crate::types::{
    Pos, Citizen, CitizenState, Resources, ResourceKind, WarehouseStore, Building, BuildingKind,
    FoodPolicy, sum_stock, total_stock, stock_total,
};
use crate::world::World;
use crate::path::{astar, path_view, search_outcome};
use crate::config::EconomyConfig;

verus! {

// ---------------------------------------------------------------- clocks

/// The building with its timer advanced by `dt_ms`.
pub open spec fn timer_advanced(b: Building, dt_ms: int) -> Building {
    Building { timer_ms: (b.timer_ms + dt_ms) as i32, ..b }
}

/// Advance the timer of every building by `dt_ms`.
pub fn simulate(
    buildings: &mut Vec<Building>,
    world: &mut World,
    _resources: &mut Resources,
    _warehouses: &mut Vec<WarehouseStore>,
    dt_ms: i32,
)
    requires
        forall|k: int|
            0 <= k < old(buildings).len() ==> i32::MIN <= #[trigger] old(buildings)@[k].timer_ms + dt_ms
                <= i32::MAX,
    ensures
        final(buildings).len() == old(buildings).len(),
        forall|k: int|
            0 <= k < old(buildings).len() ==> #[trigger] final(buildings)@[k] == timer_advanced(
                old(buildings)@[k],
                dt_ms as int,
            ),
        *final(world) == *old(world),
        *final(_resources) == *old(_resources),
        final(_warehouses)@ == old(_warehouses)@,
{
    let ghost bs0 = buildings@;
    let mut i: usize = 0;
    while i < buildings.len()
        invariant
            i <= buildings.len(),
            buildings.len() == bs0.len(),
            forall|k: int| 0 <= k < bs0.len() ==> i32::MIN <= #[trigger] bs0[k].timer_ms + dt_ms <= i32::MAX,
            forall|k: int| 0 <= k < i ==> #[trigger] buildings@[k] == timer_advanced(bs0[k], dt_ms as int),
            forall|k: int| i <= k < bs0.len() ==> #[trigger] buildings@[k] == bs0[k],
        decreases buildings.len() - i,
    {
        let mut b = buildings[i];
        assert(i32::MIN <= bs0[i as int].timer_ms + dt_ms <= i32::MAX);
        b.timer_ms = b.timer_ms + dt_ms;
        buildings.set(i, b);
        i += 1;
    }
}

// ---------------------------------------------------------------- routes

/// The neighbouring tile one step from `from` towards `goal`, moving along x
/// first; `from` itself when the two coincide.
pub open spec fn step_toward(from: Pos, goal: Pos) -> Pos {
    if goal.x > from.x {
        Pos { x: (from.x + 1) as i32, y: from.y }
    } else if goal.x < from.x {
        Pos { x: (from.x - 1) as i32, y: from.y }
    } else if goal.y > from.y {
        Pos { x: from.x, y: (from.y + 1) as i32 }
    } else if goal.y < from.y {
        Pos { x: from.x, y: (from.y - 1) as i32 }
    } else {
        from
    }
}

/// The two citizens agree on everything but their route (target, movement,
/// step progress, path and position in it).
pub open spec fn same_but_route(a: Citizen, b: Citizen) -> bool {
    &&& a.pos == b.pos
    &&& a.carrying_log == b.carrying_log
    &&& a.assigned_job == b.assigned_job
    &&& a.idle_timer_ms == b.idle_timer_ms
    &&& a.home == b.home
    &&& a.workplace == b.workplace
    &&& a.state == b.state
    &&& a.work_timer_ms == b.work_timer_ms
    &&& a.carrying == b.carrying
    &&& a.pending_input == b.pending_input
    &&& a.fed_today == b.fed_today
    &&& a.manual_workplace == b.manual_workplace
    &&& a.happiness == b.happiness
    &&& a.last_food_mask == b.last_food_mask
}

/// `after` is `before` sent on its way to `goal`: its path is what the
/// path search (with a budget of 100 000 expansions) returned, and it moves
/// exactly when it is not already there. With a found path it aims at the
/// path's second tile (at `goal` for the one-tile path of a citizen already
/// there); with none it has no path and steps straight towards `goal`.
pub open spec fn route_planned(w: World, before: Citizen, after: Citizen, goal: Pos) -> bool {
    &&& same_but_route(before, after)
    &&& search_outcome(
        w,
        before.pos,
        goal,
        100_000,
        if after.path@.len() > 0 {
            Some(after.path@)
        } else {
            None
        },
    )
    &&& after.moving == (before.pos != goal)
    &&& after.progress == if before.pos != goal { 0 } else { before.progress }
    &&& after.path@.len() > 0 ==> after.path_index == 1 && after.target == if after.path@.len() > 1 {
        after.path@[1]
    } else {
        goal
    }
    &&& after.path@.len() == 0 ==> after.path_index == 0 && after.target == step_toward(before.pos, goal)
}

/// `after` is `before` set on the route `found` towards `goal`: with a path
/// it takes that very path and aims at its second tile, moving afresh (or,
/// for a path of one tile, aims at `goal` and stands still); with none it
/// has no path and steps straight towards `goal`.
pub open spec fn routed(before: Citizen, after: Citizen, goal: Pos, found: Option<Seq<Pos>>) -> bool {
    &&& same_but_route(before, after)
    &&& match found {
        Some(p) => {
            &&& after.path@ == p
            &&& after.path_index == 1
            &&& p.len() > 1 ==> after.target == p[1] && after.moving && after.progress == 0
            &&& p.len() <= 1 ==> after.target == goal && !after.moving && after.progress == before.progress
        },
        None => {
            &&& after.path@.len() == 0
            &&& after.path_index == 0
            &&& after.target == step_toward(before.pos, goal)
            &&& after.moving
            &&& after.progress == 0
        },
    }
}

/// Set a citizen on the route `found` towards `goal`, as the path search
/// returned it.
pub fn route_with(c: &mut Citizen, goal: Pos, found: Option<Vec<Pos>>)
    ensures
        routed(*old(c), *final(c), goal, path_view(found)),
{
    c.target = goal;
    match found {
        Some(path) => {
            c.path = path;
            c.path_index = 1;
            if c.path_index < c.path.len() {
                c.target = c.path[1];
                c.moving = true;
                c.progress = 0;
            } else {
                c.moving = false;
            }
        },
        None => {
            c.path.clear();
            c.path_index = 0;
            let next = if goal.x > c.pos.x {
                Pos { x: c.pos.x + 1, y: c.pos.y }
            } else if goal.x < c.pos.x {
                Pos { x: c.pos.x - 1, y: c.pos.y }
            } else if goal.y > c.pos.y {
                Pos { x: c.pos.x, y: c.pos.y + 1 }
            } else if goal.y < c.pos.y {
                Pos { x: c.pos.x, y: c.pos.y - 1 }
            } else {
                c.pos
            };
            c.target = next;
            c.moving = true;
            c.progress = 0;
        },
    }
}

/// Send a citizen towards `goal` along a searched path, or, when no path is
/// found, one step straight towards it: the route is exactly what the path
/// search returned.
pub fn plan_path(world: &World, c: &mut Citizen, goal: Pos)
    ensures
        route_planned(*world, *old(c), *final(c), goal),
        exists|found: Option<Seq<Pos>>|
            search_outcome(*world, old(c).pos, goal, 100_000, found) && #[trigger] routed(
                *old(c),
                *final(c),
                goal,
                found,
            ),
{
    let found = astar(world, c.pos, goal, 100_000);
    let ghost r = path_view(found);
    route_with(c, goal, found);
    proof {
        if let Some(p) = r {
            assert(p.len() >= 1);
            if old(c).pos != goal {
                assert(p[0] != p.last());
                assert(p.len() > 1);
            }
        }
        assert(routed(*old(c), *c, goal, r));
    }
}

// ---------------------------------------------------------------- feeding

/// Index of the first warehouse at or after `i` that holds some of `kind`, or -1.
pub open spec fn first_stocked_from(ws: Seq<WarehouseStore>, kind: ResourceKind, i: int) -> int
    decreases ws.len() - i,
{
    if i < 0 || i >= ws.len() {
        -1
    } else if ws[i].stock_of(kind) > 0 {
        i
    } else {
        first_stocked_from(ws, kind, i + 1)
    }
}

proof fn lemma_first_stocked(ws: Seq<WarehouseStore>, kind: ResourceKind, i: int)
    requires
        0 <= i <= ws.len(),
    ensures
        first_stocked_from(ws, kind, i) == -1 ==> forall|j: int| i <= j < ws.len() ==> ws[j].stock_of(kind) <= 0,
        first_stocked_from(ws, kind, i) != -1 ==> {
            let f = first_stocked_from(ws, kind, i);
            &&& i <= f < ws.len()
            &&& ws[f].stock_of(kind) > 0
            &&& forall|j: int| i <= j < f ==> ws[j].stock_of(kind) <= 0
        },
    decreases ws.len() - i,
{
    if i < ws.len() && ws[i].stock_of(kind) <= 0 {
        lemma_first_stocked(ws, kind, i + 1);
    }
}

/// Take one unit of `kind` for a meal: from the first warehouse that has
/// some, else from the global stock; the flag says whether a unit was found.
pub open spec fn take_one(ws: Seq<WarehouseStore>, res: Resources, kind: ResourceKind) -> (
    Seq<WarehouseStore>,
    Resources,
    bool,
) {
    let f = first_stocked_from(ws, kind, 0);
    if f >= 0 {
        (ws.update(f, ws[f].with_stock(kind, (ws[f].stock_of(kind) - 1) as i32)), res, true)
    } else if res.get(kind) > 0 {
        (ws, res.with(kind, (res.get(kind) - 1) as i32), true)
    } else {
        (ws, res, false)
    }
}


/// Bit of the food mask for a food: 1 for bread, 2 for fish.
pub open spec fn bit_if(took: bool, bit: u8) -> u8 {
    if took {
        bit
    } else {
        0u8
    }
}

/// One citizen's meal under a food policy: the stocks after it and the food
/// eaten (1 bread, 2 fish, 0 nothing). Balanced tries bread first when there
/// is at least as much bread as fish overall, then fish, then bread.
pub open spec fn feed_one(ws: Seq<WarehouseStore>, res: Resources, policy: FoodPolicy) -> (
    Seq<WarehouseStore>,
    Resources,
    u8,
) {
    match policy {
        FoodPolicy::Balanced => {
            let t1 = if total_stock(ws, res, ResourceKind::Bread) >= total_stock(ws, res, ResourceKind::Fish) {
                take_one(ws, res, ResourceKind::Bread)
            } else {
                (ws, res, false)
            };
            let c1 = bit_if(t1.2, 1u8);
            let t2 = if c1 == 0 {
                take_one(t1.0, t1.1, ResourceKind::Fish)
            } else {
                (t1.0, t1.1, false)
            };
            let c2 = if c1 == 0 {
                bit_if(t2.2, 2u8)
            } else {
                c1
            };
            if c2 == 0 {
                let t3 = take_one(t2.0, t2.1, ResourceKind::Bread);
                (t3.0, t3.1, bit_if(t3.2, 1u8))
            } else {
                (t2.0, t2.1, c2)
            }
        },
        FoodPolicy::BreadFirst => {
            let t = take_one(ws, res, ResourceKind::Bread);
            if t.2 {
                (t.0, t.1, 1u8)
            } else {
                let u = take_one(ws, res, ResourceKind::Fish);
                (u.0, u.1, bit_if(u.2, 2u8))
            }
        },
        FoodPolicy::FishFirst => {
            let t = take_one(ws, res, ResourceKind::Fish);
            if t.2 {
                (t.0, t.1, 2u8)
            } else {
                let u = take_one(ws, res, ResourceKind::Bread);
                (u.0, u.1, bit_if(u.2, 1u8))
            }
        },
    }
}

/// The citizen after a day's meal: fed exactly when something was eaten, and
/// the food eaten added to its food mask.
pub open spec fn after_meal(c: Citizen, eaten: u8) -> Citizen {
    Citizen {
        fed_today: eaten != 0,
        last_food_mask: if eaten != 0 {
            c.last_food_mask | eaten
        } else {
            c.last_food_mask
        },
        ..c
    }
}

/// The citizen before its meal.
pub open spec fn unfed(c: Citizen) -> Citizen {
    Citizen { fed_today: false, ..c }
}

/// The first `n` citizens fed in order, with the stocks left after them.
pub open spec fn feed_prefix(
    cs: Seq<Citizen>,
    ws: Seq<WarehouseStore>,
    res: Resources,
    policy: FoodPolicy,
    n: nat,
) -> (Seq<Citizen>, Seq<WarehouseStore>, Resources)
    decreases n,
{
    if n == 0 {
        (Seq::empty(), ws, res)
    } else {
        let p = feed_prefix(cs, ws, res, policy, (n - 1) as nat);
        let f = feed_one(p.1, p.2, policy);
        (p.0.push(after_meal(cs[n - 1], f.2)), f.0, f.1)
    }
}

/// The colony's bread and fish together.
pub open spec fn food_total(ws: Seq<WarehouseStore>, res: Resources) -> int {
    total_stock(ws, res, ResourceKind::Bread) + total_stock(ws, res, ResourceKind::Fish)
}

/// How many of the first `n` citizens are fed today.
pub open spec fn fed_count(cs: Seq<Citizen>, n: int) -> int
    decreases n,
{
    if n <= 0 {
        0
    } else {
        fed_count(cs, n - 1) + if cs[n - 1].fed_today {
            1int
        } else {
            0
        }
    }
}

proof fn lemma_sum_update(ws: Seq<WarehouseStore>, i: int, w: WarehouseStore, kind: ResourceKind)
    requires
        0 <= i < ws.len(),
    ensures
        sum_stock(ws.update(i, w), kind) == sum_stock(ws, kind) - ws[i].stock_of(kind) + w.stock_of(kind),
    decreases ws.len(),
{
    let u = ws.update(i, w);
    if i == ws.len() - 1 {
        assert(u.drop_last() =~= ws.drop_last());
    } else {
        lemma_sum_update(ws.drop_last(), i, w, kind);
        assert(u.drop_last() =~= ws.drop_last().update(i, w));
    }
}

/// Taking one unit for a meal lowers that stock by one exactly when a unit
/// was found, and leaves every other stock as it was.
proof fn lemma_take_one(ws: Seq<WarehouseStore>, res: Resources, kind: ResourceKind)
    ensures
        ({
            let t = take_one(ws, res, kind);
            &&& total_stock(t.0, t.1, kind) == total_stock(ws, res, kind) - if t.2 {
                1int
            } else {
                0
            }
            &&& forall|k: ResourceKind| k != kind ==> #[trigger] total_stock(t.0, t.1, k) == total_stock(ws, res, k)
        }),
{
    lemma_first_stocked(ws, kind, 0);
    let f = first_stocked_from(ws, kind, 0);
    if f >= 0 {
        let w2 = ws[f].with_stock(kind, (ws[f].stock_of(kind) - 1) as i32);
        lemma_sum_update(ws, f, w2, kind);
        assert forall|k: ResourceKind| k != kind implies #[trigger] total_stock(
            take_one(ws, res, kind).0,
            take_one(ws, res, kind).1,
            k,
        ) == total_stock(ws, res, k) by {
            lemma_sum_update(ws, f, w2, k);
        }
    }
}

/// A meal eats one bread or one fish, or nothing when none is left.
proof fn lemma_feed_one(ws: Seq<WarehouseStore>, res: Resources, policy: FoodPolicy)
    ensures
        ({
            let f = feed_one(ws, res, policy);
            &&& food_total(f.0, f.1) == food_total(ws, res) - if f.2 != 0 {
                1int
            } else {
                0
            }
            &&& forall|k: ResourceKind|
                k != ResourceKind::Bread && k != ResourceKind::Fish ==> #[trigger] total_stock(f.0, f.1, k)
                    == total_stock(ws, res, k)
        }),
{
    let b = ResourceKind::Bread;
    let fi = ResourceKind::Fish;
    lemma_take_one(ws, res, b);
    lemma_take_one(ws, res, fi);
    let tb = take_one(ws, res, b);
    let tf = take_one(ws, res, fi);
    lemma_take_one(tb.0, tb.1, fi);
    lemma_take_one(tf.0, tf.1, b);
    assert(total_stock(tb.0, tb.1, fi) == total_stock(ws, res, fi));
    assert(total_stock(tf.0, tf.1, b) == total_stock(ws, res, b));
    let tff = take_one(tf.0, tf.1, b);
    lemma_take_one(ws, res, b);
    assert forall|k: ResourceKind|
        k != ResourceKind::Bread && k != ResourceKind::Fish implies #[trigger] total_stock(
        feed_one(ws, res, policy).0,
        feed_one(ws, res, policy).1,
        k,
    ) == total_stock(ws, res, k) by {
        assert(total_stock(tb.0, tb.1, k) == total_stock(ws, res, k));
        assert(total_stock(tf.0, tf.1, k) == total_stock(ws, res, k));
        assert(total_stock(take_one(tb.0, tb.1, fi).0, take_one(tb.0, tb.1, fi).1, k) == total_stock(
            tb.0,
            tb.1,
            k,
        ));
        assert(total_stock(tff.0, tff.1, k) == total_stock(tf.0, tf.1, k));
    }
}

/// Feeding neither creates nor loses food: over the first `n` citizens the
/// colony's bread and fish together fall by exactly the number of them fed,
/// and every other stock stays as it was.
pub proof fn lemma_meals_use_one_food_each(
    cs: Seq<Citizen>,
    ws: Seq<WarehouseStore>,
    res: Resources,
    policy: FoodPolicy,
    n: nat,
)
    requires
        n <= cs.len(),
    ensures
        ({
            let r = feed_prefix(cs, ws, res, policy, n);
            &&& r.0.len() == n
            &&& food_total(r.1, r.2) == food_total(ws, res) - fed_count(r.0, n as int)
            &&& forall|k: ResourceKind|
                k != ResourceKind::Bread && k != ResourceKind::Fish ==> #[trigger] total_stock(r.1, r.2, k)
                    == total_stock(ws, res, k)
        }),
    decreases n,
{
    if n > 0 {
        lemma_meals_use_one_food_each(cs, ws, res, policy, (n - 1) as nat);
        let p = feed_prefix(cs, ws, res, policy, (n - 1) as nat);
        lemma_feed_one(p.1, p.2, policy);
        let f = feed_one(p.1, p.2, policy);
        let r = feed_prefix(cs, ws, res, policy, n);
        assert(r.0 == p.0.push(after_meal(cs[n - 1], f.2)));
        assert(fed_count(r.0, (n - 1) as int) == fed_count(p.0, (n - 1) as int)) by {
            lemma_fed_count_prefix(p.0, r.0, (n - 1) as int);
        }
        assert forall|k: ResourceKind|
            k != ResourceKind::Bread && k != ResourceKind::Fish implies #[trigger] total_stock(r.1, r.2, k)
            == total_stock(ws, res, k) by {
            assert(total_stock(f.0, f.1, k) == total_stock(p.1, p.2, k));
            assert(total_stock(p.1, p.2, k) == total_stock(ws, res, k));
        }
    }
}

proof fn lemma_fed_count_prefix(a: Seq<Citizen>, b: Seq<Citizen>, n: int)
    requires
        0 <= n <= a.len(),
        n <= b.len(),
        forall|j: int| 0 <= j < n ==> a[j] == b[j],
    ensures
        fed_count(a, n) == fed_count(b, n),
    decreases n,
{
    if n > 0 {
        lemma_fed_count_prefix(a, b, n - 1);
    }
}

/// Feed one unit of `kind` from the warehouses or the global stock.
fn take_one_exec(ws: &mut Vec<WarehouseStore>, res: &mut Resources, kind: ResourceKind) -> (took: bool)
    ensures
        (final(ws)@, *final(res), took) == take_one(old(ws)@, *old(res), kind),
{
    proof {
        lemma_first_stocked(ws@, kind, 0);
    }
    let mut i: usize = 0;
    while i < ws.len()
        invariant
            i <= ws.len(),
            ws@ == old(ws)@,
            *res == *old(res),
            forall|j: int| 0 <= j < i ==> ws@[j].stock_of(kind) <= 0,
        decreases ws.len() - i,
    {
        if ws[i].amount(kind) > 0 {
            proof {
                lemma_first_stocked(ws@, kind, 0);
                let f = first_stocked_from(ws@, kind, 0);
                assert(f == i as int) by {
                    if f < i as int {
                        assert(ws@[f].stock_of(kind) <= 0);
                    }
                    if f == -1 {
                        assert(ws@[i as int].stock_of(kind) <= 0);
                    }
                }
            }
            ws[i].spend(kind, 1);
            return true;
        }
        i += 1;
    }
    if res.amount(kind) > 0 {
        let cur = res.amount(kind);
        res.set_amount(kind, cur - 1);
        return true;
    }
    false
}

/// One citizen's meal.
fn feed_one_exec(ws: &mut Vec<WarehouseStore>, res: &mut Resources, policy: FoodPolicy) -> (eaten: u8)
    ensures
        (final(ws)@, *final(res), eaten) == feed_one(old(ws)@, *old(res), policy),
{
    let mut consumed: u8 = 0;
    match policy {
        FoodPolicy::Balanced => {
            let total_bread = stock_total(ws, res, ResourceKind::Bread);
            let total_fish = stock_total(ws, res, ResourceKind::Fish);
            if total_bread >= total_fish {
                if take_one_exec(ws, res, ResourceKind::Bread) {
                    consumed = 1;
                }
            }
            if consumed == 0 {
                if take_one_exec(ws, res, ResourceKind::Fish) {
                    consumed = 2;
                }
            }
            if consumed == 0 {
                if take_one_exec(ws, res, ResourceKind::Bread) {
                    consumed = 1;
                }
            }
        },
        FoodPolicy::BreadFirst => {
            if take_one_exec(ws, res, ResourceKind::Bread) {
                consumed = 1;
            }
            if consumed == 0 {
                if take_one_exec(ws, res, ResourceKind::Fish) {
                    consumed = 2;
                }
            }
        },
        FoodPolicy::FishFirst => {
            if take_one_exec(ws, res, ResourceKind::Fish) {
                consumed = 2;
            }
            if consumed == 0 {
                if take_one_exec(ws, res, ResourceKind::Bread) {
                    consumed = 1;
                }
            }
        },
    }
    consumed
}

/// Start of a new day: every citizen, in order, eats one bread or fish
/// according to the food policy, taken from the first warehouse that has it
/// or else from the global stock. A citizen is fed today exactly when it
/// found food, and the food eaten is added to its food mask.
pub fn new_day_feed_and_income(
    citizens: &mut Vec<Citizen>,
    resources: &mut Resources,
    warehouses: &mut Vec<WarehouseStore>,
    policy: FoodPolicy,
)
    ensures
        ({
            let r = feed_prefix(old(citizens)@, old(warehouses)@, *old(resources), policy, old(citizens)@.len());
            &&& final(citizens)@ == r.0
            &&& final(warehouses)@ == r.1
            &&& *final(resources) == r.2
        }),
{
    let ghost cs0 = citizens@;
    let ghost ws0 = warehouses@;
    let ghost res0 = *resources;
    let mut i: usize = 0;
    while i < citizens.len()
        invariant
            i <= citizens.len(),
            citizens@.len() == cs0.len(),
            warehouses@ == ws0,
            *resources == res0,
            forall|j: int| 0 <= j < i ==> #[trigger] citizens@[j] == unfed(cs0[j]),
            forall|j: int| i <= j < cs0.len() ==> #[trigger] citizens@[j] == cs0[j],
        decreases citizens.len() - i,
    {
        citizens[i].fed_today = false;
        i += 1;
    }
    let mut i: usize = 0;
    while i < citizens.len()
        invariant
            i <= citizens.len(),
            citizens@.len() == cs0.len(),
            ({
                let p = feed_prefix(cs0, ws0, res0, policy, i as nat);
                &&& citizens@.take(i as int) == p.0
                &&& warehouses@ == p.1
                &&& *resources == p.2
            }),
            forall|j: int| i <= j < cs0.len() ==> #[trigger] citizens@[j] == unfed(cs0[j]),
        decreases citizens.len() - i,
    {
        let eaten = feed_one_exec(warehouses, resources, policy);
        if eaten != 0 {
            citizens[i].fed_today = true;
            citizens[i].last_food_mask = citizens[i].last_food_mask | eaten;
        }
        proof {
            let p = feed_prefix(cs0, ws0, res0, policy, (i + 1) as nat);
            assert(citizens@.take(i + 1) =~= p.0);
        }
        i += 1;
    }
    proof {
        assert(citizens@.take(cs0.len() as int) =~= citizens@);
    }
}

// ---------------------------------------------------------------- happiness

/// A house stands at `p`.
pub open spec fn house_at(bs: Seq<Building>, p: Pos) -> bool {
    exists|j: int| 0 <= j < bs.len() && #[trigger] bs[j].kind == BuildingKind::House && bs[j].pos == p
}

pub open spec fn clamp_int(v: int, lo: int, hi: int) -> int {
    if v < lo {
        lo
    } else if v > hi {
        hi
    } else {
        v
    }
}

/// A citizen's happiness for the day: 50, plus the feeding bonus or the
/// starving penalty, plus the variety bonus when it ate both bread and fish,
/// plus the house bonus when it was fed and a house stands at its home;
/// clamped to 0..=100.
pub open spec fn day_happiness(c: Citizen, bs: Seq<Building>, cfg: EconomyConfig) -> int {
    clamp_int(
        50 + (if c.fed_today {
            cfg.happy_feed_bonus as int
        } else {
            cfg.happy_starving_penalty as int
        }) + (if c.last_food_mask & 3u8 == 3u8 {
            cfg.happy_variety_bonus as int
        } else {
            0
        }) + (if house_at(bs, c.home) && c.fed_today {
            cfg.happy_house_bonus as int
        } else {
            0
        }),
        0,
        100,
    )
}

/// The citizen with its day's happiness set and its food mask cleared.
pub open spec fn after_day_mood(c: Citizen, bs: Seq<Building>, cfg: EconomyConfig) -> Citizen {
    Citizen { happiness: day_happiness(c, bs, cfg) as u8, last_food_mask: 0, ..c }
}

/// Sum of the day's happiness of the first `n` citizens.
pub open spec fn happiness_total(cs: Seq<Citizen>, bs: Seq<Building>, cfg: EconomyConfig, n: nat) -> int
    decreases n,
{
    if n == 0 {
        0
    } else {
        happiness_total(cs, bs, cfg, (n - 1) as nat) + day_happiness(cs[n - 1], bs, cfg)
    }
}

proof fn lemma_happiness_total_bounds(cs: Seq<Citizen>, bs: Seq<Building>, cfg: EconomyConfig, n: nat)
    ensures
        0 <= happiness_total(cs, bs, cfg, n) <= 100 * n,
    decreases n,
{
    if n > 0 {
        lemma_happiness_total_bounds(cs, bs, cfg, (n - 1) as nat);
    }
}

/// A day's happiness is a score out of 100: each citizen's lies between 0
/// and 100, so the colony's total lies between 0 and 100 per citizen.
pub proof fn lemma_happiness_in_range(cs: Seq<Citizen>, bs: Seq<Building>, cfg: EconomyConfig, k: int)
    requires
        0 <= k < cs.len(),
    ensures
        0 <= after_day_mood(cs[k], bs, cfg).happiness <= 100,
        0 <= happiness_total(cs, bs, cfg, cs.len()) <= 100 * cs.len(),
{
    lemma_happiness_total_bounds(cs, bs, cfg, cs.len());
}

fn has_house_at(buildings: &Vec<Building>, p: Pos) -> (r: bool)
    ensures
        r == house_at(buildings@, p),
{
    let mut i: usize = 0;
    while i < buildings.len()
        invariant
            i <= buildings.len(),
            forall|j: int| 0 <= j < i ==> !(#[trigger] buildings@[j].kind == BuildingKind::House && buildings@[j].pos == p),
        decreases buildings.len() - i,
    {
        if buildings[i].kind == BuildingKind::House && buildings[i].pos == p {
            return true;
        }
        i += 1;
    }
    false
}

/// Recompute every citizen's happiness for the day and clear its food mask;
/// returns the sum of the new happiness values.
pub fn update_happiness(citizens: &mut Vec<Citizen>, buildings: &Vec<Building>, cfg: &EconomyConfig) -> (sum: i128)
    ensures
        final(citizens)@.len() == old(citizens)@.len(),
        forall|j: int|
            0 <= j < old(citizens)@.len() ==> #[trigger] final(citizens)@[j] == after_day_mood(
                old(citizens)@[j],
                buildings@,
                *cfg,
            ),
        sum == happiness_total(old(citizens)@, buildings@, *cfg, old(citizens)@.len()),
{
    let ghost cs0 = citizens@;
    let mut sum: i128 = 0;
    let mut i: usize = 0;
    while i < citizens.len()
        invariant
            i <= citizens.len(),
            citizens@.len() == cs0.len(),
            sum == happiness_total(cs0, buildings@, *cfg, i as nat),
            forall|j: int| 0 <= j < i ==> #[trigger] citizens@[j] == after_day_mood(cs0[j], buildings@, *cfg),
            forall|j: int| i <= j < cs0.len() ==> #[trigger] citizens@[j] == cs0[j],
        decreases citizens.len() - i,
    {
        proof {
            lemma_happiness_total_bounds(cs0, buildings@, *cfg, i as nat);
        }
        let fed = citizens[i].fed_today;
        let mut h: i64 = 50;
        if fed {
            h = h + cfg.happy_feed_bonus as i64;
        } else {
            h = h + cfg.happy_starving_penalty as i64;
        }
        if citizens[i].last_food_mask & 3u8 == 3u8 {
            h = h + cfg.happy_variety_bonus as i64;
        }
        let home = citizens[i].home;
        if has_house_at(buildings, home) && fed {
            h = h + cfg.happy_house_bonus as i64;
        }
        let clamped: i64 = if h < 0 {
            0
        } else if h > 100 {
            100
        } else {
            h
        };
        citizens[i].happiness = clamped as u8;
        citizens[i].last_food_mask = 0;
        sum = sum + clamped as i128;
        i += 1;
    }
    sum
}

// ---------------------------------------------------------------- upkeep

/// Upkeep of the first `n` buildings.
pub open spec fn upkeep_total(bs: Seq<Building>, cfg: EconomyConfig, n: nat) -> int
    decreases n,
{
    if n == 0 {
        0
    } else {
        upkeep_total(bs, cfg, (n - 1) as nat) + cfg.upkeep_spec(bs[n - 1].kind)
    }
}

/// The daily upkeep of all buildings.
pub fn buildings_upkeep(buildings: &Vec<Building>, cfg: &EconomyConfig) -> (r: i128)
    ensures
        r == upkeep_total(buildings@, *cfg, buildings@.len()),
{
    let mut total: i128 = 0;
    let mut i: usize = 0;
    while i < buildings.len()
        invariant
            i <= buildings.len(),
            total == upkeep_total(buildings@, *cfg, i as nat),
            -(i as int) * 0x8000_0000 <= total <= (i as int) * 0x8000_0000,
        decreases buildings.len() - i,
    {
        total = total + cfg.upkeep(buildings[i].kind) as i128;
        i += 1;
    }
    total
}

/// `v`, or zero when it is negative.
pub open spec fn non_negative(v: i32) -> int {
    if v > 0 {
        v as int
    } else {
        0
    }
}

/// Book the day's tax income and building upkeep on the gold stock; negative
/// amounts count as zero. Returns the income and upkeep booked.
pub fn settle_gold(resources: &mut Resources, income: i32, upkeep: i32) -> (r: (i32, i32))
    requires
        i32::MIN <= old(resources).gold + non_negative(income) - non_negative(upkeep) <= i32::MAX,
        old(resources).gold + non_negative(income) <= i32::MAX,
    ensures
        r.0 == non_negative(income),
        r.1 == non_negative(upkeep),
        *final(resources) == old(resources).with(ResourceKind::Gold, (old(resources).gold + r.0 - r.1) as i32),
{
    let inc = if income > 0 { income } else { 0 };
    let upk = if upkeep > 0 { upkeep } else { 0 };
    resources.gold = resources.gold + inc;
    resources.gold = resources.gold - upk;
    (inc, upk)
}

// ---------------------------------------------------------------- migration

/// Number of the first `n` citizens whose home is `p`.
pub open spec fn residents(cs: Seq<Citizen>, p: Pos, n: nat) -> int
    decreases n,
{
    if n == 0 {
        0
    } else {
        residents(cs, p, (n - 1) as nat) + if cs[n - 1].home == p { 1int } else { 0 }
    }
}

/// Index of the first house at or after `i` with fewer residents than its
/// capacity, or -1.
pub open spec fn free_house_from(cs: Seq<Citizen>, bs: Seq<Building>, i: int) -> int
    decreases bs.len() - i,
{
    if i < 0 || i >= bs.len() {
        -1
    } else if bs[i].kind == BuildingKind::House && residents(cs, bs[i].pos, cs.len()) < bs[i].capacity {
        i
    } else {
        free_house_from(cs, bs, i + 1)
    }
}

/// Index of the first citizen at or after `i` whose workplace is not pinned, or -1.
pub open spec fn first_unpinned_from(cs: Seq<Citizen>, i: int) -> int
    decreases cs.len() - i,
{
    if i < 0 || i >= cs.len() {
        -1
    } else if !cs[i].manual_workplace {
        i
    } else {
        first_unpinned_from(cs, i + 1)
    }
}

/// A new arrival living at `home`: idle there, fed, happiness 55, with no
/// job, cargo or path.
pub open spec fn is_newcomer(c: Citizen, home: Pos) -> bool {
    &&& c.pos == home
    &&& c.target == home
    &&& !c.moving
    &&& c.progress == 0
    &&& !c.carrying_log
    &&& c.assigned_job is None
    &&& c.idle_timer_ms == 0
    &&& c.home == home
    &&& c.workplace is None
    &&& c.state == CitizenState::Idle
    &&& c.work_timer_ms == 0
    &&& c.carrying is None
    &&& c.pending_input is None
    &&& c.path@.len() == 0
    &&& c.path_index == 0
    &&& c.fed_today
    &&& !c.manual_workplace
    &&& c.happiness == 55
    &&& c.last_food_mask == 0
}

fn count_residents(citizens: &Vec<Citizen>, p: Pos) -> (r: usize)
    ensures
        r == residents(citizens@, p, citizens@.len()),
{
    let mut n: usize = 0;
    let mut i: usize = 0;
    while i < citizens.len()
        invariant
            i <= citizens.len(),
            n == residents(citizens@, p, i as nat),
            n <= i,
        decreases citizens.len() - i,
    {
        if citizens[i].home == p {
            n += 1;
        }
        i += 1;
    }
    n
}

/// The citizens `cs2` after a day's migration from `cs`: with `join`, a
/// newcomer in the first house with room, if any; otherwise with `leave`,
/// the first citizen without a pinned workplace gone, if any.
pub open spec fn migrated(cs: Seq<Citizen>, cs2: Seq<Citizen>, bs: Seq<Building>, join: bool, leave: bool) -> bool {
    if join {
        let f = free_house_from(cs, bs, 0);
        if f >= 0 {
            cs2.len() == cs.len() + 1 && cs2.drop_last() == cs && is_newcomer(cs2.last(), bs[f].pos)
        } else {
            cs2 == cs
        }
    } else if leave {
        let u = first_unpinned_from(cs, 0);
        if u >= 0 {
            cs2 == cs.remove(u)
        } else {
            cs2 == cs
        }
    } else {
        cs2 == cs
    }
}

proof fn lemma_free_house(cs: Seq<Citizen>, bs: Seq<Building>, i: int)
    requires
        0 <= i,
    ensures
        free_house_from(cs, bs, i) >= 0 ==> {
            let f = free_house_from(cs, bs, i);
            &&& i <= f < bs.len()
            &&& bs[f].kind == BuildingKind::House
            &&& residents(cs, bs[f].pos, cs.len()) < bs[f].capacity
        },
    decreases bs.len() - i,
{
    if i < bs.len() {
        lemma_free_house(cs, bs, i + 1);
    }
}

proof fn lemma_first_unpinned(cs: Seq<Citizen>, i: int)
    requires
        0 <= i,
    ensures
        first_unpinned_from(cs, i) >= 0 ==> i <= first_unpinned_from(cs, i) < cs.len() && !cs[first_unpinned_from(
            cs,
            i,
        )].manual_workplace,
    decreases cs.len() - i,
{
    if i < cs.len() {
        lemma_first_unpinned(cs, i + 1);
    }
}

/// Migration moves at most one citizen a day: a newcomer only moves into a
/// house that has room, only a citizen without a pinned workplace leaves,
/// and everyone else stays, in order.
pub proof fn lemma_migration_moves_one(cs: Seq<Citizen>, cs2: Seq<Citizen>, bs: Seq<Building>, join: bool, leave: bool)
    requires
        migrated(cs, cs2, bs, join, leave),
    ensures
        cs.len() <= cs2.len() + 1,
        cs2.len() <= cs.len() + 1,
        cs2.len() == cs.len() + 1 ==> cs2.drop_last() == cs && exists|f: int|
            0 <= f < bs.len() && #[trigger] bs[f].kind == BuildingKind::House && residents(cs, bs[f].pos, cs.len())
                < bs[f].capacity && cs2.last().home == bs[f].pos,
        cs2.len() + 1 == cs.len() ==> exists|u: int|
            0 <= u < cs.len() && !(#[trigger] cs[u]).manual_workplace && cs2 == cs.remove(u),
{
    lemma_free_house(cs, bs, 0);
    lemma_first_unpinned(cs, 0);
    if join && free_house_from(cs, bs, 0) >= 0 {
        let f = free_house_from(cs, bs, 0);
        assert(bs[f].kind == BuildingKind::House);
    }
    if !join && leave && first_unpinned_from(cs, 0) >= 0 {
        let u = first_unpinned_from(cs, 0);
        assert(!cs[u].manual_workplace);
    }
}

/// Daily migration. When `join` holds (happiness is high enough) and some
/// house has a free place, one newcomer moves into the first such house;
/// otherwise, when `leave` holds (happiness is too low), the first citizen
/// without a pinned workplace leaves.
pub fn migrate(citizens: &mut Vec<Citizen>, buildings: &Vec<Building>, join: bool, leave: bool)
    ensures
        migrated(old(citizens)@, final(citizens)@, buildings@, join, leave),
{
    if join {
        let mut i: usize = 0;
        while i < buildings.len()
            invariant
                join,
                i <= buildings.len(),
                citizens@ == old(citizens)@,
                free_house_from(citizens@, buildings@, 0) == free_house_from(citizens@, buildings@, i as int),
            decreases buildings.len() - i,
        {
            let b = buildings[i];
            if b.kind == BuildingKind::House {
                let used = count_residents(citizens, b.pos);
                if b.capacity > 0 && used < (b.capacity as usize) {
                    let home = b.pos;
                    citizens.push(
                        Citizen {
                            pos: home,
                            target: home,
                            moving: false,
                            progress: 0,
                            carrying_log: false,
                            assigned_job: None,
                            idle_timer_ms: 0,
                            home,
                            workplace: None,
                            state: CitizenState::Idle,
                            work_timer_ms: 0,
                            carrying: None,
                            pending_input: None,
                            path: Vec::new(),
                            path_index: 0,
                            fed_today: true,
                            manual_workplace: false,
                            happiness: 55,
                            last_food_mask: 0,
                        },
                    );
                    proof {
                        assert(citizens@.drop_last() =~= old(citizens)@);
                    }
                    return;
                }
            }
            i += 1;
        }
    } else if leave {
        let mut i: usize = 0;
        while i < citizens.len()
            invariant
                !join,
                leave,
                i <= citizens.len(),
                citizens@ == old(citizens)@,
                first_unpinned_from(citizens@, 0) == first_unpinned_from(citizens@, i as int),
            decreases citizens.len() - i,
        {
            if !citizens[i].manual_workplace {
                citizens.remove(i);
                return;
            }
            i += 1;
        }
    }
}

} // verus!
