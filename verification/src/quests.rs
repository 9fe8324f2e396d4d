//! Quests: goals for the player, their progress checks, and new quests
//! drawn at random.

use vstd::prelude::*;
use rand::rngs::StdRng;
use rand::Rng;
use crate::types::{
    Building, BuildingKind, ResourceKind, Resources, WarehouseStore, colony_total, stock_total, total_resources,
    total_stock, totals_fit,
};
use crate::text::{decimal, decimal_text};
use crate::input::same_text;

verus! {

#[verifier::external_type_specification]
#[verifier::external_body]
pub struct ExStdRng(StdRng);

/// `Rng::random_range` on `lo..hi` for `i32`: a value drawn from the range.
#[verifier::external_body]
fn roll_i32(rng: &mut StdRng, lo: i32, hi: i32) -> (r: i32)
    requires
        lo < hi,
    ensures
        lo <= r < hi,
{
    rng.random_range(lo..hi)
}

/// `Rng::random_range` on `0..n` for `usize`: an index drawn below `n`.
#[verifier::external_body]
pub(crate) fn roll_index(rng: &mut StdRng, n: usize) -> (r: usize)
    requires
        n > 0,
    ensures
        r < n,
{
    rng.random_range(0..n)
}

/// What a quest asks for, with the progress last seen.
#[derive(Clone, Debug, PartialEq, Eq)]
pub enum QuestKind {
    CollectResource { resource_name: String, target_amount: i32, current_amount: i32 },
    BuildBuildings { building_kind: BuildingKind, target_count: i32, current_count: i32 },
    ReachPopulation { target_population: i32, current_population: i32 },
    CollectGold { target_amount: i32, current_amount: i32 },
}

/// A quest.
#[derive(Clone, Debug)]
pub struct Quest {
    pub id: u32,
    pub kind: QuestKind,
    pub title: String,
    pub description: String,
    pub reward_gold: i32,
    pub completed: bool,
}

// ---------------------------------------------------------------- progress

/// The stock a resource quest counts, by the resource's name; 0 for an
/// unknown name.
pub open spec fn named_total(name: Seq<char>, t: Resources) -> i32 {
    if name == "Wood"@ {
        t.wood
    } else if name == "Stone"@ {
        t.stone
    } else if name == "Clay"@ {
        t.clay
    } else if name == "Bricks"@ {
        t.bricks
    } else if name == "Wheat"@ {
        t.wheat
    } else if name == "Flour"@ {
        t.flour
    } else if name == "Bread"@ {
        t.bread
    } else if name == "Fish"@ {
        t.fish
    } else if name == "Iron Ore"@ {
        t.iron_ore
    } else if name == "Iron Ingots"@ {
        t.iron_ingots
    } else {
        0
    }
}

fn named_total_exec(name: &String, t: &Resources) -> (r: i32)
    ensures
        r == named_total(name@, *t),
{
    let s = name.as_str();
    if same_text(s, "Wood") {
        t.wood
    } else if same_text(s, "Stone") {
        t.stone
    } else if same_text(s, "Clay") {
        t.clay
    } else if same_text(s, "Bricks") {
        t.bricks
    } else if same_text(s, "Wheat") {
        t.wheat
    } else if same_text(s, "Flour") {
        t.flour
    } else if same_text(s, "Bread") {
        t.bread
    } else if same_text(s, "Fish") {
        t.fish
    } else if same_text(s, "Iron Ore") {
        t.iron_ore
    } else if same_text(s, "Iron Ingots") {
        t.iron_ingots
    } else {
        0
    }
}

/// How many of the first `n` buildings are of kind `k`.
pub open spec fn kinds_built(bs: Seq<Building>, k: BuildingKind, n: int) -> int
    decreases n,
{
    if n <= 0 {
        0
    } else {
        kinds_built(bs, k, n - 1) + if bs[n - 1].kind == k {
            1int
        } else {
            0
        }
    }
}

proof fn lemma_kinds_built_bound(bs: Seq<Building>, k: BuildingKind, n: int)
    requires
        n >= 0,
    ensures
        0 <= kinds_built(bs, k, n) <= n,
    decreases n,
{
    if n > 0 {
        lemma_kinds_built_bound(bs, k, n - 1);
    }
}

/// How many buildings are of kind `k`.
pub fn count_kind(buildings: &Vec<Building>, k: BuildingKind) -> (r: usize)
    ensures
        r == kinds_built(buildings@, k, buildings.len() as int),
{
    let mut n: usize = 0;
    let mut i: usize = 0;
    while i < buildings.len()
        invariant
            i <= buildings.len(),
            n == kinds_built(buildings@, k, i as int),
        decreases buildings.len() - i,
    {
        proof {
            lemma_kinds_built_bound(buildings@, k, i as int);
        }
        if buildings[i].kind == k {
            n += 1;
        }
        i += 1;
    }
    n
}

/// The quest's goal with its progress brought up to date.
pub open spec fn progress(k: QuestKind, t: Resources, bs: Seq<Building>, pop: i32) -> QuestKind {
    match k {
        QuestKind::CollectResource { resource_name, target_amount, .. } => QuestKind::CollectResource {
            resource_name,
            target_amount,
            current_amount: named_total(resource_name@, t),
        },
        QuestKind::BuildBuildings { building_kind, target_count, .. } => QuestKind::BuildBuildings {
            building_kind,
            target_count,
            current_count: kinds_built(bs, building_kind, bs.len() as int) as i32,
        },
        QuestKind::ReachPopulation { target_population, .. } => QuestKind::ReachPopulation {
            target_population,
            current_population: pop,
        },
        QuestKind::CollectGold { target_amount, .. } => QuestKind::CollectGold {
            target_amount,
            current_amount: t.gold,
        },
    }
}

/// The progress has reached the goal.
pub open spec fn reached(k: QuestKind) -> bool {
    match k {
        QuestKind::CollectResource { target_amount, current_amount, .. } => current_amount >= target_amount,
        QuestKind::BuildBuildings { target_count, current_count, .. } => current_count >= target_count,
        QuestKind::ReachPopulation { target_population, current_population } => current_population
            >= target_population,
        QuestKind::CollectGold { target_amount, current_amount } => current_amount >= target_amount,
    }
}

/// An open quest with its progress brought up to date and marked completed
/// when the goal is reached.
pub open spec fn refreshed(q: Quest, t: Resources, bs: Seq<Building>, pop: i32) -> Quest {
    Quest { kind: progress(q.kind, t, bs, pop), completed: reached(progress(q.kind, t, bs, pop)), ..q }
}

/// The quest is open and reaches its goal now.
pub open spec fn newly_done(q: Quest, t: Resources, bs: Seq<Building>, pop: i32) -> bool {
    !q.completed && reached(progress(q.kind, t, bs, pop))
}

/// The quest is open and stays open.
pub open spec fn stays_open(q: Quest, t: Resources, bs: Seq<Building>, pop: i32) -> bool {
    !q.completed && !reached(progress(q.kind, t, bs, pop))
}

/// A check splits the quests that were open: no quest left open has reached
/// its goal, every quest reported is completed, and each quest that was
/// open lands in exactly one of the two lists.
pub proof fn lemma_check_partitions(qs: Seq<Quest>, t: Resources, bs: Seq<Building>, pop: i32)
    ensures
        ({
            let kept = qs.filter(|q: Quest| stays_open(q, t, bs, pop)).map_values(
                |q: Quest| refreshed(q, t, bs, pop),
            );
            let done = qs.filter(|q: Quest| newly_done(q, t, bs, pop)).map_values(
                |q: Quest| refreshed(q, t, bs, pop),
            );
            &&& forall|i: int| 0 <= i < kept.len() ==> !(#[trigger] kept[i]).completed
            &&& forall|i: int| 0 <= i < done.len() ==> (#[trigger] done[i]).completed
            &&& kept.len() + done.len() == qs.filter(|q: Quest| !q.completed).len()
        }),
    decreases qs.len(),
{
    let open_p = |q: Quest| stays_open(q, t, bs, pop);
    let done_p = |q: Quest| newly_done(q, t, bs, pop);
    let live_p = |q: Quest| !q.completed;
    let f = |q: Quest| refreshed(q, t, bs, pop);
    broadcast use vstd::seq_lib::group_filter_ensures;
    assert forall|i: int| 0 <= i < qs.filter(open_p).len() implies !f(qs.filter(open_p)[i]).completed by {
        assert(open_p(qs.filter(open_p)[i]));
    }
    assert forall|i: int| 0 <= i < qs.filter(done_p).len() implies f(qs.filter(done_p)[i]).completed by {
        assert(done_p(qs.filter(done_p)[i]));
    }
    reveal(Seq::filter);
    if qs.len() > 0 {
        lemma_check_partitions(qs.drop_last(), t, bs, pop);
        assert(qs.drop_last().filter(open_p).map_values(f).len() == qs.drop_last().filter(open_p).len());
        assert(qs.drop_last().filter(done_p).map_values(f).len() == qs.drop_last().filter(done_p).len());
    }
}

fn progress_exec(k: &QuestKind, t: &Resources, buildings: &Vec<Building>, population: i32) -> (r: QuestKind)
    ensures
        r == progress(*k, *t, buildings@, population),
{
    match k {
        QuestKind::CollectResource { resource_name, target_amount, .. } => QuestKind::CollectResource {
            resource_name: resource_name.clone(),
            target_amount: *target_amount,
            current_amount: named_total_exec(resource_name, t),
        },
        QuestKind::BuildBuildings { building_kind, target_count, .. } => QuestKind::BuildBuildings {
            building_kind: *building_kind,
            target_count: *target_count,
            current_count: count_kind(buildings, *building_kind) as i32,
        },
        QuestKind::ReachPopulation { target_population, .. } => QuestKind::ReachPopulation {
            target_population: *target_population,
            current_population: population,
        },
        QuestKind::CollectGold { target_amount, .. } => QuestKind::CollectGold {
            target_amount: *target_amount,
            current_amount: t.gold,
        },
    }
}

fn reached_exec(k: &QuestKind) -> (r: bool)
    ensures
        r == reached(*k),
{
    match k {
        QuestKind::CollectResource { target_amount, current_amount, .. } => *current_amount >= *target_amount,
        QuestKind::BuildBuildings { target_count, current_count, .. } => *current_count >= *target_count,
        QuestKind::ReachPopulation { target_population, current_population } => *current_population
            >= *target_population,
        QuestKind::CollectGold { target_amount, current_amount } => *current_amount >= *target_amount,
    }
}

/// Bring every open quest up to date against the colony's whole stock `t`,
/// its buildings and its population; the quests that reach their goal are
/// returned, in order, and leave the list together with those completed
/// before.
pub fn check_quests(quests: &mut Vec<Quest>, t: &Resources, buildings: &Vec<Building>, population: i32) -> (done:
    Vec<Quest>)
    ensures
        final(quests)@ == old(quests)@.filter(|q: Quest| stays_open(q, *t, buildings@, population)).map_values(
            |q: Quest| refreshed(q, *t, buildings@, population),
        ),
        done@ == old(quests)@.filter(|q: Quest| newly_done(q, *t, buildings@, population)).map_values(
            |q: Quest| refreshed(q, *t, buildings@, population),
        ),
{
    let ghost qs = quests@;
    let ghost open_p = |q: Quest| stays_open(q, *t, buildings@, population);
    let ghost done_p = |q: Quest| newly_done(q, *t, buildings@, population);
    let ghost f = |q: Quest| refreshed(q, *t, buildings@, population);
    let mut kept: Vec<Quest> = Vec::new();
    let mut done: Vec<Quest> = Vec::new();
    let mut i: usize = 0;
    while i < quests.len()
        invariant
            i <= quests.len(),
            quests@ == qs,
            open_p == (|q: Quest| stays_open(q, *t, buildings@, population)),
            done_p == (|q: Quest| newly_done(q, *t, buildings@, population)),
            f == (|q: Quest| refreshed(q, *t, buildings@, population)),
            kept@ == qs.take(i as int).filter(open_p).map_values(f),
            done@ == qs.take(i as int).filter(done_p).map_values(f),
        decreases quests.len() - i,
    {
        let q = &quests[i];
        proof {
            reveal(Seq::filter);
            assert(qs.take(i + 1).drop_last() =~= qs.take(i as int));
            assert(qs.take(i + 1).last() == *q);
        }
        if !q.completed {
            let k2 = progress_exec(&q.kind, t, buildings, population);
            let finished = reached_exec(&k2);
            let q2 = Quest {
                id: q.id,
                kind: k2,
                title: q.title.clone(),
                description: q.description.clone(),
                reward_gold: q.reward_gold,
                completed: finished,
            };
            assert(q2 == f(*q));
            if finished {
                proof {
                    assert(qs.take(i + 1).filter(done_p) == qs.take(i as int).filter(done_p).push(*q));
                    assert(qs.take(i + 1).filter(open_p) == qs.take(i as int).filter(open_p));
                    assert(qs.take(i as int).filter(done_p).push(*q).map_values(f) =~= qs.take(i as int).filter(
                        done_p,
                    ).map_values(f).push(f(*q)));
                }
                done.push(q2);
            } else {
                proof {
                    assert(qs.take(i + 1).filter(open_p) == qs.take(i as int).filter(open_p).push(*q));
                    assert(qs.take(i + 1).filter(done_p) == qs.take(i as int).filter(done_p));
                    assert(qs.take(i as int).filter(open_p).push(*q).map_values(f) =~= qs.take(i as int).filter(
                        open_p,
                    ).map_values(f).push(f(*q)));
                }
                kept.push(q2);
            }
        } else {
            proof {
                assert(qs.take(i + 1).filter(open_p) == qs.take(i as int).filter(open_p));
                assert(qs.take(i + 1).filter(done_p) == qs.take(i as int).filter(done_p));
            }
        }
        i += 1;
    }
    proof {
        assert(qs.take(qs.len() as int) =~= qs);
    }
    *quests = kept;
    done
}

// ---------------------------------------------------------------- new quests

/// Half of `v`, rounded towards zero.
pub open spec fn half_toward_zero(v: int) -> int {
    if v >= 0 {
        v / 2
    } else {
        -((-v) / 2)
    }
}

pub open spec fn max_int(a: int, b: int) -> int {
    if a >= b {
        a
    } else {
        b
    }
}

/// The resources a collection quest may ask for, by pick.
pub open spec fn resource_pick(i: int) -> Seq<char> {
    if i == 0 {
        "Wood"@
    } else if i == 1 {
        "Stone"@
    } else if i == 2 {
        "Clay"@
    } else if i == 3 {
        "Bricks"@
    } else if i == 4 {
        "Wheat"@
    } else if i == 5 {
        "Bread"@
    } else {
        "Fish"@
    }
}

/// The stock of the resource picked.
pub open spec fn resource_pick_amount(i: int, t: Resources) -> i32 {
    if i == 0 {
        t.wood
    } else if i == 1 {
        t.stone
    } else if i == 2 {
        t.clay
    } else if i == 3 {
        t.bricks
    } else if i == 4 {
        t.wheat
    } else if i == 5 {
        t.bread
    } else {
        t.fish
    }
}

/// `q` asks to collect `extra` more of the resource picked than the colony
/// holds now.
pub open spec fn is_collect_quest(q: Quest, id: u32, pick: int, extra: int, t: Resources) -> bool {
    let name = resource_pick(pick);
    let current = resource_pick_amount(pick, t);
    let target = current + extra;
    &&& q.id == id
    &&& q.kind matches QuestKind::CollectResource { resource_name, target_amount, current_amount }
        && resource_name@ == name && target_amount == target && current_amount == current
    &&& q.title@ == "Collect "@ + decimal(target) + " "@ + name
    &&& q.description@ == "Gather "@ + decimal(target) + " units of "@ + name
    &&& q.reward_gold == max_int(half_toward_zero(target), 10)
    &&& !q.completed
}

/// A quest to collect `extra` more of the resource `pick` (Wood, Stone,
/// Clay, Bricks, Wheat, Bread, Fish).
pub fn collect_resource_quest(id: u32, pick: usize, extra: i32, t: &Resources) -> (q: Quest)
    requires
        pick < 7,
        10 <= extra,
        resource_pick_amount(pick as int, *t) + extra <= i32::MAX,
    ensures
        is_collect_quest(q, id, pick as int, extra as int, *t),
{
    let (name, current): (&str, i32) = if pick == 0 {
        ("Wood", t.wood)
    } else if pick == 1 {
        ("Stone", t.stone)
    } else if pick == 2 {
        ("Clay", t.clay)
    } else if pick == 3 {
        ("Bricks", t.bricks)
    } else if pick == 4 {
        ("Wheat", t.wheat)
    } else if pick == 5 {
        ("Bread", t.bread)
    } else {
        ("Fish", t.fish)
    };
    let target = current + extra;
    let half = if target >= 0 {
        target / 2
    } else {
        -((-target) / 2)
    };
    let mut title = String::from_str("Collect ");
    title.append(decimal_text(target as i64).as_str());
    title.append(" ");
    title.append(name);
    let mut description = String::from_str("Gather ");
    description.append(decimal_text(target as i64).as_str());
    description.append(" units of ");
    description.append(name);
    Quest {
        id,
        kind: QuestKind::CollectResource {
            resource_name: String::from_str(name),
            target_amount: target,
            current_amount: current,
        },
        title,
        description,
        reward_gold: if half >= 10 {
            half
        } else {
            10
        },
        completed: false,
    }
}

/// The kinds a building quest may ask for, by pick.
pub open spec fn building_pick(i: int) -> BuildingKind {
    if i == 0 {
        BuildingKind::House
    } else if i == 1 {
        BuildingKind::Lumberjack
    } else if i == 2 {
        BuildingKind::Warehouse
    } else if i == 3 {
        BuildingKind::WheatField
    } else {
        BuildingKind::Fishery
    }
}

/// How a building quest names the kind it asks for.
pub open spec fn building_plural(k: BuildingKind) -> Seq<char> {
    match k {
        BuildingKind::House => "Houses"@,
        BuildingKind::Lumberjack => "Lumberjacks"@,
        BuildingKind::Warehouse => "Warehouses"@,
        BuildingKind::WheatField => "Wheat Fields"@,
        BuildingKind::Fishery => "Fisheries"@,
        _ => "Buildings"@,
    }
}

/// `q` asks for `extra` more buildings of the kind picked than stand now.
pub open spec fn is_build_quest(q: Quest, id: u32, pick: int, extra: int, bs: Seq<Building>) -> bool {
    let kind = building_pick(pick);
    let current = kinds_built(bs, kind, bs.len() as int) as i32;
    let target = current + extra;
    let name = building_plural(kind);
    &&& q.id == id
    &&& q.kind == QuestKind::BuildBuildings { building_kind: kind, target_count: target as i32, current_count: current }
    &&& q.title@ == "Build "@ + decimal(target) + " "@ + name
    &&& q.description@ == "Construct "@ + decimal(target) + " "@ + name
    &&& q.reward_gold == max_int(target * 20, 20)
    &&& !q.completed
}

/// The colony is small enough for a building quest's reward.
pub open spec fn buildings_fit(bs: Seq<Building>) -> bool {
    bs.len() <= 100_000_000
}

/// A quest for `extra` more buildings of kind `pick` (House, Lumberjack,
/// Warehouse, WheatField, Fishery).
pub fn build_quest(id: u32, pick: usize, extra: i32, buildings: &Vec<Building>) -> (q: Quest)
    requires
        pick < 5,
        1 <= extra < 4,
        buildings_fit(buildings@),
    ensures
        is_build_quest(q, id, pick as int, extra as int, buildings@),
{
    let kind = if pick == 0 {
        BuildingKind::House
    } else if pick == 1 {
        BuildingKind::Lumberjack
    } else if pick == 2 {
        BuildingKind::Warehouse
    } else if pick == 3 {
        BuildingKind::WheatField
    } else {
        BuildingKind::Fishery
    };
    let count = count_kind(buildings, kind);
    proof {
        lemma_kinds_built_bound(buildings@, kind, buildings.len() as int);
    }
    let current = count as i32;
    let target = current + extra;
    let reward = target * 20;
    let name: &str = match kind {
        BuildingKind::House => "Houses",
        BuildingKind::Lumberjack => "Lumberjacks",
        BuildingKind::Warehouse => "Warehouses",
        BuildingKind::WheatField => "Wheat Fields",
        BuildingKind::Fishery => "Fisheries",
        _ => "Buildings",
    };
    let mut title = String::from_str("Build ");
    title.append(decimal_text(target as i64).as_str());
    title.append(" ");
    title.append(name);
    let mut description = String::from_str("Construct ");
    description.append(decimal_text(target as i64).as_str());
    description.append(" ");
    description.append(name);
    Quest {
        id,
        kind: QuestKind::BuildBuildings { building_kind: kind, target_count: target, current_count: current },
        title,
        description,
        reward_gold: if reward >= 20 {
            reward
        } else {
            20
        },
        completed: false,
    }
}

/// `q` asks the population to grow by `extra`.
pub open spec fn is_population_quest(q: Quest, id: u32, extra: int, pop: i32) -> bool {
    let target = pop + extra;
    &&& q.id == id
    &&& q.kind == QuestKind::ReachPopulation { target_population: target as i32, current_population: pop }
    &&& q.title@ == "Reach "@ + decimal(target) + " Population"@
    &&& q.description@ == "Grow your population to "@ + decimal(target) + " citizens"@
    &&& q.reward_gold == max_int(extra * 5, 25)
    &&& !q.completed
}

/// A quest for `extra` more citizens.
pub fn population_quest(id: u32, extra: i32, population: i32) -> (q: Quest)
    requires
        5 <= extra < 15,
        population + extra <= i32::MAX,
    ensures
        is_population_quest(q, id, extra as int, population),
{
    let target = population + extra;
    let reward = (target - population) * 5;
    let mut title = String::from_str("Reach ");
    title.append(decimal_text(target as i64).as_str());
    title.append(" Population");
    let mut description = String::from_str("Grow your population to ");
    description.append(decimal_text(target as i64).as_str());
    description.append(" citizens");
    Quest {
        id,
        kind: QuestKind::ReachPopulation { target_population: target, current_population: population },
        title,
        description,
        reward_gold: if reward >= 25 {
            reward
        } else {
            25
        },
        completed: false,
    }
}

/// `q` asks for `extra` more gold than the colony holds now.
pub open spec fn is_gold_quest(q: Quest, id: u32, extra: int, t: Resources) -> bool {
    let target = t.gold + extra;
    &&& q.id == id
    &&& q.kind == QuestKind::CollectGold { target_amount: target as i32, current_amount: t.gold }
    &&& q.title@ == "Collect "@ + decimal(target) + " Gold"@
    &&& q.description@ == "Accumulate "@ + decimal(target) + " gold coins"@
    &&& q.reward_gold == max_int(extra / 5, 30)
    &&& !q.completed
}

/// A quest for `extra` more gold.
pub fn gold_quest(id: u32, extra: i32, t: &Resources) -> (q: Quest)
    requires
        50 <= extra < 200,
        t.gold + extra <= i32::MAX,
    ensures
        is_gold_quest(q, id, extra as int, *t),
{
    let target = t.gold + extra;
    let reward = (target - t.gold) / 5;
    let mut title = String::from_str("Collect ");
    title.append(decimal_text(target as i64).as_str());
    title.append(" Gold");
    let mut description = String::from_str("Accumulate ");
    description.append(decimal_text(target as i64).as_str());
    description.append(" gold coins");
    Quest {
        id,
        kind: QuestKind::CollectGold { target_amount: target, current_amount: t.gold },
        title,
        description,
        reward_gold: if reward >= 30 {
            reward
        } else {
            30
        },
        completed: false,
    }
}

/// `q` is the quest drawn with kind `k`, pick `pick` and amount `extra`,
/// each within the range it is drawn from.
pub open spec fn quest_drawn(
    q: Quest,
    id: u32,
    k: int,
    pick: int,
    extra: int,
    t: Resources,
    bs: Seq<Building>,
    pop: i32,
) -> bool {
    if k == 0 {
        0 <= pick < 7 && 10 <= extra < 50 && is_collect_quest(q, id, pick, extra, t)
    } else if k == 1 {
        0 <= pick < 5 && 1 <= extra < 4 && is_build_quest(q, id, pick, extra, bs)
    } else if k == 2 {
        5 <= extra < 15 && is_population_quest(q, id, extra, pop)
    } else if k == 3 {
        50 <= extra < 200 && is_gold_quest(q, id, extra, t)
    } else {
        false
    }
}

/// Every quest that can be drawn fits the integer ranges.
pub open spec fn draw_fits(t: Resources, bs: Seq<Building>, pop: i32) -> bool {
    &&& forall|i: int| 0 <= i < 7 ==> #[trigger] resource_pick_amount(i, t) + 49 <= i32::MAX
    &&& buildings_fit(bs)
    &&& pop + 14 <= i32::MAX
    &&& t.gold + 199 <= i32::MAX
}

proof fn lemma_pick_total(i: int, t: Resources)
    requires
        0 <= i < 7,
    ensures
        named_total(resource_pick(i), t) == resource_pick_amount(i, t),
{
    reveal_strlit("Wood");
    reveal_strlit("Stone");
    reveal_strlit("Clay");
    reveal_strlit("Bricks");
    reveal_strlit("Wheat");
    reveal_strlit("Flour");
    reveal_strlit("Bread");
    reveal_strlit("Fish");
    reveal_strlit("Iron Ore");
    reveal_strlit("Iron Ingots");
    let w = "Wood"@;
    let st = "Stone"@;
    let c = "Clay"@;
    let b = "Bricks"@;
    let wh = "Wheat"@;
    let f = "Flour"@;
    let br = "Bread"@;
    assert(st[0] != w[0]);
    assert(c[0] != w[0] && c[0] != st[0]);
    assert(b[0] != w[0] && b[0] != st[0] && b[0] != c[0]);
    assert(wh.len() != w.len() && wh[0] != st[0] && wh[0] != c[0] && wh[0] != b[0]);
    assert(br[0] != w[0] && br[0] != st[0] && br[0] != c[0] && br.len() != b.len() && br[0] != wh[0] && br[0] != f[0]);
    assert("Fish"@[0] != w[0] && "Fish"@[0] != st[0] && "Fish"@[0] != c[0] && "Fish"@[0] != b[0] && "Fish"@[0] != wh[0]
        && "Fish"@[1] != f[1] && "Fish"@[0] != br[0]);
}

/// A quest just drawn has not reached its goal against the stock it was
/// drawn from.
proof fn lemma_drawn_not_reached(
    q: Quest,
    id: u32,
    k: int,
    pick: int,
    extra: int,
    t: Resources,
    bs: Seq<Building>,
    pop: i32,
)
    requires
        quest_drawn(q, id, k, pick, extra, t, bs, pop),
        draw_fits(t, bs, pop),
    ensures
        !reached(progress(q.kind, t, bs, pop)),
        !q.completed,
        q.id == id,
{
    if k == 0 {
        lemma_pick_total(pick, t);
    } else if k == 1 {
        lemma_kinds_built_bound(bs, building_pick(pick), bs.len() as int);
    }
}

/// Some quest of `qs` carries `id`.
pub open spec fn has_quest_id(qs: Seq<Quest>, id: u32) -> bool {
    exists|i: int| 0 <= i < qs.len() && qs[i].id == id
}

/// An update of at most three open quests with distinct ids, drawing (when
/// `drawn`, and only with fewer than three) a quest with a fresh id, leaves
/// at most three quests open and none of them completed; it reports only
/// completed quests, each an old one (the quest just drawn never completes
/// in the same update), and none of them stays among the open ones.
pub proof fn lemma_quest_update_law(
    qs: Seq<Quest>,
    drawn: bool,
    q: Quest,
    id: u32,
    k: int,
    pick: int,
    extra: int,
    t: Resources,
    bs: Seq<Building>,
    pop: i32,
)
    requires
        qs.len() <= 3,
        drawn ==> qs.len() < 3,
        forall|i: int| 0 <= i < qs.len() ==> !(#[trigger] qs[i]).completed,
        forall|i: int, j: int| 0 <= i < qs.len() && 0 <= j < qs.len() && i != j ==> (#[trigger] qs[i]).id != (#[trigger] qs[j]).id,
        drawn ==> forall|i: int| 0 <= i < qs.len() ==> (#[trigger] qs[i]).id != id,
        drawn ==> quest_drawn(q, id, k, pick, extra, t, bs, pop),
        draw_fits(t, bs, pop),
    ensures
        ({
            let all = if drawn { qs.push(q) } else { qs };
            let (kept, done) = checked(all, t, bs, pop);
            &&& kept.len() <= 3
            &&& forall|m: int| 0 <= m < kept.len() ==> !(#[trigger] kept[m]).completed
            &&& forall|j: int| 0 <= j < done.len() ==> (#[trigger] done[j]).completed
            &&& forall|j: int| 0 <= j < done.len() ==> #[trigger] has_quest_id(qs, done[j].id)
            &&& drawn ==> forall|j: int| 0 <= j < done.len() ==> (#[trigger] done[j]).id != id
            &&& forall|j: int, m: int| 0 <= j < done.len() && 0 <= m < kept.len() ==> (#[trigger] done[j]).id != (#[trigger] kept[m]).id
        }),
{
    let all = if drawn { qs.push(q) } else { qs };
    let so = |x: Quest| stays_open(x, t, bs, pop);
    let nd = |x: Quest| newly_done(x, t, bs, pop);
    let fk = all.filter(so);
    let fd = all.filter(nd);
    let (kept, done) = checked(all, t, bs, pop);
    lemma_check_partitions(all, t, bs, pop);
    all.lemma_filter_len(so);
    if drawn {
        lemma_drawn_not_reached(q, id, k, pick, extra, t, bs, pop);
    }
    // ids in `all` are distinct, and an entry at the end is the drawn quest
    assert forall|i: int, j: int| 0 <= i < all.len() && 0 <= j < all.len() && i != j implies (#[trigger] all[i]).id
        != (#[trigger] all[j]).id by {
        if drawn && (i == qs.len() || j == qs.len()) {
            if i == qs.len() {
                assert(qs[j] == all[j]);
            } else {
                assert(qs[i] == all[i]);
            }
        } else {
            assert(all[i] == qs[i] && all[j] == qs[j]);
        }
    }
    assert forall|j: int| 0 <= j < done.len() implies #[trigger] has_quest_id(qs, done[j].id) && (drawn ==> done[j].id != id) by {
        let x = fd[j];
        all.lemma_filter_pred(nd, j);
        assert(fd.contains(x));
        all.lemma_filter_contains_rev(nd, x);
        let i = choose|i: int| 0 <= i < all.len() && all[i] == x;
        assert(done[j] == refreshed(x, t, bs, pop));
        if drawn && i == qs.len() {
            assert(x == q);
        }
        assert(qs[i] == x);
        assert(qs[i].id == done[j].id);
    }
    assert forall|j: int, m: int| 0 <= j < done.len() && 0 <= m < kept.len() implies (#[trigger] done[j]).id != (#[trigger] kept[m]).id by {
        let x = fd[j];
        let y = fk[m];
        all.lemma_filter_pred(nd, j);
        all.lemma_filter_pred(so, m);
        assert(fd.contains(x));
        assert(fk.contains(y));
        all.lemma_filter_contains_rev(nd, x);
        all.lemma_filter_contains_rev(so, y);
        let i1 = choose|i: int| 0 <= i < all.len() && all[i] == x;
        let i2 = choose|i: int| 0 <= i < all.len() && all[i] == y;
        assert(i1 != i2);
        assert(done[j].id == x.id && kept[m].id == y.id);
    }
    assert(kept.len() == fk.len());
    assert(kept.len() <= 3);
    assert(forall|m: int| 0 <= m < kept.len() ==> !(#[trigger] kept[m]).completed);
    assert(forall|j: int| 0 <= j < done.len() ==> (#[trigger] done[j]).completed);
    assert forall|j: int| 0 <= j < done.len() implies drawn ==> (#[trigger] done[j]).id != id by {
        assert(has_quest_id(qs, done[j].id) && (drawn ==> done[j].id != id));
    }
}

/// Draw a new quest: its kind, then what it asks for and how much more
/// than the colony has now.
pub fn generate_random_quest(
    rng: &mut StdRng,
    quest_id: u32,
    total_resources: &Resources,
    buildings: &Vec<Building>,
    population: i32,
) -> (r: Option<Quest>)
    requires
        draw_fits(*total_resources, buildings@, population),
    ensures
        r is Some,
        exists|k: int, pick: int, extra: int|
            #[trigger] quest_drawn(r->0, quest_id, k, pick, extra, *total_resources, buildings@, population),
{
    let quest_type = roll_i32(rng, 0, 4);
    if quest_type == 0 {
        let idx = roll_index(rng, 7);
        let extra = roll_i32(rng, 10, 50);
        assert(resource_pick_amount(idx as int, *total_resources) + 49 <= i32::MAX);
        let q = collect_resource_quest(quest_id, idx, extra, total_resources);
        let r = Some(q);
        assert(quest_drawn(r->0, quest_id, 0, idx as int, extra as int, *total_resources, buildings@, population));
        r
    } else if quest_type == 1 {
        let idx = roll_index(rng, 5);
        let extra = roll_i32(rng, 1, 4);
        let q = build_quest(quest_id, idx, extra, buildings);
        let r = Some(q);
        assert(quest_drawn(r->0, quest_id, 1, idx as int, extra as int, *total_resources, buildings@, population));
        r
    } else if quest_type == 2 {
        let extra = roll_i32(rng, 5, 15);
        let q = population_quest(quest_id, extra, population);
        let r = Some(q);
        assert(quest_drawn(r->0, quest_id, 2, 0, extra as int, *total_resources, buildings@, population));
        r
    } else {
        let extra = roll_i32(rng, 50, 200);
        let q = gold_quest(quest_id, extra, total_resources);
        let r = Some(q);
        assert(quest_drawn(r->0, quest_id, 3, 0, extra as int, *total_resources, buildings@, population));
        r
    }
}

// ---------------------------------------------------------------- updates

/// One update of the quest list, `t` being the colony's whole stock:
/// the quests as they are after progress checks, and those completed.
pub open spec fn checked(qs: Seq<Quest>, t: Resources, bs: Seq<Building>, pop: i32) -> (Seq<Quest>, Seq<Quest>) {
    (
        qs.filter(|q: Quest| stays_open(q, t, bs, pop)).map_values(|q: Quest| refreshed(q, t, bs, pop)),
        qs.filter(|q: Quest| newly_done(q, t, bs, pop)).map_values(|q: Quest| refreshed(q, t, bs, pop)),
    )
}

/// Whether the total of `kind` the colony holds fits an `i32`.
fn kind_total_fits(warehouses: &Vec<WarehouseStore>, resources: &Resources, kind: ResourceKind) -> (b: bool)
    ensures
        b == (i32::MIN <= total_stock(warehouses@, *resources, kind) <= i32::MAX),
{
    let s = stock_total(warehouses, resources, kind);
    -0x8000_0000 <= s && s <= 0x7fff_ffff
}

/// Whether a quest update can run on this colony: the total of every kind
/// fits an `i32`, and so does every quest that can be drawn from those totals,
/// the buildings and the population.
pub fn quest_inputs_fit(
    warehouses: &Vec<WarehouseStore>,
    resources: &Resources,
    buildings: &Vec<Building>,
    population: i32,
) -> (b: bool)
    ensures
        b == (totals_fit(warehouses@, *resources) && draw_fits(
            colony_total(warehouses@, *resources),
            buildings@,
            population,
        )),
{
    let all = kind_total_fits(warehouses, resources, ResourceKind::Wood)
        && kind_total_fits(warehouses, resources, ResourceKind::Stone)
        && kind_total_fits(warehouses, resources, ResourceKind::Clay)
        && kind_total_fits(warehouses, resources, ResourceKind::Bricks)
        && kind_total_fits(warehouses, resources, ResourceKind::Wheat)
        && kind_total_fits(warehouses, resources, ResourceKind::Flour)
        && kind_total_fits(warehouses, resources, ResourceKind::Bread)
        && kind_total_fits(warehouses, resources, ResourceKind::Fish)
        && kind_total_fits(warehouses, resources, ResourceKind::Gold)
        && kind_total_fits(warehouses, resources, ResourceKind::IronOre)
        && kind_total_fits(warehouses, resources, ResourceKind::IronIngot);
    if !all {
        return false;
    }
    assert forall|k: ResourceKind| i32::MIN <= #[trigger] total_stock(warehouses@, *resources, k) <= i32::MAX by {
        match k {
            ResourceKind::Wood => {},
            ResourceKind::Stone => {},
            ResourceKind::Clay => {},
            ResourceKind::Bricks => {},
            ResourceKind::Wheat => {},
            ResourceKind::Flour => {},
            ResourceKind::Bread => {},
            ResourceKind::Fish => {},
            ResourceKind::Gold => {},
            ResourceKind::IronOre => {},
            ResourceKind::IronIngot => {},
        }
    }
    let t = total_resources(warehouses, resources);
    let room: i32 = 0x7fff_ffff - 49;
    let b = t.wood <= room && t.stone <= room && t.clay <= room && t.bricks <= room && t.wheat <= room
        && t.bread <= room && t.fish <= room && buildings.len() <= 100_000_000
        && population <= 0x7fff_ffff - 14 && t.gold <= 0x7fff_ffff - 199;
    proof {
        assert(resource_pick_amount(0, t) == t.wood);
        assert(resource_pick_amount(1, t) == t.stone);
        assert(resource_pick_amount(2, t) == t.clay);
        assert(resource_pick_amount(3, t) == t.bricks);
        assert(resource_pick_amount(4, t) == t.wheat);
        assert(resource_pick_amount(5, t) == t.bread);
        assert(resource_pick_amount(6, t) == t.fish);
    }
    b
}

/// Update the quests: when a new one is `due` and fewer than three are
/// active, one is drawn with the next id; then every open quest is checked
/// against the colony's whole stock. Returns the quests completed now and
/// whether a new one was drawn.
pub fn update_quests(
    quests: &mut Vec<Quest>,
    next_quest_id: &mut u32,
    due: bool,
    rng: &mut StdRng,
    resources: &Resources,
    warehouses: &Vec<WarehouseStore>,
    buildings: &Vec<Building>,
    population: i32,
) -> (r: (Vec<Quest>, bool))
    requires
        totals_fit(warehouses@, *resources),
        draw_fits(colony_total(warehouses@, *resources), buildings@, population),
        due && old(quests).len() < 3 ==> *old(next_quest_id) < u32::MAX,
    ensures
        ({
            let t = colony_total(warehouses@, *resources);
            if due && old(quests).len() < 3 {
                &&& r.1
                &&& *final(next_quest_id) == *old(next_quest_id) + 1
                &&& exists|q: Quest, k: int, pick: int, extra: int|
                    #[trigger] quest_drawn(q, *old(next_quest_id), k, pick, extra, t, buildings@, population)
                        && (final(quests)@, r.0@) == checked(old(quests)@.push(q), t, buildings@, population)
            } else {
                &&& !r.1
                &&& *final(next_quest_id) == *old(next_quest_id)
                &&& (final(quests)@, r.0@) == checked(old(quests)@, t, buildings@, population)
            }
        }),
{
    let t = total_resources(warehouses, resources);
    let mut drawn = false;
    if due && quests.len() < 3 {
        let q = generate_random_quest(rng, *next_quest_id, &t, buildings, population);
        match q {
            Some(new_quest) => {
                quests.push(new_quest);
                *next_quest_id = *next_quest_id + 1;
                drawn = true;
            },
            None => {},
        }
    }
    let done = check_quests(quests, &t, buildings, population);
    (done, drawn)
}

} // verus!
