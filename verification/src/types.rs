//! Plain data of the simulation: positions, kinds, stocks, buildings,
//! citizens and jobs.

use vstd::prelude::*;

verus! {

/// A tile position on the isometric grid.
#[derive(Clone, Copy, Debug, PartialEq, Eq, Structural, Hash)]
pub struct Pos {
    pub x: i32,
    pub y: i32,
}

impl Pos {
    pub fn new(x: i32, y: i32) -> (p: Pos)
        ensures
            p.x == x,
            p.y == y,
    {
        Pos { x, y }
    }
}

/// Manhattan distance between two tiles.
pub open spec fn manhattan(a: Pos, b: Pos) -> int {
    abs_int(a.x - b.x) + abs_int(a.y - b.y)
}

pub open spec fn abs_int(v: int) -> int {
    if v < 0 {
        -v
    } else {
        v
    }
}

/// Manhattan distance, computed without overflow.
pub fn manhattan_distance(a: Pos, b: Pos) -> (d: i64)
    ensures
        d == manhattan(a, b),
{
    let dx: i64 = a.x as i64 - b.x as i64;
    let dy: i64 = a.y as i64 - b.y as i64;
    let ax: i64 = if dx < 0 {
        -dx
    } else {
        dx
    };
    let ay: i64 = if dy < 0 {
        -dy
    } else {
        dy
    };
    ax + ay
}

#[derive(Clone, Copy, Debug, PartialEq, Eq, Structural, Hash)]
pub enum BuildingKind {
    Lumberjack,
    House,
    Warehouse,
    Forester,
    StoneQuarry,
    ClayPit,
    Kiln,
    WheatField,
    Mill,
    Bakery,
    Fishery,
    IronMine,
    Smelter,
}

#[derive(Clone, Copy, Debug, PartialEq, Eq, Structural, Hash)]
pub enum ResourceKind {
    Wood,
    Stone,
    Clay,
    Bricks,
    Wheat,
    Flour,
    Bread,
    Fish,
    Gold,
    IronOre,
    IronIngot,
}

#[derive(Clone, Copy, Debug, PartialEq, Eq, Structural, Hash)]
pub enum TileKind {
    Grass,
    Forest,
    Water,
}

#[derive(Clone, Copy, Debug, PartialEq, Eq, Structural, Hash)]
pub enum BiomeKind {
    Meadow,
    Swamp,
    Rocky,
}

#[derive(Clone, Copy, Debug, PartialEq, Eq, Structural, Hash)]
pub enum WeatherKind {
    Clear,
    Rain,
    Fog,
    Snow,
}

#[derive(Clone, Copy, Debug, PartialEq, Eq, Structural, Hash)]
pub enum FoodPolicy {
    Balanced,
    BreadFirst,
    FishFirst,
}

#[derive(Clone, Copy, Debug, PartialEq, Eq, Structural, Hash)]
pub enum CitizenState {
    Idle,
    GoingToWork,
    Working,
    GoingToDeposit,
    GoingToFetch,
    GoingHome,
    Sleeping,
}

/// The colony's global stock.
#[derive(Clone, Copy, Debug, PartialEq, Eq, Structural)]
pub struct Resources {
    pub wood: i32,
    pub stone: i32,
    pub clay: i32,
    pub bricks: i32,
    pub wheat: i32,
    pub flour: i32,
    pub bread: i32,
    pub fish: i32,
    pub gold: i32,
    pub iron_ore: i32,
    pub iron_ingots: i32,
}

impl Resources {
    pub open spec fn zero() -> Resources {
        Resources {
            wood: 0,
            stone: 0,
            clay: 0,
            bricks: 0,
            wheat: 0,
            flour: 0,
            bread: 0,
            fish: 0,
            gold: 0,
            iron_ore: 0,
            iron_ingots: 0,
        }
    }
}

impl Resources {
    pub open spec fn get(self, kind: ResourceKind) -> i32 {
        match kind {
            ResourceKind::Wood => self.wood,
            ResourceKind::Stone => self.stone,
            ResourceKind::Clay => self.clay,
            ResourceKind::Bricks => self.bricks,
            ResourceKind::Wheat => self.wheat,
            ResourceKind::Flour => self.flour,
            ResourceKind::Bread => self.bread,
            ResourceKind::Fish => self.fish,
            ResourceKind::Gold => self.gold,
            ResourceKind::IronOre => self.iron_ore,
            ResourceKind::IronIngot => self.iron_ingots,
        }
    }

    /// The stock with the amount of `kind` set to `v`.
    pub open spec fn with(self, kind: ResourceKind, v: i32) -> Resources {
        match kind {
            ResourceKind::Wood => Resources { wood: v, ..self },
            ResourceKind::Stone => Resources { stone: v, ..self },
            ResourceKind::Clay => Resources { clay: v, ..self },
            ResourceKind::Bricks => Resources { bricks: v, ..self },
            ResourceKind::Wheat => Resources { wheat: v, ..self },
            ResourceKind::Flour => Resources { flour: v, ..self },
            ResourceKind::Bread => Resources { bread: v, ..self },
            ResourceKind::Fish => Resources { fish: v, ..self },
            ResourceKind::Gold => Resources { gold: v, ..self },
            ResourceKind::IronOre => Resources { iron_ore: v, ..self },
            ResourceKind::IronIngot => Resources { iron_ingots: v, ..self },
        }
    }

    pub fn amount(&self, kind: ResourceKind) -> (r: i32)
        ensures
            r == self.get(kind),
    {
        match kind {
            ResourceKind::Wood => self.wood,
            ResourceKind::Stone => self.stone,
            ResourceKind::Clay => self.clay,
            ResourceKind::Bricks => self.bricks,
            ResourceKind::Wheat => self.wheat,
            ResourceKind::Flour => self.flour,
            ResourceKind::Bread => self.bread,
            ResourceKind::Fish => self.fish,
            ResourceKind::Gold => self.gold,
            ResourceKind::IronOre => self.iron_ore,
            ResourceKind::IronIngot => self.iron_ingots,
        }
    }

    pub fn set_amount(&mut self, kind: ResourceKind, v: i32)
        ensures
            *final(self) == old(self).with(kind, v),
    {
        match kind {
            ResourceKind::Wood => self.wood = v,
            ResourceKind::Stone => self.stone = v,
            ResourceKind::Clay => self.clay = v,
            ResourceKind::Bricks => self.bricks = v,
            ResourceKind::Wheat => self.wheat = v,
            ResourceKind::Flour => self.flour = v,
            ResourceKind::Bread => self.bread = v,
            ResourceKind::Fish => self.fish = v,
            ResourceKind::Gold => self.gold = v,
            ResourceKind::IronOre => self.iron_ore = v,
            ResourceKind::IronIngot => self.iron_ingots = v,
        }
    }
}

impl Default for Resources {
    fn default() -> (r: Resources)
        ensures
            r == Resources::zero(),
    {
        Resources {
            wood: 0,
            stone: 0,
            clay: 0,
            bricks: 0,
            wheat: 0,
            flour: 0,
            bread: 0,
            fish: 0,
            gold: 0,
            iron_ore: 0,
            iron_ingots: 0,
        }
    }
}


/// A building placed on the map.
#[derive(Clone, Copy, Debug, PartialEq, Eq, Structural)]
pub struct Building {
    pub kind: BuildingKind,
    pub pos: Pos,
    pub timer_ms: i32,
    /// How many workers the building wants.
    pub workers_target: i32,
    /// How many citizens a house holds.
    pub capacity: i32,
}

/// A log lying on the ground after a tree was felled.
#[derive(Clone, Copy, Debug, PartialEq, Eq, Structural)]
pub struct LogItem {
    pub pos: Pos,
    pub carried: bool,
}

#[derive(Clone, Copy, Debug, PartialEq, Eq, Structural)]
pub enum JobKind {
    /// Fell the tree at `pos`.
    ChopWood { pos: Pos },
    /// Carry the log at `from` to the warehouse at `to`.
    HaulWood { from: Pos, to: Pos },
}

#[derive(Clone, Copy, Debug, PartialEq, Eq, Structural)]
pub struct Job {
    pub id: u64,
    pub kind: JobKind,
    pub taken: bool,
    pub done: bool,
}

/// A citizen of the colony.
#[derive(Clone, Debug)]
pub struct Citizen {
    pub pos: Pos,
    /// The tile the citizen is stepping to.
    pub target: Pos,
    pub moving: bool,
    /// Milliseconds already spent on the current step.
    pub progress: i32,
    pub carrying_log: bool,
    pub assigned_job: Option<u64>,
    pub idle_timer_ms: i32,
    pub home: Pos,
    pub workplace: Option<Pos>,
    pub state: CitizenState,
    pub work_timer_ms: i32,
    pub carrying: Option<(ResourceKind, i32)>,
    pub pending_input: Option<ResourceKind>,
    pub path: Vec<Pos>,
    pub path_index: usize,
    pub fed_today: bool,
    pub manual_workplace: bool,
    pub happiness: u8,
    /// Bit 0: ate bread today, bit 1: ate fish today.
    pub last_food_mask: u8,
}

/// A warehouse and the goods it stores.
#[derive(Clone, Copy, Debug, PartialEq, Eq, Structural)]
pub struct WarehouseStore {
    pub pos: Pos,
    pub wood: i32,
    pub stone: i32,
    pub clay: i32,
    pub bricks: i32,
    pub wheat: i32,
    pub flour: i32,
    pub bread: i32,
    pub fish: i32,
    pub gold: i32,
    pub iron_ore: i32,
    pub iron_ingots: i32,
}

impl WarehouseStore {
    pub open spec fn stock_of(self, kind: ResourceKind) -> i32 {
        match kind {
            ResourceKind::Wood => self.wood,
            ResourceKind::Stone => self.stone,
            ResourceKind::Clay => self.clay,
            ResourceKind::Bricks => self.bricks,
            ResourceKind::Wheat => self.wheat,
            ResourceKind::Flour => self.flour,
            ResourceKind::Bread => self.bread,
            ResourceKind::Fish => self.fish,
            ResourceKind::Gold => self.gold,
            ResourceKind::IronOre => self.iron_ore,
            ResourceKind::IronIngot => self.iron_ingots,
        }
    }

    /// The store with the stock of `kind` set to `v`.
    pub open spec fn with_stock(self, kind: ResourceKind, v: i32) -> WarehouseStore {
        match kind {
            ResourceKind::Wood => WarehouseStore { wood: v, ..self },
            ResourceKind::Stone => WarehouseStore { stone: v, ..self },
            ResourceKind::Clay => WarehouseStore { clay: v, ..self },
            ResourceKind::Bricks => WarehouseStore { bricks: v, ..self },
            ResourceKind::Wheat => WarehouseStore { wheat: v, ..self },
            ResourceKind::Flour => WarehouseStore { flour: v, ..self },
            ResourceKind::Bread => WarehouseStore { bread: v, ..self },
            ResourceKind::Fish => WarehouseStore { fish: v, ..self },
            ResourceKind::Gold => WarehouseStore { gold: v, ..self },
            ResourceKind::IronOre => WarehouseStore { iron_ore: v, ..self },
            ResourceKind::IronIngot => WarehouseStore { iron_ingots: v, ..self },
        }
    }

    /// An empty warehouse at `pos`.
    pub fn new(pos: Pos) -> (w: WarehouseStore)
        ensures
            w.pos == pos,
            forall|k: ResourceKind| #[trigger] w.stock_of(k) == 0,
    {
        WarehouseStore {
            pos,
            wood: 0,
            stone: 0,
            clay: 0,
            bricks: 0,
            wheat: 0,
            flour: 0,
            bread: 0,
            fish: 0,
            gold: 0,
            iron_ore: 0,
            iron_ingots: 0,
        }
    }

    /// How much of `kind` the warehouse holds.
    pub fn amount(&self, kind: ResourceKind) -> (r: i32)
        ensures
            r == self.stock_of(kind),
    {
        match kind {
            ResourceKind::Wood => self.wood,
            ResourceKind::Stone => self.stone,
            ResourceKind::Clay => self.clay,
            ResourceKind::Bricks => self.bricks,
            ResourceKind::Wheat => self.wheat,
            ResourceKind::Flour => self.flour,
            ResourceKind::Bread => self.bread,
            ResourceKind::Fish => self.fish,
            ResourceKind::Gold => self.gold,
            ResourceKind::IronOre => self.iron_ore,
            ResourceKind::IronIngot => self.iron_ingots,
        }
    }

    /// Whether the warehouse holds at least `n` of `kind`.
    pub fn has_enough(&self, kind: ResourceKind, n: i32) -> (r: bool)
        ensures
            r == (self.stock_of(kind) >= n),
    {
        self.amount(kind) >= n
    }

    /// Set the stock of `kind`.
    pub fn set_amount(&mut self, kind: ResourceKind, v: i32)
        ensures
            *final(self) == old(self).with_stock(kind, v),
    {
        match kind {
            ResourceKind::Wood => self.wood = v,
            ResourceKind::Stone => self.stone = v,
            ResourceKind::Clay => self.clay = v,
            ResourceKind::Bricks => self.bricks = v,
            ResourceKind::Wheat => self.wheat = v,
            ResourceKind::Flour => self.flour = v,
            ResourceKind::Bread => self.bread = v,
            ResourceKind::Fish => self.fish = v,
            ResourceKind::Gold => self.gold = v,
            ResourceKind::IronOre => self.iron_ore = v,
            ResourceKind::IronIngot => self.iron_ingots = v,
        }
    }

    /// Take `n` of `kind` out of the warehouse (a negative `n` puts some in).
    pub fn spend(&mut self, kind: ResourceKind, n: i32)
        requires
            i32::MIN <= old(self).stock_of(kind) - n <= i32::MAX,
        ensures
            *final(self) == old(self).with_stock(kind, (old(self).stock_of(kind) - n) as i32),
    {
        let cur = self.amount(kind);
        self.set_amount(kind, cur - n);
    }
}

/// Reading a kind of resource back after setting it gives the value set;
/// every other kind keeps its amount. The same holds of a warehouse's stock.
pub proof fn lemma_amount_after_set(r: Resources, w: WarehouseStore, kind: ResourceKind, v: i32, other: ResourceKind)
    ensures
        r.with(kind, v).get(kind) == v,
        other != kind ==> r.with(kind, v).get(other) == r.get(other),
        w.with_stock(kind, v).stock_of(kind) == v,
        other != kind ==> w.with_stock(kind, v).stock_of(other) == w.stock_of(other),
        w.with_stock(kind, v).pos == w.pos,
{
}

/// Index of the nearest of the first `n` warehouses (the first one on ties), or -1.
pub open spec fn nearest_index(ws: Seq<WarehouseStore>, pos: Pos, n: int) -> int
    decreases n,
{
    if n <= 0 {
        -1
    } else {
        let b = nearest_index(ws, pos, n - 1);
        if b < 0 || manhattan(ws[n - 1].pos, pos) < manhattan(ws[b].pos, pos) {
            n - 1
        } else {
            b
        }
    }
}

/// Position of the warehouse nearest to `pos`, the first one on ties.
pub open spec fn nearest_warehouse(ws: Seq<WarehouseStore>, pos: Pos) -> Option<Pos> {
    let i = nearest_index(ws, pos, ws.len() as int);
    if i >= 0 {
        Some(ws[i].pos)
    } else {
        None
    }
}

/// The nearest warehouse is one of them, and no warehouse is closer.
pub proof fn lemma_nearest_is_closest(ws: Seq<WarehouseStore>, pos: Pos, n: int)
    requires
        0 <= n <= ws.len(),
    ensures
        n == 0 <==> nearest_index(ws, pos, n) == -1,
        n > 0 ==> 0 <= nearest_index(ws, pos, n) < n,
        n > 0 ==> forall|j: int|
            0 <= j < n ==> manhattan(ws[nearest_index(ws, pos, n)].pos, pos) <= manhattan(#[trigger] ws[j].pos, pos),
    decreases n,
{
    if n > 0 {
        lemma_nearest_is_closest(ws, pos, n - 1);
    }
}

/// Position of the nearest warehouse, the first one on ties.
pub fn find_nearest_warehouse(warehouses: &Vec<WarehouseStore>, pos: Pos) -> (r: Option<Pos>)
    ensures
        r == nearest_warehouse(warehouses@, pos),
{
    let mut best: Option<usize> = None;
    let mut best_d: i64 = 0;
    let mut i: usize = 0;
    while i < warehouses.len()
        invariant
            i <= warehouses.len(),
            best matches Some(b) ==> b == nearest_index(warehouses@, pos, i as int) && b < i && best_d == manhattan(
                warehouses@[b as int].pos,
                pos,
            ),
            best is None ==> nearest_index(warehouses@, pos, i as int) == -1,
            best is None ==> i == 0,
        decreases warehouses.len() - i,
    {
        let d = manhattan_distance(warehouses[i].pos, pos);
        match best {
            None => {
                best = Some(i);
                best_d = d;
            },
            Some(_) => {
                if d < best_d {
                    best = Some(i);
                    best_d = d;
                }
            },
        }
        i += 1;
    }
    match best {
        Some(b) => Some(warehouses[b].pos),
        None => None,
    }
}

/// Sum of the global stock and every warehouse's stock.
pub open spec fn sum_stock(ws: Seq<WarehouseStore>, kind: ResourceKind) -> int
    decreases ws.len(),
{
    if ws.len() == 0 {
        0
    } else {
        sum_stock(ws.drop_last(), kind) + ws.last().stock_of(kind)
    }
}

/// All the `kind` the colony holds: the global stock and every warehouse's.
pub open spec fn total_stock(ws: Seq<WarehouseStore>, res: Resources, kind: ResourceKind) -> int {
    sum_stock(ws, kind) + res.get(kind)
}

/// All the `kind` the colony holds.
pub fn stock_total(ws: &Vec<WarehouseStore>, res: &Resources, kind: ResourceKind) -> (r: i128)
    ensures
        r == total_stock(ws@, *res, kind),
{
    let mut total: i128 = 0;
    let mut i: usize = 0;
    while i < ws.len()
        invariant
            i <= ws.len(),
            total == sum_stock(ws@.take(i as int), kind),
            -(i as int) * 0x8000_0000 <= total <= (i as int) * 0x8000_0000,
        decreases ws.len() - i,
    {
        proof {
            assert(ws@.take(i + 1).drop_last() =~= ws@.take(i as int));
        }
        total = total + ws[i].amount(kind) as i128;
        i += 1;
    }
    proof {
        assert(ws@.take(ws.len() as int) =~= ws@);
    }
    total + res.amount(kind) as i128
}

/// Every kind's total fits in an `i32`.
pub open spec fn totals_fit(ws: Seq<WarehouseStore>, res: Resources) -> bool {
    forall|kind: ResourceKind| i32::MIN <= #[trigger] total_stock(ws, res, kind) <= i32::MAX
}

/// The colony's whole stock, kind by kind.
pub open spec fn colony_total(ws: Seq<WarehouseStore>, res: Resources) -> Resources {
    Resources {
        wood: total_stock(ws, res, ResourceKind::Wood) as i32,
        stone: total_stock(ws, res, ResourceKind::Stone) as i32,
        clay: total_stock(ws, res, ResourceKind::Clay) as i32,
        bricks: total_stock(ws, res, ResourceKind::Bricks) as i32,
        wheat: total_stock(ws, res, ResourceKind::Wheat) as i32,
        flour: total_stock(ws, res, ResourceKind::Flour) as i32,
        bread: total_stock(ws, res, ResourceKind::Bread) as i32,
        fish: total_stock(ws, res, ResourceKind::Fish) as i32,
        gold: total_stock(ws, res, ResourceKind::Gold) as i32,
        iron_ore: total_stock(ws, res, ResourceKind::IronOre) as i32,
        iron_ingots: total_stock(ws, res, ResourceKind::IronIngot) as i32,
    }
}

/// The colony's whole stock: the global stock plus every warehouse's.
pub fn total_resources(warehouses: &Vec<WarehouseStore>, resources: &Resources) -> (t: Resources)
    requires
        totals_fit(warehouses@, *resources),
    ensures
        forall|kind: ResourceKind| #[trigger] t.get(kind) == total_stock(warehouses@, *resources, kind),
        t == colony_total(warehouses@, *resources),
{
    let ghost ws = warehouses@;
    let ghost res = *resources;
    assert(i32::MIN <= total_stock(ws, res, ResourceKind::Wood) <= i32::MAX);
    assert(i32::MIN <= total_stock(ws, res, ResourceKind::Stone) <= i32::MAX);
    assert(i32::MIN <= total_stock(ws, res, ResourceKind::Clay) <= i32::MAX);
    assert(i32::MIN <= total_stock(ws, res, ResourceKind::Bricks) <= i32::MAX);
    assert(i32::MIN <= total_stock(ws, res, ResourceKind::Wheat) <= i32::MAX);
    assert(i32::MIN <= total_stock(ws, res, ResourceKind::Flour) <= i32::MAX);
    assert(i32::MIN <= total_stock(ws, res, ResourceKind::Bread) <= i32::MAX);
    assert(i32::MIN <= total_stock(ws, res, ResourceKind::Fish) <= i32::MAX);
    assert(i32::MIN <= total_stock(ws, res, ResourceKind::Gold) <= i32::MAX);
    assert(i32::MIN <= total_stock(ws, res, ResourceKind::IronOre) <= i32::MAX);
    assert(i32::MIN <= total_stock(ws, res, ResourceKind::IronIngot) <= i32::MAX);
    let t = Resources {
        wood: stock_total(warehouses, resources, ResourceKind::Wood) as i32,
        stone: stock_total(warehouses, resources, ResourceKind::Stone) as i32,
        clay: stock_total(warehouses, resources, ResourceKind::Clay) as i32,
        bricks: stock_total(warehouses, resources, ResourceKind::Bricks) as i32,
        wheat: stock_total(warehouses, resources, ResourceKind::Wheat) as i32,
        flour: stock_total(warehouses, resources, ResourceKind::Flour) as i32,
        bread: stock_total(warehouses, resources, ResourceKind::Bread) as i32,
        fish: stock_total(warehouses, resources, ResourceKind::Fish) as i32,
        gold: stock_total(warehouses, resources, ResourceKind::Gold) as i32,
        iron_ore: stock_total(warehouses, resources, ResourceKind::IronOre) as i32,
        iron_ingots: stock_total(warehouses, resources, ResourceKind::IronIngot) as i32,
    };
    assert forall|kind: ResourceKind| #[trigger] t.get(kind) == total_stock(ws, res, kind) by {
        match kind {
            _ => {},
        }
    }
    t
}

} // verus!
