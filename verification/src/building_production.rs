//! What a worker does at each kind of building: extract a resource, process
//! an input into an output, plant trees, fish, farm — one strategy per kind.
//!
//! Each call is one work tick. `production_time_ms` is the length of the
//! production cycle for this tick, with weather and biome already applied by
//! the caller.

use vstd::prelude::*;
use crate::types::{
    Pos, Citizen, CitizenState, Building, BuildingKind, ResourceKind, TileKind, WarehouseStore,
    nearest_warehouse, find_nearest_warehouse,
};
use crate::world::World;
use crate::game::{plan_path, route_planned};

verus! {

/// What a strategy does, as data.
pub enum ProductionPlan {
    /// Produce `output` from nothing.
    Extract { output: ResourceKind },
    /// Produce fish, only next to water.
    Fish,
    /// Turn one `input` into one `output`, spending `extra` from a warehouse.
    Process { input: ResourceKind, output: ResourceKind, extra: Option<(ResourceKind, i32)> },
    /// Plant trees around the building.
    PlantTrees,
    /// Nothing.
    Nothing,
}

/// Offset of the `k`-th tile of the forester's 13×13 search square, scanned
/// row by row from (-6, -6).
pub open spec fn scan_offset(k: int) -> (int, int) {
    (k % 13 - 6, k / 13 - 6)
}

/// The forester may plant at `p`: dry land with no tree, building or road,
/// and no road on its upper-left neighbour.
pub open spec fn plantable(w: World, p: Pos) -> bool {
    &&& w.tile_at(p) != TileKind::Water
    &&& w.tree_at(p) is None
    &&& !w.occupied_at(p)
    &&& !w.road_at(p)
    &&& !w.road_at(Pos { x: (p.x - 1) as i32, y: (p.y - 1) as i32 })
}

pub open spec fn scan_pos(center: Pos, k: int) -> Pos {
    Pos { x: (center.x + scan_offset(k).0) as i32, y: (center.y + scan_offset(k).1) as i32 }
}

pub open spec fn scan_dist(k: int) -> int {
    crate::types::abs_int(scan_offset(k).0) + crate::types::abs_int(scan_offset(k).1)
}

/// Index of the best plantable tile among the first `n` of the square:
/// the nearest (Manhattan), the first scanned on ties; -1 when none.
pub open spec fn best_plant_index(w: World, center: Pos, n: int) -> int
    decreases n,
{
    if n <= 0 {
        -1
    } else {
        let b = best_plant_index(w, center, n - 1);
        if plantable(w, scan_pos(center, n - 1)) && (b < 0 || scan_dist(n - 1) < scan_dist(b)) {
            n - 1
        } else {
            b
        }
    }
}

proof fn lemma_best_plant(w: World, center: Pos, n: int)
    requires
        n >= 0,
    ensures
        best_plant_index(w, center, n) == -1 || (0 <= best_plant_index(w, center, n) < n && plantable(
            w,
            scan_pos(center, best_plant_index(w, center, n)),
        )),
    decreases n,
{
    if n > 0 {
        lemma_best_plant(w, center, n - 1);
    }
}

/// Where the forester plants around `center`, if anywhere.
pub open spec fn forester_choice(w: World, center: Pos) -> Option<Pos> {
    let b = best_plant_index(w, center, 169);
    if b >= 0 {
        Some(scan_pos(center, b))
    } else {
        None
    }
}

/// Some side neighbour of `p` is water.
pub open spec fn water_near(w: World, p: Pos) -> bool {
    ||| w.tile_at(Pos { x: (p.x + 1) as i32, y: p.y }) == TileKind::Water
    ||| w.tile_at(Pos { x: (p.x - 1) as i32, y: p.y }) == TileKind::Water
    ||| w.tile_at(Pos { x: p.x, y: (p.y + 1) as i32 }) == TileKind::Water
    ||| w.tile_at(Pos { x: p.x, y: (p.y - 1) as i32 }) == TileKind::Water
}

/// The building position leaves room for every tile the strategies look at.
pub open spec fn pos_in_range(p: Pos) -> bool {
    i32::MIN + 7 <= p.x <= i32::MAX - 7 && i32::MIN + 7 <= p.y <= i32::MAX - 7
}

/// Whether a building at `p` is far enough from the ends of `i32`, as
/// `pos_in_range` states.
pub fn in_work_range(p: Pos) -> (b: bool)
    ensures
        b == pos_in_range(p),
{
    i32::MIN + 7 <= p.x && p.x <= i32::MAX - 7 && i32::MIN + 7 <= p.y && p.y <= i32::MAX - 7
}

/// Carrying one unit of `output`, the citizen `c1` sets off to the nearest
/// warehouse to deposit it (`r`); with no warehouse it stays as `c0`.
pub open spec fn delivered(
    w: World,
    c0: Citizen,
    c1: Citizen,
    ws: Seq<WarehouseStore>,
    from: Pos,
    output: ResourceKind,
    r: bool,
) -> bool {
    match nearest_warehouse(ws, from) {
        Some(dst) => {
            &&& r
            &&& c1.state == CitizenState::GoingToDeposit
            &&& route_planned(
                w,
                Citizen { carrying: Some((output, 1i32)), ..c0 },
                Citizen { state: c0.state, ..c1 },
                dst,
            )
        },
        None => !r && c1 == c0,
    }
}

/// Index of the first warehouse holding at least `n` of `kind`, or -1.
pub open spec fn first_with_at_least(ws: Seq<WarehouseStore>, kind: ResourceKind, n: i32, i: int) -> int
    decreases ws.len() - i,
{
    if i < 0 || i >= ws.len() {
        -1
    } else if ws[i].stock_of(kind) >= n {
        i
    } else {
        first_with_at_least(ws, kind, n, i + 1)
    }
}

proof fn lemma_first_with_at_least(ws: Seq<WarehouseStore>, kind: ResourceKind, n: i32, i: int)
    requires
        0 <= i <= ws.len(),
    ensures
        first_with_at_least(ws, kind, n, i) == -1 ==> forall|j: int| i <= j < ws.len() ==> ws[j].stock_of(kind) < n,
        first_with_at_least(ws, kind, n, i) != -1 ==> {
            let f = first_with_at_least(ws, kind, n, i);
            &&& i <= f < ws.len()
            &&& ws[f].stock_of(kind) >= n
            &&& forall|j: int| i <= j < f ==> ws[j].stock_of(kind) < n
        },
    decreases ws.len() - i,
{
    if i < ws.len() && ws[i].stock_of(kind) < n {
        lemma_first_with_at_least(ws, kind, n, i + 1);
    }
}

/// The warehouses after spending `extra` from the first one that has enough,
/// or `None` when none has.
pub open spec fn after_extra(ws: Seq<WarehouseStore>, extra: Option<(ResourceKind, i32)>) -> Option<Seq<WarehouseStore>> {
    match extra {
        None => Some(ws),
        Some((k, a)) => {
            let f = first_with_at_least(ws, k, a, 0);
            if f >= 0 {
                Some(ws.update(f, ws[f].with_stock(k, (ws[f].stock_of(k) - a) as i32)))
            } else {
                None
            }
        },
    }
}

/// Spending the plan's extra cost from any warehouse leaves a stock that is
/// an `i32` (only a negative cost, which adds to the stock, can fail this).
pub open spec fn plan_fits(plan: ProductionPlan, ws: Seq<WarehouseStore>) -> bool {
    match plan {
        ProductionPlan::Process { extra: Some((k, a)), .. } => forall|j: int|
            0 <= j < ws.len() ==> #[trigger] ws[j].stock_of(k) - a <= i32::MAX,
        _ => true,
    }
}

/// One work tick of a worker at building `b` under `plan`: world `w0`,
/// citizen `c0` and warehouses `ws0` before, `w1`, `c1`, `ws1` after, `r`
/// whether the tick did something.
pub open spec fn production_step(
    plan: ProductionPlan,
    w0: World,
    w1: World,
    c0: Citizen,
    c1: Citizen,
    b: Building,
    ws0: Seq<WarehouseStore>,
    ws1: Seq<WarehouseStore>,
    t: i32,
    r: bool,
) -> bool {
    let reset = Citizen { work_timer_ms: 0, ..c0 };
    match plan {
        ProductionPlan::Nothing => !r && c1 == c0 && w1 == w0 && ws1 == ws0,
        ProductionPlan::Extract { output } => {
            &&& w1 == w0
            &&& ws1 == ws0
            &&& if c0.carrying is Some || c0.work_timer_ms < t {
                !r && c1 == c0
            } else {
                delivered(w0, reset, c1, ws0, b.pos, output, r)
            }
        },
        ProductionPlan::Fish => {
            &&& w1 == w0
            &&& ws1 == ws0
            &&& if c0.carrying is Some || !water_near(w0, b.pos) || c0.work_timer_ms < t {
                !r && c1 == c0
            } else {
                delivered(w0, reset, c1, ws0, b.pos, ResourceKind::Fish, r)
            }
        },
        ProductionPlan::Process { input, output, extra } => {
            &&& w1 == w0
            &&& if !(c0.carrying matches Some(cargo) && cargo.0 == input) {
                &&& ws1 == ws0
                &&& if first_with_at_least(ws0, input, 1, 0) >= 0 {
                    r && c1 == Citizen {
                        pending_input: Some(input),
                        target: nearest_warehouse(ws0, b.pos)->Some_0,
                        moving: true,
                        progress: 0,
                        state: CitizenState::GoingToFetch,
                        ..c0
                    }
                } else {
                    !r && c1 == c0
                }
            } else if c0.work_timer_ms < t {
                !r && c1 == c0 && ws1 == ws0
            } else {
                match after_extra(ws0, extra) {
                    None => !r && c1 == reset && ws1 == ws0,
                    Some(ws) => ws1 == ws && delivered(w0, Citizen { carrying: None, ..reset }, c1, ws, b.pos, output, r),
                }
            }
        },
        ProductionPlan::PlantTrees => {
            &&& ws1 == ws0
            &&& if c0.work_timer_ms < t {
                !r && c1 == c0 && w1 == w0
            } else {
                &&& c1 == reset
                &&& match forester_choice(w0, b.pos) {
                    Some(p) => r && planted(w0, w1, p),
                    None => !r && w1 == w0,
                }
            }
        },
    }
}

/// What a work tick hands a worker to take to a warehouse: a worker sent
/// off to deposit carries exactly one unit of what the plan yields; a
/// processing building sends one off only after the worker brought its
/// input; and a tick that sends nobody off leaves the worker's cargo alone
/// or, fetching, leaves it empty-handed.
pub proof fn lemma_tick_yields_the_output(
    plan: ProductionPlan,
    w0: World,
    w1: World,
    c0: Citizen,
    c1: Citizen,
    b: Building,
    ws0: Seq<WarehouseStore>,
    ws1: Seq<WarehouseStore>,
    t: i32,
    r: bool,
)
    requires
        production_step(plan, w0, w1, c0, c1, b, ws0, ws1, t, r),
        c0.state != CitizenState::GoingToDeposit,
    ensures
        c1.state == CitizenState::GoingToDeposit ==> r && plan_output(plan) is Some && c1.carrying == Some(
            (plan_output(plan)->0, 1i32),
        ),
        c1.state == CitizenState::GoingToDeposit && plan_input(plan) is Some ==> (c0.carrying matches Some(cargo)
            && Some(cargo.0) == plan_input(plan)),
        c1.state != CitizenState::GoingToDeposit ==> c1.carrying == c0.carrying || c1.carrying is None,
{
}

/// `w1` is `w0` with a sapling planted at `p`.
pub open spec fn planted(w0: World, w1: World, p: Pos) -> bool {
    &&& w1.tiles == w0.tiles
    &&& w1.biomes == w0.biomes
    &&& w1.roads == w0.roads
    &&& w1.occupied == w0.occupied
    &&& forall|q: Pos| #[trigger] w1.tree_at(q) == if q == p {
        Some(0u8)
    } else {
        w0.tree_at(q)
    }
}

/// A building's production behaviour.
pub trait ProductionStrategy {
    spec fn plan(&self) -> ProductionPlan;

    /// One work tick of `citizen` at `building`.
    fn process_production(
        &self,
        citizen: &mut Citizen,
        building: &Building,
        warehouses: &mut Vec<WarehouseStore>,
        world: &mut World,
        production_time_ms: i32,
    ) -> (r: bool)
        requires
            pos_in_range(building.pos),
            plan_fits(self.plan(), old(warehouses)@),
        ensures
            production_step(
                self.plan(),
                *old(world),
                *final(world),
                *old(citizen),
                *final(citizen),
                *building,
                old(warehouses)@,
                final(warehouses)@,
                production_time_ms,
                r,
            ),
    ;

    /// Base length of a production cycle, in milliseconds.
    spec fn cycle_base(&self) -> i32;

    /// Base length of a production cycle, in milliseconds.
    fn base_production_time_ms(&self) -> (r: i32)
        ensures
            r == self.cycle_base(),
    ;

    /// The resource consumed by a cycle, if any.
    fn required_input_resource(&self) -> (r: Option<ResourceKind>)
        ensures
            r == match self.plan() {
                ProductionPlan::Process { input, .. } => Some(input),
                _ => None,
            },
    ;

    /// The resource produced by a cycle, if any.
    fn output_resource(&self) -> (r: Option<ResourceKind>)
        ensures
            r == match self.plan() {
                ProductionPlan::Extract { output } => Some(output),
                ProductionPlan::Fish => Some(ResourceKind::Fish),
                ProductionPlan::Process { output, .. } => Some(output),
                _ => None,
            },
    ;
}

/// Give the citizen one unit of `output` and send it to the nearest
/// warehouse; false when there is none.
fn deliver(
    world: &World,
    citizen: &mut Citizen,
    warehouses: &Vec<WarehouseStore>,
    from: Pos,
    output: ResourceKind,
) -> (r: bool)
    ensures
        delivered(*world, *old(citizen), *final(citizen), warehouses@, from, output, r),
{
    if let Some(dst) = find_nearest_warehouse(warehouses, from) {
        citizen.carrying = Some((output, 1));
        plan_path(world, citizen, dst);
        citizen.state = CitizenState::GoingToDeposit;
        return true;
    }
    false
}

/// Buildings that produce a resource from nothing (quarry, clay pit, mine).
pub struct ExtractionStrategy {
    output: ResourceKind,
    base_time_ms: i32,
}

impl ExtractionStrategy {
    pub closed spec fn output_kind(&self) -> ResourceKind {
        self.output
    }

    pub closed spec fn base_time(&self) -> i32 {
        self.base_time_ms
    }

    pub fn new(output: ResourceKind, base_time_ms: i32) -> (s: Self)
        ensures
            s.output_kind() == output,
            s.base_time() == base_time_ms,
    {
        Self { output, base_time_ms }
    }
}

impl ProductionStrategy for ExtractionStrategy {
    open spec fn plan(&self) -> ProductionPlan {
        ProductionPlan::Extract { output: self.output_kind() }
    }

    open spec fn cycle_base(&self) -> i32 {
        self.base_time()
    }

    fn process_production(
        &self,
        citizen: &mut Citizen,
        building: &Building,
        warehouses: &mut Vec<WarehouseStore>,
        world: &mut World,
        production_time_ms: i32,
    ) -> (r: bool) {
        if citizen.carrying.is_some() {
            return false;
        }
        if citizen.work_timer_ms >= production_time_ms {
            citizen.work_timer_ms = 0;
            return deliver(world, citizen, warehouses, building.pos, self.output);
        }
        false
    }

    fn base_production_time_ms(&self) -> (r: i32) {
        self.base_time_ms
    }

    fn required_input_resource(&self) -> (r: Option<ResourceKind>) {
        None
    }

    fn output_resource(&self) -> (r: Option<ResourceKind>) {
        Some(self.output)
    }
}

/// Buildings that turn an input into an output (mill, bakery, kiln, smelter).
pub struct ProcessingStrategy {
    input: ResourceKind,
    output: ResourceKind,
    base_time_ms: i32,
    /// Another resource spent from a warehouse per cycle (wood for the kiln).
    additional_cost: Option<(ResourceKind, i32)>,
}

impl ProcessingStrategy {
    pub closed spec fn input_kind(&self) -> ResourceKind {
        self.input
    }

    pub closed spec fn output_kind(&self) -> ResourceKind {
        self.output
    }

    pub closed spec fn base_time(&self) -> i32 {
        self.base_time_ms
    }

    pub closed spec fn extra_cost(&self) -> Option<(ResourceKind, i32)> {
        self.additional_cost
    }

    pub fn new(input: ResourceKind, output: ResourceKind, base_time_ms: i32) -> (s: Self)
        ensures
            s.input_kind() == input,
            s.output_kind() == output,
            s.base_time() == base_time_ms,
            s.extra_cost() is None,
    {
        Self { input, output, base_time_ms, additional_cost: None }
    }

    /// The same strategy, also spending `amount` of `resource` per cycle.
    pub fn with_additional_cost(self, resource: ResourceKind, amount: i32) -> (s: Self)
        ensures
            s.input_kind() == self.input_kind(),
            s.output_kind() == self.output_kind(),
            s.base_time() == self.base_time(),
            s.extra_cost() == Some((resource, amount)),
    {
        Self { input: self.input, output: self.output, base_time_ms: self.base_time_ms, additional_cost: Some((resource, amount)) }
    }
}

/// Spend `amount` of `kind` from the first warehouse holding enough; false
/// when none does.
fn spend_from_first(warehouses: &mut Vec<WarehouseStore>, kind: ResourceKind, amount: i32) -> (r: bool)
    requires
        forall|j: int| 0 <= j < old(warehouses).len() ==> #[trigger] old(warehouses)@[j].stock_of(kind) - amount <= i32::MAX,
    ensures
        r == (after_extra(old(warehouses)@, Some((kind, amount))) is Some),
        r ==> final(warehouses)@ == after_extra(old(warehouses)@, Some((kind, amount)))->Some_0,
        !r ==> final(warehouses)@ == old(warehouses)@,
{
    proof {
        lemma_first_with_at_least(warehouses@, kind, amount, 0);
    }
    let mut i: usize = 0;
    while i < warehouses.len()
        invariant
            i <= warehouses.len(),
            forall|j: int| 0 <= j < old(warehouses).len() ==> #[trigger] old(warehouses)@[j].stock_of(kind) - amount <= i32::MAX,
            warehouses@ == old(warehouses)@,
            forall|j: int| 0 <= j < i ==> warehouses@[j].stock_of(kind) < amount,
        decreases warehouses.len() - i,
    {
        if warehouses[i].has_enough(kind, amount) {
            proof {
                lemma_first_with_at_least(warehouses@, kind, amount, 0);
                let f = first_with_at_least(warehouses@, kind, amount, 0);
                assert(f == i as int) by {
                    if f == -1 {
                        assert(warehouses@[i as int].stock_of(kind) < amount);
                    } else if f < i as int {
                        assert(warehouses@[f].stock_of(kind) < amount);
                    } else if f > i as int {
                        assert(warehouses@[i as int].stock_of(kind) < amount);
                    }
                }
            }
            proof {
                assert(old(warehouses)@[i as int].stock_of(kind) - amount <= i32::MAX);
            }
            warehouses[i].spend(kind, amount);
            return true;
        }
        i += 1;
    }
    false
}

impl ProductionStrategy for ProcessingStrategy {
    open spec fn plan(&self) -> ProductionPlan {
        ProductionPlan::Process { input: self.input_kind(), output: self.output_kind(), extra: self.extra_cost() }
    }

    open spec fn cycle_base(&self) -> i32 {
        self.base_time()
    }

    fn process_production(
        &self,
        citizen: &mut Citizen,
        building: &Building,
        warehouses: &mut Vec<WarehouseStore>,
        world: &mut World,
        production_time_ms: i32,
    ) -> (r: bool) {
        let has_input = match citizen.carrying {
            Some(cargo) => cargo.0 == self.input,
            None => false,
        };
        if !has_input {
            proof {
                lemma_first_with_at_least(warehouses@, self.input, 1, 0);
            }
            let mut have_any = false;
            let mut i: usize = 0;
            while i < warehouses.len()
                invariant
                    i <= warehouses.len(),
                    have_any == exists|j: int| 0 <= j < i && #[trigger] warehouses@[j].stock_of(self.input) >= 1,
                decreases warehouses.len() - i,
            {
                if warehouses[i].has_enough(self.input, 1) {
                    have_any = true;
                }
                i += 1;
            }
            proof {
                let f = first_with_at_least(warehouses@, self.input, 1, 0);
                if have_any {
                    let j = choose|j: int| 0 <= j < warehouses@.len() && #[trigger] warehouses@[j].stock_of(self.input) >= 1;
                    assert(f != -1);
                } else if f != -1 {
                    assert(warehouses@[f].stock_of(self.input) >= 1);
                }
                crate::types::lemma_nearest_is_closest(warehouses@, building.pos, warehouses@.len() as int);
            }
            if have_any {
                if let Some(dst) = find_nearest_warehouse(warehouses, building.pos) {
                    citizen.pending_input = Some(self.input);
                    citizen.target = dst;
                    citizen.moving = true;
                    citizen.progress = 0;
                    citizen.state = CitizenState::GoingToFetch;
                    return true;
                }
            }
            return false;
        }
        if citizen.work_timer_ms >= production_time_ms {
            citizen.work_timer_ms = 0;
            if let Some(extra) = self.additional_cost {
                if !spend_from_first(warehouses, extra.0, extra.1) {
                    return false;
                }
            }
            citizen.carrying = None;
            return deliver(world, citizen, warehouses, building.pos, self.output);
        }
        false
    }

    fn base_production_time_ms(&self) -> (r: i32) {
        self.base_time_ms
    }

    fn required_input_resource(&self) -> (r: Option<ResourceKind>) {
        Some(self.input)
    }

    fn output_resource(&self) -> (r: Option<ResourceKind>) {
        Some(self.output)
    }
}

/// The forester: plants saplings near its lodge.
pub struct ForesterStrategy;

impl ProductionStrategy for ForesterStrategy {
    open spec fn plan(&self) -> ProductionPlan {
        ProductionPlan::PlantTrees
    }

    open spec fn cycle_base(&self) -> i32 {
        4000
    }

    fn process_production(
        &self,
        citizen: &mut Citizen,
        building: &Building,
        warehouses: &mut Vec<WarehouseStore>,
        world: &mut World,
        production_time_ms: i32,
    ) -> (r: bool) {
        if citizen.work_timer_ms >= production_time_ms {
            citizen.work_timer_ms = 0;
            proof {
                lemma_best_plant(*world, building.pos, 169);
            }
            match find_planting_spot(world, building.pos) {
                Some(p) => {
                    world.plant_tree(p);
                    true
                },
                None => false,
            }
        } else {
            false
        }
    }

    fn base_production_time_ms(&self) -> (r: i32) {
        4000
    }

    fn required_input_resource(&self) -> (r: Option<ResourceKind>) {
        None
    }

    fn output_resource(&self) -> (r: Option<ResourceKind>) {
        None
    }
}

/// Whether the forester may plant at `p`.
fn is_plantable(world: &World, p: Pos) -> (r: bool)
    requires
        i32::MIN < p.x,
        i32::MIN < p.y,
    ensures
        r == plantable(*world, p),
{
    world.get_tile(p.x, p.y) != TileKind::Water && !world.has_tree(p) && !world.is_occupied(p) && !world.is_road(p)
        && !world.is_road(Pos { x: p.x - 1, y: p.y - 1 })
}

/// The nearest plantable tile in the 13×13 square around `center`.
fn find_planting_spot(world: &World, center: Pos) -> (r: Option<Pos>)
    requires
        pos_in_range(center),
    ensures
        r == forester_choice(*world, center),
{
    let mut best: Option<(i32, Pos)> = None;
    let mut k: i32 = 0;
    while k < 169
        invariant
            0 <= k <= 169,
            pos_in_range(center),
            match best {
                None => best_plant_index(*world, center, k as int) == -1,
                Some(bp) => {
                    let b = best_plant_index(*world, center, k as int);
                    &&& 0 <= b < k
                    &&& bp.1 == scan_pos(center, b)
                    &&& bp.0 == scan_dist(b)
                },
            },
        decreases 169 - k,
    {
        let dx = k % 13 - 6;
        let dy = k / 13 - 6;
        let p = Pos { x: center.x + dx, y: center.y + dy };
        assert(p == scan_pos(center, k as int));
        if is_plantable(world, p) {
            let ax = if dx < 0 { -dx } else { dx };
            let ay = if dy < 0 { -dy } else { dy };
            let d = ax + ay;
            assert(d == scan_dist(k as int));
            let better = match best {
                None => true,
                Some(bp) => d < bp.0,
            };
            if better {
                best = Some((d, p));
            }
        }
        k += 1;
    }
    match best {
        Some(bp) => Some(bp.1),
        None => None,
    }
}

/// The fishery: catches fish when standing next to water.
pub struct FisheryStrategy;

impl ProductionStrategy for FisheryStrategy {
    open spec fn plan(&self) -> ProductionPlan {
        ProductionPlan::Fish
    }

    open spec fn cycle_base(&self) -> i32 {
        5000
    }

    fn process_production(
        &self,
        citizen: &mut Citizen,
        building: &Building,
        warehouses: &mut Vec<WarehouseStore>,
        world: &mut World,
        production_time_ms: i32,
    ) -> (r: bool) {
        if citizen.carrying.is_some() {
            return false;
        }
        let p = building.pos;
        let near = world.get_tile(p.x + 1, p.y) == TileKind::Water || world.get_tile(p.x - 1, p.y) == TileKind::Water
            || world.get_tile(p.x, p.y + 1) == TileKind::Water || world.get_tile(p.x, p.y - 1) == TileKind::Water;
        if !near {
            return false;
        }
        if citizen.work_timer_ms >= production_time_ms {
            citizen.work_timer_ms = 0;
            return deliver(world, citizen, warehouses, building.pos, ResourceKind::Fish);
        }
        false
    }

    fn base_production_time_ms(&self) -> (r: i32) {
        5000
    }

    fn required_input_resource(&self) -> (r: Option<ResourceKind>) {
        None
    }

    fn output_resource(&self) -> (r: Option<ResourceKind>) {
        Some(ResourceKind::Fish)
    }
}

/// The wheat field (its cycle depends on the biome, through the cycle length).
pub struct WheatFieldStrategy;

impl ProductionStrategy for WheatFieldStrategy {
    open spec fn plan(&self) -> ProductionPlan {
        ProductionPlan::Extract { output: ResourceKind::Wheat }
    }

    open spec fn cycle_base(&self) -> i32 {
        6000
    }

    fn process_production(
        &self,
        citizen: &mut Citizen,
        building: &Building,
        warehouses: &mut Vec<WarehouseStore>,
        world: &mut World,
        production_time_ms: i32,
    ) -> (r: bool) {
        if citizen.carrying.is_some() {
            return false;
        }
        if citizen.work_timer_ms >= production_time_ms {
            citizen.work_timer_ms = 0;
            return deliver(world, citizen, warehouses, building.pos, ResourceKind::Wheat);
        }
        false
    }

    fn base_production_time_ms(&self) -> (r: i32) {
        6000
    }

    fn required_input_resource(&self) -> (r: Option<ResourceKind>) {
        None
    }

    fn output_resource(&self) -> (r: Option<ResourceKind>) {
        Some(ResourceKind::Wheat)
    }
}

/// Buildings without production (lumberjack, house, warehouse).
pub struct NoOpStrategy;

impl ProductionStrategy for NoOpStrategy {
    open spec fn plan(&self) -> ProductionPlan {
        ProductionPlan::Nothing
    }

    open spec fn cycle_base(&self) -> i32 {
        0
    }

    fn process_production(
        &self,
        citizen: &mut Citizen,
        building: &Building,
        warehouses: &mut Vec<WarehouseStore>,
        world: &mut World,
        production_time_ms: i32,
    ) -> (r: bool) {
        false
    }

    fn base_production_time_ms(&self) -> (r: i32) {
        0
    }

    fn required_input_resource(&self) -> (r: Option<ResourceKind>) {
        None
    }

    fn output_resource(&self) -> (r: Option<ResourceKind>) {
        None
    }
}

/// The strategy of some building.
pub enum BuildingStrategy {
    Extraction(ExtractionStrategy),
    Processing(ProcessingStrategy),
    Forester(ForesterStrategy),
    Fishery(FisheryStrategy),
    WheatField(WheatFieldStrategy),
    NoOp(NoOpStrategy),
}

impl ProductionStrategy for BuildingStrategy {
    open spec fn plan(&self) -> ProductionPlan {
        match self {
            BuildingStrategy::Extraction(s) => s.plan(),
            BuildingStrategy::Processing(s) => s.plan(),
            BuildingStrategy::Forester(s) => s.plan(),
            BuildingStrategy::Fishery(s) => s.plan(),
            BuildingStrategy::WheatField(s) => s.plan(),
            BuildingStrategy::NoOp(s) => s.plan(),
        }
    }

    open spec fn cycle_base(&self) -> i32 {
        match self {
            BuildingStrategy::Extraction(s) => s.cycle_base(),
            BuildingStrategy::Processing(s) => s.cycle_base(),
            BuildingStrategy::Forester(s) => s.cycle_base(),
            BuildingStrategy::Fishery(s) => s.cycle_base(),
            BuildingStrategy::WheatField(s) => s.cycle_base(),
            BuildingStrategy::NoOp(s) => s.cycle_base(),
        }
    }

    fn process_production(
        &self,
        citizen: &mut Citizen,
        building: &Building,
        warehouses: &mut Vec<WarehouseStore>,
        world: &mut World,
        production_time_ms: i32,
    ) -> (r: bool) {
        match self {
            BuildingStrategy::Extraction(s) => s.process_production(citizen, building, warehouses, world, production_time_ms),
            BuildingStrategy::Processing(s) => s.process_production(citizen, building, warehouses, world, production_time_ms),
            BuildingStrategy::Forester(s) => s.process_production(citizen, building, warehouses, world, production_time_ms),
            BuildingStrategy::Fishery(s) => s.process_production(citizen, building, warehouses, world, production_time_ms),
            BuildingStrategy::WheatField(s) => s.process_production(citizen, building, warehouses, world, production_time_ms),
            BuildingStrategy::NoOp(s) => s.process_production(citizen, building, warehouses, world, production_time_ms),
        }
    }

    fn base_production_time_ms(&self) -> (r: i32) {
        match self {
            BuildingStrategy::Extraction(s) => s.base_production_time_ms(),
            BuildingStrategy::Processing(s) => s.base_production_time_ms(),
            BuildingStrategy::Forester(s) => s.base_production_time_ms(),
            BuildingStrategy::Fishery(s) => s.base_production_time_ms(),
            BuildingStrategy::WheatField(s) => s.base_production_time_ms(),
            BuildingStrategy::NoOp(s) => s.base_production_time_ms(),
        }
    }

    fn required_input_resource(&self) -> (r: Option<ResourceKind>) {
        match self {
            BuildingStrategy::Extraction(s) => s.required_input_resource(),
            BuildingStrategy::Processing(s) => s.required_input_resource(),
            BuildingStrategy::Forester(s) => s.required_input_resource(),
            BuildingStrategy::Fishery(s) => s.required_input_resource(),
            BuildingStrategy::WheatField(s) => s.required_input_resource(),
            BuildingStrategy::NoOp(s) => s.required_input_resource(),
        }
    }

    fn output_resource(&self) -> (r: Option<ResourceKind>) {
        match self {
            BuildingStrategy::Extraction(s) => s.output_resource(),
            BuildingStrategy::Processing(s) => s.output_resource(),
            BuildingStrategy::Forester(s) => s.output_resource(),
            BuildingStrategy::Fishery(s) => s.output_resource(),
            BuildingStrategy::WheatField(s) => s.output_resource(),
            BuildingStrategy::NoOp(s) => s.output_resource(),
        }
    }
}

/// The production plan of each kind of building.
pub open spec fn building_plan(kind: BuildingKind) -> ProductionPlan {
    match kind {
        BuildingKind::StoneQuarry => ProductionPlan::Extract { output: ResourceKind::Stone },
        BuildingKind::ClayPit => ProductionPlan::Extract { output: ResourceKind::Clay },
        BuildingKind::IronMine => ProductionPlan::Extract { output: ResourceKind::IronOre },
        BuildingKind::WheatField => ProductionPlan::Extract { output: ResourceKind::Wheat },
        BuildingKind::Fishery => ProductionPlan::Fish,
        BuildingKind::Mill => ProductionPlan::Process { input: ResourceKind::Wheat, output: ResourceKind::Flour, extra: None },
        BuildingKind::Bakery => ProductionPlan::Process { input: ResourceKind::Flour, output: ResourceKind::Bread, extra: None },
        BuildingKind::Kiln => ProductionPlan::Process {
            input: ResourceKind::Clay,
            output: ResourceKind::Bricks,
            extra: Some((ResourceKind::Wood, 1i32)),
        },
        BuildingKind::Smelter => ProductionPlan::Process {
            input: ResourceKind::IronOre,
            output: ResourceKind::IronIngot,
            extra: None,
        },
        BuildingKind::Forester => ProductionPlan::PlantTrees,
        BuildingKind::Lumberjack | BuildingKind::House | BuildingKind::Warehouse => ProductionPlan::Nothing,
    }
}

/// What a plan yields, if anything.
pub open spec fn plan_output(p: ProductionPlan) -> Option<ResourceKind> {
    match p {
        ProductionPlan::Extract { output } => Some(output),
        ProductionPlan::Fish => Some(ResourceKind::Fish),
        ProductionPlan::Process { output, .. } => Some(output),
        _ => None,
    }
}

/// What a plan consumes, if it processes something.
pub open spec fn plan_input(p: ProductionPlan) -> Option<ResourceKind> {
    match p {
        ProductionPlan::Process { input, .. } => Some(input),
        _ => None,
    }
}

/// The production chain is closed and has no shortcuts: every resource a
/// building processes is yielded by some other building; no resource is
/// yielded by two kinds of building, nor consumed by two; and no building
/// yields what it consumes. In particular the mill turns wheat into what the bakery bakes
/// bread from, flour.
pub proof fn lemma_production_chain(k: BuildingKind, k2: BuildingKind)
    ensures
        plan_input(building_plan(k)) matches Some(input) ==> plan_output(building_plan(k)) != Some(input) && exists|
            src: BuildingKind,
        | src != k && #[trigger] plan_output(building_plan(src)) == Some(input),
        plan_output(building_plan(k)) is Some && plan_output(building_plan(k)) == plan_output(building_plan(k2))
            ==> k == k2,
        plan_input(building_plan(k)) is Some && plan_input(building_plan(k)) == plan_input(building_plan(k2)) ==> k
            == k2,
        plan_input(building_plan(BuildingKind::Mill)) == Some(ResourceKind::Wheat),
        plan_output(building_plan(BuildingKind::Mill)) == plan_input(building_plan(BuildingKind::Bakery)),
        plan_output(building_plan(BuildingKind::Bakery)) == Some(ResourceKind::Bread),
        plan_input(building_plan(BuildingKind::Bakery)) == Some(ResourceKind::Flour),
{
    assert(plan_output(building_plan(BuildingKind::WheatField)) == Some(ResourceKind::Wheat));
    assert(plan_output(building_plan(BuildingKind::Mill)) == Some(ResourceKind::Flour));
    assert(plan_output(building_plan(BuildingKind::ClayPit)) == Some(ResourceKind::Clay));
    assert(plan_output(building_plan(BuildingKind::IronMine)) == Some(ResourceKind::IronOre));
}

/// Base cycle length of each kind of building, in milliseconds.
pub open spec fn building_base_time(kind: BuildingKind) -> i32 {
    match kind {
        BuildingKind::StoneQuarry | BuildingKind::ClayPit | BuildingKind::Forester => 4000,
        BuildingKind::IronMine | BuildingKind::Fishery | BuildingKind::Mill | BuildingKind::Bakery
        | BuildingKind::Kiln => 5000,
        BuildingKind::WheatField | BuildingKind::Smelter => 6000,
        BuildingKind::Lumberjack | BuildingKind::House | BuildingKind::Warehouse => 0,
    }
}

/// The production strategy of a kind of building.
pub fn create_production_strategy(kind: BuildingKind) -> (s: BuildingStrategy)
    ensures
        s.plan() == building_plan(kind),
        s.cycle_base() == building_base_time(kind),
{
    match kind {
        BuildingKind::StoneQuarry => BuildingStrategy::Extraction(ExtractionStrategy::new(ResourceKind::Stone, 4000)),
        BuildingKind::ClayPit => BuildingStrategy::Extraction(ExtractionStrategy::new(ResourceKind::Clay, 4000)),
        BuildingKind::IronMine => BuildingStrategy::Extraction(ExtractionStrategy::new(ResourceKind::IronOre, 5000)),
        BuildingKind::WheatField => BuildingStrategy::WheatField(WheatFieldStrategy),
        BuildingKind::Fishery => BuildingStrategy::Fishery(FisheryStrategy),
        BuildingKind::Mill => BuildingStrategy::Processing(
            ProcessingStrategy::new(ResourceKind::Wheat, ResourceKind::Flour, 5000),
        ),
        BuildingKind::Bakery => BuildingStrategy::Processing(
            ProcessingStrategy::new(ResourceKind::Flour, ResourceKind::Bread, 5000),
        ),
        BuildingKind::Kiln => BuildingStrategy::Processing(
            ProcessingStrategy::new(ResourceKind::Clay, ResourceKind::Bricks, 5000).with_additional_cost(
                ResourceKind::Wood,
                1,
            ),
        ),
        BuildingKind::Smelter => BuildingStrategy::Processing(
            ProcessingStrategy::new(ResourceKind::IronOre, ResourceKind::IronIngot, 6000),
        ),
        BuildingKind::Forester => BuildingStrategy::Forester(ForesterStrategy),
        BuildingKind::Lumberjack | BuildingKind::House | BuildingKind::Warehouse => BuildingStrategy::NoOp(NoOpStrategy),
    }
}

} // verus!
