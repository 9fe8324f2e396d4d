use strategy::building_production::{create_production_strategy, ProcessingStrategy, ProductionStrategy};
use strategy::citizen_state::{
    citizen_can_accept_job, handle_dawn_routine_with_states, handle_night_routine_with_states, update_citizen_state,
    StateContext,
};
use strategy::types::{Building, BuildingKind, Citizen, CitizenState, Pos, ResourceKind, TileKind, WarehouseStore};
use strategy::world::World;

fn worker(x: i32, y: i32) -> Citizen {
    Citizen {
        pos: Pos { x, y },
        target: Pos { x, y },
        moving: false,
        progress: 0,
        carrying_log: false,
        assigned_job: None,
        idle_timer_ms: 0,
        home: Pos { x, y },
        workplace: Some(Pos { x, y }),
        state: CitizenState::Working,
        work_timer_ms: 0,
        carrying: None,
        pending_input: None,
        path: Vec::new(),
        path_index: 0,
        fed_today: true,
        manual_workplace: false,
        happiness: 50,
        last_food_mask: 0,
    }
}

fn land() -> World {
    let mut world = World::new();
    for y in -8..8 {
        for x in -8..8 {
            world.set_tile(Pos { x, y }, TileKind::Grass);
        }
    }
    world
}

fn at(kind: BuildingKind, x: i32, y: i32) -> Building {
    Building { kind, pos: Pos { x, y }, timer_ms: 0, workers_target: 1, capacity: 0 }
}

fn store(x: i32, y: i32) -> WarehouseStore {
    WarehouseStore::new(Pos { x, y })
}

#[test]
fn strategies_per_building_kind() {
    let q = create_production_strategy(BuildingKind::StoneQuarry);
    assert_eq!(q.base_production_time_ms(), 4000);
    assert_eq!(q.output_resource(), Some(ResourceKind::Stone));
    assert_eq!(q.required_input_resource(), None);
    let k = create_production_strategy(BuildingKind::Kiln);
    assert_eq!(k.base_production_time_ms(), 5000);
    assert_eq!(k.required_input_resource(), Some(ResourceKind::Clay));
    assert_eq!(k.output_resource(), Some(ResourceKind::Bricks));
    let s = create_production_strategy(BuildingKind::Smelter);
    assert_eq!(s.base_production_time_ms(), 6000);
    assert_eq!(s.output_resource(), Some(ResourceKind::IronIngot));
    assert_eq!(create_production_strategy(BuildingKind::Fishery).output_resource(), Some(ResourceKind::Fish));
    assert_eq!(create_production_strategy(BuildingKind::Forester).output_resource(), None);
    assert_eq!(create_production_strategy(BuildingKind::House).base_production_time_ms(), 0);
}

#[test]
fn quarry_cycle_sends_stone_to_the_warehouse() {
    let mut world = land();
    let mut ws = vec![store(3, 0)];
    let b = at(BuildingKind::StoneQuarry, 0, 0);
    let s = create_production_strategy(BuildingKind::StoneQuarry);
    let mut c = worker(0, 0);
    c.work_timer_ms = 3999;
    assert!(!s.process_production(&mut c, &b, &mut ws, &mut world, 4000));
    assert_eq!(c.work_timer_ms, 3999);
    c.work_timer_ms = 4000;
    assert!(s.process_production(&mut c, &b, &mut ws, &mut world, 4000));
    assert_eq!(c.work_timer_ms, 0);
    assert_eq!(c.carrying, Some((ResourceKind::Stone, 1)));
    assert_eq!(c.state, CitizenState::GoingToDeposit);
    assert!(c.moving);
    assert_eq!(*c.path.last().unwrap(), Pos { x: 3, y: 0 });
}

#[test]
fn quarry_without_warehouse_only_resets_the_timer() {
    let mut world = land();
    let mut ws: Vec<WarehouseStore> = Vec::new();
    let b = at(BuildingKind::StoneQuarry, 0, 0);
    let s = create_production_strategy(BuildingKind::StoneQuarry);
    let mut c = worker(0, 0);
    c.work_timer_ms = 5000;
    assert!(!s.process_production(&mut c, &b, &mut ws, &mut world, 4000));
    assert_eq!(c.work_timer_ms, 0);
    assert_eq!(c.carrying, None);
    assert_eq!(c.state, CitizenState::Working);
}

#[test]
fn mill_worker_fetches_wheat_first() {
    let mut world = land();
    let mut ws = vec![store(2, 2)];
    let b = at(BuildingKind::Mill, 0, 0);
    let s = create_production_strategy(BuildingKind::Mill);
    let mut c = worker(0, 0);
    assert!(!s.process_production(&mut c, &b, &mut ws, &mut world, 5000));
    assert_eq!(c.state, CitizenState::Working);
    ws[0].wheat = 3;
    assert!(s.process_production(&mut c, &b, &mut ws, &mut world, 5000));
    assert_eq!(c.pending_input, Some(ResourceKind::Wheat));
    assert_eq!(c.target, Pos { x: 2, y: 2 });
    assert!(c.moving);
    assert_eq!(c.state, CitizenState::GoingToFetch);
    assert_eq!(ws[0].wheat, 3);
}

#[test]
fn kiln_spends_wood_from_the_first_warehouse_that_has_it() {
    let mut world = land();
    let mut ws = vec![store(4, 0), store(1, 0)];
    ws[1].wood = 2;
    let b = at(BuildingKind::Kiln, 0, 0);
    let s = create_production_strategy(BuildingKind::Kiln);
    let mut c = worker(0, 0);
    c.carrying = Some((ResourceKind::Clay, 1));
    c.work_timer_ms = 5000;
    assert!(s.process_production(&mut c, &b, &mut ws, &mut world, 5000));
    assert_eq!(ws[1].wood, 1);
    assert_eq!(ws[0].wood, 0);
    assert_eq!(c.carrying, Some((ResourceKind::Bricks, 1)));
    assert_eq!(c.state, CitizenState::GoingToDeposit);
    assert_eq!(*c.path.last().unwrap(), Pos { x: 1, y: 0 });
}

#[test]
fn kiln_without_wood_keeps_the_clay() {
    let mut world = land();
    let mut ws = vec![store(1, 0)];
    let b = at(BuildingKind::Kiln, 0, 0);
    let s = create_production_strategy(BuildingKind::Kiln);
    let mut c = worker(0, 0);
    c.carrying = Some((ResourceKind::Clay, 1));
    c.work_timer_ms = 6000;
    assert!(!s.process_production(&mut c, &b, &mut ws, &mut world, 5000));
    assert_eq!(c.carrying, Some((ResourceKind::Clay, 1)));
    assert_eq!(c.work_timer_ms, 0);
}

#[test]
fn fishery_needs_water_beside_it() {
    let mut world = land();
    let mut ws = vec![store(0, 2)];
    let b = at(BuildingKind::Fishery, 0, 0);
    let s = create_production_strategy(BuildingKind::Fishery);
    let mut c = worker(0, 0);
    c.work_timer_ms = 5000;
    assert!(!s.process_production(&mut c, &b, &mut ws, &mut world, 5000));
    assert_eq!(c.work_timer_ms, 5000);
    world.set_tile(Pos { x: 1, y: 0 }, TileKind::Water);
    assert!(s.process_production(&mut c, &b, &mut ws, &mut world, 5000));
    assert_eq!(c.carrying, Some((ResourceKind::Fish, 1)));
}

#[test]
fn forester_plants_on_the_nearest_free_tile() {
    let mut world = land();
    world.occupy(Pos { x: 0, y: 0 });
    let mut ws: Vec<WarehouseStore> = Vec::new();
    let b = at(BuildingKind::Forester, 0, 0);
    let s = create_production_strategy(BuildingKind::Forester);
    let mut c = worker(0, 0);
    c.work_timer_ms = 4000;
    assert!(s.process_production(&mut c, &b, &mut ws, &mut world, 4000));
    assert_eq!(world.tree_stage(Pos { x: 0, y: -1 }), Some(0));
    assert_eq!(c.work_timer_ms, 0);
    c.work_timer_ms = 4000;
    assert!(s.process_production(&mut c, &b, &mut ws, &mut world, 4000));
    assert_eq!(world.tree_stage(Pos { x: -1, y: 0 }), Some(0));
}

#[test]
fn who_can_take_a_job() {
    let mut c = worker(0, 0);
    c.state = CitizenState::Idle;
    assert!(citizen_can_accept_job(&c));
    c.fed_today = false;
    assert!(!citizen_can_accept_job(&c));
    c.fed_today = true;
    c.state = CitizenState::Working;
    assert!(citizen_can_accept_job(&c));
    c.moving = true;
    assert!(!citizen_can_accept_job(&c));
    c.moving = false;
    c.state = CitizenState::Sleeping;
    assert!(!citizen_can_accept_job(&c));
}

#[test]
fn nightfall_sends_citizens_home_or_to_bed() {
    let world = land();
    let buildings: Vec<Building> = Vec::new();
    let mut away = worker(3, 0);
    away.home = Pos { x: 0, y: 0 };
    away.assigned_job = Some(7);
    away.carrying_log = true;
    let home = worker(1, 1);
    let mut cs = vec![away, home];
    handle_night_routine_with_states(&mut cs, &world, &buildings, true);
    assert_eq!(cs[0].state, CitizenState::Working);
    handle_night_routine_with_states(&mut cs, &world, &buildings, false);
    assert_eq!(cs[0].state, CitizenState::GoingHome);
    assert_eq!(cs[0].assigned_job, None);
    assert!(!cs[0].carrying_log);
    assert!(cs[0].moving);
    assert_eq!(cs[1].state, CitizenState::Sleeping);
    assert_eq!(cs[1].workplace, None);
}

#[test]
fn dawn_wakes_everyone() {
    let world = land();
    let buildings: Vec<Building> = Vec::new();
    let mut pinned = worker(0, 0);
    pinned.state = CitizenState::Sleeping;
    pinned.manual_workplace = true;
    pinned.workplace = Some(Pos { x: 2, y: 0 });
    let mut plain = worker(1, 1);
    plain.state = CitizenState::Sleeping;
    let mut cs = vec![pinned, plain];
    handle_dawn_routine_with_states(&mut cs, &world, &buildings, false);
    assert_eq!(cs[0].state, CitizenState::Sleeping);
    handle_dawn_routine_with_states(&mut cs, &world, &buildings, true);
    assert_eq!(cs[0].state, CitizenState::GoingToWork);
    // the path is planned, but leaving sleep stops the movement
    assert_eq!(*cs[0].path.last().unwrap(), Pos { x: 2, y: 0 });
    assert!(!cs[0].moving);
    assert_eq!(cs[1].state, CitizenState::Idle);
}

#[test]
fn idle_citizen_with_a_workplace_sets_off() {
    let world = land();
    let buildings: Vec<Building> = Vec::new();
    let ctx = StateContext { world: &world, buildings: &buildings, is_daytime: true };
    let mut c = worker(0, 0);
    c.state = CitizenState::Idle;
    c.workplace = Some(Pos { x: 2, y: 0 });
    let mut s = CitizenState::Idle;
    update_citizen_state(&mut s, &mut c, &ctx);
    assert_eq!(s, CitizenState::GoingToWork);
    assert_eq!(c.state, CitizenState::GoingToWork);
    assert!(c.moving);
    let mut idle = worker(0, 0);
    idle.state = CitizenState::Idle;
    idle.workplace = None;
    let mut s2 = CitizenState::Idle;
    update_citizen_state(&mut s2, &mut idle, &ctx);
    assert_eq!(s2, CitizenState::Idle);
}

#[test]
fn a_later_extra_cost_replaces_an_earlier_one_even_a_negative_one() {
    let mut world = land();
    let mut ws = vec![store(1, 0)];
    ws[0].wood = 3;
    let b = at(BuildingKind::Kiln, 0, 0);
    let s = ProcessingStrategy::new(ResourceKind::Clay, ResourceKind::Bricks, 5000)
        .with_additional_cost(ResourceKind::Wood, 2)
        .with_additional_cost(ResourceKind::Wood, -2);
    assert_eq!(s.base_production_time_ms(), 5000);
    assert_eq!(s.required_input_resource(), Some(ResourceKind::Clay));
    assert_eq!(s.output_resource(), Some(ResourceKind::Bricks));
    let mut c = worker(0, 0);
    c.carrying = Some((ResourceKind::Clay, 1));
    c.work_timer_ms = 5000;
    assert!(s.process_production(&mut c, &b, &mut ws, &mut world, 5000));
    // spending a negative cost puts wood in
    assert_eq!(ws[0].wood, 5);
    assert_eq!(c.carrying, Some((ResourceKind::Bricks, 1)));
}
