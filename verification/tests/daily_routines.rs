use strategy::game_loop::{
    adjust_workers_count, assign_workers_to_buildings, generate_haul_jobs, generate_lumberjack_jobs,
    handle_arrival_state, update_citizen_movement, update_movement, update_production,
};
use strategy::types::{
    Building, BuildingKind, Citizen, CitizenState, Job, JobKind, LogItem, Pos, ResourceKind, TileKind, WarehouseStore,
};
use strategy::world::World;

fn person(x: i32, y: i32) -> Citizen {
    Citizen {
        pos: Pos { x, y },
        target: Pos { x, y },
        moving: false,
        progress: 0,
        carrying_log: false,
        assigned_job: None,
        idle_timer_ms: 0,
        home: Pos { x, y },
        workplace: None,
        state: CitizenState::Idle,
        work_timer_ms: 0,
        carrying: None,
        pending_input: None,
        path: Vec::new(),
        path_index: 0,
        fed_today: true,
        manual_workplace: false,
        happiness: 50,
        last_food_mask: 0,
    }
}

fn site(kind: BuildingKind, x: i32, y: i32, target: i32) -> Building {
    Building { kind, pos: Pos { x, y }, timer_ms: 0, workers_target: target, capacity: 0 }
}

fn field(w: i32, h: i32) -> World {
    let mut world = World::new();
    for y in -8..h {
        for x in -8..w {
            world.set_tile(Pos { x, y }, TileKind::Grass);
        }
    }
    world
}

#[test]
fn nearest_idle_citizen_is_hired() {
    let world = field(8, 8);
    let buildings = vec![site(BuildingKind::Mill, 0, 0, 1)];
    let mut citizens = vec![person(5, 0), person(2, 0)];
    assign_workers_to_buildings(&mut citizens, &buildings, &world);
    assert_eq!(citizens[1].workplace, Some(Pos { x: 0, y: 0 }));
    assert_eq!(citizens[1].state, CitizenState::GoingToWork);
    assert!(citizens[1].moving);
    assert_eq!(citizens[1].progress, 0);
    assert_eq!(citizens[0].workplace, None);
}

#[test]
fn staffed_building_hires_nobody() {
    let world = field(8, 8);
    let buildings = vec![site(BuildingKind::Mill, 0, 0, 1), site(BuildingKind::House, 3, 3, 4)];
    let mut employed = person(6, 6);
    employed.workplace = Some(Pos { x: 0, y: 0 });
    let mut citizens = vec![employed, person(1, 0)];
    assign_workers_to_buildings(&mut citizens, &buildings, &world);
    assert_eq!(citizens[1].workplace, None);
    assert_eq!(citizens[1].state, CitizenState::Idle);
}

#[test]
fn sleeper_away_from_home_is_not_hired() {
    let world = field(8, 8);
    let buildings = vec![site(BuildingKind::Mill, 0, 0, 1)];
    let mut sleeper = person(1, 0);
    sleeper.state = CitizenState::Sleeping;
    sleeper.home = Pos { x: 7, y: 7 };
    let mut citizens = vec![sleeper, person(4, 0)];
    assign_workers_to_buildings(&mut citizens, &buildings, &world);
    assert_eq!(citizens[0].workplace, None);
    assert_eq!(citizens[1].workplace, None);
}

#[test]
fn excess_staff_farthest_first_are_let_go() {
    let mill = Pos { x: 0, y: 0 };
    let buildings = vec![site(BuildingKind::Mill, 0, 0, 1)];
    let mut a = person(1, 0);
    a.workplace = Some(mill);
    a.state = CitizenState::Working;
    let mut b = person(5, 0);
    b.workplace = Some(mill);
    b.state = CitizenState::Working;
    b.moving = true;
    let mut c = person(3, 0);
    c.workplace = Some(mill);
    let mut pinned = person(9, 0);
    pinned.workplace = Some(mill);
    pinned.manual_workplace = true;
    let mut citizens = vec![a, b, c, pinned];
    adjust_workers_count(&mut citizens, &buildings);
    assert_eq!(citizens[0].workplace, Some(mill));
    assert_eq!(citizens[1].workplace, None);
    assert_eq!(citizens[1].state, CitizenState::Idle);
    assert!(!citizens[1].moving);
    assert_eq!(citizens[2].workplace, None);
    assert_eq!(citizens[3].workplace, Some(mill));
}

#[test]
fn equally_far_staff_later_one_leaves() {
    let mill = Pos { x: 0, y: 0 };
    let buildings = vec![site(BuildingKind::Mill, 0, 0, 1)];
    let mut a = person(2, 0);
    a.workplace = Some(mill);
    let mut b = person(0, 2);
    b.workplace = Some(mill);
    let mut citizens = vec![a, b];
    adjust_workers_count(&mut citizens, &buildings);
    assert_eq!(citizens[0].workplace, Some(mill));
    assert_eq!(citizens[1].workplace, None);
}

#[test]
fn lumberjack_marks_nearest_mature_tree() {
    let mut world = field(8, 8);
    world.set_tree(Pos { x: 3, y: 0 }, 2);
    world.set_tree(Pos { x: 0, y: 2 }, 2);
    world.set_tree(Pos { x: -2, y: 0 }, 2);
    world.set_tree(Pos { x: 1, y: 0 }, 1);
    let buildings = vec![site(BuildingKind::Lumberjack, 0, 0, 2)];
    let mut worker = person(0, 0);
    worker.workplace = Some(Pos { x: 0, y: 0 });
    let citizens = vec![worker];
    let mut jobs: Vec<Job> = Vec::new();
    let mut next_id: u64 = 10;
    generate_lumberjack_jobs(&buildings, &mut jobs, &mut next_id, &world, &citizens);
    assert_eq!(jobs, vec![Job { id: 10, kind: JobKind::ChopWood { pos: Pos { x: -2, y: 0 } }, taken: false, done: false }]);
    assert_eq!(next_id, 11);
    generate_lumberjack_jobs(&buildings, &mut jobs, &mut next_id, &world, &citizens);
    assert_eq!(jobs.len(), 1);
    assert_eq!(next_id, 11);
}

#[test]
fn lumberjack_without_fed_workers_marks_nothing() {
    let mut world = field(8, 8);
    world.set_tree(Pos { x: 3, y: 0 }, 2);
    let buildings = vec![site(BuildingKind::Lumberjack, 0, 0, 2)];
    let mut worker = person(0, 0);
    worker.workplace = Some(Pos { x: 0, y: 0 });
    worker.fed_today = false;
    let citizens = vec![worker];
    let mut jobs: Vec<Job> = Vec::new();
    let mut next_id: u64 = 1;
    generate_lumberjack_jobs(&buildings, &mut jobs, &mut next_id, &world, &citizens);
    assert!(jobs.is_empty());
}

#[test]
fn free_logs_get_haul_jobs_to_nearest_warehouse() {
    let logs = vec![LogItem { pos: Pos { x: 1, y: 1 }, carried: false }, LogItem { pos: Pos { x: 2, y: 2 }, carried: true }];
    let ws = vec![WarehouseStore::new(Pos { x: 9, y: 9 }), WarehouseStore::new(Pos { x: 0, y: 3 })];
    let mut jobs: Vec<Job> = Vec::new();
    let mut next_id: u64 = 5;
    generate_haul_jobs(&mut jobs, &logs, &ws, &mut next_id);
    assert_eq!(
        jobs,
        vec![Job { id: 5, kind: JobKind::HaulWood { from: Pos { x: 1, y: 1 }, to: Pos { x: 0, y: 3 } }, taken: false, done: false }]
    );
    generate_haul_jobs(&mut jobs, &logs, &ws, &mut next_id);
    assert_eq!(jobs.len(), 1);
    let none: Vec<WarehouseStore> = Vec::new();
    let mut other: Vec<Job> = Vec::new();
    generate_haul_jobs(&mut other, &logs, &none, &mut next_id);
    assert!(other.is_empty());
}

#[test]
fn steps_take_longer_on_grass_than_on_roads() {
    let mut world = field(4, 4);
    world.build_road(Pos { x: 0, y: 1 });
    let mut c = person(0, 0);
    c.moving = true;
    c.target = Pos { x: 1, y: 0 };
    update_movement(200, &mut c, &world);
    assert_eq!(c.progress, 200);
    assert_eq!(c.pos, Pos { x: 0, y: 0 });
    update_movement(300, &mut c, &world);
    assert_eq!(c.pos, Pos { x: 1, y: 0 });
    assert_eq!(c.progress, 0);
    let mut d = person(0, 0);
    d.moving = true;
    d.target = Pos { x: 0, y: 1 };
    update_movement(300, &mut d, &world);
    assert_eq!(d.pos, Pos { x: 0, y: 1 });
}

#[test]
fn water_without_bridge_stops_the_walk() {
    let world = World::new();
    let mut c = person(0, 0);
    c.moving = true;
    c.target = Pos { x: 1, y: 0 };
    c.path = vec![Pos { x: 0, y: 0 }, Pos { x: 1, y: 0 }];
    c.progress = 100;
    update_movement(16, &mut c, &world);
    assert!(!c.moving);
    assert_eq!(c.progress, 0);
    assert!(c.path.is_empty());
}

#[test]
fn waypoint_reached_aims_at_next() {
    let world = field(4, 4);
    let mut c = person(1, 0);
    c.moving = true;
    c.target = Pos { x: 1, y: 0 };
    c.path = vec![Pos { x: 0, y: 0 }, Pos { x: 1, y: 0 }, Pos { x: 2, y: 0 }];
    c.path_index = 1;
    update_movement(16, &mut c, &world);
    assert_eq!(c.path_index, 2);
    assert_eq!(c.target, Pos { x: 2, y: 0 });
    update_movement(16, &mut c, &world);
    update_movement(500, &mut c, &world);
    assert_eq!(c.pos, Pos { x: 2, y: 0 });
    update_movement(16, &mut c, &world);
    assert!(!c.moving);
}

#[test]
fn reaching_home_puts_a_citizen_to_sleep() {
    let world = field(4, 4);
    let mut c = person(2, 2);
    c.state = CitizenState::GoingHome;
    handle_arrival_state(&mut c, &world);
    assert_eq!(c.state, CitizenState::Sleeping);
}

#[test]
fn long_idle_drops_the_job() {
    let mut world = field(4, 4);
    let mut c = person(2, 2);
    c.idle_timer_ms = 4990;
    c.assigned_job = Some(3);
    c.carrying_log = true;
    let mut citizens = vec![c];
    update_citizen_movement(16, &mut citizens, &mut world);
    assert_eq!(citizens[0].assigned_job, None);
    assert!(!citizens[0].carrying_log);
    assert_eq!(citizens[0].idle_timer_ms, 0);
}

#[test]
fn quarry_worker_carries_stone_after_a_cycle() {
    let mut world = field(8, 8);
    let quarry = Pos { x: 0, y: 0 };
    let buildings = vec![site(BuildingKind::StoneQuarry, 0, 0, 1)];
    let mut c = person(0, 0);
    c.workplace = Some(quarry);
    c.state = CitizenState::Working;
    c.work_timer_ms = 3990;
    let mut citizens = vec![c];
    let mut ws = vec![WarehouseStore::new(Pos { x: 4, y: 0 })];
    let cycles = vec![4000];
    update_production(16, &mut citizens, &buildings, &mut ws, &mut world, &cycles);
    assert_eq!(citizens[0].work_timer_ms, 0);
    assert_eq!(citizens[0].carrying, Some((ResourceKind::Stone, 1)));
    assert_eq!(citizens[0].state, CitizenState::GoingToDeposit);
    assert!(citizens[0].moving);
}

#[test]
fn hungry_worker_stops_working() {
    let mut world = field(8, 8);
    let buildings = vec![site(BuildingKind::StoneQuarry, 0, 0, 1)];
    let mut c = person(0, 0);
    c.workplace = Some(Pos { x: 0, y: 0 });
    c.state = CitizenState::Working;
    c.fed_today = false;
    let mut citizens = vec![c];
    let mut ws: Vec<WarehouseStore> = Vec::new();
    update_production(16, &mut citizens, &buildings, &mut ws, &mut world, &vec![4000]);
    assert_eq!(citizens[0].state, CitizenState::Idle);
    assert_eq!(citizens[0].work_timer_ms, 0);
}
