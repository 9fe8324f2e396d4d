use strategy::jobs::{assign_jobs_nearest_worker, process_jobs, release_orphaned_jobs, round_fits};
use strategy::types::{
    Building, BuildingKind, Citizen, CitizenState, Job, JobKind, LogItem, Pos, Resources, TileKind, WarehouseStore,
};
use strategy::world::World;

fn worker(x: i32, y: i32, workplace: Option<Pos>) -> Citizen {
    Citizen {
        pos: Pos { x, y },
        target: Pos { x, y },
        moving: false,
        progress: 0,
        carrying_log: false,
        assigned_job: None,
        idle_timer_ms: 0,
        home: Pos { x: 0, y: 5 },
        workplace,
        state: CitizenState::Idle,
        work_timer_ms: 0,
        carrying: None,
        pending_input: None,
        path: Vec::new(),
        path_index: 0,
        fed_today: true,
        manual_workplace: false,
        happiness: 50,
        last_food_mask: 0,
    }
}

fn meadow(w: i32, h: i32) -> World {
    let mut world = World::new();
    for y in 0..h {
        for x in 0..w {
            world.set_tile(Pos { x, y }, TileKind::Grass);
        }
    }
    world
}

fn hut(x: i32, y: i32) -> Building {
    Building { kind: BuildingKind::Lumberjack, pos: Pos { x, y }, timer_ms: 0, workers_target: 2, capacity: 0 }
}

#[test]
fn nearest_free_lumberjack_takes_the_job() {
    let world = meadow(8, 8);
    let hut_pos = Pos { x: 0, y: 0 };
    let buildings = vec![hut(0, 0)];
    let mut citizens = vec![worker(7, 0, Some(hut_pos)), worker(2, 0, Some(hut_pos)), worker(3, 0, None)];
    let mut jobs = vec![Job { id: 7, kind: JobKind::ChopWood { pos: Pos { x: 4, y: 0 } }, taken: false, done: false }];
    assign_jobs_nearest_worker(&mut citizens, &mut jobs, &world, &buildings);
    assert!(jobs[0].taken);
    assert_eq!(citizens[1].assigned_job, Some(7));
    assert_eq!(citizens[1].state, CitizenState::Working);
    assert!(citizens[1].moving);
    assert_eq!(citizens[0].assigned_job, None);
    assert_eq!(citizens[2].assigned_job, None);
}

#[test]
fn equally_near_workers_go_by_order() {
    let world = meadow(8, 8);
    let hut_pos = Pos { x: 0, y: 0 };
    let buildings = vec![hut(0, 0)];
    let mut citizens = vec![worker(2, 0, Some(hut_pos)), worker(4, 0, Some(hut_pos))];
    let mut jobs = vec![Job { id: 1, kind: JobKind::ChopWood { pos: Pos { x: 3, y: 0 } }, taken: false, done: false }];
    assign_jobs_nearest_worker(&mut citizens, &mut jobs, &world, &buildings);
    assert_eq!(citizens[0].assigned_job, Some(1));
    assert_eq!(citizens[1].assigned_job, None);
}

#[test]
fn hungry_or_busy_workers_take_no_job() {
    let world = meadow(8, 8);
    let hut_pos = Pos { x: 0, y: 0 };
    let buildings = vec![hut(0, 0)];
    let mut hungry = worker(1, 0, Some(hut_pos));
    hungry.fed_today = false;
    let mut walking = worker(2, 0, Some(hut_pos));
    walking.moving = true;
    let mut citizens = vec![hungry, walking];
    let mut jobs = vec![Job { id: 1, kind: JobKind::ChopWood { pos: Pos { x: 3, y: 0 } }, taken: false, done: false }];
    assign_jobs_nearest_worker(&mut citizens, &mut jobs, &world, &buildings);
    assert!(!jobs[0].taken);
    assert_eq!(citizens[0].assigned_job, None);
    assert_eq!(citizens[1].assigned_job, None);
}

#[test]
fn felling_drops_a_log_and_publishes_a_haul() {
    let mut world = meadow(8, 8);
    let tree = Pos { x: 3, y: 0 };
    world.set_tree(tree, 2);
    let mut c = worker(3, 0, None);
    c.assigned_job = Some(1);
    let mut citizens = vec![c];
    let mut jobs = vec![Job { id: 1, kind: JobKind::ChopWood { pos: tree }, taken: true, done: false }];
    let mut logs: Vec<LogItem> = Vec::new();
    let mut ws = vec![WarehouseStore::new(Pos { x: 5, y: 0 })];
    let mut res = Resources::default();
    let buildings: Vec<Building> = Vec::new();
    let mut next_id: u64 = 2;
    process_jobs(&mut citizens, &mut jobs, &mut logs, &mut ws, &mut res, &buildings, &mut world, &mut next_id);
    assert!(!world.has_tree(tree));
    assert_eq!(logs, vec![LogItem { pos: tree, carried: false }]);
    assert_eq!(jobs, vec![Job { id: 2, kind: JobKind::HaulWood { from: tree, to: Pos { x: 5, y: 0 } }, taken: false, done: false }]);
    assert_eq!(next_id, 3);
    assert_eq!(citizens[0].assigned_job, None);
}

#[test]
fn sapling_is_not_felled() {
    let mut world = meadow(8, 8);
    let tree = Pos { x: 3, y: 0 };
    world.set_tree(tree, 0);
    let mut c = worker(3, 0, None);
    c.assigned_job = Some(1);
    let mut citizens = vec![c];
    let mut jobs = vec![Job { id: 1, kind: JobKind::ChopWood { pos: tree }, taken: true, done: false }];
    let mut logs: Vec<LogItem> = Vec::new();
    let mut ws: Vec<WarehouseStore> = Vec::new();
    let mut res = Resources::default();
    let buildings: Vec<Building> = Vec::new();
    let mut next_id: u64 = 2;
    process_jobs(&mut citizens, &mut jobs, &mut logs, &mut ws, &mut res, &buildings, &mut world, &mut next_id);
    assert_eq!(world.tree_stage(tree), Some(0));
    assert!(logs.is_empty());
    assert!(jobs.is_empty());
    assert_eq!(next_id, 2);
}

#[test]
fn hauler_picks_up_the_log_and_sets_off() {
    let mut world = meadow(8, 8);
    let from = Pos { x: 1, y: 1 };
    let to = Pos { x: 6, y: 1 };
    let mut c = worker(1, 1, None);
    c.assigned_job = Some(4);
    let mut citizens = vec![c];
    let mut jobs = vec![Job { id: 4, kind: JobKind::HaulWood { from, to }, taken: true, done: false }];
    let mut logs = vec![LogItem { pos: from, carried: false }];
    let mut ws = vec![WarehouseStore::new(to)];
    let mut res = Resources::default();
    let buildings: Vec<Building> = Vec::new();
    let mut next_id: u64 = 9;
    process_jobs(&mut citizens, &mut jobs, &mut logs, &mut ws, &mut res, &buildings, &mut world, &mut next_id);
    assert!(logs.is_empty());
    assert!(citizens[0].carrying_log);
    assert!(citizens[0].moving);
    assert_eq!(citizens[0].assigned_job, Some(4));
    assert_eq!(jobs.len(), 1);
}

#[test]
fn delivered_log_adds_wood() {
    let mut world = meadow(8, 8);
    let from = Pos { x: 1, y: 1 };
    let to = Pos { x: 6, y: 1 };
    let mut c = worker(6, 1, None);
    c.assigned_job = Some(4);
    c.carrying_log = true;
    let mut citizens = vec![c];
    let mut jobs = vec![Job { id: 4, kind: JobKind::HaulWood { from, to }, taken: true, done: false }];
    let mut logs: Vec<LogItem> = Vec::new();
    let mut ws = vec![WarehouseStore::new(to)];
    let mut res = Resources::default();
    let buildings: Vec<Building> = Vec::new();
    let mut next_id: u64 = 9;
    process_jobs(&mut citizens, &mut jobs, &mut logs, &mut ws, &mut res, &buildings, &mut world, &mut next_id);
    assert_eq!(ws[0].wood, 1);
    assert!(jobs.is_empty());
    assert!(!citizens[0].carrying_log);
    assert_eq!(citizens[0].assigned_job, None);
}

#[test]
fn taken_job_nobody_holds_is_freed() {
    let mut world = meadow(8, 8);
    let mut citizens = vec![worker(0, 0, None)];
    let mut jobs = vec![Job { id: 3, kind: JobKind::ChopWood { pos: Pos { x: 5, y: 5 } }, taken: true, done: false }];
    let mut logs: Vec<LogItem> = Vec::new();
    let mut ws: Vec<WarehouseStore> = Vec::new();
    let mut res = Resources::default();
    let buildings: Vec<Building> = Vec::new();
    let mut next_id: u64 = 4;
    process_jobs(&mut citizens, &mut jobs, &mut logs, &mut ws, &mut res, &buildings, &mut world, &mut next_id);
    assert_eq!(jobs.len(), 1);
    assert!(!jobs[0].taken);
}

#[test]
fn more_jobs_than_workers_never_share_a_job() {
    let world = meadow(8, 8);
    let hut_pos = Pos { x: 0, y: 0 };
    let buildings = vec![hut(0, 0)];
    let mut citizens = vec![worker(1, 1, Some(hut_pos)), worker(5, 5, Some(hut_pos))];
    let mut jobs: Vec<Job> = (0..4)
        .map(|i| Job { id: 10 + i as u64, kind: JobKind::ChopWood { pos: Pos { x: i, y: i } }, taken: false, done: false })
        .collect();
    assign_jobs_nearest_worker(&mut citizens, &mut jobs, &world, &buildings);
    // the first two jobs go to the two workers, one each; the rest stay open
    assert_eq!(citizens[0].assigned_job, Some(10));
    assert_eq!(citizens[1].assigned_job, Some(11));
    assert_eq!(jobs.iter().filter(|j| j.taken).count(), 2);
    assert!(!jobs[2].taken && !jobs[3].taken);
}

#[test]
fn jobs_nobody_holds_are_freed_again() {
    let chop = |id: u64, taken: bool, done: bool| Job { id, kind: JobKind::ChopWood { pos: Pos { x: 1, y: 1 } }, taken, done };
    let mut holder = worker(0, 0, None);
    holder.assigned_job = Some(1);
    let citizens = vec![holder, worker(1, 0, None)];
    let mut jobs = vec![chop(1, true, false), chop(2, true, false), chop(3, false, false), chop(4, true, true)];
    release_orphaned_jobs(&mut jobs, &citizens);
    assert_eq!(jobs, vec![chop(1, true, false), chop(2, false, false), chop(3, false, false), chop(4, true, true)]);
}

#[test]
fn a_round_drops_finished_jobs_and_frees_their_holders() {
    let mut world = meadow(8, 8);
    let mut holder = worker(3, 3, None);
    holder.assigned_job = Some(8);
    let mut citizens = vec![holder, worker(0, 0, None)];
    let mut jobs = vec![
        Job { id: 7, kind: JobKind::ChopWood { pos: Pos { x: 5, y: 5 } }, taken: false, done: true },
        Job { id: 9, kind: JobKind::ChopWood { pos: Pos { x: 6, y: 6 } }, taken: false, done: false },
    ];
    let mut logs: Vec<LogItem> = Vec::new();
    let mut ws: Vec<WarehouseStore> = Vec::new();
    let mut res = Resources::default();
    let buildings: Vec<Building> = Vec::new();
    let mut next_id: u64 = 10;
    process_jobs(&mut citizens, &mut jobs, &mut logs, &mut ws, &mut res, &buildings, &mut world, &mut next_id);
    assert!(jobs.iter().all(|j| !j.done));
    assert_eq!(jobs.len(), 1);
    // job 8 is not on the board, so its holder lets it go
    assert_eq!(citizens[0].assigned_job, None);
}

#[test]
fn a_round_fits_unless_a_delivery_or_a_new_id_would_overflow() {
    let mut full = WarehouseStore::new(Pos { x: 3, y: 3 });
    full.wood = i32::MAX;
    let idle = worker(0, 0, None);
    assert!(round_fits(&vec![idle.clone()], &vec![full], u64::MAX));
    // a citizen with a log standing elsewhere delivers nothing here
    let mut carrier = worker(1, 1, None);
    carrier.carrying_log = true;
    carrier.assigned_job = Some(4);
    carrier.moving = true;
    assert!(round_fits(&vec![carrier.clone()], &vec![full], 0));
    // standing still at the warehouse's tile, it may hand its log in there
    carrier.moving = false;
    carrier.pos = Pos { x: 3, y: 3 };
    assert!(!round_fits(&vec![carrier.clone()], &vec![full], 0));
    let mut roomy = full;
    roomy.wood = i32::MAX - 1;
    assert!(round_fits(&vec![carrier.clone()], &vec![roomy], 0));
    // standing still with a job it may publish one more id
    assert!(!round_fits(&vec![carrier.clone()], &vec![roomy], u64::MAX));
    assert!(round_fits(&vec![carrier], &vec![roomy], u64::MAX - 1));
}

#[test]
fn each_job_taken_in_a_round_has_exactly_one_new_holder() {
    let world = meadow(8, 8);
    let hut_pos = Pos { x: 0, y: 0 };
    let buildings = vec![hut(0, 0)];
    let mut busy = worker(1, 1, Some(hut_pos));
    busy.assigned_job = Some(1);
    let mut citizens = vec![worker(6, 0, Some(hut_pos)), busy, worker(2, 0, Some(hut_pos))];
    let before = citizens.clone();
    let mut jobs = vec![
        Job { id: 1, kind: JobKind::ChopWood { pos: Pos { x: 1, y: 1 } }, taken: true, done: false },
        Job { id: 2, kind: JobKind::ChopWood { pos: Pos { x: 3, y: 0 } }, taken: false, done: false },
        Job { id: 3, kind: JobKind::ChopWood { pos: Pos { x: 7, y: 0 } }, taken: false, done: false },
    ];
    assign_jobs_nearest_worker(&mut citizens, &mut jobs, &world, &buildings);
    assert!(jobs.iter().all(|j| j.taken));
    for id in [2u64, 3] {
        let holders: Vec<usize> = (0..3).filter(|&k| citizens[k].assigned_job == Some(id)).collect();
        assert_eq!(holders.len(), 1);
        assert_eq!(before[holders[0]].assigned_job, None);
    }
    assert_eq!(citizens[2].assigned_job, Some(2));
    assert_eq!(citizens[0].assigned_job, Some(3));
    assert_eq!(citizens[1].assigned_job, Some(1));
    for k in 0..3 {
        assert_eq!(citizens[k].pos, before[k].pos);
        assert_eq!(citizens[k].home, before[k].home);
        assert_eq!(citizens[k].workplace, before[k].workplace);
    }
}
