use strategy::config::defaults;
use strategy::game::{
    buildings_upkeep, migrate, new_day_feed_and_income, plan_path, route_with, settle_gold, simulate, update_happiness,
};
use strategy::types::{
    total_resources, Building, BuildingKind, Citizen, CitizenState, FoodPolicy, Pos, ResourceKind, Resources, TileKind,
    WarehouseStore,
};
use strategy::world::World;

fn resident(x: i32, y: i32) -> Citizen {
    Citizen {
        pos: Pos { x, y },
        target: Pos { x, y },
        moving: false,
        progress: 0,
        carrying_log: false,
        assigned_job: None,
        idle_timer_ms: 0,
        home: Pos { x, y },
        workplace: None,
        state: CitizenState::Idle,
        work_timer_ms: 0,
        carrying: None,
        pending_input: None,
        path: Vec::new(),
        path_index: 0,
        fed_today: false,
        manual_workplace: false,
        happiness: 50,
        last_food_mask: 0,
    }
}

fn building(kind: BuildingKind, x: i32, y: i32) -> Building {
    Building { kind, pos: Pos { x, y }, timer_ms: 0, workers_target: 1, capacity: 2 }
}

#[test]
fn balanced_policy_alternates_bread_and_fish() {
    let mut citizens = vec![resident(0, 0), resident(1, 0)];
    let mut res = Resources::default();
    let mut w = WarehouseStore::new(Pos { x: 5, y: 5 });
    w.bread = 1;
    w.fish = 1;
    let mut ws = vec![w];
    new_day_feed_and_income(&mut citizens, &mut res, &mut ws, FoodPolicy::Balanced);
    assert!(citizens[0].fed_today && citizens[1].fed_today);
    assert_eq!(citizens[0].last_food_mask, 1);
    assert_eq!(citizens[1].last_food_mask, 2);
    assert_eq!(ws[0].bread, 0);
    assert_eq!(ws[0].fish, 0);
}

#[test]
fn meals_fall_back_to_global_stock() {
    let mut citizens = vec![resident(0, 0)];
    let mut res = Resources::default();
    res.bread = 1;
    let mut ws: Vec<WarehouseStore> = Vec::new();
    new_day_feed_and_income(&mut citizens, &mut res, &mut ws, FoodPolicy::BreadFirst);
    assert!(citizens[0].fed_today);
    assert_eq!(res.bread, 0);
}

#[test]
fn fish_first_policy_eats_fish() {
    let mut citizens = vec![resident(0, 0)];
    let mut res = Resources::default();
    res.bread = 3;
    res.fish = 1;
    let mut ws: Vec<WarehouseStore> = Vec::new();
    new_day_feed_and_income(&mut citizens, &mut res, &mut ws, FoodPolicy::FishFirst);
    assert_eq!(citizens[0].last_food_mask, 2);
    assert_eq!(res.fish, 0);
    assert_eq!(res.bread, 3);
}

#[test]
fn nobody_eats_without_food() {
    let mut c = resident(0, 0);
    c.fed_today = true;
    let mut citizens = vec![c];
    let mut res = Resources::default();
    let mut ws: Vec<WarehouseStore> = Vec::new();
    new_day_feed_and_income(&mut citizens, &mut res, &mut ws, FoodPolicy::Balanced);
    assert!(!citizens[0].fed_today);
    assert_eq!(citizens[0].last_food_mask, 0);
}

#[test]
fn happiness_adds_bonuses_and_penalties() {
    let (cfg, _) = defaults();
    let mut fed = resident(2, 2);
    fed.fed_today = true;
    fed.last_food_mask = 3;
    let hungry = resident(9, 9);
    let mut citizens = vec![fed, hungry];
    let buildings = vec![building(BuildingKind::House, 2, 2)];
    let sum = update_happiness(&mut citizens, &buildings, &cfg);
    assert_eq!(citizens[0].happiness, 80);
    assert_eq!(citizens[1].happiness, 25);
    assert_eq!(citizens[0].last_food_mask, 0);
    assert_eq!(sum, 105);
}

#[test]
fn upkeep_sums_every_building() {
    let (cfg, _) = defaults();
    let buildings = vec![
        building(BuildingKind::House, 0, 0),
        building(BuildingKind::Lumberjack, 1, 0),
        building(BuildingKind::Smelter, 2, 0),
    ];
    assert_eq!(buildings_upkeep(&buildings, &cfg), 3);
}

#[test]
fn negative_income_counts_as_zero() {
    let mut res = Resources::default();
    res.gold = 10;
    let r = settle_gold(&mut res, -5, 3);
    assert_eq!(r, (0, 3));
    assert_eq!(res.gold, 7);
}

#[test]
fn newcomer_moves_into_first_free_house() {
    let mut citizens = vec![resident(3, 3)];
    let buildings = vec![building(BuildingKind::Lumberjack, 0, 0), building(BuildingKind::House, 3, 3)];
    migrate(&mut citizens, &buildings, true, false);
    assert_eq!(citizens.len(), 2);
    assert_eq!(citizens[1].home, Pos { x: 3, y: 3 });
    assert!(citizens[1].fed_today);
    assert_eq!(citizens[1].happiness, 55);
}

#[test]
fn full_houses_take_nobody() {
    let mut citizens = vec![resident(3, 3), resident(3, 3)];
    let buildings = vec![building(BuildingKind::House, 3, 3)];
    migrate(&mut citizens, &buildings, true, false);
    assert_eq!(citizens.len(), 2);
}

#[test]
fn unhappy_colony_loses_first_unpinned_citizen() {
    let mut pinned = resident(0, 0);
    pinned.manual_workplace = true;
    let mut citizens = vec![pinned, resident(1, 1), resident(2, 2)];
    let buildings: Vec<Building> = Vec::new();
    migrate(&mut citizens, &buildings, false, true);
    assert_eq!(citizens.len(), 2);
    assert_eq!(citizens[0].pos, Pos { x: 0, y: 0 });
    assert_eq!(citizens[1].pos, Pos { x: 2, y: 2 });
}

#[test]
fn simulate_advances_building_timers() {
    let mut buildings = vec![building(BuildingKind::Mill, 0, 0), building(BuildingKind::Kiln, 1, 1)];
    buildings[1].timer_ms = 100;
    let mut world = World::new();
    let mut res = Resources::default();
    let mut ws: Vec<WarehouseStore> = Vec::new();
    simulate(&mut buildings, &mut world, &mut res, &mut ws, 16);
    assert_eq!(buildings[0].timer_ms, 16);
    assert_eq!(buildings[1].timer_ms, 116);
}

#[test]
fn totals_add_warehouses_to_global_stock() {
    let mut res = Resources::default();
    res.wood = 5;
    res.gold = 7;
    let mut a = WarehouseStore::new(Pos { x: 0, y: 0 });
    a.wood = 10;
    let mut b = WarehouseStore::new(Pos { x: 1, y: 0 });
    b.wood = 1;
    b.stone = 4;
    let t = total_resources(&vec![a, b], &res);
    assert_eq!(t.wood, 16);
    assert_eq!(t.stone, 4);
    assert_eq!(t.gold, 7);
}

#[test]
fn amounts_read_back_what_was_set() {
    let mut r = Resources::default();
    r.set_amount(ResourceKind::Clay, 17);
    assert_eq!(r.amount(ResourceKind::Clay), 17);
    assert_eq!(r.amount(ResourceKind::Wood), 0);
    let mut w = WarehouseStore::new(Pos { x: 3, y: 4 });
    w.set_amount(ResourceKind::IronOre, 9);
    assert!(w.has_enough(ResourceKind::IronOre, 9));
    assert!(!w.has_enough(ResourceKind::IronOre, 10));
    w.spend(ResourceKind::IronOre, 4);
    assert_eq!(w.amount(ResourceKind::IronOre), 5);
    assert_eq!(w.amount(ResourceKind::Gold), 0);
    assert_eq!(w.pos, Pos { x: 3, y: 4 });
}

#[test]
fn every_meal_eats_one_unit_of_food() {
    let mut citizens = vec![resident(0, 0), resident(1, 0), resident(2, 0), resident(3, 0)];
    let mut res = Resources::default();
    res.fish = 1;
    res.wood = 7;
    let mut w = WarehouseStore::new(Pos { x: 5, y: 5 });
    w.bread = 2;
    let mut ws = vec![w];
    new_day_feed_and_income(&mut citizens, &mut res, &mut ws, FoodPolicy::Balanced);
    let fed = citizens.iter().filter(|c| c.fed_today).count();
    assert_eq!(fed, 3);
    assert_eq!(ws[0].bread + ws[0].fish + res.bread + res.fish, 0);
    assert_eq!(res.wood, 7);
    assert!(!citizens[3].fed_today);
}

#[test]
fn happiness_stays_between_0_and_100() {
    let (mut cfg, _) = defaults();
    cfg.happy_feed_bonus = 90;
    cfg.happy_starving_penalty = -80;
    let mut fed = resident(2, 2);
    fed.fed_today = true;
    let hungry = resident(9, 9);
    let mut citizens = vec![fed, hungry];
    let buildings = vec![building(BuildingKind::House, 2, 2)];
    let sum = update_happiness(&mut citizens, &buildings, &cfg);
    assert_eq!(citizens[0].happiness, 100);
    assert_eq!(citizens[1].happiness, 0);
    assert_eq!(sum, 100);
}

#[test]
fn a_citizen_at_its_goal_gets_a_one_tile_path() {
    let mut world = World::new();
    world.set_tile(Pos { x: 3, y: 3 }, TileKind::Grass);
    let mut c = resident(3, 3);
    c.progress = 250;
    plan_path(&world, &mut c, Pos { x: 3, y: 3 });
    assert_eq!(c.path, vec![Pos { x: 3, y: 3 }]);
    assert_eq!(c.path_index, 1);
    assert_eq!(c.target, Pos { x: 3, y: 3 });
    assert!(!c.moving);
    assert_eq!(c.progress, 250);
}

#[test]
fn without_a_path_a_citizen_steps_straight_on() {
    let world = World::new();
    let mut c = resident(0, 0);
    plan_path(&world, &mut c, Pos { x: 0, y: 4 });
    assert!(c.path.is_empty());
    assert_eq!(c.path_index, 0);
    assert_eq!(c.target, Pos { x: 0, y: 1 });
    assert!(c.moving);
}

#[test]
fn a_citizen_takes_the_very_path_it_is_given() {
    let mut c = resident(0, 0);
    c.progress = 90;
    let path = vec![Pos { x: 0, y: 0 }, Pos { x: 1, y: 0 }, Pos { x: 1, y: 1 }];
    route_with(&mut c, Pos { x: 1, y: 1 }, Some(path.clone()));
    assert_eq!(c.path, path);
    assert_eq!(c.path_index, 1);
    assert_eq!(c.target, Pos { x: 1, y: 0 });
    assert!(c.moving);
    assert_eq!(c.progress, 0);
    assert_eq!(c.pos, Pos { x: 0, y: 0 });
    let mut still = resident(2, 2);
    still.progress = 90;
    route_with(&mut still, Pos { x: 2, y: 2 }, Some(vec![Pos { x: 2, y: 2 }]));
    assert_eq!(still.target, Pos { x: 2, y: 2 });
    assert!(!still.moving);
    assert_eq!(still.progress, 90);
    let mut lost = resident(5, 5);
    route_with(&mut lost, Pos { x: 2, y: 9 }, None);
    assert!(lost.path.is_empty());
    assert_eq!(lost.path_index, 0);
    assert_eq!(lost.target, Pos { x: 4, y: 5 });
    assert!(lost.moving);
}

#[test]
fn plan_path_follows_the_searched_path_across_a_meadow() {
    let mut world = World::new();
    for x in 0..3 {
        world.set_tile(Pos { x, y: 0 }, TileKind::Grass);
    }
    let mut c = resident(0, 0);
    plan_path(&world, &mut c, Pos { x: 2, y: 0 });
    assert_eq!(c.path, vec![Pos { x: 0, y: 0 }, Pos { x: 1, y: 0 }, Pos { x: 2, y: 0 }]);
    assert_eq!(c.target, Pos { x: 1, y: 0 });
    assert!(c.moving);
}
