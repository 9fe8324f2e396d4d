use rand::rngs::StdRng;
use rand::SeedableRng;
use strategy::quests::{
    build_quest, check_quests, collect_resource_quest, generate_random_quest, gold_quest, population_quest,
    quest_inputs_fit, update_quests, Quest, QuestKind,
};
use strategy::types::{Building, BuildingKind, Pos, Resources, WarehouseStore};

fn plot_of(kind: BuildingKind, x: i32) -> Building {
    Building { kind, pos: Pos { x, y: 0 }, timer_ms: 0, workers_target: 1, capacity: 2 }
}

#[test]
fn collect_quest_asks_for_more_than_held() {
    let mut t = Resources::default();
    t.clay = 7;
    let q = collect_resource_quest(4, 2, 20, &t);
    assert_eq!(q.id, 4);
    assert_eq!(q.title, "Collect 27 Clay");
    assert_eq!(q.description, "Gather 27 units of Clay");
    assert_eq!(q.reward_gold, 13);
    assert!(!q.completed);
    assert_eq!(
        q.kind,
        QuestKind::CollectResource { resource_name: "Clay".to_string(), target_amount: 27, current_amount: 7 }
    );
    let small = collect_resource_quest(5, 0, 10, &Resources::default());
    assert_eq!(small.reward_gold, 10);
    let mut owed = Resources::default();
    owed.fish = -31;
    let negative = collect_resource_quest(6, 6, 10, &owed);
    assert_eq!(negative.title, "Collect -21 Fish");
    assert_eq!(negative.reward_gold, 10);
}

#[test]
fn build_population_and_gold_quests() {
    let buildings = vec![plot_of(BuildingKind::House, 0), plot_of(BuildingKind::House, 1), plot_of(BuildingKind::Mill, 2)];
    let q = build_quest(1, 0, 2, &buildings);
    assert_eq!(q.title, "Build 4 Houses");
    assert_eq!(q.description, "Construct 4 Houses");
    assert_eq!(q.reward_gold, 80);
    assert_eq!(q.kind, QuestKind::BuildBuildings { building_kind: BuildingKind::House, target_count: 4, current_count: 2 });
    let f = build_quest(2, 3, 1, &buildings);
    assert_eq!(f.title, "Build 1 Wheat Fields");
    assert_eq!(f.reward_gold, 20);
    let p = population_quest(3, 6, 10);
    assert_eq!(p.title, "Reach 16 Population");
    assert_eq!(p.description, "Grow your population to 16 citizens");
    assert_eq!(p.reward_gold, 30);
    let mut t = Resources::default();
    t.gold = 40;
    let g = gold_quest(4, 100, &t);
    assert_eq!(g.title, "Collect 140 Gold");
    assert_eq!(g.description, "Accumulate 140 gold coins");
    assert_eq!(g.reward_gold, 30);
}

#[test]
fn drawn_quest_is_well_formed() {
    let mut rng = StdRng::seed_from_u64(42);
    let mut t = Resources::default();
    t.wood = 12;
    t.gold = 300;
    let buildings = vec![plot_of(BuildingKind::House, 0)];
    for id in 1..40u32 {
        let q = generate_random_quest(&mut rng, id, &t, &buildings, 9).expect("always a quest");
        assert_eq!(q.id, id);
        assert!(!q.completed);
        match q.kind {
            QuestKind::CollectResource { target_amount, current_amount, .. } => {
                assert!(target_amount - current_amount >= 10 && target_amount - current_amount < 50)
            },
            QuestKind::BuildBuildings { target_count, current_count, .. } => {
                assert!(target_count - current_count >= 1 && target_count - current_count < 4)
            },
            QuestKind::ReachPopulation { target_population, current_population } => {
                assert_eq!(current_population, 9);
                assert!(target_population >= 14 && target_population < 24)
            },
            QuestKind::CollectGold { target_amount, current_amount } => {
                assert_eq!(current_amount, 300);
                assert!(target_amount >= 350 && target_amount < 500)
            },
        }
    }
}

fn gold_goal(id: u32, target: i32) -> Quest {
    Quest {
        id,
        kind: QuestKind::CollectGold { target_amount: target, current_amount: 0 },
        title: String::new(),
        description: String::new(),
        reward_gold: 30,
        completed: false,
    }
}

#[test]
fn reached_quests_are_returned_and_removed() {
    let mut quests = vec![gold_goal(1, 50), gold_goal(2, 500)];
    let mut done_before = gold_goal(3, 1);
    done_before.completed = true;
    quests.push(done_before);
    let mut t = Resources::default();
    t.gold = 60;
    let done = check_quests(&mut quests, &t, &Vec::new(), 0);
    assert_eq!(done.len(), 1);
    assert_eq!(done[0].id, 1);
    assert!(done[0].completed);
    assert_eq!(done[0].kind, QuestKind::CollectGold { target_amount: 50, current_amount: 60 });
    assert_eq!(quests.len(), 1);
    assert_eq!(quests[0].id, 2);
    assert_eq!(quests[0].kind, QuestKind::CollectGold { target_amount: 500, current_amount: 60 });
}

#[test]
fn due_update_draws_a_new_quest() {
    let mut rng = StdRng::seed_from_u64(7);
    let mut quests: Vec<Quest> = Vec::new();
    let mut next_id: u32 = 1;
    let res = Resources::default();
    let ws: Vec<WarehouseStore> = Vec::new();
    let (done, drawn) = update_quests(&mut quests, &mut next_id, true, &mut rng, &res, &ws, &Vec::new(), 3);
    assert!(drawn);
    assert_eq!(next_id, 2);
    assert!(quests.len() + done.len() == 1);
    let (_, drawn_again) = update_quests(&mut quests, &mut next_id, false, &mut rng, &res, &ws, &Vec::new(), 3);
    assert!(!drawn_again);
    assert_eq!(next_id, 2);
}

#[test]
fn updates_keep_at_most_three_open_quests_and_fresh_ones_stay_open() {
    let mut rng = StdRng::seed_from_u64(99);
    let mut quests: Vec<Quest> = Vec::new();
    let mut next_id: u32 = 1;
    let res = Resources::default();
    let ws: Vec<WarehouseStore> = Vec::new();
    for _ in 0..10 {
        let before = next_id;
        let (done, _) = update_quests(&mut quests, &mut next_id, true, &mut rng, &res, &ws, &Vec::new(), 3);
        assert!(quests.len() <= 3);
        assert!(quests.iter().all(|q| !q.completed));
        // nothing changes in the colony, so nothing completes, the fresh quest included
        assert!(done.is_empty());
        assert!(done.iter().all(|q| q.id != before));
    }
    assert_eq!(quests.len(), 3);
    assert_eq!(next_id, 4);
}

fn depot(wood: i32, gold: i32) -> WarehouseStore {
    WarehouseStore {
        pos: Pos { x: 0, y: 0 },
        wood,
        stone: 0,
        clay: 0,
        bricks: 0,
        wheat: 0,
        flour: 0,
        bread: 0,
        fish: 0,
        gold,
        iron_ore: 0,
        iron_ingots: 0,
    }
}

#[test]
fn quest_inputs_fit_checks_totals_and_margins() {
    let buildings = vec![plot_of(BuildingKind::House, 0)];
    let mut res = Resources::default();
    res.wood = 100;
    assert!(quest_inputs_fit(&vec![depot(5, 7)], &res, &buildings, 3));
    // wood total i32::MAX - 49 still leaves room for the largest extra
    assert!(quest_inputs_fit(&vec![depot(i32::MAX - 149, 0)], &res, &buildings, 3));
    assert!(!quest_inputs_fit(&vec![depot(i32::MAX - 148, 0)], &res, &buildings, 3));
    // two warehouses whose sum leaves i32
    assert!(!quest_inputs_fit(&vec![depot(i32::MAX, 0), depot(i32::MAX, 0)], &Resources::default(), &buildings, 3));
    // flour is never asked for, so only its total must fit
    let mut flour = Resources::default();
    flour.flour = i32::MAX;
    assert!(quest_inputs_fit(&vec![], &flour, &buildings, 3));
    // gold keeps a margin of 199
    assert!(quest_inputs_fit(&vec![depot(0, i32::MAX - 199)], &Resources::default(), &buildings, 3));
    assert!(!quest_inputs_fit(&vec![depot(0, i32::MAX - 198)], &Resources::default(), &buildings, 3));
    // the population keeps a margin of 14
    assert!(quest_inputs_fit(&vec![], &Resources::default(), &buildings, i32::MAX - 14));
    assert!(!quest_inputs_fit(&vec![], &Resources::default(), &buildings, i32::MAX - 13));
}
