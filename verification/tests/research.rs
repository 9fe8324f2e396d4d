use strategy::research::{ResearchKind, ResearchStatus, ResearchSystem};
use strategy::types::BuildingKind;

#[test]
fn fresh_tree_has_basics_done_and_first_tier_open() {
    let rs = ResearchSystem::new();
    assert_eq!(rs.get_status(ResearchKind::BasicHousing), ResearchStatus::Completed);
    assert_eq!(rs.get_status(ResearchKind::BasicForestry), ResearchStatus::Completed);
    assert_eq!(rs.get_status(ResearchKind::StoneWorking), ResearchStatus::Available);
    assert_eq!(rs.get_status(ResearchKind::Brickmaking), ResearchStatus::Locked);
    assert!(rs.active_research.is_none());
    assert_eq!(rs.researches.len(), 13);
}

#[test]
fn research_runs_for_its_days_then_completes() {
    let mut rs = ResearchSystem::new();
    assert!(rs.start_research(ResearchKind::AdvancedHousing));
    assert_eq!(rs.get_status(ResearchKind::AdvancedHousing), ResearchStatus::InProgress);
    assert_eq!(rs.active_research.unwrap().days_remaining, 3);
    assert_eq!(rs.update_daily(), None);
    assert_eq!(rs.update_daily(), None);
    assert_eq!(rs.update_daily(), Some(ResearchKind::AdvancedHousing));
    assert_eq!(rs.get_status(ResearchKind::AdvancedHousing), ResearchStatus::Completed);
    assert!(rs.active_research.is_none());
    assert_eq!(rs.update_daily(), None);
}

#[test]
fn only_one_research_at_a_time() {
    let mut rs = ResearchSystem::new();
    assert!(rs.start_research(ResearchKind::BasicFarming));
    assert!(!rs.start_research(ResearchKind::BasicFishing));
    assert_eq!(rs.get_status(ResearchKind::BasicFishing), ResearchStatus::Available);
}

#[test]
fn locked_research_cannot_start() {
    let mut rs = ResearchSystem::new();
    assert!(!rs.start_research(ResearchKind::Brickmaking));
    assert!(rs.active_research.is_none());
}

#[test]
fn completing_stone_working_unlocks_quarry_and_brickmaking() {
    let mut rs = ResearchSystem::new();
    assert!(!rs.is_building_unlocked(BuildingKind::StoneQuarry));
    assert!(rs.is_building_unlocked(BuildingKind::House));
    assert!(rs.start_research(ResearchKind::StoneWorking));
    let mut done = None;
    for _ in 0..5 {
        done = rs.update_daily();
    }
    assert_eq!(done, Some(ResearchKind::StoneWorking));
    assert!(rs.is_building_unlocked(BuildingKind::StoneQuarry));
    assert!(rs.is_building_unlocked(BuildingKind::ClayPit));
    assert_eq!(rs.get_status(ResearchKind::Brickmaking), ResearchStatus::Available);
}

#[test]
fn research_table_describes_each_research() {
    let info = ResearchKind::AdvancedHousing.info();
    assert_eq!(info.name, "Advanced Housing");
    assert_eq!(info.days_required, 3);
    assert_eq!(info.cost.wood, 50);
    assert_eq!(info.cost.gold, 100);
    assert_eq!(info.prerequisites, vec![ResearchKind::BasicHousing]);
    assert!(info.unlocks_buildings.is_empty());
    assert_eq!(ResearchKind::all().len(), 13);
    assert_eq!(ResearchKind::all()[0], ResearchKind::BasicHousing);
    assert_eq!(ResearchKind::AdvancedMining.tree_position(), (1, 4));
    assert_eq!(ResearchKind::BasicFishing.tree_position(), (3, 1));
}
