//! The research tree: which researches exist, what they cost, what they
//! unlock, and the system that tracks their progress day by day.

use vstd::prelude::*;
use crate::types::{BuildingKind, Resources};

verus! {

#[derive(Clone, Copy, Debug, PartialEq, Eq, Structural, Hash)]
pub enum ResearchKind {
    BasicHousing,
    BasicStorage,
    BasicForestry,
    AdvancedHousing,
    StoneWorking,
    BasicFarming,
    BasicFishing,
    Brickmaking,
    FoodProcessing,
    Mining,
    Metallurgy,
    AdvancedFarming,
    AdvancedMining,
}

#[derive(Clone, Copy, Debug, PartialEq, Eq, Structural)]
pub enum ResearchStatus {
    Locked,
    Available,
    InProgress,
    Completed,
}

/// The research being worked on and the days it still needs.
#[derive(Clone, Copy, Debug, PartialEq, Eq, Structural)]
pub struct ActiveResearch {
    pub kind: ResearchKind,
    pub days_remaining: i32,
}

/// One entry of the research table.
#[derive(Clone, Copy, Debug, PartialEq, Eq, Structural)]
pub struct Research {
    pub kind: ResearchKind,
    pub status: ResearchStatus,
}

/// Static description of a research.
pub struct ResearchInfo {
    pub name: &'static str,
    pub description: &'static str,
    pub days_required: i32,
    pub cost: Resources,
    pub prerequisites: Vec<ResearchKind>,
    pub unlocks_buildings: Vec<BuildingKind>,
}

/// All researches, in display order.
pub open spec fn all_research_kinds() -> Seq<ResearchKind> {
    seq![
        ResearchKind::BasicHousing,
        ResearchKind::BasicStorage,
        ResearchKind::BasicForestry,
        ResearchKind::AdvancedHousing,
        ResearchKind::StoneWorking,
        ResearchKind::BasicFarming,
        ResearchKind::BasicFishing,
        ResearchKind::Brickmaking,
        ResearchKind::FoodProcessing,
        ResearchKind::Mining,
        ResearchKind::Metallurgy,
        ResearchKind::AdvancedFarming,
        ResearchKind::AdvancedMining,
    ]
}

pub open spec fn research_name(k: ResearchKind) -> Seq<char> {
    match k {
        ResearchKind::BasicHousing => "Basic Housing"@,
        ResearchKind::BasicStorage => "Basic Storage"@,
        ResearchKind::BasicForestry => "Basic Forestry"@,
        ResearchKind::AdvancedHousing => "Advanced Housing"@,
        ResearchKind::StoneWorking => "Stone Working"@,
        ResearchKind::BasicFarming => "Basic Farming"@,
        ResearchKind::BasicFishing => "Basic Fishing"@,
        ResearchKind::Brickmaking => "Brickmaking"@,
        ResearchKind::FoodProcessing => "Food Processing"@,
        ResearchKind::Mining => "Mining"@,
        ResearchKind::Metallurgy => "Metallurgy"@,
        ResearchKind::AdvancedFarming => "Advanced Farming"@,
        ResearchKind::AdvancedMining => "Advanced Mining"@,
    }
}

pub open spec fn research_description(k: ResearchKind) -> Seq<char> {
    match k {
        ResearchKind::BasicHousing => "Unlocks construction of houses for citizens"@,
        ResearchKind::BasicStorage => "Unlocks construction of warehouses"@,
        ResearchKind::BasicForestry => "Unlocks lumberjacks and foresters"@,
        ResearchKind::AdvancedHousing => "Improved houses with greater capacity"@,
        ResearchKind::StoneWorking => "Unlocks quarry and clay pit"@,
        ResearchKind::BasicFarming => "Unlocks wheat fields"@,
        ResearchKind::BasicFishing => "Unlocks fishing hut"@,
        ResearchKind::Brickmaking => "Unlocks kiln for brick production"@,
        ResearchKind::FoodProcessing => "Unlocks mill and bakery"@,
        ResearchKind::Mining => "Unlocks iron mine"@,
        ResearchKind::Metallurgy => "Unlocks smelter for ingot production"@,
        ResearchKind::AdvancedFarming => "Improved farming methods"@,
        ResearchKind::AdvancedMining => "Improved mining methods"@,
    }
}

pub open spec fn research_days(k: ResearchKind) -> int {
    match k {
        ResearchKind::BasicHousing => 0,
        ResearchKind::BasicStorage => 0,
        ResearchKind::BasicForestry => 0,
        ResearchKind::AdvancedHousing => 3,
        ResearchKind::StoneWorking => 5,
        ResearchKind::BasicFarming => 4,
        ResearchKind::BasicFishing => 3,
        ResearchKind::Brickmaking => 6,
        ResearchKind::FoodProcessing => 7,
        ResearchKind::Mining => 8,
        ResearchKind::Metallurgy => 10,
        ResearchKind::AdvancedFarming => 12,
        ResearchKind::AdvancedMining => 12,
    }
}

/// A stock that holds only the given wood, gold, stone, clay, bricks and iron ingots.
pub open spec fn cost_of(wood: i32, gold: i32, stone: i32, clay: i32, bricks: i32, iron_ingots: i32) -> Resources {
    Resources { wood, gold, stone, clay, bricks, iron_ingots, ..Resources::zero() }
}

pub open spec fn research_cost(k: ResearchKind) -> Resources {
    match k {
        ResearchKind::BasicHousing => Resources::zero(),
        ResearchKind::BasicStorage => Resources::zero(),
        ResearchKind::BasicForestry => Resources::zero(),
        ResearchKind::AdvancedHousing => cost_of(50, 100, 0, 0, 0, 0),
        ResearchKind::StoneWorking => cost_of(100, 150, 0, 0, 0, 0),
        ResearchKind::BasicFarming => cost_of(80, 120, 0, 0, 0, 0),
        ResearchKind::BasicFishing => cost_of(60, 80, 0, 0, 0, 0),
        ResearchKind::Brickmaking => cost_of(150, 200, 50, 50, 0, 0),
        ResearchKind::FoodProcessing => cost_of(180, 250, 30, 0, 0, 0),
        ResearchKind::Mining => cost_of(200, 300, 100, 0, 0, 0),
        ResearchKind::Metallurgy => cost_of(250, 400, 150, 0, 50, 0),
        ResearchKind::AdvancedFarming => cost_of(300, 500, 0, 0, 0, 0),
        ResearchKind::AdvancedMining => cost_of(300, 500, 0, 0, 0, 20),
    }
}

pub open spec fn research_prereqs(k: ResearchKind) -> Seq<ResearchKind> {
    match k {
        ResearchKind::BasicHousing => seq![],
        ResearchKind::BasicStorage => seq![],
        ResearchKind::BasicForestry => seq![],
        ResearchKind::AdvancedHousing => seq![ResearchKind::BasicHousing],
        ResearchKind::StoneWorking => seq![ResearchKind::BasicForestry],
        ResearchKind::BasicFarming => seq![ResearchKind::BasicForestry],
        ResearchKind::BasicFishing => seq![ResearchKind::BasicForestry],
        ResearchKind::Brickmaking => seq![ResearchKind::StoneWorking],
        ResearchKind::FoodProcessing => seq![ResearchKind::BasicFarming],
        ResearchKind::Mining => seq![ResearchKind::StoneWorking],
        ResearchKind::Metallurgy => seq![ResearchKind::Mining, ResearchKind::Brickmaking],
        ResearchKind::AdvancedFarming => seq![ResearchKind::FoodProcessing],
        ResearchKind::AdvancedMining => seq![ResearchKind::Metallurgy],
    }
}

pub open spec fn research_unlocks(k: ResearchKind) -> Seq<BuildingKind> {
    match k {
        ResearchKind::BasicHousing => seq![BuildingKind::House],
        ResearchKind::BasicStorage => seq![BuildingKind::Warehouse],
        ResearchKind::BasicForestry => seq![BuildingKind::Lumberjack, BuildingKind::Forester],
        ResearchKind::AdvancedHousing => seq![],
        ResearchKind::StoneWorking => seq![BuildingKind::StoneQuarry, BuildingKind::ClayPit],
        ResearchKind::BasicFarming => seq![BuildingKind::WheatField],
        ResearchKind::BasicFishing => seq![BuildingKind::Fishery],
        ResearchKind::Brickmaking => seq![BuildingKind::Kiln],
        ResearchKind::FoodProcessing => seq![BuildingKind::Mill, BuildingKind::Bakery],
        ResearchKind::Mining => seq![BuildingKind::IronMine],
        ResearchKind::Metallurgy => seq![BuildingKind::Smelter],
        ResearchKind::AdvancedFarming => seq![],
        ResearchKind::AdvancedMining => seq![],
    }
}

/// Every kind of building is unlocked by a research, and by one only; the
/// bakery, like the mill, by Food Processing.
pub proof fn lemma_every_building_unlocked_once(b: BuildingKind, k1: ResearchKind, k2: ResearchKind)
    ensures
        exists|k: ResearchKind| #[trigger] research_unlocks(k).contains(b),
        research_unlocks(k1).contains(b) && research_unlocks(k2).contains(b) ==> k1 == k2,
        research_unlocks(ResearchKind::FoodProcessing).contains(BuildingKind::Bakery),
        research_unlocks(ResearchKind::FoodProcessing).contains(BuildingKind::Mill),
{
    assert(research_unlocks(ResearchKind::FoodProcessing)[1] == BuildingKind::Bakery);
    assert(research_unlocks(ResearchKind::FoodProcessing)[0] == BuildingKind::Mill);
    assert(research_unlocks(ResearchKind::FoodProcessing).contains(BuildingKind::Bakery));
    assert(research_unlocks(ResearchKind::FoodProcessing).contains(BuildingKind::Mill));
    match b {
        BuildingKind::House => {
            assert(research_unlocks(ResearchKind::BasicHousing)[0] == b);
            assert(research_unlocks(ResearchKind::BasicHousing).contains(b));
        },
        BuildingKind::Warehouse => {
            assert(research_unlocks(ResearchKind::BasicStorage)[0] == b);
            assert(research_unlocks(ResearchKind::BasicStorage).contains(b));
        },
        BuildingKind::Lumberjack => {
            assert(research_unlocks(ResearchKind::BasicForestry)[0] == b);
            assert(research_unlocks(ResearchKind::BasicForestry).contains(b));
        },
        BuildingKind::Forester => {
            assert(research_unlocks(ResearchKind::BasicForestry)[1] == b);
            assert(research_unlocks(ResearchKind::BasicForestry).contains(b));
        },
        BuildingKind::StoneQuarry => {
            assert(research_unlocks(ResearchKind::StoneWorking)[0] == b);
            assert(research_unlocks(ResearchKind::StoneWorking).contains(b));
        },
        BuildingKind::ClayPit => {
            assert(research_unlocks(ResearchKind::StoneWorking)[1] == b);
            assert(research_unlocks(ResearchKind::StoneWorking).contains(b));
        },
        BuildingKind::WheatField => {
            assert(research_unlocks(ResearchKind::BasicFarming)[0] == b);
            assert(research_unlocks(ResearchKind::BasicFarming).contains(b));
        },
        BuildingKind::Fishery => {
            assert(research_unlocks(ResearchKind::BasicFishing)[0] == b);
            assert(research_unlocks(ResearchKind::BasicFishing).contains(b));
        },
        BuildingKind::Kiln => {
            assert(research_unlocks(ResearchKind::Brickmaking)[0] == b);
            assert(research_unlocks(ResearchKind::Brickmaking).contains(b));
        },
        BuildingKind::Mill => {},
        BuildingKind::Bakery => {},
        BuildingKind::IronMine => {
            assert(research_unlocks(ResearchKind::Mining)[0] == b);
            assert(research_unlocks(ResearchKind::Mining).contains(b));
        },
        BuildingKind::Smelter => {
            assert(research_unlocks(ResearchKind::Metallurgy)[0] == b);
            assert(research_unlocks(ResearchKind::Metallurgy).contains(b));
        },
    }
    if research_unlocks(k1).contains(b) && research_unlocks(k2).contains(b) {
        let i1 = choose|i: int| 0 <= i < research_unlocks(k1).len() && research_unlocks(k1)[i] == b;
        let i2 = choose|i: int| 0 <= i < research_unlocks(k2).len() && research_unlocks(k2)[i] == b;
        assert(research_unlocks(k1)[i1] == research_unlocks(k2)[i2]);
    }
}

/// The research tree is layered: the starting researches (top row) need no
/// prerequisite, take no days and cost nothing; every other one needs some,
/// takes days and costs gold; and each prerequisite sits exactly one row
/// higher, takes fewer days and costs less gold than the research it opens.
pub proof fn lemma_research_tree_layers(k: ResearchKind)
    ensures
        research_prereqs(k).len() == 0 <==> research_tree_position(k).1 == 0,
        research_prereqs(k).len() == 0 <==> research_days(k) == 0,
        research_prereqs(k).len() == 0 <==> research_cost(k) == Resources::zero(),
        research_prereqs(k).len() > 0 ==> research_cost(k).gold > 0,
        forall|i: int|
            0 <= i < research_prereqs(k).len() ==> {
                let p = #[trigger] research_prereqs(k)[i];
                &&& research_tree_position(p).1 == research_tree_position(k).1 - 1
                &&& research_days(p) < research_days(k)
                &&& research_cost(p).gold < research_cost(k).gold
            },
{
}

/// No two researches share a place in the tree.
pub proof fn lemma_research_places_distinct(k1: ResearchKind, k2: ResearchKind)
    ensures
        research_tree_position(k1) == research_tree_position(k2) ==> k1 == k2,
{
}

pub open spec fn research_tree_position(k: ResearchKind) -> (i32, i32) {
    match k {
        ResearchKind::BasicHousing => (0, 0),
        ResearchKind::BasicStorage => (1, 0),
        ResearchKind::BasicForestry => (2, 0),
        ResearchKind::AdvancedHousing => (0, 1),
        ResearchKind::StoneWorking => (1, 1),
        ResearchKind::BasicFarming => (2, 1),
        ResearchKind::BasicFishing => (3, 1),
        ResearchKind::Brickmaking => (0, 2),
        ResearchKind::Mining => (1, 2),
        ResearchKind::FoodProcessing => (2, 2),
        ResearchKind::Metallurgy => (1, 3),
        ResearchKind::AdvancedFarming => (2, 3),
        ResearchKind::AdvancedMining => (1, 4),
    }
}

fn cost(wood: i32, gold: i32, stone: i32, clay: i32, bricks: i32, iron_ingots: i32) -> (r: Resources)
    ensures
        r == cost_of(wood, gold, stone, clay, bricks, iron_ingots),
{
    Resources {
        wood,
        stone,
        clay,
        bricks,
        wheat: 0,
        flour: 0,
        bread: 0,
        fish: 0,
        gold,
        iron_ore: 0,
        iron_ingots,
    }
}

impl ResearchKind {
    /// The static description of this research.
    pub fn info(self) -> (r: ResearchInfo)
        ensures
            r.name@ == research_name(self),
            r.description@ == research_description(self),
            r.days_required == research_days(self),
            r.cost == research_cost(self),
            r.prerequisites@ == research_prereqs(self),
            r.unlocks_buildings@ == research_unlocks(self),
    {
        match self {
            ResearchKind::BasicHousing => ResearchInfo {
                name: "Basic Housing",
                description: "Unlocks construction of houses for citizens",
                days_required: 0,
                cost: cost(0, 0, 0, 0, 0, 0),
                prerequisites: vec![],
                unlocks_buildings: vec![BuildingKind::House],
            },
            ResearchKind::BasicStorage => ResearchInfo {
                name: "Basic Storage",
                description: "Unlocks construction of warehouses",
                days_required: 0,
                cost: cost(0, 0, 0, 0, 0, 0),
                prerequisites: vec![],
                unlocks_buildings: vec![BuildingKind::Warehouse],
            },
            ResearchKind::BasicForestry => ResearchInfo {
                name: "Basic Forestry",
                description: "Unlocks lumberjacks and foresters",
                days_required: 0,
                cost: cost(0, 0, 0, 0, 0, 0),
                prerequisites: vec![],
                unlocks_buildings: vec![BuildingKind::Lumberjack, BuildingKind::Forester],
            },
            ResearchKind::AdvancedHousing => ResearchInfo {
                name: "Advanced Housing",
                description: "Improved houses with greater capacity",
                days_required: 3,
                cost: cost(50, 100, 0, 0, 0, 0),
                prerequisites: vec![ResearchKind::BasicHousing],
                unlocks_buildings: vec![],
            },
            ResearchKind::StoneWorking => ResearchInfo {
                name: "Stone Working",
                description: "Unlocks quarry and clay pit",
                days_required: 5,
                cost: cost(100, 150, 0, 0, 0, 0),
                prerequisites: vec![ResearchKind::BasicForestry],
                unlocks_buildings: vec![BuildingKind::StoneQuarry, BuildingKind::ClayPit],
            },
            ResearchKind::BasicFarming => ResearchInfo {
                name: "Basic Farming",
                description: "Unlocks wheat fields",
                days_required: 4,
                cost: cost(80, 120, 0, 0, 0, 0),
                prerequisites: vec![ResearchKind::BasicForestry],
                unlocks_buildings: vec![BuildingKind::WheatField],
            },
            ResearchKind::BasicFishing => ResearchInfo {
                name: "Basic Fishing",
                description: "Unlocks fishing hut",
                days_required: 3,
                cost: cost(60, 80, 0, 0, 0, 0),
                prerequisites: vec![ResearchKind::BasicForestry],
                unlocks_buildings: vec![BuildingKind::Fishery],
            },
            ResearchKind::Brickmaking => ResearchInfo {
                name: "Brickmaking",
                description: "Unlocks kiln for brick production",
                days_required: 6,
                cost: cost(150, 200, 50, 50, 0, 0),
                prerequisites: vec![ResearchKind::StoneWorking],
                unlocks_buildings: vec![BuildingKind::Kiln],
            },
            ResearchKind::FoodProcessing => ResearchInfo {
                name: "Food Processing",
                description: "Unlocks mill and bakery",
                days_required: 7,
                cost: cost(180, 250, 30, 0, 0, 0),
                prerequisites: vec![ResearchKind::BasicFarming],
                unlocks_buildings: vec![BuildingKind::Mill, BuildingKind::Bakery],
            },
            ResearchKind::Mining => ResearchInfo {
                name: "Mining",
                description: "Unlocks iron mine",
                days_required: 8,
                cost: cost(200, 300, 100, 0, 0, 0),
                prerequisites: vec![ResearchKind::StoneWorking],
                unlocks_buildings: vec![BuildingKind::IronMine],
            },
            ResearchKind::Metallurgy => ResearchInfo {
                name: "Metallurgy",
                description: "Unlocks smelter for ingot production",
                days_required: 10,
                cost: cost(250, 400, 150, 0, 50, 0),
                prerequisites: vec![ResearchKind::Mining, ResearchKind::Brickmaking],
                unlocks_buildings: vec![BuildingKind::Smelter],
            },
            ResearchKind::AdvancedFarming => ResearchInfo {
                name: "Advanced Farming",
                description: "Improved farming methods",
                days_required: 12,
                cost: cost(300, 500, 0, 0, 0, 0),
                prerequisites: vec![ResearchKind::FoodProcessing],
                unlocks_buildings: vec![],
            },
            ResearchKind::AdvancedMining => ResearchInfo {
                name: "Advanced Mining",
                description: "Improved mining methods",
                days_required: 12,
                cost: cost(300, 500, 0, 0, 0, 20),
                prerequisites: vec![ResearchKind::Metallurgy],
                unlocks_buildings: vec![],
            },
        }
    }

    /// Every research, in display order.
    pub fn all() -> (r: Vec<ResearchKind>)
        ensures
            r@ == all_research_kinds(),
    {
        let r = vec![
            ResearchKind::BasicHousing,
            ResearchKind::BasicStorage,
            ResearchKind::BasicForestry,
            ResearchKind::AdvancedHousing,
            ResearchKind::StoneWorking,
            ResearchKind::BasicFarming,
            ResearchKind::BasicFishing,
            ResearchKind::Brickmaking,
            ResearchKind::FoodProcessing,
            ResearchKind::Mining,
            ResearchKind::Metallurgy,
            ResearchKind::AdvancedFarming,
            ResearchKind::AdvancedMining,
        ];
        assert(r@ =~= all_research_kinds());
        r
    }

    /// Column and row of this research in the research-tree screen.
    pub fn tree_position(self) -> (r: (i32, i32))
        ensures
            r == research_tree_position(self),
    {
        match self {
            ResearchKind::BasicHousing => (0, 0),
            ResearchKind::BasicStorage => (1, 0),
            ResearchKind::BasicForestry => (2, 0),
            ResearchKind::AdvancedHousing => (0, 1),
            ResearchKind::StoneWorking => (1, 1),
            ResearchKind::BasicFarming => (2, 1),
            ResearchKind::BasicFishing => (3, 1),
            ResearchKind::Brickmaking => (0, 2),
            ResearchKind::Mining => (1, 2),
            ResearchKind::FoodProcessing => (2, 2),
            ResearchKind::Metallurgy => (1, 3),
            ResearchKind::AdvancedFarming => (2, 3),
            ResearchKind::AdvancedMining => (1, 4),
        }
    }
}

/// Index of the first entry of kind `k` at or after `i`, or -1.
pub open spec fn first_index_from(rs: Seq<Research>, k: ResearchKind, i: int) -> int
    decreases rs.len() - i,
{
    if i < 0 || i >= rs.len() {
        -1
    } else if rs[i].kind == k {
        i
    } else {
        first_index_from(rs, k, i + 1)
    }
}

/// Index of the first entry of kind `k`, or -1.
pub open spec fn find_index(rs: Seq<Research>, k: ResearchKind) -> int {
    first_index_from(rs, k, 0)
}

/// Status of a research as the table reports it: that of its first entry,
/// `Locked` when it has none.
pub open spec fn status_of(rs: Seq<Research>, k: ResearchKind) -> ResearchStatus {
    if find_index(rs, k) >= 0 {
        rs[find_index(rs, k)].status
    } else {
        ResearchStatus::Locked
    }
}

/// Some entry of kind `p` is completed.
pub open spec fn completed_exists(rs: Seq<Research>, p: ResearchKind) -> bool {
    exists|j: int| 0 <= j < rs.len() && #[trigger] rs[j].kind == p && rs[j].status == ResearchStatus::Completed
}

/// Every prerequisite of `k` is completed.
pub open spec fn prereqs_met(rs: Seq<Research>, k: ResearchKind) -> bool {
    forall|p: ResearchKind| #[trigger] research_prereqs(k).contains(p) ==> completed_exists(rs, p)
}

/// The status an entry gets when the table is refreshed: researches in progress
/// or completed keep their status, the others become available exactly when
/// their prerequisites are completed.
pub open spec fn refreshed_status(rs: Seq<Research>, r: Research) -> ResearchStatus {
    if r.status == ResearchStatus::InProgress || r.status == ResearchStatus::Completed {
        r.status
    } else if prereqs_met(rs, r.kind) {
        ResearchStatus::Available
    } else {
        ResearchStatus::Locked
    }
}

pub open spec fn refreshed(rs: Seq<Research>) -> Seq<Research> {
    Seq::new(rs.len(), |i: int| Research { kind: rs[i].kind, status: refreshed_status(rs, rs[i]) })
}

/// The table with the first entry of kind `k` marked completed.
pub open spec fn complete_first(rs: Seq<Research>, k: ResearchKind) -> Seq<Research> {
    if find_index(rs, k) >= 0 {
        rs.update(find_index(rs, k), Research { kind: k, status: ResearchStatus::Completed })
    } else {
        rs
    }
}

/// Status of each research in a fresh game.
pub open spec fn initial_status(k: ResearchKind) -> ResearchStatus {
    match k {
        ResearchKind::BasicHousing => ResearchStatus::Completed,
        ResearchKind::BasicStorage => ResearchStatus::Completed,
        ResearchKind::BasicForestry => ResearchStatus::Completed,
        ResearchKind::AdvancedHousing => ResearchStatus::Available,
        ResearchKind::StoneWorking => ResearchStatus::Available,
        ResearchKind::BasicFarming => ResearchStatus::Available,
        ResearchKind::BasicFishing => ResearchStatus::Available,
        _ => ResearchStatus::Locked,
    }
}

pub open spec fn initial_table() -> Seq<Research> {
    all_research_kinds().map_values(|k: ResearchKind| Research { kind: k, status: initial_status(k) })
}

/// The research system.
#[derive(Clone, Debug)]
pub struct ResearchSystem {
    pub researches: Vec<Research>,
    pub active_research: Option<ActiveResearch>,
    pub has_research_lab: bool,
}

/// Mathematical state of a research system.
pub struct ResearchView {
    pub researches: Seq<Research>,
    pub active_research: Option<ActiveResearch>,
    pub has_research_lab: bool,
}

impl View for ResearchSystem {
    type V = ResearchView;

    open spec fn view(&self) -> ResearchView {
        ResearchView {
            researches: self.researches@,
            active_research: self.active_research,
            has_research_lab: self.has_research_lab,
        }
    }
}

impl ResearchView {
    /// Nothing has been unlocked, started or completed before its prerequisites:
    /// every entry that is not locked, and the active research, has all its
    /// prerequisites completed.
    pub open spec fn respects_prerequisites(self) -> bool {
        &&& forall|i: int|
            0 <= i < self.researches.len() && #[trigger] self.researches[i].status != ResearchStatus::Locked
                ==> prereqs_met(self.researches, self.researches[i].kind)
        &&& self.active_research matches Some(a) ==> prereqs_met(self.researches, a.kind)
    }

    /// The active research is the one the table reports in progress.
    pub open spec fn active_consistent(self) -> bool {
        self.active_research matches Some(a) ==> status_of(self.researches, a.kind) == ResearchStatus::InProgress
    }

    /// State after one game day.
    pub open spec fn day_step(self) -> ResearchView {
        match self.active_research {
            None => self,
            Some(a) => if a.days_remaining - 1 <= 0 {
                ResearchView {
                    researches: refreshed(complete_first(self.researches, a.kind)),
                    active_research: None,
                    has_research_lab: self.has_research_lab,
                }
            } else {
                ResearchView {
                    researches: self.researches,
                    active_research: Some(ActiveResearch { kind: a.kind, days_remaining: (a.days_remaining - 1) as i32 }),
                    has_research_lab: self.has_research_lab,
                }
            },
        }
    }

    /// The research completed during that day, if any.
    pub open spec fn day_completed(self) -> Option<ResearchKind> {
        match self.active_research {
            Some(a) => if a.days_remaining - 1 <= 0 {
                Some(a.kind)
            } else {
                None
            },
            None => None,
        }
    }

    /// State after `n` game days.
    pub open spec fn after_days(self, n: nat) -> ResearchView
        decreases n,
    {
        if n == 0 {
            self
        } else {
            self.day_step().after_days((n - 1) as nat)
        }
    }
}

proof fn lemma_first_index_from(rs: Seq<Research>, k: ResearchKind, i: int)
    requires
        0 <= i <= rs.len(),
    ensures
        first_index_from(rs, k, i) == -1 ==> forall|j: int| i <= j < rs.len() ==> rs[j].kind != k,
        first_index_from(rs, k, i) != -1 ==> {
            let f = first_index_from(rs, k, i);
            &&& i <= f < rs.len()
            &&& rs[f].kind == k
            &&& forall|j: int| i <= j < f ==> rs[j].kind != k
        },
    decreases rs.len() - i,
{
    if i < rs.len() && rs[i].kind != k {
        lemma_first_index_from(rs, k, i + 1);
    }
}

/// Facts about the first entry of a kind.
pub proof fn lemma_find_index(rs: Seq<Research>, k: ResearchKind)
    ensures
        find_index(rs, k) == -1 ==> forall|j: int| 0 <= j < rs.len() ==> rs[j].kind != k,
        find_index(rs, k) != -1 ==> {
            let f = find_index(rs, k);
            &&& 0 <= f < rs.len()
            &&& rs[f].kind == k
            &&& forall|j: int| 0 <= j < f ==> rs[j].kind != k
        },
{
    lemma_first_index_from(rs, k, 0);
}

/// Two tables with the same kinds and the same completed entries agree on
/// which prerequisites are met.
proof fn lemma_same_completed(rs1: Seq<Research>, rs2: Seq<Research>)
    requires
        rs1.len() == rs2.len(),
        forall|j: int| 0 <= j < rs1.len() ==> #[trigger] rs1[j].kind == rs2[j].kind,
        forall|j: int|
            0 <= j < rs1.len() ==> (#[trigger] rs1[j].status == ResearchStatus::Completed) == (rs2[j].status
                == ResearchStatus::Completed),
    ensures
        forall|p: ResearchKind| completed_exists(rs1, p) == completed_exists(rs2, p),
        forall|k: ResearchKind| prereqs_met(rs1, k) == prereqs_met(rs2, k),
{
    assert forall|p: ResearchKind| completed_exists(rs1, p) == completed_exists(rs2, p) by {
        if completed_exists(rs1, p) {
            let j = choose|j: int|
                0 <= j < rs1.len() && #[trigger] rs1[j].kind == p && rs1[j].status == ResearchStatus::Completed;
            assert(rs2[j].kind == p);
        }
        if completed_exists(rs2, p) {
            let j = choose|j: int|
                0 <= j < rs2.len() && #[trigger] rs2[j].kind == p && rs2[j].status == ResearchStatus::Completed;
            assert(rs1[j].kind == p);
        }
    }
}

/// Completing entries never un-meets a prerequisite.
proof fn lemma_more_completed(rs1: Seq<Research>, rs2: Seq<Research>)
    requires
        rs1.len() == rs2.len(),
        forall|j: int| 0 <= j < rs1.len() ==> #[trigger] rs1[j].kind == rs2[j].kind,
        forall|j: int|
            0 <= j < rs1.len() && #[trigger] rs1[j].status == ResearchStatus::Completed ==> rs2[j].status
                == ResearchStatus::Completed,
    ensures
        forall|p: ResearchKind| completed_exists(rs1, p) ==> completed_exists(rs2, p),
        forall|k: ResearchKind| prereqs_met(rs1, k) ==> prereqs_met(rs2, k),
{
    assert forall|p: ResearchKind| completed_exists(rs1, p) implies completed_exists(rs2, p) by {
        let j = choose|j: int|
            0 <= j < rs1.len() && #[trigger] rs1[j].kind == p && rs1[j].status == ResearchStatus::Completed;
        assert(rs2[j].kind == p);
    }
}

proof fn lemma_refreshed_completed(rs: Seq<Research>)
    ensures
        refreshed(rs).len() == rs.len(),
        forall|j: int| 0 <= j < rs.len() ==> #[trigger] refreshed(rs)[j].kind == rs[j].kind,
        forall|j: int|
            0 <= j < rs.len() ==> (#[trigger] refreshed(rs)[j].status == ResearchStatus::Completed) == (
            rs[j].status == ResearchStatus::Completed),
        forall|k: ResearchKind| prereqs_met(refreshed(rs), k) == prereqs_met(rs, k),
{
    let r2 = refreshed(rs);
    assert forall|j: int| 0 <= j < rs.len() implies #[trigger] r2[j].kind == rs[j].kind by {}
    assert forall|j: int| 0 <= j < rs.len() implies (#[trigger] r2[j].status == ResearchStatus::Completed) == (
    rs[j].status == ResearchStatus::Completed) by {}
    lemma_same_completed(rs, r2);
}

/// Refreshing the table twice is the same as refreshing it once.
pub proof fn lemma_refresh_idempotent(rs: Seq<Research>)
    ensures
        refreshed(refreshed(rs)) == refreshed(rs),
{
    lemma_refreshed_completed(rs);
    let r1 = refreshed(rs);
    let r2 = refreshed(r1);
    assert forall|j: int| 0 <= j < r1.len() implies #[trigger] r2[j] == r1[j] by {}
    assert(r2 =~= r1);
}

proof fn lemma_refresh_keeps_respect(v: ResearchView)
    requires
        v.respects_prerequisites(),
    ensures
        (ResearchView { researches: refreshed(v.researches), ..v }).respects_prerequisites(),
{
    lemma_refreshed_completed(v.researches);
}

proof fn lemma_status_of_refreshed(rs: Seq<Research>, k: ResearchKind)
    ensures
        find_index(refreshed(rs), k) == find_index(rs, k),
        status_of(rs, k) == ResearchStatus::InProgress ==> status_of(refreshed(rs), k) == ResearchStatus::InProgress,
        status_of(rs, k) == ResearchStatus::Completed ==> status_of(refreshed(rs), k) == ResearchStatus::Completed,
{
    lemma_refreshed_completed(rs);
    lemma_find_index(rs, k);
    lemma_find_index(refreshed(rs), k);
    let f1 = find_index(rs, k);
    let f2 = find_index(refreshed(rs), k);
    if f1 == -1 {
        if f2 != -1 {
            assert(refreshed(rs)[f2].kind == rs[f2].kind);
        }
    } else {
        if f2 == -1 {
            assert(refreshed(rs)[f1].kind == rs[f1].kind);
        } else if f2 < f1 {
            assert(refreshed(rs)[f2].kind == rs[f2].kind);
        } else if f1 < f2 {
            assert(refreshed(rs)[f1].kind == rs[f1].kind);
        }
    }
}

/// Whether some entry of kind `p` is completed.
fn completed_exists_exec(rs: &Vec<Research>, p: ResearchKind) -> (r: bool)
    ensures
        r == completed_exists(rs@, p),
{
    let mut j: usize = 0;
    while j < rs.len()
        invariant
            j <= rs.len(),
            forall|q: int| 0 <= q < j ==> !(#[trigger] rs@[q].kind == p && rs@[q].status == ResearchStatus::Completed),
        decreases rs.len() - j,
    {
        if rs[j].kind == p && rs[j].status == ResearchStatus::Completed {
            return true;
        }
        j += 1;
    }
    false
}

/// Whether every prerequisite of `k` is completed.
fn prereqs_met_exec(rs: &Vec<Research>, k: ResearchKind) -> (r: bool)
    ensures
        r == prereqs_met(rs@, k),
{
    let prereqs = k.info().prerequisites;
    let mut j: usize = 0;
    while j < prereqs.len()
        invariant
            j <= prereqs.len(),
            prereqs@ == research_prereqs(k),
            forall|q: int| 0 <= q < j ==> completed_exists(rs@, #[trigger] prereqs@[q]),
        decreases prereqs.len() - j,
    {
        if !completed_exists_exec(rs, prereqs[j]) {
            assert(research_prereqs(k).contains(prereqs@[j as int]));
            return false;
        }
        j += 1;
    }
    assert forall|p: ResearchKind| #[trigger] research_prereqs(k).contains(p) implies completed_exists(rs@, p) by {
        let q = choose|q: int| 0 <= q < prereqs@.len() && prereqs@[q] == p;
    }
    true
}

/// Index of the first entry of kind `k`.
fn find_research(rs: &Vec<Research>, k: ResearchKind) -> (r: Option<usize>)
    ensures
        r matches Some(i) ==> i == find_index(rs@, k) && i < rs.len(),
        r is None <==> find_index(rs@, k) == -1,
{
    proof {
        lemma_find_index(rs@, k);
    }
    let mut i: usize = 0;
    while i < rs.len()
        invariant
            i <= rs.len(),
            forall|j: int| 0 <= j < i ==> rs@[j].kind != k,
        decreases rs.len() - i,
    {
        if rs[i].kind == k {
            proof {
                lemma_find_index(rs@, k);
            }
            return Some(i);
        }
        i += 1;
    }
    proof {
        lemma_find_index(rs@, k);
    }
    None
}

/// Tables with the same kinds have their first entries of each kind at the same place.
proof fn lemma_same_kinds_find(rs1: Seq<Research>, rs2: Seq<Research>, k: ResearchKind)
    requires
        rs1.len() == rs2.len(),
        forall|j: int| 0 <= j < rs1.len() ==> #[trigger] rs1[j].kind == rs2[j].kind,
    ensures
        find_index(rs1, k) == find_index(rs2, k),
{
    lemma_find_index(rs1, k);
    lemma_find_index(rs2, k);
    let f1 = find_index(rs1, k);
    let f2 = find_index(rs2, k);
    if f1 == -1 {
        if f2 != -1 {
            assert(rs1[f2].kind == rs2[f2].kind);
        }
    } else {
        if f2 == -1 {
            assert(rs1[f1].kind == rs2[f1].kind);
        } else if f2 < f1 {
            assert(rs1[f2].kind == rs2[f2].kind);
        } else if f1 < f2 {
            assert(rs1[f1].kind == rs2[f1].kind);
        }
    }
}

impl ResearchSystem {
    /// A fresh research system: the basic researches are completed, the ones
    /// they open are available, the rest locked.
    pub fn new() -> (s: ResearchSystem)
        ensures
            s@.researches == initial_table(),
            s@.active_research is None,
            !s@.has_research_lab,
            s@.respects_prerequisites(),
            s@.active_consistent(),
    {
        let kinds = ResearchKind::all();
        let mut researches: Vec<Research> = Vec::new();
        let mut i: usize = 0;
        while i < kinds.len()
            invariant
                i <= kinds.len(),
                kinds@ == all_research_kinds(),
                researches@.len() == i,
                forall|j: int|
                    0 <= j < i ==> #[trigger] researches@[j] == (Research {
                        kind: kinds@[j],
                        status: if research_prereqs(kinds@[j]).len() == 0 {
                            ResearchStatus::Completed
                        } else {
                            ResearchStatus::Locked
                        },
                    }),
            decreases kinds.len() - i,
        {
            let kind = kinds[i];
            let info = kind.info();
            let status = if info.prerequisites.len() == 0 {
                ResearchStatus::Completed
            } else {
                ResearchStatus::Locked
            };
            researches.push(Research { kind, status });
            i += 1;
        }
        let mut system = ResearchSystem { researches, active_research: None, has_research_lab: false };
        proof {
            let rs = system.researches@;
            assert(rs[0].kind == ResearchKind::BasicHousing);
            assert(rs[1].kind == ResearchKind::BasicStorage);
            assert(rs[2].kind == ResearchKind::BasicForestry);
            assert(completed_exists(rs, ResearchKind::BasicHousing));
            assert(completed_exists(rs, ResearchKind::BasicForestry));
            assert forall|j: int| 0 <= j < rs.len() && #[trigger] rs[j].status != ResearchStatus::Locked
                implies prereqs_met(rs, rs[j].kind) by {
                assert(research_prereqs(rs[j].kind).len() == 0 ==> research_prereqs(rs[j].kind) =~= seq![]);
            }
        }
        system.update_statuses();
        proof {
            let rs0 = old_table();
            let rs = system.researches@;
            lemma_initial_refresh();
            assert(rs =~= initial_table());
            assert forall|j: int| 0 <= j < rs.len() && #[trigger] rs[j].status != ResearchStatus::Locked
                implies prereqs_met(rs, rs[j].kind) by {}
        }
        system
    }

    /// Refresh the statuses from the completed researches: every entry that is
    /// neither in progress nor completed becomes available exactly when all
    /// its prerequisites are completed, and locked otherwise.
    pub fn update_statuses(&mut self)
        ensures
            final(self)@.researches == refreshed(old(self)@.researches),
            final(self)@.active_research == old(self)@.active_research,
            final(self)@.has_research_lab == old(self)@.has_research_lab,
            old(self)@.respects_prerequisites() ==> final(self)@.respects_prerequisites(),
            old(self)@.active_consistent() ==> final(self)@.active_consistent(),
    {
        let ghost rs0 = self.researches@;
        let ghost active0 = self.active_research;
        let ghost lab0 = self.has_research_lab;
        let mut i: usize = 0;
        while i < self.researches.len()
            invariant
                i <= self.researches.len(),
                self.active_research == active0,
                self.has_research_lab == lab0,
                self.researches@.len() == rs0.len(),
                forall|j: int| 0 <= j < rs0.len() ==> #[trigger] self.researches@[j].kind == rs0[j].kind,
                forall|j: int|
                    0 <= j < rs0.len() ==> (#[trigger] self.researches@[j].status == ResearchStatus::Completed) == (
                    rs0[j].status == ResearchStatus::Completed),
                forall|j: int| 0 <= j < i ==> #[trigger] self.researches@[j] == refreshed(rs0)[j],
                forall|j: int| i <= j < rs0.len() ==> #[trigger] self.researches@[j] == rs0[j],
            decreases self.researches.len() - i,
        {
            let r = self.researches[i];
            if r.status == ResearchStatus::InProgress || r.status == ResearchStatus::Completed {
                i += 1;
                continue;
            }
            proof {
                lemma_same_completed(self.researches@, rs0);
            }
            let met = prereqs_met_exec(&self.researches, r.kind);
            if met {
                self.researches.set(i, Research { kind: r.kind, status: ResearchStatus::Available });
            } else {
                self.researches.set(i, Research { kind: r.kind, status: ResearchStatus::Locked });
            }
            i += 1;
        }
        proof {
            assert(self.researches@ =~= refreshed(rs0));
            let v0 = ResearchView { researches: rs0, active_research: self.active_research, has_research_lab: self.has_research_lab };
            if v0.respects_prerequisites() {
                lemma_refresh_keeps_respect(v0);
            }
            if let Some(a) = self.active_research {
                lemma_status_of_refreshed(rs0, a.kind);
            }
        }
    }

    /// Start a research. Succeeds exactly when no research is active and the
    /// research is available; it then becomes in progress with its full
    /// number of days to go.
    pub fn start_research(&mut self, kind: ResearchKind) -> (r: bool)
        ensures
            r == (old(self)@.active_research is None && status_of(old(self)@.researches, kind)
                == ResearchStatus::Available),
            r ==> final(self)@.researches == old(self)@.researches.update(
                find_index(old(self)@.researches, kind),
                Research { kind, status: ResearchStatus::InProgress },
            ),
            r ==> final(self)@.active_research == Some(
                ActiveResearch { kind, days_remaining: research_days(kind) as i32 },
            ),
            !r ==> final(self)@ == old(self)@,
            final(self)@.has_research_lab == old(self)@.has_research_lab,
            old(self)@.respects_prerequisites() ==> final(self)@.respects_prerequisites(),
            old(self)@.active_consistent() ==> final(self)@.active_consistent(),
            r ==> status_of(final(self)@.researches, kind) == ResearchStatus::InProgress,
    {
        if self.active_research.is_some() {
            return false;
        }
        proof {
            lemma_find_index(self.researches@, kind);
        }
        match find_research(&self.researches, kind) {
            Some(i) => {
                if self.researches[i].status == ResearchStatus::Available {
                    let ghost rs0 = self.researches@;
                    let info = kind.info();
                    self.researches.set(i, Research { kind, status: ResearchStatus::InProgress });
                    self.active_research = Some(ActiveResearch { kind, days_remaining: info.days_required });
                    proof {
                        let rs1 = self.researches@;
                        assert forall|j: int| 0 <= j < rs1.len() implies #[trigger] rs1[j].kind == rs0[j].kind by {}
                        assert forall|j: int| 0 <= j < rs1.len() implies (#[trigger] rs1[j].status
                            == ResearchStatus::Completed) == (rs0[j].status == ResearchStatus::Completed) by {}
                        lemma_same_completed(rs0, rs1);
                        lemma_same_kinds_find(rs0, rs1, kind);
                        assert(find_index(rs1, kind) == i as int);
                        let v0 = ResearchView { researches: rs0, active_research: None, has_research_lab: self.has_research_lab };
                        if v0.respects_prerequisites() {
                            assert(rs0[i as int].status != ResearchStatus::Locked);
                            assert forall|j: int|
                                0 <= j < rs1.len() && #[trigger] rs1[j].status != ResearchStatus::Locked implies prereqs_met(
                                rs1,
                                rs1[j].kind,
                            ) by {
                                if j != i {
                                    assert(rs0[j] == rs1[j]);
                                }
                            }
                        }
                    }
                    return true;
                }
                false
            },
            None => false,
        }
    }

    /// Advance the active research by one day; when it runs out of days it is
    /// completed, the table is refreshed and its kind returned.
    pub fn update_daily(&mut self) -> (r: Option<ResearchKind>)
        requires
            old(self).active_research matches Some(a) ==> a.days_remaining > i32::MIN,
        ensures
            final(self)@ == old(self)@.day_step(),
            r == old(self)@.day_completed(),
            old(self)@.respects_prerequisites() ==> final(self)@.respects_prerequisites(),
            old(self)@.active_consistent() ==> final(self)@.active_consistent(),
    {
        match self.active_research {
            Some(a) => {
                let days = a.days_remaining - 1;
                if days <= 0 {
                    let ghost v0 = self@;
                    let k = a.kind;
                    proof {
                        lemma_find_index(self.researches@, k);
                    }
                    match find_research(&self.researches, k) {
                        Some(i) => {
                            self.researches.set(i, Research { kind: k, status: ResearchStatus::Completed });
                        },
                        None => {},
                    }
                    self.active_research = None;
                    proof {
                        assert(self.researches@ == complete_first(v0.researches, k));
                        let rs0 = v0.researches;
                        let rs1 = self.researches@;
                        lemma_more_completed(rs0, rs1);
                        if v0.respects_prerequisites() {
                            assert forall|j: int|
                                0 <= j < rs1.len() && #[trigger] rs1[j].status != ResearchStatus::Locked implies prereqs_met(
                                rs1,
                                rs1[j].kind,
                            ) by {
                                if rs1[j] != rs0[j] {
                                    assert(rs1[j].kind == k);
                                }
                            }
                        }
                    }
                    self.update_statuses();
                    Some(k)
                } else {
                    self.active_research = Some(ActiveResearch { kind: a.kind, days_remaining: days });
                    None
                }
            },
            None => None,
        }
    }

    /// Whether some completed research unlocks this building.
    pub fn is_building_unlocked(&self, building: BuildingKind) -> (r: bool)
        ensures
            r == exists|i: int|
                0 <= i < self.researches@.len() && #[trigger] self.researches@[i].status == ResearchStatus::Completed
                    && research_unlocks(self.researches@[i].kind).contains(building),
    {
        let mut i: usize = 0;
        while i < self.researches.len()
            invariant
                i <= self.researches.len(),
                forall|j: int|
                    0 <= j < i ==> !(#[trigger] self.researches@[j].status == ResearchStatus::Completed
                        && research_unlocks(self.researches@[j].kind).contains(building)),
            decreases self.researches.len() - i,
        {
            let research = self.researches[i];
            if research.status == ResearchStatus::Completed {
                let info = research.kind.info();
                let mut q: usize = 0;
                while q < info.unlocks_buildings.len()
                    invariant
                        q <= info.unlocks_buildings.len(),
                        i < self.researches.len(),
                        research == self.researches@[i as int],
                        research.status == ResearchStatus::Completed,
                        info.unlocks_buildings@ == research_unlocks(research.kind),
                        forall|t: int| 0 <= t < q ==> info.unlocks_buildings@[t] != building,
                    decreases info.unlocks_buildings.len() - q,
                {
                    if info.unlocks_buildings[q] == building {
                        assert(research_unlocks(research.kind)[q as int] == building);
                        assert(research_unlocks(research.kind).contains(building));
                        assert(self.researches@[i as int] == research);
                        assert(self.researches@[i as int].status == ResearchStatus::Completed
                            && research_unlocks(self.researches@[i as int].kind).contains(building));
                        return true;
                    }
                    q += 1;
                }
            }
            i += 1;
        }
        false
    }

    /// Status of a research: that of its entry, `Locked` when it has none.
    pub fn get_status(&self, kind: ResearchKind) -> (r: ResearchStatus)
        ensures
            r == status_of(self@.researches, kind),
    {
        match find_research(&self.researches, kind) {
            Some(i) => self.researches[i].status,
            None => ResearchStatus::Locked,
        }
    }
}

/// The table a fresh system holds before its first refresh.
spec fn old_table() -> Seq<Research> {
    all_research_kinds().map_values(
        |k: ResearchKind|
            Research {
                kind: k,
                status: if research_prereqs(k).len() == 0 {
                    ResearchStatus::Completed
                } else {
                    ResearchStatus::Locked
                },
            },
    )
}

proof fn lemma_initial_refresh()
    ensures
        refreshed(old_table()) =~= initial_table(),
{
    let rs = old_table();
    assert(rs[0].kind == ResearchKind::BasicHousing);
    assert(rs[2].kind == ResearchKind::BasicForestry);
    assert(completed_exists(rs, ResearchKind::BasicHousing));
    assert(completed_exists(rs, ResearchKind::BasicForestry));
    assert forall|p: ResearchKind|
        p != ResearchKind::BasicHousing && p != ResearchKind::BasicStorage && p != ResearchKind::BasicForestry
            implies !completed_exists(rs, p) by {
        assert forall|j: int| 0 <= j < rs.len() && #[trigger] rs[j].kind == p implies rs[j].status
            != ResearchStatus::Completed by {}
    }
    assert forall|j: int| 0 <= j < rs.len() implies #[trigger] refreshed(rs)[j] == initial_table()[j] by {
        let k = rs[j].kind;
        if research_prereqs(k).len() == 1 {
            assert(research_prereqs(k).contains(research_prereqs(k)[0]));
        } else if research_prereqs(k).len() == 2 {
            assert(research_prereqs(k).contains(research_prereqs(k)[0]));
        }
    }
}

/// A started research is still in progress after one day less than it
/// requires, and completed after exactly the days it requires.
pub proof fn lemma_research_completes_on_schedule(v: ResearchView, n: nat)
    requires
        v.active_research matches Some(a) && a.days_remaining >= 1 && n == a.days_remaining,
        v.active_consistent(),
    ensures
        ({
            let k = v.active_research->Some_0.kind;
            &&& status_of(v.after_days((n - 1) as nat).researches, k) == ResearchStatus::InProgress
            &&& v.after_days((n - 1) as nat).active_research == Some(ActiveResearch { kind: k, days_remaining: 1 })
            &&& status_of(v.after_days(n).researches, k) == ResearchStatus::Completed
            &&& v.after_days(n).active_research is None
        }),
    decreases n,
{
    let a = v.active_research->Some_0;
    let k = a.kind;
    if n == 1 {
        assert(v.after_days(0) == v);
        let w = v.day_step();
        assert(v.after_days(1) == w.after_days(0));
        lemma_find_index(v.researches, k);
        let rs1 = complete_first(v.researches, k);
        assert forall|j: int| 0 <= j < rs1.len() implies #[trigger] rs1[j].kind == v.researches[j].kind by {}
        lemma_same_kinds_find(rs1, v.researches, k);
        lemma_status_of_refreshed(rs1, k);
    } else {
        let w = v.day_step();
        assert(w.active_research == Some(ActiveResearch { kind: k, days_remaining: (n - 1) as i32 }));
        lemma_research_completes_on_schedule(w, (n - 1) as nat);
        assert(v.after_days(n) == w.after_days((n - 1) as nat));
        assert(v.after_days((n - 1) as nat) == w.after_days((n - 2) as nat));
    }
}

} // verus!
