//! Integer game rules and key bindings, with their defaults.

use vstd::prelude::*;
use crate::types::BuildingKind;

verus! {

/// The integer part of the game rules: happiness modifiers and the daily
/// upkeep of each kind of building, in gold.
#[derive(Clone, Copy, Debug, PartialEq, Eq, Structural)]
pub struct EconomyConfig {
    pub happy_feed_bonus: i32,
    pub happy_variety_bonus: i32,
    pub happy_house_bonus: i32,
    pub happy_starving_penalty: i32,
    pub upkeep_house: i32,
    pub upkeep_warehouse: i32,
    pub upkeep_lumberjack: i32,
    pub upkeep_forester: i32,
    pub upkeep_stone_quarry: i32,
    pub upkeep_clay_pit: i32,
    pub upkeep_iron_mine: i32,
    pub upkeep_wheat_field: i32,
    pub upkeep_mill: i32,
    pub upkeep_bakery: i32,
    pub upkeep_kiln: i32,
    pub upkeep_fishery: i32,
    pub upkeep_smelter: i32,
}

impl EconomyConfig {
    /// Daily upkeep of a building of this kind.
    pub open spec fn upkeep_spec(self, kind: BuildingKind) -> i32 {
        match kind {
            BuildingKind::House => self.upkeep_house,
            BuildingKind::Warehouse => self.upkeep_warehouse,
            BuildingKind::Lumberjack => self.upkeep_lumberjack,
            BuildingKind::Forester => self.upkeep_forester,
            BuildingKind::StoneQuarry => self.upkeep_stone_quarry,
            BuildingKind::ClayPit => self.upkeep_clay_pit,
            BuildingKind::IronMine => self.upkeep_iron_mine,
            BuildingKind::WheatField => self.upkeep_wheat_field,
            BuildingKind::Mill => self.upkeep_mill,
            BuildingKind::Bakery => self.upkeep_bakery,
            BuildingKind::Kiln => self.upkeep_kiln,
            BuildingKind::Fishery => self.upkeep_fishery,
            BuildingKind::Smelter => self.upkeep_smelter,
        }
    }

    pub fn upkeep(&self, kind: BuildingKind) -> (r: i32)
        ensures
            r == self.upkeep_spec(kind),
    {
        match kind {
            BuildingKind::House => self.upkeep_house,
            BuildingKind::Warehouse => self.upkeep_warehouse,
            BuildingKind::Lumberjack => self.upkeep_lumberjack,
            BuildingKind::Forester => self.upkeep_forester,
            BuildingKind::StoneQuarry => self.upkeep_stone_quarry,
            BuildingKind::ClayPit => self.upkeep_clay_pit,
            BuildingKind::IronMine => self.upkeep_iron_mine,
            BuildingKind::WheatField => self.upkeep_wheat_field,
            BuildingKind::Mill => self.upkeep_mill,
            BuildingKind::Bakery => self.upkeep_bakery,
            BuildingKind::Kiln => self.upkeep_kiln,
            BuildingKind::Fishery => self.upkeep_fishery,
            BuildingKind::Smelter => self.upkeep_smelter,
        }
    }
}

/// Key bindings as written in the configuration file.
#[derive(Clone, Debug)]
pub struct InputConfig {
    pub move_up: String,
    pub move_down: String,
    pub move_left: String,
    pub move_right: String,
    pub zoom_in: String,
    pub zoom_out: String,
    pub toggle_pause: String,
    pub speed_0_5x: String,
    pub speed_1x: String,
    pub speed_2x: String,
    pub speed_3x: String,
    pub build_lumberjack: String,
    pub build_house: String,
    pub toggle_road_mode: String,
    pub reset_new_seed: String,
    pub reset_same_seed: String,
    pub save_game: String,
    pub load_game: String,
    pub tax_up: String,
    pub tax_down: String,
}

/// The default rules.
pub open spec fn default_economy() -> EconomyConfig {
    EconomyConfig {
        happy_feed_bonus: 15,
        happy_variety_bonus: 5,
        happy_house_bonus: 10,
        happy_starving_penalty: -25i32,
        upkeep_house: 0,
        upkeep_warehouse: 0,
        upkeep_lumberjack: 1,
        upkeep_forester: 1,
        upkeep_stone_quarry: 1,
        upkeep_clay_pit: 1,
        upkeep_iron_mine: 1,
        upkeep_wheat_field: 1,
        upkeep_mill: 1,
        upkeep_bakery: 1,
        upkeep_kiln: 1,
        upkeep_fishery: 1,
        upkeep_smelter: 2,
    }
}

/// The default key bindings.
pub open spec fn is_default_input(i: InputConfig) -> bool {
    &&& i.move_up@ == "W"@
    &&& i.move_down@ == "S"@
    &&& i.move_left@ == "A"@
    &&& i.move_right@ == "D"@
    &&& i.zoom_in@ == "E"@
    &&& i.zoom_out@ == "Q"@
    &&& i.toggle_pause@ == "SPACE"@
    &&& i.speed_0_5x@ == "Digit1"@
    &&& i.speed_1x@ == "Digit2"@
    &&& i.speed_2x@ == "Digit3"@
    &&& i.speed_3x@ == "Digit4"@
    &&& i.build_lumberjack@ == "Z"@
    &&& i.build_house@ == "X"@
    &&& i.toggle_road_mode@ == "R"@
    &&& i.reset_new_seed@ == ""@
    &&& i.reset_same_seed@ == ""@
    &&& i.save_game@ == "F5"@
    &&& i.load_game@ == "F9"@
    &&& i.tax_up@ == "]"@
    &&& i.tax_down@ == "["@
}

/// Default rules and key bindings.
pub fn defaults() -> (r: (EconomyConfig, InputConfig))
    ensures
        r.0 == default_economy(),
        is_default_input(r.1),
{
    let config = EconomyConfig {
        happy_feed_bonus: 15,
        happy_variety_bonus: 5,
        happy_house_bonus: 10,
        happy_starving_penalty: -25,
        upkeep_house: 0,
        upkeep_warehouse: 0,
        upkeep_lumberjack: 1,
        upkeep_forester: 1,
        upkeep_stone_quarry: 1,
        upkeep_clay_pit: 1,
        upkeep_iron_mine: 1,
        upkeep_wheat_field: 1,
        upkeep_mill: 1,
        upkeep_bakery: 1,
        upkeep_kiln: 1,
        upkeep_fishery: 1,
        upkeep_smelter: 2,
    };
    let input = InputConfig {
        move_up: String::from_str("W"),
        move_down: String::from_str("S"),
        move_left: String::from_str("A"),
        move_right: String::from_str("D"),
        zoom_in: String::from_str("E"),
        zoom_out: String::from_str("Q"),
        toggle_pause: String::from_str("SPACE"),
        speed_0_5x: String::from_str("Digit1"),
        speed_1x: String::from_str("Digit2"),
        speed_2x: String::from_str("Digit3"),
        speed_3x: String::from_str("Digit4"),
        build_lumberjack: String::from_str("Z"),
        build_house: String::from_str("X"),
        toggle_road_mode: String::from_str("R"),
        reset_new_seed: String::new(),
        reset_same_seed: String::new(),
        save_game: String::from_str("F5"),
        load_game: String::from_str("F9"),
        tax_up: String::from_str("]"),
        tax_down: String::from_str("["),
    };
    proof {
        reveal_strlit("");
        assert(input.reset_new_seed@ =~= ""@);
        assert(input.reset_same_seed@ =~= ""@);
    }
    (config, input)
}

/// `v`, or `d` when `v` is zero.
pub fn or_default(v: i32, d: i32) -> (r: i32)
    ensures
        r == if v == 0 { d } else { v },
{
    if v == 0 {
        d
    } else {
        v
    }
}

/// Replace every zero rule by its default, as an older configuration file
/// that lacks a field reads it as zero.
pub fn fill_missing_economy(cfg: EconomyConfig) -> (r: EconomyConfig)
    ensures
        r.happy_feed_bonus == if cfg.happy_feed_bonus == 0 { 15 } else { cfg.happy_feed_bonus },
        r.happy_variety_bonus == if cfg.happy_variety_bonus == 0 { 5 } else { cfg.happy_variety_bonus },
        r.happy_house_bonus == if cfg.happy_house_bonus == 0 { 10 } else { cfg.happy_house_bonus },
        r.happy_starving_penalty == if cfg.happy_starving_penalty == 0 { -25i32 } else { cfg.happy_starving_penalty },
        forall|k: BuildingKind| #[trigger] r.upkeep_spec(k) == if cfg.upkeep_spec(k) == 0 {
            default_economy().upkeep_spec(k)
        } else {
            cfg.upkeep_spec(k)
        },
{
    EconomyConfig {
        happy_feed_bonus: or_default(cfg.happy_feed_bonus, 15),
        happy_variety_bonus: or_default(cfg.happy_variety_bonus, 5),
        happy_house_bonus: or_default(cfg.happy_house_bonus, 10),
        happy_starving_penalty: or_default(cfg.happy_starving_penalty, -25),
        upkeep_house: or_default(cfg.upkeep_house, 0),
        upkeep_warehouse: or_default(cfg.upkeep_warehouse, 0),
        upkeep_lumberjack: or_default(cfg.upkeep_lumberjack, 1),
        upkeep_forester: or_default(cfg.upkeep_forester, 1),
        upkeep_stone_quarry: or_default(cfg.upkeep_stone_quarry, 1),
        upkeep_clay_pit: or_default(cfg.upkeep_clay_pit, 1),
        upkeep_iron_mine: or_default(cfg.upkeep_iron_mine, 1),
        upkeep_wheat_field: or_default(cfg.upkeep_wheat_field, 1),
        upkeep_mill: or_default(cfg.upkeep_mill, 1),
        upkeep_bakery: or_default(cfg.upkeep_bakery, 1),
        upkeep_kiln: or_default(cfg.upkeep_kiln, 1),
        upkeep_fishery: or_default(cfg.upkeep_fishery, 1),
        upkeep_smelter: or_default(cfg.upkeep_smelter, 2),
    }
}

} // verus!
