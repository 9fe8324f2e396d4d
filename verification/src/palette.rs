//! The colour of each kind of building and resource.

use vstd::prelude::*;
use crate::types::{BuildingKind, ResourceKind, Citizen, Building};
use crate::jobs::{building_kind_at, first_building_kind};

verus! {

/// The RGBA colour of a kind of building.
pub open spec fn building_rgba(kind: BuildingKind) -> [u8; 4] {
    match kind {
        BuildingKind::Lumberjack => [140, 90, 40, 255],
        BuildingKind::House => [180, 180, 180, 255],
        BuildingKind::Warehouse => [150, 120, 80, 255],
        BuildingKind::Forester => [90, 140, 90, 255],
        BuildingKind::StoneQuarry => [120, 120, 120, 255],
        BuildingKind::ClayPit => [150, 90, 70, 255],
        BuildingKind::Kiln => [160, 60, 40, 255],
        BuildingKind::WheatField => [200, 180, 80, 255],
        BuildingKind::Mill => [210, 210, 180, 255],
        BuildingKind::Bakery => [200, 160, 120, 255],
        BuildingKind::Fishery => [100, 140, 200, 255],
        BuildingKind::IronMine => [90, 90, 110, 255],
        BuildingKind::Smelter => [190, 190, 210, 255],
    }
}

/// The RGBA colour of a kind of resource.
pub open spec fn resource_rgba(kind: ResourceKind) -> [u8; 4] {
    match kind {
        ResourceKind::Wood => [110, 70, 30, 255],
        ResourceKind::Stone => [120, 120, 120, 255],
        ResourceKind::Clay => [150, 90, 70, 255],
        ResourceKind::Bricks => [180, 120, 90, 255],
        ResourceKind::Wheat => [200, 180, 80, 255],
        ResourceKind::Flour => [210, 210, 180, 255],
        ResourceKind::Bread => [200, 160, 120, 255],
        ResourceKind::Fish => [100, 140, 200, 255],
        ResourceKind::Gold => [220, 180, 60, 255],
        ResourceKind::IronOre => [90, 90, 110, 255],
        ResourceKind::IronIngot => [190, 190, 210, 255],
    }
}

/// The colour a kind of building is drawn in.
pub fn building_color(kind: BuildingKind) -> (c: [u8; 4])
    ensures
        c == building_rgba(kind),
{
    match kind {
        BuildingKind::Lumberjack => [140, 90, 40, 255],
        BuildingKind::House => [180, 180, 180, 255],
        BuildingKind::Warehouse => [150, 120, 80, 255],
        BuildingKind::Forester => [90, 140, 90, 255],
        BuildingKind::StoneQuarry => [120, 120, 120, 255],
        BuildingKind::ClayPit => [150, 90, 70, 255],
        BuildingKind::Kiln => [160, 60, 40, 255],
        BuildingKind::WheatField => [200, 180, 80, 255],
        BuildingKind::Mill => [210, 210, 180, 255],
        BuildingKind::Bakery => [200, 160, 120, 255],
        BuildingKind::Fishery => [100, 140, 200, 255],
        BuildingKind::IronMine => [90, 90, 110, 255],
        BuildingKind::Smelter => [190, 190, 210, 255],
    }
}

/// The colour a kind of resource is drawn in.
pub fn resource_color(kind: ResourceKind) -> (c: [u8; 4])
    ensures
        c == resource_rgba(kind),
{
    match kind {
        ResourceKind::Wood => [110, 70, 30, 255],
        ResourceKind::Stone => [120, 120, 120, 255],
        ResourceKind::Clay => [150, 90, 70, 255],
        ResourceKind::Bricks => [180, 120, 90, 255],
        ResourceKind::Wheat => [200, 180, 80, 255],
        ResourceKind::Flour => [210, 210, 180, 255],
        ResourceKind::Bread => [200, 160, 120, 255],
        ResourceKind::Fish => [100, 140, 200, 255],
        ResourceKind::Gold => [220, 180, 60, 255],
        ResourceKind::IronOre => [90, 90, 110, 255],
        ResourceKind::IronIngot => [190, 190, 210, 255],
    }
}

/// The mood a citizen's face shows: happy (2) from 66, sad (0) up to 33,
/// neutral (1) between.
pub open spec fn mood_of(happiness: u8) -> u8 {
    if happiness >= 66 {
        2
    } else if happiness <= 33 {
        0
    } else {
        1
    }
}

/// The mood a citizen's face shows.
pub fn citizen_mood(happiness: u8) -> (m: u8)
    ensures
        m == mood_of(happiness),
{
    if happiness >= 66 {
        2
    } else if happiness <= 33 {
        0
    } else {
        1
    }
}

/// A citizen's marker colour: that of the (first listed) building at its
/// workplace, pale yellow without one.
pub open spec fn marker_rgba(c: Citizen, bs: Seq<Building>) -> [u8; 4] {
    match c.workplace {
        Some(wp) => match building_kind_at(bs, wp, 0) {
            Some(k) => building_rgba(k),
            None => [255, 230, 120, 255],
        },
        None => [255, 230, 120, 255],
    }
}

/// The colour a citizen's marker is drawn in.
pub fn citizen_color(c: &Citizen, buildings: &Vec<Building>) -> (col: [u8; 4])
    ensures
        col == marker_rgba(*c, buildings@),
{
    match c.workplace {
        Some(wp) => match first_building_kind(buildings, wp) {
            Some(k) => building_color(k),
            None => [255, 230, 120, 255],
        },
        None => [255, 230, 120, 255],
    }
}

} // verus!
