//! Which sprite each tile of the terrain is drawn with: a grass variant
//! picked by a hash of the tile's position, the forest sprite, or open
//! water with a shore piece where land borders it; and the tints, grid
//! colours and tree sprites laid over the terrain.

use vstd::prelude::*;
use crate::types::{Pos, TileKind, BiomeKind};
use crate::world::World;

verus! {

/// Multipliers of the hash that spreads grass variants over the map.
pub const GRASS_HASH_X: i64 = 73856093;
pub const GRASS_HASH_Y: i64 = 19349663;

/// The sprite a terrain tile is drawn with.
#[derive(Clone, Copy, Debug, PartialEq, Eq, Structural)]
pub enum TerrainSprite {
    /// One of the grass variants, by index.
    GrassVariant(usize),
    /// The plain grass sprite, when there are no variants.
    BaseGrass,
    Forest,
    /// One of the shore pieces, by index.
    WaterEdge(usize),
    /// Open water.
    Water,
}

/// A hash of a position: the two coordinates times their multipliers,
/// combined by exclusive or, keeping the low 31 bits.
pub open spec fn spread(mx: i32, my: i32, a: i64, b: i64) -> i64 {
    (((mx as i64) * a) as i64 ^ ((my as i64) * b) as i64) & 0x7fff_ffffi64
}

/// The hash of a position, as `spread` states it.
pub fn spread_hash(mx: i32, my: i32, a: i64, b: i64) -> (h: i64)
    requires
        0 < a < 0x8000_0000,
        0 < b < 0x8000_0000,
    ensures
        h == spread(mx, my, a, b),
        0 <= h <= 0x7fff_ffff,
{
    proof {
        assert(-0x4000_0000_0000_0000 <= (mx as int) * a <= 0x4000_0000_0000_0000) by (nonlinear_arith)
            requires
                -0x8000_0000 <= mx < 0x8000_0000,
                0 < a < 0x8000_0000,
        ;
        assert(-0x4000_0000_0000_0000 <= (my as int) * b <= 0x4000_0000_0000_0000) by (nonlinear_arith)
            requires
                -0x8000_0000 <= my < 0x8000_0000,
                0 < b < 0x8000_0000,
        ;
    }
    let px: i64 = (mx as i64) * a;
    let py: i64 = (my as i64) * b;
    let h = (px ^ py) & 0x7fff_ffff;
    assert(0 <= h <= 0x7fff_ffff) by (bit_vector)
        requires
            h == (px ^ py) & 0x7fff_ffffi64,
    ;
    h
}

/// The index of the grass variant drawn on `(mx, my)`, out of `count`.
pub fn grass_variant_index(mx: i32, my: i32, count: usize) -> (i: usize)
    requires
        count > 0,
    ensures
        i as int == spread(mx, my, GRASS_HASH_X, GRASS_HASH_Y) as int % count as int,
        i < count,
{
    let h = spread_hash(mx, my, GRASS_HASH_X, GRASS_HASH_Y);
    (h as usize) % count
}

/// The shore piece for a water tile, from which of its eight neighbours are
/// land: an inner corner where two sides are land and the corner between
/// them is water, else the first land side of north, west, east, south.
pub open spec fn edge_choice(n: bool, e: bool, s: bool, w: bool, ne: bool, nw: bool, se: bool, sw: bool) -> Option<
    int,
> {
    if n && e && !ne {
        Some(7)
    } else if n && w && !nw {
        Some(4)
    } else if s && e && !se {
        Some(5)
    } else if s && w && !sw {
        Some(6)
    } else if n {
        Some(0)
    } else if w {
        Some(1)
    } else if e {
        Some(2)
    } else if s {
        Some(3)
    } else {
        None
    }
}

/// The tile at `(x, y)` is land.
pub open spec fn land(w: World, x: int, y: int) -> bool {
    w.tile_at(Pos { x: x as i32, y: y as i32 }) != TileKind::Water
}

/// The sprite of the tile `(mx, my)`, given how many grass variants and
/// shore pieces there are.
pub open spec fn terrain_sprite_of(w: World, mx: i32, my: i32, grass_count: nat, edge_count: nat) -> TerrainSprite {
    match w.tile_at(Pos { x: mx, y: my }) {
        TileKind::Grass => if grass_count > 0 {
            TerrainSprite::GrassVariant((spread(mx, my, GRASS_HASH_X, GRASS_HASH_Y) as int % grass_count as int) as usize)
        } else {
            TerrainSprite::BaseGrass
        },
        TileKind::Forest => TerrainSprite::Forest,
        TileKind::Water => {
            let n = land(w, mx as int, my - 1);
            let e = land(w, mx + 1, my as int);
            let s = land(w, mx as int, my + 1);
            let wl = land(w, mx - 1, my as int);
            if edge_count > 0 && (n || e || s || wl) {
                match edge_choice(
                    n,
                    e,
                    s,
                    wl,
                    land(w, mx + 1, my - 1),
                    land(w, mx - 1, my - 1),
                    land(w, mx + 1, my + 1),
                    land(w, mx - 1, my + 1),
                ) {
                    Some(i) => TerrainSprite::WaterEdge(
                        (if i < edge_count {
                            i
                        } else {
                            edge_count - 1
                        }) as usize,
                    ),
                    None => TerrainSprite::Water,
                }
            } else {
                TerrainSprite::Water
            }
        },
    }
}

fn is_land(world: &World, x: i32, y: i32) -> (b: bool)
    ensures
        b == land(*world, x as int, y as int),
{
    match world.get_tile(x, y) {
        TileKind::Water => false,
        _ => true,
    }
}

/// The sprite the tile `(mx, my)` is drawn with, out of `grass_count` grass
/// variants and `edge_count` shore pieces. A water tile looks at its eight
/// neighbours, which must lie on the map's coordinate range.
pub fn terrain_sprite(world: &World, mx: i32, my: i32, grass_count: usize, edge_count: usize) -> (t: TerrainSprite)
    requires
        world.tile_at(Pos { x: mx, y: my }) == TileKind::Water ==> i32::MIN < mx < i32::MAX && i32::MIN < my
            < i32::MAX,
    ensures
        t == terrain_sprite_of(*world, mx, my, grass_count as nat, edge_count as nat),
{
    match world.get_tile(mx, my) {
        TileKind::Grass => {
            if grass_count > 0 {
                TerrainSprite::GrassVariant(grass_variant_index(mx, my, grass_count))
            } else {
                TerrainSprite::BaseGrass
            }
        },
        TileKind::Forest => TerrainSprite::Forest,
        TileKind::Water => {
            let n = is_land(world, mx, my - 1);
            let e = is_land(world, mx + 1, my);
            let s = is_land(world, mx, my + 1);
            let w = is_land(world, mx - 1, my);
            let ne = is_land(world, mx + 1, my - 1);
            let nw = is_land(world, mx - 1, my - 1);
            let se = is_land(world, mx + 1, my + 1);
            let sw = is_land(world, mx - 1, my + 1);
            if edge_count > 0 && (n || e || s || w) {
                let choice: Option<usize> = if n && e && !ne {
                    Some(7)
                } else if n && w && !nw {
                    Some(4)
                } else if s && e && !se {
                    Some(5)
                } else if s && w && !sw {
                    Some(6)
                } else if n {
                    Some(0)
                } else if w {
                    Some(1)
                } else if e {
                    Some(2)
                } else if s {
                    Some(3)
                } else {
                    None
                };
                match choice {
                    Some(i) => TerrainSprite::WaterEdge(
                        if i < edge_count {
                            i
                        } else {
                            edge_count - 1
                        },
                    ),
                    None => TerrainSprite::Water,
                }
            } else {
                TerrainSprite::Water
            }
        },
    }
}

/// The colour tint laid over a grass or forest sprite in a swamp or on
/// rock, with its strength; nothing for meadows and water.
pub fn biome_overlay(tile: TileKind, biome: BiomeKind) -> (r: Option<([u8; 3], u8)>)
    ensures
        r == (match (tile, biome) {
            (TileKind::Grass, BiomeKind::Swamp) => Some(([50u8, 110u8, 70u8], 90u8)),
            (TileKind::Grass, BiomeKind::Rocky) => Some(([150u8, 150u8, 150u8], 90u8)),
            (TileKind::Forest, BiomeKind::Swamp) => Some(([50u8, 110u8, 70u8], 80u8)),
            (TileKind::Forest, BiomeKind::Rocky) => Some(([150u8, 150u8, 150u8], 80u8)),
            _ => None,
        }),
{
    match (tile, biome) {
        (TileKind::Grass, BiomeKind::Swamp) => Some(([50, 110, 70], 90)),
        (TileKind::Grass, BiomeKind::Rocky) => Some(([150, 150, 150], 90)),
        (TileKind::Forest, BiomeKind::Swamp) => Some(([50, 110, 70], 80)),
        (TileKind::Forest, BiomeKind::Rocky) => Some(([150, 150, 150], 80)),
        _ => None,
    }
}

/// The colour of the tile outline in the biome grid.
pub fn biome_grid_color(biome: BiomeKind) -> (c: [u8; 4])
    ensures
        c == (match biome {
            BiomeKind::Meadow => [30u8, 180u8, 30u8, 255u8],
            BiomeKind::Swamp => [40u8, 120u8, 80u8, 255u8],
            BiomeKind::Rocky => [160u8, 160u8, 160u8, 255u8],
        }),
{
    match biome {
        BiomeKind::Meadow => [30, 180, 30, 255],
        BiomeKind::Swamp => [40, 120, 80, 255],
        BiomeKind::Rocky => [160, 160, 160, 255],
    }
}

/// The tree sprite for a growth stage (a mature tree when the stage is
/// unknown), the last sprite standing in for stages beyond the sheet.
pub fn tree_sprite_index(stage: Option<u8>, count: usize) -> (i: usize)
    requires
        count > 0,
    ensures
        i as int == (if (match stage {
            Some(s) => s as int,
            None => 2int,
        }) < count as int {
            match stage {
                Some(s) => s as int,
                None => 2int,
            }
        } else {
            count - 1
        }),
{
    let s: usize = match stage {
        Some(s) => s as usize,
        None => 2,
    };
    if s < count {
        s
    } else {
        count - 1
    }
}

} // verus!
