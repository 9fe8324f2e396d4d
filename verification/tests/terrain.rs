use strategy::terrain::{
    biome_grid_color, biome_overlay, grass_variant_index, spread_hash, terrain_sprite, tree_sprite_index, TerrainSprite,
    GRASS_HASH_X, GRASS_HASH_Y,
};
use strategy::types::{BiomeKind, Pos, TileKind};
use strategy::world::World;

fn world_with(tiles: &[((i32, i32), TileKind)]) -> World {
    let mut w = World::new();
    for &((x, y), k) in tiles {
        w.tiles.push((Pos { x, y }, k));
    }
    w
}

#[test]
fn grass_variants_follow_the_position_hash() {
    assert_eq!(spread_hash(1, 1, GRASS_HASH_X, GRASS_HASH_Y), 88192194);
    assert_eq!(spread_hash(-1, 0, GRASS_HASH_X, GRASS_HASH_Y), 2073627555);
    assert_eq!(grass_variant_index(0, 0, 4), 0);
    assert_eq!(grass_variant_index(1, 0, 4), 1);
    assert_eq!(grass_variant_index(0, 1, 4), 3);
    assert_eq!(grass_variant_index(1, 1, 5), 4);
    assert_eq!(grass_variant_index(-7, 12, 4), 1);
}

#[test]
fn grass_and_forest_sprites() {
    let w = world_with(&[((1, 1), TileKind::Grass), ((2, 2), TileKind::Forest)]);
    assert_eq!(terrain_sprite(&w, 1, 1, 5, 8), TerrainSprite::GrassVariant(4));
    assert_eq!(terrain_sprite(&w, 1, 1, 0, 8), TerrainSprite::BaseGrass);
    assert_eq!(terrain_sprite(&w, 2, 2, 5, 8), TerrainSprite::Forest);
}

#[test]
fn shore_pieces_follow_the_land_around_water() {
    // open water far from land
    let w = world_with(&[((10, 10), TileKind::Grass)]);
    assert_eq!(terrain_sprite(&w, 0, 0, 4, 8), TerrainSprite::Water);
    // land to the north only
    let north = world_with(&[((0, -1), TileKind::Grass)]);
    assert_eq!(terrain_sprite(&north, 0, 0, 4, 8), TerrainSprite::WaterEdge(0));
    // land to the west only
    let west = world_with(&[((-1, 0), TileKind::Forest)]);
    assert_eq!(terrain_sprite(&west, 0, 0, 4, 8), TerrainSprite::WaterEdge(1));
    // north and east land with water in the corner between them
    let corner = world_with(&[((0, -1), TileKind::Grass), ((1, 0), TileKind::Grass)]);
    assert_eq!(terrain_sprite(&corner, 0, 0, 4, 8), TerrainSprite::WaterEdge(7));
    // the same with land in the corner: the north piece
    let filled = world_with(&[((0, -1), TileKind::Grass), ((1, 0), TileKind::Grass), ((1, -1), TileKind::Grass)]);
    assert_eq!(terrain_sprite(&filled, 0, 0, 4, 8), TerrainSprite::WaterEdge(0));
    // fewer pieces than the choice: the last one
    assert_eq!(terrain_sprite(&corner, 0, 0, 4, 3), TerrainSprite::WaterEdge(2));
    // no pieces at all: open water
    assert_eq!(terrain_sprite(&north, 0, 0, 4, 0), TerrainSprite::Water);
    // a diagonal neighbour alone makes no shore
    let diagonal = world_with(&[((1, 1), TileKind::Grass)]);
    assert_eq!(terrain_sprite(&diagonal, 0, 0, 4, 8), TerrainSprite::Water);
}

#[test]
fn biome_tints_and_grid_colours() {
    assert_eq!(biome_overlay(TileKind::Grass, BiomeKind::Swamp), Some(([50, 110, 70], 90)));
    assert_eq!(biome_overlay(TileKind::Forest, BiomeKind::Rocky), Some(([150, 150, 150], 80)));
    assert_eq!(biome_overlay(TileKind::Grass, BiomeKind::Meadow), None);
    assert_eq!(biome_overlay(TileKind::Water, BiomeKind::Swamp), None);
    assert_eq!(biome_grid_color(BiomeKind::Rocky), [160, 160, 160, 255]);
    assert_eq!(biome_grid_color(BiomeKind::Meadow), [30, 180, 30, 255]);
}

#[test]
fn tree_sprites_by_stage() {
    assert_eq!(tree_sprite_index(Some(0), 3), 0);
    assert_eq!(tree_sprite_index(None, 3), 2);
    assert_eq!(tree_sprite_index(None, 2), 1);
    assert_eq!(tree_sprite_index(Some(5), 3), 2);
}
