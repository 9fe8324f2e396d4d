use strategy::atlas::{
    building_atlas_for, cell_rgba, get_tile_data, get_tile_kind, load_spritesheet, load_tile_strip, props_atlas_for,
    tree_atlas_for, TileAtlas,
};
use strategy::types::TileKind;

#[test]
fn new_atlas_is_empty() {
    let a = TileAtlas::new();
    assert_eq!(a.zoom_px, -1);
    assert!(!a.base_loaded);
    assert_eq!(a.base_w, 0);
    assert!(a.grass.is_empty());
    assert!(a.water_frames.is_empty());
}

#[test]
fn tint_colour_mixes_visible_pixels_only() {
    let src = vec![100, 50, 0, 200, 9, 9, 9, 0, 7];
    let out = TileAtlas::tint_buffer_color(&src, [200, 100, 255], 51, 128);
    assert_eq!(out, vec![120, 60, 51, 100, 9, 9, 9, 0, 7]);
}

#[test]
fn tint_colour_with_zero_strength_keeps_colour() {
    let src = vec![10, 20, 30, 255];
    let out = TileAtlas::tint_buffer_color(&src, [255, 255, 255], 0, 255);
    assert_eq!(out, src);
}

#[test]
fn tint_alpha_scales_every_alpha() {
    let src = vec![1, 2, 3, 255, 4, 5, 6, 100];
    let out = TileAtlas::tint_buffer_alpha(&src, 51);
    assert_eq!(out, vec![1, 2, 3, 51, 4, 5, 6, 20]);
}

#[test]
fn cell_is_cut_row_by_row() {
    let raw: Vec<u8> = (0..32).collect();
    let out = cell_rgba(&raw, 4, 1, 0, 2, 2);
    let mut expected: Vec<u8> = (4..12).collect();
    expected.extend(20..28u8);
    assert_eq!(out, expected);
}

fn sheet(iw: usize, ih: usize) -> Vec<u8> {
    let mut raw = vec![0u8; iw * ih * 4];
    for y in 0..ih {
        for x in 0..iw {
            let i = (y * iw + x) * 4;
            raw[i] = (x / 32) as u8;
            raw[i + 1] = (y / 32) as u8;
            raw[i + 3] = 255;
        }
    }
    raw
}

#[test]
fn small_spritesheet_uses_its_last_row() {
    let raw = sheet(64, 64);
    let mut a = TileAtlas::new();
    load_spritesheet(&mut a, &raw, 64, 64);
    assert!(a.base_loaded);
    assert_eq!((a.base_w, a.base_h), (32, 32));
    assert_eq!(a.base_grass.len(), 32 * 32 * 4);
    assert_eq!(&a.base_grass[0..2], &[0, 1]);
    assert_eq!(&a.base_forest[0..2], &[1, 1]);
    assert_eq!(&a.base_water[0..2], &[0, 1]);
    assert_eq!(&a.base_clay[0..2], &[1, 1]);
    assert_eq!(a.grass_variants.len(), 2);
    assert_eq!(&a.grass_variants[1][0..2], &[1, 1]);
    assert_eq!(a.clay_variants.len(), 2);
    assert_eq!(a.water_edges.len(), 1);
    assert_eq!(a.zoom_px, -1);
}

#[test]
fn large_spritesheet_takes_the_named_cells() {
    let raw = sheet(256, 192);
    let mut a = TileAtlas::new();
    load_spritesheet(&mut a, &raw, 256, 192);
    assert_eq!(&a.base_grass[0..2], &[0, 2]);
    assert_eq!(&a.base_forest[0..2], &[7, 3]);
    assert_eq!(&a.base_water[0..2], &[0, 5]);
    assert_eq!(&a.base_stone[0..2], &[6, 5]);
    assert_eq!(a.grass_variants.len(), 3);
    assert_eq!(&a.clay_variants[2][0..2], &[2, 1]);
    assert_eq!(a.water_edges.len(), 7);
    assert_eq!(&a.water_edges[0][0..2], &[1, 5]);
}

#[test]
fn tile_strip_is_split_in_six() {
    let raw: Vec<u8> = (0..48).collect();
    let mut a = TileAtlas::new();
    load_tile_strip(&mut a, &raw, 12, 1);
    assert!(a.base_loaded);
    assert_eq!((a.base_w, a.base_h), (2, 1));
    assert_eq!(a.base_grass, (0..8).collect::<Vec<u8>>());
    assert_eq!(a.base_forest, (8..16).collect::<Vec<u8>>());
    assert_eq!(a.base_iron, (40..48).collect::<Vec<u8>>());
}

#[test]
fn building_and_tree_strips_use_the_tile_width() {
    let a = TileAtlas::new();
    let (b, n) = building_atlas_for(&a, 256, 64);
    assert_eq!((b.w, b.h, n), (64, 64, 4));
    let t = tree_atlas_for(&a, 192, 80);
    assert_eq!((t.w, t.h), (64, 80));
    let mut loaded = TileAtlas::new();
    loaded.base_loaded = true;
    loaded.base_w = 32;
    let (b, n) = building_atlas_for(&loaded, 100, 40);
    assert_eq!((b.w, b.h, n), (32, 40, 3));
}

#[test]
fn props_grid_size() {
    let p = props_atlas_for(64, 48);
    assert_eq!((p.w, p.h, p.sprite_w, p.sprite_h, p.cols, p.rows), (64, 48, 16, 16, 4, 3));
    let p = props_atlas_for(128, 64);
    assert_eq!((p.sprite_w, p.cols, p.rows), (32, 4, 2));
    let p = props_atlas_for(100, 100);
    assert_eq!((p.sprite_w, p.cols, p.rows), (32, 3, 3));
    let p = props_atlas_for(16, 16);
    assert_eq!((p.sprite_w, p.cols, p.rows), (16, 1, 1));
}

#[test]
fn test_pattern_repeats_every_three_tiles() {
    assert_eq!(get_tile_kind(0, 0), TileKind::Grass);
    assert_eq!(get_tile_kind(1, 0), TileKind::Forest);
    assert_eq!(get_tile_kind(1, 1), TileKind::Water);
    assert_eq!(get_tile_kind(4, 5), TileKind::Grass);
}

#[test]
fn water_falls_back_to_grass_without_frames() {
    let mut a = TileAtlas::new();
    a.grass = vec![1, 1, 1, 1];
    a.forest = vec![2, 2, 2, 2];
    assert_eq!(get_tile_data(&a, TileKind::Water), &vec![1, 1, 1, 1]);
    assert_eq!(get_tile_data(&a, TileKind::Forest), &vec![2, 2, 2, 2]);
    a.water_frames = vec![vec![3, 3, 3, 3], vec![4, 4, 4, 4]];
    assert_eq!(get_tile_data(&a, TileKind::Water), &vec![3, 3, 3, 3]);
}

#[test]
fn narrow_sheet_reads_cells_across_its_rows() {
    let raw: Vec<u8> = (0..16 * 40 * 4).map(|i| (i % 251) as u8).collect();
    let mut a = TileAtlas::new();
    load_spritesheet(&mut a, &raw, 16, 40);
    assert!(a.base_loaded);
    assert_eq!(a.base_grass.len(), 32 * 32 * 4);
    assert_eq!(&a.base_grass[0..128], &raw[0..128]);
    assert_eq!(&a.base_grass[128..256], &raw[64..192]);
    assert_eq!(a.grass_variants.len(), 1);
    assert!(a.water_edges.is_empty());
}
