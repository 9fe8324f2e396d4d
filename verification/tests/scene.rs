use strategy::atlas::{copy_untinted, retint_loaded, TileAtlas};
use strategy::glyphs::glyph_pattern;
use strategy::menu::{MainMenu, MenuAction, MenuOption};
use strategy::structures::{
    road_neighbours, sort_buildings_by_depth, structures_diagonal_scan, structures_scanned, structures_sorted, Structure,
};
use strategy::tiles::{blend_iso_row, fill_clamped_rect};
use strategy::game_loop::step_ms_onto;
use strategy::palette::{citizen_color, citizen_mood};
use strategy::types::{Building, BuildingKind, Citizen, CitizenState, Pos, TileKind};
use strategy::world::World;

fn house(x: i32, y: i32) -> Building {
    Building { kind: BuildingKind::House, pos: Pos { x, y }, timer_ms: 0, workers_target: 0, capacity: 4 }
}

#[test]
fn hover_highlights_the_first_button_under_the_mouse() {
    let mut m = MainMenu::new();
    m.handle_hover([false, true, true, false]);
    assert_eq!(m.selected_option, Some(MenuOption::LoadGame));
    m.handle_hover([false, false, false, false]);
    assert_eq!(m.selected_option, None);
}

#[test]
fn click_chooses_without_changing_the_highlight() {
    let mut m = MainMenu::new();
    m.handle_hover([true, false, false, false]);
    assert_eq!(m.handle_click([false, false, false, true]), Some(MenuAction::Quit));
    assert_eq!(m.selected_option, Some(MenuOption::NewGame));
    assert_eq!(m.handle_click([false; 4]), None);
}

#[test]
fn glyphs_of_digits_and_letters() {
    assert_eq!(glyph_pattern(b'1'), [0, 1, 0, 1, 1, 0, 0, 1, 0, 0, 1, 0, 1, 1, 1]);
    assert_eq!(glyph_pattern(b'a'), glyph_pattern(b'A'));
    assert_eq!(glyph_pattern(b'Z'), [1, 1, 1, 0, 0, 1, 0, 1, 0, 1, 0, 0, 1, 1, 1]);
    assert_eq!(glyph_pattern(b'?'), [0; 15]);
}

#[test]
fn zoom_size_is_recorded_once() {
    let mut a = TileAtlas::new();
    assert!(a.set_zoom_size(16, 8));
    assert_eq!((a.zoom_px, a.half_w, a.half_h), (33, 16, 8));
    assert!(!a.set_zoom_size(16, 8));
    assert!(a.set_zoom_size(0, -3));
    assert_eq!((a.zoom_px, a.half_w, a.half_h), (3, 1, 1));
    // the stored half is 1, not 0, so the same request counts as new again
    assert!(a.set_zoom_size(0, -3));
}

#[test]
fn loaded_tiles_get_their_biome_tints() {
    let mut a = TileAtlas::new();
    a.grass = vec![100, 100, 100, 255];
    a.forest = vec![0, 0, 0, 0];
    a.stone = vec![1, 2, 3, 200];
    a.clay_variants = vec![vec![255, 0, 0, 255], vec![]];
    retint_loaded(&mut a);
    // (100·165 + 50·90) / 255 = 82, (100·165 + 110·90) / 255 = 103, (100·165 + 70·90) / 255 = 89
    assert_eq!(a.grass_swamp, vec![82, 103, 89, 255]);
    assert_eq!(a.forest_swamp, vec![0, 0, 0, 0]);
    assert_eq!(a.stone_tinted, vec![1, 2, 3, 172]);
    assert_eq!(a.clay_variants_tinted.len(), 2);
    assert!(a.clay_variants_tinted[1].is_empty());
    assert_eq!(a.grass, vec![100, 100, 100, 255]);
}

#[test]
fn procedural_tiles_keep_plain_copies() {
    let mut a = TileAtlas::new();
    a.grass = vec![9, 9, 9, 9];
    a.clay_variants_tinted = vec![vec![1]];
    copy_untinted(&mut a);
    assert_eq!(a.grass_swamp, a.grass);
    assert_eq!(a.grass_rocky, a.grass);
    assert!(a.clay_variants_tinted.is_empty());
}

#[test]
fn iso_row_blends_and_clamps() {
    let mut f = vec![0u8; 5 * 2 * 4];
    blend_iso_row(&mut f, 5, 2, 1, 1, 2, [255, 0, 0, 128]);
    // columns -1..=3 clamp to 0..=3 of row 1
    for x in 0..4 {
        let i = (5 + x) * 4;
        assert_eq!(&f[i..i + 4], &[128, 0, 0, 255]);
    }
    assert_eq!(&f[36..40], &[0, 0, 0, 0]);
    assert!(f[0..20].iter().all(|b| *b == 0));
    let before = f.clone();
    blend_iso_row(&mut f, 5, 2, 1, 2, 2, [255, 0, 0, 128]);
    assert_eq!(f, before);
}

#[test]
fn rect_is_clamped_into_the_frame() {
    let mut f = vec![0u8; 3 * 3 * 4];
    fill_clamped_rect(&mut f, 3, 3, -5, 1, 1, 9, [7, 7, 7, 7]);
    let lit: Vec<usize> = (0..9).filter(|p| f[p * 4] == 7).collect();
    assert_eq!(lit, vec![3, 4, 6, 7]);
    let mut g = vec![0u8; 3 * 3 * 4];
    fill_clamped_rect(&mut g, 3, 3, 2, 0, 1, 0, [7, 7, 7, 7]);
    assert!(g.iter().all(|b| *b == 0));
}

fn grove() -> (World, Vec<Building>) {
    let mut w = World::new();
    w.set_tree(Pos { x: 1, y: 0 }, 2);
    w.set_tree(Pos { x: 0, y: 1 }, 1);
    let bs = vec![house(1, 1), house(0, 0), house(1, 1)];
    (w, bs)
}

#[test]
fn scan_goes_row_by_row_with_the_last_building() {
    let (w, bs) = grove();
    let r = structures_scanned(&w, &bs, 0, 0, 1, 1);
    assert_eq!(
        r,
        vec![
            Structure::Building { index: 1 },
            Structure::Tree { x: 1, y: 0, stage: 2 },
            Structure::Tree { x: 0, y: 1, stage: 1 },
            Structure::Building { index: 2 },
        ]
    );
}

#[test]
fn diagonal_scan_goes_by_depth() {
    let (w, bs) = grove();
    let r = structures_diagonal_scan(&w, &bs, 0, 0, 1, 1);
    assert_eq!(
        r,
        vec![
            Structure::Building { index: 1 },
            Structure::Tree { x: 0, y: 1, stage: 1 },
            Structure::Tree { x: 1, y: 0, stage: 2 },
            Structure::Building { index: 2 },
        ]
    );
}

#[test]
fn sorted_keeps_every_building_on_a_tile() {
    let (w, bs) = grove();
    let r = structures_sorted(&w, &bs, 0, 0, 1, 1);
    assert_eq!(r.len(), 5);
    assert_eq!(&r[3..], &[Structure::Building { index: 0 }, Structure::Building { index: 2 }]);
    let outside = structures_sorted(&w, &bs, 5, 5, 6, 6);
    assert!(outside.is_empty());
    let empty = structures_sorted(&w, &bs, 1, 1, 0, 0);
    assert!(empty.is_empty());
}

#[test]
fn citizen_marker_colour_and_mood() {
    let mut c = Citizen {
        pos: Pos { x: 0, y: 0 },
        target: Pos { x: 0, y: 0 },
        moving: false,
        progress: 0,
        carrying_log: false,
        assigned_job: None,
        idle_timer_ms: 0,
        home: Pos { x: 0, y: 0 },
        workplace: None,
        state: CitizenState::Idle,
        work_timer_ms: 0,
        carrying: None,
        pending_input: None,
        path: Vec::new(),
        path_index: 0,
        fed_today: true,
        manual_workplace: false,
        happiness: 50,
        last_food_mask: 0,
    };
    let bs = vec![house(1, 1)];
    assert_eq!(citizen_color(&c, &bs), [255, 230, 120, 255]);
    c.workplace = Some(Pos { x: 1, y: 1 });
    assert_eq!(citizen_color(&c, &bs), [180, 180, 180, 255]);
    c.workplace = Some(Pos { x: 5, y: 5 });
    assert_eq!(citizen_color(&c, &bs), [255, 230, 120, 255]);
    assert_eq!(citizen_mood(66), 2);
    assert_eq!(citizen_mood(65), 1);
    assert_eq!(citizen_mood(34), 1);
    assert_eq!(citizen_mood(33), 0);
}

#[test]
fn steps_onto_roads_are_quickest() {
    let mut w = World::new();
    w.set_tile(Pos { x: 0, y: 0 }, TileKind::Grass);
    w.set_tile(Pos { x: 1, y: 0 }, TileKind::Forest);
    assert_eq!(step_ms_onto(&w, Pos { x: 0, y: 0 }), 450);
    assert_eq!(step_ms_onto(&w, Pos { x: 1, y: 0 }), 600);
    w.build_road(Pos { x: 1, y: 0 });
    assert_eq!(step_ms_onto(&w, Pos { x: 1, y: 0 }), 300);
}

#[test]
fn road_piece_follows_the_neighbours() {
    let mut w = World::new();
    assert_eq!(road_neighbours(&w, Pos { x: 0, y: 0 }), 0);
    w.build_road(Pos { x: 0, y: -1 });
    w.build_road(Pos { x: -1, y: 0 });
    assert_eq!(road_neighbours(&w, Pos { x: 0, y: 0 }), 9);
    w.build_road(Pos { x: 1, y: 0 });
    w.build_road(Pos { x: 0, y: 1 });
    assert_eq!(road_neighbours(&w, Pos { x: 0, y: 0 }), 15);
    assert_eq!(road_neighbours(&w, Pos { x: 1, y: 1 }), 9);
}

#[test]
fn buildings_sort_by_depth_keeping_ties_in_order() {
    let mut bs = vec![house(3, 3), house(0, 1), house(2, -2), house(1, 0), house(-5, 5)];
    bs[3].capacity = 9;
    sort_buildings_by_depth(&mut bs);
    let depths: Vec<i32> = bs.iter().map(|b| b.pos.x + b.pos.y).collect();
    assert_eq!(depths, vec![0, 0, 1, 1, 6]);
    assert_eq!(bs[0].pos, Pos { x: 2, y: -2 });
    assert_eq!(bs[1].pos, Pos { x: -5, y: 5 });
    assert_eq!(bs[2].pos, Pos { x: 0, y: 1 });
    assert_eq!(bs[3].capacity, 9);
    let mut none: Vec<Building> = Vec::new();
    sort_buildings_by_depth(&mut none);
    assert!(none.is_empty());
}
