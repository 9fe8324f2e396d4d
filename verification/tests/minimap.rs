use strategy::minimap::{
    minimap_camera_frame, minimap_cell, minimap_grid_squares, minimap_marks, minimap_view_frame, minimap_window,
    MinimapFrame, MinimapMark, MinimapRect, MinimapSquare, MinimapWindow,
};
use strategy::types::{BiomeKind, Building, BuildingKind, Pos, TileKind};
use strategy::world::World;

fn building(kind: BuildingKind, x: i32, y: i32) -> Building {
    Building { kind, pos: Pos { x, y }, timer_ms: 0, workers_target: 0, capacity: 0 }
}

fn small_world() -> World {
    let mut w = World::new();
    w.tiles.push((Pos { x: 0, y: 0 }, TileKind::Grass));
    w.biomes.push((Pos { x: 0, y: 0 }, BiomeKind::Rocky));
    w.roads.push(Pos { x: 1, y: 0 });
    w
}

#[test]
fn window_is_centred_past_the_visible_area() {
    assert_eq!(minimap_window(0, 0, 20, 10), MinimapWindow { min_tx: -5, min_ty: -10, max_tx: 55, max_ty: 50 });
    // the centre is rounded toward zero
    assert_eq!(minimap_window(-41, -41, 0, 0), MinimapWindow { min_tx: -35, min_ty: -35, max_tx: 25, max_ty: 25 });
}

#[test]
fn cells_outside_the_widget_are_skipped() {
    let r = MinimapRect { x: 10, y: 20, w: 8, h: 100, cell: 3 };
    assert_eq!(minimap_cell(&r, 0, 0), Some((10, 20)));
    assert_eq!(minimap_cell(&r, 2, 5), Some((16, 35)));
    assert_eq!(minimap_cell(&r, 3, 0), None);
    let backwards = MinimapRect { x: 10, y: 20, w: 8, h: 100, cell: -1 };
    assert_eq!(minimap_cell(&backwards, 1, 0), None);
}

#[test]
fn terrain_then_roads_then_buildings() {
    let w = small_world();
    let bs = vec![building(BuildingKind::House, 2, 3), building(BuildingKind::Mill, 100, 0)];
    let r = MinimapRect { x: 100, y: 200, w: 122, h: 122, cell: 2 };
    let marks = minimap_marks(&w, &bs, &r, -15, -15, -15, -15);
    assert_eq!(marks.len(), 61 * 61 + 2);
    assert_eq!(marks[0], MinimapMark::Tile { x: 100, y: 200, tile: TileKind::Water, biome: BiomeKind::Meadow });
    // column by column: the second mark is one row further south
    assert_eq!(marks[1], MinimapMark::Tile { x: 100, y: 202, tile: TileKind::Water, biome: BiomeKind::Meadow });
    assert_eq!(marks[30 * 61 + 30], MinimapMark::Tile { x: 160, y: 260, tile: TileKind::Grass, biome: BiomeKind::Rocky });
    assert_eq!(marks[61 * 61], MinimapMark::Road { x: 162, y: 260 });
    assert_eq!(marks[61 * 61 + 1], MinimapMark::Building { x: 164, y: 266, kind: BuildingKind::House });
}

#[test]
fn a_narrow_widget_keeps_its_first_columns() {
    let w = small_world();
    let bs = vec![building(BuildingKind::House, 2, 3)];
    let r = MinimapRect { x: 0, y: 0, w: 10, h: 122, cell: 2 };
    let marks = minimap_marks(&w, &bs, &r, -15, -15, -15, -15);
    assert_eq!(marks.len(), 5 * 61);
    for m in &marks {
        match *m {
            MinimapMark::Tile { x, y, .. } => assert!(x >= 0 && x < 10 && y >= 0 && y < 122),
            _ => panic!("only terrain fits"),
        }
    }
}

#[test]
fn the_visible_area_is_framed_and_clipped() {
    let win = minimap_window(0, 0, 20, 10);
    let r = MinimapRect { x: 0, y: 0, w: 122, h: 122, cell: 2 };
    assert_eq!(
        minimap_view_frame(&r, &win, 0, 0, 20, 10),
        Some(MinimapFrame { min_x: 10, min_y: 20, max_x: 50, max_y: 40 })
    );
    let narrow = MinimapRect { x: 0, y: 0, w: 30, h: 122, cell: 2 };
    assert_eq!(
        minimap_view_frame(&narrow, &win, 0, 0, 20, 10),
        Some(MinimapFrame { min_x: 10, min_y: 20, max_x: 30, max_y: 40 })
    );
    let tiny = MinimapRect { x: 0, y: 0, w: 8, h: 122, cell: 2 };
    assert_eq!(minimap_view_frame(&tiny, &win, 0, 0, 20, 10), None);
}

fn square(s: &MinimapSquare) -> (i32, i32, i32, [u8; 4]) {
    (s.x, s.y, s.size, s.color)
}

#[test]
fn grid_layout_fills_tiles_row_by_row_then_buildings() {
    let w = small_world();
    let bs = vec![building(BuildingKind::House, 1, 1), building(BuildingKind::Mill, 5, 5)];
    let squares: Vec<_> = minimap_grid_squares(&w, &bs, 0, 0, 1, 1, 10, 20, 3).iter().map(square).collect();
    assert_eq!(
        squares,
        vec![
            (10, 20, 3, [100, 170, 90, 255]),
            (13, 20, 3, [70, 130, 220, 255]),
            (13, 20, 3, [210, 180, 120, 255]),
            (10, 23, 3, [70, 130, 220, 255]),
            (13, 23, 3, [70, 130, 220, 255]),
            (13, 23, 3, [220, 220, 220, 255]),
        ]
    );
}

#[test]
fn an_empty_range_draws_nothing() {
    let w = small_world();
    let bs = vec![building(BuildingKind::House, 1, 1)];
    assert!(minimap_grid_squares(&w, &bs, 3, 0, 2, 1, 0, 0, 4).is_empty());
}

#[test]
fn the_camera_frame_is_clipped_to_the_range() {
    assert_eq!(minimap_camera_frame(0, 0, 9, 9, 0, 100, 2, 2, -5, 4, 1), Some((4, 100, 9, 103)));
    assert_eq!(minimap_camera_frame(0, 0, 9, 9, 0, 0, 2, -5, -5, 50, 50), Some((0, 0, 19, 19)));
    assert_eq!(minimap_camera_frame(0, 0, 9, 9, 0, 0, 2, 20, 0, 30, 9), None);
}
