use strategy::commands::{command_for, CommandId, TogglePauseCommand};
use strategy::config::defaults;
use strategy::console::{ConsoleEffect, DeveloperConsole};
use strategy::controls::{
    click_building, escape_outcome, finish_road_drag, handle_key_press, path_probe_click, road_preview_path,
    start_road_drag, submit_command, update_road_drag, EscapeOutcome, SpeedChoice, ViewFlags,
};
use strategy::input::{code_from_str, same_text, Key, ResolvedInput};
use strategy::notifications::NotificationKind;
use strategy::palette::{building_color, resource_color};
use strategy::types::{Building, BuildingKind, Pos, ResourceKind, Resources, TileKind};
use strategy::world::World;

fn default_keys() -> ResolvedInput {
    ResolvedInput::from(&defaults().1)
}

fn flags() -> ViewFlags {
    ViewFlags {
        show_grid: false,
        show_forest_overlay: false,
        show_tree_stage_overlay: false,
        show_ui: true,
        road_mode: false,
        path_debug_mode: false,
    }
}

#[test]
fn key_names_ignore_case() {
    assert_eq!(code_from_str("w"), Key::KeyW);
    assert_eq!(code_from_str("W"), Key::KeyW);
    assert_eq!(code_from_str("space"), Key::Space);
    assert_eq!(code_from_str("Digit1"), Key::Digit1);
    assert_eq!(code_from_str("1"), Key::Digit1);
    assert_eq!(code_from_str("digit4"), Key::Digit4);
    assert_eq!(code_from_str("f9"), Key::F9);
    assert_eq!(code_from_str("n"), Key::KeyN);
}

#[test]
fn unknown_key_names_bind_escape() {
    assert_eq!(code_from_str(""), Key::Escape);
    assert_eq!(code_from_str("]"), Key::Escape);
    assert_eq!(code_from_str("Digit5"), Key::Escape);
    assert_eq!(code_from_str("shift"), Key::Escape);
}

#[test]
fn same_text_compares_characters() {
    assert!(same_text("abc", "abc"));
    assert!(!same_text("abc", "abd"));
    assert!(!same_text("ab", "abc"));
    assert!(same_text("", ""));
}

#[test]
fn default_bindings_resolve() {
    let k = default_keys();
    assert_eq!(k.move_up, Key::KeyW);
    assert_eq!(k.move_left, Key::KeyA);
    assert_eq!(k.zoom_in, Key::KeyE);
    assert_eq!(k.toggle_pause, Key::Space);
    assert_eq!(k.speed_0_5x, Key::Digit1);
    assert_eq!(k.speed_3x, Key::Digit4);
    assert_eq!(k.build_house, Key::KeyX);
    assert_eq!(k.toggle_road_mode, Key::KeyR);
    assert_eq!(k.save_game, Key::F5);
    assert_eq!(k.load_game, Key::F9);
    assert_eq!(k.reset_new_seed, Key::Escape);
    assert_eq!(k.tax_up, Key::Escape);
}

#[test]
fn keys_run_their_commands() {
    let k = default_keys();
    assert_eq!(command_for(&k, Key::KeyW), Some(CommandId::MoveUp));
    assert_eq!(command_for(&k, Key::KeyD), Some(CommandId::MoveRight));
    assert_eq!(command_for(&k, Key::KeyQ), Some(CommandId::ZoomOut));
    assert_eq!(command_for(&k, Key::Space), Some(CommandId::TogglePause));
    assert_eq!(command_for(&k, Key::F5), Some(CommandId::SaveGame));
    assert_eq!(command_for(&k, Key::F9), Some(CommandId::LoadGame));
    assert_eq!(command_for(&k, Key::KeyG), None);
}

#[test]
fn last_binding_on_a_key_wins() {
    let k = default_keys();
    // both tax bindings name no known key, so both land on Escape
    assert_eq!(command_for(&k, Key::Escape), Some(CommandId::TaxDown));
    let mut custom = k;
    custom.move_up = Key::KeyE;
    assert_eq!(command_for(&custom, Key::KeyE), Some(CommandId::ZoomIn));
}

#[test]
fn toggle_pause_flips() {
    let mut paused = false;
    TogglePauseCommand.apply(&mut paused);
    assert!(paused);
    TogglePauseCommand.apply(&mut paused);
    assert!(!paused);
}

#[test]
fn key_press_speed_and_toggles() {
    let k = default_keys();
    let mut f = flags();
    let mut sel = None;
    let mut a = Some(Pos { x: 1, y: 1 });
    let mut b = None;
    let mut path = None;
    assert_eq!(handle_key_press(Key::Digit3, &k, &mut f, &mut sel, &mut a, &mut b, &mut path), Some(SpeedChoice::Double));
    assert_eq!(handle_key_press(Key::Digit1, &k, &mut f, &mut sel, &mut a, &mut b, &mut path), Some(SpeedChoice::Half));
    assert_eq!(handle_key_press(Key::KeyG, &k, &mut f, &mut sel, &mut a, &mut b, &mut path), None);
    assert!(f.show_grid);
    handle_key_press(Key::KeyU, &k, &mut f, &mut sel, &mut a, &mut b, &mut path);
    assert!(!f.show_ui);
    handle_key_press(Key::KeyR, &k, &mut f, &mut sel, &mut a, &mut b, &mut path);
    assert!(f.road_mode);
    assert_eq!(a, Some(Pos { x: 1, y: 1 }));
    handle_key_press(Key::KeyX, &k, &mut f, &mut sel, &mut a, &mut b, &mut path);
    assert_eq!(sel, Some(BuildingKind::House));
    handle_key_press(Key::KeyZ, &k, &mut f, &mut sel, &mut a, &mut b, &mut path);
    assert_eq!(sel, Some(BuildingKind::Lumberjack));
}

#[test]
fn p_toggles_the_probe_and_forgets_it() {
    let k = default_keys();
    let mut f = flags();
    let mut sel = None;
    let mut a = Some(Pos { x: 1, y: 1 });
    let mut b = Some(Pos { x: 2, y: 2 });
    let mut path = Some(vec![Pos { x: 1, y: 1 }]);
    handle_key_press(Key::KeyP, &k, &mut f, &mut sel, &mut a, &mut b, &mut path);
    assert!(f.path_debug_mode);
    assert_eq!((a, b), (None, None));
    assert!(path.is_none());
}

#[test]
fn escape_precedence() {
    assert_eq!(escape_outcome(true, true, true, true), EscapeOutcome::CloseResearch);
    assert_eq!(escape_outcome(false, false, true, true), EscapeOutcome::Deselect);
    assert_eq!(escape_outcome(false, true, true, true), EscapeOutcome::Pause);
    assert_eq!(escape_outcome(false, false, false, true), EscapeOutcome::Pause);
    assert_eq!(escape_outcome(false, false, false, false), EscapeOutcome::Exit);
}

#[test]
fn enter_runs_the_typed_command() {
    let mut c = DeveloperConsole::new();
    c.toggle();
    c.input = "gold 5".to_string();
    let mut res = Resources::default();
    res.gold = 10;
    let (mut o, mut d, mut s) = (false, false, false);
    let r = submit_command(&mut c, &mut res, &mut o, &mut d, &mut s);
    assert!(matches!(r, Some(ConsoleEffect::Nothing)));
    assert_eq!(res.gold, 15);
    assert!(c.input.is_empty());
    assert_eq!(c.log.len(), 4);
    assert_eq!(c.log[1], "> gold 5");
    assert_eq!(c.log[2], "> gold 5");
}

#[test]
fn enter_with_nothing_to_run() {
    let mut c = DeveloperConsole::new();
    let mut res = Resources::default();
    let (mut o, mut d, mut s) = (false, false, false);
    c.input = "gold 5".to_string();
    assert!(submit_command(&mut c, &mut res, &mut o, &mut d, &mut s).is_none());
    assert_eq!(c.log.len(), 1);
    c.toggle();
    c.input = String::new();
    assert!(submit_command(&mut c, &mut res, &mut o, &mut d, &mut s).is_none());
    c.input = "   ".to_string();
    let r = submit_command(&mut c, &mut res, &mut o, &mut d, &mut s);
    assert!(matches!(r, Some(ConsoleEffect::Nothing)));
    assert_eq!(c.log.len(), 2);
    assert_eq!(res.gold, 0);
}

#[test]
fn road_preview_goes_along_x_then_y() {
    let p = road_preview_path(Pos { x: 0, y: 0 }, Pos { x: 2, y: -1 });
    assert_eq!(p, vec![Pos { x: 0, y: 0 }, Pos { x: 1, y: 0 }, Pos { x: 2, y: 0 }, Pos { x: 2, y: -1 }]);
    let q = road_preview_path(Pos { x: 3, y: 3 }, Pos { x: 3, y: 3 });
    assert_eq!(q, vec![Pos { x: 3, y: 3 }]);
    let r = road_preview_path(Pos { x: 5, y: 0 }, Pos { x: 3, y: 2 });
    assert_eq!(r.len(), 5);
    assert_eq!(r[2], Pos { x: 3, y: 0 });
    assert_eq!(r[4], Pos { x: 3, y: 2 });
}

#[test]
fn probe_clicks_set_start_goal_then_start_over() {
    let mut world = World::new();
    for x in 0..3 {
        world.set_tile(Pos { x, y: 0 }, TileKind::Grass);
    }
    let (mut a, mut b, mut path) = (None, None, None);
    path_probe_click(&world, Pos { x: 0, y: 0 }, &mut a, &mut b, &mut path);
    assert_eq!((a, b), (Some(Pos { x: 0, y: 0 }), None));
    assert!(path.is_none());
    path_probe_click(&world, Pos { x: 2, y: 0 }, &mut a, &mut b, &mut path);
    assert_eq!(b, Some(Pos { x: 2, y: 0 }));
    let found = path.clone().unwrap();
    assert_eq!(found.first(), Some(&Pos { x: 0, y: 0 }));
    assert_eq!(found.last(), Some(&Pos { x: 2, y: 0 }));
    assert_eq!(found.len(), 3);
    path_probe_click(&world, Pos { x: 1, y: 0 }, &mut a, &mut b, &mut path);
    assert_eq!((a, b), (Some(Pos { x: 1, y: 0 }), None));
    assert!(path.is_none());
}

#[test]
fn notification_texts() {
    let n = NotificationKind::ResearchCompleted { name: "Pottery".to_string() };
    assert_eq!(n.text(), "Research completed: Pottery");
    assert_eq!(NotificationKind::BuildingUnlocked { name: "Kiln".to_string() }.text(), "Unlocked: Kiln");
    assert_eq!(NotificationKind::Warning { message: "low food".to_string() }.text(), "Warning: low food");
    assert_eq!(NotificationKind::Info { message: "hello".to_string() }.text(), "hello");
}

#[test]
fn palette_colours() {
    assert_eq!(building_color(BuildingKind::House), [180, 180, 180, 255]);
    assert_eq!(building_color(BuildingKind::Smelter), [190, 190, 210, 255]);
    assert_eq!(resource_color(ResourceKind::Gold), [220, 180, 60, 255]);
    assert_eq!(resource_color(ResourceKind::Wood), [110, 70, 30, 255]);
}

#[test]
fn dragging_lays_a_road_along_the_preview() {
    let mut world = World::new();
    let (mut state, mut anchor, mut preview) = (None, None, Vec::new());
    start_road_drag(&world, Pos { x: 0, y: 0 }, &mut state, &mut anchor, &mut preview);
    assert_eq!((state, anchor), (Some(true), Some(Pos { x: 0, y: 0 })));
    assert_eq!(preview, vec![Pos { x: 0, y: 0 }]);
    update_road_drag(&world, true, true, Some(Pos { x: 1, y: 1 }), &mut state, &mut anchor, &mut preview);
    assert_eq!(preview, vec![Pos { x: 0, y: 0 }, Pos { x: 1, y: 0 }, Pos { x: 1, y: 1 }]);
    finish_road_drag(&mut world, true, &mut state, &mut anchor, &mut preview);
    assert!(world.is_road(Pos { x: 1, y: 0 }));
    assert!(world.is_road(Pos { x: 1, y: 1 }));
    assert!(!world.is_road(Pos { x: 0, y: 1 }));
    assert_eq!((state, anchor), (None, None));
    assert!(preview.is_empty());
}

#[test]
fn dragging_from_a_road_takes_roads_up() {
    let mut world = World::new();
    world.build_road(Pos { x: 0, y: 0 });
    world.build_road(Pos { x: 0, y: 1 });
    world.build_road(Pos { x: 5, y: 5 });
    let (mut state, mut anchor, mut preview) = (None, None, Vec::new());
    start_road_drag(&world, Pos { x: 0, y: 0 }, &mut state, &mut anchor, &mut preview);
    assert_eq!(state, Some(false));
    update_road_drag(&world, true, true, Some(Pos { x: 0, y: 1 }), &mut state, &mut anchor, &mut preview);
    finish_road_drag(&mut world, true, &mut state, &mut anchor, &mut preview);
    assert!(!world.is_road(Pos { x: 0, y: 0 }));
    assert!(!world.is_road(Pos { x: 0, y: 1 }));
    assert!(world.is_road(Pos { x: 5, y: 5 }));
}

#[test]
fn moving_without_a_drag_changes_nothing() {
    let world = World::new();
    let (mut state, mut anchor, mut preview) = (None, None, vec![Pos { x: 9, y: 9 }]);
    update_road_drag(&world, false, true, Some(Pos { x: 1, y: 1 }), &mut state, &mut anchor, &mut preview);
    assert_eq!((state, anchor), (None, None));
    assert_eq!(preview, vec![Pos { x: 9, y: 9 }]);
    update_road_drag(&world, true, true, Some(Pos { x: 1, y: 1 }), &mut state, &mut anchor, &mut preview);
    assert_eq!((state, anchor), (Some(true), Some(Pos { x: 1, y: 1 })));
    assert_eq!(preview, vec![Pos { x: 1, y: 1 }]);
    let mut w2 = World::new();
    let mut st = Some(true);
    let mut pv = vec![Pos { x: 2, y: 2 }];
    finish_road_drag(&mut w2, false, &mut st, &mut anchor, &mut pv);
    assert!(!w2.is_road(Pos { x: 2, y: 2 }));
    assert!(pv.is_empty());
}

#[test]
fn clicking_a_building_toggles_its_panel() {
    let bs = vec![Building { kind: BuildingKind::Warehouse, pos: Pos { x: 3, y: 3 }, timer_ms: 0, workers_target: 0, capacity: 0 }];
    let mut panel = None;
    assert!(click_building(&bs, Pos { x: 3, y: 3 }, &mut panel));
    assert_eq!(panel, Some(Pos { x: 3, y: 3 }));
    assert!(click_building(&bs, Pos { x: 3, y: 3 }, &mut panel));
    assert_eq!(panel, None);
    assert!(!click_building(&bs, Pos { x: 0, y: 0 }, &mut panel));
    assert_eq!(panel, None);
}
