//! What keys and clicks change: display toggles, speed, the building
//! picked for placement, the Escape key, the console's Enter, road previews
//! and the path-finding probe.

use vstd::prelude::*;
use crate::types::{Pos, Building, BuildingKind, Resources, abs_int, manhattan};
use crate::jobs::{building_kind_at, first_building_kind};
use crate::input::{Key, ResolvedInput};
use crate::world::World;
use crate::path::{astar, search_outcome, path_view};
use crate::console::{DeveloperConsole, ConsoleEffect, texts, answer, console_state};
use crate::text::words;

verus! {

// ---------------------------------------------------------------- keys

/// A simulation speed a key asks for.
#[derive(Clone, Copy, Debug, PartialEq, Eq, Structural)]
pub enum SpeedChoice {
    Half,
    Normal,
    Double,
    Triple,
}

/// The display and building flags keys toggle.
#[derive(Clone, Copy, Debug, PartialEq, Eq, Structural)]
pub struct ViewFlags {
    pub show_grid: bool,
    pub show_forest_overlay: bool,
    pub show_tree_stage_overlay: bool,
    pub show_ui: bool,
    pub road_mode: bool,
    pub path_debug_mode: bool,
}

/// The speed a key asks for; the last matching binding wins.
pub open spec fn speed_for(input: ResolvedInput, k: Key) -> Option<SpeedChoice> {
    if k == input.speed_3x {
        Some(SpeedChoice::Triple)
    } else if k == input.speed_2x {
        Some(SpeedChoice::Double)
    } else if k == input.speed_1x {
        Some(SpeedChoice::Normal)
    } else if k == input.speed_0_5x {
        Some(SpeedChoice::Half)
    } else {
        None
    }
}

/// The flags after a key press: G, H, J and U flip the grid, forest
/// overlay, tree-stage overlay and UI; the road-mode binding flips road
/// mode; P flips the path probe.
pub open spec fn flags_after(input: ResolvedInput, k: Key, f: ViewFlags) -> ViewFlags {
    ViewFlags {
        show_grid: if k == Key::KeyG {
            !f.show_grid
        } else {
            f.show_grid
        },
        show_forest_overlay: if k == Key::KeyH {
            !f.show_forest_overlay
        } else {
            f.show_forest_overlay
        },
        show_tree_stage_overlay: if k == Key::KeyJ {
            !f.show_tree_stage_overlay
        } else {
            f.show_tree_stage_overlay
        },
        show_ui: if k == Key::KeyU {
            !f.show_ui
        } else {
            f.show_ui
        },
        road_mode: if k == input.toggle_road_mode {
            !f.road_mode
        } else {
            f.road_mode
        },
        path_debug_mode: if k == Key::KeyP {
            !f.path_debug_mode
        } else {
            f.path_debug_mode
        },
    }
}

/// The building picked for placement after a key press; the house binding
/// wins over the lumberjack's.
pub open spec fn pick_after(input: ResolvedInput, k: Key, sel: Option<BuildingKind>) -> Option<BuildingKind> {
    if k == input.build_house {
        Some(BuildingKind::House)
    } else if k == input.build_lumberjack {
        Some(BuildingKind::Lumberjack)
    } else {
        sel
    }
}

/// Apply the remaining key bindings: speed, display toggles, building
/// pick; P also forgets the path probe's ends and path. Returns the speed
/// asked for, if any.
pub fn handle_key_press(
    key: Key,
    input: &ResolvedInput,
    flags: &mut ViewFlags,
    selected_building: &mut Option<BuildingKind>,
    path_sel_a: &mut Option<Pos>,
    path_sel_b: &mut Option<Pos>,
    last_path: &mut Option<Vec<Pos>>,
) -> (speed: Option<SpeedChoice>)
    ensures
        speed == speed_for(*input, key),
        *final(flags) == flags_after(*input, key, *old(flags)),
        *final(selected_building) == pick_after(*input, key, *old(selected_building)),
        key == Key::KeyP ==> (*final(path_sel_a)) is None && (*final(path_sel_b)) is None && (*final(last_path)) is None,
        key != Key::KeyP ==> *final(path_sel_a) == *old(path_sel_a) && *final(path_sel_b) == *old(path_sel_b)
            && *final(last_path) == *old(last_path),
{
    let mut speed: Option<SpeedChoice> = None;
    if key == input.speed_0_5x {
        speed = Some(SpeedChoice::Half);
    }
    if key == input.speed_1x {
        speed = Some(SpeedChoice::Normal);
    }
    if key == input.speed_2x {
        speed = Some(SpeedChoice::Double);
    }
    if key == input.speed_3x {
        speed = Some(SpeedChoice::Triple);
    }
    if key == Key::KeyG {
        flags.show_grid = !flags.show_grid;
    }
    if key == Key::KeyH {
        flags.show_forest_overlay = !flags.show_forest_overlay;
    }
    if key == Key::KeyJ {
        flags.show_tree_stage_overlay = !flags.show_tree_stage_overlay;
    }
    if key == Key::KeyU {
        flags.show_ui = !flags.show_ui;
    }
    if key == input.toggle_road_mode {
        flags.road_mode = !flags.road_mode;
    }
    if key == Key::KeyP {
        flags.path_debug_mode = !flags.path_debug_mode;
        *path_sel_a = None;
        *path_sel_b = None;
        *last_path = None;
    }
    if key == input.build_lumberjack {
        *selected_building = Some(BuildingKind::Lumberjack);
    }
    if key == input.build_house {
        *selected_building = Some(BuildingKind::House);
    }
    speed
}

/// What Escape does, in order of precedence.
#[derive(Clone, Copy, Debug, PartialEq, Eq, Structural)]
pub enum EscapeOutcome {
    /// Close the research tree.
    CloseResearch,
    /// Drop the building picked for placement.
    Deselect,
    /// Open the pause menu.
    Pause,
    /// Leave the game.
    Exit,
}

/// Escape closes the research tree if it is open; else, with the console
/// closed, drops a picked building; else pauses a game in progress; else
/// leaves.
pub fn escape_outcome(show_research_tree: bool, console_open: bool, building_picked: bool, playing: bool) -> (r:
    EscapeOutcome)
    ensures
        r == if show_research_tree {
            EscapeOutcome::CloseResearch
        } else if !console_open && building_picked {
            EscapeOutcome::Deselect
        } else if playing {
            EscapeOutcome::Pause
        } else {
            EscapeOutcome::Exit
        },
{
    if show_research_tree {
        EscapeOutcome::CloseResearch
    } else if !console_open && building_picked {
        EscapeOutcome::Deselect
    } else if playing {
        EscapeOutcome::Pause
    } else {
        EscapeOutcome::Exit
    }
}

/// Enter in an open console with a command typed: the command is echoed,
/// carried out and the command line cleared. Returns what is left for the
/// caller, or `None` when there was nothing to run.
pub fn submit_command(
    console: &mut DeveloperConsole,
    resources: &mut Resources,
    biome_overlay_debug: &mut bool,
    biome_debug_mode: &mut bool,
    show_deposits: &mut bool,
) -> (r: Option<ConsoleEffect>)
    ensures
        !(old(console).open && old(console).input@.len() > 0) ==> r is None && final(console).log == old(
            console,
        ).log && final(console).input == old(console).input && *final(resources) == *old(resources)
            && *final(biome_overlay_debug) == *old(biome_overlay_debug) && *final(biome_debug_mode) == *old(
            biome_debug_mode,
        ) && *final(show_deposits) == *old(show_deposits),
        old(console).open && old(console).input@.len() > 0 ==> {
            let cmd = old(console).input@;
            let logged = texts(old(console).log@).push("> "@ + cmd);
            &&& final(console).input@.len() == 0
            &&& final(console).open
            &&& r is Some
            &&& *final(resources) == (Resources { gold: final(resources).gold, ..*old(resources) })
            &&& words(cmd).len() == 0 ==> {
                &&& texts(final(console).log@) == logged
                &&& final(resources).gold == old(resources).gold
                &&& *final(biome_overlay_debug) == *old(biome_overlay_debug)
                &&& *final(biome_debug_mode) == *old(biome_debug_mode)
                &&& *final(show_deposits) == *old(show_deposits)
                &&& r->0 is Nothing
            }
            &&& words(cmd).len() > 0 ==> exists|lines: Seq<Seq<char>>|
                {
                    &&& #[trigger] answer(
                        words(cmd),
                        console_state(
                            old(resources).gold,
                            *old(biome_overlay_debug),
                            *old(biome_debug_mode),
                            *old(show_deposits),
                        ),
                        lines,
                        console_state(
                            final(resources).gold,
                            *final(biome_overlay_debug),
                            *final(biome_debug_mode),
                            *final(show_deposits),
                        ),
                        r->0,
                    )
                    &&& texts(final(console).log@) == logged.push("> "@ + cmd) + lines
                }
        },
{
    if !(console.open && console.input.as_str().unicode_len() > 0) {
        return None;
    }
    let cmd = console.input.clone();
    let mut echo = String::from_str("> ");
    echo.append(cmd.as_str());
    let ghost before = texts(console.log@);
    console.log.push(echo);
    assert(texts(console.log@) =~= before.push("> "@ + cmd@));
    let effect = console.execute_command(cmd.as_str(), resources, biome_overlay_debug, biome_debug_mode, show_deposits);
    console.input = String::new();
    Some(effect)
}

// ---------------------------------------------------------------- roads

/// The `k`-th tile of a road preview from `a` to `b`: along x first, then
/// along y.
pub open spec fn preview_tile(a: Pos, b: Pos, k: int) -> Pos {
    let nx = abs_int(b.x - a.x);
    if k <= nx {
        Pos {
            x: (if b.x > a.x {
                a.x + k
            } else {
                a.x - k
            }) as i32,
            y: a.y,
        }
    } else {
        Pos {
            x: b.x,
            y: (if b.y > a.y {
                a.y + (k - nx)
            } else {
                a.y - (k - nx)
            }) as i32,
        }
    }
}

/// The tiles a road dragged from `a` to `b` would cover.
pub open spec fn road_preview(a: Pos, b: Pos) -> Seq<Pos> {
    Seq::new((abs_int(b.x - a.x) + abs_int(b.y - a.y) + 1) as nat, |k: int| preview_tile(a, b, k))
}

/// The tiles of a road dragged from `anchor` to `curr`: first along x,
/// then along y, both ends included.
pub fn road_preview_path(anchor: Pos, curr: Pos) -> (r: Vec<Pos>)
    ensures
        r@ == road_preview(anchor, curr),
{
    let mut out: Vec<Pos> = Vec::new();
    let mut x = anchor.x;
    let mut y = anchor.y;
    let sx: i32 = if curr.x > anchor.x {
        1
    } else if curr.x < anchor.x {
        -1
    } else {
        0
    };
    let sy: i32 = if curr.y > anchor.y {
        1
    } else if curr.y < anchor.y {
        -1
    } else {
        0
    };
    let ghost nx = abs_int(curr.x - anchor.x);
    let ghost ny = abs_int(curr.y - anchor.y);
    let ghost target = road_preview(anchor, curr);
    let ghost mut k: int = 0;
    out.push(Pos { x, y });
    proof {
        assert(target.len() == nx + ny + 1);
        assert(target[0] == preview_tile(anchor, curr, 0));
        assert(out@ =~= target.take(1));
    }
    while x != curr.x
        invariant
            nx == abs_int(curr.x - anchor.x),
            ny == abs_int(curr.y - anchor.y),
            target == road_preview(anchor, curr),
            target.len() == nx + ny + 1,
            sx == (if curr.x > anchor.x {
                1int
            } else if curr.x < anchor.x {
                -1int
            } else {
                0
            }),
            y == anchor.y,
            0 <= k <= nx,
            curr.x > anchor.x ==> x == anchor.x + k,
            curr.x <= anchor.x ==> x == anchor.x - k,
            out@ == target.take(k + 1),
        decreases nx - k,
    {
        x = x + sx;
        out.push(Pos { x, y });
        proof {
            k = k + 1;
            assert(target[k] == preview_tile(anchor, curr, k));
            assert(target[k] == Pos { x, y });
            assert(out@ =~= target.take(k + 1));
        }
    }
    assert(k == nx);
    while y != curr.y
        invariant
            nx == abs_int(curr.x - anchor.x),
            ny == abs_int(curr.y - anchor.y),
            target == road_preview(anchor, curr),
            target.len() == nx + ny + 1,
            sy == (if curr.y > anchor.y {
                1int
            } else if curr.y < anchor.y {
                -1int
            } else {
                0
            }),
            x == curr.x,
            nx <= k <= nx + ny,
            curr.y > anchor.y ==> y == anchor.y + (k - nx),
            curr.y <= anchor.y ==> y == anchor.y - (k - nx),
            out@ == target.take(k + 1),
        decreases nx + ny - k,
    {
        y = y + sy;
        out.push(Pos { x, y });
        proof {
            k = k + 1;
            assert(target[k] == preview_tile(anchor, curr, k));
            assert(target[k] == Pos { x, y });
            assert(out@ =~= target.take(k + 1));
        }
    }
    assert(k == nx + ny);
    assert(out@ =~= target);
    out
}

/// A dragged road is a connected path: it starts at the anchor, ends at the
/// cursor, and each tile is a side neighbour of the one before; it covers
/// exactly as many tiles as the two ends are apart, plus one.
pub proof fn lemma_road_preview_connected(a: Pos, b: Pos)
    ensures
        road_preview(a, b).len() == manhattan(a, b) + 1,
        road_preview(a, b)[0] == a,
        road_preview(a, b).last() == b,
        forall|k: int|
            0 <= k < road_preview(a, b).len() - 1 ==> manhattan(
                #[trigger] road_preview(a, b)[k],
                road_preview(a, b)[k + 1],
            ) == 1,
{
    let r = road_preview(a, b);
    let nx = abs_int(b.x - a.x);
    let ny = abs_int(b.y - a.y);
    assert(r[0] == preview_tile(a, b, 0));
    assert(r[r.len() - 1] == preview_tile(a, b, nx + ny));
    assert forall|k: int| 0 <= k < r.len() - 1 implies manhattan(#[trigger] r[k], r[k + 1]) == 1 by {
        assert(r[k] == preview_tile(a, b, k));
        assert(r[k + 1] == preview_tile(a, b, k + 1));
    }
}

/// Pressing the mouse on tile `t` in road mode starts a drag: it will lay
/// road when `t` has none and take roads up otherwise; the preview holds
/// `t` alone.
pub fn start_road_drag(
    world: &World,
    t: Pos,
    drag_road_state: &mut Option<bool>,
    drag_anchor_tile: &mut Option<Pos>,
    preview_road_path: &mut Vec<Pos>,
)
    ensures
        *final(drag_road_state) == Some(!world.road_at(t)),
        *final(drag_anchor_tile) == Some(t),
        final(preview_road_path)@ == seq![t],
{
    *drag_road_state = Some(!world.is_road(t));
    *drag_anchor_tile = Some(t);
    preview_road_path.clear();
    preview_road_path.push(t);
}

/// The mouse moved onto `hovered` while dragging in road mode: a drag with
/// no anchor yet is anchored there (and, with no road state yet, lays road
/// when the tile has none); with an anchor and a tile under the mouse the
/// preview becomes the road from the anchor to that tile. Outside a road
/// drag nothing changes.
pub fn update_road_drag(
    world: &World,
    left_mouse_down: bool,
    road_mode: bool,
    hovered: Option<Pos>,
    drag_road_state: &mut Option<bool>,
    drag_anchor_tile: &mut Option<Pos>,
    preview_road_path: &mut Vec<Pos>,
)
    ensures
        !(left_mouse_down && road_mode) ==> *final(drag_road_state) == *old(drag_road_state),
        !(left_mouse_down && road_mode) ==> *final(drag_anchor_tile) == *old(drag_anchor_tile),
        !(left_mouse_down && road_mode) ==> final(preview_road_path)@ == old(preview_road_path)@,
        left_mouse_down && road_mode ==> {
            let anchor = match *old(drag_anchor_tile) {
                Some(a) => Some(a),
                None => hovered,
            };
            &&& *final(drag_anchor_tile) == anchor
            &&& *final(drag_road_state) == match (*old(drag_anchor_tile), hovered, *old(drag_road_state)) {
                (None, Some(c), None) => Some(!world.road_at(c)),
                _ => *old(drag_road_state),
            }
            &&& final(preview_road_path)@ == match (anchor, hovered) {
                (Some(a), Some(c)) => road_preview(a, c),
                _ => old(preview_road_path)@,
            }
        },
{
    if !(left_mouse_down && road_mode) {
        return ;
    }
    if drag_anchor_tile.is_none() {
        if let Some(curr) = hovered {
            if drag_road_state.is_none() {
                *drag_road_state = Some(!world.is_road(curr));
            }
            *drag_anchor_tile = Some(curr);
        }
    }
    if let (Some(a), Some(c)) = (*drag_anchor_tile, hovered) {
        *preview_road_path = road_preview_path(a, c);
    }
}

/// Releasing the mouse: in road mode, with a drag under way, every tile of
/// the preview gets the road state the drag began with; the drag and its
/// preview are then forgotten.
pub fn finish_road_drag(
    world: &mut World,
    road_mode: bool,
    drag_road_state: &mut Option<bool>,
    drag_anchor_tile: &mut Option<Pos>,
    preview_road_path: &mut Vec<Pos>,
)
    ensures
        final(world).tiles == old(world).tiles,
        final(world).biomes == old(world).biomes,
        final(world).trees == old(world).trees,
        final(world).occupied == old(world).occupied,
        forall|q: Pos| #[trigger] final(world).road_at(q) == match *old(drag_road_state) {
            Some(on) => if road_mode && old(preview_road_path)@.contains(q) {
                on
            } else {
                old(world).road_at(q)
            },
            None => old(world).road_at(q),
        },
        (*final(drag_road_state)) is None,
        (*final(drag_anchor_tile)) is None,
        final(preview_road_path)@.len() == 0,
{
    if road_mode {
        if let Some(on) = *drag_road_state {
            let ghost w0 = *world;
            let mut i: usize = 0;
            while i < preview_road_path.len()
                invariant
                    i <= preview_road_path.len(),
                    world.tiles == w0.tiles,
                    world.biomes == w0.biomes,
                    world.trees == w0.trees,
                    world.occupied == w0.occupied,
                    forall|q: Pos| #[trigger] world.road_at(q) == if preview_road_path@.take(i as int).contains(q) {
                        on
                    } else {
                        w0.road_at(q)
                    },
                decreases preview_road_path.len() - i,
            {
                let p = preview_road_path[i];
                world.set_road(p, on);
                proof {
                    assert forall|q: Pos| #[trigger] world.road_at(q) == if preview_road_path@.take(i + 1).contains(q) {
                        on
                    } else {
                        w0.road_at(q)
                    } by {
                        let before = preview_road_path@.take(i as int);
                        let after = preview_road_path@.take(i + 1);
                        assert(after == before.push(p));
                        if before.contains(q) {
                            let k = choose|k: int| 0 <= k < before.len() && before[k] == q;
                            assert(after[k] == q);
                        }
                        if after.contains(q) && q != p {
                            let k = choose|k: int| 0 <= k < after.len() && after[k] == q;
                            assert(k < before.len());
                            assert(before[k] == q);
                        }
                        if q == p {
                            assert(after[i as int] == p);
                        }
                    }
                }
                i += 1;
            }
            assert(preview_road_path@.take(preview_road_path.len() as int) =~= preview_road_path@);
        }
    }
    *drag_road_state = None;
    *drag_anchor_tile = None;
    preview_road_path.clear();
}

/// A click on tile `t` of the map: on a building it opens that building's
/// panel, or closes it when it is the one open, and the click is used up
/// (true); elsewhere nothing changes (false).
pub fn click_building(buildings: &Vec<Building>, t: Pos, active_building_panel: &mut Option<Pos>) -> (r: bool)
    ensures
        r == (building_kind_at(buildings@, t, 0) is Some),
        r ==> *final(active_building_panel) == if *old(active_building_panel) == Some(t) {
            None
        } else {
            Some(t)
        },
        !r ==> *final(active_building_panel) == *old(active_building_panel),
{
    if first_building_kind(buildings, t).is_some() {
        *active_building_panel = match *active_building_panel {
            Some(cur) => if cur == t {
                None
            } else {
                Some(t)
            },
            None => Some(t),
        };
        true
    } else {
        false
    }
}

// ---------------------------------------------------------------- path probe

/// The probe's ends after a click on `t`: the first click sets the start,
/// the second the goal, a third starts over from `t`.
pub open spec fn probe_after(a: Option<Pos>, b: Option<Pos>, t: Pos) -> (Option<Pos>, Option<Pos>) {
    match (a, b) {
        (None, _) => (Some(t), b),
        (Some(x), None) => (Some(x), Some(t)),
        (Some(_), Some(_)) => (Some(t), None),
    }
}

/// A result of the path search between `a` and `b` with a budget of 20 000
/// expansions, as its contract describes it.
pub open spec fn searched(w: World, r: Option<Vec<Pos>>, a: Pos, b: Pos) -> bool {
    search_outcome(w, a, b, 20_000, path_view(r))
}

/// A click on tile `t` in path-probe mode: move the probe's ends; with both
/// set, search a path between them (up to 20 000 expansions); a click that
/// sets the start or starts over forgets the old path.
pub fn path_probe_click(
    world: &World,
    t: Pos,
    path_sel_a: &mut Option<Pos>,
    path_sel_b: &mut Option<Pos>,
    last_path: &mut Option<Vec<Pos>>,
)
    ensures
        (*final(path_sel_a), *final(path_sel_b)) == probe_after(*old(path_sel_a), *old(path_sel_b), t),
        match (*final(path_sel_a), *final(path_sel_b)) {
            (Some(a), Some(b)) => searched(*world, *final(last_path), a, b),
            _ => (*final(last_path)) is None,
        },
{
    match (*path_sel_a, *path_sel_b) {
        (None, _) => {
            *path_sel_a = Some(t);
            *last_path = None;
        },
        (Some(_), None) => {
            *path_sel_b = Some(t);
        },
        (Some(_), Some(_)) => {
            *path_sel_a = Some(t);
            *path_sel_b = None;
            *last_path = None;
        },
    }
    if let (Some(a), Some(b)) = (*path_sel_a, *path_sel_b) {
        *last_path = astar(world, a, b, 20_000);
    }
}

} // verus!
