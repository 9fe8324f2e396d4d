//! The minimap, in two layouts. The widget layout shows a fixed square of
//! the map around the visible area, cell by cell inside a widget rectangle:
//! terrain first, column by column, then the roads, then the buildings, so
//! that later marks are drawn over earlier ones. The grid layout fills one
//! square per tile of a given range, row by row, with roads and buildings
//! over the terrain, and frames the tiles the camera sees.

use vstd::prelude::*;
use crate::types::{Pos, Building, BuildingKind, TileKind, BiomeKind};
use crate::world::World;
use crate::palette::{building_color, building_rgba};

verus! {

/// How many tiles the minimap reaches from its centre in each direction.
pub const MINIMAP_RADIUS: i32 = 30;

/// The widget: its top-left corner, its size in pixels and the size of one
/// cell.
#[derive(Clone, Copy, Debug, PartialEq, Eq, Structural)]
pub struct MinimapRect {
    pub x: i32,
    pub y: i32,
    pub w: i32,
    pub h: i32,
    pub cell: i32,
}

/// One square to draw, at its pixel position inside the widget.
#[derive(Clone, Copy, Debug, PartialEq, Eq, Structural)]
pub enum MinimapMark {
    Tile { x: i32, y: i32, tile: TileKind, biome: BiomeKind },
    Road { x: i32, y: i32 },
    Building { x: i32, y: i32, kind: BuildingKind },
}

/// The square of tiles the minimap shows.
#[derive(Clone, Copy, Debug, PartialEq, Eq, Structural)]
pub struct MinimapWindow {
    pub min_tx: i32,
    pub min_ty: i32,
    pub max_tx: i32,
    pub max_ty: i32,
}

/// Which marks a pass over the window lays down.
#[derive(Clone, Copy, Debug, PartialEq, Eq, Structural)]
pub enum MinimapLayer {
    Terrain,
    Roads,
}

/// Half of `s`, rounded toward zero as integer division does.
pub open spec fn half_toward_zero(s: int) -> int {
    if s >= 0 {
        s / 2
    } else {
        -((-s) / 2)
    }
}

/// The centre tile, along one axis, of the visible range `lo ..= hi`.
pub open spec fn window_centre(lo: int, hi: int) -> int {
    half_toward_zero(lo + hi + 30)
}

/// Along one axis the centre and both ends of the window are `i32` values.
pub open spec fn axis_fits(lo: int, hi: int) -> bool {
    &&& i32::MIN <= lo + hi <= i32::MAX
    &&& i32::MIN <= lo + hi + 30 <= i32::MAX
    &&& i32::MIN <= window_centre(lo, hi) - MINIMAP_RADIUS
    &&& window_centre(lo, hi) + MINIMAP_RADIUS <= i32::MAX
}

/// The window around the visible tiles `vmin ..= vmax`.
pub open spec fn window_of(vmin_tx: int, vmin_ty: int, vmax_tx: int, vmax_ty: int) -> MinimapWindow {
    MinimapWindow {
        min_tx: (window_centre(vmin_tx, vmax_tx) - MINIMAP_RADIUS) as i32,
        min_ty: (window_centre(vmin_ty, vmax_ty) - MINIMAP_RADIUS) as i32,
        max_tx: (window_centre(vmin_tx, vmax_tx) + MINIMAP_RADIUS) as i32,
        max_ty: (window_centre(vmin_ty, vmax_ty) + MINIMAP_RADIUS) as i32,
    }
}

/// Every pixel position the widget computes is an `i32` value: the offset
/// of the farthest cell, its position, and the far edge of the widget.
pub open spec fn rect_fits(r: MinimapRect) -> bool {
    &&& i32::MIN <= 60 * r.cell <= i32::MAX
    &&& i32::MIN <= r.x + 60 * r.cell <= i32::MAX
    &&& i32::MIN <= r.y + 60 * r.cell <= i32::MAX
    &&& i32::MIN <= r.x + r.w <= i32::MAX
    &&& i32::MIN <= r.y + r.h <= i32::MAX
}

/// The pixel position of the cell `k` columns and `l` rows into the window,
/// when it lies inside the widget.
pub open spec fn cell_at(r: MinimapRect, k: int, l: int) -> Option<(i32, i32)> {
    let x = r.x + k * r.cell;
    let y = r.y + l * r.cell;
    if r.x <= x < r.x + r.w && r.y <= y < r.y + r.h {
        Some((x as i32, y as i32))
    } else {
        None
    }
}

/// What one pass lays down for the tile `(tx, ty)` of the window.
pub open spec fn layer_mark(w: World, r: MinimapRect, win: MinimapWindow, layer: MinimapLayer, tx: int, ty: int) -> Seq<
    MinimapMark,
> {
    let p = Pos { x: tx as i32, y: ty as i32 };
    match cell_at(r, tx - win.min_tx, ty - win.min_ty) {
        Some((x, y)) => match layer {
            MinimapLayer::Terrain => seq![MinimapMark::Tile { x, y, tile: w.tile_at(p), biome: w.biome_at(p) }],
            MinimapLayer::Roads => if w.road_at(p) {
                seq![MinimapMark::Road { x, y }]
            } else {
                seq![]
            },
        },
        None => seq![],
    }
}

/// The first `n` tiles of column `tx`, north to south.
pub open spec fn column_marks(w: World, r: MinimapRect, win: MinimapWindow, layer: MinimapLayer, tx: int, n: int) -> Seq<
    MinimapMark,
>
    decreases n,
{
    if n <= 0 {
        seq![]
    } else {
        column_marks(w, r, win, layer, tx, n - 1) + layer_mark(w, r, win, layer, tx, win.min_ty + n - 1)
    }
}

/// The first `n` columns of the window, west to east.
pub open spec fn layer_marks(w: World, r: MinimapRect, win: MinimapWindow, layer: MinimapLayer, n: int) -> Seq<
    MinimapMark,
>
    decreases n,
{
    if n <= 0 {
        seq![]
    } else {
        layer_marks(w, r, win, layer, n - 1) + column_marks(
            w,
            r,
            win,
            layer,
            win.min_tx + n - 1,
            win.max_ty - win.min_ty + 1,
        )
    }
}

/// The mark of a building, when it stands in the window and its cell lies
/// inside the widget.
pub open spec fn building_mark(r: MinimapRect, win: MinimapWindow, b: Building) -> Seq<MinimapMark> {
    if win.min_tx <= b.pos.x <= win.max_tx && win.min_ty <= b.pos.y <= win.max_ty {
        match cell_at(r, b.pos.x - win.min_tx, b.pos.y - win.min_ty) {
            Some((x, y)) => seq![MinimapMark::Building { x, y, kind: b.kind }],
            None => seq![],
        }
    } else {
        seq![]
    }
}

/// The marks of the first `n` buildings, in their order.
pub open spec fn building_marks(r: MinimapRect, win: MinimapWindow, bs: Seq<Building>, n: int) -> Seq<MinimapMark>
    decreases n,
{
    if n <= 0 {
        seq![]
    } else {
        building_marks(r, win, bs, n - 1) + building_mark(r, win, bs[n - 1])
    }
}

/// Everything the minimap draws, in drawing order.
pub open spec fn minimap_of(w: World, bs: Seq<Building>, r: MinimapRect, win: MinimapWindow) -> Seq<MinimapMark> {
    layer_marks(w, r, win, MinimapLayer::Terrain, win.max_tx - win.min_tx + 1) + layer_marks(
        w,
        r,
        win,
        MinimapLayer::Roads,
        win.max_tx - win.min_tx + 1,
    ) + building_marks(r, win, bs, bs.len() as int)
}

/// The part of the widget covered by the visible tiles, as a rectangle of
/// pixels clipped to the widget.
#[derive(Clone, Copy, Debug, PartialEq, Eq, Structural)]
pub struct MinimapFrame {
    pub min_x: i32,
    pub min_y: i32,
    pub max_x: i32,
    pub max_y: i32,
}

/// The pixel coordinate of tile `t` along an axis whose window starts at
/// `min_t`.
pub open spec fn map_coord(origin: int, cell: int, t: int, min_t: int) -> int {
    origin + (t - min_t) * cell
}

/// The offset, the product and the coordinate are `i32` values.
pub open spec fn coord_fits(origin: int, cell: int, t: int, min_t: int) -> bool {
    &&& i32::MIN <= t - min_t <= i32::MAX
    &&& i32::MIN <= (t - min_t) * cell <= i32::MAX
    &&& i32::MIN <= map_coord(origin, cell, t, min_t) <= i32::MAX
}

/// Every coordinate of the visible frame is an `i32` value.
pub open spec fn frame_fits(r: MinimapRect, win: MinimapWindow, vmin_tx: int, vmin_ty: int, vmax_tx: int, vmax_ty: int) -> bool {
    &&& coord_fits(r.x as int, r.cell as int, vmin_tx, win.min_tx as int)
    &&& coord_fits(r.x as int, r.cell as int, vmax_tx, win.min_tx as int)
    &&& coord_fits(r.y as int, r.cell as int, vmin_ty, win.min_ty as int)
    &&& coord_fits(r.y as int, r.cell as int, vmax_ty, win.min_ty as int)
    &&& i32::MIN <= r.x + r.w <= i32::MAX
    &&& i32::MIN <= r.y + r.h <= i32::MAX
}

pub open spec fn max_int(a: int, b: int) -> int {
    if a >= b { a } else { b }
}

pub open spec fn min_int(a: int, b: int) -> int {
    if a <= b { a } else { b }
}

/// The frame of the visible tiles `vmin ..= vmax` on the widget, when some
/// of it falls inside the widget, clipped to the widget's edges.
pub open spec fn view_frame(r: MinimapRect, win: MinimapWindow, vmin_tx: int, vmin_ty: int, vmax_tx: int, vmax_ty: int) -> Option<
    MinimapFrame,
> {
    let x0 = map_coord(r.x as int, r.cell as int, vmin_tx, win.min_tx as int);
    let y0 = map_coord(r.y as int, r.cell as int, vmin_ty, win.min_ty as int);
    let x1 = map_coord(r.x as int, r.cell as int, vmax_tx, win.min_tx as int);
    let y1 = map_coord(r.y as int, r.cell as int, vmax_ty, win.min_ty as int);
    if x1 > r.x && x0 < r.x + r.w && y1 > r.y && y0 < r.y + r.h {
        Some(
            MinimapFrame {
                min_x: max_int(x0, r.x as int) as i32,
                min_y: max_int(y0, r.y as int) as i32,
                max_x: min_int(x1, r.x + r.w) as i32,
                max_y: min_int(y1, r.y + r.h) as i32,
            },
        )
    } else {
        None
    }
}

fn map_coord_exec(origin: i32, cell: i32, t: i32, min_t: i32) -> (c: i32)
    requires
        coord_fits(origin as int, cell as int, t as int, min_t as int),
    ensures
        c == map_coord(origin as int, cell as int, t as int, min_t as int),
{
    let d: i128 = t as i128 - min_t as i128;
    let v: i128 = origin as i128 + d * (cell as i128);
    v as i32
}

/// Where the visible tiles `vmin ..= vmax` lie on the widget: the rectangle
/// from the cell of the first visible tile to that of the last, clipped to
/// the widget; `None` when it misses the widget.
pub fn minimap_view_frame(
    r: &MinimapRect,
    win: &MinimapWindow,
    vmin_tx: i32,
    vmin_ty: i32,
    vmax_tx: i32,
    vmax_ty: i32,
) -> (f: Option<MinimapFrame>)
    requires
        frame_fits(*r, *win, vmin_tx as int, vmin_ty as int, vmax_tx as int, vmax_ty as int),
    ensures
        f == view_frame(*r, *win, vmin_tx as int, vmin_ty as int, vmax_tx as int, vmax_ty as int),
{
    let x0 = map_coord_exec(r.x, r.cell, vmin_tx, win.min_tx);
    let y0 = map_coord_exec(r.y, r.cell, vmin_ty, win.min_ty);
    let x1 = map_coord_exec(r.x, r.cell, vmax_tx, win.min_tx);
    let y1 = map_coord_exec(r.y, r.cell, vmax_ty, win.min_ty);
    let right = r.x + r.w;
    let bottom = r.y + r.h;
    if x1 > r.x && x0 < right && y1 > r.y && y0 < bottom {
        Some(
            MinimapFrame {
                min_x: if x0 >= r.x { x0 } else { r.x },
                min_y: if y0 >= r.y { y0 } else { r.y },
                max_x: if x1 <= right { x1 } else { right },
                max_y: if y1 <= bottom { y1 } else { bottom },
            },
        )
    } else {
        None
    }
}

/// The mark's position lies inside the widget.
pub open spec fn mark_inside(r: MinimapRect, m: MinimapMark) -> bool {
    let (x, y) = match m {
        MinimapMark::Tile { x, y, .. } => (x, y),
        MinimapMark::Road { x, y } => (x, y),
        MinimapMark::Building { x, y, .. } => (x, y),
    };
    r.x <= x < r.x + r.w && r.y <= y < r.y + r.h
}

pub open spec fn all_inside(r: MinimapRect, s: Seq<MinimapMark>) -> bool {
    forall|i: int| 0 <= i < s.len() ==> #[trigger] mark_inside(r, s[i])
}

proof fn lemma_concat_inside(r: MinimapRect, a: Seq<MinimapMark>, b: Seq<MinimapMark>)
    requires
        all_inside(r, a),
        all_inside(r, b),
    ensures
        all_inside(r, a + b),
{
    assert forall|i: int| 0 <= i < (a + b).len() implies #[trigger] mark_inside(r, (a + b)[i]) by {
        if i < a.len() {
            assert((a + b)[i] == a[i]);
        } else {
            assert((a + b)[i] == b[i - a.len()]);
        }
    }
}

proof fn lemma_cell_inside(r: MinimapRect, k: int, l: int)
    requires
        rect_fits(r),
        0 <= k <= 60,
        0 <= l <= 60,
    ensures
        match cell_at(r, k, l) {
            Some((x, y)) => r.x <= x < r.x + r.w && r.y <= y < r.y + r.h,
            None => true,
        },
{
    lemma_offset_between(k, r.cell as int);
    lemma_offset_between(l, r.cell as int);
}

proof fn lemma_column_inside(w: World, r: MinimapRect, win: MinimapWindow, layer: MinimapLayer, tx: int, n: int)
    requires
        rect_fits(r),
        0 <= tx - win.min_tx <= 60,
        n <= 61,
    ensures
        all_inside(r, column_marks(w, r, win, layer, tx, n)),
    decreases n,
{
    if n > 0 {
        lemma_column_inside(w, r, win, layer, tx, n - 1);
        lemma_cell_inside(r, tx - win.min_tx, n - 1);
        lemma_concat_inside(
            r,
            column_marks(w, r, win, layer, tx, n - 1),
            layer_mark(w, r, win, layer, tx, win.min_ty + n - 1),
        );
    }
}

proof fn lemma_layer_inside(w: World, r: MinimapRect, win: MinimapWindow, layer: MinimapLayer, n: int)
    requires
        rect_fits(r),
        win.max_ty - win.min_ty == 60,
        n <= 61,
    ensures
        all_inside(r, layer_marks(w, r, win, layer, n)),
    decreases n,
{
    if n > 0 {
        lemma_layer_inside(w, r, win, layer, n - 1);
        lemma_column_inside(w, r, win, layer, win.min_tx + n - 1, 61);
        lemma_concat_inside(
            r,
            layer_marks(w, r, win, layer, n - 1),
            column_marks(w, r, win, layer, win.min_tx + n - 1, 61),
        );
    }
}

proof fn lemma_buildings_inside(r: MinimapRect, win: MinimapWindow, bs: Seq<Building>, n: int)
    requires
        rect_fits(r),
        win.max_tx - win.min_tx == 60,
        win.max_ty - win.min_ty == 60,
        n <= bs.len(),
    ensures
        all_inside(r, building_marks(r, win, bs, n)),
    decreases n,
{
    if n > 0 {
        lemma_buildings_inside(r, win, bs, n - 1);
        let b = bs[n - 1];
        if win.min_tx <= b.pos.x <= win.max_tx && win.min_ty <= b.pos.y <= win.max_ty {
            lemma_cell_inside(r, b.pos.x - win.min_tx, b.pos.y - win.min_ty);
        }
        lemma_concat_inside(r, building_marks(r, win, bs, n - 1), building_mark(r, win, b));
    }
}

/// Every mark the minimap draws lies inside the widget, whatever the map,
/// the buildings and the visible area.
pub proof fn lemma_minimap_stays_inside(
    w: World,
    bs: Seq<Building>,
    r: MinimapRect,
    vmin_tx: int,
    vmin_ty: int,
    vmax_tx: int,
    vmax_ty: int,
)
    requires
        axis_fits(vmin_tx, vmax_tx),
        axis_fits(vmin_ty, vmax_ty),
        rect_fits(r),
    ensures
        all_inside(r, minimap_of(w, bs, r, window_of(vmin_tx, vmin_ty, vmax_tx, vmax_ty))),
{
    let win = window_of(vmin_tx, vmin_ty, vmax_tx, vmax_ty);
    lemma_layer_inside(w, r, win, MinimapLayer::Terrain, 61);
    lemma_layer_inside(w, r, win, MinimapLayer::Roads, 61);
    lemma_buildings_inside(r, win, bs, bs.len() as int);
    let t = layer_marks(w, r, win, MinimapLayer::Terrain, 61);
    let rd = layer_marks(w, r, win, MinimapLayer::Roads, 61);
    lemma_concat_inside(r, t, rd);
    lemma_concat_inside(r, t + rd, building_marks(r, win, bs, bs.len() as int));
}

fn half_toward_zero_exec(s: i64) -> (h: i64)
    requires
        i32::MIN <= s <= i32::MAX,
    ensures
        h == half_toward_zero(s as int),
{
    if s >= 0 {
        s / 2
    } else {
        -((-s) / 2)
    }
}

/// The square of tiles around the visible range `vmin ..= vmax`: its centre
/// is the middle of that range shifted by fifteen tiles, and it reaches
/// `MINIMAP_RADIUS` tiles from the centre each way.
pub fn minimap_window(vmin_tx: i32, vmin_ty: i32, vmax_tx: i32, vmax_ty: i32) -> (win: MinimapWindow)
    requires
        axis_fits(vmin_tx as int, vmax_tx as int),
        axis_fits(vmin_ty as int, vmax_ty as int),
    ensures
        win == window_of(vmin_tx as int, vmin_ty as int, vmax_tx as int, vmax_ty as int),
        win.max_tx - win.min_tx == 2 * MINIMAP_RADIUS,
        win.max_ty - win.min_ty == 2 * MINIMAP_RADIUS,
{
    let cx = half_toward_zero_exec(vmin_tx as i64 + vmax_tx as i64 + 30);
    let cy = half_toward_zero_exec(vmin_ty as i64 + vmax_ty as i64 + 30);
    MinimapWindow {
        min_tx: (cx - 30) as i32,
        min_ty: (cy - 30) as i32,
        max_tx: (cx + 30) as i32,
        max_ty: (cy + 30) as i32,
    }
}

proof fn lemma_offset_between(k: int, c: int)
    requires
        0 <= k <= 60,
    ensures
        c >= 0 ==> 0 <= k * c <= 60 * c,
        c < 0 ==> 60 * c <= k * c <= 0,
{
    if c >= 0 {
        assert(0 <= k * c <= 60 * c) by (nonlinear_arith)
            requires
                0 <= k <= 60,
                c >= 0,
        ;
    } else {
        assert(60 * c <= k * c <= 0) by (nonlinear_arith)
            requires
                0 <= k <= 60,
                c < 0,
        ;
    }
}

/// The pixel position of the cell `k` columns and `l` rows into the window,
/// when it lies inside the widget.
pub fn minimap_cell(r: &MinimapRect, k: i32, l: i32) -> (c: Option<(i32, i32)>)
    requires
        rect_fits(*r),
        0 <= k <= 60,
        0 <= l <= 60,
    ensures
        c == cell_at(*r, k as int, l as int),
{
    proof {
        lemma_offset_between(k as int, r.cell as int);
        lemma_offset_between(l as int, r.cell as int);
    }
    let x: i64 = r.x as i64 + (k as i64) * (r.cell as i64);
    let y: i64 = r.y as i64 + (l as i64) * (r.cell as i64);
    if r.x as i64 <= x && x < r.x as i64 + r.w as i64 && r.y as i64 <= y && y < r.y as i64 + r.h as i64 {
        Some((x as i32, y as i32))
    } else {
        None
    }
}

fn push_layer_mark(
    out: &mut Vec<MinimapMark>,
    world: &World,
    r: &MinimapRect,
    win: &MinimapWindow,
    layer: MinimapLayer,
    tx: i32,
    ty: i32,
)
    requires
        rect_fits(*r),
        0 <= tx - win.min_tx <= 60,
        0 <= ty - win.min_ty <= 60,
    ensures
        final(out)@ == old(out)@ + layer_mark(*world, *r, *win, layer, tx as int, ty as int),
{
    let p = Pos { x: tx, y: ty };
    match minimap_cell(r, tx - win.min_tx, ty - win.min_ty) {
        Some((x, y)) => match layer {
            MinimapLayer::Terrain => {
                let tile = world.get_tile(tx, ty);
                let biome = world.biome(p);
                out.push(MinimapMark::Tile { x, y, tile, biome });
            },
            MinimapLayer::Roads => {
                if world.is_road(p) {
                    out.push(MinimapMark::Road { x, y });
                }
            },
        },
        None => {},
    }
    assert(out@ =~= old(out)@ + layer_mark(*world, *r, *win, layer, tx as int, ty as int));
}

fn push_layer(out: &mut Vec<MinimapMark>, world: &World, r: &MinimapRect, win: &MinimapWindow, layer: MinimapLayer)
    requires
        rect_fits(*r),
        win.max_tx - win.min_tx == 60,
        win.max_ty - win.min_ty == 60,
    ensures
        final(out)@ == old(out)@ + layer_marks(*world, *r, *win, layer, 61),
{
    let ghost start = out@;
    let mut k: i32 = 0;
    while k <= 60
        invariant
            rect_fits(*r),
            win.max_tx - win.min_tx == 60,
            win.max_ty - win.min_ty == 60,
            0 <= k <= 61,
            out@ == start + layer_marks(*world, *r, *win, layer, k as int),
        decreases 61 - k,
    {
        let tx = win.min_tx + k;
        let ghost before = out@;
        let mut l: i32 = 0;
        while l <= 60
            invariant
                rect_fits(*r),
                win.max_tx - win.min_tx == 60,
                win.max_ty - win.min_ty == 60,
                0 <= k <= 60,
                tx == win.min_tx + k,
                0 <= l <= 61,
                out@ == before + column_marks(*world, *r, *win, layer, tx as int, l as int),
            decreases 61 - l,
        {
            push_layer_mark(out, world, r, win, layer, tx, win.min_ty + l);
            assert(out@ =~= before + column_marks(*world, *r, *win, layer, tx as int, l + 1));
            l += 1;
        }
        assert(out@ =~= start + layer_marks(*world, *r, *win, layer, k + 1));
        k += 1;
    }
}

/// Everything the minimap draws for the visible tiles `vmin ..= vmax`, in
/// drawing order: the terrain of the window (column by column, each from
/// north to south) with its biome, then the road tiles in the same order,
/// then the buildings in their order; each at the pixel position of its
/// cell, and only where that cell lies inside the widget.
pub fn minimap_marks(
    world: &World,
    buildings: &Vec<Building>,
    r: &MinimapRect,
    vmin_tx: i32,
    vmin_ty: i32,
    vmax_tx: i32,
    vmax_ty: i32,
) -> (marks: Vec<MinimapMark>)
    requires
        axis_fits(vmin_tx as int, vmax_tx as int),
        axis_fits(vmin_ty as int, vmax_ty as int),
        rect_fits(*r),
    ensures
        marks@ == minimap_of(
            *world,
            buildings@,
            *r,
            window_of(vmin_tx as int, vmin_ty as int, vmax_tx as int, vmax_ty as int),
        ),
{
    let win = minimap_window(vmin_tx, vmin_ty, vmax_tx, vmax_ty);
    let mut out: Vec<MinimapMark> = Vec::new();
    push_layer(&mut out, world, r, &win, MinimapLayer::Terrain);
    push_layer(&mut out, world, r, &win, MinimapLayer::Roads);
    let ghost layers = out@;
    let mut i: usize = 0;
    while i < buildings.len()
        invariant
            rect_fits(*r),
            win.max_tx - win.min_tx == 60,
            win.max_ty - win.min_ty == 60,
            i <= buildings.len(),
            out@ == layers + building_marks(*r, win, buildings@, i as int),
        decreases buildings.len() - i,
    {
        let b = buildings[i];
        let ghost before = out@;
        if win.min_tx <= b.pos.x && b.pos.x <= win.max_tx && win.min_ty <= b.pos.y && b.pos.y <= win.max_ty {
            match minimap_cell(r, b.pos.x - win.min_tx, b.pos.y - win.min_ty) {
                Some((x, y)) => {
                    out.push(MinimapMark::Building { x, y, kind: b.kind });
                },
                None => {},
            }
        }
        assert(buildings@[i as int] == b);
        assert(out@ =~= layers + building_marks(*r, win, buildings@, i + 1));
        i += 1;
    }
    out
}

// ------------------------------------------------------------ grid layout

/// A square the grid layout fills: its top-left pixel, its side and its
/// colour.
#[derive(Clone, Copy, Debug)]
pub struct MinimapSquare {
    pub x: i32,
    pub y: i32,
    pub size: i32,
    pub color: [u8; 4],
}

/// The colour of a terrain tile on the grid layout.
pub open spec fn grid_tile_rgba(k: TileKind) -> [u8; 4] {
    match k {
        TileKind::Grass => [100u8, 170u8, 90u8, 255u8],
        TileKind::Forest => [60u8, 130u8, 80u8, 255u8],
        TileKind::Water => [70u8, 130u8, 220u8, 255u8],
    }
}

/// The colour of a road on the grid layout.
pub open spec fn grid_road_rgba() -> [u8; 4] {
    [210u8, 180u8, 120u8, 255u8]
}

/// A channel made brighter by 40, up to 255.
pub open spec fn brighter(v: u8) -> u8 {
    if v + 40 > 255 {
        255u8
    } else {
        (v + 40) as u8
    }
}

/// A building's colour, brighter and opaque, as the grid layout shows it.
pub open spec fn grid_building_rgba(kind: BuildingKind) -> [u8; 4] {
    let c = building_rgba(kind);
    [brighter(c[0]), brighter(c[1]), brighter(c[2]), 255u8]
}

/// Along one axis of the tile range `lo ..= hi`, laid out from pixel
/// `origin` with cells of `cell` pixels, every value the layout computes is
/// an `i32`: the span and its size in pixels, and the offset and position
/// of the farthest cell.
pub open spec fn grid_fits(lo: int, hi: int, origin: int, cell: int) -> bool {
    &&& i32::MIN <= hi - lo <= i32::MAX
    &&& i32::MIN <= hi - lo + 1 <= i32::MAX
    &&& i32::MIN <= max_int(hi - lo + 1, 1) * cell <= i32::MAX
    &&& lo <= hi ==> i32::MIN <= (hi - lo) * cell <= i32::MAX && i32::MIN <= origin + (hi - lo) * cell <= i32::MAX
}

/// The squares of tile `(tx, ty)`: its terrain, then its road, if any.
pub open spec fn grid_tile_squares(w: World, lo_x: int, lo_y: int, x: int, y: int, cell: int, tx: int, ty: int) -> Seq<
    MinimapSquare,
> {
    let p = Pos { x: tx as i32, y: ty as i32 };
    let px = (x + (tx - lo_x) * cell) as i32;
    let py = (y + (ty - lo_y) * cell) as i32;
    let t = seq![MinimapSquare { x: px, y: py, size: cell as i32, color: grid_tile_rgba(w.tile_at(p)) }];
    if w.road_at(p) {
        t.push(MinimapSquare { x: px, y: py, size: cell as i32, color: grid_road_rgba() })
    } else {
        t
    }
}

/// The first `n` tiles of row `ty`, west to east.
pub open spec fn grid_row_squares(w: World, lo_x: int, lo_y: int, x: int, y: int, cell: int, ty: int, n: int) -> Seq<
    MinimapSquare,
>
    decreases n,
{
    if n <= 0 {
        seq![]
    } else {
        grid_row_squares(w, lo_x, lo_y, x, y, cell, ty, n - 1) + grid_tile_squares(w, lo_x, lo_y, x, y, cell, lo_x + n - 1, ty)
    }
}

/// The first `n` rows, north to south, each `ncols` tiles wide.
pub open spec fn grid_rows_squares(w: World, lo_x: int, lo_y: int, ncols: int, x: int, y: int, cell: int, n: int) -> Seq<
    MinimapSquare,
>
    decreases n,
{
    if n <= 0 {
        seq![]
    } else {
        grid_rows_squares(w, lo_x, lo_y, ncols, x, y, cell, n - 1) + grid_row_squares(
            w,
            lo_x,
            lo_y,
            x,
            y,
            cell,
            lo_y + n - 1,
            ncols,
        )
    }
}

/// The square of a building standing in the range, nothing otherwise.
pub open spec fn grid_building_square(b: Building, lo_x: int, lo_y: int, hi_x: int, hi_y: int, x: int, y: int, cell: int) -> Seq<
    MinimapSquare,
> {
    if b.pos.x < lo_x || b.pos.y < lo_y || b.pos.x > hi_x || b.pos.y > hi_y {
        seq![]
    } else {
        seq![
            MinimapSquare {
                x: (x + (b.pos.x - lo_x) * cell) as i32,
                y: (y + (b.pos.y - lo_y) * cell) as i32,
                size: cell as i32,
                color: grid_building_rgba(b.kind),
            },
        ]
    }
}

/// The squares of the first `n` buildings, in their order.
pub open spec fn grid_building_squares(
    bs: Seq<Building>,
    lo_x: int,
    lo_y: int,
    hi_x: int,
    hi_y: int,
    x: int,
    y: int,
    cell: int,
    n: int,
) -> Seq<MinimapSquare>
    decreases n,
{
    if n <= 0 {
        seq![]
    } else {
        grid_building_squares(bs, lo_x, lo_y, hi_x, hi_y, x, y, cell, n - 1) + grid_building_square(
            bs[n - 1],
            lo_x,
            lo_y,
            hi_x,
            hi_y,
            x,
            y,
            cell,
        )
    }
}

/// Every square of the grid layout, in drawing order.
pub open spec fn grid_squares_of(
    w: World,
    bs: Seq<Building>,
    lo_x: int,
    lo_y: int,
    hi_x: int,
    hi_y: int,
    x: int,
    y: int,
    cell: int,
) -> Seq<MinimapSquare> {
    grid_rows_squares(w, lo_x, lo_y, hi_x - lo_x + 1, x, y, cell, hi_y - lo_y + 1) + grid_building_squares(
        bs,
        lo_x,
        lo_y,
        hi_x,
        hi_y,
        x,
        y,
        cell,
        bs.len() as int,
    )
}

proof fn lemma_scaled_between(k: int, m: int, c: int)
    requires
        0 <= k <= m,
    ensures
        c >= 0 ==> 0 <= k * c <= m * c,
        c < 0 ==> m * c <= k * c <= 0,
{
    if c >= 0 {
        assert(0 <= k * c <= m * c) by (nonlinear_arith)
            requires
                0 <= k <= m,
                c >= 0,
        ;
    } else {
        assert(m * c <= k * c <= 0) by (nonlinear_arith)
            requires
                0 <= k <= m,
                c < 0,
        ;
    }
}

/// The pixel of cell `k` along an axis: `origin + k * cell`.
fn grid_coord(origin: i32, cell: i32, k: i32, Ghost(lo): Ghost<int>, Ghost(hi): Ghost<int>) -> (v: i32)
    requires
        grid_fits(lo, hi, origin as int, cell as int),
        0 <= k <= hi - lo,
    ensures
        v == origin + k * cell,
{
    proof {
        lemma_scaled_between(k as int, hi - lo, cell as int);
    }
    origin + k * cell
}

fn push_tile_squares(
    out: &mut Vec<MinimapSquare>,
    world: &World,
    min_tx: i32,
    min_ty: i32,
    max_tx: i32,
    max_ty: i32,
    x: i32,
    y: i32,
    cell: i32,
    k: i32,
    l: i32,
)
    requires
        grid_fits(min_tx as int, max_tx as int, x as int, cell as int),
        grid_fits(min_ty as int, max_ty as int, y as int, cell as int),
        0 <= k <= max_tx - min_tx,
        0 <= l <= max_ty - min_ty,
    ensures
        final(out)@ == old(out)@ + grid_tile_squares(
            *world,
            min_tx as int,
            min_ty as int,
            x as int,
            y as int,
            cell as int,
            min_tx + k,
            min_ty + l,
        ),
{
    let p = Pos { x: min_tx + k, y: min_ty + l };
    let px = grid_coord(x, cell, k, Ghost(min_tx as int), Ghost(max_tx as int));
    let py = grid_coord(y, cell, l, Ghost(min_ty as int), Ghost(max_ty as int));
    let color = match world.get_tile(p.x, p.y) {
        TileKind::Grass => [100u8, 170u8, 90u8, 255u8],
        TileKind::Forest => [60u8, 130u8, 80u8, 255u8],
        TileKind::Water => [70u8, 130u8, 220u8, 255u8],
    };
    out.push(MinimapSquare { x: px, y: py, size: cell, color });
    if world.is_road(p) {
        out.push(MinimapSquare { x: px, y: py, size: cell, color: [210u8, 180u8, 120u8, 255u8] });
    }
    assert(out@ =~= old(out)@ + grid_tile_squares(
        *world,
        min_tx as int,
        min_ty as int,
        x as int,
        y as int,
        cell as int,
        min_tx + k,
        min_ty + l,
    ));
}

fn brighter_exec(v: u8) -> (r: u8)
    ensures
        r == brighter(v),
{
    if v > 215 {
        255
    } else {
        v + 40
    }
}

/// The grid layout of the tiles `min ..= max`: from pixel `(x, y)`, one
/// square of `cell` pixels per tile, row by row from north to south and each
/// row from west to east, in the tile's terrain colour followed by the road
/// colour where a road runs; then a brighter square for each building
/// standing in the range, in the buildings' order.
pub fn minimap_grid_squares(
    world: &World,
    buildings: &Vec<Building>,
    min_tx: i32,
    min_ty: i32,
    max_tx: i32,
    max_ty: i32,
    x: i32,
    y: i32,
    cell: i32,
) -> (r: Vec<MinimapSquare>)
    requires
        grid_fits(min_tx as int, max_tx as int, x as int, cell as int),
        grid_fits(min_ty as int, max_ty as int, y as int, cell as int),
    ensures
        r@ == grid_squares_of(
            *world,
            buildings@,
            min_tx as int,
            min_ty as int,
            max_tx as int,
            max_ty as int,
            x as int,
            y as int,
            cell as int,
        ),
{
    let ghost lx: int = min_tx as int;
    let ghost ly: int = min_ty as int;
    let ghost hx: int = max_tx as int;
    let ghost hy: int = max_ty as int;
    let ghost xx: int = x as int;
    let ghost yy: int = y as int;
    let ghost cc: int = cell as int;
    let mut out: Vec<MinimapSquare> = Vec::new();
    let rows: i32 = max_ty - min_ty;
    let cols: i32 = max_tx - min_tx;
    let mut l: i32 = 0;
    while l <= rows
        invariant
            grid_fits(lx, hx, xx, cc),
            grid_fits(ly, hy, yy, cc),
            lx == min_tx && ly == min_ty && hx == max_tx && hy == max_ty && xx == x && yy == y && cc == cell,
            rows == hy - ly,
            cols == hx - lx,
            0 <= l,
            l <= rows + 1 || l == 0,
            out@ == grid_rows_squares(*world, lx, ly, hx - lx + 1, xx, yy, cc, l as int),
        decreases rows + 1 - l,
    {
        let ghost before = out@;
        let mut k: i32 = 0;
        while k <= cols
            invariant
                grid_fits(lx, hx, xx, cc),
                grid_fits(ly, hy, yy, cc),
                lx == min_tx && ly == min_ty && hx == max_tx && hy == max_ty && xx == x && yy == y && cc == cell,
                rows == hy - ly,
                cols == hx - lx,
                0 <= l <= rows,
                0 <= k,
                k <= cols + 1 || k == 0,
                out@ == before + grid_row_squares(*world, lx, ly, xx, yy, cc, ly + l, k as int),
            decreases cols + 1 - k,
        {
            push_tile_squares(&mut out, world, min_tx, min_ty, max_tx, max_ty, x, y, cell, k, l);
            assert(out@ =~= before + grid_row_squares(*world, lx, ly, xx, yy, cc, ly + l, k + 1));
            k += 1;
        }
        proof {
            if cols < 0 {
                assert(hx - lx + 1 <= 0);
            }
            assert(k as int == if cols < 0 { 0 } else { cols + 1 });
        }
        assert(out@ =~= grid_rows_squares(*world, lx, ly, hx - lx + 1, xx, yy, cc, l + 1));
        l += 1;
    }
    proof {
        if rows < 0 {
            assert(hy - ly + 1 <= 0);
        }
    }
    let ghost grid = out@;
    let mut i: usize = 0;
    while i < buildings.len()
        invariant
            grid_fits(lx, hx, xx, cc),
            grid_fits(ly, hy, yy, cc),
            lx == min_tx && ly == min_ty && hx == max_tx && hy == max_ty && xx == x && yy == y && cc == cell,
            i <= buildings.len(),
            out@ == grid + grid_building_squares(buildings@, lx, ly, hx, hy, xx, yy, cc, i as int),
        decreases buildings.len() - i,
    {
        let b = buildings[i];
        if !(b.pos.x < min_tx || b.pos.y < min_ty || b.pos.x > max_tx || b.pos.y > max_ty) {
            let bx = grid_coord(x, cell, b.pos.x - min_tx, Ghost(lx), Ghost(hx));
            let by = grid_coord(y, cell, b.pos.y - min_ty, Ghost(ly), Ghost(hy));
            let c = building_color(b.kind);
            out.push(
                MinimapSquare {
                    x: bx,
                    y: by,
                    size: cell,
                    color: [brighter_exec(c[0]), brighter_exec(c[1]), brighter_exec(c[2]), 255u8],
                },
            );
        }
        assert(buildings@[i as int] == b);
        assert(out@ =~= grid + grid_building_squares(buildings@, lx, ly, hx, hy, xx, yy, cc, i + 1));
        i += 1;
    }
    out
}

/// The part of the range `lo ..= hi` the camera's `clo ..= chi` covers,
/// along one axis: its first and last tile.
pub open spec fn covered(lo: int, hi: int, clo: int, chi: int) -> (int, int) {
    (max_int(clo, lo), min_int(chi, hi))
}

/// Every value the camera frame computes along one axis is an `i32`.
pub open spec fn frame_axis_fits(lo: int, hi: int, clo: int, chi: int, origin: int, cell: int) -> bool {
    let (s, e) = covered(lo, hi, clo, chi);
    &&& i32::MIN <= s - lo <= i32::MAX
    &&& i32::MIN <= (s - lo) * cell <= i32::MAX
    &&& i32::MIN <= origin + (s - lo) * cell <= i32::MAX
    &&& i32::MIN <= e - s <= i32::MAX
    &&& i32::MIN <= e - s + 1 <= i32::MAX
    &&& i32::MIN <= max_int(e - s + 1, 1) * cell <= i32::MAX
    &&& i32::MIN <= origin + (s - lo) * cell + max_int(e - s + 1, 1) * cell <= i32::MAX
    &&& i32::MIN <= origin + (s - lo) * cell + max_int(e - s + 1, 1) * cell - 1 <= i32::MAX
}

/// The first and last pixel of the camera frame along one axis.
pub open spec fn frame_span(lo: int, hi: int, clo: int, chi: int, origin: int, cell: int) -> (int, int) {
    let (s, e) = covered(lo, hi, clo, chi);
    let start = origin + (s - lo) * cell;
    (start, start + max_int(e - s + 1, 1) * cell - 1)
}

/// The frame drawn round the tiles the camera sees, as its corners
/// `(x0, y0, x1, y1)`, when the camera's tiles meet the range.
pub open spec fn camera_frame_of(
    lo_x: int,
    lo_y: int,
    hi_x: int,
    hi_y: int,
    x: int,
    y: int,
    cell: int,
    cx0: int,
    cy0: int,
    cx1: int,
    cy1: int,
) -> Option<(i32, i32, i32, i32)> {
    if cx1 >= lo_x && cx0 <= hi_x && cy1 >= lo_y && cy0 <= hi_y {
        let (xa, xb) = frame_span(lo_x, hi_x, cx0, cx1, x, cell);
        let (ya, yb) = frame_span(lo_y, hi_y, cy0, cy1, y, cell);
        Some((xa as i32, ya as i32, xb as i32, yb as i32))
    } else {
        None
    }
}

fn frame_span_exec(lo: i32, hi: i32, clo: i32, chi: i32, origin: i32, cell: i32) -> (r: (i32, i32))
    requires
        frame_axis_fits(lo as int, hi as int, clo as int, chi as int, origin as int, cell as int),
    ensures
        r.0 == frame_span(lo as int, hi as int, clo as int, chi as int, origin as int, cell as int).0,
        r.1 == frame_span(lo as int, hi as int, clo as int, chi as int, origin as int, cell as int).1,
{
    let s: i64 = if clo >= lo { clo as i64 } else { lo as i64 };
    let e: i64 = if chi <= hi { chi as i64 } else { hi as i64 };
    let off: i64 = s - lo as i64;
    let start: i64 = origin as i64 + off * (cell as i64);
    let n: i64 = if e - s + 1 >= 1 { e - s + 1 } else { 1 };
    let end: i64 = start + n * (cell as i64) - 1;
    (start as i32, end as i32)
}

/// The frame round the tiles `cam_min ..= cam_max` the camera sees, on the
/// grid layout of `min ..= max`: from the first to the last pixel of the
/// part of the camera's tiles inside the range (at least one tile each
/// way); `None` when the camera's tiles miss the range.
pub fn minimap_camera_frame(
    min_tx: i32,
    min_ty: i32,
    max_tx: i32,
    max_ty: i32,
    x: i32,
    y: i32,
    cell: i32,
    cam_min_tx: i32,
    cam_min_ty: i32,
    cam_max_tx: i32,
    cam_max_ty: i32,
) -> (r: Option<(i32, i32, i32, i32)>)
    requires
        frame_axis_fits(min_tx as int, max_tx as int, cam_min_tx as int, cam_max_tx as int, x as int, cell as int),
        frame_axis_fits(min_ty as int, max_ty as int, cam_min_ty as int, cam_max_ty as int, y as int, cell as int),
    ensures
        r == camera_frame_of(
            min_tx as int,
            min_ty as int,
            max_tx as int,
            max_ty as int,
            x as int,
            y as int,
            cell as int,
            cam_min_tx as int,
            cam_min_ty as int,
            cam_max_tx as int,
            cam_max_ty as int,
        ),
{
    if cam_max_tx >= min_tx && cam_min_tx <= max_tx && cam_max_ty >= min_ty && cam_min_ty <= max_ty {
        let (x0, x1) = frame_span_exec(min_tx, max_tx, cam_min_tx, cam_max_tx, x, cell);
        let (y0, y1) = frame_span_exec(min_ty, max_ty, cam_min_ty, cam_max_ty, y, cell);
        Some((x0, y0, x1, y1))
    } else {
        None
    }
}

// ------------------------------------------------------------ range checks

fn wide_product(a: i64, b: i64) -> (p: i128)
    ensures
        p == a * b,
        -0x4000_0000_0000_0000_0000_0000_0000_0000 <= p <= 0x4000_0000_0000_0000_0000_0000_0000_0000,
{
    proof {
        assert(-0x4000_0000_0000_0000_0000_0000_0000_0000 <= (a as int) * (b as int) <= 0x4000_0000_0000_0000_0000_0000_0000_0000)
            by (nonlinear_arith)
            requires
                -0x8000_0000_0000_0000 <= a < 0x8000_0000_0000_0000,
                -0x8000_0000_0000_0000 <= b < 0x8000_0000_0000_0000,
        ;
    }
    (a as i128) * (b as i128)
}

fn in_i32(v: i128) -> (b: bool)
    ensures
        b == (i32::MIN <= v <= i32::MAX),
{
    -2147483648 <= v && v <= 2147483647
}

/// Whether the widget layout's window can be centred on the visible range
/// `lo ..= hi` along one axis, as `axis_fits` states.
pub fn window_axis_fits(lo: i32, hi: i32) -> (b: bool)
    ensures
        b == axis_fits(lo as int, hi as int),
{
    let s: i64 = lo as i64 + hi as i64;
    let s30: i64 = s + 30;
    if !(in_i32(s as i128) && in_i32(s30 as i128)) {
        return false;
    }
    let c = half_toward_zero_exec(s30);
    in_i32((c - 30) as i128) && in_i32((c + 30) as i128)
}

/// Whether the widget's pixel positions fit, as `rect_fits` states.
pub fn widget_fits(r: &MinimapRect) -> (b: bool)
    ensures
        b == rect_fits(*r),
{
    let far = wide_product(60, r.cell as i64);
    if !in_i32(far) {
        return false;
    }
    in_i32(r.x as i128 + far) && in_i32(r.y as i128 + far) && in_i32(r.x as i128 + r.w as i128)
        && in_i32(r.y as i128 + r.h as i128)
}

fn coord_fits_exec(origin: i32, cell: i32, t: i32, min_t: i32) -> (b: bool)
    ensures
        b == coord_fits(origin as int, cell as int, t as int, min_t as int),
{
    let d: i64 = t as i64 - min_t as i64;
    let p = wide_product(d, cell as i64);
    in_i32(d as i128) && in_i32(p) && in_i32(origin as i128 + p)
}

/// Whether the frame of the visible tiles fits, as `frame_fits` states.
pub fn view_frame_fits(r: &MinimapRect, win: &MinimapWindow, vmin_tx: i32, vmin_ty: i32, vmax_tx: i32, vmax_ty: i32) -> (b:
    bool)
    ensures
        b == frame_fits(*r, *win, vmin_tx as int, vmin_ty as int, vmax_tx as int, vmax_ty as int),
{
    coord_fits_exec(r.x, r.cell, vmin_tx, win.min_tx) && coord_fits_exec(r.x, r.cell, vmax_tx, win.min_tx) && coord_fits_exec(
        r.y,
        r.cell,
        vmin_ty,
        win.min_ty,
    ) && coord_fits_exec(r.y, r.cell, vmax_ty, win.min_ty) && in_i32(r.x as i128 + r.w as i128) && in_i32(
        r.y as i128 + r.h as i128,
    )
}

/// Whether the grid layout of `lo ..= hi` fits along one axis, as
/// `grid_fits` states.
pub fn grid_axis_fits(lo: i32, hi: i32, origin: i32, cell: i32) -> (b: bool)
    ensures
        b == grid_fits(lo as int, hi as int, origin as int, cell as int),
{
    let span: i64 = hi as i64 - lo as i64;
    let n: i64 = if span + 1 >= 1 { span + 1 } else { 1 };
    let size = wide_product(n, cell as i64);
    let far = wide_product(span, cell as i64);
    in_i32(span as i128) && in_i32((span + 1) as i128) && in_i32(size) && (lo > hi || (in_i32(far) && in_i32(
        origin as i128 + far,
    )))
}

/// Whether the camera frame fits along one axis, as `frame_axis_fits`
/// states.
pub fn camera_axis_fits(lo: i32, hi: i32, clo: i32, chi: i32, origin: i32, cell: i32) -> (b: bool)
    ensures
        b == frame_axis_fits(lo as int, hi as int, clo as int, chi as int, origin as int, cell as int),
{
    let s: i64 = if clo >= lo { clo as i64 } else { lo as i64 };
    let e: i64 = if chi <= hi { chi as i64 } else { hi as i64 };
    let off: i64 = s - lo as i64;
    let p = wide_product(off, cell as i64);
    let n: i64 = if e - s + 1 >= 1 { e - s + 1 } else { 1 };
    let size = wide_product(n, cell as i64);
    if !(in_i32(p) && in_i32(size)) {
        return false;
    }
    let start: i128 = origin as i128 + p;
    in_i32(off as i128) && in_i32(start) && in_i32((e - s) as i128) && in_i32((e - s + 1) as i128) && in_i32(start + size)
        && in_i32(start + size - 1)
}

} // verus!
