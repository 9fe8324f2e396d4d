//! Tile, building, tree and prop atlases: sprite buffers cut from sheets,
//! and colour tints applied to them.

use vstd::prelude::*;
use crate::types::TileKind;

verus! {

/// Width of a tile of the map, in pixels at zoom 1.
pub const TILE_W: i32 = 32;

/// Height of a tile of the map, in pixels at zoom 1.
pub const TILE_H: i32 = 16;

/// The tile sprites at the current zoom, and the sheets they come from.
pub struct TileAtlas {
    pub zoom_px: i32,
    pub half_w: i32,
    pub half_h: i32,
    pub grass: Vec<u8>,
    pub forest: Vec<u8>,
    pub water_frames: Vec<Vec<u8>>,
    pub grass_variants: Vec<Vec<u8>>,
    pub clay_variants: Vec<Vec<u8>>,
    pub water_edges: Vec<Vec<u8>>,
    pub clay: Vec<u8>,
    pub stone: Vec<u8>,
    pub iron: Vec<u8>,
    pub base_loaded: bool,
    pub base_w: i32,
    pub base_h: i32,
    pub base_grass: Vec<u8>,
    pub base_forest: Vec<u8>,
    pub base_water: Vec<u8>,
    pub base_clay: Vec<u8>,
    pub base_stone: Vec<u8>,
    pub base_iron: Vec<u8>,
    pub grass_swamp: Vec<u8>,
    pub grass_rocky: Vec<u8>,
    pub forest_swamp: Vec<u8>,
    pub forest_rocky: Vec<u8>,
    pub clay_tinted: Vec<u8>,
    pub stone_tinted: Vec<u8>,
    pub iron_tinted: Vec<u8>,
    pub clay_variants_tinted: Vec<Vec<u8>>,
}

/// Building sprites: the size of one sprite.
pub struct BuildingAtlas {
    pub w: i32,
    pub h: i32,
}

/// Tree sprites, one growth stage per column: the size of one sprite.
pub struct TreeAtlas {
    pub w: i32,
    pub h: i32,
}

/// Props and UI icons: the sheet's size, a sprite's size and the grid.
pub struct PropsAtlas {
    pub w: i32,
    pub h: i32,
    pub sprite_w: i32,
    pub sprite_h: i32,
    pub cols: i32,
    pub rows: i32,
}

impl TileAtlas {
    /// An empty atlas, not built for any zoom yet.
    pub fn new() -> (a: Self)
        ensures
            a.zoom_px == -1,
            a.half_w == 0,
            a.half_h == 0,
            !a.base_loaded,
            a.base_w == 0,
            a.base_h == 0,
            a.grass@.len() == 0,
            a.forest@.len() == 0,
            a.clay@.len() == 0,
            a.stone@.len() == 0,
            a.iron@.len() == 0,
            a.base_grass@.len() == 0,
            a.base_forest@.len() == 0,
            a.base_water@.len() == 0,
            a.base_clay@.len() == 0,
            a.base_stone@.len() == 0,
            a.base_iron@.len() == 0,
            a.grass_swamp@.len() == 0,
            a.grass_rocky@.len() == 0,
            a.forest_swamp@.len() == 0,
            a.forest_rocky@.len() == 0,
            a.clay_tinted@.len() == 0,
            a.stone_tinted@.len() == 0,
            a.iron_tinted@.len() == 0,
            a.water_frames@.len() == 0,
            a.grass_variants@.len() == 0,
            a.clay_variants@.len() == 0,
            a.water_edges@.len() == 0,
            a.clay_variants_tinted@.len() == 0,
    {
        TileAtlas {
            zoom_px: -1, half_w: 0, half_h: 0, grass: Vec::new(), forest: Vec::new(), water_frames: Vec::new(), grass_variants: Vec::new(), clay_variants: Vec::new(), water_edges: Vec::new(), clay: Vec::new(), stone: Vec::new(), iron: Vec::new(),
            base_loaded: false, base_w: 0, base_h: 0, base_grass: Vec::new(), base_forest: Vec::new(), base_water: Vec::new(), base_clay: Vec::new(), base_stone: Vec::new(), base_iron: Vec::new(), grass_swamp: Vec::new(), grass_rocky: Vec::new(), forest_swamp: Vec::new(), forest_rocky: Vec::new(), clay_tinted: Vec::new(), stone_tinted: Vec::new(), iron_tinted: Vec::new(), clay_variants_tinted: Vec::new(),
        }
    }
}

// ---------------------------------------------------------------- tints

/// A colour channel mixed with a tint at strength `k` out of 255.
pub open spec fn tinted_channel(s: u8, tint: u8, k: u8) -> u8 {
    ((s * (255 - k) + tint * k) / 255) as u8
}

/// An alpha scaled by `ga` out of 255.
pub open spec fn scaled_alpha(a: u8, ga: u8) -> u8 {
    ((a * ga) / 255) as u8
}

/// An RGBA buffer with every visible pixel (non-zero alpha) tinted and its
/// alpha scaled; transparent pixels and trailing bytes stay as they are.
pub open spec fn tinted(src: Seq<u8>, tint: [u8; 3], k: u8, ga: u8) -> Seq<u8> {
    Seq::new(
        src.len(),
        |j: int|
            {
                let p = j - j % 4;
                if p + 3 < src.len() && src[p + 3] != 0 {
                    if j % 4 == 3 {
                        scaled_alpha(src[j], ga)
                    } else {
                        tinted_channel(src[j], tint[j % 4], k)
                    }
                } else {
                    src[j]
                }
            },
    )
}

/// An RGBA buffer with the alpha of every pixel scaled by `ga` out of 255.
pub open spec fn faded(src: Seq<u8>, ga: u8) -> Seq<u8> {
    Seq::new(
        src.len(),
        |j: int|
            {
                let p = j - j % 4;
                if p + 3 < src.len() && j % 4 == 3 {
                    scaled_alpha(src[j], ga)
                } else {
                    src[j]
                }
            },
    )
}

/// A tint at strength 0 with full alpha leaves a buffer as it is; so does
/// fading with full alpha.
pub proof fn lemma_neutral_tint(src: Seq<u8>, tint: [u8; 3])
    ensures
        tinted(src, tint, 0, 255) == src,
        faded(src, 255) == src,
{
    assert forall|j: int| 0 <= j < src.len() implies #[trigger] tinted(src, tint, 0, 255)[j] == src[j] by {
        let s = src[j];
        assert((s * (255 - 0) + tint[j % 4] * 0) / 255 == s) by (nonlinear_arith)
            requires
                0 <= s <= 255,
                0 <= j % 4 < 4,
        ;
        assert((s * 255) / 255 == s) by (nonlinear_arith)
            requires
                0 <= s <= 255,
        ;
    }
    assert forall|j: int| 0 <= j < src.len() implies #[trigger] faded(src, 255)[j] == src[j] by {
        let s = src[j];
        assert((s * 255) / 255 == s) by (nonlinear_arith)
            requires
                0 <= s <= 255,
        ;
    }
    assert(tinted(src, tint, 0, 255) =~= src);
    assert(faded(src, 255) =~= src);
}

fn mix_channel(s: u8, tint: u8, k: u8) -> (r: u8)
    ensures
        r == tinted_channel(s, tint, k),
{
    let a: u32 = s as u32;
    let t: u32 = tint as u32;
    let kk: u32 = k as u32;
    assert(a * (255 - kk) + t * kk <= 255 * 255) by (nonlinear_arith)
        requires
            a <= 255,
            t <= 255,
            kk <= 255,
    ;
    ((a * (255 - kk) + t * kk) / 255) as u8
}

fn scale_alpha(a: u8, ga: u8) -> (r: u8)
    ensures
        r == scaled_alpha(a, ga),
{
    let x: u32 = a as u32;
    let g: u32 = ga as u32;
    assert(x * g <= 255 * 255) by (nonlinear_arith)
        requires
            x <= 255,
            g <= 255,
    ;
    ((x * g) / 255) as u8
}

impl TileAtlas {
    /// A copy of the buffer with its visible pixels tinted towards
    /// `tint_rgb` with `strength` out of 255 and their alpha scaled by
    /// `global_alpha`.
    pub fn tint_buffer_color(src: &Vec<u8>, tint_rgb: [u8; 3], strength: u8, global_alpha: u8) -> (out: Vec<u8>)
        ensures
            out@ == tinted(src@, tint_rgb, strength, global_alpha),
    {
        let len = src.len();
        let ghost spec_out = tinted(src@, tint_rgb, strength, global_alpha);
        let mut out: Vec<u8> = Vec::new();
        let mut i: usize = 0;
        while i + 3 < len
            invariant
                i <= len,
                i % 4 == 0,
                len == src.len(),
                spec_out == tinted(src@, tint_rgb, strength, global_alpha),
                out@ == spec_out.take(i as int),
            decreases len - i,
        {
            proof {
                assert((i + 1) % 4 == 1 && (i + 2) % 4 == 2 && (i + 3) % 4 == 3);
            }
            if src[i + 3] == 0 {
                out.push(src[i]);
                out.push(src[i + 1]);
                out.push(src[i + 2]);
                out.push(src[i + 3]);
            } else {
                out.push(mix_channel(src[i], tint_rgb[0], strength));
                out.push(mix_channel(src[i + 1], tint_rgb[1], strength));
                out.push(mix_channel(src[i + 2], tint_rgb[2], strength));
                out.push(scale_alpha(src[i + 3], global_alpha));
            }
            assert(out@ =~= spec_out.take(i + 4));
            i += 4;
        }
        let ghost i0 = i;
        while i < len
            invariant
                i0 <= i <= len,
                i0 % 4 == 0,
                i0 + 3 >= len,
                len == src.len(),
                spec_out == tinted(src@, tint_rgb, strength, global_alpha),
                out@ == spec_out.take(i as int),
            decreases len - i,
        {
            assert(i - i % 4 == i0);
            out.push(src[i]);
            assert(out@ =~= spec_out.take(i + 1));
            i += 1;
        }
        assert(spec_out.take(len as int) =~= spec_out);
        out
    }

    /// A copy of the buffer with the alpha of every pixel scaled by
    /// `global_alpha`.
    pub fn tint_buffer_alpha(src: &Vec<u8>, global_alpha: u8) -> (out: Vec<u8>)
        ensures
            out@ == faded(src@, global_alpha),
    {
        let len = src.len();
        let ghost spec_out = faded(src@, global_alpha);
        let mut out: Vec<u8> = Vec::new();
        let mut i: usize = 0;
        while i + 3 < len
            invariant
                i <= len,
                i % 4 == 0,
                len == src.len(),
                spec_out == faded(src@, global_alpha),
                out@ == spec_out.take(i as int),
            decreases len - i,
        {
            proof {
                assert((i + 1) % 4 == 1 && (i + 2) % 4 == 2 && (i + 3) % 4 == 3);
            }
            out.push(src[i]);
            out.push(src[i + 1]);
            out.push(src[i + 2]);
            out.push(scale_alpha(src[i + 3], global_alpha));
            assert(out@ =~= spec_out.take(i + 4));
            i += 4;
        }
        let ghost i0 = i;
        while i < len
            invariant
                i0 <= i <= len,
                i0 % 4 == 0,
                i0 + 3 >= len,
                len == src.len(),
                spec_out == faded(src@, global_alpha),
                out@ == spec_out.take(i as int),
            decreases len - i,
        {
            assert(i - i % 4 == i0);
            out.push(src[i]);
            assert(out@ =~= spec_out.take(i + 1));
            i += 1;
        }
        assert(spec_out.take(len as int) =~= spec_out);
        out
    }
}

// ---------------------------------------------------------------- tile sprites

/// The tile kind of the repeating test pattern: grass, forest and water
/// by `(x + y) mod 3`.
pub open spec fn pattern_kind(x: u32, y: u32) -> TileKind {
    let m = (x + y) % 3;
    if m == 0 {
        TileKind::Grass
    } else if m == 1 {
        TileKind::Forest
    } else {
        TileKind::Water
    }
}

/// The tile kind the test pattern shows at (x, y).
pub fn get_tile_kind(x: u32, y: u32) -> (k: TileKind)
    requires
        x + y <= u32::MAX,
    ensures
        k == pattern_kind(x, y),
{
    let m = (x + y) % 3;
    if m == 0 {
        TileKind::Grass
    } else if m == 1 {
        TileKind::Forest
    } else {
        TileKind::Water
    }
}

/// The sprite of a tile kind at the current zoom: water shows its first
/// animation frame, or grass while there is none.
pub open spec fn tile_sprite(a: TileAtlas, kind: TileKind) -> Seq<u8> {
    match kind {
        TileKind::Grass => a.grass@,
        TileKind::Forest => a.forest@,
        TileKind::Water => if a.water_frames@.len() > 0 {
            a.water_frames@[0]@
        } else {
            a.grass@
        },
    }
}

/// The sprite a tile kind is drawn with.
pub fn get_tile_data(atlas: &TileAtlas, kind: TileKind) -> (r: &Vec<u8>)
    ensures
        r@ == tile_sprite(*atlas, kind),
{
    match kind {
        TileKind::Grass => &atlas.grass,
        TileKind::Forest => &atlas.forest,
        TileKind::Water => if atlas.water_frames.len() > 0 {
            &atlas.water_frames[0]
        } else {
            &atlas.grass
        },
    }
}

// ---------------------------------------------------------------- zoom

/// The diamond's width in pixels for a half width: `2·max(half_w, 1) + 1`.
pub open spec fn zoom_px_for(half_w: int) -> int {
    if half_w < 1 {
        3
    } else {
        2 * half_w + 1
    }
}

/// The atlas's zoom fields set for tiles of half size (`half_w`, `half_h`),
/// each at least 1, everything else unchanged.
pub open spec fn resized(a: TileAtlas, a2: TileAtlas, half_w: i32, half_h: i32) -> bool {
    &&& a2.zoom_px == zoom_px_for(half_w as int)
    &&& a2.half_w == if half_w < 1 { 1 } else { half_w }
    &&& a2.half_h == if half_h < 1 { 1 } else { half_h }
    &&& a2 == TileAtlas { zoom_px: a2.zoom_px, half_w: a2.half_w, half_h: a2.half_h, ..a }
}

impl TileAtlas {
    /// Take a tile size (half width and half height in pixels at the new
    /// zoom). Returns false, changing nothing, when the atlas already has
    /// that size; otherwise records it (each half at least 1) and returns
    /// true: the sprites must then be rebuilt.
    pub fn set_zoom_size(&mut self, half_w: i32, half_h: i32) -> (changed: bool)
        requires
            half_w < 0x4000_0000,
        ensures
            changed == !(zoom_px_for(half_w as int) == old(self).zoom_px && old(self).half_w == half_w
                && old(self).half_h == half_h),
            !changed ==> *final(self) == *old(self),
            changed ==> resized(*old(self), *final(self), half_w, half_h),
    {
        let hw: i32 = if half_w < 1 {
            1
        } else {
            half_w
        };
        let zoom_px = hw * 2 + 1;
        if zoom_px == self.zoom_px && self.half_w == half_w && self.half_h == half_h {
            return false;
        }
        self.zoom_px = zoom_px;
        self.half_w = hw;
        self.half_h = if half_h < 1 {
            1
        } else {
            half_h
        };
        true
    }
}

/// Each buffer of `v` tinted.
pub open spec fn all_tinted(v: Seq<Seq<u8>>, tint: [u8; 3], k: u8, ga: u8) -> Seq<Seq<u8>> {
    v.map_values(|b: Seq<u8>| tinted(b, tint, k, ga))
}

/// The biome and deposit variants derived from the scaled tiles of a loaded
/// sheet; the scaled tiles themselves and the sheet stay.
pub open spec fn retinted(a: TileAtlas, a2: TileAtlas) -> bool {
    &&& a2.grass_swamp@ == tinted(a.grass@, [50, 110, 70], 90, 255)
    &&& a2.grass_rocky@ == tinted(a.grass@, [150, 150, 150], 90, 255)
    &&& a2.forest_swamp@ == tinted(a.forest@, [50, 110, 70], 80, 255)
    &&& a2.forest_rocky@ == tinted(a.forest@, [150, 150, 150], 80, 255)
    &&& a2.clay_tinted@ == tinted(a.clay@, [170, 100, 80], 120, 230)
    &&& a2.stone_tinted@ == faded(a.stone@, 220)
    &&& a2.iron_tinted@ == tinted(a.iron@, [200, 205, 220], 140, 240)
    &&& buffers(a2.clay_variants_tinted@) == all_tinted(buffers(a.clay_variants@), [170, 100, 80], 120, 230)
    &&& a2 == TileAtlas {
        grass_swamp: a2.grass_swamp,
        grass_rocky: a2.grass_rocky,
        forest_swamp: a2.forest_swamp,
        forest_rocky: a2.forest_rocky,
        clay_tinted: a2.clay_tinted,
        stone_tinted: a2.stone_tinted,
        iron_tinted: a2.iron_tinted,
        clay_variants_tinted: a2.clay_variants_tinted,
        ..a
    }
}

/// Derive the tinted biome tiles and deposit overlays from the tiles just
/// scaled from a loaded sheet.
pub fn retint_loaded(atlas: &mut TileAtlas)
    ensures
        retinted(*old(atlas), *final(atlas)),
{
    atlas.grass_swamp = TileAtlas::tint_buffer_color(&atlas.grass, [50, 110, 70], 90, 255);
    atlas.grass_rocky = TileAtlas::tint_buffer_color(&atlas.grass, [150, 150, 150], 90, 255);
    atlas.forest_swamp = TileAtlas::tint_buffer_color(&atlas.forest, [50, 110, 70], 80, 255);
    atlas.forest_rocky = TileAtlas::tint_buffer_color(&atlas.forest, [150, 150, 150], 80, 255);
    atlas.clay_tinted = TileAtlas::tint_buffer_color(&atlas.clay, [170, 100, 80], 120, 230);
    atlas.stone_tinted = TileAtlas::tint_buffer_alpha(&atlas.stone, 220);
    atlas.iron_tinted = TileAtlas::tint_buffer_color(&atlas.iron, [200, 205, 220], 140, 240);
    let mut out: Vec<Vec<u8>> = Vec::new();
    let mut i: usize = 0;
    while i < atlas.clay_variants.len()
        invariant
            i <= atlas.clay_variants.len(),
            buffers(out@) == all_tinted(buffers(atlas.clay_variants@.take(i as int)), [170, 100, 80], 120, 230),
        decreases atlas.clay_variants.len() - i,
    {
        let t = TileAtlas::tint_buffer_color(&atlas.clay_variants[i], [170, 100, 80], 120, 230);
        let ghost prev = buffers(out@);
        out.push(t);
        assert(buffers(out@) =~= prev.push(t@));
        assert(buffers(atlas.clay_variants@.take(i + 1)) =~= buffers(atlas.clay_variants@.take(i as int)).push(
            atlas.clay_variants@[i as int]@,
        ));
        assert(buffers(out@) =~= all_tinted(buffers(atlas.clay_variants@.take(i + 1)), [170, 100, 80], 120, 230));
        i += 1;
    }
    assert(atlas.clay_variants@.take(atlas.clay_variants.len() as int) =~= atlas.clay_variants@);
    atlas.clay_variants_tinted = out;
}

/// The variants as plain copies of the tiles (no tint) and no tinted clay
/// variants; everything else stays.
pub open spec fn untinted(a: TileAtlas, a2: TileAtlas) -> bool {
    &&& a2.grass_swamp@ == a.grass@
    &&& a2.grass_rocky@ == a.grass@
    &&& a2.forest_swamp@ == a.forest@
    &&& a2.forest_rocky@ == a.forest@
    &&& a2.clay_tinted@ == a.clay@
    &&& a2.stone_tinted@ == a.stone@
    &&& a2.iron_tinted@ == a.iron@
    &&& a2.clay_variants_tinted@.len() == 0
    &&& a2 == TileAtlas {
        grass_swamp: a2.grass_swamp,
        grass_rocky: a2.grass_rocky,
        forest_swamp: a2.forest_swamp,
        forest_rocky: a2.forest_rocky,
        clay_tinted: a2.clay_tinted,
        stone_tinted: a2.stone_tinted,
        iron_tinted: a2.iron_tinted,
        clay_variants_tinted: a2.clay_variants_tinted,
        ..a
    }
}

/// Leave the variants as plain copies, as for procedurally drawn tiles.
pub fn copy_untinted(atlas: &mut TileAtlas)
    ensures
        untinted(*old(atlas), *final(atlas)),
{
    atlas.grass_swamp = atlas.grass.clone();
    atlas.grass_rocky = atlas.grass.clone();
    atlas.forest_swamp = atlas.forest.clone();
    atlas.forest_rocky = atlas.forest.clone();
    atlas.clay_tinted = atlas.clay.clone();
    atlas.stone_tinted = atlas.stone.clone();
    atlas.iron_tinted = atlas.iron.clone();
    atlas.clay_variants_tinted = Vec::new();
}

// ---------------------------------------------------------------- sheets

/// The first `n` rows of the `cw`-pixel-wide cell whose top-left pixel is
/// (`x0`, `y0`) in an RGBA sheet `iw` pixels wide, row after row.
pub open spec fn cell_rows(raw: Seq<u8>, iw: int, x0: int, y0: int, cw: int, n: int) -> Seq<u8>
    decreases n,
{
    if n <= 0 {
        seq![]
    } else {
        let start = ((y0 + n - 1) * iw + x0) * 4;
        cell_rows(raw, iw, x0, y0, cw, n - 1) + raw.subrange(start, start + cw * 4)
    }
}

/// Every row of the cell lies within the sheet's bytes.
pub open spec fn cell_inside(len: int, iw: int, x0: int, y0: int, cw: int, ch: int) -> bool {
    &&& 1 <= iw
    &&& 0 <= x0
    &&& 0 <= y0
    &&& 0 <= cw
    &&& 0 <= ch
    &&& ch >= 1 ==> ((y0 + ch - 1) * iw + x0 + cw) * 4 <= len
}

proof fn lemma_row_inside(len: int, iw: int, x0: int, y0: int, cw: int, ch: int, y: int)
    requires
        cell_inside(len, iw, x0, y0, cw, ch),
        0 <= y < ch,
    ensures
        0 <= ((y0 + y) * iw + x0) * 4,
        ((y0 + y) * iw + x0) * 4 + cw * 4 <= len,
        y0 + y <= (y0 + y) * iw,
{
    assert(y0 + y <= (y0 + y) * iw) by (nonlinear_arith)
        requires
            1 <= iw,
            0 <= y0 + y,
    ;
    assert((y0 + y) * iw <= (y0 + ch - 1) * iw) by (nonlinear_arith)
        requires
            0 <= iw,
            y0 + y <= y0 + ch - 1,
    ;
    assert(0 <= (y0 + y) * iw) by (nonlinear_arith)
        requires
            0 <= iw,
            0 <= y0 + y,
    ;
}

/// Cut a `cw`×`ch` cell out of an RGBA sheet `iw` pixels wide.
pub fn cell_rgba(raw: &Vec<u8>, iw: usize, x0: usize, y0: usize, cw: usize, ch: usize) -> (out: Vec<u8>)
    requires
        cell_inside(raw.len() as int, iw as int, x0 as int, y0 as int, cw as int, ch as int),
    ensures
        out@ == cell_rows(raw@, iw as int, x0 as int, y0 as int, cw as int, ch as int),
{
    let mut out: Vec<u8> = Vec::new();
    let mut y: usize = 0;
    while y < ch
        invariant
            y <= ch,
            cell_inside(raw.len() as int, iw as int, x0 as int, y0 as int, cw as int, ch as int),
            out@ == cell_rows(raw@, iw as int, x0 as int, y0 as int, cw as int, y as int),
        decreases ch - y,
    {
        proof {
            lemma_row_inside(raw.len() as int, iw as int, x0 as int, y0 as int, cw as int, ch as int, y as int);
        }
        let start = ((y0 + y) * iw + x0) * 4;
        let ghost before = out@;
        let mut k: usize = 0;
        while k < cw * 4
            invariant
                k <= cw * 4,
                start + cw * 4 <= raw.len(),
                out@ == before + raw@.subrange(start as int, start + k),
            decreases cw * 4 - k,
        {
            out.push(raw[start + k]);
            assert(raw@.subrange(start as int, start + k + 1) =~= raw@.subrange(start as int, start + k).push(
                raw@[start + k],
            ));
            k += 1;
        }
        y += 1;
    }
    out
}

/// Cells of the sheet across (`cols`) and down (`rows`), at least one each.
pub open spec fn sheet_cols(iw: int) -> int {
    if iw / 32 >= 1 {
        iw / 32
    } else {
        1
    }
}

pub open spec fn sheet_rows(ih: int) -> int {
    if ih / 32 >= 1 {
        ih / 32
    } else {
        1
    }
}

/// The 32×32 cell at column `cx`, row `cy` of a sheet `iw` pixels wide.
pub open spec fn sheet_cell(raw: Seq<u8>, iw: int, cx: int, cy: int) -> Seq<u8> {
    cell_rows(raw, iw, cx * 32, cy * 32, 32, 32)
}

pub open spec fn min_int(a: int, b: int) -> int {
    if a <= b {
        a
    } else {
        b
    }
}

/// The last column of cells the atlas takes from a sheet: the eighth, or
/// the sheet's last when it has fewer.
pub open spec fn last_sheet_col(iw: int) -> int {
    min_int(sheet_cols(iw) - 1, 7)
}

/// The sheet's bytes are its pixels, and every cell the atlas takes from it
/// lies within them: the farthest one, in its last column and last row, is
/// inside.
pub open spec fn sheet_ok(len: int, iw: int, ih: int) -> bool {
    &&& 1 <= iw
    &&& 1 <= ih
    &&& len == iw * ih * 4
    &&& cell_inside(len, iw, last_sheet_col(iw) * 32, (sheet_rows(ih) - 1) * 32, 32, 32)
}

proof fn lemma_sheet_cell_inside(len: int, iw: int, ih: int, cx: int, cy: int)
    requires
        sheet_ok(len, iw, ih),
        0 <= cx <= last_sheet_col(iw),
        0 <= cy < sheet_rows(ih),
    ensures
        cell_inside(len, iw, cx * 32, cy * 32, 32, 32),
{
    let lr = sheet_rows(ih) - 1;
    let lc = last_sheet_col(iw);
    assert(((cy * 32 + 31) * iw + cx * 32 + 32) * 4 <= len) by (nonlinear_arith)
        requires
            0 <= cx <= lc,
            0 <= cy <= lr,
            1 <= iw,
            ((lr * 32 + 31) * iw + lc * 32 + 32) * 4 <= len,
    ;
}

fn sheet_cell_exec(raw: &Vec<u8>, iw: usize, ih: usize, cx: usize, cy: usize) -> (out: Vec<u8>)
    requires
        sheet_ok(raw.len() as int, iw as int, ih as int),
        cx <= last_sheet_col(iw as int),
        cy < sheet_rows(ih as int),
    ensures
        out@ == sheet_cell(raw@, iw as int, cx as int, cy as int),
{
    proof {
        lemma_sheet_cell_inside(raw.len() as int, iw as int, ih as int, cx as int, cy as int);
    }
    cell_rgba(raw, iw, cx * 32, cy * 32, 32, 32)
}

/// The views of a list of buffers.
pub open spec fn buffers(v: Seq<Vec<u8>>) -> Seq<Seq<u8>> {
    v.map_values(|b: Vec<u8>| b@)
}

/// The cells of row `cy` from column `from` up to (not including) `to`.
pub open spec fn sheet_row_cells(raw: Seq<u8>, iw: int, cy: int, from: int, to: int) -> Seq<Seq<u8>> {
    Seq::new((to - from) as nat, |i: int| sheet_cell(raw, iw, from + i, cy))
}

fn cut_row(raw: &Vec<u8>, iw: usize, ih: usize, cy: usize, from: usize, to: usize) -> (out: Vec<Vec<u8>>)
    requires
        sheet_ok(raw.len() as int, iw as int, ih as int),
        from <= to <= last_sheet_col(iw as int) + 1,
        cy < sheet_rows(ih as int),
    ensures
        buffers(out@) == sheet_row_cells(raw@, iw as int, cy as int, from as int, to as int),
{
    let mut out: Vec<Vec<u8>> = Vec::new();
    let mut cx: usize = from;
    while cx < to
        invariant
            from <= cx <= to,
            to <= last_sheet_col(iw as int) + 1,
            cy < sheet_rows(ih as int),
            sheet_ok(raw.len() as int, iw as int, ih as int),
            buffers(out@) == sheet_row_cells(raw@, iw as int, cy as int, from as int, cx as int),
        decreases to - cx,
    {
        let cell = sheet_cell_exec(raw, iw, ih, cx, cy);
        let ghost prev = buffers(out@);
        out.push(cell);
        assert(buffers(out@) =~= prev.push(cell@));
        assert(buffers(out@) =~= sheet_row_cells(raw@, iw as int, cy as int, from as int, cx + 1));
        cx += 1;
    }
    out
}

/// The atlas's sheet fields after reading a spritesheet: the grass row
/// (row 2, or the last), the water row (the last: a full cell, then edges),
/// the clay row (row 1, or the last), the forest cell at (7, 3) when the
/// sheet has it, and the deposit cell near (6, 5).
pub open spec fn sheet_loaded(a: TileAtlas, a2: TileAtlas, raw: Seq<u8>, iw: int, ih: int) -> bool {
    let cols = sheet_cols(iw);
    let rows = sheet_rows(ih);
    let grass_row = min_int(2, rows - 1);
    let clay_row = min_int(1, rows - 1);
    let water_row = rows - 1;
    let grass_cols = min_int(cols, 3);
    let dep = sheet_cell(raw, iw, min_int(6, cols - 1), min_int(5, rows - 1));
    let def1 = if grass_cols > 1 {
        sheet_cell(raw, iw, 1, grass_row)
    } else {
        sheet_cell(raw, iw, 0, grass_row)
    };
    &&& a2.base_loaded
    &&& a2.base_w == 32
    &&& a2.base_h == 32
    &&& a2.base_grass@ == sheet_cell(raw, iw, 0, grass_row)
    &&& a2.base_forest@ == if rows > 3 && cols > 7 {
        sheet_cell(raw, iw, 7, 3)
    } else {
        def1
    }
    &&& a2.base_water@ == sheet_cell(raw, iw, 0, water_row)
    &&& a2.base_clay@ == dep
    &&& a2.base_stone@ == dep
    &&& a2.base_iron@ == dep
    &&& buffers(a2.grass_variants@) == sheet_row_cells(raw, iw, grass_row, 0, grass_cols)
    &&& buffers(a2.clay_variants@) == sheet_row_cells(raw, iw, clay_row, 0, grass_cols)
    &&& buffers(a2.water_edges@) == sheet_row_cells(raw, iw, water_row, 1, min_int(cols, 8))
    &&& a2.zoom_px == a.zoom_px
    &&& a2.half_w == a.half_w
    &&& a2.half_h == a.half_h
    &&& a2.grass == a.grass
    &&& a2.forest == a.forest
    &&& a2.water_frames == a.water_frames
    &&& a2.clay == a.clay
    &&& a2.stone == a.stone
    &&& a2.iron == a.iron
    &&& a2.grass_swamp == a.grass_swamp
    &&& a2.grass_rocky == a.grass_rocky
    &&& a2.forest_swamp == a.forest_swamp
    &&& a2.forest_rocky == a.forest_rocky
    &&& a2.clay_tinted == a.clay_tinted
    &&& a2.stone_tinted == a.stone_tinted
    &&& a2.iron_tinted == a.iron_tinted
    &&& a2.clay_variants_tinted == a.clay_variants_tinted
}

/// Take the base sprites from a spritesheet of 32×32 cells (RGBA bytes,
/// `iw`×`ih` pixels).
pub fn load_spritesheet(atlas: &mut TileAtlas, raw: &Vec<u8>, iw: usize, ih: usize)
    requires
        sheet_ok(raw.len() as int, iw as int, ih as int),
    ensures
        sheet_loaded(*old(atlas), *final(atlas), raw@, iw as int, ih as int),
{
    let cols: usize = if iw / 32 >= 1 {
        iw / 32
    } else {
        1
    };
    let rows: usize = if ih / 32 >= 1 {
        ih / 32
    } else {
        1
    };
    let grass_row: usize = if 2 <= rows - 1 {
        2
    } else {
        rows - 1
    };
    let grass_cols: usize = if cols <= 3 {
        cols
    } else {
        3
    };
    let grass_variants = cut_row(raw, iw, ih, grass_row, 0, grass_cols);
    let water_row = rows - 1;
    let water_full = sheet_cell_exec(raw, iw, ih, 0, water_row);
    let edge_end: usize = if cols <= 8 {
        cols
    } else {
        8
    };
    let water_edges = cut_row(raw, iw, ih, water_row, 1, edge_end);
    let clay_row: usize = if 1 <= rows - 1 {
        1
    } else {
        rows - 1
    };
    let clay_variants = cut_row(raw, iw, ih, clay_row, 0, grass_cols);
    let def0 = sheet_cell_exec(raw, iw, ih, 0, grass_row);
    let def1 = if grass_cols > 1 {
        sheet_cell_exec(raw, iw, ih, 1, grass_row)
    } else {
        sheet_cell_exec(raw, iw, ih, 0, grass_row)
    };
    let forest_tile = if rows > 3 && cols > 7 {
        sheet_cell_exec(raw, iw, ih, 7, 3)
    } else {
        def1
    };
    let dep_row: usize = if 5 <= rows - 1 {
        5
    } else {
        rows - 1
    };
    let dep_cx: usize = if 6 <= cols - 1 {
        6
    } else {
        cols - 1
    };
    atlas.base_loaded = true;
    atlas.base_w = 32;
    atlas.base_h = 32;
    atlas.base_grass = def0;
    atlas.base_forest = forest_tile;
    atlas.base_water = water_full;
    atlas.base_clay = sheet_cell_exec(raw, iw, ih, dep_cx, dep_row);
    atlas.base_stone = sheet_cell_exec(raw, iw, ih, dep_cx, dep_row);
    atlas.base_iron = sheet_cell_exec(raw, iw, ih, dep_cx, dep_row);
    atlas.grass_variants = grass_variants;
    atlas.clay_variants = clay_variants;
    atlas.water_edges = water_edges;
}

/// A tile strip holds six tiles side by side (grass, forest, water, clay,
/// stone, iron) and its bytes are its pixels.
pub open spec fn strip_ok(len: int, iw: int, ih: int) -> bool {
    &&& 1 <= iw <= u32::MAX
    &&& 0 <= ih <= i32::MAX
    &&& iw * ih <= u32::MAX
    &&& (iw / 6) * ih * 4 <= i32::MAX
    &&& len == iw * ih * 4
}

/// Tile `i` of a strip `iw` pixels wide and `ih` tall.
pub open spec fn strip_tile(raw: Seq<u8>, iw: int, ih: int, i: int) -> Seq<u8> {
    cell_rows(raw, iw, i * (iw / 6), 0, iw / 6, ih)
}

proof fn lemma_strip_tile_inside(len: int, iw: int, ih: int, i: int)
    requires
        strip_ok(len, iw, ih),
        0 <= i < 6,
    ensures
        cell_inside(len, iw, i * (iw / 6), 0, iw / 6, ih),
{
    let tw = iw / 6;
    assert(i * tw + tw <= iw) by (nonlinear_arith)
        requires
            0 <= i < 6,
            tw == iw / 6,
            1 <= iw,
    ;
    if ih >= 1 {
        assert(((ih - 1) * iw + i * tw + tw) * 4 <= len) by (nonlinear_arith)
            requires
                i * tw + tw <= iw,
                len == iw * ih * 4,
                1 <= ih,
        ;
    }
    assert(0 <= i * tw) by (nonlinear_arith)
        requires
            0 <= i,
            0 <= tw,
    ;
}

/// Take the base tiles from a strip of six tiles.
pub fn load_tile_strip(atlas: &mut TileAtlas, raw: &Vec<u8>, iw: usize, ih: usize)
    requires
        strip_ok(raw.len() as int, iw as int, ih as int),
    ensures
        final(atlas).base_loaded,
        final(atlas).base_w == iw / 6,
        final(atlas).base_h == ih,
        final(atlas).base_grass@ == strip_tile(raw@, iw as int, ih as int, 0),
        final(atlas).base_forest@ == strip_tile(raw@, iw as int, ih as int, 1),
        final(atlas).base_water@ == strip_tile(raw@, iw as int, ih as int, 2),
        final(atlas).base_clay@ == strip_tile(raw@, iw as int, ih as int, 3),
        final(atlas).base_stone@ == strip_tile(raw@, iw as int, ih as int, 4),
        final(atlas).base_iron@ == strip_tile(raw@, iw as int, ih as int, 5),
        final(atlas).grass_variants == old(atlas).grass_variants,
        final(atlas).clay_variants == old(atlas).clay_variants,
        final(atlas).water_edges == old(atlas).water_edges,
        final(atlas).zoom_px == old(atlas).zoom_px,
        final(atlas).half_w == old(atlas).half_w,
        final(atlas).half_h == old(atlas).half_h,
{
    let tw = iw / 6;
    proof {
        lemma_strip_tile_inside(raw.len() as int, iw as int, ih as int, 0);
        lemma_strip_tile_inside(raw.len() as int, iw as int, ih as int, 1);
        lemma_strip_tile_inside(raw.len() as int, iw as int, ih as int, 2);
        lemma_strip_tile_inside(raw.len() as int, iw as int, ih as int, 3);
        lemma_strip_tile_inside(raw.len() as int, iw as int, ih as int, 4);
        lemma_strip_tile_inside(raw.len() as int, iw as int, ih as int, 5);
        assert(ih <= iw * ih) by (nonlinear_arith)
            requires
                1 <= iw,
                0 <= ih,
        ;
    }
    atlas.base_loaded = true;
    atlas.base_w = tw as i32;
    atlas.base_h = ih as i32;
    atlas.base_grass = cell_rgba(raw, iw, 0, 0, tw, ih);
    atlas.base_forest = cell_rgba(raw, iw, tw, 0, tw, ih);
    atlas.base_water = cell_rgba(raw, iw, 2 * tw, 0, tw, ih);
    atlas.base_clay = cell_rgba(raw, iw, 3 * tw, 0, tw, ih);
    atlas.base_stone = cell_rgba(raw, iw, 4 * tw, 0, tw, ih);
    atlas.base_iron = cell_rgba(raw, iw, 5 * tw, 0, tw, ih);
}

/// The width of one sprite in a strip of building or tree sprites: a base
/// tile's width once tiles are loaded, 64 before.
pub open spec fn strip_sprite_w(base_loaded: bool, base_w: i32) -> int {
    if base_loaded {
        base_w as int
    } else {
        64
    }
}

/// A strip of sprites can be cut: its sprites have a width, and the strip
/// is at least one sprite wide unless it is empty.
pub open spec fn strip_cuttable(base_loaded: bool, base_w: i32, iw: int, ih: int) -> bool {
    strip_sprite_w(base_loaded, base_w) >= 1 && (ih == 0 || iw >= strip_sprite_w(base_loaded, base_w))
}

/// How many sprites a strip `iw` pixels wide holds, at least one.
pub open spec fn strip_count(iw: int, w: int) -> int {
    if iw / w >= 1 {
        iw / w
    } else {
        1
    }
}

fn strip_size(atlas: &TileAtlas, iw: u32, ih: u32) -> (r: (i32, i32, u32))
    requires
        strip_cuttable(atlas.base_loaded, atlas.base_w, iw as int, ih as int),
    ensures
        r.0 == strip_sprite_w(atlas.base_loaded, atlas.base_w),
        r.1 == ih as i32,
        r.2 == strip_count(iw as int, strip_sprite_w(atlas.base_loaded, atlas.base_w)),
{
    let w: i32 = if atlas.base_loaded {
        atlas.base_w
    } else {
        64
    };
    let wu = w as u32;
    let cols = if iw / wu >= 1 {
        iw / wu
    } else {
        1
    };
    (w, ih as i32, cols)
}

/// The building atlas for a strip of building sprites `iw`×`ih` pixels,
/// with the number of sprites in it.
pub fn building_atlas_for(atlas: &TileAtlas, iw: u32, ih: u32) -> (r: (BuildingAtlas, u32))
    requires
        strip_cuttable(atlas.base_loaded, atlas.base_w, iw as int, ih as int),
    ensures
        r.0.w == strip_sprite_w(atlas.base_loaded, atlas.base_w),
        r.0.h == ih as i32,
        r.1 == strip_count(iw as int, strip_sprite_w(atlas.base_loaded, atlas.base_w)),
{
    let (w, h, n) = strip_size(atlas, iw, ih);
    (BuildingAtlas { w, h }, n)
}

/// The tree atlas for a strip of tree sprites `iw`×`ih` pixels.
pub fn tree_atlas_for(atlas: &TileAtlas, iw: u32, ih: u32) -> (r: TreeAtlas)
    requires
        strip_cuttable(atlas.base_loaded, atlas.base_w, iw as int, ih as int),
    ensures
        r.w == strip_sprite_w(atlas.base_loaded, atlas.base_w),
        r.h == ih as i32,
{
    let (w, h, _) = strip_size(atlas, iw, ih);
    TreeAtlas { w, h }
}

/// The sprite size of a props sheet: a 32-pixel grid when the sheet is at
/// least 32 pixels each way and divides by 32, else a 16-pixel grid when it
/// divides by 16, else 32; 16 for smaller sheets.
pub open spec fn props_sprite_size(iw: int, ih: int) -> int {
    if iw >= 32 && ih >= 32 {
        if iw % 32 == 0 && ih % 32 == 0 {
            32
        } else if iw % 16 == 0 && ih % 16 == 0 {
            16
        } else {
            32
        }
    } else {
        16
    }
}

/// The props atlas for a sheet `iw`×`ih` pixels.
pub fn props_atlas_for(iw: u32, ih: u32) -> (r: PropsAtlas)
    ensures
        r.w == iw as i32,
        r.h == ih as i32,
        r.sprite_w == props_sprite_size(iw as int, ih as int),
        r.sprite_h == props_sprite_size(iw as int, ih as int),
        r.cols == (iw / props_sprite_size(iw as int, ih as int) as u32) as i32,
        r.rows == (ih / props_sprite_size(iw as int, ih as int) as u32) as i32,
{
    let size: u32 = if iw >= 32 && ih >= 32 {
        if iw % 32 == 0 && ih % 32 == 0 {
            32
        } else if iw % 16 == 0 && ih % 16 == 0 {
            16
        } else {
            32
        }
    } else {
        16
    };
    PropsAtlas {
        w: iw as i32,
        h: ih as i32,
        sprite_w: size as i32,
        sprite_h: size as i32,
        cols: (iw / size) as i32,
        rows: (ih / size) as i32,
    }
}

} // verus!
