//! Software drawing into an RGBA frame: single pixels, citizen markers,
//! mood faces and sprite blits.

use vstd::prelude::*;
use crate::types::abs_int;

verus! {

/// The frame holds `w`×`h` RGBA pixels.
pub open spec fn frame_ok(len: int, w: int, h: int) -> bool {
    &&& 0 <= w
    &&& 0 <= h
    &&& w * h * 4 <= len
}

/// Byte offset of pixel (x, y) in a frame `w` pixels wide.
pub open spec fn pixel_at(w: int, x: int, y: int) -> int {
    (y * w + x) * 4
}

/// The bytes with the pixel at offset `i` set to `c`.
pub open spec fn painted(f: Seq<u8>, i: int, c: [u8; 4]) -> Seq<u8> {
    f.update(i, c[0]).update(i + 1, c[1]).update(i + 2, c[2]).update(i + 3, c[3])
}

/// The frame with pixel (x, y) set to `c` when it lies inside the frame.
pub open spec fn plot(f: Seq<u8>, w: int, h: int, x: int, y: int, c: [u8; 4]) -> Seq<u8> {
    if 0 <= x < w && 0 <= y < h {
        painted(f, pixel_at(w, x, y), c)
    } else {
        f
    }
}

proof fn lemma_pixel_in_frame(len: int, w: int, h: int, x: int, y: int)
    requires
        frame_ok(len, w, h),
        0 <= x < w,
        0 <= y < h,
    ensures
        0 <= pixel_at(w, x, y),
        pixel_at(w, x, y) + 4 <= w * h * 4,
{
    assert(y * w + x + 1 <= w * h) by (nonlinear_arith)
        requires
            0 <= x < w,
            0 <= y < h,
    ;
    assert(0 <= y * w) by (nonlinear_arith)
        requires
            0 <= y,
            0 <= w,
    ;
}

/// Set one pixel, when it lies inside the frame.
pub fn set_px(frame: &mut Vec<u8>, w: i32, h: i32, x: i32, y: i32, rgba: [u8; 4])
    requires
        frame_ok(old(frame).len() as int, w as int, h as int),
    ensures
        final(frame)@ == plot(old(frame)@, w as int, h as int, x as int, y as int, rgba),
        final(frame).len() == old(frame).len(),
{
    if x < 0 || y < 0 || x >= w || y >= h {
        return ;
    }
    proof {
        lemma_pixel_in_frame(frame.len() as int, w as int, h as int, x as int, y as int);
    }
    let i = (y as usize * w as usize + x as usize) * 4;
    frame.set(i, rgba[0]);
    frame.set(i + 1, rgba[1]);
    frame.set(i + 2, rgba[2]);
    frame.set(i + 3, rgba[3]);
}

// ---------------------------------------------------------------- markers

/// Row `dy` of the marker disc of radius `r` around (cx, cy), its first `n`
/// columns (from `-r`) drawn.
pub open spec fn marker_row(
    f: Seq<u8>,
    w: int,
    h: int,
    cx: int,
    cy: int,
    r: int,
    dy: int,
    c: [u8; 4],
    n: int,
) -> Seq<u8>
    decreases n,
{
    if n <= 0 {
        f
    } else {
        let prev = marker_row(f, w, h, cx, cy, r, dy, c, n - 1);
        let dx = n - 1 - r;
        if dx * dx + dy * dy <= r * r {
            plot(prev, w, h, cx + dx, cy + dy, c)
        } else {
            prev
        }
    }
}

/// The first `n` rows (from `-r`) of the marker disc drawn.
pub open spec fn marker_rows(f: Seq<u8>, w: int, h: int, cx: int, cy: int, r: int, c: [u8; 4], n: int) -> Seq<u8>
    decreases n,
{
    if n <= 0 {
        f
    } else {
        marker_row(marker_rows(f, w, h, cx, cy, r, c, n - 1), w, h, cx, cy, r, n - 1 - r, c, 2 * r + 1)
    }
}

/// The radius a marker is drawn with: at least 1, at most 12.
pub open spec fn marker_radius(radius: i32) -> int {
    if radius < 1 {
        1
    } else if radius > 12 {
        12
    } else {
        radius as int
    }
}

/// A position whose neighbourhood of `m` pixels stays within `i32`.
pub open spec fn room_around(x: int, y: int, m: int) -> bool {
    i32::MIN + m <= x <= i32::MAX - m && i32::MIN + m <= y <= i32::MAX - m
}

/// A filled disc marking a citizen: every pixel within the clamped radius
/// of (cx, cy), rows from the top, each from the left.
pub fn draw_citizen_marker(frame: &mut Vec<u8>, width: i32, height: i32, cx: i32, cy: i32, radius: i32, color: [u8; 4])
    requires
        frame_ok(old(frame).len() as int, width as int, height as int),
        room_around(cx as int, cy as int, 12),
    ensures
        final(frame)@ == marker_rows(
            old(frame)@,
            width as int,
            height as int,
            cx as int,
            cy as int,
            marker_radius(radius),
            color,
            2 * marker_radius(radius) + 1,
        ),
{
    let r: i32 = if radius < 1 {
        1
    } else if radius > 12 {
        12
    } else {
        radius
    };
    assert(0 <= r * r <= 144) by (nonlinear_arith)
        requires
            1 <= r <= 12,
    ;
    let r2 = r * r;
    let ghost f0 = frame@;
    let mut dy: i32 = -r;
    while dy <= r
        invariant
            1 <= r <= 12,
            r2 == r * r,
            -r <= dy <= r + 1,
            room_around(cx as int, cy as int, 12),
            frame_ok(frame.len() as int, width as int, height as int),
            frame@ == marker_rows(f0, width as int, height as int, cx as int, cy as int, r as int, color, dy + r),
        decreases r + 1 - dy,
    {
        let ghost row_start = frame@;
        let mut dx: i32 = -r;
        while dx <= r
            invariant
                1 <= r <= 12,
                r2 == r * r,
                -r <= dy <= r,
                -r <= dx <= r + 1,
                room_around(cx as int, cy as int, 12),
                frame_ok(frame.len() as int, width as int, height as int),
                frame@ == marker_row(
                    row_start,
                    width as int,
                    height as int,
                    cx as int,
                    cy as int,
                    r as int,
                    dy as int,
                    color,
                    dx + r,
                ),
            decreases r + 1 - dx,
        {
            assert(0 <= dx * dx <= 144 && 0 <= dy * dy <= 144) by (nonlinear_arith)
                requires
                    -12 <= dx <= 12,
                    -12 <= dy <= 12,
            ;
            if dx * dx + dy * dy <= r2 {
                set_px(frame, width, height, cx + dx, cy + dy, color);
            }
            dx += 1;
        }
        dy += 1;
    }
}

// ---------------------------------------------------------------- faces

/// Pixels (x0 .. x1, y) set to `c`, the first `n` of them.
pub open spec fn hline(f: Seq<u8>, w: int, h: int, x0: int, y: int, c: [u8; 4], n: int) -> Seq<u8>
    decreases n,
{
    if n <= 0 {
        f
    } else {
        plot(hline(f, w, h, x0, y, c, n - 1), w, h, x0 + n - 1, y, c)
    }
}

fn draw_hline(frame: &mut Vec<u8>, w: i32, h: i32, x0: i32, x1: i32, y: i32, c: [u8; 4])
    requires
        frame_ok(old(frame).len() as int, w as int, h as int),
        x0 <= x1 + 1,
        x1 < i32::MAX,
    ensures
        final(frame)@ == hline(old(frame)@, w as int, h as int, x0 as int, y as int, c, x1 - x0 + 1),
        final(frame).len() == old(frame).len(),
{
    let ghost f0 = frame@;
    let mut x = x0;
    while x <= x1
        invariant
            x0 <= x <= x1 + 1,
            frame.len() == f0.len(),
            x1 < i32::MAX,
            frame_ok(frame.len() as int, w as int, h as int),
            frame@ == hline(f0, w as int, h as int, x0 as int, y as int, c, x - x0),
        decreases x1 + 1 - x,
    {
        set_px(frame, w, h, x, y, c);
        x += 1;
    }
}

pub open spec fn white() -> [u8; 4] {
    [255, 255, 255, 255]
}

/// A small mood face at (x, y) with pixel size `p` (at least 1): a sad one
/// (`kind` 0: frown in pink), a happy one (2: smile in yellow) or a
/// neutral one (otherwise: straight grey mouth), each with two white eyes.
pub open spec fn emote(f: Seq<u8>, w: int, h: int, x: int, y: int, kind: u8, p: int) -> Seq<u8> {
    let eyes = plot(plot(f, w, h, x - 2 * p, y, white()), w, h, x + 2 * p, y, white());
    if kind == 0 {
        let c: [u8; 4] = [255, 200, 200, 255];
        let mouth = hline(eyes, w, h, x - 2 * p, y + 3 * p, c, 4 * p + 1);
        plot(plot(mouth, w, h, x - 3 * p, y + 2 * p, c), w, h, x + 3 * p, y + 2 * p, c)
    } else if kind == 2 {
        let c: [u8; 4] = [255, 255, 0, 255];
        let mouth = hline(eyes, w, h, x - 2 * p, y + 2 * p, c, 4 * p + 1);
        plot(plot(mouth, w, h, x - 3 * p, y + p, c), w, h, x + 3 * p, y + p, c)
    } else {
        hline(eyes, w, h, x - 2 * p, y + 2 * p, [220, 220, 220, 255], 4 * p + 1)
    }
}

/// The pixel size of a face: at least 1.
pub open spec fn face_size(s: i32) -> int {
    if s < 1 {
        1
    } else {
        s as int
    }
}

/// Draw a mood face.
pub fn draw_emote(frame: &mut Vec<u8>, width: i32, height: i32, x: i32, y: i32, kind: u8, s: i32)
    requires
        frame_ok(old(frame).len() as int, width as int, height as int),
        room_around(x as int, y as int, 3 * face_size(s) + 1),
    ensures
        final(frame)@ == emote(old(frame)@, width as int, height as int, x as int, y as int, kind, face_size(s)),
{
    let px: i32 = if s < 1 {
        1
    } else {
        s
    };
    let white: [u8; 4] = [255, 255, 255, 255];
    set_px(frame, width, height, x - 2 * px, y, white);
    set_px(frame, width, height, x + 2 * px, y, white);
    if kind == 0 {
        let c: [u8; 4] = [255, 200, 200, 255];
        draw_hline(frame, width, height, x - 2 * px, x + 2 * px, y + 3 * px, c);
        set_px(frame, width, height, x - 3 * px, y + 2 * px, c);
        set_px(frame, width, height, x + 3 * px, y + 2 * px, c);
    } else if kind == 2 {
        let c: [u8; 4] = [255, 255, 0, 255];
        draw_hline(frame, width, height, x - 2 * px, x + 2 * px, y + 2 * px, c);
        set_px(frame, width, height, x - 3 * px, y + px, c);
        set_px(frame, width, height, x + 3 * px, y + px, c);
    } else {
        draw_hline(frame, width, height, x - 2 * px, x + 2 * px, y + 2 * px, [220, 220, 220, 255]);
    }
}

/// `v / d` rounded toward zero, as integer division does in code.
pub open spec fn div_toward_zero(v: int, d: int) -> int {
    if v >= 0 {
        v / d
    } else {
        -((-v) / d)
    }
}

/// The eye size of a face on a marker of radius `r`: a quarter of it, at least 1.
pub open spec fn marker_eye_size(r: int) -> int {
    max_i(div_toward_zero(r, 4), 1)
}

/// How far each eye sits from the centre: half the radius, at least 2.
pub open spec fn marker_eye_offset(r: int) -> int {
    max_i(div_toward_zero(r, 2), 2)
}

/// Row `y` of the eyes, its first `n` columns done: column `k` sets a pixel
/// of the left eye, `k` right of its outer edge, then its mirror in the right eye.
pub open spec fn eye_cols(f: Seq<u8>, w: int, h: int, cx: int, off: int, y: int, n: int) -> Seq<u8>
    decreases n,
{
    if n <= 0 {
        f
    } else {
        let k = n - 1;
        plot(plot(eye_cols(f, w, h, cx, off, y, n - 1), w, h, cx - off + k, y, white()), w, h, cx + off - k, y, white())
    }
}

/// The first `n` rows of both `t`×`t` eyes, from row `y0`.
pub open spec fn eye_rows(f: Seq<u8>, w: int, h: int, cx: int, off: int, y0: int, t: int, n: int) -> Seq<u8>
    decreases n,
{
    if n <= 0 {
        f
    } else {
        eye_cols(eye_rows(f, w, h, cx, off, y0, t, n - 1), w, h, cx, off, y0 + n - 1, t)
    }
}

/// The first `n` rows of a mouth from `x0` to `x1`, from row `y0`.
pub open spec fn mouth_rows(f: Seq<u8>, w: int, h: int, x0: int, x1: int, y0: int, c: [u8; 4], n: int) -> Seq<u8>
    decreases n,
{
    if n <= 0 {
        f
    } else {
        hline(mouth_rows(f, w, h, x0, x1, y0, c, n - 1), w, h, x0, y0 + n - 1, c, x1 - x0 + 1)
    }
}

/// The first `n` of the pixel pairs that bend a mouth's ends: pair `k` sets
/// both ends `up * (t - k)` pixels above the mouth's row `y`.
pub open spec fn mouth_ends(
    f: Seq<u8>,
    w: int,
    h: int,
    x0: int,
    x1: int,
    y: int,
    up: int,
    t: int,
    c: [u8; 4],
    n: int,
) -> Seq<u8>
    decreases n,
{
    if n <= 0 {
        f
    } else {
        let k = n - 1;
        let yk = y - up * (t - k);
        plot(plot(mouth_ends(f, w, h, x0, x1, y, up, t, c, n - 1), w, h, x0, yk, c), w, h, x1, yk, c)
    }
}

/// The mouth's colour for a mood: yellow when happy (2), pink when unhappy
/// (0), grey otherwise.
pub open spec fn mouth_color(kind: u8) -> [u8; 4] {
    if kind == 2 {
        [255, 255, 0, 255]
    } else if kind == 0 {
        [255, 160, 160, 255]
    } else {
        [220, 220, 220, 255]
    }
}

/// How the mouth's ends bend: up when happy (2), down when unhappy (0),
/// not at all otherwise.
pub open spec fn mouth_bend(kind: u8) -> int {
    if kind == 2 {
        1
    } else if kind == 0 {
        -1
    } else {
        0
    }
}

/// A face on a citizen's marker of radius `r` at (cx, cy): two white square
/// eyes `t` = `marker_eye_size(r)` wide above the centre, a mouth `t` rows
/// thick from `cx - mouth_w / 2` to `cx + mouth_w / 2` (rounded toward zero)
/// `t` below the centre, and, for a happy or unhappy mood, its ends bent
/// `t` pixels up or down.
pub open spec fn marker_face(f: Seq<u8>, w: int, h: int, cx: int, cy: int, r: int, mouth_w: int, kind: u8) -> Seq<
    u8,
> {
    let t = marker_eye_size(r);
    let off = marker_eye_offset(r);
    let eyes = eye_rows(f, w, h, cx, off, cy - t, t, t);
    let x0 = cx - div_toward_zero(mouth_w, 2);
    let x1 = cx + div_toward_zero(mouth_w, 2);
    let c = mouth_color(kind);
    let mouth = mouth_rows(eyes, w, h, x0, x1, cy + t, c, t);
    if mouth_bend(kind) != 0 {
        mouth_ends(mouth, w, h, x0, x1, cy + t, mouth_bend(kind), t, c, t + 1)
    } else {
        mouth
    }
}

fn div_toward_zero_exec(v: i32, d: i32) -> (q: i32)
    requires
        v > i32::MIN,
        d >= 1,
    ensures
        q == div_toward_zero(v as int, d as int),
        abs_int(q as int) <= abs_int(v as int),
{
    if v >= 0 {
        v / d
    } else {
        -((-v) / d)
    }
}

/// Draw a face on a citizen's marker of radius `r`, with a mouth `mouth_w`
/// pixels wide: the eyes row by row, each row's pixel pairs from the
/// outside in, then the mouth row by row, then the bent ends from the
/// farthest pixel to the mouth's row.
pub fn draw_marker_face(
    frame: &mut Vec<u8>,
    width: i32,
    height: i32,
    cx: i32,
    cy: i32,
    r: i32,
    mouth_w: i32,
    kind: u8,
)
    requires
        frame_ok(old(frame).len() as int, width as int, height as int),
        r > i32::MIN,
        mouth_w > i32::MIN,
        i32::MIN <= cx - marker_eye_offset(r as int) - marker_eye_size(r as int),
        cx + marker_eye_offset(r as int) + marker_eye_size(r as int) <= i32::MAX,
        i32::MIN <= cx - abs_int(div_toward_zero(mouth_w as int, 2)),
        cx + abs_int(div_toward_zero(mouth_w as int, 2)) < i32::MAX,
        i32::MIN <= cy - 2 * marker_eye_size(r as int),
        cy + 2 * marker_eye_size(r as int) <= i32::MAX,
    ensures
        final(frame)@ == marker_face(
            old(frame)@,
            width as int,
            height as int,
            cx as int,
            cy as int,
            r as int,
            mouth_w as int,
            kind,
        ),
{
    let q = div_toward_zero_exec(r, 4);
    let t: i32 = if q > 1 {
        q
    } else {
        1
    };
    let h2 = div_toward_zero_exec(r, 2);
    let off: i32 = if h2 > 2 {
        h2
    } else {
        2
    };
    let ghost f0 = frame@;
    let eye_y: i32 = cy - t;
    let mut dy: i32 = 0;
    while dy < t
        invariant
            0 <= dy <= t,
            t == marker_eye_size(r as int),
            off == marker_eye_offset(r as int),
            1 <= t,
            2 <= off,
            i32::MIN <= cx - off - t,
            cx + off + t <= i32::MAX,
            eye_y == cy - t,
            cy + 2 * t <= i32::MAX,
            frame.len() == f0.len(),
            frame_ok(frame.len() as int, width as int, height as int),
            frame@ == eye_rows(f0, width as int, height as int, cx as int, off as int, eye_y as int, t as int, dy as int),
        decreases t - dy,
    {
        let ghost row_start = frame@;
        let mut dx: i32 = 0;
        while dx < t
            invariant
                0 <= dy < t,
                0 <= dx <= t,
                1 <= t,
                2 <= off,
                i32::MIN <= cx - off - t,
                cx + off + t <= i32::MAX,
                eye_y == cy - t,
                cy + 2 * t <= i32::MAX,
                frame.len() == f0.len(),
                frame_ok(frame.len() as int, width as int, height as int),
                frame@ == eye_cols(row_start, width as int, height as int, cx as int, off as int, (eye_y + dy) as int, dx as int),
            decreases t - dx,
        {
            set_px(frame, width, height, cx - off + dx, eye_y + dy, [255, 255, 255, 255]);
            set_px(frame, width, height, cx + off - dx, eye_y + dy, [255, 255, 255, 255]);
            dx += 1;
        }
        dy += 1;
    }
    let half = div_toward_zero_exec(mouth_w, 2);
    let mx0: i32 = cx - half;
    let mx1: i32 = cx + half;
    let my: i32 = cy + t;
    let col: [u8; 4] = if kind == 2 {
        [255, 255, 0, 255]
    } else if kind == 0 {
        [255, 160, 160, 255]
    } else {
        [220, 220, 220, 255]
    };
    let up: i32 = if kind == 2 {
        1
    } else if kind == 0 {
        -1
    } else {
        0
    };
    let ghost f1 = frame@;
    let mut yoff: i32 = 0;
    while yoff < t
        invariant
            0 <= yoff <= t,
            my == cy + t,
            cy + 2 * t <= i32::MAX,
            mx1 < i32::MAX,
            frame.len() == f0.len(),
            frame_ok(frame.len() as int, width as int, height as int),
            frame@ == mouth_rows(f1, width as int, height as int, mx0 as int, mx1 as int, my as int, col, yoff as int),
        decreases t - yoff,
    {
        if mx0 <= mx1 {
            draw_hline(frame, width, height, mx0, mx1, my + yoff, col);
        }
        yoff += 1;
    }
    if up != 0 {
        let ghost f2 = frame@;
        let mut k: i32 = 0;
        while k <= t
            invariant
                0 <= k <= t + 1,
                1 <= t,
                my == cy + t,
                i32::MIN <= cy - 2 * t,
                cy + 2 * t <= i32::MAX,
                up == 1 || up == -1,
                frame.len() == f0.len(),
                frame_ok(frame.len() as int, width as int, height as int),
                frame@ == mouth_ends(
                    f2,
                    width as int,
                    height as int,
                    mx0 as int,
                    mx1 as int,
                    my as int,
                    up as int,
                    t as int,
                    col,
                    k as int,
                ),
            decreases t + 1 - k,
        {
            let yk: i32 = my - up * (t - k);
            set_px(frame, width, height, mx0, yk, col);
            set_px(frame, width, height, mx1, yk, col);
            k += 1;
        }
    }
}

// ---------------------------------------------------------------- trees

/// Pixels (x, y0 ..) set to `c`, the first `n` of them going down.
pub open spec fn vline(f: Seq<u8>, w: int, h: int, x: int, y0: int, c: [u8; 4], n: int) -> Seq<u8>
    decreases n,
{
    if n <= 0 {
        f
    } else {
        plot(vline(f, w, h, x, y0, c, n - 1), w, h, x, y0 + n - 1, c)
    }
}

/// Half the width of row `yy` (from `-rh` to `rh`) of a leafy diamond `rw`
/// wide and `rh` high on each side of its centre.
pub open spec fn crown_span(rw: int, rh: int, yy: int) -> int {
    rw - rw * abs_int(yy) / rh
}

/// The first `n` rows of a tree's crown over (cx, cy), from the top row
/// `yy = -rh`: each row is a line `2 * crown_span + 1` pixels wide centred
/// on `cx`, `rh` pixels higher than the row's offset.
pub open spec fn crown_rows(f: Seq<u8>, w: int, h: int, cx: int, cy: int, rw: int, rh: int, c: [u8; 4], n: int) -> Seq<
    u8,
>
    decreases n,
{
    if n <= 0 {
        f
    } else {
        let yy = -rh + n - 1;
        let span = crown_span(rw, rh, yy);
        hline(crown_rows(f, w, h, cx, cy, rw, rh, c, n - 1), w, h, cx - span, cy + yy - rh, c, 2 * span + 1)
    }
}

pub open spec fn trunk_color() -> [u8; 4] {
    [90, 60, 40, 255]
}

pub open spec fn leaf_color() -> [u8; 4] {
    [40, 120, 60, 255]
}

/// A tree standing on (cx, cy): a brown trunk from `trunk_h` pixels above
/// down to (cx, cy), then, drawn over it, a green diamond crown `2 * rw + 1`
/// wide and `2 * rh + 1` high whose bottom tip is (cx, cy).
pub open spec fn tree(f: Seq<u8>, w: int, h: int, cx: int, cy: int, trunk_h: int, rw: int, rh: int) -> Seq<u8> {
    let trunk = vline(f, w, h, cx, cy - trunk_h, trunk_color(), trunk_h + 1);
    crown_rows(trunk, w, h, cx, cy, rw, rh, leaf_color(), 2 * rh + 1)
}

proof fn lemma_crown_span(rw: int, rh: int, yy: int)
    requires
        0 <= rw,
        1 <= rh,
        abs_int(yy) <= rh,
    ensures
        0 <= crown_span(rw, rh, yy) <= rw,
{
    let a = abs_int(yy);
    assert(0 <= rw * a <= rw * rh) by (nonlinear_arith)
        requires
            0 <= rw,
            0 <= a <= rh,
    ;
    assert(rw * a / rh <= rw) by (nonlinear_arith)
        requires
            0 <= rw * a <= rw * rh,
            1 <= rh,
    ;
    assert(0 <= rw * a / rh) by (nonlinear_arith)
        requires
            0 <= rw * a,
            1 <= rh,
    ;
}

/// Draw a tree's shape: the trunk `trunk_h` pixels up from (cx, cy), top
/// down, then the crown row by row from the top, each row from the left.
pub fn draw_tree_shape(frame: &mut Vec<u8>, width: i32, height: i32, cx: i32, cy: i32, trunk_h: i32, rw: i32, rh: i32)
    requires
        frame_ok(old(frame).len() as int, width as int, height as int),
        0 <= trunk_h,
        0 <= rw,
        1 <= rh,
        i32::MIN <= cx - rw,
        cx + rw < i32::MAX,
        i32::MIN <= cy - trunk_h,
        i32::MIN <= cy - 2 * rh,
    ensures
        final(frame)@ == tree(
            old(frame)@,
            width as int,
            height as int,
            cx as int,
            cy as int,
            trunk_h as int,
            rw as int,
            rh as int,
        ),
{
    let ghost f0 = frame@;
    let top: i64 = cy as i64 - trunk_h as i64;
    let mut y: i64 = top;
    while y <= cy as i64
        invariant
            top == cy - trunk_h,
            top <= y <= cy + 1,
            i32::MIN <= top,
            frame.len() == f0.len(),
            frame_ok(frame.len() as int, width as int, height as int),
            frame@ == vline(f0, width as int, height as int, cx as int, top as int, trunk_color(), y - top),
        decreases cy + 1 - y,
    {
        set_px(frame, width, height, cx, y as i32, [90, 60, 40, 255]);
        y += 1;
    }
    let ghost f1 = frame@;
    let mut yy: i64 = -(rh as i64);
    while yy <= rh as i64
        invariant
            -rh <= yy <= rh + 1,
            0 <= rw,
            1 <= rh,
            i32::MIN <= cx - rw,
            cx + rw < i32::MAX,
            i32::MIN <= cy - 2 * rh,
            frame.len() == f0.len(),
            frame_ok(frame.len() as int, width as int, height as int),
            frame@ == crown_rows(
                f1,
                width as int,
                height as int,
                cx as int,
                cy as int,
                rw as int,
                rh as int,
                leaf_color(),
                yy + rh,
            ),
        decreases rh + 1 - yy,
    {
        let a: i64 = if yy < 0 {
            -yy
        } else {
            yy
        };
        proof {
            lemma_crown_span(rw as int, rh as int, yy as int);
            assert(rw * a <= 0x7fff_ffff * 0x7fff_ffff) by (nonlinear_arith)
                requires
                    0 <= rw <= 0x7fff_ffff,
                    0 <= a <= 0x7fff_ffff,
            ;
            assert(0 <= rw * a) by (nonlinear_arith)
                requires
                    0 <= rw,
                    0 <= a,
            ;
        }
        let span: i64 = rw as i64 - (rw as i64 * a) / rh as i64;
        assert(span == crown_span(rw as int, rh as int, yy as int));
        let row: i32 = (cy as i64 + yy - rh as i64) as i32;
        draw_hline(frame, width, height, (cx as i64 - span) as i32, (cx as i64 + span) as i32, row, [40, 120, 60, 255]);
        yy += 1;
    }
}

// ---------------------------------------------------------------- sprites

/// A source channel blended over a destination channel with alpha `sa`.
pub open spec fn blend(s: u8, d: u8, sa: int) -> u8 {
    ((sa * s + (255 - sa) * d) / 255) as u8
}

/// The frame after blending the sprite pixel that lands on (dx, dy): the
/// sprite's alpha is scaled by `ga`; a pixel left fully transparent changes
/// nothing, another is blended in and made opaque.
pub open spec fn blit_px(
    f: Seq<u8>,
    fw: int,
    src: Seq<u8>,
    w: int,
    x: int,
    y: int,
    dx: int,
    dy: int,
    ga: int,
) -> Seq<u8> {
    let si = pixel_at(w, dx - x, dy - y);
    let di = pixel_at(fw, dx, dy);
    let sa = src[si + 3] * ga / 255;
    if sa == 0 {
        f
    } else {
        f.update(di, blend(src[si], f[di], sa)).update(di + 1, blend(src[si + 1], f[di + 1], sa)).update(
            di + 2,
            blend(src[si + 2], f[di + 2], sa),
        ).update(di + 3, 255u8)
    }
}

/// Row `dy` of a blit, its first `n` columns from `x0` done.
pub open spec fn blit_row(
    f: Seq<u8>,
    fw: int,
    src: Seq<u8>,
    w: int,
    x: int,
    y: int,
    dy: int,
    x0: int,
    ga: int,
    n: int,
) -> Seq<u8>
    decreases n,
{
    if n <= 0 {
        f
    } else {
        blit_px(blit_row(f, fw, src, w, x, y, dy, x0, ga, n - 1), fw, src, w, x, y, x0 + n - 1, dy, ga)
    }
}

/// The first `n` rows of a blit from row `y0`, columns `x0` to `x1`.
pub open spec fn blit_rows(
    f: Seq<u8>,
    fw: int,
    src: Seq<u8>,
    w: int,
    x: int,
    y: int,
    x0: int,
    x1: int,
    y0: int,
    ga: int,
    n: int,
) -> Seq<u8>
    decreases n,
{
    if n <= 0 {
        f
    } else {
        blit_row(blit_rows(f, fw, src, w, x, y, x0, x1, y0, ga, n - 1), fw, src, w, x, y, y0 + n - 1, x0, ga, x1 - x0)
    }
}

pub open spec fn max_i(a: int, b: int) -> int {
    if a >= b {
        a
    } else {
        b
    }
}

pub open spec fn min_i(a: int, b: int) -> int {
    if a <= b {
        a
    } else {
        b
    }
}

/// What a sprite blit at (x, y) does: the part of the `w`×`h` sprite that
/// lands inside the `fw`×`fh` frame is blended in, row by row.
pub open spec fn blitted(f: Seq<u8>, fw: int, fh: int, x: int, y: int, src: Seq<u8>, w: int, h: int, ga: int) -> Seq<u8> {
    let x0 = max_i(x, 0);
    let y0 = max_i(y, 0);
    let x1 = min_i(x + w, fw);
    let y1 = min_i(y + h, fh);
    if x0 >= x1 || y0 >= y1 {
        f
    } else {
        blit_rows(f, fw, src, w, x, y, x0, x1, y0, ga, y1 - y0)
    }
}

proof fn lemma_offset_inside(w: int, h: int, x: int, y: int)
    requires
        0 <= x < w,
        0 <= y < h,
    ensures
        0 <= pixel_at(w, x, y),
        pixel_at(w, x, y) + 4 <= w * h * 4,
{
    assert(y * w + x + 1 <= w * h) by (nonlinear_arith)
        requires
            0 <= x < w,
            0 <= y < h,
    ;
    assert(0 <= y * w) by (nonlinear_arith)
        requires
            0 <= y,
            0 <= w,
    ;
}

fn blend_channel(s: u8, d: u8, sa: u32) -> (r: u8)
    requires
        sa <= 255,
    ensures
        r == blend(s, d, sa as int),
{
    let a: u32 = s as u32;
    let b: u32 = d as u32;
    assert(sa * a + (255 - sa) * b <= 255 * 255) by (nonlinear_arith)
        requires
            sa <= 255,
            a <= 255,
            b <= 255,
    ;
    ((sa * a + (255 - sa) * b) / 255) as u8
}

/// Blend a `w`×`h` RGBA sprite into the frame at (x, y), unscaled, with its
/// alpha scaled by `global_alpha`.
pub fn blit_sprite_alpha_noscale_tinted(
    frame: &mut Vec<u8>,
    fw: i32,
    fh: i32,
    x: i32,
    y: i32,
    src: &Vec<u8>,
    w: i32,
    h: i32,
    global_alpha: u8,
)
    requires
        0 <= fw,
        0 <= fh,
        fw * fh * 4 <= old(frame).len(),
        w <= 0 || h <= 0 || w * h * 4 <= src.len(),
        i32::MIN <= x + w <= i32::MAX,
        i32::MIN <= y + h <= i32::MAX,
    ensures
        final(frame)@ == blitted(
            old(frame)@,
            fw as int,
            fh as int,
            x as int,
            y as int,
            src@,
            w as int,
            h as int,
            global_alpha as int,
        ),
{
    let dst_x0 = if x > 0 {
        x
    } else {
        0
    };
    let dst_y0 = if y > 0 {
        y
    } else {
        0
    };
    let dst_x1 = if x + w < fw {
        x + w
    } else {
        fw
    };
    let dst_y1 = if y + h < fh {
        y + h
    } else {
        fh
    };
    if dst_x0 >= dst_x1 || dst_y0 >= dst_y1 {
        return ;
    }
    let ga = global_alpha as u32;
    let ghost f0 = frame@;
    let mut dy = dst_y0;
    while dy < dst_y1
        invariant
            dst_y0 <= dy <= dst_y1,
            0 <= dst_x0 < dst_x1 <= fw,
            0 <= dst_y0 < dst_y1 <= fh,
            dst_x0 >= x,
            dst_y0 >= y,
            dst_x1 <= x + w,
            dst_y1 <= y + h,
            w * h * 4 <= src.len(),
            fw * fh * 4 <= frame.len(),
            ga == global_alpha as u32,
            frame@ == blit_rows(
                f0,
                fw as int,
                src@,
                w as int,
                x as int,
                y as int,
                dst_x0 as int,
                dst_x1 as int,
                dst_y0 as int,
                ga as int,
                dy - dst_y0,
            ),
        decreases dst_y1 - dy,
    {
        let ghost row_start = frame@;
        let mut dx = dst_x0;
        while dx < dst_x1
            invariant
                dst_y0 <= dy < dst_y1,
                dst_x0 <= dx <= dst_x1,
                0 <= dst_x0 < dst_x1 <= fw,
                0 <= dst_y0 < dst_y1 <= fh,
                dst_x0 >= x,
                dst_y0 >= y,
                dst_x1 <= x + w,
                dst_y1 <= y + h,
                w * h * 4 <= src.len(),
                fw * fh * 4 <= frame.len(),
                ga == global_alpha as u32,
                frame@ == blit_row(
                    row_start,
                    fw as int,
                    src@,
                    w as int,
                    x as int,
                    y as int,
                    dy as int,
                    dst_x0 as int,
                    ga as int,
                    dx - dst_x0,
                ),
            decreases dst_x1 - dx,
        {
            proof {
                lemma_offset_inside(w as int, h as int, (dx - x) as int, (dy - y) as int);
                lemma_offset_inside(fw as int, fh as int, dx as int, dy as int);
            }
            let sidx = (((dy - y) as usize) * (w as usize) + ((dx - x) as usize)) * 4;
            let didx = ((dy as usize) * (fw as usize) + (dx as usize)) * 4;
            let sa0 = src[sidx + 3] as u32;
            assert(sa0 * ga <= 255 * 255) by (nonlinear_arith)
                requires
                    sa0 <= 255,
                    ga <= 255,
            ;
            let sa = (sa0 * ga) / 255;
            if sa != 0 {
                let r = blend_channel(src[sidx], frame[didx], sa);
                let g = blend_channel(src[sidx + 1], frame[didx + 1], sa);
                let b = blend_channel(src[sidx + 2], frame[didx + 2], sa);
                frame.set(didx, r);
                frame.set(didx + 1, g);
                frame.set(didx + 2, b);
                frame.set(didx + 3, 255);
            }
            dx += 1;
        }
        dy += 1;
    }
}

/// A sprite channel mixed towards a tint channel at strength `k` (of 255).
pub open spec fn tint_channel(s: u8, t: u8, k: int) -> u8 {
    ((s * (255 - k) + t * k) / 255) as u8
}

/// The frame after blending the pixel of a scaled sprite that lands on
/// (dx, dy): the source pixel is the one at column `xs[dx - x]` and row
/// `ys[dy - y]`; its colour is mixed towards `tint` at strength `k` and its
/// alpha scaled by `ga`. A pixel left fully transparent changes nothing,
/// another is blended in and made opaque.
pub open spec fn scaled_px(
    f: Seq<u8>,
    fw: int,
    src: Seq<u8>,
    sw: int,
    xs: Seq<i32>,
    ys: Seq<i32>,
    x: int,
    y: int,
    dx: int,
    dy: int,
    tint: [u8; 3],
    k: int,
    ga: int,
) -> Seq<u8> {
    let si = pixel_at(sw, xs[dx - x] as int, ys[dy - y] as int);
    let di = pixel_at(fw, dx, dy);
    let sa = src[si + 3] * ga / 255;
    if sa == 0 {
        f
    } else {
        f.update(di, blend(tint_channel(src[si], tint[0], k), f[di], sa)).update(
            di + 1,
            blend(tint_channel(src[si + 1], tint[1], k), f[di + 1], sa),
        ).update(di + 2, blend(tint_channel(src[si + 2], tint[2], k), f[di + 2], sa)).update(di + 3, 255u8)
    }
}

/// Row `dy` of a scaled blit, its first `n` columns from `x0` done.
pub open spec fn scaled_row(
    f: Seq<u8>,
    fw: int,
    src: Seq<u8>,
    sw: int,
    xs: Seq<i32>,
    ys: Seq<i32>,
    x: int,
    y: int,
    dy: int,
    x0: int,
    tint: [u8; 3],
    k: int,
    ga: int,
    n: int,
) -> Seq<u8>
    decreases n,
{
    if n <= 0 {
        f
    } else {
        scaled_px(
            scaled_row(f, fw, src, sw, xs, ys, x, y, dy, x0, tint, k, ga, n - 1),
            fw,
            src,
            sw,
            xs,
            ys,
            x,
            y,
            x0 + n - 1,
            dy,
            tint,
            k,
            ga,
        )
    }
}

/// The first `n` rows of a scaled blit from row `y0`, columns `x0` to `x1`.
pub open spec fn scaled_rows(
    f: Seq<u8>,
    fw: int,
    src: Seq<u8>,
    sw: int,
    xs: Seq<i32>,
    ys: Seq<i32>,
    x: int,
    y: int,
    x0: int,
    x1: int,
    y0: int,
    tint: [u8; 3],
    k: int,
    ga: int,
    n: int,
) -> Seq<u8>
    decreases n,
{
    if n <= 0 {
        f
    } else {
        scaled_row(
            scaled_rows(f, fw, src, sw, xs, ys, x, y, x0, x1, y0, tint, k, ga, n - 1),
            fw,
            src,
            sw,
            xs,
            ys,
            x,
            y,
            y0 + n - 1,
            x0,
            tint,
            k,
            ga,
            x1 - x0,
        )
    }
}

/// What a scaled blit at (x, y) does: the sprite is drawn `xs.len()` pixels
/// wide and `ys.len()` high, destination column `x + i` taking source column
/// `xs[i]` and destination row `y + j` source row `ys[j]`; the part that
/// lands inside the `fw`×`fh` frame is blended in, row by row.
pub open spec fn scaled_blitted(
    f: Seq<u8>,
    fw: int,
    fh: int,
    x: int,
    y: int,
    src: Seq<u8>,
    sw: int,
    xs: Seq<i32>,
    ys: Seq<i32>,
    tint: [u8; 3],
    k: int,
    ga: int,
) -> Seq<u8> {
    let x0 = max_i(x, 0);
    let y0 = max_i(y, 0);
    let x1 = min_i(x + xs.len(), fw);
    let y1 = min_i(y + ys.len(), fh);
    if x0 >= x1 || y0 >= y1 {
        f
    } else {
        scaled_rows(f, fw, src, sw, xs, ys, x, y, x0, x1, y0, tint, k, ga, y1 - y0)
    }
}

/// At strength 0 a channel keeps its colour.
pub proof fn lemma_no_tint(s: u8, t: u8)
    ensures
        tint_channel(s, t, 0) == s,
{
}

proof fn lemma_scaled_row_invisible(
    f: Seq<u8>,
    fw: int,
    src: Seq<u8>,
    sw: int,
    xs: Seq<i32>,
    ys: Seq<i32>,
    x: int,
    y: int,
    dy: int,
    x0: int,
    tint: [u8; 3],
    k: int,
    n: int,
)
    ensures
        scaled_row(f, fw, src, sw, xs, ys, x, y, dy, x0, tint, k, 0, n) == f,
    decreases n,
{
    if n > 0 {
        lemma_scaled_row_invisible(f, fw, src, sw, xs, ys, x, y, dy, x0, tint, k, n - 1);
    }
}

proof fn lemma_scaled_rows_invisible(
    f: Seq<u8>,
    fw: int,
    src: Seq<u8>,
    sw: int,
    xs: Seq<i32>,
    ys: Seq<i32>,
    x: int,
    y: int,
    x0: int,
    x1: int,
    y0: int,
    tint: [u8; 3],
    k: int,
    n: int,
)
    ensures
        scaled_rows(f, fw, src, sw, xs, ys, x, y, x0, x1, y0, tint, k, 0, n) == f,
    decreases n,
{
    if n > 0 {
        lemma_scaled_rows_invisible(f, fw, src, sw, xs, ys, x, y, x0, x1, y0, tint, k, n - 1);
        lemma_scaled_row_invisible(f, fw, src, sw, xs, ys, x, y, y0 + n - 1, x0, tint, k, x1 - x0);
    }
}

/// A scaled blit at global alpha 0 leaves the frame as it was.
pub proof fn lemma_scaled_blit_invisible(
    f: Seq<u8>,
    fw: int,
    fh: int,
    x: int,
    y: int,
    src: Seq<u8>,
    sw: int,
    xs: Seq<i32>,
    ys: Seq<i32>,
    tint: [u8; 3],
    k: int,
)
    ensures
        scaled_blitted(f, fw, fh, x, y, src, sw, xs, ys, tint, k, 0) == f,
{
    let x0 = max_i(x, 0);
    let y0 = max_i(y, 0);
    let x1 = min_i(x + xs.len(), fw);
    let y1 = min_i(y + ys.len(), fh);
    lemma_scaled_rows_invisible(f, fw, src, sw, xs, ys, x, y, x0, x1, y0, tint, k, y1 - y0);
}

proof fn lemma_pixels_apart(fw: int, fh: int, px: int, py: int, c: int, dx: int, dy: int, e: int)
    requires
        0 <= px < fw,
        0 <= dx < fw,
        0 <= py < fh,
        0 <= dy < fh,
        0 <= c < 4,
        0 <= e < 4,
        px != dx || py != dy,
    ensures
        pixel_at(fw, px, py) + c != pixel_at(fw, dx, dy) + e,
{
    if py == dy {
        assert(pixel_at(fw, px, py) - pixel_at(fw, dx, dy) == (px - dx) * 4) by (nonlinear_arith)
            requires
                py == dy,
        ;
    } else if py < dy {
        assert(py * fw + px < dy * fw + dx) by (nonlinear_arith)
            requires
                py < dy,
                0 <= px < fw,
                0 <= dx,
        ;
    } else {
        assert(dy * fw + dx < py * fw + px) by (nonlinear_arith)
            requires
                dy < py,
                0 <= dx < fw,
                0 <= px,
        ;
    }
}

proof fn lemma_scaled_row_elsewhere(
    f: Seq<u8>,
    fw: int,
    fh: int,
    src: Seq<u8>,
    sw: int,
    xs: Seq<i32>,
    ys: Seq<i32>,
    x: int,
    y: int,
    dy: int,
    x0: int,
    tint: [u8; 3],
    k: int,
    ga: int,
    n: int,
    px: int,
    py: int,
    c: int,
)
    requires
        0 <= fw,
        0 <= fh,
        fw * fh * 4 <= f.len(),
        0 <= dy < fh,
        0 <= x0,
        x0 + n <= fw,
        0 <= px < fw,
        0 <= py < fh,
        0 <= c < 4,
        py != dy || px < x0 || px >= x0 + n,
    ensures
        scaled_row(f, fw, src, sw, xs, ys, x, y, dy, x0, tint, k, ga, n).len() == f.len(),
        scaled_row(f, fw, src, sw, xs, ys, x, y, dy, x0, tint, k, ga, n)[pixel_at(fw, px, py) + c] == f[pixel_at(
            fw,
            px,
            py,
        ) + c],
    decreases n,
{
    if n > 0 {
        lemma_scaled_row_elsewhere(f, fw, fh, src, sw, xs, ys, x, y, dy, x0, tint, k, ga, n - 1, px, py, c);
        let dx = x0 + n - 1;
        lemma_offset_inside(fw, fh, dx, dy);
        lemma_offset_inside(fw, fh, px, py);
        lemma_pixels_apart(fw, fh, px, py, c, dx, dy, 0);
        lemma_pixels_apart(fw, fh, px, py, c, dx, dy, 1);
        lemma_pixels_apart(fw, fh, px, py, c, dx, dy, 2);
        lemma_pixels_apart(fw, fh, px, py, c, dx, dy, 3);
    }
}

proof fn lemma_scaled_rows_elsewhere(
    f: Seq<u8>,
    fw: int,
    fh: int,
    src: Seq<u8>,
    sw: int,
    xs: Seq<i32>,
    ys: Seq<i32>,
    x: int,
    y: int,
    x0: int,
    x1: int,
    y0: int,
    tint: [u8; 3],
    k: int,
    ga: int,
    n: int,
    px: int,
    py: int,
    c: int,
)
    requires
        0 <= fw,
        0 <= fh,
        fw * fh * 4 <= f.len(),
        0 <= x0 <= x1 <= fw,
        0 <= y0,
        y0 + n <= fh,
        0 <= px < fw,
        0 <= py < fh,
        0 <= c < 4,
        py < y0 || py >= y0 + n || px < x0 || px >= x1,
    ensures
        scaled_rows(f, fw, src, sw, xs, ys, x, y, x0, x1, y0, tint, k, ga, n).len() == f.len(),
        scaled_rows(f, fw, src, sw, xs, ys, x, y, x0, x1, y0, tint, k, ga, n)[pixel_at(fw, px, py) + c]
            == f[pixel_at(fw, px, py) + c],
    decreases n,
{
    if n > 0 {
        lemma_scaled_rows_elsewhere(f, fw, fh, src, sw, xs, ys, x, y, x0, x1, y0, tint, k, ga, n - 1, px, py, c);
        let prev = scaled_rows(f, fw, src, sw, xs, ys, x, y, x0, x1, y0, tint, k, ga, n - 1);
        lemma_scaled_row_elsewhere(prev, fw, fh, src, sw, xs, ys, x, y, y0 + n - 1, x0, tint, k, ga, x1 - x0, px, py, c);
    }
}

/// A scaled blit changes no pixel of the frame outside the rectangle it is
/// drawn in, `xs.len()` wide and `ys.len()` high from (x, y), and keeps the
/// frame's length.
pub proof fn lemma_scaled_blit_stays_inside(
    f: Seq<u8>,
    fw: int,
    fh: int,
    x: int,
    y: int,
    src: Seq<u8>,
    sw: int,
    xs: Seq<i32>,
    ys: Seq<i32>,
    tint: [u8; 3],
    k: int,
    ga: int,
    px: int,
    py: int,
    c: int,
)
    requires
        0 <= fw,
        0 <= fh,
        fw * fh * 4 <= f.len(),
        0 <= px < fw,
        0 <= py < fh,
        0 <= c < 4,
        !(x <= px < x + xs.len() && y <= py < y + ys.len()),
    ensures
        scaled_blitted(f, fw, fh, x, y, src, sw, xs, ys, tint, k, ga).len() == f.len(),
        scaled_blitted(f, fw, fh, x, y, src, sw, xs, ys, tint, k, ga)[pixel_at(fw, px, py) + c] == f[pixel_at(
            fw,
            px,
            py,
        ) + c],
{
    let x0 = max_i(x, 0);
    let y0 = max_i(y, 0);
    let x1 = min_i(x + xs.len(), fw);
    let y1 = min_i(y + ys.len(), fh);
    if !(x0 >= x1 || y0 >= y1) {
        lemma_scaled_rows_elsewhere(f, fw, fh, src, sw, xs, ys, x, y, x0, x1, y0, tint, k, ga, y1 - y0, px, py, c);
    }
}

fn tint_channel_exec(s: u8, t: u8, k: u8) -> (r: u8)
    ensures
        r == tint_channel(s, t, k as int),
{
    let a: u32 = s as u32;
    let b: u32 = t as u32;
    let kk: u32 = k as u32;
    assert(a * (255 - kk) + b * kk <= 255 * 255) by (nonlinear_arith)
        requires
            a <= 255,
            b <= 255,
            kk <= 255,
    ;
    ((a * (255 - kk) + b * kk) / 255) as u8
}

/// Blend an `sw`×`sh` RGBA sprite into the frame at (x, y), scaled through
/// sample tables: destination column `x + i` shows source column `xs[i]`,
/// destination row `y + j` source row `ys[j]`. Each colour is mixed towards
/// `tint` at `strength` (of 255) and each alpha scaled by `global_alpha`.
pub fn blit_scaled_color_tint(
    frame: &mut Vec<u8>,
    fw: i32,
    fh: i32,
    x: i32,
    y: i32,
    src: &Vec<u8>,
    sw: i32,
    sh: i32,
    xs: &Vec<i32>,
    ys: &Vec<i32>,
    tint: [u8; 3],
    strength: u8,
    global_alpha: u8,
)
    requires
        0 <= fw,
        0 <= fh,
        fw * fh * 4 <= old(frame).len(),
        xs.len() == 0 || ys.len() == 0 || sw * sh * 4 <= src.len(),
        forall|i: int| 0 <= i < xs.len() ==> 0 <= #[trigger] xs[i] < sw,
        forall|j: int| 0 <= j < ys.len() ==> 0 <= #[trigger] ys[j] < sh,
        x + xs.len() <= i32::MAX,
        y + ys.len() <= i32::MAX,
    ensures
        final(frame)@ == scaled_blitted(
            old(frame)@,
            fw as int,
            fh as int,
            x as int,
            y as int,
            src@,
            sw as int,
            xs@,
            ys@,
            tint,
            strength as int,
            global_alpha as int,
        ),
{
    let x_end: i64 = x as i64 + xs.len() as i64;
    let y_end: i64 = y as i64 + ys.len() as i64;
    let dst_x0 = if x > 0 {
        x
    } else {
        0
    };
    let dst_y0 = if y > 0 {
        y
    } else {
        0
    };
    let dst_x1 = if x_end < fw as i64 {
        x_end as i32
    } else {
        fw
    };
    let dst_y1 = if y_end < fh as i64 {
        y_end as i32
    } else {
        fh
    };
    if dst_x0 >= dst_x1 || dst_y0 >= dst_y1 {
        return ;
    }
    let ga = global_alpha as u32;
    let ghost f0 = frame@;
    let mut dy = dst_y0;
    while dy < dst_y1
        invariant
            dst_y0 <= dy <= dst_y1,
            0 <= dst_x0 < dst_x1 <= fw,
            0 <= dst_y0 < dst_y1 <= fh,
            dst_x0 >= x,
            dst_y0 >= y,
            dst_x1 <= x + xs.len(),
            dst_y1 <= y + ys.len(),
            sw * sh * 4 <= src.len(),
            forall|i: int| 0 <= i < xs.len() ==> 0 <= #[trigger] xs[i] < sw,
            forall|j: int| 0 <= j < ys.len() ==> 0 <= #[trigger] ys[j] < sh,
            fw * fh * 4 <= frame.len(),
            ga == global_alpha as u32,
            frame@ == scaled_rows(
                f0,
                fw as int,
                src@,
                sw as int,
                xs@,
                ys@,
                x as int,
                y as int,
                dst_x0 as int,
                dst_x1 as int,
                dst_y0 as int,
                tint,
                strength as int,
                ga as int,
                dy - dst_y0,
            ),
        decreases dst_y1 - dy,
    {
        let sy = ys[(dy as i64 - y as i64) as usize];
        let ghost row_start = frame@;
        let mut dx = dst_x0;
        while dx < dst_x1
            invariant
                dst_y0 <= dy < dst_y1,
                dst_x0 <= dx <= dst_x1,
                0 <= dst_x0 < dst_x1 <= fw,
                0 <= dst_y0 < dst_y1 <= fh,
                dst_x0 >= x,
                dst_y0 >= y,
                dst_x1 <= x + xs.len(),
                dst_y1 <= y + ys.len(),
                sw * sh * 4 <= src.len(),
                forall|i: int| 0 <= i < xs.len() ==> 0 <= #[trigger] xs[i] < sw,
                0 <= sy < sh,
                sy == ys[dy - y],
                fw * fh * 4 <= frame.len(),
                ga == global_alpha as u32,
                frame@ == scaled_row(
                    row_start,
                    fw as int,
                    src@,
                    sw as int,
                    xs@,
                    ys@,
                    x as int,
                    y as int,
                    dy as int,
                    dst_x0 as int,
                    tint,
                    strength as int,
                    ga as int,
                    dx - dst_x0,
                ),
            decreases dst_x1 - dx,
        {
            let sx = xs[(dx as i64 - x as i64) as usize];
            proof {
                lemma_offset_inside(sw as int, sh as int, sx as int, sy as int);
                lemma_offset_inside(fw as int, fh as int, dx as int, dy as int);
            }
            let sidx = ((sy as usize) * (sw as usize) + (sx as usize)) * 4;
            let didx = ((dy as usize) * (fw as usize) + (dx as usize)) * 4;
            let sa0 = src[sidx + 3] as u32;
            assert(sa0 * ga <= 255 * 255) by (nonlinear_arith)
                requires
                    sa0 <= 255,
                    ga <= 255,
            ;
            let sa = (sa0 * ga) / 255;
            if sa != 0 {
                let r = blend_channel(tint_channel_exec(src[sidx], tint[0], strength), frame[didx], sa);
                let g = blend_channel(tint_channel_exec(src[sidx + 1], tint[1], strength), frame[didx + 1], sa);
                let b = blend_channel(tint_channel_exec(src[sidx + 2], tint[2], strength), frame[didx + 2], sa);
                frame.set(didx, r);
                frame.set(didx + 1, g);
                frame.set(didx + 2, b);
                frame.set(didx + 3, 255);
            }
            dx += 1;
        }
        dy += 1;
    }
}

// ---------------------------------------------------------------- fills

/// `v` clamped to `lo ..= hi`.
pub open spec fn clamp_i(v: int, lo: int, hi: int) -> int {
    if v < lo {
        lo
    } else if v > hi {
        hi
    } else {
        v
    }
}

/// The pixel at offset `i` blended with `c` at `c`'s alpha and made opaque.
pub open spec fn tinted_px(f: Seq<u8>, i: int, c: [u8; 4]) -> Seq<u8> {
    f.update(i, blend(c[0], f[i], c[3] as int)).update(i + 1, blend(c[1], f[i + 1], c[3] as int)).update(
        i + 2,
        blend(c[2], f[i + 2], c[3] as int),
    ).update(i + 3, 255u8)
}

/// The first `n` pixels of row `y` from column `x0` blended with `c`.
pub open spec fn tint_row(f: Seq<u8>, w: int, x0: int, y: int, c: [u8; 4], n: int) -> Seq<u8>
    decreases n,
{
    if n <= 0 {
        f
    } else {
        tinted_px(tint_row(f, w, x0, y, c, n - 1), pixel_at(w, x0 + n - 1, y), c)
    }
}

/// Row `y` of a tinted diamond: the pixels from `cx - r` to `cx + r`,
/// clamped to the frame's columns, blended with `c`; nothing when the row
/// lies outside the frame.
pub open spec fn iso_row_tinted(f: Seq<u8>, w: int, h: int, cx: int, y: int, r: int, c: [u8; 4]) -> Seq<u8> {
    if 0 <= y < h {
        let x0 = clamp_i(cx - r, 0, w - 1);
        let x1 = clamp_i(cx + r, 0, w - 1);
        tint_row(f, w, x0, y, c, x1 - x0 + 1)
    } else {
        f
    }
}

/// Blend one row of a diamond-shaped tile, centred on column `cx` and
/// `row_half` pixels to each side, with `color` at its alpha.
pub fn blend_iso_row(frame: &mut Vec<u8>, width: i32, height: i32, cx: i32, y: i32, row_half: i32, color: [u8; 4])
    requires
        frame_ok(old(frame).len() as int, width as int, height as int),
        0 <= y < height ==> 1 <= width,
        i32::MIN <= cx - row_half <= i32::MAX,
        i32::MIN <= cx + row_half <= i32::MAX,
    ensures
        final(frame)@ == iso_row_tinted(
            old(frame)@,
            width as int,
            height as int,
            cx as int,
            y as int,
            row_half as int,
            color,
        ),
        final(frame).len() == old(frame).len(),
{
    if y < 0 || y >= height {
        return ;
    }
    let lo = cx - row_half;
    let hi = cx + row_half;
    let x0: i32 = if lo < 0 {
        0
    } else if lo > width - 1 {
        width - 1
    } else {
        lo
    };
    let x1: i32 = if hi < 0 {
        0
    } else if hi > width - 1 {
        width - 1
    } else {
        hi
    };
    let ghost f0 = frame@;
    let a: u32 = color[3] as u32;
    let mut x = x0;
    while x <= x1
        invariant
            0 <= x0 <= x,
            x <= x1 + 1 || x == x0,
            x1 < width,
            0 <= y < height,
            a == color[3],
            frame.len() == f0.len(),
            frame_ok(frame.len() as int, width as int, height as int),
            frame@ == tint_row(f0, width as int, x0 as int, y as int, color, x - x0),
        decreases x1 + 1 - x,
    {
        proof {
            lemma_offset_inside(width as int, height as int, x as int, y as int);
        }
        let i = (y as usize * width as usize + x as usize) * 4;
        let r = blend_channel(color[0], frame[i], a);
        frame.set(i, r);
        let g = blend_channel(color[1], frame[i + 1], a);
        frame.set(i + 1, g);
        let b = blend_channel(color[2], frame[i + 2], a);
        frame.set(i + 2, b);
        frame.set(i + 3, 255);
        x += 1;
    }
}

/// The first `n` pixels of row `y` from column `x0` set to `c`.
pub open spec fn fill_row(f: Seq<u8>, w: int, x0: int, y: int, c: [u8; 4], n: int) -> Seq<u8>
    decreases n,
{
    if n <= 0 {
        f
    } else {
        painted(fill_row(f, w, x0, y, c, n - 1), pixel_at(w, x0 + n - 1, y), c)
    }
}

/// The first `n` rows from `y0` of the rectangle of columns `x0 ..= x1`
/// set to `c`.
pub open spec fn fill_rows(f: Seq<u8>, w: int, x0: int, x1: int, y0: int, c: [u8; 4], n: int) -> Seq<u8>
    decreases n,
{
    if n <= 0 {
        f
    } else {
        fill_row(fill_rows(f, w, x0, x1, y0, c, n - 1), w, x0, y0 + n - 1, c, x1 - x0 + 1)
    }
}

/// The rectangle `x0 ..= x1` × `y0 ..= y1`, its corners first clamped into
/// the frame, set to `c`, row after row.
pub open spec fn filled_rect(f: Seq<u8>, w: int, h: int, x0: int, y0: int, x1: int, y1: int, c: [u8; 4]) -> Seq<u8> {
    let a = clamp_i(x0, 0, w - 1);
    let b = clamp_i(x1, 0, w - 1);
    let top = clamp_i(y0, 0, h - 1);
    let bottom = clamp_i(y1, 0, h - 1);
    fill_rows(f, w, a, b, top, c, bottom - top + 1)
}

fn clamp_to(v: i32, hi: i32) -> (r: i32)
    requires
        0 <= hi,
    ensures
        r == clamp_i(v as int, 0, hi as int),
{
    if v < 0 {
        0
    } else if v > hi {
        hi
    } else {
        v
    }
}

/// Fill a rectangle, clamped into the frame, with a solid colour.
pub fn fill_clamped_rect(frame: &mut Vec<u8>, width: i32, height: i32, x0: i32, y0: i32, x1: i32, y1: i32, color: [u8; 4])
    requires
        frame_ok(old(frame).len() as int, width as int, height as int),
        1 <= width,
        1 <= height,
    ensures
        final(frame)@ == filled_rect(old(frame)@, width as int, height as int, x0 as int, y0 as int, x1 as int, y1 as int, color),
        final(frame).len() == old(frame).len(),
{
    let a = clamp_to(x0, width - 1);
    let b = clamp_to(x1, width - 1);
    let top = clamp_to(y0, height - 1);
    let bottom = clamp_to(y1, height - 1);
    let ghost f0 = frame@;
    let mut y = top;
    while y <= bottom
        invariant
            0 <= top <= y,
            y <= bottom + 1 || y == top,
            bottom < height,
            0 <= a,
            b < width,
            frame.len() == f0.len(),
            frame_ok(frame.len() as int, width as int, height as int),
            frame@ == fill_rows(f0, width as int, a as int, b as int, top as int, color, y - top),
        decreases bottom + 1 - y,
    {
        let ghost row0 = frame@;
        let mut x = a;
        while x <= b
            invariant
                0 <= a <= x,
                x <= b + 1 || x == a,
                b < width,
                0 <= y < height,
                frame.len() == f0.len(),
                frame_ok(frame.len() as int, width as int, height as int),
                frame@ == fill_row(row0, width as int, a as int, y as int, color, x - a),
            decreases b + 1 - x,
        {
            proof {
                lemma_offset_inside(width as int, height as int, x as int, y as int);
            }
            let i = (y as usize * width as usize + x as usize) * 4;
            frame.set(i, color[0]);
            frame.set(i + 1, color[1]);
            frame.set(i + 2, color[2]);
            frame.set(i + 3, color[3]);
            x += 1;
        }
        y += 1;
    }
}

// ---------------------------------------------------------------- lines

/// The frame holds `w`×`h` RGBA pixels.
pub open spec fn frame_fits(len: int, w: int, h: int) -> bool {
    0 <= w && 0 <= h && w * h * 4 <= len
}

fn put_px(frame: &mut Vec<u8>, w: i32, h: i32, x: i32, y: i32, c: [u8; 4])
    requires
        frame_fits(old(frame).len() as int, w as int, h as int),
    ensures
        final(frame)@ == plot(old(frame)@, w as int, h as int, x as int, y as int, c),
        final(frame).len() == old(frame).len(),
{
    if x >= 0 && y >= 0 && x < w && y < h {
        proof {
            lemma_offset_inside(w as int, h as int, x as int, y as int);
        }
        let idx = ((y as usize) * (w as usize) + (x as usize)) * 4;
        frame.set(idx, c[0]);
        frame.set(idx + 1, c[1]);
        frame.set(idx + 2, c[2]);
        frame.set(idx + 3, c[3]);
    }
}

/// The line walked from (x, y) with error term `err` towards (x1, y1),
/// at most `fuel` pixels of it drawn in order: each step moves along x
/// when twice the error is at least `dy`, along y when it is at most `dx`.
pub open spec fn line_walk(
    f: Seq<u8>,
    w: int,
    h: int,
    x: int,
    y: int,
    err: int,
    x1: int,
    y1: int,
    sx: int,
    sy: int,
    dx: int,
    dy: int,
    c: [u8; 4],
    fuel: nat,
) -> Seq<u8>
    decreases fuel,
{
    if fuel == 0 {
        f
    } else {
        let f1 = plot(f, w, h, x, y, c);
        if x == x1 && y == y1 {
            f1
        } else {
            let e2 = 2 * err;
            let err1 = if e2 >= dy {
                err + dy
            } else {
                err
            };
            let xn = if e2 >= dy {
                x + sx
            } else {
                x
            };
            let err2 = if e2 <= dx {
                err1 + dx
            } else {
                err1
            };
            let yn = if e2 <= dx {
                y + sy
            } else {
                y
            };
            line_walk(f1, w, h, xn, yn, err2, x1, y1, sx, sy, dx, dy, c, (fuel - 1) as nat)
        }
    }
}

pub open spec fn step_dir(a: int, b: int) -> int {
    if a < b {
        1
    } else {
        -1
    }
}

/// The frame with the line from (x0, y0) to (x1, y1) drawn (Bresenham),
/// both ends included.
pub open spec fn line_pixels(f: Seq<u8>, w: int, h: int, x0: int, y0: int, x1: int, y1: int, c: [u8; 4]) -> Seq<u8> {
    let dx = abs_int(x1 - x0);
    let dy = -abs_int(y1 - y0);
    line_walk(f, w, h, x0, y0, dx + dy, x1, y1, step_dir(x0, x1), step_dir(y0, y1), dx, dy, c, (dx - dy + 1) as nat)
}

/// Lines short enough for the walk's arithmetic.
pub open spec fn line_fits(x0: int, y0: int, x1: int, y1: int) -> bool {
    abs_int(x1 - x0) < 0x2000_0000 && abs_int(y1 - y0) < 0x2000_0000
}

proof fn lemma_walk_stays(dx: int, d: int, xs: int, ys: int, err: int)
    requires
        0 <= xs <= dx,
        0 <= ys <= d,
        xs < dx || ys < d,
        err == dx * (1 + ys) - d * (1 + xs),
    ensures
        xs == dx ==> 2 * err < -d,
        ys == d ==> 2 * err > dx,
{
    if xs == dx {
        assert(dx * ys <= dx * (d - 1)) by (nonlinear_arith)
            requires
                0 <= dx,
                ys <= d - 1,
        ;
        assert(err <= -d) by (nonlinear_arith)
            requires
                err == dx * (1 + ys) - d * (1 + dx),
                dx * ys <= dx * (d - 1),
        ;
    }
    if ys == d {
        assert(d * xs <= d * (dx - 1)) by (nonlinear_arith)
            requires
                0 <= d,
                xs <= dx - 1,
        ;
        assert(err >= dx) by (nonlinear_arith)
            requires
                err == dx * (1 + d) - d * (1 + xs),
                d * xs <= d * (dx - 1),
        ;
    }
}

/// The tiles the walk of `line_walk` visits, in order.
pub open spec fn walk_points(
    x: int,
    y: int,
    err: int,
    x1: int,
    y1: int,
    sx: int,
    sy: int,
    dx: int,
    dy: int,
    fuel: nat,
) -> Seq<(int, int)>
    decreases fuel,
{
    if fuel == 0 {
        seq![]
    } else if x == x1 && y == y1 {
        seq![(x, y)]
    } else {
        let e2 = 2 * err;
        let err1 = if e2 >= dy {
            err + dy
        } else {
            err
        };
        let xn = if e2 >= dy {
            x + sx
        } else {
            x
        };
        let err2 = if e2 <= dx {
            err1 + dx
        } else {
            err1
        };
        let yn = if e2 <= dx {
            y + sy
        } else {
            y
        };
        seq![(x, y)] + walk_points(xn, yn, err2, x1, y1, sx, sy, dx, dy, (fuel - 1) as nat)
    }
}

/// The pixels of the line from (x0, y0) to (x1, y1), in the order drawn.
pub open spec fn line_points(x0: int, y0: int, x1: int, y1: int) -> Seq<(int, int)> {
    let dx = abs_int(x1 - x0);
    let dy = -abs_int(y1 - y0);
    walk_points(x0, y0, dx + dy, x1, y1, step_dir(x0, x1), step_dir(y0, y1), dx, dy, (dx - dy + 1) as nat)
}

/// The frame with each of `pts` set to `c`, in order.
pub open spec fn plot_points(f: Seq<u8>, w: int, h: int, pts: Seq<(int, int)>, c: [u8; 4]) -> Seq<u8>
    decreases pts.len(),
{
    if pts.len() == 0 {
        f
    } else {
        plot_points(plot(f, w, h, pts[0].0, pts[0].1, c), w, h, pts.drop_first(), c)
    }
}

/// Two pixels are 8-neighbours: distinct, and at most one apart along each axis.
pub open spec fn neighbours8(a: (int, int), b: (int, int)) -> bool {
    &&& a != b
    &&& abs_int(a.0 - b.0) <= 1
    &&& abs_int(a.1 - b.1) <= 1
}

proof fn lemma_walk_plots(
    f: Seq<u8>,
    w: int,
    h: int,
    x: int,
    y: int,
    err: int,
    x1: int,
    y1: int,
    sx: int,
    sy: int,
    dx: int,
    dy: int,
    c: [u8; 4],
    fuel: nat,
)
    ensures
        line_walk(f, w, h, x, y, err, x1, y1, sx, sy, dx, dy, c, fuel) == plot_points(
            f,
            w,
            h,
            walk_points(x, y, err, x1, y1, sx, sy, dx, dy, fuel),
            c,
        ),
    decreases fuel,
{
    if fuel > 0 {
        let f1 = plot(f, w, h, x, y, c);
        let pts = walk_points(x, y, err, x1, y1, sx, sy, dx, dy, fuel);
        assert(pts[0] == (x, y));
        if x == x1 && y == y1 {
            assert(pts.drop_first() =~= Seq::<(int, int)>::empty());
            assert(plot_points(f1, w, h, pts.drop_first(), c) == f1);
        } else {
            let e2 = 2 * err;
            let err1 = if e2 >= dy {
                err + dy
            } else {
                err
            };
            let xn = if e2 >= dy {
                x + sx
            } else {
                x
            };
            let err2 = if e2 <= dx {
                err1 + dx
            } else {
                err1
            };
            let yn = if e2 <= dx {
                y + sy
            } else {
                y
            };
            lemma_walk_plots(f1, w, h, xn, yn, err2, x1, y1, sx, sy, dx, dy, c, (fuel - 1) as nat);
            assert(pts.drop_first() =~= walk_points(xn, yn, err2, x1, y1, sx, sy, dx, dy, (fuel - 1) as nat));
        }
    }
}

proof fn lemma_walk_steps(x: int, y: int, err: int, x1: int, y1: int, sx: int, sy: int, dx: int, dy: int, fuel: nat)
    requires
        sx == 1 || sx == -1,
        sy == 1 || sy == -1,
        0 <= dx,
        dy <= 0,
    ensures
        ({
            let pts = walk_points(x, y, err, x1, y1, sx, sy, dx, dy, fuel);
            &&& fuel > 0 ==> pts.len() >= 1 && pts[0] == (x, y)
            &&& forall|i: int| 0 <= i < pts.len() - 1 ==> neighbours8(#[trigger] pts[i], pts[i + 1])
        }),
    decreases fuel,
{
    if fuel > 0 && !(x == x1 && y == y1) {
        let e2 = 2 * err;
        let err1 = if e2 >= dy {
            err + dy
        } else {
            err
        };
        let xn = if e2 >= dy {
            x + sx
        } else {
            x
        };
        let err2 = if e2 <= dx {
            err1 + dx
        } else {
            err1
        };
        let yn = if e2 <= dx {
            y + sy
        } else {
            y
        };
        lemma_walk_steps(xn, yn, err2, x1, y1, sx, sy, dx, dy, (fuel - 1) as nat);
        let rest = walk_points(xn, yn, err2, x1, y1, sx, sy, dx, dy, (fuel - 1) as nat);
        let pts = walk_points(x, y, err, x1, y1, sx, sy, dx, dy, fuel);
        assert(pts == seq![(x, y)] + rest);
        assert forall|i: int| 0 <= i < pts.len() - 1 implies neighbours8(#[trigger] pts[i], pts[i + 1]) by {
            if i == 0 {
                if fuel - 1 > 0 {
                    assert(pts[1] == rest[0]);
                }
            } else {
                assert(pts[i] == rest[i - 1]);
                assert(pts[i + 1] == rest[i]);
            }
        }
    }
}

/// The walk, `i` steps along x and `j` along y from its start, reaches the
/// end: its last tile is (x1, y1).
proof fn lemma_walk_ends(
    x0: int,
    y0: int,
    x1: int,
    y1: int,
    ax: int,
    ay: int,
    i: int,
    j: int,
    fuel: nat,
)
    requires
        ax == abs_int(x1 - x0),
        ay == abs_int(y1 - y0),
        0 <= i <= ax,
        0 <= j <= ay,
        fuel >= (ax - i) + (ay - j) + 1,
    ensures
        ({
            let pts = walk_points(
                x0 + step_dir(x0, x1) * i,
                y0 + step_dir(y0, y1) * j,
                ax * (j + 1) - ay * (i + 1),
                x1,
                y1,
                step_dir(x0, x1),
                step_dir(y0, y1),
                ax,
                -ay,
                fuel,
            );
            pts.len() >= 1 && pts.last() == (x1, y1)
        }),
    decreases fuel,
{
    let sx = step_dir(x0, x1);
    let sy = step_dir(y0, y1);
    let x = x0 + sx * i;
    let y = y0 + sy * j;
    let err = ax * (j + 1) - ay * (i + 1);
    let dx = ax;
    let dy = -ay;
    assert(x == x1 <==> i == ax) by (nonlinear_arith)
        requires
            x == x0 + sx * i,
            sx == step_dir(x0, x1),
            ax == abs_int(x1 - x0),
    ;
    assert(y == y1 <==> j == ay) by (nonlinear_arith)
        requires
            y == y0 + sy * j,
            sy == step_dir(y0, y1),
            ay == abs_int(y1 - y0),
    ;
    if !(x == x1 && y == y1) {
        let e2 = 2 * err;
        let xs = e2 >= dy;
        let ys = e2 <= dx;
        assert(xs || ys);
        if i == ax {
            assert(!xs) by (nonlinear_arith)
                requires
                    i == ax,
                    j < ay,
                    0 <= j,
                    0 <= ax,
                    e2 == 2 * (ax * (j + 1) - ay * (i + 1)),
                    xs == (e2 >= -ay),
            ;
        }
        if j == ay {
            assert(!ys) by (nonlinear_arith)
                requires
                    j == ay,
                    i < ax,
                    0 <= i,
                    0 <= ay,
                    e2 == 2 * (ax * (j + 1) - ay * (i + 1)),
                    ys == (e2 <= ax),
            ;
        }
        let i2 = if xs {
            i + 1
        } else {
            i
        };
        let j2 = if ys {
            j + 1
        } else {
            j
        };
        let err1 = if xs {
            err + dy
        } else {
            err
        };
        let err2 = if ys {
            err1 + dx
        } else {
            err1
        };
        assert(err2 == ax * (j2 + 1) - ay * (i2 + 1)) by (nonlinear_arith)
            requires
                err == ax * (j + 1) - ay * (i + 1),
                err1 == if xs { err - ay } else { err },
                err2 == if ys { err1 + ax } else { err1 },
                i2 == if xs { i + 1 } else { i },
                j2 == if ys { j + 1 } else { j },
        ;
        assert((if xs { x + sx } else { x }) == x0 + sx * i2) by (nonlinear_arith)
            requires
                x == x0 + sx * i,
                i2 == if xs { i + 1 } else { i },
        ;
        assert((if ys { y + sy } else { y }) == y0 + sy * j2) by (nonlinear_arith)
            requires
                y == y0 + sy * j,
                j2 == if ys { j + 1 } else { j },
        ;
        lemma_walk_ends(x0, y0, x1, y1, ax, ay, i2, j2, (fuel - 1) as nat);
        let rest = walk_points(x0 + sx * i2, y0 + sy * j2, err2, x1, y1, sx, sy, ax, -ay, (fuel - 1) as nat);
        let pts = walk_points(x, y, err, x1, y1, sx, sy, dx, dy, fuel);
        assert(pts == seq![(x, y)] + rest);
        assert(pts.last() == rest.last());
    }
}

proof fn lemma_plot_points_len(f: Seq<u8>, w: int, h: int, pts: Seq<(int, int)>, c: [u8; 4])
    requires
        frame_ok(f.len() as int, w, h),
    ensures
        plot_points(f, w, h, pts, c).len() == f.len(),
    decreases pts.len(),
{
    if pts.len() > 0 {
        let p0 = pts[0];
        if 0 <= p0.0 < w && 0 <= p0.1 < h {
            lemma_pixel_in_frame(f.len() as int, w, h, p0.0, p0.1);
        }
        lemma_plot_points_len(plot(f, w, h, p0.0, p0.1, c), w, h, pts.drop_first(), c);
    }
}

proof fn lemma_plot_points_pixel(f: Seq<u8>, w: int, h: int, pts: Seq<(int, int)>, c: [u8; 4], px: int, py: int, k: int)
    requires
        frame_ok(f.len() as int, w, h),
        0 <= px < w,
        0 <= py < h,
        0 <= k < 4,
    ensures
        plot_points(f, w, h, pts, c).len() == f.len(),
        plot_points(f, w, h, pts, c)[pixel_at(w, px, py) + k] == if pts.contains((px, py)) {
            c[k]
        } else {
            f[pixel_at(w, px, py) + k]
        },
    decreases pts.len(),
{
    if pts.len() > 0 {
        let p0 = pts[0];
        let f1 = plot(f, w, h, p0.0, p0.1, c);
        lemma_pixel_in_frame(f.len() as int, w, h, px, py);
        if 0 <= p0.0 < w && 0 <= p0.1 < h {
            lemma_pixel_in_frame(f.len() as int, w, h, p0.0, p0.1);
            if p0 != (px, py) {
                lemma_pixels_apart(w, h, px, py, k, p0.0, p0.1, 0);
                lemma_pixels_apart(w, h, px, py, k, p0.0, p0.1, 1);
                lemma_pixels_apart(w, h, px, py, k, p0.0, p0.1, 2);
                lemma_pixels_apart(w, h, px, py, k, p0.0, p0.1, 3);
            }
        }
        lemma_plot_points_pixel(f1, w, h, pts.drop_first(), c, px, py, k);
        if pts.contains((px, py)) && p0 != (px, py) {
            let m = choose|m: int| 0 <= m < pts.len() && pts[m] == (px, py);
            assert(pts.drop_first()[m - 1] == (px, py));
        }
        if pts.drop_first().contains((px, py)) {
            let m = choose|m: int| 0 <= m < pts.drop_first().len() && pts.drop_first()[m] == (px, py);
            assert(pts[m + 1] == (px, py));
        }
    }
}

/// What drawing a line does: it walks from (x0, y0) to (x1, y1), each tile an
/// 8-neighbour of the one before; every pixel of the frame on the walk takes
/// the colour, and every other pixel keeps its own.
pub proof fn lemma_line_pixels(f: Seq<u8>, w: int, h: int, x0: int, y0: int, x1: int, y1: int, c: [u8; 4])
    requires
        frame_ok(f.len() as int, w, h),
    ensures
        ({
            let pts = line_points(x0, y0, x1, y1);
            let g = line_pixels(f, w, h, x0, y0, x1, y1, c);
            &&& pts.len() >= 1
            &&& pts[0] == (x0, y0)
            &&& pts.last() == (x1, y1)
            &&& forall|i: int| 0 <= i < pts.len() - 1 ==> neighbours8(#[trigger] pts[i], pts[i + 1])
            &&& g.len() == f.len()
            &&& forall|px: int, py: int, k: int|
                0 <= px < w && 0 <= py < h && 0 <= k < 4 ==> #[trigger] g[pixel_at(w, px, py) + k] == if pts.contains(
                    (px, py),
                ) {
                    c[k]
                } else {
                    f[pixel_at(w, px, py) + k]
                }
        }),
{
    let ax = abs_int(x1 - x0);
    let ay = abs_int(y1 - y0);
    let sx = step_dir(x0, x1);
    let sy = step_dir(y0, y1);
    let fuel = (ax + ay + 1) as nat;
    let pts = line_points(x0, y0, x1, y1);
    lemma_walk_plots(f, w, h, x0, y0, ax - ay, x1, y1, sx, sy, ax, -ay, c, fuel);
    lemma_walk_steps(x0, y0, ax - ay, x1, y1, sx, sy, ax, -ay, fuel);
    assert(x0 + sx * 0 == x0 && y0 + sy * 0 == y0);
    assert(ax * (0 + 1) - ay * (0 + 1) == ax - ay) by (nonlinear_arith);
    lemma_walk_ends(x0, y0, x1, y1, ax, ay, 0, 0, fuel);
    let g = line_pixels(f, w, h, x0, y0, x1, y1, c);
    assert forall|px: int, py: int, k: int| 0 <= px < w && 0 <= py < h && 0 <= k < 4 implies #[trigger] g[pixel_at(
        w,
        px,
        py,
    ) + k] == if pts.contains((px, py)) {
        c[k]
    } else {
        f[pixel_at(w, px, py) + k]
    } by {
        lemma_plot_points_pixel(f, w, h, pts, c, px, py, k);
    }
    lemma_plot_points_len(f, w, h, pts, c);
}

/// Draw a line from (x0, y0) to (x1, y1), both ends included.
pub fn draw_line(frame: &mut Vec<u8>, width: i32, height: i32, x0: i32, y0: i32, x1: i32, y1: i32, color: [u8; 4])
    requires
        frame_fits(old(frame).len() as int, width as int, height as int),
        line_fits(x0 as int, y0 as int, x1 as int, y1 as int),
    ensures
        final(frame)@ == line_pixels(
            old(frame)@,
            width as int,
            height as int,
            x0 as int,
            y0 as int,
            x1 as int,
            y1 as int,
            color,
        ),
        final(frame).len() == old(frame).len(),
{
    let dx: i32 = if x1 >= x0 {
        x1 - x0
    } else {
        x0 - x1
    };
    let sx: i32 = if x0 < x1 {
        1
    } else {
        -1
    };
    let dy: i32 = if y1 >= y0 {
        y0 - y1
    } else {
        y1 - y0
    };
    let sy: i32 = if y0 < y1 {
        1
    } else {
        -1
    };
    let mut err: i32 = dx + dy;
    let mut x = x0;
    let mut y = y0;
    let ghost f0 = frame@;
    let ghost d: int = -dy;
    let ghost mut xs: int = 0;
    let ghost mut ys: int = 0;
    let ghost mut fuel: nat = (dx - dy + 1) as nat;
    assert(err == dx * (1 + ys) - d * (1 + xs)) by (nonlinear_arith)
        requires
            err == dx + dy,
            d == -dy,
            xs == 0,
            ys == 0,
    ;
    loop
        invariant_except_break
            line_pixels(f0, width as int, height as int, x0 as int, y0 as int, x1 as int, y1 as int, color)
                == line_walk(
                frame@,
                width as int,
                height as int,
                x as int,
                y as int,
                err as int,
                x1 as int,
                y1 as int,
                sx as int,
                sy as int,
                dx as int,
                dy as int,
                color,
                fuel,
            ),
        invariant
            frame_fits(frame.len() as int, width as int, height as int),
            0 <= dx < 0x2000_0000,
            0 <= d < 0x2000_0000,
            d == -dy,
            sx == step_dir(x0 as int, x1 as int),
            sy == step_dir(y0 as int, y1 as int),
            dx == abs_int(x1 - x0),
            d == abs_int(y1 - y0),
            0 <= xs <= dx,
            0 <= ys <= d,
            x == x0 + sx * xs,
            y == y0 + sy * ys,
            err == dx * (1 + ys) - d * (1 + xs),
            -2 * d <= err <= 2 * dx,
            fuel >= (dx - xs) + (d - ys) + 1,
            frame.len() == f0.len(),
        ensures
            final(frame)@ == line_pixels(
                f0,
                width as int,
                height as int,
                x0 as int,
                y0 as int,
                x1 as int,
                y1 as int,
                color,
            ),
            frame.len() == f0.len(),
        decreases (dx - xs) + (d - ys),
    {
        let ghost before = frame@;
        put_px(frame, width, height, x, y, color);
        if x == x1 && y == y1 {
            proof {
                assert(fuel >= 1);
                assert(line_walk(
                    before,
                    width as int,
                    height as int,
                    x as int,
                    y as int,
                    err as int,
                    x1 as int,
                    y1 as int,
                    sx as int,
                    sy as int,
                    dx as int,
                    dy as int,
                    color,
                    fuel,
                ) == frame@);
            }
            break;
        }
        proof {
            assert(xs < dx || ys < d) by {
                if xs == dx && ys == d {
                    assert(x == x1);
                    assert(y == y1);
                }
            }
            lemma_walk_stays(dx as int, d, xs, ys, err as int);
        }
        let e2 = 2 * err;
        let ghost old_err = err;
        if e2 >= dy {
            err = err + dy;
            x = x + sx;
            proof {
                xs = xs + 1;
            }
        }
        if e2 <= dx {
            err = err + dx;
            y = y + sy;
            proof {
                ys = ys + 1;
            }
        }
        proof {
            assert(err == dx * (1 + ys) - d * (1 + xs)) by (nonlinear_arith)
                requires
                    old_err == dx * (1 + (ys - if e2 <= dx { 1int } else { 0 })) - d * (1 + (xs - if e2 >= dy { 1int } else { 0 })),
                    err == old_err + (if e2 >= dy { dy as int } else { 0 }) + (if e2 <= dx { dx as int } else { 0 }),
                    d == -dy,
            ;
            fuel = (fuel - 1) as nat;
        }
    }
}

/// Draw the outline of the diamond-shaped tile centred at (cx, cy).
pub fn draw_iso_outline(frame: &mut Vec<u8>, width: i32, height: i32, cx: i32, cy: i32, half_w: i32, half_h: i32, color: [u8; 4])
    requires
        frame_fits(old(frame).len() as int, width as int, height as int),
        0 <= half_w < 0x1000_0000,
        0 <= half_h < 0x1000_0000,
        room_around(cx as int, cy as int, 0x1000_0000),
    ensures
        final(frame)@ == {
            let top_x = cx as int;
            let top_y = cy - half_h;
            let right_x = cx + half_w;
            let right_y = cy as int;
            let bottom_x = cx as int;
            let bottom_y = cy + half_h;
            let left_x = cx - half_w;
            let left_y = cy as int;
            let f1 = line_pixels(old(frame)@, width as int, height as int, top_x, top_y, right_x, right_y, color);
            let f2 = line_pixels(f1, width as int, height as int, right_x, right_y, bottom_x, bottom_y, color);
            let f3 = line_pixels(f2, width as int, height as int, bottom_x, bottom_y, left_x, left_y, color);
            line_pixels(f3, width as int, height as int, left_x, left_y, top_x, top_y, color)
        },
{
    let top = (cx, cy - half_h);
    let right = (cx + half_w, cy);
    let bottom = (cx, cy + half_h);
    let left = (cx - half_w, cy);
    draw_line(frame, width, height, top.0, top.1, right.0, right.1, color);
    draw_line(frame, width, height, right.0, right.1, bottom.0, bottom.1, color);
    draw_line(frame, width, height, bottom.0, bottom.1, left.0, left.1, color);
    draw_line(frame, width, height, left.0, left.1, top.0, top.1, color);
}

} // verus!
