use strategy::tiles::{
    blit_scaled_color_tint, blit_sprite_alpha_noscale_tinted, draw_citizen_marker, draw_emote, draw_iso_outline,
    draw_line, draw_marker_face, draw_tree_shape, set_px,
};

fn frame(w: usize, h: usize) -> Vec<u8> {
    vec![0u8; w * h * 4]
}

fn px(f: &[u8], w: usize, x: usize, y: usize) -> [u8; 4] {
    let i = (y * w + x) * 4;
    [f[i], f[i + 1], f[i + 2], f[i + 3]]
}

fn painted_count(f: &[u8]) -> usize {
    f.chunks(4).filter(|p| p.iter().any(|b| *b != 0)).count()
}

#[test]
fn set_px_writes_inside_and_ignores_outside() {
    let mut f = frame(2, 2);
    set_px(&mut f, 2, 2, 1, 1, [1, 2, 3, 4]);
    assert_eq!(&f[12..16], &[1, 2, 3, 4]);
    assert_eq!(painted_count(&f), 1);
    let before = f.clone();
    set_px(&mut f, 2, 2, 2, 0, [9, 9, 9, 9]);
    set_px(&mut f, 2, 2, -1, 0, [9, 9, 9, 9]);
    set_px(&mut f, 2, 2, 0, 5, [9, 9, 9, 9]);
    assert_eq!(f, before);
}

#[test]
fn citizen_marker_fills_a_disc() {
    let mut f = frame(5, 5);
    let c = [10, 20, 30, 255];
    draw_citizen_marker(&mut f, 5, 5, 2, 2, 1, c);
    assert_eq!(painted_count(&f), 5);
    for (x, y) in [(2, 2), (1, 2), (3, 2), (2, 1), (2, 3)] {
        assert_eq!(px(&f, 5, x, y), c);
    }
    assert_eq!(px(&f, 5, 1, 1), [0, 0, 0, 0]);
}

#[test]
fn citizen_marker_radius_is_clamped() {
    let mut small = frame(5, 5);
    draw_citizen_marker(&mut small, 5, 5, 2, 2, 0, [1, 1, 1, 1]);
    assert_eq!(painted_count(&small), 5);
    let mut big = frame(30, 30);
    draw_citizen_marker(&mut big, 30, 30, 15, 15, 40, [1, 1, 1, 1]);
    // radius 12: the pixel 12 to the right is drawn, 13 is not
    assert_eq!(px(&big, 30, 27, 15), [1, 1, 1, 1]);
    assert_eq!(px(&big, 30, 28, 15), [0, 0, 0, 0]);
}

#[test]
fn citizen_marker_near_the_edge_is_clipped() {
    let mut f = frame(3, 3);
    draw_citizen_marker(&mut f, 3, 3, 0, 0, 1, [5, 5, 5, 5]);
    assert_eq!(painted_count(&f), 3);
}

#[test]
fn happy_face_pixels() {
    let mut f = frame(12, 12);
    draw_emote(&mut f, 12, 12, 5, 5, 2, 1);
    assert_eq!(px(&f, 12, 3, 5), [255, 255, 255, 255]);
    assert_eq!(px(&f, 12, 7, 5), [255, 255, 255, 255]);
    for x in 3..=7 {
        assert_eq!(px(&f, 12, x, 7), [255, 255, 0, 255]);
    }
    assert_eq!(px(&f, 12, 2, 6), [255, 255, 0, 255]);
    assert_eq!(px(&f, 12, 8, 6), [255, 255, 0, 255]);
    assert_eq!(painted_count(&f), 9);
}

#[test]
fn sad_face_pixels() {
    let mut f = frame(12, 12);
    draw_emote(&mut f, 12, 12, 5, 5, 0, 1);
    for x in 3..=7 {
        assert_eq!(px(&f, 12, x, 8), [255, 200, 200, 255]);
    }
    assert_eq!(px(&f, 12, 2, 7), [255, 200, 200, 255]);
    assert_eq!(px(&f, 12, 8, 7), [255, 200, 200, 255]);
    assert_eq!(painted_count(&f), 9);
}

#[test]
fn neutral_face_pixels_and_minimum_size() {
    let mut f = frame(12, 12);
    draw_emote(&mut f, 12, 12, 5, 5, 7, 0);
    assert_eq!(px(&f, 12, 3, 5), [255, 255, 255, 255]);
    for x in 3..=7 {
        assert_eq!(px(&f, 12, x, 7), [220, 220, 220, 255]);
    }
    assert_eq!(painted_count(&f), 7);
}

#[test]
fn diagonal_line_hits_both_ends() {
    let mut f = frame(4, 4);
    let c = [9, 8, 7, 6];
    draw_line(&mut f, 4, 4, 0, 0, 3, 3, c);
    for i in 0..4 {
        assert_eq!(px(&f, 4, i, i), c);
    }
    assert_eq!(painted_count(&f), 4);
}

#[test]
fn horizontal_and_clipped_lines() {
    let mut f = frame(4, 4);
    draw_line(&mut f, 4, 4, 3, 1, 0, 1, [1, 1, 1, 1]);
    assert_eq!(painted_count(&f), 4);
    let mut g = frame(4, 4);
    draw_line(&mut g, 4, 4, -2, 0, 1, 0, [1, 1, 1, 1]);
    assert_eq!(painted_count(&g), 2);
    let mut h = frame(4, 4);
    draw_line(&mut h, 4, 4, 2, 2, 2, 2, [1, 1, 1, 1]);
    assert_eq!(painted_count(&h), 1);
}

#[test]
fn iso_outline_is_a_diamond() {
    let mut f = frame(9, 9);
    let c = [0, 255, 0, 255];
    draw_iso_outline(&mut f, 9, 9, 4, 4, 2, 2, c);
    assert_eq!(painted_count(&f), 8);
    for (x, y) in [(4, 2), (5, 3), (6, 4), (5, 5), (4, 6), (3, 5), (2, 4), (3, 3)] {
        assert_eq!(px(&f, 9, x, y), c);
    }
    assert_eq!(px(&f, 9, 4, 4), [0, 0, 0, 0]);
}

#[test]
fn blit_blends_by_alpha() {
    let mut f = vec![0, 0, 0, 255, 100, 100, 100, 7];
    let src = vec![255, 0, 0, 255];
    blit_sprite_alpha_noscale_tinted(&mut f, 2, 1, 0, 0, &src, 1, 1, 255);
    assert_eq!(&f[0..4], &[255, 0, 0, 255]);
    blit_sprite_alpha_noscale_tinted(&mut f, 2, 1, 1, 0, &src, 1, 1, 128);
    assert_eq!(&f[4..8], &[177, 49, 49, 255]);
}

#[test]
fn blit_skips_transparent_and_offscreen() {
    let mut f = vec![1, 2, 3, 4, 5, 6, 7, 8];
    let before = f.clone();
    blit_sprite_alpha_noscale_tinted(&mut f, 2, 1, 0, 0, &vec![255, 255, 255, 0], 1, 1, 255);
    blit_sprite_alpha_noscale_tinted(&mut f, 2, 1, 0, 0, &vec![255, 255, 255, 255], 1, 1, 0);
    blit_sprite_alpha_noscale_tinted(&mut f, 2, 1, -1, 0, &vec![255, 255, 255, 255], 1, 1, 255);
    blit_sprite_alpha_noscale_tinted(&mut f, 2, 1, 2, 0, &vec![255, 255, 255, 255], 1, 1, 255);
    assert_eq!(f, before);
}

fn two_px_sprite() -> Vec<u8> {
    vec![200, 100, 0, 255, 10, 20, 30, 0]
}

#[test]
fn scaled_blit_repeats_sampled_pixels_and_clips() {
    let src = two_px_sprite();
    let mut f = frame(4, 3);
    blit_scaled_color_tint(&mut f, 4, 3, 1, 1, &src, 2, 1, &vec![0, 0, 1], &vec![0, 0, 0], [0, 0, 0], 0, 255);
    for y in 1..3 {
        assert_eq!(px(&f, 4, 1, y), [200, 100, 0, 255]);
        assert_eq!(px(&f, 4, 2, y), [200, 100, 0, 255]);
        // the transparent source pixel leaves the frame alone
        assert_eq!(px(&f, 4, 3, y), [0, 0, 0, 0]);
    }
    assert_eq!(painted_count(&f), 4);
    // left of the frame: the first column of the table is cut off
    let mut g = frame(2, 1);
    blit_scaled_color_tint(&mut g, 2, 1, -1, 0, &src, 2, 1, &vec![1, 0, 0], &vec![0], [0, 0, 0], 0, 255);
    assert_eq!(px(&g, 2, 0, 0), [200, 100, 0, 255]);
    assert_eq!(px(&g, 2, 1, 0), [200, 100, 0, 255]);
}

#[test]
fn scaled_blit_tints_and_fades() {
    let src = two_px_sprite();
    let mut f = frame(1, 1);
    blit_scaled_color_tint(&mut f, 1, 1, 0, 0, &src, 2, 1, &vec![0], &vec![0], [50, 60, 70], 255, 255);
    assert_eq!(px(&f, 1, 0, 0), [50, 60, 70, 255]);
    let mut half = frame(1, 1);
    blit_scaled_color_tint(&mut half, 1, 1, 0, 0, &src, 2, 1, &vec![0], &vec![0], [50, 60, 70], 51, 255);
    // (200 * 204 + 50 * 51) / 255 = 170, (100 * 204 + 60 * 51) / 255 = 92, (70 * 51) / 255 = 14
    assert_eq!(px(&half, 1, 0, 0), [170, 92, 14, 255]);
    let mut faded = vec![100u8, 100, 100, 100];
    blit_scaled_color_tint(&mut faded, 1, 1, 0, 0, &src, 2, 1, &vec![0], &vec![0], [0, 0, 0], 0, 128);
    assert_eq!(px(&faded, 1, 0, 0), [150, 100, 49, 255]);
    let mut hidden = vec![100u8, 100, 100, 100];
    blit_scaled_color_tint(&mut hidden, 1, 1, 0, 0, &src, 2, 1, &vec![0], &vec![0], [0, 0, 0], 0, 0);
    assert_eq!(hidden, vec![100u8, 100, 100, 100]);
}

#[test]
fn tree_shape_is_a_trunk_under_a_diamond_crown() {
    let mut f = frame(9, 12);
    draw_tree_shape(&mut f, 9, 12, 4, 10, 8, 2, 3);
    let trunk = [90, 60, 40, 255];
    let leaf = [40, 120, 60, 255];
    // the trunk shows above the crown, which covers the rest of it
    assert_eq!(px(&f, 9, 4, 2), trunk);
    assert_eq!(px(&f, 9, 4, 3), trunk);
    assert_eq!(px(&f, 9, 4, 10), leaf);
    // crown rows 4 to 10, half widths 0, 1, 2, 2, 2, 1, 0
    for (y, span) in [(4, 0), (5, 1), (6, 2), (7, 2), (8, 2), (9, 1), (10, 0)] {
        for x in 0..9i32 {
            let inside = (x - 4).abs() <= span;
            assert_eq!(px(&f, 9, x as usize, y) == leaf, inside, "pixel ({}, {})", x, y);
        }
    }
    assert_eq!(painted_count(&f), 2 + 23);
}

#[test]
fn marker_face_smiles_frowns_and_stays_straight() {
    let white = [255, 255, 255, 255];
    let mut happy = frame(20, 20);
    draw_marker_face(&mut happy, 20, 20, 10, 10, 8, 10, 2);
    for (x, y) in [(6, 8), (7, 8), (13, 8), (14, 8), (6, 9), (7, 9), (13, 9), (14, 9)] {
        assert_eq!(px(&happy, 20, x, y), white);
    }
    let yellow = [255, 255, 0, 255];
    for x in 5..=15 {
        assert_eq!(px(&happy, 20, x, 12), yellow);
        assert_eq!(px(&happy, 20, x, 13), yellow);
    }
    for y in [10, 11] {
        assert_eq!(px(&happy, 20, 5, y), yellow);
        assert_eq!(px(&happy, 20, 15, y), yellow);
    }
    assert_eq!(painted_count(&happy), 8 + 22 + 4);
    let mut sad = frame(20, 20);
    draw_marker_face(&mut sad, 20, 20, 10, 10, 8, 10, 0);
    assert_eq!(px(&sad, 20, 5, 14), [255, 160, 160, 255]);
    assert_eq!(px(&sad, 20, 15, 14), [255, 160, 160, 255]);
    assert_eq!(painted_count(&sad), 8 + 22 + 2);
    let mut plain = frame(20, 20);
    draw_marker_face(&mut plain, 20, 20, 10, 10, 8, 10, 1);
    assert_eq!(px(&plain, 20, 10, 12), [220, 220, 220, 255]);
    assert_eq!(painted_count(&plain), 8 + 22);
}

#[test]
fn marker_face_with_a_negative_radius_has_no_mouth_row() {
    let mut f = frame(20, 20);
    draw_marker_face(&mut f, 20, 20, 10, 10, -8, -10, 2);
    // eyes one pixel wide, two from the centre; the mouth runs backwards and is skipped
    assert_eq!(px(&f, 20, 8, 9), [255, 255, 255, 255]);
    assert_eq!(px(&f, 20, 12, 9), [255, 255, 255, 255]);
    for (x, y) in [(15, 10), (5, 10), (15, 11), (5, 11)] {
        assert_eq!(px(&f, 20, x, y), [255, 255, 0, 255]);
    }
    assert_eq!(painted_count(&f), 6);
}

#[test]
fn a_line_walks_neighbour_to_neighbour_and_paints_nothing_else() {
    let mut f = frame(8, 6);
    draw_line(&mut f, 8, 6, 1, 1, 6, 3, [9, 8, 7, 255]);
    let lit: Vec<(usize, usize)> =
        (0..6).flat_map(|y| (0..8).map(move |x| (x, y))).filter(|&(x, y)| px(&f, 8, x, y) == [9, 8, 7, 255]).collect();
    assert_eq!(painted_count(&f), lit.len());
    assert!(lit.contains(&(1, 1)));
    assert!(lit.contains(&(6, 3)));
    // one pixel per column from x = 1 to x = 6, rows climbing by at most one
    assert_eq!(lit.len(), 6);
    for x in 1..=6 {
        let ys: Vec<usize> = lit.iter().filter(|p| p.0 == x).map(|p| p.1).collect();
        assert_eq!(ys.len(), 1, "column {}", x);
        if x > 1 {
            let prev: Vec<usize> = lit.iter().filter(|p| p.0 == x - 1).map(|p| p.1).collect();
            assert!(ys[0] >= prev[0] && ys[0] - prev[0] <= 1);
        }
    }
}

#[test]
fn scaled_blit_at_strength_zero_ignores_the_tint_and_keeps_outside_pixels() {
    let src = two_px_sprite();
    let mut plain = vec![5u8; 4 * 3 * 4];
    let mut tinted = plain.clone();
    blit_scaled_color_tint(&mut plain, 4, 3, 1, 1, &src, 2, 1, &vec![0, 0], &vec![0], [0, 0, 0], 0, 255);
    blit_scaled_color_tint(&mut tinted, 4, 3, 1, 1, &src, 2, 1, &vec![0, 0], &vec![0], [90, 90, 90], 0, 255);
    assert_eq!(plain, tinted);
    for y in 0..3 {
        for x in 0..4 {
            if !(y == 1 && (x == 1 || x == 2)) {
                assert_eq!(px(&plain, 4, x, y), [5, 5, 5, 5]);
            }
        }
    }
}
