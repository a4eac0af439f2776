use pptx_editor_engine::bitmap::{alpha_vertical_bounds, box_blur_alpha, pixel_offset, quarter_turn_pixel};

fn bitmap(width: usize, alphas: &[u8]) -> Vec<u8> {
    let mut out = Vec::new();
    for (i, a) in alphas.iter().enumerate() {
        out.extend_from_slice(&[(i % 256) as u8, (i * 3 % 256) as u8, 7, *a]);
    }
    assert_eq!(out.len() % (width * 4), 0);
    out
}

#[test]
fn ink_rows_are_found() {
    let b = bitmap(2, &[0, 0, 0, 9, 0, 0]);
    assert_eq!(alpha_vertical_bounds(&b, 2, 3), Some((1, 2)));
    let b = bitmap(2, &[5, 0, 0, 0, 0, 1]);
    assert_eq!(alpha_vertical_bounds(&b, 2, 3), Some((0, 3)));
}

#[test]
fn no_ink_gives_none() {
    let b = bitmap(2, &[0, 0, 0, 0]);
    assert_eq!(alpha_vertical_bounds(&b, 2, 2), None);
    assert_eq!(alpha_vertical_bounds(&b, 0, 2), None);
    assert_eq!(alpha_vertical_bounds(&b, 2, 0), None);
    assert_eq!(alpha_vertical_bounds(&b, 2, 3), None);
}

#[test]
fn box_blur_averages_alpha_in_rows() {
    let b = bitmap(3, &[0, 90, 0, 30, 60, 90]);
    let out = box_blur_alpha(&b, 3, 2, 1);
    let alphas: Vec<u8> = out.chunks(4).map(|p| p[3]).collect();
    assert_eq!(alphas, vec![30, 30, 30, 40, 60, 80]);
    for (a, b) in out.chunks(4).zip(b.chunks(4)) {
        assert_eq!(&a[..3], &b[..3]);
    }
}

#[test]
fn box_blur_of_radius_zero_keeps_the_bitmap() {
    let b = bitmap(2, &[1, 2, 3, 250]);
    assert_eq!(box_blur_alpha(&b, 2, 2, 0), b);
}

#[test]
fn pixel_offsets() {
    assert_eq!(pixel_offset(1, 1, 4, 4), Some(20));
    assert_eq!(pixel_offset(0, 0, 4, 4), Some(0));
    assert_eq!(pixel_offset(3, 3, 4, 4), Some(60));
    assert_eq!(pixel_offset(-1, 0, 4, 4), None);
    assert_eq!(pixel_offset(4, 0, 4, 4), None);
    assert_eq!(pixel_offset(0, 4, 4, 4), None);
}

#[test]
fn pixel_offsets_of_unaddressable_bitmaps() {
    // A side longer than i32::MAX holds no addressable pixel.
    assert_eq!(pixel_offset(0, 0, 2_147_483_648, 1), None);
    assert_eq!(pixel_offset(0, 0, 1, 3_000_000_000), None);
    // A wide bitmap whose in-bounds offsets still fit in u32.
    assert_eq!(pixel_offset(5, 0, 2_000_000_000, 1), Some(20));
}

#[test]
fn quarter_turns() {
    // A point right of the centre goes below the target centre.
    assert_eq!(quarter_turn_pixel(12, 10, 10, 10, 50, 60), (50, 62));
    // A point below the centre goes left of the target centre.
    assert_eq!(quarter_turn_pixel(10, 13, 10, 10, 50, 60), (47, 60));
    // The centre lands on the target.
    assert_eq!(quarter_turn_pixel(10, 10, 10, 10, 50, 60), (50, 60));
    // Four turns about a fixed centre give the point back.
    let mut p = (7, -3);
    for _ in 0..4 {
        p = quarter_turn_pixel(p.0, p.1, 1, 2, 1, 2);
    }
    assert_eq!(p, (7, -3));
}
