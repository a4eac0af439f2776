//! Integer work on RGBA text bitmaps: the rows that carry ink, the horizontal
//! box blur of a reflection's alpha channel, and the byte offset of a pixel.
//!
//! A bitmap of `width` by `height` pixels is a byte sequence of
//! `width * height * 4` bytes, row by row, four bytes (red, green, blue,
//! alpha) per pixel.
use vstd::prelude::*;

verus! {

/// The byte offset of channel `c` of pixel `(x, y)`.
pub open spec fn channel_index(w: int, x: int, y: int, c: int) -> int {
    (y * w + x) * 4 + c
}

/// Row `y` holds a pixel whose alpha is not zero.
pub open spec fn row_has_alpha(src: Seq<u8>, w: int, y: int) -> bool {
    exists|x: int| 0 <= x < w && #[trigger] src[channel_index(w, x, y, 3)] != 0
}

/// Every channel of every pixel lies inside a bitmap of `w * h * 4` bytes.
pub proof fn lemma_channel_in_bounds(w: int, h: int, x: int, y: int, c: int)
    requires
        0 <= x < w,
        0 <= y < h,
        0 <= c < 4,
    ensures
        0 <= channel_index(w, x, y, c) < w * h * 4,
        channel_index(w, x, y, c) == y * w * 4 + x * 4 + c,
{
    assert(0 <= y * w + x < h * w) by (nonlinear_arith)
        requires
            0 <= x < w,
            0 <= y < h,
    ;
    assert(y * w * 4 == (y * w) * 4) by (nonlinear_arith);
    assert(h * w * 4 == w * h * 4) by (nonlinear_arith);
}

/// Pixels of earlier rows, and earlier pixels of the same row, come first.
proof fn lemma_pixel_order(w: int, x: int, y: int, xx: int, yy: int)
    requires
        0 <= x <= w,
        0 <= xx < w,
        0 <= yy,
        (yy < y) || (yy == y && xx < x),
    ensures
        yy * w + xx < y * w + x,
{
    if yy < y {
        assert(yy * w + xx < y * w + x) by (nonlinear_arith)
            requires
                0 <= xx < w,
                yy < y,
                0 <= x,
        ;
    }
}

fn row_alpha(source: &[u8], width: usize, y: usize, height: usize) -> (r: bool)
    requires
        y < height,
        width * height * 4 <= source.len(),
    ensures
        r == row_has_alpha(source@, width as int, y as int),
{
    let mut x: usize = 0;
    while x < width
        invariant
            x <= width,
            y < height,
            width * height * 4 <= source.len(),
            forall|xx: int| 0 <= xx < x ==> #[trigger] source@[channel_index(width as int, xx, y as int, 3)] == 0,
        decreases width - x,
    {
        proof {
            lemma_channel_in_bounds(width as int, height as int, x as int, y as int, 3);
        }
        if source[y * width * 4 + x * 4 + 3] != 0 {
            return true;
        }
        x += 1;
    }
    false
}

/// The first row and one past the last row of a bitmap that hold ink, or
/// `None` when no row does or the bitmap is empty or shorter than its size.
pub fn alpha_vertical_bounds(source: &[u8], width: u32, height: u32) -> (r: Option<(u32, u32)>)
    requires
        width * height * 4 <= usize::MAX,
    ensures
        ({
            let w = width as int;
            let h = height as int;
            if w == 0 || h == 0 || source@.len() < w * h * 4 {
                r is None
            } else {
                match r {
                    None => forall|y: int| 0 <= y < h ==> !#[trigger] row_has_alpha(source@, w, y),
                    Some((top, bottom)) => {
                        &&& top < bottom <= h
                        &&& row_has_alpha(source@, w, top as int)
                        &&& row_has_alpha(source@, w, bottom - 1)
                        &&& forall|y: int|
                            0 <= y < h && (y < top || y >= bottom) ==> !#[trigger] row_has_alpha(
                                source@,
                                w,
                                y,
                            )
                    },
                }
            }
        }),
{
    let w = width as usize;
    let h = height as usize;
    if w == 0 || h == 0 || source.len() < w * h * 4 {
        return None;
    }
    let mut top: usize = h;
    let mut bottom: usize = 0;
    let mut y: usize = 0;
    while y < h
        invariant
            y <= h,
            w == width,
            h == height,
            w * h * 4 <= source.len(),
            top <= h,
            top == h <==> bottom == 0,
            top < h ==> top < bottom <= y && row_has_alpha(source@, w as int, top as int)
                && row_has_alpha(source@, w as int, bottom - 1),
            forall|yy: int|
                0 <= yy < y && (top == h || yy < top || yy >= bottom) ==> !#[trigger] row_has_alpha(
                    source@,
                    w as int,
                    yy,
                ),
        decreases h - y,
    {
        let has = row_alpha(source, w, y, h);
        let ghost old_top = top;
        let ghost old_bottom = bottom;
        if has {
            if top == h {
                top = y;
            }
            bottom = y + 1;
        }
        proof {
            assert forall|yy: int|
                0 <= yy < y + 1 && (top == h || yy < top || yy >= bottom) implies !#[trigger] row_has_alpha(
                source@,
                w as int,
                yy,
            ) by {
                if yy < y {
                    assert(old_top == h || yy < old_top || yy >= old_bottom);
                }
            }
        }
        y += 1;
    }
    if top < bottom {
        assert(bottom <= height);
        Some((top as u32, bottom as u32))
    } else {
        None
    }
}

/// `v` limited to `lo..=hi`.
pub open spec fn clamp_int(v: int, lo: int, hi: int) -> int {
    if v < lo {
        lo
    } else if v > hi {
        hi
    } else {
        v
    }
}

/// The sum of the alpha values of the first `k` samples of the window of
/// pixel `(x, y)`: offsets `-r, -r + 1, ...` from `x`, each clamped to the row.
pub open spec fn window_alpha_sum(p: Seq<u8>, w: int, x: int, y: int, r: int, k: int) -> int
    decreases k,
{
    if k <= 0 {
        0
    } else {
        window_alpha_sum(p, w, x, y, r, k - 1) + p[channel_index(
            w,
            clamp_int(x - r + k - 1, 0, w - 1),
            y,
            3,
        )] as int
    }
}

/// The blurred alpha of pixel `(x, y)`: the mean, rounded down, of the alpha
/// values of the `2r + 1` pixels around it in its row, edges repeated.
pub open spec fn blurred_alpha(p: Seq<u8>, w: int, x: int, y: int, r: int) -> int {
    window_alpha_sum(p, w, x, y, r, 2 * r + 1) / (2 * r + 1)
}

proof fn lemma_window_sum_bound(p: Seq<u8>, w: int, x: int, y: int, r: int, k: int)
    ensures
        0 <= window_alpha_sum(p, w, x, y, r, k) <= 255 * (if k < 0 { 0 } else { k }),
    decreases k,
{
    if k > 0 {
        lemma_window_sum_bound(p, w, x, y, r, k - 1);
    }
}

/// The blur of a window of radius 0 is the pixel itself.
pub proof fn lemma_blur_radius_zero(p: Seq<u8>, w: int, x: int, y: int)
    requires
        0 <= x < w,
    ensures
        blurred_alpha(p, w, x, y, 0) == p[channel_index(w, x, y, 3)] as int,
{
    reveal_with_fuel(window_alpha_sum, 2);
    assert(clamp_int(x, 0, w - 1) == x);
    let v = p[channel_index(w, x, y, 3)] as int;
    assert(window_alpha_sum(p, w, x, y, 0, 1) == v);
    assert(v / 1 == v) by (nonlinear_arith);
}

/// The first `k` samples of a window over a row whose only ink is the
/// pixel `c` with alpha `v`, at least `r` pixels from either end.
proof fn lemma_impulse_window(p: Seq<u8>, w: int, h: int, x: int, y: int, c: int, v: u8, r: int, k: int)
    requires
        p.len() == w * h * 4,
        0 <= y < h,
        0 <= x < w,
        0 <= r,
        r <= c,
        c + r < w,
        p[channel_index(w, c, y, 3)] == v,
        forall|xx: int| 0 <= xx < w && xx != c ==> p[#[trigger] channel_index(w, xx, y, 3)] == 0,
        0 <= k <= 2 * r + 1,
    ensures
        window_alpha_sum(p, w, x, y, r, k) == if x - r <= c <= x - r + k - 1 {
            v as int
        } else {
            0
        },
    decreases k,
{
    if k > 0 {
        lemma_impulse_window(p, w, h, x, y, c, v, r, k - 1);
        let s = clamp_int(x - r + k - 1, 0, w - 1);
        if s != c {
            assert(p[channel_index(w, s, y, 3)] == 0);
        }
        if r == 0 {
            assert(s == x);
        } else {
            assert(s == c <==> x - r + k - 1 == c);
        }
    }
}

/// The blur spreads a lone inked pixel evenly over the `2r + 1` pixels
/// around it: in a row whose only ink is pixel `c` with alpha `v`, at least
/// `r` pixels from either end, every pixel within `r` of `c` gets `v / (2r +
/// 1)` (rounded down) and every pixel farther away gets nothing.
pub proof fn lemma_blur_spreads_lone_pixel(p: Seq<u8>, w: int, h: int, x: int, y: int, c: int, v: u8, r: int)
    requires
        p.len() == w * h * 4,
        0 <= y < h,
        0 <= x < w,
        0 <= r <= 8,
        r <= c,
        c + r < w,
        p[channel_index(w, c, y, 3)] == v,
        forall|xx: int| 0 <= xx < w && xx != c ==> p[#[trigger] channel_index(w, xx, y, 3)] == 0,
    ensures
        blurred_alpha(p, w, x, y, r) == if x - r <= c <= x + r {
            v as int / (2 * r + 1)
        } else {
            0
        },
{
    lemma_impulse_window(p, w, h, x, y, c, v, r, 2 * r + 1);
    assert(0int / (2 * r + 1) == 0) by (nonlinear_arith)
        requires
            r >= 0,
    ;
}

/// Blurs the alpha channel of a bitmap horizontally with a box of radius
/// `radius`; the colour channels are kept.
pub fn box_blur_alpha(pixels: &Vec<u8>, width: usize, height: usize, radius: u32) -> (out: Vec<u8>)
    requires
        pixels.len() == width * height * 4,
        radius <= 8,
    ensures
        out.len() == pixels.len(),
        forall|x: int, y: int, c: int|
            0 <= x < width && 0 <= y < height && 0 <= c < 3 ==> #[trigger] out@[channel_index(
                width as int,
                x,
                y,
                c,
            )] == pixels@[channel_index(width as int, x, y, c)],
        forall|x: int, y: int|
            0 <= x < width && 0 <= y < height ==> #[trigger] out@[channel_index(
                width as int,
                x,
                y,
                3,
            )] == blurred_alpha(pixels@, width as int, x, y, radius as int),
{
    let mut out: Vec<u8> = Vec::new();
    let taps: usize = 2 * (radius as usize) + 1;
    let mut y: usize = 0;
    while y < height
        invariant
            pixels.len() == width * height * 4,
            radius <= 8,
            taps == 2 * radius + 1,
            y <= height,
            out.len() == y * width * 4,
            forall|xx: int, yy: int, c: int|
                0 <= xx < width && 0 <= yy < y && 0 <= c < 3 ==> #[trigger] out@[channel_index(
                    width as int,
                    xx,
                    yy,
                    c,
                )] == pixels@[channel_index(width as int, xx, yy, c)],
            forall|xx: int, yy: int|
                0 <= xx < width && 0 <= yy < y ==> #[trigger] out@[channel_index(
                    width as int,
                    xx,
                    yy,
                    3,
                )] == blurred_alpha(pixels@, width as int, xx, yy, radius as int),
        decreases height - y,
    {
        let mut x: usize = 0;
        assert(y * width * 4 == (y * width + 0) * 4) by (nonlinear_arith);
        while x < width
            invariant
                pixels.len() == width * height * 4,
                radius <= 8,
                taps == 2 * radius + 1,
                y < height,
                x <= width,
                out.len() == (y * width + x) * 4,
                forall|xx: int, yy: int, c: int|
                    0 <= xx < width && 0 <= c < 3 && ((0 <= yy < y) || (yy == y && xx < x))
                        ==> #[trigger] out@[channel_index(width as int, xx, yy, c)]
                        == pixels@[channel_index(width as int, xx, yy, c)],
                forall|xx: int, yy: int|
                    0 <= xx < width && ((0 <= yy < y) || (yy == y && xx < x))
                        ==> #[trigger] out@[channel_index(width as int, xx, yy, 3)]
                        == blurred_alpha(pixels@, width as int, xx, yy, radius as int),
            decreases width - x,
        {
            proof {
                lemma_channel_in_bounds(width as int, height as int, x as int, y as int, 3);
                assert(width * 4 <= width * height * 4) by (nonlinear_arith)
                    requires
                        y < height,
                ;
            }
            let base = y * width * 4 + x * 4;
            let mut sum: u32 = 0;
            let mut k: usize = 0;
            while k < taps
                invariant
                    pixels.len() == width * height * 4,
                    taps == 2 * radius + 1,
                    radius <= 8,
                    x < width,
                    y < height,
                    k <= taps,
                    width * 4 <= pixels.len(),
                    sum == window_alpha_sum(pixels@, width as int, x as int, y as int, radius as int, k as int),
                decreases taps - k,
            {
                let shifted = x + k;
                let sample = if shifted < radius as usize {
                    0
                } else if shifted - (radius as usize) > width - 1 {
                    width - 1
                } else {
                    shifted - (radius as usize)
                };
                proof {
                    lemma_channel_in_bounds(width as int, height as int, sample as int, y as int, 3);
                    lemma_window_sum_bound(pixels@, width as int, x as int, y as int, radius as int, k as int);
                }
                sum = sum + pixels[y * width * 4 + sample * 4 + 3] as u32;
                k += 1;
            }
            let ghost before = out@;
            let ghost old_len = out.len();
            proof {
                lemma_channel_in_bounds(width as int, height as int, x as int, y as int, 0);
                lemma_window_sum_bound(pixels@, width as int, x as int, y as int, radius as int, taps as int);
            }
            out.push(pixels[base]);
            out.push(pixels[base + 1]);
            out.push(pixels[base + 2]);
            proof {
                let si = sum as int;
                let ti = taps as int;
                assert(si <= 255 * ti);
                assert(si / ti <= 255) by (nonlinear_arith)
                    requires
                        0 <= si <= 255 * ti,
                        ti >= 1,
                ;
            }
            let alpha = (sum / (taps as u32)) as u8;
            assert(alpha == blurred_alpha(pixels@, width as int, x as int, y as int, radius as int));
            out.push(alpha);
            proof {
                assert(out@[old_len + 3] == alpha);
                assert forall|xx: int, yy: int, c: int|
                    0 <= xx < width && 0 <= c < 4 && ((0 <= yy < y) || (yy == y && xx < x))
                        implies #[trigger] out@[channel_index(width as int, xx, yy, c)]
                        == before[channel_index(width as int, xx, yy, c)] by {
                    lemma_pixel_order(width as int, x as int, y as int, xx, yy);
                    assert(channel_index(width as int, xx, yy, c) < old_len) by (nonlinear_arith)
                        requires
                            yy * width + xx < y * width + x,
                            old_len == (y * width + x) * 4,
                            0 <= c < 4,
                    ;
                }
                assert(channel_index(width as int, x as int, y as int, 0) == old_len);
            }
            x += 1;
        }
        assert((y * width + width) * 4 == (y + 1) * width * 4) by (nonlinear_arith);
        y += 1;
    }
    assert(out.len() == width * height * 4) by (nonlinear_arith)
        requires
            out.len() == y * width * 4,
            y == height,
    ;
    out
}

/// Pixel `(x, y)` lies in a bitmap of `w` by `h` pixels whose sides are
/// addressable with `i32` coordinates. A side longer than `i32::MAX` holds
/// no addressable pixel.
pub open spec fn pixel_in_bitmap(x: int, y: int, w: int, h: int) -> bool {
    w <= i32::MAX && h <= i32::MAX && 0 <= x < w && 0 <= y < h
}

/// The byte offset of pixel `(x, y)` in a bitmap, or `None` when the pixel
/// lies outside it. The offset is computed in `u32`, so that of a pixel
/// inside the bitmap must fit there.
pub fn pixel_offset(x: i32, y: i32, width: u32, height: u32) -> (r: Option<usize>)
    requires
        pixel_in_bitmap(x as int, y as int, width as int, height as int) ==> channel_index(
            width as int,
            x as int,
            y as int,
            0,
        ) <= u32::MAX,
    ensures
        r == if pixel_in_bitmap(x as int, y as int, width as int, height as int) {
            Some(channel_index(width as int, x as int, y as int, 0) as usize)
        } else {
            None::<usize>
        },
{
    if x < 0 || y < 0 || width > 2147483647u32 || height > 2147483647u32 {
        return None;
    }
    if x >= width as i32 || y >= height as i32 {
        return None;
    }
    let yu = y as u32;
    let xu = x as u32;
    assert(yu * width <= (yu * width + xu) * 4) by (nonlinear_arith)
        requires
            0 <= yu,
            0 <= xu,
            0 <= width,
    ;
    let offset = (yu * width + xu) * 4;
    Some(offset as usize)
}

/// The position a pixel of a turned run takes: the run is turned a quarter
/// turn clockwise about `(center_x, center_y)` and moved so that its centre
/// lands on `(target_x, target_y)`.
pub open spec fn quarter_turn(x: int, y: int, center_x: int, center_y: int, target_x: int, target_y: int) -> (int, int) {
    (target_x - (y - center_y), target_y + (x - center_x))
}

/// The steps of a quarter turn stay within `i32`.
pub open spec fn quarter_turn_fits(x: int, y: int, center_x: int, center_y: int, target_x: int, target_y: int) -> bool {
    let dx = x - center_x;
    let dy = y - center_y;
    let in_i32 = |v: int| i32::MIN <= v <= i32::MAX;
    &&& in_i32(dx)
    &&& in_i32(dy)
    &&& in_i32(center_x - dy)
    &&& in_i32(center_y + dx)
    &&& in_i32(target_x - center_x)
    &&& in_i32(center_y + dx + target_y)
    &&& in_i32(center_x - dy + (target_x - center_x))
    &&& in_i32(center_y + dx + (target_y - center_y))
}

/// Turns the pixel `(x, y)` of a run that is set sideways in a vertical
/// column a quarter turn about `(center_x, center_y)` and moves the run's
/// centre to `(target_x, target_y)`.
pub fn quarter_turn_pixel(x: i32, y: i32, center_x: i32, center_y: i32, target_x: i32, target_y: i32) -> (r: (
    i32,
    i32,
))
    requires
        quarter_turn_fits(x as int, y as int, center_x as int, center_y as int, target_x as int, target_y as int),
    ensures
        (r.0 as int, r.1 as int) == quarter_turn(
            x as int,
            y as int,
            center_x as int,
            center_y as int,
            target_x as int,
            target_y as int,
        ),
{
    let dx = x - center_x;
    let dy = y - center_y;
    let (mut rotated_x, rotated_y) = (center_x - dy, center_y + dx);
    rotated_x += target_x - center_x;
    let rotated_y = rotated_y + target_y - center_y;
    (rotated_x, rotated_y)
}

} // verus!
