use vstd::prelude::*;
use vstd::math::{max, min};
use vstd::arithmetic::div_mod::{
    lemma_div_is_ordered, lemma_div_multiples_vanish, lemma_div_pos_is_pos,
    lemma_fundamental_div_mod, lemma_mod_division_less_than_divisor,
};
use crate::canvas_image::{CanvasImage, ImgView};

verus! {

/// A 2x2 linear coordinate map with exact rational entries: entry `(i, j)`
/// is `m_ij / den`. Geometric transforms hand one of these to the shared
/// resampling engine.
#[derive(Clone, Copy, Debug)]
pub struct TransformMatrix {
    pub m11: i64,
    pub m12: i64,
    pub m21: i64,
    pub m22: i64,
    pub den: i64,
}

impl TransformMatrix {
    /// Entries small enough that every coordinate product fits comfortably
    /// in double-wide machine words.
    pub open spec fn wf(self) -> bool {
        &&& 1 <= self.den <= 0x4000_0000_0000_0000
        &&& -0x4000_0000_0000_0000 <= self.m11 <= 0x4000_0000_0000_0000
        &&& -0x4000_0000_0000_0000 <= self.m12 <= 0x4000_0000_0000_0000
        &&& -0x4000_0000_0000_0000 <= self.m21 <= 0x4000_0000_0000_0000
        &&& -0x4000_0000_0000_0000 <= self.m22 <= 0x4000_0000_0000_0000
    }
}

/// Numerator (over `m.den`) of the x coordinate of the image of `(px, py)`.
pub open spec fn map_x_num(m: TransformMatrix, px: int, py: int) -> int {
    px * m.m11 + py * m.m12
}

/// Numerator (over `m.den`) of the y coordinate of the image of `(px, py)`.
pub open spec fn map_y_num(m: TransformMatrix, px: int, py: int) -> int {
    px * m.m21 + py * m.m22
}

/// Smallest x numerator among the images of the four corners of the
/// geometric rectangle `[0, gw] x [0, gh]`.
pub open spec fn corner_min_x(m: TransformMatrix, gw: int, gh: int) -> int {
    min(
        min(map_x_num(m, 0, 0), map_x_num(m, 0, gh)),
        min(map_x_num(m, gw, 0), map_x_num(m, gw, gh)),
    )
}

/// Largest x numerator among the images of the four corners.
pub open spec fn corner_max_x(m: TransformMatrix, gw: int, gh: int) -> int {
    max(
        max(map_x_num(m, 0, 0), map_x_num(m, 0, gh)),
        max(map_x_num(m, gw, 0), map_x_num(m, gw, gh)),
    )
}

/// Smallest y numerator among the images of the four corners.
pub open spec fn corner_min_y(m: TransformMatrix, gw: int, gh: int) -> int {
    min(
        min(map_y_num(m, 0, 0), map_y_num(m, 0, gh)),
        min(map_y_num(m, gw, 0), map_y_num(m, gw, gh)),
    )
}

/// Largest y numerator among the images of the four corners.
pub open spec fn corner_max_y(m: TransformMatrix, gw: int, gh: int) -> int {
    max(
        max(map_y_num(m, 0, 0), map_y_num(m, 0, gh)),
        max(map_y_num(m, gw, 0), map_y_num(m, gw, gh)),
    )
}

/// Ceiling division for a non-negative numerator and positive denominator.
pub open spec fn ceil_div(n: int, d: int) -> int {
    (n + d - 1) / d
}

/// Width in pixels of the canvas that holds the transformed image: the
/// ceiling of the corner span, plus one.
pub open spec fn trans_new_width(m: TransformMatrix, gw: int, gh: int) -> int {
    ceil_div(corner_max_x(m, gw, gh) - corner_min_x(m, gw, gh), m.den as int) + 1
}

/// Height in pixels of the canvas that holds the transformed image.
pub open spec fn trans_new_height(m: TransformMatrix, gw: int, gh: int) -> int {
    ceil_div(corner_max_y(m, gw, gh) - corner_min_y(m, gw, gh), m.den as int) + 1
}

/// Rounding of the rational `n / d` to the nearest integer, halves away
/// from zero.
pub open spec fn round_half_away(n: int, d: int) -> int {
    if n >= 0 {
        (2 * n + d) / (2 * d)
    } else {
        -((2 * (-n) + d) / (2 * d))
    }
}

/// Numerator (over `2 * m.den`) of the source x coordinate that output
/// pixel `(x, y)` maps back to: the output point is re-centred on the new
/// canvas, run through the matrix, and re-centred on the source.
pub open spec fn trans_src_x_num(img: ImgView, m: TransformMatrix, x: int, y: int) -> int {
    let gw = img.width - 1;
    let gh = img.height - 1;
    let nw = trans_new_width(m, gw, gh);
    let nh = trans_new_height(m, gw, gh);
    (2 * x - nw) * m.m11 + (2 * y - nh) * m.m12 + gw * m.den
}

/// Numerator (over `2 * m.den`) of the source y coordinate that output
/// pixel `(x, y)` maps back to.
pub open spec fn trans_src_y_num(img: ImgView, m: TransformMatrix, x: int, y: int) -> int {
    let gw = img.width - 1;
    let gh = img.height - 1;
    let nw = trans_new_width(m, gw, gh);
    let nh = trans_new_height(m, gw, gh);
    (2 * x - nw) * m.m21 + (2 * y - nh) * m.m22 + gh * m.den
}

/// The source column that output pixel `(x, y)` samples, rounded to the
/// nearest pixel.
pub open spec fn trans_src_x(img: ImgView, m: TransformMatrix, x: int, y: int) -> int {
    round_half_away(trans_src_x_num(img, m, x, y), 2 * m.den)
}

/// The source row that output pixel `(x, y)` samples.
pub open spec fn trans_src_y(img: ImgView, m: TransformMatrix, x: int, y: int) -> int {
    round_half_away(trans_src_y_num(img, m, x, y), 2 * m.den)
}

/// The out-of-canvas sentinel pixel: fully transparent.
pub open spec fn transparent_chan(c: int) -> u8 {
    if c == 0 {
        255u8
    } else {
        0u8
    }
}

/// What each channel of the transformed image holds: the source pixel that
/// `(x, y)` maps back to when that lands inside the source, and the
/// transparent sentinel otherwise.
pub open spec fn trans_pixel_chan(img: ImgView, m: TransformMatrix, c: int, x: int, y: int) -> u8 {
    let sx = trans_src_x(img, m, x, y);
    let sy = trans_src_y(img, m, x, y);
    if img.in_bounds(sx, sy) {
        img.chan(c, sx, sy)
    } else {
        transparent_chan(c)
    }
}

/// A product of two values is bounded by the product of their bounds.
pub proof fn lemma_abs_mul_bound(a: int, b: int, am: int, bm: int)
    by (nonlinear_arith)
    requires
        -am <= a <= am,
        -bm <= b <= bm,
        0 <= am,
        0 <= bm,
    ensures
        -(am * bm) <= a * b <= am * bm,
{
}

/// Bounds of ceiling division: the scaled ceiling covers the numerator and
/// overshoots it by less than the denominator.
pub proof fn lemma_ceil_div_bounds(n: int, d: int)
    requires
        0 <= n,
        1 <= d,
    ensures
        0 <= ceil_div(n, d),
        n <= d * ceil_div(n, d),
        d * ceil_div(n, d) <= n + d - 1,
{
    lemma_fundamental_div_mod(n + d - 1, d);
    lemma_mod_division_less_than_divisor(n + d - 1, d);
    lemma_div_pos_is_pos(n + d - 1, d);
}

/// Rounding a rational in the nearest-integer sense never strays more than
/// half the denominator: scaled by `d`, the result stays within the span of
/// the numerator.
proof fn lemma_round_half_away_sound(n: int, d: int)
    requires
        1 <= d,
    ensures
        n >= 0 ==> 0 <= round_half_away(n, d) && d * round_half_away(n, d) <= n + d,
        n < 0 ==> round_half_away(n, d) <= 0 && d * round_half_away(n, d) >= n - d,
{
    if n >= 0 {
        lemma_div_pos_is_pos(2 * n + d, 2 * d);
        lemma_fundamental_div_mod(2 * n + d, 2 * d);
        lemma_mod_division_less_than_divisor(2 * n + d, 2 * d);
        let q = (2 * n + d) / (2 * d);
        assert(2 * d * q <= 2 * n + d);
        assert(d * q + d * q == 2 * d * q) by (nonlinear_arith);
        assert(d * q <= n + d);
    } else {
        lemma_div_pos_is_pos(2 * (-n) + d, 2 * d);
        lemma_fundamental_div_mod(2 * (-n) + d, 2 * d);
        lemma_mod_division_less_than_divisor(2 * (-n) + d, 2 * d);
        let q = (2 * (-n) + d) / (2 * d);
        assert(2 * d * q <= 2 * (-n) + d);
        assert(d * q + d * q == 2 * d * q) by (nonlinear_arith);
        assert(d * (-q) == -(d * q)) by (nonlinear_arith);
    }
}

/// Rounds the rational `n / d` to the nearest integer, halves away from
/// zero.
fn round_half_away_exec(n: i128, d: i128) -> (r: i128)
    requires
        1 <= d <= 0x1_0000_0000_0000_0000,
        -0x4000_0000_0000_0000_0000_0000_0000 <= n <= 0x4000_0000_0000_0000_0000_0000_0000,
    ensures
        r == round_half_away(n as int, d as int),
{
    proof {
        lemma_round_half_away_sound(n as int, d as int);
    }
    if n >= 0 {
        let q: u128 = (2 * (n as u128) + (d as u128)) / (2 * (d as u128));
        proof {
            let qi = (2 * (n as int) + d) / (2 * (d as int));
            lemma_div_is_ordered(2 * (n as int) + d, 2 * (n as int) + 2 * (d as int), 2 * (
            d as int));
            lemma_div_multiples_vanish((n as int) + d, 2);
            assert(2 * ((n as int) + d) / 2 == (n as int) + d) by {
                assert(2 * ((n as int) + d) == ((n as int) + d) * 2);
                vstd::arithmetic::div_mod::lemma_div_by_multiple((n as int) + d, 2);
            }
            assert(qi <= (2 * (n as int) + 2 * (d as int)) / (2 * (d as int)));
        }
        q as i128
    } else {
        let q: u128 = (2 * ((-n) as u128) + (d as u128)) / (2 * (d as u128));
        proof {
            let m = -(n as int);
            lemma_div_is_ordered(2 * m + d, 2 * m + 2 * (d as int), 2 * (d as int));
        }
        -(q as i128)
    }
}

/// Computes the output canvas size (in pixels) that fully contains the four
/// transformed corners of a geometric `gw` by `gh` rectangle.
pub fn new_size_after_transformation(m: &TransformMatrix, gw: u32, gh: u32) -> (size: (u32, u32))
    requires
        m.wf(),
        trans_new_width(*m, gw as int, gh as int) <= u32::MAX,
        trans_new_height(*m, gw as int, gh as int) <= u32::MAX,
    ensures
        size.0 == trans_new_width(*m, gw as int, gh as int),
        size.1 == trans_new_height(*m, gw as int, gh as int),
{
    let gwi = gw as i128;
    let ghi = gh as i128;
    proof {
        lemma_abs_mul_bound(gw as int, m.m11 as int, 0x1_0000_0000, 0x4000_0000_0000_0000);
        lemma_abs_mul_bound(gh as int, m.m12 as int, 0x1_0000_0000, 0x4000_0000_0000_0000);
        lemma_abs_mul_bound(gw as int, m.m21 as int, 0x1_0000_0000, 0x4000_0000_0000_0000);
        lemma_abs_mul_bound(gh as int, m.m22 as int, 0x1_0000_0000, 0x4000_0000_0000_0000);
    }
    let x2: i128 = ghi * (m.m12 as i128);
    let x3: i128 = gwi * (m.m11 as i128);
    let x4: i128 = x3 + x2;
    let y2: i128 = ghi * (m.m22 as i128);
    let y3: i128 = gwi * (m.m21 as i128);
    let y4: i128 = y3 + y2;
    let mut min_x: i128 = 0;
    if x2 < min_x {
        min_x = x2;
    }
    if x3 < min_x {
        min_x = x3;
    }
    if x4 < min_x {
        min_x = x4;
    }
    let mut max_x: i128 = 0;
    if x2 > max_x {
        max_x = x2;
    }
    if x3 > max_x {
        max_x = x3;
    }
    if x4 > max_x {
        max_x = x4;
    }
    let mut min_y: i128 = 0;
    if y2 < min_y {
        min_y = y2;
    }
    if y3 < min_y {
        min_y = y3;
    }
    if y4 < min_y {
        min_y = y4;
    }
    let mut max_y: i128 = 0;
    if y2 > max_y {
        max_y = y2;
    }
    if y3 > max_y {
        max_y = y3;
    }
    if y4 > max_y {
        max_y = y4;
    }
    proof {
        assert(min_x == corner_min_x(*m, gw as int, gh as int));
        assert(max_x == corner_max_x(*m, gw as int, gh as int));
        assert(min_y == corner_min_y(*m, gw as int, gh as int));
        assert(max_y == corner_max_y(*m, gw as int, gh as int));
    }
    let span_x: u128 = (max_x - min_x) as u128;
    let span_y: u128 = (max_y - min_y) as u128;
    let den = m.den as u128;
    let nw = (span_x + (den - 1)) / den + 1;
    let nh = (span_y + (den - 1)) / den + 1;
    proof {
        lemma_ceil_div_bounds(span_x as int, m.den as int);
        lemma_ceil_div_bounds(span_y as int, m.den as int);
    }
    (nw as u32, nh as u32)
}

/// Resamples the image through a rational coordinate map: the output canvas
/// is sized to contain the four transformed corners, and each output pixel
/// copies the source pixel its centre maps back to, or the transparent
/// sentinel when that falls outside the source.
pub fn transform_image(image: &CanvasImage, m: &TransformMatrix) -> (out: CanvasImage)
    requires
        image@.wf(),
        image@.width >= 1,
        image@.height >= 1,
        m.wf(),
        trans_new_width(*m, image@.width - 1, image@.height - 1) <= u32::MAX,
        trans_new_height(*m, image@.width - 1, image@.height - 1) <= u32::MAX,
    ensures
        out@.wf(),
        out@.width == trans_new_width(*m, image@.width - 1, image@.height - 1),
        out@.height == trans_new_height(*m, image@.width - 1, image@.height - 1),
        forall|c: int, x: int, y: int|
            0 <= c < 4 && out@.in_bounds(x, y) ==> out@.chan(c, x, y) == trans_pixel_chan(
                image@,
                *m,
                c,
                x,
                y,
            ),
{
    let w = image.horizontal_size();
    let h = image.vertical_size();
    let gw = w - 1;
    let gh = h - 1;
    let (nw, nh) = new_size_after_transformation(m, gw, gh);
    let ghost mm = *m;
    let ghost wi = nw as int;
    let ghost hi = nh as int;
    let mut data: Vec<u8> = Vec::new();
    let mut y: u32 = 0;
    while y < nh
        invariant
        image@.wf(),
        image@.width >= 1,
        image@.height >= 1,
        mm.wf(),
        mm == *m,
        w == image@.width,
        h == image@.height,
        gw == w - 1,
        gh == h - 1,
        wi == nw,
        hi == nh,
        nw == trans_new_width(mm, gw as int, gh as int),
        nh == trans_new_height(mm, gw as int, gh as int),
        0 <= y <= nh,
        data@.len() == 4 * ((y as int) * wi),
        forall|c: int, xx: int, yy: int|
            0 <= c < 4 && 0 <= xx < wi && 0 <= yy < y ==> data@[4 * (yy * wi + xx) + c]
                == trans_pixel_chan(image@, mm, c, xx, yy),
        decreases nh - y,
    {
        let mut x: u32 = 0;
        proof {
            assert(4 * ((y as int) * wi) == 4 * ((y as int) * wi + 0)) by (nonlinear_arith);
        }
        while x < nw
            invariant
            image@.wf(),
            image@.width >= 1,
            image@.height >= 1,
            mm.wf(),
            mm == *m,
            w == image@.width,
            h == image@.height,
            gw == w - 1,
            gh == h - 1,
            wi == nw,
            hi == nh,
            nw == trans_new_width(mm, gw as int, gh as int),
            nh == trans_new_height(mm, gw as int, gh as int),
            0 <= y < nh,
            0 <= x <= nw,
            data@.len() == 4 * ((y as int) * wi + x as int),
            forall|c: int, xx: int, yy: int|
                0 <= c < 4 && 0 <= xx < wi && 0 <= yy < y ==> data@[4 * (yy * wi + xx) + c]
                    == trans_pixel_chan(image@, mm, c, xx, yy),
            forall|c: int, xx: int|
                0 <= c < 4 && 0 <= xx < x ==> data@[4 * ((y as int) * wi + xx) + c]
                    == trans_pixel_chan(image@, mm, c, xx, y as int),
            decreases nw - x,
        {
            proof {
                lemma_abs_mul_bound(
                    2 * (x as int) - wi,
                    m.m11 as int,
                    0x2_0000_0000,
                    0x4000_0000_0000_0000,
                );
                lemma_abs_mul_bound(
                    2 * (y as int) - hi,
                    m.m12 as int,
                    0x2_0000_0000,
                    0x4000_0000_0000_0000,
                );
                lemma_abs_mul_bound(
                    2 * (x as int) - wi,
                    m.m21 as int,
                    0x2_0000_0000,
                    0x4000_0000_0000_0000,
                );
                lemma_abs_mul_bound(
                    2 * (y as int) - hi,
                    m.m22 as int,
                    0x2_0000_0000,
                    0x4000_0000_0000_0000,
                );
                lemma_abs_mul_bound(gw as int, m.den as int, 0x1_0000_0000, 0x4000_0000_0000_0000);
                lemma_abs_mul_bound(gh as int, m.den as int, 0x1_0000_0000, 0x4000_0000_0000_0000);
            }
            let xr: i128 = 2 * (x as i128) - (nw as i128);
            let yr: i128 = 2 * (y as i128) - (nh as i128);
            let sxn: i128 = xr * (m.m11 as i128) + yr * (m.m12 as i128) + (gw as i128) * (
            m.den as i128);
            let syn: i128 = xr * (m.m21 as i128) + yr * (m.m22 as i128) + (gh as i128) * (
            m.den as i128);
            let sx = round_half_away_exec(sxn, 2 * (m.den as i128));
            let sy = round_half_away_exec(syn, 2 * (m.den as i128));
            let (r, g, b, a) = if 0 <= sx && sx < w as i128 && 0 <= sy && sy < h as i128 {
                image.rgba(sx as u32, sy as u32).unwrap()
            } else {
                (255, 0, 0, 0)
            };
            let ghost prev = data@;
            data.push(r);
            data.push(g);
            data.push(b);
            data.push(a);
            proof {
                let yi = y as int;
                let xi = x as int;
                assert(sx == trans_src_x(image@, mm, xi, yi));
                assert(sy == trans_src_y(image@, mm, xi, yi));
                assert forall|c: int, xx: int, yy: int|
                    0 <= c < 4 && 0 <= xx < wi && 0 <= yy < yi implies data@[4 * (yy * wi + xx)
                    + c] == trans_pixel_chan(image@, mm, c, xx, yy) by {
                    crate::convolution::lemma_offset_in_prefix(wi, xx, yy, xi, yi);
                    assert(data@[4 * (yy * wi + xx) + c] == prev[4 * (yy * wi + xx) + c]);
                }
                assert forall|c: int, xx: int|
                    0 <= c < 4 && 0 <= xx < xi + 1 implies data@[4 * (yi * wi + xx) + c]
                    == trans_pixel_chan(image@, mm, c, xx, yi) by {
                    if xx < xi {
                        crate::convolution::lemma_offset_in_prefix(wi, xx, yi, xi, yi);
                        assert(data@[4 * (yi * wi + xx) + c] == prev[4 * (yi * wi + xx) + c]);
                    } else {
                        assert(4 * (yi * wi + xx) + c == prev.len() + c);
                    }
                }
            }
            x = x + 1;
        }
        proof {
            let yi = y as int;
            assert(4 * (yi * wi + wi) == 4 * ((yi + 1) * wi)) by (nonlinear_arith);
            assert forall|c: int, xx: int, yy: int|
                0 <= c < 4 && 0 <= xx < wi && 0 <= yy < yi + 1 implies data@[4 * (yy * wi + xx)
                + c] == trans_pixel_chan(image@, mm, c, xx, yy) by {
                crate::convolution::lemma_offset_in_prefix(wi, xx, yy, wi, yi);
            }
        }
        y = y + 1;
    }
    proof {
        assert(4 * ((hi) * wi) == 4 * wi * hi) by (nonlinear_arith);
    }
    CanvasImage::from_vec_with_size(data, nw, nh)
}

/// The shear matrix `[[1 + lambda * mu, lambda], [mu, 1]]` over the exact
/// rational parameters `lambda = ln / ld` and `mu = mn / md`.
pub open spec fn shear_matrix(ln: i64, ld: i64, mn: i64, md: i64) -> TransformMatrix {
    TransformMatrix {
        m11: (ld * md + ln * mn) as i64,
        m12: (ln * md) as i64,
        m21: (mn * ld) as i64,
        m22: (ld * md) as i64,
        den: (ld * md) as i64,
    }
}

/// Shears the image by the matrix `[[1 + lambda * mu, lambda], [mu, 1]]`,
/// with `lambda = lambda_num / lambda_den` and `mu = mu_num / mu_den` exact
/// rationals: the canvas grows to hold the four transformed corners and
/// out-of-source pixels become the transparent sentinel.
pub fn shear(
    image: &CanvasImage,
    lambda_num: i64,
    lambda_den: i64,
    mu_num: i64,
    mu_den: i64,
) -> (out: CanvasImage)
    requires
        image@.wf(),
        image@.width >= 1,
        image@.height >= 1,
        1 <= lambda_den <= 0x4000_0000,
        -0x4000_0000 <= lambda_num <= 0x4000_0000,
        1 <= mu_den <= 0x4000_0000,
        -0x4000_0000 <= mu_num <= 0x4000_0000,
        trans_new_width(
            shear_matrix(lambda_num, lambda_den, mu_num, mu_den),
            image@.width - 1,
            image@.height - 1,
        ) <= u32::MAX,
        trans_new_height(
            shear_matrix(lambda_num, lambda_den, mu_num, mu_den),
            image@.width - 1,
            image@.height - 1,
        ) <= u32::MAX,
    ensures
        out@.wf(),
        out@.width == trans_new_width(
            shear_matrix(lambda_num, lambda_den, mu_num, mu_den),
            image@.width - 1,
            image@.height - 1,
        ),
        out@.height == trans_new_height(
            shear_matrix(lambda_num, lambda_den, mu_num, mu_den),
            image@.width - 1,
            image@.height - 1,
        ),
        forall|c: int, x: int, y: int|
            0 <= c < 4 && out@.in_bounds(x, y) ==> out@.chan(c, x, y) == trans_pixel_chan(
                image@,
                shear_matrix(lambda_num, lambda_den, mu_num, mu_den),
                c,
                x,
                y,
            ),
{
    proof {
        lemma_abs_mul_bound(lambda_den as int, mu_den as int, 0x4000_0000, 0x4000_0000);
        lemma_abs_mul_bound(lambda_num as int, mu_num as int, 0x4000_0000, 0x4000_0000);
        lemma_abs_mul_bound(lambda_num as int, mu_den as int, 0x4000_0000, 0x4000_0000);
        lemma_abs_mul_bound(mu_num as int, lambda_den as int, 0x4000_0000, 0x4000_0000);
        assert(1 <= (lambda_den as int) * (mu_den as int)) by (nonlinear_arith)
            requires
                1 <= lambda_den,
                1 <= mu_den,
        ;
    }
    let m = TransformMatrix {
        m11: lambda_den * mu_den + lambda_num * mu_num,
        m12: lambda_num * mu_den,
        m21: mu_num * lambda_den,
        m22: lambda_den * mu_den,
        den: lambda_den * mu_den,
    };
    proof {
        assert(m == shear_matrix(lambda_num, lambda_den, mu_num, mu_den));
    }
    transform_image(image, &m)
}

/// Canvas containment: every transformed source corner, re-based against
/// the smallest corner coordinate, lands inside the computed output canvas.
pub proof fn lemma_transform_corners_in_canvas(
    m: TransformMatrix,
    gw: int,
    gh: int,
    px: int,
    py: int,
)
    requires
        1 <= m.den,
        0 <= gw,
        0 <= gh,
        px == 0 || px == gw,
        py == 0 || py == gh,
    ensures
        0 <= map_x_num(m, px, py) - corner_min_x(m, gw, gh),
        map_x_num(m, px, py) - corner_min_x(m, gw, gh) < m.den * trans_new_width(m, gw, gh),
        0 <= map_y_num(m, px, py) - corner_min_y(m, gw, gh),
        map_y_num(m, px, py) - corner_min_y(m, gw, gh) < m.den * trans_new_height(m, gw, gh),
{
    let d = m.den as int;
    let span_x = corner_max_x(m, gw, gh) - corner_min_x(m, gw, gh);
    let span_y = corner_max_y(m, gw, gh) - corner_min_y(m, gw, gh);
    lemma_ceil_div_bounds(span_x, d);
    lemma_ceil_div_bounds(span_y, d);
    assert(d * (ceil_div(span_x, d) + 1) == d * ceil_div(span_x, d) + d) by (nonlinear_arith);
    assert(d * (ceil_div(span_y, d) + 1) == d * ceil_div(span_y, d) + d) by (nonlinear_arith);
}

} // verus!
