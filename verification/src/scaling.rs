use vstd::prelude::*;
use vstd::arithmetic::div_mod::{
    lemma_div_denominator, lemma_div_pos_is_pos, lemma_fundamental_div_mod,
    lemma_fundamental_div_mod_converse_div, lemma_div_multiples_vanish,
    lemma_mod_division_less_than_divisor, lemma_mod_multiples_basic, lemma_multiply_divide_le,
    lemma_multiply_divide_lt,
};
use crate::canvas_image::{CanvasImage, ImgView};

verus! {

/// Which interpolation a resampling operation uses for fractional
/// coordinates.
pub enum Interpolation {
    Nearest,
    Bilinear,
}

/// The denominator of the source-coordinate mapping for an output span of
/// `n` pixels: corner pixels map exactly onto corner pixels, and a
/// single-pixel span degenerates to denominator 1.
pub open spec fn scale_den(n: int) -> int {
    if n >= 2 {
        n - 1
    } else {
        1
    }
}

/// The bilinearly interpolated channel value of output pixel `(x, y)` when
/// scaling `img` to `nw` by `nh` pixels: the source coordinate is the exact
/// rational `x * (width-1) / (nw-1)` (and likewise for `y`), the four
/// surrounding source pixels are blended with the fractional weights, and
/// the result is rounded half-up.
pub open spec fn bilinear_chan(img: ImgView, nw: int, nh: int, c: int, x: int, y: int) -> int {
    let dx = scale_den(nw);
    let dy = scale_den(nh);
    let sxn = x * (img.width - 1);
    let syn = y * (img.height - 1);
    let x0 = sxn / dx;
    let y0 = syn / dy;
    let tx = sxn % dx;
    let ty = syn % dy;
    let x1 = if tx == 0 {
        x0
    } else {
        x0 + 1
    };
    let y1 = if ty == 0 {
        y0
    } else {
        y0 + 1
    };
    let c00 = img.chan(c, x0, y0) as int;
    let c10 = img.chan(c, x1, y0) as int;
    let c01 = img.chan(c, x0, y1) as int;
    let c11 = img.chan(c, x1, y1) as int;
    let num = (dx - tx) * (dy - ty) * c00 + tx * (dy - ty) * c10 + (dx - tx) * ty * c01 + tx * ty
        * c11;
    (2 * num + dx * dy) / (2 * (dx * dy))
}

/// The source column that output column `x` maps to lies inside the source,
/// and so does its right neighbour whenever the fraction is non-zero.
proof fn lemma_scale_coord_bounds(x: int, n_out: int, size: int)
    requires
        0 <= x < n_out,
        1 <= size,
    ensures
        scale_den(n_out) >= 1,
        0 <= x * (size - 1),
        0 <= x * (size - 1) / scale_den(n_out) <= size - 1,
        0 <= x * (size - 1) % scale_den(n_out) < scale_den(n_out),
        x * (size - 1) % scale_den(n_out) != 0 ==> x * (size - 1) / scale_den(n_out) + 1 <= size
            - 1,
{
    let d = scale_den(n_out);
    let sn = x * (size - 1);
    assert(0 <= sn && sn <= d * (size - 1)) by (nonlinear_arith)
        requires
            0 <= x,
            x <= d || (n_out == 1 && x == 0),
            d == scale_den(n_out),
            n_out >= 2 ==> d == n_out - 1,
            n_out < 2 ==> d == 1,
            x < n_out,
            1 <= size,
            sn == x * (size - 1),
            1 <= d,
    ;
    lemma_multiply_divide_le(sn, d, size - 1);
    lemma_mod_division_less_than_divisor(sn, d);
    lemma_div_pos_is_pos(sn, d);
    if sn % d != 0 {
        lemma_fundamental_div_mod(sn, d);
        if sn / d == size - 1 {
            assert(sn == d * (size - 1) + sn % d);
            assert(false);
        }
    }
}

/// The blended numerator of a bilinear sample stays within 255 times the
/// combined denominator, because the four weights sum to exactly it.
proof fn lemma_bilinear_num_bound(
    dx: int,
    dy: int,
    tx: int,
    ty: int,
    c00: int,
    c10: int,
    c01: int,
    c11: int,
)
    requires
        1 <= dx,
        1 <= dy,
        0 <= tx < dx,
        0 <= ty < dy,
        0 <= c00 <= 255,
        0 <= c10 <= 255,
        0 <= c01 <= 255,
        0 <= c11 <= 255,
    ensures
        1 <= dx * dy,
        0 <= (dx - tx) * (dy - ty) * c00 + tx * (dy - ty) * c10 + (dx - tx) * ty * c01 + tx * ty
            * c11 <= 255 * (dx * dy),
        2 * ((dx - tx) * (dy - ty) * c00 + tx * (dy - ty) * c10 + (dx - tx) * ty * c01 + tx * ty
            * c11) + dx * dy < (2 * (dx * dy)) * 256,
{
    assert((dx - tx) * (dy - ty) + tx * (dy - ty) + (dx - tx) * ty + tx * ty == dx * dy)
        by (nonlinear_arith);
    assert(1 <= dx * dy) by (nonlinear_arith)
        requires
            1 <= dx,
            1 <= dy,
    ;
    assert(0 <= (dx - tx) * (dy - ty) * c00 <= 255 * ((dx - tx) * (dy - ty))) by (nonlinear_arith)
        requires
            0 <= dx - tx,
            0 <= dy - ty,
            0 <= c00 <= 255,
    ;
    assert(0 <= tx * (dy - ty) * c10 <= 255 * (tx * (dy - ty))) by (nonlinear_arith)
        requires
            0 <= tx,
            0 <= dy - ty,
            0 <= c10 <= 255,
    ;
    assert(0 <= (dx - tx) * ty * c01 <= 255 * ((dx - tx) * ty)) by (nonlinear_arith)
        requires
            0 <= dx - tx,
            0 <= ty,
            0 <= c01 <= 255,
    ;
    assert(0 <= tx * ty * c11 <= 255 * (tx * ty)) by (nonlinear_arith)
        requires
            0 <= tx,
            0 <= ty,
            0 <= c11 <= 255,
    ;
}

/// The pairwise weight products of a bilinear sample fit in a double-wide
/// machine word.
proof fn lemma_sample_word_bounds(dx: int, dy: int, tx: int, ty: int)
    by (nonlinear_arith)
    requires
        1 <= dx <= 0xffff_ffff,
        1 <= dy <= 0xffff_ffff,
        0 <= tx < dx,
        0 <= ty < dy,
    ensures
        0 <= (dx - tx) * (dy - ty) <= 0xffff_ffffint * 0xffff_ffffint,
        0 <= tx * (dy - ty) <= 0xffff_ffffint * 0xffff_ffffint,
        0 <= (dx - tx) * ty <= 0xffff_ffffint * 0xffff_ffffint,
        0 <= tx * ty <= 0xffff_ffffint * 0xffff_ffffint,
        0 <= dx * dy <= 0xffff_ffffint * 0xffff_ffffint,
{
}

/// One bilinearly interpolated channel sample.
fn bilinear_sample(image: &CanvasImage, nw: u32, nh: u32, c: usize, x: u32, y: u32) -> (v: u8)
    requires
        image@.wf(),
        image@.width >= 1,
        image@.height >= 1,
        c < 4,
        x < nw,
        y < nh,
    ensures
        v == bilinear_chan(image@, nw as int, nh as int, c as int, x as int, y as int),
{
    let w = image.horizontal_size();
    let h = image.vertical_size();
    let dx: u64 = if nw >= 2 {
        (nw - 1) as u64
    } else {
        1
    };
    let dy: u64 = if nh >= 2 {
        (nh - 1) as u64
    } else {
        1
    };
    proof {
        lemma_scale_coord_bounds(x as int, nw as int, w as int);
        lemma_scale_coord_bounds(y as int, nh as int, h as int);
        assert((x as int) * ((w - 1) as int) <= 0xffff_ffffint * 0xffff_ffffint)
            by (nonlinear_arith)
            requires
                0 <= x <= 0xffff_ffffint,
                0 <= w - 1 <= 0xffff_ffffint,
        ;
        assert((y as int) * ((h - 1) as int) <= 0xffff_ffffint * 0xffff_ffffint)
            by (nonlinear_arith)
            requires
                0 <= y <= 0xffff_ffffint,
                0 <= h - 1 <= 0xffff_ffffint,
        ;
    }
    let sxn: u64 = (x as u64) * ((w - 1) as u64);
    let syn: u64 = (y as u64) * ((h - 1) as u64);
    let x0 = sxn / dx;
    let y0 = syn / dy;
    let tx = sxn % dx;
    let ty = syn % dy;
    let x1 = if tx == 0 {
        x0
    } else {
        x0 + 1
    };
    let y1 = if ty == 0 {
        y0
    } else {
        y0 + 1
    };
    let c00 = image.channel(c, x0 as u32, y0 as u32).unwrap();
    let c10 = image.channel(c, x1 as u32, y0 as u32).unwrap();
    let c01 = image.channel(c, x0 as u32, y1 as u32).unwrap();
    let c11 = image.channel(c, x1 as u32, y1 as u32).unwrap();
    proof {
        lemma_bilinear_num_bound(
            dx as int,
            dy as int,
            tx as int,
            ty as int,
            c00 as int,
            c10 as int,
            c01 as int,
            c11 as int,
        );
    }
    proof {
        lemma_sample_word_bounds(dx as int, dy as int, tx as int, ty as int);
    }
    let dxw = dx as u128;
    let dyw = dy as u128;
    let txw = tx as u128;
    let tyw = ty as u128;
    let num: u128 = (dxw - txw) * (dyw - tyw) * (c00 as u128) + txw * (dyw - tyw) * (c10 as u128)
        + (dxw - txw) * tyw * (c01 as u128) + txw * tyw * (c11 as u128);
    let den: u128 = dxw * dyw;
    let v: u128 = (2 * num + den) / (2 * den);
    proof {
        let ni = (dx as int - tx) * (dy as int - ty) * c00 + (tx as int) * (dy as int - ty) * c10
            + (dx as int - tx) * (ty as int) * c01 + (tx as int) * (ty as int) * c11;
        lemma_multiply_divide_lt(2 * ni + (dx as int) * (dy as int), 2 * ((dx as int) * (
        dy as int)), 256);
        lemma_div_pos_is_pos(2 * ni + (dx as int) * (dy as int), 2 * ((dx as int) * (dy as int)));
    }
    v as u8
}

/// Scales the image to `new_width` by `new_height` pixels with exact
/// bilinear interpolation: output corners map onto source corners and every
/// channel, alpha included, is blended from the four surrounding source
/// pixels and rounded half-up.
pub fn scale_bilinear(image: &CanvasImage, new_width: u32, new_height: u32) -> (out: CanvasImage)
    requires
        image@.wf(),
        image@.width >= 1,
        image@.height >= 1,
    ensures
        out@.wf(),
        out@.width == new_width,
        out@.height == new_height,
        forall|c: int, x: int, y: int|
            0 <= c < 4 && out@.in_bounds(x, y) ==> out@.chan(c, x, y) as int == bilinear_chan(
                image@,
                new_width as int,
                new_height as int,
                c,
                x,
                y,
            ),
{
    let ghost wi = new_width as int;
    let ghost hi = new_height as int;
    let mut data: Vec<u8> = Vec::new();
    let mut y: u32 = 0;
    while y < new_height
        invariant
        image@.wf(),
        image@.width >= 1,
        image@.height >= 1,
        wi == new_width,
        hi == new_height,
        0 <= y <= new_height,
        data@.len() == 4 * ((y as int) * wi),
        forall|c: int, xx: int, yy: int|
            0 <= c < 4 && 0 <= xx < wi && 0 <= yy < y ==> data@[4 * (yy * wi + xx) + c] as int
                == bilinear_chan(image@, wi, hi, c, xx, yy),
        decreases new_height - y,
    {
        let mut x: u32 = 0;
        proof {
            assert(4 * ((y as int) * wi) == 4 * ((y as int) * wi + 0)) by (nonlinear_arith);
        }
        while x < new_width
            invariant
            image@.wf(),
            image@.width >= 1,
            image@.height >= 1,
            wi == new_width,
            hi == new_height,
            0 <= y < new_height,
            0 <= x <= new_width,
            data@.len() == 4 * ((y as int) * wi + x as int),
            forall|c: int, xx: int, yy: int|
                0 <= c < 4 && 0 <= xx < wi && 0 <= yy < y ==> data@[4 * (yy * wi + xx) + c] as int
                    == bilinear_chan(image@, wi, hi, c, xx, yy),
            forall|c: int, xx: int|
                0 <= c < 4 && 0 <= xx < x ==> data@[4 * ((y as int) * wi + xx) + c] as int
                    == bilinear_chan(image@, wi, hi, c, xx, y as int),
            decreases new_width - x,
        {
            let ghost prev = data@;
            let r = bilinear_sample(image, new_width, new_height, 0, x, y);
            let g = bilinear_sample(image, new_width, new_height, 1, x, y);
            let b = bilinear_sample(image, new_width, new_height, 2, x, y);
            let a = bilinear_sample(image, new_width, new_height, 3, x, y);
            data.push(r);
            data.push(g);
            data.push(b);
            data.push(a);
            proof {
                let yi = y as int;
                let xi = x as int;
                assert forall|c: int, xx: int, yy: int|
                    0 <= c < 4 && 0 <= xx < wi && 0 <= yy < yi implies data@[4 * (yy * wi + xx)
                    + c] as int == bilinear_chan(image@, wi, hi, c, xx, yy) by {
                    crate::convolution::lemma_offset_in_prefix(wi, xx, yy, xi, yi);
                    assert(data@[4 * (yy * wi + xx) + c] == prev[4 * (yy * wi + xx) + c]);
                }
                assert forall|c: int, xx: int|
                    0 <= c < 4 && 0 <= xx < xi + 1 implies data@[4 * (yi * wi + xx) + c] as int
                    == bilinear_chan(image@, wi, hi, c, xx, yi) by {
                    if xx < xi {
                        crate::convolution::lemma_offset_in_prefix(wi, xx, yi, xi, yi);
                        assert(data@[4 * (yi * wi + xx) + c] == prev[4 * (yi * wi + xx) + c]);
                    } else {
                        assert(4 * (yi * wi + xx) + c == prev.len() + c);
                    }
                }
            }
            x = x + 1;
        }
        proof {
            let yi = y as int;
            assert(4 * (yi * wi + wi) == 4 * ((yi + 1) * wi)) by (nonlinear_arith);
            assert forall|c: int, xx: int, yy: int|
                0 <= c < 4 && 0 <= xx < wi && 0 <= yy < yi + 1 implies data@[4 * (yy * wi + xx)
                + c] as int == bilinear_chan(image@, wi, hi, c, xx, yy) by {
                crate::convolution::lemma_offset_in_prefix(wi, xx, yy, wi, yi);
            }
        }
        y = y + 1;
    }
    proof {
        assert(4 * ((hi) * wi) == 4 * wi * hi) by (nonlinear_arith);
    }
    CanvasImage::from_vec_with_size(data, new_width, new_height)
}

/// Bilinear identity at the origin corner: output pixel `(0, 0)` reproduces
/// source pixel `(0, 0)` exactly.
pub proof fn lemma_bilinear_origin_exact(img: ImgView, nw: int, nh: int, c: int)
    requires
        img.wf(),
        img.width >= 1,
        img.height >= 1,
        nw >= 1,
        nh >= 1,
    ensures
        bilinear_chan(img, nw, nh, c, 0, 0) == img.chan(c, 0, 0),
{
    let dx = scale_den(nw);
    let dy = scale_den(nh);
    let c00 = img.chan(c, 0, 0) as int;
    assert(0int / dx == 0 && 0int % dx == 0) by {
        lemma_fundamental_div_mod_converse_div(0, dx, 0, 0);
        vstd::arithmetic::div_mod::lemma_fundamental_div_mod_converse_mod(0, dx, 0, 0);
    }
    assert(0int / dy == 0 && 0int % dy == 0) by {
        lemma_fundamental_div_mod_converse_div(0, dy, 0, 0);
        vstd::arithmetic::div_mod::lemma_fundamental_div_mod_converse_mod(0, dy, 0, 0);
    }
    assert((dx - 0) * (dy - 0) * c00 + 0 * (dy - 0) * c00 + (dx - 0) * 0 * c00 + 0 * 0 * c00
        == dx * dy * c00) by (nonlinear_arith);
    assert(bilinear_chan(img, nw, nh, c, 0, 0) == (2 * (dx * dy * c00) + dx * dy) / (2 * (dx
        * dy)));
    assert(1 <= dx * dy) by (nonlinear_arith)
        requires
            1 <= dx,
            1 <= dy,
    ;
    lemma_round_of_exact(dx * dy, c00);
}

/// Rounding `(2 * d * v + d) / (2 * d)` recovers `v` exactly: a sample that
/// lands exactly on a source pixel is returned unchanged.
proof fn lemma_round_of_exact(d: int, v: int)
    requires
        1 <= d,
        0 <= v,
    ensures
        (2 * (d * v) + d) / (2 * d) == v,
{
    assert(2 * (d * v) + d == d * (2 * v + 1)) by (nonlinear_arith);
    assert(2 * d == d * 2);
    lemma_div_denominator(d * (2 * v + 1), d, 2);
    lemma_div_multiples_vanish(2 * v + 1, d);
    lemma_fundamental_div_mod_converse_div(2 * v + 1, 2, v, 1);
}

/// Bilinear identity at the far corner: for output spans of at least two
/// pixels, the last output pixel reproduces the last source pixel exactly.
pub proof fn lemma_bilinear_far_corner_exact(img: ImgView, nw: int, nh: int, c: int)
    requires
        img.wf(),
        img.width >= 1,
        img.height >= 1,
        nw >= 2,
        nh >= 2,
    ensures
        bilinear_chan(img, nw, nh, c, nw - 1, nh - 1) == img.chan(
            c,
            img.width - 1,
            img.height - 1,
        ),
{
    let dx = scale_den(nw);
    let dy = scale_den(nh);
    let gw = img.width - 1;
    let gh = img.height - 1;
    assert((nw - 1) * gw == gw * dx) by (nonlinear_arith)
        requires
            dx == nw - 1,
    ;
    assert((nh - 1) * gh == gh * dy) by (nonlinear_arith)
        requires
            dy == nh - 1,
    ;
    lemma_mod_multiples_basic(gw, dx);
    lemma_mod_multiples_basic(gh, dy);
    assert(gw * dx == dx * gw) by (nonlinear_arith);
    assert(gh * dy == dy * gh) by (nonlinear_arith);
    lemma_div_multiples_vanish(gw, dx);
    lemma_div_multiples_vanish(gh, dy);
    assert(((nw - 1) * gw) / dx == gw);
    assert(((nh - 1) * gh) / dy == gh);
    assert(((nw - 1) * gw) % dx == 0);
    assert(((nh - 1) * gh) % dy == 0);
    let c00 = img.chan(c, gw, gh) as int;
    assert((dx - 0) * (dy - 0) * c00 + 0 * (dy - 0) * c00 + (dx - 0) * 0 * c00 + 0 * 0 * c00
        == dx * dy * c00) by (nonlinear_arith);
    assert(bilinear_chan(img, nw, nh, c, nw - 1, nh - 1) == (2 * (dx * dy * c00) + dx * dy) / (2
        * (dx * dy)));
    assert(1 <= dx * dy) by (nonlinear_arith)
        requires
            1 <= dx,
            1 <= dy,
    ;
    lemma_round_of_exact(dx * dy, c00);
}

} // verus!
