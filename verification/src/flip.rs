use vstd::prelude::*;
use crate::canvas_image::{CanvasImage, ImgView};
use crate::convolution::lemma_offset_in_prefix;

verus! {

/// The source channel that a vertical flip reads for output pixel `(x, y)`:
/// the same column, mirrored row.
pub open spec fn x_flip_src(img: ImgView, c: int, x: int, y: int) -> u8 {
    img.chan(c, x, img.height - 1 - y)
}

/// The source channel that a horizontal flip reads for output pixel
/// `(x, y)`: the mirrored column, same row.
pub open spec fn y_flip_src(img: ImgView, c: int, x: int, y: int) -> u8 {
    img.chan(c, img.width - 1 - x, y)
}

/// Flips the image vertically, mirroring it along the horizontal axis: row
/// `y` of the result is row `height - 1 - y` of the source.
pub fn flip_along_x_axis(image: &CanvasImage) -> (out: CanvasImage)
    requires
        image@.wf(),
    ensures
        out@.wf(),
        out@.width == image@.width,
        out@.height == image@.height,
        forall|c: int, x: int, y: int|
            0 <= c < 4 && out@.in_bounds(x, y) ==> out@.chan(c, x, y) == image@.chan(
                c,
                x,
                image@.height - 1 - y,
            ),
{
    let w = image.horizontal_size();
    let h = image.vertical_size();
    let ghost wi = w as int;
    let ghost hi = h as int;
    let mut data: Vec<u8> = Vec::new();
    let mut y: u32 = 0;
    while y < h
        invariant
        image@.wf(),
        wi == w,
        hi == h,
        w == image@.width,
        h == image@.height,
        0 <= y <= h,
        data@.len() == 4 * ((y as int) * wi),
        forall|c: int, xx: int, yy: int|
            0 <= c < 4 && 0 <= xx < wi && 0 <= yy < y ==> data@[4 * (yy * wi + xx) + c]
                == x_flip_src(image@, c, xx, yy),
        decreases h - y,
    {
        let mut x: u32 = 0;
        proof {
            assert(4 * ((y as int) * wi) == 4 * ((y as int) * wi + 0)) by (nonlinear_arith);
        }
        while x < w
            invariant
            image@.wf(),
            wi == w,
            hi == h,
            w == image@.width,
            h == image@.height,
            0 <= y < h,
            0 <= x <= w,
            data@.len() == 4 * ((y as int) * wi + x as int),
            forall|c: int, xx: int, yy: int|
                0 <= c < 4 && 0 <= xx < wi && 0 <= yy < y ==> data@[4 * (yy * wi + xx) + c]
                    == x_flip_src(image@, c, xx, yy),
            forall|c: int, xx: int|
                0 <= c < 4 && 0 <= xx < x ==> data@[4 * ((y as int) * wi + xx) + c]
                    == x_flip_src(image@, c, xx, y as int),
            decreases w - x,
        {
            let ghost prev = data@;
            let flipped_y = h - 1 - y;
            let (r, g, b, a) = image.rgba(x, flipped_y).unwrap();
            data.push(r);
            data.push(g);
            data.push(b);
            data.push(a);
            proof {
                let yi = y as int;
                let xi = x as int;
                assert forall|c: int, xx: int, yy: int|
                    0 <= c < 4 && 0 <= xx < wi && 0 <= yy < yi implies data@[4 * (yy * wi + xx)
                    + c] == x_flip_src(image@, c, xx, yy) by {
                    lemma_offset_in_prefix(wi, xx, yy, xi, yi);
                    assert(data@[4 * (yy * wi + xx) + c] == prev[4 * (yy * wi + xx) + c]);
                }
                assert forall|c: int, xx: int| 0 <= c < 4 && 0 <= xx < xi + 1 implies data@[4 * (
                yi * wi + xx) + c] == x_flip_src(image@, c, xx, yi) by {
                    if xx < xi {
                        lemma_offset_in_prefix(wi, xx, yi, xi, yi);
                        assert(data@[4 * (yi * wi + xx) + c] == prev[4 * (yi * wi + xx) + c]);
                    } else {
                        assert(4 * (yi * wi + xx) + c == prev.len() + c);
                    }
                }
            }
            x = x + 1;
        }
        proof {
            let yi = y as int;
            assert(4 * (yi * wi + wi) == 4 * ((yi + 1) * wi)) by (nonlinear_arith);
            assert forall|c: int, xx: int, yy: int|
                0 <= c < 4 && 0 <= xx < wi && 0 <= yy < yi + 1 implies data@[4 * (yy * wi + xx)
                + c] == x_flip_src(image@, c, xx, yy) by {
                lemma_offset_in_prefix(wi, xx, yy, wi, yi);
            }
        }
        y = y + 1;
    }
    proof {
        assert(4 * ((hi) * wi) == 4 * wi * hi) by (nonlinear_arith);
    }
    let out = CanvasImage::from_vec_with_size(data, w, h);
    proof {
        assert forall|c: int, x: int, y: int|
            0 <= c < 4 && out@.in_bounds(x, y) implies out@.chan(c, x, y) == image@.chan(
            c,
            x,
            image@.height - 1 - y,
        ) by {
            assert(out@.data[4 * (y * wi + x) + c] == x_flip_src(image@, c, x, y));
        }
    }
    out
}

/// Flips the image horizontally, mirroring it along the vertical axis:
/// column `x` of the result is column `width - 1 - x` of the source.
pub fn flip_along_y_axis(image: &CanvasImage) -> (out: CanvasImage)
    requires
        image@.wf(),
    ensures
        out@.wf(),
        out@.width == image@.width,
        out@.height == image@.height,
        forall|c: int, x: int, y: int|
            0 <= c < 4 && out@.in_bounds(x, y) ==> out@.chan(c, x, y) == image@.chan(
                c,
                image@.width - 1 - x,
                y,
            ),
{
    let w = image.horizontal_size();
    let h = image.vertical_size();
    let ghost wi = w as int;
    let ghost hi = h as int;
    let mut data: Vec<u8> = Vec::new();
    let mut y: u32 = 0;
    while y < h
        invariant
        image@.wf(),
        wi == w,
        hi == h,
        w == image@.width,
        h == image@.height,
        0 <= y <= h,
        data@.len() == 4 * ((y as int) * wi),
        forall|c: int, xx: int, yy: int|
            0 <= c < 4 && 0 <= xx < wi && 0 <= yy < y ==> data@[4 * (yy * wi + xx) + c]
                == y_flip_src(image@, c, xx, yy),
        decreases h - y,
    {
        let mut x: u32 = 0;
        proof {
            assert(4 * ((y as int) * wi) == 4 * ((y as int) * wi + 0)) by (nonlinear_arith);
        }
        while x < w
            invariant
            image@.wf(),
            wi == w,
            hi == h,
            w == image@.width,
            h == image@.height,
            0 <= y < h,
            0 <= x <= w,
            data@.len() == 4 * ((y as int) * wi + x as int),
            forall|c: int, xx: int, yy: int|
                0 <= c < 4 && 0 <= xx < wi && 0 <= yy < y ==> data@[4 * (yy * wi + xx) + c]
                    == y_flip_src(image@, c, xx, yy),
            forall|c: int, xx: int|
                0 <= c < 4 && 0 <= xx < x ==> data@[4 * ((y as int) * wi + xx) + c]
                    == y_flip_src(image@, c, xx, y as int),
            decreases w - x,
        {
            let ghost prev = data@;
            let flipped_x = w - 1 - x;
            let (r, g, b, a) = image.rgba(flipped_x, y).unwrap();
            data.push(r);
            data.push(g);
            data.push(b);
            data.push(a);
            proof {
                let yi = y as int;
                let xi = x as int;
                assert forall|c: int, xx: int, yy: int|
                    0 <= c < 4 && 0 <= xx < wi && 0 <= yy < yi implies data@[4 * (yy * wi + xx)
                    + c] == y_flip_src(image@, c, xx, yy) by {
                    lemma_offset_in_prefix(wi, xx, yy, xi, yi);
                    assert(data@[4 * (yy * wi + xx) + c] == prev[4 * (yy * wi + xx) + c]);
                }
                assert forall|c: int, xx: int| 0 <= c < 4 && 0 <= xx < xi + 1 implies data@[4 * (
                yi * wi + xx) + c] == y_flip_src(image@, c, xx, yi) by {
                    if xx < xi {
                        lemma_offset_in_prefix(wi, xx, yi, xi, yi);
                        assert(data@[4 * (yi * wi + xx) + c] == prev[4 * (yi * wi + xx) + c]);
                    } else {
                        assert(4 * (yi * wi + xx) + c == prev.len() + c);
                    }
                }
            }
            x = x + 1;
        }
        proof {
            let yi = y as int;
            assert(4 * (yi * wi + wi) == 4 * ((yi + 1) * wi)) by (nonlinear_arith);
            assert forall|c: int, xx: int, yy: int|
                0 <= c < 4 && 0 <= xx < wi && 0 <= yy < yi + 1 implies data@[4 * (yy * wi + xx)
                + c] == y_flip_src(image@, c, xx, yy) by {
                lemma_offset_in_prefix(wi, xx, yy, wi, yi);
            }
        }
        y = y + 1;
    }
    proof {
        assert(4 * ((hi) * wi) == 4 * wi * hi) by (nonlinear_arith);
    }
    let out = CanvasImage::from_vec_with_size(data, w, h);
    proof {
        assert forall|c: int, x: int, y: int|
            0 <= c < 4 && out@.in_bounds(x, y) implies out@.chan(c, x, y) == image@.chan(
            c,
            image@.width - 1 - x,
            y,
        ) by {
            assert(out@.data[4 * (y * wi + x) + c] == y_flip_src(image@, c, x, y));
        }
    }
    out
}

} // verus!
