use vstd::prelude::*;
use crate::canvas_image::CanvasImage;
use crate::convolution::lemma_offset_in_prefix;

verus! {

/// Applies a 256-entry lookup table to every channel of every pixel,
/// alpha included. Tonal maps that act on a single 8-bit value — a linear
/// gain/bias or a gamma curve — are tabulated by the caller and applied
/// here in one pass.
pub fn apply_channel_lut(image: &CanvasImage, lut: &Vec<u8>) -> (out: CanvasImage)
    requires
        image@.wf(),
        lut@.len() == 256,
    ensures
        out@.wf(),
        out@.width == image@.width,
        out@.height == image@.height,
        forall|c: int, x: int, y: int|
            0 <= c < 4 && out@.in_bounds(x, y) ==> out@.chan(c, x, y) == lut@[image@.chan(
                c,
                x,
                y,
            ) as int],
{
    let w = image.horizontal_size();
    let h = image.vertical_size();
    let ghost wi = w as int;
    let ghost hi = h as int;
    let mut data: Vec<u8> = Vec::new();
    let mut y: u32 = 0;
    while y < h
        invariant
        image@.wf(),
        lut@.len() == 256,
        wi == w,
        hi == h,
        w == image@.width,
        h == image@.height,
        0 <= y <= h,
        data@.len() == 4 * ((y as int) * wi),
        forall|c: int, xx: int, yy: int|
            0 <= c < 4 && 0 <= xx < wi && 0 <= yy < y ==> data@[4 * (yy * wi + xx) + c]
                == lut@[image@.chan(c, xx, yy) as int],
        decreases h - y,
    {
        let mut x: u32 = 0;
        proof {
            assert(4 * ((y as int) * wi) == 4 * ((y as int) * wi + 0)) by (nonlinear_arith);
        }
        while x < w
            invariant
            image@.wf(),
            lut@.len() == 256,
            wi == w,
            hi == h,
            w == image@.width,
            h == image@.height,
            0 <= y < h,
            0 <= x <= w,
            data@.len() == 4 * ((y as int) * wi + x as int),
            forall|c: int, xx: int, yy: int|
                0 <= c < 4 && 0 <= xx < wi && 0 <= yy < y ==> data@[4 * (yy * wi + xx) + c]
                    == lut@[image@.chan(c, xx, yy) as int],
            forall|c: int, xx: int|
                0 <= c < 4 && 0 <= xx < x ==> data@[4 * ((y as int) * wi + xx) + c]
                    == lut@[image@.chan(c, xx, y as int) as int],
            decreases w - x,
        {
            let ghost prev = data@;
            let (r, g, b, a) = image.rgba(x, y).unwrap();
            data.push(lut[r as usize]);
            data.push(lut[g as usize]);
            data.push(lut[b as usize]);
            data.push(lut[a as usize]);
            proof {
                let yi = y as int;
                let xi = x as int;
                assert forall|c: int, xx: int, yy: int|
                    0 <= c < 4 && 0 <= xx < wi && 0 <= yy < yi implies data@[4 * (yy * wi + xx)
                    + c] == lut@[image@.chan(c, xx, yy) as int] by {
                    lemma_offset_in_prefix(wi, xx, yy, xi, yi);
                    assert(data@[4 * (yy * wi + xx) + c] == prev[4 * (yy * wi + xx) + c]);
                }
                assert forall|c: int, xx: int| 0 <= c < 4 && 0 <= xx < xi + 1 implies data@[4 * (
                yi * wi + xx) + c] == lut@[image@.chan(c, xx, yi) as int] by {
                    if xx < xi {
                        lemma_offset_in_prefix(wi, xx, yi, xi, yi);
                        assert(data@[4 * (yi * wi + xx) + c] == prev[4 * (yi * wi + xx) + c]);
                    } else {
                        assert(4 * (yi * wi + xx) + c == prev.len() + c);
                    }
                }
            }
            x = x + 1;
        }
        proof {
            let yi = y as int;
            assert(4 * (yi * wi + wi) == 4 * ((yi + 1) * wi)) by (nonlinear_arith);
            assert forall|c: int, xx: int, yy: int|
                0 <= c < 4 && 0 <= xx < wi && 0 <= yy < yi + 1 implies data@[4 * (yy * wi + xx)
                + c] == lut@[image@.chan(c, xx, yy) as int] by {
                lemma_offset_in_prefix(wi, xx, yy, wi, yi);
            }
        }
        y = y + 1;
    }
    proof {
        assert(4 * ((hi) * wi) == 4 * wi * hi) by (nonlinear_arith);
    }
    CanvasImage::from_vec_with_size(data, w, h)
}

} // verus!
