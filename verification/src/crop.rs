use vstd::prelude::*;
use crate::canvas_image::CanvasImage;
use crate::convolution::lemma_offset_in_prefix;

verus! {

/// The width that remains after cropping `removal` pixel columns from a
/// width of `size`: cropping more than the image holds leaves a blank image.
pub open spec fn cropped_size(size: int, removal: int) -> int {
    if removal <= size {
        size - removal
    } else {
        0
    }
}

impl CanvasImage {
    /// Removes `removal` pixel columns from the right side of the image;
    /// asking for more than the image holds leaves a blank image.
    pub fn crop_right(&self, removal: u32) -> (out: CanvasImage)
        requires
            self@.wf(),
        ensures
            out@.wf(),
            out@.width == cropped_size(self@.width, removal as int),
            out@.height == self@.height,
            forall|c: int, x: int, y: int|
                0 <= c < 4 && out@.in_bounds(x, y) ==> out@.chan(c, x, y) == self@.chan(c, x, y),
    {
        let old_h_size = self.horizontal_size();
        let v_size = self.vertical_size();
        let cropped = if removal <= old_h_size {
            old_h_size - removal
        } else {
            0
        };
        let ghost wi = cropped as int;
        let ghost hi = v_size as int;
        let mut data: Vec<u8> = Vec::new();
        let mut y: u32 = 0;
        while y < v_size
            invariant
            self@.wf(),
            wi == cropped,
            hi == v_size,
            cropped <= self@.width,
            v_size == self@.height,
            0 <= y <= v_size,
            data@.len() == 4 * ((y as int) * wi),
            forall|c: int, xx: int, yy: int|
                0 <= c < 4 && 0 <= xx < wi && 0 <= yy < y ==> data@[4 * (yy * wi + xx) + c]
                    == self@.chan(c, xx, yy),
            decreases v_size - y,
        {
            let mut x: u32 = 0;
            proof {
                assert(4 * ((y as int) * wi) == 4 * ((y as int) * wi + 0)) by (nonlinear_arith);
            }
            while x < cropped
                invariant
                self@.wf(),
                wi == cropped,
                hi == v_size,
                cropped <= self@.width,
                v_size == self@.height,
                0 <= y < v_size,
                0 <= x <= cropped,
                data@.len() == 4 * ((y as int) * wi + x as int),
                forall|c: int, xx: int, yy: int|
                    0 <= c < 4 && 0 <= xx < wi && 0 <= yy < y ==> data@[4 * (yy * wi + xx) + c]
                        == self@.chan(c, xx, yy),
                forall|c: int, xx: int|
                    0 <= c < 4 && 0 <= xx < x ==> data@[4 * ((y as int) * wi + xx) + c]
                        == self@.chan(c, xx, y as int),
                decreases cropped - x,
            {
                let ghost prev = data@;
                let (r, g, b, a) = self.rgba(x, y).unwrap();
                data.push(r);
                data.push(g);
                data.push(b);
                data.push(a);
                proof {
                    let yi = y as int;
                    let xi = x as int;
                    assert forall|c: int, xx: int, yy: int|
                        0 <= c < 4 && 0 <= xx < wi && 0 <= yy < yi implies data@[4 * (yy * wi
                        + xx) + c] == self@.chan(c, xx, yy) by {
                        lemma_offset_in_prefix(wi, xx, yy, xi, yi);
                        assert(data@[4 * (yy * wi + xx) + c] == prev[4 * (yy * wi + xx) + c]);
                    }
                    assert forall|c: int, xx: int| 0 <= c < 4 && 0 <= xx < xi + 1 implies data@[4
                        * (yi * wi + xx) + c] == self@.chan(c, xx, yi) by {
                        if xx < xi {
                            lemma_offset_in_prefix(wi, xx, yi, xi, yi);
                            assert(data@[4 * (yi * wi + xx) + c] == prev[4 * (yi * wi + xx) + c]);
                        } else {
                            assert(4 * (yi * wi + xx) + c == prev.len() + c);
                        }
                    }
                }
                x = x + 1;
            }
            proof {
                let yi = y as int;
                assert(4 * (yi * wi + wi) == 4 * ((yi + 1) * wi)) by (nonlinear_arith);
                assert forall|c: int, xx: int, yy: int|
                    0 <= c < 4 && 0 <= xx < wi && 0 <= yy < yi + 1 implies data@[4 * (yy * wi
                    + xx) + c] == self@.chan(c, xx, yy) by {
                    lemma_offset_in_prefix(wi, xx, yy, wi, yi);
                }
            }
            y = y + 1;
        }
        proof {
            assert(4 * ((hi) * wi) == 4 * wi * hi) by (nonlinear_arith);
        }
        CanvasImage::from_vec_with_size(data, cropped, v_size)
    }

    /// Removes `removal` pixel rows from the bottom of the image; asking for
    /// more than the image holds leaves a blank image.
    pub fn crop_bottom(&self, removal: u32) -> (out: CanvasImage)
        requires
            self@.wf(),
        ensures
            out@.wf(),
            out@.width == self@.width,
            out@.height == cropped_size(self@.height, removal as int),
            forall|c: int, x: int, y: int|
                0 <= c < 4 && out@.in_bounds(x, y) ==> out@.chan(c, x, y) == self@.chan(c, x, y),
    {
        let h_size = self.horizontal_size();
        let old_v_size = self.vertical_size();
        let cropped = if removal <= old_v_size {
            old_v_size - removal
        } else {
            0
        };
        let ghost wi = h_size as int;
        let ghost hi = cropped as int;
        let mut data: Vec<u8> = Vec::new();
        let mut y: u32 = 0;
        while y < cropped
            invariant
            self@.wf(),
            wi == h_size,
            hi == cropped,
            cropped <= self@.height,
            h_size == self@.width,
            0 <= y <= cropped,
            data@.len() == 4 * ((y as int) * wi),
            forall|c: int, xx: int, yy: int|
                0 <= c < 4 && 0 <= xx < wi && 0 <= yy < y ==> data@[4 * (yy * wi + xx) + c]
                    == self@.chan(c, xx, yy),
            decreases cropped - y,
        {
            let mut x: u32 = 0;
            proof {
                assert(4 * ((y as int) * wi) == 4 * ((y as int) * wi + 0)) by (nonlinear_arith);
            }
            while x < h_size
                invariant
                self@.wf(),
                wi == h_size,
                hi == cropped,
                cropped <= self@.height,
                h_size == self@.width,
                0 <= y < cropped,
                0 <= x <= h_size,
                data@.len() == 4 * ((y as int) * wi + x as int),
                forall|c: int, xx: int, yy: int|
                    0 <= c < 4 && 0 <= xx < wi && 0 <= yy < y ==> data@[4 * (yy * wi + xx) + c]
                        == self@.chan(c, xx, yy),
                forall|c: int, xx: int|
                    0 <= c < 4 && 0 <= xx < x ==> data@[4 * ((y as int) * wi + xx) + c]
                        == self@.chan(c, xx, y as int),
                decreases h_size - x,
            {
                let ghost prev = data@;
                let (r, g, b, a) = self.rgba(x, y).unwrap();
                data.push(r);
                data.push(g);
                data.push(b);
                data.push(a);
                proof {
                    let yi = y as int;
                    let xi = x as int;
                    assert forall|c: int, xx: int, yy: int|
                        0 <= c < 4 && 0 <= xx < wi && 0 <= yy < yi implies data@[4 * (yy * wi
                        + xx) + c] == self@.chan(c, xx, yy) by {
                        lemma_offset_in_prefix(wi, xx, yy, xi, yi);
                        assert(data@[4 * (yy * wi + xx) + c] == prev[4 * (yy * wi + xx) + c]);
                    }
                    assert forall|c: int, xx: int| 0 <= c < 4 && 0 <= xx < xi + 1 implies data@[4
                        * (yi * wi + xx) + c] == self@.chan(c, xx, yi) by {
                        if xx < xi {
                            lemma_offset_in_prefix(wi, xx, yi, xi, yi);
                            assert(data@[4 * (yi * wi + xx) + c] == prev[4 * (yi * wi + xx) + c]);
                        } else {
                            assert(4 * (yi * wi + xx) + c == prev.len() + c);
                        }
                    }
                }
                x = x + 1;
            }
            proof {
                let yi = y as int;
                assert(4 * (yi * wi + wi) == 4 * ((yi + 1) * wi)) by (nonlinear_arith);
                assert forall|c: int, xx: int, yy: int|
                    0 <= c < 4 && 0 <= xx < wi && 0 <= yy < yi + 1 implies data@[4 * (yy * wi
                    + xx) + c] == self@.chan(c, xx, yy) by {
                    lemma_offset_in_prefix(wi, xx, yy, wi, yi);
                }
            }
            y = y + 1;
        }
        proof {
            assert(4 * ((hi) * wi) == 4 * wi * hi) by (nonlinear_arith);
        }
        CanvasImage::from_vec_with_size(data, h_size, cropped)
    }
}

/// Removes `removal` pixel columns from the right side of the image.
pub fn crop_right(image: &CanvasImage, removal: u32) -> (out: CanvasImage)
    requires
        image@.wf(),
    ensures
        out@.wf(),
        out@.width == cropped_size(image@.width, removal as int),
        out@.height == image@.height,
        forall|c: int, x: int, y: int|
            0 <= c < 4 && out@.in_bounds(x, y) ==> out@.chan(c, x, y) == image@.chan(c, x, y),
{
    image.crop_right(removal)
}

/// Removes `removal` pixel rows from the bottom of the image.
pub fn crop_bottom(image: &CanvasImage, removal: u32) -> (out: CanvasImage)
    requires
        image@.wf(),
    ensures
        out@.wf(),
        out@.width == image@.width,
        out@.height == cropped_size(image@.height, removal as int),
        forall|c: int, x: int, y: int|
            0 <= c < 4 && out@.in_bounds(x, y) ==> out@.chan(c, x, y) == image@.chan(c, x, y),
{
    image.crop_bottom(removal)
}

} // verus!
