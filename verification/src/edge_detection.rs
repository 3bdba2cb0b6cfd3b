use vstd::prelude::*;
use vstd::math::abs;
use crate::canvas_image::{lemma_pixel_index, CanvasImage, ImgView};
use crate::convolution::{
    conv_response, lemma_response_pointwise, BorderStrategy, Kernel, KernelView,
};
use crate::image_index::{reflective_index, reflective_index_spec};

verus! {

/// Reflectively folded read of a per-channel response buffer: channel `c`
/// of the response at the in-domain pixel that `(x, y)` folds to.
pub open spec fn resp_reflect(resp: Seq<i64>, w: int, h: int, c: int, x: int, y: int) -> int {
    resp[4 * (reflective_index_spec(y, h) * w + reflective_index_spec(x, w)) + c] as int
}

/// Sign of a response: -1, 0 or +1.
pub open spec fn sgn(v: int) -> int {
    if v > 0 {
        1int
    } else if v < 0 {
        -1int
    } else {
        0int
    }
}

/// Whether one diametrically opposed neighbour pair signals a zero crossing
/// at threshold `t`: the two responses differ in sign and their absolute
/// difference exceeds `t`.
pub open spec fn pair_crossing(a: int, b: int, t: int) -> bool {
    sgn(a) != sgn(b) && abs(a - b) > t
}

/// Whether channel `c` of the response crosses zero at pixel `(x, y)`: one
/// of the 4 diametrically opposed pairs of its 8 neighbours (N/S, W/E,
/// NE/SW, NW/SE) signals a crossing. Out-of-domain neighbours are resolved
/// reflectively.
pub open spec fn channel_zero_crossing(
    resp: Seq<i64>,
    w: int,
    h: int,
    c: int,
    x: int,
    y: int,
    t: int,
) -> bool {
    ||| pair_crossing(
        resp_reflect(resp, w, h, c, x, y - 1),
        resp_reflect(resp, w, h, c, x, y + 1),
        t,
    )
    ||| pair_crossing(
        resp_reflect(resp, w, h, c, x - 1, y),
        resp_reflect(resp, w, h, c, x + 1, y),
        t,
    )
    ||| pair_crossing(
        resp_reflect(resp, w, h, c, x + 1, y - 1),
        resp_reflect(resp, w, h, c, x - 1, y + 1),
        t,
    )
    ||| pair_crossing(
        resp_reflect(resp, w, h, c, x - 1, y - 1),
        resp_reflect(resp, w, h, c, x + 1, y + 1),
        t,
    )
}

/// Whether pixel `(x, y)` is a zero-crossing edge: any of the R, G, B
/// response channels crosses zero there.
pub open spec fn pixel_zero_crossing(
    resp: Seq<i64>,
    w: int,
    h: int,
    x: int,
    y: int,
    t: int,
) -> bool {
    ||| channel_zero_crossing(resp, w, h, 0, x, y, t)
    ||| channel_zero_crossing(resp, w, h, 1, x, y, t)
    ||| channel_zero_crossing(resp, w, h, 2, x, y, t)
}

/// The channel value an edge map holds: white on edges, black elsewhere,
/// always fully opaque.
pub open spec fn edge_chan_val(edge: bool, c: int) -> u8 {
    if c == 3 {
        255u8
    } else if edge {
        255u8
    } else {
        0u8
    }
}

/// What it means for `out` to be the zero-crossing edge map of the response
/// buffer at threshold `t`.
pub open spec fn is_zero_crossing_map(
    resp: Seq<i64>,
    w: int,
    h: int,
    t: int,
    out: ImgView,
) -> bool {
    &&& out.wf()
    &&& out.width == w
    &&& out.height == h
    &&& forall|c: int, x: int, y: int|
        0 <= c < 4 && 0 <= x < w && 0 <= y < h ==> out.chan(c, x, y) == edge_chan_val(
            pixel_zero_crossing(resp, w, h, x, y, t),
            c,
        )
}

/// L1 gradient-magnitude edge decision for one channel: `|dx| + |dy|`
/// exceeds the threshold.
pub open spec fn gradient_channel_edge(dx: int, dy: int, t: int) -> bool {
    abs(dx) + abs(dy) > t
}

/// The channel value a gradient-magnitude edge map holds at `(x, y)`:
/// each colour channel is thresholded independently on `|dx| + |dy|` of its
/// own directional responses, and alpha is forced opaque.
pub open spec fn gradient_map_chan(
    del_x: Seq<i64>,
    del_y: Seq<i64>,
    w: int,
    c: int,
    x: int,
    y: int,
    t: int,
) -> u8 {
    if c == 3 {
        255u8
    } else if gradient_channel_edge(
        del_x[4 * (y * w + x) + c] as int,
        del_y[4 * (y * w + x) + c] as int,
        t,
    ) {
        255u8
    } else {
        0u8
    }
}

/// What it means for `out` to be the gradient-magnitude edge map of the two
/// directional response buffers at threshold `t`.
pub open spec fn is_gradient_edge_map(
    del_x: Seq<i64>,
    del_y: Seq<i64>,
    w: int,
    h: int,
    t: int,
    out: ImgView,
) -> bool {
    &&& out.wf()
    &&& out.width == w
    &&& out.height == h
    &&& forall|c: int, x: int, y: int|
        0 <= c < 4 && 0 <= x < w && 0 <= y < h ==> out.chan(c, x, y) == gradient_map_chan(
            del_x,
            del_y,
            w,
            c,
            x,
            y,
            t,
        )
}

/// Reflectively folded read of a response buffer.
fn resp_at(resp: &Vec<i64>, width: u32, height: u32, c: usize, x: i64, y: i64) -> (v: i64)
    requires
        width >= 1,
        height >= 1,
        resp@.len() == 4 * width * height,
        c < 4,
    ensures
        v == resp_reflect(resp@, width as int, height as int, c as int, x as int, y as int),
{
    let xi = reflective_index(x, width);
    let yi = reflective_index(y, height);
    let n = resp.len();
    proof {
        lemma_pixel_index(width as int, height as int, xi as int, yi as int);
    }
    resp[4 * ((yi as usize) * (width as usize) + (xi as usize)) + c]
}

/// Whether two opposed responses signal a zero crossing at threshold `t`.
fn crossing(a: i64, b: i64, t: i64) -> (r: bool)
    ensures
        r == pair_crossing(a as int, b as int, t as int),
{
    let sa: i64 = if a > 0 {
        1
    } else if a < 0 {
        -1
    } else {
        0
    };
    let sb: i64 = if b > 0 {
        1
    } else if b < 0 {
        -1
    } else {
        0
    };
    let diff: i128 = a as i128 - b as i128;
    let ad: i128 = if diff < 0 {
        -diff
    } else {
        diff
    };
    sa != sb && ad > t as i128
}

/// Whether channel `c` of the response crosses zero at pixel `(x, y)`.
fn channel_crossing_at(
    resp: &Vec<i64>,
    width: u32,
    height: u32,
    c: usize,
    x: i64,
    y: i64,
    t: i64,
) -> (r: bool)
    requires
        width >= 1,
        height >= 1,
        resp@.len() == 4 * width * height,
        c < 4,
        -0x7fff_ffff_ffff_fffe <= x <= 0x7fff_ffff_ffff_fffe,
        -0x7fff_ffff_ffff_fffe <= y <= 0x7fff_ffff_ffff_fffe,
    ensures
        r == channel_zero_crossing(
            resp@,
            width as int,
            height as int,
            c as int,
            x as int,
            y as int,
            t as int,
        ),
{
    let ns = crossing(
        resp_at(resp, width, height, c, x, y - 1),
        resp_at(resp, width, height, c, x, y + 1),
        t,
    );
    let we = crossing(
        resp_at(resp, width, height, c, x - 1, y),
        resp_at(resp, width, height, c, x + 1, y),
        t,
    );
    let ne_sw = crossing(
        resp_at(resp, width, height, c, x + 1, y - 1),
        resp_at(resp, width, height, c, x - 1, y + 1),
        t,
    );
    let nw_se = crossing(
        resp_at(resp, width, height, c, x - 1, y - 1),
        resp_at(resp, width, height, c, x + 1, y + 1),
        t,
    );
    ns || we || ne_sw || nw_se
}

/// Builds the binary edge map of a convolved response buffer by
/// zero-crossing detection: a pixel is marked white when any colour channel
/// has an opposed neighbour pair with differing sign and absolute difference
/// above `threshold`.
pub fn zero_crossing_edges(resp: &Vec<i64>, width: u32, height: u32, threshold: i64) -> (out:
    CanvasImage)
    requires
        width >= 1,
        height >= 1,
        resp@.len() == 4 * width * height,
        threshold >= 0,
    ensures
        is_zero_crossing_map(resp@, width as int, height as int, threshold as int, out@),
{
    let ghost wi = width as int;
    let ghost hi = height as int;
    let mut data: Vec<u8> = Vec::new();
    let mut y: u32 = 0;
    while y < height
        invariant
        width >= 1,
        height >= 1,
        resp@.len() == 4 * width * height,
        wi == width,
        hi == height,
        0 <= y <= height,
        data@.len() == 4 * ((y as int) * wi),
        forall|c: int, xx: int, yy: int|
            0 <= c < 4 && 0 <= xx < wi && 0 <= yy < y ==> data@[4 * (yy * wi + xx) + c]
                == edge_chan_val(
                pixel_zero_crossing(resp@, wi, hi, xx, yy, threshold as int),
                c,
            ),
        decreases height - y,
    {
        let mut x: u32 = 0;
        proof {
            assert(4 * ((y as int) * wi) == 4 * ((y as int) * wi + 0)) by (nonlinear_arith);
        }
        while x < width
            invariant
            width >= 1,
            height >= 1,
            resp@.len() == 4 * width * height,
            wi == width,
            hi == height,
            0 <= y < height,
            0 <= x <= width,
            data@.len() == 4 * ((y as int) * wi + x as int),
            forall|c: int, xx: int, yy: int|
                0 <= c < 4 && 0 <= xx < wi && 0 <= yy < y ==> data@[4 * (yy * wi + xx) + c]
                    == edge_chan_val(
                    pixel_zero_crossing(resp@, wi, hi, xx, yy, threshold as int),
                    c,
                ),
            forall|c: int, xx: int|
                0 <= c < 4 && 0 <= xx < x ==> data@[4 * ((y as int) * wi + xx) + c]
                    == edge_chan_val(
                    pixel_zero_crossing(resp@, wi, hi, xx, y as int, threshold as int),
                    c,
                ),
            decreases width - x,
        {
            let r_edge = channel_crossing_at(resp, width, height, 0, x as i64, y as i64, threshold);
            let g_edge = channel_crossing_at(resp, width, height, 1, x as i64, y as i64, threshold);
            let b_edge = channel_crossing_at(resp, width, height, 2, x as i64, y as i64, threshold);
            let edge = r_edge || g_edge || b_edge;
            let v: u8 = if edge {
                255
            } else {
                0
            };
            let ghost prev = data@;
            data.push(v);
            data.push(v);
            data.push(v);
            data.push(255);
            proof {
                let yi = y as int;
                let xi = x as int;
                assert forall|c: int, xx: int, yy: int|
                    0 <= c < 4 && 0 <= xx < wi && 0 <= yy < yi implies data@[4 * (yy * wi + xx)
                    + c] == edge_chan_val(
                    pixel_zero_crossing(resp@, wi, hi, xx, yy, threshold as int),
                    c,
                ) by {
                    crate::convolution::lemma_offset_in_prefix(wi, xx, yy, xi, yi);
                    assert(data@[4 * (yy * wi + xx) + c] == prev[4 * (yy * wi + xx) + c]);
                }
                assert forall|c: int, xx: int| 0 <= c < 4 && 0 <= xx < xi + 1 implies data@[4 * (
                yi * wi + xx) + c] == edge_chan_val(
                    pixel_zero_crossing(resp@, wi, hi, xx, yi, threshold as int),
                    c,
                ) by {
                    if xx < xi {
                        crate::convolution::lemma_offset_in_prefix(wi, xx, yi, xi, yi);
                        assert(data@[4 * (yi * wi + xx) + c] == prev[4 * (yi * wi + xx) + c]);
                    } else {
                        assert(4 * (yi * wi + xx) + c == prev.len() + c);
                    }
                }
            }
            x = x + 1;
        }
        proof {
            let yi = y as int;
            assert(4 * (yi * wi + wi) == 4 * ((yi + 1) * wi)) by (nonlinear_arith);
            assert forall|c: int, xx: int, yy: int|
                0 <= c < 4 && 0 <= xx < wi && 0 <= yy < yi + 1 implies data@[4 * (yy * wi + xx)
                + c] == edge_chan_val(
                pixel_zero_crossing(resp@, wi, hi, xx, yy, threshold as int),
                c,
            ) by {
                crate::convolution::lemma_offset_in_prefix(wi, xx, yy, wi, yi);
            }
        }
        y = y + 1;
    }
    proof {
        assert(4 * ((hi) * wi) == 4 * wi * hi) by (nonlinear_arith);
    }
    CanvasImage::from_vec_with_size(data, width, height)
}

/// Builds the binary edge map of two directional gradient response buffers:
/// each colour channel is marked white when `|dx| + |dy|` exceeds the
/// threshold, and alpha is forced opaque.
pub fn gradient_edge_localization(
    width: u32,
    height: u32,
    del_x: &Vec<i64>,
    del_y: &Vec<i64>,
    threshold: u32,
) -> (out: CanvasImage)
    requires
        del_x@.len() == 4 * width * height,
        del_y@.len() == 4 * width * height,
    ensures
        is_gradient_edge_map(
            del_x@,
            del_y@,
            width as int,
            height as int,
            threshold as int,
            out@,
        ),
{
    let ghost wi = width as int;
    let ghost hi = height as int;
    let ghost t = threshold as int;
    let mut data: Vec<u8> = Vec::new();
    let mut y: u32 = 0;
    while y < height
        invariant
        del_x@.len() == 4 * width * height,
        del_y@.len() == 4 * width * height,
        wi == width,
        hi == height,
        t == threshold,
        0 <= y <= height,
        data@.len() == 4 * ((y as int) * wi),
        forall|c: int, xx: int, yy: int|
            0 <= c < 4 && 0 <= xx < wi && 0 <= yy < y ==> data@[4 * (yy * wi + xx) + c]
                == gradient_map_chan(del_x@, del_y@, wi, c, xx, yy, t),
        decreases height - y,
    {
        let mut x: u32 = 0;
        proof {
            assert(4 * ((y as int) * wi) == 4 * ((y as int) * wi + 0)) by (nonlinear_arith);
        }
        while x < width
            invariant
            del_x@.len() == 4 * width * height,
            del_y@.len() == 4 * width * height,
            wi == width,
            hi == height,
            t == threshold,
            0 <= y < height,
            0 <= x <= width,
            data@.len() == 4 * ((y as int) * wi + x as int),
            forall|c: int, xx: int, yy: int|
                0 <= c < 4 && 0 <= xx < wi && 0 <= yy < y ==> data@[4 * (yy * wi + xx) + c]
                    == gradient_map_chan(del_x@, del_y@, wi, c, xx, yy, t),
            forall|c: int, xx: int|
                0 <= c < 4 && 0 <= xx < x ==> data@[4 * ((y as int) * wi + xx) + c]
                    == gradient_map_chan(del_x@, del_y@, wi, c, xx, y as int, t),
            decreases width - x,
        {
            let n = del_x.len();
            proof {
                lemma_pixel_index(wi, hi, x as int, y as int);
            }
            let base: usize = 4 * ((y as usize) * (width as usize) + (x as usize));
            let ghost prev = data@;
            let mut c: usize = 0;
            while c < 3
                invariant
                del_x@.len() == 4 * width * height,
                del_y@.len() == 4 * width * height,
                wi == width,
                hi == height,
                t == threshold,
                0 <= y < height,
                0 <= x < width,
                0 <= c <= 3,
                base == 4 * ((y as int) * wi + x as int),
                base + 3 < del_x@.len(),
                prev.len() == base,
                data@.len() == base + c,
                forall|i: int| 0 <= i < base ==> data@[i] == prev[i],
                forall|cc: int|
                    0 <= cc < c ==> #[trigger] data@[base + cc] == gradient_map_chan(
                        del_x@,
                        del_y@,
                        wi,
                        cc,
                        x as int,
                        y as int,
                        t,
                    ),
                decreases 3 - c,
            {
                let dx = del_x[base + c];
                let dy = del_y[base + c];
                let adx: i128 = if dx < 0 {
                    -(dx as i128)
                } else {
                    dx as i128
                };
                let ady: i128 = if dy < 0 {
                    -(dy as i128)
                } else {
                    dy as i128
                };
                let v: u8 = if adx + ady > threshold as i128 {
                    255
                } else {
                    0
                };
                data.push(v);
                c = c + 1;
            }
            data.push(255);
            proof {
                let yi = y as int;
                let xi = x as int;
                assert forall|cc: int, xx: int, yy: int|
                    0 <= cc < 4 && 0 <= xx < wi && 0 <= yy < yi implies data@[4 * (yy * wi + xx)
                    + cc] == gradient_map_chan(del_x@, del_y@, wi, cc, xx, yy, t) by {
                    crate::convolution::lemma_offset_in_prefix(wi, xx, yy, xi, yi);
                    assert(data@[4 * (yy * wi + xx) + cc] == prev[4 * (yy * wi + xx) + cc]);
                }
                assert forall|cc: int, xx: int|
                    0 <= cc < 4 && 0 <= xx < xi + 1 implies data@[4 * (yi * wi + xx) + cc]
                    == gradient_map_chan(del_x@, del_y@, wi, cc, xx, yi, t) by {
                    if xx < xi {
                        crate::convolution::lemma_offset_in_prefix(wi, xx, yi, xi, yi);
                        assert(data@[4 * (yi * wi + xx) + cc] == prev[4 * (yi * wi + xx) + cc]);
                    } else {
                        assert(4 * (yi * wi + xx) + cc == base + cc);
                    }
                }
            }
            x = x + 1;
        }
        proof {
            let yi = y as int;
            assert(4 * (yi * wi + wi) == 4 * ((yi + 1) * wi)) by (nonlinear_arith);
            assert forall|c: int, xx: int, yy: int|
                0 <= c < 4 && 0 <= xx < wi && 0 <= yy < yi + 1 implies data@[4 * (yy * wi + xx)
                + c] == gradient_map_chan(del_x@, del_y@, wi, c, xx, yy, t) by {
                crate::convolution::lemma_offset_in_prefix(wi, xx, yy, wi, yi);
            }
        }
        y = y + 1;
    }
    proof {
        assert(4 * ((hi) * wi) == 4 * wi * hi) by (nonlinear_arith);
    }
    CanvasImage::from_vec_with_size(data, width, height)
}


/// The standard 3x3 Laplacian kernel.
pub open spec fn laplacian_kernel() -> KernelView {
    KernelView { data: seq![1i64, 1, 1, 1, -8i64, 1, 1, 1, 1], width: 3, height: 3 }
}

/// The 5x5 Laplacian-of-Gaussian kernel.
pub open spec fn laplacian_of_gaussian_kernel() -> KernelView {
    KernelView {
        data: seq![
            0i64, 0, -1i64, 0, 0,
            0, -1i64, -2i64, -1i64, 0,
            -1i64, -2i64, 16, -2i64, -1i64,
            0, -1i64, -2i64, -1i64, 0,
            0, 0, -1i64, 0, 0,
        ],
        width: 5,
        height: 5,
    }
}

/// The horizontal Sobel kernel.
pub open spec fn sobel_x_kernel() -> KernelView {
    KernelView { data: seq![-1i64, 0, 1, -2i64, 0, 2, -1i64, 0, 1], width: 3, height: 3 }
}

/// The vertical Sobel kernel.
pub open spec fn sobel_y_kernel() -> KernelView {
    KernelView { data: seq![-1i64, -2i64, -1i64, 0, 0, 0, 1, 2, 1], width: 3, height: 3 }
}

/// The horizontal Prewitt kernel.
pub open spec fn prewitt_x_kernel() -> KernelView {
    KernelView { data: seq![-1i64, 0, 1, -1i64, 0, 1, -1i64, 0, 1], width: 3, height: 3 }
}

/// The vertical Prewitt kernel.
pub open spec fn prewitt_y_kernel() -> KernelView {
    KernelView { data: seq![-1i64, -1i64, -1i64, 0, 0, 0, 1, 1, 1], width: 3, height: 3 }
}

/// Builds an executable 3x3 kernel matching a 9-weight view.
fn kernel3(v0: i64, v1: i64, v2: i64, v3: i64, v4: i64, v5: i64, v6: i64, v7: i64, v8: i64) -> (
    k: Kernel)
    ensures
        k@ == (KernelView {
            data: seq![v0, v1, v2, v3, v4, v5, v6, v7, v8],
            width: 3,
            height: 3,
        }),
        k@.wf(),
{
    let mut d: Vec<i64> = Vec::new();
    d.push(v0);
    d.push(v1);
    d.push(v2);
    d.push(v3);
    d.push(v4);
    d.push(v5);
    d.push(v6);
    d.push(v7);
    d.push(v8);
    proof {
        assert(d@ =~= seq![v0, v1, v2, v3, v4, v5, v6, v7, v8]);
    }
    let k = Kernel::from_vec(d, 3, 3);
    proof {
        assert(k@ =~= (KernelView {
            data: seq![v0, v1, v2, v3, v4, v5, v6, v7, v8],
            width: 3,
            height: 3,
        }));
    }
    k
}

/// The absolute tap sum of a well-formed 3x3 kernel, written out so concrete
/// kernels can be evaluated.
proof fn lemma_abs_taps_3x3(k: KernelView)
    requires
        k.wf(),
        k.width == 3,
        k.height == 3,
    ensures
        k.abs_taps() == abs(k.data[0] as int) + abs(k.data[1] as int) + abs(k.data[2] as int)
            + abs(k.data[3] as int) + abs(k.data[4] as int) + abs(k.data[5] as int) + abs(
            k.data[6] as int,
        ) + abs(k.data[7] as int) + abs(k.data[8] as int),
{
    reveal_with_fuel(KernelView::rows_abs_partial, 5);
    reveal_with_fuel(KernelView::row_abs_partial, 5);
}

impl CanvasImage {
    /// Detects edges by convolving with the 3x3 Laplacian kernel under
    /// reflective borders and marking zero crossings above `threshold`.
    pub fn laplacian_edge(&self, threshold: i64) -> (out: CanvasImage)
        requires
            self@.wf(),
            self@.width >= 1,
            self@.height >= 1,
            threshold >= 0,
        ensures
            is_zero_crossing_map(
                conv_response(self@, laplacian_kernel(), BorderStrategy::Reflective),
                self@.width,
                self@.height,
                threshold as int,
                out@,
            ),
    {
        let kernel = kernel3(1, 1, 1, 1, -8, 1, 1, 1, 1);
        proof {
            lemma_abs_taps_3x3(kernel@);
        }
        let resp = self.convolve(&kernel, BorderStrategy::Reflective);
        proof {
            lemma_response_pointwise(self@, kernel@, BorderStrategy::Reflective, resp@);
        }
        zero_crossing_edges(&resp, self.horizontal_size(), self.vertical_size(), threshold)
    }

    /// Detects edges by convolving with the 5x5 Laplacian-of-Gaussian kernel
    /// under reflective borders and marking zero crossings above `threshold`.
    pub fn laplacian_of_gaussian_edge(&self, threshold: i64) -> (out: CanvasImage)
        requires
            self@.wf(),
            self@.width >= 1,
            self@.height >= 1,
            threshold >= 0,
        ensures
            is_zero_crossing_map(
                conv_response(self@, laplacian_of_gaussian_kernel(), BorderStrategy::Reflective),
                self@.width,
                self@.height,
                threshold as int,
                out@,
            ),
    {
        let mut d: Vec<i64> = Vec::new();
        d.push(0);
        d.push(0);
        d.push(-1);
        d.push(0);
        d.push(0);
        d.push(0);
        d.push(-1);
        d.push(-2);
        d.push(-1);
        d.push(0);
        d.push(-1);
        d.push(-2);
        d.push(16);
        d.push(-2);
        d.push(-1);
        d.push(0);
        d.push(-1);
        d.push(-2);
        d.push(-1);
        d.push(0);
        d.push(0);
        d.push(0);
        d.push(-1);
        d.push(0);
        d.push(0);
        proof {
            assert(d@ =~= laplacian_of_gaussian_kernel().data);
        }
        let kernel = Kernel::from_vec(d, 5, 5);
        proof {
            assert(kernel@ =~= laplacian_of_gaussian_kernel());
            assert(kernel@.abs_taps() == 32) by {
                reveal_with_fuel(KernelView::rows_abs_partial, 7);
                reveal_with_fuel(KernelView::row_abs_partial, 7);
            }
        }
        let resp = self.convolve(&kernel, BorderStrategy::Reflective);
        proof {
            lemma_response_pointwise(self@, kernel@, BorderStrategy::Reflective, resp@);
        }
        zero_crossing_edges(&resp, self.horizontal_size(), self.vertical_size(), threshold)
    }

    /// Detects edges by Sobel gradients under reflective borders: a colour
    /// channel is marked where the L1 gradient magnitude exceeds `threshold`.
    pub fn sobel_edge(&self, threshold: u32) -> (out: CanvasImage)
        requires
            self@.wf(),
            self@.width >= 1,
            self@.height >= 1,
        ensures
            is_gradient_edge_map(
                conv_response(self@, sobel_x_kernel(), BorderStrategy::Reflective),
                conv_response(self@, sobel_y_kernel(), BorderStrategy::Reflective),
                self@.width,
                self@.height,
                threshold as int,
                out@,
            ),
    {
        let kernel_x = kernel3(-1, 0, 1, -2, 0, 2, -1, 0, 1);
        let kernel_y = kernel3(-1, -2, -1, 0, 0, 0, 1, 2, 1);
        proof {
            lemma_abs_taps_3x3(kernel_x@);
            lemma_abs_taps_3x3(kernel_y@);
        }
        let del_x = self.convolve(&kernel_x, BorderStrategy::Reflective);
        let del_y = self.convolve(&kernel_y, BorderStrategy::Reflective);
        proof {
            lemma_response_pointwise(self@, kernel_x@, BorderStrategy::Reflective, del_x@);
            lemma_response_pointwise(self@, kernel_y@, BorderStrategy::Reflective, del_y@);
        }
        gradient_edge_localization(
            self.horizontal_size(),
            self.vertical_size(),
            &del_x,
            &del_y,
            threshold,
        )
    }

    /// Detects edges by Prewitt gradients under reflective borders: a colour
    /// channel is marked where the L1 gradient magnitude exceeds `threshold`.
    pub fn prewitt_edge(&self, threshold: u32) -> (out: CanvasImage)
        requires
            self@.wf(),
            self@.width >= 1,
            self@.height >= 1,
        ensures
            is_gradient_edge_map(
                conv_response(self@, prewitt_x_kernel(), BorderStrategy::Reflective),
                conv_response(self@, prewitt_y_kernel(), BorderStrategy::Reflective),
                self@.width,
                self@.height,
                threshold as int,
                out@,
            ),
    {
        let kernel_x = kernel3(-1, 0, 1, -1, 0, 1, -1, 0, 1);
        let kernel_y = kernel3(-1, -1, -1, 0, 0, 0, 1, 1, 1);
        proof {
            lemma_abs_taps_3x3(kernel_x@);
            lemma_abs_taps_3x3(kernel_y@);
        }
        let del_x = self.convolve(&kernel_x, BorderStrategy::Reflective);
        let del_y = self.convolve(&kernel_y, BorderStrategy::Reflective);
        proof {
            lemma_response_pointwise(self@, kernel_x@, BorderStrategy::Reflective, del_x@);
            lemma_response_pointwise(self@, kernel_y@, BorderStrategy::Reflective, del_y@);
        }
        gradient_edge_localization(
            self.horizontal_size(),
            self.vertical_size(),
            &del_x,
            &del_y,
            threshold,
        )
    }
}

/// Whether pixel `p` (in row-major order) of an edge map is marked as an
/// edge: any of its R, G, B channels is white.
pub open spec fn pixel_white(img: ImgView, p: int) -> bool {
    ||| img.chan(0, p % img.width, p / img.width) == 255
    ||| img.chan(1, p % img.width, p / img.width) == 255
    ||| img.chan(2, p % img.width, p / img.width) == 255
}

/// The number of pixels among the first `n` (in row-major order) that are
/// marked as edges.
pub open spec fn white_pixel_count(img: ImgView, n: nat) -> nat
    decreases n,
{
    if n == 0 {
        0
    } else {
        white_pixel_count(img, (n - 1) as nat) + if pixel_white(img, n - 1) {
            1nat
        } else {
            0nat
        }
    }
}

/// Whenever every edge pixel of one map is an edge pixel of another, the
/// first map has no more edge pixels.
proof fn lemma_white_count_le(o1: ImgView, o2: ImgView, n: nat)
    requires
        forall|p: int| 0 <= p < n && #[trigger] pixel_white(o2, p) ==> pixel_white(o1, p),
    ensures
        white_pixel_count(o2, n) <= white_pixel_count(o1, n),
    decreases n,
{
    if n > 0 {
        lemma_white_count_le(o1, o2, (n - 1) as nat);
    }
}

/// Threshold monotonicity of the gradient-magnitude edge detectors: raising
/// the threshold cannot increase the number of pixels marked as edges.
/// `o1` and `o2` are the edge maps of the same directional responses at
/// thresholds `t1 <= t2`.
pub proof fn lemma_gradient_threshold_monotone(
    del_x: Seq<i64>,
    del_y: Seq<i64>,
    w: int,
    h: int,
    t1: int,
    t2: int,
    o1: ImgView,
    o2: ImgView,
)
    requires
        1 <= w,
        1 <= h,
        del_x.len() == 4 * w * h,
        del_y.len() == 4 * w * h,
        t1 <= t2,
        is_gradient_edge_map(del_x, del_y, w, h, t1, o1),
        is_gradient_edge_map(del_x, del_y, w, h, t2, o2),
    ensures
        white_pixel_count(o2, (w * h) as nat) <= white_pixel_count(o1, (w * h) as nat),
{
    assert(0 <= w * h) by (nonlinear_arith)
        requires
            1 <= w,
            1 <= h,
    ;
    assert forall|p: int| 0 <= p < w * h && #[trigger] pixel_white(o2, p) implies pixel_white(
        o1,
        p,
    ) by {
        lemma_pixel_coords(w, h, p);
        let x = p % w;
        let y = p / w;
        assert(o2.chan(0, x, y) == gradient_map_chan(del_x, del_y, w, 0, x, y, t2));
        assert(o2.chan(1, x, y) == gradient_map_chan(del_x, del_y, w, 1, x, y, t2));
        assert(o2.chan(2, x, y) == gradient_map_chan(del_x, del_y, w, 2, x, y, t2));
        assert(o1.chan(0, x, y) == gradient_map_chan(del_x, del_y, w, 0, x, y, t1));
        assert(o1.chan(1, x, y) == gradient_map_chan(del_x, del_y, w, 1, x, y, t1));
        assert(o1.chan(2, x, y) == gradient_map_chan(del_x, del_y, w, 2, x, y, t1));
    }
    lemma_white_count_le(o1, o2, (w * h) as nat);
}

/// A row-major pixel position decomposes into an in-bounds column and row.
proof fn lemma_pixel_coords(w: int, h: int, p: int)
    requires
        1 <= w,
        1 <= h,
        0 <= p < w * h,
    ensures
        0 <= p % w < w,
        0 <= p / w < h,
{
    vstd::arithmetic::div_mod::lemma_mod_division_less_than_divisor(p, w);
    vstd::arithmetic::div_mod::lemma_div_pos_is_pos(p, w);
    vstd::arithmetic::div_mod::lemma_multiply_divide_lt(p, w, h);
}

/// Threshold monotonicity of the zero-crossing edge detectors: raising the
/// threshold cannot increase the number of pixels marked as edges. `o1` and
/// `o2` are the edge maps of the same response buffer at thresholds
/// `t1 <= t2`.
pub proof fn lemma_zero_crossing_threshold_monotone(
    resp: Seq<i64>,
    w: int,
    h: int,
    t1: int,
    t2: int,
    o1: ImgView,
    o2: ImgView,
)
    requires
        1 <= w,
        1 <= h,
        resp.len() == 4 * w * h,
        t1 <= t2,
        is_zero_crossing_map(resp, w, h, t1, o1),
        is_zero_crossing_map(resp, w, h, t2, o2),
    ensures
        white_pixel_count(o2, (w * h) as nat) <= white_pixel_count(o1, (w * h) as nat),
{
    assert(0 <= w * h) by (nonlinear_arith)
        requires
            1 <= w,
            1 <= h,
    ;
    assert forall|p: int| 0 <= p < w * h && #[trigger] pixel_white(o2, p) implies pixel_white(
        o1,
        p,
    ) by {
        lemma_pixel_coords(w, h, p);
        let x = p % w;
        let y = p / w;
        assert(o2.chan(0, x, y) == edge_chan_val(pixel_zero_crossing(resp, w, h, x, y, t2), 0));
        assert(o2.chan(1, x, y) == edge_chan_val(pixel_zero_crossing(resp, w, h, x, y, t2), 1));
        assert(o2.chan(2, x, y) == edge_chan_val(pixel_zero_crossing(resp, w, h, x, y, t2), 2));
        assert(o1.chan(0, x, y) == edge_chan_val(pixel_zero_crossing(resp, w, h, x, y, t1), 0));
        if pixel_zero_crossing(resp, w, h, x, y, t2) {
            assert(pixel_zero_crossing(resp, w, h, x, y, t1));
        }
    }
    lemma_white_count_le(o1, o2, (w * h) as nat);
}


/// Errors reported for invalid operation parameters, before any computation
/// touches a buffer.
#[derive(Debug, Clone, Copy, PartialEq, Eq)]
pub enum ParameterError {
    /// A Bernoulli probability was outside `[0, 1]`.
    ProbabilityOutOfRange,
}

/// Relies on rand's `Rng::gen_range` over the non-empty range `0..bound`:
/// the sampled value lies in that range. Nothing more is assumed of a random
/// draw.
#[verifier::external_body]
fn random_below(bound: u32) -> (r: u32)
    requires
        bound > 0,
    ensures
        r < bound,
{
    rand::Rng::gen_range(&mut rand::thread_rng(), 0..bound)
}

/// How a pixel may relate to its old value after Bernoulli noise: alpha is
/// untouched, and the colour channels are either all set to the noise value
/// or all left as they were.
pub open spec fn noise_pixel_ok(
    old_img: ImgView,
    new_img: ImgView,
    noise: u8,
    x: int,
    y: int,
) -> bool {
    &&& new_img.chan(3, x, y) == old_img.chan(3, x, y)
    &&& {
        ||| (new_img.chan(0, x, y) == noise && new_img.chan(1, x, y) == noise && new_img.chan(
            2,
            x,
            y,
        ) == noise)
        ||| (new_img.chan(0, x, y) == old_img.chan(0, x, y) && new_img.chan(1, x, y)
            == old_img.chan(1, x, y) && new_img.chan(2, x, y) == old_img.chan(2, x, y))
    }
}

/// All three colour channels of a pixel hold the noise value.
pub open spec fn noise_pixel_set(img: ImgView, noise: u8, x: int, y: int) -> bool {
    &&& img.chan(0, x, y) == noise
    &&& img.chan(1, x, y) == noise
    &&& img.chan(2, x, y) == noise
}

impl CanvasImage {
    /// Performs an independent Bernoulli trial with probability
    /// `p_num / p_den` for each pixel; where the trial succeeds, all three
    /// colour channels are set to `noise` and alpha is left untouched. A
    /// probability outside `[0, 1]` is rejected before any pixel changes.
    /// With probability 0 no pixel changes; with probability 1 every pixel
    /// is set.
    pub fn set_bernoulli_noise(&mut self, p_num: u32, p_den: u32, noise: u8) -> (result: Result<
        (),
        ParameterError,
    >)
        requires
            old(self)@.wf(),
        ensures
            final(self)@.wf(),
            final(self)@.width == old(self)@.width,
            final(self)@.height == old(self)@.height,
            result is Ok <==> (p_den > 0 && p_num <= p_den),
            result is Err ==> final(self)@ == old(self)@,
            p_num == 0 ==> final(self)@ == old(self)@,
            forall|x: int, y: int|
                final(self)@.in_bounds(x, y) ==> noise_pixel_ok(old(self)@, final(self)@, noise, x, y),
            (result is Ok && p_num == p_den) ==> forall|x: int, y: int|
                final(self)@.in_bounds(x, y) ==> noise_pixel_set(final(self)@, noise, x, y),
    {
        let ghost orig = self@;
        if p_den == 0 || p_num > p_den {
            return Err(ParameterError::ProbabilityOutOfRange);
        }
        if p_num == 0 {
            return Ok(());
        }
        let w = self.horizontal_size();
        let h = self.vertical_size();
        let ghost wi = w as int;
        let ghost hi = h as int;
        let mut y: u32 = 0;
        while y < h
            invariant
            orig.wf(),
            self@.wf(),
            self@.width == orig.width,
            self@.height == orig.height,
            self@.data.len() == orig.data.len(),
            wi == orig.width,
            hi == orig.height,
            w == orig.width,
            h == orig.height,
            0 < p_num <= p_den,
            0 <= y <= h,
            forall|i: int|
                4 * ((y as int) * wi) <= i < orig.data.len() ==> self@.data[i] == orig.data[i],
            forall|xx: int, yy: int|
                0 <= xx < wi && 0 <= yy < y ==> noise_pixel_ok(orig, self@, noise, xx, yy),
            p_num == p_den ==> forall|xx: int, yy: int|
                0 <= xx < wi && 0 <= yy < y ==> noise_pixel_set(self@, noise, xx, yy),
            decreases h - y,
        {
            let mut x: u32 = 0;
            proof {
                assert(4 * ((y as int) * wi) == 4 * ((y as int) * wi + 0)) by (nonlinear_arith);
            }
            while x < w
                invariant
                orig.wf(),
                self@.wf(),
                self@.width == orig.width,
                self@.height == orig.height,
                self@.data.len() == orig.data.len(),
                wi == orig.width,
                hi == orig.height,
                w == orig.width,
                h == orig.height,
                0 < p_num <= p_den,
                0 <= y < h,
                0 <= x <= w,
                forall|i: int|
                    4 * ((y as int) * wi + x as int) <= i < orig.data.len() ==> self@.data[i]
                        == orig.data[i],
                forall|xx: int, yy: int|
                    0 <= xx < wi && 0 <= yy < y ==> noise_pixel_ok(orig, self@, noise, xx, yy),
                forall|xx: int|
                    0 <= xx < x ==> noise_pixel_ok(orig, self@, noise, xx, y as int),
                p_num == p_den ==> forall|xx: int, yy: int|
                    0 <= xx < wi && 0 <= yy < y ==> noise_pixel_set(self@, noise, xx, yy),
                p_num == p_den ==> forall|xx: int|
                    0 <= xx < x ==> noise_pixel_set(self@, noise, xx, y as int),
                decreases w - x,
            {
                let draw = random_below(p_den);
                let ghost before = self@;
                if draw < p_num {
                    self.set_channel(0, x, y, noise);
                    self.set_channel(1, x, y, noise);
                    self.set_channel(2, x, y, noise);
                }
                proof {
                    let yi = y as int;
                    let xi = x as int;
                    let base = 4 * (yi * wi + xi);
                    assert(before.width == wi);
                    assert(self@.width == wi);
                    assert(self@.data.len() == orig.data.len());
                    assert forall|i: int|
                        4 * (yi * wi + (xi + 1)) <= i < orig.data.len() implies self@.data[i]
                        == orig.data[i] by {
                        assert(before.data[i] == orig.data[i]);
                    }
                    assert(base + 3 < orig.data.len()) by {
                        lemma_pixel_index(wi, hi, xi, yi);
                    }
                    assert(self@.data[base + 3] == before.data[base + 3]);
                    assert(self@.chan(3, xi, yi) == orig.chan(3, xi, yi));
                    if draw < p_num {
                        assert(self@.data[base + 0] == noise);
                        assert(self@.data[base + 1] == noise);
                        assert(self@.data[base + 2] == noise);
                        assert(self@.chan(0, xi, yi) == noise);
                        assert(self@.chan(1, xi, yi) == noise);
                        assert(self@.chan(2, xi, yi) == noise);
                    } else {
                        assert(self@.chan(0, xi, yi) == orig.chan(0, xi, yi));
                    }
                    assert(noise_pixel_ok(orig, self@, noise, xi, yi));
                    if p_num == p_den {
                        assert(draw < p_num);
                        assert(noise_pixel_set(self@, noise, xi, yi));
                    }
                    assert forall|xx: int, yy: int|
                        0 <= xx < wi && 0 <= yy < yi implies noise_pixel_ok(
                        orig,
                        self@,
                        noise,
                        xx,
                        yy,
                    ) by {
                        crate::convolution::lemma_offset_in_prefix(wi, xx, yy, xi, yi);
                        assert(noise_pixel_ok(orig, before, noise, xx, yy));
                        assert(self@.data[4 * (yy * wi + xx) + 0] == before.data[4 * (yy * wi
                            + xx) + 0]);
                        assert(self@.data[4 * (yy * wi + xx) + 1] == before.data[4 * (yy * wi
                            + xx) + 1]);
                        assert(self@.data[4 * (yy * wi + xx) + 2] == before.data[4 * (yy * wi
                            + xx) + 2]);
                        assert(self@.data[4 * (yy * wi + xx) + 3] == before.data[4 * (yy * wi
                            + xx) + 3]);
                    }
                    assert forall|xx: int| 0 <= xx < xi + 1 implies noise_pixel_ok(
                        orig,
                        self@,
                        noise,
                        xx,
                        yi,
                    ) by {
                        if xx < xi {
                            crate::convolution::lemma_offset_in_prefix(wi, xx, yi, xi, yi);
                            assert(noise_pixel_ok(orig, before, noise, xx, yi));
                            assert(self@.data[4 * (yi * wi + xx) + 0] == before.data[4 * (yi * wi
                                + xx) + 0]);
                            assert(self@.data[4 * (yi * wi + xx) + 1] == before.data[4 * (yi * wi
                                + xx) + 1]);
                            assert(self@.data[4 * (yi * wi + xx) + 2] == before.data[4 * (yi * wi
                                + xx) + 2]);
                            assert(self@.data[4 * (yi * wi + xx) + 3] == before.data[4 * (yi * wi
                                + xx) + 3]);
                        }
                    }
                    if p_num == p_den {
                        assert forall|xx: int, yy: int|
                            0 <= xx < wi && 0 <= yy < yi implies noise_pixel_set(
                            self@,
                            noise,
                            xx,
                            yy,
                        ) by {
                            crate::convolution::lemma_offset_in_prefix(wi, xx, yy, xi, yi);
                            assert(noise_pixel_set(before, noise, xx, yy));
                            assert(self@.data[4 * (yy * wi + xx) + 0] == before.data[4 * (yy * wi
                                + xx) + 0]);
                            assert(self@.data[4 * (yy * wi + xx) + 1] == before.data[4 * (yy * wi
                                + xx) + 1]);
                            assert(self@.data[4 * (yy * wi + xx) + 2] == before.data[4 * (yy * wi
                                + xx) + 2]);
                        }
                        assert forall|xx: int| 0 <= xx < xi + 1 implies noise_pixel_set(
                            self@,
                            noise,
                            xx,
                            yi,
                        ) by {
                            if xx < xi {
                                crate::convolution::lemma_offset_in_prefix(wi, xx, yi, xi, yi);
                                assert(noise_pixel_set(before, noise, xx, yi));
                                assert(self@.data[4 * (yi * wi + xx) + 0] == before.data[4 * (yi
                                    * wi + xx) + 0]);
                                assert(self@.data[4 * (yi * wi + xx) + 1] == before.data[4 * (yi
                                    * wi + xx) + 1]);
                                assert(self@.data[4 * (yi * wi + xx) + 2] == before.data[4 * (yi
                                    * wi + xx) + 2]);
                            }
                        }
                    }
                }
                x = x + 1;
            }
            proof {
                let yi = y as int;
                assert(4 * (yi * wi + wi) == 4 * ((yi + 1) * wi)) by (nonlinear_arith);
                assert forall|xx: int, yy: int|
                    0 <= xx < wi && 0 <= yy < yi + 1 implies noise_pixel_ok(
                    orig,
                    self@,
                    noise,
                    xx,
                    yy,
                ) by {}
                if p_num == p_den {
                    assert forall|xx: int, yy: int|
                        0 <= xx < wi && 0 <= yy < yi + 1 implies noise_pixel_set(
                        self@,
                        noise,
                        xx,
                        yy,
                    ) by {}
                }
            }
            y = y + 1;
        }
        Ok(())
    }

    /// Adds salt noise: an independent Bernoulli trial with probability
    /// `p_num / p_den` per pixel, setting the colour channels to white where
    /// it succeeds.
    pub fn add_salt(&mut self, p_num: u32, p_den: u32) -> (result: Result<(), ParameterError>)
        requires
            old(self)@.wf(),
        ensures
            final(self)@.wf(),
            final(self)@.width == old(self)@.width,
            final(self)@.height == old(self)@.height,
            result is Ok <==> (p_den > 0 && p_num <= p_den),
            result is Err ==> final(self)@ == old(self)@,
            p_num == 0 ==> final(self)@ == old(self)@,
            forall|x: int, y: int|
                final(self)@.in_bounds(x, y) ==> noise_pixel_ok(old(self)@, final(self)@, 255u8, x, y),
            (result is Ok && p_num == p_den) ==> forall|x: int, y: int|
                final(self)@.in_bounds(x, y) ==> noise_pixel_set(final(self)@, 255u8, x, y),
    {
        self.set_bernoulli_noise(p_num, p_den, 255)
    }

    /// Adds pepper noise: an independent Bernoulli trial with probability
    /// `p_num / p_den` per pixel, setting the colour channels to black where
    /// it succeeds.
    pub fn add_pepper(&mut self, p_num: u32, p_den: u32) -> (result: Result<(), ParameterError>)
        requires
            old(self)@.wf(),
        ensures
            final(self)@.wf(),
            final(self)@.width == old(self)@.width,
            final(self)@.height == old(self)@.height,
            result is Ok <==> (p_den > 0 && p_num <= p_den),
            result is Err ==> final(self)@ == old(self)@,
            p_num == 0 ==> final(self)@ == old(self)@,
            forall|x: int, y: int|
                final(self)@.in_bounds(x, y) ==> noise_pixel_ok(old(self)@, final(self)@, 0u8, x, y),
            (result is Ok && p_num == p_den) ==> forall|x: int, y: int|
                final(self)@.in_bounds(x, y) ==> noise_pixel_set(final(self)@, 0u8, x, y),
    {
        self.set_bernoulli_noise(p_num, p_den, 0)
    }
}


/// Detects edges with the 3x3 Laplacian kernel and zero-crossing marking.
pub fn laplacian_edge(image: &CanvasImage, threshold: i64) -> (out: CanvasImage)
    requires
        image@.wf(),
        image@.width >= 1,
        image@.height >= 1,
        threshold >= 0,
    ensures
        is_zero_crossing_map(
            conv_response(image@, laplacian_kernel(), BorderStrategy::Reflective),
            image@.width,
            image@.height,
            threshold as int,
            out@,
        ),
{
    image.laplacian_edge(threshold)
}

/// Detects edges with the 5x5 Laplacian-of-Gaussian kernel and
/// zero-crossing marking.
pub fn laplacian_of_gaussian_edge(image: &CanvasImage, threshold: i64) -> (out: CanvasImage)
    requires
        image@.wf(),
        image@.width >= 1,
        image@.height >= 1,
        threshold >= 0,
    ensures
        is_zero_crossing_map(
            conv_response(image@, laplacian_of_gaussian_kernel(), BorderStrategy::Reflective),
            image@.width,
            image@.height,
            threshold as int,
            out@,
        ),
{
    image.laplacian_of_gaussian_edge(threshold)
}

/// Detects edges with Sobel gradients and an L1 magnitude threshold.
pub fn sobel_edge(image: &CanvasImage, threshold: u32) -> (out: CanvasImage)
    requires
        image@.wf(),
        image@.width >= 1,
        image@.height >= 1,
    ensures
        is_gradient_edge_map(
            conv_response(image@, sobel_x_kernel(), BorderStrategy::Reflective),
            conv_response(image@, sobel_y_kernel(), BorderStrategy::Reflective),
            image@.width,
            image@.height,
            threshold as int,
            out@,
        ),
{
    image.sobel_edge(threshold)
}

/// Detects edges with Prewitt gradients and an L1 magnitude threshold.
pub fn prewitt_edge(image: &CanvasImage, threshold: u32) -> (out: CanvasImage)
    requires
        image@.wf(),
        image@.width >= 1,
        image@.height >= 1,
    ensures
        is_gradient_edge_map(
            conv_response(image@, prewitt_x_kernel(), BorderStrategy::Reflective),
            conv_response(image@, prewitt_y_kernel(), BorderStrategy::Reflective),
            image@.width,
            image@.height,
            threshold as int,
            out@,
        ),
{
    image.prewitt_edge(threshold)
}

/// Adds salt noise to an image: an independent Bernoulli trial per pixel
/// with the given exact rational probability, whitening the colour
/// channels where it succeeds.
pub fn add_salt(image: &mut CanvasImage, p_num: u32, p_den: u32) -> (result: Result<
    (),
    ParameterError,
>)
    requires
        old(image)@.wf(),
    ensures
        final(image)@.wf(),
        final(image)@.width == old(image)@.width,
        final(image)@.height == old(image)@.height,
        result is Ok <==> (p_den > 0 && p_num <= p_den),
        result is Err ==> final(image)@ == old(image)@,
        forall|x: int, y: int|
            final(image)@.in_bounds(x, y) ==> noise_pixel_ok(
                old(image)@,
                final(image)@,
                255u8,
                x,
                y,
            ),
{
    image.add_salt(p_num, p_den)
}

/// Adds pepper noise to an image: an independent Bernoulli trial per pixel
/// with the given exact rational probability, blackening the colour
/// channels where it succeeds.
pub fn add_pepper(image: &mut CanvasImage, p_num: u32, p_den: u32) -> (result: Result<
    (),
    ParameterError,
>)
    requires
        old(image)@.wf(),
    ensures
        final(image)@.wf(),
        final(image)@.width == old(image)@.width,
        final(image)@.height == old(image)@.height,
        result is Ok <==> (p_den > 0 && p_num <= p_den),
        result is Err ==> final(image)@ == old(image)@,
        forall|x: int, y: int|
            final(image)@.in_bounds(x, y) ==> noise_pixel_ok(
                old(image)@,
                final(image)@,
                0u8,
                x,
                y,
            ),
{
    image.add_pepper(p_num, p_den)
}

} // verus!



