use vstd::prelude::*;
use vstd::math::abs;
use vstd::arithmetic::div_mod::{
    lemma_div_pos_is_pos, lemma_fundamental_div_mod, lemma_mod_division_less_than_divisor,
    lemma_multiply_divide_lt,
};
use crate::canvas_image::{CanvasImage, ImgView};
use crate::image_index::{circular_sample, reflective_sample, zero_sample};

verus! {

/// Policy for pixel values outside the image's finite domain. The three
/// policies produce materially different results at image edges, so every
/// sampling or convolution call names one explicitly.
#[derive(Copy, Clone, Debug, PartialEq, Eq, Hash)]
pub enum BorderStrategy {
    Zero,
    Circular,
    Reflective,
}

/// One channel of the image extended to all of Z^2 under the chosen border
/// strategy.
pub open spec fn border_sample(img: ImgView, s: BorderStrategy, c: int, x: int, y: int) -> u8 {
    match s {
        BorderStrategy::Zero => zero_sample(img, c, x, y),
        BorderStrategy::Circular => circular_sample(img, c, x, y),
        BorderStrategy::Reflective => reflective_sample(img, c, x, y),
    }
}

impl CanvasImage {
    /// One channel of the image extended to all of Z^2 under `strategy`.
    pub fn sample(&self, strategy: BorderStrategy, c: usize, x: i64, y: i64) -> (v: u8)
        requires
            self@.wf(),
            self@.width >= 1,
            self@.height >= 1,
            c < 4,
        ensures
            v == border_sample(self@, strategy, c as int, x as int, y as int),
    {
        match strategy {
            BorderStrategy::Zero => self.sample_zero(c, x, y),
            BorderStrategy::Circular => self.sample_circular(c, x, y),
            BorderStrategy::Reflective => self.sample_reflective(c, x, y),
        }
    }
}

/// Mathematical view of a convolution kernel: a flat row-major weight
/// sequence with centered indexing.
#[verifier::ext_equal]
pub struct KernelView {
    pub data: Seq<i64>,
    pub width: int,
    pub height: int,
}

impl KernelView {
    /// A kernel is well formed when the flat sequence holds one weight per
    /// tap and both dimensions are odd, so a true center tap exists.
    pub open spec fn wf(self) -> bool {
        &&& 1 <= self.width
        &&& 1 <= self.height
        &&& self.width % 2 == 1
        &&& self.height % 2 == 1
        &&& self.data.len() == self.width * self.height
    }

    pub open spec fn half_width(self) -> int {
        self.width / 2
    }

    pub open spec fn half_height(self) -> int {
        self.height / 2
    }

    /// Center-relative tap: row offset `i` in `[-height/2, height/2]`,
    /// column offset `j` in `[-width/2, width/2]`.
    pub open spec fn at_spec(self, i: int, j: int) -> int {
        self.data[(i + self.half_height()) * self.width + (j + self.half_width())] as int
    }

    /// Sum of `|tap|` over the first `cnt` column offsets of row offset `i`.
    pub open spec fn row_abs_partial(self, i: int, cnt: nat) -> int
        decreases cnt,
    {
        if cnt == 0 {
            0
        } else {
            self.row_abs_partial(i, (cnt - 1) as nat) + abs(
                self.at_spec(i, -self.half_width() + cnt - 1),
            )
        }
    }

    /// Sum of `|tap|` over the first `rows` whole row offsets.
    pub open spec fn rows_abs_partial(self, rows: nat) -> int
        decreases rows,
    {
        if rows == 0 {
            0
        } else {
            self.rows_abs_partial((rows - 1) as nat) + self.row_abs_partial(
                -self.half_height() + rows - 1,
                (2 * self.half_width() + 1) as nat,
            )
        }
    }

    /// Sum of the absolute values of every tap of the kernel.
    pub open spec fn abs_taps(self) -> int {
        self.rows_abs_partial((2 * self.half_height() + 1) as nat)
    }
}

/// A convolution kernel: a flat row-major array of integer weights with
/// centered indexing.
pub struct Kernel {
    data: Vec<i64>,
    width: usize,
    height: usize,
}

impl View for Kernel {
    type V = KernelView;

    closed spec fn view(&self) -> KernelView {
        KernelView { data: self.data@, width: self.width as int, height: self.height as int }
    }
}

/// A tap's flat offset stays inside the grid whenever its row and column do.
proof fn lemma_grid_index(w: int, h: int, col: int, row: int)
    by (nonlinear_arith)
    requires
        0 <= col < w,
        0 <= row < h,
    ensures
        0 <= row * w + col < w * h,
        h <= w * h,
        w <= w * h,
{
}

/// In a row-major buffer with 4 channels per pixel, the offsets of a pixel
/// strictly before position `(x2, y2)` (in row-major order) lie strictly
/// before the offset of `(x2, y2)` itself.
pub proof fn lemma_offset_in_prefix(w: int, x: int, y: int, x2: int, y2: int)
    by (nonlinear_arith)
    requires
        0 <= x < w,
        0 <= y,
        0 <= x2 <= w,
        y < y2 || (y == y2 && x < x2),
    ensures
        0 <= 4 * (y * w + x) + 3 < 4 * (y2 * w + x2),
{
}

impl Kernel {
    /// Builds a kernel from a caller-supplied flat row-major array. A
    /// mismatched length or an even dimension is a fatal caller error, so
    /// both are excluded up front.
    pub fn from_vec(data: Vec<i64>, width: usize, height: usize) -> (kernel: Kernel)
        requires
            data@.len() == width * height,
            width % 2 == 1,
            height % 2 == 1,
        ensures
            kernel@.wf(),
            kernel@.data == data@,
            kernel@.width == width,
            kernel@.height == height,
    {
        proof {
            assert(width * height >= 1 * 1) by (nonlinear_arith)
                requires
                    width >= 1,
                    height >= 1,
            ;
        }
        Kernel { data, width, height }
    }

    /// The number of columns of the kernel.
    pub fn width(&self) -> (w: usize)
        ensures
            w == self@.width,
    {
        self.width
    }

    /// The number of rows of the kernel.
    pub fn height(&self) -> (h: usize)
        ensures
            h == self@.height,
    {
        self.height
    }

    /// The weight at center-relative tap `(i, j)`: `i` counts rows from the
    /// center, `j` columns.
    pub fn at(&self, i: i64, j: i64) -> (w: i64)
        requires
            self@.wf(),
            self@.width <= u32::MAX,
            self@.height <= u32::MAX,
            -self@.half_height() <= i <= self@.half_height(),
            -self@.half_width() <= j <= self@.half_width(),
        ensures
            w == self@.at_spec(i as int, j as int),
    {
        let hw = self.width / 2;
        let hh = self.height / 2;
        let n = self.data.len();
        proof {
            lemma_grid_index(
                self.width as int,
                self.height as int,
                j + self@.half_width(),
                i + self@.half_height(),
            );
        }
        let row: usize = (i + hh as i64) as usize;
        let col: usize = (j + hw as i64) as usize;
        self.data[row * self.width + col]
    }
}

/// Convolution response at one pixel and channel, summed over the first
/// `cnt` column offsets of kernel row offset `i`: each tap `(i, j)`
/// contributes `kernel[i, j] * sample(x - i, y - j)` under the border
/// strategy.
pub open spec fn conv_row_partial(
    img: ImgView,
    k: KernelView,
    s: BorderStrategy,
    c: int,
    x: int,
    y: int,
    i: int,
    cnt: nat,
) -> int
    decreases cnt,
{
    if cnt == 0 {
        0
    } else {
        let j = -k.half_width() + cnt - 1;
        conv_row_partial(img, k, s, c, x, y, i, (cnt - 1) as nat) + k.at_spec(i, j)
            * border_sample(img, s, c, x - i, y - j)
    }
}

/// Convolution response at one pixel and channel, summed over the first
/// `rows` whole kernel row offsets.
pub open spec fn conv_partial(
    img: ImgView,
    k: KernelView,
    s: BorderStrategy,
    c: int,
    x: int,
    y: int,
    rows: nat,
) -> int
    decreases rows,
{
    if rows == 0 {
        0
    } else {
        conv_partial(img, k, s, c, x, y, (rows - 1) as nat) + conv_row_partial(
            img,
            k,
            s,
            c,
            x,
            y,
            -k.half_height() + rows - 1,
            (2 * k.half_width() + 1) as nat,
        )
    }
}

/// The full convolution response at pixel `(x, y)`, channel `c`: the sum of
/// `kernel[i, j] * sample(x - i, y - j)` over every center-relative tap
/// `(i, j)`, with out-of-domain samples resolved by the border strategy.
pub open spec fn conv_at(
    img: ImgView,
    k: KernelView,
    s: BorderStrategy,
    c: int,
    x: int,
    y: int,
) -> int {
    conv_partial(img, k, s, c, x, y, (2 * k.half_height() + 1) as nat)
}

/// A row's partial convolution response is bounded by 255 times the row's
/// partial absolute tap sum.
proof fn lemma_conv_row_partial_bound(
    img: ImgView,
    k: KernelView,
    s: BorderStrategy,
    c: int,
    x: int,
    y: int,
    i: int,
    cnt: nat,
)
    ensures
        0 <= k.row_abs_partial(i, cnt),
        -255 * k.row_abs_partial(i, cnt) <= conv_row_partial(img, k, s, c, x, y, i, cnt) <= 255
            * k.row_abs_partial(i, cnt),
    decreases cnt,
{
    if cnt > 0 {
        lemma_conv_row_partial_bound(img, k, s, c, x, y, i, (cnt - 1) as nat);
        let j = -k.half_width() + cnt - 1;
        let kv = k.at_spec(i, j);
        let sv = border_sample(img, s, c, x - i, y - j);
        assert(-255 * abs(kv) <= kv * sv <= 255 * abs(kv)) by (nonlinear_arith)
            requires
                0 <= sv <= 255,
        ;
    }
}

/// A partial convolution response is bounded by 255 times the partial
/// absolute tap sum over the same rows.
proof fn lemma_conv_partial_bound(
    img: ImgView,
    k: KernelView,
    s: BorderStrategy,
    c: int,
    x: int,
    y: int,
    rows: nat,
)
    ensures
        0 <= k.rows_abs_partial(rows),
        -255 * k.rows_abs_partial(rows) <= conv_partial(img, k, s, c, x, y, rows) <= 255
            * k.rows_abs_partial(rows),
    decreases rows,
{
    if rows > 0 {
        lemma_conv_partial_bound(img, k, s, c, x, y, (rows - 1) as nat);
        lemma_conv_row_partial_bound(
            img,
            k,
            s,
            c,
            x,
            y,
            -k.half_height() + rows - 1,
            (2 * k.half_width() + 1) as nat,
        );
    }
}

/// Partial absolute tap sums only grow as more taps are added.
proof fn lemma_row_abs_partial_monotone(k: KernelView, i: int, cnt1: nat, cnt2: nat)
    requires
        cnt1 <= cnt2,
    ensures
        k.row_abs_partial(i, cnt1) <= k.row_abs_partial(i, cnt2),
    decreases cnt2,
{
    if cnt1 < cnt2 {
        lemma_row_abs_partial_monotone(k, i, cnt1, (cnt2 - 1) as nat);
    }
}

/// Partial absolute row sums only grow as more rows are added, and any
/// partial row sum plus a partial sum of the next row stays below the total.
proof fn lemma_abs_partial_le_total(k: KernelView, rows: nat, cnt: nat)
    requires
        rows < 2 * k.half_height() + 1,
        cnt <= 2 * k.half_width() + 1,
    ensures
        0 <= k.rows_abs_partial(rows),
        0 <= k.row_abs_partial(-k.half_height() + rows, cnt),
        k.rows_abs_partial(rows) + k.row_abs_partial(-k.half_height() + rows, cnt)
            <= k.abs_taps(),
    decreases 2 * k.half_height() + 1 - rows,
{
    let i = -k.half_height() + rows;
    let full_cnt = (2 * k.half_width() + 1) as nat;
    let img0 = ImgView { width: 0, height: 0, data: Seq::empty() };
    lemma_conv_partial_bound(img0, k, BorderStrategy::Zero, 0, 0, 0, rows);
    lemma_conv_row_partial_bound(img0, k, BorderStrategy::Zero, 0, 0, 0, i, cnt);
    lemma_conv_row_partial_bound(img0, k, BorderStrategy::Zero, 0, 0, 0, i, full_cnt);
    lemma_row_abs_partial_monotone(k, i, cnt, full_cnt);
    assert(k.rows_abs_partial((rows + 1) as nat) == k.rows_abs_partial(rows)
        + k.row_abs_partial(i, full_cnt));
    if rows + 1 == 2 * k.half_height() + 1 {
        assert(k.abs_taps() == k.rows_abs_partial((rows + 1) as nat));
    } else {
        lemma_abs_partial_le_total(k, rows + 1, 0);
    }
}

/// The full 4-channel convolution response of an image as one flat buffer,
/// laid out like the image data itself: channel `c` of pixel `(x, y)` at
/// offset `4 * (y * width + x) + c`.
pub open spec fn conv_response(img: ImgView, k: KernelView, s: BorderStrategy) -> Seq<i64> {
    Seq::new(
        (4 * img.width * img.height) as nat,
        |idx: int|
            conv_at(img, k, s, idx % 4, (idx / 4) % img.width, (idx / 4) / img.width) as i64,
    )
}

/// A flat offset into a 4-channel row-major buffer decomposes uniquely into
/// a channel, a column and a row.
pub proof fn lemma_response_index_decompose(w: int, h: int, idx: int)
    requires
        1 <= w,
        1 <= h,
        0 <= idx < 4 * w * h,
    ensures
        0 <= idx % 4 < 4,
        0 <= (idx / 4) % w < w,
        0 <= (idx / 4) / w < h,
        idx == 4 * (((idx / 4) / w) * w + ((idx / 4) % w)) + idx % 4,
{
    lemma_fundamental_div_mod(idx, 4);
    lemma_mod_division_less_than_divisor(idx, 4);
    lemma_div_pos_is_pos(idx, 4);
    let p = idx / 4;
    assert(idx < 4 * (w * h)) by (nonlinear_arith)
        requires
            idx < 4 * w * h,
    ;
    lemma_multiply_divide_lt(idx, 4, w * h);
    lemma_fundamental_div_mod(p, w);
    lemma_mod_division_less_than_divisor(p, w);
    lemma_div_pos_is_pos(p, w);
    lemma_multiply_divide_lt(p, w, h);
    assert(w * (p / w) == (p / w) * w) by (nonlinear_arith);
}

/// A buffer that holds the convolution response of every pixel, laid out
/// like the image data, is exactly `conv_response`.
pub proof fn lemma_response_pointwise(
    img: ImgView,
    k: KernelView,
    s: BorderStrategy,
    resp: Seq<i64>,
)
    requires
        img.wf(),
        k.wf(),
        255 * k.abs_taps() <= i64::MAX,
        resp.len() == 4 * img.width * img.height,
        forall|c: int, x: int, y: int|
            0 <= c < 4 && img.in_bounds(x, y) ==> resp[4 * (y * img.width + x) + c] == conv_at(
                img,
                k,
                s,
                c,
                x,
                y,
            ),
    ensures
        resp == conv_response(img, k, s),
{
    let w = img.width;
    let h = img.height;
    if w >= 1 && h >= 1 {
        assert forall|idx: int| 0 <= idx < resp.len() implies resp[idx] == conv_response(
            img,
            k,
            s,
        )[idx] by {
            lemma_response_index_decompose(w, h, idx);
            let c = idx % 4;
            let x = (idx / 4) % w;
            let y = (idx / 4) / w;
            lemma_conv_partial_bound(img, k, s, c, x, y, (2 * k.half_height() + 1) as nat);
            assert(resp[4 * (y * w + x) + c] == conv_at(img, k, s, c, x, y));
        }
        assert(resp =~= conv_response(img, k, s));
    } else {
        assert(4 * w * h == 0) by (nonlinear_arith)
            requires
                0 <= w,
                0 <= h,
                w == 0 || h == 0,
        ;
        assert(resp =~= conv_response(img, k, s));
    }
}

impl CanvasImage {
    /// The convolution response at one pixel and channel.
    fn conv_pixel_channel(
        &self,
        kernel: &Kernel,
        strategy: BorderStrategy,
        c: usize,
        x: u32,
        y: u32,
    ) -> (acc: i64)
        requires
            self@.wf(),
            self@.width >= 1,
            self@.height >= 1,
            kernel@.wf(),
            kernel@.width <= u32::MAX,
            kernel@.height <= u32::MAX,
            255 * kernel@.abs_taps() <= i64::MAX,
            c < 4,
        ensures
            acc == conv_at(self@, kernel@, strategy, c as int, x as int, y as int),
    {
        let ghost img = self@;
        let ghost k = kernel@;
        let hw: i64 = (kernel.width() / 2) as i64;
        let hh: i64 = (kernel.height() / 2) as i64;
        let mut acc: i64 = 0;
        let mut i: i64 = -hh;
        proof {
            lemma_abs_partial_le_total(k, 0, 0);
        }
        while i <= hh
            invariant
            self@ == img,
            kernel@ == k,
            img.wf(),
            img.width >= 1,
            img.height >= 1,
            k.wf(),
            k.width <= u32::MAX,
            k.height <= u32::MAX,
            255 * k.abs_taps() <= i64::MAX,
            c < 4,
            hw == k.half_width(),
            hh == k.half_height(),
            -hh <= i <= hh + 1,
            acc == conv_partial(img, k, strategy, c as int, x as int, y as int, (i + hh) as nat),
            decreases hh + 1 - i,
        {
            let ghost rows: nat = (i + hh) as nat;
            let mut j: i64 = -hw;
            let mut row_acc: i64 = 0;
            proof {
                lemma_conv_partial_bound(img, k, strategy, c as int, x as int, y as int, rows);
                lemma_abs_partial_le_total(k, rows, 0);
            }
            while j <= hw
                invariant
                img.wf(),
                img.width >= 1,
                img.height >= 1,
                k.wf(),
                k.width <= u32::MAX,
                k.height <= u32::MAX,
                255 * k.abs_taps() <= i64::MAX,
                c < 4,
                self@ == img,
                kernel@ == k,
                hw == k.half_width(),
                hh == k.half_height(),
                -hh <= i <= hh,
                rows == i + hh,
                -hw <= j <= hw + 1,
                row_acc == conv_row_partial(
                    img,
                    k,
                    strategy,
                    c as int,
                    x as int,
                    y as int,
                    i as int,
                    (j + hw) as nat,
                ),
                decreases hw + 1 - j,
            {
                let ghost cnt: nat = (j + hw) as nat;
                let kv = kernel.at(i, j);
                let sv = self.sample(strategy, c, x as i64 - i, y as i64 - j);
                proof {
                    lemma_conv_row_partial_bound(
                        img,
                        k,
                        strategy,
                        c as int,
                        x as int,
                        y as int,
                        i as int,
                        cnt,
                    );
                    lemma_abs_partial_le_total(k, rows, cnt + 1);
                    lemma_conv_row_partial_bound(
                        img,
                        k,
                        strategy,
                        c as int,
                        x as int,
                        y as int,
                        i as int,
                        (cnt + 1) as nat,
                    );
                    assert(-255 * abs(kv as int) <= kv * sv <= 255 * abs(kv as int))
                        by (nonlinear_arith)
                        requires
                            0 <= sv <= 255,
                    ;
                }
                row_acc = row_acc + kv * (sv as i64);
                j = j + 1;
            }
            proof {
                lemma_conv_partial_bound(img, k, strategy, c as int, x as int, y as int, rows);
                lemma_conv_row_partial_bound(
                    img,
                    k,
                    strategy,
                    c as int,
                    x as int,
                    y as int,
                    i as int,
                    (2 * k.half_width() + 1) as nat,
                );
                lemma_abs_partial_le_total(k, rows, (2 * k.half_width() + 1) as nat);
            }
            acc = acc + row_acc;
            i = i + 1;
        }
        acc
    }

    /// Applies a 2D kernel to every pixel under the given border strategy
    /// and returns the raw per-channel response accumulators, 4 interleaved
    /// channels per pixel, deliberately not clamped: downstream consumers
    /// decide the clamping or sign-inspection policy.
    pub fn convolve(&self, kernel: &Kernel, border_strategy: BorderStrategy) -> (out: Vec<i64>)
        requires
            self@.wf(),
            kernel@.wf(),
            kernel@.width <= u32::MAX,
            kernel@.height <= u32::MAX,
            255 * kernel@.abs_taps() <= i64::MAX,
        ensures
            out@.len() == 4 * self@.width * self@.height,
            forall|c: int, x: int, y: int|
                0 <= c < 4 && self@.in_bounds(x, y) ==> out@[4 * (y * self@.width + x) + c]
                    == conv_at(self@, kernel@, border_strategy, c, x, y),
    {
        let ghost img = self@;
        let w = self.horizontal_size();
        let h = self.vertical_size();
        let mut out: Vec<i64> = Vec::new();
        if w == 0 || h == 0 {
            proof {
                assert(4 * img.width * img.height == 0) by (nonlinear_arith)
                    requires
                        img.width == 0 || img.height == 0,
                ;
            }
            return out;
        }
        let mut y: u32 = 0;
        while y < h
            invariant
            self@ == img,
            img.wf(),
            1 <= img.width <= u32::MAX,
            1 <= img.height <= u32::MAX,
            kernel@.wf(),
            kernel@.width <= u32::MAX,
            kernel@.height <= u32::MAX,
            255 * kernel@.abs_taps() <= i64::MAX,
            w == img.width,
            h == img.height,
            0 <= y <= h,
            out@.len() == 4 * ((y as int) * img.width),
            forall|c: int, xx: int, yy: int|
                0 <= c < 4 && 0 <= xx < img.width && 0 <= yy < y ==> out@[4 * (yy * img.width
                    + xx) + c] == conv_at(img, kernel@, border_strategy, c, xx, yy),
            decreases h - y,
        {
            let mut x: u32 = 0;
            proof {
                assert(4 * (y as int) * img.width == 4 * ((y as int) * img.width + 0))
                    by (nonlinear_arith);
            }
            while x < w
                invariant
                self@ == img,
                img.wf(),
                1 <= img.width <= u32::MAX,
                1 <= img.height <= u32::MAX,
                kernel@.wf(),
                kernel@.width <= u32::MAX,
                kernel@.height <= u32::MAX,
                255 * kernel@.abs_taps() <= i64::MAX,
                w == img.width,
                h == img.height,
                0 <= y < h,
                0 <= x <= w,
                out@.len() == 4 * ((y as int) * img.width + x as int),
                forall|c: int, xx: int, yy: int|
                    0 <= c < 4 && 0 <= xx < img.width && 0 <= yy < y ==> out@[4 * (yy
                        * img.width + xx) + c] == conv_at(
                        img,
                        kernel@,
                        border_strategy,
                        c,
                        xx,
                        yy,
                    ),
                forall|c: int, xx: int|
                    0 <= c < 4 && 0 <= xx < x ==> out@[4 * ((y as int) * img.width + xx) + c]
                        == conv_at(img, kernel@, border_strategy, c, xx, y as int),
                decreases w - x,
            {
                let r = self.conv_pixel_channel(kernel, border_strategy, 0, x, y);
                let g = self.conv_pixel_channel(kernel, border_strategy, 1, x, y);
                let b = self.conv_pixel_channel(kernel, border_strategy, 2, x, y);
                let a = self.conv_pixel_channel(kernel, border_strategy, 3, x, y);
                let ghost prev = out@;
                out.push(r);
                out.push(g);
                out.push(b);
                out.push(a);
                proof {
                    let wi = img.width;
                    let yi = y as int;
                    let xi = x as int;
                    assert forall|c: int, xx: int, yy: int|
                        0 <= c < 4 && 0 <= xx < wi && 0 <= yy < yi implies out@[4 * (yy * wi
                        + xx) + c] == conv_at(
                        img,
                        kernel@,
                        border_strategy,
                        c,
                        xx,
                        yy,
                    ) by {
                        lemma_offset_in_prefix(wi, xx, yy, xi, yi);
                        assert(out@[4 * (yy * wi + xx) + c] == prev[4 * (yy * wi + xx) + c]);
                    }
                    assert forall|c: int, xx: int| 0 <= c < 4 && 0 <= xx < xi + 1 implies out@[4
                        * (yi * wi + xx) + c] == conv_at(
                        img,
                        kernel@,
                        border_strategy,
                        c,
                        xx,
                        yi,
                    ) by {
                        if xx < xi {
                            lemma_offset_in_prefix(wi, xx, yi, xi, yi);
                            assert(out@[4 * (yi * wi + xx) + c] == prev[4 * (yi * wi + xx) + c]);
                        } else {
                            assert(4 * (yi * wi + xx) + c == prev.len() + c);
                        }
                    }
                }
                x = x + 1;
            }
            proof {
                let wi = img.width;
                let yi = y as int;
                assert(4 * (yi * wi + wi) == 4 * ((yi + 1) * wi)) by (nonlinear_arith);
                assert forall|c: int, xx: int, yy: int|
                    0 <= c < 4 && 0 <= xx < wi && 0 <= yy < yi + 1 implies out@[4 * (yy * wi
                    + xx) + c] == conv_at(img, kernel@, border_strategy, c, xx, yy) by {
                    lemma_offset_in_prefix(wi, xx, yy, wi, yi);
                }
            }
            y = y + 1;
        }
        proof {
            assert(4 * ((h as int) * img.width) == 4 * img.width * img.height)
                by (nonlinear_arith)
                requires
                    h == img.height,
            ;
        }
        out
    }
}

} // verus!
