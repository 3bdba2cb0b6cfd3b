use vstd::prelude::*;
use vstd::arithmetic::div_mod::{
    lemma_div_pos_is_pos, lemma_fundamental_div_mod, lemma_mod_division_less_than_divisor,
    lemma_multiply_divide_le, lemma_multiply_divide_lt,
};
use crate::canvas_image::{CanvasImage, ImgView};

verus! {

/// Number of entries of `s` equal to `v`.
pub open spec fn count_eq(s: Seq<u8>, v: u8) -> nat
    decreases s.len(),
{
    if s.len() == 0 {
        0
    } else {
        count_eq(s.drop_last(), v) + if s.last() == v {
            1nat
        } else {
            0nat
        }
    }
}

/// Number of entries of `s` less than or equal to `v`: the cumulative
/// histogram of `s` read at intensity `v`.
pub open spec fn count_le_val(s: Seq<u8>, v: u8) -> nat
    decreases s.len(),
{
    if s.len() == 0 {
        0
    } else {
        count_le_val(s.drop_last(), v) + if s.last() <= v {
            1nat
        } else {
            0nat
        }
    }
}

/// Sum of the first `n` buckets of `s`.
pub open spec fn partial_sum(s: Seq<u64>, n: nat) -> int
    decreases n,
{
    if n == 0 {
        0
    } else {
        partial_sum(s, (n - 1) as nat) + s[n - 1]
    }
}

/// Sum of every bucket of `s`.
pub open spec fn total_sum(s: Seq<u64>) -> int {
    partial_sum(s, s.len())
}

/// One colour channel of an image as a row-major sequence of intensities.
pub open spec fn channel_seq(img: ImgView, c: int) -> Seq<u8> {
    Seq::new(
        (img.width * img.height) as nat,
        |p: int| img.chan(c, p % img.width, p / img.width),
    )
}

/// A count never exceeds the length of the sequence it counts over.
pub proof fn lemma_count_eq_le_len(s: Seq<u8>, v: u8)
    ensures
        count_eq(s, v) <= s.len(),
    decreases s.len(),
{
    if s.len() > 0 {
        lemma_count_eq_le_len(s.drop_last(), v);
    }
}

/// Appending one entry adds one to exactly the matching counts.
proof fn lemma_count_push(s: Seq<u8>, e: u8, v: u8)
    ensures
        count_eq(s.push(e), v) == count_eq(s, v) + if e == v {
            1int
        } else {
            0int
        },
        count_le_val(s.push(e), v) == count_le_val(s, v) + if e <= v {
            1int
        } else {
            0int
        },
{
    assert(s.push(e).drop_last() =~= s);
}

/// Partial bucket sums grow with the number of buckets taken.
pub proof fn lemma_partial_sum_monotone(s: Seq<u64>, i: nat, j: nat)
    requires
        i <= j,
    ensures
        partial_sum(s, i) <= partial_sum(s, j),
    decreases j,
{
    if i < j {
        lemma_partial_sum_monotone(s, i, (j - 1) as nat);
    }
}

/// Sum of `count_eq` over intensities `0..=v` (and 0 for `v < 0`).
pub open spec fn sum_counts(s: Seq<u8>, v: int) -> nat
    decreases (if v >= 0 {
        v + 1
    } else {
        0
    }),
{
    if v < 0 {
        0
    } else {
        sum_counts(s, v - 1) + count_eq(s, v as u8)
    }
}

/// On the empty sequence every cumulative count is 0.
proof fn lemma_sum_counts_empty(s: Seq<u8>, v: int)
    requires
        s.len() == 0,
    ensures
        sum_counts(s, v) == 0,
    decreases (if v >= 0 {
        v + 1
    } else {
        0
    }),
{
    if v >= 0 {
        lemma_sum_counts_empty(s, v - 1);
    }
}

/// Appending one entry adds one to the cumulative counts from its intensity
/// upward.
proof fn lemma_sum_counts_push(s: Seq<u8>, e: u8, v: int)
    requires
        v <= 255,
    ensures
        sum_counts(s.push(e), v) == sum_counts(s, v) + if 0 <= v && e <= v {
            1int
        } else {
            0int
        },
    decreases (if v >= 0 {
        v + 1
    } else {
        0
    }),
{
    if v >= 0 {
        lemma_sum_counts_push(s, e, v - 1);
        lemma_count_push(s, e, v as u8);
    }
}

/// Summing the per-intensity counts up to `v` counts exactly the entries
/// that are at most `v`: the bucket-wise cumulative histogram agrees with
/// the direct one.
pub proof fn lemma_sum_counts_eq_count_le(s: Seq<u8>, v: u8)
    ensures
        sum_counts(s, v as int) == count_le_val(s, v),
    decreases s.len(),
{
    if s.len() == 0 {
        lemma_sum_counts_empty(s, v as int);
    } else {
        let t = s.drop_last();
        let e = s.last();
        lemma_sum_counts_eq_count_le(t, v);
        lemma_sum_counts_push(t, e, v as int);
        assert(t.push(e) =~= s);
    }
}

/// Histogram law for constant channels: a channel that holds `v` everywhere
/// puts every pixel in bucket `v` and leaves every other bucket empty.
pub proof fn lemma_constant_channel_histogram(s: Seq<u8>, v: u8)
    requires
        forall|i: int| 0 <= i < s.len() ==> s[i] == v,
    ensures
        count_eq(s, v) == s.len(),
        forall|u: u8| u != v ==> count_eq(s, u) == 0,
    decreases s.len(),
{
    if s.len() > 0 {
        lemma_constant_channel_histogram(s.drop_last(), v);
        assert forall|u: u8| u != v implies count_eq(s, u) == 0 by {
            assert(count_eq(s.drop_last(), u) == 0);
        }
    }
}

/// An intensity histogram: one bucket of pixel counts per 8-bit intensity
/// level, 256 buckets in all.
pub struct Histogram {
    buckets: Vec<u64>,
}

impl View for Histogram {
    type V = Seq<u64>;

    closed spec fn view(&self) -> Seq<u64> {
        self.buckets@
    }
}

impl CanvasImage {
    /// Copies one channel out as a row-major vector of intensities.
    pub fn channel_values(&self, c: usize) -> (values: Vec<u8>)
        requires
            self@.wf(),
            c < 4,
        ensures
            values@ == channel_seq(self@, c as int),
    {
        let w = self.horizontal_size();
        let h = self.vertical_size();
        let ghost wi = w as int;
        let ghost hi = h as int;
        let mut values: Vec<u8> = Vec::new();
        let mut y: u32 = 0;
        while y < h
            invariant
            self@.wf(),
            c < 4,
            wi == w,
            hi == h,
            w == self@.width,
            h == self@.height,
            0 <= y <= h,
            values@.len() == (y as int) * wi,
            forall|xx: int, yy: int|
                0 <= xx < wi && 0 <= yy < y ==> values@[yy * wi + xx] == self@.chan(
                    c as int,
                    xx,
                    yy,
                ),
            decreases h - y,
        {
            let mut x: u32 = 0;
            while x < w
                invariant
                self@.wf(),
                c < 4,
                wi == w,
                hi == h,
                w == self@.width,
                h == self@.height,
                0 <= y < h,
                0 <= x <= w,
                values@.len() == (y as int) * wi + x as int,
                forall|xx: int, yy: int|
                    0 <= xx < wi && 0 <= yy < y ==> values@[yy * wi + xx] == self@.chan(
                        c as int,
                        xx,
                        yy,
                    ),
                forall|xx: int|
                    0 <= xx < x ==> values@[(y as int) * wi + xx] == self@.chan(
                        c as int,
                        xx,
                        y as int,
                    ),
                decreases w - x,
            {
                let ghost prev = values@;
                let v = self.channel(c, x, y).unwrap();
                values.push(v);
                proof {
                    let yi = y as int;
                    let xi = x as int;
                    assert forall|xx: int, yy: int|
                        0 <= xx < wi && 0 <= yy < yi implies values@[yy * wi + xx] == self@.chan(
                        c as int,
                        xx,
                        yy,
                    ) by {
                        crate::convolution::lemma_offset_in_prefix(wi, xx, yy, xi, yi);
                        assert(values@[yy * wi + xx] == prev[yy * wi + xx]);
                    }
                    assert forall|xx: int| 0 <= xx < xi + 1 implies values@[yi * wi + xx]
                        == self@.chan(c as int, xx, yi) by {
                        if xx < xi {
                            crate::convolution::lemma_offset_in_prefix(wi, xx, yi, xi, yi);
                            assert(values@[yi * wi + xx] == prev[yi * wi + xx]);
                        } else {
                            assert(yi * wi + xx == prev.len());
                        }
                    }
                }
                x = x + 1;
            }
            proof {
                let yi = y as int;
                assert(yi * wi + wi == (yi + 1) * wi) by (nonlinear_arith);
            }
            y = y + 1;
        }
        proof {
            assert(hi * wi == wi * hi) by (nonlinear_arith);
            assert forall|p: int| 0 <= p < values@.len() implies values@[p] == channel_seq(
                self@,
                c as int,
            )[p] by {
                lemma_mod_division_less_than_divisor(p, wi);
                lemma_div_pos_is_pos(p, wi);
                lemma_multiply_divide_lt(p, wi, hi);
                lemma_fundamental_div_mod(p, wi);
                let xx = p % wi;
                let yy = p / wi;
                assert(wi * yy == yy * wi) by (nonlinear_arith);
                assert(values@[yy * wi + xx] == self@.chan(c as int, xx, yy));
            }
            assert(values@ =~= channel_seq(self@, c as int));
        }
        values
    }

    /// The histogram of the red channel.
    pub fn red_histogram(&self) -> (hist: Histogram)
        requires
            self@.wf(),
        ensures
            hist@.len() == 256,
            forall|v: u8| hist@[v as int] == count_eq(channel_seq(self@, 0), v),
    {
        let values = self.channel_values(0);
        Histogram::from_channel(&values)
    }

    /// The histogram of the green channel.
    pub fn green_histogram(&self) -> (hist: Histogram)
        requires
            self@.wf(),
        ensures
            hist@.len() == 256,
            forall|v: u8| hist@[v as int] == count_eq(channel_seq(self@, 1), v),
    {
        let values = self.channel_values(1);
        Histogram::from_channel(&values)
    }

    /// The histogram of the blue channel.
    pub fn blue_histogram(&self) -> (hist: Histogram)
        requires
            self@.wf(),
        ensures
            hist@.len() == 256,
            forall|v: u8| hist@[v as int] == count_eq(channel_seq(self@, 2), v),
    {
        let values = self.channel_values(2);
        Histogram::from_channel(&values)
    }

    /// The histogram of the alpha channel.
    pub fn alpha_histogram(&self) -> (hist: Histogram)
        requires
            self@.wf(),
        ensures
            hist@.len() == 256,
            forall|v: u8| hist@[v as int] == count_eq(channel_seq(self@, 3), v),
    {
        let values = self.channel_values(3);
        Histogram::from_channel(&values)
    }
}

impl Histogram {
    /// Builds the histogram of a sequence of intensities: bucket `v` counts
    /// the entries equal to `v`.
    pub fn from_channel(values: &Vec<u8>) -> (hist: Histogram)
        ensures
            hist@.len() == 256,
            forall|v: u8| hist@[v as int] == count_eq(values@, v),
    {
        let mut buckets: Vec<u64> = Vec::new();
        let mut k: usize = 0;
        while k < 256
            invariant
            0 <= k <= 256,
            buckets@.len() == k,
            forall|v: int| 0 <= v < k ==> buckets@[v] == 0,
            decreases 256 - k,
        {
            buckets.push(0);
            k = k + 1;
        }
        let n = values.len();
        let mut i: usize = 0;
        proof {
            assert(values@.take(0) =~= Seq::<u8>::empty());
            assert forall|v: u8| count_eq(values@.take(0), v) == 0 by {}
        }
        while i < n
            invariant
            n == values@.len(),
            0 <= i <= n,
            buckets@.len() == 256,
            forall|v: u8| buckets@[v as int] == count_eq(values@.take(i as int), v),
            decreases n - i,
        {
            let ghost prev = buckets@;
            let e = values[i];
            let cur = buckets[e as usize];
            proof {
                lemma_count_eq_le_len(values@.take(i as int), e);
            }
            buckets[e as usize] = cur + 1;
            proof {
                assert(values@.take(i + 1).drop_last() =~= values@.take(i as int));
                assert forall|v: u8| buckets@[v as int] == count_eq(
                    values@.take(i + 1),
                    v,
                ) by {
                    assert(values@.take(i + 1).last() == values@[i as int]);
                    assert(count_eq(values@.take(i + 1), v) == count_eq(
                        values@.take(i as int),
                        v,
                    ) + if values@[i as int] == v {
                        1int
                    } else {
                        0int
                    });
                }
            }
            i = i + 1;
        }
        proof {
            assert(values@.take(n as int) =~= values@);
        }
        Histogram { buckets }
    }

    /// The bucket counts, one per intensity level.
    pub fn bucket(&self) -> (buckets: &Vec<u64>)
        ensures
            buckets@ == self@,
    {
        &self.buckets
    }

    /// Builds a new histogram whose bucket `v` is the sum of buckets
    /// `0..=v`: the cumulative histogram.
    pub fn cumulative(&self) -> (cum: Histogram)
        requires
            self@.len() == 256,
            total_sum(self@) <= u64::MAX,
        ensures
            cum@.len() == 256,
            forall|v: int| 0 <= v < 256 ==> cum@[v] == partial_sum(self@, (v + 1) as nat),
    {
        let mut cum: Vec<u64> = Vec::new();
        let mut sum: u64 = 0;
        let mut v: usize = 0;
        while v < 256
            invariant
            self@.len() == 256,
            total_sum(self@) <= u64::MAX,
            0 <= v <= 256,
            cum@.len() == v,
            sum == partial_sum(self@, v as nat),
            forall|u: int| 0 <= u < v ==> cum@[u] == partial_sum(self@, (u + 1) as nat),
            decreases 256 - v,
        {
            proof {
                lemma_partial_sum_monotone(self@, (v + 1) as nat, 256);
                lemma_partial_sum_monotone(self@, 0, v as nat);
            }
            sum = sum + self.buckets[v];
            cum.push(sum);
            v = v + 1;
        }
        Histogram { buckets: cum }
    }

    /// Normalizes the histogram exactly: the result represents bucket `v`
    /// as the fraction `buckets[v] / denominator`, with the denominator the
    /// total pixel count, so the normalized buckets sum to exactly 1
    /// whenever the histogram is non-empty.
    pub fn normalize(&self) -> (norm: NormalizedHistogram)
        requires
            self@.len() == 256,
            total_sum(self@) <= u64::MAX,
        ensures
            norm@.buckets == self@,
            norm@.denominator == total_sum(self@),
    {
        let mut total: u64 = 0;
        let mut v: usize = 0;
        while v < 256
            invariant
            self@.len() == 256,
            total_sum(self@) <= u64::MAX,
            0 <= v <= 256,
            total == partial_sum(self@, v as nat),
            decreases 256 - v,
        {
            proof {
                lemma_partial_sum_monotone(self@, (v + 1) as nat, 256);
                lemma_partial_sum_monotone(self@, 0, v as nat);
            }
            total = total + self.buckets[v];
            v = v + 1;
        }
        NormalizedHistogram { buckets: self.buckets.clone(), denominator: total }
    }

    /// Builds the exact cumulative normalized histogram: bucket `v`
    /// represents the fraction of pixels with intensity at most `v`, and
    /// the last bucket is exactly 1 whenever the histogram is non-empty.
    pub fn cumulative_normalized(&self) -> (norm: NormalizedHistogram)
        requires
            self@.len() == 256,
            total_sum(self@) <= u64::MAX,
        ensures
            norm@.buckets.len() == 256,
            forall|v: int|
                0 <= v < 256 ==> norm@.buckets[v] == partial_sum(self@, (v + 1) as nat),
            norm@.denominator == total_sum(self@),
            norm@.buckets[255] == norm@.denominator,
    {
        let cum = self.cumulative();
        let last = cum.buckets[255];
        NormalizedHistogram { buckets: cum.buckets, denominator: last }
    }
}

/// Mathematical view of a normalized histogram: bucket `v` represents the
/// exact fraction `buckets[v] / denominator`.
#[verifier::ext_equal]
pub struct NormalizedHistogramView {
    pub buckets: Seq<u64>,
    pub denominator: int,
}

/// A histogram normalized by an exact rational scale: each bucket `v`
/// represents the fraction `buckets[v] / denominator`.
pub struct NormalizedHistogram {
    buckets: Vec<u64>,
    denominator: u64,
}

impl View for NormalizedHistogram {
    type V = NormalizedHistogramView;

    closed spec fn view(&self) -> NormalizedHistogramView {
        NormalizedHistogramView {
            buckets: self.buckets@,
            denominator: self.denominator as int,
        }
    }
}

impl NormalizedHistogram {
    /// The bucket numerators, one per intensity level.
    pub fn bucket(&self) -> (buckets: &Vec<u64>)
        ensures
            buckets@ == self@.buckets,
    {
        &self.buckets
    }

    /// The common denominator of every bucket.
    pub fn denominator(&self) -> (den: u64)
        ensures
            den == self@.denominator,
    {
        self.denominator
    }

    /// Whether the buckets sum to exactly 1: the sum of the numerators
    /// equals the denominator.
    pub fn is_normalized(&self) -> (r: bool)
        ensures
            r == (total_sum(self@.buckets) == self@.denominator),
    {
        let n = self.buckets.len();
        let mut sum: u128 = 0;
        let mut v: usize = 0;
        while v < n
            invariant
            n == self@.buckets.len(),
            0 <= v <= n,
            sum == partial_sum(self@.buckets, v as nat),
            sum <= (v as int) * 0xffff_ffff_ffff_ffffint,
            decreases n - v,
        {
            proof {
                assert((v as int) * 0xffff_ffff_ffff_ffffint + 0xffff_ffff_ffff_ffffint == (
                v as int + 1) * 0xffff_ffff_ffff_ffffint) by (nonlinear_arith);
                assert((v as int + 1) * 0xffff_ffff_ffff_ffffint <= 0xffff_ffff_ffff_ffffint
                    * 0xffff_ffff_ffff_ffffint) by (nonlinear_arith)
                    requires
                        v + 1 <= 0xffff_ffff_ffff_ffffint,
                ;
            }
            sum = sum + self.buckets[v] as u128;
            v = v + 1;
        }
        sum == self.denominator as u128
    }

    /// Whether the histogram reads as cumulative and complete: its last
    /// bucket is exactly 1.
    pub fn is_cumulative(&self) -> (r: bool)
        requires
            self@.buckets.len() == 256,
        ensures
            r == (self@.buckets[255] == self@.denominator),
    {
        self.buckets[255] == self.denominator
    }
}

impl NormalizedHistogram {
    /// The buckets of an `is_normalized` histogram sum to exactly 1; this
    /// holds of every histogram that `normalize` produces.
    pub proof fn lemma_normalize_sums_to_one(h: Seq<u64>, norm: NormalizedHistogramView)
        requires
            norm.buckets == h,
            norm.denominator == total_sum(h),
        ensures
            total_sum(norm.buckets) == norm.denominator,
    {
    }
}


/// A cumulative count never exceeds the length of the sequence.
pub proof fn lemma_count_le_val_le_len(s: Seq<u8>, v: u8)
    ensures
        count_le_val(s, v) <= s.len(),
    decreases s.len(),
{
    if s.len() > 0 {
        lemma_count_le_val_le_len(s.drop_last(), v);
    }
}

/// The equalized value of one colour sample: the fraction of pixels in the
/// channel at or below it, scaled to the 8-bit range (rounded down).
pub open spec fn equalized_chan(img: ImgView, c: int, x: int, y: int) -> int {
    (count_le_val(channel_seq(img, c), img.chan(c, x, y)) as int) * 255 / (img.width * img.height)
}

/// What each channel of the equalized image holds: colour channels are
/// remapped through their own cumulative histogram, alpha is untouched.
pub open spec fn equalized_pixel_chan(img: ImgView, c: int, x: int, y: int) -> int {
    if c == 3 {
        img.chan(3, x, y) as int
    } else {
        equalized_chan(img, c, x, y)
    }
}

/// Tabulates the equalization map of one channel: entry `v` is the
/// cumulative fraction of samples at or below `v`, scaled to `[0, 255]`.
fn equalization_lut(values: &Vec<u8>) -> (lut: Vec<u8>)
    requires
        values@.len() >= 1,
    ensures
        lut@.len() == 256,
        forall|v: u8| lut@[v as int] == (count_le_val(values@, v) as int) * 255 / (values@.len() as int),
{
    let hist = Histogram::from_channel(values);
    let counts = hist.bucket();
    let n = values.len();
    let mut lut: Vec<u8> = Vec::new();
    let mut cum: u128 = 0;
    let mut v: usize = 0;
    while v < 256
        invariant
        hist@.len() == 256,
        forall|u: u8| hist@[u as int] == count_eq(values@, u),
        counts@ == hist@,
        n == values@.len(),
        n >= 1,
        0 <= v <= 256,
        lut@.len() == v,
        cum == sum_counts(values@, v - 1),
        cum <= n,
        forall|u: u8|
            u < v ==> lut@[u as int] == (count_le_val(values@, u) as int) * 255 / (values@.len() as int),
        decreases 256 - v,
    {
        proof {
            lemma_sum_counts_eq_count_le(values@, v as u8);
            lemma_count_le_val_le_len(values@, v as u8);
        }
        cum = cum + counts[v] as u128;
        let val: u128 = cum * 255 / (n as u128);
        proof {
            assert(cum * 255 <= (n as int) * 255) by (nonlinear_arith)
                requires
                    0 <= cum <= n as int,
            ;
            lemma_multiply_divide_le(cum * 255, n as int, 255);
            lemma_div_pos_is_pos(cum * 255, n as int);
        }
        lut.push(val as u8);
        v = v + 1;
    }
    lut
}

impl CanvasImage {
    /// Equalizes the intensity distribution of the image: each colour
    /// channel is remapped through its own exact cumulative histogram,
    /// scaled to the 8-bit range; alpha is left untouched.
    pub fn equalize(&self) -> (out: CanvasImage)
        requires
            self@.wf(),
        ensures
            out@.wf(),
            out@.width == self@.width,
            out@.height == self@.height,
            forall|c: int, x: int, y: int|
                0 <= c < 4 && out@.in_bounds(x, y) ==> out@.chan(c, x, y) as int
                    == equalized_pixel_chan(self@, c, x, y),
    {
        let w = self.horizontal_size();
        let h = self.vertical_size();
        let ghost wi = w as int;
        let ghost hi = h as int;
        if w == 0 || h == 0 {
            let data = self.rgba_slice().clone();
            proof {
                assert(data@ =~= self@.data);
            }
            return CanvasImage::from_vec_with_size(data, w, h);
        }
        let r_values = self.channel_values(0);
        let g_values = self.channel_values(1);
        let b_values = self.channel_values(2);
        proof {
            assert(r_values@.len() == wi * hi);
            assert(wi * hi >= 1) by (nonlinear_arith)
                requires
                    wi >= 1,
                    hi >= 1,
            ;
        }
        let r_lut = equalization_lut(&r_values);
        let g_lut = equalization_lut(&g_values);
        let b_lut = equalization_lut(&b_values);
        let mut data: Vec<u8> = Vec::new();
        let mut y: u32 = 0;
        while y < h
            invariant
            self@.wf(),
            wi == w,
            hi == h,
            w == self@.width,
            h == self@.height,
            w >= 1,
            h >= 1,
            r_lut@.len() == 256,
            g_lut@.len() == 256,
            b_lut@.len() == 256,
            forall|v: u8|
                r_lut@[v as int] == (count_le_val(channel_seq(self@, 0), v) as int) * 255 / (wi * hi),
            forall|v: u8|
                g_lut@[v as int] == (count_le_val(channel_seq(self@, 1), v) as int) * 255 / (wi * hi),
            forall|v: u8|
                b_lut@[v as int] == (count_le_val(channel_seq(self@, 2), v) as int) * 255 / (wi * hi),
            0 <= y <= h,
            data@.len() == 4 * ((y as int) * wi),
            forall|c: int, xx: int, yy: int|
                0 <= c < 4 && 0 <= xx < wi && 0 <= yy < y ==> data@[4 * (yy * wi + xx) + c] as int
                    == equalized_pixel_chan(self@, c, xx, yy),
            decreases h - y,
        {
            let mut x: u32 = 0;
            proof {
                assert(4 * ((y as int) * wi) == 4 * ((y as int) * wi + 0)) by (nonlinear_arith);
            }
            while x < w
                invariant
                self@.wf(),
                wi == w,
                hi == h,
                w == self@.width,
                h == self@.height,
                w >= 1,
                h >= 1,
                r_lut@.len() == 256,
                g_lut@.len() == 256,
                b_lut@.len() == 256,
                forall|v: u8|
                    r_lut@[v as int] == (count_le_val(channel_seq(self@, 0), v) as int) * 255 / (wi * hi),
                forall|v: u8|
                    g_lut@[v as int] == (count_le_val(channel_seq(self@, 1), v) as int) * 255 / (wi * hi),
                forall|v: u8|
                    b_lut@[v as int] == (count_le_val(channel_seq(self@, 2), v) as int) * 255 / (wi * hi),
                0 <= y < h,
                0 <= x <= w,
                data@.len() == 4 * ((y as int) * wi + x as int),
                forall|c: int, xx: int, yy: int|
                    0 <= c < 4 && 0 <= xx < wi && 0 <= yy < y ==> data@[4 * (yy * wi + xx)
                        + c] as int == equalized_pixel_chan(self@, c, xx, yy),
                forall|c: int, xx: int|
                    0 <= c < 4 && 0 <= xx < x ==> data@[4 * ((y as int) * wi + xx) + c] as int
                        == equalized_pixel_chan(self@, c, xx, y as int),
                decreases w - x,
            {
                let ghost prev = data@;
                let (r, g, b, a) = self.rgba(x, y).unwrap();
                data.push(r_lut[r as usize]);
                data.push(g_lut[g as usize]);
                data.push(b_lut[b as usize]);
                data.push(a);
                proof {
                    let yi = y as int;
                    let xi = x as int;
                    assert(equalized_pixel_chan(self@, 0, xi, yi) == r_lut@[r as int]);
                    assert(equalized_pixel_chan(self@, 1, xi, yi) == g_lut@[g as int]);
                    assert(equalized_pixel_chan(self@, 2, xi, yi) == b_lut@[b as int]);
                    assert forall|c: int, xx: int, yy: int|
                        0 <= c < 4 && 0 <= xx < wi && 0 <= yy < yi implies data@[4 * (yy * wi
                        + xx) + c] as int == equalized_pixel_chan(self@, c, xx, yy) by {
                        crate::convolution::lemma_offset_in_prefix(wi, xx, yy, xi, yi);
                        assert(data@[4 * (yy * wi + xx) + c] == prev[4 * (yy * wi + xx) + c]);
                    }
                    assert forall|c: int, xx: int|
                        0 <= c < 4 && 0 <= xx < xi + 1 implies data@[4 * (yi * wi + xx)
                        + c] as int == equalized_pixel_chan(self@, c, xx, yi) by {
                        if xx < xi {
                            crate::convolution::lemma_offset_in_prefix(wi, xx, yi, xi, yi);
                            assert(data@[4 * (yi * wi + xx) + c] == prev[4 * (yi * wi + xx) + c]);
                        } else {
                            assert(4 * (yi * wi + xx) + c == prev.len() + c);
                        }
                    }
                }
                x = x + 1;
            }
            proof {
                let yi = y as int;
                assert(4 * (yi * wi + wi) == 4 * ((yi + 1) * wi)) by (nonlinear_arith);
                assert forall|c: int, xx: int, yy: int|
                    0 <= c < 4 && 0 <= xx < wi && 0 <= yy < yi + 1 implies data@[4 * (yy * wi
                    + xx) + c] as int == equalized_pixel_chan(self@, c, xx, yy) by {
                    crate::convolution::lemma_offset_in_prefix(wi, xx, yy, wi, yi);
                }
            }
            y = y + 1;
        }
        proof {
            assert(4 * ((hi) * wi) == 4 * wi * hi) by (nonlinear_arith);
        }
        CanvasImage::from_vec_with_size(data, w, h)
    }
}

/// Equalizes the intensity distribution of an image: each colour channel is
/// remapped through its own exact cumulative histogram; alpha is untouched.
pub fn equalize(image: &CanvasImage) -> (out: CanvasImage)
    requires
        image@.wf(),
    ensures
        out@.wf(),
        out@.width == image@.width,
        out@.height == image@.height,
        forall|c: int, x: int, y: int|
            0 <= c < 4 && out@.in_bounds(x, y) ==> out@.chan(c, x, y) as int
                == equalized_pixel_chan(image@, c, x, y),
{
    image.equalize()
}

} // verus!

