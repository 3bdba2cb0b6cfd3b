use vstd::prelude::*;
use vstd::math::abs;
use crate::canvas_image::{CanvasImage, ImgView};
use crate::histogram::count_le_val;
use crate::image_index::reflective_sample;

verus! {

/// Which order statistic a rank filter reduces each neighbourhood to.
#[derive(Debug, Clone, Copy, PartialEq, Eq, Hash, PartialOrd, Ord)]
pub enum FilterMode {
    Min,
    Max,
    Median,
}

/// Number of entries of `s` strictly below `v`.
pub open spec fn count_lt_val(s: Seq<u8>, v: u8) -> nat {
    if v == 0 {
        0
    } else {
        count_le_val(s, (v - 1) as u8)
    }
}

/// The first `cnt` reflective samples of the diamond row at horizontal
/// offset `dx`: vertical offsets run from `-(d - |dx|)` upward.
pub open spec fn diamond_row(
    img: ImgView,
    c: int,
    x: int,
    y: int,
    d: int,
    dx: int,
    cnt: nat,
) -> Seq<u8>
    decreases cnt,
{
    if cnt == 0 {
        Seq::empty()
    } else {
        diamond_row(img, c, x, y, d, dx, (cnt - 1) as nat).push(
            reflective_sample(img, c, x + dx, y - (d - abs(dx)) + cnt - 1),
        )
    }
}

/// The concatenation of the first `rows` diamond rows, at horizontal
/// offsets `-d, -d + 1, ...`; each row holds its full `2 (d - |dx|) + 1`
/// samples.
pub open spec fn diamond_rows(img: ImgView, c: int, x: int, y: int, d: int, rows: nat) -> Seq<u8>
    decreases rows,
{
    if rows == 0 {
        Seq::empty()
    } else {
        diamond_rows(img, c, x, y, d, (rows - 1) as nat) + diamond_row(
            img,
            c,
            x,
            y,
            d,
            -d + rows - 1,
            (2 * (d - abs(-d + rows - 1)) + 1) as nat,
        )
    }
}

/// Every reflective sample of channel `c` within Manhattan distance `d` of
/// `(x, y)`, in row-major order over the diamond.
pub open spec fn diamond_seq(img: ImgView, c: int, x: int, y: int, d: int) -> Seq<u8> {
    diamond_rows(img, c, x, y, d, (2 * d + 1) as nat)
}

/// Diamond prefixes only grow as rows are added.
proof fn lemma_diamond_rows_len_monotone(
    img: ImgView,
    c: int,
    x: int,
    y: int,
    d: int,
    r1: nat,
    r2: nat,
)
    requires
        r1 <= r2,
    ensures
        diamond_rows(img, c, x, y, d, r1).len() <= diamond_rows(img, c, x, y, d, r2).len(),
    decreases r2,
{
    if r1 < r2 {
        lemma_diamond_rows_len_monotone(img, c, x, y, d, r1, (r2 - 1) as nat);
    }
}

/// A diamond always holds at least its centre sample.
proof fn lemma_diamond_nonempty(img: ImgView, c: int, x: int, y: int, d: int)
    requires
        0 <= d,
    ensures
        diamond_seq(img, c, x, y, d).len() >= 1,
{
    let row0 = diamond_row(img, c, x, y, d, 0, (2 * d + 1) as nat);
    assert(row0.len() >= 1) by {
        assert(abs(0) == 0);
    }
    assert(diamond_rows(img, c, x, y, d, (d + 1) as nat) == diamond_rows(
        img,
        c,
        x,
        y,
        d,
        d as nat,
    ) + diamond_row(img, c, x, y, d, 0, (2 * (d - abs(-d + (d + 1) - 1)) + 1) as nat));
    assert(abs(-d + (d + 1) - 1) == 0);
    lemma_diamond_rows_len_monotone(img, c, x, y, d, (d + 1) as nat, (2 * d + 1) as nat);
}

/// What it means for `v` to be the requested order statistic of the
/// neighbourhood `s`: its least element, its greatest, or the element whose
/// rank brackets the middle position (the sorted element at index
/// `len / 2`).
pub open spec fn is_rank_value(s: Seq<u8>, mode: FilterMode, v: u8) -> bool {
    match mode {
        FilterMode::Min => s.contains(v) && forall|i: int| 0 <= i < s.len() ==> v <= s[i],
        FilterMode::Max => s.contains(v) && forall|i: int| 0 <= i < s.len() ==> s[i] <= v,
        FilterMode::Median => count_lt_val(s, v) <= s.len() as int / 2 && count_le_val(s, v)
            > s.len() as int / 2,
    }
}

/// Gathers every reflective sample of channel `c` within Manhattan distance
/// `d` of `(x, y)`.
fn diamond_values(image: &CanvasImage, c: usize, x: u32, y: u32, d: u32) -> (vals: Vec<u8>)
    requires
        image@.wf(),
        image@.width >= 1,
        image@.height >= 1,
        c < 4,
    ensures
        vals@ == diamond_seq(image@, c as int, x as int, y as int, d as int),
        vals@.len() >= 1,
{
    let ghost img = image@;
    let ghost di = d as int;
    let mut vals: Vec<u8> = Vec::new();
    let mut dx: i64 = -(d as i64);
    while dx <= d as i64
        invariant
        img == image@,
        img.wf(),
        img.width >= 1,
        img.height >= 1,
        c < 4,
        di == d,
        -di <= dx <= di + 1,
        vals@ == diamond_rows(img, c as int, x as int, y as int, di, (dx + di) as nat),
        decreases di + 1 - dx,
    {
        let adx: i64 = if dx < 0 {
            -dx
        } else {
            dx
        };
        let reach: i64 = d as i64 - adx;
        let count: i64 = 2 * reach + 1;
        let ghost rows: nat = (dx + di) as nat;
        let mut k: i64 = 0;
        while k < count
            invariant
            img == image@,
            img.wf(),
            img.width >= 1,
            img.height >= 1,
            c < 4,
            di == d,
            -di <= dx <= di,
            adx == abs(dx as int),
            reach == di - adx,
            count == 2 * reach + 1,
            rows == dx + di,
            0 <= k <= count,
            vals@ == diamond_rows(img, c as int, x as int, y as int, di, rows) + diamond_row(
                img,
                c as int,
                x as int,
                y as int,
                di,
                dx as int,
                k as nat,
            ),
            decreases count - k,
        {
            let dy: i64 = k - reach;
            let v = image.sample_reflective(c, x as i64 + dx, y as i64 + dy);
            vals.push(v);
            k = k + 1;
        }
        proof {
            assert(diamond_rows(img, c as int, x as int, y as int, di, (rows + 1) as nat)
                == diamond_rows(img, c as int, x as int, y as int, di, rows) + diamond_row(
                img,
                c as int,
                x as int,
                y as int,
                di,
                dx as int,
                (2 * (di - abs(dx as int)) + 1) as nat,
            ));
        }
        dx = dx + 1;
    }
    proof {
        lemma_diamond_nonempty(img, c as int, x as int, y as int, di);
    }
    vals
}

/// The least entry of a non-empty sequence of samples.
fn min_u8(vals: &Vec<u8>) -> (m: u8)
    requires
        vals@.len() >= 1,
    ensures
        is_rank_value(vals@, FilterMode::Min, m),
{
    let n = vals.len();
    let mut m = vals[0];
    let mut i: usize = 1;
    while i < n
        invariant
        n == vals@.len(),
        1 <= i <= n,
        vals@.contains(m),
        forall|j: int| 0 <= j < i ==> m <= vals@[j],
        decreases n - i,
    {
        if vals[i] < m {
            m = vals[i];
            proof {
                assert(vals@[i as int] == m);
            }
        }
        i = i + 1;
    }
    m
}

/// The greatest entry of a non-empty sequence of samples.
fn max_u8(vals: &Vec<u8>) -> (m: u8)
    requires
        vals@.len() >= 1,
    ensures
        is_rank_value(vals@, FilterMode::Max, m),
{
    let n = vals.len();
    let mut m = vals[0];
    let mut i: usize = 1;
    while i < n
        invariant
        n == vals@.len(),
        1 <= i <= n,
        vals@.contains(m),
        forall|j: int| 0 <= j < i ==> vals@[j] <= m,
        decreases n - i,
    {
        if vals[i] > m {
            m = vals[i];
            proof {
                assert(vals@[i as int] == m);
            }
        }
        i = i + 1;
    }
    m
}

/// Number of entries of `vals` at or below `v`.
fn count_le_exec(vals: &Vec<u8>, v: u8) -> (cnt: usize)
    ensures
        cnt == count_le_val(vals@, v),
{
    let n = vals.len();
    let mut cnt: usize = 0;
    let mut i: usize = 0;
    proof {
        assert(vals@.take(0) =~= Seq::<u8>::empty());
    }
    while i < n
        invariant
        n == vals@.len(),
        0 <= i <= n,
        cnt <= i,
        cnt == count_le_val(vals@.take(i as int), v),
        decreases n - i,
    {
        let ghost prefix = vals@.take(i as int);
        proof {
            assert(vals@.take(i + 1).drop_last() =~= prefix);
            assert(vals@.take(i + 1).last() == vals@[i as int]);
        }
        if vals[i] <= v {
            cnt = cnt + 1;
        }
        i = i + 1;
    }
    proof {
        assert(vals@.take(n as int) =~= vals@);
    }
    cnt
}

/// Every 8-bit sample is at most 255, so the cumulative count at 255 is the
/// whole sequence.
proof fn lemma_count_le_255(s: Seq<u8>)
    ensures
        count_le_val(s, 255) == s.len(),
    decreases s.len(),
{
    if s.len() > 0 {
        lemma_count_le_255(s.drop_last());
    }
}

/// The middle-ranked entry of a non-empty sequence of samples: the smallest
/// value whose cumulative count passes the middle position.
fn median_u8(vals: &Vec<u8>) -> (m: u8)
    requires
        vals@.len() >= 1,
    ensures
        is_rank_value(vals@, FilterMode::Median, m),
{
    let n = vals.len();
    let target = n / 2;
    let mut v: usize = 0;
    while v < 255
        invariant
        n == vals@.len(),
        1 <= n,
        target == n as int / 2,
        0 <= v <= 255,
        forall|u: u8| u < v ==> count_le_val(vals@, u) <= target,
        decreases 255 - v,
    {
        let cnt = count_le_exec(vals, v as u8);
        if cnt > target {
            return v as u8;
        }
        v = v + 1;
    }
    proof {
        lemma_count_le_255(vals@);
    }
    255
}

impl CanvasImage {
    /// Applies a rank filter: every colour channel of every pixel is
    /// replaced by the requested order statistic (minimum, maximum or
    /// median) of its reflective diamond neighbourhood of Manhattan radius
    /// `distance`; alpha is passed through from the source pixel.
    pub fn filter(&self, filter: FilterMode, distance: u32) -> (out: CanvasImage)
        requires
            self@.wf(),
            self@.width >= 1,
            self@.height >= 1,
        ensures
            out@.wf(),
            out@.width == self@.width,
            out@.height == self@.height,
            forall|c: int, x: int, y: int|
                0 <= c < 3 && out@.in_bounds(x, y) ==> is_rank_value(
                    diamond_seq(self@, c, x, y, distance as int),
                    filter,
                    out@.chan(c, x, y),
                ),
            forall|x: int, y: int|
                out@.in_bounds(x, y) ==> out@.chan(3, x, y) == self@.chan(3, x, y),
    {
        let w = self.horizontal_size();
        let h = self.vertical_size();
        let ghost wi = w as int;
        let ghost hi = h as int;
        let ghost img = self@;
        let mut data: Vec<u8> = Vec::new();
        let mut y: u32 = 0;
        while y < h
            invariant
            img == self@,
            img.wf(),
            img.width >= 1,
            img.height >= 1,
            wi == w,
            hi == h,
            w == img.width,
            h == img.height,
            0 <= y <= h,
            data@.len() == 4 * ((y as int) * wi),
            forall|c: int, xx: int, yy: int|
                0 <= c < 3 && 0 <= xx < wi && 0 <= yy < y ==> is_rank_value(
                    diamond_seq(img, c, xx, yy, distance as int),
                    filter,
                    data@[4 * (yy * wi + xx) + c],
                ),
            forall|xx: int, yy: int|
                0 <= xx < wi && 0 <= yy < y ==> data@[4 * (yy * wi + xx) + 3] == img.chan(
                    3,
                    xx,
                    yy,
                ),
            decreases h - y,
        {
            let mut x: u32 = 0;
            proof {
                assert(4 * ((y as int) * wi) == 4 * ((y as int) * wi + 0)) by (nonlinear_arith);
            }
            while x < w
                invariant
                img == self@,
                img.wf(),
                img.width >= 1,
                img.height >= 1,
                wi == w,
                hi == h,
                w == img.width,
                h == img.height,
                0 <= y < h,
                0 <= x <= w,
                data@.len() == 4 * ((y as int) * wi + x as int),
                forall|c: int, xx: int, yy: int|
                    0 <= c < 3 && 0 <= xx < wi && 0 <= yy < y ==> is_rank_value(
                        diamond_seq(img, c, xx, yy, distance as int),
                        filter,
                        data@[4 * (yy * wi + xx) + c],
                    ),
                forall|xx: int, yy: int|
                    0 <= xx < wi && 0 <= yy < y ==> data@[4 * (yy * wi + xx) + 3] == img.chan(
                        3,
                        xx,
                        yy,
                    ),
                forall|c: int, xx: int|
                    0 <= c < 3 && 0 <= xx < x ==> is_rank_value(
                        diamond_seq(img, c, xx, y as int, distance as int),
                        filter,
                        data@[4 * ((y as int) * wi + xx) + c],
                    ),
                forall|xx: int|
                    0 <= xx < x ==> data@[4 * ((y as int) * wi + xx) + 3] == img.chan(
                        3,
                        xx,
                        y as int,
                    ),
                decreases w - x,
            {
                let ghost prev = data@;
                let mut c: usize = 0;
                while c < 3
                    invariant
                    img == self@,
                    img.wf(),
                    img.width >= 1,
                    img.height >= 1,
                    0 <= y < h,
                    0 <= x < w,
                    w == img.width,
                    h == img.height,
                    wi == w,
                    0 <= c <= 3,
                    data@.len() == prev.len() + c,
                    prev.len() == 4 * ((y as int) * wi + x as int),
                    forall|i: int| 0 <= i < prev.len() ==> data@[i] == prev[i],
                    forall|cc: int|
                        0 <= cc < c ==> is_rank_value(
                            diamond_seq(img, cc, x as int, y as int, distance as int),
                            filter,
                            #[trigger] data@[prev.len() + cc],
                        ),
                    decreases 3 - c,
                {
                    let vals = diamond_values(self, c, x, y, distance);
                    let v = match filter {
                        FilterMode::Min => min_u8(&vals),
                        FilterMode::Max => max_u8(&vals),
                        FilterMode::Median => median_u8(&vals),
                    };
                    data.push(v);
                    c = c + 1;
                }
                let a = self.channel(3, x, y).unwrap();
                data.push(a);
                proof {
                    let yi = y as int;
                    let xi = x as int;
                    assert forall|c: int, xx: int, yy: int|
                        0 <= c < 3 && 0 <= xx < wi && 0 <= yy < yi implies is_rank_value(
                        diamond_seq(img, c, xx, yy, distance as int),
                        filter,
                        data@[4 * (yy * wi + xx) + c],
                    ) by {
                        crate::convolution::lemma_offset_in_prefix(wi, xx, yy, xi, yi);
                        assert(data@[4 * (yy * wi + xx) + c] == prev[4 * (yy * wi + xx) + c]);
                    }
                    assert forall|xx: int, yy: int|
                        0 <= xx < wi && 0 <= yy < yi implies data@[4 * (yy * wi + xx) + 3]
                        == img.chan(3, xx, yy) by {
                        crate::convolution::lemma_offset_in_prefix(wi, xx, yy, xi, yi);
                        assert(data@[4 * (yy * wi + xx) + 3] == prev[4 * (yy * wi + xx) + 3]);
                    }
                    assert forall|c: int, xx: int|
                        0 <= c < 3 && 0 <= xx < xi + 1 implies is_rank_value(
                        diamond_seq(img, c, xx, yi, distance as int),
                        filter,
                        data@[4 * (yi * wi + xx) + c],
                    ) by {
                        if xx < xi {
                            crate::convolution::lemma_offset_in_prefix(wi, xx, yi, xi, yi);
                            assert(data@[4 * (yi * wi + xx) + c] == prev[4 * (yi * wi + xx) + c]);
                        } else {
                            assert(4 * (yi * wi + xx) + c == prev.len() + c);
                        }
                    }
                    assert forall|xx: int| 0 <= xx < xi + 1 implies data@[4 * (yi * wi + xx) + 3]
                        == img.chan(3, xx, yi) by {
                        if xx < xi {
                            crate::convolution::lemma_offset_in_prefix(wi, xx, yi, xi, yi);
                            assert(data@[4 * (yi * wi + xx) + 3] == prev[4 * (yi * wi + xx) + 3]);
                        } else {
                            assert(4 * (yi * wi + xx) + 3 == prev.len() + 3);
                        }
                    }
                }
                x = x + 1;
            }
            proof {
                let yi = y as int;
                assert(4 * (yi * wi + wi) == 4 * ((yi + 1) * wi)) by (nonlinear_arith);
                assert forall|c: int, xx: int, yy: int|
                    0 <= c < 3 && 0 <= xx < wi && 0 <= yy < yi + 1 implies is_rank_value(
                    diamond_seq(img, c, xx, yy, distance as int),
                    filter,
                    data@[4 * (yy * wi + xx) + c],
                ) by {
                    crate::convolution::lemma_offset_in_prefix(wi, xx, yy, wi, yi);
                }
                assert forall|xx: int, yy: int|
                    0 <= xx < wi && 0 <= yy < yi + 1 implies data@[4 * (yy * wi + xx) + 3]
                    == img.chan(3, xx, yy) by {
                    crate::convolution::lemma_offset_in_prefix(wi, xx, yy, wi, yi);
                }
            }
            y = y + 1;
        }
        proof {
            assert(4 * ((hi) * wi) == 4 * wi * hi) by (nonlinear_arith);
        }
        CanvasImage::from_vec_with_size(data, w, h)
    }
}

/// Applies a rank filter to an image: every colour channel is replaced by
/// the requested order statistic of its reflective diamond neighbourhood.
pub fn filter(image: &CanvasImage, distance: u32, mode: FilterMode) -> (out: CanvasImage)
    requires
        image@.wf(),
        image@.width >= 1,
        image@.height >= 1,
    ensures
        out@.wf(),
        out@.width == image@.width,
        out@.height == image@.height,
        forall|c: int, x: int, y: int|
            0 <= c < 3 && out@.in_bounds(x, y) ==> is_rank_value(
                diamond_seq(image@, c, x, y, distance as int),
                mode,
                out@.chan(c, x, y),
            ),
        forall|x: int, y: int|
            out@.in_bounds(x, y) ==> out@.chan(3, x, y) == image@.chan(3, x, y),
{
    image.filter(mode, distance)
}

} // verus!
