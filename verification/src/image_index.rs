use vstd::prelude::*;
use vstd::arithmetic::div_mod::{
    lemma_fundamental_div_mod, lemma_fundamental_div_mod_converse_mod,
    lemma_mod_division_less_than_divisor, lemma_mod_multiples_vanish, lemma_small_mod,
};
use crate::canvas_image::{CanvasImage, ImgView};

verus! {

/// Index in `[0, n)` that `x` wraps to under circular (periodic) extension:
/// the mathematical, always non-negative, modulo.
pub open spec fn circular_index_spec(x: int, n: int) -> int {
    x % n
}

/// Index in `[0, n)` that `x` folds to under whole-sample reflection. The
/// index sequence as `x` increases through negative and positive values is
/// `..., 2, 1, 0, 0, 1, 2, ..., n-1, n-1, n-2, ...`: the edge sample is
/// duplicated once at each fold, and the whole pattern has period `2n`.
pub open spec fn reflective_index_spec(x: int, n: int) -> int {
    let m = x % (2 * n);
    if m < n {
        m
    } else {
        2 * n - 1 - m
    }
}

/// Zero-padding extension of a bounds-checked accessor result: the value
/// where the accessor is defined, and 0 outside its domain.
pub fn zero_padded(value: Option<u8>) -> (v: u8)
    ensures
        v == match value {
            Some(w) => w,
            None => 0u8,
        },
{
    match value {
        Some(v) => v,
        None => 0,
    }
}

/// Mathematical modulo of a signed coordinate by a positive period.
fn index_mod(x: i64, n: u64) -> (r: u64)
    requires
        1 <= n,
    ensures
        r == circular_index_spec(x as int, n as int),
        r < n,
{
    proof {
        lemma_mod_division_less_than_divisor(x as int, n as int);
    }
    if x >= 0 {
        (x as u64) % n
    } else {
        // -x - 1 is representable even for the smallest i64
        let y = (-(x + 1)) as u64;
        let k = y % n;
        proof {
            // x == -(y + 1) == (-(y / n) - 1) * n + (n - 1 - k)
            lemma_fundamental_div_mod(y as int, n as int);
            let q0 = (y as int) / (n as int);
            assert(x == (-q0 - 1) * (n as int) + (n - 1 - k)) by (nonlinear_arith)
                requires
                    y == (n as int) * q0 + k,
                    x == -(y as int) - 1,
            ;
            lemma_fundamental_div_mod_converse_mod(x as int, n as int, -q0 - 1, n - 1 - k);
        }
        n - 1 - k
    }
}

/// Index in `[0, n)` reached by circular wraparound of `x` over period `n`.
pub fn circular_index(x: i64, n: u32) -> (r: u32)
    requires
        1 <= n,
    ensures
        r == circular_index_spec(x as int, n as int),
        r < n,
{
    index_mod(x, n as u64) as u32
}

/// Index in `[0, n)` reached by reflecting `x` at the domain edges, with the
/// edge sample duplicated once at each fold.
pub fn reflective_index(x: i64, n: u32) -> (r: u32)
    requires
        1 <= n,
    ensures
        r == reflective_index_spec(x as int, n as int),
        r < n,
{
    let period = 2 * (n as u64);
    let m = index_mod(x, period);
    if m < n as u64 {
        m as u32
    } else {
        (period - 1 - m) as u32
    }
}

/// Value of the image extended to all of Z^2 by zero padding.
pub open spec fn zero_sample(img: ImgView, c: int, x: int, y: int) -> u8 {
    if img.in_bounds(x, y) {
        img.chan(c, x, y)
    } else {
        0u8
    }
}

/// Value of the image extended to all of Z^2 by circular wraparound.
pub open spec fn circular_sample(img: ImgView, c: int, x: int, y: int) -> u8 {
    img.chan(c, circular_index_spec(x, img.width), circular_index_spec(y, img.height))
}

/// Value of the image extended to all of Z^2 by whole-sample reflection.
pub open spec fn reflective_sample(img: ImgView, c: int, x: int, y: int) -> u8 {
    img.chan(c, reflective_index_spec(x, img.width), reflective_index_spec(y, img.height))
}

impl CanvasImage {
    /// One channel of the zero-padded extension of the image.
    pub fn sample_zero(&self, c: usize, x: i64, y: i64) -> (v: u8)
        requires
            self@.wf(),
            c < 4,
        ensures
            v == zero_sample(self@, c as int, x as int, y as int),
    {
        let w = self.horizontal_size();
        let h = self.vertical_size();
        if 0 <= x && x < w as i64 && 0 <= y && y < h as i64 {
            zero_padded(self.channel(c, x as u32, y as u32))
        } else {
            0
        }
    }

    /// One channel of the circularly wrapped extension of the image.
    pub fn sample_circular(&self, c: usize, x: i64, y: i64) -> (v: u8)
        requires
            self@.wf(),
            self@.width >= 1,
            self@.height >= 1,
            c < 4,
        ensures
            v == circular_sample(self@, c as int, x as int, y as int),
    {
        let xi = circular_index(x, self.horizontal_size());
        let yi = circular_index(y, self.vertical_size());
        zero_padded(self.channel(c, xi, yi))
    }

    /// One channel of the reflectively folded extension of the image.
    pub fn sample_reflective(&self, c: usize, x: i64, y: i64) -> (v: u8)
        requires
            self@.wf(),
            self@.width >= 1,
            self@.height >= 1,
            c < 4,
        ensures
            v == reflective_sample(self@, c as int, x as int, y as int),
    {
        let xi = reflective_index(x, self.horizontal_size());
        let yi = reflective_index(y, self.vertical_size());
        zero_padded(self.channel(c, xi, yi))
    }
}

/// An image extended from its finite domain to all of Z^2 by zero padding.
pub trait ZeroPaddedImage {
    /// The view of the underlying finite-domain image.
    spec fn img(&self) -> ImgView;

    fn r(&self, x: i64, y: i64) -> (v: u8)
        requires
            self.img().wf(),
        ensures
            v == zero_sample(self.img(), 0, x as int, y as int),
    ;

    fn g(&self, x: i64, y: i64) -> (v: u8)
        requires
            self.img().wf(),
        ensures
            v == zero_sample(self.img(), 1, x as int, y as int),
    ;

    fn b(&self, x: i64, y: i64) -> (v: u8)
        requires
            self.img().wf(),
        ensures
            v == zero_sample(self.img(), 2, x as int, y as int),
    ;

    fn a(&self, x: i64, y: i64) -> (v: u8)
        requires
            self.img().wf(),
        ensures
            v == zero_sample(self.img(), 3, x as int, y as int),
    ;
}

/// An image extended from its finite domain to all of Z^2 by circular
/// wraparound: coordinates are taken modulo the image size.
pub trait CircularIndexedImage {
    /// The view of the underlying finite-domain image.
    spec fn img(&self) -> ImgView;

    fn r(&self, x: i64, y: i64) -> (v: u8)
        requires
            self.img().wf(),
            self.img().width >= 1,
            self.img().height >= 1,
        ensures
            v == circular_sample(self.img(), 0, x as int, y as int),
    ;

    fn g(&self, x: i64, y: i64) -> (v: u8)
        requires
            self.img().wf(),
            self.img().width >= 1,
            self.img().height >= 1,
        ensures
            v == circular_sample(self.img(), 1, x as int, y as int),
    ;

    fn b(&self, x: i64, y: i64) -> (v: u8)
        requires
            self.img().wf(),
            self.img().width >= 1,
            self.img().height >= 1,
        ensures
            v == circular_sample(self.img(), 2, x as int, y as int),
    ;

    fn a(&self, x: i64, y: i64) -> (v: u8)
        requires
            self.img().wf(),
            self.img().width >= 1,
            self.img().height >= 1,
        ensures
            v == circular_sample(self.img(), 3, x as int, y as int),
    ;
}

/// An image extended from its finite domain to all of Z^2 by whole-sample
/// reflection at the domain edges.
pub trait ReflectiveIndexedImage {
    /// The view of the underlying finite-domain image.
    spec fn img(&self) -> ImgView;

    fn r(&self, x: i64, y: i64) -> (v: u8)
        requires
            self.img().wf(),
            self.img().width >= 1,
            self.img().height >= 1,
        ensures
            v == reflective_sample(self.img(), 0, x as int, y as int),
    ;

    fn g(&self, x: i64, y: i64) -> (v: u8)
        requires
            self.img().wf(),
            self.img().width >= 1,
            self.img().height >= 1,
        ensures
            v == reflective_sample(self.img(), 1, x as int, y as int),
    ;

    fn b(&self, x: i64, y: i64) -> (v: u8)
        requires
            self.img().wf(),
            self.img().width >= 1,
            self.img().height >= 1,
        ensures
            v == reflective_sample(self.img(), 2, x as int, y as int),
    ;

    fn a(&self, x: i64, y: i64) -> (v: u8)
        requires
            self.img().wf(),
            self.img().width >= 1,
            self.img().height >= 1,
        ensures
            v == reflective_sample(self.img(), 3, x as int, y as int),
    ;
}

impl ZeroPaddedImage for CanvasImage {
    open spec fn img(&self) -> ImgView {
        self@
    }

    fn r(&self, x: i64, y: i64) -> (v: u8) {
        self.sample_zero(0, x, y)
    }

    fn g(&self, x: i64, y: i64) -> (v: u8) {
        self.sample_zero(1, x, y)
    }

    fn b(&self, x: i64, y: i64) -> (v: u8) {
        self.sample_zero(2, x, y)
    }

    fn a(&self, x: i64, y: i64) -> (v: u8) {
        self.sample_zero(3, x, y)
    }
}

impl CircularIndexedImage for CanvasImage {
    open spec fn img(&self) -> ImgView {
        self@
    }

    fn r(&self, x: i64, y: i64) -> (v: u8) {
        self.sample_circular(0, x, y)
    }

    fn g(&self, x: i64, y: i64) -> (v: u8) {
        self.sample_circular(1, x, y)
    }

    fn b(&self, x: i64, y: i64) -> (v: u8) {
        self.sample_circular(2, x, y)
    }

    fn a(&self, x: i64, y: i64) -> (v: u8) {
        self.sample_circular(3, x, y)
    }
}

impl ReflectiveIndexedImage for CanvasImage {
    open spec fn img(&self) -> ImgView {
        self@
    }

    fn r(&self, x: i64, y: i64) -> (v: u8) {
        self.sample_reflective(0, x, y)
    }

    fn g(&self, x: i64, y: i64) -> (v: u8) {
        self.sample_reflective(1, x, y)
    }

    fn b(&self, x: i64, y: i64) -> (v: u8) {
        self.sample_reflective(2, x, y)
    }

    fn a(&self, x: i64, y: i64) -> (v: u8) {
        self.sample_reflective(3, x, y)
    }
}

/// Zero-padding boundary law: outside the finite domain, every channel of
/// the zero-padded extension reads 0.
pub proof fn lemma_zero_padding_boundary(img: ImgView, c: int, x: int, y: int)
    requires
        !img.in_bounds(x, y),
    ensures
        zero_sample(img, c, x, y) == 0,
{
}

/// Circular wraparound law: shifting an in-domain coordinate by any whole
/// number of periods in either axis samples the same pixel.
pub proof fn lemma_circular_wraparound(img: ImgView, c: int, x: int, y: int, k: int, l: int)
    requires
        img.wf(),
        img.in_bounds(x, y),
    ensures
        circular_sample(img, c, x + k * img.width, y + l * img.height) == img.chan(c, x, y),
        circular_sample(img, c, x, y) == img.chan(c, x, y),
{
    let w = img.width;
    let h = img.height;
    lemma_mod_multiples_vanish(k, x, w);
    lemma_mod_multiples_vanish(l, y, h);
    lemma_small_mod(x as nat, w as nat);
    lemma_small_mod(y as nat, h as nat);
    assert(x + k * w == w * k + x) by (nonlinear_arith);
    assert(y + l * h == h * l + y) by (nonlinear_arith);
}

/// How the reflective index folds at the domain edges: in-domain coordinates
/// are kept, the first `n` coordinates left of the domain mirror the first
/// `n` in-domain coordinates (edge duplicated), and likewise at the right.
pub proof fn lemma_reflective_index_folds(n: int, k: int)
    requires
        1 <= n,
        0 <= k < n,
    ensures
        reflective_index_spec(k, n) == k,
        reflective_index_spec(-1 - k, n) == k,
        reflective_index_spec(n + k, n) == n - 1 - k,
{
    lemma_small_mod(k as nat, (2 * n) as nat);
    lemma_small_mod((n + k) as nat, (2 * n) as nat);
    // -1 - k == (-1) * (2 * n) + (2 * n - 1 - k) with the remainder in range
    lemma_fundamental_div_mod_converse_mod(-1 - k, 2 * n, -1, 2 * n - 1 - k);
}

/// Reflective symmetry law: sampling `-1 - k` columns mirrors column `k`,
/// sampling `width + k` mirrors column `width - 1 - k`, and the same holds
/// for rows, so the image reflects at each edge with the edge duplicated.
pub proof fn lemma_reflective_symmetry(img: ImgView, c: int, k: int, x: int, y: int)
    requires
        img.wf(),
        img.in_bounds(x, y),
        0 <= k < img.width,
    ensures
        reflective_sample(img, c, -1 - k, y) == img.chan(c, k, y),
        reflective_sample(img, c, img.width + k, y) == img.chan(c, img.width - 1 - k, y),
        reflective_sample(img, c, x, y) == img.chan(c, x, y),
{
    lemma_reflective_index_folds(img.width, k);
    lemma_reflective_index_folds(img.width, x);
    lemma_reflective_index_folds(img.height, y);
}

/// Reflective symmetry law along the vertical axis.
pub proof fn lemma_reflective_symmetry_vertical(img: ImgView, c: int, k: int, x: int)
    requires
        img.wf(),
        0 <= x < img.width,
        0 <= k < img.height,
    ensures
        reflective_sample(img, c, x, -1 - k) == img.chan(c, x, k),
        reflective_sample(img, c, x, img.height + k) == img.chan(c, x, img.height - 1 - k),
{
    lemma_reflective_index_folds(img.width, x);
    lemma_reflective_index_folds(img.height, k);
}

} // verus!
