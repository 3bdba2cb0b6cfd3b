use vstd::prelude::*;
use vstd::arithmetic::div_mod::lemma_multiply_divide_lt;

verus! {

/// Linear interpolation between `x0` and `x1` at the rational offset
/// `t_num / t_den`, rounded half-up to the nearest integer.
pub open spec fn lerp_spec(x0: u8, x1: u8, t_num: int, t_den: int) -> int {
    (2 * (x0 * (t_den - t_num) + x1 * t_num) + t_den) / (2 * t_den)
}

/// The weighted sum in a rational linear interpolation stays within
/// `[0, 255]` scaled by the denominator.
proof fn lemma_lerp_bounds(x0: int, x1: int, tn: int, td: int)
    by (nonlinear_arith)
    requires
        0 < td,
        0 <= tn <= td,
        0 <= x0 <= 255,
        0 <= x1 <= 255,
    ensures
        0 <= x0 * (td - tn) <= 255 * td,
        0 <= x1 * tn <= 255 * td,
        0 <= x0 * (td - tn) + x1 * tn <= 255 * td,
        2 * (x0 * (td - tn) + x1 * tn) + td < (2 * td) * 256,
{
}

/// Linear interpolation between two 8-bit samples at the rational offset
/// `t_num / t_den` in `[0, 1]`, rounded half-up.
pub fn lerp(x0: u8, x1: u8, t_num: u64, t_den: u64) -> (r: u8)
    requires
        0 < t_den,
        t_num <= t_den,
    ensures
        r == lerp_spec(x0, x1, t_num as int, t_den as int),
{
    proof {
        lemma_lerp_bounds(x0 as int, x1 as int, t_num as int, t_den as int);
    }
    let td = t_den as u128;
    let tn = t_num as u128;
    let n: u128 = (x0 as u128) * (td - tn) + (x1 as u128) * tn;
    let r: u128 = (2 * n + td) / (2 * td);
    proof {
        let ni = (x0 as int) * (t_den - t_num) + (x1 as int) * t_num;
        lemma_multiply_divide_lt(2 * ni + t_den, 2 * t_den, 256);
        vstd::arithmetic::div_mod::lemma_div_pos_is_pos(2 * ni + t_den, 2 * t_den);
    }
    r as u8
}

/// Nearest-neighbour choice between two samples at the rational offset
/// `t_num / t_den`: the candidate at the strictly smaller distance wins,
/// and a tie keeps the lower-index sample `x0`.
pub fn nearest_neighbor(x0: u8, x1: u8, t_num: u64, t_den: u64) -> (r: u8)
    requires
        0 < t_den,
        t_num <= t_den,
    ensures
        r == (if 2 * t_num <= t_den {
            x0
        } else {
            x1
        }),
{
    if t_num <= t_den - t_num {
        x0
    } else {
        x1
    }
}

} // verus!
