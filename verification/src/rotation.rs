use vstd::prelude::*;
use vstd::math::abs;
use vstd::arithmetic::div_mod::{lemma_div_is_ordered, lemma_div_multiples_vanish};
use crate::affine::{
    corner_max_x, corner_max_y, corner_min_x, corner_min_y, lemma_ceil_div_bounds,
    lemma_transform_corners_in_canvas, map_x_num, map_y_num, new_size_after_transformation,
    transform_image, trans_new_height, trans_new_width, trans_pixel_chan, TransformMatrix,
};
use crate::canvas_image::CanvasImage;

verus! {

/// A rotation angle, given exactly by rational approximations of its sine
/// and cosine over a common positive denominator. Rounding the two
/// magnitudes outward (towards 1) keeps the squared length at least 1,
/// which is what the round-trip size law relies on.
#[derive(Clone, Copy, Debug)]
pub struct Angle {
    pub sin_num: i64,
    pub cos_num: i64,
    pub den: i64,
}

impl Angle {
    /// A well-formed angle: both coordinates within the denominator and a
    /// squared length of at least 1.
    pub open spec fn wf(self) -> bool {
        &&& 1 <= self.den <= 0x1_0000_0000
        &&& -self.den <= self.sin_num <= self.den
        &&& -self.den <= self.cos_num <= self.den
        &&& self.den * self.den <= self.sin_num * self.sin_num + self.cos_num * self.cos_num
    }

    /// The opposite angle: same cosine, negated sine.
    pub open spec fn negated_spec(self) -> Angle {
        Angle { sin_num: (-self.sin_num) as i64, cos_num: self.cos_num, den: self.den }
    }

    /// Negates the angle, turning a rotation into its inverse.
    pub fn negated(&self) -> (a: Angle)
        requires
            self.wf(),
        ensures
            a == self.negated_spec(),
            a.wf(),
    {
        proof {
            assert((-self.sin_num) * (-self.sin_num) == self.sin_num * self.sin_num)
                by (nonlinear_arith);
        }
        Angle { sin_num: -self.sin_num, cos_num: self.cos_num, den: self.den }
    }
}

/// The rotation matrix of an angle: a point `(x, y)` maps to
/// `(x cos + y sin, -x sin + y cos)`, all over the common denominator.
pub open spec fn rotation_matrix(a: Angle) -> TransformMatrix {
    TransformMatrix {
        m11: a.cos_num,
        m12: a.sin_num,
        m21: (-a.sin_num) as i64,
        m22: a.cos_num,
        den: a.den,
    }
}

/// The pixel width of the canvas a rotation by `a` needs for a geometric
/// `gw` by `gh` source.
pub open spec fn rot_new_width(a: Angle, gw: int, gh: int) -> int {
    trans_new_width(rotation_matrix(a), gw, gh)
}

/// The pixel height of the canvas a rotation by `a` needs.
pub open spec fn rot_new_height(a: Angle, gw: int, gh: int) -> int {
    trans_new_height(rotation_matrix(a), gw, gh)
}

/// Computes the canvas size that fully contains a geometric `gw` by `gh`
/// rectangle rotated by `angle`.
pub fn width_height_after_rotation(angle: &Angle, gw: u32, gh: u32) -> (size: (u32, u32))
    requires
        angle.wf(),
        rot_new_width(*angle, gw as int, gh as int) <= u32::MAX,
        rot_new_height(*angle, gw as int, gh as int) <= u32::MAX,
    ensures
        size.0 == rot_new_width(*angle, gw as int, gh as int),
        size.1 == rot_new_height(*angle, gw as int, gh as int),
{
    let m = TransformMatrix {
        m11: angle.cos_num,
        m12: angle.sin_num,
        m21: -angle.sin_num,
        m22: angle.cos_num,
        den: angle.den,
    };
    proof {
        assert(m == rotation_matrix(*angle));
    }
    new_size_after_transformation(&m, gw, gh)
}

/// Rotates the image by `angle`, enlarging the canvas so that the rotated
/// source fits; every output pixel copies the source pixel its centre maps
/// back to under the rotation, or the transparent sentinel when that point
/// lies outside the source.
pub fn rotate_rad(image: &CanvasImage, angle: &Angle) -> (out: CanvasImage)
    requires
        image@.wf(),
        image@.width >= 1,
        image@.height >= 1,
        angle.wf(),
        rot_new_width(*angle, image@.width - 1, image@.height - 1) <= u32::MAX,
        rot_new_height(*angle, image@.width - 1, image@.height - 1) <= u32::MAX,
    ensures
        out@.wf(),
        out@.width == rot_new_width(*angle, image@.width - 1, image@.height - 1),
        out@.height == rot_new_height(*angle, image@.width - 1, image@.height - 1),
        forall|c: int, x: int, y: int|
            0 <= c < 4 && out@.in_bounds(x, y) ==> out@.chan(c, x, y) == trans_pixel_chan(
                image@,
                rotation_matrix(*angle),
                c,
                x,
                y,
            ),
{
    let m = TransformMatrix {
        m11: angle.cos_num,
        m12: angle.sin_num,
        m21: -angle.sin_num,
        m22: angle.cos_num,
        den: angle.den,
    };
    proof {
        assert(m == rotation_matrix(*angle));
    }
    transform_image(image, &m)
}

/// Rotation canvas law: every rotated source corner, re-based against the
/// smallest rotated corner coordinate, lands strictly inside the computed
/// output canvas.
pub proof fn lemma_rotation_canvas_contains_corners(a: Angle, gw: int, gh: int, px: int, py: int)
    requires
        a.wf(),
        0 <= gw,
        0 <= gh,
        px == 0 || px == gw,
        py == 0 || py == gh,
    ensures
        0 <= map_x_num(rotation_matrix(a), px, py) - corner_min_x(rotation_matrix(a), gw, gh),
        map_x_num(rotation_matrix(a), px, py) - corner_min_x(rotation_matrix(a), gw, gh) < a.den
            * rot_new_width(a, gw, gh),
        0 <= map_y_num(rotation_matrix(a), px, py) - corner_min_y(rotation_matrix(a), gw, gh),
        map_y_num(rotation_matrix(a), px, py) - corner_min_y(rotation_matrix(a), gw, gh) < a.den
            * rot_new_height(a, gw, gh),
{
    lemma_transform_corners_in_canvas(rotation_matrix(a), gw, gh, px, py);
}

/// A non-negative factor keeps the sign of what it multiplies.
proof fn lemma_sign_product(g: int, v: int)
    by (nonlinear_arith)
    requires
        0 <= g,
    ensures
        v >= 0 ==> 0 <= g * v,
        v < 0 ==> g * v <= 0,
{
}

/// The corner span of a rotation has the closed form
/// `gw * |cos| + gh * |sin|` horizontally and `gw * |sin| + gh * |cos|`
/// vertically.
proof fn lemma_rotation_span(a: Angle, gw: int, gh: int)
    requires
        a.wf(),
        0 <= gw,
        0 <= gh,
    ensures
        corner_max_x(rotation_matrix(a), gw, gh) - corner_min_x(rotation_matrix(a), gw, gh) == gw
            * abs(a.cos_num as int) + gh * abs(a.sin_num as int),
        corner_max_y(rotation_matrix(a), gw, gh) - corner_min_y(rotation_matrix(a), gw, gh) == gw
            * abs(a.sin_num as int) + gh * abs(a.cos_num as int),
{
    let m = rotation_matrix(a);
    let c = a.cos_num as int;
    let s = a.sin_num as int;
    lemma_sign_product(gw, c);
    lemma_sign_product(gh, c);
    lemma_sign_product(gw, s);
    lemma_sign_product(gh, s);
    lemma_sign_product(gw, -s);
    assert(gw * (-s) == -(gw * s)) by (nonlinear_arith);
    assert(gw * (-c) == -(gw * c)) by (nonlinear_arith);
    assert(gh * (-c) == -(gh * c)) by (nonlinear_arith);
    assert(gw * (-s) == -(gw * s)) by (nonlinear_arith);
    assert(gh * (-s) == -(gh * s)) by (nonlinear_arith);
    if c >= 0 {
        assert(abs(c) == c);
    } else {
        assert(abs(c) == -c);
    }
    if s >= 0 {
        assert(abs(s) == s);
    } else {
        assert(abs(s) == -s);
    }
}

/// The central inequality of the round-trip size law: once a canvas covers
/// the rotated spans, rotating it back covers the original span.
#[verifier::rlimit(100)]
proof fn lemma_round_trip_core(gw: int, gh: int, gw1: int, gh1: int, ac: int, sa: int, d: int)
    requires
        0 <= gw,
        0 <= gh,
        0 <= ac,
        0 <= sa,
        1 <= d,
        d * d <= ac * ac + sa * sa,
        d * gw1 >= gw * ac + gh * sa,
        d * gh1 >= gw * sa + gh * ac,
    ensures
        gw1 * ac + gh1 * sa >= gw * d,
{
    assert((d * gw1) * ac >= (gw * ac + gh * sa) * ac) by (nonlinear_arith)
        requires
            0 <= ac,
            d * gw1 >= gw * ac + gh * sa,
    ;
    assert((d * gh1) * sa >= (gw * sa + gh * ac) * sa) by (nonlinear_arith)
        requires
            0 <= sa,
            d * gh1 >= gw * sa + gh * ac,
    ;
    assert((gw * ac + gh * sa) * ac + (gw * sa + gh * ac) * sa == gw * (ac * ac + sa * sa) + (2
        * gh) * (ac * sa)) by (nonlinear_arith);
    assert(gw * (ac * ac + sa * sa) >= gw * (d * d)) by (nonlinear_arith)
        requires
            0 <= gw,
            d * d <= ac * ac + sa * sa,
    ;
    assert(0 <= (2 * gh) * (ac * sa)) by (nonlinear_arith)
        requires
            0 <= gh,
            0 <= ac,
            0 <= sa,
    ;
    assert((d * gw1) * ac + (d * gh1) * sa == d * (gw1 * ac + gh1 * sa)) by (nonlinear_arith);
    assert(d * (gw1 * ac + gh1 * sa) >= gw * (d * d));
    assert(gw * (d * d) == d * (gw * d)) by (nonlinear_arith);
    assert(gw1 * ac + gh1 * sa >= gw * d) by (nonlinear_arith)
        requires
            1 <= d,
            d * (gw1 * ac + gh1 * sa) >= d * (gw * d),
    ;
}

/// Round-trip size law: rotating by an angle and then by its opposite never
/// shrinks the canvas below the original pixel size, for any well-formed
/// angle whose sine and cosine are rounded outward.
pub proof fn lemma_rotation_round_trip_no_shrink(a: Angle, gw: int, gh: int)
    requires
        a.wf(),
        0 <= gw,
        0 <= gh,
    ensures
        rot_new_width(
            a.negated_spec(),
            rot_new_width(a, gw, gh) - 1,
            rot_new_height(a, gw, gh) - 1,
        ) >= gw + 1,
        rot_new_height(
            a.negated_spec(),
            rot_new_width(a, gw, gh) - 1,
            rot_new_height(a, gw, gh) - 1,
        ) >= gh + 1,
{
    let d = a.den as int;
    let ac = abs(a.cos_num as int) as int;
    let sa = abs(a.sin_num as int) as int;
    let b = a.negated_spec();
    let span_x = corner_max_x(rotation_matrix(a), gw, gh) - corner_min_x(
        rotation_matrix(a),
        gw,
        gh,
    );
    let span_y = corner_max_y(rotation_matrix(a), gw, gh) - corner_min_y(
        rotation_matrix(a),
        gw,
        gh,
    );
    lemma_rotation_span(a, gw, gh);
    lemma_ceil_div_bounds(span_x, d);
    lemma_ceil_div_bounds(span_y, d);
    let gw1 = rot_new_width(a, gw, gh) - 1;
    let gh1 = rot_new_height(a, gw, gh) - 1;
    assert(d * gw1 >= gw * ac + gh * sa);
    assert(d * gh1 >= gw * sa + gh * ac);
    assert(ac * ac + sa * sa == a.cos_num * a.cos_num + a.sin_num * a.sin_num)
        by (nonlinear_arith)
        requires
            ac == abs(a.cos_num as int),
            sa == abs(a.sin_num as int),
    ;
    lemma_round_trip_core(gw, gh, gw1, gh1, ac, sa, d);
    lemma_round_trip_core(gh, gw, gh1, gw1, ac, sa, d);
    assert((-a.sin_num) * (-a.sin_num) == a.sin_num * a.sin_num) by (nonlinear_arith);
    assert(b.wf());
    lemma_rotation_span(b, gw1, gh1);
    let span2_x = corner_max_x(rotation_matrix(b), gw1, gh1) - corner_min_x(
        rotation_matrix(b),
        gw1,
        gh1,
    );
    let span2_y = corner_max_y(rotation_matrix(b), gw1, gh1) - corner_min_y(
        rotation_matrix(b),
        gw1,
        gh1,
    );
    assert(abs(b.cos_num as int) == ac);
    assert(abs(b.sin_num as int) == sa);
    assert(span2_x == gw1 * ac + gh1 * sa);
    assert(span2_y == gw1 * sa + gh1 * ac);
    assert(span2_x >= gw * d);
    assert(span2_y >= gh * d);
    lemma_ceil_div_bounds(span2_x, d);
    lemma_ceil_div_bounds(span2_y, d);
    assert(gw * d == d * gw) by (nonlinear_arith);
    assert(gh * d == d * gh) by (nonlinear_arith);
    lemma_div_multiples_vanish(gw, d);
    lemma_div_multiples_vanish(gh, d);
    lemma_div_is_ordered(d * gw, span2_x + d - 1, d);
    lemma_div_is_ordered(d * gh, span2_y + d - 1, d);
}

} // verus!
