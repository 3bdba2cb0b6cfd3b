use image_voodoo::affine::shear;
use image_voodoo::canvas_image::CanvasImage;
use image_voodoo::crop::{crop_bottom, crop_right};
use image_voodoo::flip::{flip_along_x_axis, flip_along_y_axis};
use image_voodoo::rotation::{rotate_rad, width_height_after_rotation, Angle};
use image_voodoo::scaling::scale_bilinear;

#[test]
fn bilinear_scale() {
    // a 2x2 single-channel ramp scaled to 4x4 must reproduce the classic
    // bilinear values within the reference tolerance
    let image: Vec<u8> = vec![
        10, 10, 10, 0, 20, 20, 20, 0,
        30, 30, 30, 0, 40, 40, 40, 0,
    ];

    let image = CanvasImage::from_vec_with_size(image, 2, 2);
    let scaled = scale_bilinear(&image, 4, 4);

    let expected: Vec<u8> = vec![
        10, 10, 10, 0,
        12, 12, 12, 0,
        17, 17, 17, 0,
        20, 20, 20, 0,
        15, 15, 15, 0,
        17, 17, 17, 0,
        22, 22, 22, 0,
        25, 25, 25, 0,
        25, 25, 25, 0,
        27, 27, 27, 0,
        32, 32, 32, 0,
        35, 35, 35, 0,
        30, 30, 30, 0,
        32, 32, 32, 0,
        37, 37, 37, 0,
        40, 40, 40, 0,
    ];

    // as long as the difference is less than 5 we're good
    for (a, b) in expected.iter().zip(scaled.rgba_slice().iter()) {
        assert!((*a as i32 - *b as i32).abs() < 5);
    }
}

#[test]
fn bilinear_scale_corners_are_exact() {
    let image = CanvasImage::from_vec_with_size(
        vec![1, 2, 3, 4, 50, 60, 70, 80, 90, 100, 110, 120, 200, 210, 220, 230],
        2,
        2,
    );
    let scaled = scale_bilinear(&image, 5, 7);
    assert_eq!(scaled.rgba(0, 0), image.rgba(0, 0));
    assert_eq!(scaled.rgba(4, 6), image.rgba(1, 1));
}

/// A quarter turn: sine 1, cosine 0, exactly representable.
fn quarter_turn() -> Angle {
    Angle { sin_num: 1, cos_num: 0, den: 1 }
}

#[test]
fn rotation_canvas_size() {
    // rotating a geometric 2x1 rectangle by a quarter turn swaps the spans
    let a = quarter_turn();
    let (nw, nh) = width_height_after_rotation(&a, 2, 1);
    assert_eq!((nw, nh), (2, 3));
    // the identity rotation keeps the spans
    let id = Angle { sin_num: 0, cos_num: 1, den: 1 };
    let (nw, nh) = width_height_after_rotation(&id, 2, 1);
    assert_eq!((nw, nh), (3, 2));
}

#[test]
fn rotation_identity_angle_keeps_pixels() {
    let image = CanvasImage::from_vec_with_size(
        vec![
            1, 2, 3, 4, 11, 12, 13, 14, 21, 22, 23, 24, //
            31, 32, 33, 34, 41, 42, 43, 44, 51, 52, 53, 54,
        ],
        3,
        2,
    );
    let id = Angle { sin_num: 0, cos_num: 1, den: 1 };
    let out = rotate_rad(&image, &id);
    assert_eq!(out.horizontal_size(), 3);
    assert_eq!(out.vertical_size(), 2);
    // the half-pixel recentring rounds the first row and column off the
    // canvas; every other pixel keeps its source value
    for y in 1..2 {
        for x in 1..3 {
            assert_eq!(out.rgba(x, y), image.rgba(x, y));
        }
    }
    assert_eq!(out.rgba(0, 0), Some((255, 0, 0, 0)));
}

#[test]
fn rotation_round_trip_size_never_shrinks() {
    // sin 30 deg = 512/1024 exactly, cos 30 deg rounded outward to 887/1024
    let a = Angle { sin_num: 512, cos_num: 887, den: 1024 };
    let image = CanvasImage::from_vec_with_size(vec![128; 4 * 16], 4, 4);
    let once = rotate_rad(&image, &a);
    let back = rotate_rad(&once, &a.negated());
    assert!(back.horizontal_size() >= image.horizontal_size());
    assert!(back.vertical_size() >= image.vertical_size());
}

#[test]
fn rotation_out_of_canvas_is_transparent() {
    // a quarter turn of a 3x3 leaves its first row and column unsourced
    let image = CanvasImage::from_vec_with_size(vec![9; 4 * 9], 3, 3);
    let out = rotate_rad(&image, &quarter_turn());
    assert_eq!(out.horizontal_size(), 3);
    assert_eq!(out.vertical_size(), 3);
    assert_eq!(out.rgba(0, 0), Some((255, 0, 0, 0)));
    // pixels with a source keep the source values
    assert_eq!(out.rgba(1, 1), Some((9, 9, 9, 9)));
}

#[test]
fn shear_grows_canvas_and_keeps_mapped_pixels() {
    // lambda = 1, mu = 0: the matrix [[1, 1], [0, 1]]
    let image = CanvasImage::from_vec_with_size(
        vec![1, 2, 3, 4, 11, 12, 13, 14, 21, 22, 23, 24, 31, 32, 33, 34],
        2,
        2,
    );
    let out = shear(&image, 1, 1, 0, 1);
    assert_eq!(out.horizontal_size(), 3);
    assert_eq!(out.vertical_size(), 2);
    // output (2, 1) maps back to source (1, 1)
    assert_eq!(out.rgba(2, 1), image.rgba(1, 1));
    // output (0, 0) maps outside the source
    assert_eq!(out.rgba(0, 0), Some((255, 0, 0, 0)));
}

#[test]
fn flips_mirror_their_axis() {
    let image = CanvasImage::from_vec_with_size(
        vec![1, 2, 3, 4, 11, 12, 13, 14, 21, 22, 23, 24, 31, 32, 33, 34],
        2,
        2,
    );
    let v = flip_along_x_axis(&image);
    assert_eq!(v.rgba(0, 0), image.rgba(0, 1));
    assert_eq!(v.rgba(1, 0), image.rgba(1, 1));
    assert_eq!(v.rgba(0, 1), image.rgba(0, 0));
    let h = flip_along_y_axis(&image);
    assert_eq!(h.rgba(0, 0), image.rgba(1, 0));
    assert_eq!(h.rgba(1, 1), image.rgba(0, 1));
    // flipping twice restores the image
    let twice = flip_along_y_axis(&h);
    assert_eq!(twice.rgba_slice(), image.rgba_slice());
}

#[test]
fn crops_drop_trailing_pixels() {
    let image = CanvasImage::from_vec_with_size(
        vec![1, 2, 3, 4, 11, 12, 13, 14, 21, 22, 23, 24, 31, 32, 33, 34],
        2,
        2,
    );
    let narrower = crop_right(&image, 1);
    assert_eq!(narrower.horizontal_size(), 1);
    assert_eq!(narrower.vertical_size(), 2);
    assert_eq!(narrower.rgba(0, 0), image.rgba(0, 0));
    assert_eq!(narrower.rgba(0, 1), image.rgba(0, 1));
    let shorter = crop_bottom(&image, 1);
    assert_eq!(shorter.vertical_size(), 1);
    assert_eq!(shorter.rgba(1, 0), image.rgba(1, 0));
    // cropping more than the image holds leaves a blank image
    let blank = crop_right(&image, 5);
    assert_eq!(blank.horizontal_size(), 0);
    assert_eq!(blank.rgba_slice().len(), 0);
}
