use image_voodoo::canvas_image::CanvasImage;
use image_voodoo::distance::{Chebyshev, DistanceMetric, Euclidean, Manhattan};
use image_voodoo::edge_detection::ParameterError;
use image_voodoo::filters::{filter, FilterMode};
use image_voodoo::histogram::{equalize, Histogram};
use image_voodoo::interpolation::{lerp, nearest_neighbor};
use image_voodoo::single_pixel_transformation::apply_channel_lut;

/// A 2x2 image whose red channel ramps 0, 60, 120, 180.
fn ramp_image() -> CanvasImage {
    let data: Vec<u8> = vec![
        0, 5, 9, 255, 60, 5, 9, 255, //
        120, 5, 9, 255, 180, 5, 9, 255,
    ];
    CanvasImage::from_vec_with_size(data, 2, 2)
}

#[test]
fn histogram_counts_intensities() {
    let image = ramp_image();
    let red = image.red_histogram();
    assert_eq!(red.bucket()[0], 1);
    assert_eq!(red.bucket()[60], 1);
    assert_eq!(red.bucket()[120], 1);
    assert_eq!(red.bucket()[180], 1);
    assert_eq!(red.bucket()[7], 0);
    let green = image.green_histogram();
    assert_eq!(green.bucket()[5], 4);
    let blue = image.blue_histogram();
    assert_eq!(blue.bucket()[9], 4);
    let alpha = image.alpha_histogram();
    assert_eq!(alpha.bucket()[255], 4);
}

#[test]
fn histogram_from_raw_channel() {
    let hist = Histogram::from_channel(&vec![3, 3, 3, 250]);
    assert_eq!(hist.bucket()[3], 3);
    assert_eq!(hist.bucket()[250], 1);
    assert_eq!(hist.bucket()[0], 0);
}

#[test]
fn histogram_of_all_zero_channel() {
    // every bucket but 0 is empty, and bucket 0 counts every pixel
    let image = CanvasImage::from_vec_with_size(vec![0; 4 * 6], 3, 2);
    let red = image.red_histogram();
    assert_eq!(red.bucket()[0], 6);
    for v in 1..256 {
        assert_eq!(red.bucket()[v], 0);
    }
}

#[test]
fn normalization_laws() {
    let image = ramp_image();
    let hist = image.red_histogram();
    // normalize: the buckets sum to exactly 1
    let normalized = hist.normalize();
    assert!(normalized.is_normalized());
    assert_eq!(normalized.denominator(), 4);
    // cumulative_normalized: the last bucket is exactly 1
    let cumulative = hist.cumulative_normalized();
    assert!(cumulative.is_cumulative());
    assert_eq!(cumulative.bucket()[255], cumulative.denominator());
}

#[test]
fn cumulative_is_a_running_sum() {
    let image = ramp_image();
    let cum = image.green_histogram().cumulative();
    assert_eq!(cum.bucket()[4], 0);
    assert_eq!(cum.bucket()[5], 4);
    assert_eq!(cum.bucket()[255], 4);
}

#[test]
fn equalize_spreads_a_two_level_channel() {
    // red channel holds 0 and 255 once each over a 1x2 image
    let image = CanvasImage::from_vec_with_size(vec![0, 3, 3, 9, 255, 3, 3, 9], 2, 1);
    let out = equalize(&image);
    // cumulative fractions are 1/2 and 2/2, scaled by 255 and rounded down
    assert_eq!(out.r(0, 0), Some(127));
    assert_eq!(out.r(1, 0), Some(255));
    // alpha is untouched
    assert_eq!(out.a(0, 0), Some(9));
    assert_eq!(out.a(1, 0), Some(9));
}

#[test]
fn equalize_constant_image_goes_white() {
    // with every pixel equal, the cumulative fraction is 1 everywhere
    let image = CanvasImage::from_vec_with_size(vec![77; 4 * 4], 2, 2);
    let out = image.equalize();
    assert_eq!(out.rgba(0, 0), Some((255, 255, 255, 77)));
}

#[test]
fn channel_lut_applies_per_channel() {
    let image = ramp_image();
    // an inverting lookup table
    let mut lut: Vec<u8> = Vec::new();
    for v in 0..256 {
        lut.push(255 - v as u8);
    }
    let out = apply_channel_lut(&image, &lut);
    assert_eq!(out.r(1, 1), Some(75));
    assert_eq!(out.g(0, 0), Some(250));
    assert_eq!(out.a(0, 0), Some(0));
    // the identity table reproduces the image
    let mut id: Vec<u8> = Vec::new();
    for v in 0..256 {
        id.push(v as u8);
    }
    let same = apply_channel_lut(&image, &id);
    assert_eq!(same.rgba_slice(), image.rgba_slice());
}

#[test]
fn rank_filters_on_a_strip() {
    // red channel of a 3x1 image: 10, 200, 50
    let image = CanvasImage::from_vec_with_size(
        vec![10, 1, 1, 40, 200, 1, 1, 41, 50, 1, 1, 42],
        3,
        1,
    );
    // the centre pixel's diamond of radius 1 reflects vertically onto
    // itself: samples are 10, 200, 200, 200, 50
    let min_out = image.filter(FilterMode::Min, 1);
    assert_eq!(min_out.r(1, 0), Some(10));
    let max_out = image.filter(FilterMode::Max, 1);
    assert_eq!(max_out.r(1, 0), Some(200));
    let med_out = filter(&image, 1, FilterMode::Median);
    assert_eq!(med_out.r(1, 0), Some(200));
    // alpha passes through from the source pixel
    assert_eq!(min_out.a(1, 0), Some(41));
    assert_eq!(med_out.a(2, 0), Some(42));
}

#[test]
fn rank_filter_radius_zero_is_identity_on_colour() {
    let image = ramp_image();
    let out = image.filter(FilterMode::Median, 0);
    assert_eq!(out.rgba_slice(), image.rgba_slice());
}

#[test]
fn bernoulli_noise_rejects_bad_probabilities() {
    let mut image = ramp_image();
    assert_eq!(
        image.set_bernoulli_noise(2, 1, 255),
        Err(ParameterError::ProbabilityOutOfRange)
    );
    assert_eq!(
        image.set_bernoulli_noise(1, 0, 255),
        Err(ParameterError::ProbabilityOutOfRange)
    );
    // a failed call leaves the image untouched
    assert_eq!(image.rgba_slice(), ramp_image().rgba_slice());
}

#[test]
fn bernoulli_noise_probability_zero_changes_nothing() {
    let mut image = ramp_image();
    assert_eq!(image.set_bernoulli_noise(0, 7, 99), Ok(()));
    assert_eq!(image.rgba_slice(), ramp_image().rgba_slice());
}

#[test]
fn salt_probability_one_whitens_every_pixel() {
    let mut image = ramp_image();
    assert_eq!(image.add_salt(3, 3), Ok(()));
    for y in 0..2 {
        for x in 0..2 {
            let (r, g, b, a) = image.rgba(x, y).unwrap();
            assert_eq!((r, g, b), (255, 255, 255));
            assert_eq!(a, ramp_image().a(x, y).unwrap());
        }
    }
}

#[test]
fn pepper_probability_one_blackens_every_pixel() {
    let mut image = ramp_image();
    assert_eq!(image.add_pepper(1, 1), Ok(()));
    let (r, g, b, _) = image.rgba(1, 1).unwrap();
    assert_eq!((r, g, b), (0, 0, 0));
}

#[test]
fn bernoulli_noise_only_sets_or_keeps() {
    let mut image = ramp_image();
    assert_eq!(image.set_bernoulli_noise(1, 2, 33), Ok(()));
    let before = ramp_image();
    for y in 0..2 {
        for x in 0..2 {
            let (r, g, b, a) = image.rgba(x, y).unwrap();
            let (r0, g0, b0, a0) = before.rgba(x, y).unwrap();
            assert_eq!(a, a0);
            assert!((r, g, b) == (33, 33, 33) || (r, g, b) == (r0, g0, b0));
        }
    }
}

#[test]
fn distances_are_exact() {
    assert_eq!(Manhattan::new().distance(1, 2, 4, 6), 7);
    assert_eq!(Chebyshev::new().distance(1, 2, 4, 6), 4);
    // a 3-4-5 triangle
    assert_eq!(Euclidean::new().distance(0, 0, 3, 4), 5);
    // non-square distances round down to the integer part
    assert_eq!(Euclidean::new().distance(0, 0, 1, 1), 1);
}

#[test]
fn interpolation_basics() {
    // one third of the way from 10 to 20, rounded to nearest
    assert_eq!(lerp(10, 20, 1, 3), 13);
    assert_eq!(lerp(10, 20, 0, 3), 10);
    assert_eq!(lerp(10, 20, 3, 3), 20);
    // rounding is half-up
    assert_eq!(lerp(10, 11, 1, 2), 11);
    // nearest neighbour: a tie keeps the lower-index sample
    assert_eq!(nearest_neighbor(10, 20, 1, 2), 10);
    assert_eq!(nearest_neighbor(10, 20, 2, 3), 20);
    assert_eq!(nearest_neighbor(10, 20, 1, 3), 10);
}
