use image_voodoo::canvas_image::CanvasImage;
use image_voodoo::image_index::{
    circular_index, reflective_index, zero_padded, CircularIndexedImage, ReflectiveIndexedImage,
    ZeroPaddedImage,
};

fn checker(x: i64, y: i64) -> Option<u8> {
    if 0 <= x && x < 7 && 0 <= y && y < 7 {
        Some((x * y) as u8)
    } else {
        None
    }
}

#[test]
fn zero_padded_returns_zero() {
    // only defined from 0 to 6 for both x and y
    let g = |x: i64, y: i64| zero_padded(checker(x, y));

    assert_eq!(g(0, 0), 0);
    assert_eq!(g(3, 4), 12);
    assert_eq!(g(100, 100), 0);
    assert_eq!(g(-1, -1), 0);
}

#[test]
fn test_reflective_indexing() {
    // a function that is only defined on [0, 4) x [0, 4)
    let f = |x: u32, y: u32| {
        if x < 4 && y < 4 {
            Some(x + y)
        } else {
            None
        }
    };

    let g = |x: i64, y: i64| f(reflective_index(x, 4), reflective_index(y, 4)).unwrap();

    for i in -4..4 {
        for j in -4..4 {
            println!("g({}, {}) = {}", i, j, g(i, j));
        }
    }
}

/// A 2x2 test image whose channels encode their pixel position.
fn two_by_two() -> CanvasImage {
    // pixel (x, y) holds (r, g, b, a) = (10x, 10y, x + y, 100 + x)
    let data: Vec<u8> = vec![
        0, 0, 0, 100, 10, 0, 1, 101, // row y = 0
        0, 10, 1, 100, 10, 10, 2, 101, // row y = 1
    ];
    CanvasImage::from_vec_with_size(data, 2, 2)
}

#[test]
fn zero_padding_boundary() {
    let image = two_by_two();
    // outside the domain every channel reads 0, in all directions
    assert_eq!(ZeroPaddedImage::r(&image, -1, 0), 0);
    assert_eq!(ZeroPaddedImage::g(&image, 0, -1), 0);
    assert_eq!(ZeroPaddedImage::b(&image, 2, 0), 0);
    assert_eq!(ZeroPaddedImage::a(&image, 0, 2), 0);
    assert_eq!(ZeroPaddedImage::a(&image, -100, 250), 0);
    // inside the domain the underlying pixel shows through
    assert_eq!(ZeroPaddedImage::r(&image, 1, 0), 10);
    assert_eq!(ZeroPaddedImage::a(&image, 1, 1), 101);
}

#[test]
fn circular_wraparound() {
    let image = two_by_two();
    // shifting by whole periods in either axis lands on the same pixel
    for k in -3i64..3 {
        for l in -3i64..3 {
            assert_eq!(
                CircularIndexedImage::r(&image, 1 + 2 * k, 0 + 2 * l),
                image.r(1, 0).unwrap()
            );
            assert_eq!(
                CircularIndexedImage::g(&image, 0 + 2 * k, 1 + 2 * l),
                image.g(0, 1).unwrap()
            );
        }
    }
    // one step past the right edge wraps to the left column
    assert_eq!(CircularIndexedImage::r(&image, 2, 0), image.r(0, 0).unwrap());
    assert_eq!(CircularIndexedImage::r(&image, -1, 0), image.r(1, 0).unwrap());
    assert_eq!(circular_index(-1, 4), 3);
    assert_eq!(circular_index(4, 4), 0);
}

#[test]
fn reflective_symmetry() {
    let image = two_by_two();
    // mirrored about the left edge with the edge pixel duplicated:
    // sample(-1 - k, y) == f(k, y)
    for k in 0i64..2 {
        assert_eq!(
            ReflectiveIndexedImage::r(&image, -1 - k, 1),
            image.r(k as u32, 1).unwrap()
        );
        // and at the right edge: sample(w + k, y) == f(w - 1 - k, y)
        assert_eq!(
            ReflectiveIndexedImage::g(&image, 2 + k, 0),
            image.g((1 - k) as u32, 0).unwrap()
        );
        // and vertically
        assert_eq!(
            ReflectiveIndexedImage::b(&image, 0, -1 - k),
            image.b(0, k as u32).unwrap()
        );
        assert_eq!(
            ReflectiveIndexedImage::a(&image, 1, 2 + k),
            image.a(1, (1 - k) as u32).unwrap()
        );
    }
    // the fold has period 2n: ..., 2, 1, 0, 0, 1, 2, ..., n-1, n-1, n-2, ...
    assert_eq!(reflective_index(-1, 4), 0);
    assert_eq!(reflective_index(-2, 4), 1);
    assert_eq!(reflective_index(4, 4), 3);
    assert_eq!(reflective_index(5, 4), 2);
    assert_eq!(reflective_index(8, 4), 0);
    assert_eq!(reflective_index(3, 4), 3);
}

#[test]
fn accessors_are_bounds_checked() {
    let image = two_by_two();
    assert_eq!(image.rgba(1, 1), Some((10, 10, 2, 101)));
    assert_eq!(image.rgba(2, 0), None);
    assert_eq!(image.r(0, 2), None);
    assert_eq!(image.horizontal_size(), 2);
    assert_eq!(image.vertical_size(), 2);
    assert_eq!(image.width(), 1);
    assert_eq!(image.height(), 1);
    assert_eq!(image.rgba_slice().len(), 16);
}
