use image_voodoo::canvas_image::CanvasImage;
use image_voodoo::convolution::{BorderStrategy, Kernel};

#[test]
fn test_kernel() {
    let kernel = Kernel::from_vec(vec![9, 8, 7, 6, 5, 4, 3, 2, 1], 3, 3);
    assert_eq!(kernel.at(0, 0), 5);
    assert_eq!(kernel.at(-1, -1), 9);
    assert_eq!(kernel.at(0, 1), 4);
    assert_eq!(kernel.at(1, 1), 1);
    assert_eq!(kernel.at(1, 0), 2);
}

#[test]
fn convolve_identity_kernel() {
    let data: Vec<u8> = vec![1, 2, 3, 4, 5, 6, 7, 8, 9, 10, 11, 12, 13, 14, 15, 16];
    let image = CanvasImage::from_vec_with_size(data.clone(), 2, 2);
    let kernel = Kernel::from_vec(vec![0, 0, 0, 0, 1, 0, 0, 0, 0], 3, 3);
    let out = image.convolve(&kernel, BorderStrategy::Reflective);
    assert_eq!(out.len(), 16);
    for i in 0..16 {
        assert_eq!(out[i], data[i] as i64);
    }
}

#[test]
fn convolve_laplacian_of_constant_is_zero() {
    // the Laplacian kernel sums to zero, so a constant image convolves to 0
    let image = CanvasImage::from_vec_with_size(vec![10, 20, 30, 40], 1, 1);
    let kernel = Kernel::from_vec(vec![1, 1, 1, 1, -8, 1, 1, 1, 1], 3, 3);
    let out = image.convolve(&kernel, BorderStrategy::Reflective);
    assert_eq!(out, vec![0, 0, 0, 0]);
}

#[test]
fn convolve_circular_sums_row() {
    // the kernel's first tap index displaces x, so the middle column sums
    // three horizontal neighbours; circular borders wrap them around
    let image = CanvasImage::from_vec_with_size(vec![10, 0, 0, 255, 30, 0, 0, 255], 2, 1);
    let kernel = Kernel::from_vec(vec![0, 1, 0, 0, 1, 0, 0, 1, 0], 3, 3);
    let out = image.convolve(&kernel, BorderStrategy::Circular);
    // red at (0, 0): samples x = -1, 0, 1 -> 30 + 10 + 30
    assert_eq!(out[0], 70);
    // red at (1, 0): samples x = 0, 1, 2 -> 10 + 30 + 10
    assert_eq!(out[4], 50);
}

/// Counts pixels any of whose colour channels is white.
fn edge_count(image: &CanvasImage) -> usize {
    let bytes = image.rgba_slice();
    let mut count = 0;
    let mut i = 0;
    while i + 3 < bytes.len() {
        if bytes[i] == 255 || bytes[i + 1] == 255 || bytes[i + 2] == 255 {
            count += 1;
        }
        i += 4;
    }
    count
}

/// A 4x4 greyscale step image: left half dark, right half bright.
fn step_image() -> CanvasImage {
    let mut data: Vec<u8> = Vec::new();
    for _y in 0..4 {
        for x in 0..4 {
            let v = if x < 2 { 10 } else { 200 };
            data.push(v);
            data.push(v);
            data.push(v);
            data.push(255);
        }
    }
    CanvasImage::from_vec_with_size(data, 4, 4)
}

#[test]
fn sobel_finds_a_vertical_step() {
    let image = step_image();
    let edges = image.sobel_edge(100);
    // the step between columns 1 and 2 must be detected somewhere
    assert!(edge_count(&edges) > 0);
    // alpha is forced opaque everywhere
    let bytes = edges.rgba_slice();
    for p in 0..16 {
        assert_eq!(bytes[4 * p + 3], 255);
    }
}

#[test]
fn sobel_threshold_monotonicity() {
    let image = step_image();
    let mut last = usize::MAX;
    for t in [0u32, 50, 100, 400, 800, 2000] {
        let count = edge_count(&image.sobel_edge(t));
        assert!(count <= last);
        last = count;
    }
}

#[test]
fn prewitt_threshold_monotonicity() {
    let image = step_image();
    let mut last = usize::MAX;
    for t in [0u32, 50, 100, 400, 800, 2000] {
        let count = edge_count(&image.prewitt_edge(t));
        assert!(count <= last);
        last = count;
    }
}

#[test]
fn laplacian_threshold_monotonicity() {
    let image = step_image();
    let mut last = usize::MAX;
    for t in [0i64, 50, 100, 400, 800, 5000] {
        let count = edge_count(&image.laplacian_edge(t));
        assert!(count <= last);
        last = count;
    }
}

#[test]
fn laplacian_of_gaussian_runs() {
    let image = step_image();
    let low = edge_count(&image.laplacian_of_gaussian_edge(0));
    let high = edge_count(&image.laplacian_of_gaussian_edge(100_000));
    assert!(high <= low);
    // an extreme threshold admits no edges at all
    assert_eq!(high, 0);
}

#[test]
fn laplacian_of_constant_image_has_no_edges() {
    let image = CanvasImage::from_vec_with_size(vec![7; 4 * 9], 3, 3);
    let edges = image.laplacian_edge(0);
    assert_eq!(edge_count(&edges), 0);
    // and the output is black with opaque alpha
    assert_eq!(edges.rgba(1, 1), Some((0, 0, 0, 255)));
}
