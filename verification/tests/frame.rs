use raytrace::color::Color;
use raytrace::frame::{assemble_rgba, compose_frame, pixel_pairs};

#[test]
fn test_pixel_pairs_order() {
    let pts = pixel_pairs(3, 2);
    assert_eq!(pts, vec![(0, 0), (0, 1), (1, 0), (1, 1), (2, 0), (2, 1)]);
}

#[test]
fn test_pixel_pairs_full_coverage() {
    let width: usize = 7;
    let height: usize = 5;
    let pts = pixel_pairs(width, height);
    assert_eq!(pts.len(), width * height);
    for x in 0..width {
        for y in 0..height {
            let hits = pts.iter().filter(|p| **p == (x, y)).count();
            assert_eq!(hits, 1);
        }
    }
    for &(x, y) in pts.iter() {
        assert!(x < width && y < height);
    }
}

#[test]
fn test_pixel_pairs_empty() {
    assert_eq!(pixel_pairs(0, 5).len(), 0);
    assert_eq!(pixel_pairs(5, 0).len(), 0);
}

#[test]
fn test_assemble_rgba_layout() {
    let a = Color { r: 1, g: 2, b: 3 };
    let b = Color { r: 4, g: 5, b: 6 };
    let pixels = vec![(0, 0, a), (1, 0, b)];
    let buf = assemble_rgba(2, 1, &pixels);
    assert_eq!(buf, vec![1, 2, 3, 0xFF, 4, 5, 6, 0xFF]);
}

#[test]
fn test_assemble_rgba_uncovered_bytes_zero() {
    let c = Color { r: 9, g: 8, b: 7 };
    let pixels = vec![(1, 0, c)];
    let buf = assemble_rgba(2, 1, &pixels);
    assert_eq!(buf, vec![0, 0, 0, 0, 9, 8, 7, 0xFF]);
}

#[test]
fn test_compose_frame_layout() {
    let width: usize = 2;
    let height: usize = 2;
    let pts = pixel_pairs(width, height);
    // Colors in emission order: (0,0), (0,1), (1,0), (1,1).
    let c00 = Color { r: 10, g: 11, b: 12 };
    let c01 = Color { r: 20, g: 21, b: 22 };
    let c10 = Color { r: 30, g: 31, b: 32 };
    let c11 = Color { r: 40, g: 41, b: 42 };
    let colors = vec![c00, c01, c10, c11];
    let buf = compose_frame(width, height, &pts, &colors);
    // Row-major RGBA: offset of (x, y) is 4 * (y * width + x).
    assert_eq!(
        buf,
        vec![
            10, 11, 12, 0xFF, // (0,0)
            30, 31, 32, 0xFF, // (1,0)
            20, 21, 22, 0xFF, // (0,1)
            40, 41, 42, 0xFF, // (1,1)
        ],
    );
}
