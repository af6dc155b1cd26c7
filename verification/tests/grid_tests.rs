use mandelbrot::escape_time;
use mandelbrot::evaluate_sequential;
use mandelbrot::get_color;
use mandelbrot::render;
use mandelbrot::IterationGrid;

#[test]
fn grid_has_one_count_per_pixel() {
    let g = evaluate_sequential(4, 3, 50);
    assert_eq!(g.width, 4);
    assert_eq!(g.height, 3);
    assert_eq!(g.counts.len(), 12);
}

#[test]
fn grid_entries_match_kernel() {
    let (w, h, m) = (5, 4, 200);
    let g = evaluate_sequential(w, h, m);
    for j in 0..h {
        for i in 0..w {
            assert_eq!(g.get(i, j), escape_time(i, j, w, h, m));
            // flat layout: index width * row + col
            assert_eq!(g.counts[(j * w + i) as usize], g.get(i, j));
        }
    }
}

#[test]
fn evaluation_is_idempotent() {
    let a = evaluate_sequential(9, 7, 300);
    let b = evaluate_sequential(9, 7, 300);
    assert_eq!(a.counts, b.counts);
}

#[test]
fn from_flat_accepts_exact_length() {
    let counts: Vec<u32> = (0..12u32).collect();
    let g = IterationGrid::from_flat(4, 3, counts.clone()).unwrap();
    assert_eq!(g.width, 4);
    assert_eq!(g.height, 3);
    assert_eq!(g.counts, counts);
    assert_eq!(g.get(2, 1), 6);
}

#[test]
fn from_flat_rejects_wrong_length() {
    assert!(IterationGrid::from_flat(4, 3, vec![0u32; 11]).is_none());
    assert!(IterationGrid::from_flat(4, 3, vec![0u32; 13]).is_none());
    assert!(IterationGrid::from_flat(4, 3, Vec::new()).is_none());
}

#[test]
fn readback_and_sequential_agree_on_identical_counts() {
    // a device readback holding the very counts the sequential evaluator
    // produces yields the same grid, entry for entry
    let (w, h, m) = (6, 5, 150);
    let seq = evaluate_sequential(w, h, m);
    let device = IterationGrid::from_flat(w, h, seq.counts.clone()).unwrap();
    for j in 0..h {
        for i in 0..w {
            assert_eq!(device.get(i, j), seq.get(i, j));
        }
    }
}

#[test]
fn rendered_image_has_requested_dimensions() {
    let g = evaluate_sequential(8, 6, 100);
    let img = render(&g, 100);
    assert_eq!(img.width, 8);
    assert_eq!(img.height, 6);
    assert_eq!(img.pixels.len(), 48);
}

#[test]
fn rendered_pixels_are_grayscale() {
    let g = evaluate_sequential(8, 6, 100);
    let img = render(&g, 100);
    for p in &img.pixels {
        assert_eq!(p.r, p.g);
        assert_eq!(p.g, p.b);
    }
}

#[test]
fn rendered_pixels_match_color_mapper() {
    let g = evaluate_sequential(7, 5, 80);
    let img = render(&g, 80);
    for j in 0..5 {
        for i in 0..7 {
            assert_eq!(img.get_pixel(i, j), get_color(g.get(i, j), 80));
        }
    }
}
