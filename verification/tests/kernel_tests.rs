use mandelbrot::escape_time;

#[test]
fn cardioid_center_reaches_budget() {
    // column 5 of 7 maps to re = 0, row 1 of 2 maps to im = 0: c = 0,
    // the center of the main cardioid, never escapes
    assert_eq!(escape_time(5, 1, 7, 2, 1000), 1000);
}

#[test]
fn period_two_point_reaches_budget() {
    // column 3 of 7 maps to re = -1, row 1 of 2 maps to im = 0: c = -1
    // cycles between 0 and -1 and never escapes
    assert_eq!(escape_time(3, 1, 7, 2, 1000), 1000);
}

#[test]
fn top_left_corner_escapes_first_step() {
    // pixel (0, 0) maps to c = -2.5 - 1.0i, already outside the radius
    assert_eq!(escape_time(0, 0, 100, 100, 1000), 1);
    assert_eq!(escape_time(0, 0, 7, 2, 1000), 1);
}

#[test]
fn every_corner_escapes_quickly() {
    let (w, h) = (64, 64);
    for (i, j) in [(0, 0), (w - 1, 0), (0, h - 1), (w - 1, h - 1)] {
        assert!(escape_time(i, j, w, h, 1000) <= 5);
    }
}

#[test]
fn count_never_exceeds_budget() {
    for i in 0..16 {
        for j in 0..16 {
            let n = escape_time(i, j, 16, 16, 100);
            assert!(n <= 100);
        }
    }
}

#[test]
fn zero_budget_returns_zero() {
    assert_eq!(escape_time(5, 1, 7, 2, 0), 0);
    assert_eq!(escape_time(0, 0, 9, 9, 0), 0);
}

#[test]
fn kernel_is_deterministic() {
    for i in 0..8 {
        for j in 0..8 {
            let a = escape_time(i, j, 8, 8, 500);
            let b = escape_time(i, j, 8, 8, 500);
            assert_eq!(a, b);
        }
    }
}
