use mandelbrot::get_color;
use mandelbrot::Pixel;

#[test]
fn zero_count_is_black() {
    assert_eq!(get_color(0, 1000), Pixel { r: 0, g: 0, b: 0 });
}

#[test]
fn count_at_bound_is_truncated_raw_count() {
    // 1000 mod 256 == 232: the raw count truncated to a byte
    assert_eq!(get_color(1000, 1000), Pixel { r: 232, g: 232, b: 232 });
}

#[test]
fn count_past_bound_is_white() {
    assert_eq!(get_color(1001, 1000), Pixel { r: 255, g: 255, b: 255 });
    assert_eq!(get_color(u32::MAX, 1000), Pixel { r: 255, g: 255, b: 255 });
}

#[test]
fn halfway_count_rounds_up() {
    // round(0.5 * 255) == 128
    assert_eq!(get_color(500, 1000), Pixel { r: 128, g: 128, b: 128 });
}

#[test]
fn ramp_endpoints() {
    // round(255 * 1 / 1000) == 0 and round(255 * 999 / 1000) == 255
    assert_eq!(get_color(1, 1000).r, 0);
    assert_eq!(get_color(999, 1000).r, 255);
}

#[test]
fn small_bound_at_limit_keeps_raw_byte() {
    // at the bound the raw count is used, wrapped to a byte
    assert_eq!(get_color(255, 255).r, 255);
    assert_eq!(get_color(256, 256).r, 0);
}

#[test]
fn channels_always_equal() {
    for n in [0u32, 1, 2, 499, 500, 999, 1000, 1001, 5000] {
        let p = get_color(n, 1000);
        assert_eq!(p.r, p.g);
        assert_eq!(p.g, p.b);
    }
}
