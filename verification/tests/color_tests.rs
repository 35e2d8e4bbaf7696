use rtstest::{color_to_rgb, rgb_to_color, Color, Rgb};

#[test]
fn quantize_scales_and_rounds_half_up() {
    // 1.0, 0.85, 0.1 in per-mille units: 255, 216.75 -> 217, 25.5 -> 26.
    assert_eq!(color_to_rgb(Color(1000, 850, 100)), Rgb(255, 217, 26));
    // 0.2, 0.4, 0.7: 51 exactly, 102 exactly, 178.5 -> 179.
    assert_eq!(color_to_rgb(Color(200, 400, 700)), Rgb(51, 102, 179));
}

#[test]
fn quantize_clamps_out_of_range_channels() {
    assert_eq!(color_to_rgb(Color(-500, 1500, 0)), Rgb(0, 255, 0));
    assert_eq!(color_to_rgb(Color(i32::MIN, i32::MAX, 1000)), Rgb(0, 255, 255));
}

#[test]
fn quantize_is_monotonic_in_each_channel() {
    let mut last = 0u8;
    for c in -10i32..=1010i32 {
        let Rgb(r, _, _) = color_to_rgb(Color(c, 0, 0));
        assert!(r >= last);
        last = r;
    }
}

#[test]
fn quantize_is_idempotent_on_representable_values() {
    // A channel that already stands for an 8-bit value quantizes to exactly
    // that value, for every byte.
    for k in 0..=255u8 {
        let back = rgb_to_color(Rgb(k, k, k));
        assert_eq!(color_to_rgb(back), Rgb(k, k, k));
    }
}
