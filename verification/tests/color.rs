use domiform::color::{
    hex_to_rgb, hue_sat_254_to_rgb, mireds_to_warm_cold, rgb_to_hue_sat_254, warm_cold_to_mireds,
};

#[test]
fn hex_parsing_accepts_prefixed_and_bare() {
    assert_eq!(hex_to_rgb("#ff8000"), Some((255, 128, 0)));
    assert_eq!(hex_to_rgb("FF8000"), Some((255, 128, 0)));
    assert_eq!(hex_to_rgb("#FfFfFf"), Some((255, 255, 255)));
}

#[test]
fn hex_parsing_rejects_malformed() {
    assert_eq!(hex_to_rgb("#fff"), None); // too short
    assert_eq!(hex_to_rgb("#gg0000"), None); // non-hex
    assert_eq!(hex_to_rgb("#ff00000"), None); // too long
    assert_eq!(hex_to_rgb(""), None);
}

#[test]
fn primary_red_is_hue_zero_full_sat() {
    assert_eq!(rgb_to_hue_sat_254(255, 0, 0), (0, 254));
}

#[test]
fn brightness_is_discarded_from_hue_sat() {
    // Dark and bright red share hue/sat; only brightness differs.
    assert_eq!(
        rgb_to_hue_sat_254(0x40, 0, 0),
        rgb_to_hue_sat_254(0xff, 0, 0)
    );
}

#[test]
fn white_has_zero_saturation() {
    let (_, sat) = rgb_to_hue_sat_254(255, 255, 255);
    assert_eq!(sat, 0);
}

#[test]
fn hue_sat_round_trips_through_rgb() {
    // Primary and secondary colors survive a round trip (full brightness).
    for rgb in [
        (255, 0, 0),
        (0, 255, 0),
        (0, 0, 255),
        (255, 255, 0),
        (0, 255, 255),
        (255, 0, 255),
    ] {
        let (h, s) = rgb_to_hue_sat_254(rgb.0, rgb.1, rgb.2);
        let back = hue_sat_254_to_rgb(h, s);
        // Allow a small rounding tolerance from the 254-step quantization.
        let close = |a: u8, b: u8| (a as i16 - b as i16).abs() <= 3;
        assert!(
            close(back.0, rgb.0) && close(back.1, rgb.1) && close(back.2, rgb.2),
            "{rgb:?} -> ({h},{s}) -> {back:?}"
        );
    }
}

#[test]
fn warm_cold_round_trips_at_bounds() {
    // Pure warm → 2700 K ≈ 370 mireds; pure cold → 6500 K ≈ 153 mireds.
    assert_eq!(mireds_to_warm_cold(370), (255, 0));
    assert_eq!(warm_cold_to_mireds(255, 0), Some(370));
    assert_eq!(warm_cold_to_mireds(0, 0), None);
}

#[test]
fn hues_of_the_secondaries() {
    assert_eq!(rgb_to_hue_sat_254(0, 255, 0), (85, 254));
    assert_eq!(rgb_to_hue_sat_254(0, 0, 255), (169, 254));
    assert_eq!(hue_sat_254_to_rgb(0, 0), (255, 255, 255));
    assert_eq!(hue_sat_254_to_rgb(0, 254), (255, 0, 0));
}

#[test]
fn an_even_mix_lies_between_the_whites() {
    assert_eq!(warm_cold_to_mireds(0, 255), Some(153));
    let mid = warm_cold_to_mireds(128, 128).unwrap();
    assert!(mid > 153 && mid < 370);
    assert_eq!(mireds_to_warm_cold(153), (0, 255));
    assert_eq!(mireds_to_warm_cold(500), (255, 0));
}

#[test]
fn hue_and_saturation_are_computed_in_single_precision() {
    for ((r, g, b), expected) in [
        ((255, 170, 0), (28, 254)),
        ((12, 200, 77), (99, 239)),
        ((1, 0, 0), (0, 254)),
        // A saturation of one or three quarters lies right between two steps.
        ((200, 150, 150), (0, 63)),
        ((4, 3, 3), (0, 64)),
        ((80, 20, 20), (0, 191)),
    ] {
        assert_eq!(rgb_to_hue_sat_254(r, g, b), expected);
        // The same in floating point.
        let (x, y, z) = (r as f32 / 255.0, g as f32 / 255.0, b as f32 / 255.0);
        let max = x.max(y).max(z);
        let delta = max - x.min(y).min(z);
        assert_eq!(((delta / max) * 254.0).round() as u8, expected.1);
    }
}

#[test]
fn every_third_color_agrees_with_floating_point() {
    let float = |r: u8, g: u8, b: u8| {
        let (x, y, z) = (r as f32 / 255.0, g as f32 / 255.0, b as f32 / 255.0);
        let max = x.max(y).max(z);
        let delta = max - x.min(y).min(z);
        let deg = if delta == 0.0 {
            0.0
        } else if max == x {
            60.0 * (((y - z) / delta) % 6.0)
        } else if max == y {
            60.0 * (((z - x) / delta) + 2.0)
        } else {
            60.0 * (((x - y) / delta) + 4.0)
        };
        let deg = if deg < 0.0 { deg + 360.0 } else { deg };
        let sat = if max == 0.0 { 0.0 } else { delta / max };
        (
            ((deg / 360.0) * 254.0).round().clamp(0.0, 254.0) as u8,
            (sat * 254.0).round().clamp(0.0, 254.0) as u8,
        )
    };
    for r in (0..=255).step_by(3) {
        for g in (0..=255).step_by(3) {
            for b in (0..=255).step_by(3) {
                assert_eq!(rgb_to_hue_sat_254(r, g, b), float(r, g, b), "{r} {g} {b}");
            }
        }
    }
}
