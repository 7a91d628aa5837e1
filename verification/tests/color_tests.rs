use fractal_anim::color::{color_for, hue_fraction, ColorRGBA};

#[test]
fn channels_are_exact_fractions_of_twice_the_length() {
    // n = 4: f = idx/4 in eighths of the denominator 8.
    let c0 = color_for(0, 4);
    assert_eq!(
        c0,
        ColorRGBA { red: 0, green: 0, blue: 4, alpha: 8, denom: 8 }
    );
    // idx 1: f = 1/4 -> r = 1/4, g = 3/4, b = 3/4.
    let c1 = color_for(1, 4);
    assert_eq!(
        c1,
        ColorRGBA { red: 2, green: 6, blue: 6, alpha: 8, denom: 8 }
    );
    // idx 3: f = 3/4 -> r = 3/4, g = 1/4, b = 1/4.
    let c3 = color_for(3, 4);
    assert_eq!(
        c3,
        ColorRGBA { red: 6, green: 2, blue: 2, alpha: 8, denom: 8 }
    );
}

#[test]
fn channels_stay_strictly_below_one() {
    for n in [1u32, 2, 5, 16, 256] {
        for idx in 0..(3 * n) {
            let c = color_for(idx, n);
            assert_eq!(c.denom, 2 * n as u64);
            assert!(c.red < c.denom);
            assert!(c.green < c.denom);
            assert!(c.blue < c.denom);
            assert_eq!(c.alpha, c.denom);
        }
    }
}

#[test]
fn color_wraps_around_with_period_n() {
    for n in [1u32, 4, 16, 256] {
        for idx in 0..n {
            assert_eq!(color_for(idx, n), color_for(idx + n, n));
        }
    }
}

#[test]
fn ends_of_the_sequence_share_a_color() {
    // index 0 and index n differ only by the wraparound of the modular
    // arithmetic, so the colors coincide exactly.
    for n in [1u32, 4, 256] {
        assert_eq!(color_for(0, n), color_for(n, n));
    }
}

#[test]
fn hue_fraction_spans_zero_to_one() {
    assert_eq!(hue_fraction(0, 256), (0, 255));
    assert_eq!(hue_fraction(255, 256), (255, 255));
    // the per-item hue of a 13-box wireframe, item 6: 6/12.
    assert_eq!(hue_fraction(6, 13), (6, 12));
}
