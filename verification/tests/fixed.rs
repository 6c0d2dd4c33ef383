use mplusfonts::fixed::{floor_div, saturate, Fixed};

fn fx(v: f64) -> Fixed {
    Fixed { raw: (v * 65536.0).round() as i64 }
}

#[test]
fn fixed_floor_ceil_trunc_fract() {
    assert_eq!(fx(2.75).floor(), fx(2.0));
    assert_eq!(fx(-2.75).floor(), fx(-3.0));
    assert_eq!(fx(2.25).ceil(), fx(3.0));
    assert_eq!(fx(-2.25).ceil(), fx(-2.0));
    assert_eq!(fx(2.75).trunc(), fx(2.0));
    assert_eq!(fx(-2.75).trunc(), fx(-2.0));
    assert_eq!(fx(2.75).fract(), fx(0.75));
    assert_eq!(fx(-2.75).fract(), fx(-0.75));
    assert_eq!(fx(5.0).floor(), fx(5.0));
    assert_eq!(fx(5.0).ceil(), fx(5.0));
}

#[test]
fn fixed_to_i32_truncates_and_clamps() {
    assert_eq!(fx(2.99).to_i32(), 2);
    assert_eq!(fx(-2.99).to_i32(), -2);
    assert_eq!(Fixed { raw: i64::MAX }.to_i32(), i32::MAX);
    assert_eq!(Fixed { raw: i64::MIN }.to_i32(), i32::MIN);
    assert_eq!(fx(2.01).ceil_to_i32(), 3);
    assert_eq!(fx(-2.99).ceil_to_i32(), -2);
}

#[test]
fn fixed_arithmetic_saturates() {
    let max = Fixed { raw: i64::MAX };
    let min = Fixed { raw: i64::MIN };
    assert_eq!(max.saturating_add(fx(1.0)), max);
    assert_eq!(min.saturating_sub(fx(1.0)), min);
    assert_eq!(min.saturating_neg(), max);
    assert_eq!(fx(1.5).saturating_add(fx(2.25)), fx(3.75));
    assert_eq!(fx(1.5).saturating_sub(fx(2.25)), fx(-0.75));
    assert_eq!(max.floor().raw, i64::MAX - 65535);
    assert_eq!(max.ceil(), max);
    assert_eq!(saturate(i128::MAX), i64::MAX);
    assert_eq!(saturate(i128::MIN), i64::MIN);
}

#[test]
fn fixed_scale_and_ratio_round_down() {
    assert_eq!(fx(12.0).scale(500, 1000), fx(6.0));
    // -2.35 px is -154009.6 raw units; scaling rounds down
    assert_eq!(fx(10.0).scale(-235, 1000).raw, -154010);
    assert_eq!(Fixed::from_ratio(1, 4), fx(0.25));
    assert_eq!(Fixed::from_ratio(1, 3).raw, 21845);
    assert_eq!(Fixed::from_ratio(-1, 3).raw, -21846);
    assert_eq!(Fixed::from_int(-7), fx(-7.0));
    assert_eq!(floor_div(-7, 2), -4);
    assert_eq!(floor_div(7, 2), 3);
    assert_eq!(floor_div(-8, 2), -4);
}

#[test]
fn fixed_subpixel_positions() {
    assert_eq!(fx(3.0).subpixel(4), 0);
    assert_eq!(fx(3.25).subpixel(4), 1);
    assert_eq!(fx(3.49).subpixel(4), 1);
    assert_eq!(fx(3.5).subpixel(4), 2);
    assert_eq!(fx(3.99).subpixel(4), 3);
    assert_eq!(fx(-3.5).subpixel(4), 0);
    assert_eq!(fx(7.9).subpixel(1), 0);
    assert_eq!(fx(0.9375).subpixel(16), 15);
}
