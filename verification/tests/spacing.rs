use mplusfonts::compile::aligner::{GlyphAlignDir, GlyphAligner};
use mplusfonts::compile::font::{Font, FontWidth};
use mplusfonts::compile::halfwidth::{AdjustableAdvanceWidth, PixelAlignmentStrategy};
use mplusfonts::compile::spacing::GlyphSpacing;
use mplusfonts::compile::units::{snap, Halfwidth};
use mplusfonts::fixed::Fixed;

fn px(v: f64) -> Fixed {
    Fixed { raw: (v * 65536.0).round() as i64 }
}

fn halfwidths(halfwidth: Halfwidth, is_code: bool, advance_width: f64) -> Fixed {
    GlyphSpacing { halfwidth, is_code }.halfwidths(px(advance_width))
}

#[test]
fn halfwidths_from_15_to_2_times_9() {
    assert_eq!(halfwidths(Halfwidth::Floor(px(9.0)), true, 15.0), px(2.0 * 9.0));
}

#[test]
fn halfwidths_from_12_point_5_to_9() {
    assert_eq!(halfwidths(Halfwidth::Floor(px(9.0)), true, 12.5), px(9.0));
}

#[test]
fn halfwidths_from_9_to_9() {
    assert_eq!(halfwidths(Halfwidth::Floor(px(9.0)), true, 9.0), px(9.0));
}

#[test]
fn halfwidths_from_7_point_5_to_9() {
    assert_eq!(halfwidths(Halfwidth::Floor(px(9.0)), true, 7.5), px(9.0));
}

#[test]
fn halfwidths_from_plus_1_point_5() {
    assert_eq!(halfwidths(Halfwidth::Floor(px(9.0)), true, 1.5), px(9.0));
}

#[test]
fn halfwidths_from_minus_1_point_5() {
    let result = halfwidths(Halfwidth::Floor(px(9.0)), true, -1.5);
    assert_eq!(result, px(-9.0));
    assert!(result.raw < 0);
}

#[test]
fn halfwidths_from_1_point_25() {
    assert_eq!(halfwidths(Halfwidth::Ceil, true, 1.25), px(2.0));
}

#[test]
fn halfwidths_from_minus_1() {
    assert_eq!(halfwidths(Halfwidth::Ceil, true, -1.0), px(-1.0));
}

#[test]
fn halfwidths_from_plus_0() {
    assert_eq!(halfwidths(Halfwidth::Ceil, true, 0.0), px(0.0));
}

#[test]
fn halfwidths_from_minus_0() {
    assert_eq!(halfwidths(Halfwidth::Ceil, true, -0.0), px(-0.0));
}

#[test]
fn halfwidths_from_plus_0_point_5() {
    assert_eq!(halfwidths(Halfwidth::Zero, true, 0.5), px(0.0));
}

#[test]
fn halfwidths_from_minus_0_point_5() {
    assert_eq!(halfwidths(Halfwidth::Zero, true, -0.5), px(-0.0));
}

#[test]
fn halfwidths_of_variable_width_pass_through() {
    assert_eq!(halfwidths(Halfwidth::Floor(px(9.0)), false, 15.3), px(15.3));
    assert_eq!(halfwidths(Halfwidth::Ceil, false, -2.7), px(-2.7));
    assert_eq!(halfwidths(Halfwidth::Zero, false, 0.4), px(0.4));
}

#[test]
fn halfwidths_with_fractional_unit() {
    // unit 7.2: start at 7, add 7.2 while the advance is more than 0.4 units ahead
    assert_eq!(halfwidths(Halfwidth::Floor(px(7.2)), true, 9.0), px(7.0));
    assert_eq!(halfwidths(Halfwidth::Floor(px(7.2)), true, 10.0), px(14.0));
    assert_eq!(halfwidths(Halfwidth::Floor(px(7.2)), true, 18.0), px(21.0));
}

#[test]
fn snap_agrees_with_the_stepping_search() {
    for h in [65536i64, 98304, 471859, 589824, 600000] {
        for advance in (0..40).map(|a| a * 65536i64) {
            let mut new = (h / 65536) * 65536;
            while 5 * (advance - new) > 2 * h {
                new += h;
            }
            let expected = (new / 65536) * 65536;
            assert_eq!(snap(advance, h), expected, "advance {advance} unit {h}");
        }
    }
}

#[test]
fn compensate_moves_offsets_toward_zero_by_the_fraction_of_the_unit() {
    let spacing = GlyphSpacing { halfwidth: Halfwidth::Floor(px(7.25)), is_code: true };
    assert_eq!(spacing.compensate(px(2.0)), px(1.75));
    assert_eq!(spacing.compensate(px(-2.0)), px(-1.75));
    assert_eq!(spacing.compensate(px(0.0)), px(0.0));
    let ceil = GlyphSpacing { halfwidth: Halfwidth::Ceil, is_code: true };
    assert_eq!(ceil.compensate(px(0.3)), px(1.0));
    assert_eq!(ceil.compensate(px(-7.0)), px(-1.0));
    let zero = GlyphSpacing { halfwidth: Halfwidth::Zero, is_code: true };
    assert_eq!(zero.compensate(px(3.0)), px(0.0));
    let variable = GlyphSpacing { halfwidth: Halfwidth::Floor(px(7.25)), is_code: false };
    assert_eq!(variable.compensate(px(2.0)), px(2.0));
}

#[test]
fn strategy_is_chosen_by_size() {
    let code = Font::MPLUSCode { width: FontWidth(100) };
    assert_eq!(Halfwidth::from_font(&code, px(1.0)), Halfwidth::Zero);
    assert_eq!(Halfwidth::from_font(&code, px(1.2499)), Halfwidth::Zero);
    assert_eq!(Halfwidth::from_font(&code, px(1.25)), Halfwidth::Ceil);
    assert_eq!(Halfwidth::from_font(&code, px(1.99)), Halfwidth::Ceil);
    assert_eq!(Halfwidth::from_font(&code, px(2.0)), Halfwidth::Floor(px(1.0)));
    assert_eq!(Halfwidth::from_font(&code, px(12.0)), Halfwidth::Floor(px(6.0)));
    let expanded = Font::MPLUSCode { width: FontWidth(125) };
    assert_eq!(Halfwidth::from_font(&expanded, px(10.0)), Halfwidth::Floor(px(6.0)));
    assert_eq!(Halfwidth::from_font(&Font::MPLUS1, px(16.0)), Halfwidth::Floor(px(8.0)));
    assert_eq!(
        PixelAlignmentStrategy::from_font(&code, px(18.0)),
        PixelAlignmentStrategy::Floor(mplusfonts::compile::halfwidth::Halfwidth(px(9.0)))
    );
    assert_eq!(PixelAlignmentStrategy::new(px(1.5), 500), PixelAlignmentStrategy::Ceil);
    assert_eq!(PixelAlignmentStrategy::new(px(0.5), 500), PixelAlignmentStrategy::Zero);
}

#[test]
fn adjustable_advance_width_steps_to_the_grid() {
    let floor = PixelAlignmentStrategy::new(px(18.0), 500);
    let width = floor.with_advance_width(px(15.7));
    assert_eq!(width.advance_width, px(15.0));
    assert_eq!(width.adjustment(), px(3.0));
    assert_eq!(width.into_inner(), px(15.0));
    let width = floor.with_advance_width(px(12.5));
    assert_eq!(width.adjustment(), px(-3.0));
    let ceil = PixelAlignmentStrategy::Ceil.with_advance_width(px(1.25));
    assert_eq!(ceil.advance_width, px(2.0));
    assert_eq!(ceil.adjustment(), px(0.0));
    let zero: AdjustableAdvanceWidth = PixelAlignmentStrategy::Zero.with_advance_width(px(9.0));
    assert_eq!(zero.into_inner(), px(0.0));
    assert_eq!(zero.adjustment(), px(0.0));
}

#[test]
fn aligner_rounds_only_fixed_pitch() {
    let code = Font::MPLUSCode { width: FontWidth(100) };
    let aligner = GlyphAligner::from_font(&code, px(18.0));
    assert!(aligner.is_code);
    assert_eq!(aligner.round_halfwidths(px(15.0)), px(18.0));
    assert_eq!(aligner.round_halfwidths(px(-1.5)), px(-9.0));
    assert_eq!(aligner.round_halfwidths(px(0.0)), px(0.0));
    assert_eq!(aligner.round_counteract(px(-2.0)), px(-2.0));
    let fractional = GlyphAligner::from_font(&code, px(14.5));
    assert_eq!(fractional.round_counteract(px(-2.0)), px(-1.75));
    assert_eq!(fractional.round_counteract(px(2.0)), px(2.0));
    let variable = GlyphAligner::from_font(&Font::MPLUS2, px(18.0));
    assert!(!variable.is_code);
    assert_eq!(variable.round_halfwidths(px(15.3)), px(15.3));
    assert_eq!(variable.round_counteract(px(-2.5)), px(-2.5));
    assert_eq!(GlyphAlignDir::from_font(&code, px(1.0)), GlyphAlignDir::Unit);
    assert_eq!(GlyphAlignDir::Unit.halfwidths(px(7.0)), px(0.0));
    assert_eq!(GlyphAlignDir::from_font(&code, px(1.0)).halfwidths(px(0.5)), px(0.0));
    assert_eq!(GlyphAligner::from_font(&code, px(1.2)).round_halfwidths(px(-3.0)), px(0.0));
    assert_eq!(GlyphAlignDir::Ceil.halfwidths(px(1.25)), px(2.0));
    assert_eq!(GlyphAlignDir::Ceil.halfwidths(px(-1.0)), px(0.0));
}
