use std::collections::HashMap;

use mplusfonts::color::{Colormap, Gray8};
use mplusfonts::compile::asset::BitmapFont as CompiledFont;
use mplusfonts::compile::bitmap::{Glyph, Image, ImageList};
use mplusfonts::compile::dict::{CharDictionary, CharDictionaryKey};
use mplusfonts::compile::render::assemble;
use mplusfonts::fixed::Fixed;
use mplusfonts::image::MixFill;
use mplusfonts::metrics::{Baseline, DecorationDimensions};
use mplusfonts::rect::{Point, Rectangle, Size};
use mplusfonts::style::{images_of_chars, BitmapFontStyle, DrawOp};

fn px(v: f64) -> Fixed {
    Fixed { raw: (v * 65536.0).round() as i64 }
}

fn key(text: &str) -> CharDictionaryKey {
    CharDictionaryKey::try_from(text, 0, text.len()).unwrap()
}

fn glyph(id: u16, advance: f64, x: f64, y: f64, level: u8, positions: u8) -> Glyph {
    let images = (0..positions)
        .map(|p| Image { left: p as i32, top: 7, width: 5, data: vec![level; 35] })
        .collect();
    Glyph {
        x_offset: px(x),
        y_offset: px(y),
        positions,
        bit_depth: 8,
        id,
        advance_width: px(advance),
        images: ImageList(images),
    }
}

fn compiled(entries: &[(&str, f64, u8)], size: f64, is_code: bool) -> CompiledFont {
    let mut dictionary = CharDictionary::new();
    for (i, (text, advance, level)) in entries.iter().enumerate() {
        dictionary.insert_glyphs(key(text), vec![glyph(i as u16 + 1, *advance, 0.0, 0.0, *level, 1)]);
    }
    dictionary.insert_glyphs(key("\u{FFFD}"), vec![glyph(0, entries[0].1, 0.0, 0.0, 255, 1)]);
    assemble(CharDictionary::new(), dictionary, 1, 8, px(size), is_code)
}

fn digits() -> CompiledFont {
    let mut entries: Vec<(String, f64, u8)> = ('0'..='9').map(|c| (c.to_string(), 6.0, 255)).collect();
    entries.push(("x".to_string(), 6.0, 255));
    let borrowed: Vec<(&str, f64, u8)> = entries.iter().map(|(k, a, l)| (k.as_str(), *a, *l)).collect();
    compiled(&borrowed, 12.0, true)
}

fn lines() -> (DecorationDimensions, DecorationDimensions) {
    (
        DecorationDimensions { offset: px(-1.2), height: px(0.8) },
        DecorationDimensions { offset: px(4.0), height: px(1.0) },
    )
}

fn paint(ops: &[DrawOp<Gray8>], colormap: &Colormap<Gray8, 256>) -> HashMap<(i32, i32), u8> {
    let mut pixels = HashMap::new();
    for op in ops {
        let (area, fill) = op.paint(colormap);
        let width = area.size.width.min(4096) as i32;
        let height = area.size.height.min(4096) as i32;
        for row in 0..height {
            for column in 0..width {
                let color = match &fill {
                    MixFill::Solid(color) => *color,
                    MixFill::Contiguous(colors) => {
                        match colors.get((row * area.size.width as i32 + column) as usize) {
                            Some(color) => *color,
                            None => continue,
                        }
                    }
                };
                pixels.insert((area.top_left.x + column, area.top_left.y + row), color.luma);
            }
        }
    }
    pixels
}

#[test]
fn monospaced_text_is_laid_out_in_cells_of_equal_width() {
    let compiled = digits();
    let (underline, strikethrough) = lines();
    let font = compiled.to_font(underline, strikethrough);
    let mut x = px(10.0);
    let images = images_of_chars(&font.charmap, font.positions, "0x1F", &mut x, px(20.0));
    assert_eq!(images.len(), 4);
    let boxes: Vec<Rectangle> = images.iter().map(|placed| placed.image.bounding_box()).collect();
    for (i, placed) in images.iter().enumerate() {
        assert!(!placed.is_overlay);
        assert_eq!(boxes[i], Rectangle::new(Point::new(10 + 6 * i as i32, 13), Size::new(5, 7)));
    }
    for pair in boxes.windows(2) {
        assert_eq!(pair[1].top_left.x - pair[0].top_left.x, 6);
        assert!(pair[0].top_left.x + pair[0].size.width as i32 <= pair[1].top_left.x);
        assert_eq!(pair[0].intersection(&pair[1]), Rectangle::zero());
    }
    assert_eq!(x, px(34.0));
}

#[test]
fn measure_string_gives_the_line_and_the_next_position() {
    let compiled = digits();
    let (underline, strikethrough) = lines();
    let font = compiled.to_font(underline, strikethrough);
    let style = BitmapFontStyle::new(&font, Gray8::new(255));
    let metrics = style.measure_string("0x1F", Point::new(10, 20), Baseline::Alphabetic);
    assert_eq!(metrics.next_position, Point::new(34, 20));
    assert_eq!(metrics.bounding_box, Rectangle::new(Point::new(10, 5), Size::new(23, 18)));
    assert_eq!(style.line_height(), 18);
    let top = style.measure_string("0", Point::new(0, 0), Baseline::Top);
    assert_eq!(top.bounding_box, Rectangle::new(Point::new(0, 0), Size::new(5, 18)));
    let bottom = style.measure_string("0", Point::new(0, 0), Baseline::Bottom);
    assert_eq!(bottom.bounding_box.top_left, Point::new(0, -18));
    let middle = style.measure_string("0", Point::new(0, 0), Baseline::Middle);
    // the middle line is at half the x-height of 6.24 pixels, rounded up
    assert_eq!(middle.bounding_box.top_left, Point::new(0, 4 - 15));
    let empty = style.measure_string("", Point::new(3, 4), Baseline::Alphabetic);
    assert_eq!(empty.next_position, Point::new(3, 4));
    assert_eq!(empty.bounding_box, Rectangle::new(Point::new(3, -11), Size::new(0, 18)));
}

#[test]
fn draw_string_paints_one_glyph_on_its_line() {
    let compiled = digits();
    let (underline, strikethrough) = lines();
    let font = compiled.to_font(underline, strikethrough);
    let style = BitmapFontStyle::new(&font, Gray8::new(255));
    let (ops, next) = style.draw_string("0", Point::new(0, 20), Baseline::Alphabetic);
    assert_eq!(next, Point::new(6, 20));
    let colormap = Colormap::<Gray8, 256>::linear(style.background_color(), style.text_color());
    let pixels = paint(&ops, &colormap);
    for y in 5..23 {
        for x in 0..6 {
            let expected = if x < 5 && (13..20).contains(&y) { 255 } else { 0 };
            assert_eq!(pixels.get(&(x, y)), Some(&expected), "pixel {x} {y}");
        }
    }
    assert!(pixels.keys().all(|(x, y)| (0..6).contains(x) && (5..23).contains(y)));
}

#[test]
fn draw_string_blends_glyphs_that_overlap() {
    let compiled = compiled(&[("a", 3.0, 128)], 12.0, false);
    let (underline, strikethrough) = lines();
    let font = compiled.to_font(underline, strikethrough);
    let style = BitmapFontStyle::new(&font, Gray8::new(255));
    let (ops, next) = style.draw_string("aa", Point::new(0, 20), Baseline::Alphabetic);
    assert_eq!(next, Point::new(6, 20));
    assert!(ops.iter().any(|op| matches!(op, DrawOp::Mix { area, .. } if area.clone() == Rectangle::new(Point::new(3, 13), Size::new(2, 7)))));
    let colormap = Colormap::<Gray8, 256>::linear(style.background_color(), style.text_color());
    let pixels = paint(&ops, &colormap);
    // size 12 of a typeface of variable width: the line goes from 14 rows above to 3 below
    for y in 6..23 {
        for x in 0..8 {
            let expected = if !(13..20).contains(&y) {
                0
            } else if x == 3 || x == 4 {
                192
            } else {
                128
            };
            assert_eq!(pixels.get(&(x, y)), Some(&expected), "pixel {x} {y}");
        }
    }
}

#[test]
fn draw_string_twice_paints_the_same() {
    let compiled = compiled(&[("a", 3.0, 128), ("b", 7.5, 200), ("ab", 9.25, 90)], 13.0, false);
    let (underline, strikethrough) = lines();
    let font = compiled.to_font(underline, strikethrough);
    let style = mplusfonts::builder::BitmapFontStyleBuilder::new(&font)
        .text_color(Gray8::new(240))
        .background_color(Gray8::new(16))
        .underline()
        .strikethrough_with_color(Gray8::new(99))
        .build();
    let colormap = Colormap::<Gray8, 256>::linear(style.background_color(), style.text_color());
    let first = style.draw_string("abba?ab a", Point::new(-7, 3), Baseline::Middle);
    let second = style.draw_string("abba?ab a", Point::new(-7, 3), Baseline::Middle);
    assert_eq!(first.1, second.1);
    assert_eq!(format!("{:?}", first.0), format!("{:?}", second.0));
    assert_eq!(paint(&first.0, &colormap), paint(&second.0, &colormap));
    assert!(!first.0.is_empty());
}

#[test]
fn draw_string_draws_the_lines_under_and_through_the_text() {
    let compiled = digits();
    let (underline, strikethrough) = lines();
    let font = compiled.to_font(underline, strikethrough);
    let style = mplusfonts::builder::BitmapFontStyleBuilder::new(&font)
        .text_color(Gray8::new(255))
        .underline_with_color(Gray8::new(7))
        .strikethrough()
        .build();
    let (ops, _) = style.draw_string("01", Point::new(2, 20), Baseline::Alphabetic);
    let fills: Vec<(Rectangle, u8)> = ops
        .iter()
        .filter_map(|op| match op {
            DrawOp::Fill { area, color } => Some((area.clone(), color.luma)),
            _ => None,
        })
        .collect();
    let count = fills.len();
    // the underline lies 1.2 pixels below the baseline and is one row thick
    assert_eq!(fills[count - 2], (Rectangle::new(Point::new(2, 21), Size::new(12, 1)), 7));
    assert_eq!(fills[count - 1], (Rectangle::new(Point::new(2, 16), Size::new(12, 1)), 255));
}

#[test]
fn draw_whitespace_paints_the_background_and_the_lines() {
    let compiled = digits();
    let (underline, strikethrough) = lines();
    let font = compiled.to_font(underline, strikethrough);
    let style = mplusfonts::builder::BitmapFontStyleBuilder::new(&font)
        .background_color(Gray8::new(40))
        .underline()
        .build();
    let (ops, next) = style.draw_whitespace(9, Point::new(4, 20), Baseline::Alphabetic);
    assert_eq!(next, Point::new(13, 20));
    assert_eq!(ops.len(), 2);
    match &ops[0] {
        DrawOp::Fill { area, color } => {
            assert_eq!(area.clone(), Rectangle::new(Point::new(4, 5), Size::new(9, 18)));
            assert_eq!(color.luma, 40);
        }
        _ => panic!("expected a fill"),
    }
    match &ops[1] {
        DrawOp::Fill { area, color } => {
            assert_eq!(area.clone(), Rectangle::new(Point::new(4, 21), Size::new(9, 1)));
            assert_eq!(color.luma, 255);
        }
        _ => panic!("expected a fill"),
    }
}

#[test]
fn overlays_are_placed_after_the_next_entry_is_looked_up() {
    let mut dictionary = CharDictionary::new();
    dictionary.insert_glyphs(
        key("u\u{308}"),
        vec![glyph(1, 6.0, 0.0, 0.0, 255, 1), glyph(532, 0.0, -5.0, 2.0, 255, 1)],
    );
    dictionary.insert_glyphs(key("n"), vec![glyph(2, 7.0, 0.0, 0.0, 255, 1)]);
    dictionary.insert_glyphs(key("\u{FFFD}"), vec![glyph(0, 6.0, 0.0, 0.0, 255, 1)]);
    let compiled = assemble(CharDictionary::new(), dictionary, 1, 8, px(12.0), false);
    let (underline, strikethrough) = lines();
    let font = compiled.to_font(underline, strikethrough);
    assert_eq!(font.charmap.get("u\u{308}n").advance_chars, 2);
    let mut x = px(0.0);
    let images = images_of_chars(&font.charmap, font.positions, "u\u{308}n", &mut x, px(20.0));
    let placed: Vec<(i32, i32, bool)> = images
        .iter()
        .map(|p| (p.image.offset.x, p.image.offset.y, p.is_overlay))
        .collect();
    // the overlay is moved from where the walk stands after the advance to "n"
    assert_eq!(placed, vec![(0, 13, false), (1, 11, true), (6, 13, false)]);
    assert_eq!(x, px(13.0));
}

#[test]
fn glyph_images_are_chosen_by_sub_pixel_position() {
    let mut dictionary = CharDictionary::new();
    dictionary.insert_glyphs(key("i"), vec![glyph(1, 2.5, 0.0, 0.0, 255, 4)]);
    dictionary.insert_glyphs(key("\u{FFFD}"), vec![glyph(0, 6.0, 0.0, 0.0, 255, 1)]);
    let compiled = assemble(CharDictionary::new(), dictionary, 4, 8, px(12.0), false);
    let (underline, strikethrough) = lines();
    let font = compiled.to_font(underline, strikethrough);
    let mut x = px(0.25);
    let images = images_of_chars(&font.charmap, font.positions, "iii", &mut x, px(0.0));
    // image p of the test glyph lies p columns to the right of the origin
    let lefts: Vec<i32> = images.iter().map(|p| p.image.offset.x).collect();
    assert_eq!(lefts, vec![0 + 1, 2 + 3, 5 + 1]);
    assert_eq!(x, px(7.75));
}
