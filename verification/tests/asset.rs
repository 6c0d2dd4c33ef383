use mplusfonts::builder::BitmapFontStyleBuilder;
use mplusfonts::color::{Gray8, Rgb888};
use mplusfonts::compile::asset::{copy_trie, BitmapFont};
use mplusfonts::compile::bitmap::{Glyph, GlyphList, Image, ImageList};
use mplusfonts::compile::charmap::Charmap;
use mplusfonts::compile::dict::CharmapEntry;
use mplusfonts::fixed::Fixed;
use mplusfonts::font;
use mplusfonts::image::ImageSet;
use mplusfonts::metrics::DecorationDimensions;
use mplusfonts::rect::{Point, Size};
use mplusfonts::style::{BitmapFontStyle, DecorationColor};

fn px(v: f64) -> Fixed {
    Fixed { raw: (v * 65536.0).round() as i64 }
}

fn glyph(id: u16, x: f64, y: f64, images: Vec<Image>) -> Glyph {
    Glyph {
        x_offset: px(x),
        y_offset: px(y),
        positions: 2,
        bit_depth: 4,
        id,
        advance_width: px(5.0),
        images: ImageList(images),
    }
}

fn image(left: i32, data: Vec<u8>) -> Image {
    Image { left, top: 9, width: 3, data }
}

#[test]
fn glyph_list_becomes_a_chain_of_overlays() {
    let list = GlyphList(vec![
        glyph(10, 0.0, 0.0, vec![image(1, vec![0x12, 0x30])]),
        glyph(11, -4.0, 2.0, vec![image(0, vec![0xFF, 0xF0]), image(1, vec![0x0F, 0xF0])]),
        glyph(12, 1.0, -1.0, vec![]),
    ]);
    let glyph = list.to_glyph();
    assert_eq!(glyph.id, 10);
    match &glyph.images {
        ImageSet::Repeated(image) => {
            assert_eq!(image.offset, Point::new(1, 9));
            assert_eq!(image.image_drawable.size, Size::new(3, 1));
            assert_eq!(image.image_drawable.bit_depth, 4);
            assert_eq!(image.image_drawable.data, &[0x12, 0x30]);
        }
        ImageSet::Array(_) => panic!("expected one image"),
    }
    let second = glyph.next.as_ref().unwrap();
    assert_eq!((second.x_offset, second.y_offset, second.glyph.id), (px(-4.0), px(2.0), 11));
    match &second.glyph.images {
        ImageSet::Array(images) => {
            assert_eq!(images.len(), 2);
            assert_eq!(images[1].offset, Point::new(1, 9));
            assert_eq!(images[1].image_drawable.data, &[0x0F, 0xF0]);
        }
        ImageSet::Repeated(_) => panic!("expected an image for each position"),
    }
    let third = second.glyph.next.as_ref().unwrap();
    assert_eq!((third.x_offset, third.y_offset, third.glyph.id), (px(1.0), px(-1.0), 12));
    match &third.glyph.images {
        ImageSet::Repeated(image) => assert_eq!(image.image_drawable.size, Size::new(0, 0)),
        ImageSet::Array(_) => panic!("expected the image without pixels"),
    }
    assert!(third.glyph.next.is_none());
}

#[test]
fn empty_glyph_list_becomes_the_null_glyph() {
    let list = GlyphList(Vec::new());
    let glyph = list.to_glyph();
    assert_eq!(glyph.id, 0);
    assert!(glyph.next.is_none());
}

fn entry(key: &str, table: Vec<(&str, f64)>) -> CharmapEntry {
    CharmapEntry {
        key: key.to_string(),
        advance_chars: key.chars().count(),
        advance_width_to: table.into_iter().map(|(k, v)| (k.to_string(), px(v))).collect(),
        advance_width: px(5.0),
        glyphs: GlyphList(vec![glyph(1, 0.0, 0.0, vec![image(0, vec![0x12, 0x30])])]),
    }
}

#[test]
fn entries_keep_their_advance_widths_in_the_asset() {
    let compiled = entry("f", vec![("i", 4.5), ("ffi", 4.0)]);
    let asset = compiled.to_entry();
    assert_eq!(asset.key, "f");
    assert_eq!(asset.advance_chars, 1);
    for key in ["i", "ffi", "x", ""] {
        assert_eq!(asset.advance_width_to(key), compiled.advance_width_to(key));
    }
    assert_eq!(asset.advance_width_to("i"), px(4.5));
    assert_eq!(asset.advance_width_to("x"), px(5.0));
}

#[test]
fn asset_has_the_entries_of_the_character_map_and_the_notdef_entry() {
    let charmap = Charmap::from_iter(vec![entry("a", vec![]), entry("ab", vec![]), entry("b", vec![])]);
    let compiled = BitmapFont {
        charmap,
        notdef: entry("\u{FFFD}", vec![]),
        positions: 2,
        bit_depth: 4,
        size: px(10.0),
        is_code: false,
    };
    let underline = DecorationDimensions { offset: px(-1.0), height: px(1.0) };
    let strikethrough = DecorationDimensions { offset: px(3.0), height: px(1.0) };
    let font = compiled.to_font(underline, strikethrough);
    assert_eq!(font.charmap.entries.len(), 4);
    assert_eq!((font.positions, font.bit_depth), (2, 4));
    // 11.6 pixels, rounded down to the next raw unit
    assert_eq!(font.metrics.top.raw, 760217);
    assert_eq!(font.metrics.cap_height.raw, 478412);
    assert_eq!(font.underline, underline);
    assert_eq!(font.strikethrough, strikethrough);
    assert_eq!(font.charmap.get("abc").key, "ab");
    assert_eq!(font.charmap.get("ac").key, "a");
    assert_eq!(font.charmap.get("ba").key, "b");
    assert_eq!(font.charmap.get("c").key, "\u{FFFD}");
    let copy = copy_trie(&compiled.charmap.trie);
    assert_eq!(copy.nodes.len(), compiled.charmap.trie.nodes.len());
    for (a, b) in copy.nodes.iter().zip(compiled.charmap.trie.nodes.iter()) {
        assert_eq!((a.entry, &a.children), (b.entry, &b.children));
    }
}

#[test]
fn null_font_has_one_entry_without_a_key() {
    let font = font::BitmapFont::null(&[]);
    assert_eq!(font.charmap.entries.len(), 1);
    assert_eq!(font.charmap.get("anything").key, "");
    assert_eq!(font.charmap.get("").advance_chars, 0);
    assert_eq!(font.metrics.line_height(), 0);
}

#[test]
fn style_colors_default_to_light_on_dark() {
    let font = font::BitmapFont::null(&[]);
    let style = BitmapFontStyleBuilder::<Gray8>::new(&font).build();
    assert_eq!(style.text_color(), Gray8::new(255));
    assert_eq!(style.background_color(), Gray8::new(0));
    assert_eq!(style.underline_color(), None);
    assert_eq!(style.strikethrough_color(), None);
    let style = BitmapFontStyle::new(&font, Rgb888::new(1, 2, 3));
    assert_eq!(style.text_color(), Rgb888::new(1, 2, 3));
    assert_eq!(style.background_color(), Rgb888::new(0, 0, 0));
}

#[test]
fn builder_sets_and_resets_colors_and_lines() {
    let font = font::BitmapFont::null(&[]);
    let other = font::BitmapFont::null(&[]);
    let builder = BitmapFontStyleBuilder::new(&font)
        .text_color(Gray8::new(200))
        .background_color(Gray8::new(20))
        .underline()
        .strikethrough_with_color(Gray8::new(7));
    let style = builder.build();
    assert_eq!(style.text_color(), Gray8::new(200));
    assert_eq!(style.background_color(), Gray8::new(20));
    assert_eq!(style.underline_color(), Some(Gray8::new(200)));
    assert_eq!(style.strikethrough_color(), Some(Gray8::new(7)));
    let style = BitmapFontStyleBuilder::new(&font)
        .text_color(Gray8::new(200))
        .background_color(Gray8::new(20))
        .underline_with_color(Gray8::new(9))
        .strikethrough()
        .reset_text_color()
        .reset_background_color()
        .font(&other)
        .build();
    assert!(std::ptr::eq(style.font, &other));
    assert_eq!(style.text_color(), Gray8::new(255));
    assert_eq!(style.background_color(), Gray8::new(0));
    assert_eq!(style.underline_color(), Some(Gray8::new(9)));
    assert_eq!(style.strikethrough_color(), Some(Gray8::new(255)));
    let style = BitmapFontStyleBuilder::new(&font)
        .underline()
        .strikethrough()
        .reset_underline()
        .reset_strikethrough()
        .text_color(Gray8::new(1))
        .build();
    assert!(matches!(style.underline_color, DecorationColor::Absent));
    assert!(matches!(style.strikethrough_color, DecorationColor::Absent));
}
