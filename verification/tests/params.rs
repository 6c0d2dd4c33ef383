use mplusfonts::compile::font::{
    parse_u8_in_range, parse_u8_in_set, parse_weight, Font, FontSize, FontWeight, FontWidth,
    ParamError, SizeMeasure,
};
use mplusfonts::compile::render::{assemble, flatten, notdef_source, partition, Arguments};
use mplusfonts::compile::source::CharSource;
use mplusfonts::compile::bitmap::{Glyph, ImageList};
use mplusfonts::compile::dict::{CharDictionary, CharDictionaryKey};
use mplusfonts::fixed::Fixed;

fn px(v: f64) -> Fixed {
    Fixed { raw: (v * 65536.0).round() as i64 }
}

#[test]
fn weight_lies_between_100_and_its_maximum() {
    assert_eq!(FontWeight::<900>::from_number(100), Ok(FontWeight(100)));
    assert_eq!(FontWeight::<900>::from_number(900), Ok(FontWeight(900)));
    assert_eq!(FontWeight::<700>::from_number(480), Ok(FontWeight(480)));
    assert_eq!(
        FontWeight::<900>::from_number(99),
        Err(ParamError::OutOfRange { min: 100, max: 900, found: 99 })
    );
    assert_eq!(
        FontWeight::<700>::from_number(701),
        Err(ParamError::OutOfRange { min: 100, max: 700, found: 701 })
    );
}

#[test]
fn weight_names_stand_for_weights_in_range() {
    assert_eq!(FontWeight::<900>::from_name("NORMAL"), Ok(FontWeight(400)));
    assert_eq!(FontWeight::<900>::from_name("THIN"), Ok(FontWeight(100)));
    assert_eq!(FontWeight::<900>::from_name("EXTRA_LIGHT"), Ok(FontWeight(200)));
    assert_eq!(FontWeight::<900>::from_name("LIGHT"), Ok(FontWeight(300)));
    assert_eq!(FontWeight::<900>::from_name("REGULAR"), Ok(FontWeight(400)));
    assert_eq!(FontWeight::<900>::from_name("MEDIUM"), Ok(FontWeight(500)));
    assert_eq!(FontWeight::<900>::from_name("SEMI_BOLD"), Ok(FontWeight(600)));
    assert_eq!(FontWeight::<900>::from_name("BOLD"), Ok(FontWeight(700)));
    assert_eq!(FontWeight::<900>::from_name("EXTRA_BOLD"), Ok(FontWeight(800)));
    assert_eq!(FontWeight::<900>::from_name("BLACK"), Ok(FontWeight(900)));
    assert_eq!(FontWeight::<700>::from_name("BOLD"), Ok(FontWeight(700)));
    assert_eq!(FontWeight::<700>::from_name("BLACK"), Err(ParamError::UnknownName));
    assert_eq!(FontWeight::<900>::from_name("bold"), Err(ParamError::UnknownName));
    assert_eq!(FontWeight::<900>::from_name(""), Err(ParamError::UnknownName));
}

#[test]
fn width_lies_between_100_and_its_maximum() {
    assert_eq!(FontWidth::<125>::from_number(100), Ok(FontWidth(100)));
    assert_eq!(FontWidth::<125>::from_number(125), Ok(FontWidth(125)));
    assert_eq!(
        FontWidth::<125>::from_number(126),
        Err(ParamError::OutOfRange { min: 100, max: 125, found: 126 })
    );
    assert_eq!(FontWidth::<125>::from_name("NORMAL"), Ok(FontWidth(100)));
    assert_eq!(FontWidth::<125>::from_name("EXPANDED"), Ok(FontWidth(125)));
    assert_eq!(FontWidth::<100>::from_name("EXPANDED"), Err(ParamError::UnknownName));
    assert_eq!(FontWidth::<125>::from_name("CONDENSED"), Err(ParamError::UnknownName));
}

#[test]
fn size_is_above_zero() {
    assert_eq!(FontSize::from_pixels(px(12.0)), Ok(FontSize(px(12.0))));
    assert_eq!(FontSize::from_pixels(px(0.0)), Err(ParamError::NotPositive));
    assert_eq!(FontSize::from_pixels(px(-1.0)), Err(ParamError::NotPositive));
    assert_eq!(FontSize::from_measure(SizeMeasure::XHeight, px(52.0)), Ok(FontSize(px(100.0))));
    assert_eq!(FontSize::from_measure(SizeMeasure::CapHeight, px(73.0)), Ok(FontSize(px(100.0))));
    assert_eq!(FontSize::from_measure(SizeMeasure::LineHeight, px(181.0)), Ok(FontSize(px(125.0))));
    assert_eq!(FontSize::from_measure(SizeMeasure::CodeLineHeight, px(301.0)), Ok(FontSize(px(200.0))));
    assert_eq!(FontSize::from_measure(SizeMeasure::XHeight, px(0.0)), Err(ParamError::NotPositive));
}

#[test]
fn numbers_are_checked_against_ranges_and_sets() {
    assert_eq!(parse_u8_in_range::<1, 16>(1), Ok(1));
    assert_eq!(parse_u8_in_range::<1, 16>(16), Ok(16));
    assert_eq!(
        parse_u8_in_range::<1, 16>(0),
        Err(ParamError::OutOfRange { min: 1, max: 16, found: 0 })
    );
    assert_eq!(
        parse_u8_in_range::<1, 16>(17),
        Err(ParamError::OutOfRange { min: 1, max: 16, found: 17 })
    );
    for depth in [1, 2, 4, 8] {
        assert_eq!(parse_u8_in_set::<1, 2, 4, 8>(depth), Ok(depth));
    }
    for depth in [0, 3, 5, 6, 7, 9, 16] {
        assert_eq!(
            parse_u8_in_set::<1, 2, 4, 8>(depth),
            Err(ParamError::NotInSet { a: 1, b: 2, c: 4, d: 8, given: depth })
        );
    }
}

#[test]
fn fixed_pitch_is_no_heavier_than_700() {
    let code = Font::MPLUSCode { width: FontWidth(100) };
    assert_eq!(parse_weight(&code, 700), Ok(700));
    assert_eq!(
        parse_weight(&code, 800),
        Err(ParamError::OutOfRange { min: 100, max: 700, found: 800 })
    );
    assert_eq!(parse_weight(&Font::MPLUS1, 800), Ok(800));
    assert_eq!(parse_weight(&Font::MPLUS2, 900), Ok(900));
    assert_eq!(
        parse_weight(&Font::MPLUS2, 901),
        Err(ParamError::OutOfRange { min: 100, max: 900, found: 901 })
    );
    assert!(code.is_code());
    assert!(!Font::MPLUS1.is_code());
    assert_eq!(Font::from_number(1), Ok(Font::MPLUS1));
    assert_eq!(Font::from_number(2), Ok(Font::MPLUS2));
    assert_eq!(Font::from_number(3), Err(ParamError::OutOfRange { min: 1, max: 2, found: 3 }));
    assert_eq!(code.halfwidth_thousandths(), 500);
    assert_eq!(Font::MPLUSCode { width: FontWidth(125) }.halfwidth_thousandths(), 600);
    assert_eq!(Font::MPLUS1.halfwidth_thousandths(), 500);
}

#[test]
fn arguments_are_rejected_with_the_first_error() {
    let code = Font::MPLUSCode { width: FontWidth(100) };
    assert!(Arguments::new(code, 400, px(12.0), true, 4, 8, vec![]).is_ok());
    let e = |r: Result<Arguments, ParamError>| r.err().unwrap();
    assert_eq!(
        e(Arguments::new(code, 800, px(0.0), true, 0, 3, vec![])),
        ParamError::OutOfRange { min: 100, max: 700, found: 800 }
    );
    assert_eq!(e(Arguments::new(code, 700, px(0.0), true, 0, 3, vec![])), ParamError::NotPositive);
    assert_eq!(
        e(Arguments::new(code, 700, px(1.0), true, 0, 3, vec![])),
        ParamError::OutOfRange { min: 1, max: 16, found: 0 }
    );
    assert_eq!(
        e(Arguments::new(code, 700, px(1.0), true, 16, 3, vec![])),
        ParamError::NotInSet { a: 1, b: 2, c: 4, d: 8, given: 3 }
    );
    let ok = Arguments::new(Font::MPLUS2, 900, px(1.0), false, 16, 1, vec![notdef_source()]).unwrap();
    assert_eq!((ok.weight, ok.size, ok.hint, ok.positions, ok.bit_depth), (900, px(1.0), false, 16, 1));
    assert_eq!(ok.sources.len(), 1);
}

#[test]
fn notdef_source_is_the_replacement_character() {
    match notdef_source() {
        CharSource::Strings(strings) => assert_eq!(strings, vec!["\u{FFFD}".to_string()]),
        _ => panic!("expected strings"),
    }
}

#[test]
fn strings_are_dealt_out_to_the_workers_in_turn() {
    let groups: Vec<Vec<String>> = vec![
        vec!["a".into(), "".into(), "b".into()],
        vec![],
        vec!["c".into(), "d".into(), "".into(), "e".into()],
    ];
    let flat: Vec<&str> = flatten(&groups).iter().map(|s| s.as_str()).collect();
    assert_eq!(flat, vec!["a", "b", "c", "d", "e"]);
    let lists = partition(&groups, 2);
    let shares: Vec<Vec<&str>> = lists.iter().map(|l| l.0.iter().map(|s| s.as_str()).collect()).collect();
    assert_eq!(shares, vec![vec!["a", "c", "e"], vec!["b", "d"]]);
    let lists = partition(&groups, 7);
    let shares: Vec<usize> = lists.iter().map(|l| l.0.len()).collect();
    assert_eq!(shares, vec![1, 1, 1, 1, 1, 0, 0]);
    let lists = partition(&groups, 1);
    assert_eq!(lists[0].0.len(), 5);
    assert!(partition(&groups, 0).is_empty());
}

#[test]
fn assemble_takes_the_notdef_entry_out_of_the_character_map() {
    let glyph = |id: u16| Glyph {
        x_offset: px(0.0),
        y_offset: px(0.0),
        positions: 1,
        bit_depth: 8,
        id,
        advance_width: px(6.0),
        images: ImageList(Vec::new()),
    };
    let key = |t: &str| CharDictionaryKey::try_from(t, 0, t.len()).unwrap();
    let mut fallback = CharDictionary::new();
    fallback.insert_glyphs(key("\u{FFFD}"), vec![glyph(1)]);
    fallback.insert_glyphs(key("a"), vec![glyph(2)]);
    let mut primary = CharDictionary::new();
    primary.insert_glyphs(key("a"), vec![glyph(3)]);
    primary.insert_glyphs(key("b"), vec![glyph(4)]);
    let font = assemble(fallback, primary, 1, 8, px(12.0), true);
    assert_eq!(font.notdef.key, "\u{FFFD}");
    assert_eq!(font.notdef.glyphs.0[0].id, 1);
    let entries: Vec<(String, u16)> =
        font.charmap.entries.iter().map(|e| (e.key.clone(), e.glyphs.0[0].id)).collect();
    assert_eq!(entries, vec![("a".to_string(), 3), ("b".to_string(), 4)]);
    assert_eq!((font.positions, font.bit_depth, font.size, font.is_code), (1, 8, px(12.0), true));
}

#[test]
fn assemble_does_not_depend_on_the_order_of_the_entries() {
    let glyph = |id: u16| Glyph {
        x_offset: px(0.0),
        y_offset: px(0.0),
        positions: 1,
        bit_depth: 8,
        id,
        advance_width: px(6.0),
        images: ImageList(Vec::new()),
    };
    let key = |t: &str| CharDictionaryKey::try_from(t, 0, t.len()).unwrap();
    let keys = ["x", "0", "é", "\u{FFFD}", "10", "1", "A"];
    let build = |order: &[usize]| {
        let mut d = CharDictionary::new();
        for i in order {
            d.insert_glyphs(key(keys[*i]), vec![glyph(*i as u16)]);
        }
        let font = assemble(CharDictionary::new(), d, 1, 8, px(12.0), true);
        let listed: Vec<(String, u16)> =
            font.charmap.entries.iter().map(|e| (e.key.clone(), e.glyphs.0[0].id)).collect();
        let nodes: Vec<(usize, Vec<(char, usize)>)> =
            font.charmap.trie.nodes.iter().map(|n| (n.entry, n.children.clone())).collect();
        (listed, nodes)
    };
    let first = build(&[0, 1, 2, 3, 4, 5, 6]);
    assert_eq!(first, build(&[6, 5, 4, 3, 2, 1, 0]));
    assert_eq!(first, build(&[3, 6, 0, 4, 1, 5, 2]));
    let names: Vec<&str> = first.0.iter().map(|(k, _)| k.as_str()).collect();
    assert_eq!(names, vec!["0", "1", "10", "A", "x", "é"]);
}

#[test]
fn only_fixed_pitch_has_a_fallback_pass() {
    let code = Font::MPLUSCode { width: FontWidth(100) };
    assert!(code.has_pass(false));
    assert!(code.has_pass(true));
    assert!(Font::MPLUS1.has_pass(false));
    assert!(!Font::MPLUS1.has_pass(true));
    assert!(Font::MPLUS2.has_pass(false));
    assert!(!Font::MPLUS2.has_pass(true));
}
