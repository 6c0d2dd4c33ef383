use mplusfonts::compile::bitmap::{Glyph, ImageList};
use mplusfonts::compile::dict::{try_to_entry_key, CharDictionary, CharDictionaryKey, CharmapEntry};
use mplusfonts::compile::bitmap::GlyphList;
use mplusfonts::fixed::Fixed;

fn px(v: f64) -> Fixed {
    Fixed { raw: (v * 65536.0).round() as i64 }
}

fn key(text: &str) -> CharDictionaryKey {
    CharDictionaryKey::try_from(text, 0, text.len()).unwrap()
}

fn glyph(id: u16, advance: f64) -> Glyph {
    Glyph {
        x_offset: px(0.0),
        y_offset: px(0.0),
        positions: 1,
        bit_depth: 8,
        id,
        advance_width: px(advance),
        images: ImageList(Vec::new()),
    }
}

#[test]
fn entry_key_is_the_substring_of_the_byte_range() {
    assert_eq!(try_to_entry_key("hello", 1, 3), Ok("el".to_string()));
    assert_eq!(try_to_entry_key("hello", 0, 5), Ok("hello".to_string()));
    assert_eq!(try_to_entry_key("aé日𝄞", 1, 3), Ok("é".to_string()));
    assert_eq!(try_to_entry_key("aé日𝄞", 3, 6), Ok("日".to_string()));
    assert_eq!(try_to_entry_key("aé日𝄞", 6, 10), Ok("𝄞".to_string()));
    assert_eq!(try_to_entry_key("aé日𝄞", 1, 10), Ok("é日𝄞".to_string()));
}

#[test]
fn entry_key_needs_character_boundaries() {
    assert_eq!(try_to_entry_key("aé日𝄞", 2, 3), Err(()));
    assert_eq!(try_to_entry_key("aé日𝄞", 1, 2), Err(()));
    assert_eq!(try_to_entry_key("aé日𝄞", 3, 5), Err(()));
    assert_eq!(try_to_entry_key("aé日𝄞", 7, 10), Err(()));
    assert_eq!(try_to_entry_key("aé日𝄞", 0, 2), Err(()));
}

#[test]
fn entry_key_is_never_empty() {
    assert_eq!(try_to_entry_key("hello", 2, 2), Err(()));
    assert_eq!(try_to_entry_key("hello", 5, 9), Err(()));
    assert_eq!(try_to_entry_key("hello", 7, 9), Err(()));
    assert_eq!(try_to_entry_key("", 0, 1), Err(()));
    assert_eq!(try_to_entry_key("", 0, 0), Err(()));
}

#[test]
fn entry_key_ends_with_the_string() {
    assert_eq!(try_to_entry_key("hello", 3, 100), Ok("lo".to_string()));
    assert_eq!(try_to_entry_key("hello", 0, usize::MAX), Ok("hello".to_string()));
}

#[test]
fn dictionary_key_wraps_the_substring() {
    let k = CharDictionaryKey::try_from("ligature ffi", 9, 12).unwrap();
    assert_eq!(k.as_ref(), "ffi");
    assert_eq!(k.clone_key(), k);
    assert_eq!(k.into_inner(), "ffi".to_string());
    assert!(CharDictionaryKey::try_from("é", 1, 2).is_err());
    assert!(CharDictionaryKey::try_from("abc", 1, 1).is_err());
}

#[test]
fn insert_glyphs_adds_an_entry_once() {
    let mut d = CharDictionary::new();
    assert!(!d.contains_key(&key("ffi")));
    d.insert_glyphs(key("ffi"), vec![glyph(5, 7.5), glyph(6, 0.25)]);
    assert!(d.contains_key(&key("ffi")));
    assert!(!d.contains_key(&key("ff")));
    assert_eq!(d.entries.len(), 1);
    let e = &d.entries[0];
    assert_eq!(e.key, "ffi");
    assert_eq!(e.advance_chars, 3);
    assert_eq!(e.advance_width, px(7.75));
    assert!(e.advance_width_to.is_empty());
    assert_eq!(e.glyphs.0.len(), 2);
    d.insert_glyphs(key("ffi"), vec![glyph(9, 1.0)]);
    assert_eq!(d.entries.len(), 1);
    assert_eq!(d.entries[0].advance_width, px(7.75));
    assert_eq!(d.entries[0].glyphs.0[0].id, 5);
    d.insert_glyphs(key("é"), vec![]);
    assert_eq!(d.entries[1].advance_chars, 1);
    assert_eq!(d.entries[1].advance_width, px(0.0));
}

#[test]
fn advance_width_is_recorded_only_if_it_is_not_the_default() {
    let mut d = CharDictionary::new();
    d.insert_glyphs(key("f"), vec![glyph(1, 4.0)]);
    d.insert_glyphs(key("i"), vec![glyph(2, 2.0)]);
    d.insert_advance_width(key("f"), key("i"), px(4.0));
    assert!(d.entries[0].advance_width_to.is_empty());
    assert_eq!(d.entries[0].advance_width_to("i"), px(4.0));
    d.insert_advance_width(key("f"), key("i"), px(3.5));
    assert_eq!(d.entries[0].advance_width_to, vec![("i".to_string(), px(3.5))]);
    assert_eq!(d.entries[0].advance_width_to("i"), px(3.5));
    assert_eq!(d.entries[0].advance_width_to("f"), px(4.0));
    d.insert_advance_width(key("f"), key("f"), px(3.0));
    d.insert_advance_width(key("f"), key("i"), px(3.25));
    // the table is in the order of its keys, whatever order the widths came in
    assert_eq!(
        d.entries[0].advance_width_to,
        vec![("f".to_string(), px(3.0)), ("i".to_string(), px(3.25))]
    );
    assert!(d.entries[1].advance_width_to.is_empty());
    assert_eq!(d.entries[1].advance_width, px(2.0));
}

#[test]
fn kerning_pairs_get_their_own_width_and_others_the_default() {
    // "f" before "ffi" is kerned, "f" before "x" is not
    let mut d = CharDictionary::new();
    d.insert_glyphs(key("f"), vec![glyph(1, 4.0)]);
    d.insert_glyphs(key("ffi"), vec![glyph(2, 9.0)]);
    d.insert_glyphs(key("x"), vec![glyph(3, 5.0)]);
    d.insert_advance_width(key("f"), key("ffi"), px(3.75));
    d.insert_advance_width(key("f"), key("x"), px(4.0));
    let f = &d.entries[0];
    assert_ne!(f.advance_width_to("ffi"), f.advance_width);
    assert_eq!(f.advance_width_to("ffi"), px(3.75));
    assert_eq!(f.advance_width_to("x"), f.advance_width);
    assert_eq!(f.advance_width_to.len(), 1);
}

fn entry(text: &str, id: u16) -> CharmapEntry {
    CharmapEntry {
        key: text.to_string(),
        advance_chars: text.chars().count(),
        advance_width_to: Vec::new(),
        advance_width: px(id as f64),
        glyphs: GlyphList(vec![glyph(id, id as f64)]),
    }
}

#[test]
fn remove_takes_one_entry_out() {
    let mut d = CharDictionary::new();
    for (i, k) in ["a", "b", "c"].iter().enumerate() {
        d.insert(entry(k, i as u16));
    }
    assert!(d.remove("x").is_none());
    let b = d.remove("b").unwrap();
    assert_eq!(b.key, "b");
    assert_eq!(b.advance_width, px(1.0));
    assert!(d.remove("b").is_none());
    assert_eq!(d.entries.len(), 2);
    assert!(d.contains_key(&key("a")));
    assert!(d.contains_key(&key("c")));
    assert!(!d.contains_key(&key("b")));
}

#[test]
fn extend_prefers_the_entries_of_the_other_dictionary() {
    let mut fallback = CharDictionary::new();
    fallback.insert(entry("a", 1));
    fallback.insert(entry("b", 2));
    let mut primary = CharDictionary::new();
    primary.insert(entry("b", 20));
    primary.insert(entry("c", 30));
    fallback.extend(primary);
    assert_eq!(fallback.entries.len(), 3);
    let id_of = |d: &CharDictionary, k: &str| d.entries[d.place_of(k)].glyphs.0[0].id;
    assert_eq!(id_of(&fallback, "a"), 1);
    assert_eq!(id_of(&fallback, "b"), 20);
    assert_eq!(id_of(&fallback, "c"), 30);
    assert_eq!(fallback.place_of("d"), 3);
}

#[test]
fn insert_replaces_the_entry_of_the_same_key() {
    let mut d = CharDictionary::new();
    d.insert(entry("a", 1));
    d.insert(entry("a", 2));
    assert_eq!(d.entries.len(), 1);
    assert_eq!(d.entries[0].glyphs.0[0].id, 2);
}

#[test]
fn advance_tables_do_not_depend_on_the_order_of_recording() {
    let keys = ["b", "a", "é", "ab", "B", "z", "日"];
    let table = |order: &[usize]| {
        let mut d = CharDictionary::new();
        d.insert_glyphs(key("f"), vec![glyph(1, 40.0)]);
        for k in keys {
            d.insert_glyphs(key(k), vec![glyph(2, 2.0)]);
        }
        for i in order {
            d.insert_advance_width(key("f"), key(keys[*i]), px(1.0 + *i as f64));
        }
        d.entries.remove(0).advance_width_to
    };
    let forward = table(&[0, 1, 2, 3, 4, 5, 6]);
    let backward = table(&[6, 5, 4, 3, 2, 1, 0]);
    let mixed = table(&[3, 0, 6, 2, 5, 1, 4]);
    assert_eq!(forward, backward);
    assert_eq!(forward, mixed);
    let names: Vec<&str> = forward.iter().map(|(k, _)| k.as_str()).collect();
    assert_eq!(names, vec!["B", "a", "ab", "b", "z", "é", "日"]);
}

#[test]
fn sorted_puts_the_entries_in_the_order_of_their_keys() {
    let mut d = CharDictionary::new();
    for (i, k) in ["ffi", "b", "", "a", "é", "ab", "B", "日", "f", "ff"].iter().enumerate() {
        d.insert(entry(k, i as u16));
    }
    let ids: Vec<(String, u16)> = d.entries.iter().map(|e| (e.key.clone(), e.glyphs.0[0].id)).collect();
    let ordered = d.sorted();
    let keys: Vec<&str> = ordered.entries.iter().map(|e| e.key.as_str()).collect();
    assert_eq!(keys, vec!["", "B", "a", "ab", "b", "f", "ff", "ffi", "é", "日"]);
    let mut expected = ids.clone();
    expected.sort();
    let got: Vec<(String, u16)> =
        ordered.entries.iter().map(|e| (e.key.clone(), e.glyphs.0[0].id)).collect();
    assert_eq!(got, expected);
    assert!(CharDictionary::new().sorted().entries.is_empty());
}

#[test]
fn insert_in_order_keeps_the_order() {
    let mut d = CharDictionary::new();
    for k in ["m", "a", "z", "mm", "b"] {
        d.insert_in_order(entry(k, 1));
    }
    let keys: Vec<&str> = d.entries.iter().map(|e| e.key.as_str()).collect();
    assert_eq!(keys, vec!["a", "b", "m", "mm", "z"]);
    assert_eq!(d.order_place_of("c"), 2);
    assert_eq!(d.order_place_of("a"), 0);
    assert_eq!(d.order_place_of("zz"), 5);
    assert_eq!(d.entries[2].table_order_place("x"), 0);
}
