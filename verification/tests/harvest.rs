use mplusfonts::harvest::{AttrExt, AttrPath, SpanExt, SpanRepr};

fn attr(segments: &[&str], is_path_only: bool) -> AttrPath {
    AttrPath { segments: segments.iter().map(|s| s.to_string()).collect(), is_path_only }
}

fn range(repr: &str) -> (usize, usize) {
    let range = SpanRepr(repr.to_string()).byte_range_shim();
    (range.start, range.end)
}

#[test]
fn attributes_of_the_harvest_are_told_by_their_path() {
    assert!(attr(&["strings", "emit"], true).is_emit_attr());
    assert!(!attr(&["strings", "emit"], true).is_skip_attr());
    assert!(attr(&["strings", "skip"], true).is_skip_attr());
    assert!(!attr(&["strings", "skip"], true).is_emit_attr());
    assert!(!attr(&["strings", "emit"], false).is_emit_attr());
    assert!(!attr(&["emit"], true).is_emit_attr());
    assert!(!attr(&["mplusfonts", "strings", "emit"], true).is_emit_attr());
    assert!(!attr(&["string", "emit"], true).is_emit_attr());
    assert!(!attr(&["strings", "emits"], true).is_emit_attr());
    assert!(!attr(&[], true).is_skip_attr());
}

#[test]
fn span_of_the_macro_server_names_its_bytes() {
    assert_eq!(range("#0 bytes(12..34)"), (12, 34));
    assert_eq!(range("#123 bytes(0..0)"), (0, 0));
    assert_eq!(range("#7 bytes(1000..999) and more"), (1000, 999));
    assert_eq!(range("#0 bytes(007..08)"), (7, 8));
}

#[test]
fn span_of_the_analyzer_names_its_bytes() {
    assert_eq!(range("SpanData { range: 5..17, anchor: 3 }"), (5, 17));
    assert_eq!(range("range: 1..2"), (1, 2));
    assert_eq!(range("x (range: 10..20) range: 30..40"), (10, 20));
    // the word starts a word of its own
    assert_eq!(range("arange: 1..2, range: 3..4"), (3, 4));
    assert_eq!(range("_range: 1..2"), (0, 0));
    assert_eq!(range("é range: 1..2"), (1, 2));
    assert_eq!(range("érange: 8..9"), (8, 9));
    assert_eq!(range("range: 1.2 range: x..3 range: 4..5x"), (4, 5));
}

#[test]
fn span_of_another_form_names_no_bytes() {
    assert_eq!(range(""), (0, 0));
    assert_eq!(range("#0 bytes(12..34"), (0, 0));
    assert_eq!(range("#0 bytes(12...34)"), (0, 0));
    assert_eq!(range("# bytes(12..34)"), (0, 0));
    assert_eq!(range(" #0 bytes(12..34)"), (0, 0));
    assert_eq!(range("#0  bytes(12..34)"), (0, 0));
    assert_eq!(range("#0 bytes(..34)"), (0, 0));
    assert_eq!(range("#0 bytes(12..)"), (0, 0));
    assert_eq!(range("range: ..3"), (0, 0));
    assert_eq!(range("range:1..2"), (0, 0));
    assert_eq!(range("Range: 1..2"), (0, 0));
}

#[test]
fn span_form_with_bytes_goes_first() {
    assert_eq!(range("#0 bytes(1..2) range: 3..4"), (1, 2));
    assert_eq!(range("#0 bytes(1..2 range: 3..4"), (3, 4));
}

#[test]
fn span_numbers_that_no_usize_holds_name_nothing() {
    let huge = "9".repeat(40);
    assert_eq!(range(&format!("#0 bytes({huge}..1)")), (0, 0));
    assert_eq!(range(&format!("range: 1..{huge}")), (0, 0));
    assert_eq!(range(&format!("range: {huge}..1 range: 2..3")), (2, 3));
    let max = usize::MAX;
    assert_eq!(range(&format!("#0 bytes({max}..{max})")), (max, max));
}
