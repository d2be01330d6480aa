use cuts::config::build_config;
use cuts::pipeline::{cut_line, cut_stream};
use cuts::selection::{CutsError, SelectionType};
use cuts::tokenize::encode_char;

#[test]
fn whitespace_fields_with_negative_index() {
    // input "a b  c": fields ["a","b","c"], selection "1,-1" -> "b c"
    let config = build_config("1,-1", None, None, true, false, SelectionType::Fields).unwrap();
    let out = cut_line(&config, "a b  c").unwrap();
    assert_eq!(out, b"b c".to_vec());
}

#[test]
fn open_start_range_drops_the_last_field() {
    // "..-1" on ["w","x","y","z"]: span 0..3 -> "w x y"
    let config = build_config("..-1", None, None, true, false, SelectionType::Fields).unwrap();
    let out = cut_line(&config, "w x y z").unwrap();
    assert_eq!(out, b"w x y".to_vec());
}

#[test]
fn negative_start_selects_the_last_fields() {
    // "-3.." on ["w","x","y","z"]: span 1..4 -> "x y z"
    let config = build_config("-3..", None, None, true, false, SelectionType::Fields).unwrap();
    let out = cut_line(&config, "w x y z").unwrap();
    assert_eq!(out, b"x y z".to_vec());
}

#[test]
fn out_of_range_single_yields_an_empty_record() {
    // "5" on 3 fields: empty contribution, output is the empty record
    let config = build_config("5", None, None, true, false, SelectionType::Fields).unwrap();
    let out = cut_line(&config, "a b c").unwrap();
    assert_eq!(out, b"".to_vec());
}

#[test]
fn character_mode_selects_scalars() {
    // "0,3" on "café": scalars ["c","a","f","é"] -> "c é"
    let config = build_config("0,3", None, None, true, false, SelectionType::Characters).unwrap();
    let out = cut_line(&config, "café").unwrap();
    assert_eq!(out, "c é".as_bytes().to_vec());
}

#[test]
fn byte_mode_spans_line_breaks() {
    // the whole stream is one record; the embedded newline is an ordinary element
    let config = build_config("..", None, None, true, false, SelectionType::Bytes).unwrap();
    let out = cut_stream(&config, b"ab\ncd");
    assert_eq!(out, b"a b \n c d".to_vec());
    // and per-line processing owes nothing under byte mode
    assert!(cut_line(&config, "ab").is_none());
}

#[test]
fn byte_mode_single_bytes() {
    let config = build_config("0,-1", None, None, true, false, SelectionType::Bytes).unwrap();
    let out = cut_stream(&config, b"one\ntwo");
    assert_eq!(out, b"o o".to_vec());
}

#[test]
fn repeated_term_selects_twice() {
    let config = build_config("1,1", None, None, true, false, SelectionType::Fields).unwrap();
    let out = cut_line(&config, "a b c").unwrap();
    assert_eq!(out, b"b b".to_vec());
}

#[test]
fn overlapping_terms_emit_duplicates_in_order() {
    let config = build_config("0..2,1..3", None, None, true, false, SelectionType::Fields).unwrap();
    let out = cut_line(&config, "a b c").unwrap();
    assert_eq!(out, b"a b b c".to_vec());
}

#[test]
fn descending_range_contributes_nothing() {
    let config = build_config("3..1,0", None, None, true, false, SelectionType::Fields).unwrap();
    let out = cut_line(&config, "a b c d").unwrap();
    assert_eq!(out, b"a".to_vec());
}

#[test]
fn lines_are_trimmed_by_default() {
    let config = build_config("0,-1", None, None, true, false, SelectionType::Fields).unwrap();
    let out = cut_line(&config, "   a b c  ").unwrap();
    assert_eq!(out, b"a c".to_vec());
}

#[test]
fn trimming_can_be_disabled() {
    // untrimmed, the leading whitespace yields a leading empty field
    let config = build_config("0", None, None, false, false, SelectionType::Fields).unwrap();
    let out = cut_line(&config, " a b").unwrap();
    assert_eq!(out, b"".to_vec());
    let trimmed = build_config("0", None, None, true, false, SelectionType::Fields).unwrap();
    let out = cut_line(&trimmed, " a b").unwrap();
    assert_eq!(out, b"a".to_vec());
}

#[test]
fn character_mode_trims_before_tokenizing() {
    let config = build_config("..", None, None, true, false, SelectionType::Characters).unwrap();
    let out = cut_line(&config, " hi ").unwrap();
    assert_eq!(out, b"h i".to_vec());
}

#[test]
fn only_delimited_skips_undelimited_records() {
    let config = build_config("..", None, None, true, true, SelectionType::Fields).unwrap();
    assert!(cut_line(&config, "abc").is_none());
    let out = cut_line(&config, "a b").unwrap();
    assert_eq!(out, b"a b".to_vec());
}

#[test]
fn string_delimiter_is_taken_literally() {
    // "." must be escaped into the pattern, not treated as "any character"
    let config =
        build_config("1", Some("."), None, true, false, SelectionType::Fields).unwrap();
    let out = cut_line(&config, "a.b.c").unwrap();
    assert_eq!(out, b"b".to_vec());
}

#[test]
fn regex_delimiter_splits_on_matches() {
    let config =
        build_config("2", None, Some("[0-9]+"), true, false, SelectionType::Fields).unwrap();
    let out = cut_line(&config, "a1b22c").unwrap();
    assert_eq!(out, b"c".to_vec());
}

#[test]
fn invalid_delimiter_pattern_is_fatal() {
    match build_config("0", None, Some("["), true, false, SelectionType::Fields) {
        Err(CutsError::InvalidDelimiter(t)) => assert_eq!(t, "["),
        other => panic!("expected invalid delimiter, got {:?}", other.map(|_| ())),
    }
}

#[test]
fn selection_errors_come_before_delimiter_errors() {
    match build_config("x", None, Some("["), true, false, SelectionType::Fields) {
        Err(CutsError::NonIntegerSelection(t)) => assert_eq!(t, "x"),
        other => panic!("expected non-integer, got {:?}", other.map(|_| ())),
    }
}

#[test]
fn encode_char_produces_minimal_utf8() {
    assert_eq!(encode_char('a'), vec![0x61]);
    assert_eq!(encode_char('é'), vec![0xC3, 0xA9]);
    assert_eq!(encode_char('☃'), vec![0xE2, 0x98, 0x83]);
    assert_eq!(encode_char('🦀'), vec![0xF0, 0x9F, 0xA6, 0x80]);
}
