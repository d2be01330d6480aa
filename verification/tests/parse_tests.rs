use cuts::numparse::parse_int;
use cuts::parse::{parse_range_bound, parse_selection, parse_selections};
use cuts::selection::{CutsError, Selection};

#[test]
fn parse_int_plain() {
    assert_eq!(parse_int("0").unwrap(), 0);
    assert_eq!(parse_int("42").unwrap(), 42);
    assert_eq!(parse_int("007").unwrap(), 7);
}

#[test]
fn parse_int_signed() {
    assert_eq!(parse_int("+5").unwrap(), 5);
    assert_eq!(parse_int("-3").unwrap(), -3);
    assert_eq!(parse_int("-0").unwrap(), 0);
}

#[test]
fn parse_int_extremes() {
    assert_eq!(parse_int("9223372036854775807").unwrap(), isize::MAX);
    assert_eq!(parse_int("-9223372036854775808").unwrap(), isize::MIN);
}

#[test]
fn parse_int_overflow_is_error() {
    match parse_int("9223372036854775808") {
        Err(CutsError::NonIntegerSelection(t)) => assert_eq!(t, "9223372036854775808"),
        other => panic!("expected overflow error, got {:?}", other),
    }
    match parse_int("99999999999999999999999999") {
        Err(CutsError::NonIntegerSelection(_)) => {}
        other => panic!("expected overflow error, got {:?}", other),
    }
}

#[test]
fn parse_int_rejects_non_integers() {
    for bad in ["", "+", "-", "1x", "x1", "1.5", " 1", "1 "] {
        match parse_int(bad) {
            Err(CutsError::NonIntegerSelection(t)) => assert_eq!(t, bad),
            other => panic!("expected error for {:?}, got {:?}", bad, other),
        }
    }
}

#[test]
fn parse_range_bound_empty_is_open() {
    assert_eq!(parse_range_bound("").unwrap(), None);
    assert_eq!(parse_range_bound("7").unwrap(), Some(7));
    assert_eq!(parse_range_bound("-2").unwrap(), Some(-2));
    match parse_range_bound("y") {
        Err(CutsError::NonIntegerSelection(t)) => assert_eq!(t, "y"),
        other => panic!("expected error, got {:?}", other),
    }
}

#[test]
fn parse_selection_single() {
    match parse_selection("4").unwrap() {
        Selection::Single(i) => assert_eq!(i, 4),
        other => panic!("expected single, got {:?}", other),
    }
    match parse_selection("-1").unwrap() {
        Selection::Single(i) => assert_eq!(i, -1),
        other => panic!("expected single, got {:?}", other),
    }
}

#[test]
fn parse_selection_ranges() {
    match parse_selection("1..4").unwrap() {
        Selection::Range(start, end) => {
            assert_eq!(start, Some(1));
            assert_eq!(end, Some(4));
        }
        other => panic!("expected range, got {:?}", other),
    }
    match parse_selection("..").unwrap() {
        Selection::Range(start, end) => {
            assert_eq!(start, None);
            assert_eq!(end, None);
        }
        other => panic!("expected range, got {:?}", other),
    }
    match parse_selection("..-1").unwrap() {
        Selection::Range(start, end) => {
            assert_eq!(start, None);
            assert_eq!(end, Some(-1));
        }
        other => panic!("expected range, got {:?}", other),
    }
    match parse_selection("-3..").unwrap() {
        Selection::Range(start, end) => {
            assert_eq!(start, Some(-3));
            assert_eq!(end, None);
        }
        other => panic!("expected range, got {:?}", other),
    }
}

#[test]
fn parse_selection_malformed() {
    match parse_selection("1..2..3") {
        Err(CutsError::MalformedSelection(t)) => assert_eq!(t, "1..2..3"),
        other => panic!("expected malformed, got {:?}", other),
    }
    match parse_selection("....") {
        Err(CutsError::MalformedSelection(t)) => assert_eq!(t, "...."),
        other => panic!("expected malformed, got {:?}", other),
    }
}

#[test]
fn parse_selection_bad_bound() {
    // "1x..2" splits into "1x" and "2"; the first bound fails integer parsing
    match parse_selection("1x..2") {
        Err(CutsError::NonIntegerSelection(t)) => assert_eq!(t, "1x"),
        other => panic!("expected non-integer, got {:?}", other),
    }
    // "..." splits into "" and "."; the second bound is the offender
    match parse_selection("...") {
        Err(CutsError::NonIntegerSelection(t)) => assert_eq!(t, "."),
        other => panic!("expected non-integer, got {:?}", other),
    }
}

#[test]
fn parse_selections_preserves_order() {
    let v = parse_selections("1,2,-2").unwrap();
    assert_eq!(v.len(), 3);
    match (&v[0], &v[1], &v[2]) {
        (Selection::Single(a), Selection::Single(b), Selection::Single(c)) => {
            assert_eq!((*a, *b, *c), (1, 2, -2));
        }
        other => panic!("expected three singles, got {:?}", other),
    }
}

#[test]
fn parse_selections_mixed_terms() {
    let v = parse_selections("1..4,7").unwrap();
    assert_eq!(v.len(), 2);
    match &v[0] {
        Selection::Range(start, end) => {
            assert_eq!(*start, Some(1));
            assert_eq!(*end, Some(4));
        }
        other => panic!("expected range, got {:?}", other),
    }
    match &v[1] {
        Selection::Single(i) => assert_eq!(*i, 7),
        other => panic!("expected single, got {:?}", other),
    }
}

#[test]
fn parse_selections_first_error_wins() {
    // the second component fails before the third is reached
    match parse_selections("1,bad,1..2..3") {
        Err(CutsError::NonIntegerSelection(t)) => assert_eq!(t, "bad"),
        other => panic!("expected non-integer, got {:?}", other),
    }
    match parse_selections("1,2..3..4,bad") {
        Err(CutsError::MalformedSelection(t)) => assert_eq!(t, "2..3..4"),
        other => panic!("expected malformed, got {:?}", other),
    }
}

#[test]
fn parse_selections_empty_components() {
    // the empty string is one empty component, which is not an integer
    match parse_selections("") {
        Err(CutsError::NonIntegerSelection(t)) => assert_eq!(t, ""),
        other => panic!("expected non-integer, got {:?}", other),
    }
    match parse_selections("1,") {
        Err(CutsError::NonIntegerSelection(t)) => assert_eq!(t, ""),
        other => panic!("expected non-integer, got {:?}", other),
    }
}
