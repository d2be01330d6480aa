use cuts::resolve::{to_concrete_index, to_concrete_range};
use cuts::selection::Selection;

#[test]
fn forward_index_in_range_resolves_to_itself() {
    assert_eq!(to_concrete_index(0, 5), Some(0));
    assert_eq!(to_concrete_index(3, 5), Some(3));
    assert_eq!(to_concrete_index(4, 5), Some(4));
}

#[test]
fn negative_index_counts_from_the_end() {
    assert_eq!(to_concrete_index(-1, 5), Some(4));
    assert_eq!(to_concrete_index(-5, 5), Some(0));
    assert_eq!(to_concrete_index(-6, 5), None);
}

#[test]
fn index_past_the_end_resolves_to_nothing() {
    assert_eq!(to_concrete_index(5, 5), None);
    assert_eq!(to_concrete_index(100, 5), None);
    assert_eq!(to_concrete_index(0, 0), None);
}

#[test]
fn single_span_is_one_position_or_empty() {
    let r = to_concrete_range(&Selection::Single(2), 5);
    assert_eq!((r.start, r.end), (2, 3));
    let r = to_concrete_range(&Selection::Single(-1), 5);
    assert_eq!((r.start, r.end), (4, 5));
    // out of range: the empty span, not an error
    let r = to_concrete_range(&Selection::Single(9), 5);
    assert_eq!((r.start, r.end), (0, 0));
}

#[test]
fn open_range_selects_everything() {
    let r = to_concrete_range(&Selection::Range(None, None), 7);
    assert_eq!((r.start, r.end), (0, 7));
}

#[test]
fn out_of_range_bounds_clamp_to_the_extremes() {
    // start below the sequence clamps to 0
    let r = to_concrete_range(&Selection::Range(Some(-10), Some(2)), 4);
    assert_eq!((r.start, r.end), (0, 2));
    // end past the sequence clamps to the length
    let r = to_concrete_range(&Selection::Range(Some(1), Some(9)), 4);
    assert_eq!((r.start, r.end), (1, 4));
}

#[test]
fn negative_bounds_resolve_before_clamping() {
    let r = to_concrete_range(&Selection::Range(None, Some(-1)), 4);
    assert_eq!((r.start, r.end), (0, 3));
    let r = to_concrete_range(&Selection::Range(Some(-3), None), 4);
    assert_eq!((r.start, r.end), (1, 4));
}

#[test]
fn descending_range_is_returned_as_given() {
    let r = to_concrete_range(&Selection::Range(Some(3), Some(1)), 5);
    assert_eq!((r.start, r.end), (3, 1));
}
