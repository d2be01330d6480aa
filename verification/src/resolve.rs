use vstd::prelude::*;
use core::ops::Range;
use crate::selection::Selection;

verus! {

/// What a signed logical index denotes against an element count of `len`:
/// a non-negative index in range resolves to itself, a negative index with
/// `len + i >= 0` counts backward from the end, and anything else resolves
/// to nothing.
pub open spec fn resolve_spec(i: int, len: int) -> Option<int> {
    if 0 <= i < len {
        Some(i)
    } else if i < 0 && len + i >= 0 {
        Some(len + i)
    } else {
        None
    }
}

/// The concrete half-open span `[start, end)` that a selection term denotes
/// against an element count of `len`. A single index becomes a one-element
/// span, or the empty span `[0, 0)` when it is out of range. For a range
/// term, an omitted or unresolvable start bound clamps to `0` and an omitted
/// or unresolvable end bound clamps to `len`.
pub open spec fn materialize_spec(t: Selection, len: int) -> (int, int) {
    match t {
        Selection::Single(i) => match resolve_spec(i as int, len) {
            Some(p) => (p, p + 1),
            None => (0, 0),
        },
        Selection::Range(start, end) => {
            let s = match start {
                Some(i) => match resolve_spec(i as int, len) {
                    Some(p) => p,
                    None => 0,
                },
                None => 0,
            };
            let e = match end {
                Some(i) => match resolve_spec(i as int, len) {
                    Some(p) => p,
                    None => len,
                },
                None => len,
            };
            (s, e)
        },
    }
}

/// Maps a signed logical index to a concrete position within an element
/// sequence of length `num_fields`, or `None` when the index is out of
/// bounds in either direction.
pub fn to_concrete_index(selection: isize, num_fields: usize) -> (r: Option<usize>)
    ensures
        r is Some <==> resolve_spec(selection as int, num_fields as int) is Some,
        r matches Some(p) ==> resolve_spec(selection as int, num_fields as int) == Some(p as int),
{
    let n: i128 = num_fields as i128;
    let s: i128 = selection as i128;
    if s >= 0 && s < n {
        Some(selection as usize)
    } else if s < 0 && n + s >= 0 {
        Some((n + s) as usize)
    } else {
        None
    }
}

/// Turns a selection term and an element count into the concrete half-open
/// span it denotes, clamped to `[0, num_fields]` at each bound. A descending
/// range term (resolved start past resolved end) is returned as given; the
/// projection step treats such a span as empty.
pub fn to_concrete_range(selection: &Selection, num_fields: usize) -> (r: Range<usize>)
    ensures
        r.start as int == materialize_spec(*selection, num_fields as int).0,
        r.end as int == materialize_spec(*selection, num_fields as int).1,
        r.end <= num_fields,
{
    match selection {
        Selection::Single(column) => match to_concrete_index(*column, num_fields) {
            Some(index) => index..index + 1,
            None => 0..0,
        },
        Selection::Range(start, end) => {
            let s: usize = match start {
                Some(i) => match to_concrete_index(*i, num_fields) {
                    Some(p) => p,
                    None => 0,
                },
                None => 0,
            };
            let e: usize = match end {
                Some(i) => match to_concrete_index(*i, num_fields) {
                    Some(p) => p,
                    None => num_fields,
                },
                None => num_fields,
            };
            s..e
        },
    }
}

/// Law: a non-negative index below the element count resolves to itself.
pub proof fn lemma_resolve_forward(i: int, len: int)
    requires
        0 <= i < len,
    ensures
        resolve_spec(i, len) == Some(i),
{
}

/// Law: a negative index resolves to `len + i` when that is non-negative,
/// and to nothing when it falls before the start of the sequence.
pub proof fn lemma_resolve_backward(i: int, len: int)
    requires
        i < 0,
    ensures
        len + i >= 0 ==> resolve_spec(i, len) == Some(len + i),
        len + i < 0 ==> resolve_spec(i, len) is None,
{
}

/// Law: an index at or past the element count resolves to nothing.
pub proof fn lemma_resolve_past_end(i: int, len: int)
    requires
        i >= len,
    ensures
        resolve_spec(i, len) is None,
{
}

/// Law: the span of a single-index term is empty exactly when the index
/// resolves to nothing; otherwise it covers exactly one position, namely
/// the resolved one.
pub proof fn lemma_materialize_single(i: isize, len: int)
    requires
        len >= 0,
    ensures
        ({
            let (s, e) = materialize_spec(Selection::Single(i), len);
            match resolve_spec(i as int, len) {
                Some(p) => s == p && e == p + 1,
                None => s == e,
            }
        }),
{
}

/// Law: a materialized span's bounds always lie within `[0, len]`, so
/// slicing under it never reaches past the element sequence; the span of a
/// single-index term is never descending.
pub proof fn lemma_materialize_bounds(t: Selection, len: int)
    requires
        len >= 0,
    ensures
        ({
            let (s, e) = materialize_spec(t, len);
            &&& 0 <= s <= len
            &&& 0 <= e <= len
            &&& (t matches Selection::Single(i) ==> s <= e)
        }),
{
}

/// Law: the fully open range term selects everything: its span against an
/// element count of `len` is `[0, len)`.
pub proof fn lemma_materialize_full_range(len: int)
    requires
        len >= 0,
    ensures
        materialize_spec(Selection::Range(None, None), len) == (0int, len),
{
}

} // verus!
