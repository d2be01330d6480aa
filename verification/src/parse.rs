use vstd::prelude::*;
use crate::selection::{CutsError, Selection};
use crate::numparse::{isize_of, parse_int};

verus! {

/// The index of the first comma of `s`, or `s.len()` when there is none.
pub open spec fn first_comma_at(s: Seq<char>) -> int
    decreases s.len(),
{
    if s.len() == 0 {
        0
    } else if s[0] == ',' {
        0
    } else {
        1 + first_comma_at(s.drop_first())
    }
}

/// True when a literal `..` occurs in `s` starting at index `k`.
pub open spec fn dotdot_at(s: Seq<char>, k: int) -> bool {
    0 <= k && k + 2 <= s.len() && s[k] == '.' && s[k + 1] == '.'
}

/// The index of the first occurrence of the literal `..` in `s`, or
/// `s.len()` when there is none.
pub open spec fn first_dotdot_at(s: Seq<char>) -> int
    decreases s.len(),
{
    if s.len() < 2 {
        s.len() as int
    } else if s[0] == '.' && s[1] == '.' {
        0
    } else {
        1 + first_dotdot_at(s.drop_first())
    }
}

proof fn lemma_first_comma_at(s: Seq<char>)
    ensures
        0 <= first_comma_at(s) <= s.len(),
        first_comma_at(s) < s.len() ==> s[first_comma_at(s)] == ',',
        forall|k: int| 0 <= k < first_comma_at(s) ==> s[k] != ',',
    decreases s.len(),
{
    if s.len() > 0 && s[0] != ',' {
        lemma_first_comma_at(s.drop_first());
        assert forall|k: int| 0 <= k < first_comma_at(s) implies s[k] != ',' by {
            if k > 0 {
                assert(s.drop_first()[k - 1] == s[k]);
            }
        }
    }
}

proof fn lemma_first_dotdot_at(s: Seq<char>)
    ensures
        0 <= first_dotdot_at(s) <= s.len(),
        first_dotdot_at(s) + 2 <= s.len() ==> dotdot_at(s, first_dotdot_at(s)),
        first_dotdot_at(s) + 2 > s.len() ==> first_dotdot_at(s) == s.len(),
        forall|k: int| 0 <= k < first_dotdot_at(s) ==> !dotdot_at(s, k),
    decreases s.len(),
{
    if s.len() >= 2 && !(s[0] == '.' && s[1] == '.') {
        lemma_first_dotdot_at(s.drop_first());
        assert forall|k: int| 0 <= k < first_dotdot_at(s) implies !dotdot_at(s, k) by {
            if k > 0 && dotdot_at(s, k) {
                assert(s.drop_first()[k - 1] == s[k]);
                assert(s.drop_first()[k] == s[k + 1]);
                assert(dotdot_at(s.drop_first(), k - 1));
            }
        }
    }
}

/// Splitting yields at least one component.
proof fn lemma_split_dotdot_len(s: Seq<char>)
    ensures
        split_dotdot(s).len() >= 1,
    decreases s.len(),
{
    lemma_first_dotdot_at(s);
    let i = first_dotdot_at(s);
    if i + 2 <= s.len() {
        lemma_split_dotdot_len(s.skip(i + 2));
    }
}

/// The comma-separated components of `s`, in order. Splitting keeps empty
/// components, and the empty string has one empty component.
pub open spec fn split_commas(s: Seq<char>) -> Seq<Seq<char>>
    decreases s.len(),
    via split_commas_decreases
{
    let i = first_comma_at(s);
    if i >= s.len() {
        seq![s]
    } else {
        seq![s.take(i)] + split_commas(s.skip(i + 1))
    }
}

#[via_fn]
proof fn split_commas_decreases(s: Seq<char>) {
    lemma_first_comma_at(s);
}

/// The components of `s` around each non-overlapping occurrence of the
/// literal `..`, scanned left to right, in order.
pub open spec fn split_dotdot(s: Seq<char>) -> Seq<Seq<char>>
    decreases s.len(),
    via split_dotdot_decreases
{
    let i = first_dotdot_at(s);
    if i + 2 > s.len() {
        seq![s]
    } else {
        seq![s.take(i)] + split_dotdot(s.skip(i + 2))
    }
}

#[via_fn]
proof fn split_dotdot_decreases(s: Seq<char>) {
    lemma_first_dotdot_at(s);
}

/// What an optional range bound denotes: an empty component is an open
/// bound, a well-formed in-range signed integer is a concrete bound, and
/// anything else is an error.
pub open spec fn bound_of(s: Seq<char>) -> Option<Option<int>> {
    if s.len() == 0 {
        Some(None)
    } else {
        match isize_of(s) {
            Some(v) => Some(Some(v)),
            None => None,
        }
    }
}

/// The selection term that one comma-separated component denotes, or `None`
/// when the component is malformed or holds a non-integer part.
pub open spec fn selection_of(part: Seq<char>) -> Option<Selection> {
    let parts = split_dotdot(part);
    if parts.len() == 1 {
        match isize_of(parts[0]) {
            Some(v) => Some(Selection::Single(v as isize)),
            None => None,
        }
    } else if parts.len() == 2 {
        match (bound_of(parts[0]), bound_of(parts[1])) {
            (Some(b0), Some(b1)) => Some(
                Selection::Range(
                    match b0 {
                        Some(v) => Some(v as isize),
                        None => None,
                    },
                    match b1 {
                        Some(v) => Some(v as isize),
                        None => None,
                    },
                ),
            ),
            _ => None,
        }
    } else {
        None
    }
}

/// The error owed for a component that denotes no selection term: the first
/// non-integer part is reported, and a component with more than two parts
/// is reported whole as malformed.
pub open spec fn selection_err(part: Seq<char>, e: CutsError) -> bool {
    let parts = split_dotdot(part);
    if parts.len() == 1 {
        e matches CutsError::NonIntegerSelection(t) && t@ == parts[0]
    } else if parts.len() == 2 {
        if bound_of(parts[0]) is None {
            e matches CutsError::NonIntegerSelection(t) && t@ == parts[0]
        } else {
            e matches CutsError::NonIntegerSelection(t) && t@ == parts[1]
        }
    } else {
        e matches CutsError::MalformedSelection(t) && t@ == part
    }
}

/// Returns the start index of the first `..` occurring at or after `from`,
/// or the length of `s` when there is none.
fn find_dotdot(s: &str, from: usize) -> (r: usize)
    requires
        from <= s@.len(),
    ensures
        from <= r <= s@.len(),
        r < s@.len() ==> dotdot_at(s@, r as int),
        forall|k: int| from <= k < r ==> !dotdot_at(s@, k),
{
    let n = s.unicode_len();
    let mut i = from;
    while i < n && i + 1 < n
        invariant
            n == s@.len(),
            from <= i <= n,
            forall|k: int| from <= k < i ==> !dotdot_at(s@, k),
        decreases n - i,
    {
        if s.get_char(i) == '.' && s.get_char(i + 1) == '.' {
            return i;
        }
        i += 1;
    }
    n
}

/// Returns the index of the first comma at or after `from`, or the length
/// of `s` when there is none.
fn find_comma(s: &str, from: usize) -> (r: usize)
    requires
        from <= s@.len(),
    ensures
        from <= r <= s@.len(),
        r < s@.len() ==> s@[r as int] == ',',
        forall|k: int| from <= k < r ==> s@[k] != ',',
{
    let n = s.unicode_len();
    let mut i = from;
    while i < n
        invariant
            n == s@.len(),
            from <= i <= n,
            forall|k: int| from <= k < i ==> s@[k] != ',',
        decreases n - i,
    {
        if s.get_char(i) == ',' {
            return i;
        }
        i += 1;
    }
    n
}

/// Parses a possibly empty range bound: the empty string is the open bound,
/// anything else must be a signed integer.
pub fn parse_range_bound(string: &str) -> (r: Result<Option<isize>, CutsError>)
    ensures
        match bound_of(string@) {
            Some(b) => (r matches Ok(v) && match b {
                Some(x) => (v matches Some(y) && y as int == x),
                None => v is None,
            }),
            None => (r matches Err(e) && e matches CutsError::NonIntegerSelection(t) && t@
                == string@),
        },
{
    if string.unicode_len() == 0 {
        Ok(None)
    } else {
        match parse_int(string) {
            Ok(v) => Ok(Some(v)),
            Err(e) => Err(e),
        }
    }
}

/// Parses one comma-separated component into a selection term. A component
/// without `..` is a single index; one with exactly one `..` is a range
/// with optional bounds; any other shape is malformed.
pub fn parse_selection(selection: &str) -> (r: Result<Selection, CutsError>)
    ensures
        match selection_of(selection@) {
            Some(sel) => (r matches Ok(v) && v == sel),
            None => (r matches Err(e) && selection_err(selection@, e)),
        },
{
    let ghost sv = selection@;
    let n = selection.unicode_len();
    let first = find_dotdot(selection, 0);
    proof {
        lemma_first_dotdot_at(sv);
        let f = first_dotdot_at(sv);
        if f < first {
            if f + 2 <= sv.len() {
                assert(dotdot_at(sv, f));
            }
            assert(false);
        }
        if f > first {
            assert(first < n);
            assert(dotdot_at(sv, first as int));
            assert(false);
        }
    }
    if first == n {
        // no `..`: the whole component is a single index
        proof {
            assert(first_dotdot_at(sv) == n);
            assert(split_dotdot(sv) =~= seq![sv]);
        }
        match parse_int(selection) {
            Ok(v) => Ok(Selection::Single(v)),
            Err(e) => Err(e),
        }
    } else {
        proof {
            assert(first_dotdot_at(sv) == first);
        }
        let rest_start = first + 2;
        let second = find_dotdot(selection, rest_start);
        let ghost rest = sv.skip(rest_start as int);
        proof {
            lemma_first_dotdot_at(rest);
            assert forall|k: int| 0 <= k < rest.len() implies rest[k] == sv[rest_start + k] by {}
            assert(split_dotdot(sv) == seq![sv.take(first as int)] + split_dotdot(rest));
        }
        if second < n {
            // a second `..`: the component is malformed
            proof {
                let k = second - rest_start;
                assert(dotdot_at(sv, second as int));
                assert(rest[k] == sv[rest_start + k] && rest[k + 1] == sv[rest_start + k + 1]);
                assert(dotdot_at(rest, k));
                let j = first_dotdot_at(rest);
                assert(j + 2 <= rest.len());
                lemma_split_dotdot_len(rest.skip(j + 2));
                assert(split_dotdot(rest) == seq![rest.take(j)] + split_dotdot(rest.skip(j + 2)));
                assert(split_dotdot(rest).len() >= 2);
                assert(split_dotdot(sv).len() >= 3);
            }
            Err(CutsError::MalformedSelection(selection.to_owned()))
        } else {
            proof {
                assert forall|k: int| 0 <= k < rest.len() && k + 2 <= rest.len() implies !dotdot_at(
                    rest,
                    k,
                ) by {
                    assert(!dotdot_at(sv, rest_start + k));
                }
                assert(first_dotdot_at(rest) + 2 > rest.len());
                assert(split_dotdot(rest) =~= seq![rest]);
                assert(split_dotdot(sv) =~= seq![sv.take(first as int), rest]);
            }
            let part0 = selection.substring_char(0, first);
            let part1 = selection.substring_char(rest_start, n);
            match parse_range_bound(part0) {
                Ok(b0) => match parse_range_bound(part1) {
                    Ok(b1) => Ok(Selection::Range(b0, b1)),
                    Err(e) => Err(e),
                },
                Err(e) => Err(e),
            }
        }
    }
}

/// True when every comma-separated component of `s` denotes a selection
/// term.
pub open spec fn selections_ok(s: Seq<char>) -> bool {
    forall|k: int|
        0 <= k < split_commas(s).len() ==> #[trigger] selection_of(split_commas(s)[k]) is Some
}

/// The ordered list of selection terms that `s` denotes, assuming every
/// component is well-formed.
pub open spec fn selections_val(s: Seq<char>) -> Seq<Selection>
    recommends
        selections_ok(s),
{
    Seq::new(split_commas(s).len(), |k: int| selection_of(split_commas(s)[k]).unwrap())
}

/// The error owed for a selection specification with an ill-formed
/// component: the error of the leftmost component that denotes no term.
pub open spec fn selections_err(s: Seq<char>, e: CutsError) -> bool {
    exists|k: int|
        0 <= k < split_commas(s).len() && #[trigger] selection_of(split_commas(s)[k]) is None && (
        forall|j: int| 0 <= j < k ==> selection_of(split_commas(s)[j]) is Some) && selection_err(
            split_commas(s)[k],
            e,
        )
}

/// Parses a comma-separated selection specification into its ordered list
/// of selection terms. Components are parsed left to right; the first
/// malformed or non-integer component aborts with its error.
pub fn parse_selections(selections: &str) -> (r: Result<Vec<Selection>, CutsError>)
    ensures
        match r {
            Ok(v) => selections_ok(selections@) && v@ == selections_val(selections@),
            Err(e) => selections_err(selections@, e),
        },
{
    let ghost sv = selections@;
    let ghost parts = split_commas(sv);
    let n = selections.unicode_len();
    let mut out: Vec<Selection> = Vec::new();
    let mut pos: usize = 0;
    proof {
        assert(sv.skip(0) =~= sv);
        assert(parts.skip(0) =~= parts);
    }
    loop
        invariant
            n == sv.len(),
            sv == selections@,
            parts == split_commas(sv),
            pos <= n,
            out@.len() <= parts.len(),
            forall|j: int|
                0 <= j < out@.len() ==> #[trigger] selection_of(parts[j]) is Some && out@[j]
                    == selection_of(parts[j]).unwrap(),
            split_commas(sv.skip(pos as int)) == parts.skip(out@.len() as int),
        decreases n - pos,
    {
        let j = find_comma(selections, pos);
        let ghost suffix = sv.skip(pos as int);
        proof {
            lemma_first_comma_at(suffix);
            assert forall|m: int| 0 <= m < suffix.len() implies suffix[m] == sv[pos + m] by {}
            let f = first_comma_at(suffix);
            if f < j - pos {
                assert(suffix[f] == ',');
                assert(sv[pos + f] != ',');
                assert(false);
            }
            if f > j - pos {
                assert(j < n);
                assert(suffix[j - pos] != ',');
                assert(sv[pos + (j - pos)] == sv[j as int]);
                assert(false);
            }
            assert(first_comma_at(suffix) == j - pos);
        }
        let part = selections.substring_char(pos, j);
        let ghost k = out@.len() as int;
        proof {
            if j == n {
                assert(split_commas(suffix) =~= seq![suffix]);
                assert(suffix =~= part@);
                assert(parts.skip(k) =~= seq![part@]);
                assert(parts.len() == k + 1);
                assert(parts.skip(k)[0] == part@);
                assert(parts[k] == part@);
            } else {
                let tail = sv.skip(j + 1);
                assert(split_commas(suffix) == seq![suffix.take(j - pos)] + split_commas(
                    suffix.skip(j - pos + 1),
                ));
                assert(suffix.take(j - pos) =~= part@);
                assert(suffix.skip(j - pos + 1) =~= tail);
                assert(parts.skip(k)[0] == part@);
                assert(parts.len() > k);
                assert(parts[k] == part@);
                assert(parts.skip(k + 1) =~= split_commas(tail)) by {
                    assert(parts.skip(k) == seq![part@] + split_commas(tail));
                    assert forall|m: int| 0 <= m < parts.len() - k - 1 implies parts.skip(k + 1)[m]
                        == split_commas(tail)[m] by {
                        assert(parts.skip(k)[m + 1] == split_commas(tail)[m]);
                    }
                }
            }
        }
        match parse_selection(part) {
            Ok(sel) => {
                out.push(sel);
            },
            Err(e) => {
                proof {
                    assert(selection_of(parts[k]) is None);
                    assert(0 <= k < parts.len() && selection_of(split_commas(sv)[k]) is None && (
                    forall|j: int| 0 <= j < k ==> selection_of(split_commas(sv)[j]) is Some)
                        && selection_err(split_commas(sv)[k], e));
                }
                return Err(e);
            },
        }
        if j == n {
            proof {
                assert(out@ =~= selections_val(sv));
            }
            return Ok(out);
        }
        pos = j + 1;
    }
}

} // verus!
