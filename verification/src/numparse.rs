use vstd::prelude::*;
use crate::selection::CutsError;

verus! {

/// True of the ten ASCII decimal digit characters.
pub open spec fn is_digit(c: char) -> bool {
    48 <= c as u32 <= 57
}

/// The numeric value of one decimal digit character.
pub open spec fn digit_val(c: char) -> int
    recommends
        is_digit(c),
{
    c as u32 - 48
}

/// True when every character of `s` is a decimal digit.
pub open spec fn all_digits(s: Seq<char>) -> bool {
    forall|k: int| 0 <= k < s.len() ==> is_digit(#[trigger] s[k])
}

/// The value of a non-empty digit string read in base ten, most significant
/// digit first.
pub open spec fn digits_val(s: Seq<char>) -> int
    recommends
        all_digits(s),
    decreases s.len(),
{
    if s.len() == 0 {
        0
    } else {
        digits_val(s.drop_last()) * 10 + digit_val(s.last())
    }
}

/// The mathematical value of `s` read as a signed decimal integer: an
/// optional leading `+` or `-` sign followed by at least one digit. `None`
/// when `s` is not of that shape.
pub open spec fn str_int(s: Seq<char>) -> Option<int> {
    if s.len() >= 1 && (s[0] == '+' || s[0] == '-') {
        if s.len() >= 2 && all_digits(s.skip(1)) {
            if s[0] == '-' {
                Some(-digits_val(s.skip(1)))
            } else {
                Some(digits_val(s.skip(1)))
            }
        } else {
            None
        }
    } else if s.len() >= 1 && all_digits(s) {
        Some(digits_val(s))
    } else {
        None
    }
}

/// The value of `s` read as a signed decimal integer that fits in `isize`:
/// `None` when `s` is not a well-formed signed integer or its value
/// overflows the host's signed-integer range.
pub open spec fn isize_of(s: Seq<char>) -> Option<int> {
    match str_int(s) {
        Some(v) => if isize::MIN as int <= v <= isize::MAX as int {
            Some(v)
        } else {
            None
        },
        None => None,
    }
}

/// A digit string's value never decreases as digits are appended.
proof fn lemma_digits_val_nonneg(s: Seq<char>)
    requires
        all_digits(s),
    ensures
        digits_val(s) >= 0,
    decreases s.len(),
{
    if s.len() > 0 {
        assert(all_digits(s.drop_last()));
        lemma_digits_val_nonneg(s.drop_last());
    }
}

/// Parses a selection component as a signed decimal integer. Returns the
/// parsed value exactly when the text is an optionally signed digit string
/// whose value fits in `isize`; otherwise reports the offending text.
pub fn parse_int(string: &str) -> (r: Result<isize, CutsError>)
    ensures
        match isize_of(string@) {
            Some(v) => (r matches Ok(x) && x as int == v),
            None => (r matches Err(e) && e matches CutsError::NonIntegerSelection(t) && t@
                == string@),
        },
{
    let ghost sv = string@;
    let n = string.unicode_len();
    let mut start: usize = 0;
    let mut neg = false;
    if n >= 1 {
        let c0 = string.get_char(0);
        if c0 == '-' {
            neg = true;
            start = 1;
        } else if c0 == '+' {
            start = 1;
        }
    }
    if start >= n {
        // empty input, or a bare sign with no digits
        return Err(CutsError::NonIntegerSelection(string.to_owned()));
    }
    let bound: u128 = if neg {
        (isize::MAX as u128) + 1
    } else {
        isize::MAX as u128
    };
    let mut acc: u128 = 0;
    let mut overflow = false;
    let mut i = start;
    while i < n
        invariant
            n == sv.len(),
            sv == string@,
            start <= i <= n,
            start < n,
            start == 0 || start == 1,
            start == 1 ==> n >= 1 && (sv[0] == '+' || sv[0] == '-') && (neg <==> sv[0] == '-'),
            start == 0 ==> !neg && sv[0] != '+' && sv[0] != '-',
            bound as int == if neg {
                isize::MAX as int + 1
            } else {
                isize::MAX as int
            },
            forall|k: int| start <= k < i ==> is_digit(#[trigger] sv[k]),
            !overflow ==> acc as int == digits_val(sv.subrange(start as int, i as int)) && acc
                <= bound,
            overflow ==> digits_val(sv.subrange(start as int, i as int)) > bound as int,
        decreases n - i,
    {
        let c = string.get_char(i);
        let cv = c as u32;
        if !(48 <= cv && cv <= 57) {
            // a non-digit character: the component is not an integer
            assert(!all_digits(sv.skip(start as int))) by {
                assert(sv.skip(start as int)[i - start] == sv[i as int]);
            }
            assert(str_int(sv) is None);
            return Err(CutsError::NonIntegerSelection(string.to_owned()));
        }
        let d: u128 = (cv - 48) as u128;
        proof {
            assert(sv.subrange(start as int, i + 1).drop_last() =~= sv.subrange(
                start as int,
                i as int,
            ));
            assert(sv.subrange(start as int, i + 1).last() == sv[i as int]);
        }
        if !overflow {
            let next: u128 = acc * 10 + d;
            if next > bound {
                overflow = true;
                proof {
                    assert(digits_val(sv.subrange(start as int, i + 1)) == next);
                }
            } else {
                acc = next;
            }
        } else {
            proof {
                let prev = digits_val(sv.subrange(start as int, i as int));
                assert(digits_val(sv.subrange(start as int, i + 1)) == prev * 10 + digit_val(
                    sv[i as int],
                ));
                assert(prev * 10 >= prev) by {
                    assert(prev > bound as int >= 0);
                }
            }
        }
        i += 1;
    }
    proof {
        assert(sv.subrange(start as int, n as int) =~= sv.skip(start as int));
        if start == 0 {
            assert(sv.skip(0) =~= sv);
        }
        assert(all_digits(sv.skip(start as int)));
        lemma_digits_val_nonneg(sv.skip(start as int));
    }
    if overflow {
        // the magnitude exceeds the host's signed-integer range
        proof {
            assert(isize::MIN as int == -(isize::MAX as int) - 1);
        }
        return Err(CutsError::NonIntegerSelection(string.to_owned()));
    }
    if neg {
        let v: i128 = -(acc as i128);
        proof {
            assert(isize::MIN as int == -(isize::MAX as int) - 1);
        }
        Ok(v as isize)
    } else {
        Ok(acc as isize)
    }
}

} // verus!
