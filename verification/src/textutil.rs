use vstd::prelude::*;

verus! {

/// True of the characters with the Unicode `White_Space` property: the
/// set that line trimming removes at either end of a record.
pub open spec fn is_ws(c: char) -> bool {
    let u = c as u32;
    ||| u == 0x09
    ||| u == 0x0A
    ||| u == 0x0B
    ||| u == 0x0C
    ||| u == 0x0D
    ||| u == 0x20
    ||| u == 0x85
    ||| u == 0xA0
    ||| u == 0x1680
    ||| (0x2000 <= u && u <= 0x200A)
    ||| u == 0x2028
    ||| u == 0x2029
    ||| u == 0x202F
    ||| u == 0x205F
    ||| u == 0x3000
}

/// Decides the Unicode `White_Space` property of one character.
pub fn is_whitespace_char(c: char) -> (r: bool)
    ensures
        r == is_ws(c),
{
    let u = c as u32;
    u == 0x09 || u == 0x0A || u == 0x0B || u == 0x0C || u == 0x0D || u == 0x20 || u == 0x85 || u
        == 0xA0 || u == 0x1680 || (0x2000 <= u && u <= 0x200A) || u == 0x2028 || u == 0x2029 || u
        == 0x202F || u == 0x205F || u == 0x3000
}

/// `s` with its leading whitespace removed.
pub open spec fn trim_start_spec(s: Seq<char>) -> Seq<char>
    decreases s.len(),
{
    if s.len() > 0 && is_ws(s[0]) {
        trim_start_spec(s.drop_first())
    } else {
        s
    }
}

/// `s` with its trailing whitespace removed.
pub open spec fn trim_end_spec(s: Seq<char>) -> Seq<char>
    decreases s.len(),
{
    if s.len() > 0 && is_ws(s.last()) {
        trim_end_spec(s.drop_last())
    } else {
        s
    }
}

/// `s` with both leading and trailing whitespace removed.
pub open spec fn trim_spec(s: Seq<char>) -> Seq<char> {
    trim_end_spec(trim_start_spec(s))
}

proof fn lemma_trim_start(s: Seq<char>, a: int)
    requires
        0 <= a <= s.len(),
        forall|k: int| 0 <= k < a ==> is_ws(#[trigger] s[k]),
        a < s.len() ==> !is_ws(s[a]),
    ensures
        trim_start_spec(s) == s.skip(a),
    decreases a,
{
    if a == 0 {
        assert(s.skip(0) =~= s);
    } else {
        let t = s.drop_first();
        assert(is_ws(s[0]));
        assert forall|k: int| 0 <= k < a - 1 implies is_ws(#[trigger] t[k]) by {
            assert(t[k] == s[k + 1]);
        }
        assert(a - 1 < t.len() ==> !is_ws(t[a - 1]));
        lemma_trim_start(t, a - 1);
        assert(t.skip(a - 1) =~= s.skip(a));
    }
}

proof fn lemma_trim_end(s: Seq<char>, b: int)
    requires
        0 <= b <= s.len(),
        forall|k: int| b <= k < s.len() ==> is_ws(#[trigger] s[k]),
        b > 0 ==> !is_ws(s[b - 1]),
    ensures
        trim_end_spec(s) == s.take(b),
    decreases s.len(),
{
    if b == s.len() {
        if s.len() > 0 {
            assert(!is_ws(s.last()));
        }
        assert(s.take(b) =~= s);
    } else {
        let t = s.drop_last();
        assert(is_ws(s.last()));
        lemma_trim_end(t, b);
        assert(t.take(b) =~= s.take(b));
    }
}

/// Removes leading and trailing whitespace from a record, as line trimming
/// does before tokenization.
pub fn trim_line(line: &str) -> (r: &str)
    ensures
        r@ == trim_spec(line@),
{
    let n = line.unicode_len();
    let mut a: usize = 0;
    let mut scanning = true;
    while scanning
        invariant
            n == line@.len(),
            a <= n,
            forall|k: int| 0 <= k < a ==> is_ws(#[trigger] line@[k]),
            !scanning ==> (a == n || !is_ws(line@[a as int])),
        decreases n - a + (if scanning { 1int } else { 0int }),
    {
        if a < n {
            if is_whitespace_char(line.get_char(a)) {
                a += 1;
            } else {
                scanning = false;
            }
        } else {
            scanning = false;
        }
    }
    let mut b: usize = n;
    scanning = true;
    while scanning
        invariant
            n == line@.len(),
            a <= b <= n,
            forall|k: int| 0 <= k < a ==> is_ws(#[trigger] line@[k]),
            a == n || !is_ws(line@[a as int]),
            forall|k: int| b <= k < n ==> is_ws(#[trigger] line@[k]),
            !scanning ==> (b == a || !is_ws(line@[b - 1])),
        decreases b - a + (if scanning { 1int } else { 0int }),
    {
        if b > a {
            if is_whitespace_char(line.get_char(b - 1)) {
                b -= 1;
            } else {
                scanning = false;
            }
        } else {
            scanning = false;
        }
    }
    proof {
        let sv = line@;
        lemma_trim_start(sv, a as int);
        let t = sv.skip(a as int);
        assert forall|m: int| 0 <= m < t.len() implies t[m] == sv[a + m] by {}
        assert forall|k: int| b - a <= k < t.len() implies is_ws(#[trigger] t[k]) by {
            assert(t[k] == sv[a + k]);
        }
        if b > a {
            assert(t[b - a - 1] == sv[b - 1]);
        }
        lemma_trim_end(t, b - a);
        assert(t.take(b - a) =~= sv.subrange(a as int, b as int));
    }
    line.substring_char(a, b)
}

} // verus!
