use vstd::prelude::*;

verus! {

#[verifier::external_type_specification]
#[verifier::external_body]
pub struct ExRegex(regex::Regex);

#[verifier::external_type_specification]
#[verifier::external_body]
pub struct ExRegexError(regex::Error);

/// The pattern text that a compiled delimiter matcher was built from.
pub uninterp spec fn regex_pattern(re: regex::Regex) -> Seq<char>;

/// The pieces of a record around the matches of the given pattern, in
/// order, each as its UTF-8 bytes. The pattern matcher is deterministic, so
/// this depends on the pattern and the haystack alone.
pub uninterp spec fn regex_split(pattern: Seq<char>, haystack: Seq<char>) -> Seq<Seq<u8>>;

/// True of the eighteen characters with significance in a pattern: the set
/// that regex::escape treats as meta characters, which that crate documents
/// as fixed across releases.
pub open spec fn is_meta_char(c: char) -> bool {
    ||| c == '\\'
    ||| c == '.'
    ||| c == '+'
    ||| c == '*'
    ||| c == '?'
    ||| c == '('
    ||| c == ')'
    ||| c == '|'
    ||| c == '['
    ||| c == ']'
    ||| c == '{'
    ||| c == '}'
    ||| c == '^'
    ||| c == '$'
    ||| c == '#'
    ||| c == '&'
    ||| c == '-'
    ||| c == '~'
}

/// The text with a backslash prefixed to each meta character, so that it
/// matches itself literally as a pattern.
pub open spec fn escaped(text: Seq<char>) -> Seq<char>
    decreases text.len(),
{
    if text.len() == 0 {
        Seq::empty()
    } else {
        (if is_meta_char(text[0]) {
            seq!['\\', text[0]]
        } else {
            seq![text[0]]
        }) + escaped(text.drop_first())
    }
}

/// Whether a pattern text compiles as a matcher under the default
/// configuration. Compilation is deterministic in the pattern text alone,
/// so success is a function of it.
pub uninterp spec fn pattern_compiles(pattern: Seq<char>) -> bool;

/// Relies on regex::Regex::new: compilation under the default configuration
/// succeeds or fails deterministically in the pattern text, and on success
/// the returned matcher is compiled from exactly the given pattern text
/// (regex::Regex::as_str hands the same text back).
#[verifier::external_body]
pub fn compile_regex(pattern: &str) -> (r: Result<regex::Regex, regex::Error>)
    ensures
        r is Ok <==> pattern_compiles(pattern@),
        r matches Ok(re) ==> regex_pattern(re) == pattern@,
{
    regex::Regex::new(pattern)
}

/// Relies on regex::Regex::split: yields the substrings of the haystack
/// around the matches of the regex, in order, without the matches
/// themselves; converted here to owned byte vectors.
#[verifier::external_body]
pub fn split_record(re: &regex::Regex, haystack: &str) -> (r: Vec<Vec<u8>>)
    ensures
        r@.len() == regex_split(regex_pattern(*re), haystack@).len(),
        forall|i: int|
            0 <= i < r@.len() ==> r@[i]@ == regex_split(regex_pattern(*re), haystack@)[i],
{
    re.split(haystack).map(|piece| piece.as_bytes().to_vec()).collect()
}

/// Relies on regex::escape: it prefixes a backslash to each meta character
/// and passes every other character through unchanged.
#[verifier::external_body]
pub fn escape_text(text: &str) -> (r: String)
    ensures
        r@ == escaped(text@),
{
    regex::escape(text)
}

} // verus!
