use vstd::prelude::*;
use crate::selection::{CutsError, Selection, SelectionType};
use crate::parse::{parse_selections, selections_ok, selections_val, selections_err};
use crate::delim::{compile_regex, escape_text, escaped, pattern_compiles, regex_pattern};

verus! {

/// The immutable per-run configuration: the ordered selection terms, the
/// compiled delimiter matcher, the output separator, the trim and
/// only-if-delimited toggles, and the active tokenization mode. Built once
/// before processing begins and never mutated afterwards.
pub struct Config {
    pub selections: Vec<Selection>,
    pub delimiter: regex::Regex,
    pub out_delimiter: String,
    pub trimmed: bool,
    pub only_delimited: bool,
    pub selection_type: SelectionType,
}

/// The delimiter pattern a run uses: a raw pattern wins over a literal
/// string delimiter (which is escaped into a pattern); with neither, fields
/// are split on one-or-more whitespace characters.
pub open spec fn chosen_pattern(
    string_delimiter: Option<Seq<char>>,
    regex_delimiter: Option<Seq<char>>,
) -> Seq<char> {
    match regex_delimiter {
        Some(p) => p,
        None => match string_delimiter {
            Some(s) => escaped(s),
            None => ("\\s+")@,
        },
    }
}

/// Builds the run configuration from plain startup values: the selection
/// specification, the optional delimiter overrides, and the toggles.
/// Succeeds exactly when the selection specification parses and the chosen
/// delimiter pattern compiles; the selection errors come first.
pub fn build_config(
    selection: &str,
    string_delimiter: Option<&str>,
    regex_delimiter: Option<&str>,
    trimmed: bool,
    only_delimited: bool,
    selection_type: SelectionType,
) -> (r: Result<Config, CutsError>)
    ensures
        ({
            let pat = chosen_pattern(
                match string_delimiter {
                    Some(s) => Some(s@),
                    None => None,
                },
                match regex_delimiter {
                    Some(s) => Some(s@),
                    None => None,
                },
            );
            &&& (r is Ok <==> selections_ok(selection@) && pattern_compiles(pat))
            &&& match r {
                Ok(config) => {
                    &&& config.selections@ == selections_val(selection@)
                    &&& regex_pattern(config.delimiter) == pat
                    &&& config.out_delimiter@ == (" ")@
                    &&& config.trimmed == trimmed
                    &&& config.only_delimited == only_delimited
                    &&& config.selection_type == selection_type
                },
                Err(e) => selections_err(selection@, e) || ({
                    &&& selections_ok(selection@)
                    &&& !pattern_compiles(pat)
                    &&& e matches CutsError::InvalidDelimiter(t) && t@ == pat
                }),
            }
        }),
{
    let selections = match parse_selections(selection) {
        Ok(v) => v,
        Err(e) => {
            return Err(e);
        },
    };
    let pattern: String = match regex_delimiter {
        Some(p) => p.to_owned(),
        None => match string_delimiter {
            Some(s) => escape_text(s),
            None => String::from_str("\\s+"),
        },
    };
    let delimiter = match compile_regex(pattern.as_str()) {
        Ok(re) => re,
        Err(_) => {
            return Err(CutsError::InvalidDelimiter(pattern));
        },
    };
    Ok(
        Config {
            selections,
            delimiter,
            out_delimiter: String::from_str(" "),
            trimmed,
            only_delimited,
            selection_type,
        },
    )
}

} // verus!
