use vstd::prelude::*;
use vstd::utf8::{encode_scalar, char_is_scalar};
use crate::config::Config;
use crate::delim::{regex_pattern, regex_split, split_record};
use crate::textutil::{trim_line, trim_spec};

verus! {

/// The record a tokenizer works on: the raw line when trimming is off,
/// the line with surrounding whitespace removed when it is on.
pub open spec fn prepared_line(trimmed: bool, line: Seq<char>) -> Seq<char> {
    if trimmed {
        trim_spec(line)
    } else {
        line
    }
}

/// Encodes one Unicode scalar value into its minimal UTF-8 byte sequence.
pub fn encode_char(c: char) -> (r: Vec<u8>)
    ensures
        r@ == encode_scalar(c as u32),
{
    proof {
        char_is_scalar(c);
    }
    let u = c as u32;
    let mut out: Vec<u8> = Vec::new();
    if u <= 0x7F {
        out.push((u & 0x7F) as u8);
    } else if u <= 0x7FF {
        out.push(0xC0u8 | (((u >> 6) & 0x1F) as u8));
        out.push(0x80u8 | ((u & 0x3F) as u8));
    } else if u <= 0xFFFF {
        out.push(0xE0u8 | (((u >> 12) & 0x0F) as u8));
        out.push(0x80u8 | (((u >> 6) & 0x3F) as u8));
        out.push(0x80u8 | ((u & 0x3F) as u8));
    } else {
        out.push(0xF0u8 | (((u >> 18) & 0x7) as u8));
        out.push(0x80u8 | (((u >> 12) & 0x3F) as u8));
        out.push(0x80u8 | (((u >> 6) & 0x3F) as u8));
        out.push(0x80u8 | ((u & 0x3F) as u8));
    }
    proof {
        assert(out@ =~= encode_scalar(c as u32));
    }
    out
}

/// The field tokenizer: splits the (optionally trimmed) record around the
/// matches of the configured delimiter. When the split yields a single
/// field and the only-if-delimited toggle is on, the record is skipped
/// entirely and contributes no output line.
pub fn fields(config: &Config, line: &str) -> (r: Option<Vec<Vec<u8>>>)
    ensures
        ({
            let parts = regex_split(
                regex_pattern(config.delimiter),
                prepared_line(config.trimmed, line@),
            );
            if config.only_delimited && parts.len() == 1 {
                r is None
            } else {
                &&& r matches Some(v)
                &&& v@.len() == parts.len()
                &&& forall|i: int| 0 <= i < parts.len() ==> v@[i]@ == parts[i]
            }
        }),
{
    let prepared: &str = if config.trimmed {
        trim_line(line)
    } else {
        line
    };
    let split = split_record(&config.delimiter, prepared);
    if config.only_delimited && split.len() == 1 {
        None
    } else {
        Some(split)
    }
}

/// The character tokenizer: decomposes the (optionally trimmed) record
/// into its Unicode scalar values, each re-encoded as its minimal UTF-8
/// bytes to form one element.
pub fn chars(config: &Config, line: &str) -> (r: Vec<Vec<u8>>)
    ensures
        r@.len() == prepared_line(config.trimmed, line@).len(),
        forall|i: int|
            0 <= i < r@.len() ==> r@[i]@ == encode_scalar(
                prepared_line(config.trimmed, line@)[i] as u32,
            ),
{
    let prepared: &str = if config.trimmed {
        trim_line(line)
    } else {
        line
    };
    let n = prepared.unicode_len();
    let mut out: Vec<Vec<u8>> = Vec::new();
    let mut i: usize = 0;
    while i < n
        invariant
            n == prepared@.len(),
            prepared@ == prepared_line(config.trimmed, line@),
            i <= n,
            out@.len() == i,
            forall|k: int| 0 <= k < i ==> out@[k]@ == encode_scalar(prepared@[k] as u32),
        decreases n - i,
    {
        out.push(encode_char(prepared.get_char(i)));
        i += 1;
    }
    out
}

/// The byte tokenizer: every byte of the record forms its own one-byte
/// element. The caller hands in the entire remaining input stream as one
/// record, so embedded line breaks are ordinary elements.
pub fn bytes(data: &[u8]) -> (r: Vec<Vec<u8>>)
    ensures
        r@.len() == data@.len(),
        forall|i: int| 0 <= i < data@.len() ==> r@[i]@ == seq![data@[i]],
{
    let mut out: Vec<Vec<u8>> = Vec::new();
    let mut i: usize = 0;
    while i < data.len()
        invariant
            i <= data@.len(),
            out@.len() == i,
            forall|k: int| 0 <= k < i ==> out@[k]@ == seq![data@[k]],
        decreases data@.len() - i,
    {
        let mut element: Vec<u8> = Vec::new();
        element.push(data[i]);
        out.push(element);
        i += 1;
    }
    out
}

} // verus!
