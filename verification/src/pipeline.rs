use vstd::prelude::*;
use vstd::utf8::{encode_scalar, encode_utf8};
use crate::selection::{Selection, SelectionType};
use crate::config::Config;
use crate::resolve::{materialize_spec, to_concrete_range};
use crate::delim::{regex_pattern, regex_split};
use crate::tokenize::{bytes, chars, fields, prepared_line};

verus! {

/// The byte sequences held by a vector of byte vectors, in order.
pub open spec fn views_of(v: Seq<Vec<u8>>) -> Seq<Seq<u8>> {
    Seq::new(v.len(), |i: int| v[i]@)
}

/// The elements an element sequence contributes for one selection term:
/// the slice under the term's materialized span. A descending span (start
/// past end, possible only for an explicit descending range selection)
/// contributes nothing.
pub open spec fn span_slice(elements: Seq<Seq<u8>>, t: Selection) -> Seq<Seq<u8>> {
    let span = materialize_spec(t, elements.len() as int);
    if span.0 <= span.1 {
        elements.subrange(span.0, span.1)
    } else {
        Seq::empty()
    }
}

/// The projection of an element sequence under an ordered list of
/// selection terms: the concatenation of every term's slice, in term
/// order. Terms may overlap or repeat; repeated elements appear once per
/// selection.
pub open spec fn project_spec(terms: Seq<Selection>, elements: Seq<Seq<u8>>) -> Seq<Seq<u8>>
    decreases terms.len(),
{
    if terms.len() == 0 {
        Seq::empty()
    } else {
        project_spec(terms.drop_last(), elements) + span_slice(elements, terms.last())
    }
}

/// The selected elements joined with the output separator.
pub open spec fn join_spec(parts: Seq<Seq<u8>>, sep: Seq<u8>) -> Seq<u8>
    decreases parts.len(),
{
    if parts.len() == 0 {
        Seq::empty()
    } else if parts.len() == 1 {
        parts[0]
    } else {
        join_spec(parts.drop_last(), sep) + sep + parts.last()
    }
}

/// The full output owed for one record: project every selection term over
/// its element sequence, then join the selected elements with the output
/// separator. An empty projection still owes an (empty) output record.
pub open spec fn record_output(
    selections: Seq<Selection>,
    elements: Seq<Seq<u8>>,
    sep: Seq<u8>,
) -> Seq<u8> {
    join_spec(project_spec(selections, elements), sep)
}

/// Appends the bytes of `src` to `out`.
fn push_bytes(out: &mut Vec<u8>, src: &Vec<u8>)
    ensures
        final(out)@ == old(out)@ + src@,
{
    let mut i: usize = 0;
    while i < src.len()
        invariant
            i <= src@.len(),
            out@ == old(out)@ + src@.take(i as int),
        decreases src@.len() - i,
    {
        out.push(src[i]);
        proof {
            assert(src@.take(i + 1) =~= src@.take(i as int).push(src@[i as int]));
        }
        i += 1;
    }
    proof {
        assert(src@.take(src@.len() as int) =~= src@);
    }
}

/// A fresh copy of one element's bytes.
fn copy_bytes(src: &Vec<u8>) -> (r: Vec<u8>)
    ensures
        r@ == src@,
{
    let mut out: Vec<u8> = Vec::new();
    push_bytes(&mut out, src);
    out
}

/// Applies every selection term to the element sequence, in parse order,
/// and concatenates the selected elements.
pub fn project(selections: &Vec<Selection>, elements: &Vec<Vec<u8>>) -> (r: Vec<Vec<u8>>)
    ensures
        views_of(r@) == project_spec(selections@, views_of(elements@)),
{
    let ghost ev = views_of(elements@);
    let mut out: Vec<Vec<u8>> = Vec::new();
    proof {
        assert(views_of(out@) =~= project_spec(selections@.take(0), ev));
    }
    let mut ti: usize = 0;
    while ti < selections.len()
        invariant
            ti <= selections@.len(),
            ev == views_of(elements@),
            views_of(out@) == project_spec(selections@.take(ti as int), ev),
        decreases selections@.len() - ti,
    {
        let range = to_concrete_range(&selections[ti], elements.len());
        let s = range.start;
        let e = range.end;
        let ghost span = materialize_spec(selections@[ti as int], ev.len() as int);
        proof {
            assert(ev.len() == elements@.len());
            assert(span.0 == s as int && span.1 == e as int);
        }
        if s <= e {
            let mut k = s;
            while k < e
                invariant
                    s <= k <= e <= elements@.len(),
                    ev == views_of(elements@),
                    views_of(out@) == project_spec(selections@.take(ti as int), ev) + ev.subrange(
                        s as int,
                        k as int,
                    ),
                decreases e - k,
            {
                let element = copy_bytes(&elements[k]);
                out.push(element);
                proof {
                    assert(views_of(out@) =~= (project_spec(selections@.take(ti as int), ev)
                        + ev.subrange(s as int, k as int)).push(ev[k as int]));
                    assert(ev.subrange(s as int, k + 1) =~= ev.subrange(s as int, k as int).push(
                        ev[k as int],
                    ));
                    assert((project_spec(selections@.take(ti as int), ev) + ev.subrange(
                        s as int,
                        k as int,
                    )).push(ev[k as int]) =~= project_spec(selections@.take(ti as int), ev)
                        + ev.subrange(s as int, k + 1));
                }
                k += 1;
            }
            proof {
                assert(span_slice(ev, selections@[ti as int]) == ev.subrange(s as int, e as int));
            }
        } else {
            proof {
                assert(span_slice(ev, selections@[ti as int]) =~= Seq::<Seq<u8>>::empty());
                assert(project_spec(selections@.take(ti as int), ev) + Seq::<Seq<u8>>::empty()
                    =~= project_spec(selections@.take(ti as int), ev));
            }
        }
        proof {
            assert(selections@.take(ti + 1).drop_last() =~= selections@.take(ti as int));
            assert(selections@.take(ti + 1).last() == selections@[ti as int]);
            assert(views_of(out@) == project_spec(selections@.take(ti + 1), ev));
        }
        ti += 1;
    }
    proof {
        assert(selections@.take(selections@.len() as int) =~= selections@);
    }
    out
}

/// Joins the selected elements with the output separator.
pub fn render(parts: &Vec<Vec<u8>>, sep: &Vec<u8>) -> (r: Vec<u8>)
    ensures
        r@ == join_spec(views_of(parts@), sep@),
{
    let ghost pv = views_of(parts@);
    let mut out: Vec<u8> = Vec::new();
    let mut i: usize = 0;
    while i < parts.len()
        invariant
            i <= parts@.len(),
            pv == views_of(parts@),
            out@ == join_spec(pv.take(i as int), sep@),
        decreases parts@.len() - i,
    {
        if i > 0 {
            push_bytes(&mut out, sep);
        }
        push_bytes(&mut out, &parts[i]);
        proof {
            assert(pv.take(i + 1).last() == pv[i as int]);
            if i == 0 {
                assert(join_spec(pv.take(1), sep@) == pv.take(1)[0]);
                assert(out@ =~= pv[0]);
            } else {
                assert(pv.take(i + 1).drop_last() =~= pv.take(i as int));
            }
        }
        i += 1;
    }
    proof {
        assert(pv.take(pv.len() as int) =~= pv);
    }
    out
}

/// Produces the output record owed for one element sequence: every
/// selection term materialized and sliced, the selected elements joined
/// with the configured output separator.
pub fn process_record(config: &Config, elements: &Vec<Vec<u8>>) -> (r: Vec<u8>)
    ensures
        r@ == record_output(
            config.selections@,
            views_of(elements@),
            encode_utf8(config.out_delimiter@),
        ),
{
    let sep = config.out_delimiter.as_str().as_bytes_vec();
    let projected = project(&config.selections, elements);
    render(&projected, &sep)
}

/// The output owed for one input line, or `None` when the record is
/// skipped: a single undelimited field-mode record under the
/// only-if-delimited toggle. Byte mode is stream-scoped rather than
/// line-scoped, so no line owes output under it.
pub open spec fn line_output(config: Config, line: Seq<char>) -> Option<Seq<u8>> {
    match config.selection_type {
        SelectionType::Fields => {
            let parts = regex_split(
                regex_pattern(config.delimiter),
                prepared_line(config.trimmed, line),
            );
            if config.only_delimited && parts.len() == 1 {
                None
            } else {
                Some(
                    record_output(config.selections@, parts, encode_utf8(config.out_delimiter@)),
                )
            }
        },
        SelectionType::Characters => {
            let prepared = prepared_line(config.trimmed, line);
            let elems = Seq::new(prepared.len(), |i: int| encode_scalar(prepared[i] as u32));
            Some(record_output(config.selections@, elems, encode_utf8(config.out_delimiter@)))
        },
        SelectionType::Bytes => None,
    }
}

/// Processes one input line under field or character mode, yielding the
/// output record's bytes, or nothing for a skipped record. Under byte
/// mode lines owe no output (see `cut_stream`), so the result is `None`.
pub fn cut_line(config: &Config, line: &str) -> (r: Option<Vec<u8>>)
    ensures
        (r is Some <==> line_output(*config, line@) is Some),
        (r matches Some(v) ==> line_output(*config, line@) == Some(v@)),
{
    match config.selection_type {
        SelectionType::Fields => match fields(config, line) {
            Some(elems) => {
                proof {
                    assert(views_of(elems@) =~= regex_split(
                        regex_pattern(config.delimiter),
                        prepared_line(config.trimmed, line@),
                    ));
                }
                Some(process_record(config, &elems))
            },
            None => None,
        },
        SelectionType::Characters => {
            let elems = chars(config, line);
            proof {
                let prepared = prepared_line(config.trimmed, line@);
                assert(views_of(elems@) =~= Seq::new(
                    prepared.len(),
                    |i: int| encode_scalar(prepared[i] as u32),
                ));
            }
            Some(process_record(config, &elems))
        },
        SelectionType::Bytes => None,
    }
}

/// Processes the entire remaining input stream as one byte-mode record:
/// every byte is its own element, embedded line breaks included.
pub fn cut_stream(config: &Config, data: &[u8]) -> (r: Vec<u8>)
    ensures
        r@ == record_output(
            config.selections@,
            Seq::new(data@.len(), |i: int| seq![data@[i]]),
            encode_utf8(config.out_delimiter@),
        ),
{
    let elems = bytes(data);
    proof {
        assert(views_of(elems@) =~= Seq::new(data@.len(), |i: int| seq![data@[i]]));
    }
    process_record(config, &elems)
}

/// Law: selecting the same term twice yields the selected elements twice,
/// in order.
pub proof fn lemma_select_twice(t: Selection, elements: Seq<Seq<u8>>)
    ensures
        project_spec(seq![t, t], elements) == span_slice(elements, t) + span_slice(elements, t),
{
    let pair = seq![t, t];
    assert(pair.drop_last() =~= seq![t]);
    assert(seq![t].drop_last() =~= Seq::<Selection>::empty());
    assert(seq![t].last() == t);
    assert(pair.last() == t);
    assert(project_spec(Seq::<Selection>::empty(), elements) == Seq::<Seq<u8>>::empty());
    assert(project_spec(seq![t], elements) == Seq::<Seq<u8>>::empty() + span_slice(elements, t));
    assert(Seq::<Seq<u8>>::empty() + span_slice(elements, t) =~= span_slice(elements, t));
    assert(project_spec(pair, elements) == project_spec(seq![t], elements) + span_slice(
        elements,
        t,
    ));
}

} // verus!
