//! What a line of the corpus says, as a function of its bytes.
//!
//! The line is read by a cursor that only moves forward. Each step cuts the
//! text that is left at the next occurrence of a marker; what stands before
//! a consumed marker is never looked at again.

use crate::markup::{Marker, MarkerAbsent};
use crate::text::{cut, cut_at_first, cut_rejoins, first_at, occurs_at};
use vstd::prelude::*;

verus! {

/// What one sense block says: its part of speech, where it names one, the
/// authors it cites and its annotation fragments, both in source order.
pub struct SenseContent {
    pub part_of_speech: Option<Seq<u8>>,
    pub citations: Seq<Seq<u8>>,
    pub fragments: Seq<Seq<u8>>,
}

/// What one line says.
pub struct EntryContent {
    pub head: Seq<u8>,
    pub pronunciation: Seq<u8>,
    pub early_tags: Seq<Seq<u8>>,
    pub senses: Seq<SenseContent>,
}

/// The text between the next `open` and the next `close` behind it, with
/// what is left behind that `close`: `Ok((rest, inner))`.
pub open spec fn span(s: Seq<u8>, open: Marker, close: Marker) -> Result<
    (Seq<u8>, Seq<u8>),
    MarkerAbsent,
> {
    match cut(s, open.bytes()) {
        None => Err(MarkerAbsent { marker: open }),
        Some((_, body)) => match cut(body, close.bytes()) {
            None => Err(MarkerAbsent { marker: close }),
            Some((inner, rest)) => Ok((rest, inner)),
        },
    }
}

/// As `span`, for an opening tag that may carry attributes: `open` is the
/// start of the tag, and the text begins behind the next `>`.
pub open spec fn element(s: Seq<u8>, open: Marker, close: Marker) -> Result<
    (Seq<u8>, Seq<u8>),
    MarkerAbsent,
> {
    match cut(s, open.bytes()) {
        None => Err(MarkerAbsent { marker: open }),
        Some((_, attributes)) => span(attributes, Marker::TagEnd, close),
    }
}

/// A span or an element leaves less than it was given.
pub proof fn span_shrinks(s: Seq<u8>, open: Marker, close: Marker)
    ensures
        span(s, open, close) matches Ok((rest, inner)) ==> rest.len() + inner.len() < s.len(),
        element(s, open, close) matches Ok((rest, inner)) ==> rest.len() + inner.len() < s.len(),
{
    open.is_plain();
    close.is_plain();
    Marker::TagEnd.is_plain();
    if cut(s, open.bytes()) is Some {
        cut_rejoins(s, open.bytes());
        let body = cut(s, open.bytes()).unwrap().1;
        if cut(body, close.bytes()) is Some {
            cut_rejoins(body, close.bytes());
        }
        if cut(body, Marker::TagEnd.bytes()) is Some {
            cut_rejoins(body, Marker::TagEnd.bytes());
            let inside = cut(body, Marker::TagEnd.bytes()).unwrap().1;
            if cut(inside, close.bytes()) is Some {
                cut_rejoins(inside, close.bytes());
            }
        }
    }
}

/// The texts of all spans between `open` and `close`, in order, each one
/// looked for behind the one before it.
pub open spec fn spans(s: Seq<u8>, open: Marker, close: Marker) -> Seq<Seq<u8>>
    decreases s.len(),
    via spans_terminates
{
    match span(s, open, close) {
        Err(_) => Seq::empty(),
        Ok((rest, inner)) => seq![inner] + spans(rest, open, close),
    }
}

#[via_fn]
proof fn spans_terminates(s: Seq<u8>, open: Marker, close: Marker) {
    span_shrinks(s, open, close);
}

/// What the text of a sense block says.
pub open spec fn sense_content(body: Seq<u8>) -> SenseContent {
    SenseContent {
        part_of_speech: match element(
            body,
            Marker::PartOfSpeechOpen,
            Marker::PartOfSpeechClose,
        ) {
            Ok((_, inner)) => Some(inner),
            Err(_) => None,
        },
        citations: spans(body, Marker::AuthorOpen, Marker::AuthorClose),
        fragments: spans(body, Marker::FragmentOpen, Marker::FragmentClose),
    }
}

/// The next sense block and what is left behind it: `Ok((rest, sense))`.
pub open spec fn next_sense(s: Seq<u8>) -> Result<(Seq<u8>, SenseContent), MarkerAbsent> {
    match element(s, Marker::SenseOpen, Marker::SenseClose) {
        Ok((rest, body)) => Ok((rest, sense_content(body))),
        Err(e) => Err(e),
    }
}

/// All sense blocks, in order, and what is left behind the last of them:
/// `(rest, senses)`. A block that is opened and never closed ends the list.
pub open spec fn senses(s: Seq<u8>) -> (Seq<u8>, Seq<SenseContent>)
    decreases s.len(),
    via senses_terminates
{
    match next_sense(s) {
        Err(_) => (s, Seq::empty()),
        Ok((rest, sense)) => {
            let (tail, more) = senses(rest);
            (tail, seq![sense] + more)
        },
    }
}

#[via_fn]
proof fn senses_terminates(s: Seq<u8>) {
    span_shrinks(s, Marker::SenseOpen, Marker::SenseClose);
}

/// The text between the headword and the first sense block, or all that
/// follows the headword where there is no sense block.
pub open spec fn preamble(s: Seq<u8>) -> Seq<u8> {
    match cut(s, Marker::SenseOpen.bytes()) {
        Some((before, _)) => before,
        None => s,
    }
}

/// What a line says, and what is left of it behind its last sense block:
/// `Ok((rest, entry))`. The pronunciation stands between `orth_orig="` and
/// the next quote, the headword between the next `>` and `</head>`; a line
/// that lacks one of these four markers says nothing.
pub open spec fn entry_content(line: Seq<u8>) -> Result<(Seq<u8>, EntryContent), MarkerAbsent> {
    match span(line, Marker::Pronunciation, Marker::Quote) {
        Err(e) => Err(e),
        Ok((attributes, pronunciation)) => match span(
            attributes,
            Marker::TagEnd,
            Marker::HeadwordClose,
        ) {
            Err(e) => Err(e),
            Ok((body, head)) => {
                let (rest, senses) = senses(body);
                Ok(
                    (
                        rest,
                        EntryContent {
                            head,
                            pronunciation,
                            early_tags: spans(
                                preamble(body),
                                Marker::FragmentOpen,
                                Marker::FragmentClose,
                            ),
                            senses,
                        },
                    ),
                )
            },
        },
    }
}

/// `text` runs up to `marker`: written behind `text`, the marker begins
/// nowhere before the end of `text`.
pub open spec fn runs_up_to(text: Seq<u8>, marker: Marker) -> bool {
    first_at(text + marker.bytes(), marker.bytes(), text.len() as int)
}

/// A text that runs up to a marker is what the cursor takes before it,
/// whatever follows the marker.
pub proof fn cut_takes_run(text: Seq<u8>, marker: Marker, rest: Seq<u8>)
    requires
        runs_up_to(text, marker),
    ensures
        cut(text + marker.bytes() + rest, marker.bytes()) == Some((text, rest)),
{
    let m = marker.bytes();
    let whole = text + m + rest;
    let n = text.len() as int;
    assert(whole.subrange(n, n + m.len()) =~= m);
    assert forall|j: int| 0 <= j < n implies !occurs_at(whole, m, j) by {
        if occurs_at(whole, m, j) {
            assert((text + m).subrange(j, j + m.len()) =~= whole.subrange(j, j + m.len()));
            assert(occurs_at(text + m, m, j));
        }
    }
    cut_at_first(whole, m, n);
    assert(whole.subrange(0, n) =~= text);
    assert(whole.subrange(n + m.len(), whole.len() as int) =~= rest);
}

/// In a well-formed line the pronunciation and the headword are read as the
/// exact text between their markers, nothing added and nothing cut. A line
/// is well formed where it begins with any text up to `orth_orig="`, the
/// pronunciation runs up to the closing quote, further attributes run up to
/// `>`, and the headword runs up to `</head>`; what follows is free.
pub proof fn well_formed_line_is_read_exactly(
    before: Seq<u8>,
    pronunciation: Seq<u8>,
    attributes: Seq<u8>,
    head: Seq<u8>,
    after: Seq<u8>,
)
    requires
        runs_up_to(before, Marker::Pronunciation),
        runs_up_to(pronunciation, Marker::Quote),
        runs_up_to(attributes, Marker::TagEnd),
        runs_up_to(head, Marker::HeadwordClose),
    ensures
        entry_content(
            before + Marker::Pronunciation.bytes() + pronunciation + Marker::Quote.bytes()
                + attributes + Marker::TagEnd.bytes() + head + Marker::HeadwordClose.bytes()
                + after,
        ) matches Ok((_, entry)) && entry.pronunciation == pronunciation && entry.head == head,
{
    let line = before + Marker::Pronunciation.bytes() + pronunciation + Marker::Quote.bytes()
        + attributes + Marker::TagEnd.bytes() + head + Marker::HeadwordClose.bytes() + after;
    let from_head = head + Marker::HeadwordClose.bytes() + after;
    let from_attributes = attributes + Marker::TagEnd.bytes() + from_head;
    let from_pronunciation = pronunciation + Marker::Quote.bytes() + from_attributes;
    assert(line =~= before + Marker::Pronunciation.bytes() + from_pronunciation);
    cut_takes_run(before, Marker::Pronunciation, from_pronunciation);
    cut_takes_run(pronunciation, Marker::Quote, from_attributes);
    cut_takes_run(attributes, Marker::TagEnd, from_head);
    cut_takes_run(head, Marker::HeadwordClose, after);
}

} // verus!
