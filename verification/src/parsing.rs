//! Reading one line of the corpus into an [`Entry`].
//!
//! The strings of an entry are slices of the line it was read from. What
//! they must be is said by [`crate::grammar`]; the functions here are proved
//! to find exactly that.

use crate::grammar::{
    element, entry_content, next_sense, senses, span, span_shrinks, spans, EntryContent,
    SenseContent,
};
use crate::markup::{advance_past, take_until, Marker, MarkerAbsent};
use crate::order::{
    ascending, ascending_has_no_duplicates, is_sorted_set_of, sorted_set, sorted_set_is_unique,
    texts,
};
use vstd::prelude::*;
use vstd::string::StringSliceAdditionalSpecFns;

verus! {

/// A line lacks one of the markers that every entry has.
#[derive(Clone, Copy, Debug, PartialEq, Eq, Structural)]
pub struct MalformedEntry {
    pub absent: Marker,
}

/// The bytes of a string that may be absent.
pub open spec fn text_of(s: Option<&str>) -> Option<Seq<u8>> {
    match s {
        Some(s) => Some(s.spec_bytes()),
        None => None,
    }
}

/// What a [`Sense`] holds, each string by its bytes.
pub struct SenseView {
    pub part_of_speech: Option<Seq<u8>>,
    pub authors: Seq<Seq<u8>>,
    pub annotation_fragments: Seq<Seq<u8>>,
}

impl SenseView {
    /// The sense holds what the block says: its part of speech and its
    /// fragments as they stand, and the sorted set of the authors it cites.
    pub open spec fn reads(self, content: SenseContent) -> bool {
        &&& self.part_of_speech == content.part_of_speech
        &&& is_sorted_set_of(self.authors, content.citations)
        &&& self.annotation_fragments == content.fragments
    }
}

/// One meaning of a headword.
#[derive(Debug, PartialEq)]
pub struct Sense<'a> {
    part_of_speech: Option<&'a str>,
    authors: Vec<&'a str>,
    annotation_fragments: Vec<&'a str>,
}

impl<'a> View for Sense<'a> {
    type V = SenseView;

    closed spec fn view(&self) -> SenseView {
        SenseView {
            part_of_speech: text_of(self.part_of_speech),
            authors: texts(self.authors@),
            annotation_fragments: texts(self.annotation_fragments@),
        }
    }
}

impl<'a> Sense<'a> {
    #[verifier::type_invariant]
    spec fn authors_ascend(&self) -> bool {
        ascending(texts(self.authors@))
    }

    /// A sense with the given part of speech and fragments, citing the
    /// given authors: of `citations` it keeps the sorted set.
    pub fn new(
        part_of_speech: Option<&'a str>,
        citations: Vec<&'a str>,
        annotation_fragments: Vec<&'a str>,
    ) -> (sense: Self)
        ensures
            sense@.part_of_speech == text_of(part_of_speech),
            is_sorted_set_of(sense@.authors, texts(citations@)),
            sense@.annotation_fragments == texts(annotation_fragments@),
    {
        let authors = sorted_set(&citations);
        Sense { part_of_speech, authors, annotation_fragments }
    }

    /// The part of speech, where the block names one.
    pub fn part_of_speech(&self) -> (r: Option<&'a str>)
        ensures
            text_of(r) == self@.part_of_speech,
    {
        self.part_of_speech
    }

    /// The authors cited, ascending, each once.
    pub fn authors(&self) -> (r: &Vec<&'a str>)
        ensures
            texts(r@) == self@.authors,
            ascending(self@.authors),
            self@.authors.no_duplicates(),
    {
        proof {
            use_type_invariant(self);
            ascending_has_no_duplicates(texts(self.authors@));
        }
        &self.authors
    }

    /// The annotation fragments, in source order.
    pub fn annotation_fragments(&self) -> (r: &Vec<&'a str>)
        ensures
            texts(r@) == self@.annotation_fragments,
    {
        &self.annotation_fragments
    }
}

/// A list of the same strings.
fn copied<'a>(list: &Vec<&'a str>) -> (copy: Vec<&'a str>)
    ensures
        copy@ == list@,
{
    let mut copy: Vec<&'a str> = Vec::new();
    let mut at: usize = 0;
    while at < list.len()
        invariant
            at <= list.len(),
            copy@ == list@.subrange(0, at as int),
        decreases list.len() - at,
    {
        copy.push(list[at]);
        assert(copy@ =~= list@.subrange(0, at + 1));
        at += 1;
    }
    assert(list@.subrange(0, at as int) =~= list@);
    copy
}

impl<'a> Clone for Sense<'a> {
    /// A sense that holds the same.
    fn clone(&self) -> (sense: Self)
        ensures
            sense@ == self@,
    {
        proof {
            use_type_invariant(self);
        }
        Sense {
            part_of_speech: self.part_of_speech,
            authors: copied(&self.authors),
            annotation_fragments: copied(&self.annotation_fragments),
        }
    }
}

/// The views of a list of senses.
pub open spec fn views(v: Seq<Sense>) -> Seq<SenseView> {
    Seq::new(v.len(), |i: int| v[i]@)
}

/// Each sense of `held` reads the block of `said` at its place.
pub open spec fn all_read(held: Seq<SenseView>, said: Seq<SenseContent>) -> bool {
    &&& held.len() == said.len()
    &&& forall|i: int| 0 <= i < held.len() ==> (#[trigger] held[i]).reads(said[i])
}

/// What an [`Entry`] holds, each string by its bytes.
pub struct EntryView {
    pub head: Seq<u8>,
    pub pronunciation: Seq<u8>,
    pub early_tags: Seq<Seq<u8>>,
    pub senses: Seq<SenseView>,
}

impl EntryView {
    /// The entry holds what the line says.
    pub open spec fn reads(self, content: EntryContent) -> bool {
        &&& self.head == content.head
        &&& self.pronunciation == content.pronunciation
        &&& self.early_tags == content.early_tags
        &&& all_read(self.senses, content.senses)
    }
}

/// One record of the dictionary.
#[derive(Debug, PartialEq)]
pub struct Entry<'a> {
    head: &'a str,
    pronunciation: &'a str,
    early_tags: Vec<&'a str>,
    senses: Vec<Sense<'a>>,
}

impl<'a> View for Entry<'a> {
    type V = EntryView;

    closed spec fn view(&self) -> EntryView {
        EntryView {
            head: self.head.spec_bytes(),
            pronunciation: self.pronunciation.spec_bytes(),
            early_tags: texts(self.early_tags@),
            senses: views(self.senses@),
        }
    }
}

impl<'a> Entry<'a> {
    /// An entry of the given parts.
    pub fn new(
        head: &'a str,
        pronunciation: &'a str,
        early_tags: Vec<&'a str>,
        senses: Vec<Sense<'a>>,
    ) -> (entry: Self)
        ensures
            entry@.head == head.spec_bytes(),
            entry@.pronunciation == pronunciation.spec_bytes(),
            entry@.early_tags == texts(early_tags@),
            entry@.senses == views(senses@),
    {
        Entry { head, pronunciation, early_tags, senses }
    }

    /// The headword.
    pub fn head(&self) -> (r: &'a str)
        ensures
            r.spec_bytes() == self@.head,
    {
        self.head
    }

    /// The pronunciation of the headword.
    pub fn pronunciation(&self) -> (r: &'a str)
        ensures
            r.spec_bytes() == self@.pronunciation,
    {
        self.pronunciation
    }

    /// The annotation fragments that stand before the first sense.
    pub fn early_tags(&self) -> (r: &Vec<&'a str>)
        ensures
            texts(r@) == self@.early_tags,
    {
        &self.early_tags
    }

    /// The senses, in source order.
    pub fn senses(&self) -> (r: &Vec<Sense<'a>>)
        ensures
            views(r@) == self@.senses,
    {
        &self.senses
    }
}

/// The cursor found what the grammar says: the same text and the same rest,
/// or the same marker absent.
pub open spec fn yields(
    r: Result<(&str, &str), MarkerAbsent>,
    said: Result<(Seq<u8>, Seq<u8>), MarkerAbsent>,
) -> bool {
    match said {
        Ok((rest, inner)) => r matches Ok((tail, taken)) && tail.spec_bytes() == rest
            && taken.spec_bytes() == inner,
        Err(absent) => r matches Err(e) && e == absent,
    }
}

/// The text between the next `open` and the next `close` behind it:
/// `Ok((rest, text))`.
pub fn take_span<'a>(input: &'a str, open: Marker, close: Marker) -> (r: Result<
    (&'a str, &'a str),
    MarkerAbsent,
>)
    ensures
        yields(r, span(input.spec_bytes(), open, close)),
{
    match advance_past(input, open) {
        Err(e) => Err(e),
        Ok(body) => take_until(body, close),
    }
}

/// The text of the next element whose opening tag starts with `open`:
/// `Ok((rest, text))`.
pub fn take_element<'a>(input: &'a str, open: Marker, close: Marker) -> (r: Result<
    (&'a str, &'a str),
    MarkerAbsent,
>)
    ensures
        yields(r, element(input.spec_bytes(), open, close)),
{
    match advance_past(input, open) {
        Err(e) => Err(e),
        Ok(attributes) => take_span(attributes, Marker::TagEnd, close),
    }
}

/// The texts of all spans between `open` and `close`, in source order.
pub fn take_spans<'a>(input: &'a str, open: Marker, close: Marker) -> (found: Vec<&'a str>)
    ensures
        texts(found@) == spans(input.spec_bytes(), open, close),
{
    let mut found: Vec<&'a str> = Vec::new();
    let mut rest: &'a str = input;
    loop
        invariant
            spans(input.spec_bytes(), open, close) == texts(found@) + spans(
                rest.spec_bytes(),
                open,
                close,
            ),
        ensures
            texts(found@) == spans(input.spec_bytes(), open, close),
        decreases rest.spec_bytes().len(),
    {
        match take_span(rest, open, close) {
            Err(_) => {
                assert(texts(found@) + Seq::<Seq<u8>>::empty() =~= texts(found@));
                break ;
            },
            Ok((tail, inner)) => {
                proof {
                    span_shrinks(rest.spec_bytes(), open, close);
                    assert(texts(found@.push(inner)) + spans(tail.spec_bytes(), open, close)
                        =~= texts(found@) + (seq![inner.spec_bytes()] + spans(
                        tail.spec_bytes(),
                        open,
                        close,
                    )));
                }
                found.push(inner);
                rest = tail;
            },
        }
    }
    found
}

/// The next annotation fragment: `Ok((rest, text))`.
pub fn chomp_and_get_i_tag<'a>(input: &'a str) -> (r: Result<(&'a str, &'a str), MarkerAbsent>)
    ensures
        yields(r, span(input.spec_bytes(), Marker::FragmentOpen, Marker::FragmentClose)),
{
    take_span(input, Marker::FragmentOpen, Marker::FragmentClose)
}

/// The next author citation: `Ok((rest, text))`.
pub fn chomp_and_get_author_tag<'a>(input: &'a str) -> (r: Result<
    (&'a str, &'a str),
    MarkerAbsent,
>)
    ensures
        yields(r, span(input.spec_bytes(), Marker::AuthorOpen, Marker::AuthorClose)),
{
    take_span(input, Marker::AuthorOpen, Marker::AuthorClose)
}

/// The next part of speech, whatever attributes its tag has:
/// `Ok((rest, text))`.
pub fn chomp_and_get_pos_tag<'a>(input: &'a str) -> (r: Result<(&'a str, &'a str), MarkerAbsent>)
    ensures
        yields(
            r,
            element(input.spec_bytes(), Marker::PartOfSpeechOpen, Marker::PartOfSpeechClose),
        ),
{
    take_element(input, Marker::PartOfSpeechOpen, Marker::PartOfSpeechClose)
}

/// The next sense block, read: `Ok((rest, sense))`. It fails where no
/// further block is opened, or the one opened is not closed.
pub fn chomp_and_return_sense<'a>(input: &'a str) -> (r: Result<
    (&'a str, Sense<'a>),
    MarkerAbsent,
>)
    ensures
        match next_sense(input.spec_bytes()) {
            Ok((rest, content)) => r matches Ok((tail, sense)) && tail.spec_bytes() == rest
                && sense@.reads(content),
            Err(absent) => r matches Err(e) && e == absent,
        },
{
    match take_element(input, Marker::SenseOpen, Marker::SenseClose) {
        Err(e) => Err(e),
        Ok((tail, body)) => {
            let fragments = take_spans(body, Marker::FragmentOpen, Marker::FragmentClose);
            let citations = take_spans(body, Marker::AuthorOpen, Marker::AuthorClose);
            let part_of_speech = match chomp_and_get_pos_tag(body) {
                Ok((_, text)) => Some(text),
                Err(_) => None,
            };
            Ok((tail, Sense::new(part_of_speech, citations, fragments)))
        },
    }
}

/// All sense blocks, read in order: `(rest, senses)`.
pub fn take_senses<'a>(input: &'a str) -> (r: (&'a str, Vec<Sense<'a>>))
    ensures
        r.0.spec_bytes() == senses(input.spec_bytes()).0,
        all_read(views(r.1@), senses(input.spec_bytes()).1),
{
    let mut found: Vec<Sense<'a>> = Vec::new();
    let mut rest: &'a str = input;
    let ghost mut said: Seq<SenseContent> = Seq::empty();
    loop
        invariant
            senses(input.spec_bytes()).0 == senses(rest.spec_bytes()).0,
            senses(input.spec_bytes()).1 == said + senses(rest.spec_bytes()).1,
            all_read(views(found@), said),
        ensures
            rest.spec_bytes() == senses(input.spec_bytes()).0,
            all_read(views(found@), senses(input.spec_bytes()).1),
        decreases rest.spec_bytes().len(),
    {
        match chomp_and_return_sense(rest) {
            Err(_) => {
                assert(said + Seq::<SenseContent>::empty() =~= said);
                break ;
            },
            Ok((tail, sense)) => {
                proof {
                    span_shrinks(
                        rest.spec_bytes(),
                        Marker::SenseOpen,
                        Marker::SenseClose,
                    );
                    let content = next_sense(rest.spec_bytes())->Ok_0.1;
                    assert(said.push(content) + senses(tail.spec_bytes()).1 =~= said + (
                    seq![content] + senses(tail.spec_bytes()).1));
                    assert(views(found@.push(sense)) =~= views(found@).push(sense@));
                    said = said.push(content);
                }
                found.push(sense);
                rest = tail;
            },
        }
    }
    (rest, found)
}

/// What came of reading a line, each string by its bytes.
pub open spec fn outcome(r: Result<(&str, Entry), MalformedEntry>) -> Result<
    (Seq<u8>, EntryView),
    MalformedEntry,
> {
    match r {
        Ok((tail, entry)) => Ok((tail.spec_bytes(), entry@)),
        Err(e) => Err(e),
    }
}

/// `r` is a reading of `line`: the entry holds what the line says and the
/// rest is what the line leaves, or the line says nothing and `r` names the
/// marker that it lacks.
pub open spec fn parses_to(line: Seq<u8>, r: Result<(Seq<u8>, EntryView), MalformedEntry>) -> bool {
    match entry_content(line) {
        Ok((rest, content)) => r matches Ok((tail, entry)) && tail == rest && entry.reads(
            content,
        ),
        Err(e) => r matches Err(m) && m.absent == e.marker,
    }
}

/// Reads a line into an entry: `Ok((rest, entry))`, where `rest` is what
/// follows the last sense block.
pub fn parse_entry<'a>(input: &'a str) -> (r: Result<(&'a str, Entry<'a>), MalformedEntry>)
    ensures
        parses_to(input.spec_bytes(), outcome(r)),
{
    let (attributes, pronunciation) = match take_span(
        input,
        Marker::Pronunciation,
        Marker::Quote,
    ) {
        Ok(found) => found,
        Err(e) => {
            return Err(MalformedEntry { absent: e.marker });
        },
    };
    let (body, head) = match take_span(attributes, Marker::TagEnd, Marker::HeadwordClose) {
        Ok(found) => found,
        Err(e) => {
            return Err(MalformedEntry { absent: e.marker });
        },
    };
    let early = match take_until(body, Marker::SenseOpen) {
        Ok((_, before)) => before,
        Err(_) => body,
    };
    let early_tags = take_spans(early, Marker::FragmentOpen, Marker::FragmentClose);
    let (rest, senses) = take_senses(body);
    Ok((rest, Entry::new(head, pronunciation, early_tags, senses)))
}

/// Whatever a sense block cites, in whatever order and however often, the
/// sense that reads it holds the cited authors ascending, each once, and no
/// other author.
pub proof fn authors_are_a_sorted_set(sense: SenseView, content: SenseContent)
    requires
        sense.reads(content),
    ensures
        ascending(sense.authors),
        sense.authors.no_duplicates(),
        forall|author: Seq<u8>|
            sense.authors.contains(author) <==> content.citations.contains(author),
{
    ascending_has_no_duplicates(sense.authors);
}

/// Reading is a function of the line: two readings of one line hold the
/// same entry, field for field, and leave the same rest, or both name the
/// same absent marker.
pub proof fn reading_is_determined(
    line: Seq<u8>,
    first: Result<(Seq<u8>, EntryView), MalformedEntry>,
    second: Result<(Seq<u8>, EntryView), MalformedEntry>,
)
    requires
        parses_to(line, first),
        parses_to(line, second),
    ensures
        first == second,
{
    match entry_content(line) {
        Ok((rest, content)) => {
            let a = first->Ok_0.1;
            let b = second->Ok_0.1;
            assert forall|i: int| 0 <= i < a.senses.len() implies a.senses[i] == b.senses[i] by {
                assert(a.senses[i].reads(content.senses[i]));
                assert(b.senses[i].reads(content.senses[i]));
                sorted_set_is_unique(a.senses[i].authors, b.senses[i].authors);
            }
            assert(a.senses =~= b.senses);
        },
        Err(_) => {},
    }
}

} // verus!
