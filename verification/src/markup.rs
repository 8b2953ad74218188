//! The literal markers of the corpus markup and the two moves of the forward
//! cursor over a line: advance past the next marker, and take the text up to
//! it.

use crate::text::{cut, cut_at_first, find};
use vstd::prelude::*;
use vstd::string::StringSliceAdditionalSpecFns;
use vstd::utf8::{
    encode_utf8, encode_utf8_valid_utf8, is_ascii_chars, is_ascii_chars_encode_utf8,
    is_char_boundary, is_char_boundary_iff_not_is_continuation_byte,
    is_char_boundary_start_end_of_seq, valid_utf8, valid_utf8_split,
};

verus! {

/// A literal that the cursor looks for.
#[derive(Clone, Copy, Debug, PartialEq, Eq, Structural)]
pub enum Marker {
    /// `orth_orig="`, which opens the pronunciation attribute.
    Pronunciation,
    /// `"`, which closes an attribute value.
    Quote,
    /// `>`, which ends an opening tag.
    TagEnd,
    /// `</head>`
    HeadwordClose,
    /// `<sense`
    SenseOpen,
    /// `</sense>`
    SenseClose,
    /// `<i>`
    FragmentOpen,
    /// `</i>`
    FragmentClose,
    /// `<author>`
    AuthorOpen,
    /// `</author>`
    AuthorClose,
    /// `<pos`
    PartOfSpeechOpen,
    /// `</pos>`
    PartOfSpeechClose,
}

/// The cursor reached the end of its text without meeting the marker.
#[derive(Clone, Copy, Debug, PartialEq, Eq, Structural)]
pub struct MarkerAbsent {
    pub marker: Marker,
}

impl Marker {
    /// The characters of the marker.
    pub open spec fn text(self) -> Seq<char> {
        match self {
            Marker::Pronunciation => "orth_orig=\""@,
            Marker::Quote => "\""@,
            Marker::TagEnd => ">"@,
            Marker::HeadwordClose => "</head>"@,
            Marker::SenseOpen => "<sense"@,
            Marker::SenseClose => "</sense>"@,
            Marker::FragmentOpen => "<i>"@,
            Marker::FragmentClose => "</i>"@,
            Marker::AuthorOpen => "<author>"@,
            Marker::AuthorClose => "</author>"@,
            Marker::PartOfSpeechOpen => "<pos"@,
            Marker::PartOfSpeechClose => "</pos>"@,
        }
    }

    /// The bytes of the marker in a line of the corpus.
    pub open spec fn bytes(self) -> Seq<u8> {
        encode_utf8(self.text())
    }

    /// Every marker is a non-empty run of ASCII characters, one byte each.
    pub proof fn is_plain(self)
        ensures
            self.text().len() > 0,
            is_ascii_chars(self.text()),
            self.bytes().len() == self.text().len(),
            forall|i: int| 0 <= i < self.bytes().len() ==> #[trigger] self.bytes()[i] <= 0x7f,
    {
        reveal_strlit("orth_orig=\"");
        reveal_strlit("\"");
        reveal_strlit(">");
        reveal_strlit("</head>");
        reveal_strlit("<sense");
        reveal_strlit("</sense>");
        reveal_strlit("<i>");
        reveal_strlit("</i>");
        reveal_strlit("<author>");
        reveal_strlit("</author>");
        reveal_strlit("<pos");
        reveal_strlit("</pos>");
        is_ascii_chars_encode_utf8(self.text());
    }

    /// The marker as it is written in a line.
    pub fn literal(self) -> (s: &'static str)
        ensures
            s@ == self.text(),
    {
        match self {
            Marker::Pronunciation => "orth_orig=\"",
            Marker::Quote => "\"",
            Marker::TagEnd => ">",
            Marker::HeadwordClose => "</head>",
            Marker::SenseOpen => "<sense",
            Marker::SenseClose => "</sense>",
            Marker::FragmentOpen => "<i>",
            Marker::FragmentClose => "</i>",
            Marker::AuthorOpen => "<author>",
            Marker::AuthorClose => "</author>",
            Marker::PartOfSpeechOpen => "<pos",
            Marker::PartOfSpeechClose => "</pos>",
        }
    }
}

/// In well-formed UTF-8 a character starts at an ASCII byte, and the next
/// one right after it.
proof fn ascii_byte_is_bounded(bytes: Seq<u8>, k: int)
    requires
        valid_utf8(bytes),
        0 <= k < bytes.len(),
        bytes[k] <= 0x7f,
    ensures
        is_char_boundary(bytes, k),
        is_char_boundary(bytes, k + 1),
{
    is_char_boundary_iff_not_is_continuation_byte(bytes, k);
    if k + 1 == bytes.len() {
        is_char_boundary_start_end_of_seq(bytes);
    } else {
        let tail = bytes.subrange(k, bytes.len() as int);
        valid_utf8_split(bytes, k);
        assert(tail[0] == bytes[k]);
        assert(tail[1] == bytes[k + 1]);
        assert(is_char_boundary(tail, 1)) by {
            reveal_with_fuel(is_char_boundary, 2);
        }
        is_char_boundary_iff_not_is_continuation_byte(tail, 1);
        is_char_boundary_iff_not_is_continuation_byte(bytes, k + 1);
    }
}

/// The text before the first `literal` in `input` and the text behind it,
/// for a literal of ASCII characters.
pub(crate) fn cut_at<'a>(input: &'a str, literal: &str) -> (r: Option<(&'a str, &'a str)>)
    requires
        literal@.len() > 0,
        is_ascii_chars(literal@),
    ensures
        match cut(input.spec_bytes(), literal.spec_bytes()) {
            Some((before, after)) => r matches Some((head, tail)) && head.spec_bytes() == before
                && tail.spec_bytes() == after,
            None => r is None,
        },
{
    let hay = input.as_bytes();
    let needle = literal.as_bytes();
    match find(hay, needle) {
        None => None,
        Some(i) => {
            let m: usize = needle.len();
            proof {
                is_ascii_chars_encode_utf8(literal@);
                encode_utf8_valid_utf8(input@);
                cut_at_first(hay@, needle@, i as int);
                assert(hay@[i as int] == hay@.subrange(i as int, i + m)[0]);
                ascii_byte_is_bounded(hay@, i as int);
            }
            let (head, rest) = input.split_at(i);
            proof {
                encode_utf8_valid_utf8(rest@);
                assert(rest.spec_bytes()[m - 1] == hay@.subrange(i as int, i + m)[m - 1]);
                ascii_byte_is_bounded(rest.spec_bytes(), m - 1);
            }
            let (_, tail) = rest.split_at(m);
            assert(tail.spec_bytes() =~= hay@.subrange(i + m, hay@.len() as int));
            Some((head, tail))
        },
    }
}

/// The text up to the next `marker`, and the rest of the input behind the
/// marker: `Ok((rest, taken))`.
pub fn take_until<'a>(input: &'a str, marker: Marker) -> (r: Result<
    (&'a str, &'a str),
    MarkerAbsent,
>)
    ensures
        match cut(input.spec_bytes(), marker.bytes()) {
            Some((before, after)) => r matches Ok((rest, taken)) && taken.spec_bytes() == before
                && rest.spec_bytes() == after,
            None => r == Err::<(&'a str, &'a str), MarkerAbsent>(MarkerAbsent { marker }),
        },
{
    proof {
        marker.is_plain();
    }
    match cut_at(input, marker.literal()) {
        Some((taken, rest)) => Ok((rest, taken)),
        None => Err(MarkerAbsent { marker }),
    }
}

/// The rest of the input behind the next `marker`.
pub fn advance_past<'a>(input: &'a str, marker: Marker) -> (r: Result<&'a str, MarkerAbsent>)
    ensures
        match cut(input.spec_bytes(), marker.bytes()) {
            Some((_, after)) => r matches Ok(rest) && rest.spec_bytes() == after,
            None => r == Err::<&'a str, MarkerAbsent>(MarkerAbsent { marker }),
        },
{
    match take_until(input, marker) {
        Ok((rest, _)) => Ok(rest),
        Err(e) => Err(e),
    }
}

} // verus!
