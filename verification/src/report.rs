//! An entry laid out for reading, line by line.
//!
//! The headword stands under an empty line, then the pronunciation and the
//! early tags. A sense with annotation fragments is numbered, the numbers
//! counting from one, and shows its part of speech and its fragments; the
//! authors of a sense follow in a line of their own.

use crate::parsing::{Entry, EntryView, Sense, SenseView};
use vstd::prelude::*;
use vstd::string::{StringExecFns, StringSliceAdditionalSpecFns};
use vstd::utf8::{decode_utf8, encode_utf8_decode_utf8};

verus! {

/// The characters that a string of an entry is made of.
pub open spec fn chars(bytes: Seq<u8>) -> Seq<char> {
    decode_utf8(bytes)
}

/// The decimal digit of `d`.
pub open spec fn digit(d: nat) -> char {
    ((0x30 + d) as u8) as char
}

/// `n` written in decimal digits.
pub open spec fn decimal(n: nat) -> Seq<char>
    decreases n,
{
    if n < 10 {
        seq![digit(n)]
    } else {
        decimal(n / 10).push(digit(n % 10))
    }
}

/// The strings of `parts` with `", "` between each two of them.
pub open spec fn listed(parts: Seq<Seq<u8>>) -> Seq<char>
    decreases parts.len(),
{
    if parts.len() == 0 {
        Seq::empty()
    } else if parts.len() == 1 {
        chars(parts[0])
    } else {
        listed(parts.drop_last()) + ", "@ + chars(parts.last())
    }
}

/// Whether a sense is numbered: it is where it has annotation fragments.
pub open spec fn is_numbered(sense: SenseView) -> bool {
    sense.annotation_fragments.len() > 0
}

/// The lines of a sense that comes after `before` numbered senses.
pub open spec fn sense_lines(sense: SenseView, before: nat) -> Seq<Seq<char>> {
    let numbered = if is_numbered(sense) {
        let title = seq!["# Sense "@ + decimal(before + 1)];
        let kind = match sense.part_of_speech {
            Some(text) => seq!["Part of speech: "@ + chars(text)],
            None => Seq::empty(),
        };
        title + kind + seq![listed(sense.annotation_fragments)]
    } else {
        Seq::empty()
    };
    if sense.authors.len() > 0 {
        numbered + seq!["Author(s): "@ + listed(sense.authors)]
    } else {
        numbered
    }
}

/// How many of `senses` are numbered.
pub open spec fn numbered_among(senses: Seq<SenseView>) -> nat
    decreases senses.len(),
{
    if senses.len() == 0 {
        0
    } else if is_numbered(senses.last()) {
        numbered_among(senses.drop_last()) + 1
    } else {
        numbered_among(senses.drop_last())
    }
}

/// The lines of a list of senses.
pub open spec fn senses_lines(senses: Seq<SenseView>) -> Seq<Seq<char>>
    decreases senses.len(),
{
    if senses.len() == 0 {
        Seq::empty()
    } else {
        senses_lines(senses.drop_last()) + sense_lines(
            senses.last(),
            numbered_among(senses.drop_last()),
        )
    }
}

/// The lines of an entry.
pub open spec fn entry_lines(entry: EntryView) -> Seq<Seq<char>> {
    let top = seq![Seq::empty(), chars(entry.head), "Pronunciation: "@ + chars(entry.pronunciation)];
    let tags = if entry.early_tags.len() > 0 {
        seq![listed(entry.early_tags)]
    } else {
        Seq::empty()
    };
    top + tags + senses_lines(entry.senses)
}

/// The characters of each line of `lines`.
pub open spec fn line_texts(lines: Seq<String>) -> Seq<Seq<char>> {
    Seq::new(lines.len(), |i: int| lines[i]@)
}

fn digit_of(d: usize) -> (s: &'static str)
    requires
        d < 10,
    ensures
        s@ == seq![digit(d as nat)],
{
    proof {
        reveal_strlit("0");
        reveal_strlit("1");
        reveal_strlit("2");
        reveal_strlit("3");
        reveal_strlit("4");
        reveal_strlit("5");
        reveal_strlit("6");
        reveal_strlit("7");
        reveal_strlit("8");
        reveal_strlit("9");
    }
    let s = if d == 0 {
        "0"
    } else if d == 1 {
        "1"
    } else if d == 2 {
        "2"
    } else if d == 3 {
        "3"
    } else if d == 4 {
        "4"
    } else if d == 5 {
        "5"
    } else if d == 6 {
        "6"
    } else if d == 7 {
        "7"
    } else if d == 8 {
        "8"
    } else {
        "9"
    };
    assert(s@ =~= seq![digit(d as nat)]);
    s
}

/// `n` in decimal digits.
pub fn decimal_of(n: usize) -> (s: String)
    ensures
        s@ == decimal(n as nat),
    decreases n,
{
    if n < 10 {
        String::from_str(digit_of(n))
    } else {
        let mut s = decimal_of(n / 10);
        s.append(digit_of(n % 10));
        assert(s@ =~= decimal((n / 10) as nat).push(digit((n % 10) as nat)));
        s
    }
}

/// The strings of `parts` with `", "` between each two of them.
pub fn list_of(parts: &Vec<&str>) -> (s: String)
    ensures
        s@ == listed(crate::order::texts(parts@)),
{
    let ghost all = crate::order::texts(parts@);
    let mut s = String::new();
    let mut at: usize = 0;
    while at < parts.len()
        invariant
            at <= parts.len(),
            all == crate::order::texts(parts@),
            s@ == listed(all.subrange(0, at as int)),
        decreases parts.len() - at,
    {
        let ghost done = all.subrange(0, at as int);
        let ghost next = all.subrange(0, at + 1);
        proof {
            assert(next.drop_last() =~= done);
            assert(next.last() == parts@[at as int].spec_bytes());
            encode_utf8_decode_utf8(parts@[at as int]@);
        }
        if at > 0 {
            s.append(", ");
        } else {
            assert(s@ + parts@[at as int]@ =~= chars(next[0]));
        }
        s.append(parts[at]);
        at += 1;
    }
    assert(all.subrange(0, at as int) =~= all);
    s
}

/// Puts the lines of `sense` behind `lines`. `before` counts the numbered
/// senses that came before it; the count that comes back includes it.
fn put_sense(lines: &mut Vec<String>, sense: &Sense, before: usize) -> (count: usize)
    requires
        before < usize::MAX,
    ensures
        line_texts(final(lines)@) == line_texts(old(lines)@) + sense_lines(sense@, before as nat),
        count == before + (if is_numbered(sense@) {
            1nat
        } else {
            0nat
        }),
{
    let ghost start = line_texts(lines@);
    let mut count = before;
    let fragments = sense.annotation_fragments();
    if fragments.len() > 0 {
        count = count + 1;
        let mut title = String::from_str("# Sense ");
        let number = decimal_of(count);
        title.append(number.as_str());
        lines.push(title);
        assert(line_texts(lines@) =~= start + seq!["# Sense "@ + decimal(before as nat + 1)]);
        match sense.part_of_speech() {
            Some(text) => {
                let mut kind = String::from_str("Part of speech: ");
                kind.append(text);
                proof {
                    encode_utf8_decode_utf8(text@);
                }
                let ghost so_far = line_texts(lines@);
                lines.push(kind);
                assert(line_texts(lines@) =~= so_far + seq![
                    "Part of speech: "@ + chars(text.spec_bytes()),
                ]);
            },
            None => {},
        }
        let ghost so_far = line_texts(lines@);
        lines.push(list_of(fragments));
        assert(line_texts(lines@) =~= so_far + seq![listed(sense@.annotation_fragments)]);
    }
    let authors = sense.authors();
    if authors.len() > 0 {
        let mut cited = String::from_str("Author(s): ");
        let names = list_of(authors);
        cited.append(names.as_str());
        let ghost so_far = line_texts(lines@);
        lines.push(cited);
        assert(line_texts(lines@) =~= so_far + seq!["Author(s): "@ + listed(sense@.authors)]);
    }
    assert(line_texts(lines@) =~= start + sense_lines(sense@, before as nat));
    count
}

impl<'a> Entry<'a> {
    /// The entry laid out for reading, line by line.
    pub fn lines(&self) -> (lines: Vec<String>)
        ensures
            line_texts(lines@) == entry_lines(self@),
    {
        let mut lines: Vec<String> = Vec::new();
        lines.push(String::new());
        let head = self.head();
        let pronunciation = self.pronunciation();
        lines.push(String::from_str(head));
        let mut spoken = String::from_str("Pronunciation: ");
        spoken.append(pronunciation);
        lines.push(spoken);
        proof {
            encode_utf8_decode_utf8(head@);
            encode_utf8_decode_utf8(pronunciation@);
        }
        let tags = self.early_tags();
        if tags.len() > 0 {
            lines.push(list_of(tags));
        }
        let ghost top = line_texts(lines@);
        assert(top =~= seq![
            Seq::empty(),
            chars(self@.head),
            "Pronunciation: "@ + chars(self@.pronunciation),
        ] + (if self@.early_tags.len() > 0 {
            seq![listed(self@.early_tags)]
        } else {
            Seq::empty()
        }));
        let senses = self.senses();
        let ghost all = crate::parsing::views(senses@);
        let mut count: usize = 0;
        let mut at: usize = 0;
        while at < senses.len()
            invariant
                at <= senses.len(),
                all == crate::parsing::views(senses@),
                count == numbered_among(all.subrange(0, at as int)),
                count <= at,
                line_texts(lines@) == top + senses_lines(all.subrange(0, at as int)),
            decreases senses.len() - at,
        {
            let ghost done = all.subrange(0, at as int);
            let ghost next = all.subrange(0, at + 1);
            let ghost so_far = line_texts(lines@);
            proof {
                assert(next.drop_last() =~= done);
                assert(next.last() == senses@[at as int]@);
            }
            count = put_sense(&mut lines, &senses[at], count);
            assert(line_texts(lines@) =~= top + senses_lines(next));
            at += 1;
        }
        assert(all.subrange(0, at as int) =~= all);
        lines
    }
}

} // verus!
