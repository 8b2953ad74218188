//! Finding the line of a key in a file of the corpus.
//!
//! A line belongs to a key when it holds the literal `key="<key>"`. The
//! lines are tested one after another, as they are read, and the first that
//! holds the literal is the line of the key; nothing is assumed of the order
//! of the lines. The test is made by the `regex` crate on a pattern in which
//! every character of the key stands for itself. Whether the crate takes
//! the pattern of a key is settled once, when the scan is set up: a scan
//! that exists tests every line.

use crate::lookup::LookupError;
use crate::text::occurs;
use regex::Regex;
use vstd::pervasive::unreached;
use vstd::prelude::*;
use vstd::string::StringExecFns;

verus! {

/// `regex::Error`, which says why a pattern was not compiled. It is only
/// told apart from success.
#[verifier::external_type_specification]
#[verifier::external_body]
pub struct ExRegexError(regex::Error);

/// The characters that mean something in a pattern, as
/// `regex_syntax::is_meta_character` lists them.
pub open spec fn is_meta_character(c: char) -> bool {
    c == '\\' || c == '.' || c == '+' || c == '*' || c == '?' || c == '(' || c == ')' || c == '|'
        || c == '[' || c == ']' || c == '{' || c == '}' || c == '^' || c == '$' || c == '#' || c
        == '&' || c == '-' || c == '~'
}

/// `text` with a backslash put before each of its meta characters.
pub open spec fn escaped(text: Seq<char>) -> Seq<char>
    decreases text.len(),
{
    if text.len() == 0 {
        Seq::empty()
    } else if is_meta_character(text.last()) {
        escaped(text.drop_last()).push('\\').push(text.last())
    } else {
        escaped(text.drop_last()).push(text.last())
    }
}

/// The literal that marks the line of `key`: `key="<key>"`.
pub open spec fn key_marker(key: Seq<char>) -> Seq<char> {
    "key=\""@ + key + "\""@
}

/// The pattern by which the line of `key` is looked for: its marker, with
/// every meta character escaped.
pub open spec fn key_pattern(key: Seq<char>) -> Seq<char> {
    escaped(key_marker(key))
}

/// Whether `Regex::new` compiles `pattern`, rather than refuse it as
/// malformed or as too large.
pub uninterp spec fn accepted(pattern: Seq<char>) -> bool;

/// `regex::escape`: the text, with each meta character escaped by a
/// backslash and every other character as it is.
#[verifier::external_body]
fn escape(text: &str) -> (r: String)
    ensures
        r@ == escaped(text@),
{
    regex::escape(text)
}

/// `Regex::new` and `Regex::is_match` of the `regex` crate: compiles
/// `pattern` and says whether it has a match anywhere in `text`. Whether a
/// pattern is compiled depends on the pattern alone, by limits that the
/// crate fixes; it is named, and not spelt out. Of a pattern that is the
/// escaped form of a literal, the contract claims that it has a match
/// exactly where the literal stands in the text: an escaped literal is safe
/// to use as a literal in a pattern. It claims nothing of what other
/// patterns match. The pattern is compiled at each call: a compiled pattern
/// shows nothing of itself to the proofs, so the test is made from the text
/// of the pattern.
#[verifier::external_body]
fn pattern_matches(pattern: &str, text: &str) -> (r: Result<bool, regex::Error>)
    ensures
        r is Ok <==> accepted(pattern@),
        r matches Ok(found) ==> forall|literal: Seq<char>|
            pattern@ == #[trigger] escaped(literal) ==> found == occurs(text@, literal),
{
    match Regex::new(pattern) {
        Ok(compiled) => Ok(compiled.is_match(text)),
        Err(e) => Err(e),
    }
}

/// Escaping goes character by character.
pub proof fn escaped_distributes(a: Seq<char>, b: Seq<char>)
    ensures
        escaped(a + b) == escaped(a) + escaped(b),
    decreases b.len(),
{
    if b.len() == 0 {
        assert(a + b =~= a);
        assert(escaped(a) + escaped(b) =~= escaped(a));
    } else {
        assert((a + b).drop_last() =~= a + b.drop_last());
        assert((a + b).last() == b.last());
        escaped_distributes(a, b.drop_last());
        assert(escaped(a + b) =~= escaped(a) + escaped(b));
    }
}

/// A text without meta characters is its own escaped form.
pub proof fn escaped_keeps_plain_text(text: Seq<char>)
    requires
        forall|i: int| 0 <= i < text.len() ==> !is_meta_character(#[trigger] text[i]),
    ensures
        escaped(text) == text,
    decreases text.len(),
{
    if text.len() > 0 {
        escaped_keeps_plain_text(text.drop_last());
        assert(text.drop_last().push(text.last()) =~= text);
    }
}

/// What reading on in a file brought.
pub enum ScanEvent {
    /// The next line.
    Line(String),
    /// No line is left.
    EndOfFile,
    /// The file could not be read further.
    ReadFailed,
}

/// What to do after an event.
#[derive(Debug, PartialEq)]
pub enum ScanStep {
    /// The key is not in this line: read the next.
    Continue,
    /// This is the line of the key.
    Found(String),
    /// The file holds no line of the key.
    NotFound,
    /// The scan cannot go on.
    Failed(LookupError),
}

/// What follows once a line has been tested: a line that holds the key is
/// the one looked for, and after any other the scan goes on.
pub fn after_line(line: String, held: bool) -> (step: ScanStep)
    ensures
        step == if held {
            ScanStep::Found(line)
        } else {
            ScanStep::Continue
        },
{
    if held {
        ScanStep::Found(line)
    } else {
        ScanStep::Continue
    }
}

/// The scan of one file for one key.
#[derive(Debug)]
pub struct LineScanner {
    key: String,
    pattern: String,
}

impl LineScanner {
    #[verifier::type_invariant]
    spec fn pattern_is_of_key(&self) -> bool {
        &&& self.pattern@ == key_pattern(self.key@)
        &&& accepted(self.pattern@)
    }

    /// The key that is looked for.
    pub closed spec fn sought(&self) -> Seq<char> {
        self.key@
    }

    /// A scan for `key`, by the pattern `key_pattern(key)`. There is one
    /// exactly where the matching engine takes that pattern; where it does
    /// not, the key cannot be looked for and `PatternRejected` comes back.
    pub fn new(key: &str) -> (r: Result<Self, LookupError>)
        ensures
            r is Ok <==> accepted(key_pattern(key@)),
            r matches Ok(scanner) ==> scanner.sought() == key@,
            r matches Err(e) ==> e == LookupError::PatternRejected,
    {
        let mut pattern = String::from_str("key=\"");
        let escaped_key = escape(key);
        pattern.append(escaped_key.as_str());
        pattern.append("\"");
        proof {
            reveal_strlit("key=\"");
            reveal_strlit("\"");
            escaped_keeps_plain_text("key=\""@);
            escaped_keeps_plain_text("\""@);
            escaped_distributes("key=\""@, key@);
            escaped_distributes("key=\""@ + key@, "\""@);
        }
        match pattern_matches(pattern.as_str(), "") {
            Ok(_) => Ok(LineScanner { key: key.to_owned(), pattern }),
            Err(_) => Err(LookupError::PatternRejected),
        }
    }

    /// The key that is looked for.
    pub fn key(&self) -> (key: &str)
        ensures
            key@ == self.sought(),
    {
        self.key.as_str()
    }

    /// Whether `line` is a line of the key: whether it holds the literal
    /// `key="<key>"`.
    pub fn holds_key(&self, line: &str) -> (held: bool)
        ensures
            held == occurs(line@, key_marker(self.sought())),
    {
        proof {
            use_type_invariant(self);
        }
        match pattern_matches(self.pattern.as_str(), line) {
            Ok(found) => found,
            Err(_) => unreached(),
        }
    }

    /// What to do after `event`. At the end of the file the key is not
    /// found, and a failed read ends the scan with `IoError`. A line is
    /// tested: the scan ends with it where it holds the key and goes on
    /// where it does not.
    pub fn step(&self, event: ScanEvent) -> (step: ScanStep)
        ensures
            step == match event {
                ScanEvent::EndOfFile => ScanStep::NotFound,
                ScanEvent::ReadFailed => ScanStep::Failed(LookupError::IoError),
                ScanEvent::Line(line) => if occurs(line@, key_marker(self.sought())) {
                    ScanStep::Found(line)
                } else {
                    ScanStep::Continue
                },
            },
    {
        match event {
            ScanEvent::EndOfFile => ScanStep::NotFound,
            ScanEvent::ReadFailed => ScanStep::Failed(LookupError::IoError),
            ScanEvent::Line(line) => {
                let held = self.holds_key(line.as_str());
                after_line(line, held)
            },
        }
    }

    /// The place of the first of `lines` that holds the key, or `None`
    /// where no line holds it. What follows that line is not looked at.
    pub fn find_in(&self, lines: &Vec<String>) -> (r: Option<usize>)
        ensures
            match r {
                Some(at) => {
                    &&& at < lines.len()
                    &&& occurs(lines[at as int]@, key_marker(self.sought()))
                    &&& forall|j: int|
                        0 <= j < at ==> !occurs(
                            (#[trigger] lines[j])@,
                            key_marker(self.sought()),
                        )
                },
                None => forall|j: int|
                    0 <= j < lines.len() ==> !occurs(
                        (#[trigger] lines[j])@,
                        key_marker(self.sought()),
                    ),
            },
    {
        let mut at: usize = 0;
        while at < lines.len()
            invariant
                at <= lines.len(),
                forall|j: int|
                    0 <= j < at ==> !occurs((#[trigger] lines[j])@, key_marker(self.sought())),
            decreases lines.len() - at,
        {
            if self.holds_key(lines[at].as_str()) {
                return Some(at);
            }
            at += 1;
        }
        None
    }
}

} // verus!
