//! The answer to a query, put together from the answers of its sources.
//!
//! Each source answers with a member, `"name": value`, whose value it has
//! already written out; the answer to the query is the object of these
//! members, in the order of the sources. A source that fails gives no
//! member and takes nothing from the others.

use crate::markup::cut_at;
use crate::report::chars;
use crate::text::cut;
use vstd::prelude::*;
use vstd::string::{StringExecFns, StringSliceAdditionalSpecFns};
use vstd::utf8::encode_utf8_decode_utf8;

verus! {

/// The member `"name": value`.
pub open spec fn member_text(name: Seq<char>, value: Seq<char>) -> Seq<char> {
    "\""@ + name + "\": "@ + value
}

/// The texts of `parts` with `", "` between each two of them.
pub open spec fn joined(parts: Seq<String>) -> Seq<char>
    decreases parts.len(),
{
    if parts.len() == 0 {
        Seq::empty()
    } else if parts.len() == 1 {
        parts[0]@
    } else {
        joined(parts.drop_last()) + ", "@ + parts.last()@
    }
}

/// The object of the members: `{` and `}` around them, `", "` between them.
pub open spec fn object_text(members: Seq<String>) -> Seq<char> {
    "{"@ + joined(members) + "}"@
}

/// The value of a member: what stands behind its first `": "`.
pub open spec fn value_of(member: Seq<u8>) -> Option<Seq<char>> {
    match cut(member, ": ".spec_bytes()) {
        Some((_, value)) => Some(chars(value)),
        None => None,
    }
}

/// The answers that were given, in the order of their sources.
pub open spec fn given(answers: Seq<Option<String>>) -> Seq<String>
    decreases answers.len(),
{
    if answers.len() == 0 {
        Seq::empty()
    } else {
        match answers.last() {
            Some(answer) => given(answers.drop_last()).push(answer),
            None => given(answers.drop_last()),
        }
    }
}

/// The answers of the sources that gave one, in the order of the sources.
/// A source without an answer is left out, and the others stay.
pub fn gathered(answers: &Vec<Option<String>>) -> (members: Vec<String>)
    ensures
        members@ == given(answers@),
{
    let mut members: Vec<String> = Vec::new();
    let mut at: usize = 0;
    while at < answers.len()
        invariant
            at <= answers.len(),
            members@ == given(answers@.subrange(0, at as int)),
        decreases answers.len() - at,
    {
        let ghost next = answers@.subrange(0, at + 1);
        assert(next.drop_last() =~= answers@.subrange(0, at as int));
        assert(next.last() == answers@[at as int]);
        match &answers[at] {
            Some(answer) => {
                members.push(answer.clone());
            },
            None => {},
        }
        at += 1;
    }
    assert(answers@.subrange(0, at as int) =~= answers@);
    members
}

/// The member `"name": value`.
pub fn member(name: &str, value: &str) -> (s: String)
    ensures
        s@ == member_text(name@, value@),
{
    let mut s = String::from_str("\"");
    s.append(name);
    s.append("\": ");
    s.append(value);
    s
}

/// The object of `members`.
pub fn object(members: &Vec<String>) -> (s: String)
    ensures
        s@ == object_text(members@),
{
    let mut s = String::from_str("{");
    let mut at: usize = 0;
    while at < members.len()
        invariant
            at <= members.len(),
            s@ == "{"@ + joined(members@.subrange(0, at as int)),
        decreases members.len() - at,
    {
        let ghost done = members@.subrange(0, at as int);
        let ghost next = members@.subrange(0, at + 1);
        proof {
            assert(next.drop_last() =~= done);
            assert(next.last() == members@[at as int]);
        }
        if at > 0 {
            s.append(", ");
        }
        s.append(members[at].as_str());
        assert(s@ =~= "{"@ + joined(next));
        at += 1;
    }
    assert(members@.subrange(0, at as int) =~= members@);
    s.append("}");
    s
}

/// The value of `member` under another name, or `None` where `member` has
/// no `": "` that parts its name from its value.
pub fn renamed(name: &str, member: &str) -> (r: Option<String>)
    ensures
        match value_of(member.spec_bytes()) {
            Some(value) => r matches Some(s) && s@ == member_text(name@, value),
            None => r is None,
        },
{
    proof {
        reveal_strlit(": ");
    }
    match cut_at(member, ": ") {
        Some((_, value)) => {
            proof {
                encode_utf8_decode_utf8(value@);
            }
            Some(self::member(name, value))
        },
        None => None,
    }
}

} // verus!
