//! From a key to the file of the corpus that holds it.
//!
//! The corpus is kept in one file for each letter of the alphabet, and a key
//! is looked for in the file of its first letter, lower-cased. Two letters
//! may share a file: in the standard table `j` is kept with `i`.

use crate::lookup::LookupError;
use vstd::prelude::*;
use vstd::string::StrSliceExecFns;

verus! {

/// The first character of the lower-case mapping of `c`, as
/// `char::to_lowercase` gives it.
pub uninterp spec fn lowercased(c: char) -> char;

/// `char::to_lowercase` of std, of whose iterator the first item is taken.
/// The iterator yields the lower-case mapping of the character, one
/// character or more, and the character itself where it has no lower case:
/// so there is a first item. The mapping is that of the Unicode tables; it
/// is named, and not spelt out.
#[verifier::external_body]
fn to_lowercase(c: char) -> (r: Option<char>)
    ensures
        r == Some(lowercased(c)),
{
    c.to_lowercase().next()
}

/// The letter at place `i` of the alphabet, `a` at place 0.
pub open spec fn letter(i: int) -> char {
    ((0x61 + i) as u8) as char
}

/// The file of the standard table for a letter: the letter's own, but for
/// `j`, which is kept in the file of `i`.
pub open spec fn standard_file(c: char) -> Seq<char> {
    seq![if c == 'j' { 'i' } else { c }, '.', 'x', 'm', 'l']
}

/// The standard table, the files in the order of their letters.
pub open spec fn standard_table() -> Seq<Seq<char>> {
    Seq::new(26, |i: int| standard_file(letter(i)))
}

/// The file that `table` keeps for a lower-cased first character, if any.
pub open spec fn routed(table: Seq<Seq<char>>, initial: char) -> Option<Seq<char>> {
    if 'a' <= initial <= 'z' {
        Some(table[initial as int - 0x61])
    } else {
        None
    }
}

/// The file that `table` keeps for a key, if any.
pub open spec fn resolved(table: Seq<Seq<char>>, key: Seq<char>) -> Option<Seq<char>> {
    if key.len() == 0 {
        None
    } else {
        routed(table, lowercased(key[0]))
    }
}

/// The table from letters to files. It is made once and then only read.
pub struct FileRouter {
    files: Vec<&'static str>,
}

impl FileRouter {
    #[verifier::type_invariant]
    spec fn keeps_every_letter(&self) -> bool {
        self.files@.len() == 26
    }

    /// The names of the files, in the order of their letters.
    pub closed spec fn table(&self) -> Seq<Seq<char>> {
        Seq::new(26, |i: int| self.files@[i]@)
    }

    /// The router of the standard table.
    pub fn new() -> (router: Self)
        ensures
            router.table() == standard_table(),
    {
        let mut files: Vec<&'static str> = Vec::new();
        files.push("a.xml");
        files.push("b.xml");
        files.push("c.xml");
        files.push("d.xml");
        files.push("e.xml");
        files.push("f.xml");
        files.push("g.xml");
        files.push("h.xml");
        files.push("i.xml");
        files.push("i.xml");
        files.push("k.xml");
        files.push("l.xml");
        files.push("m.xml");
        files.push("n.xml");
        files.push("o.xml");
        files.push("p.xml");
        files.push("q.xml");
        files.push("r.xml");
        files.push("s.xml");
        files.push("t.xml");
        files.push("u.xml");
        files.push("v.xml");
        files.push("w.xml");
        files.push("x.xml");
        files.push("y.xml");
        files.push("z.xml");
        let router = FileRouter { files };
        proof {
            reveal_strlit("a.xml");
            reveal_strlit("b.xml");
            reveal_strlit("c.xml");
            reveal_strlit("d.xml");
            reveal_strlit("e.xml");
            reveal_strlit("f.xml");
            reveal_strlit("g.xml");
            reveal_strlit("h.xml");
            reveal_strlit("i.xml");
            reveal_strlit("k.xml");
            reveal_strlit("l.xml");
            reveal_strlit("m.xml");
            reveal_strlit("n.xml");
            reveal_strlit("o.xml");
            reveal_strlit("p.xml");
            reveal_strlit("q.xml");
            reveal_strlit("r.xml");
            reveal_strlit("s.xml");
            reveal_strlit("t.xml");
            reveal_strlit("u.xml");
            reveal_strlit("v.xml");
            reveal_strlit("w.xml");
            reveal_strlit("x.xml");
            reveal_strlit("y.xml");
            reveal_strlit("z.xml");
            assert forall|i: int| 0 <= i < 26 implies router.table()[i] == standard_table()[i] by {
                assert(router.table()[i] =~= standard_file(letter(i)));
            }
            assert(router.table() =~= standard_table());
        }
        router
    }

    /// The file kept for a first character that is already lower-cased:
    /// that of its letter, and none for any other character.
    pub fn file_for(&self, initial: char) -> (file: Option<&'static str>)
        ensures
            match routed(self.table(), initial) {
                Some(name) => file matches Some(f) && f@ == name,
                None => file is None,
            },
    {
        proof {
            use_type_invariant(self);
        }
        if 'a' <= initial && initial <= 'z' {
            let at: usize = (initial as u32 - 'a' as u32) as usize;
            Some(self.files[at])
        } else {
            None
        }
    }

    /// The file in which to look for `key`: that of its first character,
    /// lower-cased. It fails with `UnknownInitial` where the key is empty or
    /// no file is kept for that character.
    pub fn resolve(&self, key: &str) -> (file: Result<&'static str, LookupError>)
        ensures
            match resolved(self.table(), key@) {
                Some(name) => file matches Ok(f) && f@ == name,
                None => file == Err::<&'static str, LookupError>(LookupError::UnknownInitial),
            },
    {
        if key.is_empty() {
            return Err(LookupError::UnknownInitial);
        }
        let initial = to_lowercase(key.get_char(0)).unwrap();
        match self.file_for(initial) {
            Some(file) => Ok(file),
            None => Err(LookupError::UnknownInitial),
        }
    }
}

} // verus!
