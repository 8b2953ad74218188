//! The lookup of many keys at once.
//!
//! Each key is looked up by itself: what goes wrong with one key is noted
//! for that key and leaves the keys beside it untouched. The entries that
//! were found come out in the order of their keys.

use crate::grammar::{entry_content, EntryContent};
use crate::markup::Marker;
use crate::parsing::{parse_entry, Entry, EntryView};
use vstd::prelude::*;
use vstd::utf8::encode_utf8;

verus! {

/// What ended the lookup of one key.
#[derive(Clone, Copy, Debug, PartialEq, Eq, Structural)]
pub enum LookupError {
    /// The key is empty, or no file is kept for its first character.
    UnknownInitial,
    /// The file could not be opened or read.
    IoError,
    /// The matching engine refused the pattern made of the key.
    PatternRejected,
    /// The line of the key lacks a marker that every entry has.
    MalformedEntry(Marker),
}

/// How the lookup of one key ended.
#[derive(Clone, Copy, Debug, PartialEq, Eq, Structural)]
pub enum KeyStatus {
    /// The entry of the key is among the entries of the batch.
    Found,
    /// The file of the key holds no line for it.
    NotFound,
    /// The lookup failed.
    Failed(LookupError),
}

/// The entries found for a list of keys, and how each key ended.
#[derive(Debug, PartialEq)]
pub struct Batch<'a> {
    /// The entries of the keys that were found, in the order of the keys.
    pub entries: Vec<Entry<'a>>,
    /// For each key, at its place, how its lookup ended.
    pub statuses: Vec<KeyStatus>,
}

/// How the lookup of a key ends, given what the scan of its file brought:
/// the error of the scan, not found where the scan found no line, and else
/// what reading the line gives.
pub open spec fn status_of(scanned: Result<Option<String>, LookupError>) -> KeyStatus {
    match scanned {
        Err(e) => KeyStatus::Failed(e),
        Ok(None) => KeyStatus::NotFound,
        Ok(Some(line)) => match entry_content(encode_utf8(line@)) {
            Ok(_) => KeyStatus::Found,
            Err(absent) => KeyStatus::Failed(LookupError::MalformedEntry(absent.marker)),
        },
    }
}

/// What the line found for a key says, where one was found and can be
/// read: what the key brings to the batch.
pub open spec fn said_of(scanned: Result<Option<String>, LookupError>) -> Option<EntryContent> {
    match scanned {
        Ok(Some(line)) => match entry_content(encode_utf8(line@)) {
            Ok((_, content)) => Some(content),
            Err(_) => None,
        },
        _ => None,
    }
}

/// What the keys bring to the batch, in the order of the keys.
pub open spec fn said_by(scanned: Seq<Result<Option<String>, LookupError>>) -> Seq<EntryContent>
    decreases scanned.len(),
{
    if scanned.len() == 0 {
        Seq::empty()
    } else {
        match said_of(scanned.last()) {
            Some(content) => said_by(scanned.drop_last()).push(content),
            None => said_by(scanned.drop_last()),
        }
    }
}

/// The views of a list of entries.
pub open spec fn entry_views(entries: Seq<Entry>) -> Seq<EntryView> {
    Seq::new(entries.len(), |i: int| entries[i]@)
}

/// Each entry of `held` reads what `said` says at its place.
pub open spec fn entries_read(held: Seq<EntryView>, said: Seq<EntryContent>) -> bool {
    &&& held.len() == said.len()
    &&& forall|i: int| 0 <= i < held.len() ==> (#[trigger] held[i]).reads(said[i])
}

/// Reads the lines that the scans of a list of keys brought. `scanned`
/// holds, for each key, the line found for it, `None` where its file holds
/// none, or the error that ended its scan. A line that cannot be read is
/// noted as malformed, and its key is left out like those without a line.
pub fn read_found<'a>(scanned: &'a Vec<Result<Option<String>, LookupError>>) -> (batch: Batch<'a>)
    ensures
        batch.statuses@ == Seq::new(scanned@.len(), |i: int| status_of(scanned@[i])),
        entries_read(entry_views(batch.entries@), said_by(scanned@)),
{
    let mut entries: Vec<Entry<'a>> = Vec::new();
    let mut statuses: Vec<KeyStatus> = Vec::new();
    let mut at: usize = 0;
    while at < scanned.len()
        invariant
            at <= scanned.len(),
            statuses@ == Seq::new(at as nat, |i: int| status_of(scanned@[i])),
            entries_read(entry_views(entries@), said_by(scanned@.subrange(0, at as int))),
        decreases scanned.len() - at,
    {
        let ghost before = scanned@.subrange(0, at as int);
        let ghost now = scanned@.subrange(0, at + 1);
        assert(now.drop_last() =~= before);
        assert(now.last() == scanned@[at as int]);
        let status = match &scanned[at] {
            Err(e) => KeyStatus::Failed(*e),
            Ok(None) => KeyStatus::NotFound,
            Ok(Some(line)) => match parse_entry(line.as_str()) {
                Ok((_, entry)) => {
                    assert(entry_views(entries@.push(entry)) =~= entry_views(entries@).push(
                        entry@,
                    ));
                    entries.push(entry);
                    KeyStatus::Found
                },
                Err(e) => KeyStatus::Failed(LookupError::MalformedEntry(e.absent)),
            },
        };
        statuses.push(status);
        assert(statuses@ =~= Seq::new((at + 1) as nat, |i: int| status_of(scanned@[i])));
        at += 1;
    }
    assert(scanned@.subrange(0, at as int) =~= scanned@);
    Batch { entries, statuses }
}

/// The number of entries that the first `n` keys bring.
pub open spec fn found_among(scanned: Seq<Result<Option<String>, LookupError>>, n: int) -> int {
    said_by(scanned.subrange(0, n)).len() as int
}

/// What the first keys bring stands first in what all keys bring.
proof fn said_by_grows(scanned: Seq<Result<Option<String>, LookupError>>, n: int)
    requires
        0 <= n <= scanned.len(),
    ensures
        found_among(scanned, n) <= said_by(scanned).len(),
        said_by(scanned).subrange(0, found_among(scanned, n)) == said_by(scanned.subrange(0, n)),
    decreases scanned.len() - n,
{
    if n == scanned.len() {
        assert(scanned.subrange(0, n) =~= scanned);
        assert(said_by(scanned).subrange(0, said_by(scanned).len() as int) =~= said_by(scanned));
    } else {
        said_by_grows(scanned, n + 1);
        let longer = scanned.subrange(0, n + 1);
        assert(longer.drop_last() =~= scanned.subrange(0, n));
        assert(said_by(scanned).subrange(0, found_among(scanned, n)) =~= said_by(longer).subrange(
            0,
            found_among(scanned, n),
        ));
    }
}

/// The entries of a batch stand in the order of their keys: of two keys
/// that bring an entry, the entry of the earlier key stands before that of
/// the later key, each at the place that the keys before it leave.
pub proof fn batch_keeps_key_order(
    scanned: Seq<Result<Option<String>, LookupError>>,
    earlier: int,
    later: int,
)
    requires
        0 <= earlier < later < scanned.len(),
        said_of(scanned[earlier]) is Some,
        said_of(scanned[later]) is Some,
    ensures
        0 <= found_among(scanned, earlier) < found_among(scanned, later) < said_by(scanned).len(),
        said_by(scanned)[found_among(scanned, earlier)] == said_of(scanned[earlier])->0,
        said_by(scanned)[found_among(scanned, later)] == said_of(scanned[later])->0,
{
    key_has_its_place(scanned, earlier);
    key_has_its_place(scanned, later);
    found_among_rises(scanned, earlier + 1, later);
}

/// A key is found exactly when it brings an entry to the batch.
pub proof fn found_keys_bring_entries(scanned: Result<Option<String>, LookupError>)
    ensures
        status_of(scanned) == KeyStatus::Found <==> said_of(scanned) is Some,
{
}

/// The entry of a key stands at the place that the keys before it leave.
proof fn key_has_its_place(scanned: Seq<Result<Option<String>, LookupError>>, at: int)
    requires
        0 <= at < scanned.len(),
        said_of(scanned[at]) is Some,
    ensures
        found_among(scanned, at + 1) == found_among(scanned, at) + 1,
        found_among(scanned, at + 1) <= said_by(scanned).len(),
        said_by(scanned)[found_among(scanned, at)] == said_of(scanned[at])->0,
{
    let longer = scanned.subrange(0, at + 1);
    assert(longer.drop_last() =~= scanned.subrange(0, at));
    assert(longer.last() == scanned[at]);
    said_by_grows(scanned, at + 1);
    assert(said_by(scanned).subrange(0, found_among(scanned, at + 1))[found_among(scanned, at)]
        == said_by(longer)[found_among(scanned, at)]);
}

/// More keys bring no fewer entries.
proof fn found_among_rises(scanned: Seq<Result<Option<String>, LookupError>>, n: int, m: int)
    requires
        0 <= n <= m <= scanned.len(),
    ensures
        found_among(scanned, n) <= found_among(scanned, m),
    decreases m - n,
{
    if n < m {
        found_among_rises(scanned, n, m - 1);
        let longer = scanned.subrange(0, m);
        assert(longer.drop_last() =~= scanned.subrange(0, m - 1));
    }
}

} // verus!
