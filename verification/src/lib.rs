//! Lookup of dictionary entries in a corpus of irregular markup.
//!
//! The corpus keeps one entry to a line, in one file for each letter. A key
//! is routed to a file by its first letter ([`routing`]), the file is
//! scanned for the line that carries the key ([`search`]), and the line is
//! read into an [`parsing::Entry`] by a cursor that only moves forward
//! ([`parsing`]). What a line says is laid down in [`grammar`], as a
//! function of its bytes. [`lookup`] reads the lines found for a list of
//! keys, [`report`] lays an entry out for reading, and [`envelope`] puts the
//! answers of several sources into one.
//!
//! [`text`] holds the search for a literal that the cursor rests on,
//! [`markup`] the markers of the corpus and the moves of the cursor,
//! [`order`] the order of citation authors, and [`models`] the rows of the
//! word lists that stand beside the dictionary.

pub mod envelope;
pub mod grammar;
pub mod lookup;
pub mod markup;
pub mod models;
pub mod order;
pub mod parsing;
pub mod report;
pub mod routing;
pub mod search;
pub mod text;
