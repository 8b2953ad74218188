//! Rows of the word lists that stand beside the dictionary.

use std::time::SystemTime;
use vstd::prelude::*;

verus! {

/// `std::time::SystemTime`, a point in time as the system clock gives it.
/// Nothing is said of what a value holds: the rows only carry it.
#[verifier::external_type_specification]
#[verifier::external_body]
pub struct ExSystemTime(SystemTime);

/// A word of the fourth-stage course list.
#[derive(Debug, PartialEq)]
pub struct Clc4 {
    pub id: i64,
    pub headword: String,
    pub dict_form: String,
    pub meaning: String,
    pub created_at: SystemTime,
    pub updated_at: SystemTime,
}

/// An inflected form and the headword it belongs to.
#[derive(Debug, PartialEq)]
pub struct Lemma {
    pub id: i64,
    pub form: String,
    pub analysis: String,
}

} // verus!
