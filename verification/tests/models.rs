use latin_dictionary::models::{Clc4, Lemma};
use std::time::{Duration, SystemTime};

#[test]
fn rows_hold_their_fields() {
    let lemma = Lemma { id: 7, form: "dominum".to_string(), analysis: "acc sg".to_string() };
    assert_eq!(lemma.id, 7);
    assert_eq!(lemma.form, "dominum");
    assert_eq!(lemma.analysis, "acc sg");

    let at = SystemTime::UNIX_EPOCH + Duration::from_secs(1);
    let word = Clc4 {
        id: 1,
        headword: "dominus".to_string(),
        dict_form: "dominus, domini".to_string(),
        meaning: "master".to_string(),
        created_at: at,
        updated_at: at,
    };
    assert_eq!(word.headword, "dominus");
    assert_eq!(word.created_at, word.updated_at);
}
