use latin_dictionary::envelope::{gathered, member, object, renamed};

#[test]
fn a_member_is_a_quoted_name_and_its_value() {
    assert_eq!(member("gcse", "[]"), "\"gcse\": []");
    assert_eq!(member("lns", "[{\"head\":\"amo\"}]"), "\"lns\": [{\"head\":\"amo\"}]");
    assert_eq!(member("", ""), "\"\": ");
}

#[test]
fn an_object_holds_its_members_in_order() {
    assert_eq!(object(&vec![]), "{}");
    assert_eq!(object(&vec![member("gcse", "[]")]), "{\"gcse\": []}");
    assert_eq!(
        object(&vec![member("gcse", "[]"), member("clc", "[1]"), member("lns", "[]")]),
        "{\"gcse\": [], \"clc\": [1], \"lns\": []}"
    );
}

#[test]
fn a_member_is_renamed_at_its_first_separator() {
    assert_eq!(renamed("amo", "\"gcse\": [[\"amo\"]]"), Some("\"amo\": [[\"amo\"]]".to_string()));
    assert_eq!(renamed("ēdo", "\"asvocab\": [\"a: b\"]"), Some("\"ēdo\": [\"a: b\"]".to_string()));
    assert_eq!(renamed("amo", ": "), Some("\"amo\": ".to_string()));
}

#[test]
fn a_member_without_separator_cannot_be_renamed() {
    assert_eq!(renamed("amo", "\"gcse\":[]"), None);
    assert_eq!(renamed("amo", ""), None);
    assert_eq!(renamed("amo", ":"), None);
}

#[test]
fn a_source_without_an_answer_leaves_the_others() {
    let answers = vec![
        Some(member("gcse", "[]")),
        None,
        Some(member("asvocab", "[1]")),
        None,
        Some(member("lns", "[]")),
    ];
    assert_eq!(
        gathered(&answers),
        vec!["\"gcse\": []", "\"asvocab\": [1]", "\"lns\": []"]
    );
    assert_eq!(
        object(&gathered(&answers)),
        "{\"gcse\": [], \"asvocab\": [1], \"lns\": []}"
    );
    assert!(gathered(&vec![None, None]).is_empty());
    assert!(gathered(&vec![]).is_empty());
    assert_eq!(object(&gathered(&vec![None])), "{}");
}
