use latin_dictionary::parsing::{parse_entry, Entry, Sense};
use latin_dictionary::report::{decimal_of, list_of};

#[test]
fn an_entry_is_laid_out_line_by_line() {
    let line = r#"<head orth_orig="dŏmĭnus">dominus</head><i>test</i><i>test2</i><sense><pos>n</pos><i>test</i><i>test2</i><author>B</author><author>A</author><author>A</author></sense>"#;
    let (_, entry) = parse_entry(line).unwrap();
    assert_eq!(
        entry.lines(),
        vec![
            "",
            "dominus",
            "Pronunciation: dŏmĭnus",
            "test, test2",
            "# Sense 1",
            "Part of speech: n",
            "test, test2",
            "Author(s): A, B",
        ]
    );
}

#[test]
fn a_bare_entry_has_three_lines() {
    let entry = Entry::new("ab", "ăb", vec![], vec![]);
    assert_eq!(entry.lines(), vec!["", "ab", "Pronunciation: ăb"]);
}

#[test]
fn only_senses_with_fragments_are_numbered() {
    let entry = Entry::new(
        "a",
        "a",
        vec!["x"],
        vec![
            Sense::new(Some("n"), vec!["Cic."], vec![]),
            Sense::new(None, vec![], vec!["one"]),
            Sense::new(Some("adj."), vec![], vec![]),
            Sense::new(Some("v"), vec!["Ov.", "Cic."], vec!["two", "three"]),
        ],
    );
    assert_eq!(
        entry.lines(),
        vec![
            "",
            "a",
            "Pronunciation: a",
            "x",
            "Author(s): Cic.",
            "# Sense 1",
            "one",
            "# Sense 2",
            "Part of speech: v",
            "two, three",
            "Author(s): Cic., Ov.",
        ]
    );
}

#[test]
fn senses_are_numbered_in_decimal() {
    let senses: Vec<Sense> = (0..12).map(|_| Sense::new(None, vec![], vec!["f"])).collect();
    let lines = Entry::new("a", "a", vec![], senses).lines();
    assert_eq!(lines.len(), 3 + 24);
    assert_eq!(lines[3], "# Sense 1");
    assert_eq!(lines[3 + 18], "# Sense 10");
    assert_eq!(lines[3 + 22], "# Sense 12");
}

#[test]
fn numbers_are_written_in_decimal() {
    assert_eq!(decimal_of(0), "0");
    assert_eq!(decimal_of(7), "7");
    assert_eq!(decimal_of(10), "10");
    assert_eq!(decimal_of(909), "909");
    assert_eq!(decimal_of(1234567890), "1234567890");
    assert_eq!(decimal_of(usize::MAX), usize::MAX.to_string());
}

#[test]
fn strings_are_listed_with_commas() {
    assert_eq!(list_of(&vec![]), "");
    assert_eq!(list_of(&vec!["a"]), "a");
    assert_eq!(list_of(&vec!["a", "bĭ", ""]), "a, bĭ, ");
}
