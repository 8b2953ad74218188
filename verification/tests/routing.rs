use latin_dictionary::lookup::LookupError;
use latin_dictionary::routing::FileRouter;

#[test]
fn a_key_is_routed_by_its_first_letter() {
    let router = FileRouter::new();
    assert_eq!(router.resolve("dominus"), Ok("d.xml"));
    assert_eq!(router.resolve("a"), Ok("a.xml"));
    assert_eq!(router.resolve("zona"), Ok("z.xml"));
    assert_eq!(router.resolve("do^mi^nus"), Ok("d.xml"));
}

#[test]
fn the_first_letter_is_lower_cased() {
    let router = FileRouter::new();
    assert_eq!(router.resolve("Dominus"), Ok("d.xml"));
    assert_eq!(router.resolve("ZONA"), Ok("z.xml"));
    assert_eq!(router.resolve("\u{212A}alendae"), Ok("k.xml"));
    assert_eq!(router.resolve("\u{130}"), Ok("i.xml"));
}

#[test]
fn two_letters_share_one_file() {
    let router = FileRouter::new();
    assert_eq!(router.resolve("iam"), Ok("i.xml"));
    assert_eq!(router.resolve("jam"), Ok("i.xml"));
    assert_eq!(router.resolve("Juppiter"), router.resolve("Iuppiter"));
    assert_eq!(router.file_for('j'), Some("i.xml"));
    assert_eq!(router.file_for('i'), Some("i.xml"));
}

#[test]
fn every_letter_has_its_file() {
    let router = FileRouter::new();
    for letter in 'a'..='z' {
        let expected = if letter == 'j' { "i.xml".to_string() } else { format!("{}.xml", letter) };
        assert_eq!(router.file_for(letter), Some(expected.as_str()));
        assert_eq!(router.resolve(&letter.to_string()), Ok(expected.as_str()));
    }
}

#[test]
fn other_first_characters_are_unknown() {
    let router = FileRouter::new();
    assert_eq!(router.resolve(""), Err(LookupError::UnknownInitial));
    assert_eq!(router.resolve("1st"), Err(LookupError::UnknownInitial));
    assert_eq!(router.resolve(" dominus"), Err(LookupError::UnknownInitial));
    assert_eq!(router.resolve("ēdo"), Err(LookupError::UnknownInitial));
    assert_eq!(router.resolve("Ēdo"), Err(LookupError::UnknownInitial));
    assert_eq!(router.resolve("^"), Err(LookupError::UnknownInitial));
    assert_eq!(router.file_for('A'), None);
    assert_eq!(router.file_for('`'), None);
    assert_eq!(router.file_for('{'), None);
    assert_eq!(router.file_for('é'), None);
}
