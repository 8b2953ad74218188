use latin_dictionary::lookup::LookupError;
use latin_dictionary::routing::FileRouter;
use latin_dictionary::search::{after_line, LineScanner, ScanEvent, ScanStep};

fn scan(key: &str) -> LineScanner {
    LineScanner::new(key).unwrap()
}

fn corpus() -> Vec<String> {
    vec![
        r#"<div1 key="iam"><head orth_orig="jam">iam</head></div1>"#.to_string(),
        r#"<div1 key="do^mi^nus"><head orth_orig="dŏmĭnus">dominus</head></div1>"#.to_string(),
        r#"<div1 key="ianua"><head orth_orig="jānŭa">ianua</head></div1>"#.to_string(),
        r#"<div1 key="a.b"><head orth_orig="ab">a.b</head></div1>"#.to_string(),
        r#"<div1 key="ianua" n="2"><head orth_orig="jānŭa">ianua</head></div1>"#.to_string(),
    ]
}

#[test]
fn the_first_line_with_the_key_is_found() {
    let lines = corpus();
    assert_eq!(scan("iam").find_in(&lines), Some(0));
    assert_eq!(scan("ianua").find_in(&lines), Some(2));
    assert_eq!(scan("a.b").find_in(&lines), Some(3));
}

#[test]
fn a_key_that_is_not_in_the_file_is_not_found() {
    let lines = corpus();
    assert_eq!(scan("dominus").find_in(&lines), None);
    assert_eq!(scan("ia").find_in(&lines), None);
    assert_eq!(scan("anua").find_in(&lines), None);
    assert_eq!(scan("iam").find_in(&vec![]), None);
}

#[test]
fn the_key_is_matched_as_a_literal() {
    let lines = corpus();
    assert_eq!(scan("do^mi^nus").find_in(&lines), Some(1));
    assert_eq!(scan("a.b").find_in(&vec![r#"key="axb""#.to_string()]), None);
    assert_eq!(scan(".*").find_in(&lines), None);
    assert_eq!(scan("i.*").find_in(&lines), None);
    assert_eq!(scan("(iam|ianua)").find_in(&lines), None);
    assert_eq!(scan("").find_in(&lines), None);
    assert_eq!(scan("").find_in(&vec![r#"key="""#.to_string()]), Some(0));
}

#[test]
fn every_meta_character_stands_for_itself() {
    let key = r"\.+*?()|[]{}^$#&-~";
    let scanner = scan(key);
    assert_eq!(scanner.key(), key);
    assert_eq!(scanner.holds_key(&format!("<div1 key=\"{}\">", key)), true);
    assert_eq!(scanner.holds_key(r#"<div1 key="\.">"#), false);
    assert_eq!(scan("a b").holds_key(r#"key="a b""#), true);
    assert_eq!(scan("a b").holds_key(r#"key="ab""#), false);
    assert_eq!(scan("Iam").holds_key(r#"key="iam""#), false);
    assert_eq!(scan("ēdo").holds_key(r#"x key="ēdo" y"#), true);
}

#[test]
fn the_whole_marker_is_looked_for() {
    let scanner = scan("iam");
    assert_eq!(scanner.holds_key(r#"key="iam""#), true);
    assert_eq!(scanner.holds_key(r#"key="iam"#), false);
    assert_eq!(scanner.holds_key(r#"key=iam"#), false);
    assert_eq!(scanner.holds_key(r#"iam"#), false);
    assert_eq!(scanner.holds_key(r#"key="iamdudum""#), false);
    assert_eq!(scanner.holds_key(r#"monkey="iam""#), true);
    assert_eq!(scanner.holds_key(""), false);
}

#[test]
fn a_key_too_large_for_the_engine_is_rejected() {
    let key = "a".repeat(1_000_000);
    assert_eq!(LineScanner::new(&key).err(), Some(LookupError::PatternRejected));
    assert!(LineScanner::new("a").is_ok());
    assert!(LineScanner::new("").is_ok());
}

#[test]
fn a_scan_goes_on_until_the_key_is_met() {
    let scanner = scan("ianua");
    let mut met = None;
    let mut read = 0;
    for line in corpus() {
        read += 1;
        match scanner.step(ScanEvent::Line(line)) {
            ScanStep::Continue => {}
            ScanStep::Found(line) => {
                met = Some(line);
                break;
            }
            other => panic!("{:?}", other),
        }
    }
    assert_eq!(read, 3);
    assert_eq!(
        met,
        Some(r#"<div1 key="ianua"><head orth_orig="jānŭa">ianua</head></div1>"#.to_string())
    );
}

#[test]
fn a_scan_ends_with_the_file() {
    let scanner = scan("dominus");
    for line in corpus() {
        assert_eq!(scanner.step(ScanEvent::Line(line)), ScanStep::Continue);
    }
    assert_eq!(scanner.step(ScanEvent::EndOfFile), ScanStep::NotFound);
    assert_eq!(
        scanner.step(ScanEvent::ReadFailed),
        ScanStep::Failed(LookupError::IoError)
    );
}

#[test]
fn a_tested_line_decides_the_step() {
    assert_eq!(after_line("x".to_string(), true), ScanStep::Found("x".to_string()));
    assert_eq!(after_line("x".to_string(), false), ScanStep::Continue);
}

#[test]
fn keys_of_two_letters_are_looked_for_in_their_one_file() {
    let router = FileRouter::new();
    let lines = corpus();
    for (key, at) in [("iam", 0), ("jam", 5)] {
        assert_eq!(router.resolve(key), Ok("i.xml"));
        let found = scan(key).find_in(&lines);
        assert_eq!(found, if at < lines.len() { Some(at) } else { None });
    }
    let mut with_j = corpus();
    with_j.push(r#"<div1 key="jam"><head orth_orig="jam">jam</head></div1>"#.to_string());
    assert_eq!(scan("jam").find_in(&with_j), Some(5));
    assert_eq!(scan("iam").find_in(&with_j), Some(0));
}

#[test]
fn a_part_or_another_case_of_a_key_does_not_match() {
    let lines = vec![r#"<div1 key="dominus"><head orth_orig="dŏmĭnus">dominus</head>"#.to_string()];
    for key in ["dom", "ominus", "Dominus", "dominus2"] {
        assert_eq!(scan(key).find_in(&lines), None);
        assert_eq!(
            scan(key).step(ScanEvent::Line(lines[0].clone())),
            ScanStep::Continue
        );
    }
    assert_eq!(scan("dominus").find_in(&lines), Some(0));
    assert_eq!(scan("a.c").find_in(&vec![r#"<div1 key="abc">"#.to_string()]), None);
}

#[test]
fn what_follows_the_line_of_the_key_is_not_looked_at() {
    let scanner = scan("ianua");
    let lines = corpus();
    assert_eq!(scanner.find_in(&lines), Some(2));
    assert_eq!(scanner.find_in(&lines[..3].to_vec()), Some(2));
    assert_eq!(
        scanner.step(ScanEvent::Line(lines[2].clone())),
        ScanStep::Found(lines[2].clone())
    );
}
