use latin_dictionary::markup::{advance_past, take_until, Marker, MarkerAbsent};
use latin_dictionary::order::{compare, sorted_set, Order};
use latin_dictionary::text::find;

#[test]
fn find_gives_the_leftmost_occurrence() {
    assert_eq!(find(b"abcabc", b"bc"), Some(1));
    assert_eq!(find(b"abcabc", b"abc"), Some(0));
    assert_eq!(find(b"aab", b"ab"), Some(1));
    assert_eq!(find(b"abc", b"c"), Some(2));
    assert_eq!(find(b"abc", b"abc"), Some(0));
    assert_eq!(find(b"abc", b""), Some(0));
    assert_eq!(find(b"", b""), Some(0));
}

#[test]
fn find_gives_none_where_the_needle_does_not_occur() {
    assert_eq!(find(b"abc", b"abcd"), None);
    assert_eq!(find(b"abc", b"ca"), None);
    assert_eq!(find(b"", b"a"), None);
    assert_eq!(find(b"aaaa", b"ab"), None);
}

#[test]
fn every_marker_has_its_literal() {
    assert_eq!(Marker::Pronunciation.literal(), "orth_orig=\"");
    assert_eq!(Marker::Quote.literal(), "\"");
    assert_eq!(Marker::TagEnd.literal(), ">");
    assert_eq!(Marker::HeadwordClose.literal(), "</head>");
    assert_eq!(Marker::SenseOpen.literal(), "<sense");
    assert_eq!(Marker::SenseClose.literal(), "</sense>");
    assert_eq!(Marker::FragmentOpen.literal(), "<i>");
    assert_eq!(Marker::FragmentClose.literal(), "</i>");
    assert_eq!(Marker::AuthorOpen.literal(), "<author>");
    assert_eq!(Marker::AuthorClose.literal(), "</author>");
    assert_eq!(Marker::PartOfSpeechOpen.literal(), "<pos");
    assert_eq!(Marker::PartOfSpeechClose.literal(), "</pos>");
}

#[test]
fn take_until_splits_at_the_first_marker() {
    assert_eq!(take_until("dŏmĭ>nus>", Marker::TagEnd), Ok(("nus>", "dŏmĭ")));
    assert_eq!(take_until(">", Marker::TagEnd), Ok(("", "")));
    assert_eq!(take_until("ŏ</i>ĭ", Marker::FragmentClose), Ok(("ĭ", "ŏ")));
    assert_eq!(
        take_until("dŏmĭnus", Marker::TagEnd),
        Err(MarkerAbsent { marker: Marker::TagEnd })
    );
    assert_eq!(
        take_until("</hea", Marker::HeadwordClose),
        Err(MarkerAbsent { marker: Marker::HeadwordClose })
    );
}

#[test]
fn advance_past_leaves_what_follows_the_marker() {
    assert_eq!(advance_past("a<sense n=\"1\">b", Marker::SenseOpen), Ok(" n=\"1\">b"));
    assert_eq!(advance_past("<sense", Marker::SenseOpen), Ok(""));
    assert_eq!(
        advance_past("<sens", Marker::SenseOpen),
        Err(MarkerAbsent { marker: Marker::SenseOpen })
    );
}

#[test]
fn strings_are_ordered_by_their_bytes() {
    assert_eq!(compare("A", "B"), Order::Before);
    assert_eq!(compare("B", "A"), Order::After);
    assert_eq!(compare("Cic.", "Cic."), Order::Same);
    assert_eq!(compare("", ""), Order::Same);
    assert_eq!(compare("", "a"), Order::Before);
    assert_eq!(compare("Cic", "Cic."), Order::Before);
    assert_eq!(compare("Cic.", "Cic"), Order::After);
    assert_eq!(compare("Z", "a"), Order::Before);
    assert_eq!(compare("z", "é"), Order::Before);
    assert_eq!(compare("abd", "abc"), Order::After);
}

#[test]
fn sorted_set_sorts_and_drops_repetitions() {
    assert_eq!(sorted_set(&vec!["B", "A", "A"]), vec!["A", "B"]);
    assert_eq!(sorted_set(&vec!["c", "b", "a"]), vec!["a", "b", "c"]);
    assert_eq!(sorted_set(&vec!["a", "b", "c"]), vec!["a", "b", "c"]);
    assert_eq!(sorted_set(&vec!["a", "a", "a"]), vec!["a"]);
    assert_eq!(sorted_set(&vec!["b", "a", "c", "a", "b"]), vec!["a", "b", "c"]);
    assert!(sorted_set(&vec![]).is_empty());
}

#[test]
fn sorted_set_agrees_with_sort_and_dedup() {
    let list = vec!["Verg.", "Cic.", "Hor.", "Cic.", "Ov.", "Caes.", "Verg.", "Ter.", "Ov"];
    let mut expected = list.clone();
    expected.sort();
    expected.dedup();
    assert_eq!(sorted_set(&list), expected);
}
