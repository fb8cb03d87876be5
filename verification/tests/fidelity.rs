//! Message splitting and the special day, on the values the bot's history pins down.

use wan_party_bot::chat::auto_split_messages;
use wan_party_bot::message_handler::is_special;

#[test]
fn auto_split_matches_python() {
    // t1
    assert_eq!(auto_split_messages("a\nb\nc", 2000), vec!["a\nb\nc".to_string()]);
    // t2: a single 2500-char line splits into [2000, 500]
    let t2: Vec<usize> = auto_split_messages(&"x".repeat(2500), 2000)
        .iter()
        .map(|s| s.chars().count())
        .collect();
    assert_eq!(t2, vec![2000, 500]);
    // t3
    let t3 = auto_split_messages(&format!("line1\n{}\nline3", "y".repeat(1999)), 2000);
    assert_eq!(t3, vec!["line1".to_string(), "y".repeat(1999), "line3".to_string()]);
    // t4
    assert_eq!(
        auto_split_messages("p1 line\n\np2 line\nmore", 2000),
        vec!["p1 line\n\np2 line\nmore".to_string()]
    );
    // t5: 6000 chars -> 3 chunks
    assert_eq!(auto_split_messages(&"z".repeat(6000), 2000).len(), 3);
}

#[test]
fn is_special_matches_python() {
    for d in ["06-13", "04-01", "04-20", "12-25", "01-01", "99-99", "abcde", "aaaaa"] {
        assert!(!is_special(d), "is_special({d:?}) should be false");
    }
}

#[test]
fn auto_split_never_exceeds_the_limit() {
    let text = format!("{}\n{}\nshort\n{}", "a".repeat(15), "b".repeat(4), "c".repeat(23));
    for m in auto_split_messages(&text, 10) {
        assert!(m.chars().count() <= 10, "{m:?}");
    }
}
