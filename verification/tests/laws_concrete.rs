//! The laws of the library on concrete values.

use wan_party_bot::chat::auto_split_messages;
use wan_party_bot::cmudict::CmuDict;
use wan_party_bot::count_syllables::count_syllables;
use wan_party_bot::sing::Singer;
use wan_party_bot::text_util::normalize_newlines;

#[test]
fn split_messages_rejoin_to_the_text() {
    let text = "first\nsecond-line\nthird\nfour\nfifth!";
    for limit in [11usize, 12, 20, 100] {
        let msgs = auto_split_messages(text, limit);
        assert_eq!(msgs.join("\n"), text, "limit {limit}");
        assert!(msgs.iter().all(|m| m.chars().count() <= limit));
    }
    assert_eq!(auto_split_messages("", 5), vec!["".to_string()]);
}

#[test]
fn syllables_add_over_a_space() {
    let cmu = CmuDict::from_text("HELLO  HH AH0 L OW1\nWORLD  W ER1 L D\nCAT  K AE1 T\n");
    let pairs = [("hello", "world"), ("cat's hello", "world-cat"), ("", "cat"), ("zebra", "hello")];
    for (a, b) in pairs {
        assert_eq!(
            count_syllables(&cmu, &format!("{a} {b}")),
            count_syllables(&cmu, a) + count_syllables(&cmu, b),
            "{a:?} {b:?}"
        );
    }
}

#[test]
fn newline_count_after_normalizing() {
    let s = "a\r\nb\rc\n\r\r\nd\n\r";
    let r = normalize_newlines(s);
    let count = |t: &str, p: &str| t.matches(p).count();
    assert_eq!(count(&r, "\n"), count(s, "\r") + count(s, "\n") - count(s, "\r\n"));
    assert_eq!(r, "a\nb\nc\n\n\nd\n\n");
}

#[test]
fn songs_cycle_through_the_lyrics() {
    let lines = ["never", "gonna", "give"];
    let mut singer = Singer::from_text(&lines.join("\n"));
    for k in 0..10 {
        assert_eq!(singer.sing_to_me(), format!("🎶  *{}*  🎶", lines[k % 3]));
    }
}
