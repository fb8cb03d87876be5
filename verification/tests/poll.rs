use wan_party_bot::poll::{
    hours_left_at, is_emoji, poll_answers, poll_duration_secs, poll_emoji, poll_options, python_mod, PollEmoji,
    MAX_OPTIONS,
};

const HOUR: i64 = 3_600_000_000;

#[test]
fn python_remainders() {
    assert_eq!(python_mod(-1, 7), 6);
    assert_eq!(python_mod(8, 7), 1);
    assert_eq!(python_mod(7, 7), 0);
    assert_eq!(python_mod(5, -3), -1);
    assert_eq!(python_mod(-6, -3), 0);
    assert_eq!(python_mod(-7, -3), -1);
}

#[test]
fn hours_until_tuesday_party() {
    // Monday noon: a day and 5 hours, plus the 7-hour offset.
    assert_eq!(hours_left_at(0, 12 * HOUR), 29 + 7);
    // Tuesday 4:30 PM: half an hour rounds down to 0.
    assert_eq!(hours_left_at(1, 16 * HOUR + HOUR / 2), 7);
    // Tuesday 5 PM sharp: the party is next week.
    assert_eq!(hours_left_at(1, 17 * HOUR), 168 + 7);
    // Sunday midnight.
    assert_eq!(hours_left_at(6, 0), 65 + 7);
}

#[test]
fn poll_options_and_emoji() {
    let opts = poll_options();
    assert_eq!(opts.len(), 48);
    assert!(is_emoji("🔨"));
    assert!(!is_emoji("dwarf"));
    let emojis = Some(vec![("dwarf".to_string(), 11u64), ("dwarf".to_string(), 12u64)]);
    assert!(matches!(poll_emoji(&emojis, "dwarf"), Some(PollEmoji::Id(12))));
    assert!(poll_emoji(&emojis, "splitgate").is_none());
    assert!(matches!(poll_emoji(&None, "splitgate"), Some(PollEmoji::Name(n)) if n == "🙃"));
    assert!(matches!(poll_emoji(&None, "🔨"), Some(PollEmoji::Name(n)) if n == "🔨"));
    let answers = poll_answers(&opts, &emojis);
    assert_eq!(answers.len(), MAX_OPTIONS);
    assert_eq!(answers[0].0, "Warhammer 40k Darktide");
    assert!(matches!(answers[3].1, Some(PollEmoji::Id(12))));
    assert_eq!(answers[9].0, "Something else");
    assert_eq!(poll_duration_secs(50), 180000);
    assert_eq!(poll_duration_secs(-2), 0);
}
