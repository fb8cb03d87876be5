use wan_party_bot::cmudict::CmuDict;
use wan_party_bot::commands::{
    command_action, corpus_reply, followup_chunks, get_article, haiku_reply, haiku_source, id_reply,
    nice_dice, py_str_repr, python_timedelta_str, quotedump_text, quotestats_text, rhyme_reply,
    roll_default, roll_reply, sayquote_text, select_replies, sql_reply, sql_row_text, text_leaderboard_messages, utf8_longer_than,
    zero_padded, CommandAction, SqlCell,
};

/// CPython `str(timedelta)` of each span.
#[test]
fn timedelta_matches_python() {
    let cases: [(i64, &str); 11] = [
        (0, "0:00:00"),
        (1_000_000, "0:00:01"),
        (59_000_000, "0:00:59"),
        (61_000_000, "0:01:01"),
        (3_661_000_000, "1:01:01"),
        (90_061_000_000, "1 day, 1:01:01"),
        (172_805_000_000, "2 days, 0:00:05"),
        (-1_000_000, "-1 day, 23:59:59"),
        (-86_395_000_000, "-1 day, 0:00:05"),
        (1_799_500_000, "0:29:59.500000"),
        (90_000_000_000, "1 day, 1:00:00"),
    ];
    for (us, expected) in cases {
        assert_eq!(python_timedelta_str(us), expected, "us={us}");
    }
}

/// CPython `repr(str)` of each text.
#[test]
fn str_repr_matches_python() {
    assert_eq!(py_str_repr("foo"), "'foo'");
    assert_eq!(py_str_repr("it's"), "\"it's\"");
    assert_eq!(py_str_repr("say \"hi\""), "'say \"hi\"'");
    assert_eq!(py_str_repr("a'b\"c"), "'a\\'b\"c'");
    assert_eq!(py_str_repr("tab\there"), "'tab\\there'");
    assert_eq!(py_str_repr(""), "''");
    assert_eq!(py_str_repr("back\\slash"), "'back\\\\slash'");
}

#[test]
fn timedelta_of_many_days_and_micros() {
    assert_eq!(python_timedelta_str(3 * 86_400_000_000 + 7), "3 days, 0:00:00.000007");
    assert_eq!(python_timedelta_str(-2 * 86_400_000_000), "-2 days, 0:00:00");
}

#[test]
fn zero_padding() {
    assert_eq!(zero_padded(7, 2).into_iter().collect::<String>(), "07");
    assert_eq!(zero_padded(123, 2).into_iter().collect::<String>(), "123");
    assert_eq!(zero_padded(5, 6).into_iter().collect::<String>(), "000005");
}

#[test]
fn dice_text_is_trimmed_and_lowered() {
    assert_eq!(nice_dice("  2D6 + 3 \n"), "2d6 + 3");
}

#[test]
fn articles() {
    assert_eq!(get_article("apple"), "an apple");
    assert_eq!(get_article("Owl"), "an Owl");
    assert_eq!(get_article("pear"), "a pear");
    assert_eq!(get_article(""), "a ");
}

fn small_dict() -> CmuDict {
    CmuDict::from_text("CAT  K AE1 T\nHAT  HH AE1 T\nBAT  B AE1 T\nDOG  D AO1 G\n")
}

#[test]
fn rhyme_listing() {
    let cmu = small_dict();
    assert_eq!(rhyme_reply(&cmu, "cat"), "> CAT rhymes with:\nHAT, BAT\n\nA total of 2 rhymes.");
}

#[test]
fn rhyme_of_unknown_word_and_of_two_words() {
    let cmu = small_dict();
    assert_eq!(
        rhyme_reply(&cmu, "zebra"),
        "I'm having trouble with this one, you're probably making it up, or KeyError('ZEBRA'), one of the two..."
    );
    assert_eq!(rhyme_reply(&cmu, "two words"), "I need a word to contemplate. `/rhyme word`, fool.");
}

#[test]
fn utf8_length_counts_bytes() {
    assert!(!utf8_longer_than("héllo", 6));
    assert!(utf8_longer_than("héllo", 5));
    assert!(utf8_longer_than("🎶", 3));
}

#[test]
fn command_actions() {
    assert!(matches!(command_action("dick"), CommandAction::Corpus));
    assert!(matches!(command_action("jane"), CommandAction::Corpus));
    assert!(matches!(command_action("v"), CommandAction::Dwarf));
    assert!(matches!(command_action("rick"), CommandAction::Rick));
    match command_action("seppuku") {
        CommandAction::Text(t) => assert_eq!(t, "https://giphy.com/gifs/KRY2oGS7SPvO0"),
        _ => panic!("seppuku should answer with text"),
    }
    match command_action("rollin") {
        CommandAction::Text(t) => assert_eq!(t, "Aww yeah 😎"),
        _ => panic!("rollin should answer with text"),
    }
    assert!(matches!(command_action("leaderboards"), CommandAction::Leaderboards));
    assert!(matches!(command_action("game_poll"), CommandAction::GamePoll));
    assert!(matches!(command_action("bet"), CommandAction::Silent));
}

#[test]
fn corpus_reply_quotes_every_line() {
    assert_eq!(corpus_reply("one\ntwo"), "> one\n> two ");
}

#[test]
fn followups_fill_up_to_the_limit() {
    let a = "a".repeat(1500);
    let b = "b".repeat(600);
    let c = "c".repeat(10);
    let r = followup_chunks(&vec![a.clone(), b.clone(), c.clone()]);
    assert_eq!(r, vec![format!("{a}\n"), format!("{b}\n{c}\n")]);
    assert!(followup_chunks(&vec![]).is_empty());
}

#[test]
fn sql_rows_render_like_python_tuples() {
    assert_eq!(sql_row_text(&vec![SqlCell::Integer(5)]), "(5,)");
    assert_eq!(
        sql_row_text(&vec![
            SqlCell::Null,
            SqlCell::Integer(-2),
            SqlCell::Real("2.5".to_string()),
            SqlCell::Text("it's".to_string()),
            SqlCell::Blob,
        ]),
        "(None, -2, 2.5, \"it's\", <blob>)"
    );
    assert_eq!(sql_row_text(&vec![]), "()");
}

#[test]
fn sql_replies() {
    assert_eq!(
        sql_reply(false, &Ok(vec!["(1,)".to_string(), "(2,)".to_string()])),
        "```sql\n(1,)\n(2,)\n```"
    );
    assert_eq!(sql_reply(false, &Err("no such table: x".to_string())), "```sql\nError: no such table: x\n```");
    assert_eq!(
        sql_reply(true, &Ok(vec![])),
        "```sql\nYour SQL privileges have been revoked while in jail\n```"
    );
}

#[test]
fn saved_quote_listings() {
    assert_eq!(sayquote_text(42, "hello"), "hello --<@42>");
    assert_eq!(
        quotestats_text(&vec![(1, 3), (2, 1)]),
        "<@1> has been quoted 3 times\n<@2> has been quoted 1 times\n"
    );
    assert_eq!(
        quotedump_text(&vec![(1, "a".to_string()), (2, "b".to_string())]),
        "<@1>\ta\n<@2>\tb"
    );
}

#[test]
fn id_replies() {
    assert_eq!(id_reply(&vec![]), None);
    assert_eq!(id_reply(&vec![1, 22]), Some("> 1\n > 22".to_string()));
}

#[test]
fn haiku_needs_a_muse() {
    let cmu = small_dict();
    assert_eq!(haiku_reply(&cmu, &vec![], &vec![]), "I need a muse. @somebody, fool.");
}

#[test]
fn haiku_source_keeps_long_messages_of_the_muse() {
    let history = vec![
        (7, "one two three four five".to_string()),
        (7, "too short here".to_string()),
        (8, "someone else says many words here".to_string()),
        (7, "a b c d e f".to_string()),
    ];
    assert_eq!(haiku_source(&history, 7), "one two three four five a b c d e f");
}

#[test]
fn select_needs_four_words() {
    assert!(select_replies("a", Some("b"), None, Some("d"), true).is_empty());
    assert_eq!(
        select_replies("old", Some("rusty"), Some("magic"), Some("sword"), false),
        vec!["You have selected the old rusty magic sword. You have been cursed by the old rusty magic sword. You shouldn't have bought it.".to_string()]
    );
    assert_eq!(
        select_replies("a", Some("b"), Some("c"), Some("d"), true),
        vec![
            "You have selected the a b c d. The a b c d brings you peace and prosperity.".to_string(),
            "The a b c d has broken. You shouldn't have bought it.".to_string(),
        ]
    );
}

#[test]
fn rolls() {
    for _ in 0..200 {
        let r = roll_default();
        assert!((1..=100).contains(&r));
    }
    assert_eq!(roll_reply(&vec!["3".to_string(), "5".to_string()], "8"), "I rolled: 3 5, result: 8");
}

#[test]
fn text_leaderboard_fits_or_apologizes() {
    let short = vec!["a".to_string(), "b".to_string()];
    assert_eq!(text_leaderboard_messages(&short), vec!["a\nb".to_string()]);
    let long = vec!["x".repeat(1500), "y".repeat(400), "z".repeat(300)];
    assert_eq!(
        text_leaderboard_messages(&long),
        vec![
            format!("{}\n{}\n", "x".repeat(1500), "y".repeat(400)),
            "oops, something went wrong :blush:".to_string(),
        ]
    );
}
