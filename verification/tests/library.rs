use wan_party_bot::blacklist::is_blacklisted_channel;
use wan_party_bot::cmudict::CmuDict;
use wan_party_bot::count_syllables::count_syllables;
use wan_party_bot::discord_util::{display_name, raw_mentions, snowflake_after};
use wan_party_bot::jokes::{
    get_error_message_for_fun_times_everyone_loves_error_messages, hit_the_deck, hit_the_donk, random_joke,
};
use wan_party_bot::markov_haiku::gen_haiku;
use wan_party_bot::merchant::{merchant_msg, pool_lines, WordPool};
use wan_party_bot::message_handler::{
    as_personality, backdoor, plan_reactions, route_message, spellings, what_think_reply, Backdoor, Draws, Emoji,
    HistoryMessage, Route,
};
use wan_party_bot::pyrepr::py_repr;
use wan_party_bot::quotes::{get_dwarf_quote, get_random_quote, get_yoda_quote, split_lines, split_paragraphs, Corpora};
use wan_party_bot::rhymes::{rhyme, RhymeResult};
use wan_party_bot::sing::Singer;
use wan_party_bot::text_util::{lines_keepends, normalize_newlines};
use wan_party_bot::thinking::{random_thinking_message, thinking_iterations, thinking_messages};

fn dict() -> CmuDict {
    CmuDict::from_text(
        "CAT  K AE1 T\nHAT  HH AE1 T\nBAT  B AE1 T\nDOG  D AO1 G\nHELLO  HH AH0 L OW1\nWORLD  W ER1 L D\n",
    )
}

#[test]
fn blacklisted_channels() {
    assert!(is_blacklisted_channel(Some("Bible")));
    assert!(is_blacklisted_channel(Some("dads")));
    assert!(!is_blacklisted_channel(Some("general")));
    assert!(!is_blacklisted_channel(Some("")));
    assert!(!is_blacklisted_channel(None));
}

#[test]
fn dictionary_lookup_and_keys() {
    let cmu = dict();
    assert_eq!(cmu.len(), 7);
    let i = cmu.find("HELLO").unwrap();
    assert_eq!(cmu.prons(i), &vec!["HH AH0 L OW1".to_string()]);
    assert!(cmu.find("hello").is_none());
    assert!(cmu.find("").is_some());
    assert!(cmu.keys_repr().starts_with("dict_keys(['CAT', 'HAT'"));
    assert!(cmu.keys_repr().ends_with("'WORLD', ''])"));
    assert!(cmu.keys_repr_lower().starts_with("dict_keys(['cat'"));
}

#[test]
fn syllables() {
    let cmu = dict();
    assert_eq!(count_syllables(&cmu, "Hello, world's cat-dog!"), 5);
    assert_eq!(count_syllables(&cmu, "zebra"), 0);
    assert_eq!(count_syllables(&cmu, ""), 0);
}

#[test]
fn rhymes() {
    let cmu = dict();
    match rhyme(&cmu, "cat", 0) {
        Ok(RhymeResult::Dict { word, matches }) => {
            assert_eq!(word, "CAT");
            assert_eq!(matches, vec!["HAT".to_string(), "BAT".to_string()]);
        }
        _ => panic!("cat rhymes"),
    }
    assert_eq!(rhyme(&cmu, "zebra", 0).err(), Some("KeyError('ZEBRA')".to_string()));
}

#[test]
fn haiku_or_the_error_of_the_draw() {
    let cmu = dict();
    let training = "hello world cat dog hat bat hello world cat dog hat bat hello world cat dog";
    for _ in 0..5 {
        match gen_haiku(&cmu, training) {
            Ok(lines) => assert_eq!(lines.len(), 3),
            Err(e) => assert!(
                e == "IndexError('Cannot choose from an empty sequence')"
                    || e == "ValueError('empty range for randrange()')"
                    || e == "RecursionError('maximum recursion depth exceeded')",
                "{e}"
            ),
        }
    }
    assert!(gen_haiku(&cmu, "").is_err());
}

#[test]
fn repr_of_keys() {
    assert_eq!(py_repr("a\u{7}b"), "'a\\x07b'");
    assert_eq!(py_repr("it's"), "\"it's\"");
}

#[test]
fn newlines_and_lines() {
    assert_eq!(normalize_newlines("a\r\nb\rc\n"), "a\nb\nc\n");
    assert_eq!(lines_keepends("a\nb\n"), vec!["a\n".to_string(), "b\n".to_string()]);
    assert_eq!(lines_keepends("a\nb"), vec!["a\n".to_string(), "b".to_string()]);
    assert!(lines_keepends("").is_empty());
}

#[test]
fn the_song_goes_round() {
    let mut s = Singer::from_text("never\ngonna");
    assert_eq!(s.sing_to_me(), "🎶  *never*  🎶");
    assert_eq!(s.sing_to_me(), "🎶  *gonna*  🎶");
    assert_eq!(s.sing_to_me(), "🎶  *never*  🎶");
}

fn corpora() -> Corpora {
    let fit = "q".repeat(150);
    Corpora {
        dick: vec!["short".to_string(), fit.clone()],
        dickens: vec![fit.clone()],
        willy: vec![fit.clone()],
        thomas: vec![fit.clone()],
        jane: vec![fit.clone()],
        yoda: vec!["Do or do not".to_string()],
        dwarf: vec!["Rock and stone".to_string()],
    }
}

#[test]
fn quotes() {
    let c = corpora();
    for _ in 0..20 {
        assert_eq!(get_random_quote(&c, "dick"), "q".repeat(150));
    }
    assert_eq!(get_yoda_quote(&c), "> Do or do not");
    assert_eq!(get_dwarf_quote(&c), "> Rock and stone");
    assert_eq!(split_paragraphs("a\nb\n\nc"), vec!["a\nb".to_string(), "c".to_string()]);
    assert_eq!(split_lines("a\nb\n"), vec!["a".to_string(), "b".to_string(), String::new()]);
}

#[test]
fn mentions_and_names() {
    assert_eq!(raw_mentions("hi <@12> and <@!34> not <@x> <@56"), vec![12, 34]);
    assert_eq!(display_name(Some("nick"), Some("global"), "user"), "nick");
    assert_eq!(display_name(None, Some("global"), "user"), "global");
    assert_eq!(display_name(None, None, "user"), "user");
    assert_eq!(snowflake_after(1420070400000 + 1), 1 << 22);
    assert_eq!(snowflake_after(0), 1);
}

#[test]
fn routing() {
    assert!(matches!(route_message("/quote", false, None, "42", false, "01-01"), Route::Quote));
    assert!(matches!(route_message("/quote", true, None, "42", false, "01-01"), Route::Ignore));
    assert!(matches!(route_message("hi", false, Some("Bible"), "42", false, "01-01"), Route::Ignore));
    assert!(matches!(route_message("hey <@42>", false, None, "42", false, "01-01"), Route::Converse));
    assert!(matches!(route_message("hey", false, None, "42", true, "01-01"), Route::Converse));
    assert!(matches!(route_message("hey", false, None, "42", false, "01-01"), Route::Respond));
    assert!(matches!(route_message("hey", false, None, "42", false, "04-01"), Route::Ignore));
    match route_message("/as a pirate", false, None, "42", false, "01-01") {
        Route::RespondAs(p) => assert_eq!(p, "a pirate"),
        _ => panic!("/as answers in a personality"),
    }
    assert_eq!(as_personality("/as  a /as pirate "), "a  pirate");
}

#[test]
fn reactions_to_an_ordinary_message() {
    let draws = Draws { eye_roll: false, neato: false, elon: false, ai: true };
    let plan = plan_reactions("POOP and a Yoda trombone", "someone", "01-01", None, false, false, &draws);
    let first = match &plan.reactions[0] {
        Emoji::Unicode(s) => s.clone(),
        Emoji::Guild(s) => s.clone(),
    };
    assert_eq!(first, "💩");
    assert!(plan.yoda && plan.trombone && plan.ai_reaction);
    let plan = plan_reactions("the way", "ryan", "01-01", None, false, false, &draws);
    assert!(matches!(&plan.reactions[0], Emoji::Guild(s) if s == "mando"));
}

#[test]
fn spellings_of_wanbot_and_deck() {
    assert_eq!(spellings("hey WANBOT"), (true, false));
    assert_eq!(spellings("hello there"), (false, false));
    assert_eq!(spellings("hit the DECK"), (false, true));
    assert_eq!(spellings("d0nk"), (false, true));
    assert_eq!(spellings("duck"), (false, false));
}

#[test]
fn what_the_void_thinks() {
    let h = vec![
        HistoryMessage { id: 9, author_name: "Vοid".to_string(), content: "the question".to_string() },
        HistoryMessage { id: 8, author_name: "void".to_string(), content: "latin o".to_string() },
        HistoryMessage { id: 7, author_name: "the vοid one".to_string(), content: "an answer".to_string() },
    ];
    assert_eq!(what_think_reply(&h, 9), "an answer");
    assert_eq!(what_think_reply(&vec![], 9), "hmmm");
}

#[test]
fn command_prefixes() {
    match backdoor("#! echo hi there") {
        Some(Backdoor::Shell(argv)) => assert_eq!(argv, vec!["echo", "hi", "there"]),
        _ => panic!("#! runs a program"),
    }
    assert!(matches!(backdoor("#!"), Some(Backdoor::ShellEmpty)));
    assert!(matches!(backdoor("## print(1)"), Some(Backdoor::Python)));
    assert!(backdoor("hello").is_none());
}

#[test]
fn jokes_and_errors() {
    let lines = vec!["oops\n".to_string(), "uh oh\n".to_string()];
    for _ in 0..20 {
        assert!(lines.contains(&get_error_message_for_fun_times_everyone_loves_error_messages(&lines)));
    }
    let jokes = vec![("Why?".to_string(), "Because.".to_string())];
    assert_eq!(random_joke(&jokes), "Why?\n\n ||Because.||");
    assert!(hit_the_deck().starts_with("Did someone say DECK??\nhttps://"));
    let donk = hit_the_donk();
    assert!(donk == "Did someone say DONK??\nhttps://i.imgur.com/4OmIo0j.png" || donk == "Did someone say DONK??\nhttps://i.imgur.com/4V97LRB.png");
}

#[test]
fn the_merchant() {
    assert_eq!(pool_lines(" a \nb\n"), vec!["a".to_string(), "b".to_string()]);
    assert!(pool_lines("").is_empty());
    let mut pool = WordPool::new(vec!["x".to_string(), "y".to_string()]);
    assert_eq!(pool.take(false), "x");
    assert_eq!(pool.take(true), "a y");
    assert_eq!(pool.take(false), "");
    let msg = merchant_msg(
        vec!["old".to_string(); 8],
        vec!["sword".to_string(); 7],
        vec!["gnome".to_string(), "troll".to_string()],
    );
    assert!(msg.starts_with("Your tawdry little invocation summons an old gnome. They stand too close to you."));
    assert!(msg.ends_with("- old sword\n"));
    assert_eq!(msg.matches("- old sword\n").count(), 6);
}

#[test]
fn the_spinner() {
    assert_eq!(thinking_messages().len(), 129);
    assert!(thinking_messages().contains(&random_thinking_message()));
    assert_eq!(thinking_iterations(120, 2), 60);
    assert_eq!(thinking_iterations(5, 2), 2);
    assert_eq!(thinking_iterations(7, 2), 4);
    assert_eq!(thinking_iterations(10, 4), 2);
}
