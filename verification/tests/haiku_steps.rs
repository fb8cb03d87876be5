//! The haiku line builder on fixed inputs, the steps it is made of, and the
//! index functions behind the random pickers.

use wan_party_bot::chat::{
    classify_failure, comeback_at, failure_reaction, get_comeback, route_mention, AiFailure, BotAction,
};
use wan_party_bot::cmudict::CmuDict;
use wan_party_bot::jokes::{deck_at, donk_at, hit_the_deck, hit_the_donk, joke_at, random_joke};
use wan_party_bot::markov_haiku::{
    extend_line, first_fruitful_pair, first_fruitful_word, first_short_word, first_word_at, gen_haiku, haiku_line,
    map_2_words_to_word, map_word_to_word, random_word, redraw_pair_choices, redraw_word_choices, LineStep,
};

fn dict() -> CmuDict {
    CmuDict::from_text(
        "CAT  K AE1 T\nHAT  HH AE1 T\nBAT  B AE1 T\nDOG  D AO1 G\nHELLO  HH AH0 L OW1\nWORLD  W ER1 L D\nTHE  DH AH0\nSOLO  S OW1 L OW0\n",
    )
}

fn words(ws: &[&str]) -> Vec<Vec<char>> {
    ws.iter().map(|w| w.chars().collect()).collect()
}

const EMPTY_CHOICE: &str = "IndexError('Cannot choose from an empty sequence')";
const EMPTY_RANGE: &str = "ValueError('empty range for randrange()')";

#[test]
fn later_lines_return_only_the_new_words() {
    let cmu = dict();
    let m1 = map_word_to_word(&words(&[]));
    let m2 = map_2_words_to_word(&words(&["hello", "the", "world"]));
    let corpus: Vec<Vec<char>> = Vec::new();
    let r = haiku_line(&cmu, &m1, &m2, &corpus, words(&["hello", "the"]), 1);
    assert_eq!(r, Ok((words(&["world"]), words(&["the", "world"]))));
}

#[test]
fn a_one_word_corpus_has_no_pair_to_redraw() {
    let cmu = dict();
    let m1 = map_word_to_word(&words(&[]));
    let m2 = map_2_words_to_word(&words(&[]));
    let corpus = words(&["solo"]);
    let r = haiku_line(&cmu, &m1, &m2, &corpus, words(&["a", "b"]), 5);
    assert_eq!(r, Err(EMPTY_RANGE.to_string()));
}

#[test]
fn a_first_line_from_an_empty_corpus_has_nothing_to_choose() {
    let cmu = dict();
    let m1 = map_word_to_word(&words(&[]));
    let m2 = map_2_words_to_word(&words(&[]));
    let corpus: Vec<Vec<char>> = Vec::new();
    assert_eq!(haiku_line(&cmu, &m1, &m2, &corpus, Vec::new(), 5), Err(EMPTY_CHOICE.to_string()));
    assert_eq!(random_word(&cmu, &corpus), Err(EMPTY_CHOICE.to_string()));
}

#[test]
fn empty_training_texts_give_the_empty_choice_error() {
    let cmu = dict();
    assert_eq!(gen_haiku(&cmu, ""), Err(EMPTY_CHOICE.to_string()));
    assert_eq!(gen_haiku(&cmu, "., /"), Err(EMPTY_CHOICE.to_string()));
}

#[test]
fn a_haiku_chains_its_lines() {
    let cmu = dict();
    // Every word has one syllable but "hello"; the chain is forced: the one
    // successor of each pair is the next word of the text.
    let training = "cat dog hat bat cat dog hat bat cat dog hat bat cat dog hat bat cat dog hat bat";
    for _ in 0..5 {
        // No line ever needs a redraw here, so the haiku always comes.
        let lines = gen_haiku(&cmu, training).unwrap();
        {
            assert_eq!(lines.len(), 3);
            assert_eq!(lines[0].len(), 5);
            assert_eq!(lines[1].len(), 7);
            assert_eq!(lines[2].len(), 5);
            let all: Vec<String> = lines.concat();
            let cycle = ["cat", "dog", "hat", "bat"];
            let start = cycle.iter().position(|w| *w == all[0]).unwrap();
            for (i, w) in all.iter().enumerate() {
                assert_eq!(w, cycle[(start + i) % 4]);
            }
        }
    }
}

#[test]
fn the_first_word_draw_skips_long_words() {
    let cmu = CmuDict::from_text("LONGWORD  AH0 AH0 AH0 AH0 AH0\nCAT  K AE1 T\n");
    let corpus = words(&["longword", "cat"]);
    assert_eq!(first_word_at(&cmu, &corpus, 0), None);
    assert_eq!(first_word_at(&cmu, &corpus, 1), Some(("cat".chars().collect(), 1)));
}

#[test]
fn redraws_take_the_successors_that_fit() {
    let cmu = dict();
    let corpus = words(&["cat", "hello", "cat", "dog", "the", "cat", "world"]);
    let m1 = map_word_to_word(&corpus);
    let m2 = map_2_words_to_word(&corpus);
    // "cat" is followed by "hello" (2 syllables), "dog" and "world".
    assert_eq!(redraw_word_choices(&cmu, &m1, &corpus, 0, 0, 5), words(&["hello", "dog", "world"]));
    assert_eq!(redraw_word_choices(&cmu, &m1, &corpus, 2, 4, 5), words(&["dog", "world"]));
    // The pair at position 2 is "cat dog", followed by "the".
    assert_eq!(redraw_pair_choices(&cmu, &m2, &corpus, 2, 0, 5), words(&["the"]));
    assert_eq!(redraw_pair_choices(&cmu, &m2, &corpus, 2, 5, 5), Vec::<Vec<char>>::new());
}

#[test]
fn extending_a_line() {
    let cmu = dict();
    let mut line = words(&["cat"]);
    assert!(matches!(extend_line(&cmu, &mut line, 1, 5, "hello".chars().collect()), LineStep::Grow(3)));
    assert_eq!(line, words(&["cat", "hello"]));
    assert!(matches!(extend_line(&cmu, &mut line, 3, 4, "hello".chars().collect()), LineStep::Skip));
    assert_eq!(line, words(&["cat", "hello"]));
    assert!(matches!(extend_line(&cmu, &mut line, 3, 4, "dog".chars().collect()), LineStep::Complete));
    assert_eq!(line, words(&["cat", "hello", "dog"]));
}

#[test]
fn comebacks_by_number() {
    let all: Vec<String> = (0..6).map(|k| comeback_at("ok", k)).collect();
    assert_eq!(
        all,
        vec![
            "that's what she said 😏".to_string(),
            "your mom ok".to_string(),
            "no you ok".to_string(),
            "I know you are but what am I?".to_string(),
            "🙄".to_string(),
            "🤣".to_string(),
        ]
    );
    for _ in 0..10 {
        assert!(all.contains(&get_comeback("ok")));
    }
}

#[test]
fn pictures_and_jokes_by_number() {
    assert_eq!(
        deck_at(0),
        "Did someone say DECK??\nhttps://giphy.com/clips/betplus-bet-plus-the-ms-pat-show-APfllllIzLozTEBwbM"
    );
    assert_eq!(deck_at(1), "Did someone say DECK??\nhttps://media.giphy.com/media/MGP5hVgOpcbaVzrV38/giphy.gif");
    assert_eq!(deck_at(2), deck_at(1));
    assert_eq!(donk_at(0), "Did someone say DONK??\nhttps://i.imgur.com/4OmIo0j.png");
    assert_eq!(donk_at(1), "Did someone say DONK??\nhttps://i.imgur.com/4V97LRB.png");
    let decks: Vec<String> = (0..3).map(deck_at).collect();
    let donks: Vec<String> = (0..2).map(donk_at).collect();
    for _ in 0..10 {
        assert!(decks.contains(&hit_the_deck()));
        assert!(donks.contains(&hit_the_donk()));
    }
    let jokes = vec![("Why?".to_string(), "Because.".to_string()), ("Knock knock".to_string(), "Who".to_string())];
    assert_eq!(joke_at(&jokes, 0), "Why?\n\n ||Because.||");
    assert_eq!(joke_at(&jokes, 1), "Knock knock\n\n ||Who||");
    let told: Vec<String> = (0..2).map(|k| joke_at(&jokes, k)).collect();
    for _ in 0..10 {
        assert!(told.contains(&random_joke(&jokes)));
    }
}

#[test]
fn quotes_by_number() {
    let pool = vec!["Do or do not.".to_string(), "There is no try.".to_string()];
    assert_eq!(wan_party_bot::quotes::quoted_at(&pool, 0), "> Do or do not.");
    assert_eq!(wan_party_bot::quotes::quoted_at(&pool, 1), "> There is no try.");
}

const GAVE_UP: &str = "RecursionError('maximum recursion depth exceeded')";

#[test]
fn a_one_word_corpus_gives_up() {
    let cmu = dict();
    assert_eq!(gen_haiku(&cmu, "cat"), Err(GAVE_UP.to_string()));
    assert_eq!(gen_haiku(&cmu, "cat."), Err(GAVE_UP.to_string()));
}

#[test]
fn the_first_fitting_draw_of_a_batch_is_taken() {
    let cmu = CmuDict::from_text("LONGWORD  AH0 AH0 AH0 AH0 AH0\nCAT  K AE1 T\nDOG  D AO1 G\n");
    let corpus = words(&["longword", "cat", "dog", "longword"]);
    assert_eq!(first_short_word(&cmu, &corpus, &vec![0, 3, 2, 1]), Some(("dog".chars().collect(), 1)));
    assert_eq!(first_short_word(&cmu, &corpus, &vec![0, 3]), None);
    let m1 = map_word_to_word(&corpus);
    let m2 = map_2_words_to_word(&corpus);
    // "longword" is followed by "cat"; "cat" by "dog"; "dog" by "longword" (5 syllables).
    assert_eq!(first_fruitful_word(&cmu, &m1, &corpus, &vec![2, 1, 0], 0, 4), Some(words(&["dog"])));
    assert_eq!(first_fruitful_word(&cmu, &m1, &corpus, &vec![2, 2], 0, 4), None);
    // The pairs: "longword cat" -> "dog", "cat dog" -> "longword".
    assert_eq!(first_fruitful_pair(&cmu, &m2, &corpus, &vec![1, 0], 0, 4), Some(words(&["dog"])));
    assert_eq!(first_fruitful_pair(&cmu, &m2, &corpus, &vec![1, 1], 0, 4), None);
}

#[test]
fn failed_requests_and_mentions() {
    assert_eq!(classify_failure(402, ""), AiFailure::Billing);
    assert_eq!(classify_failure(400, "Your credit balance is too low"), AiFailure::Billing);
    assert_eq!(classify_failure(403, "check your billing details"), AiFailure::Billing);
    assert_eq!(classify_failure(500, "overloaded"), AiFailure::Other);
    assert_eq!(classify_failure(400, "Billing"), AiFailure::Other);
    assert_eq!(failure_reaction(AiFailure::Billing, "🤷‍♀️"), "💰");
    assert_eq!(failure_reaction(AiFailure::Other, "🤷‍♀️"), "🤷‍♀️");
    assert_eq!(route_mention(true, Some((true, "yes".to_string()))), BotAction::RejectChannel);
    assert_eq!(route_mention(false, Some((true, "leaning no".to_string()))), BotAction::AnswerYesNo("leaning no".to_string()));
    assert_eq!(route_mention(false, Some((false, "yes".to_string()))), BotAction::AskModel);
    assert_eq!(route_mention(false, None), BotAction::AskModel);
}
