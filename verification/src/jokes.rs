//! Jokes, the error messages the bot answers failures with, and the DECK and DONK
//! pictures.

use vstd::prelude::*;
use crate::text::{push_str, string_views};
use crate::random::random_below;

verus! {

/// One of `lines` at random, as it stands (the trailing newline of a line read
/// with its line ending included).
pub fn get_error_message_for_fun_times_everyone_loves_error_messages(lines: &Vec<String>) -> (r: String)
    requires
        lines@.len() > 0,
    ensures
        string_views(lines@).contains(r@),
{
    let i = random_below(lines.len());
    let mut s = String::new();
    push_str(&mut s, lines[i].as_str());
    assert(string_views(lines@)[i as int] == s@);
    s
}

/// A joke as the bot tells it: the setup, a blank line, and the punchline hidden
/// behind a spoiler.
pub open spec fn joke_text(setup: Seq<char>, punchline: Seq<char>) -> Seq<char> {
    setup + "\n\n ||"@ + punchline + "||"@
}

/// Joke number `k` of `jokes`, told (see [`joke_text`]).
pub fn joke_at(jokes: &Vec<(String, String)>, k: usize) -> (r: String)
    requires
        k < jokes@.len(),
    ensures
        r@ == joke_text(jokes@[k as int].0@, jokes@[k as int].1@),
{
    let mut s = String::new();
    push_str(&mut s, jokes[k].0.as_str());
    push_str(&mut s, "\n\n ||");
    push_str(&mut s, jokes[k].1.as_str());
    push_str(&mut s, "||");
    assert(s@ =~= joke_text(jokes@[k as int].0@, jokes@[k as int].1@));
    s
}

/// One of the (setup, punchline) jokes at random: the one [`joke_at`] tells for a
/// draw below the number of jokes.
pub fn random_joke(jokes: &Vec<(String, String)>) -> (r: String)
    requires
        jokes@.len() > 0,
    ensures
        exists|i: int| 0 <= i < jokes@.len() && r@ == joke_text((#[trigger] jokes@[i]).0@, jokes@[i].1@),
{
    let i = random_below(jokes.len());
    joke_at(jokes, i)
}

/// The DECK pictures.
pub open spec fn decks() -> Seq<Seq<char>> {
    seq![
        "https://giphy.com/clips/betplus-bet-plus-the-ms-pat-show-APfllllIzLozTEBwbM"@,
        "https://media.giphy.com/media/MGP5hVgOpcbaVzrV38/giphy.gif"@,
        "https://media.giphy.com/media/MGP5hVgOpcbaVzrV38/giphy.gif"@,
    ]
}

/// The DONK pictures.
pub open spec fn donks() -> Seq<Seq<char>> {
    seq!["https://i.imgur.com/4OmIo0j.png"@, "https://i.imgur.com/4V97LRB.png"@]
}

/// The answer to someone saying DECK, with picture number `k`.
pub fn deck_at(k: usize) -> (r: String)
    requires
        k < 3,
    ensures
        r@ == "Did someone say DECK??\n"@ + decks()[k as int],
{
    let mut s = String::new();
    push_str(&mut s, "Did someone say DECK??\n");
    if k == 0 {
        push_str(&mut s, "https://giphy.com/clips/betplus-bet-plus-the-ms-pat-show-APfllllIzLozTEBwbM");
    } else {
        push_str(&mut s, "https://media.giphy.com/media/MGP5hVgOpcbaVzrV38/giphy.gif");
    }
    s
}

/// The answer to someone saying DECK: the question, then one of the pictures, as
/// [`deck_at`] gives it for a draw below 3.
pub fn hit_the_deck() -> (r: String)
    ensures
        exists|i: int| 0 <= i < 3 && r@ == "Did someone say DECK??\n"@ + #[trigger] decks()[i],
{
    let i = random_below(3);
    deck_at(i)
}

/// The answer to someone saying DONK, with picture number `k`.
pub fn donk_at(k: usize) -> (r: String)
    requires
        k < 2,
    ensures
        r@ == "Did someone say DONK??\n"@ + donks()[k as int],
{
    let mut s = String::new();
    push_str(&mut s, "Did someone say DONK??\n");
    if k == 0 {
        push_str(&mut s, "https://i.imgur.com/4OmIo0j.png");
    } else {
        push_str(&mut s, "https://i.imgur.com/4V97LRB.png");
    }
    s
}

/// The answer to someone saying DONK: the question, then one of the pictures, as
/// [`donk_at`] gives it for a draw below 2.
pub fn hit_the_donk() -> (r: String)
    ensures
        exists|i: int| 0 <= i < 2 && r@ == "Did someone say DONK??\n"@ + #[trigger] donks()[i],
{
    let i = random_below(2);
    donk_at(i)
}

} // verus!
