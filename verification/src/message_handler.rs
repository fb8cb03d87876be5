//! Deciding what the bot does with an incoming message: which feature handles
//! it, which emoji reactions it earns, and the canned replies.

use vstd::prelude::*;
use crate::text::{string_views};
use crate::blacklist::{blacklisted_name, is_blacklisted_channel};
use crate::text::{seq_contains, str_contains, str_eq, str_to_chars, str_to_lowercase,
    trim, trim_chars, chars_to_string, unicode_lowercase, CharClass};

verus! {

// ---------------------------------------------------------------------------
// The special day
// ---------------------------------------------------------------------------

pub open spec fn pow10(n: nat) -> int
    decreases n,
{
    if n == 0 { 1 } else { 10 * pow10((n - 1) as nat) }
}

/// `sum(ord(s) * 10**o for (s, o) in zip(today, range(5)))` over the first `n`
/// characters.
pub open spec fn special_sum(s: Seq<char>, n: nat) -> int
    decreases n,
{
    if n == 0 {
        0
    } else {
        special_sum(s, (n - 1) as nat) + ((s[n - 1] as u32) as int) * pow10((n - 1) as nat)
    }
}

/// `is_special(today)`: whether the weighted code-point sum of the first five
/// characters is 614049.
pub fn is_special(today: &str) -> (r: bool)
    ensures
        r == (special_sum(today@, if today@.len() < 5 { today@.len() } else { 5 }) == 614049),
{
    let v = str_to_chars(today);
    let n: usize = if v.len() < 5 { v.len() } else { 5 };
    let mut total: i64 = 0;
    let mut p: i64 = 1;
    let mut o: usize = 0;
    while o < n
        invariant
            o <= n <= 5,
            n <= v.len(),
            total == special_sum(v@, o as nat),
            p == pow10(o as nat),
            1 <= p <= 10000 * 10,
            o < 5 ==> p <= 10000,
            0 <= total <= 0xFFFF_FFFF * 10000 * o,
        decreases n - o,
    {
        let c = v[o] as u32 as i64;
        assert(c as int == (v@[o as int] as u32) as int);
        let ghost t0 = total;
        let ghost o0 = o;
        assert(c * p <= 0xFFFF_FFFF * 10000) by (nonlinear_arith) requires 0 <= c <= 0xFFFF_FFFF, 0 < p <= 10000;
        assert(special_sum(v@, (o + 1) as nat) == special_sum(v@, o as nat) + ((v@[o as int] as u32) as int) * pow10(o as nat));
        assert(total + c * p <= 0xFFFF_FFFF * 10000 * (o + 1)) by (nonlinear_arith)
            requires total <= 0xFFFF_FFFF * 10000 * o, c * p <= 0xFFFF_FFFF * 10000;
        assert(0xFFFF_FFFF * 10000 * (o + 1) <= 0xFFFF_FFFF * 10000 * 5) by (nonlinear_arith) requires o + 1 <= 5;
        total = total + c * p;
        p = p * 10;
        o += 1;
        assert(total == t0 + ((v@[o0 as int] as u32) as int) * pow10(o0 as nat));
        assert(total == special_sum(v@, o as nat));
        assert(pow10(o as nat) == 10 * pow10((o - 1) as nat));
        proof {
            if o < 5 {
                assert(p == pow10(o as nat));
                reveal_with_fuel(pow10, 5);
            }
        }
    }
    total == 614049
}

// ---------------------------------------------------------------------------
// Routing
// ---------------------------------------------------------------------------

/// Which feature handles a message.
pub enum Route {
    /// Nothing happens.
    Ignore,
    /// `/quote`: save the replied-to message.
    Quote,
    /// `/comeback`.
    Comeback,
    /// `/as <personality>`.
    RespondAs(String),
    /// `/tldr`.
    Tldr,
    /// `/recap`.
    Recap,
    /// The bot was mentioned or messaged directly: converse.
    Converse,
    /// Everything else: reactions and canned replies.
    Respond,
}

pub open spec fn starts_with(s: Seq<char>, p: Seq<char>) -> bool {
    p.len() <= s.len() && s.take(p.len() as int) == p
}

/// `s.replace("/as", "")`: every non-overlapping `/as`, found from the left, removed.
pub open spec fn remove_as(s: Seq<char>) -> Seq<char>
    decreases s.len(),
{
    if s.len() == 0 {
        Seq::empty()
    } else if s.len() >= 3 && s[0] == '/' && s[1] == 'a' && s[2] == 's' {
        remove_as(s.skip(3))
    } else {
        seq![s[0]] + remove_as(s.skip(1))
    }
}

/// The personality text of an `/as` command.
pub fn as_personality(content: &str) -> (r: String)
    ensures
        r@ == trim(remove_as(content@), CharClass::Whitespace),
{
    let v = str_to_chars(content);
    let mut out: Vec<char> = Vec::new();
    let mut i: usize = 0;
    assert(v@.skip(0) == v@);
    while i < v.len()
        invariant
            i <= v.len(),
            out@ + remove_as(v@.skip(i as int)) == remove_as(v@),
        decreases v.len() - i,
    {
        let ghost rest = v@.skip(i as int);
        if v.len() - i > 2 && v[i] == '/' && v[i + 1] == 'a' && v[i + 2] == 's' {
            assert(rest.skip(3) =~= v@.skip(i + 3));
            i += 3;
        } else {
            out.push(v[i]);
            assert(rest.skip(1) =~= v@.skip(i + 1));
            i += 1;
        }
        assert(out@ + remove_as(v@.skip(i as int)) =~= remove_as(v@));
    }
    assert(v@.skip(v.len() as int) =~= Seq::<char>::empty());
    assert(out@ =~= remove_as(v@));
    let t = trim_chars(out.as_slice(), &CharClass::Whitespace);
    chars_to_string(t.as_slice())
}

pub fn str_starts_with(s: &str, p: &str) -> (r: bool)
    ensures
        r == starts_with(s@, p@),
{
    let a = str_to_chars(s);
    let b = str_to_chars(p);
    if b.len() > a.len() {
        return false;
    }
    let mut i: usize = 0;
    while i < b.len()
        invariant
            a@ == s@,
            b@ == p@,
            b.len() <= a.len(),
            i <= b.len(),
            forall|k: int| 0 <= k < i ==> a@[k] == b@[k],
        decreases b.len() - i,
    {
        if a[i] != b[i] {
            assert(a@.take(b.len() as int)[i as int] != b@[i as int]);
            assert(a@.take(b.len() as int) != b@);
            return false;
        }
        i += 1;
    }
    assert(a@.take(b.len() as int) =~= b@);
    true
}

pub open spec fn channel_blocked(channel: Option<Seq<char>>) -> bool {
    match channel {
        None => false,
        Some(n) => n.len() > 0 && blacklisted_name(unicode_lowercase(n)),
    }
}

/// `on_message`'s dispatch (see the variants of [`Route`]).
pub fn route_message(content: &str, from_bot: bool, channel_name: Option<&str>, bot_id: &str, is_dm: bool, today: &str) -> (r: Route)
    ensures
        from_bot ==> r is Ignore,
        !from_bot && channel_blocked(match channel_name { Some(n) => Some(n@), None => None }) ==> r is Ignore,
        !from_bot && !channel_blocked(match channel_name { Some(n) => Some(n@), None => None }) ==> {
            if starts_with(content@, "/quote"@) {
                r is Quote
            } else if starts_with(content@, "/comeback"@) {
                r is Comeback
            } else if starts_with(content@, "/as"@) {
                r matches Route::RespondAs(p) && p@ == trim(remove_as(content@), CharClass::Whitespace)
            } else if starts_with(content@, "/tldr"@) {
                r is Tldr
            } else if starts_with(content@, "/recap"@) {
                r is Recap
            } else if seq_contains(content@, bot_id@) || is_dm {
                r is Converse
            } else if today@ == "04-01"@ {
                r is Ignore
            } else {
                r is Respond
            }
        },
{
    if from_bot {
        return Route::Ignore;
    }
    if is_blacklisted_channel(channel_name) {
        return Route::Ignore;
    }
    if str_starts_with(content, "/quote") {
        Route::Quote
    } else if str_starts_with(content, "/comeback") {
        Route::Comeback
    } else if str_starts_with(content, "/as") {
        Route::RespondAs(as_personality(content))
    } else if str_starts_with(content, "/tldr") {
        Route::Tldr
    } else if str_starts_with(content, "/recap") {
        Route::Recap
    } else if str_contains(content, bot_id) || is_dm {
        Route::Converse
    } else if str_eq(today, "04-01") {
        Route::Ignore
    } else {
        Route::Respond
    }
}


// ---------------------------------------------------------------------------
// Reactions
// ---------------------------------------------------------------------------

/// An emoji to react with: a Unicode emoji, or a custom emoji of the guild by name.
pub enum Emoji {
    Unicode(String),
    Guild(String),
}

/// (is a guild emoji, text) of an emoji.
pub open spec fn emoji_view(e: Emoji) -> (bool, Seq<char>) {
    match e {
        Emoji::Unicode(s) => (false, s@),
        Emoji::Guild(s) => (true, s@),
    }
}

/// What the bot does with an ordinary message.
pub struct ReactionPlan {
    /// The reactions to add, in order.
    pub reactions: Vec<Emoji>,
    /// Reply with a Clone Wars quote.
    pub yoda: bool,
    /// Reply with the trombone link.
    pub trombone: bool,
    /// Ask the model for a fitting reaction.
    pub ai_reaction: bool,
}

/// The outcomes of the chance draws: an eye roll (10%), "neato" for tsm (3%),
/// "elon" for local_oaf (1%), and a model-chosen reaction (7%).
pub struct Draws {
    pub eye_roll: bool,
    pub neato: bool,
    pub elon: bool,
    pub ai: bool,
}

/// A word that earns an eye roll when the draw allows it.
pub open spec fn has_magic_word(c: Seq<char>) -> bool {
    ||| seq_contains(c, "opinion"@)
    ||| seq_contains(c, "take"@)
    ||| seq_contains(c, "ps5"@)
    ||| seq_contains(c, "valve"@)
    ||| seq_contains(c, "steam deck"@)
    ||| seq_contains(c, "harry potter"@)
    ||| seq_contains(c, "dune"@)
    ||| seq_contains(c, "star wars"@)
    ||| seq_contains(c, "wow"@)
    ||| seq_contains(c, "factorio"@)
    ||| seq_contains(c, "the last of us"@)
    ||| seq_contains(c, "overwatch"@)
    ||| seq_contains(c, "facts"@)
    ||| seq_contains(c, "objective"@)
    ||| seq_contains(c, "correct"@)
}

pub open spec fn when(b: bool, items: Seq<(bool, Seq<char>)>) -> Seq<(bool, Seq<char>)> {
    if b { items } else { Seq::empty() }
}

pub open spec fn uni(s: Seq<char>) -> (bool, Seq<char>) {
    (false, s)
}

pub open spec fn guild(s: Seq<char>) -> (bool, Seq<char>) {
    (true, s)
}

/// The reactions for what the text mentions.
pub open spec fn text_reactions(c: Seq<char>, eye_roll: bool, wanbot: bool) -> Seq<(bool, Seq<char>)> {
    when(seq_contains(c, "poop"@), seq![uni("💩"@)])
    + when(seq_contains(c, "drg"@) || seq_contains(c, "dwarf"@), seq![uni("🪨"@), uni("🥌"@)])
    + when(seq_contains(c, "ps5"@), seq![uni("👎"@)])
    + when(seq_contains(c, "dongle"@), seq![uni("🍆"@)])
    + when(seq_contains(c, "how you doin bot?"@), seq![uni("👍"@)])
    + when(eye_roll && has_magic_word(c), seq![uni("🙄"@)])
    + when(wanbot, seq![uni("💁‍♀️"@)])
}

/// The guild-emoji reactions for what the text mentions.
pub open spec fn topic_reactions(c: Seq<char>, channel: Option<Seq<char>>, deck: bool) -> Seq<(bool, Seq<char>)> {
    when(seq_contains(c, "the way"@), seq![guild("mando"@)])
    + when(seq_contains(c, "meta"@), seq![guild("meta"@)])
    + when(seq_contains(c, "texas"@), seq![guild("happytexas"@)])
    + when(seq_contains(c, "star wars"@) && channel != Some("star-wars"@), seq![guild("stormtrooper"@)])
    + when(deck, seq![guild("thedeck"@)])
}

/// The guild-emoji reactions for particular authors.
pub open spec fn author_reactions(c: Seq<char>, op: Seq<char>, today: Seq<char>, neato: bool, elon: bool) -> Seq<(bool, Seq<char>)> {
    let special = special_sum(today, if today.len() < 5 { today.len() } else { 5 }) == 614049;
    when(seq_contains(op, "ryan"@) && (seq_contains(c, "wow"@) || seq_contains(c, "warcraft"@)), seq![guild("wow"@)])
    + when(seq_contains(op, "tsm"@) && neato, seq![guild("neato"@)])
    + when(seq_contains(op, "local_oaf"@) && elon, seq![guild("elon"@)])
    + when(seq_contains(op, "ryan"@) && special, seq![guild("wow"@)])
    + when(seq_contains(op, "shplay"@) && today == "04-20"@, seq![guild("420shplaybday"@)])
}

pub proof fn lemma_concat_contains<A>(a: Seq<A>, b: Seq<A>, x: A)
    ensures
        (a + b).contains(x) <==> (a.contains(x) || b.contains(x)),
{
    if a.contains(x) {
        let i = choose|i: int| 0 <= i < a.len() && a[i] == x;
        assert((a + b)[i] == x);
    }
    if b.contains(x) {
        let j = choose|j: int| 0 <= j < b.len() && b[j] == x;
        assert((a + b)[a.len() + j] == x);
    }
    if (a + b).contains(x) {
        let k = choose|k: int| 0 <= k < (a + b).len() && (a + b)[k] == x;
        if k < a.len() {
            assert(a[k] == x);
        } else {
            assert(b[k - a.len()] == x);
        }
    }
}

pub proof fn lemma_one_contains<A>(y: A, x: A)
    ensures
        seq![y].contains(x) <==> x == y,
{
    if x == y {
        assert(seq![y][0] == x);
    }
}

pub proof fn lemma_two_contains<A>(y: A, z: A, x: A)
    ensures
        seq![y, z].contains(x) <==> (x == y || x == z),
{
    if x == y {
        assert(seq![y, z][0] == x);
    }
    if x == z {
        assert(seq![y, z][1] == x);
    }
}

/// A message that mentions "star wars" earns the stormtrooper outside the
/// star-wars channel and only there: the stormtrooper is among the reactions
/// exactly when the lower-cased text holds "star wars" and the channel is not
/// "star-wars".
pub proof fn law_stormtrooper(c: Seq<char>, op: Seq<char>, today: Seq<char>, channel: Option<Seq<char>>, wanbot: bool, deck: bool, d: (bool, bool, bool))
    ensures
        planned_reactions(c, op, today, channel, wanbot, deck, d).contains((true, "stormtrooper"@))
            <==> (seq_contains(c, "star wars"@) && channel != Some("star-wars"@)),
{
    let st = (true, "stormtrooper"@);
    reveal_strlit("stormtrooper");
    reveal_strlit("mando");
    reveal_strlit("meta");
    reveal_strlit("happytexas");
    reveal_strlit("thedeck");
    reveal_strlit("wow");
    reveal_strlit("neato");
    reveal_strlit("elon");
    reveal_strlit("420shplaybday");
    assert("stormtrooper"@.len() == 12);
    assert("mando"@.len() == 5);
    assert("meta"@.len() == 4);
    assert("happytexas"@.len() == 10);
    assert("thedeck"@.len() == 7);
    assert("wow"@.len() == 3);
    assert("neato"@.len() == 5);
    assert("elon"@.len() == 4);
    assert("420shplaybday"@.len() == 13);
    // No plain emoji is a guild emoji.
    let t = text_reactions(c, d.0, wanbot);
    assert forall|i: int| 0 <= i < t.len() implies !t[i].0 by {
        let p1 = when(seq_contains(c, "poop"@), seq![uni("💩"@)]);
        let p2 = when(seq_contains(c, "drg"@) || seq_contains(c, "dwarf"@), seq![uni("🪨"@), uni("🥌"@)]);
        let p3 = when(seq_contains(c, "ps5"@), seq![uni("👎"@)]);
        let p4 = when(seq_contains(c, "dongle"@), seq![uni("🍆"@)]);
        let p5 = when(seq_contains(c, "how you doin bot?"@), seq![uni("👍"@)]);
        let p6 = when(d.0 && has_magic_word(c), seq![uni("🙄"@)]);
        let p7 = when(wanbot, seq![uni("💁‍♀️"@)]);
        let all = p1 + p2 + p3 + p4 + p5 + p6 + p7;
        assert(t == all);
        assert forall|j: int| 0 <= j < all.len() implies !all[j].0 by {
            let q6 = p1 + p2 + p3 + p4 + p5 + p6;
            let q5 = p1 + p2 + p3 + p4 + p5;
            let q4 = p1 + p2 + p3 + p4;
            let q3 = p1 + p2 + p3;
            let q2 = p1 + p2;
            if j >= q6.len() { assert(all[j] == p7[j - q6.len()]); }
            else if j >= q5.len() { assert(all[j] == q6[j]); assert(q6[j] == p6[j - q5.len()]); }
            else if j >= q4.len() { assert(all[j] == q6[j]); assert(q6[j] == q5[j]); assert(q5[j] == p5[j - q4.len()]); }
            else if j >= q3.len() { assert(all[j] == q6[j]); assert(q6[j] == q5[j]); assert(q5[j] == q4[j]); assert(q4[j] == p4[j - q3.len()]); }
            else if j >= q2.len() { assert(all[j] == q6[j]); assert(q6[j] == q5[j]); assert(q5[j] == q4[j]); assert(q4[j] == q3[j]); assert(q3[j] == p3[j - q2.len()]); }
            else if j >= p1.len() { assert(all[j] == q6[j]); assert(q6[j] == q5[j]); assert(q5[j] == q4[j]); assert(q4[j] == q3[j]); assert(q3[j] == q2[j]); assert(q2[j] == p2[j - p1.len()]); }
            else { assert(all[j] == q6[j]); assert(q6[j] == q5[j]); assert(q5[j] == q4[j]); assert(q4[j] == q3[j]); assert(q3[j] == q2[j]); assert(q2[j] == p1[j]); }
        }
    }
    assert(!t.contains(st));
    // The guild emoji for topics.
    let g1 = when(seq_contains(c, "the way"@), seq![guild("mando"@)]);
    let g2 = when(seq_contains(c, "meta"@), seq![guild("meta"@)]);
    let g3 = when(seq_contains(c, "texas"@), seq![guild("happytexas"@)]);
    let g4 = when(seq_contains(c, "star wars"@) && channel != Some("star-wars"@), seq![guild("stormtrooper"@)]);
    let g5 = when(deck, seq![guild("thedeck"@)]);
    lemma_one_contains(guild("mando"@), st);
    lemma_one_contains(guild("meta"@), st);
    lemma_one_contains(guild("happytexas"@), st);
    lemma_one_contains(guild("stormtrooper"@), st);
    lemma_one_contains(guild("thedeck"@), st);
    lemma_concat_contains(g1, g2, st);
    lemma_concat_contains(g1 + g2, g3, st);
    lemma_concat_contains(g1 + g2 + g3, g4, st);
    lemma_concat_contains(g1 + g2 + g3 + g4, g5, st);
    assert(topic_reactions(c, channel, deck) == g1 + g2 + g3 + g4 + g5);
    // The guild emoji for authors.
    let special = special_sum(today, if today.len() < 5 { today.len() } else { 5 }) == 614049;
    let a1 = when(seq_contains(op, "ryan"@) && (seq_contains(c, "wow"@) || seq_contains(c, "warcraft"@)), seq![guild("wow"@)]);
    let a2 = when(seq_contains(op, "tsm"@) && d.1, seq![guild("neato"@)]);
    let a3 = when(seq_contains(op, "local_oaf"@) && d.2, seq![guild("elon"@)]);
    let a4 = when(seq_contains(op, "ryan"@) && special, seq![guild("wow"@)]);
    let a5 = when(seq_contains(op, "shplay"@) && today == "04-20"@, seq![guild("420shplaybday"@)]);
    lemma_one_contains(guild("wow"@), st);
    lemma_one_contains(guild("neato"@), st);
    lemma_one_contains(guild("elon"@), st);
    lemma_one_contains(guild("420shplaybday"@), st);
    lemma_concat_contains(a1, a2, st);
    lemma_concat_contains(a1 + a2, a3, st);
    lemma_concat_contains(a1 + a2 + a3, a4, st);
    lemma_concat_contains(a1 + a2 + a3 + a4, a5, st);
    assert(author_reactions(c, op, today, d.1, d.2) == a1 + a2 + a3 + a4 + a5);
    lemma_concat_contains(t, topic_reactions(c, channel, deck), st);
    lemma_concat_contains(t + topic_reactions(c, channel, deck), author_reactions(c, op, today, d.1, d.2), st);
}

/// The reactions an ordinary message earns, in order: for text `c` (lower-cased),
/// author display name `op` (lower-cased), date `today` (`MM-DD`), channel name,
/// the two pattern matches (the "wanbot" spellings and the deck/donk/gabe-gaben
/// spellings) and the chance draws (eye roll, neato, elon).
pub open spec fn planned_reactions(c: Seq<char>, op: Seq<char>, today: Seq<char>, channel: Option<Seq<char>>, wanbot: bool, deck: bool, d: (bool, bool, bool)) -> Seq<(bool, Seq<char>)> {
    text_reactions(c, d.0, wanbot) + topic_reactions(c, channel, deck) + author_reactions(c, op, today, d.1, d.2)
}

pub open spec fn emojis(out: Seq<Emoji>) -> Seq<(bool, Seq<char>)> {
    out.map_values(|e: Emoji| emoji_view(e))
}

fn push_emoji(out: &mut Vec<Emoji>, is_guild: bool, s: &str)
    ensures
        emojis(final(out)@) == emojis(old(out)@).push((is_guild, s@)),
{
    let e = if is_guild { Emoji::Guild(s.to_owned()) } else { Emoji::Unicode(s.to_owned()) };
    let ghost o = out@;
    out.push(e);
    assert(emojis(out@) =~= emojis(o).push((is_guild, s@)));
}

/// Appends one emoji when `b` holds.
fn push_when(out: &mut Vec<Emoji>, b: bool, is_guild: bool, s: &str)
    ensures
        emojis(final(out)@) == emojis(old(out)@) + when(b, seq![(is_guild, s@)]),
{
    let ghost o = emojis(out@);
    if b {
        push_emoji(out, is_guild, s);
        assert(emojis(out@) =~= o + seq![(is_guild, s@)]);
    } else {
        assert(emojis(out@) =~= o + Seq::<(bool, Seq<char>)>::empty());
    }
}

fn eye_roll_words(c: &str) -> (r: bool)
    ensures
        r == has_magic_word(c@),
{
    str_contains(c, "opinion") || str_contains(c, "take") || str_contains(c, "ps5")
        || str_contains(c, "valve") || str_contains(c, "steam deck") || str_contains(c, "harry potter")
        || str_contains(c, "dune") || str_contains(c, "star wars") || str_contains(c, "wow")
        || str_contains(c, "factorio") || str_contains(c, "the last of us") || str_contains(c, "overwatch")
        || str_contains(c, "facts") || str_contains(c, "objective") || str_contains(c, "correct")
}

#[verifier::rlimit(80)]
fn push_text_reactions(out: &mut Vec<Emoji>, c: &str, eye_roll: bool, wanbot: bool)
    ensures
        emojis(final(out)@) == emojis(old(out)@) + text_reactions(c@, eye_roll, wanbot),
{
    let ghost o = emojis(out@);
    push_when(out, str_contains(c, "poop"), false, "💩");
    let ghost o1 = emojis(out@);
    let b = str_contains(c, "drg") || str_contains(c, "dwarf");
    if b {
        push_emoji(out, false, "🪨");
        push_emoji(out, false, "🥌");
    }
    assert(emojis(out@) =~= o1 + when(b, seq![uni("🪨"@), uni("🥌"@)]));
    push_when(out, str_contains(c, "ps5"), false, "👎");
    push_when(out, str_contains(c, "dongle"), false, "🍆");
    push_when(out, str_contains(c, "how you doin bot?"), false, "👍");
    let e = eye_roll && eye_roll_words(c);
    push_when(out, e, false, "🙄");
    push_when(out, wanbot, false, "💁‍♀️");
    assert(emojis(out@) =~= o + text_reactions(c@, eye_roll, wanbot));
}

fn push_topic_reactions(out: &mut Vec<Emoji>, c: &str, channel_name: Option<&str>, deck: bool)
    ensures
        emojis(final(out)@) == emojis(old(out)@) + topic_reactions(c@, match channel_name { Some(n) => Some(n@), None => None }, deck),
{
    let ghost o = emojis(out@);
    let ghost chan = match channel_name { Some(n) => Some(n@), None => None };
    push_when(out, str_contains(c, "the way"), true, "mando");
    push_when(out, str_contains(c, "meta"), true, "meta");
    push_when(out, str_contains(c, "texas"), true, "happytexas");
    let in_star_wars = match channel_name { Some(n) => str_eq(n, "star-wars"), None => false };
    assert(in_star_wars == (chan == Some("star-wars"@)));
    push_when(out, str_contains(c, "star wars") && !in_star_wars, true, "stormtrooper");
    push_when(out, deck, true, "thedeck");
    assert(emojis(out@) =~= o + topic_reactions(c@, chan, deck));
}

fn push_author_reactions(out: &mut Vec<Emoji>, c: &str, op: &str, today: &str, neato: bool, elon: bool)
    ensures
        emojis(final(out)@) == emojis(old(out)@) + author_reactions(c@, op@, today@, neato, elon),
{
    let ghost o = emojis(out@);
    let special = is_special(today);
    push_when(out, str_contains(op, "ryan") && (str_contains(c, "wow") || str_contains(c, "warcraft")), true, "wow");
    push_when(out, str_contains(op, "tsm") && neato, true, "neato");
    push_when(out, str_contains(op, "local_oaf") && elon, true, "elon");
    push_when(out, str_contains(op, "ryan") && special, true, "wow");
    push_when(out, str_contains(op, "shplay") && str_eq(today, "04-20"), true, "420shplaybday");
    assert(emojis(out@) =~= o + author_reactions(c@, op@, today@, neato, elon));
}

/// `respond_to` for an ordinary message: the reactions of [`planned_reactions`]
/// on the lower-cased text and author name; a Clone Wars quote when the text
/// mentions yoda, the trombone link when it mentions a trombone, and a
/// model-chosen reaction when that draw came up.
pub fn plan_reactions(content: &str, display_name: &str, today: &str, channel_name: Option<&str>, wanbot: bool, deck: bool, draws: &Draws) -> (r: ReactionPlan)
    ensures
        emojis(r.reactions@) == planned_reactions(
            unicode_lowercase(content@), unicode_lowercase(display_name@), today@,
            match channel_name { Some(n) => Some(n@), None => None },
            wanbot, deck, (draws.eye_roll, draws.neato, draws.elon)),
        r.yoda == seq_contains(unicode_lowercase(content@), "yoda"@),
        r.trombone == seq_contains(unicode_lowercase(content@), "trombone"@),
        r.ai_reaction == draws.ai,
{
    let lc = str_to_lowercase(content);
    let c = lc.as_str();
    let lo = str_to_lowercase(display_name);
    let op = lo.as_str();
    let mut out: Vec<Emoji> = Vec::new();
    assert(emojis(out@) =~= Seq::<(bool, Seq<char>)>::empty());
    push_text_reactions(&mut out, c, draws.eye_roll, wanbot);
    push_topic_reactions(&mut out, c, channel_name, deck);
    push_author_reactions(&mut out, c, op, today, draws.neato, draws.elon);
    assert(emojis(out@) =~= planned_reactions(
            unicode_lowercase(content@), unicode_lowercase(display_name@), today@,
            match channel_name { Some(n) => Some(n@), None => None },
            wanbot, deck, (draws.eye_roll, draws.neato, draws.elon)));
    let yoda = str_contains(c, "yoda");
    let trombone = str_contains(c, "trombone");
    ReactionPlan { reactions: out, yoda, trombone, ai_reaction: draws.ai }
}

// ---------------------------------------------------------------------------
// "what do you think" replies
// ---------------------------------------------------------------------------

/// Whether a (lower-cased) message asks the bot what someone thinks: it holds the
/// bot's id, "what" and "think".
pub fn asks_what_think(content_lower: &str, bot_id: &str) -> (r: bool)
    ensures
        r == (seq_contains(content_lower@, bot_id@) && seq_contains(content_lower@, "what"@) && seq_contains(content_lower@, "think"@)),
{
    str_contains(content_lower, bot_id) && str_contains(content_lower, "what") && str_contains(content_lower, "think")
}

/// A message of the channel history.
pub struct HistoryMessage {
    pub id: u64,
    pub author_name: String,
    pub content: String,
}

/// The user name (with a Greek omicron) whose opinions the bot repeats.
pub open spec fn void_name() -> Seq<char> {
    "v\u{03bf}id"@
}

/// Whether `m` is a message, other than the question, by a user whose lower-cased
/// name contains the sentinel.
pub open spec fn is_void_message(m: HistoryMessage, question_id: u64) -> bool {
    m.id != question_id && seq_contains(unicode_lowercase(m.author_name@), void_name())
}

/// The reply to "what do you think": the content of the newest message in the
/// history (newest first) that [`is_void_message`], or `hmmm` when there is none.
pub fn what_think_reply(history: &Vec<HistoryMessage>, question_id: u64) -> (r: String)
    ensures
        (exists|i: int| 0 <= i < history@.len() && is_void_message(#[trigger] history@[i], question_id)) ==> exists|i: int|
            0 <= i < history@.len() && is_void_message(#[trigger] history@[i], question_id)
            && r@ == history@[i].content@
            && forall|j: int| 0 <= j < i ==> !is_void_message(#[trigger] history@[j], question_id),
        !(exists|i: int| 0 <= i < history@.len() && is_void_message(#[trigger] history@[i], question_id)) ==> r@ == "hmmm"@,
{
    let mut i: usize = 0;
    while i < history.len()
        invariant
            i <= history@.len(),
            forall|j: int| 0 <= j < i ==> !is_void_message(#[trigger] history@[j], question_id),
        decreases history.len() - i,
    {
        let m = &history[i];
        if m.id != question_id {
            let lower = str_to_lowercase(m.author_name.as_str());
            if str_contains(lower.as_str(), "v\u{03bf}id") {
                assert(is_void_message(history@[i as int], question_id));
                return m.content.as_str().to_owned();
            }
        }
        i += 1;
    }
    "hmmm".to_owned()
}


// ---------------------------------------------------------------------------
// The two spelling patterns
// ---------------------------------------------------------------------------

/// Whether the regex crate finds a match of `pattern` in `text` (`None` when it
/// rejects the pattern).
pub uninterp spec fn regex_search(pattern: Seq<char>, text: Seq<char>) -> Option<bool>;

/// regex `Regex::new(pattern)` then `is_match(text)`: whether a match of the
/// pattern occurs in the text, or `None` when the pattern does not compile.
/// Claims only that the outcome is a function of the pattern and the text (named
/// [`regex_search`]); the regex semantics are not stated.
#[verifier::external_body]
fn regex_find(pattern: &str, text: &str) -> (r: Option<bool>)
    ensures
        r == regex_search(pattern@, text@),
{
    match regex::Regex::new(pattern) {
        Ok(re) => Some(re.is_match(text)),
        Err(_) => None,
    }
}

/// The pattern of the many spellings of "wanbot".
pub open spec fn wanbot_pattern() -> Seq<char> {
    "\\bw[\\w*]{0,3}n.{0,2}[8b][\\w*]{0,3}[ty]\\b"@
}

/// The pattern of "deck", "donk" and "gabe gaben", however spelt.
pub open spec fn deck_pattern() -> Seq<char> {
    "d[eéèë*3!]ck|d[oóòö*0!]nk|g[*\\w]{0,2}b[*\\w]{0,2}\\s*g[*\\w]{0,5}r"@
}

/// Whether the lower-cased text spells "wanbot" somehow, and whether it spells
/// "deck", "donk" or "gabe gaben" somehow: a pattern that does not compile finds
/// nothing.
pub fn spellings(content: &str) -> (r: (bool, bool))
    ensures
        r.0 == (regex_search(wanbot_pattern(), unicode_lowercase(content@)) == Some(true)),
        r.1 == (regex_search(deck_pattern(), unicode_lowercase(content@)) == Some(true)),
{
    let lc = str_to_lowercase(content);
    let w = regex_find("\\bw[\\w*]{0,3}n.{0,2}[8b][\\w*]{0,3}[ty]\\b", lc.as_str());
    let d = regex_find("d[eéèë*3!]ck|d[oóòö*0!]nk|g[*\\w]{0,2}b[*\\w]{0,2}\\s*g[*\\w]{0,5}r", lc.as_str());
    (w == Some(true), d == Some(true))
}

// ---------------------------------------------------------------------------
// The command prefixes
// ---------------------------------------------------------------------------

/// What a message that starts with `#!` or `##` asks for.
pub enum Backdoor {
    /// `#!` followed by a program and its arguments (the whitespace-separated
    /// words after the first).
    Shell(Vec<String>),
    /// `#!` with no program: nothing is run and nothing is answered.
    ShellEmpty,
    /// `##`: the message is Python code to run.
    Python,
}

/// What a message asks for by its prefix (see [`Backdoor`]): `#!` is checked
/// first, then `##`; any other message asks for neither.
pub open spec fn backdoor_spec(raw: Seq<char>) -> Option<(int, Seq<Seq<char>>)> {
    if starts_with(raw, "#!"@) {
        let parts = crate::text::words(raw, CharClass::Whitespace);
        if parts.len() < 2 { Some((1, Seq::empty())) } else { Some((0, parts.skip(1))) }
    } else if starts_with(raw, "##"@) {
        Some((2, Seq::empty()))
    } else {
        None
    }
}

pub open spec fn backdoor_view(b: Backdoor) -> (int, Seq<Seq<char>>) {
    match b {
        Backdoor::Shell(v) => (0, string_views(v@)),
        Backdoor::ShellEmpty => (1, Seq::empty()),
        Backdoor::Python => (2, Seq::empty()),
    }
}

/// What the message asks for by its prefix (see [`backdoor_spec`]).
pub fn backdoor(raw: &str) -> (r: Option<Backdoor>)
    ensures
        match r {
            Some(b) => backdoor_spec(raw@) == Some(backdoor_view(b)),
            None => backdoor_spec(raw@) is None,
        },
{
    if str_starts_with(raw, "#!") {
        let v = str_to_chars(raw);
        let parts = crate::text::split_words(v.as_slice(), &CharClass::Whitespace);
        if parts.len() < 2 {
            return Some(Backdoor::ShellEmpty);
        }
        let mut argv: Vec<String> = Vec::new();
        let mut i: usize = 1;
        while i < parts.len()
            invariant
                1 <= i <= parts@.len(),
                string_views(argv@) == crate::text::char_views(parts@).subrange(1, i as int),
            decreases parts.len() - i,
        {
            let ghost before = string_views(argv@);
            argv.push(chars_to_string(parts[i].as_slice()));
            assert(string_views(argv@) =~= before.push(parts@[i as int]@));
            assert(crate::text::char_views(parts@).subrange(1, i as int + 1)
                =~= crate::text::char_views(parts@).subrange(1, i as int).push(parts@[i as int]@));
            i += 1;
        }
        assert(crate::text::char_views(parts@).subrange(1, parts@.len() as int) =~= crate::text::char_views(parts@).skip(1));
        Some(Backdoor::Shell(argv))
    } else if str_starts_with(raw, "##") {
        Some(Backdoor::Python)
    } else {
        None
    }
}

} // verus!
