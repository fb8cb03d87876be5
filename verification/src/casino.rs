//! The WAN Casino: coin-flip bets in wanbux, begging, balances, and the jail
//! that takes in whoever holds too much.

use vstd::prelude::*;
use crate::text::{
    push_str, push_chars, str_eq, trim_str, str_to_lowercase, i64_decimal, decimal_int,
    unicode_lowercase, trim, CharClass,
};
use crate::random::{random_below, random_in};
use crate::text::{join, join_strings, string_views, u64_decimal, decimal};
use crate::commands::{python_timedelta_str, timedelta_text};

verus! {

// ---------------------------------------------------------------------------
// Betting
// ---------------------------------------------------------------------------

/// Wanbux a new player gets on the house.
pub const HOUSE_GIFT: i64 = 5;

/// A fair coin: `true` for heads.
pub fn coin_flip() -> (heads: bool) {
    random_below(2) == 0
}

/// What the coin shows.
pub open spec fn flip_text(heads: bool) -> Seq<char> {
    if heads { "heads"@ } else { "tails"@ }
}

/// The balance a bet plays against: the stored one, or the house gift for a
/// newcomer.
pub open spec fn bet_balance(balance: Option<i64>) -> int {
    match balance { Some(b) => b as int, None => HOUSE_GIFT as int }
}

/// What is staked: the bet, cut down to the balance when it is higher (unless the
/// player is on the naughty list).
pub open spec fn bet_stake(bet: int, balance: Option<i64>, naughty: bool) -> int {
    if bet > bet_balance(balance) && !naughty { bet_balance(balance) } else { bet }
}

/// Whether the guess, trimmed and lower-cased, names what the coin shows.
pub open spec fn bet_won(heads: bool, guess: Seq<char>) -> bool {
    unicode_lowercase(trim(guess, CharClass::Whitespace)) == flip_text(heads)
}

/// The balance after the bet.
pub open spec fn bet_new_balance(bet: int, balance: Option<i64>, naughty: bool, heads: bool, guess: Seq<char>) -> int {
    if bet_won(heads, guess) {
        bet_balance(balance) + bet_stake(bet, balance, naughty)
    } else {
        bet_balance(balance) - bet_stake(bet, balance, naughty)
    }
}

/// The warning sent when the bet is more than the balance.
pub open spec fn too_high_text(balance: int) -> Seq<char> {
    "Your bet is too high. I'm going to assume you're betting everything you have, which is "@
        + decimal_int(balance) + " wanbux.\n"@
}

/// The report of a bet: a welcome for a newcomer, the flip, what was won or lost,
/// the new balance, and a farewell to the broke.
pub open spec fn bet_message(bet: int, balance: Option<i64>, naughty: bool, heads: bool, guess: Seq<char>, mention: Seq<char>) -> Seq<char> {
    let welcome = if balance is None {
        "Welcome to the WAN Casino "@ + mention + ". Have 5 Wanbux on the house.\n"@
    } else {
        Seq::empty()
    };
    let nb = bet_new_balance(bet, balance, naughty, heads, guess);
    welcome + "I flipped "@ + flip_text(heads) + "."@
        + " You "@ + (if bet_won(heads, guess) { "won"@ } else { "lost"@ }) + " "@
        + decimal_int(bet_stake(bet, balance, naughty)) + " wanbux!"@
        + " You have "@ + decimal_int(nb) + " wanbux now."@
        + (if nb == 0 { " You're broke now! Get lost, ya bum."@ } else { Seq::empty() })
}

/// What a bet comes to.
pub enum BetOutcome {
    /// A bet of nothing (from a player not on the naughty list): answered `Cute`.
    Refused,
    /// The coin was flipped.
    Played {
        /// The player had no account: one is opened with the house gift.
        new_account: bool,
        /// The warning sent first when the bet was more than the balance.
        too_high: Option<String>,
        /// The balance to store.
        new_balance: i64,
        /// The report of the bet.
        message: String,
    },
}

/// Whether a bet is refused: a bet of nothing from a player not on the naughty
/// list.
pub open spec fn bet_refused(bet: int, naughty: bool) -> bool {
    bet <= 0 && !naughty
}

/// The bet of `bet` wanbux on `guess` by the player `mention`, whose stored
/// balance is `balance`, with the coin showing heads when `heads`.
pub fn bet_round(bet: i64, balance: Option<i64>, naughty: bool, heads: bool, guess: &str, mention: &str) -> (r: BetOutcome)
    requires
        !bet_refused(bet as int, naughty) ==> i64::MIN <= bet_new_balance(bet as int, balance, naughty, heads, guess@) <= i64::MAX,
    ensures
        bet_refused(bet as int, naughty) <==> r is Refused,
        match r {
            BetOutcome::Refused => true,
            BetOutcome::Played { new_account, too_high, new_balance, message } => {
                &&& new_account == (balance is None)
                &&& (bet > bet_balance(balance) && !naughty) == (too_high is Some)
                &&& too_high is Some ==> too_high->0@ == too_high_text(bet_balance(balance))
                &&& new_balance == bet_new_balance(bet as int, balance, naughty, heads, guess@)
                &&& message@ == bet_message(bet as int, balance, naughty, heads, guess@, mention@)
            },
        },
{
    if bet <= 0 && !naughty {
        return BetOutcome::Refused;
    }
    let mut message = String::new();
    if balance.is_none() {
        push_str(&mut message, "Welcome to the WAN Casino ");
        push_str(&mut message, mention);
        push_str(&mut message, ". Have 5 Wanbux on the house.\n");
    }
    let ghost welcome = message@;
    let bal: i64 = match balance { Some(b) => b, None => HOUSE_GIFT };
    let mut stake = bet;
    let mut too_high: Option<String> = None;
    if bet > bal && !naughty {
        let mut t = String::new();
        push_str(&mut t, "Your bet is too high. I'm going to assume you're betting everything you have, which is ");
        let d = i64_decimal(bal);
        push_chars(&mut t, d.as_slice());
        push_str(&mut t, " wanbux.\n");
        too_high = Some(t);
        stake = bal;
    }
    let g = trim_str(guess);
    let gl = str_to_lowercase(g.as_str());
    let won = if heads { str_eq(gl.as_str(), "heads") } else { str_eq(gl.as_str(), "tails") };
    let new_balance = if won { bal + stake } else { bal - stake };
    push_str(&mut message, "I flipped ");
    if heads { push_str(&mut message, "heads"); } else { push_str(&mut message, "tails"); }
    push_str(&mut message, ".");
    push_str(&mut message, " You ");
    if won { push_str(&mut message, "won"); } else { push_str(&mut message, "lost"); }
    push_str(&mut message, " ");
    let sd = i64_decimal(stake);
    push_chars(&mut message, sd.as_slice());
    push_str(&mut message, " wanbux!");
    push_str(&mut message, " You have ");
    let nd = i64_decimal(new_balance);
    push_chars(&mut message, nd.as_slice());
    push_str(&mut message, " wanbux now.");
    let ghost body = message@;
    if new_balance == 0 {
        push_str(&mut message, " You're broke now! Get lost, ya bum.");
    }
    assert(message@ =~= bet_message(bet as int, balance, naughty, heads, guess@, mention@));
    BetOutcome::Played { new_account: balance.is_none(), too_high, new_balance, message }
}

/// Whether [`bet_round`] can settle the bet: it is refused, or the new balance
/// lies in the range of `i64` (outside it the bet overflows).
pub fn bet_fits(bet: i64, balance: Option<i64>, naughty: bool, heads: bool, guess: &str) -> (r: bool)
    ensures
        r == (bet_refused(bet as int, naughty)
            || (i64::MIN <= bet_new_balance(bet as int, balance, naughty, heads, guess@) <= i64::MAX)),
{
    if bet <= 0 && !naughty {
        return true;
    }
    let bal: i64 = match balance { Some(b) => b, None => HOUSE_GIFT };
    let stake: i64 = if bet > bal && !naughty { bal } else { bet };
    let g = trim_str(guess);
    let gl = str_to_lowercase(g.as_str());
    let won = if heads { str_eq(gl.as_str(), "heads") } else { str_eq(gl.as_str(), "tails") };
    let nb: i128 = if won { (bal as i128) + (stake as i128) } else { (bal as i128) - (stake as i128) };
    (i64::MIN as i128) <= nb && nb <= (i64::MAX as i128)
}

/// The bet of `/yeet`: a random amount from 1 up to (not including) the balance;
/// none without a balance of at least 2.
pub fn yeet_amount(balance: Option<i64>) -> (r: Option<i64>)
    ensures
        match balance {
            Some(b) if b >= 2 => r is Some && 1 <= r->0 < b,
            _ => r is None,
        },
{
    match balance {
        Some(b) => {
            if b >= 2 {
                Some(random_in(1, b))
            } else {
                None
            }
        },
        None => None,
    }
}

// ---------------------------------------------------------------------------
// Begging and balances
// ---------------------------------------------------------------------------

/// What begging comes to.
pub enum BegOutcome {
    /// The broke get one wanbux and this message.
    Gift(String),
    /// Anyone with money gets the finger.
    Finger,
    /// No account: the reply is an error message.
    Error,
}

/// Begging with the balance `balance`, by the player `mention`.
pub fn beg_outcome(balance: Option<i64>, mention: &str) -> (r: BegOutcome)
    ensures
        match balance {
            Some(b) if b == 0 => r matches BegOutcome::Gift(m) && m@ == "Try not to spend it all in one place "@ + mention@ + " 😎"@,
            Some(b) if b > 0 => r is Finger,
            _ => r is Error,
        },
{
    match balance {
        Some(b) => {
            if b == 0 {
                let mut m = String::new();
                push_str(&mut m, "Try not to spend it all in one place ");
                push_str(&mut m, mention);
                push_str(&mut m, " 😎");
                BegOutcome::Gift(m)
            } else if b > 0 {
                BegOutcome::Finger
            } else {
                BegOutcome::Error
            }
        },
        None => BegOutcome::Error,
    }
}

/// The reply to `/balance`.
pub fn balance_reply(balance: Option<i64>, mention: &str) -> (r: String)
    ensures
        match balance {
            Some(b) => r@ == mention@ + "'s balance is "@ + decimal_int(b as int) + " wanbux"@,
            None => r@ == mention@ + " doesn't have a balance"@,
        },
{
    let mut s = String::new();
    push_str(&mut s, mention);
    match balance {
        Some(b) => {
            push_str(&mut s, "'s balance is ");
            let d = i64_decimal(b);
            push_chars(&mut s, d.as_slice());
            push_str(&mut s, " wanbux");
        },
        None => {
            push_str(&mut s, " doesn't have a balance");
        },
    }
    s
}

/// The reply to the developer's balance override.
pub fn dev_set_reply(balance: i64) -> (r: String)
    ensures
        r@ == "Your balance has been set to "@ + decimal_int(balance as int),
{
    let mut s = String::new();
    push_str(&mut s, "Your balance has been set to ");
    let d = i64_decimal(balance);
    push_chars(&mut s, d.as_slice());
    s
}

// ---------------------------------------------------------------------------
// Robbery
// ---------------------------------------------------------------------------

/// The ids of the victims.
pub open spec fn victim_ids(vs: Seq<(u64, Option<i64>)>) -> Seq<u64> {
    vs.map_values(|v: (u64, Option<i64>)| v.0)
}

/// What is stolen from the `k`-th victim: their balance (none counts as 0), or
/// nothing when an earlier mention already emptied it.
pub open spec fn stolen_at(vs: Seq<(u64, Option<i64>)>, k: int) -> int {
    if victim_ids(vs.take(k)).contains(vs[k].0) {
        0
    } else {
        match vs[k].1 { Some(b) => b as int, None => 0 }
    }
}

/// The robber's balance after robbing the first `n` victims, starting from
/// `start`.
pub open spec fn rob_total(vs: Seq<(u64, Option<i64>)>, start: int, n: nat) -> int
    decreases n,
{
    if n == 0 { start } else { rob_total(vs, start, (n - 1) as nat) + stolen_at(vs, n - 1) }
}

/// The robber's own balance, none counting as 0.
pub open spec fn rob_start(balance: Option<i64>) -> int {
    match balance { Some(b) => b as int, None => 0 }
}

/// `/rob`: the balance updates, in order: each mentioned victim emptied, then the
/// robber's balance set to theirs plus all that was stolen. `balance` is the
/// robber's balance (none counts as 0) and `victims` holds each victim's id and
/// balance, all as they stood before the robbery.
pub fn rob_updates(robber: u64, balance: Option<i64>, victims: &Vec<(u64, Option<i64>)>) -> (r: Vec<(u64, i64)>)
    requires
        forall|n: nat| n <= victims@.len() ==> i64::MIN <= #[trigger] rob_total(victims@, rob_start(balance), n) <= i64::MAX,
    ensures
        r@.len() == victims@.len() + 1,
        forall|k: int| 0 <= k < victims@.len() ==> #[trigger] r@[k] == (victims@[k].0, 0i64),
        r@[victims@.len() as int] == (robber, rob_total(victims@, rob_start(balance), victims@.len() as nat) as i64),
{
    let ghost start: int = rob_start(balance);
    let mut total: i64 = match balance { Some(b) => b, None => 0 };
    let mut seen: Vec<u64> = Vec::new();
    let mut r: Vec<(u64, i64)> = Vec::new();
    let mut i: usize = 0;
    while i < victims.len()
        invariant
            i <= victims@.len(),
            forall|n: nat| n <= victims@.len() ==> i64::MIN <= #[trigger] rob_total(victims@, start, n) <= i64::MAX,
            total == rob_total(victims@, start, i as nat),
            seen@ == victim_ids(victims@.take(i as int)),
            r@.len() == i,
            forall|k: int| 0 <= k < i ==> #[trigger] r@[k] == (victims@[k].0, 0i64),
        decreases victims.len() - i,
    {
        let (id, b) = victims[i];
        let stolen: i64 = if has_id(&seen, id) { 0 } else { match b { Some(x) => x, None => 0 } };
        assert(stolen == stolen_at(victims@, i as int));
        assert(rob_total(victims@, start, (i + 1) as nat) == total + stolen);
        total = total + stolen;
        r.push((id, 0));
        let ghost before = seen@;
        seen.push(id);
        assert(victim_ids(victims@.take(i as int + 1)) =~= before.push(id));
        i += 1;
    }
    r.push((robber, total));
    r
}

// ---------------------------------------------------------------------------
// Jail
// ---------------------------------------------------------------------------

/// One thing a `/jail` command does, in order.
pub enum JailEffect {
    /// Send this text.
    Say(String),
    /// Release this user from jail.
    BustOut(u64),
    /// Set the caller's balance to this.
    SetBalance(i64),
    /// Take a minute off the caller's sentence.
    BegMercy,
    /// Set this user's balance far above the limit, so the next census jails them.
    Frame(u64),
}

/// An effect as (kind, user or amount, text): kinds 0 to 4 in the order of
/// [`JailEffect`]'s variants.
pub open spec fn effect_view(e: JailEffect) -> (int, int, Seq<char>) {
    match e {
        JailEffect::Say(t) => (0, 0, t@),
        JailEffect::BustOut(u) => (1, u as int, Seq::empty()),
        JailEffect::SetBalance(b) => (2, b as int, Seq::empty()),
        JailEffect::BegMercy => (3, 0, Seq::empty()),
        JailEffect::Frame(u) => (4, u as int, Seq::empty()),
    }
}

pub open spec fn effects_view(es: Seq<JailEffect>) -> Seq<(int, int, Seq<char>)> {
    es.map_values(|e: JailEffect| effect_view(e))
}

pub open spec fn say(t: Seq<char>) -> (int, int, Seq<char>) {
    (0, 0, t)
}

/// `<@!id>`: a mention of the user `id` by nickname.
pub open spec fn nick_mention(id: u64) -> Seq<char> {
    "<@!"@ + decimal(id as nat) + ">"@
}

/// Busting out the mentioned users one by one, with `jailed` those in jail at the
/// start: each one still in jail is released (so that a later mention of them
/// finds them out), each other is answered that they are not in jail. Gives the
/// effects and who was released.
pub open spec fn bust_effects(ms: Seq<u64>, jailed: Seq<u64>) -> (Seq<(int, int, Seq<char>)>, Seq<u64>)
    decreases ms.len(),
{
    if ms.len() == 0 {
        (Seq::empty(), Seq::empty())
    } else {
        let (es, released) = bust_effects(ms.drop_last(), jailed);
        let m = ms.last();
        if jailed.contains(m) && !released.contains(m) {
            (es.push((1, m as int, Seq::empty())).push(say("busted out "@ + nick_mention(m) + " !"@)), released.push(m))
        } else {
            (es.push(say(nick_mention(m) + " isn't in jail!"@)), released)
        }
    }
}

/// Framing the mentioned users: each one not in jail is framed and told so.
pub open spec fn frame_effects(ms: Seq<u64>, jailed: Seq<u64>) -> Seq<(int, int, Seq<char>)>
    decreases ms.len(),
{
    if ms.len() == 0 {
        Seq::empty()
    } else {
        let es = frame_effects(ms.drop_last(), jailed);
        let m = ms.last();
        if !jailed.contains(m) {
            es.push((4, m as int, Seq::empty())).push(say("framed "@ + nick_mention(m) + " !"@))
        } else {
            es
        }
    }
}

/// The message when the caller is shown mercy.
pub open spec fn mercy_text(mention: Seq<char>) -> Seq<char> {
    mention + " has been shown mercy"@
}

/// What `/jail action` does before the census, when the action is not a bribe
/// (see [`jail_effects`]).
pub open spec fn jail_plain_effects(action: Option<Seq<char>>, has_person: bool, author: u64, mentions: Seq<u64>, jailed: Seq<u64>, mention: Seq<char>) -> Seq<(int, int, Seq<char>)> {
    if action == Some("break"@) || action == Some("bust"@) {
        if jailed.contains(author) {
            seq![say("You can't break anyone out from the inside"@)]
        } else if !has_person {
            seq![say("You gotta @someone to bust out"@)]
        } else {
            bust_effects(mentions, jailed).0
        }
    } else if (action == Some("beg"@) || action == Some("mercy"@)) && jailed.contains(author) {
        seq![(3, 0, Seq::empty()), say(mercy_text(mention))]
    } else if action == Some("frame"@) && has_person {
        frame_effects(mentions, jailed)
    } else {
        Seq::empty()
    }
}

/// A caller in jail who begs (`beg` or `mercy`) gets a minute off the sentence and
/// the mercy message, and nothing else; whether others are mentioned plays no part.
pub proof fn law_jailed_beg_gets_mercy(
    action: Seq<char>,
    has_person: bool,
    author: u64,
    mentions: Seq<u64>,
    jailed: Seq<u64>,
    mention: Seq<char>,
)
    requires
        action == "beg"@ || action == "mercy"@,
        jailed.contains(author),
    ensures
        jail_plain_effects(Some(action), has_person, author, mentions, jailed, mention)
            == seq![(3int, 0int, Seq::<char>::empty()), (0int, 0int, mention + " has been shown mercy"@)],
{
    reveal_strlit("beg");
    reveal_strlit("mercy");
    reveal_strlit("break");
    reveal_strlit("bust");
    assert("beg"@[1] != "break"@[1]);
    assert("beg"@.len() != "bust"@.len());
    assert("mercy"@[0] != "break"@[0]);
    assert("mercy"@.len() != "bust"@.len());
}

/// Whether `v` holds `x`.
pub fn has_id(v: &Vec<u64>, x: u64) -> (r: bool)
    ensures
        r == v@.contains(x),
{
    let mut i: usize = 0;
    while i < v.len()
        invariant
            i <= v.len(),
            forall|k: int| 0 <= k < i ==> v@[k] != x,
        decreases v.len() - i,
    {
        if v[i] == x {
            assert(v@[i as int] == x);
            return true;
        }
        i += 1;
    }
    false
}

fn say_effect(t: String) -> (r: JailEffect)
    ensures
        effect_view(r) == say(t@),
{
    JailEffect::Say(t)
}

fn push_nick_mention(s: &mut String, id: u64)
    ensures
        final(s)@ == old(s)@ + nick_mention(id),
{
    push_str(s, "<@!");
    let d = u64_decimal(id);
    push_chars(s, d.as_slice());
    push_str(s, ">");
}

/// The view of an optional text.
pub open spec fn opt_view(a: Option<&str>) -> Option<Seq<char>> {
    match a { Some(t) => Some(t@), None => None }
}

/// What `/jail action person` does before the jail census, for the caller
/// `author` (written `mention`), the users mentioned in the message, those of
/// them and the caller that are in jail (`jailed`), and the caller's balance.
/// A bribe costs a random amount from 1 up to (not including) the balance, frees
/// the caller, and is answered with mercy; without a balance of at least 2 it
/// ends the command, census included (the second part of the result is then
/// `false`). Every other action is [`jail_plain_effects`].
pub fn jail_effects(action: Option<&str>, has_person: bool, author: u64, mentions: &Vec<u64>, jailed: &Vec<u64>, balance: Option<i64>, mention: &str) -> (r: (Vec<JailEffect>, bool))
    ensures
        opt_view(action) == Some("bribe"@) ==> match balance {
            Some(b) if b >= 2 => {
                &&& r.1
                &&& r.0@.len() == 3
                &&& effect_view(r.0@[0]).0 == 2 && 1 <= effect_view(r.0@[0]).1 < b
                &&& effect_view(r.0@[1]) == (1int, author as int, Seq::<char>::empty())
                &&& effect_view(r.0@[2]) == say(mercy_text(mention@))
            },
            _ => !r.1 && r.0@.len() == 0,
        },
        opt_view(action) != Some("bribe"@) ==> r.1 && effects_view(r.0@) == jail_plain_effects(opt_view(action), has_person, author, mentions@, jailed@, mention@),
{
    let mut es: Vec<JailEffect> = Vec::new();
    let act = match action { Some(a) => a, None => "" };
    let is = |t: &str| -> (b: bool) ensures b == (opt_view(action) == Some(t@)) { action.is_some() && str_eq(act, t) };
    if is("bribe") {
        match balance {
            Some(b) => {
                if b >= 2 {
                    let amount = random_in(1, b);
                    es.push(JailEffect::SetBalance(amount));
                    es.push(JailEffect::BustOut(author));
                    let mut m = String::new();
                    push_str(&mut m, mention);
                    push_str(&mut m, " has been shown mercy");
                    es.push(say_effect(m));
                    return (es, true);
                }
                return (es, false);
            },
            None => {
                return (es, false);
            },
        }
    }
    let author_jailed = has_id(jailed, author);
    if is("break") || is("bust") {
        if author_jailed {
            let mut m = String::new();
            push_str(&mut m, "You can't break anyone out from the inside");
            es.push(say_effect(m));
        } else if !has_person {
            let mut m = String::new();
            push_str(&mut m, "You gotta @someone to bust out");
            es.push(say_effect(m));
        } else {
            let mut released: Vec<u64> = Vec::new();
            let mut i: usize = 0;
            while i < mentions.len()
                invariant
                    i <= mentions.len(),
                    bust_effects(mentions@.take(i as int), jailed@) == (effects_view(es@), released@),
                decreases mentions.len() - i,
            {
                assert(mentions@.take(i as int + 1).drop_last() == mentions@.take(i as int));
                let j = mentions[i];
                let ghost before = effects_view(es@);
                if has_id(jailed, j) && !has_id(&released, j) {
                    es.push(JailEffect::BustOut(j));
                    let mut m = String::new();
                    push_str(&mut m, "busted out ");
                    push_nick_mention(&mut m, j);
                    push_str(&mut m, " !");
                    es.push(say_effect(m));
                    released.push(j);
                    assert(effects_view(es@) =~= before.push((1, j as int, Seq::empty())).push(say("busted out "@ + nick_mention(j) + " !"@)));
                } else {
                    let mut m = String::new();
                    push_nick_mention(&mut m, j);
                    push_str(&mut m, " isn't in jail!");
                    es.push(say_effect(m));
                    assert(effects_view(es@) =~= before.push(say(nick_mention(j) + " isn't in jail!"@)));
                }
                i += 1;
            }
            assert(mentions@.take(mentions.len() as int) == mentions@);
        }
    } else if (is("beg") || is("mercy")) && author_jailed {
        es.push(JailEffect::BegMercy);
        let mut m = String::new();
        push_str(&mut m, mention);
        push_str(&mut m, " has been shown mercy");
        es.push(say_effect(m));
        assert(effects_view(es@) =~= seq![(3, 0, Seq::empty()), say(mercy_text(mention@))]);
    } else if is("frame") && has_person {
        let mut i: usize = 0;
        while i < mentions.len()
            invariant
                i <= mentions.len(),
                frame_effects(mentions@.take(i as int), jailed@) == effects_view(es@),
            decreases mentions.len() - i,
        {
            assert(mentions@.take(i as int + 1).drop_last() == mentions@.take(i as int));
            let v = mentions[i];
            let ghost before = effects_view(es@);
            if !has_id(jailed, v) {
                es.push(JailEffect::Frame(v));
                let mut m = String::new();
                push_str(&mut m, "framed ");
                push_nick_mention(&mut m, v);
                push_str(&mut m, " !");
                es.push(say_effect(m));
                assert(effects_view(es@) =~= before.push((4, v as int, Seq::empty())).push(say("framed "@ + nick_mention(v) + " !"@)));
            }
            i += 1;
        }
        assert(mentions@.take(mentions.len() as int) == mentions@);
    }
    assert(effects_view(es@) =~= jail_plain_effects(opt_view(action), has_person, author, mentions@, jailed@, mention@));
    (es, true)
}

/// The instant that chrono's `NaiveDateTime::parse_from_str(s, "%Y-%m-%d %H:%M:%S")`
/// reads in `s`, in microseconds after 1970-01-01 00:00:00, or `None` when `s` does
/// not parse.
pub uninterp spec fn sql_datetime_micros(s: Seq<char>) -> Option<int>;

/// chrono `NaiveDateTime::parse_from_str(s, "%Y-%m-%d %H:%M:%S")`, read as
/// microseconds after 1970-01-01 00:00:00 (`and_utc().timestamp_micros()`).
/// Claims that the result is a function of `s` alone (named
/// [`sql_datetime_micros`]) and lies within chrono's documented range of dates
/// (262144 BCE to 262142 CE); how the text is parsed is not stated.
#[verifier::external_body]
fn parse_sql_datetime(s: &str) -> (r: Option<i64>)
    ensures
        match r {
            Some(t) => sql_datetime_micros(s@) == Some(t as int)
                && -8_400_000_000_000_000_000 <= t <= 8_400_000_000_000_000_000,
            None => sql_datetime_micros(s@) is None,
        },
{
    match chrono::NaiveDateTime::parse_from_str(s, "%Y-%m-%d %H:%M:%S") {
        Ok(t) => Some(t.and_utc().timestamp_micros()),
        Err(_) => None,
    }
}

/// How long until the time written `at` (in SQLite's `YYYY-MM-DD HH:MM:SS`),
/// from `now`, both read as microseconds of the same local clock.
pub open spec fn time_until_spec(at: Seq<char>, now: int) -> Seq<char> {
    match sql_datetime_micros(at) {
        Some(t) => timedelta_text(t - now),
        None => Seq::empty(),
    }
}

/// How long until the time written `at`, as Python's `str()` of the time span;
/// nothing when `at` does not parse. `now_micros` is the local time now, in
/// microseconds after 1970-01-01 00:00:00.
pub fn time_until(at: &str, now_micros: i64) -> (r: String)
    requires
        -800_000_000_000_000_000 <= now_micros <= 800_000_000_000_000_000,
    ensures
        r@ == time_until_spec(at@, now_micros as int),
{
    match parse_sql_datetime(at) {
        Some(t) => python_timedelta_str(t - now_micros),
        None => String::new(),
    }
}

/// A user's name, or their id when the name is missing or empty.
pub open spec fn name_or_id(name: Option<Seq<char>>, id: int) -> Seq<char> {
    match name {
        Some(n) => if n.len() > 0 { n } else { decimal_int(id) },
        None => decimal_int(id),
    }
}

pub open spec fn name_view(name: Option<String>) -> Option<Seq<char>> {
    match name { Some(n) => Some(n@), None => None }
}

fn push_name_or_id(s: &mut String, name: &Option<String>, id: i64)
    ensures
        final(s)@ == old(s)@ + name_or_id(name_view(*name), id as int),
{
    match name {
        Some(n) => {
            if n.as_str().is_empty() {
                let d = i64_decimal(id);
                push_chars(s, d.as_slice());
            } else {
                push_str(s, n.as_str());
            }
        },
        None => {
            let d = i64_decimal(id);
            push_chars(s, d.as_slice());
        },
    }
}

/// The jail census: who is getting out, who is going in (and what was seized),
/// and who stays (and when they are released), each as a titled code block when
/// there is anyone; or `Jail's empty!`.
pub open spec fn jail_report_spec(
    out: Seq<(i64, Option<Seq<char>>)>,
    going_in: Seq<(i64, Option<Seq<char>>, i64)>,
    staying: Seq<(i64, Option<Seq<char>>, Seq<char>)>,
) -> Seq<char> {
    let all = out_section(out) + in_section(going_in) + census_section(staying);
    if all.len() == 0 { "Jail's empty!"@ } else { all }
}

/// The report's part on who is released (empty when nobody is).
pub open spec fn out_section(out: Seq<(i64, Option<Seq<char>>)>) -> Seq<char> {
    if out.len() > 0 {
        "\n**They've done their time, they're getting out:**\n"@ + "```python\n"@
            + join(out.map_values(|u: (i64, Option<Seq<char>>)| name_or_id(u.1, u.0 as int)), "\n"@) + "\n```"@
    } else {
        Seq::empty()
    }
}

/// The report's part on who goes in, with what is seized (empty when nobody does).
pub open spec fn in_section(going_in: Seq<(i64, Option<Seq<char>>, i64)>) -> Seq<char> {
    if going_in.len() > 0 {
        "\n**Caught red-handed, they're going in:**\n"@ + "```python\n"@
            + join(going_in.map_values(|u: (i64, Option<Seq<char>>, i64)| name_or_id(u.1, u.0 as int) + ": "@ + decimal_int(u.2 as int) + " wbx seized"@), "\n"@)
            + "\n```"@
    } else {
        Seq::empty()
    }
}

/// The report's census of who stays, with the time left (empty when nobody does).
pub open spec fn census_section(staying: Seq<(i64, Option<Seq<char>>, Seq<char>)>) -> Seq<char> {
    if staying.len() > 0 {
        "\n**Jailhouse Census:**\n"@ + "```sql\n"@
            + join(staying.map_values(|u: (i64, Option<Seq<char>>, Seq<char>)| name_or_id(u.1, u.0 as int) + ": releasing in "@ + u.2), "\n"@)
            + "\n```"@
    } else {
        Seq::empty()
    }
}

/// The released part of the jail report (see [`out_section`]).
fn out_section_text(out: &Vec<(i64, Option<String>)>) -> (r: String)
    ensures
        r@ == out_section(out@.map_values(|u: (i64, Option<String>)| (u.0, name_view(u.1)))),
{
    let ghost ov = out@.map_values(|u: (i64, Option<String>)| (u.0, name_view(u.1)));
    let mut s = String::new();
    if out.len() > 0 {
        push_str(&mut s, "\n**They've done their time, they're getting out:**\n");
        let mut lines: Vec<String> = Vec::new();
        let mut i: usize = 0;
        while i < out.len()
            invariant
                i <= out.len(),
                ov == out@.map_values(|u: (i64, Option<String>)| (u.0, name_view(u.1))),
                string_views(lines@) == ov.take(i as int).map_values(|u: (i64, Option<Seq<char>>)| name_or_id(u.1, u.0 as int)),
            decreases out.len() - i,
        {
            let mut l = String::new();
            push_name_or_id(&mut l, &out[i].1, out[i].0);
            let ghost before = string_views(lines@);
            let ghost lv = l@;
            lines.push(l);
            assert(string_views(lines@) =~= before.push(lv));
            assert(ov.take(i as int + 1).map_values(|u: (i64, Option<Seq<char>>)| name_or_id(u.1, u.0 as int))
                =~= ov.take(i as int).map_values(|u: (i64, Option<Seq<char>>)| name_or_id(u.1, u.0 as int)).push(lv));
            i += 1;
        }
        assert(ov.take(out.len() as int) == ov);
        push_str(&mut s, "```python\n");
        let j = join_strings(&lines, "\n");
        push_str(&mut s, j.as_str());
        push_str(&mut s, "\n```");
    }
    s
}

/// The going-in part of the jail report (see [`in_section`]).
fn in_section_text(going_in: &Vec<(i64, Option<String>, i64)>) -> (r: String)
    ensures
        r@ == in_section(going_in@.map_values(|u: (i64, Option<String>, i64)| (u.0, name_view(u.1), u.2))),
{
    let ghost gv = going_in@.map_values(|u: (i64, Option<String>, i64)| (u.0, name_view(u.1), u.2));
    let mut s = String::new();
    if going_in.len() > 0 {
        push_str(&mut s, "\n**Caught red-handed, they're going in:**\n");
        let mut lines: Vec<String> = Vec::new();
        let mut i: usize = 0;
        while i < going_in.len()
            invariant
                i <= going_in.len(),
                gv == going_in@.map_values(|u: (i64, Option<String>, i64)| (u.0, name_view(u.1), u.2)),
                string_views(lines@) == gv.take(i as int).map_values(|u: (i64, Option<Seq<char>>, i64)| name_or_id(u.1, u.0 as int) + ": "@ + decimal_int(u.2 as int) + " wbx seized"@),
            decreases going_in.len() - i,
        {
            let mut l = String::new();
            push_name_or_id(&mut l, &going_in[i].1, going_in[i].0);
            push_str(&mut l, ": ");
            let d = i64_decimal(going_in[i].2);
            push_chars(&mut l, d.as_slice());
            push_str(&mut l, " wbx seized");
            let ghost before = string_views(lines@);
            let ghost lv = l@;
            lines.push(l);
            assert(string_views(lines@) =~= before.push(lv));
            assert(gv.take(i as int + 1).map_values(|u: (i64, Option<Seq<char>>, i64)| name_or_id(u.1, u.0 as int) + ": "@ + decimal_int(u.2 as int) + " wbx seized"@)
                =~= gv.take(i as int).map_values(|u: (i64, Option<Seq<char>>, i64)| name_or_id(u.1, u.0 as int) + ": "@ + decimal_int(u.2 as int) + " wbx seized"@).push(lv));
            i += 1;
        }
        assert(gv.take(going_in.len() as int) == gv);
        push_str(&mut s, "```python\n");
        let j = join_strings(&lines, "\n");
        push_str(&mut s, j.as_str());
        push_str(&mut s, "\n```");
    }
    s
}

/// The census part of the jail report (see [`census_section`]).
fn census_section_text(staying: &Vec<(i64, Option<String>, String)>) -> (r: String)
    ensures
        r@ == census_section(staying@.map_values(|u: (i64, Option<String>, String)| (u.0, name_view(u.1), u.2@))),
{
    let ghost sv = staying@.map_values(|u: (i64, Option<String>, String)| (u.0, name_view(u.1), u.2@));
    let mut s = String::new();
    if staying.len() > 0 {
        push_str(&mut s, "\n**Jailhouse Census:**\n");
        let mut lines: Vec<String> = Vec::new();
        let mut i: usize = 0;
        while i < staying.len()
            invariant
                i <= staying.len(),
                sv == staying@.map_values(|u: (i64, Option<String>, String)| (u.0, name_view(u.1), u.2@)),
                string_views(lines@) == sv.take(i as int).map_values(|u: (i64, Option<Seq<char>>, Seq<char>)| name_or_id(u.1, u.0 as int) + ": releasing in "@ + u.2),
            decreases staying.len() - i,
        {
            let mut l = String::new();
            push_name_or_id(&mut l, &staying[i].1, staying[i].0);
            push_str(&mut l, ": releasing in ");
            push_str(&mut l, staying[i].2.as_str());
            let ghost before = string_views(lines@);
            let ghost lv = l@;
            lines.push(l);
            assert(string_views(lines@) =~= before.push(lv));
            assert(sv.take(i as int + 1).map_values(|u: (i64, Option<Seq<char>>, Seq<char>)| name_or_id(u.1, u.0 as int) + ": releasing in "@ + u.2)
                =~= sv.take(i as int).map_values(|u: (i64, Option<Seq<char>>, Seq<char>)| name_or_id(u.1, u.0 as int) + ": releasing in "@ + u.2).push(lv));
            i += 1;
        }
        assert(sv.take(staying.len() as int) == sv);
        push_str(&mut s, "```sql\n");
        let j = join_strings(&lines, "\n");
        push_str(&mut s, j.as_str());
        push_str(&mut s, "\n```");
    }
    s
}

/// The jail census (see [`jail_report_spec`]). Each of `staying` holds the text of
/// the time until release.
pub fn jail_report(
    out: &Vec<(i64, Option<String>)>,
    going_in: &Vec<(i64, Option<String>, i64)>,
    staying: &Vec<(i64, Option<String>, String)>,
) -> (r: String)
    ensures
        r@ == jail_report_spec(
            out@.map_values(|u: (i64, Option<String>)| (u.0, name_view(u.1))),
            going_in@.map_values(|u: (i64, Option<String>, i64)| (u.0, name_view(u.1), u.2)),
            staying@.map_values(|u: (i64, Option<String>, String)| (u.0, name_view(u.1), u.2@)),
        ),
{
    let mut s = out_section_text(out);
    let b = in_section_text(going_in);
    push_str(&mut s, b.as_str());
    let c = census_section_text(staying);
    push_str(&mut s, c.as_str());
    if s.as_str().is_empty() {
        push_str(&mut s, "Jail's empty!");
    }
    s
}

} // verus!
