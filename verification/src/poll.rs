//! The weekly games poll: its options, the emoji shown beside each, and how many
//! hours remain until the next Tuesday party.

use vstd::prelude::*;
use crate::text::str_eq;

verus! {

/// Only this many options are put on the poll.
pub const MAX_OPTIONS: usize = 10;

/// The options as (text, emoji) views.
pub open spec fn options_view(v: Seq<(&str, &str)>) -> Seq<(Seq<char>, Seq<char>)> {
    v.map_values(|o: (&str, &str)| (o.0@, o.1@))
}

/// The games on the poll, in order, each with its emoji (a Unicode emoji, or the
/// name of one of the server's custom emoji).
pub open spec fn poll_options_spec() -> Seq<(Seq<char>, Seq<char>)> {
    options_0() + options_1() + options_2()
}

/// The poll options, in groups of sixteen.
pub open spec fn options_0() -> Seq<(Seq<char>, Seq<char>)> {
    seq![
        ("Warhammer 40k Darktide"@, "🔨"@),
        ("Mythforce"@, "🛡️"@),
        ("Dune: Spice Wars"@, "🌵"@),
        ("Deep Rock Galactic"@, "dwarf"@),
        ("Jump Space"@, "🚀"@),
        ("Gunfire Reborn"@, "🇨🇳"@),
        ("Valheim"@, "⛺"@),
        ("RV There Yet?"@, "🚬"@),
        ("Splitgate"@, "splitgate"@),
        ("Something else"@, "❓"@),
        ("Helldivers 2"@, "helldivers"@),
        ("Warhammer Vermintide 2"@, "🐀"@),
        ("Marvel Rivals"@, "🦸"@),
        ("Garfield Kart"@, "😾"@),
        ("Age of Empires 2"@, "🏰"@),
        ("Peak"@, "⛰️"@),
    ]
}

fn push_options_0(v: &mut Vec<(&'static str, &'static str)>)
    ensures
        options_view(final(v)@) == options_view(old(v)@) + options_0(),
{
    let ghost before = options_view(v@);
    v.push(("Warhammer 40k Darktide", "🔨"));
    v.push(("Mythforce", "🛡️"));
    v.push(("Dune: Spice Wars", "🌵"));
    v.push(("Deep Rock Galactic", "dwarf"));
    v.push(("Jump Space", "🚀"));
    v.push(("Gunfire Reborn", "🇨🇳"));
    v.push(("Valheim", "⛺"));
    v.push(("RV There Yet?", "🚬"));
    v.push(("Splitgate", "splitgate"));
    v.push(("Something else", "❓"));
    v.push(("Helldivers 2", "helldivers"));
    v.push(("Warhammer Vermintide 2", "🐀"));
    v.push(("Marvel Rivals", "🦸"));
    v.push(("Garfield Kart", "😾"));
    v.push(("Age of Empires 2", "🏰"));
    v.push(("Peak", "⛰️"));
    assert(options_view(v@) =~= before + options_0());
}

pub open spec fn options_1() -> Seq<(Seq<char>, Seq<char>)> {
    seq![
        ("Halo 2"@, "halo2"@),
        ("Abiotic Factor"@, "🧑‍🔬"@),
        ("Phasmophobia"@, "👻"@),
        ("Sea of Thieves"@, "sea_of_thieves"@),
        ("Arc Raiders"@, "🌈"@),
        ("Project Zomboid"@, "🧟"@),
        ("Left 4 Dead 2"@, "🧟‍♀️"@),
        ("Lethal Company"@, "🏢"@),
        ("Mario Kart World"@, "mariokart"@),
        ("Rematch"@, "⚽"@),
        ("Fortnite"@, "fortnite"@),
        ("Titanfall 2"@, "🤖"@),
        ("Tiny Tina's Wonderlands"@, "🤪"@),
        ("Rocket League"@, "rocket_league"@),
        ("Risk of Rain 2"@, "🌧️"@),
        ("Overwatch 2"@, "overwatch"@),
    ]
}

fn push_options_1(v: &mut Vec<(&'static str, &'static str)>)
    ensures
        options_view(final(v)@) == options_view(old(v)@) + options_1(),
{
    let ghost before = options_view(v@);
    v.push(("Halo 2", "halo2"));
    v.push(("Abiotic Factor", "🧑‍🔬"));
    v.push(("Phasmophobia", "👻"));
    v.push(("Sea of Thieves", "sea_of_thieves"));
    v.push(("Arc Raiders", "🌈"));
    v.push(("Project Zomboid", "🧟"));
    v.push(("Left 4 Dead 2", "🧟‍♀️"));
    v.push(("Lethal Company", "🏢"));
    v.push(("Mario Kart World", "mariokart"));
    v.push(("Rematch", "⚽"));
    v.push(("Fortnite", "fortnite"));
    v.push(("Titanfall 2", "🤖"));
    v.push(("Tiny Tina's Wonderlands", "🤪"));
    v.push(("Rocket League", "rocket_league"));
    v.push(("Risk of Rain 2", "🌧️"));
    v.push(("Overwatch 2", "overwatch"));
    assert(options_view(v@) =~= before + options_1());
}

pub open spec fn options_2() -> Seq<(Seq<char>, Seq<char>)> {
    seq![
        ("Void Crew"@, "🚀"@),
        ("Killer Queen Black"@, "killerqueen"@),
        ("MageQuit"@, "🧙"@),
        ("LOTR: Return to Moria"@, "⛏️"@),
        ("Counter Strike 2"@, "🔫"@),
        ("Streets of Rogue"@, "🛣️"@),
        ("Fall Guys"@, "fallguys"@),
        ("Diablo 3"@, "😈"@),
        ("Elite Dangerous"@, "elite"@),
        ("Rounds"@, "🔴"@),
        ("Core Keeper"@, "🔵"@),
        ("Super Smash Bros Ultimate"@, "🥊"@),
        ("MarioKart 8 Deluxe"@, "🏎️"@),
        ("Starcraft 2"@, "starcraft"@),
        ("Among Us"@, "amongus"@),
        ("Helldivers 1"@, "🪂"@),
    ]
}

fn push_options_2(v: &mut Vec<(&'static str, &'static str)>)
    ensures
        options_view(final(v)@) == options_view(old(v)@) + options_2(),
{
    let ghost before = options_view(v@);
    v.push(("Void Crew", "🚀"));
    v.push(("Killer Queen Black", "killerqueen"));
    v.push(("MageQuit", "🧙"));
    v.push(("LOTR: Return to Moria", "⛏️"));
    v.push(("Counter Strike 2", "🔫"));
    v.push(("Streets of Rogue", "🛣️"));
    v.push(("Fall Guys", "fallguys"));
    v.push(("Diablo 3", "😈"));
    v.push(("Elite Dangerous", "elite"));
    v.push(("Rounds", "🔴"));
    v.push(("Core Keeper", "🔵"));
    v.push(("Super Smash Bros Ultimate", "🥊"));
    v.push(("MarioKart 8 Deluxe", "🏎️"));
    v.push(("Starcraft 2", "starcraft"));
    v.push(("Among Us", "amongus"));
    v.push(("Helldivers 1", "🪂"));
    assert(options_view(v@) =~= before + options_2());
}

/// The games on the poll (see [`poll_options_spec`]).
pub fn poll_options() -> (r: Vec<(&'static str, &'static str)>)
    ensures
        options_view(r@) == poll_options_spec(),
        r@.len() == 48,
{
    let mut v: Vec<(&'static str, &'static str)> = Vec::new();
    assert(options_view(v@) =~= Seq::empty());
    push_options_0(&mut v);
    push_options_1(&mut v);
    push_options_2(&mut v);
    assert(options_view(v@) =~= poll_options_spec());
    assert(options_view(v@).len() == v@.len());
    v
}

/// Whether an option's icon is a Unicode emoji rather than a custom-emoji name: in
/// this option set every Unicode emoji holds a non-ASCII character and every
/// custom name is ASCII.
pub fn is_emoji(name: &str) -> (r: bool)
    ensures
        r == !vstd::string::is_ascii(name),
{
    !name.is_ascii()
}

/// The emoji of a poll answer.
pub enum PollEmoji {
    /// A Unicode emoji.
    Name(String),
    /// A custom emoji of the server, by id.
    Id(u64),
}

/// Position of the last entry named `name` (as a map built from the list keeps
/// the last), or -1.
pub open spec fn last_named(m: Seq<(String, u64)>, name: Seq<char>) -> int
    decreases m.len(),
{
    if m.len() == 0 {
        -1
    } else if m.last().0@ == name {
        m.len() - 1
    } else {
        last_named(m.drop_last(), name)
    }
}

/// The emoji beside a poll option: a Unicode emoji as itself; a custom name as the
/// server's emoji of that name; none when the server has no such emoji; 🙃 when the
/// server's emoji could not be read at all (`emojis` is `None`).
pub open spec fn poll_emoji_spec(emojis: Option<Seq<(String, u64)>>, name: &str) -> Option<(bool, Seq<char>, u64)> {
    if !vstd::string::is_ascii(name) {
        Some((false, name@, 0))
    } else {
        match emojis {
            None => Some((false, "🙃"@, 0)),
            Some(m) => {
                let i = last_named(m, name@);
                if i >= 0 { Some((true, Seq::empty(), m[i].1)) } else { None }
            },
        }
    }
}

/// (is a custom emoji, name, id) of a poll emoji.
pub open spec fn poll_emoji_view(e: PollEmoji) -> (bool, Seq<char>, u64) {
    match e {
        PollEmoji::Name(s) => (false, s@, 0),
        PollEmoji::Id(i) => (true, Seq::empty(), i),
    }
}

/// The emoji beside a poll option (see [`poll_emoji_spec`]).
pub fn poll_emoji(emojis: &Option<Vec<(String, u64)>>, name: &str) -> (r: Option<PollEmoji>)
    ensures
        match r {
            Some(e) => poll_emoji_spec(match emojis { Some(m) => Some(m@), None => None }, name) == Some(poll_emoji_view(e)),
            None => poll_emoji_spec(match emojis { Some(m) => Some(m@), None => None }, name) is None,
        },
{
    if is_emoji(name) {
        return Some(PollEmoji::Name(name.to_owned()));
    }
    match emojis {
        None => Some(PollEmoji::Name("🙃".to_owned())),
        Some(m) => {
            let mut i: usize = m.len();
            assert(m@.take(i as int) =~= m@);
            while i > 0
                invariant
                    i <= m@.len(),
                    vstd::string::is_ascii(name),
                    *emojis == Some(*m),
                    last_named(m@, name@) == last_named(m@.take(i as int), name@),
                decreases i,
            {
                assert(m@.take(i as int).drop_last() == m@.take(i as int - 1));
                assert(m@.take(i as int).last() == m@[i - 1]);
                if str_eq(m[i - 1].0.as_str(), name) {
                    assert(last_named(m@, name@) == i - 1);
                    return Some(PollEmoji::Id(m[i - 1].1));
                }
                i -= 1;
            }
            None
        },
    }
}

/// The answers of the poll: the first [`MAX_OPTIONS`] of `options`, each with
/// its text and the emoji beside it.
pub fn poll_answers(options: &Vec<(&str, &str)>, emojis: &Option<Vec<(String, u64)>>) -> (r: Vec<(String, Option<PollEmoji>)>)
    requires
        options@.len() >= MAX_OPTIONS,
    ensures
        r@.len() == MAX_OPTIONS,
        forall|k: int| 0 <= k < r@.len() ==> (#[trigger] r@[k]).0@ == options@[k].0@,
        forall|k: int| 0 <= k < r@.len() ==> match (#[trigger] r@[k]).1 {
            Some(e) => poll_emoji_spec(match emojis { Some(m) => Some(m@), None => None }, options@[k].1) == Some(poll_emoji_view(e)),
            None => poll_emoji_spec(match emojis { Some(m) => Some(m@), None => None }, options@[k].1) is None,
        },
{
    let mut r: Vec<(String, Option<PollEmoji>)> = Vec::new();
    let mut i: usize = 0;
    while i < MAX_OPTIONS
        invariant
            i <= MAX_OPTIONS,
            options@.len() >= MAX_OPTIONS,
            r@.len() == i,
            forall|k: int| 0 <= k < i ==> (#[trigger] r@[k]).0@ == options@[k].0@,
            forall|k: int| 0 <= k < i ==> match (#[trigger] r@[k]).1 {
                Some(e) => poll_emoji_spec(match emojis { Some(m) => Some(m@), None => None }, options@[k].1) == Some(poll_emoji_view(e)),
                None => poll_emoji_spec(match emojis { Some(m) => Some(m@), None => None }, options@[k].1) is None,
            },
        decreases MAX_OPTIONS - i,
    {
        let (text, icon) = options[i];
        let e = poll_emoji(emojis, icon);
        r.push((text.to_owned(), e));
        i += 1;
    }
    r
}

/// Seconds that the poll stays open: `hours` hours, no fewer than none.
pub fn poll_duration_secs(hours: i64) -> (r: u64)
    requires
        hours <= u64::MAX / 3600,
    ensures
        r == (if hours < 0 { 0 } else { hours * 3600 }),
{
    if hours < 0 { 0 } else { (hours as u64) * 3600 }
}

/// `a` modulo `b` with the sign of `b`, as Python's `%` gives it.
pub open spec fn python_mod_spec(a: int, b: int) -> int {
    if b > 0 {
        a % b
    } else if a % b == 0 {
        0
    } else {
        a % b + b
    }
}

/// The remainder of dividing by `d` is the only value in `0 .. |d|` that differs
/// from `x` by a multiple of `d`.
proof fn lemma_euclid_rem_unique(x: int, d: int, q: int, r: int)
    requires
        d != 0,
        0 <= r,
        r < d || r < -d,
        x == q * d + r,
    ensures
        r == x % d,
{
    if d > 0 {
        vstd::arithmetic::div_mod::lemma_fundamental_div_mod_converse_mod(x, d, q, r);
    } else {
        assert(x == (-q) * (-d) + r) by (nonlinear_arith)
            requires x == q * d + r;
        vstd::arithmetic::div_mod::lemma_fundamental_div_mod_converse_mod(x, -d, -q, r);
        vstd::arithmetic::div_mod::lemma_fundamental_div_mod(x, d);
        assert(0 <= x % d < -d) by (nonlinear_arith)
            requires d < 0;
        let q2 = x / d;
        assert(x == (-q2) * (-d) + x % d) by (nonlinear_arith)
            requires x == d * q2 + x % d;
        vstd::arithmetic::div_mod::lemma_fundamental_div_mod_converse_mod(x, -d, -q2, x % d);
    }
}

/// Bounds of the remainder of dividing by a nonzero `d`, and the quotient
/// identity.
proof fn lemma_euclid_rem(x: int, d: int)
    requires
        d != 0,
    ensures
        0 <= x % d,
        x % d < d || x % d < -d,
        x == d * (x / d) + x % d,
{
    vstd::arithmetic::div_mod::lemma_fundamental_div_mod(x, d);
    if d > 0 {
        vstd::arithmetic::div_mod::lemma_mod_bound(x, d);
    } else {
        assert(0 <= x % d < -d) by (nonlinear_arith)
            requires d < 0;
    }
}

/// What Rust's `%` on signed integers computes: the remainder truncated toward
/// zero, in terms of the remainder of Euclidean division.
pub open spec fn trunc_rem(x: int, d: int) -> int {
    if x >= 0 { x % d } else { -((-x) % d) }
}

/// The truncated remainder differs from `x` by a multiple of `d` and is smaller
/// than `|d|`, with the sign of `x`.
proof fn lemma_trunc_rem(x: int, d: int) -> (q: int)
    requires
        d != 0,
    ensures
        x == q * d + trunc_rem(x, d),
        x >= 0 ==> 0 <= trunc_rem(x, d),
        x < 0 ==> trunc_rem(x, d) <= 0,
        trunc_rem(x, d) < d || trunc_rem(x, d) < -d,
        trunc_rem(x, d) > d || trunc_rem(x, d) > -d,
{
    if x >= 0 {
        lemma_euclid_rem(x, d);
        assert(x == (x / d) * d + x % d) by (nonlinear_arith)
            requires x == d * (x / d) + x % d;
        x / d
    } else {
        lemma_euclid_rem(-x, d);
        let q0 = (-x) / d;
        assert(x == (-q0) * d + trunc_rem(x, d)) by (nonlinear_arith)
            requires -x == d * q0 + (-x) % d, trunc_rem(x, d) == -((-x) % d);
        -q0
    }
}

/// Python's `%` on integers (the remainder takes the sign of the divisor), computed
/// as `((a % b) + b) % b`; the sum in the middle must fit in `i64`.
pub fn python_mod(a: i64, b: i64) -> (r: i64)
    requires
        b != 0,
        !(a == i64::MIN && b == -1),
        i64::MIN <= trunc_rem(a as int, b as int) + b <= i64::MAX,
    ensures
        r == python_mod_spec(a as int, b as int),
{
    let t = a % b;
    let ghost q1 = lemma_trunc_rem(a as int, b as int);
    let s = t + b;
    let r = s % b;
    proof {
        let q2 = lemma_trunc_rem(s as int, b as int);
        let q = q1 + q2 - 1;
        assert(a == q * b + r) by (nonlinear_arith)
            requires a == q1 * b + t, s == t + b, s == q2 * b + r, q == q1 + q2 - 1;
        if b > 0 {
            lemma_euclid_rem_unique(a as int, b as int, q, r as int);
        } else if r == 0 {
            lemma_euclid_rem_unique(a as int, b as int, q, 0);
        } else {
            assert(a == (q + 1) * b + (r - b)) by (nonlinear_arith)
                requires a == q * b + r;
            lemma_euclid_rem_unique(a as int, b as int, q + 1, r - b);
        }
    }
    r
}

/// Microseconds in a day and in an hour.
pub const DAY_MICROS: i64 = 86_400_000_000;
pub const HOUR_MICROS: i64 = 3_600_000_000;

/// Microseconds from the start of today until the next party (Tuesday, 5 PM),
/// today at 5 PM counting only if it is still ahead.
pub open spec fn next_party_micros(weekday: int, micros_of_day: int) -> int {
    let at = python_mod_spec(1 - weekday, 7) * DAY_MICROS + 17 * HOUR_MICROS;
    if at <= micros_of_day { at + 7 * DAY_MICROS } else { at }
}

/// Whole hours until the next party, plus the seven-hour offset the schedule adds.
pub open spec fn hours_left_spec(weekday: int, micros_of_day: int) -> int {
    (next_party_micros(weekday, micros_of_day) - micros_of_day) / (HOUR_MICROS as int) + 7
}

/// Hours left until the next Tuesday party, from the local weekday (Monday is 0)
/// and the microseconds elapsed since local midnight.
pub fn hours_left_at(weekday: i64, micros_of_day: i64) -> (r: i64)
    requires
        0 <= weekday < 7,
        0 <= micros_of_day < DAY_MICROS,
    ensures
        r == hours_left_spec(weekday as int, micros_of_day as int),
        7 <= r <= 7 * 24 + 7,
{
    let days_until_party = python_mod(1 - weekday, 7);
    let mut next_party: i64 = days_until_party * DAY_MICROS + 17 * HOUR_MICROS;
    if next_party <= micros_of_day {
        next_party = next_party + 7 * DAY_MICROS;
    }
    let diff = next_party - micros_of_day;
    assert(0 < diff <= 7 * DAY_MICROS);
    diff / HOUR_MICROS + 7
}

} // verus!
