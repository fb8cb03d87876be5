//! The slash commands: which reply each command gives, and the text formats its
//! replies use (Python's `repr` of a string, `str` of a time span, a rhyme
//! listing, a SQL row, the quote listings).

use vstd::prelude::*;
use crate::text::{
    push_str, push_chars, str_to_chars, chars_to_string, str_eq, trim_str, str_to_lowercase,
    u64_decimal, i64_decimal, decimal, decimal_int, unicode_lowercase, trim, CharClass,
};
use crate::pyrepr::{py_repr_spec, push_py_repr};
use crate::text::{join, join_strings, join_strings_range, string_views};
use crate::cmudict::{CmuDict, CmuModel};
use crate::rhymes::{rhyme, rhyme_spec, RhymeResult};
use crate::text::{split_on, split_chars, push_char};
use crate::markov_haiku::{gen_haiku, line_syllables, all_in, corpus_of, drawn_haiku, empty_choice_error, haiku_gave_up,
    haiku_owed, recursion_error};
use crate::random::random_below;

verus! {

// ---------------------------------------------------------------------------
// Python's repr() of a string
// ---------------------------------------------------------------------------

/// Python's `repr()` of a string as SQLite text shows it: quoted with `'` unless
/// the text holds `'` and no `"`, with backslash, the chosen quote, `\n`, `\r` and
/// `\t` escaped, every other character written as itself.
pub fn py_str_repr(s: &str) -> (r: String)
    ensures
        r@ == py_repr_spec(s@, false),
{
    let v = str_to_chars(s);
    let mut out: Vec<char> = Vec::new();
    push_py_repr(&mut out, v.as_slice(), false);
    assert(out@ =~= py_repr_spec(s@, false));
    chars_to_string(out.as_slice())
}

// ---------------------------------------------------------------------------
// Python's str() of a timedelta
// ---------------------------------------------------------------------------

/// Microseconds in a day.
pub const MICROS_PER_DAY: i64 = 86_400_000_000;

/// The decimal digits of `n`, with zeros in front up to `width` characters.
pub open spec fn padded(n: nat, width: nat) -> Seq<char> {
    let d = decimal(n);
    if d.len() < width {
        Seq::new((width - d.len()) as nat, |i: int| '0') + d
    } else {
        d
    }
}

/// Python's `str(timedelta(microseconds=us))`: `H:MM:SS`, preceded by `N day, ` or
/// `N days, ` when there are whole days (the count is floored, so a negative span
/// borrows a day), followed by `.ffffff` when there are microseconds.
pub open spec fn timedelta_text(us: int) -> Seq<char> {
    let days = us / (MICROS_PER_DAY as int);
    let rem = us % (MICROS_PER_DAY as int);
    let secs = rem / 1_000_000;
    let micros = rem % 1_000_000;
    let day_part = if days == 0 {
        Seq::<char>::empty()
    } else if days == 1 || days == -1 {
        decimal_int(days) + " day, "@
    } else {
        decimal_int(days) + " days, "@
    };
    let micro_part = if micros == 0 {
        Seq::<char>::empty()
    } else {
        "."@ + padded(micros as nat, 6)
    };
    day_part + decimal((secs / 3600) as nat) + ":"@ + padded(((secs % 3600) / 60) as nat, 2) + ":"@
        + padded((secs % 60) as nat, 2) + micro_part
}

/// The decimal digits of `n` with zeros in front up to `width` characters.
pub fn zero_padded(n: u64, width: usize) -> (r: Vec<char>)
    ensures
        r@ == padded(n as nat, width as nat),
{
    let d = u64_decimal(n);
    if d.len() < width {
        let mut r: Vec<char> = Vec::new();
        let fill = width - d.len();
        let mut i: usize = 0;
        while i < fill
            invariant
                i <= fill,
                fill == width - d@.len(),
                r@ == Seq::new(i as nat, |k: int| '0'),
            decreases fill - i,
        {
            r.push('0');
            assert(r@ =~= Seq::new((i + 1) as nat, |k: int| '0'));
            i += 1;
        }
        let mut k: usize = 0;
        let ghost z = r@;
        while k < d.len()
            invariant
                k <= d@.len(),
                r@ == z + d@.take(k as int),
            decreases d.len() - k,
        {
            r.push(d[k]);
            assert(d@.take(k as int + 1) == d@.take(k as int).push(d@[k as int]));
            k += 1;
        }
        assert(d@.take(d@.len() as int) == d@);
        r
    } else {
        d
    }
}

/// Python's `str()` of a time span of `total_us` microseconds.
pub fn python_timedelta_str(total_us: i64) -> (r: String)
    ensures
        r@ == timedelta_text(total_us as int),
{
    let mut days = total_us / MICROS_PER_DAY;
    let mut rem = total_us % MICROS_PER_DAY;
    if rem < 0 {
        rem = rem + MICROS_PER_DAY;
        days = days - 1;
    }
    assert(days == total_us as int / (MICROS_PER_DAY as int));
    assert(rem == total_us as int % (MICROS_PER_DAY as int));
    let seconds = rem / 1_000_000;
    let micros = rem % 1_000_000;
    let hh = seconds / 3600;
    let mm = (seconds % 3600) / 60;
    let ss = seconds % 60;
    let mut s = String::new();
    if days != 0 {
        let dd = i64_decimal(days);
        push_chars(&mut s, dd.as_slice());
        if days != 1 && days != -1 {
            push_str(&mut s, " days, ");
        } else {
            push_str(&mut s, " day, ");
        }
    }
    let ghost day_part = s@;
    let h = u64_decimal(hh as u64);
    push_chars(&mut s, h.as_slice());
    push_str(&mut s, ":");
    let m = zero_padded(mm as u64, 2);
    push_chars(&mut s, m.as_slice());
    push_str(&mut s, ":");
    let sc = zero_padded(ss as u64, 2);
    push_chars(&mut s, sc.as_slice());
    let ghost before_micros = s@;
    if micros != 0 {
        push_str(&mut s, ".");
        let us = zero_padded(micros as u64, 6);
        push_chars(&mut s, us.as_slice());
    }
    assert(s@ =~= timedelta_text(total_us as int));
    s
}

// ---------------------------------------------------------------------------
// Dice text and articles
// ---------------------------------------------------------------------------

/// A dice expression as the roller reads it: trimmed and lower-cased.
pub fn nice_dice(dice: &str) -> (r: String)
    ensures
        r@ == unicode_lowercase(trim(dice@, CharClass::Whitespace)),
{
    let t = trim_str(dice);
    str_to_lowercase(t.as_str())
}

/// Whether `c`, lower-cased as ASCII, is one of the vowels `a e i o u`.
pub open spec fn is_vowel_letter(c: char) -> bool {
    c == 'a' || c == 'e' || c == 'i' || c == 'o' || c == 'u'
        || c == 'A' || c == 'E' || c == 'I' || c == 'O' || c == 'U'
}

/// `word` with its indefinite article: `an` before a vowel letter, else `a`.
pub open spec fn with_article(word: Seq<char>) -> Seq<char> {
    if word.len() > 0 && is_vowel_letter(word[0]) {
        "an "@ + word
    } else {
        "a "@ + word
    }
}

/// `word` with its indefinite article (`an apple`, `a pear`).
pub fn get_article(word: &str) -> (r: String)
    ensures
        r@ == with_article(word@),
{
    let v = str_to_chars(word);
    let mut s = String::new();
    if v.len() > 0 && (v[0] == 'a' || v[0] == 'e' || v[0] == 'i' || v[0] == 'o' || v[0] == 'u'
        || v[0] == 'A' || v[0] == 'E' || v[0] == 'I' || v[0] == 'O' || v[0] == 'U') {
        push_str(&mut s, "an ");
    } else {
        push_str(&mut s, "a ");
    }
    push_chars(&mut s, v.as_slice());
    s
}

// ---------------------------------------------------------------------------
// /rhyme
// ---------------------------------------------------------------------------

/// Bytes taken by `c` in UTF-8.
pub open spec fn utf8_width(c: char) -> nat {
    if (c as u32) < 0x80 { 1 } else if (c as u32) < 0x800 { 2 } else if (c as u32) < 0x10000 { 3 } else { 4 }
}

/// Bytes taken by `s` in UTF-8 (what `str::len` counts).
pub open spec fn utf8_len(s: Seq<char>) -> nat
    decreases s.len(),
{
    if s.len() == 0 { 0 } else { utf8_len(s.drop_last()) + utf8_width(s.last()) }
}

/// Whether `s` takes more than `limit` bytes in UTF-8.
pub fn utf8_longer_than(s: &str, limit: u64) -> (r: bool)
    requires
        limit < u64::MAX - 4,
    ensures
        r == (utf8_len(s@) > limit),
{
    let v = str_to_chars(s);
    let mut total: u64 = 0;
    let mut i: usize = 0;
    while i < v.len()
        invariant
            i <= v.len(),
            v@ == s@,
            limit < u64::MAX - 4,
            total == utf8_len(v@.take(i as int)),
            total <= limit,
        decreases v.len() - i,
    {
        assert(v@.take(i as int + 1).drop_last() == v@.take(i as int));
        let c = v[i] as u32;
        let w: u64 = if c < 0x80 { 1 } else if c < 0x800 { 2 } else if c < 0x10000 { 3 } else { 4 };
        total = total + w;
        i += 1;
        if total > limit {
            proof { lemma_utf8_len_prefix(v@, i as int); }
            return true;
        }
    }
    assert(v@.take(v.len() as int) == v@);
    false
}

/// A prefix takes no more bytes than the whole.
proof fn lemma_utf8_len_prefix(s: Seq<char>, i: int)
    requires
        0 <= i <= s.len(),
    ensures
        utf8_len(s.take(i)) <= utf8_len(s),
    decreases s.len() - i,
{
    if i < s.len() {
        lemma_utf8_len_prefix(s, i + 1);
        assert(s.take(i + 1).drop_last() == s.take(i));
    } else {
        assert(s.take(i) == s);
    }
}

/// How many matches a long listing shows at its head and at its tail.
pub const RHYME_SNIP: usize = 30;

/// The rhyme listing: the matches joined with `, `, or, when that would take more
/// than 1000 bytes in UTF-8, only the first and the last thirty around a `--snip--` line.
pub open spec fn rhyme_listing(w: Seq<char>, ms: Seq<Seq<char>>) -> Seq<char> {
    let joined = join(ms, ", "@);
    let n = ms.len();
    let total = "\n\nA total of "@ + decimal(n) + " rhymes."@;
    if utf8_len(joined) > 1000 {
        let head = ms.take(if n < 30 { n as int } else { 30 });
        let tail = ms.skip(if n < 30 { 0 } else { n - 30 });
        w + " rhymes with:\n"@ + join(head, ", "@) + "\n--snip--\n"@ + join(tail, ", "@) + total
    } else {
        w + " rhymes with:\n"@ + joined + total
    }
}

/// The reply when the rhyme search fails with the error text `e`.
pub open spec fn rhyme_trouble(e: Seq<char>) -> Seq<char> {
    "I'm having trouble with this one, you're probably making it up, or "@ + e + ", one of the two..."@
}

/// The error text of calling `.keys()` on the empty result, as the reply shows it.
pub open spec fn empty_result_error() -> Seq<char> {
    "AttributeError(\"'list' object has no attribute 'keys'\")"@
}

/// The reply of `/rhyme arg`.
pub open spec fn rhyme_reply_spec(m: CmuModel, arg: Seq<char>) -> Seq<char> {
    if arg.contains(' ') {
        "I need a word to contemplate. `/rhyme word`, fool."@
    } else {
        match rhyme_spec(m, arg, 0) {
            Ok(Some((w, ms))) => "> "@ + rhyme_listing(w, ms),
            Ok(None) => rhyme_trouble(empty_result_error()),
            Err(e) => rhyme_trouble(e),
        }
    }
}

/// Whether `s` holds the character `c`.
fn str_has_char(s: &str, c: char) -> (r: bool)
    ensures
        r == s@.contains(c),
{
    let v = str_to_chars(s);
    let mut i: usize = 0;
    while i < v.len()
        invariant
            i <= v.len(),
            v@ == s@,
            forall|k: int| 0 <= k < i ==> v@[k] != c,
        decreases v.len() - i,
    {
        if v[i] == c {
            return true;
        }
        i += 1;
    }
    false
}

/// The listing of the matches of `w` (see [`rhyme_listing`]).
fn rhyme_listing_text(w: &str, matches: &Vec<String>) -> (r: String)
    ensures
        r@ == rhyme_listing(w@, string_views(matches@)),
{
    let ghost ms = string_views(matches@);
    let joined = join_strings(matches, ", ");
    let n = matches.len();
    let mut s = String::new();
    push_str(&mut s, w);
    push_str(&mut s, " rhymes with:\n");
    let ghost mid: Seq<char>;
    if utf8_longer_than(joined.as_str(), 1000) {
        let hi = if n < RHYME_SNIP { n } else { RHYME_SNIP };
        let lo = if n < RHYME_SNIP { 0 } else { n - RHYME_SNIP };
        let head = join_strings_range(matches, 0, hi, ", ");
        let tail = join_strings_range(matches, lo, n, ", ");
        assert(ms.subrange(0, hi as int) =~= ms.take(hi as int));
        assert(ms.subrange(lo as int, n as int) =~= ms.skip(lo as int));
        push_str(&mut s, head.as_str());
        push_str(&mut s, "\n--snip--\n");
        push_str(&mut s, tail.as_str());
        proof { mid = join(ms.take(hi as int), ", "@) + "\n--snip--\n"@ + join(ms.skip(lo as int), ", "@); }
    } else {
        push_str(&mut s, joined.as_str());
        proof { mid = join(ms, ", "@); }
    }
    assert(s@ =~= w@ + " rhymes with:\n"@ + mid);
    push_str(&mut s, "\n\nA total of ");
    let d = u64_decimal(n as u64);
    push_chars(&mut s, d.as_slice());
    push_str(&mut s, " rhymes.");
    assert(s@ =~= rhyme_listing(w@, ms));
    s
}

/// The reply of `/rhyme arg` (see [`rhyme_reply_spec`]).
pub fn rhyme_reply(cmu: &CmuDict, arg: &str) -> (r: String)
    ensures
        r@ == rhyme_reply_spec(cmu.model(), arg@),
{
    if str_has_char(arg, ' ') {
        let mut s = String::new();
        push_str(&mut s, "I need a word to contemplate. `/rhyme word`, fool.");
        return s;
    }
    let mut s = String::new();
    match rhyme(cmu, arg, 0) {
        Ok(RhymeResult::Dict { word: w, matches }) => {
            push_str(&mut s, "> ");
            let l = rhyme_listing_text(w.as_str(), &matches);
            push_str(&mut s, l.as_str());
        },
        Ok(RhymeResult::Empty) => {
            push_str(&mut s, "I'm having trouble with this one, you're probably making it up, or ");
            push_str(&mut s, "AttributeError(\"'list' object has no attribute 'keys'\")");
            push_str(&mut s, ", one of the two...");
        },
        Err(e) => {
            push_str(&mut s, "I'm having trouble with this one, you're probably making it up, or ");
            push_str(&mut s, e.as_str());
            push_str(&mut s, ", one of the two...");
        },
    }
    s
}

// ---------------------------------------------------------------------------
// Which reply a command gives
// ---------------------------------------------------------------------------

/// What the bot does for a slash command.
pub enum CommandAction {
    /// A quote of the corpus named like the command.
    Corpus,
    /// A dwarf quote.
    Dwarf,
    /// The next line of the song.
    Rick,
    /// This fixed text.
    Text(String),
    /// The message statistics of the channel, sent in follow-ups.
    Leaderboards,
    /// The mysterious merchant's wares.
    Merchant,
    /// A random saved quote.
    SayQuote,
    /// How often each user has been quoted.
    QuoteStats,
    /// Every saved quote.
    QuoteDump,
    /// Post the games poll, then answer `✅` to the caller alone.
    GamePoll,
    /// No reply.
    Silent,
}

/// The fixed text of the commands that answer with one.
pub open spec fn fixed_reply(name: Seq<char>) -> Option<Seq<char>> {
    if name == "rollin"@ {
        Some("Aww yeah 😎"@)
    } else if name == "sepuku"@ || name == "seppuku"@ || name == "die"@ {
        Some("https://giphy.com/gifs/KRY2oGS7SPvO0"@)
    } else if name == "discipline_ryan"@ {
        Some("No! Bad Ryan! Bad!"@)
    } else {
        None
    }
}

/// Whether `name` is one of the quote corpora's commands.
pub open spec fn is_corpus_command(name: Seq<char>) -> bool {
    name == "dick"@ || name == "dickens"@ || name == "willy"@ || name == "thomas"@ || name == "jane"@
}

/// The action for the command `name`: the commands that worked answer; every
/// other command gets no reply.
pub open spec fn command_action_spec(name: Seq<char>) -> (int, Option<Seq<char>>) {
    if is_corpus_command(name) { (0, None) }
    else if name == "v"@ { (1, None) }
    else if name == "rick"@ { (2, None) }
    else if fixed_reply(name) is Some { (3, fixed_reply(name)) }
    else if name == "leaderboards"@ { (4, None) }
    else if name == "mysterious_merchant"@ { (5, None) }
    else if name == "sayquote"@ { (6, None) }
    else if name == "quotestats"@ { (7, None) }
    else if name == "quotedump"@ { (8, None) }
    else if name == "game_poll"@ { (9, None) }
    else { (10, None) }
}

/// The action's place in [`command_action_spec`] and its text, if any.
pub open spec fn action_view(a: CommandAction) -> (int, Option<Seq<char>>) {
    match a {
        CommandAction::Corpus => (0, None),
        CommandAction::Dwarf => (1, None),
        CommandAction::Rick => (2, None),
        CommandAction::Text(t) => (3, Some(t@)),
        CommandAction::Leaderboards => (4, None),
        CommandAction::Merchant => (5, None),
        CommandAction::SayQuote => (6, None),
        CommandAction::QuoteStats => (7, None),
        CommandAction::QuoteDump => (8, None),
        CommandAction::GamePoll => (9, None),
        CommandAction::Silent => (10, None),
    }
}

fn text_action(t: &str) -> (r: CommandAction)
    ensures
        action_view(r) == (3int, Some(t@)),
{
    let mut s = String::new();
    push_str(&mut s, t);
    CommandAction::Text(s)
}

/// What the slash command `name` does (see [`command_action_spec`]).
pub fn command_action(name: &str) -> (r: CommandAction)
    ensures
        action_view(r) == command_action_spec(name@),
{
    if str_eq(name, "dick") || str_eq(name, "dickens") || str_eq(name, "willy")
        || str_eq(name, "thomas") || str_eq(name, "jane") {
        CommandAction::Corpus
    } else if str_eq(name, "v") {
        CommandAction::Dwarf
    } else if str_eq(name, "rick") {
        CommandAction::Rick
    } else if str_eq(name, "rollin") {
        text_action("Aww yeah 😎")
    } else if str_eq(name, "sepuku") || str_eq(name, "seppuku") || str_eq(name, "die") {
        text_action("https://giphy.com/gifs/KRY2oGS7SPvO0")
    } else if str_eq(name, "discipline_ryan") {
        text_action("No! Bad Ryan! Bad!")
    } else if str_eq(name, "leaderboards") {
        CommandAction::Leaderboards
    } else if str_eq(name, "mysterious_merchant") {
        CommandAction::Merchant
    } else if str_eq(name, "sayquote") {
        CommandAction::SayQuote
    } else if str_eq(name, "quotestats") {
        CommandAction::QuoteStats
    } else if str_eq(name, "quotedump") {
        CommandAction::QuoteDump
    } else if str_eq(name, "game_poll") {
        CommandAction::GamePoll
    } else {
        CommandAction::Silent
    }
}

/// `q` as a block quote: each newline followed by `> `.
pub open spec fn quote_lines(q: Seq<char>) -> Seq<char>
    decreases q.len(),
{
    if q.len() == 0 {
        Seq::empty()
    } else if q.last() == '\n' {
        quote_lines(q.drop_last()) + "\n> "@
    } else {
        quote_lines(q.drop_last()).push(q.last())
    }
}

/// The reply of a corpus command for the quote `q`: `> `, the quote with `> `
/// after each newline, and a space.
pub open spec fn corpus_reply_spec(q: Seq<char>) -> Seq<char> {
    "> "@ + quote_lines(q) + " "@
}

/// The reply of a corpus command for the quote `q` (see [`corpus_reply_spec`]).
pub fn corpus_reply(q: &str) -> (r: String)
    ensures
        r@ == corpus_reply_spec(q@),
{
    let v = str_to_chars(q);
    let mut s = String::new();
    push_str(&mut s, "> ");
    let mut i: usize = 0;
    while i < v.len()
        invariant
            i <= v.len(),
            v@ == q@,
            s@ == "> "@ + quote_lines(v@.take(i as int)),
        decreases v.len() - i,
    {
        assert(v@.take(i as int + 1).drop_last() == v@.take(i as int));
        if v[i] == '\n' {
            push_str(&mut s, "\n> ");
        } else {
            push_char(&mut s, v[i]);
        }
        assert(s@ =~= "> "@ + quote_lines(v@.take(i as int + 1)));
        i += 1;
    }
    assert(v@.take(v.len() as int) == v@);
    push_str(&mut s, " ");
    s
}

// ---------------------------------------------------------------------------
// Follow-up chunks
// ---------------------------------------------------------------------------

/// Longest follow-up message, in characters.
pub const FOLLOWUP_LIMIT: usize = 2000;

/// The follow-ups sent so far and the chunk being filled, after the responses
/// `rs`: each response goes into the chunk with a newline after it, and a
/// nonempty chunk is sent first when the response and its newline would take it
/// past the limit.
pub open spec fn chunk_state(rs: Seq<Seq<char>>) -> (Seq<Seq<char>>, Seq<char>)
    decreases rs.len(),
{
    if rs.len() == 0 {
        (Seq::empty(), Seq::empty())
    } else {
        let (sent, chunk) = chunk_state(rs.drop_last());
        let r = rs.last();
        if chunk.len() > 0 && chunk.len() + r.len() + 1 > FOLLOWUP_LIMIT {
            (sent.push(chunk), r.push('\n'))
        } else {
            (sent, chunk + r.push('\n'))
        }
    }
}

/// The follow-up messages for the responses `rs`.
pub open spec fn followups(rs: Seq<Seq<char>>) -> Seq<Seq<char>> {
    let (sent, chunk) = chunk_state(rs);
    if chunk.len() > 0 { sent.push(chunk) } else { sent }
}

/// Groups the leaderboard lines into follow-up messages (see [`followups`]).
pub fn followup_chunks(responses: &Vec<String>) -> (r: Vec<String>)
    ensures
        string_views(r@) == followups(string_views(responses@)),
{
    let ghost rs = string_views(responses@);
    let mut sent: Vec<String> = Vec::new();
    let mut chunk: Vec<char> = Vec::new();
    let mut i: usize = 0;
    while i < responses.len()
        invariant
            i <= responses.len(),
            rs == string_views(responses@),
            chunk_state(rs.take(i as int)) == (string_views(sent@), chunk@),
        decreases responses.len() - i,
    {
        assert(rs.take(i as int + 1).drop_last() == rs.take(i as int));
        let v = str_to_chars(responses[i].as_str());
        if chunk.len() > 0 && chunk.len() as u128 + v.len() as u128 + 1 > FOLLOWUP_LIMIT as u128 {
            let ghost before = string_views(sent@);
            sent.push(chars_to_string(chunk.as_slice()));
            assert(string_views(sent@) =~= before.push(chunk@));
            chunk = Vec::new();
        }
        crate::text::append_chars(&mut chunk, v.as_slice());
        chunk.push('\n');
        i += 1;
    }
    assert(rs.take(responses.len() as int) == rs);
    if chunk.len() > 0 {
        let ghost before = string_views(sent@);
        sent.push(chars_to_string(chunk.as_slice()));
        assert(string_views(sent@) =~= before.push(chunk@));
    }
    sent
}

/// The chunk the text command fills before the first response that would take
/// it past the limit (each response with a newline after it), and whether some
/// response did not fit.
pub open spec fn fill_until_full(rs: Seq<Seq<char>>) -> (Seq<char>, bool)
    decreases rs.len(),
{
    if rs.len() == 0 {
        (Seq::empty(), false)
    } else {
        let (chunk, full) = fill_until_full(rs.drop_last());
        if full {
            (chunk, true)
        } else if chunk.len() + rs.last().len() <= FOLLOWUP_LIMIT {
            (chunk + rs.last().push('\n'), false)
        } else {
            (chunk, true)
        }
    }
}

/// What the text command `/leaderboards` sends: the lines joined with newlines
/// when that fits in one message; else the lines that fit, each with a newline,
/// and then an apology (the command fails there); nothing when none overflows.
pub open spec fn text_leaderboard_spec(rs: Seq<Seq<char>>) -> Seq<Seq<char>> {
    let joined = join(rs, "\n"@);
    if joined.len() > FOLLOWUP_LIMIT {
        let (chunk, full) = fill_until_full(rs);
        if full { seq![chunk, "oops, something went wrong :blush:"@] } else { Seq::empty() }
    } else {
        seq![joined]
    }
}

/// The messages of the text command `/leaderboards` (see
/// [`text_leaderboard_spec`]).
pub fn text_leaderboard_messages(responses: &Vec<String>) -> (r: Vec<String>)
    ensures
        string_views(r@) == text_leaderboard_spec(string_views(responses@)),
{
    let ghost rs = string_views(responses@);
    let joined = join_strings(responses, "\n");
    let jv = str_to_chars(joined.as_str());
    let mut out: Vec<String> = Vec::new();
    if jv.len() <= FOLLOWUP_LIMIT {
        out.push(joined);
        assert(string_views(out@) =~= seq![jv@]);
        return out;
    }
    let mut chunk: Vec<char> = Vec::new();
    let mut i: usize = 0;
    while i < responses.len()
        invariant
            i <= responses@.len(),
            rs == string_views(responses@),
            fill_until_full(rs.take(i as int)) == (chunk@, false),
            out@.len() == 0,
            jv@ == join(rs, "\n"@),
            jv@.len() > FOLLOWUP_LIMIT,
        decreases responses.len() - i,
    {
        assert(rs.take(i as int + 1).drop_last() == rs.take(i as int));
        let v = str_to_chars(responses[i].as_str());
        if chunk.len() as u128 + v.len() as u128 <= FOLLOWUP_LIMIT as u128 {
            crate::text::append_chars(&mut chunk, v.as_slice());
            chunk.push('\n');
        } else {
            proof { lemma_fill_stays_full(rs, i as int + 1); }
            out.push(chars_to_string(chunk.as_slice()));
            let mut oops = String::new();
            push_str(&mut oops, "oops, something went wrong :blush:");
            out.push(oops);
            assert(string_views(out@) =~= seq![chunk@, "oops, something went wrong :blush:"@]);
            return out;
        }
        i += 1;
    }
    assert(rs.take(responses@.len() as int) == rs);
    assert(string_views(out@) =~= Seq::<Seq<char>>::empty());
    out
}

/// Once full, the chunk stays as it is.
proof fn lemma_fill_stays_full(rs: Seq<Seq<char>>, i: int)
    requires
        0 <= i <= rs.len(),
        fill_until_full(rs.take(i)).1,
    ensures
        fill_until_full(rs) == fill_until_full(rs.take(i)),
    decreases rs.len() - i,
{
    if i < rs.len() {
        assert(rs.take(i + 1).drop_last() == rs.take(i));
        lemma_fill_stays_full(rs, i + 1);
    } else {
        assert(rs.take(i) == rs);
    }
}

// ---------------------------------------------------------------------------
// SQL rows and the saved quotes
// ---------------------------------------------------------------------------

/// One value of a SQL result row.
pub enum SqlCell {
    Null,
    Integer(i64),
    /// A floating-point value, held as the text Python's `str()` gives it.
    Real(String),
    Text(String),
    Blob,
}

/// How Python's `str()` of a row tuple shows one value.
pub open spec fn cell_text(c: SqlCell) -> Seq<char> {
    match c {
        SqlCell::Null => "None"@,
        SqlCell::Integer(n) => decimal_int(n as int),
        SqlCell::Real(t) => t@,
        SqlCell::Text(t) => py_repr_spec(t@, false),
        SqlCell::Blob => "<blob>"@,
    }
}

/// Python's `str()` of a row tuple: `(a, b)`, or `(a,)` for one value.
pub open spec fn row_text(cells: Seq<SqlCell>) -> Seq<char> {
    if cells.len() == 1 {
        "("@ + cell_text(cells[0]) + ",)"@
    } else {
        "("@ + join(cells.map_values(|c: SqlCell| cell_text(c)), ", "@) + ")"@
    }
}

fn cell_string(c: &SqlCell) -> (r: String)
    ensures
        r@ == cell_text(*c),
{
    let mut s = String::new();
    match c {
        SqlCell::Null => push_str(&mut s, "None"),
        SqlCell::Integer(n) => {
            let d = i64_decimal(*n);
            push_chars(&mut s, d.as_slice());
        },
        SqlCell::Real(t) => push_str(&mut s, t.as_str()),
        SqlCell::Text(t) => {
            let r = py_str_repr(t.as_str());
            push_str(&mut s, r.as_str());
        },
        SqlCell::Blob => push_str(&mut s, "<blob>"),
    }
    s
}

/// A result row as Python's `str()` of its tuple shows it (see [`row_text`]).
pub fn sql_row_text(cells: &Vec<SqlCell>) -> (r: String)
    ensures
        r@ == row_text(cells@),
{
    let mut s = String::new();
    push_str(&mut s, "(");
    if cells.len() == 1 {
        let c = cell_string(&cells[0]);
        push_str(&mut s, c.as_str());
        push_str(&mut s, ",)");
        return s;
    }
    let mut parts: Vec<String> = Vec::new();
    let mut i: usize = 0;
    while i < cells.len()
        invariant
            i <= cells.len(),
            string_views(parts@) == cells@.take(i as int).map_values(|c: SqlCell| cell_text(c)),
        decreases cells.len() - i,
    {
        let ghost before = string_views(parts@);
        parts.push(cell_string(&cells[i]));
        assert(string_views(parts@) =~= before.push(cell_text(cells@[i as int])));
        assert(cells@.take(i as int + 1).map_values(|c: SqlCell| cell_text(c))
            =~= cells@.take(i as int).map_values(|c: SqlCell| cell_text(c)).push(cell_text(cells@[i as int])));
        i += 1;
    }
    assert(cells@.take(cells.len() as int) == cells@);
    let j = join_strings(&parts, ", ");
    push_str(&mut s, j.as_str());
    push_str(&mut s, ")");
    s
}

/// The reply to `/sql`: the rows (one per line) or `Error: ` and the error, in a
/// SQL code block; a jailed user gets no query run.
pub open spec fn sql_reply_spec(naughty: bool, result: Result<Seq<Seq<char>>, Seq<char>>) -> Seq<char> {
    let body = if naughty {
        "Your SQL privileges have been revoked while in jail"@
    } else {
        match result {
            Ok(rows) => join(rows, "\n"@),
            Err(e) => "Error: "@ + e,
        }
    };
    "```sql\n"@ + body + "\n```"@
}

/// The reply to `/sql` from the rows the query gave, each already written by
/// [`sql_row_text`], or the error's text (see [`sql_reply_spec`]).
pub fn sql_reply(naughty: bool, result: &Result<Vec<String>, String>) -> (r: String)
    ensures
        r@ == sql_reply_spec(naughty, match result { Ok(rows) => Ok(string_views(rows@)), Err(e) => Err(e@) }),
{
    let mut s = String::new();
    push_str(&mut s, "```sql\n");
    if naughty {
        push_str(&mut s, "Your SQL privileges have been revoked while in jail");
    } else {
        match result {
            Ok(rows) => {
                let j = join_strings(rows, "\n");
                push_str(&mut s, j.as_str());
            },
            Err(e) => {
                push_str(&mut s, "Error: ");
                push_str(&mut s, e.as_str());
            },
        }
    }
    push_str(&mut s, "\n```");
    s
}

/// `<@id>`: how Discord writes a mention of the user `id`.
pub open spec fn mention_of(id: int) -> Seq<char> {
    "<@"@ + decimal_int(id) + ">"@
}

fn push_mention(s: &mut String, id: i64)
    ensures
        final(s)@ == old(s)@ + mention_of(id as int),
{
    push_str(s, "<@");
    let d = i64_decimal(id);
    push_chars(s, d.as_slice());
    push_str(s, ">");
}

/// The reply to `/sayquote` for a saved quote: the quote and who said it.
pub fn sayquote_text(user_id: i64, quote: &str) -> (r: String)
    ensures
        r@ == quote@ + " --"@ + mention_of(user_id as int),
{
    let mut s = String::new();
    push_str(&mut s, quote);
    push_str(&mut s, " --");
    push_mention(&mut s, user_id);
    s
}

/// The lines of `/quotestats`, one per (user, count).
pub open spec fn quotestats_spec(rows: Seq<(i64, i64)>) -> Seq<char>
    decreases rows.len(),
{
    if rows.len() == 0 {
        Seq::empty()
    } else {
        quotestats_spec(rows.drop_last()) + mention_of(rows.last().0 as int) + " has been quoted "@
            + decimal_int(rows.last().1 as int) + " times\n"@
    }
}

/// The reply to `/quotestats` (see [`quotestats_spec`]).
pub fn quotestats_text(rows: &Vec<(i64, i64)>) -> (r: String)
    ensures
        r@ == quotestats_spec(rows@),
{
    let mut s = String::new();
    let mut i: usize = 0;
    while i < rows.len()
        invariant
            i <= rows.len(),
            s@ == quotestats_spec(rows@.take(i as int)),
        decreases rows.len() - i,
    {
        assert(rows@.take(i as int + 1).drop_last() == rows@.take(i as int));
        let (uid, count) = rows[i];
        push_mention(&mut s, uid);
        push_str(&mut s, " has been quoted ");
        let d = i64_decimal(count);
        push_chars(&mut s, d.as_slice());
        push_str(&mut s, " times\n");
        i += 1;
    }
    assert(rows@.take(rows.len() as int) == rows@);
    s
}

/// One line of `/quotedump`: who, a tab, and the quote.
pub open spec fn dump_line(row: (i64, Seq<char>)) -> Seq<char> {
    mention_of(row.0 as int) + "\t"@ + row.1
}

/// The reply to `/quotedump`: every saved quote, one per line.
pub fn quotedump_text(rows: &Vec<(i64, String)>) -> (r: String)
    ensures
        r@ == join(rows@.map_values(|row: (i64, String)| dump_line((row.0, row.1@))), "\n"@),
{
    let mut lines: Vec<String> = Vec::new();
    let mut i: usize = 0;
    while i < rows.len()
        invariant
            i <= rows.len(),
            string_views(lines@) == rows@.take(i as int).map_values(|row: (i64, String)| dump_line((row.0, row.1@))),
        decreases rows.len() - i,
    {
        let mut line = String::new();
        push_mention(&mut line, rows[i].0);
        push_str(&mut line, "\t");
        push_str(&mut line, rows[i].1.as_str());
        let ghost before = string_views(lines@);
        let ghost lv = line@;
        assert(lv == dump_line((rows@[i as int].0, rows@[i as int].1@)));
        lines.push(line);
        assert(string_views(lines@) =~= before.push(lv));
        assert(rows@.take(i as int + 1).map_values(|row: (i64, String)| dump_line((row.0, row.1@)))
            =~= rows@.take(i as int).map_values(|row: (i64, String)| dump_line((row.0, row.1@))).push(lv));
        i += 1;
    }
    assert(rows@.take(rows.len() as int) == rows@);
    join_strings(&lines, "\n")
}

/// The reply to `/id`: the mentioned ids, one per quoted line; none without a
/// mention.
pub fn id_reply(mentions: &Vec<u64>) -> (r: Option<String>)
    ensures
        mentions@.len() == 0 ==> r is None,
        mentions@.len() > 0 ==> r is Some && r->0@ == "> "@ + join(mentions@.map_values(|m: u64| decimal(m as nat)), "\n > "@),
{
    if mentions.len() == 0 {
        return None;
    }
    let mut parts: Vec<String> = Vec::new();
    let mut i: usize = 0;
    while i < mentions.len()
        invariant
            i <= mentions.len(),
            string_views(parts@) == mentions@.take(i as int).map_values(|m: u64| decimal(m as nat)),
        decreases mentions.len() - i,
    {
        let d = u64_decimal(mentions[i]);
        let ghost before = string_views(parts@);
        parts.push(chars_to_string(d.as_slice()));
        assert(string_views(parts@) =~= before.push(decimal(mentions@[i as int] as nat)));
        assert(mentions@.take(i as int + 1).map_values(|m: u64| decimal(m as nat))
            =~= mentions@.take(i as int).map_values(|m: u64| decimal(m as nat)).push(decimal(mentions@[i as int] as nat)));
        i += 1;
    }
    assert(mentions@.take(mentions.len() as int) == mentions@);
    let mut s = String::new();
    push_str(&mut s, "> ");
    let j = join_strings(&parts, "\n > ");
    push_str(&mut s, j.as_str());
    Some(s)
}

// ---------------------------------------------------------------------------
// /haiku
// ---------------------------------------------------------------------------

/// The messages of `target` in `history` (author, content) that have more than
/// four space-separated words, in order.
pub open spec fn muse_messages(history: Seq<(u64, Seq<char>)>, target: u64) -> Seq<Seq<char>>
    decreases history.len(),
{
    if history.len() == 0 {
        Seq::empty()
    } else {
        let rest = muse_messages(history.drop_last(), target);
        let m = history.last();
        if m.0 == target && split_on(m.1, ' ').len() > 4 { rest.push(m.1) } else { rest }
    }
}

/// The history as (author, text) pairs of views.
pub open spec fn history_view(h: Seq<(u64, String)>) -> Seq<(u64, Seq<char>)> {
    h.map_values(|m: (u64, String)| (m.0, m.1@))
}

/// The training text for a haiku in the style of `target`: their messages of more
/// than four words, joined with spaces.
pub fn haiku_source(history: &Vec<(u64, String)>, target: u64) -> (r: String)
    ensures
        r@ == join(muse_messages(history_view(history@), target), " "@),
{
    let ghost hv = history_view(history@);
    let mut picked: Vec<String> = Vec::new();
    let mut i: usize = 0;
    while i < history.len()
        invariant
            i <= history.len(),
            hv == history_view(history@),
            string_views(picked@) == muse_messages(hv.take(i as int), target),
        decreases history.len() - i,
    {
        assert(hv.take(i as int + 1).drop_last() == hv.take(i as int));
        assert(hv.take(i as int + 1).last() == (history@[i as int].0, history@[i as int].1@));
        let v = str_to_chars(history[i].1.as_str());
        let words = split_chars(v.as_slice(), ' ');
        if history[i].0 == target && words.len() > 4 {
            let ghost before = string_views(picked@);
            picked.push(chars_to_string(v.as_slice()));
            assert(string_views(picked@) =~= before.push(history@[i as int].1@));
        }
        i += 1;
    }
    assert(hv.take(history.len() as int) == hv);
    join_strings(&picked, " ")
}

/// The lines of a haiku, each of words, as a block quote: words joined with
/// spaces, lines with a newline and `> `.
pub open spec fn haiku_text(lines: Seq<Seq<Seq<char>>>) -> Seq<char> {
    "> "@ + join(lines.map_values(|l: Seq<Seq<char>>| join(l, " "@)), "\n> "@)
}

/// The reply when no haiku came of the draw, with its error text `e`.
pub open spec fn no_haiku_text(e: Seq<char>) -> Seq<char> {
    "Inspiration eludes me, or "@ + e + " one of the two..."@
}

/// The reply when `/haiku` names nobody.
pub open spec fn no_muse_text() -> Seq<char> {
    "I need a muse. @somebody, fool."@
}

/// What a successful haiku draw gives for the training text `training`: three lines
/// of 5, 7 and 5 syllables of words of its corpus, chained as the draws give them
/// (see [`drawn_haiku`]).
pub open spec fn haiku_fits(m: CmuModel, training: Seq<char>, lines: Seq<Seq<Seq<char>>>) -> bool {
    &&& lines.len() == 3
    &&& drawn_haiku(m, corpus_of(m, training), lines[0], lines[1], lines[2])
    &&& line_syllables(m, lines[0]) == 5
    &&& line_syllables(m, lines[1]) == 7
    &&& line_syllables(m, lines[2]) == 5
    &&& forall|k: int| 0 <= k < 3 ==> all_in(#[trigger] lines[k], corpus_of(m, training))
}

/// The reply to `/haiku` with the mentioned ids and the channel's history: no muse
/// without a mention; else a haiku drawn from the first mentioned user's longer
/// messages, or the error of the draw (see [`gen_haiku`]).
pub fn haiku_reply(cmu: &CmuDict, mentions: &Vec<u64>, history: &Vec<(u64, String)>) -> (r: String)
    ensures
        mentions@.len() == 0 ==> r@ == no_muse_text(),
        mentions@.len() > 0 ==> {
            let training = join(muse_messages(history_view(history@), mentions@[0]), " "@);
            let c = corpus_of(cmu.model(), training);
            &&& (exists|lines: Seq<Seq<Seq<char>>>| haiku_fits(cmu.model(), training, lines) && r@ == haiku_text(lines))
                || (c.len() == 0 && r@ == no_haiku_text(empty_choice_error()))
                || (c.len() > 0 && r@ == no_haiku_text(recursion_error())
                    && haiku_gave_up(cmu.model(), c))
            &&& c.len() == 0 ==> r@ == no_haiku_text(empty_choice_error())
            &&& c.len() == 1 ==> r@ == no_haiku_text(recursion_error())
            &&& haiku_owed(cmu.model(), c) ==> exists|lines: Seq<Seq<Seq<char>>>| haiku_fits(cmu.model(), training, lines)
                && r@ == haiku_text(lines)
        },
{
    let mut s = String::new();
    if mentions.len() == 0 {
        push_str(&mut s, "I need a muse. @somebody, fool.");
        return s;
    }
    let training = haiku_source(history, mentions[0]);
    match gen_haiku(cmu, training.as_str()) {
        Ok(lines) => {
            let ghost lv = lines@.map_values(|l: Vec<String>| string_views(l@));
            let mut joined: Vec<String> = Vec::new();
            let mut i: usize = 0;
            while i < lines.len()
                invariant
                    i <= lines.len(),
                    lv == lines@.map_values(|l: Vec<String>| string_views(l@)),
                    string_views(joined@) == lv.take(i as int).map_values(|l: Seq<Seq<char>>| join(l, " "@)),
                decreases lines.len() - i,
            {
                let ghost before = string_views(joined@);
                joined.push(join_strings(&lines[i], " "));
                assert(string_views(joined@) =~= before.push(join(lv[i as int], " "@)));
                assert(lv.take(i as int + 1).map_values(|l: Seq<Seq<char>>| join(l, " "@))
                    =~= lv.take(i as int).map_values(|l: Seq<Seq<char>>| join(l, " "@)).push(join(lv[i as int], " "@)));
                i += 1;
            }
            assert(lv.take(lines.len() as int) == lv);
            push_str(&mut s, "> ");
            let j = join_strings(&joined, "\n> ");
            push_str(&mut s, j.as_str());
            assert(haiku_fits(cmu.model(), training@, lv)) by {
                assert(lines@.len() == 3);
                assert(lv[0] == string_views(lines@[0]@));
                assert(lv[1] == string_views(lines@[1]@));
                assert(lv[2] == string_views(lines@[2]@));
                assert forall|k: int| 0 <= k < 3 implies all_in(#[trigger] lv[k], corpus_of(cmu.model(), training@)) by {
                    assert(lv[k] == string_views(lines@[k]@));
                }
            }
            assert(s@ =~= haiku_text(lv));
        },
        Err(e) => {
            push_str(&mut s, "Inspiration eludes me, or ");
            push_str(&mut s, e.as_str());
            push_str(&mut s, " one of the two...");
        },
    }
    s
}

// ---------------------------------------------------------------------------
// /select and /roll
// ---------------------------------------------------------------------------

/// Whether a purchase brings good fortune: one time in ten.
pub fn select_luck() -> (r: bool) {
    random_below(10) == 0
}

/// The replies to `/select` for the item `item`, lucky or not.
pub open spec fn select_spec(item: Seq<char>, lucky: bool) -> Seq<Seq<char>> {
    if lucky {
        seq!["You have selected the "@ + item + ". The "@ + item + " brings you peace and prosperity."@,
             "The "@ + item + " has broken. You shouldn't have bought it."@]
    } else {
        seq!["You have selected the "@ + item + ". You have been cursed by the "@ + item + ". You shouldn't have bought it."@]
    }
}

/// The replies to `/select a b c d`: none unless all four words are given, else
/// those of [`select_spec`] for the words joined with spaces.
pub fn select_replies(arg1: &str, arg2: Option<&str>, arg3: Option<&str>, arg4: Option<&str>, lucky: bool) -> (r: Vec<String>)
    ensures
        (arg2 is None || arg3 is None || arg4 is None) ==> r@.len() == 0,
        (arg2 is Some && arg3 is Some && arg4 is Some) ==> string_views(r@) == select_spec(
            arg1@ + " "@ + arg2->0@ + " "@ + arg3->0@ + " "@ + arg4->0@, lucky),
{
    let mut r: Vec<String> = Vec::new();
    let (a2, a3, a4) = match (arg2, arg3, arg4) {
        (Some(a2), Some(a3), Some(a4)) => (a2, a3, a4),
        _ => return r,
    };
    let mut item = String::new();
    push_str(&mut item, arg1);
    push_str(&mut item, " ");
    push_str(&mut item, a2);
    push_str(&mut item, " ");
    push_str(&mut item, a3);
    push_str(&mut item, " ");
    push_str(&mut item, a4);
    let mut m = String::new();
    push_str(&mut m, "You have selected the ");
    push_str(&mut m, item.as_str());
    if lucky {
        push_str(&mut m, ". The ");
        push_str(&mut m, item.as_str());
        push_str(&mut m, " brings you peace and prosperity.");
        let mut m2 = String::new();
        push_str(&mut m2, "The ");
        push_str(&mut m2, item.as_str());
        push_str(&mut m2, " has broken. You shouldn't have bought it.");
        assert(m@ =~= select_spec(item@, lucky)[0]);
        assert(m2@ =~= select_spec(item@, lucky)[1]);
        r.push(m);
        r.push(m2);
    } else {
        push_str(&mut m, ". You have been cursed by the ");
        push_str(&mut m, item.as_str());
        push_str(&mut m, ". You shouldn't have bought it.");
        assert(m@ =~= select_spec(item@, lucky)[0]);
        r.push(m);
    }
    assert(item@ =~= arg1@ + " "@ + a2@ + " "@ + a3@ + " "@ + a4@);
    assert(string_views(r@) =~= select_spec(item@, lucky));
    r
}

/// `/roll` without dice: a number from 1 to 100.
pub fn roll_default() -> (r: i64)
    ensures
        1 <= r <= 100,
{
    (random_below(100) + 1) as i64
}

/// The reply to a dice roll: the rolls, and the total as text.
pub fn roll_reply(rolls: &Vec<String>, total: &str) -> (r: String)
    ensures
        r@ == "I rolled: "@ + join(string_views(rolls@), " "@) + ", result: "@ + total@,
{
    let mut s = String::new();
    push_str(&mut s, "I rolled: ");
    let j = join_strings(rolls, " ");
    push_str(&mut s, j.as_str());
    push_str(&mut s, ", result: ");
    push_str(&mut s, total);
    s
}

} // verus!
