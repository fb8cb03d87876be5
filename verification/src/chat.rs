//! The conversational side of the bot: splitting long replies into Discord-sized
//! messages, the rolling conversation context, and the prompts and canned
//! replies around the model calls.

use vstd::prelude::*;
use crate::text::{push_str, str_eq, chars_to_string, join, join_strings};
use crate::botself::{BotSelf, bot_mention, bot_id_spec};
use crate::text::decimal;
use crate::text::{seq_contains, str_contains};
use crate::random::random_below;
use crate::text::{append_chars, char_views, lemma_split_on_join, lemma_split_on_nonempty, lemma_trim_end_take, lemma_trim_start_skip, split_chars, split_on, str_to_chars, string_views, to_strings, trim, trim_chars, trim_end, trim_start, class_has, CharClass};

verus! {

// ---------------------------------------------------------------------------
// Message splitting
// ---------------------------------------------------------------------------

/// `p` cut into consecutive pieces of `limit` characters, the last one shorter.
pub open spec fn chunks(p: Seq<char>, limit: nat) -> Seq<Seq<char>>
    decreases p.len(),
{
    if p.len() == 0 || limit == 0 {
        Seq::empty()
    } else if p.len() <= limit {
        seq![p]
    } else {
        seq![p.take(limit as int)] + chunks(p.skip(limit as int), limit)
    }
}

/// One paragraph folded into the (messages so far, current chunk) state.
pub open spec fn split_step(
    state: (Seq<Seq<char>>, Seq<char>),
    paragraph: Seq<char>,
    limit: nat,
) -> (Seq<Seq<char>>, Seq<char>) {
    let msgs = state.0;
    let cur = state.1;
    if cur.len() + paragraph.len() + 1 > limit {
        let flushed = if cur.len() > 0 {
            msgs.push(trim(cur, CharClass::Whitespace))
        } else {
            msgs
        };
        if paragraph.len() > limit {
            (flushed + chunks(paragraph, limit), Seq::empty())
        } else {
            (flushed, paragraph.push('\n'))
        }
    } else {
        (msgs, cur + paragraph.push('\n'))
    }
}

/// The state after folding in every paragraph of `paras`, first to last.
pub open spec fn split_state(paras: Seq<Seq<char>>, limit: nat) -> (Seq<Seq<char>>, Seq<char>)
    decreases paras.len(),
{
    if paras.len() == 0 {
        (Seq::empty(), Seq::empty())
    } else {
        split_step(split_state(paras.drop_last(), limit), paras.last(), limit)
    }
}

/// The messages `auto_split_messages` produces: the lines of `text` packed
/// greedily into chunks that fit `limit` together with their line breaks, each
/// chunk trimmed; a line longer than `limit` is cut into `limit`-sized pieces.
pub open spec fn auto_split(text: Seq<char>, limit: nat) -> Seq<Seq<char>> {
    let st = split_state(split_on(text, '\n'), limit);
    if st.1.len() > 0 {
        st.0.push(trim(st.1, CharClass::Whitespace))
    } else {
        st.0
    }
}

/// Splits a reply into messages of at most `limit` characters (see [`auto_split`]).
pub fn auto_split_messages(text: &str, limit: usize) -> (r: Vec<String>)
    requires
        limit > 0,
    ensures
        string_views(r@) == auto_split(text@, limit as nat),
        forall|k: int| 0 <= k < r@.len() ==> (#[trigger] r@[k])@.len() <= limit,
{
    let chars = str_to_chars(text);
    let paras = split_chars(chars.as_slice(), '\n');
    let mut messages: Vec<Vec<char>> = Vec::new();
    let mut cur: Vec<char> = Vec::new();
    let mut i: usize = 0;
    while i < paras.len()
        invariant
            limit > 0,
            i <= paras.len(),
            char_views(paras@) == split_on(text@, '\n'),
            (char_views(messages@), cur@) == split_state(char_views(paras@).take(i as int), limit as nat),
        decreases paras.len() - i,
    {
        let ghost before = char_views(paras@).take(i as int);
        assert(char_views(paras@).take(i as int + 1).drop_last() == before);
        assert(char_views(paras@).take(i as int + 1).last() == paras@[i as int]@);
        let p = &paras[i];
        let cclen = cur.len();
        let plen = p.len();
        if (cclen as u128) + (plen as u128) + 1 > (limit as u128) {
            if cclen > 0 {
                let t = trim_chars(cur.as_slice(), &CharClass::Whitespace);
                messages.push(t);
                cur = Vec::new();
            }
            if plen > limit {
                let mut start: usize = 0;
                let ghost base = char_views(messages@);
                assert(p@.skip(0) == p@);
                while start < plen
                    invariant
                        limit > 0,
                        plen == p@.len(),
                        start <= plen,
                        plen > limit,
                        char_views(messages@) + chunks(p@.skip(start as int), limit as nat) == base + chunks(p@, limit as nat),
                    decreases plen - start,
                {
                    let end: usize = if plen - start > limit { start + limit } else { plen };
                    let mut piece: Vec<char> = Vec::new();
                    let mut k: usize = start;
                    while k < end
                        invariant
                            start <= k <= end <= plen,
                            plen == p@.len(),
                            piece@ == p@.subrange(start as int, k as int),
                        decreases end - k,
                    {
                        piece.push(p[k]);
                        assert(p@.subrange(start as int, k as int + 1) == p@.subrange(start as int, k as int).push(p@[k as int]));
                        k += 1;
                    }
                    let ghost rest = p@.skip(start as int);
                    assert(rest.len() > 0);
                    if plen - start > limit {
                        assert(rest.take(limit as int) =~= piece@);
                        assert(rest.skip(limit as int) =~= p@.skip(end as int));
                        assert(chunks(rest, limit as nat) == seq![rest.take(limit as int)] + chunks(rest.skip(limit as int), limit as nat));
                    } else {
                        assert(rest =~= piece@);
                        assert(p@.skip(end as int).len() == 0);
                        assert(chunks(p@.skip(end as int), limit as nat) =~= Seq::<Seq<char>>::empty());
                    }
                    let ghost m0 = char_views(messages@);
                    messages.push(piece);
                    assert(char_views(messages@) =~= m0.push(p@.subrange(start as int, end as int)));
                    assert(char_views(messages@) + chunks(p@.skip(end as int), limit as nat) =~= m0 + chunks(rest, limit as nat));
                    start = end;
                }
                assert(p@.skip(plen as int).len() == 0);
                assert(chunks(p@.skip(plen as int), limit as nat) =~= Seq::<Seq<char>>::empty());
                assert(char_views(messages@) =~= base + chunks(p@, limit as nat));
            } else {
                let mut next: Vec<char> = Vec::new();
                append_chars(&mut next, p.as_slice());
                next.push('\n');
                cur = next;
            }
        } else {
            append_chars(&mut cur, p.as_slice());
            cur.push('\n');
        }
        assert((char_views(messages@), cur@) == split_state(char_views(paras@).take(i as int + 1), limit as nat));
        i += 1;
    }
    assert(char_views(paras@).take(paras.len() as int) == char_views(paras@));
    let ghost st = (char_views(messages@), cur@);
    if cur.len() > 0 {
        let t = trim_chars(cur.as_slice(), &CharClass::Whitespace);
        messages.push(t);
        assert(char_views(messages@) =~= st.0.push(trim(st.1, CharClass::Whitespace)));
    }
    assert(char_views(messages@) == auto_split(text@, limit as nat));
    let r = to_strings(&messages);
    proof {
        lemma_auto_split_bounded(text@, limit as nat);
        assert forall|k: int| 0 <= k < r@.len() implies (#[trigger] r@[k])@.len() <= limit by {
            assert(string_views(r@)[k] == r@[k]@);
            assert(auto_split(text@, limit as nat)[k].len() <= limit);
        }
    }
    r
}

// ---------------------------------------------------------------------------
// The length bound
// ---------------------------------------------------------------------------

pub proof fn lemma_trim_start_len(s: Seq<char>, cls: CharClass)
    ensures
        trim_start(s, cls).len() <= s.len(),
    decreases s.len(),
{
    if s.len() > 0 && class_has(cls, s[0]) {
        lemma_trim_start_len(s.drop_first(), cls);
    }
}

pub proof fn lemma_trim_end_len(s: Seq<char>, cls: CharClass)
    ensures
        trim_end(s, cls).len() <= s.len(),
        s.len() > 0 && class_has(cls, s.last()) ==> trim_end(s, cls).len() < s.len(),
    decreases s.len(),
{
    if s.len() > 0 && class_has(cls, s.last()) {
        lemma_trim_end_len(s.drop_last(), cls);
    }
}

pub proof fn lemma_trim_start_keeps_last(s: Seq<char>, cls: CharClass)
    requires
        s.len() > 0,
        class_has(cls, s.last()),
    ensures
        trim_start(s, cls).len() == 0 || trim_start(s, cls).last() == s.last(),
    decreases s.len(),
{
    if class_has(cls, s[0]) {
        if s.len() > 1 {
            assert(s.drop_first().last() == s.last());
            lemma_trim_start_keeps_last(s.drop_first(), cls);
        } else {
            assert(s.drop_first().len() == 0);
            assert(trim_start(s.drop_first(), cls) == s.drop_first());
        }
    }
}

/// Trimming a chunk that ends in a line break leaves at most one character fewer.
pub proof fn lemma_trim_newline_chunk(s: Seq<char>)
    requires
        s.len() > 0,
        s.last() == '\n',
    ensures
        trim(s, CharClass::Whitespace).len() < s.len(),
{
    lemma_trim_start_len(s, CharClass::Whitespace);
    lemma_trim_start_keeps_last(s, CharClass::Whitespace);
    let t = trim_start(s, CharClass::Whitespace);
    lemma_trim_end_len(t, CharClass::Whitespace);
}

pub proof fn lemma_chunks_bounded(p: Seq<char>, limit: nat)
    ensures
        forall|k: int| 0 <= k < chunks(p, limit).len() ==> (#[trigger] chunks(p, limit)[k]).len() <= limit,
    decreases p.len(),
{
    if p.len() == 0 || limit == 0 {
    } else if p.len() <= limit {
    } else {
        lemma_chunks_bounded(p.skip(limit as int), limit);
        let rest = chunks(p.skip(limit as int), limit);
        assert forall|k: int| 0 <= k < chunks(p, limit).len() implies (#[trigger] chunks(p, limit)[k]).len() <= limit by {
            if k > 0 {
                assert(chunks(p, limit)[k] == rest[k - 1]);
            }
        }
    }
}

pub open spec fn all_within(msgs: Seq<Seq<char>>, limit: nat) -> bool {
    forall|k: int| 0 <= k < msgs.len() ==> (#[trigger] msgs[k]).len() <= limit
}

pub proof fn lemma_split_state_bounded(paras: Seq<Seq<char>>, limit: nat)
    requires
        limit > 0,
    ensures
        all_within(split_state(paras, limit).0, limit),
        split_state(paras, limit).1.len() == 0 || (split_state(paras, limit).1.last() == '\n'
            && split_state(paras, limit).1.len() <= limit + 1),
    decreases paras.len(),
{
    if paras.len() > 0 {
        lemma_split_state_bounded(paras.drop_last(), limit);
        let st = split_state(paras.drop_last(), limit);
        let p = paras.last();
        if st.1.len() + p.len() + 1 > limit {
            let flushed = if st.1.len() > 0 {
                st.0.push(trim(st.1, CharClass::Whitespace))
            } else {
                st.0
            };
            if st.1.len() > 0 {
                lemma_trim_newline_chunk(st.1);
            }
            assert(all_within(flushed, limit)) by {
                assert forall|k: int| 0 <= k < flushed.len() implies (#[trigger] flushed[k]).len() <= limit by {
                    if k < st.0.len() {
                        assert(flushed[k] == st.0[k]);
                    }
                }
            }
            if p.len() > limit {
                lemma_chunks_bounded(p, limit);
                let c = chunks(p, limit);
                assert forall|k: int| 0 <= k < (flushed + c).len() implies (#[trigger] (flushed + c)[k]).len() <= limit by {
                    if k < flushed.len() {
                        assert((flushed + c)[k] == flushed[k]);
                    } else {
                        assert((flushed + c)[k] == c[k - flushed.len()]);
                    }
                }
            }
        } else {
            let cur = st.1 + p.push('\n');
            assert(cur.last() == '\n');
        }
    }
}

/// No message produced by [`auto_split`] is longer than `limit` characters.
pub proof fn lemma_auto_split_bounded(text: Seq<char>, limit: nat)
    requires
        limit > 0,
    ensures
        all_within(auto_split(text, limit), limit),
{
    let st = split_state(split_on(text, '\n'), limit);
    lemma_split_state_bounded(split_on(text, '\n'), limit);
    if st.1.len() > 0 {
        lemma_trim_newline_chunk(st.1);
        let r = st.0.push(trim(st.1, CharClass::Whitespace));
        assert forall|k: int| 0 <= k < r.len() implies (#[trigger] r[k]).len() <= limit by {
            if k < st.0.len() {
                assert(r[k] == st.0[k]);
            }
        }
    }
}

// ---------------------------------------------------------------------------
// Rejoining
// ---------------------------------------------------------------------------

/// A line that fits `limit`, is not empty and holds no white space.
pub open spec fn plain_line(l: Seq<char>, limit: nat) -> bool {
    &&& 0 < l.len() <= limit
    &&& forall|i: int| 0 <= i < l.len() ==> !class_has(CharClass::Whitespace, #[trigger] l[i])
}

/// Text that starts and ends with a character other than white space.
pub open spec fn solid(g: Seq<char>) -> bool {
    g.len() > 0 && !class_has(CharClass::Whitespace, g[0]) && !class_has(CharClass::Whitespace, g.last())
}

pub proof fn lemma_join_push(s: Seq<Seq<char>>, x: Seq<char>, sep: Seq<char>)
    ensures
        join(s.push(x), sep) == if s.len() == 0 { x } else { join(s, sep) + sep + x },
{
    assert(s.push(x).drop_last() == s);
}

/// A group of lines with its closing line break, trimmed, loses just that break.
pub proof fn lemma_trim_group(g: Seq<char>)
    requires
        solid(g),
    ensures
        trim(g.push('\n'), CharClass::Whitespace) == g,
{
    let c = g.push('\n');
    lemma_trim_start_skip(c, CharClass::Whitespace, 0);
    assert(c.skip(0) == c);
    lemma_trim_end_take(c, CharClass::Whitespace, g.len() as int);
    assert(c.take(g.len() as int) == g);
}

/// Folding plain lines leaves a pending group that ends in a line break, and the
/// messages with that group, joined by line breaks, are the lines joined.
pub proof fn lemma_split_state_rejoin(paras: Seq<Seq<char>>, limit: nat)
    requires
        limit >= 1,
        paras.len() >= 1,
        forall|k: int| 0 <= k < paras.len() ==> plain_line(#[trigger] paras[k], limit),
    ensures
        split_state(paras, limit).1.len() >= 1,
        split_state(paras, limit).1.last() == '\n',
        solid(split_state(paras, limit).1.drop_last()),
        join(split_state(paras, limit).0.push(split_state(paras, limit).1.drop_last()), seq!['\n']) == join(paras, seq!['\n']),
    decreases paras.len(),
{
    let p = paras.last();
    assert(plain_line(paras[paras.len() - 1], limit));
    assert(!class_has(CharClass::Whitespace, p[0]));
    assert(!class_has(CharClass::Whitespace, p[p.len() - 1]));
    let sep = seq!['\n'];
    if paras.len() == 1 {
        assert(paras.drop_last().len() == 0);
        let st = split_state(paras, limit);
        assert(Seq::<char>::empty() + p.push('\n') =~= p.push('\n'));
        assert(st.1 == p.push('\n'));
        assert(st.1.drop_last() == p);
        assert(st.0 == Seq::<Seq<char>>::empty());
        lemma_join_push(Seq::<Seq<char>>::empty(), p, sep);
    } else {
        let rest = paras.drop_last();
        assert forall|k: int| 0 <= k < rest.len() implies plain_line(#[trigger] rest[k], limit) by {
            assert(rest[k] == paras[k]);
        }
        lemma_split_state_rejoin(rest, limit);
        let st0 = split_state(rest, limit);
        let cur = st0.1;
        let g = cur.drop_last();
        assert(cur == g.push('\n'));
        lemma_join_push(st0.0.push(g), p, sep);
        assert(join(paras, sep) == join(rest, sep) + sep + p);
        if cur.len() + p.len() + 1 > limit {
            lemma_trim_group(g);
            let flushed = st0.0.push(g);
            assert(split_state(paras, limit) == (flushed, p.push('\n')));
            assert(p.push('\n').drop_last() == p);
        } else {
            let cur2 = cur + p.push('\n');
            assert(split_state(paras, limit) == (st0.0, cur2));
            let g2 = g + sep + p;
            assert(cur2.drop_last() =~= g2);
            assert(g2[0] == g[0]);
            assert(g2.last() == p.last());
            lemma_join_push(st0.0, g, sep);
            lemma_join_push(st0.0, g2, sep);
            if st0.0.len() == 0 {
                assert(join(st0.0.push(g2), sep) == g2);
            } else {
                assert(join(st0.0.push(g2), sep) =~= join(st0.0.push(g), sep) + sep + p);
            }
        }
    }
}

/// The messages joined with line breaks give back the text when each of its
/// lines is plain: not empty, free of white space and within `limit` characters
/// (whole lines are grouped, never cut, dropped or reordered). The empty text
/// gives one empty message.
pub proof fn law_split_rejoins(text: Seq<char>, limit: nat)
    requires
        limit >= 1,
        text.len() == 0 || forall|k: int| 0 <= k < split_on(text, '\n').len()
            ==> plain_line(#[trigger] split_on(text, '\n')[k], limit),
    ensures
        join(auto_split(text, limit), seq!['\n']) == text,
{
    let paras = split_on(text, '\n');
    lemma_split_on_join(text, '\n');
    if text.len() == 0 {
        assert(paras == seq![Seq::<char>::empty()]);
        assert(paras.drop_last().len() == 0);
        let st = split_state(paras, limit);
        let e = Seq::<char>::empty();
        assert(split_state(paras.drop_last(), limit) == (Seq::<Seq<char>>::empty(), e));
        assert(paras.last() == e);
        assert(st == split_step((Seq::<Seq<char>>::empty(), e), e, limit));
        assert(e + e.push('\n') =~= seq!['\n']);
        assert(st.1 == seq!['\n']);
        assert(st.0 == Seq::<Seq<char>>::empty());
        assert(seq!['\n'].drop_first().len() == 0);
        assert(trim(seq!['\n'], CharClass::Whitespace) == Seq::<char>::empty()) by {
            lemma_trim_start_skip(seq!['\n'], CharClass::Whitespace, 1);
            assert(seq!['\n'].skip(1) =~= Seq::<char>::empty());
        }
        assert(auto_split(text, limit) == seq![Seq::<char>::empty()]);
    } else {
        lemma_split_on_nonempty(text, '\n');
        lemma_split_state_rejoin(paras, limit);
        let st = split_state(paras, limit);
        lemma_trim_group(st.1.drop_last());
        assert(st.1 == st.1.drop_last().push('\n'));
    }
}

// ---------------------------------------------------------------------------
// Personalities and prompts
// ---------------------------------------------------------------------------

/// The personalities a comeback is written in.
pub open spec fn personalities_spec() -> Seq<Seq<char>> {
    seq![
        "sarcastic wise-cracking stand up comedian"@,
        "irascible grumpy pirate who has run out of rum"@,
        "sassy, no-nonsense, tell-it-like-it-is friend"@,
        "horny, flirty, middle schooler"@,
        "paranoid conspiracy theorist"@,
        "pretentious, snobby, wine critic"@,
        "socially awkward genius"@,
        "1950s gangster who talks like a dame"@,
        "southern belle with a dirty mouth"@,
        "granola-eating, tree-hugging, nixon-hating 1960s hippie"@,
        "politician who will say anything to get elected"@,
    ]
}

/// The personalities (see [`personalities_spec`]).
pub fn personalities() -> (r: Vec<&'static str>)
    ensures
        r@.map_values(|p: &str| p@) == personalities_spec(),
{
    let mut v: Vec<&'static str> = Vec::new();
    v.push("sarcastic wise-cracking stand up comedian");
    v.push("irascible grumpy pirate who has run out of rum");
    v.push("sassy, no-nonsense, tell-it-like-it-is friend");
    v.push("horny, flirty, middle schooler");
    v.push("paranoid conspiracy theorist");
    v.push("pretentious, snobby, wine critic");
    v.push("socially awkward genius");
    v.push("1950s gangster who talks like a dame");
    v.push("southern belle with a dirty mouth");
    v.push("granola-eating, tree-hugging, nixon-hating 1960s hippie");
    v.push("politician who will say anything to get elected");
    assert(v@.map_values(|p: &str| p@) =~= personalities_spec());
    v
}

/// One of the personalities, drawn at random.
pub fn get_random_personality() -> (r: &'static str)
    ensures
        personalities_spec().contains(r@),
{
    let v = personalities();
    assert(v@.map_values(|p: &str| p@).len() == 11);
    let i = random_below(v.len());
    assert(v@.map_values(|p: &str| p@)[i as int] == v@[i as int]@);
    v[i]
}

/// The extra instructions of the day (`today` as `MM-DD`): Rick Astley on April
/// 1, 420 on April 20, the numbers of April 8 on that day.
pub open spec fn conditional_prompts_spec(today: Seq<char>) -> Seq<char> {
    (if today == "04-01"@ {
        " You are obsessed with Rick Astley and make reference to 'Never Gonna Give You Up' in every conversation"@
    } else { Seq::empty() })
    + (if today == "04-20"@ {
        " You make obnoxious references to 420, 'trees', and 'weed' in every conversation, tuned specifically to make someone's dad annoyed"@
    } else { Seq::empty() })
    + (if today == "04-08"@ {
        " You're obsessed with April 8, the numbers 4, 8, 84, and 48, and make mention of these things whenever you can"@
    } else { Seq::empty() })
}

/// The extra instructions of the day (see [`conditional_prompts_spec`]).
pub fn get_conditional_prompts(today: &str) -> (r: String)
    ensures
        r@ == conditional_prompts_spec(today@),
{
    let mut s = String::new();
    if str_eq(today, "04-01") {
        push_str(&mut s, " You are obsessed with Rick Astley and make reference to 'Never Gonna Give You Up' in every conversation");
    }
    let ghost a = s@;
    if str_eq(today, "04-20") {
        push_str(&mut s, " You make obnoxious references to 420, 'trees', and 'weed' in every conversation, tuned specifically to make someone's dad annoyed");
    }
    let ghost b = s@;
    if str_eq(today, "04-08") {
        push_str(&mut s, " You're obsessed with April 8, the numbers 4, 8, 84, and 48, and make mention of these things whenever you can");
    }
    assert(s@ =~= conditional_prompts_spec(today@));
    s
}

/// The bot's standing instructions: who it is, with its mention, and the day's
/// extra instructions.
pub open spec fn personality_spec(bot: Option<u64>, today: Seq<char>) -> Seq<char> {
    "Your name is WanBot, aka "@ + ("<@"@ + decimal(bot_id_spec(bot) as nat) + ">"@)
        + " and you are a helpful robot in a discord server with a keen sense of humor that does not inhibit your helpfulness "@
        + conditional_prompts_spec(today)
}

/// The bot's standing instructions (see [`personality_spec`]).
pub fn get_personality(bot: &BotSelf, today: &str) -> (r: String)
    ensures
        r@ == personality_spec(bot@, today@),
{
    let mut s = String::new();
    push_str(&mut s, "Your name is WanBot, aka ");
    let m = bot_mention(bot);
    push_str(&mut s, m.as_str());
    push_str(&mut s, " and you are a helpful robot in a discord server with a keen sense of humor that does not inhibit your helpfulness ");
    let c = get_conditional_prompts(today);
    push_str(&mut s, c.as_str());
    s
}

/// The canned comebacks to `msg`.
pub open spec fn comebacks_spec(msg: Seq<char>) -> Seq<Seq<char>> {
    seq![
        "that's what she said 😏"@,
        "your mom "@ + msg,
        "no you "@ + msg,
        "I know you are but what am I?"@,
        "🙄"@,
        "🤣"@,
    ]
}

/// The canned comeback number `k` (counted from 0) to `msg`.
pub fn comeback_at(msg: &str, k: usize) -> (r: String)
    requires
        k < 6,
    ensures
        r@ == comebacks_spec(msg@)[k as int],
{
    let mut s = String::new();
    if k == 0 {
        push_str(&mut s, "that's what she said 😏");
    } else if k == 1 {
        push_str(&mut s, "your mom ");
        push_str(&mut s, msg);
    } else if k == 2 {
        push_str(&mut s, "no you ");
        push_str(&mut s, msg);
    } else if k == 3 {
        push_str(&mut s, "I know you are but what am I?");
    } else if k == 4 {
        push_str(&mut s, "🙄");
    } else {
        push_str(&mut s, "🤣");
    }
    s
}

/// A canned comeback to `msg`, drawn at random (the fallback when no model reply
/// comes): the one that [`comeback_at`] gives for a draw below 6.
pub fn get_comeback(msg: &str) -> (r: String)
    ensures
        exists|k: int| 0 <= k < 6 && r@ == #[trigger] comebacks_spec(msg@)[k],
{
    let k = random_below(6);
    comeback_at(msg, k)
}

/// The cap on the length of the bot's conversational replies, told to the model.
pub open spec fn limit_context() -> Seq<char> {
    "responses absolutely cannot exceed 1800 characters"@
}

/// The system prompt of a conversational reply: the standing instructions and the
/// length cap.
pub fn conversation_system(bot: &BotSelf, today: &str) -> (r: String)
    ensures
        r@ == personality_spec(bot@, today@) + "\n\n"@ + limit_context(),
{
    let mut s = get_personality(bot, today);
    push_str(&mut s, "\n\n");
    push_str(&mut s, "responses absolutely cannot exceed 1800 characters");
    s
}

/// A system prompt with the long-term memory digest after it (separated by a
/// blank line), when there is one.
pub fn with_memory(system: &str, digest: &str) -> (r: String)
    ensures
        digest@.len() == 0 ==> r@ == system@,
        digest@.len() > 0 ==> r@ == system@ + "\n\n"@ + digest@,
{
    let mut s = String::new();
    push_str(&mut s, system);
    if !digest.is_empty() {
        push_str(&mut s, "\n\n");
        push_str(&mut s, digest);
    }
    s
}

/// The system prompt of the emoji reaction: the standing instructions and the
/// one-emoji rule.
pub fn reaction_system(bot: &BotSelf, today: &str) -> (r: String)
    ensures
        r@ == personality_spec(bot@, today@) + "\n\nOnly respond with a single emoji character, nothing else."@,
{
    let mut s = get_personality(bot, today);
    push_str(&mut s, "\n\nOnly respond with a single emoji character, nothing else.");
    s
}

/// The system prompt of the kind encouragement.
pub fn kindness_system(today: &str) -> (r: String)
    ensures
        r@ == "Your name is WanBot and you are a kind, empathetic, sincere, tender-hearted therapist dealing with a fragile patient"@
            + conditional_prompts_spec(today@),
{
    let mut s = String::new();
    push_str(&mut s, "Your name is WanBot and you are a kind, empathetic, sincere, tender-hearted therapist dealing with a fragile patient");
    let c = get_conditional_prompts(today);
    push_str(&mut s, c.as_str());
    s
}

/// The prompt kinds of the model requests, each a fixed text before the message.
pub enum PromptKind {
    Comeback,
    Tldr,
    Kindness,
    Person,
    Reaction,
}

/// The fixed text a prompt of each kind puts before the message.
pub open spec fn prompt_lead(kind: PromptKind) -> Seq<char> {
    match kind {
        PromptKind::Comeback => "write a short comeback to "@,
        PromptKind::Tldr => "write an extremely short and mildly flippant tldr summary of: "@,
        PromptKind::Kindness => "write a short bit of kind encouragement in response to "@,
        PromptKind::Person => "respond to someone saying "@,
        PromptKind::Reaction => "choose a single emoji as a reaction to the following message: "@,
    }
}

/// The user prompt of a model request of the given kind about `msg`.
pub fn prompt_for(kind: PromptKind, msg: &str) -> (r: String)
    ensures
        r@ == prompt_lead(kind) + msg@,
{
    let mut s = String::new();
    match kind {
        PromptKind::Comeback => push_str(&mut s, "write a short comeback to "),
        PromptKind::Tldr => push_str(&mut s, "write an extremely short and mildly flippant tldr summary of: "),
        PromptKind::Kindness => push_str(&mut s, "write a short bit of kind encouragement in response to "),
        PromptKind::Person => push_str(&mut s, "respond to someone saying "),
        PromptKind::Reaction => push_str(&mut s, "choose a single emoji as a reaction to the following message: "),
    }
    push_str(&mut s, msg);
    s
}

/// The system prompt of an answer in the given personality.
pub fn person_system(personality: &str) -> (r: String)
    ensures
        r@ == "You are "@ + personality@,
{
    let mut s = String::new();
    push_str(&mut s, "You are ");
    push_str(&mut s, personality);
    s
}

// ---------------------------------------------------------------------------
// The shared conversation context
// ---------------------------------------------------------------------------

/// How many messages the conversation context keeps.
pub const CONTEXT_BUFFER_SIZE: usize = 10;

/// The last `n` items of `s` (all of them when there are fewer).
pub open spec fn keep_last<A>(s: Seq<A>, n: nat) -> Seq<A> {
    if s.len() > n { s.skip(s.len() - n) } else { s }
}

/// The latest messages of the conversation, oldest first, as (role, content).
pub struct ContextBuffer {
    msgs: Vec<(String, String)>,
}

impl View for ContextBuffer {
    type V = Seq<(Seq<char>, Seq<char>)>;

    closed spec fn view(&self) -> Seq<(Seq<char>, Seq<char>)> {
        self.msgs@.map_values(|m: (String, String)| (m.0@, m.1@))
    }
}

impl ContextBuffer {
    #[verifier::type_invariant]
    closed spec fn bounded(self) -> bool {
        self.msgs@.len() <= CONTEXT_BUFFER_SIZE
    }

    /// An empty context.
    pub fn new() -> (r: ContextBuffer)
        ensures
            r@.len() == 0,
    {
        let r = ContextBuffer { msgs: Vec::new() };
        assert(r@ =~= Seq::empty());
        r
    }

    /// The messages, oldest first.
    pub fn messages(&self) -> (r: Vec<(String, String)>)
        ensures
            r@.map_values(|m: (String, String)| (m.0@, m.1@)) == self@,
            r@.len() <= CONTEXT_BUFFER_SIZE,
    {
        proof { use_type_invariant(self); }
        let mut r: Vec<(String, String)> = Vec::new();
        let mut i: usize = 0;
        while i < self.msgs.len()
            invariant
                i <= self.msgs@.len(),
                r@.map_values(|m: (String, String)| (m.0@, m.1@)) == self.msgs@.take(i as int).map_values(|m: (String, String)| (m.0@, m.1@)),
            decreases self.msgs.len() - i,
        {
            let mut a = String::new();
            push_str(&mut a, self.msgs[i].0.as_str());
            let mut b = String::new();
            push_str(&mut b, self.msgs[i].1.as_str());
            let ghost before = r@.map_values(|m: (String, String)| (m.0@, m.1@));
            let ghost item = (a@, b@);
            r.push((a, b));
            assert(r@.map_values(|m: (String, String)| (m.0@, m.1@)) =~= before.push(item));
            assert(self.msgs@.take(i as int + 1).map_values(|m: (String, String)| (m.0@, m.1@))
                =~= self.msgs@.take(i as int).map_values(|m: (String, String)| (m.0@, m.1@)).push(item));
            i += 1;
        }
        assert(self.msgs@.take(self.msgs@.len() as int) == self.msgs@);
        r
    }
}

/// `add_to_context(role, msg)`: the message joins the context at the end, and the
/// oldest leaves once more than [`CONTEXT_BUFFER_SIZE`] are held.
pub fn add_to_context(buf: &mut ContextBuffer, role: &str, msg: &str)
    ensures
        final(buf)@ == keep_last(old(buf)@.push((role@, msg@)), CONTEXT_BUFFER_SIZE as nat),
{
    proof { use_type_invariant(&*buf); }
    let mut r = String::new();
    push_str(&mut r, role);
    let mut m = String::new();
    push_str(&mut m, msg);
    let ghost before = buf@;
    let mut msgs: Vec<(String, String)> = Vec::new();
    std::mem::swap(&mut msgs, &mut buf.msgs);
    msgs.push((r, m));
    assert(msgs@.map_values(|x: (String, String)| (x.0@, x.1@)) =~= before.push((role@, msg@)));
    if msgs.len() > CONTEXT_BUFFER_SIZE {
        let ghost full = msgs@;
        msgs.remove(0);
        assert(msgs@.map_values(|x: (String, String)| (x.0@, x.1@))
            =~= keep_last(before.push((role@, msg@)), CONTEXT_BUFFER_SIZE as nat));
    }
    buf.msgs = msgs;
}

/// The context never holds more than ten messages, and after an addition its
/// newest message is the one added.
pub proof fn law_context_bounded(before: Seq<(Seq<char>, Seq<char>)>, m: (Seq<char>, Seq<char>))
    requires
        before.len() <= CONTEXT_BUFFER_SIZE,
    ensures
        keep_last(before.push(m), CONTEXT_BUFFER_SIZE as nat).len() <= CONTEXT_BUFFER_SIZE,
        keep_last(before.push(m), CONTEXT_BUFFER_SIZE as nat).last() == m,
{
}

/// The text sent as the user's turn: the message, and what it replies to when it
/// is a reply.
pub open spec fn user_turn(msg: Seq<char>, quoted: Option<Seq<char>>) -> Seq<char> {
    match quoted {
        Some(q) => msg + "\n\n(the previous message is responding to: "@ + q + ")"@,
        None => msg,
    }
}

/// The messages of a conversational request: the context, then the user's turn.
pub fn conversation(buf: &ContextBuffer, msg: &str, quoted: Option<&str>) -> (r: Vec<(String, String)>)
    ensures
        r@.map_values(|m: (String, String)| (m.0@, m.1@)) == buf@.push(("user"@, user_turn(msg@, match quoted { Some(q) => Some(q@), None => None }))),
{
    let mut r = buf.messages();
    let mut role = String::new();
    push_str(&mut role, "user");
    let mut content = String::new();
    push_str(&mut content, msg);
    match quoted {
        Some(q) => {
            push_str(&mut content, "\n\n(the previous message is responding to: ");
            push_str(&mut content, q);
            push_str(&mut content, ")");
        },
        None => {},
    }
    let ghost before = r@.map_values(|m: (String, String)| (m.0@, m.1@));
    let ghost cv = content@;
    r.push((role, content));
    assert(r@.map_values(|m: (String, String)| (m.0@, m.1@)) =~= before.push(("user"@, cv)));
    r
}

/// One block of a model reply's content: its `type` and its `text`, where given.
pub struct ContentBlock {
    pub kind: Option<String>,
    pub text: Option<String>,
}

/// The text of the first block of type `text` (empty when it has none, or when
/// there is no such block).
pub open spec fn first_text(blocks: Seq<(Option<Seq<char>>, Option<Seq<char>>)>) -> Seq<char>
    decreases blocks.len(),
{
    if blocks.len() == 0 {
        Seq::empty()
    } else if blocks[0].0 == Some("text"@) {
        match blocks[0].1 { Some(t) => t, None => Seq::empty() }
    } else {
        first_text(blocks.drop_first())
    }
}

pub open spec fn blocks_view(blocks: Seq<ContentBlock>) -> Seq<(Option<Seq<char>>, Option<Seq<char>>)> {
    blocks.map_values(|b: ContentBlock| (
        match b.kind { Some(k) => Some(k@), None => None },
        match b.text { Some(t) => Some(t@), None => None },
    ))
}

/// The text of a model reply: that of its first `text` block (see [`first_text`]).
pub fn extract_text(blocks: &Vec<ContentBlock>) -> (r: String)
    ensures
        r@ == first_text(blocks_view(blocks@)),
{
    let ghost bv = blocks_view(blocks@);
    assert(bv.skip(0) == bv);
    let mut i: usize = 0;
    while i < blocks.len()
        invariant
            i <= blocks.len(),
            bv == blocks_view(blocks@),
            first_text(bv) == first_text(bv.skip(i as int)),
        decreases blocks.len() - i,
    {
        assert(bv.skip(i as int).drop_first() == bv.skip(i as int + 1));
        let is_text = match &blocks[i].kind {
            Some(k) => str_eq(k.as_str(), "text"),
            None => false,
        };
        if is_text {
            let mut s = String::new();
            match &blocks[i].text {
                Some(t) => push_str(&mut s, t.as_str()),
                None => {},
            }
            return s;
        }
        i += 1;
    }
    String::new()
}

// ---------------------------------------------------------------------------
// Recap
// ---------------------------------------------------------------------------

/// Most characters of the messages a recap reads.
pub const RECAP_MAX_CHARS: usize = 100000;

/// The text a recap reads: the user's messages joined with newlines, cut to
/// [`RECAP_MAX_CHARS`] characters; none without messages.
pub open spec fn recap_text_spec(msgs: Seq<Seq<char>>) -> Option<Seq<char>> {
    if msgs.len() == 0 {
        None
    } else {
        let all = join(msgs, "\n"@);
        Some(if all.len() > RECAP_MAX_CHARS { all.take(RECAP_MAX_CHARS as int) } else { all })
    }
}

/// The text a recap reads (see [`recap_text_spec`]).
pub fn recap_text(msgs: &Vec<String>) -> (r: Option<String>)
    ensures
        match r {
            Some(t) => recap_text_spec(string_views(msgs@)) == Some(t@),
            None => recap_text_spec(string_views(msgs@)) is None,
        },
{
    if msgs.len() == 0 {
        return None;
    }
    let all = join_strings(msgs, "\n");
    let v = str_to_chars(all.as_str());
    if v.len() > RECAP_MAX_CHARS {
        let mut t: Vec<char> = Vec::new();
        let mut i: usize = 0;
        while i < RECAP_MAX_CHARS
            invariant
                i <= RECAP_MAX_CHARS < v@.len(),
                t@ == v@.take(i as int),
            decreases RECAP_MAX_CHARS - i,
        {
            t.push(v[i]);
            assert(v@.take(i as int + 1) == v@.take(i as int).push(v@[i as int]));
            i += 1;
        }
        Some(chars_to_string(t.as_slice()))
    } else {
        Some(all)
    }
}

/// The request of a recap of `username`'s year from their messages `text`.
pub fn recap_prompt(username: &str, text: &str) -> (r: String)
    ensures
        r@ == "Here is a collection of discord messages from user '"@ + username@
            + "' over the past year. Please generate a very short and snappy recap of what they have been talking about. Highlight key themes, recurring jokes, or specific interests. The recap MUST be less than 500 words. \n\nMessages:\n"@
            + text@,
{
    let mut s = String::new();
    push_str(&mut s, "Here is a collection of discord messages from user '");
    push_str(&mut s, username);
    push_str(&mut s, "' over the past year. Please generate a very short and snappy recap of what they have been talking about. Highlight key themes, recurring jokes, or specific interests. The recap MUST be less than 500 words. \n\nMessages:\n");
    push_str(&mut s, text);
    s
}

/// The reply when the user said nothing in the past year.
pub fn no_recap_reply(display: &str) -> (r: String)
    ensures
        r@ == "I couldn't find any messages from "@ + display@ + " in the past year."@,
{
    let mut s = String::new();
    push_str(&mut s, "I couldn't find any messages from ");
    push_str(&mut s, display);
    push_str(&mut s, " in the past year.");
    s
}

/// The messages of `target` in the (author, content) history that have text,
/// in order.
pub open spec fn recap_messages_spec(h: Seq<(u64, Seq<char>)>, target: u64) -> Seq<Seq<char>>
    decreases h.len(),
{
    if h.len() == 0 {
        Seq::empty()
    } else {
        let rest = recap_messages_spec(h.drop_last(), target);
        if h.last().0 == target && h.last().1.len() > 0 { rest.push(h.last().1) } else { rest }
    }
}

/// The messages of `target` that have text (see [`recap_messages_spec`]).
pub fn recap_messages(history: &Vec<(u64, String)>, target: u64) -> (r: Vec<String>)
    ensures
        string_views(r@) == recap_messages_spec(history@.map_values(|m: (u64, String)| (m.0, m.1@)), target),
{
    let ghost hv = history@.map_values(|m: (u64, String)| (m.0, m.1@));
    let mut r: Vec<String> = Vec::new();
    let mut i: usize = 0;
    while i < history.len()
        invariant
            i <= history@.len(),
            hv == history@.map_values(|m: (u64, String)| (m.0, m.1@)),
            string_views(r@) == recap_messages_spec(hv.take(i as int), target),
        decreases history.len() - i,
    {
        assert(hv.take(i as int + 1).drop_last() == hv.take(i as int));
        assert(hv.take(i as int + 1).last() == (history@[i as int].0, history@[i as int].1@));
        if history[i].0 == target && !history[i].1.as_str().is_empty() {
            let mut c = String::new();
            push_str(&mut c, history[i].1.as_str());
            let ghost before = string_views(r@);
            r.push(c);
            assert(string_views(r@) =~= before.push(history@[i as int].1@));
        }
        i += 1;
    }
    assert(hv.take(history@.len() as int) == hv);
    r
}

/// Whether channel `a` comes before `b` (or is in the same place): by position,
/// then by id.
pub open spec fn channel_le(a: (u16, u64), b: (u16, u64)) -> bool {
    a.0 < b.0 || (a.0 == b.0 && a.1 <= b.1)
}

/// `x` put into the ordered `s` after every channel that does not come after it.
pub open spec fn insert_channel(s: Seq<(u16, u64)>, x: (u16, u64)) -> Seq<(u16, u64)>
    decreases s.len(),
{
    if s.len() == 0 {
        seq![x]
    } else if channel_le(s.last(), x) {
        s.push(x)
    } else {
        insert_channel(s.drop_last(), x).push(s.last())
    }
}

/// The channels in the order Discord lists a server's text channels: by position,
/// then by id.
pub open spec fn channel_order(s: Seq<(u16, u64)>) -> Seq<(u16, u64)>
    decreases s.len(),
{
    if s.len() == 0 { Seq::empty() } else { insert_channel(channel_order(s.drop_last()), s.last()) }
}

proof fn lemma_insert_channel(s: Seq<(u16, u64)>, x: (u16, u64), j: int)
    requires
        0 <= j <= s.len(),
        forall|k: int| j <= k < s.len() ==> !channel_le(s[k], x),
        j == 0 || channel_le(s[j - 1], x),
    ensures
        insert_channel(s, x) == s.take(j).push(x) + s.skip(j),
    decreases s.len(),
{
    if s.len() == 0 {
        assert(s.take(j).push(x) + s.skip(j) =~= seq![x]);
    } else if j == s.len() {
        assert(s.take(j).push(x) + s.skip(j) =~= s.push(x));
    } else {
        lemma_insert_channel(s.drop_last(), x, j);
        assert(s.drop_last().take(j).push(x) + s.drop_last().skip(j) + seq![s.last()] =~= s.take(j).push(x) + s.skip(j));
    }
}

/// The (position, id) channels in Discord's order (see [`channel_order`]).
pub fn order_channels(channels: &Vec<(u16, u64)>) -> (r: Vec<(u16, u64)>)
    ensures
        r@ == channel_order(channels@),
{
    let mut sorted: Vec<(u16, u64)> = Vec::new();
    let mut i: usize = 0;
    while i < channels.len()
        invariant
            i <= channels@.len(),
            sorted@ == channel_order(channels@.take(i as int)),
        decreases channels.len() - i,
    {
        assert(channels@.take(i as int + 1).drop_last() == channels@.take(i as int));
        let x = channels[i];
        let ghost s = sorted@;
        let mut j: usize = sorted.len();
        while j > 0 && !(sorted[j - 1].0 < x.0 || (sorted[j - 1].0 == x.0 && sorted[j - 1].1 <= x.1))
            invariant
                j <= sorted@.len(),
                s == sorted@,
                forall|k: int| j <= k < sorted@.len() ==> !channel_le(s[k], x),
            decreases j,
        {
            j -= 1;
        }
        proof { lemma_insert_channel(s, x, j as int); }
        sorted.insert(j, x);
        assert(sorted@ =~= s.take(j as int).push(x) + s.skip(j as int));
        i += 1;
    }
    assert(channels@.take(channels@.len() as int) == channels@);
    sorted
}

/// Whether the channels are in Discord's order.
pub open spec fn channels_ordered(s: Seq<(u16, u64)>) -> bool {
    forall|i: int, j: int| 0 <= i < j < s.len() ==> channel_le(s[i], s[j])
}

proof fn lemma_insert_channel_ordered(s: Seq<(u16, u64)>, x: (u16, u64))
    requires
        channels_ordered(s),
    ensures
        channels_ordered(insert_channel(s, x)),
        insert_channel(s, x).to_multiset() == s.to_multiset().insert(x),
        forall|k: int| 0 <= k < insert_channel(s, x).len() ==> #[trigger] insert_channel(s, x)[k] == x || s.contains(insert_channel(s, x)[k]),
    decreases s.len(),
{
    broadcast use vstd::multiset::group_multiset_axioms, vstd::seq_lib::group_seq_properties;
    if s.len() == 0 {
        assert(seq![x].to_multiset() =~= Seq::<(u16, u64)>::empty().to_multiset().insert(x));
        assert(insert_channel(s, x) == seq![x]);
    } else if channel_le(s.last(), x) {
        assert(s.push(x).to_multiset() =~= s.to_multiset().insert(x));
        assert forall|k: int| 0 <= k < s.len() + 1 implies #[trigger] s.push(x)[k] == x || s.contains(s.push(x)[k]) by {
            if k < s.len() { assert(s.push(x)[k] == s[k]); }
        }
        assert forall|i: int, j: int| 0 <= i < j < s.len() + 1 implies channel_le(s.push(x)[i], s.push(x)[j]) by {
            assert(s.push(x)[i] == s[i]);
            if j < s.len() { assert(s.push(x)[j] == s[j]); } else { assert(channel_le(s[i], s[s.len() - 1])); }
        }
    } else {
        let t = s.drop_last();
        assert(channels_ordered(t));
        lemma_insert_channel_ordered(t, x);
        let u = insert_channel(t, x);
        let w = u.push(s.last());
        assert(insert_channel(s, x) == w);
        assert(s =~= t.push(s.last()));
        assert(w.to_multiset() =~= u.to_multiset().insert(s.last()));
        assert(s.to_multiset() =~= t.to_multiset().insert(s.last()));
        assert(w.to_multiset() =~= s.to_multiset().insert(x));
        assert forall|k: int| 0 <= k < w.len() implies #[trigger] w[k] == x || s.contains(w[k]) by {
            if k < u.len() {
                assert(w[k] == u[k]);
                if u[k] != x {
                    assert(t.contains(u[k]));
                    let m = choose|m: int| 0 <= m < t.len() && t[m] == u[k];
                    assert(s[m] == t[m]);
                }
            } else {
                assert(s[s.len() - 1] == w[k]);
            }
        }
        assert forall|i: int, j: int| 0 <= i < j < w.len() implies channel_le(w[i], w[j]) by {
            assert(w[i] == u[i]);
            if j < u.len() {
                assert(w[j] == u[j]);
            } else {
                assert(w[j] == s.last());
                if u[i] != x {
                    assert(t.contains(u[i]));
                    let m = choose|m: int| 0 <= m < t.len() && t[m] == u[i];
                    assert(s[m] == t[m]);
                    assert(channel_le(s[m], s[s.len() - 1]));
                }
            }
        }
    }
}

/// The channels a recap reads are in Discord's order, and they are the channels
/// it was given, rearranged.
pub proof fn law_channels_ordered(s: Seq<(u16, u64)>)
    ensures
        channels_ordered(channel_order(s)),
        channel_order(s).to_multiset() == s.to_multiset(),
    decreases s.len(),
{
    broadcast use vstd::multiset::group_multiset_axioms, vstd::seq_lib::group_seq_properties;
    if s.len() == 0 {
        assert(channel_order(s).to_multiset() =~= s.to_multiset());
    } else {
        law_channels_ordered(s.drop_last());
        lemma_insert_channel_ordered(channel_order(s.drop_last()), s.last());
        assert(s =~= s.drop_last().push(s.last()));
        assert(s.to_multiset() =~= s.drop_last().to_multiset().insert(s.last()));
    }
}

// ---------------------------------------------------------------------------
// Answering a message addressed to the bot
// ---------------------------------------------------------------------------

/// Why a request to the model failed: the account is out of credit (or its card
/// was refused), or anything else.
#[derive(Debug, Clone, Copy, PartialEq, Eq, Structural)]
pub enum AiFailure {
    Billing,
    Other,
}

/// A failed request is a billing failure when the status is 402 (payment
/// required) or the body speaks of the credit balance or of billing.
pub open spec fn is_billing_failure(status: u16, body: Seq<char>) -> bool {
    status == 402 || seq_contains(body, "credit balance"@) || seq_contains(body, "billing"@)
}

/// Classifies a failed request by its HTTP status and response body.
pub fn classify_failure(status: u16, body: &str) -> (k: AiFailure)
    ensures
        k == (if is_billing_failure(status, body@) { AiFailure::Billing } else { AiFailure::Other }),
{
    if status == 402 || str_contains(body, "credit balance") || str_contains(body, "billing") {
        AiFailure::Billing
    } else {
        AiFailure::Other
    }
}

/// The reaction to a failed request: 💰 for a billing failure, else the emoji of
/// the feature that failed.
pub fn failure_reaction(k: AiFailure, feature_emoji: &str) -> (r: String)
    ensures
        r@ == (if k == AiFailure::Billing { "💰"@ } else { feature_emoji@ }),
{
    let mut s = String::new();
    match k {
        AiFailure::Billing => push_str(&mut s, "💰"),
        AiFailure::Other => push_str(&mut s, feature_emoji),
    }
    s
}

/// What to do with a message addressed to the bot.
#[derive(Debug, PartialEq, Eq)]
pub enum BotAction {
    /// The channel is blacklisted: refuse with a reaction.
    RejectChannel,
    /// A confident yes/no question: answer it on the spot with this text.
    AnswerYesNo(String),
    /// Ask the language model.
    AskModel,
}

/// The route of a message addressed to the bot: refused in a blacklisted channel;
/// else answered on the spot when the yes/no verdict (whether it is confidently a
/// yes/no question, and the answer) says so; else, and whenever no verdict came,
/// handed to the model.
pub fn route_mention(blacklisted: bool, verdict: Option<(bool, String)>) -> (a: BotAction)
    ensures
        blacklisted ==> a == BotAction::RejectChannel,
        !blacklisted ==> (match verdict {
            Some((true, ans)) => a == BotAction::AnswerYesNo(ans),
            _ => a == BotAction::AskModel,
        }),
{
    if blacklisted {
        return BotAction::RejectChannel;
    }
    match verdict {
        Some((yes_no, ans)) => {
            if yes_no {
                BotAction::AnswerYesNo(ans)
            } else {
                BotAction::AskModel
            }
        },
        None => BotAction::AskModel,
    }
}

} // verus!
