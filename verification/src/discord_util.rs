//! Discord conventions the bot relies on: user mentions in message text, the
//! name a member is shown under, and message ids as timestamps.

use vstd::prelude::*;
use crate::numbers::{parse_u64, parse_u64_spec};
use crate::pattern::{regex_captures, regex_groups};

verus! {

/// The pattern of a user mention: `<@id>` or `<@!id>`.
pub open spec fn mention_pattern() -> Seq<char> {
    "<@!?(\\d+)>"@
}

/// The ids the captured mentions `gs` hold, in order: the first group of each
/// parsed as a `u64`, those that do not parse left out.
pub open spec fn mention_ids(gs: Seq<(Seq<char>, Seq<char>, Seq<char>)>) -> Seq<u64>
    decreases gs.len(),
{
    if gs.len() == 0 {
        Seq::empty()
    } else {
        let prev = mention_ids(gs.drop_last());
        match parse_u64_spec(gs.last().0) {
            Some(n) => prev.push(n as u64),
            None => prev,
        }
    }
}

/// `message.raw_mentions`: the user ids of the `<@id>` / `<@!id>` mentions the
/// regex crate finds in the text, in order (a number that does not fit a `u64`
/// is skipped).
pub fn raw_mentions(content: &str) -> (r: Vec<u64>)
    ensures
        match regex_captures(mention_pattern(), content@) {
            Some(gs) => r@ == mention_ids(gs),
            None => r@.len() == 0,
        },
{
    let groups = match regex_groups("<@!?(\\d+)>", content) {
        Some(g) => g,
        None => {
            return Vec::new();
        },
    };
    let ghost gs = groups@.map_values(|g: (String, String, String)| (g.0@, g.1@, g.2@));
    let mut out: Vec<u64> = Vec::new();
    let mut i: usize = 0;
    while i < groups.len()
        invariant
            i <= groups@.len(),
            gs == groups@.map_values(|g: (String, String, String)| (g.0@, g.1@, g.2@)),
            regex_captures(mention_pattern(), content@) == Some(gs),
            out@ == mention_ids(gs.take(i as int)),
        decreases groups.len() - i,
    {
        assert(gs.take(i as int + 1).drop_last() == gs.take(i as int));
        assert(gs.take(i as int + 1).last() == gs[i as int]);
        assert(gs[i as int].0 == groups@[i as int].0@);
        match parse_u64(groups[i].0.as_str()) {
            Some(n) => {
                out.push(n);
            },
            None => {},
        }
        i += 1;
    }
    assert(gs.take(groups@.len() as int) == gs);
    out
}

/// `message.author.display_name`: the member's nickname in the guild, else the
/// user's global display name, else the user name.
pub fn display_name(nick: Option<&str>, global_name: Option<&str>, username: &str) -> (r: String)
    ensures
        r@ == (match nick {
            Some(n) => n@,
            None => match global_name {
                Some(g) => g@,
                None => username@,
            },
        }),
{
    match nick {
        Some(n) => n.to_owned(),
        None => match global_name {
            Some(g) => g.to_owned(),
            None => username.to_owned(),
        },
    }
}

/// Milliseconds from the Unix epoch to the Discord epoch (2015-01-01).
pub const DISCORD_EPOCH_MS: i64 = 1420070400000;

/// The first message id created at or after the time `after_ms` (Unix
/// milliseconds): the milliseconds since the Discord epoch (none before it) in
/// the timestamp bits of a snowflake, and never 0.
pub open spec fn snowflake_after_spec(after_ms: int) -> u64 {
    let since: u64 = if after_ms - DISCORD_EPOCH_MS > 0 { (after_ms - DISCORD_EPOCH_MS) as u64 } else { 0 };
    let id: u64 = since << 22u64;
    if id == 0 { 1 } else { id }
}

/// The snowflake from which `channel.history(after=...)` pages start.
pub fn snowflake_after(after_ms: i64) -> (r: u64)
    requires
        after_ms >= i64::MIN + DISCORD_EPOCH_MS,
    ensures
        r == snowflake_after_spec(after_ms as int),
{
    let diff = after_ms - DISCORD_EPOCH_MS;
    let since: u64 = if diff > 0 { diff as u64 } else { 0 };
    let id: u64 = since << 22u64;
    if id == 0 { 1 } else { id }
}

} // verus!
