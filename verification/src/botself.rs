//! Who the bot is: its user id, learned once when the gateway reports ready.

use vstd::prelude::*;
use crate::text::{decimal, chars_to_string, push_str, u64_decimal, push_chars};

verus! {

/// The bot's own user id, set at most once (later settings are ignored).
pub struct BotSelf {
    id: Option<u64>,
}

impl View for BotSelf {
    type V = Option<u64>;

    closed spec fn view(&self) -> Option<u64> {
        self.id
    }
}

impl BotSelf {
    /// No id yet.
    pub fn new() -> (s: BotSelf)
        ensures
            s@ is None,
    {
        BotSelf { id: None }
    }
}

/// The id after an attempt to set it to `id`: set only if not yet known.
pub open spec fn set_id_spec(s: Option<u64>, id: u64) -> Option<u64> {
    if s is None { Some(id) } else { s }
}

/// Records the bot's id; only the first call has an effect.
pub fn set_bot_id(state: &mut BotSelf, id: u64)
    ensures
        final(state)@ == set_id_spec(old(state)@, id),
{
    if state.id.is_none() {
        state.id = Some(id);
    }
}

/// The bot's id, or 0 before it is known.
pub fn bot_id(state: &BotSelf) -> (r: u64)
    ensures
        r == (match state@ { Some(i) => i, None => 0 }),
{
    match state.id {
        Some(i) => i,
        None => 0,
    }
}

/// The id in decimal, as `str(client.user.id)` writes it.
pub fn bot_id_str(state: &BotSelf) -> (r: String)
    ensures
        r@ == decimal(bot_id_spec(state@) as nat),
{
    let d = u64_decimal(bot_id(state));
    chars_to_string(d.as_slice())
}

pub open spec fn bot_id_spec(s: Option<u64>) -> u64 {
    match s {
        Some(i) => i,
        None => 0,
    }
}

/// The mention of the bot, `<@id>`.
pub fn bot_mention(state: &BotSelf) -> (r: String)
    ensures
        r@ == "<@"@ + decimal(bot_id_spec(state@) as nat) + ">"@,
{
    let d = u64_decimal(bot_id(state));
    let mut s = String::new();
    push_str(&mut s, "<@");
    push_chars(&mut s, d.as_slice());
    push_str(&mut s, ">");
    assert(s@ =~= "<@"@ + decimal(bot_id_spec(state@) as nat) + ">"@);
    s
}

/// The id is set once: after it is first set to `a`, every later setting leaves
/// it at `a`, and the bot's id reads `a`.
pub proof fn law_first_id_wins(a: u64, b: u64)
    ensures
        set_id_spec(set_id_spec(None, a), b) == Some(a),
        bot_id_spec(set_id_spec(set_id_spec(None, a), b)) == a,
{
}

} // verus!
