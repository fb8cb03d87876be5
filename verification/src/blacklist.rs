//! Channels the bot refuses to take part in.

use vstd::prelude::*;
use crate::text::{str_eq, str_to_lowercase, unicode_lowercase};

verus! {

/// The lower-case names of the blacklisted channels.
pub open spec fn blacklisted_name(s: Seq<char>) -> bool {
    ||| s == "sigh-politics"@
    ||| s == "bible"@
    ||| s == "wanglicanism"@
    ||| s == "formative movie crushes of the youthful era"@
    ||| s == "dads"@
}

/// Whether a channel of this name is blacklisted: a missing or empty name never
/// is; otherwise its Unicode lower-case form must be one of the listed names.
pub fn is_blacklisted_channel(channel_name: Option<&str>) -> (r: bool)
    ensures
        r == match channel_name {
            None => false,
            Some(name) => name@.len() > 0 && blacklisted_name(unicode_lowercase(name@)),
        },
{
    match channel_name {
        None => false,
        Some(name) => {
            if name.is_empty() {
                return false;
            }
            let lower = str_to_lowercase(name);
            let l = lower.as_str();
            str_eq(l, "sigh-politics") || str_eq(l, "bible") || str_eq(l, "wanglicanism")
                || str_eq(l, "formative movie crushes of the youthful era") || str_eq(l, "dads")
        },
    }
}

} // verus!
