//! Invitations: the bot joins a channel it is invited to.

use vstd::prelude::*;
use crate::text::str_eq;

verus! {

/// The channel to join when `nick` is invited to `chan`: only when `nick`
/// is the bot's own nickname.
pub fn process(bot_nick: &str, nick: &str, chan: &str) -> (r: Option<String>)
    ensures
        match r {
            Some(c) => nick@ == bot_nick@ && c@ == chan@,
            None => nick@ != bot_nick@,
        },
{
    if str_eq(nick, bot_nick) {
        Some(chan.to_owned())
    } else {
        None
    }
}

} // verus!
