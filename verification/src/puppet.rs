//! Speaking through the bot: an owner's private message to the bot
//! `#chan <words>` (or `$nick <words>`) makes the bot say `<words>` there.

use vstd::prelude::*;
use crate::reply::Reply;
use crate::text::{skip_chars, split, split_spaces, starts_with, starts_with_str, str_eq};

verus! {

/// What the bot says, and to whom, on `msg` sent to `chan`: `None` unless
/// the message was sent to the bot itself by an owner, begins with `#` or
/// `$`, and has a word after the target.
pub open spec fn puppeted(is_owner: bool, chan: Seq<char>, bot_nick: Seq<char>, msg: Seq<char>) -> Option<(Seq<char>, Seq<char>)> {
    let t = split(msg, " "@);
    if chan != bot_nick || !is_owner {
        None
    } else if (starts_with(msg, "#"@) || starts_with(msg, "$"@)) && t.len() > 1 {
        Some(
            (
                if starts_with(t[0], "$"@) {
                    t[0].skip(1)
                } else {
                    t[0]
                },
                msg.skip(t[0].len() + 1int),
            ),
        )
    } else {
        None
    }
}

/// The message to say on `msg` sent to `chan`; `is_owner` tells whether
/// its sender owns the bot.
pub fn process(is_owner: bool, chan: &str, bot_nick: &str, msg: &str) -> (r: Option<Reply>)
    ensures
        match r {
            Some(reply) => puppeted(is_owner, chan@, bot_nick@, msg@) == Some(reply@),
            None => puppeted(is_owner, chan@, bot_nick@, msg@) is None,
        },
{
    if !str_eq(chan, bot_nick) || !is_owner {
        return None;
    }
    if !(starts_with_str(msg, "#") || starts_with_str(msg, "$")) {
        return None;
    }
    let t = split_spaces(msg);
    if t.len() <= 1 {
        return None;
    }
    proof {
        reveal_strlit(" ");
        reveal_strlit("$");
        crate::text::lemma_split_starts(msg@, " "@, 2);
        let w = split(msg@, " "@);
        assert(w.take(2) =~= seq![w[0], w[1]]);
        crate::text::lemma_join2(w[0], w[1], " "@);
    }
    let target = if starts_with_str(t[0].as_str(), "$") {
        skip_chars(t[0].as_str(), 1)
    } else {
        t[0].clone()
    };
    let n_chars = crate::text::chars_of(msg).len();  // msg@ is no longer than usize::MAX
    let k = t[0].unicode_len() + 1;
    let text = skip_chars(msg, k);
    Some(Reply::new(target, text))
}

} // verus!
