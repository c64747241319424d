//! What a plugin asks the bot to send: a message to a channel or a user.

use vstd::prelude::*;
use crate::text::str_eq;

verus! {

/// A message (`PRIVMSG`) that the bot sends to `target`.
pub struct Reply {
    pub target: String,
    pub text: String,
}

impl View for Reply {
    type V = (Seq<char>, Seq<char>);

    open spec fn view(&self) -> (Seq<char>, Seq<char>) {
        (self.target@, self.text@)
    }
}

impl Reply {
    pub fn new(target: String, text: String) -> (r: Reply)
        ensures
            r@ == (target@, text@),
    {
        Reply { target, text }
    }
}

/// Where the answer to a message goes: back to its sender when it was sent
/// to the bot directly (its target is the bot's nickname), else to the
/// channel it was sent to.
pub open spec fn answer_target(chan: Seq<char>, bot_nick: Seq<char>, user: Seq<char>) -> Seq<char> {
    if chan == bot_nick {
        user
    } else {
        chan
    }
}

/// Where the answer to a message goes (see [`answer_target`]).
pub fn answer_target_str(chan: &str, bot_nick: &str, user: &str) -> (r: String)
    ensures
        r@ == answer_target(chan@, bot_nick@, user@),
{
    if str_eq(chan, bot_nick) {
        user.to_owned()
    } else {
        chan.to_owned()
    }
}

/// The views of a sequence of replies.
pub open spec fn reply_views(v: Seq<Reply>) -> Seq<(Seq<char>, Seq<char>)> {
    v.map_values(|r: Reply| r@)
}

} // verus!
