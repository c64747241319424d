//! Self-descriptions: `@iam <words>` records who the sender says he is,
//! and `@whois <nick>` repeats what `<nick>` said. Storing and loading the
//! records is done by the caller.

use vstd::prelude::*;
use crate::reply::{Reply, answer_target, answer_target_str};
use crate::text::{lemma_split_after_word, skip_chars, split, split_spaces, starts_with, starts_with_str};

verus! {

/// What someone said he is.
pub struct WhoIs {
    pub nickname: String,
    pub description: String,
}

impl WhoIs {
    pub fn new(nickname: &str, description: &str) -> (w: WhoIs)
        ensures
            w.nickname@ == nickname@,
            w.description@ == description@,
    {
        WhoIs { nickname: nickname.to_owned(), description: description.to_owned() }
    }
}

/// What a message asks for.
pub enum WhoisRequest {
    /// `@iam <words>`: this record is to be stored.
    Register(WhoIs),
    /// `@whois <nick>`: the record of this nick is to be loaded.
    Lookup(String),
    /// Anything else.
    Nothing,
}

/// The record that `@iam <words>` from `user` asks to store.
pub open spec fn registration(user: Seq<char>, msg: Seq<char>) -> Option<(Seq<char>, Seq<char>)> {
    if starts_with(msg, "@iam "@) {
        Some((user, msg.skip(5)))
    } else {
        None
    }
}

/// `@iam <words>` from `user` records exactly `<words>` as what `user`
/// is, and a message not starting with `@iam ` records nothing.
pub proof fn law_iam_records_the_words(user: Seq<char>, words: Seq<char>, msg: Seq<char>)
    ensures
        registration(user, "@iam "@ + words) == Some((user, words)),
        !starts_with(msg, "@iam "@) ==> registration(user, msg) is None,
{
    reveal_strlit("@iam ");
    let m = "@iam "@ + words;
    assert(m.subrange(0, 5) =~= "@iam "@);
    assert(m.skip(5) =~= words);
}

/// The nick that `@whois <nick>` asks about: the word after `@whois`.
pub open spec fn lookup(msg: Seq<char>) -> Option<Seq<char>> {
    if starts_with(msg, "@iam "@) {
        None
    } else if starts_with(msg, "@whois "@) {
        Some(split(msg, " "@)[1])
    } else {
        None
    }
}

/// Reads what a message from `user` asks for.
pub fn request(user: &str, msg: &str) -> (r: WhoisRequest)
    ensures
        match r {
            WhoisRequest::Register(w) => registration(user@, msg@) == Some((w.nickname@, w.description@)),
            WhoisRequest::Lookup(n) => registration(user@, msg@) is None && lookup(msg@) == Some(n@),
            WhoisRequest::Nothing => registration(user@, msg@) is None && lookup(msg@) is None,
        },
{
    proof {
        reveal_strlit("@iam ");
        reveal_strlit("@whois ");
        reveal_strlit("@whois");
        reveal_strlit(" ");
    }
    if starts_with_str(msg, "@iam ") {
        let d = skip_chars(msg, 5);
        WhoisRequest::Register(WhoIs::new(user, d.as_str()))
    } else if starts_with_str(msg, "@whois ") {
        proof {
            assert("@whois "@ =~= "@whois"@ + " "@);
            lemma_split_after_word(msg@, "@whois"@);
        }
        let t = split_spaces(msg);
        WhoisRequest::Lookup(t[1].clone())
    } else {
        WhoisRequest::Nothing
    }
}

/// The answer to `@iam`, `stored` telling whether the record was saved.
pub fn registered_reply(user: &str, chan: &str, bot_nick: &str, stored: bool) -> (r: Reply)
    ensures
        r.target@ == answer_target(chan@, bot_nick@, user@),
        r.text@ == user@ + if stored {
            ": Got it!"@
        } else {
            ": Something went wrong."@
        },
{
    let mut t = user.to_owned();
    if stored {
        t.append(": Got it!");
    } else {
        t.append(": Something went wrong.");
    }
    Reply::new(answer_target_str(chan, bot_nick, user), t)
}

/// The answer to `@whois <nick>`, `found` being the record loaded for it.
pub fn lookup_reply(user: &str, chan: &str, bot_nick: &str, nick: &str, found: &Option<WhoIs>) -> (r: Reply)
    ensures
        r.target@ == answer_target(chan@, bot_nick@, user@),
        r.text@ == match found {
            Some(w) => user@ + ": "@ + w.nickname@ + " is "@ + w.description@,
            None => user@ + ": I don't know who "@ + nick@ + " is."@,
        },
{
    let mut t = user.to_owned();
    match found {
        Some(w) => {
            t.append(": ");
            t.append(w.nickname.as_str());
            t.append(" is ");
            t.append(w.description.as_str());
        },
        None => {
            t.append(": I don't know who ");
            t.append(nick);
            t.append(" is.");
        },
    }
    Reply::new(answer_target_str(chan, bot_nick, user), t)
}

} // verus!
