//! Choosing: `@choose <a> or <b> or ...` is answered with one of the
//! options, drawn at random.

use vstd::prelude::*;
use crate::chance::random_below;
use crate::reply::Reply;
use crate::text::{join, lemma_join_split, lemma_split_nonempty, skip_chars, split, split_str, starts_with, starts_with_str, views};

verus! {

/// The options of an `@choose ` request: the rest of the message cut at
/// each ` or `.
pub open spec fn options(msg: Seq<char>) -> Option<Seq<Seq<char>>> {
    if starts_with(msg, "@choose "@) {
        Some(split(msg.skip(8), " or "@))
    } else {
        None
    }
}

/// The options of an `@choose ` request are the pieces of the text after
/// `@choose ` around each ` or `: there is at least one, and joined again
/// with ` or ` they give that text back.
pub proof fn law_options_rejoin(msg: Seq<char>)
    requires
        starts_with(msg, "@choose "@),
    ensures
        options(msg) matches Some(o) && o.len() >= 1 && join(o, " or "@) == msg.skip(8),
{
    reveal_strlit(" or ");
    reveal_strlit("@choose ");
    lemma_join_split(msg.skip(8), " or "@);
    lemma_split_nonempty(msg.skip(8), " or "@);
}

/// The options of an `@choose ` request.
pub fn choices(msg: &str) -> (r: Option<Vec<String>>)
    ensures
        match r {
            Some(v) => options(msg@) == Some(views(v@)) && v@.len() >= 1,
            None => options(msg@) is None,
        },
{
    if starts_with_str(msg, "@choose ") {
        proof {
            reveal_strlit("@choose ");
            reveal_strlit(" or ");
            crate::text::lemma_split_nonempty(msg@.skip(8), " or "@);
        }
        let rest = skip_chars(msg, 8);
        Some(split_str(rest.as_str(), " or "))
    } else {
        None
    }
}

/// The answer in `chan` to `msg` from `user`, option `pick` being chosen.
pub fn process_with(user: &str, chan: &str, msg: &str, pick: usize) -> (r: Option<Reply>)
    ensures
        match r {
            Some(reply) => options(msg@) matches Some(o) && pick < o.len() && reply@ == (chan@, user@ + ": "@ + o[pick as int]),
            None => options(msg@) is None || pick >= options(msg@)->0.len(),
        },
{
    match choices(msg) {
        Some(v) => {
            if pick < v.len() {
                assert(views(v@)[pick as int] == v@[pick as int]@);
                let mut t = user.to_owned();
                t.append(": ");
                t.append(v[pick].as_str());
                Some(Reply::new(chan.to_owned(), t))
            } else {
                None
            }
        },
        None => None,
    }
}

/// The answer in `chan` to `msg` from `user`: one of the options, drawn at
/// random.
pub fn process(user: &str, chan: &str, msg: &str) -> (r: Option<Reply>)
    ensures
        match r {
            Some(reply) => options(msg@) matches Some(o) && exists|i: int| 0 <= i < o.len() && reply@ == (chan@, user@ + ": "@ + o[i]),
            None => options(msg@) is None,
        },
{
    match choices(msg) {
        Some(v) => {
            let pick = random_below(v.len());
            process_with(user, chan, msg, pick)
        },
        None => None,
    }
}

} // verus!
