//! Flooding, for the bot's owners: `@flood <target> <n> [<message>]` sends
//! `<message>` (or `@flood (<i>)`) `n` times to `<target>`.

use vstd::prelude::*;
use vstd::string::*;
use crate::num::{decimal_int, parse_i32_str, parsed_i32, push_decimal_signed};
use crate::reply::{answer_target, answer_target_str};
use crate::text::{
    byte_len, chars_of, join, lemma_join3, lemma_words_prefix, skip_chars, split, split_spaces,
    str_eq, trim_end, trim_end_str,
};
use vstd::utf8::encode_utf8;

verus! {

/// What the bot does about a message.
pub enum Flood {
    /// Nothing: not an owner's `@flood` request.
    Nothing,
    /// The count is not a number: `text` is said to `target`.
    NotANumber { target: String, text: String },
    /// `count` messages go to `target`: `message` each time, or
    /// `@flood (<i>)` for the `i`-th when there is none.
    Repeat { target: String, count: i32, message: Option<String> },
}

/// The words of a message: split at single spaces once trailing white
/// space is removed.
pub open spec fn words(msg: Seq<char>) -> Seq<Seq<char>> {
    split(trim_end(msg), " "@)
}

/// An owner's `@flood` request with at least a target and a count.
pub open spec fn is_request(is_owner: bool, msg: Seq<char>) -> bool {
    let t = words(msg);
    is_owner && t.len() >= 3 && t[0] == "@flood"@
}

/// The `i`-th line of a flood.
pub open spec fn flood_text(message: Option<Seq<char>>, i: int) -> Seq<char> {
    match message {
        Some(m) => m,
        None => "@flood ("@ + decimal_int(i) + ")"@,
    }
}

/// Reads an owner's `@flood <target> <n> [<message>]`; `is_owner` tells
/// whether `user` owns the bot, and a refusal goes back where the message
/// came from.
pub fn plan(is_owner: bool, user: &str, chan: &str, bot_nick: &str, msg: &str) -> (r: Flood)
    ensures
        match r {
            Flood::Nothing => !is_request(is_owner, msg@),
            Flood::NotANumber { target, text } => is_request(is_owner, msg@)
                && parsed_i32(encode_utf8(words(msg@)[2])) is None
                && target@ == answer_target(chan@, bot_nick@, user@)
                && text@ == words(msg@)[2] + " is not a number."@,
            Flood::Repeat { target, count, message } => is_request(is_owner, msg@)
                && parsed_i32(encode_utf8(words(msg@)[2])) == Some(count)
                && target@ == words(msg@)[1]
                && (words(msg@).len() == 3 ==> message is None)
                && (words(msg@).len() > 3 ==> (message matches Some(m)
                    && m@ == msg@.skip(9 + words(msg@)[1].len() as int + words(msg@)[2].len() as int))),
        },
{
    if !is_owner {
        return Flood::Nothing;
    }
    let trimmed = trim_end_str(msg);
    let t = split_spaces(trimmed.as_str());
    if !(t.len() >= 3 && str_eq(t[0].as_str(), "@flood")) {
        return Flood::Nothing;
    }
    match parse_i32_str(t[2].as_str()) {
        Some(n) => {
            let message = if t.len() == 3 {
                None
            } else {
                proof {
                    reveal_strlit("@flood");
                    reveal_strlit(" ");
                    lemma_words_prefix(msg@, 3);
                    let w = split(trimmed@, " "@);
                    assert(w.take(3) =~= seq![w[0], w[1], w[2]]);
                    lemma_join3(w[0], w[1], w[2], " "@);
                    lemma_words_prefix(msg@, 4);
                    assert(w.take(4).drop_last() =~= w.take(3));
                    crate::text::lemma_join_push(w.take(3), w[3], " "@);
                    assert(w.take(3).push(w[3]) =~= w.take(4));
                }
                let n_chars = chars_of(msg).len();  // msg@ is no longer than usize::MAX
                let k = 9 + t[1].unicode_len() + t[2].unicode_len();
                Some(skip_chars(msg, k))
            };
            Flood::Repeat { target: t[1].clone(), count: n, message }
        },
        None => {
            let mut text = t[2].clone();
            text.append(" is not a number.");
            Flood::NotANumber { target: answer_target_str(chan, bot_nick, user), text }
        },
    }
}

/// The `i`-th line of a flood: `message`, or `@flood (<i>)` when there is
/// none.
pub fn flood_line(message: &Option<String>, i: i32) -> (r: String)
    ensures
        r@ == flood_text(
            match message {
                Some(m) => Some(m@),
                None => None,
            },
            i as int,
        ),
{
    match message {
        Some(m) => m.clone(),
        None => {
            let mut r = "@flood (".to_owned();
            push_decimal_signed(&mut r, i as i64);
            r.append(")");
            r
        },
    }
}

} // verus!
