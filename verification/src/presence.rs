//! Joining and leaving channels on an owner's word: a message from an
//! owner holding the word `join` (or else `part`) makes the bot join (or
//! leave) every channel named in it.

use vstd::prelude::*;
use crate::text::{split, split_spaces, starts_with, starts_with_str, str_eq, views};

verus! {

/// A change of channel membership.
pub enum Presence {
    Join(String),
    Part(String),
}

/// The words that name channels (begin with `#`), in order.
pub open spec fn channels(words: Seq<Seq<char>>) -> Seq<Seq<char>>
    decreases words.len(),
{
    if words.len() == 0 {
        Seq::empty()
    } else {
        channels(words.drop_last()) + if starts_with(words.last(), "#"@) {
            seq![words.last()]
        } else {
            Seq::empty()
        }
    }
}

/// The channels are exactly the words that begin with `#`, in the order
/// of the message: each such word is one of them, and each of them is such
/// a word.
pub proof fn law_channels_are_hash_words(words: Seq<Seq<char>>)
    ensures
        forall|i: int| 0 <= i < words.len() && starts_with(#[trigger] words[i], "#"@) ==> channels(words).contains(words[i]),
        forall|c: Seq<char>| channels(words).contains(c) ==> starts_with(c, "#"@) && words.contains(c),
    decreases words.len(),
{
    if words.len() > 0 {
        let init = words.drop_last();
        law_channels_are_hash_words(init);
        let cs = channels(words);
        let prev = channels(init);
        assert forall|i: int| 0 <= i < words.len() && starts_with(#[trigger] words[i], "#"@) implies cs.contains(words[i]) by {
            if i < words.len() - 1 {
                assert(init[i] == words[i]);
                let k = choose|k: int| 0 <= k < prev.len() && prev[k] == words[i];
                assert(cs[k] == prev[k]);
            } else {
                assert(cs[prev.len() as int] == words.last());
            }
        }
        assert forall|c: Seq<char>| cs.contains(c) implies starts_with(c, "#"@) && words.contains(c) by {
            let k = choose|k: int| 0 <= k < cs.len() && cs[k] == c;
            if k < prev.len() {
                assert(cs[k] == prev[k]);
                assert(prev.contains(c));
                assert(init.contains(c));
                let j = choose|j: int| 0 <= j < init.len() && init[j] == c;
                assert(words[j] == init[j]);
            } else {
                assert(starts_with(words.last(), "#"@));
                assert(cs[k] == words.last());
                assert(words[words.len() - 1] == c);
            }
        }
    }
}

/// What the message asks: `Some(true)` to join, `Some(false)` to leave,
/// `None` for nothing.
pub open spec fn intent(is_owner: bool, msg: Seq<char>) -> Option<bool> {
    let t = split(msg, " "@);
    if !is_owner {
        None
    } else if t.contains("join"@) {
        Some(true)
    } else if t.contains("part"@) {
        Some(false)
    } else {
        None
    }
}

/// The view of a change: joining or not, and the channel.
pub open spec fn presence_view(p: Presence) -> (bool, Seq<char>) {
    match p {
        Presence::Join(c) => (true, c@),
        Presence::Part(c) => (false, c@),
    }
}

fn has_word(t: &Vec<String>, w: &str) -> (b: bool)
    ensures
        b == views(t@).contains(w@),
{
    let mut i: usize = 0;
    while i < t.len()
        invariant
            i <= t@.len(),
            forall|k: int| 0 <= k < i ==> views(t@)[k] != w@,
        decreases t@.len() - i,
    {
        assert(views(t@)[i as int] == t@[i as int]@);
        if str_eq(t[i].as_str(), w) {
            return true;
        }
        i = i + 1;
    }
    false
}

/// The channels to join or leave on a message `msg`; `is_owner` tells
/// whether its sender owns the bot.
pub fn process(is_owner: bool, msg: &str) -> (r: Vec<Presence>)
    ensures
        match intent(is_owner, msg@) {
            Some(join) => r@.len() == channels(split(msg@, " "@)).len() && forall|i: int|
                0 <= i < r@.len() ==> presence_view(#[trigger] r@[i]) == (join, channels(split(msg@, " "@))[i]),
            None => r@.len() == 0,
        },
{
    let mut r: Vec<Presence> = Vec::new();
    if !is_owner {
        return r;
    }
    let t = split_spaces(msg);
    let join = if has_word(&t, "join") {
        true
    } else if has_word(&t, "part") {
        false
    } else {
        return r;
    };
    let mut i: usize = 0;
    while i < t.len()
        invariant
            i <= t@.len(),
            views(t@) == split(msg@, " "@),
            r@.len() == channels(views(t@).take(i as int)).len(),
            forall|k: int|
                0 <= k < r@.len() ==> presence_view(#[trigger] r@[k]) == (join, channels(views(t@).take(i as int))[k]),
        decreases t@.len() - i,
    {
        assert(views(t@).take(i + 1).drop_last() =~= views(t@).take(i as int));
        assert(views(t@)[i as int] == t@[i as int]@);
        if starts_with_str(t[i].as_str(), "#") {
            let c = t[i].clone();
            if join {
                r.push(Presence::Join(c));
            } else {
                r.push(Presence::Part(c));
            }
        }
        i = i + 1;
    }
    assert(views(t@).take(t@.len() as int) =~= views(t@));
    r
}

} // verus!
