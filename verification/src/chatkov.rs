//! A Markov-chain chatter: every message that is not a command is
//! recorded (one sentence per line), and `@markov [<seed>]` is answered
//! with a sentence generated from what was recorded. The record is
//! written and read back by the caller.

use vstd::prelude::*;
use crate::reply::Reply;
use crate::text::{
    replace, replace_str, split, split_spaces, split_str, starts_with, starts_with_str, str_eq, views,
    lemma_white_space_words_not_empty, white_space_words, white_space_words_str,
};

verus! {

/// What a message asks of the chatter.
pub enum Chatkov {
    /// Record this text (the message with every `.` turned into a line
    /// break).
    Record(String),
    /// Generate a sentence, from this seed word if one is given.
    Generate(Option<String>),
    /// Nothing.
    Nothing,
}

/// What the chatter is asked: `Some(Ok(text))` to record `text`,
/// `Some(Err(seed))` to generate, `None` for nothing.
pub open spec fn request_of(msg: Seq<char>) -> Option<Result<Seq<char>, Option<Seq<char>>>> {
    let t = split(msg, " "@);
    if !starts_with(msg, "@"@) {
        Some(Ok(replace(msg, "."@, "\n"@)))
    } else if t[0] == "@markov"@ {
        Some(Err(if t.len() > 1 { Some(t[1]) } else { None }))
    } else {
        None
    }
}

/// Reads what a message asks of the chatter.
pub fn request(msg: &str) -> (r: Chatkov)
    ensures
        match r {
            Chatkov::Record(text) => request_of(msg@) == Some(Ok::<Seq<char>, Option<Seq<char>>>(text@)),
            Chatkov::Generate(seed) => request_of(msg@) == Some(Err::<Seq<char>, Option<Seq<char>>>(match seed {
                Some(s) => Some(s@),
                None => None,
            })),
            Chatkov::Nothing => request_of(msg@) is None,
        },
{
    if !starts_with_str(msg, "@") {
        proof {
            reveal_strlit(".");
        }
        return Chatkov::Record(replace_str(msg, ".", "\n"));
    }
    let t = split_spaces(msg);
    if str_eq(t[0].as_str(), "@markov") {
        if t.len() > 1 {
            Chatkov::Generate(Some(t[1].clone()))
        } else {
            Chatkov::Generate(None)
        }
    } else {
        Chatkov::Nothing
    }
}

/// The answer in `chan` to `user`, given the generated sentence (empty
/// when the seed was unknown).
pub fn reply(user: &str, chan: &str, generated: &str) -> (r: Reply)
    ensures
        r@ == (chan@, user@ + ": "@ + if generated@.len() > 0 {
            generated@
        } else {
            "That seed is unknown."@
        }),
{
    let mut t = user.to_owned();
    t.append(": ");
    if generated.unicode_len() > 0 {
        t.append(generated);
    } else {
        t.append("That seed is unknown.");
    }
    Reply::new(chan.to_owned(), t)
}

/// A Markov chain of words of order one (`markov::Chain<String>`). Verus
/// cannot declare the chain type itself (its parameter is bound by the
/// crate's `Chainable`), so it is held whole here.
#[verifier::external_body]
pub struct WordChain {
    chain: markov::Chain<String>,
}

/// The word lists a chain was fed, in order, each of them not empty.
pub uninterp spec fn fed(c: WordChain) -> Seq<Seq<Seq<char>>>;

/// Some word list that a chain was fed holds `word`.
pub open spec fn knows(lines: Seq<Seq<Seq<char>>>, word: Seq<char>) -> bool {
    exists|i: int, j: int| 0 <= i < lines.len() && 0 <= j < lines[i].len() && lines[i][j] == word
}

impl WordChain {
    /// `markov::Chain::new`: a chain of order one, fed nothing.
    #[verifier::external_body]
    fn new() -> (c: WordChain)
        ensures
            fed(c) == Seq::<Seq<Seq<char>>>::empty(),
    {
        WordChain { chain: markov::Chain::new() }
    }

    /// `markov::Chain::feed`: one more word list (an empty one changes
    /// nothing).
    #[verifier::external_body]
    fn feed(&mut self, words: &Vec<String>)
        ensures
            fed(*final(self)) == if words@.len() == 0 {
                fed(*old(self))
            } else {
                fed(*old(self)).push(views(words@))
            },
    {
        self.chain.feed(words);
    }

    /// `markov::Chain::is_empty`: nothing was fed.
    #[verifier::external_body]
    fn is_empty(&self) -> (b: bool)
        ensures
            b == (fed(*self).len() == 0),
    {
        self.chain.is_empty()
    }

    /// `markov::Chain::generate_str`: a sentence walked at random through
    /// the chain. Every walk starts at the first word of some word list fed
    /// (the words walked are joined by spaces); which one, and how it goes
    /// on, is left to chance. It panics on a chain fed nothing (it draws
    /// from an empty range), hence the bound.
    #[verifier::external_body]
    fn generate_str(&self) -> (r: String)
        requires
            fed(*self).len() > 0,
        ensures
            begins_some_list(r@, fed(*self)),
    {
        self.chain.generate_str()
    }

    /// `markov::Chain::generate_str_from_token`: a sentence walked at
    /// random from `word`; it begins with `word` when the chain knows it,
    /// and is empty otherwise.
    #[verifier::external_body]
    fn generate_str_from_token(&self, word: &str) -> (r: String)
        ensures
            knows(fed(*self), word@) ==> starts_with(r@, word@),
            !knows(fed(*self), word@) ==> r@.len() == 0,
    {
        self.chain.generate_str_from_token(word)
    }
}

/// `s` begins with the first word of some word list of `lines`.
pub open spec fn begins_some_list(s: Seq<char>, lines: Seq<Seq<Seq<char>>>) -> bool {
    exists|i: int| 0 <= i < lines.len() && starts_with(s, #[trigger] lines[i][0])
}

/// Every word list has a word, and every word a character.
pub open spec fn words_not_empty(lines: Seq<Seq<Seq<char>>>) -> bool {
    &&& forall|i: int| 0 <= i < lines.len() ==> #[trigger] lines[i].len() > 0
    &&& forall|i: int, j: int| 0 <= i < lines.len() && 0 <= j < lines[i].len() ==> #[trigger] lines[i][j].len() > 0
}

/// The word lists a record gives: its lines (cut at line breaks), each cut
/// into its words at white space; lines without words give none.
pub open spec fn record_lines(lines: Seq<Seq<char>>) -> Seq<Seq<Seq<char>>>
    decreases lines.len(),
{
    if lines.len() == 0 {
        Seq::empty()
    } else {
        let w = white_space_words(lines.last());
        record_lines(lines.drop_last()) + if w.len() == 0 {
            Seq::<Seq<Seq<char>>>::empty()
        } else {
            seq![w]
        }
    }
}

/// A chain fed the record `text`, line by line, as `Chain::feed_file`
/// feeds a file.
pub fn chain_of(text: &str) -> (c: WordChain)
    ensures
        fed(c) == record_lines(split(text@, "\n"@)),
        words_not_empty(fed(c)),
{
    proof {
        reveal_strlit("\n");
    }
    let lines = split_str(text, "\n");
    let mut c = WordChain::new();
    let mut k: usize = 0;
    while k < lines.len()
        invariant
            k <= lines@.len(),
            views(lines@) == split(text@, "\n"@),
            fed(c) == record_lines(views(lines@).take(k as int)),
            words_not_empty(fed(c)),
        decreases lines@.len() - k,
    {
        let words = white_space_words_str(lines[k].as_str());
        proof {
            lemma_white_space_words_not_empty(lines@[k as int]@);
        }
        let ghost before = fed(c);
        c.feed(&words);
        proof {
            let f = fed(c);
            assert forall|i: int| 0 <= i < f.len() implies #[trigger] f[i].len() > 0 by {
                if i < before.len() {
                    assert(f[i] == before[i]);
                }
            }
            assert forall|i: int, j: int| 0 <= i < f.len() && 0 <= j < f[i].len() implies #[trigger] f[i][j].len() > 0 by {
                if i < before.len() {
                    assert(f[i] == before[i]);
                } else {
                    assert(f[i] == views(words@));
                    assert(views(words@)[j] == white_space_words(lines@[k as int]@)[j]);
                }
            }
        }
        assert(views(lines@).take(k + 1).drop_last() =~= views(lines@).take(k as int));
        assert(views(lines@)[k as int] == lines@[k as int]@);
        k = k + 1;
    }
    assert(views(lines@).take(lines@.len() as int) =~= views(lines@));
    c
}

/// Whether the chain was fed anything.
pub fn has_words(chain: &WordChain) -> (b: bool)
    ensures
        b == (fed(*chain).len() > 0),
{
    !chain.is_empty()
}

/// A sentence generated from the chain, from `seed` when one is given: it
/// begins with the seed when the chain knows it, and is empty when not.
/// Without a seed the chain must have been fed something, and the sentence
/// begins with the first word of some word list fed (so it is not empty
/// when no word is).
pub fn generate(chain: &WordChain, seed: &Option<String>) -> (r: String)
    requires
        seed is None ==> fed(*chain).len() > 0,
    ensures
        seed is None ==> begins_some_list(r@, fed(*chain)),
        seed is None && words_not_empty(fed(*chain)) ==> r@.len() > 0,
        seed matches Some(s) ==> (knows(fed(*chain), s@) ==> starts_with(r@, s@)) && (!knows(
            fed(*chain),
            s@,
        ) ==> r@.len() == 0),
{
    match seed {
        Some(s) => chain.generate_str_from_token(s.as_str()),
        None => {
            let r = chain.generate_str();
            proof {
                let f = fed(*chain);
                let i = choose|i: int| 0 <= i < f.len() && starts_with(r@, #[trigger] f[i][0]);
                if words_not_empty(f) {
                    assert(f[i].len() > 0);
                    assert(f[i][0].len() > 0);
                }
            }
            r
        },
    }
}

} // verus!

