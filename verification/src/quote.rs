//! Quotes: `@addquote <nick> <words>` remembers a quote, `@quote <n>` says
//! the `n`-th one, and `@quote` a random one.

use vstd::prelude::*;
use vstd::string::*;
use vstd::utf8::encode_utf8;
use crate::chance::random_below;
use crate::num::{decimal, law_decimal_reads_back, parse_usize_str, parsed_usize, push_decimal};
use crate::reply::{Reply, answer_target, answer_target_str};
use crate::text::{
    chars_of, join, lemma_first_two_words, split, split_spaces, str_eq,
    tail_after, tail_after_ok, tail_after_ok_str, tail_after_str, trim_end, trim_end_str,
};

verus! {

/// A remembered quote and who said it.
pub struct Quote {
    pub message: String,
    pub sender: String,
}

impl View for Quote {
    type V = (Seq<char>, Seq<char>);

    open spec fn view(&self) -> (Seq<char>, Seq<char>) {
        (self.message@, self.sender@)
    }
}

impl Quote {
    pub fn new(message: &str, sender: &str) -> (q: Quote)
        ensures
            q@ == (message@, sender@),
    {
        Quote { message: message.to_owned(), sender: sender.to_owned() }
    }
}

/// The quotes remembered on one server, numbered from 1 in the order they
/// were added.
pub struct Quotes {
    pub server: String,
    pub quotes: Vec<Quote>,
}

/// The views of a sequence of quotes.
pub open spec fn quote_views(v: Seq<Quote>) -> Seq<(Seq<char>, Seq<char>)> {
    v.map_values(|q: Quote| q@)
}

impl Quotes {
    /// No quotes yet (what is used when none could be loaded).
    pub fn new(server: &str) -> (q: Quotes)
        ensures
            q.server@ == server@,
            q.quotes@.len() == 0,
    {
        Quotes { server: server.to_owned(), quotes: Vec::new() }
    }

    /// Remembers a quote as the last one.
    pub fn add_quote(&mut self, message: &str, sender: &str)
        ensures
            final(self).server == old(self).server,
            quote_views(final(self).quotes@) == quote_views(old(self).quotes@).push((message@, sender@)),
    {
        let q = Quote::new(message, sender);
        self.quotes.push(q);
        assert(quote_views(self.quotes@) =~= quote_views(old(self).quotes@).push((message@, sender@)));
    }

    /// The `index`-th quote, counting from 1.
    pub fn get_quote(&self, index: usize) -> (r: Option<&Quote>)
        requires
            index >= 1,
        ensures
            match r {
                Some(q) => index <= self.quotes@.len() && *q == self.quotes@[index - 1],
                None => index > self.quotes@.len(),
            },
    {
        if index - 1 < self.quotes.len() {
            Some(&self.quotes[index - 1])
        } else {
            None
        }
    }

    /// A quote drawn at random; `None` when there is none.
    pub fn get_random_quote(&self) -> (r: Option<&Quote>)
        ensures
            match r {
                Some(q) => exists|i: int| 0 <= i < self.quotes@.len() && *q == self.quotes@[i],
                None => self.quotes@.len() == 0,
            },
    {
        if self.quotes.len() == 0 {
            None
        } else {
            let i = random_below(self.quotes.len());
            Some(&self.quotes[i])
        }
    }

    /// The number of the last quote: how many there are.
    pub fn get_latest_index(&self) -> (n: usize)
        ensures
            n == self.quotes@.len(),
    {
        self.quotes.len()
    }
}

/// The words of a message: split at single spaces once trailing white
/// space is removed.
pub open spec fn words(msg: Seq<char>) -> Seq<Seq<char>> {
    split(trim_end(msg), " "@)
}

/// `@addquote <nick> <words>`: the nick and the quote (everything after
/// the nick and one byte more).
pub open spec fn add_request(msg: Seq<char>) -> Option<(Seq<char>, Seq<char>)> {
    let t = words(msg);
    if t[0] == "@addquote"@ && t.len() > 1 {
        match tail_after(msg, 10 + t[1].len() as int, 0) {
            Some(q) => Some((t[1], q)),
            None => None,
        }
    } else {
        None
    }
}

/// `@quote <n>` where `<n>` reads as 0: the plugin would index the quote
/// before the first.
pub open spec fn asks_quote_zero(msg: Seq<char>) -> bool {
    let t = words(msg);
    t[0] == "@quote"@ && t.len() > 1 && parsed_usize(encode_utf8(t[1])) == Some(0usize)
}

/// The message can be handled without failing: reading a quote does not
/// cut a character in two, and no quote number 0 is asked for.
pub open spec fn handled(msg: Seq<char>) -> bool {
    let t = words(msg);
    &&& (t[0] == "@addquote"@ && t.len() > 1) ==> tail_after_ok(msg, 10 + t[1].len() as int, 0)
    &&& !asks_quote_zero(msg)
}

/// Whether a message can be handled (see [`handled`]).
pub fn is_handled(msg: &str) -> (b: bool)
    ensures
        b == handled(msg@),
{
    let trimmed = trim_end_str(msg);
    let t = split_spaces(trimmed.as_str());
    let readable = if str_eq(t[0].as_str(), "@addquote") && t.len() > 1 {
        proof {
            reveal_strlit("@addquote");
            lemma_first_two_words(msg@);
        }
        let n_chars = chars_of(msg).len();  // msg@ is no longer than usize::MAX
        assert(n_chars == msg@.len());
        tail_after_ok_str(msg, 10 + t[1].unicode_len(), 0)
    } else {
        true
    };
    let zero = str_eq(t[0].as_str(), "@quote") && t.len() > 1 && parse_usize_str(t[1].as_str())
        == Some(0usize);
    readable && !zero
}

/// How a quote is said: `<sender> message`.
pub open spec fn quote_line(q: (Seq<char>, Seq<char>)) -> Seq<char> {
    "<"@ + q.1 + "> "@ + q.0
}

/// The answer to a message, the quotes being `qs` before it (and `pick`
/// the one drawn for a bare `@quote`): `None` when it is not a request.
pub open spec fn answer(qs: Seq<(Seq<char>, Seq<char>)>, user: Seq<char>, msg: Seq<char>, pick: int) -> Option<Seq<char>> {
    let t = words(msg);
    match add_request(msg) {
        Some(_) => Some(user + ": I'll remember it as #"@ + decimal(qs.len() + 1) + "."@),
        None => if t[0] == "@quote"@ {
            if t.len() > 1 {
                match parsed_usize(encode_utf8(t[1])) {
                    Some(i) => if i <= qs.len() {
                        Some(quote_line(qs[i - 1]))
                    } else {
                        Some("There is no such quote."@)
                    },
                    None => Some("There is no such quote."@),
                }
            } else if qs.len() > 0 {
                Some(quote_line(qs[pick]))
            } else {
                Some("I don't know any quotes."@)
            }
        } else {
            None
        },
    }
}

fn quote_line_str(q: &Quote) -> (r: String)
    ensures
        r@ == quote_line(q@),
{
    let mut r = "<".to_owned();
    r.append(q.sender.as_str());
    r.append("> ");
    r.append(q.message.as_str());
    r
}

/// Handles a message `msg` from `user` to `chan`, `pick` being the quote
/// said for a bare `@quote` (when there are any): an `@addquote` request is
/// remembered, and requests are answered where the message came from.
pub fn process_with_pick(
    quotes: &mut Quotes,
    user: &str,
    chan: &str,
    bot_nick: &str,
    msg: &str,
    pick: usize,
) -> (r: Option<Reply>)
    requires
        handled(msg@),
        old(quotes).quotes@.len() > 0 ==> pick < old(quotes).quotes@.len(),
    ensures
        final(quotes).server == old(quotes).server,
        quote_views(final(quotes).quotes@) == match add_request(msg@) {
            Some(req) => quote_views(old(quotes).quotes@).push((req.1, req.0)),
            None => quote_views(old(quotes).quotes@),
        },
        match r {
            Some(reply) => reply.target@ == answer_target(chan@, bot_nick@, user@)
                && answer(quote_views(old(quotes).quotes@), user@, msg@, pick as int) == Some(reply.text@),
            None => answer(quote_views(old(quotes).quotes@), user@, msg@, pick as int) is None,
        },
{
    let resp = answer_target_str(chan, bot_nick, user);
    let trimmed = trim_end_str(msg);
    let t = split_spaces(trimmed.as_str());
    let ghost qs = quote_views(quotes.quotes@);
    if str_eq(t[0].as_str(), "@addquote") && t.len() > 1 {
        proof {
            reveal_strlit("@addquote");
            reveal_strlit(" ");
            lemma_first_two_words(msg@);
        }
        let n_chars = chars_of(msg).len();  // msg@ is no longer than usize::MAX
        let k = 10 + t[1].unicode_len();
        match tail_after_str(msg, k, 0) {
            Some(q) => {
                quotes.add_quote(q.as_str(), t[1].as_str());
                let mut a = user.to_owned();
                a.append(": I'll remember it as #");
                let n = quotes.get_latest_index();
                push_decimal(&mut a, n as u64);
                a.append(".");
                assert(quote_views(quotes.quotes@).len() == quotes.quotes@.len());
                assert(qs.len() + 1 == n);
                assert(a@ =~= user@ + ": I'll remember it as #"@ + decimal((qs.len() + 1) as nat) + "."@);
                return Some(Reply::new(resp, a));
            },
            None => {},
        }
    }
    if str_eq(t[0].as_str(), "@quote") {
        let text = if t.len() > 1 {
            match parse_usize_str(t[1].as_str()) {
                Some(i) => match quotes.get_quote(i) {
                    Some(q) => quote_line_str(q),
                    None => "There is no such quote.".to_owned(),
                },
                None => "There is no such quote.".to_owned(),
            }
        } else if quotes.quotes.len() > 0 {
            quote_line_str(&quotes.quotes[pick])
        } else {
            "I don't know any quotes.".to_owned()
        };
        Some(Reply::new(resp, text))
    } else {
        None
    }
}

/// Handles a message as [`process_with_pick`] does, drawing the quote for
/// a bare `@quote` at random.
pub fn process(quotes: &mut Quotes, user: &str, chan: &str, bot_nick: &str, msg: &str) -> (r: Option<Reply>)
    requires
        handled(msg@),
    ensures
        final(quotes).server == old(quotes).server,
        quote_views(final(quotes).quotes@) == match add_request(msg@) {
            Some(req) => quote_views(old(quotes).quotes@).push((req.1, req.0)),
            None => quote_views(old(quotes).quotes@),
        },
        match r {
            Some(reply) => reply.target@ == answer_target(chan@, bot_nick@, user@)
                && exists|pick: int| answer(quote_views(old(quotes).quotes@), user@, msg@, pick) == Some(reply.text@)
                    && (old(quotes).quotes@.len() > 0 ==> 0 <= pick < old(quotes).quotes@.len()),
            None => forall|pick: int| answer(quote_views(old(quotes).quotes@), user@, msg@, pick) is None,
        },
{
    let pick = if quotes.quotes.len() > 0 {
        random_below(quotes.quotes.len())
    } else {
        0
    };
    process_with_pick(quotes, user, chan, bot_nick, msg, pick)
}

/// `@quote <n>`, for every `n` from 1 to the number of quotes, says the
/// `n`-th quote added (`<sender> words`); a number past the last says
/// there is no such quote.
pub proof fn law_quote_n_is_the_nth(
    qs: Seq<(Seq<char>, Seq<char>)>,
    user: Seq<char>,
    msg: Seq<char>,
    pick: int,
    n: usize,
)
    requires
        words(msg).len() > 1,
        words(msg)[0] == "@quote"@,
        parsed_usize(encode_utf8(words(msg)[1])) == Some(n),
    ensures
        1 <= n <= qs.len() ==> answer(qs, user, msg, pick) == Some(
            "<"@ + qs[n - 1].1 + "> "@ + qs[n - 1].0,
        ),
        n > qs.len() ==> answer(qs, user, msg, pick) == Some("There is no such quote."@),
{
    reveal_strlit("@quote");
    reveal_strlit("@addquote");
    assert("@quote"@.len() != "@addquote"@.len());
    assert(add_request(msg) is None);
}

/// `@quote` followed by text that is not a number says there is no such
/// quote.
pub proof fn law_quote_not_a_number(qs: Seq<(Seq<char>, Seq<char>)>, user: Seq<char>, msg: Seq<char>, pick: int)
    requires
        words(msg).len() > 1,
        words(msg)[0] == "@quote"@,
        parsed_usize(encode_utf8(words(msg)[1])) is None,
    ensures
        answer(qs, user, msg, pick) == Some("There is no such quote."@),
{
    reveal_strlit("@quote");
    reveal_strlit("@addquote");
    assert("@quote"@.len() != "@addquote"@.len());
    assert(add_request(msg) is None);
}

/// The quote that an `@addquote` request adds: its words and who said them.
pub open spec fn added_quote(msg: Seq<char>) -> (Seq<char>, Seq<char>) {
    match add_request(msg) {
        Some(req) => (req.1, req.0),
        None => (Seq::empty(), Seq::empty()),
    }
}

/// A quote that `@addquote` takes is answered with its number, and asking
/// `@quote` with that number says the quote back.
pub proof fn law_added_quote_is_said_back(
    qs: Seq<(Seq<char>, Seq<char>)>,
    user: Seq<char>,
    msg: Seq<char>,
    pick: int,
    user2: Seq<char>,
    msg2: Seq<char>,
    pick2: int,
)
    requires
        add_request(msg) is Some,
        qs.len() + 1 <= usize::MAX,
        words(msg2) == seq!["@quote"@, decimal((qs.len() + 1) as nat)],
    ensures
        answer(qs, user, msg, pick) == Some(
            user + ": I'll remember it as #"@ + decimal((qs.len() + 1) as nat) + "."@,
        ),
        answer(qs.push(added_quote(msg)), user2, msg2, pick2) == Some(quote_line(added_quote(msg))),
{
    let req = add_request(msg)->0;
    let qs2 = qs.push(added_quote(msg));
    let n = (qs.len() + 1) as nat;
    law_decimal_reads_back(n);
    reveal_strlit("@quote");
    reveal_strlit("@addquote");
    assert(words(msg2)[0] == "@quote"@);
    assert("@quote"@.len() != "@addquote"@.len());
    assert(words(msg2)[0] != "@addquote"@);
    assert(add_request(msg2) is None);
    assert(parsed_usize(encode_utf8(words(msg2)[1])) == Some(n as usize));
    assert(qs2[n - 1] == (req.1, req.0));
}

} // verus!
