//! DuckDuckGo links: `@ddg <words>` is answered with a DuckDuckGo search
//! link, and Google search links found in a message are answered with the
//! same search on DuckDuckGo.

use vstd::prelude::*;
use vstd::string::*;
use vstd::utf8::encode_utf8;
use crate::reply::{Reply, reply_views};
use crate::text::{
    chars_of, contains, contains_str, ends_with, ends_with_str, find_exec, find_from, lemma_find_from, replace,
    replace_str, skip_chars, split, split_spaces, starts_with, starts_with_str, str_eq, string_of,
    views,
};

verus! {

/// The characters that tokenizing strips from both ends of a word.
pub open spec fn is_wrapping(c: char) -> bool {
    c == '(' || c == ')' || c == '{' || c == '}' || c == '[' || c == ']' || c == '<' || c == '>'
        || c == '.' || c == '!' || c == '?' || c == ','
}

fn is_wrapping_exec(c: char) -> (b: bool)
    ensures
        b == is_wrapping(c),
{
    c == '(' || c == ')' || c == '{' || c == '}' || c == '[' || c == ']' || c == '<' || c == '>'
        || c == '.' || c == '!' || c == '?' || c == ','
}

/// `s` without its leading wrapping characters.
pub open spec fn strip_start(s: Seq<char>) -> Seq<char>
    decreases s.len(),
{
    if s.len() > 0 && is_wrapping(s[0]) {
        strip_start(s.drop_first())
    } else {
        s
    }
}

/// `s` without its trailing wrapping characters.
pub open spec fn strip_end(s: Seq<char>) -> Seq<char>
    decreases s.len(),
{
    if s.len() > 0 && is_wrapping(s.last()) {
        strip_end(s.drop_last())
    } else {
        s
    }
}

/// `s` without wrapping characters at either end (what `str::trim_matches`
/// gives with that set).
pub open spec fn strip(s: Seq<char>) -> Seq<char> {
    strip_end(strip_start(s))
}

/// The words of a message: cut at single spaces, each stripped of
/// wrapping characters.
pub open spec fn tokens(msg: Seq<char>) -> Seq<Seq<char>> {
    split(msg, " "@).map_values(|w: Seq<char>| strip(w))
}

proof fn lemma_strip_start_skip(s: Seq<char>, i: int)
    requires
        0 <= i <= s.len(),
        forall|k: int| 0 <= k < i ==> is_wrapping(s[k]),
    ensures
        strip_start(s) == strip_start(s.skip(i)),
    decreases i,
{
    if i > 0 {
        lemma_strip_start_skip(s.drop_first(), i - 1);
        assert(s.drop_first().skip(i - 1) =~= s.skip(i));
    } else {
        assert(s.skip(0) =~= s);
    }
}

proof fn lemma_strip_end_take(s: Seq<char>, j: int)
    requires
        0 <= j <= s.len(),
        forall|k: int| j <= k < s.len() ==> is_wrapping(s[k]),
    ensures
        strip_end(s) == strip_end(s.take(j)),
    decreases s.len() - j,
{
    if j < s.len() {
        lemma_strip_end_take(s.drop_last(), j);
        assert(s.drop_last().take(j) =~= s.take(j));
    } else {
        assert(s.take(j) =~= s);
    }
}

/// `s` without wrapping characters at either end.
fn strip_str(s: &str) -> (r: String)
    ensures
        r@ == strip(s@),
{
    let v = chars_of(s);
    let n = v.len();
    let mut i: usize = 0;
    while i < n && is_wrapping_exec(v[i])
        invariant
            i <= n,
            n == v@.len(),
            forall|k: int| 0 <= k < i ==> is_wrapping(v@[k]),
        decreases n - i,
    {
        i = i + 1;
    }
    proof {
        lemma_strip_start_skip(v@, i as int);
    }
    let ghost u = v@.skip(i as int);
    assert(u.len() == 0 || !is_wrapping(u[0]));
    assert(strip_start(u) == u);
    let mut j: usize = n;
    while j > i && is_wrapping_exec(v[j - 1])
        invariant
            i <= j <= n,
            n == v@.len(),
            u == v@.skip(i as int),
            forall|k: int| j <= k < n ==> is_wrapping(v@[k]),
        decreases j,
    {
        j = j - 1;
    }
    proof {
        lemma_strip_end_take(u, j - i);
        assert(u.take(j - i) =~= v@.subrange(i as int, j as int));
    }
    string_of(&v, i, j)
}

/// The words of a message, cut at single spaces and stripped of wrapping
/// characters at both ends.
pub fn tokenize(msg: &str) -> (r: Vec<String>)
    ensures
        views(r@) == tokens(msg@),
{
    let words = split_spaces(msg);
    let mut r: Vec<String> = Vec::new();
    let mut i: usize = 0;
    while i < words.len()
        invariant
            i <= words@.len(),
            views(words@) == split(msg@, " "@),
            views(r@) == tokens(msg@).take(i as int),
        decreases words@.len() - i,
    {
        let w = strip_str(words[i].as_str());
        let ghost before = r@;
        r.push(w);
        proof {
            assert(views(words@)[i as int] == words@[i as int]@);
            assert(views(r@) =~= views(before).push(w@));
            assert(tokens(msg@).take(i + 1) =~= tokens(msg@).take(i as int).push(w@));
        }
        i = i + 1;
    }
    assert(tokens(msg@).take(words@.len() as int) =~= tokens(msg@));
    r
}


/// What the logic reads of a parsed URL: its serialization, its domain
/// (when the host is a domain name), its fragment (after `#`), and the
/// decoded name/value pairs of its query string.
#[derive(Debug, PartialEq, Eq)]
pub struct UrlParts {
    pub href: String,
    pub domain: Option<String>,
    pub fragment: Option<String>,
    pub query: Vec<(String, String)>,
}

/// The view of an optional string.
pub open spec fn opt_view(o: Option<String>) -> Option<Seq<char>> {
    match o {
        Some(s) => Some(s@),
        None => None,
    }
}

/// The views of name/value pairs.
pub open spec fn pair_views(v: Seq<(String, String)>) -> Seq<(Seq<char>, Seq<char>)> {
    v.map_values(|p: (String, String)| (p.0@, p.1@))
}

/// A parsed URL as mathematical values.
pub type UrlView = (Seq<char>, Option<Seq<char>>, Option<Seq<char>>, Seq<(Seq<char>, Seq<char>)>);

impl View for UrlParts {
    type V = UrlView;

    open spec fn view(&self) -> UrlView {
        (self.href@, opt_view(self.domain), opt_view(self.fragment), pair_views(self.query@))
    }
}

/// What `url::Url::parse` makes of a string, read as [`UrlParts`]: `None`
/// when the string is not an absolute URL.
pub uninterp spec fn url_parsed(s: Seq<char>) -> Option<UrlView>;

/// `url::Url::parse`, with the parsed URL read through `Url::as_str`,
/// `Url::domain`, `Url::fragment` and `Url::query_pairs`. The contract
/// only names the result; nothing of the URL grammar is stated.
#[verifier::external_body]
fn parse_url(s: &str) -> (r: Option<UrlParts>)
    ensures
        match r {
            Some(u) => url_parsed(s@) == Some(u@),
            None => url_parsed(s@) is None,
        },
{
    match url::Url::parse(s) {
        Ok(u) => Some(UrlParts {
            href: u.as_str().to_owned(),
            domain: u.domain().map(|d| d.to_owned()),
            fragment: u.fragment().map(|f| f.to_owned()),
            query: u.query_pairs().map(|(k, v)| (k.into_owned(), v.into_owned())).collect(),
        }),
        Err(_) => None,
    }
}

/// The URLs among some words, in order: those words that parse.
pub open spec fn parsed_urls(words: Seq<Seq<char>>) -> Seq<UrlView>
    decreases words.len(),
{
    if words.len() == 0 {
        Seq::empty()
    } else {
        parsed_urls(words.drop_last()) + match url_parsed(words.last()) {
            Some(u) => seq![u],
            None => Seq::empty(),
        }
    }
}

/// The views of a sequence of parsed URLs.
pub open spec fn url_views(v: Seq<UrlParts>) -> Seq<UrlView> {
    v.map_values(|u: UrlParts| u@)
}

/// The URLs in a message: its tokens that parse as URLs, in order.
pub fn find_urls(msg: &str) -> (r: Vec<UrlParts>)
    ensures
        url_views(r@) == parsed_urls(tokens(msg@)),
{
    let words = tokenize(msg);
    let mut r: Vec<UrlParts> = Vec::new();
    let mut i: usize = 0;
    while i < words.len()
        invariant
            i <= words@.len(),
            views(words@) == tokens(msg@),
            url_views(r@) == parsed_urls(tokens(msg@).take(i as int)),
        decreases words@.len() - i,
    {
        let ghost before = r@;
        proof {
            assert(tokens(msg@).take(i + 1).drop_last() =~= tokens(msg@).take(i as int));
            assert(views(words@)[i as int] == words@[i as int]@);
        }
        match parse_url(words[i].as_str()) {
            Some(u) => {
                r.push(u);
                assert(url_views(r@) =~= url_views(before).push(u@));
                assert(url_views(r@) =~= parsed_urls(tokens(msg@).take(i + 1)));
            },
            None => {
                assert(url_views(r@) =~= parsed_urls(tokens(msg@).take(i + 1)));
            },
        }
        i = i + 1;
    }
    assert(tokens(msg@).take(words@.len() as int) =~= tokens(msg@));
    r
}

/// The value of the first query pair named `q`.
pub open spec fn first_q(pairs: Seq<(Seq<char>, Seq<char>)>) -> Option<Seq<char>>
    decreases pairs.len(),
{
    if pairs.len() == 0 {
        None
    } else if pairs[0].0 == "q"@ {
        Some(pairs[0].1)
    } else {
        first_q(pairs.drop_first())
    }
}

proof fn lemma_first_q(pairs: Seq<(Seq<char>, Seq<char>)>, k: int)
    requires
        0 <= k <= pairs.len(),
        forall|j: int| 0 <= j < k ==> (#[trigger] pairs[j]).0 != "q"@,
    ensures
        first_q(pairs) == first_q(pairs.skip(k)),
    decreases k,
{
    if k > 0 {
        assert(pairs[0].0 != "q"@);
        lemma_first_q(pairs.drop_first(), k - 1);
        assert(pairs.drop_first().skip(k - 1) =~= pairs.skip(k));
    } else {
        assert(pairs.skip(0) =~= pairs);
    }
}

/// When the fragment of a Google URL holds no `q=`, its search is the
/// value of the first query pair named `q`, spaces turned into `+`, and
/// there is none when no pair is named `q`.
pub proof fn law_search_from_first_q_pair(u: UrlView, k: int)
    requires
        find_from(fragment_of(u), "q="@, 0) is None,
        0 <= k <= u.3.len(),
        forall|j: int| 0 <= j < k ==> (#[trigger] u.3[j]).0 != "q"@,
    ensures
        k < u.3.len() && u.3[k].0 == "q"@ ==> google_search(u) == Some(replace(u.3[k].1, " "@, "+"@)),
        k == u.3.len() ==> google_search(u) is None,
{
    lemma_first_q(u.3, k);
    if k < u.3.len() {
        assert(u.3.skip(k)[0] == u.3[k]);
    } else {
        assert(u.3.skip(k).len() == 0);
    }
}

/// The fragment of a URL, empty when it has none.
pub open spec fn fragment_of(u: UrlView) -> Seq<char> {
    match u.2 {
        Some(f) => f,
        None => Seq::empty(),
    }
}

/// Reading the search of the fragment does not slice backwards: when the
/// fragment holds `q=` and `&`, the first `&` is not before the end of
/// the first `q=`.
pub open spec fn fragment_readable(u: UrlView) -> bool {
    let f = fragment_of(u);
    match (find_from(f, "q="@, 0), find_from(f, "&"@, 0)) {
        (Some(start), Some(end)) => start + 2 <= end,
        _ => true,
    }
}

/// The search words of a Google search URL, spaces turned into `+`: taken
/// from the fragment (from after the first `q=` to the first `&`, or to the
/// end) when it holds `q=`, else from the first query pair named `q`.
pub open spec fn google_search(u: UrlView) -> Option<Seq<char>> {
    let f = fragment_of(u);
    match find_from(f, "q="@, 0) {
        Some(start) => {
            let item = match find_from(f, "&"@, 0) {
                Some(end) => f.subrange(start + 2, end),
                None => f.skip(start + 2),
            };
            Some(replace(item, " "@, "+"@))
        },
        None => match first_q(u.3) {
            Some(v) => Some(replace(v, " "@, "+"@)),
            None => None,
        },
    }
}

/// The search words of a Google search URL (see [`google_search`]).
pub fn google_query(u: &UrlParts) -> (r: Option<String>)
    requires
        fragment_readable(u@),
    ensures
        match r {
            Some(s) => google_search(u@) == Some(s@),
            None => google_search(u@) is None,
        },
{
    proof {
        reveal_strlit(" ");
        reveal_strlit("q=");
        reveal_strlit("&");
    }
    let f: Vec<char> = match &u.fragment {
        Some(f) => chars_of(f.as_str()),
        None => Vec::new(),
    };
    assert(f@ == fragment_of(u@));
    let q: Vec<char> = chars_of("q=");
    let amp: Vec<char> = chars_of("&");
    match find_exec(&f, &q, 0) {
        Some(start) => {
            proof {
                lemma_find_from(f@, q@, 0);
                lemma_find_from(f@, amp@, 0);
            }
            let item = match find_exec(&f, &amp, 0) {
                Some(end) => string_of(&f, start + 2, end),
                None => {
                    let fl = f.len();
                    assert(start + 2 <= fl);
                    let t = string_of(&f, start + 2, fl);
                    assert(t@ =~= f@.skip(start + 2));
                    t
                },
            };
            Some(replace_str(item.as_str(), " ", "+"))
        },
        None => {
            let mut i: usize = 0;
            assert(pair_views(u.query@).skip(0) =~= pair_views(u.query@));
            while i < u.query.len()
                invariant
                    i <= u.query@.len(),
                    " "@.len() > 0,
                    find_from(fragment_of(u@), "q="@, 0) is None,
                    first_q(pair_views(u.query@)) == first_q(pair_views(u.query@).skip(i as int)),
                decreases u.query@.len() - i,
            {
                let ghost rest = pair_views(u.query@).skip(i as int);
                assert(rest[0] == (u.query@[i as int].0@, u.query@[i as int].1@));
                if str_eq(u.query[i].0.as_str(), "q") {
                    assert(rest.len() > 0);
                    assert(first_q(rest) == Some(rest[0].1));
                    return Some(replace_str(u.query[i].1.as_str(), " ", "+"));
                }
                assert(rest.drop_first() =~= pair_views(u.query@).skip(i + 1));
                i = i + 1;
            }
            assert(pair_views(u.query@).skip(i as int) =~= Seq::<(Seq<char>, Seq<char>)>::empty());
            None
        },
    }
}


/// The bytes that `DEFAULT_ENCODE_SET` of the `url` crate percent-encodes:
/// controls, space, `"`, `#`, `<`, `>`, `` ` ``, `?`, `{`, `}`, DEL and
/// every non-ASCII byte.
pub open spec fn in_default_encode_set(b: u8) -> bool {
    b < 0x20 || b > 0x7e || b == 0x20 || b == 0x22 || b == 0x23 || b == 0x3c || b == 0x3e || b
        == 0x60 || b == 0x3f || b == 0x7b || b == 0x7d
}

/// An upper-case hexadecimal digit.
pub open spec fn hex_upper(d: int) -> char {
    if d < 10 {
        (48 + d) as char
    } else {
        (55 + d) as char
    }
}

/// Bytes percent-encoded with that set: a byte in the set becomes `%XX`
/// (two upper-case hexadecimal digits), any other byte the ASCII character
/// it is.
pub open spec fn percent_encoded(bytes: Seq<u8>) -> Seq<char>
    decreases bytes.len(),
{
    if bytes.len() == 0 {
        Seq::empty()
    } else {
        let b = bytes[0];
        (if in_default_encode_set(b) {
            seq!['%', hex_upper((b / 16) as int), hex_upper((b % 16) as int)]
        } else {
            seq![b as char]
        }) + percent_encoded(bytes.drop_first())
    }
}

/// `url::percent_encoding::utf8_percent_encode` with `DEFAULT_ENCODE_SET`,
/// rendered with `to_string`: the UTF-8 bytes of `s` percent-encoded as
/// [`percent_encoded`] states (which is what the crate's
/// `percent_encode_byte` table and `DEFAULT_ENCODE_SET` give).
#[verifier::external_body]
fn percent_encode_default(s: &str) -> (r: String)
    ensures
        r@ == percent_encoded(encode_utf8(s@)),
{
    url::percent_encoding::utf8_percent_encode(s, url::percent_encoding::DEFAULT_ENCODE_SET).to_string()
}

/// A DuckDuckGo search link addressed to `user`.
pub open spec fn ddg_link(user: Seq<char>, q: Seq<char>) -> Seq<char> {
    user + ": https://duckduckgo.com/?q="@ + q
}

/// The search of an `@ddg ` or `@search ` request: the message from its
/// sixth character on, percent-encoded, with each `%20` turned into `+`.
pub open spec fn search_words(msg: Seq<char>) -> Seq<char> {
    replace(percent_encoded(encode_utf8(msg.skip(5))), "%20"@, "+"@)
}

/// The URL's host is a domain ending with `google.com`.
pub open spec fn is_google(u: UrlView) -> bool {
    u.1 matches Some(d) && ends_with(d, "google.com"@)
}

/// Every Google URL among `urls` can be read (see [`fragment_readable`]).
pub open spec fn google_readable(urls: Seq<UrlView>) -> bool {
    forall|i: int| 0 <= i < urls.len() && is_google(#[trigger] urls[i]) ==> fragment_readable(urls[i])
}

/// The DuckDuckGo links that answer the Google searches among `urls`, in
/// order.
pub open spec fn google_answers(urls: Seq<UrlView>, user: Seq<char>) -> Seq<Seq<char>>
    decreases urls.len(),
{
    if urls.len() == 0 {
        Seq::empty()
    } else {
        google_answers(urls.drop_last(), user) + if is_google(urls.last()) {
            match google_search(urls.last()) {
                Some(q) => seq![ddg_link(user, q)],
                None => Seq::empty(),
            }
        } else {
            Seq::empty()
        }
    }
}

/// Every reply goes to `chan` and the texts are `texts`.
pub open spec fn replies_to(r: Seq<(Seq<char>, Seq<char>)>, chan: Seq<char>, texts: Seq<Seq<char>>) -> bool {
    r.len() == texts.len() && forall|i: int| 0 <= i < r.len() ==> #[trigger] r[i] == (chan, texts[i])
}

/// The answers, in channel `chan`, to the Google searches among `urls`.
pub fn google_replies(user: &str, chan: &str, urls: &Vec<UrlParts>) -> (r: Vec<Reply>)
    requires
        google_readable(url_views(urls@)),
    ensures
        replies_to(reply_views(r@), chan@, google_answers(url_views(urls@), user@)),
{
    let mut r: Vec<Reply> = Vec::new();
    let mut i: usize = 0;
    while i < urls.len()
        invariant
            i <= urls@.len(),
            google_readable(url_views(urls@)),
            replies_to(reply_views(r@), chan@, google_answers(url_views(urls@).take(i as int), user@)),
        decreases urls@.len() - i,
    {
        let u = &urls[i];
        let ghost uv = url_views(urls@)[i as int];
        assert(uv == u@);
        assert(url_views(urls@).take(i + 1).drop_last() =~= url_views(urls@).take(i as int));
        let google = match &u.domain {
            Some(d) => ends_with_str(d.as_str(), "google.com"),
            None => false,
        };
        if google {
            match google_query(u) {
                Some(q) => {
                    let mut t = user.to_owned();
                    t.append(": https://duckduckgo.com/?q=");
                    t.append(q.as_str());
                    let ghost before = r@;
                    r.push(Reply::new(chan.to_owned(), t));
                    assert(reply_views(r@) =~= reply_views(before).push((chan@, t@)));
                },
                None => {},
            }
        }
        assert(replies_to(reply_views(r@), chan@, google_answers(url_views(urls@).take(i + 1), user@)));
        i = i + 1;
    }
    assert(url_views(urls@).take(urls@.len() as int) =~= url_views(urls@));
    r
}

/// What is answered, in channel `chan`, to a message `msg` from `user`:
/// `None` when a Google URL in it cannot be read (the plugin would fail).
pub open spec fn answers(user: Seq<char>, msg: Seq<char>) -> Option<Seq<Seq<char>>> {
    if starts_with(msg, "@ddg "@) || starts_with(msg, "@search "@) {
        Some(seq![ddg_link(user, search_words(msg))])
    } else if contains(msg, "google.com"@) {
        let urls = parsed_urls(tokens(msg));
        if google_readable(urls) {
            Some(google_answers(urls, user))
        } else {
            None
        }
    } else {
        Some(Seq::empty())
    }
}

/// Answers a message `msg` that `user` sent to `chan`; `None` when a
/// Google URL in it cannot be read.
pub fn process(user: &str, chan: &str, msg: &str) -> (r: Option<Vec<Reply>>)
    ensures
        match r {
            Some(v) => answers(user@, msg@) matches Some(texts) && replies_to(reply_views(v@), chan@, texts),
            None => answers(user@, msg@) is None,
        },
{
    if starts_with_str(msg, "@ddg ") || starts_with_str(msg, "@search ") {
        proof {
            reveal_strlit("@ddg ");
            reveal_strlit("@search ");
            reveal_strlit("%20");
        }
        let item = skip_chars(msg, 5);
        let encoded = percent_encode_default(item.as_str());
        let search = replace_str(encoded.as_str(), "%20", "+");
        let mut t = user.to_owned();
        t.append(": https://duckduckgo.com/?q=");
        t.append(search.as_str());
        let mut v: Vec<Reply> = Vec::new();
        v.push(Reply::new(chan.to_owned(), t));
        assert(reply_views(v@) =~= seq![(chan@, t@)]);
        Some(v)
    } else if contains_str(msg, "google.com") {
        let urls = find_urls(msg);
        let mut i: usize = 0;
        while i < urls.len()
            invariant
                i <= urls@.len(),
                url_views(urls@) == parsed_urls(tokens(msg@)),
                !(starts_with(msg@, "@ddg "@) || starts_with(msg@, "@search "@)),
                contains(msg@, "google.com"@),
                forall|k: int| 0 <= k < i && is_google(#[trigger] url_views(urls@)[k]) ==> fragment_readable(url_views(urls@)[k]),
            decreases urls@.len() - i,
        {
            let u = &urls[i];
            assert(url_views(urls@)[i as int] == u@);
            let google = match &u.domain {
                Some(d) => ends_with_str(d.as_str(), "google.com"),
                None => false,
            };
            if google && !fragment_readable_exec(u) {
                proof {
                    let uv = url_views(urls@)[i as int];
                    assert(is_google(uv));
                    assert(!fragment_readable(uv));
                    assert(!google_readable(parsed_urls(tokens(msg@))));
                }
                return None;
            }
            i = i + 1;
        }
        Some(google_replies(user, chan, &urls))
    } else {
        let v: Vec<Reply> = Vec::new();
        assert(reply_views(v@) =~= Seq::empty());
        Some(v)
    }
}

/// Whether the search of the fragment can be read (see
/// [`fragment_readable`]).
fn fragment_readable_exec(u: &UrlParts) -> (b: bool)
    ensures
        b == fragment_readable(u@),
{
    let f: Vec<char> = match &u.fragment {
        Some(f) => chars_of(f.as_str()),
        None => Vec::new(),
    };
    assert(f@ == fragment_of(u@));
    let q: Vec<char> = chars_of("q=");
    let amp: Vec<char> = chars_of("&");
    match (find_exec(&f, &q, 0), find_exec(&f, &amp, 0)) {
        (Some(start), Some(end)) => start as u128 + 2 <= end as u128,
        _ => true,
    }
}

} // verus!
