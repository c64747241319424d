//! Character-level string operations with their mathematical meaning:
//! prefix and suffix tests, searching, splitting, replacing and trimming,
//! all stated over `Seq<char>`, the view of `str` and `String`.

use vstd::prelude::*;
use vstd::string::*;
use vstd::utf8::encode_utf8;

verus! {

/// `p` is a prefix of `s`.
pub open spec fn starts_with(s: Seq<char>, p: Seq<char>) -> bool {
    p.len() <= s.len() && s.subrange(0, p.len() as int) == p
}

/// `p` is a suffix of `s`.
pub open spec fn ends_with(s: Seq<char>, p: Seq<char>) -> bool {
    p.len() <= s.len() && s.subrange(s.len() - p.len(), s.len() as int) == p
}

/// `p` occurs in `s` starting at position `i`.
pub open spec fn matches_at(s: Seq<char>, p: Seq<char>, i: int) -> bool {
    0 <= i && i + p.len() <= s.len() && s.subrange(i, i + p.len()) == p
}

/// The first position at or after `i` where `p` occurs in `s`.
pub open spec fn find_from(s: Seq<char>, p: Seq<char>, i: int) -> Option<int>
    decreases s.len() - i,
{
    if i < 0 || i + p.len() > s.len() {
        None
    } else if p.len() == 0 || matches_at(s, p, i) {
        Some(i)
    } else {
        find_from(s, p, i + 1)
    }
}

/// `p` occurs somewhere in `s`.
pub open spec fn contains(s: Seq<char>, p: Seq<char>) -> bool {
    find_from(s, p, 0) is Some
}

pub proof fn lemma_find_from(s: Seq<char>, p: Seq<char>, i: int)
    requires
        0 <= i,
    ensures
        find_from(s, p, i) matches Some(j) ==> i <= j && matches_at(s, p, j)
            && forall|k: int| i <= k < j ==> !matches_at(s, p, k),
        find_from(s, p, i) is None ==> forall|k: int| i <= k ==> !matches_at(s, p, k),
    decreases s.len() - i,
{
    if i < 0 || i + p.len() > s.len() {
    } else if p.len() == 0 || matches_at(s, p, i) {
        assert(s.subrange(i, i + p.len()) =~= p) by {
            if p.len() != 0 {
            }
        }
    } else {
        lemma_find_from(s, p, i + 1);
    }
}


/// The pieces of `s` from position `pos` on, cut at each occurrence of `sep`,
/// searching left to right without overlap (the meaning of `str::split`).
pub open spec fn split_from(s: Seq<char>, sep: Seq<char>, pos: int) -> Seq<Seq<char>>
    decreases s.len() - pos,
{
    if sep.len() == 0 || pos < 0 || pos > s.len() {
        seq![s.subrange(pos, s.len() as int)]
    } else {
        match find_from(s, sep, pos) {
            None => seq![s.subrange(pos, s.len() as int)],
            Some(i) => {
                proof {
                    lemma_find_from(s, sep, pos);
                }
                seq![s.subrange(pos, i)] + split_from(s, sep, i + sep.len())
            },
        }
    }
}

/// `s` cut at each occurrence of `sep`.
pub open spec fn split(s: Seq<char>, sep: Seq<char>) -> Seq<Seq<char>> {
    split_from(s, sep, 0)
}

/// The pieces put back together with `sep` between neighbours.
pub open spec fn join(parts: Seq<Seq<char>>, sep: Seq<char>) -> Seq<char>
    decreases parts.len(),
{
    if parts.len() == 0 {
        Seq::empty()
    } else if parts.len() == 1 {
        parts[0]
    } else {
        parts[0] + sep + join(parts.drop_first(), sep)
    }
}

/// `s` from position `pos` on, with each occurrence of `pat` (left to right,
/// without overlap) replaced by `rep` (the meaning of `str::replace`).
pub open spec fn replace_from(s: Seq<char>, pat: Seq<char>, rep: Seq<char>, pos: int) -> Seq<char>
    decreases s.len() - pos,
{
    if pat.len() == 0 || pos < 0 || pos > s.len() {
        s.subrange(pos, s.len() as int)
    } else {
        match find_from(s, pat, pos) {
            None => s.subrange(pos, s.len() as int),
            Some(i) => {
                proof {
                    lemma_find_from(s, pat, pos);
                }
                s.subrange(pos, i) + rep + replace_from(s, pat, rep, i + pat.len())
            },
        }
    }
}

/// `s` with each occurrence of `pat` replaced by `rep`.
pub open spec fn replace(s: Seq<char>, pat: Seq<char>, rep: Seq<char>) -> Seq<char> {
    replace_from(s, pat, rep, 0)
}

/// The views of a sequence of strings.
pub open spec fn views(v: Seq<String>) -> Seq<Seq<char>> {
    v.map_values(|x: String| x@)
}

/// Splitting gives at least one piece.
pub proof fn lemma_split_nonempty(s: Seq<char>, sep: Seq<char>)
    ensures
        split(s, sep).len() >= 1,
{
    lemma_split_from_nonempty(s, sep, 0);
}

proof fn lemma_split_from_nonempty(s: Seq<char>, sep: Seq<char>, pos: int)
    ensures
        split_from(s, sep, pos).len() >= 1,
    decreases s.len() - pos,
{
    if sep.len() == 0 || pos < 0 || pos > s.len() {
    } else {
        match find_from(s, sep, pos) {
            None => {},
            Some(i) => {
                lemma_find_from(s, sep, pos);
                lemma_split_from_nonempty(s, sep, i + sep.len());
            },
        }
    }
}

proof fn lemma_join_split_from(s: Seq<char>, sep: Seq<char>, pos: int)
    requires
        sep.len() > 0,
        0 <= pos <= s.len(),
    ensures
        join(split_from(s, sep, pos), sep) == s.subrange(pos, s.len() as int),
        replace_from(s, sep, sep, pos) == s.subrange(pos, s.len() as int),
    decreases s.len() - pos,
{
    match find_from(s, sep, pos) {
        None => {},
        Some(i) => {
            lemma_find_from(s, sep, pos);
            let rest = split_from(s, sep, i + sep.len());
            lemma_join_split_from(s, sep, i + sep.len());
            lemma_split_from_nonempty(s, sep, i + sep.len());
            let parts = split_from(s, sep, pos);
            assert(parts == seq![s.subrange(pos, i)] + rest);
            assert(parts.drop_first() =~= rest);
            assert(s.subrange(pos, i) + sep + s.subrange(i + sep.len(), s.len() as int)
                =~= s.subrange(pos, s.len() as int));
        },
    }
}

/// Splitting at a separator and joining the pieces with it gives the
/// string back, and so does replacing a pattern by itself.
pub proof fn lemma_join_split(s: Seq<char>, sep: Seq<char>)
    requires
        sep.len() > 0,
    ensures
        join(split(s, sep), sep) == s,
        replace(s, sep, sep) == s,
{
    lemma_join_split_from(s, sep, 0);
    assert(s.subrange(0, s.len() as int) =~= s);
}

proof fn lemma_replace_from_is_join(s: Seq<char>, pat: Seq<char>, rep: Seq<char>, pos: int)
    requires
        pat.len() > 0,
        0 <= pos <= s.len(),
    ensures
        replace_from(s, pat, rep, pos) == join(split_from(s, pat, pos), rep),
    decreases s.len() - pos,
{
    match find_from(s, pat, pos) {
        None => {},
        Some(i) => {
            lemma_find_from(s, pat, pos);
            lemma_replace_from_is_join(s, pat, rep, i + pat.len());
            lemma_split_from_nonempty(s, pat, i + pat.len());
            let rest = split_from(s, pat, i + pat.len());
            let parts = split_from(s, pat, pos);
            assert(parts.drop_first() =~= rest);
        },
    }
}

/// Replacing a pattern is splitting at it and joining with the replacement.
pub proof fn lemma_replace_is_join_split(s: Seq<char>, pat: Seq<char>, rep: Seq<char>)
    requires
        pat.len() > 0,
    ensures
        replace(s, pat, rep) == join(split(s, pat), rep),
{
    lemma_replace_from_is_join(s, pat, rep, 0);
}

/// Joining one more piece adds the separator and the piece at the end.
/// Each piece occurs in the pieces joined.
pub proof fn lemma_join_contains_part(parts: Seq<Seq<char>>, sep: Seq<char>, i: int)
    requires
        0 <= i < parts.len(),
    ensures
        contains(join(parts, sep), parts[i]),
    decreases parts.len(),
{
    let j = join(parts, sep);
    let pos: int = if i == 0 {
        if parts.len() > 1 {
            assert(j.subrange(0, parts[0].len() as int) =~= parts[0]);
        } else {
            assert(j.subrange(0, parts[0].len() as int) =~= parts[0]);
        }
        0
    } else {
        let rest = parts.drop_first();
        lemma_join_contains_part(rest, sep, i - 1);
        let jr = join(rest, sep);
        lemma_find_from(jr, rest[i - 1], 0);
        let q = find_from(jr, rest[i - 1], 0)->0;
        let off = parts[0].len() + sep.len();
        assert(j == parts[0] + sep + jr);
        assert(j.subrange(off + q, off + q + parts[i].len()) =~= jr.subrange(q, q + parts[i].len()));
        off + q
    };
    assert(matches_at(j, parts[i], pos));
    lemma_find_from(j, parts[i], 0);
}

pub proof fn lemma_join_push(parts: Seq<Seq<char>>, x: Seq<char>, sep: Seq<char>)
    requires
        parts.len() >= 1,
    ensures
        join(parts.push(x), sep) == join(parts, sep) + sep + x,
    decreases parts.len(),
{
    let q = parts.push(x);
    if parts.len() == 1 {
        assert(q.drop_first() =~= seq![x]);
        assert(join(q.drop_first(), sep) == x);
        assert(join(q, sep) == q[0] + sep + join(q.drop_first(), sep));
    } else {
        lemma_join_push(parts.drop_first(), x, sep);
        assert(q.drop_first() =~= parts.drop_first().push(x));
        assert(join(q, sep) == q[0] + sep + join(q.drop_first(), sep));
        assert(join(parts, sep) == parts[0] + sep + join(parts.drop_first(), sep));
        assert(join(q, sep) =~= join(parts, sep) + sep + x);
    }
}

/// Joining splits at any inner position into the two joined halves.
pub proof fn lemma_join_take(parts: Seq<Seq<char>>, k: int, sep: Seq<char>)
    requires
        1 <= k < parts.len(),
    ensures
        join(parts, sep) == join(parts.take(k), sep) + sep + join(parts.skip(k), sep),
    decreases k,
{
    let df = parts.drop_first();
    assert(join(parts, sep) == parts[0] + sep + join(df, sep));
    if k == 1 {
        assert(parts.take(1) =~= seq![parts[0]]);
        assert(parts.skip(1) =~= df);
    } else {
        lemma_join_take(df, k - 1, sep);
        let tk = parts.take(k);
        assert(tk.drop_first() =~= df.take(k - 1));
        assert(join(tk, sep) == tk[0] + sep + join(tk.drop_first(), sep));
        assert(parts.skip(k) =~= df.skip(k - 1));
        assert(join(parts, sep) =~= join(parts.take(k), sep) + sep + join(parts.skip(k), sep));
    }
}

/// The first `k` pieces of a split, joined, and followed by the separator,
/// begin the string.
pub proof fn lemma_split_prefix(s: Seq<char>, sep: Seq<char>, k: int)
    requires
        sep.len() > 0,
        1 <= k < split(s, sep).len(),
    ensures
        starts_with(s, join(split(s, sep).take(k), sep) + sep),
{
    let t = split(s, sep);
    lemma_join_split(s, sep);
    lemma_join_take(t, k, sep);
    let p = join(t.take(k), sep) + sep;
    assert(s == p + join(t.skip(k), sep));
    assert(s.subrange(0, p.len() as int) =~= p);
}

/// The first `k` pieces of a split, joined, begin the string.
pub proof fn lemma_split_starts(s: Seq<char>, sep: Seq<char>, k: int)
    requires
        sep.len() > 0,
        1 <= k <= split(s, sep).len(),
    ensures
        starts_with(s, join(split(s, sep).take(k), sep)),
{
    let t = split(s, sep);
    lemma_join_split(s, sep);
    if k < t.len() {
        lemma_split_prefix(s, sep, k);
        let p = join(t.take(k), sep);
        let q = p + sep;
        assert(s.subrange(0, q.len() as int) == q);
        assert(s.subrange(0, p.len() as int) =~= s.subrange(0, q.len() as int).subrange(0, p.len() as int));
        assert(s.subrange(0, p.len() as int) =~= q.subrange(0, p.len() as int));
        assert(q.subrange(0, p.len() as int) =~= p);
    } else {
        assert(t.take(k) =~= t);
        assert(s.subrange(0, s.len() as int) =~= s);
    }
}

/// Two pieces joined.
pub proof fn lemma_join2(a: Seq<char>, b: Seq<char>, sep: Seq<char>)
    ensures
        join(seq![a, b], sep) == a + sep + b,
{
    let q = seq![a, b];
    assert(q.drop_first() =~= seq![b]);
    assert(join(seq![b], sep) == b);
    assert(join(q, sep) == q[0] + sep + join(q.drop_first(), sep));
}

/// A message begins with its first `k` words, rejoined by spaces (the
/// words being those of the message without its trailing white space).
pub proof fn lemma_words_prefix(msg: Seq<char>, k: int)
    requires
        1 <= k <= split(trim_end(msg), " "@).len(),
    ensures
        starts_with(msg, join(split(trim_end(msg), " "@).take(k), " "@)),
{
    reveal_strlit(" ");
    lemma_trim_end_prefix(msg);
    lemma_split_starts(trim_end(msg), " "@, k);
    let p = join(split(trim_end(msg), " "@).take(k), " "@);
    assert(msg.subrange(0, p.len() as int) =~= trim_end(msg).subrange(0, p.len() as int));
}

/// A message of at least two words begins with the first, a space and the
/// second.
pub proof fn lemma_first_two_words(msg: Seq<char>)
    requires
        split(trim_end(msg), " "@).len() >= 2,
    ensures
        starts_with(
            msg,
            split(trim_end(msg), " "@)[0] + " "@ + split(trim_end(msg), " "@)[1],
        ),
{
    let w = split(trim_end(msg), " "@);
    lemma_words_prefix(msg, 2);
    assert(w.take(2) =~= seq![w[0], w[1]]);
    lemma_join2(w[0], w[1], " "@);
}

/// Three pieces joined.
pub proof fn lemma_join3(a: Seq<char>, b: Seq<char>, c: Seq<char>, sep: Seq<char>)
    ensures
        join(seq![a, b, c], sep) == a + sep + b + sep + c,
{
    assert(seq![a, b, c].drop_first() =~= seq![b, c]);
    lemma_join2(b, c, sep);
    assert(join(seq![a, b, c], sep) =~= a + sep + b + sep + c);
}

proof fn lemma_find_space_after(s: Seq<char>, p: Seq<char>, i: int)
    requires
        0 <= i <= p.len(),
        starts_with(s, p + " "@),
        forall|k: int| 0 <= k < p.len() ==> p[k] != ' ',
        " "@ == seq![' '],
    ensures
        find_from(s, " "@, i) == Some(p.len() as int),
    decreases p.len() - i,
{
    let q = p + " "@;
    assert(s.subrange(0, q.len() as int) == q);
    assert(s[p.len() as int] == s.subrange(0, q.len() as int)[p.len() as int]);
    assert(s[p.len() as int] == q[p.len() as int]);
    if i < p.len() {
        assert(s[i] == s.subrange(0, q.len() as int)[i]);
        assert(s[i] == q[i]);
        assert(s[i] == p[i]);
        assert(!matches_at(s, " "@, i)) by {
            if matches_at(s, " "@, i) {
                assert(s.subrange(i, i + 1)[0] == s[i]);
            }
        }
        lemma_find_space_after(s, p, i + 1);
    } else {
        assert(s.subrange(i, i + 1) =~= " "@);
    }
}

/// A string that begins with a word `p` (holding no space) and a space
/// splits into `p` and at least one more piece.
pub proof fn lemma_split_after_word(s: Seq<char>, p: Seq<char>)
    requires
        starts_with(s, p + " "@),
        forall|k: int| 0 <= k < p.len() ==> p[k] != ' ',
    ensures
        split(s, " "@).len() >= 2,
        split(s, " "@)[0] == p,
{
    reveal_strlit(" ");
    assert(" "@ =~= seq![' ']);
    lemma_find_space_after(s, p, 0);
    lemma_split_from_nonempty(s, " "@, p.len() + 1int);
    assert(s.subrange(0, p.len() as int) =~= (p + " "@).subrange(0, p.len() as int));
    assert(s.subrange(0, p.len() as int) =~= p);
}

/// Trimming the end leaves a beginning of the string.
pub proof fn lemma_trim_end_prefix(s: Seq<char>)
    ensures
        starts_with(s, trim_end(s)),
    decreases s.len(),
{
    if s.len() > 0 && is_white_space(s.last()) {
        lemma_trim_end_prefix(s.drop_last());
        assert(s.subrange(0, trim_end(s).len() as int) =~= s.drop_last().subrange(
            0,
            trim_end(s).len() as int,
        ));
    } else {
        assert(s.subrange(0, s.len() as int) =~= s);
    }
}

/// Appends one character to a string: `String::push` of std.
#[verifier::external_body]
pub(crate) fn push_char(s: &mut String, c: char)
    ensures
        final(s)@ == old(s)@.push(c),
{
    s.push(c);
}

/// The characters of a string.
pub fn chars_of(s: &str) -> (v: Vec<char>)
    ensures
        v@ == s@,
{
    let n = s.unicode_len();
    let mut v: Vec<char> = Vec::new();
    let mut i: usize = 0;
    while i < n
        invariant
            i <= n,
            n == s@.len(),
            v@ == s@.subrange(0, i as int),
        decreases n - i,
    {
        v.push(s.get_char(i));
        i = i + 1;
    }
    assert(s@.subrange(0, n as int) =~= s@);
    v
}

/// A string made of `v[from..to]`.
pub fn string_of(v: &Vec<char>, from: usize, to: usize) -> (r: String)
    requires
        from <= to <= v@.len(),
    ensures
        r@ == v@.subrange(from as int, to as int),
{
    let mut r = String::new();
    let mut i: usize = from;
    while i < to
        invariant
            from <= i <= to <= v@.len(),
            r@ == v@.subrange(from as int, i as int),
        decreases to - i,
    {
        push_char(&mut r, v[i]);
        assert(v@.subrange(from as int, i + 1) =~= v@.subrange(from as int, i as int).push(v@[i as int]));
        i = i + 1;
    }
    r
}

/// Whether `p` occurs in `s` at position `i`.
pub fn matches_at_exec(s: &Vec<char>, p: &Vec<char>, i: usize) -> (b: bool)
    ensures
        b == matches_at(s@, p@, i as int),
{
    if p.len() > s.len() || i > s.len() - p.len() {
        return false;
    }
    let mut k: usize = 0;
    while k < p.len()
        invariant
            i + p@.len() <= s@.len(),
            s@.len() <= usize::MAX,
            k <= p@.len(),
            forall|m: int| 0 <= m < k ==> s@[i + m] == p@[m],
        decreases p@.len() - k,
    {
        if s[i + k] != p[k] {
            assert(s@.subrange(i as int, i + p@.len())[k as int] != p@[k as int]);
            return false;
        }
        k = k + 1;
    }
    assert(s@.subrange(i as int, i + p@.len()) =~= p@);
    true
}

/// The first position at or after `i` where `p` occurs in `s`.
pub fn find_exec(s: &Vec<char>, p: &Vec<char>, i: usize) -> (r: Option<usize>)
    ensures
        match r {
            Some(j) => find_from(s@, p@, i as int) == Some(j as int),
            None => find_from(s@, p@, i as int) is None,
        },
{
    let mut j: usize = i;
    while j <= s.len()
        invariant
            i <= j,
            find_from(s@, p@, i as int) == find_from(s@, p@, j as int),
        decreases s@.len() + 1 - j,
    {
        if p.len() > s.len() || j > s.len() - p.len() {
            return None;
        }
        if p.len() == 0 || matches_at_exec(s, p, j) {
            return Some(j);
        }
        j = j + 1;
    }
    None
}


/// `s` cut at each occurrence of `sep`, as `str::split` does.
pub fn split_str(s: &str, sep: &str) -> (r: Vec<String>)
    requires
        sep@.len() > 0,
    ensures
        views(r@) == split(s@, sep@),
{
    let v = chars_of(s);
    let p = chars_of(sep);
    let mut r: Vec<String> = Vec::new();
    let mut pos: usize = 0;
    loop
        invariant
            pos <= v@.len(),
            v@ == s@,
            p@ == sep@,
            p@.len() > 0,
            views(r@) + split_from(v@, p@, pos as int) == split(v@, p@),
        decreases v@.len() - pos,
    {
        let ghost before = r@;
        match find_exec(&v, &p, pos) {
            None => {
                let last = string_of(&v, pos, v.len());
                r.push(last);
                assert(views(r@) =~= views(before).push(last@));
                assert(views(r@) =~= views(before) + split_from(v@, p@, pos as int));
                return r;
            },
            Some(i) => {
                proof {
                    lemma_find_from(v@, p@, pos as int);
                }
                let piece = string_of(&v, pos, i);
                r.push(piece);
                assert(views(r@) =~= views(before).push(piece@));
                assert(split_from(v@, p@, pos as int) == seq![piece@] + split_from(
                    v@,
                    p@,
                    i + p@.len(),
                ));
                assert(views(before) + split_from(v@, p@, pos as int) =~= views(r@)
                    + split_from(v@, p@, i + p@.len()));
                let total = v.len();
                assert(i + p@.len() <= total);
                pos = i + p.len();
            },
        }
    }
}

/// The words of `s`: `s` cut at each single space, as `str::split(' ')` does.
pub fn split_spaces(s: &str) -> (r: Vec<String>)
    ensures
        views(r@) == split(s@, " "@),
        r@.len() >= 1,
        forall|i: int| 0 <= i < r@.len() ==> #[trigger] r@[i]@ == split(s@, " "@)[i],
{
    proof {
        reveal_strlit(" ");
        lemma_split_nonempty(s@, " "@);
    }
    let r = split_str(s, " ");
    assert forall|i: int| 0 <= i < r@.len() implies #[trigger] r@[i]@ == split(s@, " "@)[i] by {
        assert(views(r@)[i] == r@[i]@);
    }
    r
}

/// `s` with each occurrence of `pat` replaced by `rep`, as `str::replace` does.
pub fn replace_str(s: &str, pat: &str, rep: &str) -> (r: String)
    requires
        pat@.len() > 0,
    ensures
        r@ == replace(s@, pat@, rep@),
{
    let v = chars_of(s);
    let p = chars_of(pat);
    let mut r = String::new();
    let mut pos: usize = 0;
    loop
        invariant
            pos <= v@.len(),
            v@ == s@,
            p@ == pat@,
            p@.len() > 0,
            r@ + replace_from(v@, p@, rep@, pos as int) == replace(v@, p@, rep@),
        decreases v@.len() - pos,
    {
        let ghost before = r@;
        match find_exec(&v, &p, pos) {
            None => {
                let last = string_of(&v, pos, v.len());
                r.append(last.as_str());
                return r;
            },
            Some(i) => {
                proof {
                    lemma_find_from(v@, p@, pos as int);
                }
                let piece = string_of(&v, pos, i);
                r.append(piece.as_str());
                r.append(rep);
                assert(before + replace_from(v@, p@, rep@, pos as int) =~= r@ + replace_from(
                    v@,
                    p@,
                    rep@,
                    i + p@.len(),
                ));
                let total = v.len();
                assert(i + p@.len() <= total);
                pos = i + p.len();
            },
        }
    }
}

/// Whether `p` is a prefix of `s`.
pub fn starts_with_str(s: &str, p: &str) -> (b: bool)
    ensures
        b == starts_with(s@, p@),
{
    let v = chars_of(s);
    let w = chars_of(p);
    let b = matches_at_exec(&v, &w, 0);
    proof {
        if b {
            assert(starts_with(s@, p@));
        }
        if starts_with(s@, p@) {
            assert(matches_at(v@, w@, 0));
        }
    }
    b
}

/// Whether `p` is a suffix of `s`.
pub fn ends_with_str(s: &str, p: &str) -> (b: bool)
    ensures
        b == ends_with(s@, p@),
{
    let v = chars_of(s);
    let w = chars_of(p);
    if w.len() > v.len() {
        return false;
    }
    matches_at_exec(&v, &w, v.len() - w.len())
}

/// Whether `p` occurs in `s`.
pub fn contains_str(s: &str, p: &str) -> (b: bool)
    ensures
        b == contains(s@, p@),
{
    let v = chars_of(s);
    let w = chars_of(p);
    find_exec(&v, &w, 0).is_some()
}

/// Whether two strings are equal.
pub fn str_eq(a: &str, b: &str) -> (r: bool)
    ensures
        r == (a@ == b@),
{
    let v = chars_of(a);
    let w = chars_of(b);
    if v.len() != w.len() {
        return false;
    }
    let r = matches_at_exec(&v, &w, 0);
    proof {
        if r {
            assert(v@ =~= v@.subrange(0, w@.len() as int));
        } else {
            if a@ == b@ {
                assert(v@.subrange(0, w@.len() as int) =~= v@);
            }
        }
    }
    r
}

/// `s` with its first `k` characters left out (`k` at most its length).
pub fn skip_chars(s: &str, k: usize) -> (r: String)
    requires
        k <= s@.len(),
    ensures
        r@ == s@.skip(k as int),
{
    let v = chars_of(s);
    let r = string_of(&v, k, v.len());
    assert(r@ =~= s@.skip(k as int));
    r
}

/// The characters of the Unicode `White_Space` property, which is what
/// `char::is_whitespace` and the regular-expression class `\s` mean.
pub open spec fn is_white_space(c: char) -> bool {
    let u = c as u32;
    (9 <= u <= 13) || u == 32 || u == 0x85 || u == 0xa0 || u == 0x1680 || (0x2000 <= u <= 0x200a)
        || u == 0x2028 || u == 0x2029 || u == 0x202f || u == 0x205f || u == 0x3000
}

/// Whether a character is white space (see [`is_white_space`]).
pub(crate) fn is_white_space_exec(c: char) -> (b: bool)
    ensures
        b == is_white_space(c),
{
    let u = c as u32;
    (9 <= u && u <= 13) || u == 32 || u == 0x85 || u == 0xa0 || u == 0x1680 || (0x2000 <= u && u
        <= 0x200a) || u == 0x2028 || u == 0x2029 || u == 0x202f || u == 0x205f || u == 0x3000
}

/// The words of `s` as `str::split_whitespace` gives them: the longest
/// runs of characters that are not white space, in order.
pub open spec fn white_space_words(s: Seq<char>) -> Seq<Seq<char>>
    decreases s.len(),
{
    if s.len() == 0 {
        Seq::empty()
    } else {
        let w = white_space_words(s.drop_last());
        let c = s.last();
        if is_white_space(c) {
            w
        } else if s.len() >= 2 && !is_white_space(s[s.len() - 2]) {
            w.drop_last().push(w.last().push(c))
        } else {
            w.push(seq![c])
        }
    }
}

/// Every word that `str::split_whitespace` gives has a character.
pub proof fn lemma_white_space_words_not_empty(s: Seq<char>)
    ensures
        forall|j: int| 0 <= j < white_space_words(s).len() ==> #[trigger] white_space_words(s)[j].len() > 0,
    decreases s.len(),
{
    if s.len() > 0 {
        lemma_white_space_words_not_empty(s.drop_last());
        let w = white_space_words(s.drop_last());
        if !is_white_space(s.last()) && s.len() >= 2 && !is_white_space(s[s.len() - 2]) {
            let v = white_space_words(s);
            assert forall|j: int| 0 <= j < v.len() implies #[trigger] v[j].len() > 0 by {
                if j < w.len() - 1 {
                    assert(v[j] == w[j]);
                }
            }
        }
    }
}

proof fn lemma_white_space_words_last(s: Seq<char>)
    requires
        s.len() > 0,
        !is_white_space(s.last()),
    ensures
        white_space_words(s).len() > 0,
    decreases s.len(),
{
}

/// The words of a string, as `str::split_whitespace` gives them.
pub fn white_space_words_str(s: &str) -> (r: Vec<String>)
    ensures
        views(r@) == white_space_words(s@),
{
    let v = chars_of(s);
    let mut r: Vec<String> = Vec::new();
    let mut i: usize = 0;
    while i < v.len()
        invariant
            i <= v@.len(),
            v@ == s@,
            views(r@) == white_space_words(s@.take(i as int)),
        decreases v@.len() - i,
    {
        let c = v[i];
        let ghost before = r@;
        assert(s@.take(i + 1).drop_last() =~= s@.take(i as int));
        assert(s@.take(i + 1).last() == c);
        if is_white_space_exec(c) {
        } else if i >= 1 && !is_white_space_exec(v[i - 1]) {
            proof {
                assert(s@.take(i as int).last() == v@[i - 1]);
                lemma_white_space_words_last(s@.take(i as int));
                assert(s@.take(i + 1)[i - 1] == v@[i - 1]);
            }
            let mut last = r.pop().unwrap();
            push_char(&mut last, c);
            r.push(last);
            assert(views(r@) =~= views(before).drop_last().push(views(before).last().push(c)));
        } else {
            proof {
                if i >= 1 {
                    assert(s@.take(i + 1)[i - 1] == v@[i - 1]);
                }
            }
            let mut w = String::new();
            push_char(&mut w, c);
            r.push(w);
            assert(views(r@) =~= views(before).push(seq![c]));
        }
        i = i + 1;
    }
    assert(s@.take(v@.len() as int) =~= s@);
    r
}

/// `s` without its trailing white space (the meaning of `str::trim_end`).
pub open spec fn trim_end(s: Seq<char>) -> Seq<char>
    decreases s.len(),
{
    if s.len() > 0 && is_white_space(s.last()) {
        trim_end(s.drop_last())
    } else {
        s
    }
}

/// `s` without its trailing white space, as `str::trim_end` does.
pub fn trim_end_str(s: &str) -> (r: String)
    ensures
        r@ == trim_end(s@),
{
    let v = chars_of(s);
    let mut n: usize = v.len();
    assert(v@.subrange(0, n as int) =~= s@);
    while n > 0 && is_white_space_exec(v[n - 1])
        invariant
            n <= v@.len(),
            v@ == s@,
            trim_end(v@.subrange(0, n as int)) == trim_end(s@),
        decreases n,
    {
        assert(v@.subrange(0, n as int).drop_last() =~= v@.subrange(0, n - 1));
        n = n - 1;
    }
    string_of(&v, 0, n)
}


/// The strings of `parts` with `sep` between neighbours.
pub fn join_strings(parts: &Vec<String>, sep: &str) -> (r: String)
    ensures
        r@ == join(views(parts@), sep@),
{
    let mut r = String::new();
    let mut i: usize = 0;
    while i < parts.len()
        invariant
            i <= parts@.len(),
            r@ == join(views(parts@).subrange(0, i as int), sep@),
        decreases parts@.len() - i,
    {
        let ghost prev = views(parts@).subrange(0, i as int);
        assert(views(parts@).subrange(0, i + 1) =~= prev.push(parts@[i as int]@));
        if i > 0 {
            r.append(sep);
            proof {
                lemma_join_push(prev, parts@[i as int]@, sep@);
            }
        } else {
            assert(prev.push(parts@[i as int]@) =~= seq![parts@[i as int]@]);
        }
        r.append(parts[i].as_str());
        i = i + 1;
    }
    assert(views(parts@).subrange(0, parts@.len() as int) =~= views(parts@));
    r
}


/// The number of bytes of the UTF-8 encoding of `s` (what `str::len` gives).
pub open spec fn byte_len(s: Seq<char>) -> nat {
    encode_utf8(s).len()
}

/// The number of bytes of the UTF-8 encoding of a string.
pub fn byte_len_str(s: &str) -> (n: usize)
    ensures
        n == byte_len(s@),
{
    s.as_bytes().len()
}

/// Whether taking the tail of `msg` after its first `k` characters keeps
/// characters whole (see [`tail_after_ok`]).
pub fn tail_after_ok_str(msg: &str, k: usize, min_bytes: usize) -> (b: bool)
    requires
        k <= msg@.len(),
    ensures
        b == tail_after_ok(msg@, k as int, min_bytes as int),
{
    let v = chars_of(msg);
    if k >= v.len() {
        assert(msg@.skip(k as int) =~= Seq::<char>::empty());
        assert(encode_utf8(msg@.skip(k as int)).len() == 0);
        return true;
    }
    let rest = string_of(&v, k, v.len());
    assert(rest@ =~= msg@.skip(k as int));
    if byte_len_str(rest.as_str()) > min_bytes {
        (v[k] as u32) < 128
    } else {
        true
    }
}

/// What is left of `msg` after its first `k` characters and one more byte,
/// when more than `min_bytes` bytes follow those `k` characters: the tail
/// that `&msg[b + 1..]` gives where `b` is the byte length of the first `k`
/// characters, guarded by `msg.len() > b + min_bytes`.
pub open spec fn tail_after(msg: Seq<char>, k: int, min_bytes: int) -> Option<Seq<char>> {
    if byte_len(msg.skip(k)) > min_bytes {
        Some(msg.skip(k + 1))
    } else {
        None
    }
}

/// Taking that tail does not cut a character in two: when it is taken, the
/// character after the first `k` is a one-byte character.
pub open spec fn tail_after_ok(msg: Seq<char>, k: int, min_bytes: int) -> bool {
    byte_len(msg.skip(k)) > min_bytes ==> (msg[k] as u32) < 128
}

/// The tail of `msg` after its first `k` characters and one more byte (see
/// [`tail_after`]).
pub fn tail_after_str(msg: &str, k: usize, min_bytes: usize) -> (r: Option<String>)
    requires
        k <= msg@.len(),
        tail_after_ok(msg@, k as int, min_bytes as int),
    ensures
        match r {
            Some(t) => tail_after(msg@, k as int, min_bytes as int) == Some(t@),
            None => tail_after(msg@, k as int, min_bytes as int) is None,
        },
{
    let v = chars_of(msg);
    if k >= v.len() {
        assert(msg@.skip(k as int) =~= Seq::<char>::empty());
        assert(encode_utf8(msg@.skip(k as int)).len() == 0);
        return None;
    }
    let rest = string_of(&v, k, v.len());
    assert(rest@ =~= msg@.skip(k as int));
    if byte_len_str(rest.as_str()) > min_bytes {
        let t = string_of(&v, k + 1, v.len());
        assert(t@ =~= msg@.skip(k + 1));
        Some(t)
    } else {
        None
    }
}


/// What `str::to_lowercase` gives for `s`: its Unicode lower case, as the
/// standard library maps it.
pub uninterp spec fn lowercase(s: Seq<char>) -> Seq<char>;

/// `str::to_lowercase` of std.
#[verifier::external_body]
pub(crate) fn to_lowercase_str(s: &str) -> (r: String)
    ensures
        r@ == lowercase(s@),
{
    s.to_lowercase()
}

} // verus!
