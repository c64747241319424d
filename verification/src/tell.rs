//! Messages left for absent users: `@tell <nick> <message>` stores a message
//! for `<nick>`, and every message stored for a user is delivered (with how
//! long ago it was left) the next time that user says anything.

use vstd::prelude::*;
use crate::clock::{Stamp, comparable, div_toward_zero, elapsed_seconds, now, seconds_between, trunc_div};
use crate::num::{decimal, decimal_int, push_decimal_signed};
use crate::reply::{Reply, answer_target, answer_target_str, reply_views};
use crate::text::{
    chars_of, ends_with, ends_with_str, join, lemma_first_two_words, starts_with, lowercase, split, split_spaces, str_eq, tail_after, tail_after_ok,
    tail_after_ok_str, tail_after_str, to_lowercase_str, trim_end, trim_end_str,
};

verus! {

/// A message left for someone.
pub struct Message {
    pub target: String,
    pub sender: String,
    pub message: String,
    pub time: Stamp,
}

/// What a [`Message`] holds, as mathematical values.
pub struct Note {
    pub target: Seq<char>,
    pub sender: Seq<char>,
    pub text: Seq<char>,
    pub time: Stamp,
}

impl View for Message {
    type V = Note;

    open spec fn view(&self) -> Note {
        Note { target: self.target@, sender: self.sender@, text: self.message@, time: self.time }
    }
}

/// The views of a sequence of messages.
pub open spec fn notes(v: Seq<Message>) -> Seq<Note> {
    v.map_values(|m: Message| m@)
}

/// How long ago something happened, `s` whole seconds back, in words.
pub open spec fn ago_text(s: int) -> Seq<char> {
    let d = trunc_div(s, 86400);
    let w = trunc_div(d, 7);
    let h = trunc_div(s, 3600);
    let m = trunc_div(s, 60);
    if w > 1 {
        decimal_int(w) + " weeks ago"@
    } else if w == 1 {
        "A week ago"@
    } else if d > 1 {
        decimal_int(d) + " days ago"@
    } else if d == 1 {
        "A day ago"@
    } else if h > 1 {
        decimal_int(h) + " hours ago"@
    } else if h == 1 {
        "An hour ago"@
    } else if m > 1 {
        decimal_int(m) + " minutes ago"@
    } else if m == 1 {
        "A minute ago"@
    } else {
        "Moments ago"@
    }
}

/// A message as it is delivered at time `now`:
/// `<target>: <when>, <sender> said <message>`, with a full stop added
/// unless the message ends with `.`, `!` or `?`.
pub open spec fn told(n: Note, now: Stamp) -> Seq<char> {
    n.target + ": "@ + ago_text(elapsed_seconds(now, n.time)) + ", "@ + n.sender + " said "@
        + n.text + if ends_with(n.text, "."@) || ends_with(n.text, "!"@) || ends_with(n.text, "?"@) {
        ""@
    } else {
        "."@
    }
}

/// How long ago something happened, in words, for every non-negative
/// number of seconds `s`: under a minute "Moments ago", then whole minutes,
/// whole hours, whole days and whole weeks (7 days), each with "A" or
/// "An" when there is just one.
pub proof fn law_age_wording(s: int)
    requires
        s >= 0,
    ensures
        s < 60 ==> ago_text(s) == "Moments ago"@,
        60 <= s < 120 ==> ago_text(s) == "A minute ago"@,
        120 <= s < 3600 ==> ago_text(s) == decimal((s / 60) as nat) + " minutes ago"@,
        3600 <= s < 7200 ==> ago_text(s) == "An hour ago"@,
        7200 <= s < 86400 ==> ago_text(s) == decimal((s / 3600) as nat) + " hours ago"@,
        86400 <= s < 172800 ==> ago_text(s) == "A day ago"@,
        172800 <= s < 604800 ==> ago_text(s) == decimal((s / 86400) as nat) + " days ago"@,
        604800 <= s < 1209600 ==> ago_text(s) == "A week ago"@,
        1209600 <= s ==> ago_text(s) == decimal((s / 604800) as nat) + " weeks ago"@,
{
    let d = s / 86400;
    vstd::arithmetic::div_mod::lemma_div_denominator(s, 86400, 7);
    assert(d / 7 == s / 604800);
    assert(trunc_div(s, 86400) == d);
    assert(trunc_div(d, 7) == d / 7);
    assert(trunc_div(s, 3600) == s / 3600);
    assert(trunc_div(s, 60) == s / 60);
}

fn ago_string(s: i64) -> (r: String)
    requires
        -9223372036854776 <= s <= 9223372036854776,
    ensures
        r@ == ago_text(s as int),
{
    let d = div_toward_zero(s, 86400);
    let w = div_toward_zero(d, 7);
    let h = div_toward_zero(s, 3600);
    let m = div_toward_zero(s, 60);
    if w > 1 {
        let mut r = String::new();
        push_decimal_signed(&mut r, w);
        r.append(" weeks ago");
        r
    } else if w == 1 {
        "A week ago".to_owned()
    } else if d > 1 {
        let mut r = String::new();
        push_decimal_signed(&mut r, d);
        r.append(" days ago");
        r
    } else if d == 1 {
        "A day ago".to_owned()
    } else if h > 1 {
        let mut r = String::new();
        push_decimal_signed(&mut r, h);
        r.append(" hours ago");
        r
    } else if h == 1 {
        "An hour ago".to_owned()
    } else if m > 1 {
        let mut r = String::new();
        push_decimal_signed(&mut r, m);
        r.append(" minutes ago");
        r
    } else if m == 1 {
        "A minute ago".to_owned()
    } else {
        "Moments ago".to_owned()
    }
}

impl Message {
    /// A message left at time `time`.
    pub fn at(target: &str, message: &str, sender: &str, time: Stamp) -> (m: Message)
        ensures
            m@ == (Note { target: target@, sender: sender@, text: message@, time }),
    {
        Message {
            target: target.to_owned(),
            sender: sender.to_owned(),
            message: message.to_owned(),
            time,
        }
    }

    /// A message left now (the system clock is read).
    pub fn new(target: &str, message: &str, sender: &str) -> (m: Message)
        ensures
            m.target@ == target@,
            m.sender@ == sender@,
            m.message@ == message@,
            m.time.valid(),
    {
        Message::at(target, message, sender, now())
    }

    /// The message as delivered at time `now`.
    pub fn to_string_at(&self, now: &Stamp) -> (r: String)
        requires
            now.valid(),
            self.time.valid(),
            comparable(*now, self.time),
        ensures
            r@ == told(self@, *now),
    {
        let secs = seconds_between(now, &self.time);
        let mut r = self.target.clone();
        r.append(": ");
        let ago = ago_string(secs);
        r.append(ago.as_str());
        r.append(", ");
        r.append(self.sender.as_str());
        r.append(" said ");
        r.append(self.message.as_str());
        let m = self.message.as_str();
        let ghost base = r@;
        if !(ends_with_str(m, ".") || ends_with_str(m, "!") || ends_with_str(m, "?")) {
            r.append(".");
            assert(r@ =~= told(self@, *now));
        } else {
            proof {
                reveal_strlit("");
            }
            assert(r@ =~= base + ""@);
            assert(r@ =~= told(self@, *now));
        }
        r
    }

    /// The message as delivered now (the system clock is read); `None` when
    /// the clock and the message's time are too far apart to subtract.
    pub fn to_string(&self) -> (r: Option<String>)
        requires
            self.time.valid(),
        ensures
            r matches Some(s) ==> exists|t: Stamp| t.valid() && comparable(t, self.time) && s@ == told(self@, t),
            r is None ==> exists|t: Stamp| t.valid() && !comparable(t, self.time),
    {
        let t = now();
        if -9223372036854775 <= (t.sec as i128) - (self.time.sec as i128) && (t.sec as i128) - (
        self.time.sec as i128) <= 9223372036854775 {
            Some(self.to_string_at(&t))
        } else {
            None
        }
    }
}


/// The messages waiting for one user, filed under the lower case of the
/// user's nickname.
pub struct Inbox {
    pub nick: String,
    pub messages: Vec<Message>,
}

/// The waiting messages of a list of inboxes, by nickname.
pub open spec fn inbox_map(s: Seq<Inbox>) -> Map<Seq<char>, Seq<Note>>
    decreases s.len(),
{
    if s.len() == 0 {
        Map::empty()
    } else {
        inbox_map(s.drop_last()).insert(s.last().nick@, notes(s.last().messages@))
    }
}

/// No two inboxes are filed under the same nickname.
pub open spec fn distinct_nicks(s: Seq<Inbox>) -> bool {
    forall|i: int, j: int| 0 <= i < j < s.len() ==> s[i].nick@ != s[j].nick@
}

/// The messages waiting under `key` (none when there is no such inbox).
pub open spec fn waiting(p: Map<Seq<char>, Seq<Note>>, key: Seq<char>) -> Seq<Note> {
    if p.contains_key(key) {
        p[key]
    } else {
        Seq::empty()
    }
}

proof fn lemma_inbox_map_get(s: Seq<Inbox>)
    requires
        distinct_nicks(s),
    ensures
        forall|i: int|
            0 <= i < s.len() ==> inbox_map(s).contains_key(#[trigger] s[i].nick@) && inbox_map(
                s,
            )[s[i].nick@] == notes(s[i].messages@),
        forall|k: Seq<char>|
            inbox_map(s).contains_key(k) ==> exists|i: int| 0 <= i < s.len() && s[i].nick@ == k,
    decreases s.len(),
{
    if s.len() > 0 {
        let t = s.drop_last();
        assert(distinct_nicks(t));
        lemma_inbox_map_get(t);
        assert forall|i: int| 0 <= i < s.len() implies inbox_map(s).contains_key(
            #[trigger] s[i].nick@,
        ) && inbox_map(s)[s[i].nick@] == notes(s[i].messages@) by {
            if i < s.len() - 1 {
                assert(t[i] == s[i]);
            }
        }
        assert forall|k: Seq<char>| inbox_map(s).contains_key(k) implies exists|i: int|
            0 <= i < s.len() && s[i].nick@ == k by {
            if k != s.last().nick@ {
                assert(inbox_map(t).contains_key(k));
                let i = choose|i: int| 0 <= i < t.len() && t[i].nick@ == k;
                assert(s[i] == t[i]);
                assert(0 <= i < s.len() && s[i].nick@ == k);
            } else {
                assert(0 <= s.len() - 1 < s.len() && s[s.len() - 1].nick@ == k);
            }
        }
    }
}

proof fn lemma_inbox_map_update(s: Seq<Inbox>, i: int, e: Inbox)
    requires
        distinct_nicks(s),
        0 <= i < s.len(),
        e.nick@ == s[i].nick@,
    ensures
        distinct_nicks(s.update(i, e)),
        inbox_map(s.update(i, e)) == inbox_map(s).insert(e.nick@, notes(e.messages@)),
    decreases s.len(),
{
    let u = s.update(i, e);
    assert(distinct_nicks(u)) by {
        assert forall|a: int, b: int| 0 <= a < b < u.len() implies u[a].nick@ != u[b].nick@ by {
            assert(u[a].nick@ == s[a].nick@);
            assert(u[b].nick@ == s[b].nick@);
        }
    }
    if i == s.len() - 1 {
        assert(u.drop_last() =~= s.drop_last());
        assert(inbox_map(u) =~= inbox_map(s).insert(e.nick@, notes(e.messages@)));
    } else {
        let t = s.drop_last();
        assert(distinct_nicks(t));
        lemma_inbox_map_update(t, i, e);
        assert(u.drop_last() =~= t.update(i, e));
        assert(s.last().nick@ != e.nick@);
        assert(inbox_map(u) =~= inbox_map(s).insert(e.nick@, notes(e.messages@)));
    }
}

proof fn lemma_inbox_map_remove(s: Seq<Inbox>, i: int)
    requires
        distinct_nicks(s),
        0 <= i < s.len(),
    ensures
        distinct_nicks(s.remove(i)),
        inbox_map(s.remove(i)) == inbox_map(s).remove(s[i].nick@),
    decreases s.len(),
{
    let u = s.remove(i);
    assert(distinct_nicks(u)) by {
        assert forall|a: int, b: int| 0 <= a < b < u.len() implies u[a].nick@ != u[b].nick@ by {
            if a < i {
                assert(u[a] == s[a]);
            } else {
                assert(u[a] == s[a + 1]);
            }
            if b < i {
                assert(u[b] == s[b]);
            } else {
                assert(u[b] == s[b + 1]);
            }
        }
    }
    let t = s.drop_last();
    assert(distinct_nicks(t));
    if i == s.len() - 1 {
        assert(u =~= t);
        lemma_inbox_map_get(t);
        assert(!inbox_map(t).contains_key(s[i].nick@)) by {
            if inbox_map(t).contains_key(s[i].nick@) {
                let j = choose|j: int| 0 <= j < t.len() && t[j].nick@ == s[i].nick@;
                assert(s[j].nick@ == s[i].nick@);
            }
        }
        assert(inbox_map(u) =~= inbox_map(s).remove(s[i].nick@));
    } else {
        lemma_inbox_map_remove(t, i);
        assert(u.drop_last() =~= t.remove(i));
        assert(u.last() == s.last());
        assert(s.last().nick@ != s[i].nick@);
        assert(inbox_map(u) =~= inbox_map(s).remove(s[i].nick@));
    }
}

/// The last message waiting under `key` was left by `from` less than a
/// minute (in whole minutes, rounded toward zero) before `now`.
pub open spec fn recent(p: Map<Seq<char>, Seq<Note>>, from: Seq<char>, key: Seq<char>, now: Stamp) -> bool {
    let w = waiting(p, key);
    w.len() > 0 && w.last().sender == from && trunc_div(elapsed_seconds(now, w.last().time), 60)
        < 1
}

/// A moment can be subtracted from `now`: it is valid, and the difference
/// fits in a `time::Duration`.
pub open spec fn readable_time(t: Stamp, now: Stamp) -> bool {
    t.valid() && comparable(now, t)
}

/// Every one of the notes has a time that can be subtracted from `now`.
pub open spec fn all_readable(w: Seq<Note>, now: Stamp) -> bool {
    forall|j: int| 0 <= j < w.len() ==> readable_time(#[trigger] w[j].time, now)
}

/// The last message waiting under `key` has a time that can be subtracted
/// from `now` when it was left by `from` (the one case where its age is
/// asked).
pub open spec fn last_readable(p: Map<Seq<char>, Seq<Note>>, from: Seq<char>, key: Seq<char>, now: Stamp) -> bool {
    let w = waiting(p, key);
    (w.len() > 0 && w.last().sender == from) ==> readable_time(w.last().time, now)
}

fn readable_time_exec(t: &Stamp, now: &Stamp) -> (b: bool)
    ensures
        b == readable_time(*t, *now),
{
    let d: i128 = (now.sec as i128) - (t.sec as i128);
    0 <= t.nsec && t.nsec < 1_000_000_000 && -9223372036854775 <= d && d <= 9223372036854775
}

/// The messages waiting on one server.
pub struct Messages {
    pub server: String,
    pub inboxes: Vec<Inbox>,
}

impl Messages {
    /// No two inboxes share a nickname.
    pub open spec fn wf(&self) -> bool {
        distinct_nicks(self.inboxes@)
    }

    /// The waiting messages, by lower-cased nickname.
    pub open spec fn pending(&self) -> Map<Seq<char>, Seq<Note>> {
        inbox_map(self.inboxes@)
    }

    /// No messages yet (what is used when none could be loaded).
    pub fn new(server: &str) -> (m: Messages)
        ensures
            m.wf(),
            m.server@ == server@,
            m.pending() == Map::<Seq<char>, Seq<Note>>::empty(),
    {
        Messages { server: server.to_owned(), inboxes: Vec::new() }
    }

    /// Whether no two inboxes share a nickname (what loaded data must
    /// satisfy before it is used).
    pub fn is_well_formed(&self) -> (b: bool)
        ensures
            b == self.wf(),
    {
        let n = self.inboxes.len();
        let mut i: usize = 0;
        while i < n
            invariant
                n == self.inboxes@.len(),
                i <= n,
                forall|a: int, b: int|
                    0 <= a < b < n && a < i ==> self.inboxes@[a].nick@ != self.inboxes@[b].nick@,
            decreases n - i,
        {
            let mut j: usize = i + 1;
            while j < n
                invariant
                    n == self.inboxes@.len(),
                    i < n,
                    i + 1 <= j <= n,
                    forall|a: int, b: int|
                        0 <= a < b < n && a < i ==> self.inboxes@[a].nick@ != self.inboxes@[b].nick@,
                    forall|b: int| i < b < j ==> self.inboxes@[i as int].nick@ != self.inboxes@[b].nick@,
                decreases n - j,
            {
                if str_eq(self.inboxes[i].nick.as_str(), self.inboxes[j].nick.as_str()) {
                    return false;
                }
                j = j + 1;
            }
            i = i + 1;
        }
        true
    }

    /// The index of the inbox filed under `key`.
    fn position(&self, key: &str) -> (r: Option<usize>)
        ensures
            match r {
                Some(i) => i < self.inboxes@.len() && self.inboxes@[i as int].nick@ == key@,
                None => forall|i: int| 0 <= i < self.inboxes@.len() ==> self.inboxes@[i].nick@ != key@,
            },
    {
        let mut i: usize = 0;
        while i < self.inboxes.len()
            invariant
                i <= self.inboxes@.len(),
                forall|j: int| 0 <= j < i ==> self.inboxes@[j].nick@ != key@,
            decreases self.inboxes@.len() - i,
        {
            if str_eq(self.inboxes[i].nick.as_str(), key) {
                return Some(i);
            }
            i = i + 1;
        }
        None
    }

    /// Files a message left at time `time` under the lower case of `target`.
    pub fn add_message_at(&mut self, target: &str, message: &str, sender: &str, time: Stamp)
        requires
            old(self).wf(),
        ensures
            final(self).wf(),
            final(self).server == old(self).server,
            final(self).pending() == old(self).pending().insert(
                lowercase(target@),
                waiting(old(self).pending(), lowercase(target@)).push(
                    Note { target: target@, sender: sender@, text: message@, time },
                ),
            ),
    {
        let key = to_lowercase_str(target);
        let m = Message::at(target, message, sender, time);
        proof {
            lemma_inbox_map_get(self.inboxes@);
        }
        match self.position(key.as_str()) {
            Some(i) => {
                let ghost s = self.inboxes@;
                let mut inbox = self.inboxes.remove(i);
                let ghost before = inbox.messages@;
                inbox.messages.push(m);
                assert(notes(inbox.messages@) =~= notes(before).push(m@));
                self.inboxes.insert(i, inbox);
                proof {
                    assert(self.inboxes@ =~= s.update(i as int, inbox));
                    lemma_inbox_map_update(s, i as int, inbox);
                }
            },
            None => {
                let ghost s = self.inboxes@;
                proof {
                    assert(!inbox_map(s).contains_key(key@)) by {
                        if inbox_map(s).contains_key(key@) {
                            let j = choose|j: int| 0 <= j < s.len() && s[j].nick@ == key@;
                        }
                    }
                }
                let mut msgs: Vec<Message> = Vec::new();
                msgs.push(m);
                let inbox = Inbox { nick: key, messages: msgs };
                self.inboxes.push(inbox);
                proof {
                    assert(self.inboxes@.drop_last() =~= s);
                    assert(notes(msgs@) =~= Seq::<Note>::empty().push(m@));
                    assert(distinct_nicks(self.inboxes@)) by {
                        assert forall|a: int, b: int|
                            0 <= a < b < self.inboxes@.len() implies self.inboxes@[a].nick@
                            != self.inboxes@[b].nick@ by {
                            if b == s.len() {
                                assert(self.inboxes@[a] == s[a]);
                            } else {
                                assert(self.inboxes@[a] == s[a]);
                                assert(self.inboxes@[b] == s[b]);
                            }
                        }
                    }
                }
            },
        }
    }

    /// Files a message left now (the system clock is read) under the lower
    /// case of `target`.
    pub fn add_message(&mut self, target: &str, message: &str, sender: &str)
        requires
            old(self).wf(),
        ensures
            final(self).wf(),
            final(self).server == old(self).server,
            exists|t: Stamp|
                t.valid() && final(self).pending() == old(self).pending().insert(
                    lowercase(target@),
                    waiting(old(self).pending(), lowercase(target@)).push(
                        Note { target: target@, sender: sender@, text: message@, time: t },
                    ),
                ),
    {
        let t = now();
        self.add_message_at(target, message, sender, t);
    }

    /// Whether every message waiting under `key` has a time that can be
    /// subtracted from `now`.
    fn inbox_readable(&self, key: &str, now: &Stamp) -> (b: bool)
        requires
            self.wf(),
        ensures
            b == all_readable(waiting(self.pending(), key@), *now),
    {
        proof {
            lemma_inbox_map_get(self.inboxes@);
        }
        match self.position(key) {
            Some(i) => {
                let msgs = &self.inboxes[i].messages;
                let ghost w = waiting(self.pending(), key@);
                assert(w == notes(msgs@));
                let mut j: usize = 0;
                while j < msgs.len()
                    invariant
                        j <= msgs@.len(),
                        w == notes(msgs@),
                        w == waiting(self.pending(), key@),
                        forall|k: int| 0 <= k < j ==> readable_time(#[trigger] w[k].time, *now),
                    decreases msgs@.len() - j,
                {
                    assert(w[j as int] == msgs@[j as int]@);
                    if !readable_time_exec(&msgs[j].time, now) {
                        assert(!readable_time(w[j as int].time, *now));
                        return false;
                    }
                    j = j + 1;
                }
                true
            },
            None => {
                proof {
                    assert(!self.pending().contains_key(key@)) by {
                        if self.pending().contains_key(key@) {
                            let j = choose|j: int|
                                0 <= j < self.inboxes@.len() && self.inboxes@[j].nick@ == key@;
                        }
                    }
                }
                true
            },
        }
    }

    /// Whether the last message waiting for `to` (filed under its lower
    /// case) has a time that can be subtracted from `now`, when it was left
    /// by `from`.
    pub fn last_is_readable(&self, from: &str, to: &str, now: &Stamp) -> (b: bool)
        requires
            self.wf(),
        ensures
            b == last_readable(self.pending(), from@, lowercase(to@), *now),
    {
        let key = to_lowercase_str(to);
        proof {
            lemma_inbox_map_get(self.inboxes@);
        }
        match self.position(key.as_str()) {
            Some(i) => {
                let msgs = &self.inboxes[i].messages;
                proof {
                    assert(self.pending()[key@] == notes(msgs@));
                }
                if msgs.len() == 0 {
                    return true;
                }
                let last = &msgs[msgs.len() - 1];
                proof {
                    assert(self.pending()[key@][msgs@.len() - 1] == last@);
                }
                !str_eq(last.sender.as_str(), from) || readable_time_exec(&last.time, now)
            },
            None => {
                proof {
                    assert(!self.pending().contains_key(key@)) by {
                        if self.pending().contains_key(key@) {
                            let j = choose|j: int|
                                0 <= j < self.inboxes@.len() && self.inboxes@[j].nick@ == key@;
                        }
                    }
                }
                true
            },
        }
    }

    /// Whether the last message waiting for `to` (filed under its lower
    /// case) was left by `from` less than a minute before `now`.
    pub fn is_recent_at(&self, from: &str, to: &str, now: &Stamp) -> (b: bool)
        requires
            self.wf(),
            now.valid(),
            last_readable(self.pending(), from@, lowercase(to@), *now),
        ensures
            b == recent(self.pending(), from@, lowercase(to@), *now),
    {
        let key = to_lowercase_str(to);
        proof {
            lemma_inbox_map_get(self.inboxes@);
        }
        match self.position(key.as_str()) {
            Some(i) => {
                let msgs = &self.inboxes[i].messages;
                proof {
                    assert(self.pending()[key@] == notes(msgs@));
                }
                if msgs.len() == 0 {
                    return false;
                }
                let last = &msgs[msgs.len() - 1];
                proof {
                    assert(self.pending()[key@][msgs@.len() - 1] == last@);
                    let t = self.pending()[key@][msgs@.len() - 1].time;
                    assert(t == last.time);
                }
                str_eq(last.sender.as_str(), from) && div_toward_zero(
                    seconds_between(now, &last.time),
                    60,
                ) < 1
            },
            None => {
                proof {
                    assert(!self.pending().contains_key(key@)) by {
                        if self.pending().contains_key(key@) {
                            let j = choose|j: int|
                                0 <= j < self.inboxes@.len() && self.inboxes@[j].nick@ == key@;
                        }
                    }
                }
                false
            },
        }
    }

    /// Whether the last message waiting for `to` was left by `from` less
    /// than a minute ago (the system clock is read); `None` when that
    /// message's time cannot be compared with the clock.
    pub fn is_recent(&self, from: &str, to: &str) -> (r: Option<bool>)
        requires
            self.wf(),
        ensures
            r matches Some(b) ==> exists|t: Stamp|
                t.valid() && last_readable(self.pending(), from@, lowercase(to@), t)
                && b == recent(self.pending(), from@, lowercase(to@), t),
            r is None ==> exists|t: Stamp| t.valid() && !last_readable(self.pending(), from@, lowercase(to@), t),
    {
        let t = now();
        if self.last_is_readable(from, to, &t) {
            Some(self.is_recent_at(from, to, &t))
        } else {
            None
        }
    }

    /// Hands out the messages waiting for `user` (filed under its lower
    /// case) and forgets them.
    pub fn get_messages(&mut self, user: &str) -> (r: Vec<Message>)
        requires
            old(self).wf(),
        ensures
            final(self).wf(),
            final(self).server == old(self).server,
            notes(r@) == waiting(old(self).pending(), lowercase(user@)),
            final(self).pending() == old(self).pending().remove(lowercase(user@)),
    {
        let key = to_lowercase_str(user);
        proof {
            lemma_inbox_map_get(self.inboxes@);
        }
        match self.position(key.as_str()) {
            Some(i) => {
                let ghost s = self.inboxes@;
                let inbox = self.inboxes.remove(i);
                proof {
                    lemma_inbox_map_remove(s, i as int);
                }
                inbox.messages
            },
            None => {
                proof {
                    assert(!self.pending().contains_key(key@)) by {
                        if self.pending().contains_key(key@) {
                            let j = choose|j: int|
                                0 <= j < self.inboxes@.len() && self.inboxes@[j].nick@ == key@;
                        }
                    }
                    assert(self.pending().remove(key@) =~= self.pending());
                    assert(notes(Seq::<Message>::empty()) =~= Seq::<Note>::empty());
                }
                Vec::new()
            },
        }
    }
}


/// The words of a message: split at single spaces once trailing white
/// space is removed.
pub open spec fn words(msg: Seq<char>) -> Seq<Seq<char>> {
    split(trim_end(msg), " "@)
}

/// `@tell <nick> <message>` for someone other than the bot: the nick as
/// written and the message (everything after the nick and one byte more).
pub open spec fn leave_request(msg: Seq<char>, bot_nick: Seq<char>) -> Option<
    (Seq<char>, Seq<char>),
> {
    let t = words(msg);
    if t[0] == "@tell"@ && t.len() > 1 && t[1] != bot_nick {
        match tail_after(msg, 6 + t[1].len() as int, 1) {
            Some(text) => Some((t[1], text)),
            None => None,
        }
    } else {
        None
    }
}

/// `@tell <bot's nick> ...`.
pub open spec fn asks_for_bot(msg: Seq<char>, bot_nick: Seq<char>) -> bool {
    let t = words(msg);
    t[0] == "@tell"@ && t.len() > 1 && t[1] == bot_nick
}

/// Reading the message of a request does not cut a character in two.
pub open spec fn request_readable(msg: Seq<char>, bot_nick: Seq<char>) -> bool {
    let t = words(msg);
    (t[0] == "@tell"@ && t.len() > 1 && t[1] != bot_nick) ==> tail_after_ok(
        msg,
        6 + t[1].len() as int,
        1,
    )
}

/// Whether the message of a request can be read (see
/// [`request_readable`]).
pub fn request_is_readable(msg: &str, bot_nick: &str) -> (b: bool)
    ensures
        b == request_readable(msg@, bot_nick@),
{
    let trimmed = trim_end_str(msg);
    let t = split_spaces(trimmed.as_str());
    if str_eq(t[0].as_str(), "@tell") && t.len() > 1 && !str_eq(t[1].as_str(), bot_nick) {
        proof {
            reveal_strlit("@tell");
            lemma_first_two_words(msg@);
        }
        let n_chars = chars_of(msg).len();  // msg@ is no longer than usize::MAX
        assert(n_chars == msg@.len());
        tail_after_ok_str(msg, 6 + t[1].unicode_len(), 1)
    } else {
        true
    }
}

/// The request is turned down: the same sender left the last message for
/// that nick less than a minute ago.
pub open spec fn refused(p: Map<Seq<char>, Seq<Note>>, user: Seq<char>, msg: Seq<char>, bot_nick: Seq<char>, now: Stamp) -> bool {
    match leave_request(msg, bot_nick) {
        Some(req) => recent(p, user, lowercase(req.0), now),
        None => false,
    }
}

/// The waiting messages once a request is handled, before anything is
/// delivered.
pub open spec fn after_request(p: Map<Seq<char>, Seq<Note>>, user: Seq<char>, msg: Seq<char>, bot_nick: Seq<char>, now: Stamp) -> Map<Seq<char>, Seq<Note>> {
    match leave_request(msg, bot_nick) {
        Some(req) => if recent(p, user, lowercase(req.0), now) {
            p
        } else {
            p.insert(
                lowercase(req.0),
                waiting(p, lowercase(req.0)).push(
                    Note { target: req.0, sender: user, text: req.1, time: now },
                ),
            )
        },
        None => p,
    }
}

/// What is answered to the request itself.
pub open spec fn request_answers(p: Map<Seq<char>, Seq<Note>>, user: Seq<char>, msg: Seq<char>, bot_nick: Seq<char>, now: Stamp) -> Seq<Seq<char>> {
    match leave_request(msg, bot_nick) {
        Some(req) => if recent(p, user, lowercase(req.0), now) {
            seq![
                user + ": You've sent "@ + req.0 + " a message too recently! Wait a minute!"@,
            ]
        } else {
            seq![user + ": I'll let them know!"@]
        },
        None => if asks_for_bot(msg, bot_nick) {
            seq![user + ": I'm right here!"@]
        } else {
            Seq::empty()
        },
    }
}

/// The texts of a sequence of replies.
pub open spec fn reply_texts(r: Seq<Reply>) -> Seq<Seq<char>> {
    r.map_values(|x: Reply| x.text@)
}

/// Messages as they are delivered at `now`.
pub open spec fn told_all(ns: Seq<Note>, now: Stamp) -> Seq<Seq<char>> {
    ns.map_values(|n: Note| told(n, now))
}

/// Every time that handling `msg` from `user` reads can be subtracted
/// from `now`: that of the last message left for the nick of a request
/// (when `user` left it), and those of the messages waiting for `user`.
pub open spec fn times_readable(p: Map<Seq<char>, Seq<Note>>, user: Seq<char>, msg: Seq<char>, bot_nick: Seq<char>, now: Stamp) -> bool {
    &&& match leave_request(msg, bot_nick) {
        Some(req) => last_readable(p, user, lowercase(req.0), now),
        None => true,
    }
    &&& all_readable(waiting(p, lowercase(user)), now)
}

proof fn lemma_delivered_readable(p: Map<Seq<char>, Seq<Note>>, user: Seq<char>, msg: Seq<char>, bot_nick: Seq<char>, now: Stamp)
    requires
        now.valid(),
        times_readable(p, user, msg, bot_nick, now),
    ensures
        all_readable(waiting(after_request(p, user, msg, bot_nick, now), lowercase(user)), now),
{
    let key = lowercase(user);
    let w = waiting(after_request(p, user, msg, bot_nick, now), key);
    assert forall|j: int| 0 <= j < w.len() implies readable_time(#[trigger] w[j].time, now) by {
        if j < waiting(p, key).len() {
            assert(w[j] == waiting(p, key)[j]);
        }
    }
}

/// Whether every time that handling `msg` from `user` reads can be
/// subtracted from `now` (see [`times_readable`]).
pub fn times_are_readable(messages: &Messages, user: &str, bot_nick: &str, msg: &str, now: &Stamp) -> (b: bool)
    requires
        messages.wf(),
        request_readable(msg@, bot_nick@),
    ensures
        b == times_readable(messages.pending(), user@, msg@, bot_nick@, *now),
{
    let trimmed = trim_end_str(msg);
    let t = split_spaces(trimmed.as_str());
    let key = to_lowercase_str(user);
    let own = messages.inbox_readable(key.as_str(), now);
    if str_eq(t[0].as_str(), "@tell") && t.len() > 1 && !str_eq(t[1].as_str(), bot_nick) {
        proof {
            reveal_strlit("@tell");
            lemma_first_two_words(msg@);
        }
        let n_chars = chars_of(msg).len();  // msg@ is no longer than usize::MAX
        match tail_after_str(msg, 6 + t[1].unicode_len(), 1) {
            Some(_) => messages.last_is_readable(user, t[1].as_str(), now) && own,
            None => own,
        }
    } else {
        own
    }
}

/// Handles a message `msg` that `user` sent to `chan` at time `now`: a
/// request to leave a message is stored (unless the same sender left the
/// last one for that nick less than a minute ago) and answered, and then
/// every message waiting for `user` is delivered and forgotten. All
/// replies go to where the message came from.
pub fn process_at(
    messages: &mut Messages,
    user: &str,
    chan: &str,
    bot_nick: &str,
    msg: &str,
    now: &Stamp,
) -> (r: Vec<Reply>)
    requires
        old(messages).wf(),
        now.valid(),
        times_readable(old(messages).pending(), user@, msg@, bot_nick@, *now),
        request_readable(msg@, bot_nick@),
    ensures
        final(messages).wf(),
        final(messages).server == old(messages).server,
        final(messages).pending() == pending_after(old(messages).pending(), user@, msg@, bot_nick@, *now),
        reply_texts(r@) == request_answers(old(messages).pending(), user@, msg@, bot_nick@, *now)
            + delivered(old(messages).pending(), user@, msg@, bot_nick@, *now),
        forall|i: int| 0 <= i < r@.len() ==> #[trigger] r@[i].target@ == answer_target(chan@, bot_nick@, user@),
{
    let resp = answer_target_str(chan, bot_nick, user);
    let trimmed = trim_end_str(msg);
    let t = split_spaces(trimmed.as_str());
    let n_chars = chars_of(msg).len();  // msg@ is no longer than usize::MAX
    let mut r: Vec<Reply> = Vec::new();
    let ghost p0 = messages.pending();
    let is_tell = str_eq(t[0].as_str(), "@tell") && t.len() > 1;
    if is_tell && !str_eq(t[1].as_str(), bot_nick) {
        proof {
            reveal_strlit("@tell");
            lemma_first_two_words(msg@);
        }
        let k = 6 + t[1].unicode_len();
        match tail_after_str(msg, k, 1) {
            Some(text) => {
                if messages.is_recent_at(user, t[1].as_str(), now) {
                    let mut a = user.to_owned();
                    a.append(": You've sent ");
                    a.append(t[1].as_str());
                    a.append(" a message too recently! Wait a minute!");
                    r.push(Reply::new(resp.clone(), a));
                } else {
                    messages.add_message_at(t[1].as_str(), text.as_str(), user, *now);
                    let mut a = user.to_owned();
                    a.append(": I'll let them know!");
                    r.push(Reply::new(resp.clone(), a));
                }
            },
            None => {},
        }
    } else if is_tell && str_eq(t[1].as_str(), bot_nick) {
        let mut a = user.to_owned();
        a.append(": I'm right here!");
        r.push(Reply::new(resp.clone(), a));
    }
    let ghost mid = messages.pending();
    assert(mid == after_request(p0, user@, msg@, bot_nick@, *now));
    assert(reply_texts(r@) == request_answers(p0, user@, msg@, bot_nick@, *now));
    proof {
        lemma_delivered_readable(p0, user@, msg@, bot_nick@, *now);
    }
    let delivered = messages.get_messages(user);
    let ghost first = r@;
    let mut j: usize = 0;
    while j < delivered.len()
        invariant
            j <= delivered@.len(),
            notes(delivered@) == waiting(mid, lowercase(user@)),
            all_readable(waiting(mid, lowercase(user@)), *now),
            now.valid(),
            r@.len() == first.len() + j,
            reply_texts(r@) == reply_texts(first) + told_all(notes(delivered@), *now).take(j as int),
            forall|i: int| 0 <= i < r@.len() ==> #[trigger] r@[i].target@ == resp@,
        decreases delivered@.len() - j,
    {
        proof {
            let key = lowercase(user@);
            assert(notes(delivered@)[j as int] == delivered@[j as int]@);
            assert(waiting(mid, key)[j as int].time == delivered@[j as int].time);
        }
        let text = delivered[j].to_string_at(now);
        let ghost before = r@;
        r.push(Reply::new(resp.clone(), text));
        proof {
            assert(reply_texts(r@) =~= reply_texts(before).push(text@));
            assert(told_all(notes(delivered@), *now).take(j + 1) =~= told_all(notes(delivered@), *now).take(j as int).push(text@));
        }
        j = j + 1;
    }
    proof {
        assert(told_all(notes(delivered@), *now).take(delivered@.len() as int) =~= told_all(notes(delivered@), *now));
    }
    r
}

/// Handles a message as [`process_at`] does, at the time the system clock
/// gives; `None`, with nothing changed, when a time it would read cannot
/// be compared with the clock (see [`times_readable`]).
pub fn process(messages: &mut Messages, user: &str, chan: &str, bot_nick: &str, msg: &str) -> (r: Option<Vec<Reply>>)
    requires
        old(messages).wf(),
        request_readable(msg@, bot_nick@),
    ensures
        final(messages).wf(),
        r is None ==> *final(messages) == *old(messages) && exists|t: Stamp| t.valid() && !times_readable(old(messages).pending(), user@, msg@, bot_nick@, t),
        r matches Some(v) ==> exists|t: Stamp| t.valid() && times_readable(old(messages).pending(), user@, msg@, bot_nick@, t)
            && final(messages).pending() == pending_after(old(messages).pending(), user@, msg@, bot_nick@, t)
            && reply_texts(v@) == request_answers(old(messages).pending(), user@, msg@, bot_nick@, t)
                + delivered(old(messages).pending(), user@, msg@, bot_nick@, t),
{
    let t = now();
    if times_are_readable(messages, user, bot_nick, msg, &t) {
        Some(process_at(messages, user, chan, bot_nick, msg, &t))
    } else {
        None
    }
}

/// The nick a request leaves a message for, as written.
pub open spec fn left_for(msg: Seq<char>, bot_nick: Seq<char>) -> Seq<char> {
    match leave_request(msg, bot_nick) {
        Some(req) => req.0,
        None => Seq::empty(),
    }
}

/// The message a request leaves, as it is filed.
pub open spec fn left_note(msg: Seq<char>, bot_nick: Seq<char>, sender: Seq<char>, now: Stamp) -> Note {
    match leave_request(msg, bot_nick) {
        Some(req) => Note { target: req.0, sender, text: req.1, time: now },
        None => Note { target: Seq::empty(), sender, text: Seq::empty(), time: now },
    }
}

/// The waiting messages once a message from `user` is handled (see
/// [`process_at`]).
pub open spec fn pending_after(p: Map<Seq<char>, Seq<Note>>, user: Seq<char>, msg: Seq<char>, bot_nick: Seq<char>, now: Stamp) -> Map<Seq<char>, Seq<Note>> {
    after_request(p, user, msg, bot_nick, now).remove(lowercase(user))
}

/// What is delivered to `user` when a message from them is handled (see
/// [`process_at`]).
pub open spec fn delivered(p: Map<Seq<char>, Seq<Note>>, user: Seq<char>, msg: Seq<char>, bot_nick: Seq<char>, now: Stamp) -> Seq<Seq<char>> {
    told_all(waiting(after_request(p, user, msg, bot_nick, now), lowercase(user)), now)
}

/// A message left for someone else is delivered to them the next time they
/// say anything (whatever case their nick is written in), and afterwards
/// nothing waits for them any more.
pub proof fn law_left_message_is_delivered(
    p: Map<Seq<char>, Seq<Note>>,
    sender: Seq<char>,
    msg: Seq<char>,
    bot_nick: Seq<char>,
    t1: Stamp,
    speaker: Seq<char>,
    msg2: Seq<char>,
    t2: Stamp,
)
    requires
        leave_request(msg, bot_nick) is Some,
        !refused(p, sender, msg, bot_nick, t1),
        lowercase(sender) != lowercase(left_for(msg, bot_nick)),
        lowercase(speaker) == lowercase(left_for(msg, bot_nick)),
    ensures
        delivered(pending_after(p, sender, msg, bot_nick, t1), speaker, msg2, bot_nick, t2).contains(
            told(left_note(msg, bot_nick, sender, t1), t2),
        ),
        !pending_after(pending_after(p, sender, msg, bot_nick, t1), speaker, msg2, bot_nick, t2).contains_key(
            lowercase(speaker),
        ),
{
    let key = lowercase(speaker);
    let note = left_note(msg, bot_nick, sender, t1);
    let p1 = pending_after(p, sender, msg, bot_nick, t1);
    assert(after_request(p, sender, msg, bot_nick, t1) == p.insert(key, waiting(p, key).push(note)));
    assert(p1.contains_key(key));
    assert(p1[key] == waiting(p, key).push(note));
    let idx = waiting(p, key).len() as int;
    let w = waiting(after_request(p1, speaker, msg2, bot_nick, t2), key);
    assert(w.len() > idx && w[idx] == note) by {
        match leave_request(msg2, bot_nick) {
            Some(req) => {
                if !recent(p1, speaker, lowercase(req.0), t2) && lowercase(req.0) == key {
                    assert(w == waiting(p1, key).push(
                        Note { target: req.0, sender: speaker, text: req.1, time: t2 },
                    ));
                }
            },
            None => {},
        }
    }
    assert(told_all(w, t2)[idx] == told(note, t2));
}

/// A sender who has just left a message for a nick is turned down when
/// leaving another one for it less than a minute later: nothing more is
/// filed, and the answer says to wait.
pub proof fn law_second_message_within_a_minute_is_refused(
    p: Map<Seq<char>, Seq<Note>>,
    sender: Seq<char>,
    msg: Seq<char>,
    bot_nick: Seq<char>,
    t1: Stamp,
    msg2: Seq<char>,
    t2: Stamp,
)
    requires
        leave_request(msg, bot_nick) is Some,
        !refused(p, sender, msg, bot_nick, t1),
        lowercase(sender) != lowercase(left_for(msg, bot_nick)),
        leave_request(msg2, bot_nick) is Some,
        lowercase(left_for(msg2, bot_nick)) == lowercase(left_for(msg, bot_nick)),
        trunc_div(elapsed_seconds(t2, t1), 60) < 1,
    ensures
        refused(pending_after(p, sender, msg, bot_nick, t1), sender, msg2, bot_nick, t2),
        after_request(pending_after(p, sender, msg, bot_nick, t1), sender, msg2, bot_nick, t2)
            == pending_after(p, sender, msg, bot_nick, t1),
        request_answers(pending_after(p, sender, msg, bot_nick, t1), sender, msg2, bot_nick, t2)
            == seq![sender + ": You've sent "@ + left_for(msg2, bot_nick) + " a message too recently! Wait a minute!"@],
{
    let key = lowercase(left_for(msg, bot_nick));
    let note = left_note(msg, bot_nick, sender, t1);
    let p1 = pending_after(p, sender, msg, bot_nick, t1);
    assert(after_request(p, sender, msg, bot_nick, t1) == p.insert(key, waiting(p, key).push(note)));
    assert(p1[key] == waiting(p, key).push(note));
    assert(waiting(p1, key).last() == note);
    assert(recent(p1, sender, key, t2));
}

} // verus!
