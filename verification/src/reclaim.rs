//! Reclaiming the bot's nickname: after the server reports the nickname in
//! use, the bot counts the messages it sees and, past the tenth, asks the
//! nickname service (`Pidgey`) to reclaim the nickname.

use vstd::prelude::*;
use crate::reply::Reply;

verus! {

/// The counter of messages seen and whether a reclaim is pending.
pub struct Reclaim {
    pub count: usize,
    pub flag: bool,
}

/// The state after one message: the pending flag is raised by a
/// nickname-in-use error, and while it is up each message is counted; once
/// the count passes ten a reclaim is due on every message, until one is
/// sent (see [`after_send`]). The count is never reset.
pub open spec fn next_state(count: nat, flag: bool, nick_in_use: bool) -> (nat, bool, bool) {
    let f = flag || nick_in_use;
    if f {
        let c = count + 1;
        (c, true, c > 10)
    } else {
        (count, false, false)
    }
}

/// The state once a due reclaim has been sent: nothing is pending any more,
/// and the count stays.
pub open spec fn after_send(count: nat, flag: bool) -> (nat, bool) {
    (count, false)
}

/// The reclaim request: `NS RECLAIM <nick> <password>` to `Pidgey`.
pub open spec fn reclaim_request(nickname: Seq<char>, password: Seq<char>) -> (Seq<char>, Seq<char>) {
    ("Pidgey"@, "NS RECLAIM "@ + nickname + " "@ + password)
}

impl Reclaim {
    /// Nothing counted, nothing pending.
    pub fn new() -> (r: Reclaim)
        ensures
            r.count == 0,
            !r.flag,
    {
        Reclaim { count: 0, flag: false }
    }

    /// One message seen (`nick_in_use` when it reports the nickname in
    /// use): the reclaim to send, if one is due. It stays pending until
    /// [`Reclaim::sent`] reports it sent.
    pub fn step(&mut self, nick_in_use: bool, nickname: &str, password: &str) -> (r: Option<Reply>)
        requires
            old(self).flag || nick_in_use ==> old(self).count < usize::MAX,
        ensures
            (final(self).count as nat, final(self).flag, r is Some) == next_state(
                old(self).count as nat,
                old(self).flag,
                nick_in_use,
            ),
            r matches Some(x) ==> x@ == reclaim_request(nickname@, password@),
    {
        if nick_in_use {
            self.flag = true;
        }
        if self.flag {
            self.count = self.count + 1;
            if self.count > 10 {
                let mut t = "NS RECLAIM ".to_owned();
                t.append(nickname);
                t.append(" ");
                t.append(password);
                return Some(Reply::new("Pidgey".to_owned(), t));
            }
        }
        None
    }

    /// The reclaim handed out by [`Reclaim::step`] was sent: nothing is
    /// pending any more.
    pub fn sent(&mut self)
        ensures
            (final(self).count as nat, final(self).flag) == after_send(
                old(self).count as nat,
                old(self).flag,
            ),
    {
        self.flag = false;
    }
}

/// One message of a run: whether it reports the nickname in use, and
/// whether a reclaim due on it could be sent.
pub struct Event {
    pub nick_in_use: bool,
    pub send_ok: bool,
}

/// The outcome of a run of messages from a fresh state: the count, the
/// pending flag, how many reclaims were sent, and how many nickname-in-use
/// errors were seen.
pub open spec fn run(events: Seq<Event>) -> (nat, bool, nat, nat)
    decreases events.len(),
{
    if events.len() == 0 {
        (0, false, 0, 0)
    } else {
        let (c, f, sends, errors) = run(events.drop_last());
        let e = events.last();
        let (c2, f2, due) = next_state(c, f, e.nick_in_use);
        let sent = due && e.send_ok;
        let (c3, f3) = if sent { after_send(c2, f2) } else { (c2, f2) };
        (
            c3,
            f3,
            sends + if sent { 1nat } else { 0nat },
            errors + if e.nick_in_use { 1nat } else { 0nat },
        )
    }
}

proof fn lemma_run_pending(events: Seq<Event>)
    ensures
        run(events).2 + (if run(events).1 { 1nat } else { 0nat }) <= run(events).3,
    decreases events.len(),
{
    if events.len() > 0 {
        lemma_run_pending(events.drop_last());
    }
}

/// Over any run from a fresh state, the reclaims sent never outnumber the
/// nickname-in-use errors seen; in particular nothing is sent before the
/// first error.
pub proof fn law_sends_never_outnumber_errors(events: Seq<Event>)
    ensures
        run(events).2 <= run(events).3,
        run(events).3 == 0 ==> run(events).2 == 0,
{
    lemma_run_pending(events);
}

proof fn lemma_countdown(events: Seq<Event>, k: int)
    requires
        1 <= k <= 10,
        k <= events.len(),
        events[0].nick_in_use,
        forall|j: int| 1 <= j < events.len() ==> !(#[trigger] events[j]).nick_in_use,
    ensures
        run(events.take(k)) == (k as nat, true, 0nat, 1nat),
    decreases k,
{
    if k > 1 {
        lemma_countdown(events, k - 1);
        assert(events.take(k).drop_last() =~= events.take(k - 1));
        assert(events.take(k).last() == events[k - 1]);
        assert(!events[k - 1].nick_in_use);
    } else {
        assert(events.take(1).drop_last() =~= Seq::<Event>::empty());
        assert(events.take(1).last() == events[0]);
        assert(run(Seq::<Event>::empty()) == (0nat, false, 0nat, 0nat));
    }
}

/// From a fresh state, a nickname-in-use error followed by ten messages
/// that report none: the first ten messages send nothing, and the
/// eleventh sends the reclaim (when its send succeeds), after which
/// nothing is pending.
pub proof fn law_reclaim_on_eleventh_message(events: Seq<Event>)
    requires
        events.len() == 11,
        events[0].nick_in_use,
        forall|j: int| 1 <= j < 11 ==> !(#[trigger] events[j]).nick_in_use,
        events[10].send_ok,
    ensures
        forall|k: int| 0 <= k <= 10 ==> (#[trigger] run(events.take(k))).2 == 0,
        run(events) == (11nat, false, 1nat, 1nat),
{
    assert forall|k: int| 0 <= k <= 10 implies (#[trigger] run(events.take(k))).2 == 0 by {
        if k >= 1 {
            lemma_countdown(events, k);
        } else {
            assert(events.take(0) =~= Seq::<Event>::empty());
        }
    }
    lemma_countdown(events, 10);
    assert(events.drop_last() =~= events.take(10));
}

/// A reclaim whose send failed stays pending: the next message, whatever
/// it is, makes it due again.
pub proof fn law_failed_send_is_retried(count: nat, flag: bool, nick_in_use: bool, next_in_use: bool)
    requires
        next_state(count, flag, nick_in_use).2,
    ensures
        next_state(
            next_state(count, flag, nick_in_use).0,
            next_state(count, flag, nick_in_use).1,
            next_in_use,
        ).2,
{
}

/// Once more than ten flagged messages have been counted, every later
/// nickname-in-use error makes a reclaim due at once.
pub proof fn law_reclaim_at_once(count: nat, flag: bool)
    requires
        count > 10,
    ensures
        next_state(count, flag, true) == (count + 1, true, true),
{
}

/// Nothing is due while no error has been seen and nothing is pending.
pub proof fn law_quiet_without_error(count: nat)
    ensures
        next_state(count, false, false) == (count, false, false),
{
}

/// After a reclaim is sent nothing is pending, and the next message makes
/// no reclaim due unless it reports the nickname in use.
pub proof fn law_nothing_due_after_send(count: nat, flag: bool)
    ensures
        !after_send(count, flag).1,
        !next_state(after_send(count, flag).0, after_send(count, flag).1, false).2,
{
}

} // verus!
