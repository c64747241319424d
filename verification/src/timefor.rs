//! Time zones: `@mytzis +HHMM` (or `-HHMM`) records the sender's offset
//! from UTC, and `@timefor <nick>` tells the time in the sender's recorded
//! zone. Storing and loading the records is done by the caller.

use vstd::prelude::*;
use vstd::string::*;
use vstd::utf8::{encode_utf8, is_char_boundary};
use crate::clock::{Stamp, now};
use crate::num::{digits_value, integer_literal, parse_i32, parsed_i32};
use crate::reply::{Reply, answer_target, answer_target_str};
use crate::text::{
    chars_of, find_exec, find_from, is_white_space, is_white_space_exec, lemma_find_from, lowercase, string_of,
    to_lowercase_str,
};

verus! {

/// The offset from UTC that a `+HHMM` / `-HHMM` text gives, in seconds:
/// exactly five bytes, a sign, then two two-byte numbers read as
/// `str::parse::<i32>` reads them (hours and minutes).
pub open spec fn tz_offset(b: Seq<u8>) -> Option<int> {
    if b.len() != 5 || !(b[0] == 43 || b[0] == 45) {
        None
    } else {
        match (parsed_i32(b.subrange(1, 3)), parsed_i32(b.subrange(3, 5))) {
            (Some(h), Some(m)) => Some(
                if b[0] == 43 {
                    h * 3600 + m * 60
                } else {
                    -(h * 3600 + m * 60)
                },
            ),
            _ => None,
        }
    }
}

/// A sign followed by four decimal digits `HHMM` is read as `HH` hours and
/// `MM` minutes, in seconds, ahead of UTC for `+` and behind it for `-`.
pub proof fn law_offset_digits(b: Seq<u8>)
    requires
        b.len() == 5,
        b[0] == 43 || b[0] == 45,
        forall|i: int| 1 <= i < 5 ==> 48 <= #[trigger] b[i] <= 57,
    ensures
        tz_offset(b) == Some(
            if b[0] == 43 {
                ((b[1] - 48) * 10 + (b[2] - 48)) * 3600 + ((b[3] - 48) * 10 + (b[4] - 48)) * 60
            } else {
                -(((b[1] - 48) * 10 + (b[2] - 48)) * 3600 + ((b[3] - 48) * 10 + (b[4] - 48)) * 60)
            },
        ),
{
    let h = b.subrange(1, 3);
    let m = b.subrange(3, 5);
    assert(h[0] == b[1] && h[1] == b[2]);
    assert(m[0] == b[3] && m[1] == b[4]);
    assert(h.drop_last().drop_last().len() == 0);
    assert(m.drop_last().drop_last().len() == 0);
    assert(digits_value(h.drop_last().drop_last()) == 0);
    assert(h.drop_last().last() == b[1]);
    assert(digits_value(h.drop_last()) == b[1] - 48);
    assert(digits_value(h) == (b[1] - 48) * 10 + (b[2] - 48));
    assert(digits_value(m.drop_last().drop_last()) == 0);
    assert(m.drop_last().last() == b[3]);
    assert(digits_value(m.drop_last()) == b[3] - 48);
    assert(digits_value(m) == (b[3] - 48) * 10 + (b[4] - 48));
    assert(integer_literal(h, true) == Some(digits_value(h) as int));
    assert(integer_literal(m, true) == Some(digits_value(m) as int));
}

/// `-HHMM` is the offset of `+HHMM` with its sign turned: both are read
/// or neither is.
pub proof fn law_offset_sign(b: Seq<u8>)
    requires
        b.len() == 5,
        b[0] == 43,
    ensures
        tz_offset(b.update(0, 45)) == match tz_offset(b) {
            Some(v) => Some(-v),
            None => None,
        },
{
    let m = b.update(0, 45);
    assert(m.subrange(1, 3) =~= b.subrange(1, 3));
    assert(m.subrange(3, 5) =~= b.subrange(3, 5));
}

/// Reading the text does not cut a character in two: a five-byte text
/// begins with a one-byte character, and after a sign a character begins
/// at its fourth byte.
pub open spec fn tz_readable(b: Seq<u8>) -> bool {
    b.len() == 5 ==> b[0] < 128 && ((b[0] == 43 || b[0] == 45) ==> is_char_boundary(b, 3))
}

/// Reads an offset from UTC written `+HHMM` or `-HHMM`.
pub fn parse_tz(tz: &str) -> (r: Result<i32, ()>)
    requires
        tz_readable(tz.spec_bytes()),
    ensures
        match r {
            Ok(v) => tz_offset(tz.spec_bytes()) == Some(v as int),
            Err(_) => tz_offset(tz.spec_bytes()) is None,
        },
{
    let b = tz.as_bytes();
    if b.len() != 5 || !(b[0] == 43 || b[0] == 45) {
        return Err(());
    }
    let h = parse_i32(slice_range(b, 1, 3).as_slice());
    let m = parse_i32(slice_range(b, 3, 5).as_slice());
    match (h, m) {
        (Some(h), Some(m)) => {
            proof {
                lemma_two_digit_range(b@.subrange(1, 3));
                lemma_two_digit_range(b@.subrange(3, 5));
            }
            let v: i32 = h * 3600 + m * 60;
            if b[0] == 43 {
                Ok(v)
            } else {
                Ok(-v)
            }
        },
        _ => Err(()),
    }
}

/// The bytes `b[from..to]`.
fn slice_range(b: &[u8], from: usize, to: usize) -> (r: Vec<u8>)
    requires
        from <= to <= b@.len(),
    ensures
        r@ == b@.subrange(from as int, to as int),
{
    let mut r: Vec<u8> = Vec::new();
    let mut i: usize = from;
    while i < to
        invariant
            from <= i <= to <= b@.len(),
            r@ == b@.subrange(from as int, i as int),
        decreases to - i,
    {
        r.push(b[i]);
        assert(r@ =~= b@.subrange(from as int, i + 1));
        i = i + 1;
    }
    r
}

proof fn lemma_two_digit_range(b: Seq<u8>)
    requires
        b.len() == 2,
    ensures
        parsed_i32(b) matches Some(v) ==> -9 <= v <= 99,
{
    reveal_with_fuel(crate::num::digits_value, 3);
    if parsed_i32(b) is Some {
        if b[0] == 43 || b[0] == 45 {
            assert(b.skip(1).len() == 1);
            assert(b.skip(1).drop_last().len() == 0);
        } else {
            assert(b.drop_last().len() == 1);
            assert(b.drop_last().drop_last().len() == 0);
        }
    }
}

/// What someone's time zone is: seconds ahead of UTC.
pub struct TzOf {
    pub nickname: String,
    pub seconds_ahead: i32,
}

impl TzOf {
    /// A record for `nickname`, filed under its lower case.
    pub fn new(nickname: &str, seconds_ahead: i32) -> (t: TzOf)
        ensures
            t.nickname@ == lowercase(nickname@),
            t.seconds_ahead == seconds_ahead,
    {
        TzOf { nickname: to_lowercase_str(nickname), seconds_ahead }
    }
}

#[verifier::external_type_specification]
#[verifier::external_body]
pub struct ExFixedOffset(chrono::FixedOffset);

/// The zone that `chrono::FixedOffset::east` gives for `secs` seconds
/// ahead of UTC.
pub uninterp spec fn east_zone(secs: int) -> chrono::FixedOffset;

/// `chrono::FixedOffset::east`: the zone `secs` seconds ahead of UTC, a
/// value that depends on `secs` alone (named [`east_zone`]; the zone is
/// opaque here). It panics outside a day either way, hence the bound.
#[verifier::external_body]
#[allow(deprecated)]
fn fixed_east(secs: i32) -> (z: chrono::FixedOffset)
    requires
        -86400 < secs < 86400,
    ensures
        z == east_zone(secs as int),
{
    chrono::FixedOffset::east(secs)
}

impl TzOf {
    /// The record's zone (the offset must lie within a day of UTC).
    pub fn offset(&self) -> (z: chrono::FixedOffset)
        requires
            -86400 < self.seconds_ahead < 86400,
        ensures
            z == east_zone(self.seconds_ahead as int),
    {
        fixed_east(self.seconds_ahead)
    }

    /// The time at the moment `from` in the record's zone, as RFC 2822 text
    /// (`Tue, 1 Jul 2003 10:52:37 +0200`).
    pub fn time_from(&self, from: &Stamp) -> (r: String)
        requires
            -86400 < self.seconds_ahead < 86400,
            writable_moment(*from),
        ensures
            r@ == rfc2822_in(east_zone(self.seconds_ahead as int), from.sec as int, from.nsec as int),
    {
        let zone = self.offset();
        rfc2822_text(&zone, from.sec, from.nsec)
    }

    /// The time now (the system clock is read) in the record's zone, as
    /// RFC 2822 text; `None` when the clock reads a moment whose date cannot
    /// be written so.
    pub fn time_now(&self) -> (r: Option<String>)
        requires
            -86400 < self.seconds_ahead < 86400,
        ensures
            r matches Some(s) ==> exists|t: Stamp|
                writable_moment(t) && s@ == rfc2822_in(east_zone(self.seconds_ahead as int), t.sec as int, t.nsec as int),
            r is None ==> exists|t: Stamp| t.valid() && !writable_moment(t),
    {
        let t = now();
        if is_writable_moment(&t) {
            Some(self.time_from(&t))
        } else {
            None
        }
    }
}

/// The moments whose date RFC 2822 can write in any zone: valid, and at
/// least a day after the start of year 0 and a day before the end of year
/// 9999 (every zone lies within a day of UTC).
pub open spec fn writable_moment(t: Stamp) -> bool {
    t.valid() && -62167132800 <= t.sec <= 253402214399
}

/// Whether a moment's date can be written in any zone (see
/// [`writable_moment`]).
pub fn is_writable_moment(t: &Stamp) -> (b: bool)
    ensures
        b == writable_moment(*t),
{
    0 <= t.nsec && t.nsec < 1_000_000_000 && -62167132800 <= t.sec && t.sec <= 253402214399
}

/// The RFC 2822 text that chrono writes for the moment `secs` seconds and
/// `nsecs` nanoseconds after the Unix epoch, seen in `zone`.
pub uninterp spec fn rfc2822_in(zone: chrono::FixedOffset, secs: int, nsecs: int) -> Seq<char>;

/// `TimeZone::timestamp_opt` of chrono on `zone`, written with
/// `DateTime::to_rfc2822`: the moment in that zone as RFC 2822 text, which
/// depends on the zone and the moment alone (named [`rfc2822_in`]). The
/// moment is a valid one, and its date lies in years 0 to 9999 in every
/// zone, where `to_rfc2822` would panic otherwise.
#[verifier::external_body]
fn rfc2822_text(zone: &chrono::FixedOffset, secs: i64, nsecs: i32) -> (r: String)
    requires
        -62167132800 <= secs <= 253402214399,
        0 <= nsecs < 1_000_000_000,
    ensures
        r@ == rfc2822_in(*zone, secs as int, nsecs as int),
{
    chrono::TimeZone::timestamp_opt(zone, secs, nsecs as u32).unwrap().to_rfc2822()
}

/// The text after the first `@mytzis ` in a message, trimmed.
pub open spec fn after_marker(msg: Seq<char>, marker: Seq<char>) -> Option<Seq<char>> {
    match find_from(msg, marker, 0) {
        Some(i) => Some(msg.skip(i + marker.len())),
        None => None,
    }
}

/// `s` without white space at either end (what `str::trim` gives).
pub open spec fn trim(s: Seq<char>) -> Seq<char> {
    crate::text::trim_end(trim_start(s))
}

/// `s` without its leading white space.
pub open spec fn trim_start(s: Seq<char>) -> Seq<char>
    decreases s.len(),
{
    if s.len() > 0 && is_white_space(s[0]) {
        trim_start(s.drop_first())
    } else {
        s
    }
}

proof fn lemma_trim_start_skip(s: Seq<char>, i: int)
    requires
        0 <= i <= s.len(),
        forall|k: int| 0 <= k < i ==> is_white_space(s[k]),
    ensures
        trim_start(s) == trim_start(s.skip(i)),
    decreases i,
{
    if i > 0 {
        lemma_trim_start_skip(s.drop_first(), i - 1);
        assert(s.drop_first().skip(i - 1) =~= s.skip(i));
    } else {
        assert(s.skip(0) =~= s);
    }
}

/// `s` without white space at either end, as `str::trim` does.
pub fn trim_str(s: &str) -> (r: String)
    ensures
        r@ == trim(s@),
{
    let v = chars_of(s);
    let n = v.len();
    let mut i: usize = 0;
    while i < n && is_white_space_exec(v[i])
        invariant
            i <= n,
            n == v@.len(),
            v@ == s@,
            forall|k: int| 0 <= k < i ==> is_white_space(v@[k]),
        decreases n - i,
    {
        i = i + 1;
    }
    proof {
        lemma_trim_start_skip(s@, i as int);
    }
    let rest = string_of(&v, i, n);
    assert(rest@ =~= s@.skip(i as int));
    assert(trim_start(rest@) == rest@);
    crate::text::trim_end_str(rest.as_str())
}

/// What a message asks.
pub enum TimeRequest {
    /// `@mytzis` with a valid offset (in seconds) to record.
    SetOffset(i32),
    /// `@mytzis` with an offset of a day or more.
    TooFar,
    /// `@mytzis` with text that is not an offset.
    BadFormat,
    /// `@timefor <who>`.
    Ask(String),
    /// Anything else.
    Nothing,
}

/// The view of a request: its kind and its value.
pub open spec fn request_view(r: TimeRequest) -> (int, int, Seq<char>) {
    match r {
        TimeRequest::SetOffset(v) => (0, v as int, Seq::empty()),
        TimeRequest::TooFar => (1, 0, Seq::empty()),
        TimeRequest::BadFormat => (2, 0, Seq::empty()),
        TimeRequest::Ask(w) => (3, 0, w@),
        TimeRequest::Nothing => (4, 0, Seq::empty()),
    }
}

/// What a message asks (see [`TimeRequest`]), in its view.
pub open spec fn request_of(msg: Seq<char>) -> (int, int, Seq<char>) {
    match after_marker(msg, "@mytzis "@) {
        Some(tz) => match tz_offset(encode_utf8(trim(tz))) {
            Some(v) => if v <= -86400 || v >= 86400 {
                (1, 0, Seq::empty())
            } else {
                (0, v, Seq::empty())
            },
            None => (2, 0, Seq::empty()),
        },
        None => match after_marker(msg, "@timefor "@) {
            Some(who) => (3, 0, who),
            None => (4, 0, Seq::empty()),
        },
    }
}

/// `@mytzis` with an offset of less than a day either way records that
/// offset; with an offset of a day or more it is refused as too far, and
/// with text that is not an offset as badly formed.
pub proof fn law_mytzis_request(msg: Seq<char>, tz: Seq<char>)
    requires
        after_marker(msg, "@mytzis "@) == Some(tz),
    ensures
        match tz_offset(encode_utf8(trim(tz))) {
            Some(v) => if -86400 < v < 86400 {
                request_of(msg) == (0int, v, Seq::<char>::empty())
            } else {
                request_of(msg).0 == 1
            },
            None => request_of(msg).0 == 2,
        },
{
}

/// The offset text of an `@mytzis` request can be read.
pub open spec fn request_readable(msg: Seq<char>) -> bool {
    after_marker(msg, "@mytzis "@) matches Some(tz) ==> tz_readable(encode_utf8(trim(tz)))
}

fn after_marker_str(msg: &str, marker: &str) -> (r: Option<String>)
    ensures
        match r {
            Some(s) => after_marker(msg@, marker@) == Some(s@),
            None => after_marker(msg@, marker@) is None,
        },
{
    let v = chars_of(msg);
    let m = chars_of(marker);
    match find_exec(&v, &m, 0) {
        Some(i) => {
            proof {
                lemma_find_from(v@, m@, 0);
            }
            let n = v.len();
            assert(i + m@.len() <= n);
            let s = string_of(&v, i + m.len(), n);
            assert(s@ =~= msg@.skip(i + m@.len()));
            Some(s)
        },
        None => None,
    }
}

/// Whether the offset text of an `@mytzis` request can be read.
pub fn request_is_readable(msg: &str) -> (r: bool)
    ensures
        r == request_readable(msg@),
{
    match after_marker_str(msg, "@mytzis ") {
        Some(tz) => {
            let t = trim_str(tz.as_str());
            let ts = t.as_str();
            let b = ts.as_bytes();
            if b.len() == 5 {
                b[0] < 128 && (!(b[0] == 43 || b[0] == 45) || ts.is_char_boundary(3))
            } else {
                true
            }
        },
        None => true,
    }
}

/// Reads what a message asks.
pub fn request(msg: &str) -> (r: TimeRequest)
    requires
        request_readable(msg@),
    ensures
        request_view(r) == request_of(msg@),
{
    match after_marker_str(msg, "@mytzis ") {
        Some(tz) => {
            let t = trim_str(tz.as_str());
            match parse_tz(t.as_str()) {
                Ok(v) => if v <= -86400 || v >= 86400 {
                    TimeRequest::TooFar
                } else {
                    TimeRequest::SetOffset(v)
                },
                Err(_) => TimeRequest::BadFormat,
            }
        },
        None => match after_marker_str(msg, "@timefor ") {
            Some(who) => TimeRequest::Ask(who),
            None => TimeRequest::Nothing,
        },
    }
}

/// The text answered to a request from `user` (none for `Nothing`): for
/// `SetOffset`, `saved` tells whether the record was saved; for `Ask`,
/// `time` is the time in the sender's zone, if a record was found.
pub open spec fn answer_text(user: Seq<char>, req: TimeRequest, saved: bool, time: Option<Seq<char>>) -> Option<Seq<char>> {
    match req {
        TimeRequest::SetOffset(_) => Some(user + if saved { ": OK."@ } else { ": Something bad happened."@ }),
        TimeRequest::TooFar => Some(user + ": Chrono can't take it if you're a day or more behind UTC."@),
        TimeRequest::BadFormat => Some(user + ": Expecting a offset from UTC in the form +/-HHmm."@),
        TimeRequest::Ask(who) => match time {
            Some(t) => Some(user + ": It is "@ + t + " where "@ + who@ + " is."@),
            None => Some(user + ": I don't know "@ + who@ + "'s timezone."@),
        },
        TimeRequest::Nothing => None,
    }
}

/// The answer to a request from `user` in `chan`, given the outcome of the
/// work the caller did for it: for `SetOffset`, whether the record was saved; for
/// `Ask`, the time in the sender's zone (RFC 2822), if a record was found.
pub fn answer(user: &str, chan: &str, bot_nick: &str, req: &TimeRequest, saved: bool, time: &Option<String>) -> (r: Option<Reply>)
    ensures
        match r {
            Some(reply) => reply.target@ == answer_target(chan@, bot_nick@, user@)
                && answer_text(user@, *req, saved, match time { Some(t) => Some(t@), None => None }) == Some(reply.text@),
            None => answer_text(user@, *req, saved, match time { Some(t) => Some(t@), None => None }) is None,
        },
{
    let mut t = user.to_owned();
    match req {
        TimeRequest::SetOffset(_) => {
            if saved {
                t.append(": OK.");
            } else {
                t.append(": Something bad happened.");
            }
        },
        TimeRequest::TooFar => {
            t.append(": Chrono can't take it if you're a day or more behind UTC.");
        },
        TimeRequest::BadFormat => {
            t.append(": Expecting a offset from UTC in the form +/-HHmm.");
        },
        TimeRequest::Ask(who) => match time {
            Some(tm) => {
                t.append(": It is ");
                t.append(tm.as_str());
                t.append(" where ");
                t.append(who.as_str());
                t.append(" is.");
            },
            None => {
                t.append(": I don't know ");
                t.append(who.as_str());
                t.append("'s timezone.");
            },
        },
        TimeRequest::Nothing => {
            return None;
        },
    }
    Some(Reply::new(answer_target_str(chan, bot_nick, user), t))
}

/// The time in the zone of `record`, if there is one, at the moment `now`.
pub open spec fn recorded_time(record: Option<TzOf>, now: Stamp) -> Option<Seq<char>> {
    match record {
        Some(t) => Some(rfc2822_in(east_zone(t.seconds_ahead as int), now.sec as int, now.nsec as int)),
        None => None,
    }
}

/// The answer to a request from `user` in `chan` at the moment `now`:
/// for `SetOffset`, `saved` tells whether the record was saved; for `Ask`,
/// `record` is the sender's record, if one was loaded, and the time told
/// is `now` in its zone.
pub fn answer_at(
    user: &str,
    chan: &str,
    bot_nick: &str,
    req: &TimeRequest,
    saved: bool,
    record: &Option<TzOf>,
    now: &Stamp,
) -> (r: Option<Reply>)
    requires
        *req is Ask ==> (*record matches Some(t) ==> -86400 < t.seconds_ahead < 86400 && writable_moment(*now)),
    ensures
        match r {
            Some(reply) => reply.target@ == answer_target(chan@, bot_nick@, user@)
                && answer_text(user@, *req, saved, recorded_time(*record, *now)) == Some(reply.text@),
            None => answer_text(user@, *req, saved, recorded_time(*record, *now)) is None,
        },
{
    let time = match req {
        TimeRequest::Ask(_) => match record {
            Some(t) => Some(t.time_from(now)),
            None => None,
        },
        _ => None,
    };
    answer(user, chan, bot_nick, req, saved, &time)
}

} // verus!
