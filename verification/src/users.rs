//! Listing users: `@users` is answered with the channel's users, each with
//! the marks of the access levels held (`~`, `&`, `@`, `%`, `+`).

use vstd::prelude::*;
use crate::reply::Reply;
use crate::text::{byte_len, byte_len_str, chars_of, ends_with, ends_with_str, starts_with, starts_with_str, string_of};

verus! {

/// An access level in a channel.
#[derive(Clone, Copy, Debug, PartialEq, Eq)]
pub enum AccessLevel {
    Owner,
    Admin,
    Oper,
    HalfOp,
    Voice,
    Member,
}

/// A user of a channel with the access levels held.
pub struct User {
    pub name: String,
    pub access_levels: Vec<AccessLevel>,
}

/// The mark of an access level.
pub open spec fn level_mark(l: AccessLevel) -> Seq<char> {
    match l {
        AccessLevel::Owner => "~"@,
        AccessLevel::Admin => "&"@,
        AccessLevel::Oper => "@"@,
        AccessLevel::HalfOp => "%"@,
        AccessLevel::Voice => "+"@,
        AccessLevel::Member => ""@,
    }
}

/// The marks of several access levels, in order.
pub open spec fn marks(levels: Seq<AccessLevel>) -> Seq<char>
    decreases levels.len(),
{
    if levels.len() == 0 {
        Seq::empty()
    } else {
        marks(levels.drop_last()) + level_mark(levels.last())
    }
}

/// The list of the first `k` users: each user with a name adds its marks,
/// its name and `, `, and a line break follows once the list holds more
/// than 300 bytes.
pub open spec fn listing_upto(users: Seq<User>, k: nat) -> Seq<char>
    decreases k,
{
    if k == 0 {
        Seq::empty()
    } else {
        let a = listing_upto(users, (k - 1) as nat);
        let u = users[k - 1];
        if u.name@.len() == 0 {
            a
        } else {
            let b = a + marks(u.access_levels@) + u.name@ + ", "@;
            if byte_len(b) > 300 {
                b + "\r\n"@
            } else {
                b
            }
        }
    }
}

/// Some user has a name.
pub open spec fn has_named(users: Seq<User>) -> bool {
    exists|i: int| 0 <= i < users.len() && #[trigger] users[i].name@.len() > 0
}

/// The list of users, without its last `, ` (and line break).
pub open spec fn listing(users: Seq<User>) -> Seq<char> {
    let r = listing_upto(users, users.len());
    if ends_with(r, "\r\n"@) {
        r.take(r.len() - 4)
    } else {
        r.take(r.len() - 2)
    }
}

/// The list so far is empty, or ends with `, ` (and maybe a line break).
pub open spec fn well_ended(r: Seq<char>) -> bool {
    r.len() == 0 || ends_with(r, ", "@) || ends_with(r, ", \r\n"@)
}

proof fn lemma_listing_ends(users: Seq<User>, k: nat)
    requires
        k <= users.len(),
    ensures
        well_ended(listing_upto(users, k)),
        (exists|i: int| 0 <= i < k && #[trigger] users[i].name@.len() > 0) ==> listing_upto(users, k).len() > 0,
    decreases k,
{
    reveal_strlit(", ");
    reveal_strlit(", \r\n");
    reveal_strlit("\r\n");
    if k > 0 {
        lemma_listing_ends(users, (k - 1) as nat);
        let a = listing_upto(users, (k - 1) as nat);
        let u = users[k - 1];
        if u.name@.len() != 0 {
            let b = a + marks(u.access_levels@) + u.name@ + ", "@;
            assert(b.subrange(b.len() - 2, b.len() as int) =~= ", "@);
            let c = b + "\r\n"@;
            assert(c.subrange(c.len() - 4, c.len() as int) =~= ", \r\n"@);
        } else {
            if exists|i: int| 0 <= i < k && #[trigger] users[i].name@.len() > 0 {
                let i = choose|i: int| 0 <= i < k && #[trigger] users[i].name@.len() > 0;
                assert(i < k - 1);
            }
        }
    }
}

fn level_mark_str(l: &AccessLevel) -> (r: &'static str)
    ensures
        r@ == level_mark(*l),
{
    match l {
        AccessLevel::Owner => "~",
        AccessLevel::Admin => "&",
        AccessLevel::Oper => "@",
        AccessLevel::HalfOp => "%",
        AccessLevel::Voice => "+",
        AccessLevel::Member => "",
    }
}

/// Whether some user has a name.
pub fn has_named_user(users: &Vec<User>) -> (b: bool)
    ensures
        b == has_named(users@),
{
    let mut i: usize = 0;
    while i < users.len()
        invariant
            i <= users@.len(),
            forall|j: int| 0 <= j < i ==> #[trigger] users@[j].name@.len() == 0,
        decreases users@.len() - i,
    {
        if users[i].name.unicode_len() > 0 {
            return true;
        }
        i = i + 1;
    }
    false
}

/// The list of users (one of them must have a name).
pub fn user_list(users: &Vec<User>) -> (r: String)
    requires
        has_named(users@),
    ensures
        r@ == listing(users@),
{
    let mut ret = String::new();
    let mut k: usize = 0;
    while k < users.len()
        invariant
            k <= users@.len(),
            ret@ == listing_upto(users@, k as nat),
        decreases users@.len() - k,
    {
        let u = &users[k];
        if u.name.unicode_len() > 0 {
            let mut j: usize = 0;
            let ghost a = ret@;
            while j < u.access_levels.len()
                invariant
                    j <= u.access_levels@.len(),
                    ret@ == a + marks(u.access_levels@.take(j as int)),
                decreases u.access_levels@.len() - j,
            {
                assert(u.access_levels@.take(j + 1).drop_last() =~= u.access_levels@.take(j as int));
                ret.append(level_mark_str(&u.access_levels[j]));
                assert(ret@ =~= a + marks(u.access_levels@.take(j + 1)));
                j = j + 1;
            }
            assert(u.access_levels@.take(u.access_levels@.len() as int) =~= u.access_levels@);
            ret.append(u.name.as_str());
            ret.append(", ");
            if byte_len_str(ret.as_str()) > 300 {
                ret.append("\r\n");
            }
        }
        k = k + 1;
    }
    proof {
        lemma_listing_ends(users@, users@.len());
        reveal_strlit(", ");
        reveal_strlit(", \r\n");
        reveal_strlit("\r\n");
    }
    let v = chars_of(ret.as_str());
    if ends_with_str(ret.as_str(), "\r\n") {
        proof {
            if !ends_with(ret@, ", \r\n"@) {
                assert(ends_with(ret@, ", "@));
                assert(ret@[ret@.len() - 1] == ret@.subrange(ret@.len() - 2, ret@.len() as int)[1]);
                assert(ret@[ret@.len() - 1] == ret@.subrange(ret@.len() - 2, ret@.len() as int)[1]);
            }
        }
        string_of(&v, 0, v.len() - 4)
    } else {
        string_of(&v, 0, v.len() - 2)
    }
}

/// Whether a message asks for the list of users.
pub fn asks_users(msg: &str) -> (b: bool)
    ensures
        b == starts_with(msg@, "@users"@),
{
    starts_with_str(msg, "@users")
}

/// The answer in `chan` listing its users (one of them must have a name).
pub fn reply(chan: &str, users: &Vec<User>) -> (r: Reply)
    requires
        has_named(users@),
    ensures
        r@ == (chan@, "Users: "@ + listing(users@)),
{
    let mut t = "Users: ".to_owned();
    let l = user_list(users);
    t.append(l.as_str());
    Reply::new(chan.to_owned(), t)
}

} // verus!
