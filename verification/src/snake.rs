//! Snake: a message mentioning `snake` is answered with a `METAL GEAR`
//! shout of random length.

use vstd::prelude::*;
use crate::chance::random_below;
use crate::reply::Reply;
use crate::text::{contains, contains_str, push_char, starts_with, starts_with_str};

verus! {

/// `n` copies of `c`.
pub open spec fn repeated(c: char, n: nat) -> Seq<char> {
    Seq::new(n, |i: int| c)
}

/// The shout with `a` letters A and `r` letters R.
pub open spec fn shout(a: nat, r: nat) -> Seq<char> {
    "METAL GE"@ + repeated('A', a) + repeated('R', r)
}

/// The shout is `METAL GE` followed by exactly `a` letters A and then
/// exactly `r` letters R.
pub proof fn law_shout_letters(a: nat, r: nat)
    ensures
        shout(a, r).len() == 8 + a + r,
        shout(a, r).take(8) == "METAL GE"@,
        forall|k: int| 8 <= k < 8 + a ==> #[trigger] shout(a, r)[k] == 'A',
        forall|k: int| 8 + a <= k < 8 + a + r ==> #[trigger] shout(a, r)[k] == 'R',
{
    reveal_strlit("METAL GE");
    assert(shout(a, r).take(8) =~= "METAL GE"@);
}

/// Where the answer goes: the channel when the message was sent to one
/// (its target begins with `#`), else the sender.
pub open spec fn snake_target(target: Seq<char>, user: Seq<char>) -> Seq<char> {
    if starts_with(target, "#"@) {
        target
    } else {
        user
    }
}

fn push_repeated(s: &mut String, c: char, n: usize)
    ensures
        final(s)@ == old(s)@ + repeated(c, n as nat),
{
    let mut i: usize = 0;
    while i < n
        invariant
            i <= n,
            s@ == old(s)@ + repeated(c, i as nat),
        decreases n - i,
    {
        push_char(s, c);
        assert(old(s)@ + repeated(c, (i + 1) as nat) =~= (old(s)@ + repeated(c, i as nat)).push(c));
        i = i + 1;
    }
}

/// The answer to `msg` sent by `user` to `target`, with `a` letters A and
/// `r` letters R: nothing unless the message mentions `snake`.
pub fn process_with(user: &str, target: &str, msg: &str, a: usize, r: usize) -> (res: Option<Reply>)
    ensures
        match res {
            Some(reply) => contains(msg@, "snake"@) && reply@ == (snake_target(target@, user@), shout(a as nat, r as nat)),
            None => !contains(msg@, "snake"@),
        },
{
    if !contains_str(msg, "snake") {
        return None;
    }
    let to = if starts_with_str(target, "#") {
        target.to_owned()
    } else {
        user.to_owned()
    };
    let mut s = "METAL GE".to_owned();
    push_repeated(&mut s, 'A', a);
    push_repeated(&mut s, 'R', r);
    Some(Reply::new(to, s))
}

/// The answer to `msg` sent by `user` to `target`: a shout with one to three
/// A and five to sixteen R, drawn at random, when the message mentions
/// `snake`.
pub fn process(user: &str, target: &str, msg: &str) -> (res: Option<Reply>)
    ensures
        match res {
            Some(reply) => contains(msg@, "snake"@) && reply.target@ == snake_target(target@, user@)
                && exists|a: nat, r: nat| 1 <= a < 4 && 5 <= r < 17 && reply.text@ == shout(a, r),
            None => !contains(msg@, "snake"@),
        },
{
    let a = 1 + random_below(3);
    let r = 5 + random_below(12);
    process_with(user, target, msg, a, r)
}

} // verus!
