//! Running commands for the bot's owners: `% <program> <args...>` runs the
//! program (done by the caller) and the bot says its output on one line.

use vstd::prelude::*;
use vstd::utf8::{decode_utf8, valid_utf8};
use crate::reply::Reply;
use crate::text::{is_white_space, split, split_spaces, str_eq, views};

verus! {

/// The command an owner's `% <program> <args...>` asks to run: the program
/// and its arguments.
pub open spec fn command_of(is_owner: bool, msg: Seq<char>) -> Option<(Seq<char>, Seq<Seq<char>>)> {
    let t = split(msg, " "@);
    if is_owner && t[0] == "%"@ {
        Some((t[1], t.skip(2)))
    } else {
        None
    }
}

/// A `%` request names a program (else the plugin would index past the
/// words of the message).
pub open spec fn names_program(is_owner: bool, msg: Seq<char>) -> bool {
    let t = split(msg, " "@);
    is_owner && t[0] == "%"@ ==> t.len() >= 2
}

/// Whether a `%` request names a program (see [`names_program`]).
pub fn names_a_program(is_owner: bool, msg: &str) -> (b: bool)
    ensures
        b == names_program(is_owner, msg@),
{
    if !is_owner {
        return true;
    }
    let t = split_spaces(msg);
    !str_eq(t[0].as_str(), "%") || t.len() >= 2
}

/// The command asked for, if any.
pub fn command(is_owner: bool, msg: &str) -> (r: Option<(String, Vec<String>)>)
    requires
        names_program(is_owner, msg@),
    ensures
        match r {
            Some((p, args)) => command_of(is_owner, msg@) == Some((p@, views(args@))),
            None => command_of(is_owner, msg@) is None,
        },
{
    if !is_owner {
        return None;
    }
    let t = split_spaces(msg);
    if !str_eq(t[0].as_str(), "%") {
        return None;
    }
    let mut args: Vec<String> = Vec::new();
    let mut i: usize = 2;
    while i < t.len()
        invariant
            2 <= i <= t@.len() || (i == 2 && t@.len() < 2),
            views(args@) == views(t@).subrange(2, i as int),
        decreases t@.len() - i,
    {
        let ghost before = args@;
        args.push(t[i].clone());
        assert(views(args@) =~= views(before).push(t@[i as int]@));
        assert(views(t@).subrange(2, i + 1) =~= views(t@).subrange(2, i as int).push(t@[i as int]@));
        i = i + 1;
    }
    assert(views(t@).subrange(2, t@.len() as int) =~= views(t@).skip(2));
    Some((t[1].clone(), args))
}

/// `s` with each white-space character replaced by a space.
pub open spec fn spaced(s: Seq<char>) -> Seq<char> {
    s.map_values(|c: char| if is_white_space(c) { ' ' } else { c })
}

/// `regex::Regex::new(r"[\s]").replace_all(s, " ")`: each character of the
/// Unicode `White_Space` class (what `\s` matches in the `regex` crate)
/// becomes a space.
#[verifier::external_body]
fn collapse_white_space(s: &str) -> (r: String)
    ensures
        r@ == spaced(s@),
{
    regex::Regex::new(r"[\s]").unwrap().replace_all(s, " ").into_owned()
}

/// What `String::from_utf8_lossy` makes of some bytes.
pub uninterp spec fn lossy_utf8(b: Seq<u8>) -> Seq<char>;

/// `String::from_utf8_lossy` of std: the text of the bytes, with invalid
/// sequences replaced; on valid UTF-8 it is the decoded text.
#[verifier::external_body]
fn from_utf8_lossy(b: &[u8]) -> (r: String)
    ensures
        r@ == lossy_utf8(b@),
        valid_utf8(b@) ==> r@ == decode_utf8(b@),
{
    String::from_utf8_lossy(b).into_owned()
}

/// The line said in `chan` after running a command: its output (read as
/// UTF-8, white space turned into spaces) or the reason it could not run,
/// and `No output.` when that is empty.
pub fn reply(chan: &str, outcome: &Result<Vec<u8>, String>) -> (r: Reply)
    ensures
        r.target@ == chan@,
        ({
            let said = match outcome {
                Ok(out) => spaced(lossy_utf8(out@)),
                Err(e) => "Failed to execute command; "@ + e@ + "."@,
            };
            r.text@ == if said.len() == 0 { "No output."@ } else { said }
        }),
{
    let said = match outcome {
        Ok(out) => {
            let text = from_utf8_lossy(out.as_slice());
            collapse_white_space(text.as_str())
        },
        Err(e) => {
            let mut t = "Failed to execute command; ".to_owned();
            t.append(e.as_str());
            t.append(".");
            t
        },
    };
    if said.unicode_len() == 0 {
        Reply::new(chan.to_owned(), "No output.".to_owned())
    } else {
        Reply::new(chan.to_owned(), said)
    }
}

} // verus!
