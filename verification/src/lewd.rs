//! Unsolicited lines: once in a while (one message in a thousand) the
//! bot whispers a pick-up line to whoever spoke.

use vstd::prelude::*;
use crate::chance::random_below;
use crate::reply::Reply;

verus! {

/// How many lines there are to pick from.
pub const LINE_COUNT: usize = 15;

/// The `i`-th line.
pub open spec fn line_text(i: int) -> Seq<char> {
    if i == 0 {
        "Hey, baby. Want some fuck?"@
    } else if i == 1 {
        "If I were you, I'd have sex with me."@
    } else if i == 2 {
        "You've got 206 bones in your body. Want one more?"@
    } else if i == 3 {
        "Your daddy must have been a baker because you've got a nice set of buns."@
    } else if i == 4 {
        "If I told you you had a beautiful chest, would you hold it against me?"@
    } else if i == 5 {
        "Want to play army? I'll lay down, and you can blow the hell out of me."@
    } else if i == 6 {
        "That shirt is very becoming on you.  If I were on you, I'd be coming too."@
    } else if i == 7 {
        "You might not be the best looking girl here, but beauty is only a light switch away."@
    } else if i == 8 {
        "Nice shoes. Want to screw?"@
    } else if i == 9 {
        "I'd like to kiss you passionately on the lips. Then, I'll move up to your belly button."@
    } else if i == 10 {
        "Something tells me you're sweet. Can I have a taste?"@
    } else if i == 11 {
        "Do you work for UPS? Because I swear I saw you checking out my package."@
    } else if i == 12 {
        "Do you want to come over to my place and feed your beaver some wood?"@
    } else if i == 13 {
        "Want to play Kite? I lay down, you blow, and we'll see how high you can take me."@
    } else {
        "That outfit would look great in a crumpled heap on my bedroom floor tomorrow morning."@
    }
}

/// The `i`-th line (`i` below [`LINE_COUNT`]).
pub fn pickup_line(i: usize) -> (s: &'static str)
    requires
        i < LINE_COUNT,
    ensures
        s@ == line_text(i as int),
{
    match i {
        0 => "Hey, baby. Want some fuck?",
        1 => "If I were you, I'd have sex with me.",
        2 => "You've got 206 bones in your body. Want one more?",
        3 => "Your daddy must have been a baker because you've got a nice set of buns.",
        4 => "If I told you you had a beautiful chest, would you hold it against me?",
        5 => "Want to play army? I'll lay down, and you can blow the hell out of me.",
        6 => "That shirt is very becoming on you.  If I were on you, I'd be coming too.",
        7 => "You might not be the best looking girl here, but beauty is only a light switch away.",
        8 => "Nice shoes. Want to screw?",
        9 => "I'd like to kiss you passionately on the lips. Then, I'll move up to your belly button.",
        10 => "Something tells me you're sweet. Can I have a taste?",
        11 => "Do you work for UPS? Because I swear I saw you checking out my package.",
        12 => "Do you want to come over to my place and feed your beaver some wood?",
        13 => "Want to play Kite? I lay down, you blow, and we'll see how high you can take me.",
        _ => "That outfit would look great in a crumpled heap on my bedroom floor tomorrow morning.",
    }
}

/// What is whispered to `user`, given the draw `roll` (out of a thousand)
/// and the line `pick`: a line only when the roll is 0.
pub fn process_with(user: &str, roll: usize, pick: usize) -> (r: Option<Reply>)
    requires
        pick < LINE_COUNT,
    ensures
        match r {
            Some(reply) => roll == 0 && reply@ == (user@, line_text(pick as int)),
            None => roll != 0,
        },
{
    if roll == 0 {
        Some(Reply::new(user.to_owned(), pickup_line(pick).to_owned()))
    } else {
        None
    }
}

/// What is whispered to `user` on any message: with one chance in a
/// thousand, a line drawn at random.
pub fn process(user: &str) -> (r: Option<Reply>)
    ensures
        r matches Some(reply) ==> reply.target@ == user@ && exists|i: int|
            0 <= i < LINE_COUNT && reply.text@ == line_text(i),
{
    let roll = random_below(1000);
    let pick = random_below(LINE_COUNT);
    process_with(user, roll, pick)
}

} // verus!
