//! Decision logic of a family of IRC bot plugins: each plugin reads an
//! incoming message and decides what the bot answers, joins or stores.
//! The network, the files and the clock are handled by the caller.

pub mod text;
pub mod num;
pub mod reply;
pub mod keybase;
pub mod clock;
pub mod tell;
pub mod ddg;
pub mod chance;
pub mod flood;
pub mod quote;
pub mod whois;
pub mod invitation;
pub mod presence;
pub mod puppet;
pub mod lewd;
pub mod snake;
pub mod chooser;
pub mod chatkov;
pub mod reclaim;
pub mod users;
pub mod sys;
pub mod timefor;
