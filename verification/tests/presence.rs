use irc::proto::{Command, Message};
use irc_plugins::presence::{self, Presence};

/// Feeds one IRC line to the plugin (owner `test`) and renders what it
/// sends.
fn test_helper(input: &str) -> String {
    let message: Message = input.parse().unwrap();
    let user = message.source_nickname().unwrap_or("").to_string();
    let mut out = String::new();
    if let Command::PRIVMSG(_, msg) = message.command {
        for p in presence::process(user == "test", &msg) {
            let cmd = match p {
                Presence::Join(c) => Command::JOIN(c, None, None),
                Presence::Part(c) => Command::PART(c, None),
            };
            out.push_str(&Message::from(cmd).to_string());
        }
    }
    out
}

#[test]
fn join() {
    let data = test_helper(":test!test@test PRIVMSG #test :join #test #test2\r\n");
    assert_eq!(&data[..], "JOIN #test\r\nJOIN #test2\r\n");
}

#[test]
fn part() {
    let data = test_helper(":test!test@test PRIVMSG #test :part #test #test2\r\n");
    assert_eq!(&data[..], "PART #test\r\nPART #test2\r\n");
}

#[test]
fn join_wins_over_part_and_others_are_ignored() {
    let data = test_helper(":test!test@test PRIVMSG #test :part #a join #b\r\n");
    assert_eq!(&data[..], "JOIN #a\r\nJOIN #b\r\n");
    let data = test_helper(":other!test@test PRIVMSG #test :join #a\r\n");
    assert_eq!(&data[..], "");
    let data = test_helper(":test!test@test PRIVMSG #test :joining #a\r\n");
    assert_eq!(&data[..], "");
}
