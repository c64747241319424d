use irc::proto::{Command, Message};
use irc_plugins::puppet;

/// Feeds one IRC line to the plugin (owner and nickname `test`) and renders
/// what it sends.
fn test_helper(input: &str) -> String {
    let message: Message = input.parse().unwrap();
    let user = message.source_nickname().unwrap_or("").to_string();
    let mut out = String::new();
    if let Command::PRIVMSG(chan, msg) = message.command {
        if let Some(r) = puppet::process(user == "test", &chan, "test", &msg) {
            out.push_str(&Message::from(Command::PRIVMSG(r.target, r.text)).to_string());
        }
    }
    out
}

#[test]
fn puppet_channel() {
    let data = test_helper(":test!test@test PRIVMSG test :#test Hi there, friend.\r\n");
    assert_eq!(&data[..], "PRIVMSG #test :Hi there, friend.\r\n");
}

#[test]
fn puppet_query() {
    let data = test_helper(":test!test@test PRIVMSG test :$test Hi there, friend.\r\n");
    assert_eq!(&data[..], "PRIVMSG test :Hi there, friend.\r\n");
}

#[test]
fn puppet_only_in_private_from_owner() {
    assert_eq!(test_helper(":test!test@test PRIVMSG #chan :#test Hi\r\n"), "");
    assert_eq!(test_helper(":other!test@test PRIVMSG test :#test Hi\r\n"), "");
    assert_eq!(test_helper(":test!test@test PRIVMSG test :#test\r\n"), "");
    assert_eq!(test_helper(":test!test@test PRIVMSG test :hello there\r\n"), "");
}
