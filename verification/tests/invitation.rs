use irc::proto::{Command, Message};
use irc_plugins::invitation;

/// Feeds one IRC line to the plugin (nickname `test`) and renders what it
/// sends.
fn test_helper(input: &str) -> String {
    let message: Message = input.parse().unwrap();
    let mut out = String::new();
    if let Command::INVITE(nick, chan) = message.command {
        if let Some(c) = invitation::process("test", &nick, &chan) {
            out.push_str(&Message::from(Command::JOIN(c, None, None)).to_string());
        }
    }
    out
}

#[test]
fn joins_on_invite() {
    let data = test_helper(":test!test@test INVITE test #test\r\n");
    assert_eq!(&data[..], "JOIN #test\r\n");
}

#[test]
fn ignores_invites_to_others() {
    let data = test_helper(":test!test@test INVITE not-test #test\r\n");
    assert!(data.is_empty());
}
