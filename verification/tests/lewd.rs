use irc::proto::{Command, Message};
use irc_plugins::lewd;

/// Feeds one IRC line to the plugin and renders what it sends.
fn test_helper(input: &str) -> String {
    let message: Message = input.parse().unwrap();
    let user = message.source_nickname().unwrap_or("").to_string();
    let mut out = String::new();
    if let Command::PRIVMSG(_, _) = message.command {
        if let Some(r) = lewd::process(&user) {
            out.push_str(&Message::from(Command::PRIVMSG(r.target, r.text)).to_string());
        }
    }
    out
}

#[test]
fn lewd() {
    let data = test_helper(":test!test@test PRIVMSG #test :test\r\n");
    assert!((0..lewd::LINE_COUNT).map(|i| format!("PRIVMSG test :{}\r\n", lewd::pickup_line(i)))
            .collect::<Vec<_>>().contains(&data) || &data[..] == "");
}

#[test]
fn lewd_whispers_only_on_a_zero_roll() {
    let r = lewd::process_with("test", 0, 8).unwrap();
    assert_eq!(r.target, "test");
    assert_eq!(r.text, "Nice shoes. Want to screw?");
    assert!(lewd::process_with("test", 1, 8).is_none());
}
