use irc::proto::{Command, Message};
use irc_plugins::chooser;

/// Feeds one IRC line to the plugin and renders what it sends.
fn test_helper(input: &str) -> String {
    let message: Message = input.parse().unwrap();
    let user = message.source_nickname().unwrap_or("").to_string();
    let mut out = String::new();
    if let Command::PRIVMSG(chan, msg) = message.command {
        if let Some(r) = chooser::process(&user, &chan, &msg) {
            out.push_str(&Message::from(Command::PRIVMSG(r.target, r.text)).to_string());
        }
    }
    out
}

#[test]
fn choose_from_two() {
    let data = test_helper(":test!test@test PRIVMSG #test :@choose this or that\r\n");
    assert!(["PRIVMSG #test :test: this\r\n", "PRIVMSG #test :test: that\r\n"]
            .contains(&&data[..]));
}

#[test]
fn choose_from_three() {
    let data = test_helper(":test!test@test PRIVMSG #test :@choose this or that or the other \
                            thing\r\n");
    assert!(["PRIVMSG #test :test: this\r\n", "PRIVMSG #test :test: that\r\n",
            "PRIVMSG #test :test: the other thing\r\n"].contains(&&data[..]));
}

#[test]
fn choose_with_fixed_pick() {
    let r = chooser::process_with("test", "#test", "@choose a or b or c", 2).unwrap();
    assert_eq!(r.text, "test: c");
    assert!(chooser::process_with("test", "#test", "@choose a or b or c", 3).is_none());
    assert_eq!(chooser::choices("@choose one").unwrap(), vec!["one".to_string()]);
    assert!(chooser::choices("@chooseone").is_none());
}
