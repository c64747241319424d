use irc::proto::{Command, Message};
use irc_plugins::flood::{self, Flood};

/// Feeds one IRC line to the plugin (owner `test`, nickname `flood`) and
/// renders what it sends.
fn test_helper(input: &str) -> String {
    let message: Message = input.parse().unwrap();
    let user = message.source_nickname().unwrap_or("").to_string();
    let mut out = String::new();
    if let Command::PRIVMSG(chan, msg) = message.command {
        let is_owner = user == "test";
        match flood::plan(is_owner, &user, &chan, "flood", &msg) {
            Flood::Nothing => {}
            Flood::NotANumber { target, text } => {
                out.push_str(&Message::from(Command::PRIVMSG(target, text)).to_string());
            }
            Flood::Repeat { target, count, message } => {
                for i in 0..count {
                    let line = flood::flood_line(&message, i);
                    out.push_str(&Message::from(Command::PRIVMSG(target.clone(), line)).to_string());
                }
            }
        }
    }
    out
}

#[test]
fn flood_default_msg() {
    let data = test_helper(":test!test@test PRIVMSG flood :@flood #test 2\r\n");
    assert_eq!(&data[..], "PRIVMSG #test :@flood (0)\r\nPRIVMSG #test :@flood (1)\r\n");
}

#[test]
fn flood_defined_msg() {
    let data = test_helper(":test!test@test PRIVMSG flood :@flood #test 2 this is a test\r\n");
    assert_eq!(&data[..], "PRIVMSG #test :this is a test\r\nPRIVMSG #test :this is a test\r\n");
}

#[test]
fn flood_not_a_number_chan() {
    let data = test_helper(":test!test@test PRIVMSG #test :@flood #test q this is a test\r\n");
    assert_eq!(&data[..], "PRIVMSG #test :q is not a number.\r\n");
}

#[test]
fn flood_not_a_number_query() {
    let data = test_helper(":test!test@test PRIVMSG flood :@flood #test q this is a test\r\n");
    assert_eq!(&data[..], "PRIVMSG test :q is not a number.\r\n");
}

#[test]
fn flood_not_owner() {
    let data = test_helper(":test2!test@test PRIVMSG flood :@flood #test 3\r\n");
    assert_eq!(&data[..], "");
}

#[test]
fn flood_negative_count_sends_nothing() {
    let data = test_helper(":test!test@test PRIVMSG flood :@flood #test -3\r\n");
    assert_eq!(&data[..], "");
}

#[test]
fn flood_count_accepts_plus_sign() {
    let data = test_helper(":test!test@test PRIVMSG flood :@flood #test +1\r\n");
    assert_eq!(&data[..], "PRIVMSG #test :@flood (0)\r\n");
}

#[test]
fn flood_count_out_of_range_is_not_a_number() {
    let data = test_helper(":test!test@test PRIVMSG flood :@flood #test 2147483648\r\n");
    assert_eq!(&data[..], "PRIVMSG test :2147483648 is not a number.\r\n");
}

#[test]
fn flood_needs_a_count() {
    let data = test_helper(":test!test@test PRIVMSG flood :@flood #test\r\n");
    assert_eq!(&data[..], "");
}

#[test]
fn flood_line_numbers() {
    assert_eq!(flood::flood_line(&None, 12), "@flood (12)");
    assert_eq!(flood::flood_line(&None, -7), "@flood (-7)");
    assert_eq!(flood::flood_line(&Some("hi".to_string()), 3), "hi");
}
