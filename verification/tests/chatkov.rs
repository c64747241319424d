use irc::proto::{Command, Message};
use irc_plugins::chatkov::{self, Chatkov};

/// Feeds one IRC line to the plugin, with nothing recorded yet (so that
/// nothing can be generated), and renders what it sends.
fn test_helper(input: &str) -> String {
    let message: Message = input.parse().unwrap();
    let user = message.source_nickname().unwrap_or("").to_string();
    let mut out = String::new();
    if let Command::PRIVMSG(chan, msg) = message.command {
        if let Chatkov::Generate(_) = chatkov::request(&msg) {
            let r = chatkov::reply(&user, &chan, "");
            out.push_str(&Message::from(Command::PRIVMSG(r.target, r.text)).to_string());
        }
    }
    out
}

#[test]
fn chatkov() {
    let data = test_helper(":test!test@test PRIVMSG #test :@markov\r\n");
    assert!(data.len() > 0)
}

#[test]
fn chatkov_requests() {
    match chatkov::request("Hello. How are you.") {
        Chatkov::Record(t) => assert_eq!(t, "Hello\n How are you\n"),
        _ => panic!("expected a recording"),
    }
    match chatkov::request("@markov the seed") {
        Chatkov::Generate(Some(s)) => assert_eq!(s, "the"),
        _ => panic!("expected a generation"),
    }
    assert!(matches!(chatkov::request("@other"), Chatkov::Nothing));
    assert_eq!(chatkov::reply("u", "#c", "").text, "u: That seed is unknown.");
    assert_eq!(chatkov::reply("u", "#c", "hi there").text, "u: hi there");
}

#[test]
fn chatkov_generates_from_seed() {
    let chain = irc_plugins::chatkov::chain_of("the cat sat\n  the dog \t ran\n\n");
    assert!(irc_plugins::chatkov::has_words(&chain));
    let s = irc_plugins::chatkov::generate(&chain, &Some("dog".to_string()));
    assert_eq!(s, "dog ran");
    let s = irc_plugins::chatkov::generate(&chain, &Some("cow".to_string()));
    assert_eq!(s, "");
    let s = irc_plugins::chatkov::generate(&chain, &None);
    assert!(s == "the cat sat" || s == "the dog ran" || s == "the cat" || s.starts_with("the "));
}

#[test]
fn chatkov_empty_record() {
    let chain = irc_plugins::chatkov::chain_of(" \n\t\n");
    assert!(!irc_plugins::chatkov::has_words(&chain));
    assert_eq!(irc_plugins::chatkov::generate(&chain, &Some("a".to_string())), "");
}

#[test]
fn chatkov_white_space_words() {
    assert_eq!(
        irc_plugins::text::white_space_words_str("  a bb\tc\u{2003}dd  "),
        vec!["a", "bb", "c", "dd"]
    );
    assert!(irc_plugins::text::white_space_words_str(" \n ").is_empty());
}

#[test]
fn chatkov_generates_without_seed() {
    let chain = irc_plugins::chatkov::chain_of("hello world\n");
    assert_eq!(irc_plugins::chatkov::generate(&chain, &None), "hello world");
}
