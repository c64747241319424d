use irc_plugins::quote::{process, process_with_pick, Quote, Quotes};

fn said(q: &mut Quotes, user: &str, chan: &str, msg: &str, pick: usize) -> Option<(String, String)> {
    process_with_pick(q, user, chan, "bot", msg, pick).map(|r| (r.target, r.text))
}

#[test]
fn quote_add_then_recall() {
    let mut q = Quotes::new("irc.example.net");
    let r = said(&mut q, "alice", "#c", "@addquote bob I never said that", 0);
    assert_eq!(r, Some(("#c".to_string(), "alice: I'll remember it as #1.".to_string())));
    let r = said(&mut q, "alice", "#c", "@addquote carol fine", 0);
    assert_eq!(r.unwrap().1, "alice: I'll remember it as #2.");
    assert_eq!(said(&mut q, "dave", "#c", "@quote 1", 0).unwrap().1, "<bob> I never said that");
    assert_eq!(said(&mut q, "dave", "#c", "@quote 2", 0).unwrap().1, "<carol> fine");
    assert_eq!(said(&mut q, "dave", "#c", "@quote +2", 0).unwrap().1, "<carol> fine");
    assert_eq!(said(&mut q, "dave", "#c", "@quote 3", 0).unwrap().1, "There is no such quote.");
    assert_eq!(said(&mut q, "dave", "#c", "@quote two", 0).unwrap().1, "There is no such quote.");
    assert_eq!(said(&mut q, "dave", "#c", "@quote", 1).unwrap().1, "<carol> fine");
    assert_eq!(q.get_latest_index(), 2);
}

#[test]
fn quote_none_known() {
    let mut q = Quotes::new("s");
    assert_eq!(said(&mut q, "dave", "#c", "@quote", 0).unwrap().1, "I don't know any quotes.");
    assert_eq!(said(&mut q, "dave", "#c", "@quote 1", 0).unwrap().1, "There is no such quote.");
    assert!(q.get_random_quote().is_none());
}

#[test]
fn quote_ignores_other_messages() {
    let mut q = Quotes::new("s");
    assert!(said(&mut q, "dave", "#c", "hello", 0).is_none());
    assert!(said(&mut q, "dave", "#c", "@addquote bob", 0).is_none());
    assert!(said(&mut q, "dave", "#c", "@addquote", 0).is_none());
    assert_eq!(q.quotes.len(), 0);
}

#[test]
fn quote_answers_in_query_to_sender() {
    let mut q = Quotes::new("s");
    let r = said(&mut q, "alice", "bot", "@addquote bob hi", 0).unwrap();
    assert_eq!(r.0, "alice");
}

#[test]
fn quote_random_is_one_of_them() {
    let mut q = Quotes::new("s");
    q.add_quote("a", "x");
    q.add_quote("b", "y");
    let r = q.get_random_quote().unwrap();
    assert!(r.message == "a" || r.message == "b");
    let t = process(&mut q, "u", "#c", "bot", "@quote").unwrap().text;
    assert!(t == "<x> a" || t == "<y> b");
    let one = q.get_quote(1).unwrap();
    assert_eq!((one.message.as_str(), one.sender.as_str()), ("a", "x"));
    assert!(q.get_quote(3).is_none());
}

#[test]
fn quote_new() {
    let q = Quote::new("words", "who");
    assert_eq!(q.message, "words");
    assert_eq!(q.sender, "who");
}
