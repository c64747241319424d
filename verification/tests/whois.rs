use irc_plugins::whois::{lookup_reply, registered_reply, request, WhoIs, WhoisRequest};

#[test]
fn whois_register_then_lookup() {
    let w = match request("alice", "@iam the captain now") {
        WhoisRequest::Register(w) => w,
        _ => panic!("not a registration"),
    };
    assert_eq!(w.nickname, "alice");
    assert_eq!(w.description, "the captain now");
    let r = registered_reply("alice", "#c", "bot", true);
    assert_eq!((r.target.as_str(), r.text.as_str()), ("#c", "alice: Got it!"));
    let nick = match request("bob", "@whois alice") {
        WhoisRequest::Lookup(n) => n,
        _ => panic!("not a lookup"),
    };
    assert_eq!(nick, "alice");
    let r = lookup_reply("bob", "#c", "bot", &nick, &Some(w));
    assert_eq!(r.text, "bob: alice is the captain now");
}

#[test]
fn whois_unknown() {
    let r = lookup_reply("bob", "bot", "bot", "zed", &None);
    assert_eq!((r.target.as_str(), r.text.as_str()), ("bob", "bob: I don't know who zed is."));
}

#[test]
fn whois_store_failure() {
    let r = registered_reply("alice", "#c", "bot", false);
    assert_eq!(r.text, "alice: Something went wrong.");
}

#[test]
fn whois_other_messages() {
    assert!(matches!(request("a", "hello"), WhoisRequest::Nothing));
    assert!(matches!(request("a", "@whois"), WhoisRequest::Nothing));
    assert!(matches!(request("a", "@whois x y"), WhoisRequest::Lookup(n) if n == "x"));
    assert!(matches!(request("a", "@iam "), WhoisRequest::Register(w) if w.description.is_empty()));
}

#[test]
fn whois_new() {
    let w = WhoIs::new("n", "d");
    assert_eq!((w.nickname.as_str(), w.description.as_str()), ("n", "d"));
}
