use irc_plugins::clock::Stamp;
use irc_plugins::tell::{process, process_at, times_are_readable, Message, Messages};

fn at(sec: i64) -> Stamp {
    Stamp { sec, nsec: 0 }
}

fn texts(m: &mut Messages, user: &str, chan: &str, msg: &str, now: i64) -> Vec<String> {
    process_at(m, user, chan, "bot", msg, &at(now)).into_iter().map(|r| r.text).collect()
}

#[test]
fn tell_leaves_and_delivers() {
    let mut m = Messages::new("irc.example.net");
    let r = process_at(&mut m, "alice", "#chan", "bot", "@tell Bob see you at noon", &at(1000));
    assert_eq!(r.len(), 1);
    assert_eq!(r[0].target, "#chan");
    assert_eq!(r[0].text, "alice: I'll let them know!");
    let r = texts(&mut m, "bob", "#chan", "hello", 1030);
    assert_eq!(r, vec!["Bob: Moments ago, alice said see you at noon.".to_string()]);
    // Delivered once only.
    assert!(texts(&mut m, "bob", "#chan", "hello again", 1040).is_empty());
}

#[test]
fn tell_keeps_final_punctuation() {
    let mut m = Messages::new("s");
    texts(&mut m, "alice", "#c", "@tell bob hi!", 0);
    texts(&mut m, "carol", "#c", "@tell bob really?", 0);
    texts(&mut m, "dave", "#c", "@tell bob done.", 0);
    let r = texts(&mut m, "BOB", "#c", "yo", 10);
    assert_eq!(
        r,
        vec![
            "bob: Moments ago, alice said hi!".to_string(),
            "bob: Moments ago, carol said really?".to_string(),
            "bob: Moments ago, dave said done.".to_string(),
        ]
    );
}

#[test]
fn tell_refuses_second_message_within_a_minute() {
    let mut m = Messages::new("s");
    texts(&mut m, "alice", "#c", "@tell bob one", 100);
    let r = texts(&mut m, "alice", "#c", "@tell BOB two", 130);
    assert_eq!(r, vec!["alice: You've sent BOB a message too recently! Wait a minute!".to_string()]);
    // After a minute the next one is taken.
    let r = texts(&mut m, "alice", "#c", "@tell bob three", 160);
    assert_eq!(r, vec!["alice: I'll let them know!".to_string()]);
    let r = texts(&mut m, "bob", "#c", "hi", 170);
    assert_eq!(
        r,
        vec![
            "bob: A minute ago, alice said one.".to_string(),
            "bob: Moments ago, alice said three.".to_string(),
        ]
    );
}

#[test]
fn tell_other_sender_is_not_refused() {
    let mut m = Messages::new("s");
    texts(&mut m, "alice", "#c", "@tell bob one", 100);
    let r = texts(&mut m, "carol", "#c", "@tell bob two", 101);
    assert_eq!(r, vec!["carol: I'll let them know!".to_string()]);
}

#[test]
fn tell_bot_itself() {
    let mut m = Messages::new("s");
    let r = texts(&mut m, "alice", "#c", "@tell bot hi", 0);
    assert_eq!(r, vec!["alice: I'm right here!".to_string()]);
}

#[test]
fn tell_without_message_is_ignored() {
    let mut m = Messages::new("s");
    assert!(texts(&mut m, "alice", "#c", "@tell bob", 0).is_empty());
    assert!(texts(&mut m, "alice", "#c", "@tell bob ", 0).is_empty());
    assert!(texts(&mut m, "bob", "#c", "hi", 1).is_empty());
}

#[test]
fn tell_answers_in_query_to_sender() {
    let mut m = Messages::new("s");
    let r = process_at(&mut m, "alice", "bot", "bot", "@tell bob hi", &at(0));
    assert_eq!(r[0].target, "alice");
}

#[test]
fn tell_ago_wording() {
    let cases: [(i64, &str); 10] = [
        (59, "Moments ago"),
        (60, "A minute ago"),
        (150, "2 minutes ago"),
        (3600, "An hour ago"),
        (7300, "2 hours ago"),
        (86400, "A day ago"),
        (3 * 86400, "3 days ago"),
        (7 * 86400, "A week ago"),
        (20 * 86400, "2 weeks ago"),
        (-30, "Moments ago"),
    ];
    for (secs, words) in cases {
        let msg = Message::at("bob", "hi", "alice", at(1_000_000));
        assert_eq!(msg.to_string_at(&at(1_000_000 + secs)), format!("bob: {}, alice said hi.", words));
    }
}

#[test]
fn tell_message_fields() {
    let m = Message::at("Bob", "text", "alice", at(5));
    assert_eq!(m.target, "Bob");
    assert_eq!(m.message, "text");
    assert_eq!(m.sender, "alice");
    assert_eq!(m.time, at(5));
    let n = Message::new("Bob", "text", "alice");
    assert!(n.time.nsec >= 0 && n.time.nsec < 1_000_000_000);
    assert!(n.to_string().unwrap().starts_with("Bob: Moments ago, alice said text"));
}

#[test]
fn tell_store_and_get() {
    let mut m = Messages::new("s");
    m.add_message_at("Bob", "one", "alice", at(1));
    m.add_message("bob", "two", "carol");
    assert!(m.is_well_formed());
    assert_eq!(m.inboxes.len(), 1);
    assert_eq!(m.inboxes[0].nick, "bob");
    assert!(m.is_recent_at("carol", "BOB", &at(m.inboxes[0].messages[1].time.sec + 10)));
    assert!(!m.is_recent_at("alice", "bob", &at(m.inboxes[0].messages[1].time.sec)));
    assert_eq!(m.is_recent("carol", "bob"), Some(true));
    let got = m.get_messages("BOB");
    assert_eq!(got.len(), 2);
    assert_eq!(got[0].message, "one");
    assert_eq!(got[1].message, "two");
    assert!(m.get_messages("bob").is_empty());
    assert!(!m.is_recent_at("carol", "bob", &at(0)));
}

#[test]
fn tell_times_read_are_checked() {
    let mut m = Messages::new("s");
    m.add_message_at("bob", "one", "alice", at(i64::MIN));
    // Only the last message for the nick, and only when its sender asks.
    assert!(!m.last_is_readable("alice", "bob", &at(i64::MAX)));
    assert!(m.last_is_readable("carol", "bob", &at(i64::MAX)));
    assert!(m.last_is_readable("alice", "dave", &at(i64::MAX)));
    assert!(m.last_is_readable("alice", "bob", &at(i64::MIN + 100)));
    // Handling a message reads the times of the sender's own messages.
    assert!(!times_are_readable(&m, "bob", "bot", "hi", &at(i64::MAX)));
    assert!(times_are_readable(&m, "carol", "bot", "hi", &at(i64::MAX)));
    assert!(times_are_readable(&m, "carol", "bot", "@tell bob hi", &at(i64::MAX)));
    assert!(!times_are_readable(&m, "alice", "bot", "@tell bob hi", &at(i64::MAX)));
}

#[test]
fn tell_unrelated_old_message_does_not_block() {
    let mut m = Messages::new("s");
    m.add_message_at("zed", "ancient", "alice", at(i64::MIN));
    let r = process(&mut m, "carol", "#c", "bot", "@tell bob hi").unwrap();
    assert_eq!(r[0].text, "carol: I'll let them know!");
    assert_eq!(m.is_recent("carol", "bob"), Some(true));
    assert_eq!(m.is_recent("alice", "zed"), None);
    assert_eq!(m.is_recent("carol", "zed"), Some(false));
}

#[test]
fn tell_process_reads_clock() {
    let mut m = Messages::new("s");
    let r = process(&mut m, "alice", "#c", "bot", "@tell bob hi").unwrap();
    assert_eq!(r[0].text, "alice: I'll let them know!");
    let r = process(&mut m, "bob", "#c", "bot", "hey").unwrap();
    assert_eq!(r[0].text, "bob: Moments ago, alice said hi.");
}

#[test]
fn tell_sender_telling_themselves_gets_it_at_once() {
    let mut m = Messages::new("s");
    let r = texts(&mut m, "alice", "#c", "@tell Alice remember", 0);
    assert_eq!(
        r,
        vec!["alice: I'll let them know!".to_string(), "Alice: Moments ago, alice said remember.".to_string()]
    );
}
