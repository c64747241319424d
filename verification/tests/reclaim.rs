use irc_plugins::reclaim::Reclaim;

#[test]
fn reclaim_after_ten_messages() {
    let mut r = Reclaim::new();
    assert!(r.step(false, "bot", "pw").is_none());
    assert_eq!(r.count, 0);
    assert!(r.step(true, "bot", "pw").is_none());
    for _ in 0..9 {
        assert!(r.step(false, "bot", "pw").is_none());
    }
    assert_eq!(r.count, 10);
    let due = r.step(false, "bot", "pw").unwrap();
    assert_eq!(due.target, "Pidgey");
    assert_eq!(due.text, "NS RECLAIM bot pw");
    assert!(r.flag);
    r.sent();
    assert!(!r.flag);
    assert!(r.step(false, "bot", "pw").is_none());
    assert_eq!(r.count, 11);
    // The count is never reset: the next error makes a reclaim due at once.
    let again = r.step(true, "bot", "pw").unwrap();
    assert_eq!(again.text, "NS RECLAIM bot pw");
    assert_eq!(r.count, 12);
}

#[test]
fn reclaim_failed_send_is_retried() {
    let mut r = Reclaim::new();
    assert!(r.step(true, "bot", "pw").is_none());
    for _ in 0..9 {
        assert!(r.step(false, "bot", "pw").is_none());
    }
    // Due, but the send fails: `sent` is not called.
    assert!(r.step(false, "bot", "pw").is_some());
    // The next message makes it due again.
    let retry = r.step(false, "bot", "pw").unwrap();
    assert_eq!(retry.text, "NS RECLAIM bot pw");
    r.sent();
    assert!(r.step(false, "bot", "pw").is_none());
    assert_eq!(r.count, 12);
}
