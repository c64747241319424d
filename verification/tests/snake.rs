use irc_plugins::snake;

#[test]
fn snake_shout_length() {
    let r = snake::process_with("user", "#chan", "I like snakes", 2, 5).unwrap();
    assert_eq!(r.target, "#chan");
    assert_eq!(r.text, "METAL GEAARRRRR");
    let r = snake::process_with("user", "bot", "snake", 1, 16).unwrap();
    assert_eq!(r.target, "user");
    assert_eq!(r.text, "METAL GEARRRRRRRRRRRRRRRR");
    assert!(snake::process_with("user", "#chan", "Snake", 1, 5).is_none());
}

#[test]
fn snake_random_shout_in_range() {
    for _ in 0..50 {
        let r = snake::process("user", "#chan", "snake!").unwrap();
        let rest = r.text.strip_prefix("METAL GE").unwrap();
        let a = rest.chars().take_while(|c| *c == 'A').count();
        let rr = rest.chars().skip(a).filter(|c| *c == 'R').count();
        assert!((1..4).contains(&a));
        assert!((5..17).contains(&rr));
        assert_eq!(a + rr, rest.len());
    }
}
