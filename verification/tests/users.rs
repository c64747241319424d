use irc_plugins::users::{asks_users, has_named_user, reply, user_list, AccessLevel, User};

fn user(name: &str, levels: Vec<AccessLevel>) -> User {
    User { name: name.to_string(), access_levels: levels }
}

#[test]
fn users_listing() {
    let users = vec![
        user("alice", vec![AccessLevel::Owner, AccessLevel::Oper]),
        user("", vec![]),
        user("bob", vec![AccessLevel::Voice]),
        user("carol", vec![AccessLevel::Member]),
        user("dave", vec![AccessLevel::Admin, AccessLevel::HalfOp]),
    ];
    assert!(has_named_user(&users));
    assert_eq!(user_list(&users), "~@alice, +bob, carol, &%dave");
    let r = reply("#c", &users);
    assert_eq!(r.target, "#c");
    assert_eq!(r.text, "Users: ~@alice, +bob, carol, &%dave");
}

#[test]
fn users_long_listing_breaks_lines() {
    let name = "x".repeat(150);
    let users = vec![user(&name, vec![]), user(&name, vec![]), user("y", vec![])];
    let s = user_list(&users);
    assert_eq!(s, format!("{}, {}, \r\ny", name, name));
    let users = vec![user(&name, vec![]), user(&name, vec![])];
    assert_eq!(user_list(&users), format!("{}, {}", name, name));
}

#[test]
fn users_request() {
    assert!(asks_users("@users"));
    assert!(asks_users("@users please"));
    assert!(!asks_users("users"));
    assert!(!has_named_user(&vec![user("", vec![])]));
    assert!(!has_named_user(&vec![]));
}
