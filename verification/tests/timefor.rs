use chrono::Utc;
use irc::proto::{Command, Message};
use irc_plugins::clock::Stamp;
use irc_plugins::timefor::{
    answer, answer_at, is_writable_moment, parse_tz, request, request_is_readable, trim_str, TimeRequest, TzOf,
};

/// Feeds one IRC line to the plugin (the bot is `bot`), and renders what it
/// sends; an offset asked for is recorded, and the record is handed back.
fn test_helper(input: &str) -> (String, Option<TzOf>) {
    let message: Message = input.parse().unwrap();
    let user = message.source_nickname().unwrap_or("").to_string();
    let mut out = String::new();
    let mut record = None;
    if let Command::PRIVMSG(chan, msg) = message.command {
        assert!(request_is_readable(&msg));
        let req = request(&msg);
        if let TimeRequest::SetOffset(v) = req {
            record = Some(TzOf::new(&user, v));
        }
        if let Some(r) = answer(&user, &chan, "bot", &req, record.is_some(), &None) {
            out.push_str(&Message::from(Command::PRIVMSG(r.target, r.text)).to_string());
        }
    }
    (out, record)
}

#[test]
fn test_positive() {
    let (out, record) = test_helper(":target1! PRIVMSG #a :@mytzis +1177\r\n");
    assert_eq!(out, "PRIVMSG #a :target1: OK.\r\n");
    assert_eq!(record.unwrap().seconds_ahead, 11 * 3600 + 77 * 60);
}

#[test]
fn test_negative() {
    let (out, record) = test_helper(":target2! PRIVMSG #a :@mytzis -1177\r\n");
    assert_eq!(out, "PRIVMSG #a :target2: OK.\r\n");
    assert_eq!(record.unwrap().seconds_ahead, -1 * (11 * 3600 + 77 * 60));
}

#[test]
fn test_time() {
    let (out, record) = test_helper(":target3! PRIVMSG #a :@mytzis -0801\r\n");
    assert_eq!(out, "PRIVMSG #a :target3: OK.\r\n");
    let now = Utc::now();
    let tz = record.unwrap();
    let there = now.with_timezone(&tz.offset()).naive_local().and_utc().timestamp();
    assert_eq!(there - now.timestamp(), -1 * (08 * 3600 + 1 * 60));
}

#[test]
fn timefor_parse_tz_values() {
    assert_eq!(parse_tz("+0000"), Ok(0));
    assert_eq!(parse_tz("+0130"), Ok(5400));
    assert_eq!(parse_tz("-1200"), Ok(-43200));
    assert_eq!(parse_tz("+9999"), Ok(99 * 3600 + 99 * 60));
    assert_eq!(parse_tz("0130"), Err(()));
    assert_eq!(parse_tz("+130"), Err(()));
    assert_eq!(parse_tz("*0130"), Err(()));
    assert_eq!(parse_tz("+01x0"), Err(()));
    assert_eq!(parse_tz("++1+1"), Ok(3600 + 60));
}

#[test]
fn timefor_sign_symmetry() {
    for t in ["0000", "0130", "1177", "2359", "0801"] {
        let plus = parse_tz(&format!("+{}", t)).unwrap();
        let minus = parse_tz(&format!("-{}", t)).unwrap();
        assert_eq!(plus, -minus);
    }
}

#[test]
fn timefor_too_far() {
    let (out, record) = test_helper(":x! PRIVMSG #a :@mytzis +2400\r\n");
    assert_eq!(out, "PRIVMSG #a :x: Chrono can't take it if you're a day or more behind UTC.\r\n");
    assert!(record.is_none());
}

#[test]
fn timefor_bad_format() {
    let (out, _) = test_helper(":x! PRIVMSG #a :@mytzis noon\r\n");
    assert_eq!(out, "PRIVMSG #a :x: Expecting a offset from UTC in the form +/-HHmm.\r\n");
}

#[test]
fn timefor_answers_in_query_to_sender() {
    let (out, _) = test_helper(":x! PRIVMSG bot :@mytzis +0100\r\n");
    assert_eq!(out, "PRIVMSG x :x: OK.\r\n");
}

#[test]
fn timefor_ask() {
    let req = request("@timefor someone");
    assert!(matches!(&req, TimeRequest::Ask(w) if w == "someone"));
    let known = answer("x", "#a", "bot", &req, false, &Some("Tue, 1 Jul 2003 10:52:37 +0200".to_string()));
    assert_eq!(known.unwrap().text, "x: It is Tue, 1 Jul 2003 10:52:37 +0200 where someone is.");
    let unknown = answer("x", "#a", "bot", &req, false, &None);
    assert_eq!(unknown.unwrap().text, "x: I don't know someone's timezone.");
}

#[test]
fn timefor_save_failure() {
    let req = request("@mytzis +0100");
    let r = answer("x", "#a", "bot", &req, false, &None).unwrap();
    assert_eq!(r.text, "x: Something bad happened.");
}

#[test]
fn timefor_ignores_other_messages() {
    assert!(matches!(request("hello"), TimeRequest::Nothing));
    assert!(answer("x", "#a", "bot", &TimeRequest::Nothing, false, &None).is_none());
}

#[test]
fn timefor_unreadable_offset_is_detected() {
    assert!(!request_is_readable("@mytzis +1é2"));
    assert!(!request_is_readable("@mytzis é123"));
    assert!(request_is_readable("@mytzis +é12"));
    assert!(matches!(request("@mytzis +é12"), TimeRequest::BadFormat));
    assert!(request_is_readable("@mytzis +1234"));
    assert!(request_is_readable("hello"));
}

#[test]
fn timefor_record_is_lower_case() {
    let t = TzOf::new("SomeOne", 60);
    assert_eq!(t.nickname, "someone");
    assert_eq!(t.seconds_ahead, 60);
}

#[test]
fn timefor_trim() {
    assert_eq!(trim_str("  +0100 \t"), "+0100");
    assert_eq!(trim_str(""), "");
}

#[test]
fn timefor_offset_zone() {
    assert_eq!(TzOf::new("x", -3660).offset().local_minus_utc(), -3660);
    assert_eq!(TzOf::new("x", 86399).offset().local_minus_utc(), 86399);
}

#[test]
fn timefor_time_from() {
    let at = Stamp { sec: 1057049557, nsec: 0 };
    assert_eq!(TzOf::new("x", 7200).time_from(&at), "Tue, 1 Jul 2003 10:52:37 +0200");
    assert_eq!(TzOf::new("x", -(8 * 3600 + 60)).time_from(&at), "Tue, 1 Jul 2003 00:51:37 -0801");
    let now = TzOf::new("x", 3600).time_now().unwrap();
    assert!(now.ends_with("+0100"));
}

#[test]
fn timefor_writable_moments() {
    assert!(is_writable_moment(&Stamp { sec: 0, nsec: 0 }));
    assert!(is_writable_moment(&Stamp { sec: 253402214399, nsec: 999_999_999 }));
    assert!(!is_writable_moment(&Stamp { sec: 253402214400, nsec: 0 }));
    assert!(!is_writable_moment(&Stamp { sec: -62167132801, nsec: 0 }));
    assert!(!is_writable_moment(&Stamp { sec: 0, nsec: -1 }));
    let far = TzOf::new("x", -86399).time_from(&Stamp { sec: -62167132800, nsec: 0 });
    assert!(far.contains(" 0000 ") || far.contains(" 0 "));
}

#[test]
fn timefor_answer_at_tells_recorded_zone() {
    let at = Stamp { sec: 1057049557, nsec: 0 };
    let req = request("@timefor bob");
    let r = answer_at("alice", "#a", "bot", &req, false, &Some(TzOf::new("alice", 7200)), &at).unwrap();
    assert_eq!(r.target, "#a");
    assert_eq!(r.text, "alice: It is Tue, 1 Jul 2003 10:52:37 +0200 where bob is.");
    let r = answer_at("alice", "#a", "bot", &req, false, &None, &at).unwrap();
    assert_eq!(r.text, "alice: I don't know bob's timezone.");
    let r = answer_at("alice", "#a", "bot", &request("@mytzis +0100"), true, &None, &at).unwrap();
    assert_eq!(r.text, "alice: OK.");
}
