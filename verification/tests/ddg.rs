use irc::proto::{Command, Message};
use irc_plugins::ddg;
use irc_plugins::ddg::UrlParts;

fn url(href: &str, domain: Option<&str>) -> UrlParts {
    UrlParts {
        href: href.to_string(),
        domain: domain.map(|d| d.to_string()),
        fragment: None,
        query: vec![],
    }
}

/// Feeds one IRC line to the plugin and renders what it sends.
fn test_helper(input: &str) -> String {
    let message: Message = input.parse().unwrap();
    let user = message.source_nickname().unwrap_or("").to_string();
    let mut out = String::new();
    if let Command::PRIVMSG(chan, msg) = message.command {
        for r in ddg::process(&user, &chan, &msg).unwrap() {
            out.push_str(&Message::from(Command::PRIVMSG(r.target, r.text)).to_string());
        }
    }
    out
}

#[test]
fn basic_search() {
    let data = test_helper(":test!test@test PRIVMSG #test :@ddg Apple\r\n");
    assert_eq!(&data[..], "PRIVMSG #test :test: https://duckduckgo.com/?q=Apple\r\n");
}

#[test]
fn search_with_spaces() {
    let data = test_helper(":test!test@test PRIVMSG #test :@ddg !w Edward Snowden\r\n");
    assert_eq!(&data[..], "PRIVMSG #test :test: https://duckduckgo.com/?q=!w+Edward+Snowden\r\n");
}

#[test]
fn tokenize() {
    assert_eq!(ddg::tokenize("this is a test."), vec!("this", "is", "a", "test"));
    assert_eq!(ddg::tokenize("this is (a test)."), vec!("this", "is", "a", "test"));
    assert_eq!(ddg::tokenize("<<this is a [complicated] test, I suppose."),
               vec!("this", "is", "a", "complicated", "test", "I", "suppose"));
}

#[test]
fn find_urls() {
    assert_eq!(ddg::find_urls("this is http://test.com."), vec!(url("http://test.com/", Some("test.com"))));
    assert_eq!(ddg::find_urls("this is another (http://test.com/)."), vec!(url("http://test.com/", Some("test.com"))));
}

#[test]
fn correct_google() {
    let data = test_helper(":test!test@test PRIVMSG #test :http://google.com/?q=test\r\n");
    assert_eq!(&data[..], "PRIVMSG #test :test: https://duckduckgo.com/?q=test\r\n");
    let data2 = test_helper(":test!test@test PRIVMSG #test :Some text http://google.com/?q=test. Blah.\r\n");
    assert_eq!(&data2[..], "PRIVMSG #test :test: https://duckduckgo.com/?q=test\r\n");
    let data3 = test_helper(":test!test@test PRIVMSG #test :https://www.google.com/?q=test\r\n");
    assert_eq!(&data3[..], "PRIVMSG #test :test: https://duckduckgo.com/?q=test\r\n");
    let data4 = test_helper(":test!test@test PRIVMSG #test :https://www.google.com/?q=with+space\r\n");
    assert_eq!(&data4[..], "PRIVMSG #test :test: https://duckduckgo.com/?q=with+space\r\n");
    let data5 = test_helper(":test!test@test PRIVMSG #test :https://www.google.com/#q=with+space\r\n");
    assert_eq!(&data5[..], "PRIVMSG #test :test: https://duckduckgo.com/?q=with+space\r\n");
}

#[test]
fn search_prefix_is_cut_after_five_characters() {
    // `@search ` is cut at the same place as `@ddg `, so its first letters stay.
    let data = test_helper(":test!test@test PRIVMSG #test :@search cats\r\n");
    assert_eq!(&data[..], "PRIVMSG #test :test: https://duckduckgo.com/?q=ch+cats\r\n");
}

#[test]
fn search_percent_encodes_reserved_and_non_ascii() {
    let data = test_helper(":test!test@test PRIVMSG #test :@ddg a?b#c é\r\n");
    assert_eq!(&data[..], "PRIVMSG #test :test: https://duckduckgo.com/?q=a%3Fb%23c+%C3%A9\r\n");
}

#[test]
fn literal_percent_twenty_becomes_plus() {
    let data = test_helper(":test!test@test PRIVMSG #test :@ddg 100%20\r\n");
    assert_eq!(&data[..], "PRIVMSG #test :test: https://duckduckgo.com/?q=100+\r\n");
}

#[test]
fn other_domains_are_ignored() {
    let data = test_helper(":test!test@test PRIVMSG #test :see http://example.com/?q=x google.com\r\n");
    assert_eq!(&data[..], "");
}

#[test]
fn fragment_search_stops_at_ampersand() {
    let data = test_helper(":test!test@test PRIVMSG #test :https://www.google.com/#q=a+b&hl=en\r\n");
    assert_eq!(&data[..], "PRIVMSG #test :test: https://duckduckgo.com/?q=a+b\r\n");
}

#[test]
fn unreadable_fragment_is_refused() {
    let r = ddg::process("test", "#test", "https://www.google.com/#a&q=x");
    assert!(r.is_none());
}

#[test]
fn google_url_without_search_gives_nothing() {
    let data = test_helper(":test!test@test PRIVMSG #test :https://www.google.com/maps\r\n");
    assert_eq!(&data[..], "");
}

#[test]
fn parsed_url_parts() {
    let urls = ddg::find_urls("go to https://www.google.com/search?hl=en&q=rust+lang#top now");
    assert_eq!(urls.len(), 1);
    assert_eq!(urls[0].domain.as_deref(), Some("www.google.com"));
    assert_eq!(urls[0].fragment.as_deref(), Some("top"));
    assert_eq!(urls[0].query, vec![("hl".to_string(), "en".to_string()), ("q".to_string(), "rust lang".to_string())]);
    assert_eq!(ddg::google_query(&urls[0]), Some("rust+lang".to_string()));
}

#[test]
fn tokenize_strips_only_the_ends() {
    assert_eq!(ddg::tokenize("(a.b) !?"), vec!("a.b", ""));
    assert_eq!(ddg::tokenize(""), vec!(""));
}
