use irc::proto::{Command, Message};
use irc_plugins::keybase::{
    answer, can_answer, lookup_url, request, Keybase, LookUp, Proof, ProofSummary, PublicKey,
    PublicKeys,
};

fn proof_of(kind: &str, tag: &str) -> Proof {
    Proof { proof_type: kind.to_string(), nametag: tag.to_string() }
}

/// What keybase.io knows of the user `awe`.
fn awe() -> LookUp {
    LookUp {
        them: Some(vec![Keybase {
            id: "5c1b4b4b1aa4b8f4d8f0f7d4b0e8d019".to_string(),
            public_keys: PublicKeys {
                primary: PublicKey {
                    key_fingerprint: "5d2e8c1f0b7a3e44a9c6d21fa943ba9f204c61be".to_string(),
                },
            },
            proofs_summary: ProofSummary {
                all: vec![
                    proof_of("twitter", "aatxe"),
                    proof_of("github", "aatxe"),
                    proof_of("reddit", "aaronweiss74"),
                    proof_of("coinbase", "coinbase/awe"),
                    proof_of("dns", "deviant-core.net"),
                    proof_of("dns", "pdgn.co"),
                    proof_of("dns", "aaronweiss.us"),
                ],
            },
        }]),
    }
}

/// Feeds one IRC line to the plugin, with `lookup` as what keybase.io
/// returned, and renders what it sends.
fn answer_with(input: &str, lookup: Option<LookUp>) -> String {
    let message: Message = input.parse().unwrap();
    let user = message.source_nickname().unwrap_or("").to_string();
    let mut out = String::new();
    if let Command::PRIVMSG(chan, msg) = message.command {
        if let Some(query) = request(&msg) {
            if let Some(l) = &lookup {
                assert!(can_answer(&query, l));
            }
            if let Some(r) = answer(&user, &chan, &query, &lookup) {
                out.push_str(&Message::from(Command::PRIVMSG(r.target, r.text)).to_string());
            }
        }
    }
    out
}

fn test_helper(input: &str) -> String {
    answer_with(input, Some(awe()))
}

#[test]
fn keybase_lookup() {
    let data = test_helper(":test!test@test PRIVMSG #test :@keybase awe\r\n");
    assert_eq!(&data[..], "PRIVMSG #test :test: Keybase: awe Twitter: aatxe GitHub: aatxe \
                        Reddit: aaronweiss74 Coinbase: coinbase/awe Website: deviant-core.net \
                        Website: pdgn.co Website: aaronweiss.us\r\n");
}

#[test]
fn keybase_lookup_key() {
    let data = test_helper(":test!test@test PRIVMSG #test :@keybase awe key\r\n");
    assert_eq!(&data[..], "PRIVMSG #test :test: awe's fingerprint is a943ba9f204c61be.\r\n");
}

#[test]
fn keybase_lookup_dns() {
    let data = test_helper(":test!test@test PRIVMSG #test :@keybase awe dns\r\n");
    assert_eq!(&data[..], "PRIVMSG #test :test: awe has the following domains: deviant-core.net \
                        pdgn.co aaronweiss.us\r\n");
}

#[test]
fn keybase_lookup_github() {
    let data = test_helper(":test!test@test PRIVMSG #test :@keybase awe github\r\n");
    assert_eq!(&data[..], "PRIVMSG #test :test: awe is aatxe on github.\r\n");
}

#[test]
fn keybase_undecodable_answer() {
    let data = answer_with(":test!test@test PRIVMSG #test :@keybase awe\r\n", None);
    assert_eq!(&data[..], "PRIVMSG #test :test: Something went wrong!\r\n");
}

#[test]
fn keybase_ignores_other_messages() {
    assert!(request("@keybase").is_none());
    assert!(request("@keybase  awe").is_none());
    assert!(request("@keybase a b c").is_none());
    assert!(request("keybase awe").is_none());
    let q = request("@keybase awe dns").unwrap();
    assert_eq!(q.username, "awe");
    assert_eq!(q.kind, Some("dns".to_string()));
}

#[test]
fn keybase_empty_kind_says_nothing() {
    let q = request("@keybase awe ").unwrap();
    assert_eq!(q.kind, Some(String::new()));
    assert!(answer("test", "#test", &q, &Some(awe())).is_none());
}

#[test]
fn keybase_cannot_answer_unknown_kind() {
    let q = request("@keybase awe hackernews").unwrap();
    assert!(!can_answer(&q, &awe()));
    let nobody = LookUp { them: Some(vec![]) };
    assert!(!can_answer(&request("@keybase awe").unwrap(), &nobody));
    assert!(!can_answer(&request("@keybase awe").unwrap(), &LookUp { them: None }));
}

#[test]
fn keybase_short_fingerprint_cannot_be_shown() {
    let mut l = awe();
    if let Some(v) = &mut l.them {
        v[0].public_keys.primary.key_fingerprint = "abc".to_string();
    }
    assert!(!can_answer(&request("@keybase awe key").unwrap(), &l));
}

#[test]
fn keybase_other_service_label() {
    assert_eq!(proof_of("hackernews", "x").display(), "HackerNews: x");
    assert_eq!(proof_of("generic_web_site", "a.b").display(), "Website: a.b");
    assert_eq!(proof_of("mastodon", "y").display(), "mastodon: y");
}

#[test]
fn keybase_url() {
    assert_eq!(
        lookup_url("awe"),
        "https://keybase.io/_/api/1.0/user/lookup.json?usernames=awe&fields=proofs_summary,public_keys"
    );
}

#[test]
fn keybase_empty_kind_needs_no_user() {
    let q = request("@keybase nobody ").unwrap();
    let none_found = LookUp { them: None };
    assert!(can_answer(&q, &none_found));
    assert!(answer("test", "#test", &q, &Some(none_found)).is_none());
}
