//! Keybase look-ups: `@keybase <user> [<proof kind>]` is answered with the
//! proofs (or the key fingerprint) that keybase.io lists for the user.
//! The HTTP request and the JSON decoding are done by the caller; this
//! module reads the request, forms the address and words the answer.

use vstd::prelude::*;
use vstd::string::*;
use vstd::utf8::*;
use crate::reply::{Reply, answer_target};
use crate::text::{
    contains, join, join_strings, lemma_find_from, lemma_join_contains_part, split, split_spaces, str_eq, views,
};

verus! {

/// One proof of identity: the kind of service and the name there.
pub struct Proof {
    pub proof_type: String,
    pub nametag: String,
}

/// The name under which a kind of proof is shown.
pub open spec fn service_label(t: Seq<char>) -> Seq<char> {
    if t == "twitter"@ {
        "Twitter"@
    } else if t == "github"@ {
        "GitHub"@
    } else if t == "reddit"@ {
        "Reddit"@
    } else if t == "hackernews"@ {
        "HackerNews"@
    } else if t == "coinbase"@ {
        "Coinbase"@
    } else if t == "dns"@ || t == "generic_web_site"@ {
        "Website"@
    } else {
        t
    }
}

fn service_label_str(t: &str) -> (r: String)
    ensures
        r@ == service_label(t@),
{
    if str_eq(t, "twitter") {
        "Twitter".to_owned()
    } else if str_eq(t, "github") {
        "GitHub".to_owned()
    } else if str_eq(t, "reddit") {
        "Reddit".to_owned()
    } else if str_eq(t, "hackernews") {
        "HackerNews".to_owned()
    } else if str_eq(t, "coinbase") {
        "Coinbase".to_owned()
    } else if str_eq(t, "dns") || str_eq(t, "generic_web_site") {
        "Website".to_owned()
    } else {
        t.to_owned()
    }
}

impl Proof {
    /// `<Service>: <name>`.
    pub open spec fn shown(&self) -> Seq<char> {
        service_label(self.proof_type@) + ": "@ + self.nametag@
    }

    pub fn display(&self) -> (r: String)
        ensures
            r@ == self.shown(),
    {
        let mut r = service_label_str(self.proof_type.as_str());
        r.append(": ");
        r.append(self.nametag.as_str());
        r
    }
}

/// All the proofs of a user.
pub struct ProofSummary {
    pub all: Vec<Proof>,
}

/// How each proof of a list is shown.
pub open spec fn shown_proofs(proofs: Seq<Proof>) -> Seq<Seq<char>> {
    proofs.map_values(|p: Proof| p.shown())
}

/// The names of the proofs of kind `kind`, in order.
pub open spec fn tags_of_kind(proofs: Seq<Proof>, kind: Seq<char>) -> Seq<Seq<char>>
    decreases proofs.len(),
{
    if proofs.len() == 0 {
        Seq::empty()
    } else {
        tags_of_kind(proofs.drop_last(), kind) + if proofs.last().proof_type@ == kind {
            seq![proofs.last().nametag@]
        } else {
            Seq::empty()
        }
    }
}

proof fn lemma_tags_of_kind(proofs: Seq<Proof>, kind: Seq<char>)
    ensures
        forall|i: int|
            0 <= i < proofs.len() && (#[trigger] proofs[i]).proof_type@ == kind ==> tags_of_kind(
                proofs,
                kind,
            ).contains(proofs[i].nametag@),
        forall|t: Seq<char>|
            tags_of_kind(proofs, kind).contains(t) ==> exists|i: int|
                0 <= i < proofs.len() && (#[trigger] proofs[i]).proof_type@ == kind
                    && proofs[i].nametag@ == t,
    decreases proofs.len(),
{
    if proofs.len() > 0 {
        let init = proofs.drop_last();
        lemma_tags_of_kind(init, kind);
        let tags = tags_of_kind(proofs, kind);
        let prev = tags_of_kind(init, kind);
        assert forall|i: int|
            0 <= i < proofs.len() && (#[trigger] proofs[i]).proof_type@ == kind implies tags.contains(
                proofs[i].nametag@,
            ) by {
            if i < proofs.len() - 1 {
                assert(init[i] == proofs[i]);
                let k = choose|k: int| 0 <= k < prev.len() && prev[k] == proofs[i].nametag@;
                assert(tags[k] == prev[k]);
            } else {
                assert(tags[prev.len() as int] == proofs.last().nametag@);
            }
        }
        assert forall|t: Seq<char>| tags.contains(t) implies exists|i: int|
            0 <= i < proofs.len() && (#[trigger] proofs[i]).proof_type@ == kind
                && proofs[i].nametag@ == t by {
            let k = choose|k: int| 0 <= k < tags.len() && tags[k] == t;
            if k < prev.len() {
                assert(tags[k] == prev[k]);
                assert(prev[k] == t);
                assert(prev.contains(t));
                let i = choose|i: int|
                    0 <= i < init.len() && (#[trigger] init[i]).proof_type@ == kind
                        && init[i].nametag@ == t;
                assert(proofs[i] == init[i]);
            } else {
                assert(proofs.last().proof_type@ == kind);
                assert(tags[k] == proofs.last().nametag@);
                assert(proofs[proofs.len() - 1] == proofs.last());
            }
        }
    }
}

/// The names listed for a kind are exactly those of the proofs of that
/// kind: every proof of kind `kind` has its name listed, and every name
/// listed is that of a proof of kind `kind`.
pub proof fn law_tags_are_those_of_the_kind(proofs: Seq<Proof>, kind: Seq<char>)
    ensures
        forall|i: int|
            0 <= i < proofs.len() && (#[trigger] proofs[i]).proof_type@ == kind ==> tags_of_kind(
                proofs,
                kind,
            ).contains(proofs[i].nametag@),
        forall|t: Seq<char>|
            tags_of_kind(proofs, kind).contains(t) ==> exists|i: int|
                0 <= i < proofs.len() && (#[trigger] proofs[i]).proof_type@ == kind
                    && proofs[i].nametag@ == t,
{
    lemma_tags_of_kind(proofs, kind);
}

/// A proof of kind `kind` with a name makes the proofs of that kind
/// shown, and its name occurs in what is shown.
pub proof fn law_kind_shows_its_proofs(summary: ProofSummary, kind: Seq<char>, i: int)
    requires
        0 <= i < summary.all@.len(),
        summary.all@[i].proof_type@ == kind,
        summary.all@[i].nametag@.len() > 0,
    ensures
        summary.shown_kind(kind) matches Some(s) && contains(s, summary.all@[i].nametag@),
{
    let tags = tags_of_kind(summary.all@, kind);
    lemma_tags_of_kind(summary.all@, kind);
    assert(summary.all@[i].proof_type@ == kind);
    assert(tags.contains(summary.all@[i].nametag@));
    let k = choose|k: int| 0 <= k < tags.len() && tags[k] == summary.all@[i].nametag@;
    lemma_join_contains_part(tags, " "@, k);
    let j = join(tags, " "@);
    lemma_find_from(j, tags[k], 0);
    assert(j.len() > 0);
}

impl ProofSummary {
    /// Every proof shown, separated by spaces.
    pub open spec fn shown(&self) -> Seq<char> {
        join(shown_proofs(self.all@), " "@)
    }

    /// Some proof is of kind `kind`.
    pub open spec fn has_kind(&self, kind: Seq<char>) -> bool {
        exists|i: int| 0 <= i < self.all@.len() && #[trigger] self.all@[i].proof_type@ == kind
    }

    /// The names of the proofs of kind `kind` separated by spaces, unless
    /// that is empty.
    pub open spec fn shown_kind(&self, kind: Seq<char>) -> Option<Seq<char>> {
        let j = join(tags_of_kind(self.all@, kind), " "@);
        if j.len() > 0 {
            Some(j)
        } else {
            None
        }
    }

    pub fn display(&self) -> (r: String)
        ensures
            r@ == self.shown(),
    {
        let mut shown: Vec<String> = Vec::new();
        let mut i: usize = 0;
        while i < self.all.len()
            invariant
                i <= self.all@.len(),
                views(shown@) == shown_proofs(self.all@).subrange(0, i as int),
            decreases self.all@.len() - i,
        {
            let d = self.all[i].display();
            let ghost before = shown@;
            shown.push(d);
            assert(shown_proofs(self.all@)[i as int] == self.all@[i as int].shown());
            assert(views(shown@) =~= views(before).push(d@));
            assert(views(shown@) =~= shown_proofs(self.all@).subrange(0, i + 1));
            i = i + 1;
        }
        assert(shown_proofs(self.all@).subrange(0, self.all@.len() as int) =~= shown_proofs(
            self.all@,
        ));
        join_strings(&shown, " ")
    }

    /// Whether some proof is of kind `kind`.
    pub fn holds_kind(&self, kind: &str) -> (r: bool)
        ensures
            r == self.has_kind(kind@),
    {
        let mut i: usize = 0;
        while i < self.all.len()
            invariant
                i <= self.all@.len(),
                forall|j: int| 0 <= j < i ==> #[trigger] self.all@[j].proof_type@ != kind@,
            decreases self.all@.len() - i,
        {
            if str_eq(self.all[i].proof_type.as_str(), kind) {
                return true;
            }
            i = i + 1;
        }
        false
    }

    /// The names of the proofs of kind `kind`; the summary must hold one.
    pub fn display_type(&self, kind: &str) -> (r: Option<String>)
        requires
            self.has_kind(kind@),
        ensures
            match r {
                Some(s) => self.shown_kind(kind@) == Some(s@),
                None => self.shown_kind(kind@) is None,
            },
    {
        let mut tags: Vec<String> = Vec::new();
        let mut i: usize = 0;
        while i < self.all.len()
            invariant
                i <= self.all@.len(),
                views(tags@) == tags_of_kind(self.all@.subrange(0, i as int), kind@),
            decreases self.all@.len() - i,
        {
            assert(self.all@.subrange(0, i + 1).drop_last() =~= self.all@.subrange(0, i as int));
            if str_eq(self.all[i].proof_type.as_str(), kind) {
                tags.push(self.all[i].nametag.clone());
            }
            assert(views(tags@) =~= tags_of_kind(self.all@.subrange(0, i + 1), kind@));
            i = i + 1;
        }
        assert(self.all@.subrange(0, self.all@.len() as int) =~= self.all@);
        let j = join_strings(&tags, " ");
        if j.unicode_len() > 0 {
            Some(j)
        } else {
            None
        }
    }
}

/// A public key, known by its fingerprint.
pub struct PublicKey {
    pub key_fingerprint: String,
}

impl PublicKey {
    /// The fingerprint has at least 16 bytes and a character starts 16
    /// bytes before its end.
    pub open spec fn has_short_form(&self) -> bool {
        let b = encode_utf8(self.key_fingerprint@);
        b.len() >= 16 && is_char_boundary(b, b.len() - 16)
    }

    /// The last 16 bytes of the fingerprint.
    pub open spec fn short_form(&self) -> Seq<char> {
        let b = encode_utf8(self.key_fingerprint@);
        decode_utf8(b.subrange(b.len() - 16, b.len() as int))
    }

    /// Whether the fingerprint has a short form.
    pub fn has_short_fingerprint(&self) -> (r: bool)
        ensures
            r == self.has_short_form(),
    {
        let s = self.key_fingerprint.as_str();
        let n = s.as_bytes().len();
        n >= 16 && s.is_char_boundary(n - 16)
    }

    pub fn display(&self) -> (r: String)
        requires
            self.has_short_form(),
        ensures
            r@ == self.short_form(),
    {
        let s = self.key_fingerprint.as_str();
        let n = s.as_bytes().len();
        let (_, tail) = s.split_at(n - 16);
        let r = tail.to_owned();
        proof {
            broadcast use vstd::utf8::encode_utf8_decode_utf8;
            assert(decode_utf8(encode_utf8(r@)) == r@);
        }
        r
    }
}

/// The keys of a user.
pub struct PublicKeys {
    pub primary: PublicKey,
}

impl PublicKeys {
    pub fn display(&self) -> (r: String)
        requires
            self.primary.has_short_form(),
        ensures
            r@ == self.primary.short_form(),
    {
        self.primary.display()
    }
}

/// What keybase.io knows of one user.
pub struct Keybase {
    pub id: String,
    pub public_keys: PublicKeys,
    pub proofs_summary: ProofSummary,
}

impl Keybase {
    /// `kind` can be shown: `key` asks for the fingerprint, any other kind
    /// for the proofs of that kind, of which there must be one.
    pub open spec fn can_show(&self, kind: Seq<char>) -> bool {
        if kind == "key"@ {
            self.public_keys.primary.has_short_form()
        } else {
            self.proofs_summary.has_kind(kind)
        }
    }

    /// What is shown for `kind`.
    pub open spec fn shown_kind(&self, kind: Seq<char>) -> Option<Seq<char>> {
        if kind == "key"@ {
            Some(self.public_keys.primary.short_form())
        } else {
            self.proofs_summary.shown_kind(kind)
        }
    }

    pub fn display(&self) -> (r: String)
        ensures
            r@ == self.proofs_summary.shown(),
    {
        self.proofs_summary.display()
    }

    pub fn display_type(&self, kind: &str) -> (r: Option<String>)
        requires
            self.can_show(kind@),
        ensures
            match r {
                Some(s) => self.shown_kind(kind@) == Some(s@),
                None => self.shown_kind(kind@) is None,
            },
    {
        if str_eq(kind, "key") {
            Some(self.public_keys.display())
        } else {
            self.proofs_summary.display_type(kind)
        }
    }
}

/// The answer of keybase.io to a look-up: the users found, if any.
pub struct LookUp {
    pub them: Option<Vec<Keybase>>,
}

impl LookUp {
    /// At least one user was found.
    pub open spec fn found(&self) -> bool {
        self.them matches Some(v) && v@.len() > 0
    }

    /// The first user found.
    pub open spec fn first(&self) -> Keybase {
        self.them->0@[0]
    }

    pub fn display(&self) -> (r: String)
        requires
            self.found(),
        ensures
            r@ == self.first().proofs_summary.shown(),
    {
        match &self.them {
            Some(v) => v[0].display(),
            None => String::new(),
        }
    }

    pub fn display_type(&self, kind: &str) -> (r: Option<String>)
        requires
            self.found(),
            self.first().can_show(kind@),
        ensures
            match r {
                Some(s) => self.first().shown_kind(kind@) == Some(s@),
                None => self.first().shown_kind(kind@) is None,
            },
    {
        match &self.them {
            Some(v) => v[0].display_type(kind),
            None => None,
        }
    }
}


/// A look-up asked for in a message: the user name, and the kind of proof
/// wanted, if one was named.
pub struct KeybaseQuery {
    pub username: String,
    pub kind: Option<String>,
}

impl View for KeybaseQuery {
    type V = (Seq<char>, Option<Seq<char>>);

    open spec fn view(&self) -> (Seq<char>, Option<Seq<char>>) {
        (
            self.username@,
            match self.kind {
                Some(k) => Some(k@),
                None => None,
            },
        )
    }
}

/// The look-up that a message asks for: `@keybase <user>` or
/// `@keybase <user> <kind>`, with words separated by single spaces and a
/// user name that is not empty.
pub open spec fn query_of(msg: Seq<char>) -> Option<(Seq<char>, Option<Seq<char>>)> {
    let t = split(msg, " "@);
    if t[0] == "@keybase"@ && (t.len() == 2 || t.len() == 3) && t[1].len() > 0 {
        Some(
            (
                t[1],
                if t.len() == 3 {
                    Some(t[2])
                } else {
                    None
                },
            ),
        )
    } else {
        None
    }
}

/// Reads the look-up that a message asks for.
pub fn request(msg: &str) -> (r: Option<KeybaseQuery>)
    ensures
        match r {
            Some(q) => query_of(msg@) == Some(q@),
            None => query_of(msg@) is None,
        },
{
    let t = split_spaces(msg);
    if str_eq(t[0].as_str(), "@keybase") && (t.len() == 2 || t.len() == 3) && t[1].unicode_len()
        > 0 {
        let kind = if t.len() == 3 {
            Some(t[2].clone())
        } else {
            None
        };
        Some(KeybaseQuery { username: t[1].clone(), kind })
    } else {
        None
    }
}

/// The address of the look-up of `username` at keybase.io.
pub open spec fn lookup_address(username: Seq<char>) -> Seq<char> {
    "https://keybase.io/_/api/1.0/user/lookup.json?usernames="@ + username
        + "&fields=proofs_summary,public_keys"@
}

pub fn lookup_url(username: &str) -> (r: String)
    ensures
        r@ == lookup_address(username@),
{
    let mut r = "https://keybase.io/_/api/1.0/user/lookup.json?usernames=".to_owned();
    r.append(username);
    r.append("&fields=proofs_summary,public_keys");
    r
}

/// The sentence that answers a look-up of the proofs of one kind.
pub open spec fn kind_sentence(
    user: Seq<char>,
    name: Seq<char>,
    kind: Seq<char>,
    value: Option<Seq<char>>,
) -> Seq<char> {
    match value {
        Some(res) => if kind == "dns"@ || kind == "generic_web_site"@ {
            user + ": "@ + name + " has the following domains: "@ + res
        } else if kind == "key"@ {
            user + ": "@ + name + "'s fingerprint is "@ + res + "."@
        } else {
            user + ": "@ + name + " is "@ + res + " on "@ + kind + "."@
        },
        None => user + ": "@ + name + " has no proof for "@ + kind + "."@,
    }
}

/// The look-up result can be worded: unless an empty kind was asked for
/// (which is not answered), a user was found and what was asked of him can
/// be shown.
pub open spec fn answerable(l: LookUp, q: (Seq<char>, Option<Seq<char>>)) -> bool {
    match q.1 {
        None => l.found(),
        Some(k) => k.len() == 0 || (l.found() && l.first().can_show(k)),
    }
}

/// The answer to a look-up, given what keybase.io returned (`None` when its
/// answer could not be decoded); `None` when nothing is said.
pub open spec fn answer_text(
    user: Seq<char>,
    q: (Seq<char>, Option<Seq<char>>),
    lookup: Option<LookUp>,
) -> Option<Seq<char>> {
    match lookup {
        None => Some(user + ": Something went wrong!"@),
        Some(l) => match q.1 {
            None => Some(user + ": Keybase: "@ + q.0 + " "@ + l.first().proofs_summary.shown()),
            Some(k) => if k.len() == 0 {
                None
            } else {
                Some(kind_sentence(user, q.0, k, l.first().shown_kind(k)))
            },
        },
    }
}

fn kind_sentence_str(user: &str, name: &str, kind: &str, value: Option<String>) -> (r: String)
    ensures
        r@ == kind_sentence(
            user@,
            name@,
            kind@,
            match value {
                Some(v) => Some(v@),
                None => None,
            },
        ),
{
    let mut r = user.to_owned();
    r.append(": ");
    r.append(name);
    match value {
        Some(res) => {
            if str_eq(kind, "dns") || str_eq(kind, "generic_web_site") {
                r.append(" has the following domains: ");
                r.append(res.as_str());
            } else if str_eq(kind, "key") {
                r.append("'s fingerprint is ");
                r.append(res.as_str());
                r.append(".");
            } else {
                r.append(" is ");
                r.append(res.as_str());
                r.append(" on ");
                r.append(kind);
                r.append(".");
            }
        },
        None => {
            r.append(" has no proof for ");
            r.append(kind);
            r.append(".");
        },
    }
    r
}

/// Whether what keybase.io returned can be worded as the answer to `query`.
pub fn can_answer(query: &KeybaseQuery, lookup: &LookUp) -> (r: bool)
    ensures
        r == answerable(*lookup, query@),
{
    if let Some(k) = &query.kind {
        if k.unicode_len() == 0 {
            return true;
        }
    }
    match &lookup.them {
        None => false,
        Some(v) => {
            if v.len() == 0 {
                false
            } else {
                match &query.kind {
                    None => true,
                    Some(k) => {
                        if str_eq(k.as_str(), "key") {
                            v[0].public_keys.primary.has_short_fingerprint()
                        } else {
                            v[0].proofs_summary.holds_kind(k.as_str())
                        }
                    },
                }
            }
        },
    }
}

/// Answers a look-up in channel `chan`, given what keybase.io returned
/// (`None` when its answer could not be decoded).
pub fn answer(user: &str, chan: &str, query: &KeybaseQuery, lookup: &Option<LookUp>) -> (r: Option<
    Reply,
>)
    requires
        *lookup matches Some(l) ==> answerable(l, query@),
    ensures
        match r {
            Some(reply) => reply.target@ == chan@ && answer_text(user@, query@, *lookup) == Some(
                reply.text@,
            ),
            None => answer_text(user@, query@, *lookup) is None,
        },
{
    match lookup {
        None => {
            let mut t = user.to_owned();
            t.append(": Something went wrong!");
            Some(Reply::new(chan.to_owned(), t))
        },
        Some(l) => match &query.kind {
            None => {
                let mut t = user.to_owned();
                t.append(": Keybase: ");
                t.append(query.username.as_str());
                t.append(" ");
                let shown = l.display();
                t.append(shown.as_str());
                Some(Reply::new(chan.to_owned(), t))
            },
            Some(k) => {
                if k.unicode_len() == 0 {
                    None
                } else {
                    let value = l.display_type(k.as_str());
                    let t = kind_sentence_str(user, query.username.as_str(), k.as_str(), value);
                    Some(Reply::new(chan.to_owned(), t))
                }
            },
        },
    }
}

} // verus!
