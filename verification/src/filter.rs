//! The blocklist, and what it is loaded from.

use crate::digest::{digest_from, digest_octets, FNV_OFFSET};
use crate::protocol::question::Question;
use crate::table::{MatchKey, Table};
use vstd::prelude::*;
use vstd::string::{StrSliceExecFns, StringExecFns};
use vstd::utf8::encode_utf8;

verus! {

/// A name of the blocklist.
#[derive(Debug)]
pub struct BlockedName {
    text: String,
}

impl View for BlockedName {
    type V = Seq<char>;

    closed spec fn view(&self) -> Seq<char> {
        self.text@
    }
}

impl MatchKey for BlockedName {
    open spec fn digest_of(view: Seq<char>) -> u64 {
        digest_from(FNV_OFFSET, encode_utf8(view))
    }

    fn matches(&self, other: &Self) -> (same: bool) {
        self.text == other.text
    }

    fn digest(&self) -> (digest: u64) {
        digest_octets(FNV_OFFSET, self.text.as_str().as_bytes())
    }
}

impl BlockedName {
    /// The name with the text `text`.
    pub fn new(text: String) -> (name: Self)
        ensures
            name@ == text@,
    {
        BlockedName { text }
    }
}

/// The names that are not resolved. Names are held as they are given: no
/// wildcard, and no subdomain, is implied.
#[derive(Debug)]
pub struct Blocklist {
    names: Table<BlockedName, ()>,
}

impl View for Blocklist {
    type V = Set<Seq<char>>;

    closed spec fn view(&self) -> Set<Seq<char>> {
        self.names@.dom()
    }
}

impl Blocklist {
    /// A blocklist without names.
    pub fn new() -> (list: Self)
        ensures
            list@ == Set::<Seq<char>>::empty(),
    {
        let list = Blocklist { names: Table::new() };
        assert(list@ =~= Set::<Seq<char>>::empty());
        list
    }

    /// The blocklist of the names in `names`.
    pub fn from_names(names: &Vec<String>) -> (list: Self)
        ensures
            list@ == texts(names@).to_set(),
    {
        let mut list = Blocklist::new();
        let mut i: usize = 0;
        assert(list@ =~= texts(names@.subrange(0, 0)).to_set());
        while i < names.len()
            invariant
                i <= names@.len(),
                list@ == texts(names@.subrange(0, i as int)).to_set(),
            decreases names@.len() - i,
        {
            let ghost before = texts(names@.subrange(0, i as int));
            list.insert(names[i].clone());
            i = i + 1;
            proof {
                let after = texts(names@.subrange(0, i as int));
                assert(after =~= before.push(names@[i - 1]@));
                assert forall|name: Seq<char>| after.contains(name) <==> (before.contains(name)
                    || name == names@[i - 1]@) by {
                    if before.contains(name) {
                        let k = choose|k: int| 0 <= k < before.len() && before[k] == name;
                        assert(after[k] == name);
                    }
                    if name == names@[i - 1]@ {
                        assert(after[i - 1] == name);
                    }
                }
                assert(list@ =~= after.to_set());
            }
        }
        assert(names@.subrange(0, i as int) =~= names@);
        list
    }

    /// Adds `name` to the blocklist.
    pub fn insert(&mut self, name: String)
        ensures
            final(self)@ == old(self)@.insert(name@),
    {
        self.names.insert(BlockedName::new(name), ());
        assert(self@ =~= old(self)@.insert(name@));
    }

    /// Tells whether `domain` is on the blocklist.
    pub fn contains(&self, domain: &str) -> (blocked: bool)
        ensures
            blocked == self@.contains(domain@),
    {
        self.names.contains_key(&BlockedName::new(domain.to_owned()))
    }
}

/// Tells whether `domain` is one of `blocked_domains`.
pub fn is_domain_blacklisted(blocked_domains: &Blocklist, domain: &str) -> (blocked: bool)
    ensures
        blocked == blocked_domains@.contains(domain@),
{
    blocked_domains.contains(domain)
}

/// Tells whether `question` asks for `google.de`, the one name that a forwarder
/// without a blocklist refuses.
pub fn apply_filter(question: &Question) -> (blocked: bool)
    ensures
        blocked == (question@.domain_name == "google.de"@),
{
    let fixed = String::from_str("google.de");
    question.domain_name == fixed
}

/// Whether an HTTP status code reports success: it lies from 200 to 299.
pub open spec fn is_success(status: u16) -> bool {
    200 <= status < 300
}

/// Whether a content type is plain text: it starts with `text/plain`.
pub open spec fn is_plain_text(content_type: Seq<char>) -> bool {
    "text/plain"@.is_prefix_of(content_type)
}

/// Tells whether the response to the request for a blocklist file is used: its
/// status reports success and its content type, plain text where the response
/// names none, is plain text.
pub fn accepts_blocklist_response(status: u16, content_type: Option<&str>) -> (accepted: bool)
    ensures
        accepted == (is_success(status) && match content_type {
            Some(named) => is_plain_text(named@),
            None => true,
        }),
{
    if status < 200 || status >= 300 {
        return false;
    }
    match content_type {
        None => true,
        Some(named) => {
            let expected = "text/plain";
            proof {
                reveal_strlit("text/plain");
            }
            if named.unicode_len() < 10 {
                return false;
            }
            let mut i: usize = 0;
            while i < 10
                invariant
                    i <= 10,
                    is_success(status),
                    content_type == Some(named),
                    expected@.len() == 10,
                    expected@ == "text/plain"@,
                    named@.len() >= 10,
                    forall|k: int| 0 <= k < i ==> named@[k] == expected@[k],
                decreases 10 - i,
            {
                if named.get_char(i) != expected.get_char(i) {
                    assert(named@.subrange(0, 10)[i as int] == named@[i as int]);
                    return false;
                }
                i = i + 1;
            }
            assert(named@.subrange(0, 10) =~= expected@);
            true
        },
    }
}

/// What the `http` crate makes of `text` read as a URI: the text of the URI that
/// it parsed, or `None` where it takes `text` for no URI.
pub uninterp spec fn uri_rendering(text: Seq<char>) -> Option<Seq<char>>;

/// Calls `http::Uri`'s `FromStr` on `text` and, where that succeeds, `to_string`
/// on the URI. The result is what [`uri_rendering`] names for `text`.
#[verifier::external_body]
fn render_uri(text: &str) -> (rendered: Option<String>)
    ensures
        text_of(rendered) == uri_rendering(text@),
{
    match text.parse::<http::Uri>() {
        Ok(uri) => Some(uri.to_string()),
        Err(_) => None,
    }
}

/// The text of a string, if there is one.
pub open spec fn text_of(string: Option<String>) -> Option<Seq<char>> {
    match string {
        Some(s) => Some(s@),
        None => None,
    }
}

/// Of a run of optional texts, those that are there, in order.
pub open spec fn present(items: Seq<Option<Seq<char>>>) -> Seq<Seq<char>>
    decreases items.len(),
{
    if items.len() == 0 {
        Seq::empty()
    } else {
        match items.last() {
            Some(text) => present(items.drop_last()).push(text),
            None => present(items.drop_last()),
        }
    }
}

/// Keeps of `rendered` the texts that are there, in order.
pub fn keep_present(rendered: Vec<Option<String>>) -> (kept: Vec<String>)
    ensures
        texts(kept@) == present(rendered@.map_values(|r: Option<String>| text_of(r))),
{
    let ghost items = rendered@.map_values(|r: Option<String>| text_of(r));
    let mut rendered = rendered;
    let mut kept: Vec<String> = Vec::new();
    let mut i: usize = 0;
    assert(texts(kept@) =~= present(items.subrange(0, 0)));
    while i < rendered.len()
        invariant
            i <= rendered@.len(),
            items == rendered@.map_values(|r: Option<String>| text_of(r)),
            texts(kept@) == present(items.subrange(0, i as int)),
        decreases rendered@.len() - i,
    {
        let ghost before = kept@;
        proof {
            assert(items.subrange(0, i + 1).drop_last() =~= items.subrange(0, i as int));
            assert(items.subrange(0, i + 1).last() == text_of(rendered@[i as int]));
        }
        match &rendered[i] {
            Some(text) => {
                kept.push(text.clone());
                assert(texts(kept@) =~= texts(before).push(text@));
            },
            None => {},
        }
        i = i + 1;
    }
    assert(items.subrange(0, i as int) =~= items);
    kept
}

/// Of the addresses of blocklist files, those that are URIs, each as the `http`
/// crate renders it and in the order given.
pub fn valid_blacklist_uris(uris: &Vec<String>) -> (valid: Vec<String>)
    ensures
        texts(valid@) == present(uris@.map_values(|u: String| uri_rendering(u@))),
{
    let mut rendered: Vec<Option<String>> = Vec::new();
    let mut i: usize = 0;
    while i < uris.len()
        invariant
            i <= uris@.len(),
            rendered@.len() == i,
            forall|k: int| 0 <= k < i ==> text_of(rendered@[k]) == uri_rendering(uris@[k]@),
        decreases uris@.len() - i,
    {
        rendered.push(render_uri(uris[i].as_str()));
        i = i + 1;
    }
    assert(rendered@.map_values(|r: Option<String>| text_of(r)) =~= uris@.map_values(
        |u: String| uri_rendering(u@),
    ));
    keep_present(rendered)
}

/// Whether a line of a blocklist file names a domain to block: it is longer than
/// three characters, does not start a comment with `#`, and holds a dot.
pub open spec fn is_entry(line: Seq<char>) -> bool {
    line.len() > 3 && line[0] != '#' && line.contains('.')
}

/// The entry that a complete line contributes: itself, or nothing.
pub open spec fn kept(line: Seq<char>) -> Seq<Seq<char>> {
    if is_entry(line) {
        seq![line]
    } else {
        Seq::empty()
    }
}

/// The entries in `rest`, read as the continuation of the line `line`; lines end
/// at a line feed.
pub open spec fn entries_from(rest: Seq<char>, line: Seq<char>) -> Seq<Seq<char>>
    decreases rest.len(),
{
    if rest.len() == 0 {
        kept(line)
    } else if rest[0] == '\n' {
        kept(line) + entries_from(rest.drop_first(), Seq::empty())
    } else {
        entries_from(rest.drop_first(), line.push(rest[0]))
    }
}

/// The domains that the text of a blocklist file names, in the order of its lines.
pub open spec fn blocklist_entries(text: Seq<char>) -> Seq<Seq<char>> {
    entries_from(text, Seq::empty())
}

/// The texts of a run of strings.
pub open spec fn texts(strings: Seq<String>) -> Seq<Seq<char>> {
    strings.map_values(|s: String| s@)
}

/// Appending a character adds a dot exactly where the character is one.
pub proof fn lemma_push_contains_dot(line: Seq<char>, ch: char)
    ensures
        line.push(ch).contains('.') == (line.contains('.') || ch == '.'),
{
    let longer = line.push(ch);
    if line.contains('.') {
        let i = choose|i: int| 0 <= i < line.len() && line[i] == '.';
        assert(longer[i] == '.');
    }
    if ch == '.' {
        assert(longer[line.len() as int] == '.');
    }
    if longer.contains('.') {
        let i = choose|i: int| 0 <= i < longer.len() && longer[i] == '.';
        if i < line.len() {
            assert(line[i] == '.');
        }
    }
}

/// Reads the domains to block from the text of a blocklist file: one domain on
/// each line, where comments and lines that cannot name a domain are passed over.
pub fn parse_blocklist(text: &str) -> (domains: Vec<String>)
    ensures
        texts(domains@) == blocklist_entries(text@),
{
    let mut domains: Vec<String> = Vec::new();
    let mut line = String::new();
    // the length of the line, counted up to four
    let mut length: u8 = 0;
    let mut comment: bool = false;
    let mut dotted: bool = false;
    assert(text@.subrange(0, text@.len() as int) =~= text@);
    assert(texts(domains@) =~= Seq::<Seq<char>>::empty());
    assert(texts(domains@) + blocklist_entries(text@) =~= blocklist_entries(text@));
    for ch in it: text.chars()
        invariant
            it.seq() == text@,
            length == if line@.len() < 4 { line@.len() } else { 4 },
            comment == (line@.len() > 0 && line@[0] == '#'),
            dotted == line@.contains('.'),
            texts(domains@) + entries_from(
                text@.subrange(it.index() as int, text@.len() as int),
                line@,
            ) == blocklist_entries(text@),
    {
        let ghost rest = text@.subrange(it.index() as int, text@.len() as int);
        let ghost before = domains@;
        let ghost held = line@;
        proof {
            assert(rest[0] == ch);
            assert(rest.drop_first() =~= text@.subrange(it.index() + 1, text@.len() as int));
        }
        if ch == '\n' {
            if length > 3 && !comment && dotted {
                domains.push(line);
                assert(texts(domains@) =~= texts(before) + kept(held));
            }
            assert(texts(domains@) + entries_from(rest.drop_first(), Seq::<char>::empty()) =~= texts(
                before,
            ) + entries_from(rest, held));
            line = String::new();
            length = 0;
            comment = false;
            dotted = false;
        } else {
            proof {
                lemma_push_contains_dot(held, ch);
            }
            if length == 0 && ch == '#' {
                comment = true;
            }
            if ch == '.' {
                dotted = true;
            }
            if length < 4 {
                length = length + 1;
            }
            line.push(ch);
        }
    }
    let ghost before = domains@;
    assert(text@.subrange(text@.len() as int, text@.len() as int) =~= Seq::<char>::empty());
    if length > 3 && !comment && dotted {
        domains.push(line);
        assert(texts(domains@) =~= texts(before) + kept(line@));
    }
    domains
}

} // verus!
