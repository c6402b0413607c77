//! Entity management over the Service Bus ATOM REST API: entities, the
//! editable settings of each kind, and the XML bodies sent to the service.

use vstd::prelude::*;
use crate::connection::{ConnStrError, connection_fields, opt_view, parse_connection_string};
use crate::feed::{FeedError, feed_entities, parse_feed, xml_document_nodes, xml_parse_error};
use crate::num::{decimal, push_decimal};
use crate::sas::{expiry_at, sas_token_at, sas_token_lower, sas_token_spec};
use crate::text::{chars_of, find_char, find_from, push_char, str_eq, string_of, sub_chars};

verus! {

/// A queue, topic or subscription as the management API describes it.
#[derive(Clone, Debug)]
pub struct Entity {
    pub name: String,
    pub active: i64,
    pub dead_letter: i64,
    pub scheduled: i64,
    pub total: i64,
    pub size_bytes: i64,
    /// All description fields flattened to (name, value) for the overview panel.
    pub props: Vec<(String, String)>,
}

/// The mathematical value of an [`Entity`].
pub struct EntityView {
    pub name: Seq<char>,
    pub active: i64,
    pub dead_letter: i64,
    pub scheduled: i64,
    pub total: i64,
    pub size_bytes: i64,
    pub props: Seq<(Seq<char>, Seq<char>)>,
}

/// The values of a list of string pairs.
pub open spec fn pairs_view(v: Seq<(String, String)>) -> Seq<(Seq<char>, Seq<char>)> {
    v.map_values(|p: (String, String)| (p.0@, p.1@))
}

impl View for Entity {
    type V = EntityView;

    open spec fn view(&self) -> EntityView {
        EntityView {
            name: self.name@,
            active: self.active,
            dead_letter: self.dead_letter,
            scheduled: self.scheduled,
            total: self.total,
            size_bytes: self.size_bytes,
            props: pairs_view(self.props@),
        }
    }
}

/// The values of a list of entities.
pub open spec fn entities_view(v: Seq<Entity>) -> Seq<EntityView> {
    v.map_values(|e: Entity| e@)
}

/// An entity with only a name: every count zero, no properties.
pub open spec fn named_entity(name: Seq<char>) -> EntityView {
    EntityView {
        name,
        active: 0,
        dead_letter: 0,
        scheduled: 0,
        total: 0,
        size_bytes: 0,
        props: Seq::empty(),
    }
}

impl Entity {
    /// An entity that is known by name only.
    pub fn named(name: String) -> (e: Entity)
        ensures
            e@ == named_entity(name@),
            e.name@ == name@ && e.active == 0 && e.dead_letter == 0 && e.scheduled == 0 && e.total
                == 0 && e.size_bytes == 0 && e.props@.len() == 0,
    {
        let e = Entity {
            name,
            active: 0,
            dead_letter: 0,
            scheduled: 0,
            total: 0,
            size_bytes: 0,
            props: Vec::new(),
        };
        assert(pairs_view(e.props@) =~= Seq::empty());
        e
    }
}

impl Default for Entity {
    fn default() -> (e: Entity)
        ensures
            e@ == named_entity(Seq::empty()),
    {
        Entity::named(String::new())
    }
}

/// Editable fields per entity kind, in the exact element order the ATOM schema requires.
pub open spec fn editable_fields_spec(description_tag: Seq<char>) -> Seq<Seq<char>> {
    if description_tag == "QueueDescription"@ {
        seq![
            "LockDuration"@, "MaxSizeInMegabytes"@, "RequiresDuplicateDetection"@,
            "RequiresSession"@, "DefaultMessageTimeToLive"@,
            "DeadLetteringOnMessageExpiration"@, "DuplicateDetectionHistoryTimeWindow"@,
            "MaxDeliveryCount"@, "EnableBatchedOperations"@, "Status"@, "ForwardTo"@,
            "UserMetadata"@, "AutoDeleteOnIdle"@, "EnablePartitioning"@,
            "ForwardDeadLetteredMessagesTo"@, "EnableExpress"@,
        ]
    } else if description_tag == "TopicDescription"@ {
        seq![
            "DefaultMessageTimeToLive"@, "MaxSizeInMegabytes"@, "RequiresDuplicateDetection"@,
            "DuplicateDetectionHistoryTimeWindow"@, "EnableBatchedOperations"@, "Status"@,
            "SupportOrdering"@, "AutoDeleteOnIdle"@, "EnablePartitioning"@, "EnableExpress"@,
        ]
    } else {
        seq![
            "LockDuration"@, "RequiresSession"@, "DefaultMessageTimeToLive"@,
            "DeadLetteringOnMessageExpiration"@, "DeadLetteringOnFilterEvaluationExceptions"@,
            "MaxDeliveryCount"@, "EnableBatchedOperations"@, "Status"@, "ForwardTo"@,
            "AutoDeleteOnIdle"@, "ForwardDeadLetteredMessagesTo"@,
        ]
    }
}

/// The values of a list of string slices.
pub open spec fn strs_view(v: Seq<&str>) -> Seq<Seq<char>> {
    v.map_values(|s: &str| s@)
}

/// Editable fields per entity kind, in the exact element order the ATOM schema requires.
pub fn editable_fields(description_tag: &str) -> (r: Vec<&'static str>)
    ensures
        strs_view(r@) == editable_fields_spec(description_tag@),
{
    let r = if str_eq(description_tag, "QueueDescription") {
        vec![
            "LockDuration", "MaxSizeInMegabytes", "RequiresDuplicateDetection",
            "RequiresSession", "DefaultMessageTimeToLive", "DeadLetteringOnMessageExpiration",
            "DuplicateDetectionHistoryTimeWindow", "MaxDeliveryCount", "EnableBatchedOperations",
            "Status", "ForwardTo", "UserMetadata", "AutoDeleteOnIdle", "EnablePartitioning",
            "ForwardDeadLetteredMessagesTo", "EnableExpress",
        ]
    } else if str_eq(description_tag, "TopicDescription") {
        vec![
            "DefaultMessageTimeToLive", "MaxSizeInMegabytes", "RequiresDuplicateDetection",
            "DuplicateDetectionHistoryTimeWindow", "EnableBatchedOperations", "Status",
            "SupportOrdering", "AutoDeleteOnIdle", "EnablePartitioning", "EnableExpress",
        ]
    } else {
        vec![
            "LockDuration", "RequiresSession", "DefaultMessageTimeToLive",
            "DeadLetteringOnMessageExpiration", "DeadLetteringOnFilterEvaluationExceptions",
            "MaxDeliveryCount", "EnableBatchedOperations", "Status", "ForwardTo",
            "AutoDeleteOnIdle", "ForwardDeadLetteredMessagesTo",
        ]
    };
    assert(strs_view(r@) =~= editable_fields_spec(description_tag@));
    r
}

/// The XML text standing for one character of element content.
pub open spec fn escape_char(c: char) -> Seq<char> {
    if c == '&' {
        "&amp;"@
    } else if c == '<' {
        "&lt;"@
    } else if c == '>' {
        "&gt;"@
    } else {
        seq![c]
    }
}

/// `s` with `&`, `<` and `>` written as XML entities.
pub open spec fn xml_escaped(s: Seq<char>) -> Seq<char>
    decreases s.len(),
{
    if s.len() == 0 {
        Seq::empty()
    } else {
        xml_escaped(s.drop_last()) + escape_char(s.last())
    }
}

/// An escaped value cannot open or close an element: it holds no `<` and no `>`.
pub proof fn lemma_escaped_has_no_brackets(s: Seq<char>)
    ensures
        forall|i: int| 0 <= i < xml_escaped(s).len() ==> #[trigger] xml_escaped(s)[i] != '<'
            && xml_escaped(s)[i] != '>',
    decreases s.len(),
{
    reveal_strlit("&amp;");
    reveal_strlit("&lt;");
    reveal_strlit("&gt;");
    if s.len() > 0 {
        lemma_escaped_has_no_brackets(s.drop_last());
        let a = xml_escaped(s.drop_last());
        let b = escape_char(s.last());
        assert forall|i: int| 0 <= i < xml_escaped(s).len() implies #[trigger] xml_escaped(s)[i] != '<'
            && xml_escaped(s)[i] != '>' by {
            if i < a.len() {
                assert(xml_escaped(s)[i] == a[i]);
            } else {
                assert(xml_escaped(s)[i] == b[i - a.len()]);
            }
        }
    }
}

/// Escaping splits over concatenation: each part is escaped on its own.
pub proof fn lemma_escape_concat(a: Seq<char>, b: Seq<char>)
    ensures
        xml_escaped(a + b) == xml_escaped(a) + xml_escaped(b),
    decreases b.len(),
{
    if b.len() == 0 {
        assert(a + b =~= a);
        assert(xml_escaped(a) + xml_escaped(b) =~= xml_escaped(a));
    } else {
        assert((a + b).drop_last() =~= a + b.drop_last());
        assert((a + b).last() == b.last());
        lemma_escape_concat(a, b.drop_last());
        assert(xml_escaped(a) + xml_escaped(b) =~= xml_escaped(a) + xml_escaped(b.drop_last())
            + escape_char(b.last()));
    }
}

/// Text without `&`, `<` and `>` is left as it is.
pub proof fn lemma_escape_plain(s: Seq<char>)
    requires
        forall|i: int| 0 <= i < s.len() ==> #[trigger] s[i] != '&' && s[i] != '<' && s[i] != '>',
    ensures
        xml_escaped(s) == s,
    decreases s.len(),
{
    if s.len() > 0 {
        assert forall|i: int| 0 <= i < s.drop_last().len() implies #[trigger] s.drop_last()[i] != '&'
            && s.drop_last()[i] != '<' && s.drop_last()[i] != '>' by {
            assert(s.drop_last()[i] == s[i]);
        }
        lemma_escape_plain(s.drop_last());
        assert(s[s.len() - 1] == s.last());
        assert(s.drop_last().push(s.last()) =~= s);
    }
}

/// The text an escaped value stands for: `&amp;`, `&lt;` and `&gt;` read back as `&`, `<`
/// and `>`, from left to right; every other character as it is.
pub open spec fn xml_unescaped(t: Seq<char>) -> Seq<char>
    decreases t.len(),
{
    if t.len() == 0 {
        Seq::empty()
    } else if t.len() >= 5 && t.take(5) == "&amp;"@ {
        seq!['&'] + xml_unescaped(t.skip(5))
    } else if t.len() >= 4 && t.take(4) == "&lt;"@ {
        seq!['<'] + xml_unescaped(t.skip(4))
    } else if t.len() >= 4 && t.take(4) == "&gt;"@ {
        seq!['>'] + xml_unescaped(t.skip(4))
    } else {
        seq![t[0]] + xml_unescaped(t.skip(1))
    }
}

proof fn lemma_unescape_char(c: char, rest: Seq<char>)
    ensures
        xml_unescaped(escape_char(c) + rest) == seq![c] + xml_unescaped(rest),
{
    reveal_strlit("&amp;");
    reveal_strlit("&lt;");
    reveal_strlit("&gt;");
    let t = escape_char(c) + rest;
    if c == '&' {
        assert(t.take(5) =~= "&amp;"@);
        assert(t.skip(5) =~= rest);
    } else if c == '<' {
        assert(t.take(4) =~= "&lt;"@);
        assert(t.skip(4) =~= rest);
        assert(t.len() >= 5 ==> t.take(5) != "&amp;"@) by {
            if t.len() >= 5 {
                assert(t.take(5)[1] != "&amp;"@[1]);
            }
        }
    } else if c == '>' {
        assert(t.take(4) =~= "&gt;"@);
        assert(t.skip(4) =~= rest);
        assert(t.len() >= 5 ==> t.take(5) != "&amp;"@) by {
            if t.len() >= 5 {
                assert(t.take(5)[1] != "&amp;"@[1]);
            }
        }
        assert(t.take(4) != "&lt;"@) by {
            assert(t.take(4)[1] == 'g');
        }
    } else {
        assert(t[0] == c);
        assert(t.skip(1) =~= rest);
        assert(t.len() >= 5 ==> t.take(5) != "&amp;"@) by {
            if t.len() >= 5 {
                assert(t.take(5)[0] == c);
            }
        }
        assert(t.len() >= 4 ==> t.take(4) != "&lt;"@) by {
            if t.len() >= 4 {
                assert(t.take(4)[0] == c);
            }
        }
        assert(t.len() >= 4 ==> t.take(4) != "&gt;"@) by {
            if t.len() >= 4 {
                assert(t.take(4)[0] == c);
            }
        }
    }
}

/// Reading an escaped value back gives the value: escaping loses nothing.
pub proof fn lemma_unescape_escape(s: Seq<char>)
    ensures
        xml_unescaped(xml_escaped(s)) == s,
    decreases s.len(),
{
    if s.len() > 0 {
        let c = s[0];
        let rest = s.drop_first();
        assert(s =~= seq![c] + rest);
        lemma_escape_concat(seq![c], rest);
        assert(seq![c].drop_last() =~= Seq::<char>::empty());
        assert(seq![c].last() == c);
        assert(xml_escaped(Seq::<char>::empty()) == Seq::<char>::empty());
        assert(xml_escaped(seq![c]) =~= xml_escaped(seq![c].drop_last()) + escape_char(c));
        assert(xml_escaped(seq![c]) =~= escape_char(c));
        lemma_unescape_char(c, xml_escaped(rest));
        lemma_unescape_escape(rest);
    }
}

/// `str::replace(pat, rep)`: every occurrence of `pat`, found from left to right without
/// overlap, replaced by `rep`.
pub open spec fn replace_all(t: Seq<char>, pat: Seq<char>, rep: Seq<char>) -> Seq<char>
    decreases t.len(),
{
    if t.len() == 0 {
        Seq::empty()
    } else if pat.len() > 0 && t.len() >= pat.len() && t.take(pat.len() as int) == pat {
        rep + replace_all(t.skip(pat.len() as int), pat, rep)
    } else {
        seq![t[0]] + replace_all(t.skip(1), pat, rep)
    }
}

/// Reading an escaped value back with three chained replacements: `&lt;` by `<`, then
/// `&gt;` by `>`, then `&amp;` by `&`.
pub open spec fn unescape_by_replace(t: Seq<char>) -> Seq<char> {
    replace_all(replace_all(replace_all(t, "&lt;"@, "<"@), "&gt;"@, ">"@), "&amp;"@, "&"@)
}

proof fn lemma_replace_no_amp(p: Seq<char>, x: Seq<char>, pat: Seq<char>, rep: Seq<char>)
    requires
        pat.len() > 0,
        pat[0] == '&',
        forall|i: int| 0 <= i < p.len() ==> #[trigger] p[i] != '&',
    ensures
        replace_all(p + x, pat, rep) == p + replace_all(x, pat, rep),
    decreases p.len(),
{
    if p.len() == 0 {
        assert(p + x =~= x);
    } else {
        let t = p + x;
        assert(t[0] == p[0]);
        assert(t.len() >= pat.len() ==> t.take(pat.len() as int)[0] == p[0]);
        assert(t.skip(1) =~= p.skip(1) + x);
        assert forall|i: int| 0 <= i < p.skip(1).len() implies #[trigger] p.skip(1)[i] != '&' by {
            assert(p.skip(1)[i] == p[i + 1]);
        }
        lemma_replace_no_amp(p.skip(1), x, pat, rep);
        assert(p =~= seq![p[0]] + p.skip(1));
    }
}

proof fn lemma_replace_match(x: Seq<char>, pat: Seq<char>, rep: Seq<char>)
    requires
        pat.len() > 0,
    ensures
        replace_all(pat + x, pat, rep) == rep + replace_all(x, pat, rep),
{
    let t = pat + x;
    assert(t.take(pat.len() as int) =~= pat);
    assert(t.skip(pat.len() as int) =~= x);
}

proof fn lemma_replace_amp_mismatch(p: Seq<char>, x: Seq<char>, pat: Seq<char>, rep: Seq<char>)
    requires
        pat.len() >= 2,
        pat[0] == '&',
        p.len() >= 2,
        p[0] == '&',
        p[1] != pat[1],
        forall|i: int| 1 <= i < p.len() ==> #[trigger] p[i] != '&',
    ensures
        replace_all(p + x, pat, rep) == p + replace_all(x, pat, rep),
{
    let t = p + x;
    assert(t.len() >= pat.len() ==> t.take(pat.len() as int)[1] != pat[1]);
    assert(t.skip(1) =~= p.skip(1) + x);
    assert forall|i: int| 0 <= i < p.skip(1).len() implies #[trigger] p.skip(1)[i] != '&' by {
        assert(p.skip(1)[i] == p[i + 1]);
    }
    lemma_replace_no_amp(p.skip(1), x, pat, rep);
    assert(p =~= seq![p[0]] + p.skip(1));
}

/// What character `c` stands as after `k` of the three replacements.
pub open spec fn stage_piece(c: char, k: int) -> Seq<char> {
    if k == 0 {
        escape_char(c)
    } else if k == 1 {
        if c == '<' {
            seq!['<']
        } else {
            escape_char(c)
        }
    } else if k == 2 {
        if c == '<' || c == '>' {
            seq![c]
        } else {
            escape_char(c)
        }
    } else {
        seq![c]
    }
}

/// The text after `k` of the three replacements.
pub open spec fn staged(s: Seq<char>, k: int) -> Seq<char>
    decreases s.len(),
{
    if s.len() == 0 {
        Seq::empty()
    } else {
        stage_piece(s[0], k) + staged(s.skip(1), k)
    }
}

/// The pattern of replacement `k`.
pub open spec fn stage_pat(k: int) -> Seq<char> {
    if k == 0 {
        "&lt;"@
    } else if k == 1 {
        "&gt;"@
    } else {
        "&amp;"@
    }
}

/// The replacement of step `k`.
pub open spec fn stage_rep(k: int) -> Seq<char> {
    if k == 0 {
        "<"@
    } else if k == 1 {
        ">"@
    } else {
        "&"@
    }
}

proof fn lemma_stage_piece(c: char, x: Seq<char>, k: int)
    requires
        0 <= k < 3,
    ensures
        replace_all(stage_piece(c, k) + x, stage_pat(k), stage_rep(k)) == stage_piece(c, k + 1)
            + replace_all(x, stage_pat(k), stage_rep(k)),
{
    reveal_strlit("&amp;");
    reveal_strlit("&lt;");
    reveal_strlit("&gt;");
    reveal_strlit("<");
    reveal_strlit(">");
    reveal_strlit("&");
    let pat = stage_pat(k);
    let rep = stage_rep(k);
    let p = stage_piece(c, k);
    let matched = (c == '&' && k == 2) || (c == '<' && k == 0) || (c == '>' && k == 1);
    let amp_kept = (c == '&' && k < 2) || (c == '>' && k == 0);
    if matched {
        assert(p =~= pat);
        lemma_replace_match(x, pat, rep);
        assert(rep =~= stage_piece(c, k + 1));
    } else if amp_kept {
        assert(p[0] == '&' && p[1] != pat[1]);
        assert forall|i: int| 1 <= i < p.len() implies #[trigger] p[i] != '&' by {}
        lemma_replace_amp_mismatch(p, x, pat, rep);
        assert(p =~= stage_piece(c, k + 1));
    } else {
        assert(p =~= seq![c]);
        assert(p[0] != '&');
        lemma_replace_no_amp(p, x, pat, rep);
        assert(p =~= stage_piece(c, k + 1));
    }
}

proof fn lemma_stage_step(s: Seq<char>, k: int)
    requires
        0 <= k < 3,
    ensures
        replace_all(staged(s, k), stage_pat(k), stage_rep(k)) == staged(s, k + 1),
    decreases s.len(),
{
    reveal_strlit("&amp;");
    reveal_strlit("&lt;");
    reveal_strlit("&gt;");
    if s.len() == 0 {
        assert(replace_all(Seq::<char>::empty(), stage_pat(k), stage_rep(k)) == Seq::<char>::empty());
    } else {
        lemma_stage_step(s.skip(1), k);
        lemma_stage_piece(s[0], staged(s.skip(1), k), k);
    }
}

proof fn lemma_staged_ends(s: Seq<char>)
    ensures
        staged(s, 0) == xml_escaped(s),
        staged(s, 3) == s,
    decreases s.len(),
{
    if s.len() > 0 {
        lemma_staged_ends(s.skip(1));
        let c = s[0];
        assert(s =~= seq![c] + s.skip(1));
        lemma_escape_concat(seq![c], s.skip(1));
        assert(seq![c].last() == c);
        assert(xml_escaped(Seq::<char>::empty()) == Seq::<char>::empty());
        assert(xml_escaped(seq![c]) =~= xml_escaped(seq![c].drop_last()) + escape_char(c));
        assert(xml_escaped(seq![c]) =~= escape_char(c));
        assert(staged(s, 3) =~= seq![c] + s.skip(1));
    }
}

/// Reading an escaped value back with `str::replace` of `&lt;`, `&gt;` and then `&amp;`
/// gives the value: the chained replacements undo the escaping.
pub proof fn lemma_unescape_by_replace(s: Seq<char>)
    ensures
        unescape_by_replace(xml_escaped(s)) == s,
{
    lemma_staged_ends(s);
    lemma_stage_step(s, 0);
    lemma_stage_step(s, 1);
    lemma_stage_step(s, 2);
}

/// Escapes `&`, `<` and `>` for use as XML element content.
pub fn xml_escape(s: &str) -> (r: String)
    ensures
        r@ == xml_escaped(s@),
{
    let v = crate::text::chars_of(s);
    let mut r = String::new();
    let mut i: usize = 0;
    while i < v.len()
        invariant
            i <= v.len(),
            v@ == s@,
            r@ == xml_escaped(v@.take(i as int)),
        decreases v.len() - i,
    {
        let c = v[i];
        assert(v@.take(i + 1).drop_last() =~= v@.take(i as int));
        if c == '&' {
            r.append("&amp;");
        } else if c == '<' {
            r.append("&lt;");
        } else if c == '>' {
            r.append("&gt;");
        } else {
            push_char(&mut r, c);
        }
        i = i + 1;
    }
    assert(v@.take(v.len() as int) =~= v@);
    r
}


/// A client of the management API of one namespace (the HTTP transport stays outside).
#[derive(Clone, Debug)]
pub struct MgmtClient {
    /// The namespace host, e.g. `myns.servicebus.windows.net`.
    pub namespace: String,
    /// Set when the connection string is scoped to a single entity (`EntityPath=...`).
    pub entity_path: Option<String>,
    /// The name of the shared access policy.
    pub key_name: String,
    /// The shared access key that signs requests.
    pub key: String,
}

/// The HTTP methods the management API is called with.
#[derive(Clone, Copy, Debug, PartialEq, Eq, Structural)]
pub enum HttpMethod {
    Get,
    Put,
    Delete,
}

/// A request to send: where, how, signed with what, and with which body.
#[derive(Clone, Debug)]
pub struct Request {
    pub method: HttpMethod,
    pub url: String,
    /// The value of the `Authorization` header.
    pub authorization: String,
    /// Whether to send `If-Match: *` (an update of an existing entity).
    pub if_match: bool,
    /// An ATOM entry to send as `application/atom+xml`.
    pub body: Option<String>,
}

/// The API version every request names.
pub open spec fn api_version() -> Seq<char> {
    "2021-05"@
}

/// The URL of a resource of the namespace.
pub open spec fn url_spec(namespace: Seq<char>, path_and_query: Seq<char>) -> Seq<char> {
    "https://"@ + namespace + "/"@ + path_and_query
}

/// The resource a token is signed for: the URL without its query.
pub open spec fn audience_spec(url: Seq<char>) -> Seq<char> {
    match find_from(url, '?', 0) {
        Some(i) => url.take(i),
        None => url,
    }
}

/// The resource path of one entity, with the API version.
pub open spec fn entity_query_spec(path: Seq<char>) -> Seq<char> {
    path + "?api-version="@ + api_version()
}

/// The query for one page of a listing, skipping the first `skip` entities.
pub open spec fn list_query_spec(resource: Seq<char>, skip: nat) -> Seq<char> {
    resource + "?api-version="@ + api_version() + "&$top=100&$skip="@ + decimal(skip)
}

/// The resource path of an entity: `path?api-version=…`.
pub fn entity_query(path: &str) -> (r: String)
    ensures
        r@ == entity_query_spec(path@),
{
    let mut r = String::from_str(path);
    r.append("?api-version=");
    r.append("2021-05");
    r
}

/// The query for one page of a listing of `resource`.
pub fn list_query(resource: &str, skip: usize) -> (r: String)
    ensures
        r@ == list_query_spec(resource@, skip as nat),
{
    let mut r = String::from_str(resource);
    r.append("?api-version=");
    r.append("2021-05");
    r.append("&$top=100&$skip=");
    push_decimal(&mut r, skip as u64);
    r
}

impl MgmtClient {
    /// The name of the shared access policy the client signs under.
    pub open spec fn key_name_view(&self) -> Seq<char> {
        self.key_name@
    }

    /// The shared access key the client signs with.
    pub open spec fn key_view(&self) -> Seq<char> {
        self.key@
    }

    /// Whether the client was made from the connection string `cs`.
    pub open spec fn made_from(&self, cs: Seq<char>) -> bool {
        connection_fields(cs) matches Ok(f) && self.namespace@ == f.0 && self.key_name_view()
            == f.1 && self.key_view() == f.2 && opt_view(self.entity_path) == f.3
    }

    /// A client for the namespace a connection string names.
    pub fn new(conn_str: &str) -> (r: Result<MgmtClient, ConnStrError>)
        ensures
            match r {
                Ok(c) => c.made_from(conn_str@),
                Err(e) => connection_fields(conn_str@) == Err::<
                    (Seq<char>, Seq<char>, Seq<char>, Option<Seq<char>>),
                    ConnStrError,
                >(e),
            },
    {
        match parse_connection_string(conn_str) {
            Ok((namespace, key_name, key, entity_path)) => Ok(
                MgmtClient { namespace, entity_path, key_name, key },
            ),
            Err(e) => Err(e),
        }
    }

    /// The SAS token for `uri`, signed at `now` (seconds since the epoch).
    pub fn sas_token_at(&self, uri: &str, now: u64) -> (r: String)
        ensures
            r@ == sas_token_spec(self.key_view(), self.key_name_view(), uri@, expiry_at(now)),
            vstd::utf8::is_ascii_chars(uri@) ==> r@ == sas_token_lower(
                self.key_view(),
                self.key_name_view(),
                crate::text::ascii_lower(uri@),
                expiry_at(now),
            ),
    {
        sas_token_at(self.key.as_str(), self.key_name.as_str(), uri, now)
    }

    /// The request for `path_and_query`, signed at `now` (seconds since the UNIX epoch)
    /// for the URL without its query.
    pub fn request(
        &self,
        method: HttpMethod,
        path_and_query: &str,
        body: Option<String>,
        if_match: bool,
        now: u64,
    ) -> (r: Request)
        ensures
            is_request_for(r, *self, method, path_and_query@, opt_view(body), if_match, now),
            r.body == body,
    {
        let mut url = String::from_str("https://");
        url.append(self.namespace.as_str());
        url.append("/");
        url.append(path_and_query);
        let chars = chars_of(url.as_str());
        let audience = match find_char(&chars, '?') {
            Some(i) => {
                let a = sub_chars(&chars, 0, i);
                assert(a@ =~= url@.take(i as int));
                string_of(&a)
            },
            None => url.clone(),
        };
        let authorization = self.sas_token_at(audience.as_str(), now);
        Request { method, url, authorization, if_match, body }
    }

    /// The request that reads the description of the entity at `path`; the reply goes to
    /// [`entity_from_feed`].
    pub fn get_entity(&self, path: &str, now: u64) -> (r: Request)
        ensures
            is_request_for(r, *self, HttpMethod::Get, entity_query_spec(path@), None, false, now),
    {
        self.request(HttpMethod::Get, entity_query(path).as_str(), None, false, now)
    }

    /// The listing of the queues of the namespace.
    pub fn list_queues(&self) -> (p: ListPager)
        ensures
            p.resource@ == queues_resource(),
            p.entities@.len() == 0,
    {
        ListPager::new("$Resources/Queues")
    }

    /// The listing of the topics of the namespace.
    pub fn list_topics(&self) -> (p: ListPager)
        ensures
            p.resource@ == topics_resource(),
            p.entities@.len() == 0,
    {
        ListPager::new("$Resources/Topics")
    }

    /// The listing of the subscriptions of `topic`.
    pub fn list_subscriptions(&self, topic: &str) -> (p: ListPager)
        ensures
            p.resource@ == subscriptions_resource_spec(topic@),
            p.entities@.len() == 0,
    {
        ListPager::new(subscriptions_resource(topic).as_str())
    }

    /// The request that creates the entity at `path` with default settings; the
    /// description tag names its kind (`QueueDescription`, ...).
    pub fn create(&self, path: &str, description_tag: &str, now: u64) -> (r: Request)
        ensures
            is_request_for(
                r,
                *self,
                HttpMethod::Put,
                entity_query_spec(path@),
                Some(create_body_spec(description_tag@)),
                false,
                now,
            ),
    {
        let body = create_body(description_tag);
        self.request(HttpMethod::Put, entity_query(path).as_str(), Some(body), false, now)
    }

    /// The request that updates the entity at `path`: the full description with
    /// `If-Match`. `fields` must already be in schema order; empty values are skipped.
    pub fn update_entity(
        &self,
        path: &str,
        description_tag: &str,
        fields: &[(String, String)],
        now: u64,
    ) -> (r: Request)
        ensures
            is_request_for(
                r,
                *self,
                HttpMethod::Put,
                entity_query_spec(path@),
                Some(update_body_spec(description_tag@, pairs_view(fields@))),
                true,
                now,
            ),
    {
        let body = update_body(description_tag, fields);
        self.request(HttpMethod::Put, entity_query(path).as_str(), Some(body), true, now)
    }

    /// The request that deletes the entity at `path`.
    pub fn delete(&self, path: &str, now: u64) -> (r: Request)
        ensures
            is_request_for(r, *self, HttpMethod::Delete, entity_query_spec(path@), None, false, now),
    {
        self.request(HttpMethod::Delete, entity_query(path).as_str(), None, false, now)
    }
}

/// `r` is the request `method` on `path_and_query` of the namespace of `c`, with that
/// body and `If-Match`, signed with the client's key at `now` for the URL without its
/// query.
pub open spec fn is_request_for(
    r: Request,
    c: MgmtClient,
    method: HttpMethod,
    path_and_query: Seq<char>,
    body: Option<Seq<char>>,
    if_match: bool,
    now: u64,
) -> bool {
    &&& r.method == method
    &&& r.url@ == url_spec(c.namespace@, path_and_query)
    &&& r.authorization@ == sas_token_spec(
        c.key_view(),
        c.key_name_view(),
        audience_spec(r.url@),
        expiry_at(now),
    )
    &&& r.if_match == if_match
    &&& opt_view(r.body) == body
}

/// Whether an HTTP status code means success.
pub open spec fn is_success(code: u16) -> bool {
    200 <= code <= 299
}

/// What is added to the message of a refused (401) request.
pub open spec fn unauthorized_hint() -> Seq<char> {
    "\nHint: this key may be entity-scoped or lack Manage rights. To browse the namespace use a Manage-level connection string (e.g. RootManageSharedAccessKey) WITHOUT an EntityPath."@
}

/// The error message for a failed request: the status, at most 400 characters of the
/// reply, and a hint when the request was not authorized.
pub open spec fn http_error_text(status: Seq<char>, code: u16, body: Seq<char>) -> Seq<char> {
    "HTTP "@ + status + ": "@ + (if body.len() <= 400 {
        body
    } else {
        body.take(400)
    }) + (if code == 401 {
        unauthorized_hint()
    } else {
        Seq::empty()
    })
}

/// The outcome of a request from its reply: the body on success, else the error message.
/// `status` is the status line as displayed, e.g. `404 Not Found`.
pub fn check_response(code: u16, status: &str, body: String) -> (r: Result<String, String>)
    ensures
        is_success(code) ==> r == Ok::<String, String>(body),
        !is_success(code) ==> (r matches Err(m) && m@ == http_error_text(status@, code, body@)),
        (200 <= code && code <= 299) <==> r is Ok,
        r matches Err(m) ==> m@.len() >= 5 && m@.take(5) == "HTTP "@ && (code == 401 ==> (m@.len()
            >= unauthorized_hint().len() && m@.skip(m@.len() - unauthorized_hint().len())
            == unauthorized_hint())),
{
    if 200 <= code && code <= 299 {
        return Ok(body);
    }
    let chars = chars_of(body.as_str());
    let n = if chars.len() <= 400 {
        chars.len()
    } else {
        400
    };
    let head = sub_chars(&chars, 0, n);
    assert(chars.len() <= 400 ==> head@ =~= body@);
    assert(chars.len() > 400 ==> head@ =~= body@.take(400));
    let mut m = String::from_str("HTTP ");
    m.append(status);
    m.append(": ");
    let head_s = string_of(&head);
    m.append(head_s.as_str());
    let ghost before_hint = m@;
    proof {
        reveal_strlit("HTTP ");
        assert(before_hint.take(5) =~= "HTTP "@);
    }
    if code == 401 {
        m.append(
            "\nHint: this key may be entity-scoped or lack Manage rights. To browse the namespace use a Manage-level connection string (e.g. RootManageSharedAccessKey) WITHOUT an EntityPath.",
        );
        assert(m@ =~= before_hint + unauthorized_hint());
        assert(m@.skip(m@.len() - unauthorized_hint().len()) =~= unauthorized_hint());
        assert(m@.take(5) =~= before_hint.take(5));
    }
    Err(m)
}

/// Why a management call failed.
#[derive(Clone, Debug)]
pub enum MgmtError {
    /// The service refused the request; the message for it.
    Http(String),
    /// The reply was not XML; the parser's explanation.
    BadXml(String),
    /// The reply held no entity; the path that was asked for.
    NotFound(String),
}

impl MgmtError {
    /// The message shown for this error.
    pub fn message(&self) -> (s: String)
        ensures
            s@ == match self {
                MgmtError::Http(m) => m@,
                MgmtError::BadXml(d) => "bad ATOM XML: "@ + d@,
                MgmtError::NotFound(p) => "entity not found: "@ + p@,
            },
    {
        match self {
            MgmtError::Http(m) => m.clone(),
            MgmtError::BadXml(d) => {
                let mut s = String::from_str("bad ATOM XML: ");
                s.append(d.as_str());
                s
            },
            MgmtError::NotFound(p) => {
                let mut s = String::from_str("entity not found: ");
                s.append(p.as_str());
                s
            },
        }
    }
}

/// The entity a one-entry feed describes, named after `path` where the feed gives no name.
pub open spec fn entity_for_path(e: EntityView, path: Seq<char>) -> EntityView {
    if e.name.len() == 0 {
        EntityView { name: path, ..e }
    } else {
        e
    }
}

/// The entity described by the reply to a request for the entity at `path`.
pub fn entity_from_feed(xml: &str, path: &str) -> (r: Result<Entity, MgmtError>)
    ensures
        match xml_document_nodes(xml@) {
            None => r matches Err(MgmtError::BadXml(d)) && d@ == xml_parse_error(xml@),
            Some(ns) => if feed_entities(ns).len() == 0 {
                r matches Err(MgmtError::NotFound(p)) && p@ == path@
            } else {
                r matches Ok(e) && e@ == entity_for_path(feed_entities(ns)[0], path@)
            },
        },
{
    let mut v: Vec<Entity> = Vec::new();
    match parse_feed(xml, &mut v) {
        Err(FeedError::BadXml(d)) => Err(MgmtError::BadXml(d)),
        Ok(_) => {
            assert(entities_view(v@).len() == v@.len());
            if v.len() == 0 {
                return Err(MgmtError::NotFound(String::from_str(path)));
            }
            let mut ent = v.remove(0);
            if ent.name.as_str().unicode_len() == 0 {
                ent.name = String::from_str(path);
            }
            Ok(ent)
        },
    }
}


/// The opening of an ATOM entry holding a description.
pub open spec fn entry_open() -> Seq<char> {
    "<entry xmlns=\"http://www.w3.org/2005/Atom\"><content type=\"application/xml\">"@
}

/// The namespace attributes of a description element.
pub open spec fn description_attrs() -> Seq<char> {
    " xmlns:i=\"http://www.w3.org/2001/XMLSchema-instance\" xmlns=\"http://schemas.microsoft.com/netservices/2010/10/servicebus/connect\""@
}

/// The closing of an ATOM entry.
pub open spec fn entry_close() -> Seq<char> {
    "</content></entry>"@
}

/// The body that creates an entity with default settings.
pub open spec fn create_body_spec(description_tag: Seq<char>) -> Seq<char> {
    entry_open() + "<"@ + description_tag + description_attrs() + "/>"@ + entry_close()
}

/// The elements for the given fields: one `<name>value</name>` per field with a
/// non-empty value, the value escaped, in the order given.
pub open spec fn fields_xml(fields: Seq<(Seq<char>, Seq<char>)>) -> Seq<char>
    decreases fields.len(),
{
    if fields.len() == 0 {
        Seq::empty()
    } else {
        let (k, v) = fields.last();
        fields_xml(fields.drop_last()) + if v.len() == 0 {
            Seq::<char>::empty()
        } else {
            "<"@ + k + ">"@ + xml_escaped(v) + "</"@ + k + ">"@
        }
    }
}

/// An update body lists the fields in the order given: a field with an empty value adds
/// nothing, any other adds `<name>value</name>` with the value escaped.
pub proof fn lemma_fields_xml_push(fields: Seq<(Seq<char>, Seq<char>)>, k: Seq<char>, v: Seq<char>)
    ensures
        v.len() == 0 ==> fields_xml(fields.push((k, v))) == fields_xml(fields),
        v.len() > 0 ==> fields_xml(fields.push((k, v))) == fields_xml(fields) + "<"@ + k + ">"@
            + xml_escaped(v) + "</"@ + k + ">"@,
{
    assert(fields.push((k, v)).drop_last() =~= fields);
    assert(fields.push((k, v)).last() == (k, v));
    if v.len() == 0 {
        assert(fields_xml(fields) + Seq::<char>::empty() =~= fields_xml(fields));
    } else {
        assert(fields_xml(fields) + ("<"@ + k + ">"@ + xml_escaped(v) + "</"@ + k + ">"@) =~= fields_xml(fields) + "<"@ + k + ">"@
            + xml_escaped(v) + "</"@ + k + ">"@);
    }
}

/// The body that replaces the description of an entity with the given fields.
pub open spec fn update_body_spec(description_tag: Seq<char>, fields: Seq<(Seq<char>, Seq<char>)>) -> Seq<char> {
    entry_open() + "<"@ + description_tag + description_attrs() + ">"@ + fields_xml(fields) + "</"@
        + description_tag + ">"@ + entry_close()
}

fn push_entry_open(s: &mut String, description_tag: &str)
    ensures
        final(s)@ == old(s)@ + entry_open() + "<"@ + description_tag@ + description_attrs(),
{
    s.append("<entry xmlns=\"http://www.w3.org/2005/Atom\"><content type=\"application/xml\">");
    s.append("<");
    s.append(description_tag);
    s.append(
        " xmlns:i=\"http://www.w3.org/2001/XMLSchema-instance\" xmlns=\"http://schemas.microsoft.com/netservices/2010/10/servicebus/connect\"",
    );
    assert(final(s)@ =~= old(s)@ + entry_open() + "<"@ + description_tag@ + description_attrs());
}

/// The ATOM entry that creates an entity of the given kind with default settings.
pub fn create_body(description_tag: &str) -> (r: String)
    ensures
        r@ == create_body_spec(description_tag@),
{
    let mut r = String::new();
    push_entry_open(&mut r, description_tag);
    r.append("/>");
    r.append("</content></entry>");
    assert(r@ =~= create_body_spec(description_tag@));
    r
}

/// The ATOM entry that updates an entity: `fields` must already be in schema order;
/// empty values are skipped.
pub fn update_body(description_tag: &str, fields: &[(String, String)]) -> (r: String)
    ensures
        r@ == update_body_spec(description_tag@, pairs_view(fields@)),
{
    let ghost fv = pairs_view(fields@);
    let mut inner = String::new();
    let mut i: usize = 0;
    while i < fields.len()
        invariant
            i <= fields.len(),
            fv == pairs_view(fields@),
            inner@ == fields_xml(fv.take(i as int)),
        decreases fields.len() - i,
    {
        let k = &fields[i].0;
        let v = &fields[i].1;
        assert(fv.take(i + 1).drop_last() =~= fv.take(i as int));
        assert(fv.take(i + 1).last() == (k@, v@));
        if v.as_str().unicode_len() != 0 {
            let ghost before = inner@;
            inner.append("<");
            inner.append(k.as_str());
            inner.append(">");
            let e = xml_escape(v.as_str());
            inner.append(e.as_str());
            inner.append("</");
            inner.append(k.as_str());
            inner.append(">");
            assert(inner@ =~= before + ("<"@ + k@ + ">"@ + xml_escaped(v@) + "</"@ + k@ + ">"@));
        } else {
            assert(fields_xml(fv.take(i + 1)) =~= fields_xml(fv.take(i as int)));
        }
        i = i + 1;
    }
    assert(fv.take(fields.len() as int) =~= fv);
    let mut r = String::new();
    push_entry_open(&mut r, description_tag);
    r.append(">");
    r.append(inner.as_str());
    r.append("</");
    r.append(description_tag);
    r.append(">");
    r.append("</content></entry>");
    assert(r@ =~= update_body_spec(description_tag@, fv));
    r
}

/// The resource that lists the queues of a namespace.
pub open spec fn queues_resource() -> Seq<char> {
    "$Resources/Queues"@
}

/// The resource that lists the topics of a namespace.
pub open spec fn topics_resource() -> Seq<char> {
    "$Resources/Topics"@
}

/// The resource that lists the subscriptions of a topic.
pub open spec fn subscriptions_resource_spec(topic: Seq<char>) -> Seq<char> {
    topic + "/Subscriptions"@
}

/// The resource that lists the subscriptions of `topic`.
pub fn subscriptions_resource(topic: &str) -> (r: String)
    ensures
        r@ == subscriptions_resource_spec(topic@),
{
    let mut r = String::from_str(topic);
    r.append("/Subscriptions");
    r
}

/// Entities per page of a listing.
pub open spec fn page_size() -> nat {
    100
}

/// How many entities a listing gathers at most before it stops asking.
pub open spec fn listing_cap() -> nat {
    2000
}

/// A listing in progress: the pages of `resource` are fetched one after the other until
/// a short page, or until `listing_cap` entities are held.
pub struct ListPager {
    pub resource: String,
    pub entities: Vec<Entity>,
}

impl ListPager {
    /// A listing of `resource` that holds nothing yet.
    pub fn new(resource: &str) -> (p: ListPager)
        ensures
            p.resource@ == resource@,
            p.entities@.len() == 0,
    {
        ListPager { resource: String::from_str(resource), entities: Vec::new() }
    }

    /// The query for the next page: it skips the entities held.
    pub fn next_query(&self) -> (r: String)
        ensures
            r@ == list_query_spec(self.resource@, self.entities@.len()),
    {
        list_query(self.resource.as_str(), self.entities.len())
    }

    /// The signed request for the next page.
    pub fn next_request(&self, client: &MgmtClient, now: u64) -> (r: Request)
        ensures
            is_request_for(
                r,
                *client,
                HttpMethod::Get,
                list_query_spec(self.resource@, self.entities@.len()),
                None,
                false,
                now,
            ),
    {
        client.request(HttpMethod::Get, self.next_query().as_str(), None, false, now)
    }

    /// Takes in the reply for the next page; `Ok(true)` when the listing is complete.
    pub fn on_page(&mut self, xml: &str) -> (r: Result<bool, FeedError>)
        ensures
            final(self).resource == old(self).resource,
            match r {
                Ok(done) => xml_document_nodes(xml@) matches Some(ns) && entities_view(
                    final(self).entities@,
                ) == entities_view(old(self).entities@) + feed_entities(ns) && done == listing_done(
                feed_entities(ns).len(),
                final(self).entities@.len(),
            ),
                Err(FeedError::BadXml(d)) => xml_document_nodes(xml@) is None && d@ == xml_parse_error(
                    xml@,
                ) && final(self).entities@ == old(self).entities@,
            },
            // a page that does not end the listing adds a full page and leaves it under the cap
            r == Ok::<bool, FeedError>(false) ==> final(self).entities@.len() >= old(
                self,
            ).entities@.len() + page_size() && final(self).entities@.len() < listing_cap(),
    {
        let n = parse_feed(xml, &mut self.entities)?;
        assert(entities_view(self.entities@).len() == self.entities@.len());
        assert(entities_view(old(self).entities@).len() == old(self).entities@.len());
        Ok(n < 100 || self.entities.len() >= 2000)
    }
}

/// A listing ends: every page that does not end it adds a full page and leaves the count
/// under the cap, so after `pages` such pages `pages` is under `listing_cap / page_size`.
pub proof fn lemma_listing_pages_bounded(pages: nat, held: nat)
    requires
        held >= pages * page_size(),
        held < listing_cap(),
    ensures
        pages < listing_cap() / page_size(),
{
}

/// Whether a listing stops once it has taken in a page of `page` entities and holds
/// `held`: the page is short, or the cap is reached.
pub open spec fn listing_done(page: nat, held: nat) -> bool {
    page < page_size() || held >= listing_cap()
}

/// The sum of the page sizes.
pub open spec fn pages_total(pages: Seq<nat>) -> nat
    decreases pages.len(),
{
    if pages.len() == 0 {
        0
    } else {
        pages_total(pages.drop_last()) + pages.last()
    }
}

proof fn lemma_full_pages(pages: Seq<nat>, k: int)
    requires
        0 <= k < pages.len(),
        forall|i: int| 0 <= i < pages.len() ==> #[trigger] pages[i] <= page_size(),
        forall|i: int|
            0 <= i < pages.len() - 1 ==> !listing_done(#[trigger] pages[i], pages_total(pages.take(i + 1))),
    ensures
        pages_total(pages.take(k)) == k * page_size(),
        k > 0 ==> pages_total(pages.take(k)) < listing_cap(),
    decreases k,
{
    if k > 0 {
        lemma_full_pages(pages, k - 1);
        assert(pages.take(k).drop_last() =~= pages.take(k - 1));
        assert(pages.take(k).last() == pages[k - 1]);
        assert(!listing_done(pages[k - 1], pages_total(pages.take(k))));
    } else {
        assert(pages.take(0) =~= Seq::<nat>::empty());
    }
}

/// A listing whose pages hold at most `page_size` entities each ends holding at most
/// `listing_cap`: every page before the last is full and leaves the count under the cap.
pub proof fn lemma_listing_total(pages: Seq<nat>)
    requires
        pages.len() > 0,
        forall|i: int| 0 <= i < pages.len() ==> #[trigger] pages[i] <= page_size(),
        forall|i: int|
            0 <= i < pages.len() - 1 ==> !listing_done(#[trigger] pages[i], pages_total(pages.take(i + 1))),
    ensures
        pages_total(pages) <= listing_cap(),
{
    let n = pages.len() - 1;
    lemma_full_pages(pages, n);
    assert(pages.drop_last() =~= pages.take(n));
    assert(pages.last() == pages[n]);
    let k = n as nat;
    assert(k * 100 <= 1900) by (nonlinear_arith)
        requires
            k == 0 || k * 100 < 2000,
    ;
}

} // verus!
