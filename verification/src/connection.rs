//! Service Bus connection strings: `Endpoint=sb://…;SharedAccessKeyName=…;SharedAccessKey=…`.

use vstd::prelude::*;
use crate::text::{
    chars_eq_str, chars_of, find_char, find_from, split, split_chars, string_of, strip_prefixes,
    strip_prefixes_chars, strip_suffix_char, strip_suffix_char_chars, sub_chars, trim, trim_chars, views,
};

verus! {

/// Why a connection string was refused.
#[derive(Clone, Copy, Debug, PartialEq, Eq, Structural)]
pub enum ConnStrError {
    MissingEndpoint,
    MissingKeyName,
    MissingKey,
}

impl ConnStrError {
    /// The message shown for this error.
    pub fn message(&self) -> (s: String)
        ensures
            s@ == self.message_spec(),
    {
        match self {
            ConnStrError::MissingEndpoint => String::from_str("connection string missing Endpoint"),
            ConnStrError::MissingKeyName => String::from_str("missing SharedAccessKeyName"),
            ConnStrError::MissingKey => String::from_str("missing SharedAccessKey"),
        }
    }

    /// The message shown for this error.
    pub open spec fn message_spec(&self) -> Seq<char> {
        match self {
            ConnStrError::MissingEndpoint => "connection string missing Endpoint"@,
            ConnStrError::MissingKeyName => "missing SharedAccessKeyName"@,
            ConnStrError::MissingKey => "missing SharedAccessKey"@,
        }
    }
}

/// The `(key, value)` a `;`-separated part stands for: both sides trimmed, split at the
/// first `=`; `None` for a part without `=`.
pub open spec fn part_entry(part: Seq<char>) -> Option<(Seq<char>, Seq<char>)> {
    let p = trim(part);
    match find_from(p, '=', 0) {
        Some(i) => Some((trim(p.take(i)), trim(p.skip(i + 1)))),
        None => None,
    }
}

/// The value of the last part whose key is `key`.
pub open spec fn last_value(parts: Seq<Seq<char>>, key: Seq<char>) -> Option<Seq<char>>
    decreases parts.len(),
{
    if parts.len() == 0 {
        None
    } else {
        match part_entry(parts.last()) {
            Some(kv) if kv.0 == key => Some(kv.1),
            _ => last_value(parts.drop_last(), key),
        }
    }
}

/// The value of a part (empty for a part without `=`).
pub open spec fn part_value(part: Seq<char>) -> Seq<char> {
    match part_entry(part) {
        Some(kv) => kv.1,
        None => Seq::empty(),
    }
}

/// Part `i` has key `key`.
pub open spec fn has_key(parts: Seq<Seq<char>>, key: Seq<char>, i: int) -> bool {
    part_entry(parts[i]) matches Some(kv) && kv.0 == key
}

/// `key` occurs in at most one part: with value `v` when `v` is `Some`, in none when it
/// is `None`.
pub open spec fn keyed_once(parts: Seq<Seq<char>>, key: Seq<char>, v: Option<Seq<char>>) -> bool {
    match v {
        None => forall|i: int| 0 <= i < parts.len() ==> !#[trigger] has_key(parts, key, i),
        Some(x) => exists|i: int|
            0 <= i < parts.len() && #[trigger] has_key(parts, key, i) && part_value(parts[i])
                == x && forall|j: int| 0 <= j < parts.len() && j != i ==> !#[trigger] has_key(parts, key, j),
    }
}

/// Where a key occurs at most once, its value is that part's value, wherever it stands.
pub proof fn lemma_last_value_once(parts: Seq<Seq<char>>, key: Seq<char>, v: Option<Seq<char>>)
    requires
        keyed_once(parts, key, v),
    ensures
        last_value(parts, key) == v,
    decreases parts.len(),
{
    if parts.len() > 0 {
        let n = parts.len() - 1;
        let rest = parts.drop_last();
        assert(parts.last() == parts[n]);
        if has_key(parts, key, n) {
            match v {
                None => {},
                Some(x) => {
                    let i = choose|i: int|
                        0 <= i < parts.len() && #[trigger] has_key(parts, key, i) && part_value(parts[i])
                            == x && forall|j: int| 0 <= j < parts.len() && j != i ==> !#[trigger] has_key(parts, key, j);
                    assert(i == n);
                },
            }
        } else {
            assert(forall|j: int| 0 <= j < rest.len() ==> rest[j] == parts[j]);
            match v {
                None => {
                    assert forall|j: int| 0 <= j < rest.len() implies !#[trigger] has_key(rest, key, j) by {
                        assert(has_key(parts, key, j) == has_key(rest, key, j));
                    }
                },
                Some(x) => {
                    let i = choose|i: int|
                        0 <= i < parts.len() && #[trigger] has_key(parts, key, i) && part_value(parts[i])
                            == x && forall|j: int| 0 <= j < parts.len() && j != i ==> !#[trigger] has_key(parts, key, j);
                    assert(i != n);
                    assert(has_key(rest, key, i));
                    assert forall|j: int| 0 <= j < rest.len() && j != i implies !#[trigger] has_key(rest, key, j) by {
                        assert(has_key(parts, key, j) == has_key(rest, key, j));
                    }
                },
            }
            lemma_last_value_once(rest, key, v);
        }
    }
}

/// A connection string is read by the values of its keys alone: where each of
/// `Endpoint`, `SharedAccessKeyName`, `SharedAccessKey` and `EntityPath` occurs at most
/// once in either string, with the same value in both (or in neither), the strings yield
/// the same fields, however their parts are ordered and whatever other parts they hold.
pub proof fn lemma_connection_fields_order_free(
    cs1: Seq<char>,
    cs2: Seq<char>,
    endpoint: Option<Seq<char>>,
    key_name: Option<Seq<char>>,
    key: Option<Seq<char>>,
    entity_path: Option<Seq<char>>,
)
    requires
        keyed_once(split(cs1, ';'), "Endpoint"@, endpoint),
        keyed_once(split(cs2, ';'), "Endpoint"@, endpoint),
        keyed_once(split(cs1, ';'), "SharedAccessKeyName"@, key_name),
        keyed_once(split(cs2, ';'), "SharedAccessKeyName"@, key_name),
        keyed_once(split(cs1, ';'), "SharedAccessKey"@, key),
        keyed_once(split(cs2, ';'), "SharedAccessKey"@, key),
        keyed_once(split(cs1, ';'), "EntityPath"@, entity_path),
        keyed_once(split(cs2, ';'), "EntityPath"@, entity_path),
    ensures
        connection_fields(cs1) == connection_fields(cs2),
{
    lemma_last_value_once(split(cs1, ';'), "Endpoint"@, endpoint);
    lemma_last_value_once(split(cs2, ';'), "Endpoint"@, endpoint);
    lemma_last_value_once(split(cs1, ';'), "SharedAccessKeyName"@, key_name);
    lemma_last_value_once(split(cs2, ';'), "SharedAccessKeyName"@, key_name);
    lemma_last_value_once(split(cs1, ';'), "SharedAccessKey"@, key);
    lemma_last_value_once(split(cs2, ';'), "SharedAccessKey"@, key);
    lemma_last_value_once(split(cs1, ';'), "EntityPath"@, entity_path);
    lemma_last_value_once(split(cs2, ';'), "EntityPath"@, entity_path);
}

/// A connection string naming each key once yields the namespace of its endpoint, its
/// key name, its key and its entity path, each from the part with that key.
pub proof fn lemma_connection_fields_of_keys(
    cs: Seq<char>,
    endpoint: Seq<char>,
    key_name: Seq<char>,
    key: Seq<char>,
    entity_path: Option<Seq<char>>,
)
    requires
        keyed_once(split(cs, ';'), "Endpoint"@, Some(endpoint)),
        keyed_once(split(cs, ';'), "SharedAccessKeyName"@, Some(key_name)),
        keyed_once(split(cs, ';'), "SharedAccessKey"@, Some(key)),
        keyed_once(split(cs, ';'), "EntityPath"@, entity_path),
    ensures
        connection_fields(cs) == Ok::<(Seq<char>, Seq<char>, Seq<char>, Option<Seq<char>>), ConnStrError>(
            (namespace_of(endpoint), key_name, key, entity_path),
        ),
{
    lemma_last_value_once(split(cs, ';'), "Endpoint"@, Some(endpoint));
    lemma_last_value_once(split(cs, ';'), "SharedAccessKeyName"@, Some(key_name));
    lemma_last_value_once(split(cs, ';'), "SharedAccessKey"@, Some(key));
    lemma_last_value_once(split(cs, ';'), "EntityPath"@, entity_path);
}

/// A connection string without an endpoint is refused for it; one with an endpoint but
/// no key name for that; one with both but no key for that.
pub proof fn lemma_connection_fields_missing(cs: Seq<char>)
    ensures
        (forall|i: int| 0 <= i < split(cs, ';').len() ==> !#[trigger] has_key(split(cs, ';'), "Endpoint"@, i))
            ==> connection_fields(cs) == Err::<(Seq<char>, Seq<char>, Seq<char>, Option<Seq<char>>), ConnStrError>(
            ConnStrError::MissingEndpoint,
        ),
{
    if forall|i: int| 0 <= i < split(cs, ';').len() ==> !#[trigger] has_key(split(cs, ';'), "Endpoint"@, i) {
        lemma_last_value_once(split(cs, ';'), "Endpoint"@, None);
    }
}

/// The namespace host named by an endpoint: leading `sb://` and trailing `/` removed.
pub open spec fn namespace_of(endpoint: Seq<char>) -> Seq<char> {
    strip_suffix_char(strip_prefixes(endpoint, "sb://"@), '/')
}

/// What a connection string yields: `(namespace, key name, key, entity path)`, or the
/// first missing field among `Endpoint`, `SharedAccessKeyName`, `SharedAccessKey`.
pub open spec fn connection_fields(cs: Seq<char>) -> Result<
    (Seq<char>, Seq<char>, Seq<char>, Option<Seq<char>>),
    ConnStrError,
> {
    let parts = split(cs, ';');
    match last_value(parts, "Endpoint"@) {
        None => Err(ConnStrError::MissingEndpoint),
        Some(endpoint) => match last_value(parts, "SharedAccessKeyName"@) {
            None => Err(ConnStrError::MissingKeyName),
            Some(key_name) => match last_value(parts, "SharedAccessKey"@) {
                None => Err(ConnStrError::MissingKey),
                Some(key) => Ok(
                    (namespace_of(endpoint), key_name, key, last_value(parts, "EntityPath"@)),
                ),
            },
        },
    }
}

/// The value of an optional string.
pub open spec fn opt_view(o: Option<String>) -> Option<Seq<char>> {
    match o {
        Some(s) => Some(s@),
        None => None,
    }
}

/// The spec value of what `parse_connection_string` returns.
pub open spec fn fields_view(
    r: Result<(String, String, String, Option<String>), ConnStrError>,
) -> Result<(Seq<char>, Seq<char>, Seq<char>, Option<Seq<char>>), ConnStrError> {
    match r {
        Ok(t) => Ok((t.0@, t.1@, t.2@, opt_view(t.3))),
        Err(e) => Err(e),
    }
}

fn opt_string(o: &Option<Vec<char>>) -> (r: Option<String>)
    ensures
        opt_view(r) == (match o {
            Some(v) => Some(v@),
            None => None::<Seq<char>>,
        }),
{
    match o {
        Some(v) => Some(string_of(v)),
        None => None,
    }
}

/// The entry of one part, computed.
fn entry_of(part: &Vec<char>) -> (r: Option<(Vec<char>, Vec<char>)>)
    ensures
        match r {
            Some(kv) => part_entry(part@) == Some((kv.0@, kv.1@)),
            None => part_entry(part@) is None,
        },
{
    let p = trim_chars(part);
    match find_char(&p, '=') {
        Some(i) => {
            let k = sub_chars(&p, 0, i);
            let v = sub_chars(&p, i + 1, p.len());
            assert(k@ =~= p@.take(i as int));
            assert(v@ =~= p@.skip(i + 1));
            Some((trim_chars(&k), trim_chars(&v)))
        },
        None => None,
    }
}

/// Parses a connection string into `(namespace, key name, key, entity path)`.
pub fn parse_connection_string(cs: &str) -> (r: Result<
    (String, String, String, Option<String>),
    ConnStrError,
>)
    ensures
        fields_view(r) == connection_fields(cs@),
{
    let chars = chars_of(cs);
    let parts = split_chars(&chars, ';');
    let ghost ps = split(cs@, ';');
    let mut endpoint: Option<Vec<char>> = None;
    let mut key_name: Option<Vec<char>> = None;
    let mut key: Option<Vec<char>> = None;
    let mut entity_path: Option<Vec<char>> = None;
    let mut i: usize = 0;
    while i < parts.len()
        invariant
            i <= parts.len(),
            views(parts@) == ps,
            ps.len() == parts.len(),
            opt_seq(endpoint) == last_value(ps.take(i as int), "Endpoint"@),
            opt_seq(key_name) == last_value(ps.take(i as int), "SharedAccessKeyName"@),
            opt_seq(key) == last_value(ps.take(i as int), "SharedAccessKey"@),
            opt_seq(entity_path) == last_value(ps.take(i as int), "EntityPath"@),
        decreases parts.len() - i,
    {
        proof {
            reveal_strlit("Endpoint");
            reveal_strlit("SharedAccessKeyName");
            reveal_strlit("SharedAccessKey");
            reveal_strlit("EntityPath");
            assert("Endpoint"@.len() == 8);
            assert("SharedAccessKeyName"@.len() == 19);
            assert("SharedAccessKey"@.len() == 15);
            assert("EntityPath"@.len() == 10);
        }
        assert(ps.take(i + 1).drop_last() =~= ps.take(i as int));
        assert(ps.take(i + 1).last() == parts@[i as int]@);
        match entry_of(&parts[i]) {
            Some((k, v)) => {
                if chars_eq_str(&k, "Endpoint") {
                    endpoint = Some(v);
                } else if chars_eq_str(&k, "SharedAccessKeyName") {
                    key_name = Some(v);
                } else if chars_eq_str(&k, "SharedAccessKey") {
                    key = Some(v);
                } else if chars_eq_str(&k, "EntityPath") {
                    entity_path = Some(v);
                }
            },
            None => {},
        }
        i = i + 1;
    }
    assert(ps.take(parts.len() as int) =~= ps);
    let endpoint = match endpoint {
        Some(e) => e,
        None => {
            return Err(ConnStrError::MissingEndpoint);
        },
    };
    let prefix = chars_of("sb://");
    proof {
        reveal_strlit("sb://");
    }
    let stripped = strip_prefixes_chars(&endpoint, &prefix);
    let ns = strip_suffix_char_chars(&stripped, '/');
    let key_name = match key_name {
        Some(k) => k,
        None => {
            return Err(ConnStrError::MissingKeyName);
        },
    };
    let key = match key {
        Some(k) => k,
        None => {
            return Err(ConnStrError::MissingKey);
        },
    };
    Ok((string_of(&ns), string_of(&key_name), string_of(&key), opt_string(&entity_path)))
}

/// The value of an optional character vector.
pub open spec fn opt_seq(o: Option<Vec<char>>) -> Option<Seq<char>> {
    match o {
        Some(v) => Some(v@),
        None => None,
    }
}

} // verus!
