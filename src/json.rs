//! A plain tree model of JSON documents, and its construction from text.
use vstd::prelude::*;

verus! {

/// A JSON value. A number is held as serde_json renders it (`1e2` as
/// `100.0`); an object keeps its entries in the order the parser produced
/// them, each key once.
#[derive(Debug)]
pub enum Json {
    Null,
    Bool(bool),
    Number(String),
    Str(String),
    Array(Vec<Json>),
    Object(Vec<(String, Json)>),
}

#[verifier::external_type_specification]
#[verifier::external_body]
pub struct ExValue(serde_json::Value);

#[verifier::external_type_specification]
#[verifier::external_body]
pub struct ExJsonError(serde_json::Error);

/// The document that serde_json reads from a text, as a `Json` tree; `None`
/// where the text is not a JSON document.
pub uninterp spec fn parsed_json(text: Seq<char>) -> Option<Json>;

/// Relies on the variants of `serde_json::Value`, on `Number`'s `Display`
/// and on `Map::into_iter`: the same tree, variant for variant.
#[verifier::external_body]
fn json_of_value(v: serde_json::Value) -> (r: Json) {
    match v {
        serde_json::Value::Null => Json::Null,
        serde_json::Value::Bool(b) => Json::Bool(b),
        serde_json::Value::Number(n) => Json::Number(n.to_string()),
        serde_json::Value::String(s) => Json::Str(s),
        serde_json::Value::Array(a) => Json::Array(a.into_iter().map(json_of_value).collect()),
        serde_json::Value::Object(m) => Json::Object(m.into_iter().map(|(k, v)| (k, json_of_value(v))).collect()),
    }
}

/// Relies on `serde_json::from_str`: the document a text holds depends on
/// the text alone; a text that is not one gives the parser's error.
#[verifier::external_body]
fn parse_value(text: &str) -> (r: Result<Json, serde_json::Error>)
    ensures
        r is Ok <==> parsed_json(text@) is Some,
        r matches Ok(j) ==> parsed_json(text@) == Some(j),
{
    serde_json::from_str::<serde_json::Value>(text).map(json_of_value)
}

/// Why a text is not a JSON document.
#[derive(Debug)]
pub enum SyntaxError {
    /// The parser's error.
    Invalid(serde_json::Error),
}

/// Parses JSON text into a `Json` tree.
pub fn parse_json(text: &str) -> (r: Result<Json, SyntaxError>)
    ensures
        parsed_json(text@) matches Some(j) ==> r == Ok::<Json, SyntaxError>(j),
        parsed_json(text@) is None ==> r matches Err(SyntaxError::Invalid(_)),
{
    match parse_value(text) {
        Err(e) => Err(SyntaxError::Invalid(e)),
        Ok(j) => Ok(j),
    }
}

/// The text of a string value.
pub open spec fn text_of(j: Json) -> Option<Seq<char>> {
    match j {
        Json::Str(s) => Some(s@),
        _ => None,
    }
}

/// The value of the first entry whose key is `key`.
pub open spec fn lookup(entries: Seq<(String, Json)>, key: Seq<char>) -> Option<Json>
    decreases entries.len(),
{
    if entries.len() == 0 {
        None
    } else if entries[0].0@ == key {
        Some(entries[0].1)
    } else {
        lookup(entries.drop_first(), key)
    }
}

/// Removing an entry whose key differs from `key` leaves the lookup of `key`
/// unchanged.
pub proof fn lemma_lookup_remove_other(entries: Seq<(String, Json)>, i: int, key: Seq<char>)
    requires
        0 <= i < entries.len(),
        entries[i].0@ != key,
    ensures
        lookup(entries.remove(i), key) == lookup(entries, key),
    decreases entries.len(),
{
    if i > 0 {
        assert(entries.remove(i).drop_first() =~= entries.drop_first().remove(i - 1));
        lemma_lookup_remove_other(entries.drop_first(), i - 1, key);
    } else {
        assert(entries.remove(0) =~= entries.drop_first());
    }
}

/// Compares a string with a literal.
pub fn str_eq(a: &str, b: &str) -> (r: bool)
    ensures
        r == (a@ == b@),
{
    let n: usize = a.unicode_len();
    if n != b.unicode_len() {
        return false;
    }
    let mut i: usize = 0;
    while i < n
        invariant
            n == a@.len(),
            n == b@.len(),
            i <= n,
            a@.subrange(0, i as int) == b@.subrange(0, i as int),
        decreases n - i,
    {
        if a.get_char(i) != b.get_char(i) {
            return false;
        }
        assert(a@.subrange(0, i + 1) =~= a@.subrange(0, i as int).push(a@[i as int]));
        assert(b@.subrange(0, i + 1) =~= b@.subrange(0, i as int).push(b@[i as int]));
        i = i + 1;
    }
    assert(a@ =~= a@.subrange(0, n as int));
    assert(b@ =~= b@.subrange(0, n as int));
    true
}

/// Moves out the value of the first entry whose key is `key`; the other
/// entries stay, in order.
pub fn take_entry(entries: &mut Vec<(String, Json)>, key: &str) -> (r: Option<Json>)
    ensures
        r == lookup(old(entries)@, key@),
        forall|k: Seq<char>| k != key@ ==> lookup(final(entries)@, k) == lookup(old(entries)@, k),
{
    let mut i: usize = 0;
    assert(entries@.subrange(0, entries@.len() as int) =~= entries@);
    while i < entries.len()
        invariant
            i <= entries@.len(),
            entries@ == old(entries)@,
            lookup(entries@, key@) == lookup(entries@.subrange(i as int, entries@.len() as int), key@),
        decreases entries.len() - i,
    {
        if str_eq(entries[i].0.as_str(), key) {
            let ghost before = entries@;
            let (_, v) = entries.remove(i);
            proof {
                assert forall|k: Seq<char>| k != key@ implies lookup(entries@, k) == lookup(before, k) by {
                    lemma_lookup_remove_other(before, i as int, k);
                }
            }
            return Some(v);
        }
        assert(entries@.subrange(i as int, entries@.len() as int).drop_first()
            =~= entries@.subrange(i + 1, entries@.len() as int));
        i = i + 1;
    }
    None
}

/// Appending an entry changes the lookup only of its key, and only where
/// that key was absent.
pub proof fn lemma_lookup_push(entries: Seq<(String, Json)>, e: (String, Json), k: Seq<char>)
    ensures
        lookup(entries.push(e), k) == (match lookup(entries, k) {
            Some(v) => Some(v),
            None => if e.0@ == k { Some(e.1) } else { None },
        }),
    decreases entries.len(),
{
    let p = entries.push(e);
    if entries.len() > 0 {
        assert(p.drop_first() =~= entries.drop_first().push(e));
        assert(p[0] == entries[0]);
        lemma_lookup_push(entries.drop_first(), e, k);
    } else {
        assert(p.drop_first() =~= entries);
        assert(p[0] == e);
        assert(lookup(entries, k) == None::<Json>);
        assert(lookup(p.drop_first(), k) == None::<Json>);
    }
}

} // verus!
