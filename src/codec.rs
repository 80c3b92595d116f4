use vstd::prelude::*;

use crate::snippet::{lines_view, Snippet, SnippetView, SnipError, SnipErrorView};
use crate::store::{keys_distinct, lemma_map_of_at, map_of, Collection, SnippetStore};

verus! {

/// `serde_json::Value`, carried through without looking inside.
#[verifier::external_type_specification]
#[verifier::external_body]
pub struct ExJsonValue(serde_json::Value);

/// The value that `serde_json` parses from a text, if the text is JSON.
pub uninterp spec fn json_parsed(text: Seq<char>) -> Option<serde_json::Value>;

/// The indented text that `serde_json` writes for a value.
pub uninterp spec fn json_pretty(v: serde_json::Value) -> Seq<char>;

/// The text of a JSON string value.
pub uninterp spec fn json_string(v: serde_json::Value) -> Option<Seq<char>>;

/// The elements of a JSON array value.
pub uninterp spec fn json_items(v: serde_json::Value) -> Option<Seq<serde_json::Value>>;

/// The members of a JSON object value, by name.
pub uninterp spec fn json_fields(v: serde_json::Value) -> Option<Map<Seq<char>, serde_json::Value>>;

pub open spec fn members_view(s: Seq<(String, serde_json::Value)>) -> Seq<(Seq<char>, serde_json::Value)> {
    s.map_values(|e: (String, serde_json::Value)| (e.0@, e.1))
}

/// Relies on `serde_json::from_str::<Value>`: a function of the text, which
/// fails where the text is not JSON.
#[verifier::external_body]
pub(crate) fn parse_json(text: &str) -> (r: Option<serde_json::Value>)
    ensures
        r == json_parsed(text@),
{
    serde_json::from_str::<serde_json::Value>(text).ok()
}

/// Relies on the alternate form of `Display for serde_json::Value`, the
/// indented rendering of `serde_json::to_string_pretty`.
#[verifier::external_body]
pub(crate) fn render_pretty(v: &serde_json::Value) -> (r: String)
    ensures
        r@ == json_pretty(*v),
{
    format!("{:#}", v)
}

/// Relies on `serde_json::Value::as_str`, cloned.
#[verifier::external_body]
pub(crate) fn string_of(v: &serde_json::Value) -> (r: Option<String>)
    ensures
        match json_string(*v) {
            Some(t) => r is Some && r->0@ == t,
            None => r is None,
        },
{
    v.as_str().map(|t| t.to_string())
}

/// Relies on `serde_json::Value::as_array`, cloned.
#[verifier::external_body]
fn items_of(v: &serde_json::Value) -> (r: Option<Vec<serde_json::Value>>)
    ensures
        match json_items(*v) {
            Some(t) => r is Some && r->0@ == t,
            None => r is None,
        },
{
    v.as_array().cloned()
}

/// Relies on `serde_json::Value::as_object` and the iteration of its map,
/// which yields each member once.
#[verifier::external_body]
pub(crate) fn members_of(v: &serde_json::Value) -> (r: Option<Vec<(String, serde_json::Value)>>)
    ensures
        match json_fields(*v) {
            Some(f) => r is Some && keys_distinct(members_view(r->0@)) && map_of(
                members_view(r->0@),
            ) == f,
            None => r is None,
        },
{
    v.as_object().map(|m| m.iter().map(|(k, x)| (k.clone(), x.clone())).collect())
}

/// Relies on `serde_json::Value::String`.
#[verifier::external_body]
pub(crate) fn string_value(t: String) -> (r: serde_json::Value)
    ensures
        json_string(r) == Some(t@),
{
    serde_json::Value::String(t)
}

/// Relies on `serde_json::Value::Array`.
#[verifier::external_body]
fn array_value(items: Vec<serde_json::Value>) -> (r: serde_json::Value)
    ensures
        json_items(r) == Some(items@),
{
    serde_json::Value::Array(items)
}

/// Relies on `serde_json::Value::Object`, built from members whose names
/// are distinct.
#[verifier::external_body]
pub(crate) fn object_value(members: Vec<(String, serde_json::Value)>) -> (r: serde_json::Value)
    ensures
        keys_distinct(members_view(members@)) ==> json_fields(r) == Some(
            map_of(members_view(members@)),
        ),
{
    serde_json::Value::Object(members.into_iter().collect())
}

/// The names of a snippet's three members.
pub open spec fn snippet_member_names() -> Set<Seq<char>> {
    set!["prefix"@, "body"@, "description"@]
}

/// The texts of an array whose elements are all strings.
pub open spec fn strings_of(items: Seq<serde_json::Value>) -> Option<Seq<Seq<char>>> {
    if forall|i: int| 0 <= i < items.len() ==> (#[trigger] json_string(items[i])) is Some {
        Some(items.map_values(|x: serde_json::Value| json_string(x)->0))
    } else {
        None
    }
}

/// The snippet that a JSON value holds: an object with exactly the members
/// `prefix` and `description`, strings, and `body`, an array of strings.
pub open spec fn snippet_of_json(v: serde_json::Value) -> Option<SnippetView> {
    match json_fields(v) {
        Some(f) => if f.dom() == snippet_member_names() {
            match (json_string(f["prefix"@]), json_string(f["description"@]), json_items(f["body"@])) {
                (Some(p), Some(d), Some(items)) => match strings_of(items) {
                    Some(b) => Some(SnippetView { prefix: p, body: b, description: d }),
                    None => None,
                },
                _ => None,
            }
        } else {
            None
        },
        None => None,
    }
}

/// The collection that a JSON value holds: an object whose every member is
/// a snippet, under its key.
pub open spec fn collection_of_json(v: serde_json::Value) -> Option<Collection> {
    match json_fields(v) {
        Some(f) => if forall|k: Seq<char>| #[trigger] f.contains_key(k) ==> snippet_of_json(f[k]) is Some {
            Some(f.map_values(|x: serde_json::Value| snippet_of_json(x)->0))
        } else {
            None
        },
        None => None,
    }
}

/// The lines held by an array of strings.
fn decode_lines(v: &serde_json::Value) -> (r: Option<Vec<String>>)
    ensures
        match json_items(*v) {
            Some(items) => match strings_of(items) {
                Some(b) => r is Some && lines_view(r->0@) == b,
                None => r is None,
            },
            None => r is None,
        },
{
    let items = match items_of(v) {
        Some(items) => items,
        None => return None,
    };
    let mut lines: Vec<String> = Vec::new();
    let mut i: usize = 0;
    while i < items.len()
        invariant
            json_items(*v) == Some(items@),
            i <= items@.len(),
            lines@.len() == i,
            forall|j: int| 0 <= j < i ==> json_string(items@[j]) == Some(#[trigger] lines@[j]@),
        decreases items@.len() - i,
    {
        match string_of(&items[i]) {
            Some(t) => lines.push(t),
            None => {
                proof {
                    assert(!((json_string(items@[i as int])) is Some));
                }
                return None;
            },
        }
        i = i + 1;
    }
    proof {
        assert forall|j: int| 0 <= j < items@.len() implies (#[trigger] json_string(items@[j])) is Some by {
            assert(json_string(items@[j]) == Some(lines@[j]@));
        }
        assert(lines_view(lines@) =~= items@.map_values(|x: serde_json::Value| json_string(x)->0));
    }
    Some(lines)
}

/// The snippet that a JSON value holds, if it holds one.
fn decode_snippet(v: &serde_json::Value) -> (r: Option<Snippet>)
    ensures
        match snippet_of_json(*v) {
            Some(s) => r is Some && r->0@ == s,
            None => r is None,
        },
{
    let members = match members_of(v) {
        Some(m) => m,
        None => return None,
    };
    let ghost f = json_fields(*v)->0;
    let ghost mv = members_view(members@);
    let prefix_name = String::from_str("prefix");
    let description_name = String::from_str("description");
    let body_name = String::from_str("body");
    proof {
        reveal_strlit("prefix");
        reveal_strlit("description");
        reveal_strlit("body");
    }
    let mut prefix: Option<String> = None;
    let mut description: Option<String> = None;
    let mut body: Option<Vec<String>> = None;
    let ghost mut pi: int = 0;
    let ghost mut di: int = 0;
    let ghost mut bi: int = 0;
    let mut j: usize = 0;
    while j < members.len()
        invariant
            json_fields(*v) == Some(f),
            mv == members_view(members@),
            keys_distinct(mv),
            map_of(mv) == f,
            j <= members@.len(),
            prefix_name@ == "prefix"@,
            description_name@ == "description"@,
            body_name@ == "body"@,
            forall|k: int| 0 <= k < j ==> snippet_member_names().contains(#[trigger] mv[k].0),
            match prefix {
                Some(t) => 0 <= pi < j && mv[pi].0 == "prefix"@ && json_string(mv[pi].1) == Some(t@),
                None => forall|k: int| 0 <= k < j ==> #[trigger] mv[k].0 != "prefix"@,
            },
            match description {
                Some(t) => 0 <= di < j && mv[di].0 == "description"@ && json_string(mv[di].1) == Some(t@),
                None => forall|k: int| 0 <= k < j ==> #[trigger] mv[k].0 != "description"@,
            },
            match body {
                Some(b) => 0 <= bi < j && mv[bi].0 == "body"@ && json_items(mv[bi].1) is Some
                    && strings_of(json_items(mv[bi].1)->0) == Some(lines_view(b@)),
                None => forall|k: int| 0 <= k < j ==> #[trigger] mv[k].0 != "body"@,
            },
        decreases members@.len() - j,
    {
        let name = &members[j].0;
        let x = &members[j].1;
        proof {
            reveal_strlit("prefix");
            reveal_strlit("description");
            reveal_strlit("body");
            assert("prefix"@.len() == 6 && "description"@.len() == 11 && "body"@.len() == 4);
            assert("prefix"@ != "description"@ && "prefix"@ != "body"@ && "body"@ != "description"@);
            assert(mv[j as int] == (name@, *x));
            lemma_map_of_at(mv, j as int);
        }
        if *name == prefix_name {
            match string_of(x) {
                Some(t) => {
                    prefix = Some(t);
                    proof { pi = j as int; }
                },
                None => return None,
            }
        } else if *name == description_name {
            match string_of(x) {
                Some(t) => {
                    description = Some(t);
                    proof { di = j as int; }
                },
                None => return None,
            }
        } else if *name == body_name {
            match decode_lines(x) {
                Some(b) => {
                    body = Some(b);
                    proof { bi = j as int; }
                },
                None => return None,
            }
        } else {
            proof {
                assert(f.contains_key(name@));
                assert(!snippet_member_names().contains(name@));
            }
            return None;
        }
        j = j + 1;
    }
    match (prefix, description, body) {
        (Some(p), Some(d), Some(b)) => {
            proof {
                lemma_map_of_at(mv, pi);
                lemma_map_of_at(mv, di);
                lemma_map_of_at(mv, bi);
                assert forall|k: Seq<char>| f.dom().contains(k) implies #[trigger] snippet_member_names().contains(k) by {
                    let a = choose|a: int| 0 <= a < mv.len() && mv[a].0 == k;
                }
                assert(f.dom() =~= snippet_member_names());
            }
            Some(Snippet { prefix: p, body: b, description: d })
        },
        _ => {
            proof {
                if prefix is None {
                    assert(!f.contains_key("prefix"@));
                } else if description is None {
                    assert(!f.contains_key("description"@));
                } else {
                    assert(!f.contains_key("body"@));
                }
                assert(!f.dom().contains("prefix"@) || !f.dom().contains("description"@) || !f.dom().contains("body"@));
                assert(f.dom() != snippet_member_names());
            }
            None
        },
    }
}

/// The collection that a JSON value holds, if it holds one.
pub fn decode_value(v: &serde_json::Value) -> (r: Option<SnippetStore>)
    ensures
        match collection_of_json(*v) {
            Some(m) => r is Some && r->0.wf() && r->0@ == m,
            None => r is None,
        },
{
    let members = match members_of(v) {
        Some(m) => m,
        None => return None,
    };
    let ghost f = json_fields(*v)->0;
    let ghost mv = members_view(members@);
    let mut store = SnippetStore::new();
    let mut j: usize = 0;
    while j < members.len()
        invariant
            json_fields(*v) == Some(f),
            mv == members_view(members@),
            keys_distinct(mv),
            map_of(mv) == f,
            j <= members@.len(),
            store.wf(),
            store.entry_seq().len() == j,
            forall|k: int|
                0 <= k < j ==> (#[trigger] store.entry_seq()[k]).0 == mv[k].0 && snippet_of_json(
                    mv[k].1,
                ) == Some(store.entry_seq()[k].1),
        decreases members@.len() - j,
    {
        let name = &members[j].0;
        let x = &members[j].1;
        proof {
            assert(mv[j as int] == (name@, *x));
            lemma_map_of_at(mv, j as int);
        }
        match decode_snippet(x) {
            Some(sn) => {
                proof {
                    if store@.contains_key(name@) {
                        let k = choose|k: int|
                            0 <= k < store.entry_seq().len() && store.entry_seq()[k].0 == name@;
                        assert(store.entry_seq()[k].0 == mv[k].0);
                    }
                }
                let ghost before = store.entry_seq();
                store.insert_new(name.clone(), sn);
                proof {
                    assert forall|k: int| 0 <= k < j + 1 implies (#[trigger] store.entry_seq()[k]).0
                        == mv[k].0 && snippet_of_json(mv[k].1) == Some(store.entry_seq()[k].1) by {
                        if k < j {
                            assert(store.entry_seq()[k] == before[k]);
                        }
                    }
                }
            },
            None => {
                proof {
                    assert(f.contains_key(name@));
                }
                return None;
            },
        }
        j = j + 1;
    }
    proof {
        let es = store.entry_seq();
        assert forall|k: Seq<char>| f.contains_key(k) implies snippet_of_json(f[k]) is Some && store@.contains_key(k) && store@[k] == snippet_of_json(f[k])->0 by {
            let a = choose|a: int| 0 <= a < mv.len() && mv[a].0 == k;
            lemma_map_of_at(mv, a);
            assert(es[a].0 == k);
            lemma_map_of_at(es, a);
        }
        assert forall|k: Seq<char>| store@.contains_key(k) implies f.contains_key(k) by {
            let a = choose|a: int| 0 <= a < es.len() && es[a].0 == k;
            assert(es[a].0 == mv[a].0);
            lemma_map_of_at(mv, a);
        }
        assert(store@ =~= f.map_values(|x: serde_json::Value| snippet_of_json(x)->0));
    }
    Some(store)
}

/// An array of the lines, as strings.
fn lines_value(lines: &Vec<String>) -> (r: serde_json::Value)
    ensures
        json_items(r) is Some,
        strings_of(json_items(r)->0) == Some(lines_view(lines@)),
{
    let mut items: Vec<serde_json::Value> = Vec::new();
    let mut i: usize = 0;
    while i < lines.len()
        invariant
            i <= lines@.len(),
            items@.len() == i,
            forall|j: int| 0 <= j < i ==> json_string(#[trigger] items@[j]) == Some(lines@[j]@),
        decreases lines@.len() - i,
    {
        let t = lines[i].clone();
        items.push(string_value(t));
        i = i + 1;
    }
    let r = array_value(items);
    proof {
        assert forall|j: int| 0 <= j < items@.len() implies (#[trigger] json_string(items@[j])) is Some by {}
        assert(items@.map_values(|x: serde_json::Value| json_string(x)->0) =~= lines_view(lines@));
    }
    r
}

/// The object that stands for one snippet.
fn snippet_value(s: &Snippet) -> (r: serde_json::Value)
    ensures
        snippet_of_json(r) == Some(s@),
{
    let mut members: Vec<(String, serde_json::Value)> = Vec::new();
    members.push((String::from_str("prefix"), string_value(s.prefix.clone())));
    members.push((String::from_str("body"), lines_value(&s.body)));
    members.push((String::from_str("description"), string_value(s.description.clone())));
    let ghost mv = members_view(members@);
    proof {
        reveal_strlit("prefix");
        reveal_strlit("description");
        reveal_strlit("body");
        assert("prefix"@.len() == 6 && "description"@.len() == 11 && "body"@.len() == 4);
        assert(mv[0].0 == "prefix"@ && mv[1].0 == "body"@ && mv[2].0 == "description"@);
        assert(keys_distinct(mv));
    }
    let r = object_value(members);
    proof {
        lemma_map_of_at(mv, 0);
        lemma_map_of_at(mv, 1);
        lemma_map_of_at(mv, 2);
        let f = map_of(mv);
        assert forall|k: Seq<char>| f.dom().contains(k) implies #[trigger] snippet_member_names().contains(k) by {
            let a = choose|a: int| 0 <= a < mv.len() && mv[a].0 == k;
        }
        assert(f.dom() =~= snippet_member_names());
    }
    r
}

/// The JSON object that stands for a collection: one member per key.
pub fn encode_value(store: &SnippetStore) -> (r: serde_json::Value)
    requires
        store.wf(),
    ensures
        collection_of_json(r) == Some(store@),
{
    let ghost es = store.entry_seq();
    let mut members: Vec<(String, serde_json::Value)> = Vec::new();
    let mut i: usize = 0;
    while i < store.len()
        invariant
            es == store.entry_seq(),
            keys_distinct(es),
            i <= es.len(),
            members@.len() == i,
            forall|k: int|
                0 <= k < i ==> (#[trigger] members@[k]).0@ == es[k].0 && snippet_of_json(members@[k].1)
                    == Some(es[k].1),
        decreases es.len() - i,
    {
        let e = store.entry(i);
        let v = snippet_value(&e.1);
        members.push((e.0.clone(), v));
        i = i + 1;
    }
    let ghost mv = members_view(members@);
    proof {
        assert(keys_distinct(mv)) by {
            assert forall|a: int, b: int| 0 <= a < mv.len() && 0 <= b < mv.len() && a != b implies mv[a].0 != mv[b].0 by {
                assert(mv[a].0 == members@[a].0@ && mv[b].0 == members@[b].0@);
            }
        }
    }
    let r = object_value(members);
    proof {
        let f = map_of(mv);
        assert forall|k: Seq<char>| #[trigger] f.contains_key(k) implies snippet_of_json(f[k]) is Some && store@.contains_key(k) && store@[k] == snippet_of_json(f[k])->0 by {
            let a = choose|a: int| 0 <= a < mv.len() && mv[a].0 == k;
            lemma_map_of_at(mv, a);
            assert(mv[a] == (members@[a].0@, members@[a].1));
            lemma_map_of_at(es, a);
        }
        assert forall|k: Seq<char>| store@.contains_key(k) implies f.contains_key(k) by {
            let a = choose|a: int| 0 <= a < es.len() && es[a].0 == k;
            assert(mv[a] == (members@[a].0@, members@[a].1));
            lemma_map_of_at(mv, a);
        }
        assert(store@ =~= f.map_values(|x: serde_json::Value| snippet_of_json(x)->0));
    }
    r
}

/// What a store text holds: absent (empty) text holds no collection, and
/// otherwise it must be JSON holding a collection.
pub open spec fn loaded(text: Seq<char>) -> Result<Collection, SnipErrorView> {
    if text.len() == 0 {
        Err(SnipErrorView::StoreUnavailable)
    } else {
        match json_parsed(text) {
            None => Err(SnipErrorView::Format),
            Some(v) => match collection_of_json(v) {
                None => Err(SnipErrorView::Format),
                Some(m) => Ok(m),
            },
        }
    }
}

/// `text` is the indented JSON of a value that holds `m`.
pub open spec fn encodes(text: Seq<char>, m: Collection) -> bool {
    exists|v: serde_json::Value| collection_of_json(v) == Some(m) && text == json_pretty(v)
}

/// Reads a collection from store text.
pub fn decode_store(text: &str) -> (r: Result<SnippetStore, SnipError>)
    ensures
        match loaded(text@) {
            Ok(m) => r is Ok && r->Ok_0.wf() && r->Ok_0@ == m,
            Err(e) => r is Err && r->Err_0@ == e,
        },
{
    if text.is_empty() {
        return Err(SnipError::StoreUnavailable);
    }
    match parse_json(text) {
        None => Err(SnipError::Format),
        Some(v) => match decode_value(&v) {
            None => Err(SnipError::Format),
            Some(store) => Ok(store),
        },
    }
}

/// Writes a collection as indented JSON, a member per key.
pub fn encode_store(store: &SnippetStore) -> (r: String)
    requires
        store.wf(),
    ensures
        encodes(r@, store@),
{
    let v = encode_value(store);
    render_pretty(&v)
}

} // verus!
