use vstd::prelude::*;

use crate::codec::{decode_store, encode_store, encodes, loaded};
use crate::snippet::{lines_view, Identifier, Snippet, SnippetView, SnipError, SnipErrorView};
use crate::store::{add_spec, edit_spec, keys_distinct, listing, map_of, opt_lines, opt_text};
use crate::store::{remove_spec, rename_spec, rows_view, search_results, show_rows_spec};
use crate::store::{Collection, Entries, SnippetStore};

verus! {

/// The collection that store text holds, where absent or empty text holds
/// an empty one.
pub open spec fn loaded_or_empty(text: Seq<char>) -> Result<Collection, SnipErrorView> {
    if text.len() == 0 {
        Ok(Collection::empty())
    } else {
        loaded(text)
    }
}

pub open spec fn then_apply(
    base: Result<Collection, SnipErrorView>,
    step: spec_fn(Collection) -> Result<Collection, SnipErrorView>,
) -> Result<Collection, SnipErrorView> {
    match base {
        Ok(m) => step(m),
        Err(e) => Err(e),
    }
}

/// `r` is new store text that holds what `spec` gives, or the error it gives.
pub open spec fn rewritten(r: Result<String, SnipError>, spec: Result<Collection, SnipErrorView>) -> bool {
    match spec {
        Ok(m) => r is Ok && encodes(r->Ok_0@, m),
        Err(e) => r is Err && r->Err_0@ == e,
    }
}

/// `m` laid out in some order: the entries that listing and searching visit.
pub open spec fn laid_out(s: Entries, m: Collection) -> bool {
    keys_distinct(s) && map_of(s) == m
}

fn store_text(store: &SnippetStore) -> (r: Result<String, SnipError>)
    requires
        store.wf(),
    ensures
        r is Ok && encodes(r->Ok_0@, store@),
{
    Ok(encode_store(store))
}

/// Adds a snippet under a new key and a prefix that no entry holds; absent
/// or empty store text counts as an empty collection.
pub fn write_snippet(
    text: &str,
    key: String,
    prefix: String,
    description: String,
    body: Vec<String>,
) -> (r: Result<String, SnipError>)
    ensures
        rewritten(
            r,
            then_apply(
                loaded_or_empty(text@),
                |m: Collection|
                    add_spec(
                        m,
                        key@,
                        SnippetView { prefix: prefix@, body: lines_view(body@), description: description@ },
                    ),
            ),
        ),
{
    let mut store = if text.is_empty() {
        SnippetStore::new()
    } else {
        decode_store(text)?
    };
    store.add(key, Snippet::new(prefix, description, body))?;
    store_text(&store)
}

/// Removes the snippet under `key`.
pub fn remove_snippet(text: &str, key: &str) -> (r: Result<String, SnipError>)
    ensures
        rewritten(r, then_apply(loaded(text@), |m: Collection| remove_spec(m, key@))),
{
    let mut store = decode_store(text)?;
    store.remove(key)?;
    store_text(&store)
}

/// Overwrites the supplied fields of the snippet under `key`.
pub fn edit_snippet(
    text: &str,
    key: String,
    prefix: Option<String>,
    description: Option<String>,
    body: Option<Vec<String>>,
) -> (r: Result<String, SnipError>)
    ensures
        prefix is None && description is None && body is None ==> r is Err && r->Err_0@
            == SnipErrorView::NoFieldsProvided,
        !(prefix is None && description is None && body is None) ==> rewritten(
            r,
            then_apply(
                loaded(text@),
                |m: Collection|
                    edit_spec(m, key@, opt_text(prefix), opt_text(description), opt_lines(body)),
            ),
        ),
{
    if prefix.is_none() && description.is_none() && body.is_none() {
        return Err(SnipError::NoFieldsProvided);
    }
    let mut store = decode_store(text)?;
    store.edit(key.as_str(), prefix, description, body)?;
    store_text(&store)
}

/// Moves the snippet under `old_key` to `new_key`.
pub fn update_key(text: &str, old_key: String, new_key: String) -> (r: Result<String, SnipError>)
    ensures
        old_key@ == new_key@ ==> r is Err && r->Err_0@ == SnipErrorView::SameKey,
        old_key@ != new_key@ ==> rewritten(
            r,
            then_apply(loaded(text@), |m: Collection| rename_spec(m, old_key@, new_key@)),
        ),
{
    if old_key == new_key {
        return Err(SnipError::SameKey);
    }
    let mut store = decode_store(text)?;
    store.rename_key(old_key.as_str(), new_key)?;
    store_text(&store)
}

/// Every key, or every prefix, each on a line of its own, in the order in
/// which the collection is visited.
pub fn list_entries(text: &str, id: Identifier) -> (r: Result<String, SnipError>)
    ensures
        match loaded(text@) {
            Ok(m) => r is Ok && exists|s: Entries| laid_out(s, m) && r->Ok_0@ == listing(s, id),
            Err(e) => r is Err && r->Err_0@ == e,
        },
{
    let store = decode_store(text)?;
    let listed = store.list(id);
    proof {
        assert(laid_out(store.entry_seq(), store@));
    }
    Ok(listed)
}

/// The keys, or prefixes, of the snippets that answer `query`.
pub fn search_entries(text: &str, id: Option<Identifier>, query: &str) -> (r: Result<
    Vec<String>,
    SnipError,
>)
    ensures
        match loaded(text@) {
            Ok(m) => r is Ok && exists|s: Entries|
                laid_out(s, m) && lines_view(r->Ok_0@) == search_results(s, id, query@),
            Err(e) => r is Err && r->Err_0@ == e,
        },
{
    let store = decode_store(text)?;
    let found = store.search(id, query);
    proof {
        assert(laid_out(store.entry_seq(), store@));
    }
    Ok(found)
}

/// What `prettytable` renders for a table of two-cell rows.
pub uninterp spec fn table_text(rows: Seq<(Seq<char>, Seq<char>)>) -> Seq<char>;

/// Relies on `prettytable::Table::init` and its `Display`: a table in the
/// default format with one row per pair, a function of the cells alone.
#[verifier::external_body]
fn render_table(rows: &Vec<(String, String)>) -> (r: String)
    ensures
        r@ == table_text(rows_view(rows@)),
{
    let rows = rows.iter().map(|(a, b)| {
        prettytable::Row::new(vec![prettytable::Cell::new(a), prettytable::Cell::new(b)])
    }).collect();
    prettytable::Table::init(rows).to_string()
}

/// The table that presents the snippet under `key`.
pub fn show_entry(text: &str, key: &str) -> (r: Result<String, SnipError>)
    ensures
        match loaded(text@) {
            Ok(m) => if m.contains_key(key@) {
                r is Ok && r->Ok_0@ == table_text(show_rows_spec(key@, m[key@]))
            } else {
                r is Err && r->Err_0@ == SnipErrorView::NotFound(key@)
            },
            Err(e) => r is Err && r->Err_0@ == e,
        },
{
    let store = decode_store(text)?;
    let rows = store.show_rows(key)?;
    Ok(render_table(&rows))
}

} // verus!
