use vstd::prelude::*;

use crate::fuzzy::{is_fuzzy_match, is_subsequence};
use crate::snippet::{lines_view, Identifier, Snippet, SnippetView, SnipError, SnipErrorView};
use crate::text::{contains_ignoring_case, is_substring, join_lines, join_with_newlines};
use crate::text::{line_per_item, lower_of};

verus! {

/// The mathematical value of a snippet collection: key to snippet.
pub type Collection = Map<Seq<char>, SnippetView>;

pub type Entries = Seq<(Seq<char>, SnippetView)>;

pub open spec fn keys_distinct<V>(s: Seq<(Seq<char>, V)>) -> bool {
    forall|i: int, j: int| 0 <= i < s.len() && 0 <= j < s.len() && i != j ==> s[i].0 != s[j].0
}

/// The map that a sequence of entries with distinct keys stands for.
pub open spec fn map_of<V>(s: Seq<(Seq<char>, V)>) -> Map<Seq<char>, V> {
    Map::new(
        |k: Seq<char>| exists|i: int| 0 <= i < s.len() && s[i].0 == k,
        |k: Seq<char>| s[choose|i: int| 0 <= i < s.len() && s[i].0 == k].1,
    )
}

/// No two keys of `m` share a prefix.
pub open spec fn prefixes_unique(m: Collection) -> bool {
    forall|a: Seq<char>, b: Seq<char>|
        m.contains_key(a) && m.contains_key(b) && a != b ==> m[a].prefix != m[b].prefix
}

/// Some key of `m` other than `key` holds `prefix`.
pub open spec fn prefix_used_by_other(m: Collection, prefix: Seq<char>, key: Seq<char>) -> bool {
    exists|k: Seq<char>| m.contains_key(k) && k != key && m[k].prefix == prefix
}

pub open spec fn add_spec(m: Collection, key: Seq<char>, s: SnippetView) -> Result<
    Collection,
    SnipErrorView,
> {
    if m.contains_key(key) {
        Err(SnipErrorView::DuplicateKey(key))
    } else if prefix_used_by_other(m, s.prefix, key) {
        Err(SnipErrorView::DuplicatePrefix(s.prefix))
    } else {
        Ok(m.insert(key, s))
    }
}

pub open spec fn remove_spec(m: Collection, key: Seq<char>) -> Result<Collection, SnipErrorView> {
    if m.contains_key(key) {
        Ok(m.remove(key))
    } else {
        Err(SnipErrorView::NotFound(key))
    }
}

/// `s` with each supplied field replaced.
pub open spec fn edited(
    s: SnippetView,
    prefix: Option<Seq<char>>,
    description: Option<Seq<char>>,
    body: Option<Seq<Seq<char>>>,
) -> SnippetView {
    SnippetView {
        prefix: match prefix {
            Some(p) => p,
            None => s.prefix,
        },
        description: match description {
            Some(d) => d,
            None => s.description,
        },
        body: match body {
            Some(b) => b,
            None => s.body,
        },
    }
}

pub open spec fn edit_spec(
    m: Collection,
    key: Seq<char>,
    prefix: Option<Seq<char>>,
    description: Option<Seq<char>>,
    body: Option<Seq<Seq<char>>>,
) -> Result<Collection, SnipErrorView> {
    if prefix is None && description is None && body is None {
        Err(SnipErrorView::NoFieldsProvided)
    } else if prefix is Some && prefix_used_by_other(m, prefix->0, key) {
        Err(SnipErrorView::DuplicatePrefix(prefix->0))
    } else if !m.contains_key(key) {
        Err(SnipErrorView::NotFound(key))
    } else {
        Ok(m.insert(key, edited(m[key], prefix, description, body)))
    }
}

pub open spec fn rename_spec(m: Collection, old_key: Seq<char>, new_key: Seq<char>) -> Result<
    Collection,
    SnipErrorView,
> {
    if old_key == new_key {
        Err(SnipErrorView::SameKey)
    } else if m.contains_key(new_key) {
        Err(SnipErrorView::DuplicateKey(new_key))
    } else if !m.contains_key(old_key) {
        Err(SnipErrorView::NotFound(old_key))
    } else {
        Ok(m.remove(old_key).insert(new_key, m[old_key]))
    }
}

/// `r` is what `spec` says, and on failure `m` stays as it was.
pub open spec fn outcome(
    r: Result<(), SnipError>,
    before: Collection,
    after: Collection,
    spec: Result<Collection, SnipErrorView>,
) -> bool {
    match spec {
        Ok(m) => r is Ok && after == m,
        Err(e) => r is Err && r->Err_0@ == e && after == before,
    }
}

pub proof fn lemma_map_of_at<V>(s: Seq<(Seq<char>, V)>, i: int)
    requires
        keys_distinct(s),
        0 <= i < s.len(),
    ensures
        map_of(s).contains_key(s[i].0),
        map_of(s)[s[i].0] == s[i].1,
{
    let k = s[i].0;
    assert(exists|j: int| 0 <= j < s.len() && s[j].0 == k);
    let j = choose|j: int| 0 <= j < s.len() && s[j].0 == k;
    assert(j == i);
}

pub proof fn lemma_map_of_push<V>(s: Seq<(Seq<char>, V)>, e: (Seq<char>, V))
    requires
        keys_distinct(s),
        !map_of(s).contains_key(e.0),
    ensures
        keys_distinct(s.push(e)),
        map_of(s.push(e)) == map_of(s).insert(e.0, e.1),
{
    let t = s.push(e);
    assert(keys_distinct(t)) by {
        assert forall|i: int, j: int| 0 <= i < t.len() && 0 <= j < t.len() && i != j implies t[i].0
            != t[j].0 by {
            if i < s.len() && j < s.len() {
                assert(t[i] == s[i] && t[j] == s[j]);
            } else if i < s.len() {
                assert(t[i] == s[i]);
            } else {
                assert(t[j] == s[j]);
            }
        }
    }
    assert forall|k: Seq<char>| #[trigger] map_of(t).contains_key(k) == map_of(s).insert(
        e.0,
        e.1,
    ).contains_key(k) by {
        if map_of(s).contains_key(k) {
            let i = choose|i: int| 0 <= i < s.len() && s[i].0 == k;
            assert(t[i] == s[i]);
        }
        if map_of(t).contains_key(k) && k != e.0 {
            let i = choose|i: int| 0 <= i < t.len() && t[i].0 == k;
            assert(i < s.len());
            assert(s[i] == t[i]);
        }
        if k == e.0 {
            assert(t[s.len() as int].0 == k);
        }
    }
    assert forall|k: Seq<char>| #[trigger] map_of(t).contains_key(k) implies map_of(t)[k]
        == map_of(s).insert(e.0, e.1)[k] by {
        let i = choose|i: int| 0 <= i < t.len() && t[i].0 == k;
        lemma_map_of_at(t, i);
        if i < s.len() {
            assert(s[i] == t[i]);
            lemma_map_of_at(s, i);
        }
    }
    assert(map_of(t) =~= map_of(s).insert(e.0, e.1));
}

pub proof fn lemma_map_of_remove<V>(s: Seq<(Seq<char>, V)>, i: int)
    requires
        keys_distinct(s),
        0 <= i < s.len(),
    ensures
        keys_distinct(s.remove(i)),
        map_of(s.remove(i)) == map_of(s).remove(s[i].0),
{
    let t = s.remove(i);
    let k0 = s[i].0;
    assert forall|a: int| 0 <= a < t.len() implies #[trigger] t[a] == s[if a < i {
        a
    } else {
        a + 1
    }] by {}
    assert(keys_distinct(t)) by {
        assert forall|a: int, b: int| 0 <= a < t.len() && 0 <= b < t.len() && a != b implies t[a].0
            != t[b].0 by {
            let sa = if a < i {
                a
            } else {
                a + 1
            };
            let sb = if b < i {
                b
            } else {
                b + 1
            };
            assert(t[a] == s[sa] && t[b] == s[sb]);
        }
    }
    assert forall|k: Seq<char>| #[trigger] map_of(t).contains_key(k) == map_of(s).remove(
        k0,
    ).contains_key(k) by {
        if map_of(t).contains_key(k) {
            let a = choose|a: int| 0 <= a < t.len() && t[a].0 == k;
            let sa = if a < i {
                a
            } else {
                a + 1
            };
            assert(t[a] == s[sa]);
        }
        if map_of(s).contains_key(k) && k != k0 {
            let b = choose|b: int| 0 <= b < s.len() && s[b].0 == k;
            assert(b != i);
            let ta = if b < i {
                b
            } else {
                b - 1
            };
            assert(t[ta] == s[b]);
        }
    }
    assert forall|k: Seq<char>| #[trigger] map_of(t).contains_key(k) implies map_of(t)[k]
        == map_of(s)[k] by {
        let a = choose|a: int| 0 <= a < t.len() && t[a].0 == k;
        let sa = if a < i {
            a
        } else {
            a + 1
        };
        assert(t[a] == s[sa]);
        lemma_map_of_at(t, a);
        lemma_map_of_at(s, sa);
    }
    assert(map_of(t) =~= map_of(s).remove(k0));
}

pub proof fn lemma_map_of_update<V>(s: Seq<(Seq<char>, V)>, i: int, v: V)
    requires
        keys_distinct(s),
        0 <= i < s.len(),
    ensures
        keys_distinct(s.update(i, (s[i].0, v))),
        map_of(s.update(i, (s[i].0, v))) == map_of(s).insert(s[i].0, v),
{
    let t = s.update(i, (s[i].0, v));
    assert(keys_distinct(t)) by {
        assert forall|a: int, b: int| 0 <= a < t.len() && 0 <= b < t.len() && a != b implies t[a].0
            != t[b].0 by {
            assert(t[a].0 == s[a].0 && t[b].0 == s[b].0);
        }
    }
    assert forall|k: Seq<char>| #[trigger] map_of(t).contains_key(k) == map_of(s).insert(
        s[i].0,
        v,
    ).contains_key(k) by {
        if map_of(t).contains_key(k) {
            let a = choose|a: int| 0 <= a < t.len() && t[a].0 == k;
            assert(t[a].0 == s[a].0);
        }
        if map_of(s).contains_key(k) {
            let a = choose|a: int| 0 <= a < s.len() && s[a].0 == k;
            assert(t[a].0 == s[a].0);
        }
        if k == s[i].0 {
            assert(t[i].0 == k);
        }
    }
    assert forall|k: Seq<char>| #[trigger] map_of(t).contains_key(k) implies map_of(t)[k]
        == map_of(s).insert(s[i].0, v)[k] by {
        let a = choose|a: int| 0 <= a < t.len() && t[a].0 == k;
        lemma_map_of_at(t, a);
        if a != i {
            assert(t[a] == s[a]);
            lemma_map_of_at(s, a);
        }
    }
    assert(map_of(t) =~= map_of(s).insert(s[i].0, v));
}

pub open spec fn opt_text(o: Option<String>) -> Option<Seq<char>> {
    match o {
        Some(t) => Some(t@),
        None => None,
    }
}

pub open spec fn opt_lines(o: Option<Vec<String>>) -> Option<Seq<Seq<char>>> {
    match o {
        Some(l) => Some(lines_view(l@)),
        None => None,
    }
}


/// The field that `id` selects: the key, or the snippet's prefix.
pub open spec fn field_of(e: (Seq<char>, SnippetView), id: Identifier) -> Seq<char> {
    match id {
        Identifier::Key => e.0,
        Identifier::Prefix => e.1.prefix,
    }
}

pub open spec fn fields_of(s: Entries, id: Identifier) -> Seq<Seq<char>> {
    s.map_values(|e: (Seq<char>, SnippetView)| field_of(e, id))
}

/// The selected field of every entry, each on a line of its own.
pub open spec fn listing(s: Entries, id: Identifier) -> Seq<char> {
    line_per_item(fields_of(s, id))
}

/// Whether an entry answers a search: by key or by prefix the query is a
/// subsequence of that field; with no selector the query, lowercased, occurs
/// in the lowercased description.
pub open spec fn search_hit(e: (Seq<char>, SnippetView), id: Option<Identifier>, query: Seq<char>) -> bool {
    match id {
        Some(f) => is_subsequence(query, field_of(e, f)),
        None => is_substring(lower_of(query), lower_of(e.1.description)),
    }
}

/// What a search reports of a hit: the prefix when searching by prefix,
/// else the key.
pub open spec fn search_field(e: (Seq<char>, SnippetView), id: Option<Identifier>) -> Seq<char> {
    match id {
        Some(Identifier::Prefix) => e.1.prefix,
        _ => e.0,
    }
}

/// The reported fields of the hits, in visiting order.
pub open spec fn search_results(s: Entries, id: Option<Identifier>, query: Seq<char>) -> Seq<Seq<char>>
    decreases s.len(),
{
    if s.len() == 0 {
        Seq::empty()
    } else {
        let r = search_results(s.drop_last(), id, query);
        if search_hit(s.last(), id, query) {
            r.push(search_field(s.last(), id))
        } else {
            r
        }
    }
}

/// The four labelled rows that present one snippet.
pub open spec fn show_rows_spec(key: Seq<char>, s: SnippetView) -> Seq<(Seq<char>, Seq<char>)> {
    seq![
        ("Key"@, key),
        ("Prefix"@, s.prefix),
        ("Description"@, s.description),
        ("Body"@, join_lines(s.body)),
    ]
}

pub open spec fn rows_view(rows: Seq<(String, String)>) -> Seq<(Seq<char>, Seq<char>)> {
    rows.map_values(|r: (String, String)| (r.0@, r.1@))
}

/// A copy of the field that `id` selects.
fn field_copy(e: &(String, Snippet), id: Identifier) -> (r: String)
    ensures
        r@ == field_of((e.0@, e.1@), id),
{
    match id {
        Identifier::Key => e.0.clone(),
        Identifier::Prefix => e.1.prefix.clone(),
    }
}

/// A snippet collection: entries in insertion order, keys distinct.
pub struct SnippetStore {
    entries: Vec<(String, Snippet)>,
}

impl View for SnippetStore {
    type V = Collection;

    open spec fn view(&self) -> Collection {
        map_of(self.entry_seq())
    }
}

impl SnippetStore {
    /// The entries, in the order in which listing and searching visit them.
    pub closed spec fn entry_seq(&self) -> Entries {
        self.entries@.map_values(|e: (String, Snippet)| (e.0@, e.1@))
    }

    pub open spec fn wf(&self) -> bool {
        keys_distinct(self.entry_seq())
    }

    pub fn new() -> (r: SnippetStore)
        ensures
            r.wf(),
            r@ == Collection::empty(),
            r.entry_seq() == Entries::empty(),
    {
        let r = SnippetStore { entries: Vec::new() };
        proof {
            assert(r.entry_seq() =~= Entries::empty());
            assert(r@ =~= Collection::empty());
        }
        r
    }

    pub fn len(&self) -> (r: usize)
        ensures
            r == self.entry_seq().len(),
    {
        self.entries.len()
    }

    /// The entry at position `i` of the visiting order.
    pub fn entry(&self, i: usize) -> (r: &(String, Snippet))
        requires
            i < self.entry_seq().len(),
        ensures
            (r.0@, r.1@) == self.entry_seq()[i as int],
    {
        &self.entries[i]
    }

    /// Where `key` stands in the visiting order, if it is present.
    fn find(&self, key: &String) -> (r: Option<usize>)
        requires
            self.wf(),
        ensures
            match r {
                Some(i) => i < self.entry_seq().len() && self.entry_seq()[i as int].0 == key@,
                None => !self@.contains_key(key@),
            },
    {
        let mut i: usize = 0;
        while i < self.entries.len()
            invariant
                i <= self.entries@.len(),
                forall|j: int| 0 <= j < i ==> self.entry_seq()[j].0 != key@,
            decreases self.entries@.len() - i,
        {
            if self.entries[i].0 == *key {
                return Some(i);
            }
            i = i + 1;
        }
        proof {
            if self@.contains_key(key@) {
                let j = choose|j: int| 0 <= j < self.entry_seq().len() && self.entry_seq()[j].0 == key@;
                assert(self.entry_seq()[j].0 != key@);
            }
        }
        None
    }

    /// Whether some key other than `key` holds `prefix`.
    fn prefix_taken(&self, prefix: &String, key: &String) -> (r: bool)
        requires
            self.wf(),
        ensures
            r == prefix_used_by_other(self@, prefix@, key@),
    {
        let mut i: usize = 0;
        while i < self.entries.len()
            invariant
                self.wf(),
                i <= self.entries@.len(),
                forall|j: int|
                    0 <= j < i ==> !(self.entry_seq()[j].0 != key@ && self.entry_seq()[j].1.prefix
                        == prefix@),
            decreases self.entries@.len() - i,
        {
            let e = &self.entries[i];
            if !(e.0 == *key) && e.1.prefix == *prefix {
                proof {
                    lemma_map_of_at(self.entry_seq(), i as int);
                    assert(self@.contains_key(self.entry_seq()[i as int].0));
                }
                return true;
            }
            i = i + 1;
        }
        proof {
            if prefix_used_by_other(self@, prefix@, key@) {
                let k = choose|k: Seq<char>|
                    self@.contains_key(k) && k != key@ && self@[k].prefix == prefix@;
                let j = choose|j: int| 0 <= j < self.entry_seq().len() && self.entry_seq()[j].0 == k;
                lemma_map_of_at(self.entry_seq(), j);
            }
        }
        false
    }

    /// Whether `key` is present.
    pub fn contains_key(&self, key: &str) -> (r: bool)
        requires
            self.wf(),
        ensures
            r == self@.contains_key(key@),
    {
        let k = String::from_str(key);
        self.find(&k).is_some()
    }

    /// Inserts `snippet` under a new `key` whose prefix no entry holds yet.
    pub fn add(&mut self, key: String, snippet: Snippet) -> (r: Result<(), SnipError>)
        requires
            old(self).wf(),
        ensures
            final(self).wf(),
            outcome(r, old(self)@, final(self)@, add_spec(old(self)@, key@, snippet@)),
            r is Ok ==> final(self).entry_seq() == old(self).entry_seq().push((key@, snippet@)),
    {
        if self.find(&key).is_some() {
            return Err(SnipError::DuplicateKey(key));
        }
        if self.prefix_taken(&snippet.prefix, &key) {
            return Err(SnipError::DuplicatePrefix(snippet.prefix));
        }
        let ghost before = self.entry_seq();
        self.entries.push((key, snippet));
        proof {
            assert(self.entry_seq() =~= before.push((key@, snippet@)));
            lemma_map_of_push(before, (key@, snippet@));
        }
        Ok(())
    }

    /// Inserts `snippet` under a `key` that is not present, whatever its
    /// prefix.
    pub fn insert_new(&mut self, key: String, snippet: Snippet)
        requires
            old(self).wf(),
            !old(self)@.contains_key(key@),
        ensures
            final(self).wf(),
            final(self)@ == old(self)@.insert(key@, snippet@),
            final(self).entry_seq() == old(self).entry_seq().push((key@, snippet@)),
    {
        let ghost before = self.entry_seq();
        self.entries.push((key, snippet));
        proof {
            assert(self.entry_seq() =~= before.push((key@, snippet@)));
            lemma_map_of_push(before, (key@, snippet@));
        }
    }

    /// Deletes the entry under `key`.
    pub fn remove(&mut self, key: &str) -> (r: Result<(), SnipError>)
        requires
            old(self).wf(),
        ensures
            final(self).wf(),
            outcome(r, old(self)@, final(self)@, remove_spec(old(self)@, key@)),
    {
        let k = String::from_str(key);
        match self.find(&k) {
            None => Err(SnipError::NotFound(k)),
            Some(i) => {
                let ghost before = self.entry_seq();
                let _ = self.entries.remove(i);
                proof {
                    assert(self.entry_seq() =~= before.remove(i as int));
                    lemma_map_of_remove(before, i as int);
                }
                Ok(())
            },
        }
    }

    /// Overwrites the supplied fields of the entry under `key`; the new
    /// prefix, if any, must not be held by another key.
    pub fn edit(
        &mut self,
        key: &str,
        prefix: Option<String>,
        description: Option<String>,
        body: Option<Vec<String>>,
    ) -> (r: Result<(), SnipError>)
        requires
            old(self).wf(),
        ensures
            final(self).wf(),
            outcome(
                r,
                old(self)@,
                final(self)@,
                edit_spec(old(self)@, key@, opt_text(prefix), opt_text(description), opt_lines(body)),
            ),
    {
        if prefix.is_none() && description.is_none() && body.is_none() {
            return Err(SnipError::NoFieldsProvided);
        }
        let k = String::from_str(key);
        if let Some(p) = &prefix {
            if self.prefix_taken(p, &k) {
                return Err(SnipError::DuplicatePrefix(p.clone()));
            }
        }
        match self.find(&k) {
            None => Err(SnipError::NotFound(k)),
            Some(i) => {
                let ghost before = self.entry_seq();
                let (name, mut snippet) = self.entries.remove(i);
                proof {
                    lemma_map_of_at(before, i as int);
                }
                if let Some(p) = prefix {
                    snippet.prefix = p;
                }
                if let Some(d) = description {
                    snippet.description = d;
                }
                if let Some(b) = body {
                    snippet.body = b;
                }
                let ghost v = snippet@;
                self.entries.insert(i, (name, snippet));
                proof {
                    assert(v == edited(before[i as int].1, opt_text(prefix), opt_text(description), opt_lines(body)));
                    assert(self.entry_seq() =~= before.update(i as int, (before[i as int].0, v)));
                    lemma_map_of_update(before, i as int, v);
                }
                Ok(())
            },
        }
    }

    /// Moves the entry under `old_key` to `new_key`, leaving its fields as
    /// they were.
    pub fn rename_key(&mut self, old_key: &str, new_key: String) -> (r: Result<(), SnipError>)
        requires
            old(self).wf(),
        ensures
            final(self).wf(),
            outcome(r, old(self)@, final(self)@, rename_spec(old(self)@, old_key@, new_key@)),
    {
        let ok = String::from_str(old_key);
        if ok == new_key {
            return Err(SnipError::SameKey);
        }
        if self.find(&new_key).is_some() {
            return Err(SnipError::DuplicateKey(new_key));
        }
        match self.find(&ok) {
            None => Err(SnipError::NotFound(ok)),
            Some(i) => {
                let ghost before = self.entry_seq();
                proof {
                    lemma_map_of_at(before, i as int);
                    lemma_map_of_remove(before, i as int);
                }
                let (_, snippet) = self.entries.remove(i);
                let ghost mid = self.entry_seq();
                proof {
                    assert(mid =~= before.remove(i as int));
                }
                self.entries.push((new_key, snippet));
                proof {
                    assert(self.entry_seq() =~= mid.push((new_key@, snippet@)));
                    lemma_map_of_push(mid, (new_key@, snippet@));
                }
                Ok(())
            },
        }
    }
    /// The selected field of every entry, each followed by a newline.
    pub fn list(&self, id: Identifier) -> (r: String)
        ensures
            r@ == listing(self.entry_seq(), id),
    {
        let ghost items = fields_of(self.entry_seq(), id);
        let mut r = String::new();
        let mut i: usize = 0;
        while i < self.entries.len()
            invariant
                i <= self.entries@.len(),
                items == fields_of(self.entry_seq(), id),
                r@ == line_per_item(items.take(i as int)),
            decreases self.entries@.len() - i,
        {
            let f = field_copy(&self.entries[i], id);
            r.append(f.as_str());
            r.append("\n");
            proof {
                reveal_strlit("\n");
                assert(items.take(i + 1).drop_last() =~= items.take(i as int));
                assert(r@ =~= line_per_item(items.take(i + 1)));
            }
            i = i + 1;
        }
        proof {
            assert(items.take(self.entries@.len() as int) =~= items);
        }
        r
    }

    /// The entries that answer `query`, in visiting order: keys by fuzzy
    /// match on the key, prefixes by fuzzy match on the prefix, or, with no
    /// selector, keys whose description holds the query ignoring case.
    pub fn search(&self, id: Option<Identifier>, query: &str) -> (r: Vec<String>)
        ensures
            lines_view(r@) == search_results(self.entry_seq(), id, query@),
    {
        let ghost s = self.entry_seq();
        let mut r: Vec<String> = Vec::new();
        let mut i: usize = 0;
        while i < self.entries.len()
            invariant
                i <= self.entries@.len(),
                s == self.entry_seq(),
                lines_view(r@) == search_results(s.take(i as int), id, query@),
            decreases self.entries@.len() - i,
        {
            let e = &self.entries[i];
            let hit = match id {
                Some(f) => {
                    let t = field_copy(e, f);
                    is_fuzzy_match(t.as_str(), query)
                },
                None => contains_ignoring_case(e.1.description.as_str(), query),
            };
            proof {
                assert(s.take(i + 1).drop_last() =~= s.take(i as int));
                assert(s.take(i + 1).last() == s[i as int]);
            }
            if hit {
                let f = match id {
                    Some(Identifier::Prefix) => e.1.prefix.clone(),
                    _ => e.0.clone(),
                };
                let ghost before = r@;
                r.push(f);
                proof {
                    assert(lines_view(r@) =~= lines_view(before).push(f@));
                }
            }
            i = i + 1;
        }
        proof {
            assert(s.take(self.entries@.len() as int) =~= s);
        }
        r
    }

    /// The labelled rows that present the snippet under `key`.
    pub fn show_rows(&self, key: &str) -> (r: Result<Vec<(String, String)>, SnipError>)
        requires
            self.wf(),
        ensures
            match r {
                Ok(rows) => self@.contains_key(key@) && rows_view(rows@) == show_rows_spec(
                    key@,
                    self@[key@],
                ),
                Err(e) => !self@.contains_key(key@) && e@ == SnipErrorView::NotFound(key@),
            },
    {
        let k = String::from_str(key);
        match self.find(&k) {
            None => Err(SnipError::NotFound(k)),
            Some(i) => {
                proof {
                    lemma_map_of_at(self.entry_seq(), i as int);
                }
                let sn = &self.entries[i].1;
                let mut rows: Vec<(String, String)> = Vec::new();
                rows.push((String::from_str("Key"), k));
                rows.push((String::from_str("Prefix"), sn.prefix.clone()));
                rows.push((String::from_str("Description"), sn.description.clone()));
                rows.push((String::from_str("Body"), join_with_newlines(&sn.body)));
                proof {
                    assert(rows_view(rows@) =~= show_rows_spec(key@, self@[key@]));
                }
                Ok(rows)
            },
        }
    }
}

} // verus!
