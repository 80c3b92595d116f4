use vstd::prelude::*;

use crate::snippet::{SnippetView, SnipErrorView};
use crate::store::{add_spec, edit_spec, edited, prefix_used_by_other, prefixes_unique, remove_spec};
use crate::store::{rename_spec, Collection};

verus! {

/// One mutation of a collection, with its arguments.
pub enum StoreOp {
    Add(Seq<char>, SnippetView),
    Edit(Seq<char>, Option<Seq<char>>, Option<Seq<char>>, Option<Seq<Seq<char>>>),
    Rename(Seq<char>, Seq<char>),
}

pub open spec fn apply_op(m: Collection, op: StoreOp) -> Result<Collection, SnipErrorView> {
    match op {
        StoreOp::Add(k, s) => add_spec(m, k, s),
        StoreOp::Edit(k, p, d, b) => edit_spec(m, k, p, d, b),
        StoreOp::Rename(a, b) => rename_spec(m, a, b),
    }
}

/// The operations applied in turn; the first failure ends the run.
pub open spec fn apply_ops(m: Collection, ops: Seq<StoreOp>) -> Result<Collection, SnipErrorView>
    decreases ops.len(),
{
    if ops.len() == 0 {
        Ok(m)
    } else {
        match apply_ops(m, ops.drop_last()) {
            Ok(m2) => apply_op(m2, ops.last()),
            Err(e) => Err(e),
        }
    }
}

/// A successful add, edit or rename keeps prefixes unique.
pub proof fn lemma_op_keeps_prefixes_unique(m: Collection, op: StoreOp)
    requires
        prefixes_unique(m),
        apply_op(m, op) is Ok,
    ensures
        prefixes_unique(apply_op(m, op)->Ok_0),
{
    let r = apply_op(m, op)->Ok_0;
    match op {
        StoreOp::Add(k, s) => {
            assert forall|a: Seq<char>, b: Seq<char>|
                r.contains_key(a) && r.contains_key(b) && a != b implies r[a].prefix != r[b].prefix by {
                if a == k {
                    assert(!prefix_used_by_other(m, s.prefix, k));
                    assert(m.contains_key(b));
                } else if b == k {
                    assert(!prefix_used_by_other(m, s.prefix, k));
                    assert(m.contains_key(a));
                }
            }
        },
        StoreOp::Edit(k, p, d, b0) => {
            assert forall|a: Seq<char>, b: Seq<char>|
                r.contains_key(a) && r.contains_key(b) && a != b implies r[a].prefix != r[b].prefix by {
                if p is Some {
                    assert(!prefix_used_by_other(m, p->0, k));
                }
                if a == k {
                    assert(r[a] == edited(m[k], p, d, b0));
                } else if b == k {
                    assert(r[b] == edited(m[k], p, d, b0));
                }
            }
        },
        StoreOp::Rename(o, n) => {
            assert forall|a: Seq<char>, b: Seq<char>|
                r.contains_key(a) && r.contains_key(b) && a != b implies r[a].prefix != r[b].prefix by {
                if a == n {
                    assert(r[a] == m[o]);
                    assert(b != o && m.contains_key(b));
                } else if b == n {
                    assert(r[b] == m[o]);
                    assert(a != o && m.contains_key(a));
                }
            }
        },
    }
}

/// Uniqueness: starting from a collection whose prefixes are unique (the
/// empty one included), any run of adds, edits and renames that all
/// succeed ends in a collection where no two keys share a prefix. Keys are
/// unique in every collection, which maps each key to one snippet.
pub proof fn lemma_ops_keep_prefixes_unique(m: Collection, ops: Seq<StoreOp>)
    requires
        prefixes_unique(m),
        apply_ops(m, ops) is Ok,
    ensures
        prefixes_unique(apply_ops(m, ops)->Ok_0),
    decreases ops.len(),
{
    if ops.len() > 0 {
        lemma_ops_keep_prefixes_unique(m, ops.drop_last());
        lemma_op_keeps_prefixes_unique(apply_ops(m, ops.drop_last())->Ok_0, ops.last());
    }
}

/// Removing a key a second time fails with `NotFound`.
pub proof fn lemma_remove_twice_fails(m: Collection, key: Seq<char>)
    requires
        remove_spec(m, key) is Ok,
    ensures
        remove_spec(remove_spec(m, key)->Ok_0, key) == Err::<Collection, SnipErrorView>(
            SnipErrorView::NotFound(key),
        ),
{
}

} // verus!
