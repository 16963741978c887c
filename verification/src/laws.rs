//! The store's round-trip laws, stated over the contents of a column
//! family as the operations' contracts describe them.

use vstd::prelude::*;
use crate::json::{JsonV, obj_get_v};
use crate::store::batch_apply;
use crate::table::{Entries, sorted_keys, sorted_insert, sorted_remove, lemma_sorted_insert_lookup,
    lemma_sorted_insert_sorted, lemma_sorted_remove_lookup};

verus! {

/// Writing a document and reading its key back yields that document, and
/// no other key moves.
pub proof fn lemma_put_then_get(contents: Entries, k: Seq<char>, v: JsonV)
    ensures
        obj_get_v(sorted_insert(contents, k, v), k) == Some(v),
        forall|q: Seq<char>|
            q != k ==> obj_get_v(sorted_insert(contents, k, v), q) == obj_get_v(contents, q),
{
    lemma_sorted_insert_lookup(contents, k, v, k);
    assert forall|q: Seq<char>|
        q != k implies obj_get_v(sorted_insert(contents, k, v), q) == obj_get_v(contents, q) by {
        lemma_sorted_insert_lookup(contents, k, v, q);
    }
}

/// Writing a document, deleting its key, then probing it finds nothing;
/// every other key reads as it did before both steps.
pub proof fn lemma_put_delete_then_head(contents: Entries, k: Seq<char>, v: JsonV)
    requires
        sorted_keys(contents),
    ensures
        obj_get_v(sorted_remove(sorted_insert(contents, k, v), k), k) is None,
        forall|q: Seq<char>|
            q != k ==> obj_get_v(sorted_remove(sorted_insert(contents, k, v), k), q) == obj_get_v(
                contents,
                q,
            ),
{
    lemma_sorted_insert_sorted(contents, k, v);
    lemma_sorted_remove_lookup(sorted_insert(contents, k, v), k, k);
    assert forall|q: Seq<char>|
        q != k implies obj_get_v(sorted_remove(sorted_insert(contents, k, v), k), q) == obj_get_v(
        contents,
        q,
    ) by {
        lemma_sorted_remove_lookup(sorted_insert(contents, k, v), k, q);
        lemma_sorted_insert_lookup(contents, k, v, q);
    }
}

/// A batch write is the sequence of its single writes: each further pair
/// of the batch lands as one more insertion on the state the pairs before
/// it built.
pub proof fn lemma_batch_is_sequence_of_puts(
    contents: Entries,
    items: Seq<(Seq<char>, JsonV)>,
    i: int,
)
    requires
        0 <= i < items.len(),
    ensures
        batch_apply(contents, items.take(i + 1)) == sorted_insert(
            batch_apply(contents, items.take(i)),
            items[i].0,
            items[i].1,
        ),
        batch_apply(contents, items.take(0)) == contents,
{
    crate::store::lemma_batch_apply_snoc(contents, items, i);
    assert(items.take(0) =~= Seq::<(Seq<char>, JsonV)>::empty());
}

} // verus!
