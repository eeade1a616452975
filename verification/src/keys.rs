//! Keys and other texts as plain sequences of characters.

use vstd::prelude::*;

verus! {

/// The texts of a list of strings, one for one.
pub open spec fn key_views(keys: Seq<String>) -> Seq<Seq<char>> {
    keys.map_values(|k: String| k@)
}

/// The texts of the entries that are present, in their order; the absent
/// entries leave no trace.
pub open spec fn present_texts(entries: Seq<Option<String>>) -> Seq<Seq<char>>
    decreases entries.len(),
{
    if entries.len() == 0 {
        Seq::empty()
    } else {
        let before = present_texts(entries.drop_last());
        match entries.last() {
            Some(text) => before.push(text@),
            None => before,
        }
    }
}

/// The texts of a list with one more string behind it.
pub proof fn lemma_key_views_push(keys: Seq<String>, k: String)
    ensures
        key_views(keys.push(k)) == key_views(keys).push(k@),
{
    assert(key_views(keys.push(k)) =~= key_views(keys).push(k@));
}

/// The texts of two lists, one behind the other.
pub proof fn lemma_key_views_concat(a: Seq<String>, b: Seq<String>)
    ensures
        key_views(a + b) == key_views(a) + key_views(b),
{
    assert(key_views(a + b) =~= key_views(a) + key_views(b));
}

/// Keeps the entries that are present, in their order.
pub fn present(entries: Vec<Option<String>>) -> (out: Vec<String>)
    ensures
        key_views(out@) == present_texts(entries@),
{
    let mut out: Vec<String> = Vec::new();
    let ghost all = entries@;
    assert(key_views(out@) =~= Seq::<Seq<char>>::empty());
    for entry in it: entries
        invariant
            it.seq() == all,
            key_views(out@) == present_texts(all.take(it.index() as int)),
    {
        assert(all.take(it.index() + 1).drop_last() =~= all.take(it.index() as int));
        if let Some(text) = entry {
            assert(key_views(out@.push(text)) =~= key_views(out@).push(text@));
            out.push(text);
        }
    }
    assert(all.take(all.len() as int) =~= all);
    out
}

} // verus!
