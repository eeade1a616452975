//! Cutting a list into chunks, the unit of one bulk operation.

use vstd::prelude::*;

use crate::keys::key_views;

verus! {

/// How many keys one bulk operation carries at most.
pub const CHUNK_SIZE: usize = 1000;

/// The number of chunks of a list of `len` items: `len` divided by the chunk
/// size, rounded up.
pub open spec fn chunk_count(len: nat) -> nat {
    ((len + CHUNK_SIZE - 1) / (CHUNK_SIZE as int)) as nat
}

/// How many items the first `done` chunks of a list of `len` items hold.
pub open spec fn covered(len: nat, done: nat) -> nat {
    if done * CHUNK_SIZE < len {
        (done * CHUNK_SIZE) as nat
    } else {
        len
    }
}

/// The chunk at `index`: the items from where the chunks before it end, up
/// to the chunk size of them. Past the last chunk there is nothing.
pub open spec fn chunk_at<T>(items: Seq<T>, index: int) -> Seq<T> {
    if 0 <= index < chunk_count(items.len()) {
        items.subrange(
            covered(items.len(), index as nat) as int,
            covered(items.len(), (index + 1) as nat) as int,
        )
    } else {
        Seq::empty()
    }
}

/// The chunks of a list, in the order of the list.
pub open spec fn chunks<T>(items: Seq<T>) -> Seq<Seq<T>> {
    Seq::new(chunk_count(items.len()), |index: int| chunk_at(items, index))
}

/// The texts of a list of chunks.
pub open spec fn chunk_views(chunks: Seq<Vec<String>>) -> Seq<Seq<Seq<char>>> {
    chunks.map_values(|chunk: Vec<String>| key_views(chunk@))
}

/// The number of chunks is the least number of full chunks that hold the
/// whole list.
pub proof fn lemma_chunk_count_is_ceiling(len: nat)
    ensures
        chunk_count(len) * CHUNK_SIZE >= len,
        len > 0 ==> (chunk_count(len) - 1) * CHUNK_SIZE < len,
        len == 0 <==> chunk_count(len) == 0,
{
}

/// Every chunk but the last is full, and the last holds what is left: at
/// least one item, at most a full chunk.
pub proof fn lemma_chunk_sizes<T>(items: Seq<T>, index: int)
    requires
        0 <= index < chunk_count(items.len()),
    ensures
        index < chunk_count(items.len()) - 1 ==> chunk_at(items, index).len() == CHUNK_SIZE,
        index == chunk_count(items.len()) - 1 ==> chunk_at(items, index).len() == items.len()
            - index * CHUNK_SIZE,
        1 <= chunk_at(items, index).len() <= CHUNK_SIZE,
{
}

/// A chunk holds items of the list and nothing else.
pub proof fn lemma_chunk_holds_items<T>(items: Seq<T>, index: int)
    ensures
        forall|item: T| chunk_at(items, index).contains(item) ==> items.contains(item),
{
    assert forall|item: T| chunk_at(items, index).contains(item) implies items.contains(item) by {
        let chunk = chunk_at(items, index);
        let at = choose|at: int| 0 <= at < chunk.len() && chunk[at] == item;
        assert(items[covered(items.len(), index as nat) + at] == item);
    }
}

proof fn lemma_chunks_prefix<T>(items: Seq<T>, n: nat)
    requires
        n <= chunk_count(items.len()),
    ensures
        chunks(items).take(n as int).flatten() == items.take(covered(items.len(), n) as int),
    decreases n,
{
    let all = chunks(items);
    if n == 0 {
        assert(all.take(0) =~= Seq::<Seq<T>>::empty());
        assert(items.take(0) =~= Seq::<T>::empty());
    } else {
        let before = all.take(n - 1);
        lemma_chunks_prefix(items, (n - 1) as nat);
        assert(all.take(n as int) =~= before.push(chunk_at(items, n - 1)));
        before.lemma_flatten_push(chunk_at(items, n - 1));
        assert(items.take(covered(items.len(), (n - 1) as nat) as int) + chunk_at(items, n - 1)
            =~= items.take(covered(items.len(), n) as int));
    }
}

/// Chunking loses nothing and invents nothing: there are as many chunks as
/// the length divided by the chunk size, rounded up, and the chunks put one
/// behind the other are the list.
pub proof fn lemma_chunks_rebuild<T>(items: Seq<T>)
    ensures
        chunks(items).len() == chunk_count(items.len()),
        chunks(items).flatten() == items,
{
    let all = chunks(items);
    lemma_chunks_prefix(items, chunk_count(items.len()));
    assert(all.take(all.len() as int) =~= all);
    assert(items.take(items.len() as int) =~= items);
}

/// The number of chunks of a list of `len` keys.
pub fn count_chunks(len: usize) -> (count: usize)
    ensures
        count == chunk_count(len as nat),
{
    if len % CHUNK_SIZE == 0 {
        len / CHUNK_SIZE
    } else {
        len / CHUNK_SIZE + 1
    }
}

/// A copy of the chunk at `index`; empty past the last chunk.
pub fn chunk_of(keys: &Vec<String>, index: usize) -> (chunk: Vec<String>)
    ensures
        key_views(chunk@) == chunk_at(key_views(keys@), index as int),
{
    let mut chunk: Vec<String> = Vec::new();
    if index >= count_chunks(keys.len()) {
        assert(key_views(chunk@) =~= Seq::<Seq<char>>::empty());
        return chunk;
    }
    let start: usize = index * CHUNK_SIZE;
    let end: usize = if keys.len() - start > CHUNK_SIZE {
        start + CHUNK_SIZE
    } else {
        keys.len()
    };
    let mut at: usize = start;
    while at < end
        invariant
            start <= at <= end <= keys.len(),
            chunk@ == keys@.subrange(start as int, at as int),
        decreases end - at,
    {
        chunk.push(keys[at].clone());
        at += 1;
        assert(chunk@ =~= keys@.subrange(start as int, at as int));
    }
    assert(key_views(chunk@) =~= chunk_at(key_views(keys@), index as int));
    chunk
}

/// Copies of all chunks of a list, in the order of the list.
pub fn split_chunks(keys: &Vec<String>) -> (parts: Vec<Vec<String>>)
    ensures
        chunk_views(parts@) == chunks(key_views(keys@)),
{
    let count = count_chunks(keys.len());
    let mut parts: Vec<Vec<String>> = Vec::new();
    let mut index: usize = 0;
    while index < count
        invariant
            index <= count,
            count == chunk_count(keys.len() as nat),
            parts.len() == index,
            forall|i: int|
                0 <= i < index ==> key_views(#[trigger] parts@[i]@) == chunk_at(
                    key_views(keys@),
                    i,
                ),
        decreases count - index,
    {
        parts.push(chunk_of(keys, index));
        index += 1;
    }
    assert(chunk_views(parts@) =~= chunks(key_views(keys@)));
    parts
}

} // verus!
