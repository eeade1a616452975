//! The order of keys: lexicographic by the bytes of their UTF-8 encoding.

use vstd::prelude::*;
use vstd::relations::*;
use vstd::seq_lib::*;
use vstd::utf8::*;

use crate::keys::key_views;
use crate::sorting::{ranks, sort, Ranked};

verus! {

/// `a` and `b` hold the same bytes at every position below `n`.
pub open spec fn common_prefix(a: Seq<u8>, b: Seq<u8>, n: int) -> bool {
    &&& 0 <= n <= a.len()
    &&& n <= b.len()
    &&& forall|j: int| 0 <= j < n ==> a[j] == b[j]
}

/// `a` comes before `b`, or equals it, when both are read byte by byte: the
/// first position at which they differ decides, and a sequence that is a
/// prefix of the other comes first.
pub open spec fn bytes_le(a: Seq<u8>, b: Seq<u8>) -> bool {
    exists|n: int| #[trigger]
        common_prefix(a, b, n) && (n == a.len() || (n < b.len() && a[n] < b[n]))
}

/// The order of two keys: that of the bytes of their UTF-8 encodings.
pub open spec fn key_le(a: Seq<char>, b: Seq<char>) -> bool {
    bytes_le(encode_utf8(a), encode_utf8(b))
}

/// `key_le` as a relation.
pub open spec fn key_order() -> spec_fn(Seq<char>, Seq<char>) -> bool {
    |a: Seq<char>, b: Seq<char>| key_le(a, b)
}

/// Every pair of an earlier and a later key is in order.
pub open spec fn ascending(keys: Seq<Seq<char>>) -> bool {
    forall|i: int, j: int| 0 <= i < j < keys.len() ==> key_le(#[trigger] keys[i], #[trigger] keys[j])
}

/// Every pair of an earlier and a later key is in reverse order.
pub open spec fn descending(keys: Seq<Seq<char>>) -> bool {
    forall|i: int, j: int| 0 <= i < j < keys.len() ==> key_le(#[trigger] keys[j], #[trigger] keys[i])
}

/// A sequence of bytes does not come after itself.
pub proof fn lemma_bytes_le_reflexive(a: Seq<u8>)
    ensures
        bytes_le(a, a),
{
    assert(common_prefix(a, a, a.len() as int));
}

proof fn lemma_bytes_decide(a: Seq<u8>, b: Seq<u8>, n: int)
    requires
        common_prefix(a, b, n),
    ensures
        bytes_le(a, b) || bytes_le(b, a),
    decreases a.len() - n,
{
    if n == a.len() {
    } else if n == b.len() {
        assert(common_prefix(b, a, n));
    } else if a[n] < b[n] {
    } else if b[n] < a[n] {
        assert(common_prefix(b, a, n));
    } else {
        assert(common_prefix(a, b, n + 1));
        lemma_bytes_decide(a, b, n + 1);
    }
}

/// Of two sequences of bytes, one does not come after the other.
pub proof fn lemma_bytes_le_total(a: Seq<u8>, b: Seq<u8>)
    ensures
        bytes_le(a, b) || bytes_le(b, a),
{
    assert(common_prefix(a, b, 0));
    lemma_bytes_decide(a, b, 0);
}

/// Two sequences of bytes of which neither comes after the other are equal.
pub proof fn lemma_bytes_le_antisymmetric(a: Seq<u8>, b: Seq<u8>)
    requires
        bytes_le(a, b),
        bytes_le(b, a),
    ensures
        a == b,
{
    let n = choose|n: int| #[trigger]
        common_prefix(a, b, n) && (n == a.len() || (n < b.len() && a[n] < b[n]));
    let m = choose|m: int| #[trigger]
        common_prefix(b, a, m) && (m == b.len() || (m < a.len() && b[m] < a[m]));
    assert(n == a.len() && m == b.len());
    assert(a =~= b);
}

/// The order of bytes carries over a middle sequence.
pub proof fn lemma_bytes_le_transitive(a: Seq<u8>, b: Seq<u8>, c: Seq<u8>)
    requires
        bytes_le(a, b),
        bytes_le(b, c),
    ensures
        bytes_le(a, c),
{
    let n = choose|n: int| #[trigger]
        common_prefix(a, b, n) && (n == a.len() || (n < b.len() && a[n] < b[n]));
    let m = choose|m: int| #[trigger]
        common_prefix(b, c, m) && (m == b.len() || (m < c.len() && b[m] < c[m]));
    let k = if n <= m { n } else { m };
    assert(common_prefix(a, c, k));
}

/// The order of keys is a total order: any two keys compare, a key equals
/// itself, only equal keys compare both ways, and the order carries over a
/// middle key.
pub proof fn lemma_key_order_total()
    ensures
        total_ordering(key_order()),
{
    let r = key_order();
    assert forall|x: Seq<char>| #[trigger] r(x, x) by {
        lemma_bytes_le_reflexive(encode_utf8(x));
    }
    assert forall|x: Seq<char>, y: Seq<char>| #[trigger] r(x, y) && #[trigger] r(y, x) implies x
        == y by {
        lemma_bytes_le_antisymmetric(encode_utf8(x), encode_utf8(y));
        encode_utf8_decode_utf8(x);
        encode_utf8_decode_utf8(y);
    }
    assert forall|x: Seq<char>, y: Seq<char>, z: Seq<char>| #[trigger]
        r(x, y) && #[trigger] r(y, z) implies r(x, z) by {
        lemma_bytes_le_transitive(encode_utf8(x), encode_utf8(y), encode_utf8(z));
    }
    assert forall|x: Seq<char>, y: Seq<char>| #[trigger] r(x, y) || #[trigger] r(y, x) by {
        lemma_bytes_le_total(encode_utf8(x), encode_utf8(y));
    }
}

/// Whether key `a` comes before key `b` or equals it.
pub fn key_le_exec(a: &str, b: &str) -> (r: bool)
    ensures
        r == key_le(a@, b@),
{
    let x = a.as_bytes();
    let y = b.as_bytes();
    let mut i: usize = 0;
    while i < x.len() && i < y.len()
        invariant
            x@ == encode_utf8(a@),
            y@ == encode_utf8(b@),
            common_prefix(x@, y@, i as int),
        decreases x.len() - i,
    {
        if x[i] < y[i] {
            return true;
        }
        if x[i] > y[i] {
            proof {
                if bytes_le(x@, y@) {
                    let n = choose|n: int| #[trigger]
                        common_prefix(x@, y@, n) && (n == x@.len() || (n < y@.len() && x@[n]
                            < y@[n]));
                }
            }
            return false;
        }
        i += 1;
    }
    proof {
        if x.len() > y.len() && bytes_le(x@, y@) {
            let n = choose|n: int| #[trigger]
                common_prefix(x@, y@, n) && (n == x@.len() || (n < y@.len() && x@[n] < y@[n]));
            assert(n <= y@.len());
        }
    }
    x.len() <= y.len()
}

/// Two keys of which neither comes after the other are the same key.
pub proof fn lemma_key_le_antisymmetric(a: Seq<char>, b: Seq<char>)
    requires
        key_le(a, b),
        key_le(b, a),
    ensures
        a == b,
{
    lemma_bytes_le_antisymmetric(encode_utf8(a), encode_utf8(b));
    encode_utf8_decode_utf8(a);
    encode_utf8_decode_utf8(b);
}

/// The keys of `keys` in ascending order.
pub open spec fn sorted_keys(keys: Seq<Seq<char>>) -> Seq<Seq<char>> {
    keys.sort_by(key_order())
}

/// The list that a collection hands out: sorted first, where that is asked
/// for, and reversed after that, where that is asked for.
pub open spec fn arranged(keys: Seq<Seq<char>>, sorted: bool, reversed: bool) -> Seq<Seq<char>> {
    let base = if sorted {
        sorted_keys(keys)
    } else {
        keys
    };
    if reversed {
        base.reverse()
    } else {
        base
    }
}

proof fn lemma_ascending_sorted_by(keys: Seq<Seq<char>>)
    ensures
        ascending(keys) <==> sorted_by(keys, key_order()),
{
    let r = key_order();
    if ascending(keys) {
        assert forall|i: int, j: int| 0 <= i < j < keys.len() implies #[trigger] r(
            keys[i],
            keys[j],
        ) by {
            assert(key_le(keys[i], keys[j]));
        }
    }
    if sorted_by(keys, r) {
        assert forall|i: int, j: int| 0 <= i < j < keys.len() implies key_le(
            #[trigger] keys[i],
            #[trigger] keys[j],
        ) by {
            assert(r(keys[i], keys[j]));
        }
    }
}

/// Sorting keeps every key, as often as it occurred, and leaves the keys in
/// ascending order.
pub proof fn lemma_sorted_keys(keys: Seq<Seq<char>>)
    ensures
        ascending(sorted_keys(keys)),
        sorted_keys(keys).to_multiset() == keys.to_multiset(),
        sorted_keys(keys).len() == keys.len(),
{
    lemma_key_order_total();
    keys.lemma_sort_by_ensures(key_order());
    lemma_ascending_sorted_by(sorted_keys(keys));
    to_multiset_len(keys);
    to_multiset_len(sorted_keys(keys));
}

/// Two ascending lists that hold the same keys, each as often as the other
/// does, are the same list.
pub proof fn lemma_ascending_unique(x: Seq<Seq<char>>, y: Seq<Seq<char>>)
    requires
        ascending(x),
        ascending(y),
        x.to_multiset() == y.to_multiset(),
    ensures
        x == y,
{
    lemma_key_order_total();
    lemma_ascending_sorted_by(x);
    lemma_ascending_sorted_by(y);
    lemma_sorted_unique(x, y, key_order());
}

/// Whatever is asked for, the arranged list holds every key of the input as
/// often as the input does: nothing is added, dropped or merged.
pub proof fn lemma_arranged_keeps_every_key(keys: Seq<Seq<char>>, sorted: bool, reversed: bool)
    ensures
        arranged(keys, sorted, reversed).to_multiset() == keys.to_multiset(),
        arranged(keys, sorted, reversed).len() == keys.len(),
        arranged(keys, false, false) == keys,
{
    lemma_sorted_keys(keys);
    keys.lemma_reverse_to_multiset();
    sorted_keys(keys).lemma_reverse_to_multiset();
}

/// Sorted and reversed together give the sorted list back to front, which is
/// in descending order. Where no key occurs twice, no two neighbours of it
/// are equal, so the order is strictly descending.
pub proof fn lemma_sorted_reversed_descending(keys: Seq<Seq<char>>)
    ensures
        arranged(keys, true, true) == sorted_keys(keys).reverse(),
        arranged(keys, true, true) == arranged(keys, true, false).reverse(),
        descending(arranged(keys, true, true)),
        keys.no_duplicates() ==> forall|i: int, j: int|
            0 <= i < j < keys.len() ==> !key_le(
                #[trigger] arranged(keys, true, true)[i],
                #[trigger] arranged(keys, true, true)[j],
            ),
{
    let up = sorted_keys(keys);
    let down = arranged(keys, true, true);
    lemma_sorted_keys(keys);
    assert forall|i: int, j: int| 0 <= i < j < down.len() implies key_le(
        #[trigger] down[j],
        #[trigger] down[i],
    ) by {
        assert(key_le(up[up.len() - 1 - j], up[up.len() - 1 - i]));
    }
    if keys.no_duplicates() {
        keys.lemma_multiset_has_no_duplicates();
        up.lemma_multiset_has_no_duplicates_conv();
        assert forall|i: int, j: int| 0 <= i < j < keys.len() implies !key_le(
            #[trigger] down[i],
            #[trigger] down[j],
        ) by {
            if key_le(down[i], down[j]) {
                lemma_key_le_antisymmetric(down[i], down[j]);
                assert(up[up.len() - 1 - i] == up[up.len() - 1 - j]);
            }
        }
    }
}

impl Ranked for String {
    type Rank = Seq<char>;

    open spec fn rank(&self) -> Seq<char> {
        self@
    }

    open spec fn order() -> spec_fn(Seq<char>, Seq<char>) -> bool {
        key_order()
    }

    proof fn lemma_order_total() {
        lemma_key_order_total();
    }

    fn not_after(&self, other: &Self) -> (first: bool) {
        key_le_exec(self.as_str(), other.as_str())
    }

    fn duplicate(&self) -> (copy: Self) {
        self.clone()
    }
}

/// Sorts keys into ascending order. Equal keys stay as many as they were.
pub fn sort_keys(keys: Vec<String>) -> (out: Vec<String>)
    ensures
        key_views(out@) == sorted_keys(key_views(keys@)),
{
    let out = sort(&keys);
    assert(ranks(out@) =~= key_views(out@));
    assert(ranks(keys@) =~= key_views(keys@));
    out
}

/// Turns a list of keys back to front.
pub fn reverse_keys(keys: Vec<String>) -> (out: Vec<String>)
    ensures
        key_views(out@) == key_views(keys@).reverse(),
{
    let ghost orig = keys@;
    let mut rest = keys;
    let mut out: Vec<String> = Vec::new();
    while rest.len() > 0
        invariant
            rest.len() <= orig.len(),
            rest@ == orig.take(rest.len() as int),
            out.len() == orig.len() - rest.len(),
            forall|t: int| 0 <= t < out.len() ==> out@[t] == orig[orig.len() - 1 - t],
        decreases rest.len(),
    {
        let k = rest.pop();
        if let Some(k) = k {
            out.push(k);
        }
    }
    assert(key_views(out@) =~= key_views(orig).reverse());
    out
}

/// Puts a collected list into the order that was asked for: sorted first,
/// then reversed.
pub fn arrange(keys: Vec<String>, sorted: bool, reversed: bool) -> (out: Vec<String>)
    ensures
        key_views(out@) == arranged(key_views(keys@), sorted, reversed),
{
    let base = if sorted {
        sort_keys(keys)
    } else {
        keys
    };
    if reversed {
        reverse_keys(base)
    } else {
        base
    }
}

} // verus!
