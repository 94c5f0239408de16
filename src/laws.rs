//! Properties of the filter's abstract state that hold across operations.
use vstd::prelude::*;
use crate::counter_bloom_filter::{
    decremented, incremented, lemma_decremented_len, lemma_incremented_len,
    lemma_incremented_nonzero, slot_of, FilterView,
};
use crate::counter_store::{counter_at, counters_of, lemma_counter_zero};

verus! {

/// How many of the first `n` hashes of `data` pick slot `p`.
pub open spec fn occurrences(data: Seq<u8>, size: nat, n: nat, p: int) -> nat
    decreases n,
{
    if n == 0 {
        0
    } else {
        occurrences(data, size, (n - 1) as nat, p) + if slot_of(data, n - 1, size) == p {
            1nat
        } else {
            0nat
        }
    }
}

/// A slot that some hash picks, counted at most once per hash.
proof fn lemma_occurrences(data: Seq<u8>, size: nat, n: nat, p: int)
    ensures
        occurrences(data, size, n, p) <= n,
        occurrences(data, size, n, p) > 0 ==> exists|j: int|
            0 <= j < n && #[trigger] slot_of(data, j, size) == p,
    decreases n,
{
    if n > 0 {
        lemma_occurrences(data, size, (n - 1) as nat, p);
    }
}

/// Incrementing adds the number of hits to a counter, capped at the maximum.
proof fn lemma_incremented_count(c: Seq<u32>, data: Seq<u8>, n: nat, p: int)
    requires
        c.len() > 0,
        0 <= p < c.len(),
    ensures
        incremented(c, data, n)[p] == if c[p] + occurrences(data, c.len(), n, p) >= u32::MAX {
            u32::MAX as int
        } else {
            c[p] + occurrences(data, c.len(), n, p)
        },
    decreases n,
{
    if n > 0 {
        lemma_incremented_count(c, data, (n - 1) as nat, p);
        lemma_incremented_len(c, data, (n - 1) as nat);
    }
}

/// Decrementing subtracts the number of hits from a counter, stopping at zero.
proof fn lemma_decremented_count(c: Seq<u32>, data: Seq<u8>, n: nat, p: int)
    requires
        c.len() > 0,
        0 <= p < c.len(),
    ensures
        decremented(c, data, n)[p] == if c[p] <= occurrences(data, c.len(), n, p) {
            0
        } else {
            c[p] - occurrences(data, c.len(), n, p)
        },
    decreases n,
{
    if n > 0 {
        lemma_decremented_count(c, data, (n - 1) as nat, p);
        lemma_decremented_len(c, data, (n - 1) as nat);
    }
}

/// Inserting keeps a well-formed state well-formed.
pub proof fn lemma_inserted_wf(v: FilterView, data: Seq<u8>)
    requires
        v.wf(),
    ensures
        v.inserted(data).wf(),
        v.inserted(data).size() == v.size(),
{
    lemma_incremented_len(v.counters, data, v.hash_count);
}

/// No false negatives: right after `data` is inserted, it is reported present.
pub proof fn law_no_false_negatives(v: FilterView, data: Seq<u8>)
    requires
        v.wf(),
    ensures
        v.inserted(data).contains(data),
{
    lemma_incremented_nonzero(v.counters, data, v.hash_count);
    lemma_incremented_len(v.counters, data, v.hash_count);
}

/// Inserting one item never makes another item, reported present before,
/// reported absent.
pub proof fn law_insert_keeps_members(v: FilterView, x: Seq<u8>, y: Seq<u8>)
    requires
        v.wf(),
        v.contains(x),
    ensures
        v.inserted(y).contains(x),
{
    lemma_incremented_nonzero(v.counters, y, v.hash_count);
    lemma_incremented_len(v.counters, y, v.hash_count);
    let w = v.inserted(y);
    assert forall|i: int| 0 <= i < w.hash_count implies w.bits[#[trigger] slot_of(x, i, w.size())] by {
        assert(v.bits[slot_of(x, i, v.size())]);
    }
}

/// Removal undoes a sole insertion: when no counter of the slots of `data` is
/// in use, inserting and then removing `data` gives back the same state, in
/// which `data` is reported absent.
pub proof fn law_remove_after_sole_insert(v: FilterView, data: Seq<u8>)
    requires
        v.wf(),
        0 < v.hash_count <= u32::MAX,
        forall|i: int| 0 <= i < v.hash_count ==> v.counters[#[trigger] slot_of(data, i, v.size())] == 0,
    ensures
        v.inserted(data).removed(data) == v,
        !v.inserted(data).removed(data).contains(data),
{
    let n = v.hash_count;
    let size = v.size();
    let w = v.inserted(data);
    law_no_false_negatives(v, data);
    lemma_inserted_wf(v, data);
    let c = decremented(w.counters, data, n);
    lemma_decremented_len(w.counters, data, n);
    assert forall|p: int| 0 <= p < size implies #[trigger] c[p] == v.counters[p] by {
        lemma_occurrences(data, size, n, p);
        lemma_incremented_count(v.counters, data, n, p);
        lemma_decremented_count(w.counters, data, n, p);
        if occurrences(data, size, n, p) > 0 {
            let j = choose|j: int| 0 <= j < n && #[trigger] slot_of(data, j, size) == p;
            assert(v.counters[slot_of(data, j, size)] == 0);
        }
    }
    assert(c =~= v.counters);
    assert(w.removed(data) == v);
    assert(!v.bits[slot_of(data, 0, size)]);
}

/// Counters saturate: one at the maximum stays there when an item is
/// inserted, and one at zero stays there when an item is removed.
pub proof fn law_saturation(v: FilterView, data: Seq<u8>, p: int)
    requires
        v.wf(),
        0 <= p < v.size(),
    ensures
        v.counters[p] == u32::MAX ==> v.inserted(data).counters[p] == u32::MAX,
        v.counters[p] == 0 ==> v.removed(data).counters[p] == 0,
{
    lemma_incremented_count(v.counters, data, v.hash_count, p);
    lemma_decremented_count(v.counters, data, v.hash_count, p);
}

/// The state after inserting `items` in order.
pub open spec fn inserted_all(v: FilterView, items: Seq<Seq<u8>>) -> FilterView
    decreases items.len(),
{
    if items.len() == 0 {
        v
    } else {
        inserted_all(v, items.drop_last()).inserted(items.last())
    }
}

/// Inserting a sequence of items keeps the state well-formed, and every one
/// of them is then reported present.
pub proof fn lemma_inserted_all(v: FilterView, items: Seq<Seq<u8>>)
    requires
        v.wf(),
    ensures
        inserted_all(v, items).wf(),
        inserted_all(v, items).size() == v.size(),
        inserted_all(v, items).hash_count == v.hash_count,
        inserted_all(v, items).little_endian == v.little_endian,
        forall|j: int| 0 <= j < items.len() ==> #[trigger] inserted_all(v, items).contains(items[j]),
    decreases items.len(),
{
    if items.len() > 0 {
        let rest = items.drop_last();
        lemma_inserted_all(v, rest);
        let u = inserted_all(v, rest);
        lemma_inserted_wf(u, items.last());
        law_no_false_negatives(u, items.last());
        assert forall|j: int| 0 <= j < items.len() implies #[trigger] inserted_all(v, items).contains(items[j]) by {
            if j < items.len() - 1 {
                assert(u.contains(rest[j]));
                law_insert_keeps_members(u, items[j], items.last());
            }
        }
    }
}

/// Persistence round trip: insert `items`, close the filter leaving `bytes`
/// in its store, and open it again with the same size and hash count. Whatever
/// byte order the reopened filter reads the store in, its bitmap is the one
/// before closing and every inserted item is reported present; read in the
/// same byte order, its counters are the same too.
pub proof fn law_persistence_round_trip(
    v: FilterView,
    items: Seq<Seq<u8>>,
    bytes: Seq<u8>,
    little: bool,
)
    requires
        v.wf(),
        bytes.len() == 4 * v.size(),
        counters_of(bytes, v.size(), v.little_endian) == inserted_all(v, items).counters,
    ensures
        ({
            let w = inserted_all(v, items);
            let r = FilterView::reopened(bytes, v.size(), v.hash_count, little);
            &&& r.bits == w.bits
            &&& little == v.little_endian ==> r == w
            &&& forall|j: int| 0 <= j < items.len() ==> #[trigger] r.contains(items[j])
        }),
{
    lemma_inserted_all(v, items);
    let w = inserted_all(v, items);
    let r = FilterView::reopened(bytes, v.size(), v.hash_count, little);
    assert forall|i: int| 0 <= i < v.size() implies #[trigger] r.bits[i] == w.bits[i] by {
        lemma_counter_zero(bytes[4 * i], bytes[4 * i + 1], bytes[4 * i + 2], bytes[4 * i + 3]);
        assert(w.counters[i] == counter_at(bytes, i, v.little_endian));
    }
    assert(r.bits =~= w.bits);
    assert forall|j: int| 0 <= j < items.len() implies #[trigger] r.contains(items[j]) by {
        assert(w.contains(items[j]));
    }
}

} // verus!
