//! The counting bloom filter: per-slot saturating counters in a persistent
//! store, and a presence bitmap kept equal to "counter is nonzero".
use vstd::prelude::*;
use memmap2::MmapMut;
use crate::bit_array::BitArray;
use crate::counter_store::{
    counters_of, flush_mapped, mapped_bytes, mapped_len, native_bytes, read_counter, write_counter,
};
use crate::error::FilterError;
use crate::mmh3::{murmur3_spec, murmurhash3_32};

verus! {

/// The slot that hash number `i` of `data` picks in a filter of `size` slots.
pub open spec fn slot_of(data: Seq<u8>, i: int, size: nat) -> int {
    (murmur3_spec(data, i as u32) as nat % size) as int
}

/// A counter incremented once, staying at the maximum once there.
pub open spec fn sat_inc(c: u32) -> u32 {
    if c == u32::MAX {
        c
    } else {
        (c + 1) as u32
    }
}

/// A counter decremented once, staying at zero once there.
pub open spec fn sat_dec(c: u32) -> u32 {
    if c == 0 {
        c
    } else {
        (c - 1) as u32
    }
}

/// The counters after the slots of the first `n` hashes of `data` have been
/// incremented, one after the other.
pub open spec fn incremented(c: Seq<u32>, data: Seq<u8>, n: nat) -> Seq<u32>
    decreases n,
{
    if n == 0 {
        c
    } else {
        let prev = incremented(c, data, (n - 1) as nat);
        let s = slot_of(data, n - 1, c.len());
        prev.update(s, sat_inc(prev[s]))
    }
}

/// The counters after the slots of the first `n` hashes of `data` have been
/// decremented, one after the other.
pub open spec fn decremented(c: Seq<u32>, data: Seq<u8>, n: nat) -> Seq<u32>
    decreases n,
{
    if n == 0 {
        c
    } else {
        let prev = decremented(c, data, (n - 1) as nat);
        let s = slot_of(data, n - 1, c.len());
        prev.update(s, sat_dec(prev[s]))
    }
}

/// The presence bitmap that a counter sequence determines.
pub open spec fn occupied(c: Seq<u32>) -> Seq<bool> {
    Seq::new(c.len(), |i: int| c[i] != 0)
}

/// Incrementing keeps the number of counters.
pub proof fn lemma_incremented_len(c: Seq<u32>, data: Seq<u8>, n: nat)
    requires
        c.len() > 0,
    ensures
        incremented(c, data, n).len() == c.len(),
    decreases n,
{
    if n > 0 {
        lemma_incremented_len(c, data, (n - 1) as nat);
    }
}

/// Decrementing keeps the number of counters.
pub proof fn lemma_decremented_len(c: Seq<u32>, data: Seq<u8>, n: nat)
    requires
        c.len() > 0,
    ensures
        decremented(c, data, n).len() == c.len(),
    decreases n,
{
    if n > 0 {
        lemma_decremented_len(c, data, (n - 1) as nat);
    }
}

/// After incrementing, the slots of the first `n` hashes hold nonzero
/// counters, and so does every slot that held one before.
pub proof fn lemma_incremented_nonzero(c: Seq<u32>, data: Seq<u8>, n: nat)
    requires
        c.len() > 0,
    ensures
        forall|j: int|
            0 <= j < n ==> #[trigger] incremented(c, data, n)[slot_of(data, j, c.len())] != 0,
        forall|p: int| 0 <= p < c.len() && c[p] != 0 ==> #[trigger] incremented(c, data, n)[p] != 0,
    decreases n,
{
    if n > 0 {
        lemma_incremented_nonzero(c, data, (n - 1) as nat);
        lemma_incremented_len(c, data, (n - 1) as nat);
        let prev = incremented(c, data, (n - 1) as nat);
        let s = slot_of(data, n - 1, c.len());
        assert forall|j: int| 0 <= j < n implies #[trigger] incremented(c, data, n)[slot_of(data, j, c.len())] != 0 by {
            if j < n - 1 {
                assert(prev[slot_of(data, j, c.len())] != 0);
            }
        }
        assert forall|p: int| 0 <= p < c.len() && c[p] != 0 implies #[trigger] incremented(c, data, n)[p] != 0 by {
            assert(prev[p] != 0);
        }
    }
}

/// The abstract state of a filter.
pub struct FilterView {
    /// How many hashes locate an item.
    pub hash_count: nat,
    /// The presence bitmap, one bit per slot.
    pub bits: Seq<bool>,
    /// The counters, one per slot.
    pub counters: Seq<u32>,
    /// Whether the store holds counters least significant byte first.
    pub little_endian: bool,
}

impl FilterView {
    /// The number of slots.
    pub open spec fn size(self) -> nat {
        self.counters.len()
    }

    /// At least one slot, and a bit is set exactly where the counter is nonzero.
    pub open spec fn wf(self) -> bool {
        &&& self.size() > 0
        &&& self.bits == occupied(self.counters)
    }

    /// Every slot of `data` has its bit set.
    pub open spec fn contains(self, data: Seq<u8>) -> bool {
        forall|i: int|
            0 <= i < self.hash_count ==> self.bits[#[trigger] slot_of(data, i, self.size())]
    }

    /// The state after `data` is inserted.
    pub open spec fn inserted(self, data: Seq<u8>) -> FilterView {
        let c = incremented(self.counters, data, self.hash_count);
        FilterView { bits: occupied(c), counters: c, ..self }
    }

    /// The state after `data` is removed: its counters are decremented only if
    /// it is reported present.
    pub open spec fn removed(self, data: Seq<u8>) -> FilterView {
        if self.contains(data) {
            let c = decremented(self.counters, data, self.hash_count);
            FilterView { bits: occupied(c), counters: c, ..self }
        } else {
            self
        }
    }

    /// The state of a filter opened on a store holding `bytes`.
    pub open spec fn reopened(bytes: Seq<u8>, size: nat, hash_count: nat, little: bool) -> FilterView {
        let c = counters_of(bytes, size, little);
        FilterView { hash_count, bits: occupied(c), counters: c, little_endian: little }
    }
}

/// A counting bloom filter whose counters live in a memory-mapped store.
pub struct CounterBloomFilter {
    bit_array: BitArray,
    counters: MmapMut,
    size: usize,
    num_hash_functions: u32,
    little_endian: bool,
}

impl View for CounterBloomFilter {
    type V = FilterView;

    closed spec fn view(&self) -> FilterView {
        FilterView {
            hash_count: self.num_hash_functions as nat,
            bits: self.bit_array@,
            counters: counters_of(mapped_bytes(self.counters), self.size as nat, self.little_endian),
            little_endian: self.little_endian,
        }
    }
}

impl CounterBloomFilter {
    /// The store and the bitmap both cover `size` slots.
    closed spec fn store_ok(&self) -> bool {
        &&& self.size > 0
        &&& self.bit_array.wf()
        &&& self.bit_array@.len() == self.size
        &&& mapped_bytes(self.counters).len() == 4 * self.size
        &&& 4 * self.size <= usize::MAX
    }

    /// The store covers every slot and the bitmap agrees with the counters.
    pub closed spec fn wf(&self) -> bool {
        &&& self.store_ok()
        &&& self@.wf()
    }

    /// Opens a filter of `size` slots located by `num_hash_functions` hashes
    /// on a counter store, reading its counters in native byte order and
    /// setting the bit of every slot whose counter is nonzero. Fails with
    /// `Storage` when the store does not hold exactly `size * 4` bytes.
    pub fn new(size: usize, num_hash_functions: u32, counters: MmapMut) -> (r: Result<Self, FilterError>)
        requires
            size > 0,
        ensures
            r is Ok <==> mapped_bytes(counters).len() == 4 * size,
            r is Err ==> r == Err::<Self, FilterError>(FilterError::Storage),
            r is Ok ==> r->Ok_0.wf() && r->Ok_0@ == FilterView::reopened(
                mapped_bytes(counters),
                size as nat,
                num_hash_functions as nat,
                r->Ok_0@.little_endian,
            ),
    {
        let len = mapped_len(&counters);
        if len % 4 != 0 || len / 4 != size {
            return Err(FilterError::Storage);
        }
        let probe = native_bytes(1);
        let little = probe[0] == 1;
        let mut cbf = CounterBloomFilter {
            bit_array: BitArray::new(size),
            counters,
            size,
            num_hash_functions,
            little_endian: little,
        };
        cbf.rebuild_bitarray();
        Ok(cbf)
    }

    /// Inserts `data`: for each of its hashes, increments (saturating) the
    /// counter of its slot and sets the slot's bit if the counter was zero.
    pub fn insert(&mut self, data: &[u8])
        requires
            old(self).wf(),
        ensures
            final(self).wf(),
            final(self)@ == old(self)@.inserted(data@),
            final(self)@.contains(data@),
    {
        let ghost c0 = self@.counters;
        let mut i: u32 = 0;
        while i < self.num_hash_functions
            invariant
                self.wf(),
                i <= self.num_hash_functions,
                self.size == old(self).size,
                self.num_hash_functions == old(self).num_hash_functions,
                self.little_endian == old(self).little_endian,
                c0 == old(self)@.counters,
                self@.counters == incremented(c0, data@, i as nat),
            decreases self.num_hash_functions - i,
        {
            let index = self.hash(data, i);
            let counter = self.get_counter(index);
            let ghost bits0 = self@.bits;
            self.set_counter(index, counter.saturating_add(1));
            if counter == 0 {
                let _ = self.bit_array.set(index);
            }
            proof {
                lemma_incremented_len(c0, data@, i as nat);
                assert(self@.counters == incremented(c0, data@, (i + 1) as nat));
                assert(self@.bits =~= occupied(self@.counters));
            }
            i += 1;
        }
        proof {
            lemma_incremented_nonzero(c0, data@, self.num_hash_functions as nat);
            assert(self@ == old(self)@.inserted(data@));
        }
    }

    /// Whether every slot of `data` has its bit set.
    pub fn contains(&self, data: &[u8]) -> (r: bool)
        requires
            self.wf(),
        ensures
            r == self@.contains(data@),
    {
        let mut i: u32 = 0;
        while i < self.num_hash_functions
            invariant
                self.wf(),
                forall|j: int| 0 <= j < i ==> self@.bits[#[trigger] slot_of(data@, j, self@.size())],
            decreases self.num_hash_functions - i,
        {
            let index = self.hash(data, i);
            match self.bit_array.get(index) {
                Ok(true) => {},
                _ => {
                    return false;
                },
            }
            i += 1;
        }
        true
    }

    /// Removes `data` if it is reported present: for each of its hashes,
    /// decrements (saturating) the counter of its slot and clears the slot's
    /// bit if the counter was one. Otherwise changes nothing.
    pub fn remove(&mut self, data: &[u8])
        requires
            old(self).wf(),
        ensures
            final(self).wf(),
            final(self)@ == old(self)@.removed(data@),
    {
        if self.contains(data) {
            let ghost c0 = self@.counters;
            let mut i: u32 = 0;
            while i < self.num_hash_functions
                invariant
                    self.wf(),
                    i <= self.num_hash_functions,
                    self.size == old(self).size,
                    self.num_hash_functions == old(self).num_hash_functions,
                    self.little_endian == old(self).little_endian,
                    c0 == old(self)@.counters,
                    self@.counters == decremented(c0, data@, i as nat),
                decreases self.num_hash_functions - i,
            {
                let index = self.hash(data, i);
                let counter = self.get_counter(index);
                self.set_counter(index, counter.saturating_sub(1));
                if counter == 1 {
                    let _ = self.bit_array.set_zero(index);
                }
                proof {
                    lemma_decremented_len(c0, data@, i as nat);
                    assert(self@.counters == decremented(c0, data@, (i + 1) as nat));
                    assert(self@.bits =~= occupied(self@.counters));
                }
                i += 1;
            }
            assert(self@ == old(self)@.removed(data@));
        }
    }

    /// Asks for the counter store to be written back to its file, without
    /// waiting for the write to finish. Fails with `Io` when the request fails;
    /// the filter is unchanged either way.
    pub fn flush(&self) -> (r: Result<(), FilterError>)
        ensures
            r is Err ==> r == Err::<(), FilterError>(FilterError::Io),
    {
        match flush_mapped(&self.counters) {
            Ok(()) => Ok(()),
            Err(_) => Err(FilterError::Io),
        }
    }

    /// Closes the filter and hands back its counter store, which holds
    /// `size * 4` bytes encoding the counters.
    pub fn into_store(self) -> (r: MmapMut)
        requires
            self.wf(),
        ensures
            mapped_bytes(r).len() == 4 * self@.size(),
            counters_of(mapped_bytes(r), self@.size(), self@.little_endian) == self@.counters,
    {
        self.counters
    }

    /// The number of slots.
    pub fn size(&self) -> (r: usize)
        requires
            self.wf(),
        ensures
            r == self@.size(),
    {
        self.size
    }

    /// The number of hashes that locate an item.
    pub fn hash_count(&self) -> (r: u32)
        ensures
            r == self@.hash_count,
    {
        self.num_hash_functions
    }

    /// The presence bitmap.
    pub fn bitmap(&self) -> (r: &BitArray)
        requires
            self.wf(),
        ensures
            r.wf(),
            r@ == self@.bits,
    {
        &self.bit_array
    }

    /// Counter `index`; fails when `index` is out of range.
    pub fn counter(&self, index: usize) -> (r: Result<u32, FilterError>)
        requires
            self.wf(),
        ensures
            index < self@.size() ==> r == Ok::<u32, FilterError>(self@.counters[index as int]),
            index >= self@.size() ==> r == Err::<u32, FilterError>(FilterError::IndexOutOfRange { index, size: self@.size() as usize }),
    {
        if index >= self.size {
            return Err(FilterError::IndexOutOfRange { index, size: self.size });
        }
        Ok(self.get_counter(index))
    }

    /// Sets the bit of every slot whose counter is nonzero, on an all-clear bitmap.
    fn rebuild_bitarray(&mut self)
        requires
            old(self).store_ok(),
            old(self).bit_array@ == Seq::new(old(self).size as nat, |i: int| false),
        ensures
            final(self).wf(),
            final(self).counters == old(self).counters,
            final(self).size == old(self).size,
            final(self).num_hash_functions == old(self).num_hash_functions,
            final(self).little_endian == old(self).little_endian,
    {
        let mut index: usize = 0;
        while index < self.size
            invariant
                self.store_ok(),
                index <= self.size,
                self.counters == old(self).counters,
                self.size == old(self).size,
                self.num_hash_functions == old(self).num_hash_functions,
                self.little_endian == old(self).little_endian,
                self.bit_array@ == Seq::new(
                    self.size as nat,
                    |j: int| j < index && self@.counters[j] != 0,
                ),
            decreases self.size - index,
        {
            let counter = self.get_counter(index);
            if counter > 0 {
                let _ = self.bit_array.set(index);
            }
            proof {
                let c = self@.counters;
                assert(self.bit_array@ =~= Seq::new(
                    self.size as nat,
                    |j: int| j < index + 1 && c[j] != 0,
                ));
            }
            index += 1;
        }
        assert(self@.bits =~= occupied(self@.counters));
    }

    /// Counter `index`.
    fn get_counter(&self, index: usize) -> (r: u32)
        requires
            self.store_ok(),
            index < self.size,
        ensures
            r == self@.counters[index as int],
    {
        read_counter(&self.counters, index, self.little_endian)
    }

    /// Overwrites counter `index` with `value`, leaving the bitmap alone.
    fn set_counter(&mut self, index: usize, value: u32)
        requires
            old(self).store_ok(),
            index < old(self).size,
        ensures
            final(self).store_ok(),
            final(self).bit_array == old(self).bit_array,
            final(self).size == old(self).size,
            final(self).num_hash_functions == old(self).num_hash_functions,
            final(self).little_endian == old(self).little_endian,
            final(self)@.counters == old(self)@.counters.update(index as int, value),
    {
        write_counter(&mut self.counters, index, value, self.little_endian);
        assert(self@.counters =~= old(self)@.counters.update(index as int, value));
    }

    /// The slot of hash number `i` of `data`: the hash reduced modulo the size.
    fn hash(&self, data: &[u8], i: u32) -> (r: usize)
        requires
            self.size > 0,
        ensures
            r < self.size,
            r as int == slot_of(data@, i as int, self.size as nat),
    {
        (murmurhash3_32(data, i) as usize) % self.size
    }
}

} // verus!
