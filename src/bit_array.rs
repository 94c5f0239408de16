//! A fixed-size array of bits, packed eight to a byte.
use vstd::prelude::*;
use crate::error::FilterError;

verus! {

/// Whether bit `j` of `byte` is set.
pub open spec fn bit_of(byte: u8, j: int) -> bool {
    byte & (1u8 << (j as u8)) != 0
}

/// Setting or clearing bit `j` of a byte leaves the other seven bits alone.
proof fn lemma_byte_bits(x: u8, j: u8, m: u8)
    by (bit_vector)
    requires
        j < 8,
        m < 8,
    ensures
        ((x | (1u8 << j)) & (1u8 << m) != 0) == (m == j || x & (1u8 << m) != 0),
        ((x & !(1u8 << j)) & (1u8 << m) != 0) == (m != j && x & (1u8 << m) != 0),
{
}

/// A bitmap of `size` bits, all clear at construction.
pub struct BitArray {
    bits: Vec<u8>,
    size: usize,
}

impl View for BitArray {
    type V = Seq<bool>;

    /// Bit `i` is bit `i % 8` of byte `i / 8`.
    closed spec fn view(&self) -> Seq<bool> {
        Seq::new(self.size as nat, |i: int| bit_of(self.bits@[i / 8], i % 8))
    }
}

impl BitArray {
    /// The storage holds exactly `ceil(size / 8)` bytes.
    pub closed spec fn wf(&self) -> bool {
        self.bits@.len() == (self.size as int + 7) / 8
    }

    /// A bitmap of `size` bits, all clear.
    pub fn new(size: usize) -> (r: Self)
        ensures
            r.wf(),
            r@ == Seq::new(size as nat, |i: int| false),
    {
        let n: usize = size / 8 + if size % 8 == 0 { 0 } else { 1 };
        let mut bits: Vec<u8> = Vec::with_capacity(n);
        while bits.len() < n
            invariant
                bits@.len() <= n,
                forall|k: int| 0 <= k < bits@.len() ==> bits@[k] == 0,
            decreases n - bits@.len(),
        {
            bits.push(0);
        }
        let r = BitArray { bits, size };
        assert forall|i: int| 0 <= i < size implies !#[trigger] bit_of(r.bits@[i / 8], i % 8) by {
            let j: u8 = (i % 8) as u8;
            assert(0u8 & (1u8 << j) == 0) by (bit_vector);
        }
        assert(r@ =~= Seq::new(size as nat, |i: int| false));
        r
    }

    /// The number of bits.
    pub fn size(&self) -> (r: usize)
        ensures
            r == self@.len(),
    {
        self.size
    }

    /// Sets bit `index`; fails, changing nothing, when `index` is out of range.
    pub fn set(&mut self, index: usize) -> (r: Result<(), FilterError>)
        requires
            old(self).wf(),
        ensures
            final(self).wf(),
            index < old(self)@.len() ==> r is Ok && final(self)@ == old(self)@.update(index as int, true),
            index >= old(self)@.len() ==> r == Err::<(), FilterError>(FilterError::IndexOutOfRange { index, size: old(self)@.len() as usize })
                && final(self)@ == old(self)@,
    {
        if index >= self.size {
            return Err(FilterError::IndexOutOfRange { index, size: self.size });
        }
        let byte_index = index / 8;
        let bit_index = (index % 8) as u8;
        let ghost before = self@;
        let b = self.bits[byte_index] | (1u8 << bit_index);
        self.bits.set(byte_index, b);
        proof {
            assert forall|i: int| 0 <= i < self.size implies #[trigger] self@[i] == before.update(index as int, true)[i] by {
                lemma_byte_bits(old(self).bits@[i / 8], bit_index, (i % 8) as u8);
            }
            assert(self@ =~= before.update(index as int, true));
        }
        Ok(())
    }

    /// Clears bit `index`; fails, changing nothing, when `index` is out of range.
    pub fn set_zero(&mut self, index: usize) -> (r: Result<(), FilterError>)
        requires
            old(self).wf(),
        ensures
            final(self).wf(),
            index < old(self)@.len() ==> r is Ok && final(self)@ == old(self)@.update(index as int, false),
            index >= old(self)@.len() ==> r == Err::<(), FilterError>(FilterError::IndexOutOfRange { index, size: old(self)@.len() as usize })
                && final(self)@ == old(self)@,
    {
        if index >= self.size {
            return Err(FilterError::IndexOutOfRange { index, size: self.size });
        }
        let byte_index = index / 8;
        let bit_index = (index % 8) as u8;
        let ghost before = self@;
        let b = self.bits[byte_index] & !(1u8 << bit_index);
        self.bits.set(byte_index, b);
        proof {
            assert forall|i: int| 0 <= i < self.size implies #[trigger] self@[i] == before.update(index as int, false)[i] by {
                lemma_byte_bits(old(self).bits@[i / 8], bit_index, (i % 8) as u8);
            }
            assert(self@ =~= before.update(index as int, false));
        }
        Ok(())
    }

    /// Reads bit `index`; fails when `index` is out of range.
    pub fn get(&self, index: usize) -> (r: Result<bool, FilterError>)
        requires
            self.wf(),
        ensures
            index < self@.len() ==> r == Ok::<bool, FilterError>(self@[index as int]),
            index >= self@.len() ==> r == Err::<bool, FilterError>(FilterError::IndexOutOfRange { index, size: self@.len() as usize }),
    {
        if index >= self.size {
            return Err(FilterError::IndexOutOfRange { index, size: self.size });
        }
        let byte_index = index / 8;
        let bit_index = (index % 8) as u8;
        Ok((self.bits[byte_index] & (1u8 << bit_index)) != 0)
    }
}

} // verus!
