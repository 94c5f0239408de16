//! The persistent counter store: a memory-mapped byte region holding one
//! 4-byte unsigned counter per slot, in the machine's native byte order.
use vstd::prelude::*;
use memmap2::MmapMut;
use crate::mmh3::le_word;

verus! {

#[verifier::external_type_specification]
#[verifier::external_body]
pub struct ExMmapMut(memmap2::MmapMut);

#[verifier::external_type_specification]
#[verifier::external_body]
pub struct ExIoError(std::io::Error);

/// The bytes that a mapped region holds, in order.
pub uninterp spec fn mapped_bytes(m: MmapMut) -> Seq<u8>;

/// Relies on `MmapMut` dereferencing to the mapped bytes (`[u8]::len`).
#[verifier::external_body]
pub(crate) fn mapped_len(m: &MmapMut) -> (r: usize)
    ensures
        r == mapped_bytes(*m).len(),
{
    m.len()
}

/// Relies on `MmapMut` dereferencing to the mapped bytes (indexing `[u8]`).
#[verifier::external_body]
pub(crate) fn mapped_byte(m: &MmapMut, i: usize) -> (r: u8)
    requires
        i < mapped_bytes(*m).len(),
    ensures
        r == mapped_bytes(*m)[i as int],
{
    m[i]
}

/// Relies on `MmapMut` dereferencing mutably to the mapped bytes: writing one
/// byte changes that byte alone.
#[verifier::external_body]
pub(crate) fn set_mapped_byte(m: &mut MmapMut, i: usize, v: u8)
    requires
        i < mapped_bytes(*old(m)).len(),
    ensures
        mapped_bytes(*final(m)) == mapped_bytes(*old(m)).update(i as int, v),
{
    m[i] = v;
}

/// Relies on `MmapMut::flush_async`: it starts writing the region back to its
/// file and leaves the mapped bytes as they are.
#[verifier::external_body]
pub(crate) fn flush_mapped(m: &MmapMut) -> (r: Result<(), std::io::Error>) {
    m.flush_async()
}

/// Relies on `u32::to_ne_bytes`: the memory representation of `v` in native
/// byte order, which is either little- or big-endian.
#[verifier::external_body]
pub(crate) fn native_bytes(v: u32) -> (r: [u8; 4])
    ensures
        r@ == counter_bytes(v, true) || r@ == counter_bytes(v, false),
{
    v.to_ne_bytes()
}

/// The four bytes of `v`, least significant first when `little`, else most
/// significant first.
pub open spec fn counter_bytes(v: u32, little: bool) -> Seq<u8> {
    if little {
        seq![v as u8, (v >> 8u32) as u8, (v >> 16u32) as u8, (v >> 24u32) as u8]
    } else {
        seq![(v >> 24u32) as u8, (v >> 16u32) as u8, (v >> 8u32) as u8, v as u8]
    }
}

/// The counter held by the four bytes `b0..b3`, in the given byte order.
pub open spec fn counter_value(b0: u8, b1: u8, b2: u8, b3: u8, little: bool) -> u32 {
    if little {
        le_word(b0, b1, b2, b3)
    } else {
        le_word(b3, b2, b1, b0)
    }
}

/// Counter `i` of a store.
pub open spec fn counter_at(bytes: Seq<u8>, i: int, little: bool) -> u32 {
    counter_value(bytes[4 * i], bytes[4 * i + 1], bytes[4 * i + 2], bytes[4 * i + 3], little)
}

/// The first `size` counters of a store.
pub open spec fn counters_of(bytes: Seq<u8>, size: nat, little: bool) -> Seq<u32> {
    Seq::new(size, |i: int| counter_at(bytes, i, little))
}

/// Decoding the encoding of a counter gives it back.
pub proof fn lemma_counter_round_trip(v: u32, little: bool)
    ensures
        ({
            let b = counter_bytes(v, little);
            counter_value(b[0], b[1], b[2], b[3], little) == v
        }),
{
    let b0 = v as u8;
    let b1 = (v >> 8u32) as u8;
    let b2 = (v >> 16u32) as u8;
    let b3 = (v >> 24u32) as u8;
    assert(le_word(b0, b1, b2, b3) == v) by (bit_vector)
        requires
            b0 == v as u8,
            b1 == (v >> 8u32) as u8,
            b2 == (v >> 16u32) as u8,
            b3 == (v >> 24u32) as u8,
    ;
}

/// A counter is zero exactly when its four bytes are, in either byte order.
pub proof fn lemma_counter_zero(b0: u8, b1: u8, b2: u8, b3: u8)
    by (bit_vector)
    ensures
        (le_word(b0, b1, b2, b3) == 0) == (b0 == 0 && b1 == 0 && b2 == 0 && b3 == 0),
        (le_word(b3, b2, b1, b0) == 0) == (b0 == 0 && b1 == 0 && b2 == 0 && b3 == 0),
{
}

/// Reads counter `index` of the store.
pub(crate) fn read_counter(m: &MmapMut, index: usize, little: bool) -> (r: u32)
    requires
        4 * index + 4 <= mapped_bytes(*m).len() <= usize::MAX,
    ensures
        r == counter_at(mapped_bytes(*m), index as int, little),
{
    let s = 4 * index;
    let b0 = mapped_byte(m, s);
    let b1 = mapped_byte(m, s + 1);
    let b2 = mapped_byte(m, s + 2);
    let b3 = mapped_byte(m, s + 3);
    if little {
        crate::mmh3::word(b0, b1, b2, b3)
    } else {
        crate::mmh3::word(b3, b2, b1, b0)
    }
}

/// Overwrites counter `index` of the store with `value`, in place.
pub(crate) fn write_counter(m: &mut MmapMut, index: usize, value: u32, little: bool)
    requires
        4 * index + 4 <= mapped_bytes(*old(m)).len() <= usize::MAX,
    ensures
        mapped_bytes(*final(m)).len() == mapped_bytes(*old(m)).len(),
        forall|j: int|
            #![trigger counter_at(mapped_bytes(*final(m)), j, little)]
            0 <= j && 4 * j + 4 <= mapped_bytes(*old(m)).len() ==> counter_at(mapped_bytes(*final(m)), j, little)
                == if j == index {
                value
            } else {
                counter_at(mapped_bytes(*old(m)), j, little)
            },
{
    let s = 4 * index;
    let (b0, b1, b2, b3) = if little {
        (
            #[verifier::truncate] (value as u8),
            #[verifier::truncate] ((value >> 8) as u8),
            #[verifier::truncate] ((value >> 16) as u8),
            #[verifier::truncate] ((value >> 24) as u8),
        )
    } else {
        (
            #[verifier::truncate] ((value >> 24) as u8),
            #[verifier::truncate] ((value >> 16) as u8),
            #[verifier::truncate] ((value >> 8) as u8),
            #[verifier::truncate] (value as u8),
        )
    };
    set_mapped_byte(m, s, b0);
    set_mapped_byte(m, s + 1, b1);
    set_mapped_byte(m, s + 2, b2);
    set_mapped_byte(m, s + 3, b3);
    proof {
        lemma_counter_round_trip(value, little);
        let b = counter_bytes(value, little);
        assert(b[0] == b0 && b[1] == b1 && b[2] == b2 && b[3] == b3);
    }
}

} // verus!
