use counter_bloom::add;
use counter_bloom::bit_array::BitArray;
use counter_bloom::error::FilterError;
use counter_bloom::mmh3::murmurhash3_32;

#[test]
fn hash_exact_values() {
    assert_eq!(murmurhash3_32(b"", 0), 0xb4f51382);
    assert_eq!(murmurhash3_32(b"a", 0), 0x92a1659f);
    assert_eq!(murmurhash3_32(b"ab", 1), 0xd97f8a47);
    assert_eq!(murmurhash3_32(b"abc", 2), 0x2641bb2f);
    assert_eq!(murmurhash3_32(b"abcd", 3), 0x97e31811);
    assert_eq!(murmurhash3_32(b"hello", 0), 0x12008d31);
    assert_eq!(murmurhash3_32(b"hello", 4), 0xb4361c41);
    assert_eq!(murmurhash3_32(b"world", 1), 0x04c5c993);
}

#[test]
fn hash_is_deterministic() {
    for seed in 0..8 {
        assert_eq!(murmurhash3_32(b"repeatable", seed), murmurhash3_32(b"repeatable", seed));
    }
}

#[test]
fn hash_seed_index_changes_result() {
    assert_ne!(murmurhash3_32(b"hello", 0), murmurhash3_32(b"hello", 1));
}

#[test]
fn bit_array_starts_clear() {
    let bits = BitArray::new(13);
    assert_eq!(bits.size(), 13);
    for i in 0..13 {
        assert_eq!(bits.get(i), Ok(false));
    }
}

#[test]
fn bit_array_set_and_clear() {
    let mut bits = BitArray::new(20);
    assert_eq!(bits.set(0), Ok(()));
    assert_eq!(bits.set(9), Ok(()));
    assert_eq!(bits.set(19), Ok(()));
    for i in 0..20 {
        assert_eq!(bits.get(i), Ok(i == 0 || i == 9 || i == 19));
    }
    assert_eq!(bits.set_zero(9), Ok(()));
    assert_eq!(bits.get(9), Ok(false));
    assert_eq!(bits.get(0), Ok(true));
    assert_eq!(bits.get(19), Ok(true));
}

#[test]
fn bit_array_out_of_range() {
    let mut bits = BitArray::new(8);
    assert_eq!(bits.set(8), Err(FilterError::IndexOutOfRange { index: 8, size: 8 }));
    assert_eq!(bits.set_zero(9), Err(FilterError::IndexOutOfRange { index: 9, size: 8 }));
    assert_eq!(bits.get(100), Err(FilterError::IndexOutOfRange { index: 100, size: 8 }));
    let empty = BitArray::new(0);
    assert_eq!(empty.get(0), Err(FilterError::IndexOutOfRange { index: 0, size: 0 }));
}

#[test]
fn add_sums() {
    assert_eq!(add(2, 2), 4);
}
