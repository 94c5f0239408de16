use counter_bloom::counter_bloom_filter::CounterBloomFilter;
use counter_bloom::error::FilterError;
use memmap2::MmapMut;

fn fresh(size: usize, hash_count: u32) -> CounterBloomFilter {
    let store = MmapMut::map_anon(size * 4).unwrap();
    CounterBloomFilter::new(size, hash_count, store).unwrap()
}

#[test]
fn test_insert_and_contains() {
    let mut cbf = fresh(1000, 5);

    cbf.insert(b"hello");
    cbf.insert(b"world");

    assert!(cbf.contains(b"hello"));
    assert!(cbf.contains(b"world"));
    assert!(!cbf.contains(b"rust"));
}

#[test]
fn test_remove() {
    let mut cbf = fresh(1000, 5);

    cbf.insert(b"hello");
    cbf.insert(b"world");

    cbf.remove(b"hello");

    assert!(!cbf.contains(b"hello"));
    assert!(cbf.contains(b"world"));
}

#[test]
fn test_false_positive_rate() {
    let num_items = 1000;
    let filter_size = 10_000;
    let num_hash_functions = 5;
    let mut cbf = fresh(filter_size, num_hash_functions);

    for i in 0..num_items {
        cbf.insert(format!("item{}", i).as_bytes());
    }

    let mut false_positives = 0;
    let num_tests = 10_000;

    for i in num_items..num_tests {
        if cbf.contains(format!("item{}", i).as_bytes()) {
            false_positives += 1;
        }
    }

    let false_positive_rate = false_positives as f64 / num_tests as f64;
    println!("False positive rate: {}", false_positive_rate);
    assert!(false_positive_rate < 0.05);
}

#[test]
fn inserted_item_is_found_after_other_inserts() {
    let mut cbf = fresh(50, 3);
    cbf.insert(b"first");
    for i in 0..200 {
        cbf.insert(format!("other{}", i).as_bytes());
    }
    assert!(cbf.contains(b"first"));
}

#[test]
fn empty_item_is_found_after_insert() {
    let mut cbf = fresh(7, 4);
    assert!(!cbf.contains(b""));
    cbf.insert(b"");
    assert!(cbf.contains(b""));
}

#[test]
fn sole_insert_then_remove_restores_zero_counters() {
    let mut cbf = fresh(1000, 5);
    cbf.insert(b"hello");
    // "hello" hashes to slots 33, 717, 224, 892 and 57 in a filter of 1000.
    for slot in [33usize, 717, 224, 892, 57] {
        assert_eq!(cbf.counter(slot), Ok(1));
        assert!(cbf.bitmap().get(slot).unwrap());
    }
    cbf.remove(b"hello");
    assert!(!cbf.contains(b"hello"));
    for i in 0..1000 {
        assert_eq!(cbf.counter(i), Ok(0));
        assert_eq!(cbf.bitmap().get(i), Ok(false));
    }
}

#[test]
fn repeated_insert_counts_up_and_remove_counts_down() {
    let mut cbf = fresh(1000, 5);
    cbf.insert(b"hello");
    cbf.insert(b"hello");
    assert_eq!(cbf.counter(33), Ok(2));
    cbf.remove(b"hello");
    assert_eq!(cbf.counter(33), Ok(1));
    assert!(cbf.contains(b"hello"));
    cbf.remove(b"hello");
    assert!(!cbf.contains(b"hello"));
}

#[test]
fn remove_of_absent_item_changes_nothing() {
    let mut cbf = fresh(1000, 5);
    cbf.insert(b"world");
    cbf.remove(b"hello");
    assert!(cbf.contains(b"world"));
    for slot in [600usize, 59, 736, 977, 898] {
        assert_eq!(cbf.counter(slot), Ok(1));
    }
}

#[test]
fn counters_saturate_at_maximum() {
    let mut store = MmapMut::map_anon(40).unwrap();
    for b in store.iter_mut() {
        *b = 0xff;
    }
    let mut cbf = CounterBloomFilter::new(10, 3, store).unwrap();
    for i in 0..10 {
        assert_eq!(cbf.counter(i), Ok(u32::MAX));
        assert_eq!(cbf.bitmap().get(i), Ok(true));
    }
    cbf.insert(b"abc");
    for i in 0..10 {
        assert_eq!(cbf.counter(i), Ok(u32::MAX));
    }
    let store = cbf.into_store();
    assert!(store.iter().all(|b| *b == 0xff));
}

#[test]
fn counter_one_is_removed_to_zero_not_below() {
    let mut cbf = fresh(1, 3);
    cbf.insert(b"x");
    assert_eq!(cbf.counter(0), Ok(3));
    cbf.remove(b"x");
    assert_eq!(cbf.counter(0), Ok(0));
    cbf.remove(b"x");
    assert_eq!(cbf.counter(0), Ok(0));
    assert!(!cbf.contains(b"x"));
}

#[test]
fn reopen_rebuilds_identical_bitmap() {
    let mut cbf = fresh(300, 4);
    let items: Vec<String> = (0..40).map(|i| format!("key-{}", i)).collect();
    for item in &items {
        cbf.insert(item.as_bytes());
    }
    let bits_before: Vec<bool> = (0..300).map(|i| cbf.bitmap().get(i).unwrap()).collect();
    let counters_before: Vec<u32> = (0..300).map(|i| cbf.counter(i).unwrap()).collect();
    let store = cbf.into_store();

    let reopened = CounterBloomFilter::new(300, 4, store).unwrap();
    let bits_after: Vec<bool> = (0..300).map(|i| reopened.bitmap().get(i).unwrap()).collect();
    let counters_after: Vec<u32> = (0..300).map(|i| reopened.counter(i).unwrap()).collect();
    assert_eq!(bits_before, bits_after);
    assert_eq!(counters_before, counters_after);
    for item in &items {
        assert!(reopened.contains(item.as_bytes()));
    }
}

#[test]
fn store_holds_counters_in_native_byte_order() {
    let mut cbf = fresh(1000, 5);
    cbf.insert(b"hello");
    cbf.insert(b"hello");
    let store = cbf.into_store();
    let b = [store[33 * 4], store[33 * 4 + 1], store[33 * 4 + 2], store[33 * 4 + 3]];
    assert_eq!(u32::from_ne_bytes(b), 2);
    let nonzero = store.iter().filter(|b| **b != 0).count();
    assert_eq!(nonzero, 5);
}

#[test]
fn store_of_wrong_length_is_refused() {
    let store = MmapMut::map_anon(4 * 10 + 1).unwrap();
    assert!(matches!(CounterBloomFilter::new(10, 3, store), Err(FilterError::Storage)));
    let store = MmapMut::map_anon(4 * 9).unwrap();
    assert!(matches!(CounterBloomFilter::new(10, 3, store), Err(FilterError::Storage)));
}

#[test]
fn counter_out_of_range_is_an_error() {
    let cbf = fresh(10, 3);
    assert_eq!(cbf.counter(10), Err(FilterError::IndexOutOfRange { index: 10, size: 10 }));
    assert_eq!(cbf.size(), 10);
    assert_eq!(cbf.hash_count(), 3);
}

#[test]
fn zero_hash_count_reports_everything_present() {
    let mut cbf = fresh(10, 0);
    assert!(cbf.contains(b"anything"));
    cbf.insert(b"anything");
    cbf.remove(b"anything");
    for i in 0..10 {
        assert_eq!(cbf.counter(i), Ok(0));
    }
}

#[test]
fn flush_of_anonymous_store_succeeds() {
    let mut cbf = fresh(16, 2);
    cbf.insert(b"durable");
    assert_eq!(cbf.flush(), Ok(()));
    assert!(cbf.contains(b"durable"));
}
