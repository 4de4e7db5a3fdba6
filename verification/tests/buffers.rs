use lob_core::buffers::buffer::Buffer;
use lob_core::buffers::reversed_vec::ReversedVec;
use lob_core::decimals::fixed_decimal::FixedDecimal;
use lob_core::level::Level;

fn lvl(price: i64, size: i64) -> Level {
    Level::new(FixedDecimal::from_int(price), FixedDecimal::from_int(size))
}

#[test]
fn test_reversed_vec_basic_operations() {
    let mut buffer = ReversedVec::<10>::new(true);

    buffer.insert(0, lvl(10, 1));
    buffer.insert(1, lvl(90, 2));
    buffer.insert(2, lvl(80, 3));

    let removed = buffer.remove(1);
    assert_eq!(removed, FixedDecimal::from_int(90));
    assert_eq!(buffer.len, 2);
}

#[test]
fn buffer_sorted_insert_and_find() {
    let mut bids = Buffer::<8>::new(true);
    for (price, at) in [(100, 0), (98, 1), (99, 1)] {
        match bids.find_index(FixedDecimal::from_int(price), true) {
            Ok(_) => panic!("fresh price already present"),
            Err(i) => {
                assert_eq!(i, at);
                bids.insert(i, lvl(price, 1));
            }
        }
    }
    assert_eq!(bids.len, 3);
    assert_eq!(bids.get(0).price, FixedDecimal::from_int(100));
    assert_eq!(bids.get(1).price, FixedDecimal::from_int(99));
    assert_eq!(bids.get(2).price, FixedDecimal::from_int(98));
    assert_eq!(bids.find_index(FixedDecimal::from_int(99), true), Ok(1));
    assert_eq!(bids.find_index(FixedDecimal::from_int(101), true), Err(0));
    assert_eq!(bids.find_index(FixedDecimal::from_int(97), true), Err(3));
    assert_eq!(bids.first(), Some(lvl(100, 1)));
}

#[test]
fn buffer_wide_search_path() {
    // Fill past the width where the wide-window search takes over.
    let mut asks = Buffer::<64>::new(false);
    for k in 0..40i64 {
        let price = FixedDecimal::from_int(100 + k);
        match asks.find_index(price, false) {
            Ok(_) => panic!("fresh price already present"),
            Err(i) => asks.insert(i, lvl(100 + k, 1)),
        }
    }
    assert_eq!(asks.len, 40);
    for k in 0..40i64 {
        assert_eq!(asks.find_index(FixedDecimal::from_int(100 + k), false), Ok(k as usize));
    }
    assert_eq!(asks.find_index(FixedDecimal::from_int(99), false), Err(0));
    assert_eq!(asks.find_index(FixedDecimal::from_int(200), false), Err(40));
    let half = FixedDecimal::new(FixedDecimal::from_int(120).raw_value() + 5_000_000_000_000);
    assert_eq!(asks.find_index(half, false), Err(21));
}

#[test]
fn buffer_modify_and_remove() {
    let mut bids = Buffer::<4>::new(true);
    bids.insert(0, lvl(100, 1));
    bids.insert(1, lvl(99, 1));
    bids.modify(0, FixedDecimal::from_int(5));
    assert_eq!(bids.first(), Some(lvl(100, 5)));
    let removed = bids.remove(0);
    assert_eq!(removed, FixedDecimal::from_int(100));
    assert_eq!(bids.first(), Some(lvl(99, 1)));
    let _ = bids.remove(0);
    assert_eq!(bids.first(), None);
}

#[test]
fn buffer_bulk_insert() {
    let mut asks = ReversedVec::<4>::new(true);
    let levels = [lvl(101, 1), lvl(102, 2), lvl(103, 3), lvl(104, 4), lvl(105, 5)];
    asks.bulk_insert(&levels);
    // Only the capacity's worth is taken.
    assert_eq!(asks.len, 4);
    assert_eq!(asks.first(), Some(lvl(101, 1)));
    assert_eq!(asks.get(3), lvl(104, 4));
}
