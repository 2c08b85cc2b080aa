use ring_wallet::cache::{HeightRange, MemoryBlockCache};

fn held(heights: &[u64]) -> MemoryBlockCache<String> {
    let mut cache = MemoryBlockCache::new();
    cache.insert(heights.iter().map(|h| (*h, format!("block {h}"))).collect());
    cache
}

fn names(blocks: Vec<&String>) -> Vec<String> {
    blocks.into_iter().cloned().collect()
}

#[test]
fn a_new_cache_holds_nothing() {
    let cache: MemoryBlockCache<String> = MemoryBlockCache::new();
    assert_eq!(cache.get_tip_height(None), None);
    assert!(cache.with_blocks(None, None).is_empty());
    assert!(cache.read(&HeightRange { start: 0, end: u32::MAX }).is_empty());
}

#[test]
fn blocks_come_back_in_height_order() {
    let cache = held(&[7, 5, 6]);
    assert_eq!(names(cache.with_blocks(None, None)), ["block 5", "block 6", "block 7"]);
    assert_eq!(
        names(cache.read(&HeightRange { start: 6, end: 8 })),
        ["block 6", "block 7"]
    );
}

#[test]
fn a_scan_stops_at_the_first_gap() {
    let cache = held(&[5, 6, 8, 9]);
    assert_eq!(names(cache.with_blocks(Some(5), None)), ["block 5", "block 6"]);
    assert_eq!(names(cache.with_blocks(Some(7), None)), ["block 8", "block 9"]);
    assert!(cache.with_blocks(Some(10), None).is_empty());
}

#[test]
fn a_limit_counts_from_where_the_scan_was_to_begin() {
    let cache = held(&[5, 6, 7, 8]);
    assert_eq!(names(cache.with_blocks(Some(5), Some(2))), ["block 5", "block 6"]);
    // From three, the block at five is the third.
    assert_eq!(names(cache.with_blocks(Some(3), Some(3))), ["block 5"]);
    assert_eq!(names(cache.with_blocks(Some(3), Some(4))), ["block 5", "block 6"]);
    // The limit is looked at after a block is handed over.
    assert_eq!(names(cache.with_blocks(Some(5), Some(0))), ["block 5"]);
}

#[test]
fn a_scan_of_the_highest_height_is_told_beforehand() {
    let cache = held(&[u64::from(u32::MAX) - 1, u64::from(u32::MAX)]);
    assert!(!cache.stays_below_top(None, None));
    assert!(!cache.stays_below_top(Some(u32::MAX), None));
    assert!(cache.stays_below_top(Some(u32::MAX - 1), Some(1)));
    assert!(held(&[1, 2]).stays_below_top(None, None));
    assert!(held(&[]).stays_below_top(None, None));
}

#[test]
fn a_block_delivered_twice_replaces_itself() {
    let mut cache = held(&[5, 6]);
    cache.insert(vec![(6, "first".to_string()), (6, "second".to_string())]);
    assert_eq!(names(cache.with_blocks(None, None)), ["block 5", "second"]);
}

#[test]
fn a_height_is_kept_by_its_low_half() {
    let mut cache: MemoryBlockCache<u8> = MemoryBlockCache::new();
    cache.insert(vec![(0x1_0000_0003, 9)]);
    assert_eq!(cache.get_tip_height(None), Some(3));
}

#[test]
fn the_tip_is_the_highest_block_in_the_range() {
    let cache = held(&[5, 6, 9]);
    assert_eq!(cache.get_tip_height(None), Some(9));
    assert_eq!(cache.get_tip_height(Some(HeightRange { start: 0, end: 9 })), Some(6));
    assert_eq!(cache.get_tip_height(Some(HeightRange { start: 7, end: 9 })), None);
}

#[test]
fn deleting_forgets_the_range_and_nothing_else() {
    let mut cache = held(&[4, 5, 6, 7]);
    cache.delete(HeightRange { start: 5, end: 7 });
    let everything = HeightRange { start: 0, end: 100 };
    assert_eq!(names(cache.read(&everything)), ["block 4", "block 7"]);
}
