//! The scanning allocator's bookkeeping: which patterns it accepts, how many
//! watches it holds, and what it counts when a block is freed.
//!
//! A test binary here cannot install a global allocator, so each freed block
//! is shown to the table the way the allocator's `dealloc` hook shows it.

use quietwire::memtest::{
    block_contains, ScanningAllocator, Watch, WatchError, MAX_PATTERN_LEN, MAX_WATCHES,
};

/// Shows the table a block about to be freed, as the allocator does.
fn free(allocator: &mut ScanningAllocator, block: &[u8]) {
    allocator.inspect(block.len(), &|offset: usize| block[offset]);
}

#[test]
fn watch_bytes_rejects_patterns_that_wiped_memory_could_match() {
    let mut allocator = ScanningAllocator::new();

    for secret in [&[][..], &[0; 8], &[1; MAX_PATTERN_LEN + 1]] {
        assert_eq!(
            allocator.watch_bytes(secret).err(),
            Some(WatchError::InvalidPattern)
        );
    }
}

#[test]
fn watch_bytes_accepts_the_longest_pattern() {
    let mut allocator = ScanningAllocator::new();

    assert!(allocator.watch_bytes(&[1; MAX_PATTERN_LEN]).is_ok());
}

#[test]
fn start_watch_fails_once_every_slot_is_taken() {
    let mut allocator = ScanningAllocator::new();
    let _watches: Vec<Watch> = (1..=MAX_WATCHES)
        .map(|size| allocator.watch_blocks_of_size(size).unwrap())
        .collect();

    assert_eq!(
        allocator.watch_blocks_of_size(0).err(),
        Some(WatchError::Full)
    );
}

#[test]
fn dropping_a_watch_frees_its_slot() {
    let mut allocator = ScanningAllocator::new();
    let watches: Vec<Watch> = (1..=MAX_WATCHES)
        .map(|size| allocator.watch_blocks_of_size(size).unwrap())
        .collect();

    for watch in watches {
        allocator.stop(watch);
    }

    assert!(allocator.watch_blocks_of_size(0).is_ok());
}

#[test]
fn contains_ignores_bytes_past_the_end_of_the_block() {
    let bytes: [u8; 4] = [1, 2, 3, 4];

    assert!(!block_contains(3, &|offset: usize| bytes[offset], &[3, 4]));
}

#[test]
fn reports_a_freed_buffer_still_holding_the_secret() {
    const SECRET: &[u8] = b"memtest control: left behind";
    let mut allocator = ScanningAllocator::new();
    let watch = allocator.watch_bytes(SECRET).unwrap();

    free(&mut allocator, &SECRET.to_vec());

    assert_eq!(watch.unwiped_frees(&allocator), 1);
}

#[test]
fn reports_a_freed_block_of_the_watched_size_that_is_not_zero() {
    const SIZE: usize = 4099;
    let mut allocator = ScanningAllocator::new();
    let watch = allocator.watch_blocks_of_size(SIZE).unwrap();

    free(&mut allocator, &vec![1_u8; SIZE]);

    assert_eq!(watch.unwiped_frees(&allocator), 1);
}

#[test]
fn ignores_freed_blocks_of_other_sizes() {
    const SIZE: usize = 4103;
    let mut allocator = ScanningAllocator::new();
    let watch = allocator.watch_blocks_of_size(SIZE).unwrap();

    free(&mut allocator, &vec![1_u8; SIZE - 1]);
    free(&mut allocator, &vec![1_u8; SIZE + 1]);

    assert_eq!(watch.unwiped_frees(&allocator), 0);
}

#[test]
fn ignores_a_buffer_wiped_before_it_is_freed() {
    const SECRET: &[u8] = b"memtest control: wiped";
    let mut allocator = ScanningAllocator::new();
    let watch = allocator.watch_bytes(SECRET).unwrap();

    free(&mut allocator, &vec![0_u8; SECRET.len()]);

    assert_eq!(watch.unwiped_frees(&allocator), 0);
}

#[test]
fn ignores_a_freed_block_of_the_watched_size_that_is_zero() {
    const SIZE: usize = 4101;
    let mut allocator = ScanningAllocator::new();
    let watch = allocator.watch_blocks_of_size(SIZE).unwrap();

    free(&mut allocator, &vec![0_u8; SIZE]);

    assert_eq!(watch.unwiped_frees(&allocator), 0);
}

#[test]
fn a_pattern_is_found_at_either_end_of_a_block_and_nowhere_else() {
    let block: [u8; 6] = [7, 8, 9, 1, 2, 3];
    let read = |offset: usize| block[offset];

    assert!(block_contains(6, &read, &[7, 8]));
    assert!(block_contains(6, &read, &[2, 3]));
    assert!(block_contains(6, &read, &block));
    assert!(!block_contains(6, &read, &[8, 7]));
    assert!(!block_contains(6, &read, &[3, 4]));
    assert!(!block_contains(6, &read, &[7, 8, 9, 1, 2, 3, 4]));
}

#[test]
fn every_active_watch_counts_the_same_freed_block() {
    let mut allocator = ScanningAllocator::new();
    let first = allocator.watch_bytes(&[5, 6]).unwrap();
    let second = allocator.watch_blocks_of_size(4).unwrap();
    let unrelated = allocator.watch_bytes(&[9]).unwrap();

    free(&mut allocator, &[4, 5, 6, 7]);
    free(&mut allocator, &[5, 6]);

    assert_eq!(first.unwiped_frees(&allocator), 2);
    assert_eq!(second.unwiped_frees(&allocator), 1);
    assert_eq!(unrelated.unwiped_frees(&allocator), 0);
}

#[test]
fn a_stopped_watch_counts_nothing_and_its_slot_is_reused() {
    let mut allocator = ScanningAllocator::new();
    let first = allocator.watch_blocks_of_size(1).unwrap();
    let _second = allocator.watch_blocks_of_size(2).unwrap();
    free(&mut allocator, &[1]);
    allocator.stop(first);

    let reused = allocator.watch_blocks_of_size(3).unwrap();

    assert_eq!(reused.unwiped_frees(&allocator), 0);
    free(&mut allocator, &[1, 1, 1]);
    assert_eq!(reused.unwiped_frees(&allocator), 1);
}
