use bootloader::addr::{align_down_frame, align_up_frame, p4_index, slot_base_address};
use bootloader::level_4_entries::UsedLevel4Entries;

#[test]
fn scenario_tracker_exhaustion() {
    // Freshly constructed, only slot 0 is reserved: exactly 511 claims
    // succeed and the next one fails.
    let mut tracker = UsedLevel4Entries::new();
    for expected in 1u16..512 {
        assert_eq!(tracker.get_free_entry(), Some(expected));
    }
    assert_eq!(tracker.get_free_entry(), None);
    assert_eq!(tracker.get_free_entry(), None);
}

#[test]
fn claimed_slot_is_never_returned_again() {
    let mut tracker = UsedLevel4Entries::new();
    let mut seen = vec![false; 512];
    for _ in 0..511 {
        let idx = tracker.get_free_entry().unwrap() as usize;
        assert!(!seen[idx], "slot returned twice");
        seen[idx] = true;
    }
}

#[test]
fn successive_addresses_lie_in_distinct_spans() {
    let mut tracker = UsedLevel4Entries::new();
    let first = tracker.get_free_address(0x1000, 16).unwrap();
    let second = tracker.get_free_address(0x1000, 16).unwrap();
    assert_eq!(first, 0x80_0000_0000);
    assert_eq!(second, 0x100_0000_0000);
    // The 512 GiB spans of the two slots do not overlap.
    assert!(first + 0x80_0000_0000 <= second);
}

#[test]
fn free_address_is_aligned() {
    for alignment in [1u64, 2, 8, 16, 4096, 1 << 21, 1 << 30] {
        let mut tracker = UsedLevel4Entries::new();
        let addr = tracker.get_free_address(0x42, alignment).unwrap();
        assert_eq!(addr % alignment, 0);
    }
}

#[test]
fn mark_range_reserves_touched_slots() {
    let mut tracker = UsedLevel4Entries::new();
    // Mark the ranges of slots 1 and 2.
    tracker.mark_range_as_used(0x80_0000_0000, 2 * 0x80_0000_0000);
    assert_eq!(tracker.get_free_entry(), Some(3));
}

#[test]
fn mark_range_single_byte_marks_one_slot() {
    let mut tracker = UsedLevel4Entries::new();
    tracker.mark_range_as_used(0x80_0000_0000, 1);
    assert_eq!(tracker.get_free_entry(), Some(2));
}

#[test]
fn upper_half_slot_base_is_canonical() {
    let mut tracker = UsedLevel4Entries::new();
    // Reserve slots 1..=255; the next claim reaches the upper half.
    tracker.mark_range_as_used(0x80_0000_0000, 255 * 0x80_0000_0000);
    let addr = tracker.get_free_address(0x1000, 4096).unwrap();
    assert_eq!(addr, 0xffff_8000_0000_0000);
}

#[test]
fn mark_p4_index_reserves_exactly_that_slot() {
    let mut tracker = UsedLevel4Entries::new();
    tracker.mark_p4_index_as_used(1);
    tracker.mark_p4_index_as_used(3);
    assert_eq!(tracker.get_free_entry(), Some(2));
    assert_eq!(tracker.get_free_entry(), Some(4));
}

#[test]
fn page_arithmetic_concrete_values() {
    assert_eq!(align_down_frame(0x1234), 0x1000);
    assert_eq!(align_down_frame(0x1000), 0x1000);
    assert_eq!(align_up_frame(0x1234), Some(0x2000));
    assert_eq!(align_up_frame(0x2000), Some(0x2000));
    assert_eq!(align_up_frame(0xffff_ffff_ffff_f001), None);
    assert_eq!(p4_index(0), 0);
    assert_eq!(p4_index(0x80_0000_0000), 1);
    assert_eq!(p4_index(0xffff_8000_0000_0000), 256);
    assert_eq!(slot_base_address(0), 0);
    assert_eq!(slot_base_address(1), 0x80_0000_0000);
    assert_eq!(slot_base_address(255), 255 * 0x80_0000_0000);
    assert_eq!(slot_base_address(256), 0xffff_8000_0000_0000);
    assert_eq!(slot_base_address(511), 0xffff_ff80_0000_0000);
}
