use transfer_core::memory_init::{
    extend_actions, AddressRange, MemoryInitKind, MemoryInitTracker, MemoryInitTrackerAction,
};
use transfer_core::queue::{QueueSubmitError, RequiredBufferInits};
use transfer_core::resource::Buffer;
use transfer_core::storage::Storage;

fn range(start: u64, end: u64) -> AddressRange {
    AddressRange { start, end }
}

fn fragmented() -> MemoryInitTracker {
    let mut tracker = MemoryInitTracker::new(128);
    tracker.clear(range(16, 32));
    tracker.clear(range(64, 96));
    tracker
}

#[test]
fn new_tracker_has_everything_uninitialized() {
    assert_eq!(MemoryInitTracker::new(64).uninitialized_ranges, vec![range(0, 64)]);
    assert_eq!(MemoryInitTracker::new(0).uninitialized_ranges, vec![]);
}

#[test]
fn clear_takes_ranges_out_and_keeps_the_rest_sorted() {
    let tracker = fragmented();
    assert_eq!(
        tracker.uninitialized_ranges,
        vec![range(0, 16), range(32, 64), range(96, 128)]
    );
}

#[test]
fn check_yields_the_uninitialized_parts_of_a_range() {
    let tracker = fragmented();
    assert_eq!(tracker.check(range(8, 104)), vec![range(8, 16), range(32, 64), range(96, 104)]);
    assert_eq!(tracker.check(range(16, 32)), vec![]);
    assert_eq!(tracker.check(range(0, 128)), tracker.uninitialized_ranges);
    assert_eq!(tracker.check(range(40, 40)), vec![]);
    assert_eq!(tracker.check(range(200, 300)), vec![]);
    // Checking changes nothing.
    assert_eq!(tracker, fragmented());
}

#[test]
fn check_stays_within_the_bytes_asked_for() {
    let tracker = fragmented();
    assert_eq!(tracker.check(range(33, 35)), vec![range(33, 35)]);
    assert_eq!(tracker.check(range(13, 14)), vec![range(13, 14)]);
    assert_eq!(tracker.check(range(0, 3)), vec![range(0, 3)]);
    assert_eq!(tracker.check(range(14, 34)), vec![range(14, 16), range(32, 34)]);
    assert_eq!(tracker.check(range(17, 31)), vec![]);
    assert_eq!(tracker.check(range(9, 5)), vec![]);
}

#[test]
fn drains_are_widened_to_whole_words() {
    let mut drained = fragmented();
    assert_eq!(drained.drain(range(41, 47)), vec![range(40, 48)]);
    assert_eq!(
        drained.uninitialized_ranges,
        vec![range(0, 16), range(32, 40), range(48, 64), range(96, 128)]
    );
    let mut last = MemoryInitTracker::new(0xffff_ffff_ffff_fffc);
    assert_eq!(
        last.drain(range(0xffff_ffff_ffff_fff9, u64::MAX)),
        vec![range(0xffff_ffff_ffff_fff8, 0xffff_ffff_ffff_fffc)]
    );
    assert_eq!(last.uninitialized_ranges, vec![range(0, 0xffff_ffff_ffff_fff8)]);
}

#[test]
fn drain_yields_and_removes() {
    let mut tracker = fragmented();
    assert_eq!(tracker.drain(range(8, 104)), vec![range(8, 16), range(32, 64), range(96, 104)]);
    assert_eq!(tracker.uninitialized_ranges, vec![range(0, 8), range(104, 128)]);
}

#[test]
fn draining_twice_finds_nothing_the_second_time() {
    let mut once = fragmented();
    once.drain(range(8, 104));
    let mut twice = fragmented();
    twice.drain(range(8, 104));
    assert_eq!(twice.drain(range(8, 104)), vec![]);
    assert_eq!(twice, once);
}

#[test]
fn extend_actions_adds_one_action_for_each_range() {
    let mut actions = vec![MemoryInitTrackerAction {
        id: 1,
        range: range(0, 4),
        kind: MemoryInitKind::ImplicitlyInitialized,
    }];
    extend_actions(
        &mut actions,
        &vec![range(8, 16), range(32, 64)],
        7,
        MemoryInitKind::NeedsInitializedMemory,
    );
    assert_eq!(actions.len(), 3);
    assert_eq!(
        actions[2],
        MemoryInitTrackerAction {
            id: 7,
            range: range(32, 64),
            kind: MemoryInitKind::NeedsInitializedMemory,
        }
    );
}

fn action(id: u32, start: u64, end: u64, kind: MemoryInitKind) -> MemoryInitTrackerAction {
    MemoryInitTrackerAction { id, range: range(start, end), kind }
}

#[test]
fn required_inits_gather_what_is_read_and_drop_what_is_written() {
    let mut buffers = Storage::new();
    buffers.insert(0, Buffer::new(100, 0, 64));
    buffers.insert(1, Buffer::new(101, 0, 64));
    let mut inits = RequiredBufferInits::new();
    assert!(inits.is_empty());
    let res = inits.add(
        &vec![
            action(0, 0, 16, MemoryInitKind::NeedsInitializedMemory),
            action(1, 0, 32, MemoryInitKind::ImplicitlyInitialized),
            action(1, 16, 48, MemoryInitKind::NeedsInitializedMemory),
            action(0, 8, 24, MemoryInitKind::NeedsInitializedMemory),
        ],
        &mut buffers,
    );
    assert_eq!(res, Ok(()));
    assert_eq!(inits.buffers, vec![0, 1]);
    assert_eq!(inits.ranges, vec![(0, range(0, 16)), (1, range(32, 48)), (0, range(16, 24))]);
    assert_eq!(
        buffers.get(0).unwrap().initialization_status.uninitialized_ranges,
        vec![range(24, 64)]
    );
    assert_eq!(
        buffers.get(1).unwrap().initialization_status.uninitialized_ranges,
        vec![range(48, 64)]
    );
}

#[test]
fn required_inits_are_the_same_after_the_same_action_twice() {
    let read = action(0, 8, 40, MemoryInitKind::NeedsInitializedMemory);
    let mut once_buffers = Storage::new();
    once_buffers.insert(0, Buffer::new(100, 0, 64));
    let mut once = RequiredBufferInits::new();
    once.add(&vec![read], &mut once_buffers).unwrap();
    let mut twice_buffers = Storage::new();
    twice_buffers.insert(0, Buffer::new(100, 0, 64));
    let mut twice = RequiredBufferInits::new();
    twice.add(&vec![read, read], &mut twice_buffers).unwrap();
    assert_eq!(twice.buffers, once.buffers);
    assert_eq!(twice.ranges, once.ranges);
    assert_eq!(
        twice_buffers.get(0).unwrap().initialization_status,
        once_buffers.get(0).unwrap().initialization_status
    );
}

#[test]
fn required_inits_stop_at_a_missing_buffer() {
    let mut buffers = Storage::new();
    buffers.insert(0, Buffer::new(100, 0, 64));
    let mut inits = RequiredBufferInits::new();
    let res = inits.add(
        &vec![
            action(0, 0, 16, MemoryInitKind::NeedsInitializedMemory),
            action(5, 0, 16, MemoryInitKind::NeedsInitializedMemory),
            action(0, 16, 32, MemoryInitKind::NeedsInitializedMemory),
        ],
        &mut buffers,
    );
    assert_eq!(res, Err(QueueSubmitError::DestroyedBuffer(5)));
    assert_eq!(inits.ranges, vec![(0, range(0, 16))]);
    assert_eq!(
        buffers.get(0).unwrap().initialization_status.uninitialized_ranges,
        vec![range(16, 64)]
    );
}
