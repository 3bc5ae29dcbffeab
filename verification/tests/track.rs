use transfer_core::hal::{BufferBarrier, ImageSubresourceRange, TextureBarrier, UsageRange};
use transfer_core::resource::{Buffer, LifeGuard, Texture};
use transfer_core::storage::Storage;
use transfer_core::track::{
    BufferTracker, IndexRange, PendingBufferTransition, PendingTextureTransition, ResourceUse,
    TextureSelector, TextureTracker,
};
use transfer_core::types::{
    Extent3d, FormatDescriptor, TextureDescriptor, TextureDimension,
};

fn transition(id: u32, start: u32, end: u32) -> PendingBufferTransition {
    PendingBufferTransition { id, usage: UsageRange { start, end } }
}

fn layers(mip: u32, start: u32, end: u32) -> TextureSelector {
    TextureSelector {
        levels: IndexRange { start: mip, end: mip + 1 },
        layers: IndexRange { start, end },
    }
}

fn layer_transition(id: u32, mip: u32, layer: u32, start: u32, end: u32) -> PendingTextureTransition {
    PendingTextureTransition { id, selector: layers(mip, layer, layer + 1), usage: UsageRange { start, end } }
}

#[test]
fn storage_keeps_what_is_inserted_until_it_is_removed() {
    let mut storage: Storage<u64> = Storage::new();
    assert!(!storage.contains(3));
    storage.insert(3, 30);
    storage.insert(1, 10);
    storage.insert(3, 31);
    assert!(storage.contains(3) && storage.contains(1) && !storage.contains(2));
    assert_eq!(storage.get(3), Some(&31));
    assert_eq!(storage.get(7), None);
    assert_eq!(storage.bound(), 4);
    assert_eq!(storage.remove(3), Some(31));
    assert_eq!(storage.remove(3), None);
    assert_eq!(storage.remove(9), None);
    assert_eq!(storage.get(1), Some(&10));
}

#[test]
fn buffer_tracker_yields_a_transition_where_the_use_changes() {
    let mut tracker = BufferTracker::new();
    assert_eq!(tracker.change_replace(2, 4), vec![transition(2, 0, 4)]);
    assert_eq!(tracker.change_replace(2, 4), vec![]);
    assert_eq!(tracker.change_replace(2, 8), vec![transition(2, 4, 8)]);
    assert_eq!(tracker.states.get(2), Some(&ResourceUse { first: 4, last: 8 }));
    assert_eq!(tracker.used(), vec![2]);
}

#[test]
fn buffer_tracker_looks_the_buffer_up_before_it_changes() {
    let mut buffers = Storage::new();
    buffers.insert(2, Buffer::new(102, 0, 16));
    let mut tracker = BufferTracker::new();
    assert_eq!(tracker.use_replace(&buffers, 5, 4).map(|found| found.1), Err(5));
    assert_eq!(tracker.used(), Vec::<u32>::new());
    let (buffer, pending) = tracker.use_replace(&buffers, 2, 4).unwrap();
    assert_eq!(buffer.raw, Some(102));
    assert_eq!(pending, vec![transition(2, 0, 4)]);
    assert_eq!(
        pending[0].into_hal(buffer),
        BufferBarrier { buffer: 102, usage: UsageRange { start: 0, end: 4 } }
    );
}

#[test]
fn merging_buffer_trackers_stitches_last_to_first_use() {
    let mut queue = BufferTracker::new();
    queue.change_replace(1, 8);
    queue.change_replace(2, 4);
    queue.change_replace(4, 2);
    let mut head = BufferTracker::new();
    head.change_replace(1, 4);
    head.change_replace(1, 8);
    head.change_replace(2, 4);
    head.change_replace(3, 8);
    // Buffer 1 changes use, buffer 2 does not, buffer 3 is new to the queue.
    assert_eq!(queue.merge_replace(&head), vec![transition(1, 8, 4)]);
    assert_eq!(queue.states.get(1), Some(&ResourceUse { first: 8, last: 8 }));
    assert_eq!(queue.states.get(2), Some(&ResourceUse { first: 4, last: 4 }));
    assert_eq!(queue.states.get(3), Some(&ResourceUse { first: 8, last: 8 }));
    assert_eq!(queue.states.get(4), Some(&ResourceUse { first: 2, last: 2 }));
    assert_eq!(queue.used(), vec![1, 2, 3, 4]);
}

fn layers_transition(id: u32, mip: u32, first: u32, end: u32, from: u32, to: u32) -> PendingTextureTransition {
    PendingTextureTransition { id, selector: layers(mip, first, end), usage: UsageRange { start: from, end: to } }
}

#[test]
fn texture_tracker_follows_every_sub_resource() {
    let mut tracker = TextureTracker::new();
    // The two layers change use in the same way: one transition will do.
    assert_eq!(tracker.change_replace(0, layers(1, 2, 4), 2), vec![layers_transition(0, 1, 2, 4, 0, 2)]);
    // Layer 3 is in use already; layer 4 is new.
    assert_eq!(
        tracker.change_replace(0, layers(1, 3, 5), 2),
        vec![layer_transition(0, 1, 4, 0, 2)]
    );
    assert_eq!(
        tracker.change_replace(0, layers(1, 2, 3), 1),
        vec![layer_transition(0, 1, 2, 2, 1)]
    );
    // The same layers of another level or texture are other sub-resources.
    assert_eq!(tracker.change_replace(0, layers(0, 2, 3), 1), vec![layer_transition(0, 0, 2, 0, 1)]);
    assert_eq!(tracker.change_replace(5, layers(1, 2, 3), 1), vec![layer_transition(5, 1, 2, 0, 1)]);
    assert_eq!(tracker.change_replace(0, layers(1, 4, 4), 1), vec![]);
    assert_eq!(tracker.used(), vec![0, 5]);
}

#[test]
fn texture_transitions_become_barriers_of_their_sub_resources() {
    let texture = Texture {
        raw: Some(200),
        desc: TextureDescriptor {
            size: Extent3d { width: 4, height: 4, depth_or_array_layers: 8 },
            mip_level_count: 3,
            sample_count: 1,
            dimension: TextureDimension::D2,
            format: FormatDescriptor::describe(wgpu_types::TextureFormat::R8Unorm, true, true),
            usage: 0,
        },
        life_guard: LifeGuard::new(),
    };
    let pending = PendingTextureTransition {
        id: 0,
        selector: TextureSelector {
            levels: IndexRange { start: 1, end: 3 },
            layers: IndexRange { start: 4, end: 4 },
        },
        usage: UsageRange { start: 1, end: 2 },
    };
    assert_eq!(
        pending.into_hal(&texture),
        TextureBarrier {
            texture: 200,
            range: ImageSubresourceRange {
                base_mip_level: 1,
                mip_level_count: Some(2),
                base_array_layer: 4,
                array_layer_count: None,
            },
            usage: UsageRange { start: 1, end: 2 },
        }
    );
}

#[test]
fn transitions_merge_only_where_layers_and_uses_meet() {
    let mut tracker = TextureTracker::new();
    tracker.change_replace(0, layers(0, 1, 2), 1);
    tracker.change_replace(0, layers(0, 3, 4), 1);
    tracker.change_replace(0, layers(1, 0, 1), 2);
    // Layers 0 and 2 come from no use, layers 1 and 3 from another one; the
    // other mip level is a transition of its own.
    assert_eq!(
        tracker.change_replace(0, layers(0, 0, 5), 2),
        vec![
            layers_transition(0, 0, 0, 1, 0, 2),
            layers_transition(0, 0, 1, 2, 1, 2),
            layers_transition(0, 0, 2, 3, 0, 2),
            layers_transition(0, 0, 3, 4, 1, 2),
            layers_transition(0, 0, 4, 5, 0, 2),
        ]
    );
    let both = TextureSelector {
        levels: IndexRange { start: 0, end: 2 },
        layers: IndexRange { start: 0, end: 2 },
    };
    assert_eq!(
        tracker.change_replace(0, both, 4),
        vec![layers_transition(0, 0, 0, 2, 2, 4), layers_transition(0, 1, 0, 1, 2, 4), layers_transition(0, 1, 1, 2, 0, 4)]
    );
}

#[test]
fn merging_texture_trackers_stitches_every_sub_resource() {
    let mut queue = TextureTracker::new();
    queue.change_replace(0, layers(0, 0, 3), 2);
    let mut head = TextureTracker::new();
    head.change_replace(0, layers(0, 1, 4), 1);
    head.change_replace(0, layers(0, 2, 3), 2);
    head.change_replace(7, layers(2, 0, 1), 1);
    assert_eq!(queue.merge_replace(&head), vec![layers_transition(0, 0, 1, 3, 2, 1)]);
    // Stitched again, the queue is where the stream left it.
    let mut again = TextureTracker::new();
    again.change_replace(0, layers(0, 0, 4), 2);
    assert_eq!(
        queue.merge_replace(&again),
        vec![layer_transition(0, 0, 1, 1, 2), layer_transition(0, 0, 3, 1, 2)]
    );
}
