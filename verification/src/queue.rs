//! The queue of a device: writes of host data into buffers and textures, and
//! the submission of command buffers.

use crate::copy::{check_destination_buffer, destination_buffer_status};
use crate::device::{
    Device, DeviceError, DeviceView, PendingWritesView, StageDescriptor, StagingData,
    TempResource,
};
use crate::command::TrackerSetView;
use crate::hal::{
    buffer_copies, buffer_transitions, BufferBarrier, BufferCopy, Command, UsageRange,
    BUFFER_USES_COPY_DST, BUFFER_USES_COPY_SRC, BUFFER_USES_MAP_WRITE,
};
use crate::hub::{Global, GlobalView};
use crate::outside::{
    buffer_uses_copy_dst, buffer_uses_copy_src, buffer_uses_map_write, copy_buffer_alignment,
};
use crate::resource::LifeGuard;
use crate::track::{buffer_barriers, pending_buffer_replace, push_buffer_barriers, use_replaced};
use crate::transfer::CopySide;
use crate::types::{clamp_u64, BufferAddress, QueueId, RawHandle, COPY_BUFFER_ALIGNMENT};
use crate::memory_init::{
    query_words, range_wf, ranges_wf, remaining, uninitialized_in, AddressRange, MemoryInitKind,
    MemoryInitTrackerAction,
};
use crate::resource::{Buffer, BufferView};
use crate::storage::Storage;
use crate::transfer::TransferError;
use crate::types::{BufferId, TextureId};
use vstd::prelude::*;

verus! {

/// The queue is unknown.
#[derive(Clone, Copy, Debug, PartialEq, Eq)]
pub struct InvalidQueue;

/// Why a buffer cannot be mapped or unmapped.
#[derive(Clone, Copy, Debug, PartialEq, Eq)]
pub enum BufferAccessError {
    Device(DeviceError),
    Invalid,
    Destroyed,
    NotMapped,
}

/// Why a write through the queue failed.
#[derive(Clone, Copy, Debug, PartialEq, Eq)]
pub enum QueueWriteError {
    /// The device is unknown or has failed.
    Queue(DeviceError),
    /// The write breaks a rule of transfers.
    Transfer(TransferError),
}

/// Why a submission failed.
#[derive(Clone, Copy, Debug, PartialEq, Eq)]
pub enum QueueSubmitError {
    /// The device is unknown or has failed.
    Queue(DeviceError),
    /// A buffer that the commands use is destroyed.
    DestroyedBuffer(BufferId),
    /// A buffer that the commands use is mapped, and the user still holds
    /// it.
    StillMapped(BufferId),
    /// A texture that the commands use is destroyed.
    DestroyedTexture(TextureId),
    /// A buffer could not be unmapped.
    Unmap(BufferAccessError),
    /// The output of a swap chain was dropped before the commands that
    /// render to it were submitted.
    SwapChainOutputDropped,
    /// The device does not answer.
    StuckGpu,
}

/// The ranges of buffers that have to be filled with zeros before a
/// submission executes.
#[derive(Debug)]
pub struct RequiredBufferInits {
    /// The buffers with such ranges, in the order in which they came up.
    pub buffers: Vec<BufferId>,
    /// The ranges, each with its buffer, in the order in which they came up.
    pub ranges: Vec<(BufferId, AddressRange)>,
}

/// What is known of the ranges to fill.
#[verifier::ext_equal]
pub struct RequiredBufferInitsView {
    pub buffers: Seq<BufferId>,
    pub ranges: Seq<(BufferId, AddressRange)>,
}

impl View for RequiredBufferInits {
    type V = RequiredBufferInitsView;

    open spec fn view(&self) -> RequiredBufferInitsView {
        RequiredBufferInitsView { buffers: self.buffers@, ranges: self.ranges@ }
    }
}

impl RequiredBufferInitsView {
    /// No buffer is listed twice; and every range is of a buffer that is
    /// listed, is not empty, and starts and ends on a word.
    pub open spec fn wf(self) -> bool {
        &&& self.buffers.no_duplicates()
        &&& forall|i: int|
            0 <= i < self.ranges.len() ==> range_wf((#[trigger] self.ranges[i]).1)
                && self.buffers.contains(self.ranges[i].0)
    }

    /// The ranges once `ranges` of buffer `id` are added.
    pub open spec fn extended(self, id: BufferId, ranges: Seq<AddressRange>) -> Self {
        RequiredBufferInitsView {
            buffers: if self.buffers.contains(id) {
                self.buffers
            } else {
                self.buffers.push(id)
            },
            ranges: self.ranges + ranges.map_values(|range: AddressRange| (id, range)),
        }
    }
}

/// Where the gathering of ranges to fill stands.
#[verifier::ext_equal]
pub struct InitGathering {
    /// The ranges gathered so far.
    pub inits: RequiredBufferInitsView,
    /// The buffers, with the ranges that are still uninitialized.
    pub buffers: Map<u32, BufferView>,
    /// The buffer that was missing, if the gathering stopped for one.
    pub failed: Option<BufferId>,
}

/// The gathering after one more action: the words of the action's range
/// leave the uninitialized ranges of its buffer, and what was uninitialized
/// among them is gathered if the action reads them. Stops where the buffer
/// is not registered.
pub open spec fn gather_step(state: InitGathering, action: MemoryInitTrackerAction) -> InitGathering {
    if !state.buffers.contains_key(action.id) {
        InitGathering { failed: Some(action.id), ..state }
    } else {
        let buffer = state.buffers[action.id];
        let words = query_words(action.range);
        let drained = uninitialized_in(buffer.uninitialized, words.0, words.1);
        let buffers = state.buffers.insert(
            action.id,
            BufferView {
                uninitialized: remaining(buffer.uninitialized, words.0, words.1),
                ..buffer
            },
        );
        match action.kind {
            MemoryInitKind::ImplicitlyInitialized => InitGathering { buffers, ..state },
            MemoryInitKind::NeedsInitializedMemory => InitGathering {
                buffers,
                inits: state.inits.extended(action.id, drained),
                ..state
            },
        }
    }
}

/// The gathering after `actions`, in their order, up to the first one whose
/// buffer is missing.
pub open spec fn gathered(state: InitGathering, actions: Seq<MemoryInitTrackerAction>) -> InitGathering
    decreases actions.len(),
{
    if actions.len() == 0 {
        state
    } else {
        let before = gathered(state, actions.drop_last());
        if before.failed is Some {
            before
        } else {
            gather_step(before, actions.last())
        }
    }
}

/// An action that needs initialized memory, applied a second time over the
/// same range, changes neither the uninitialized ranges of its buffer nor the
/// ranges gathered for filling.
pub proof fn lemma_needs_initialized_twice(state: InitGathering, action: MemoryInitTrackerAction)
    requires
        state.failed is None,
        state.buffers.contains_key(action.id),
        state.buffers[action.id].wf(),
        action.kind == MemoryInitKind::NeedsInitializedMemory,
    ensures
        gather_step(gather_step(state, action), action) == gather_step(state, action),
{
    let once = gather_step(state, action);
    let twice = gather_step(once, action);
    crate::memory_init::lemma_drain_idempotent(state.buffers[action.id].uninitialized, action.range);
    let words = query_words(action.range);
    let drained = uninitialized_in(once.buffers[action.id].uninitialized, words.0, words.1);
    assert(drained =~= Seq::empty());
    assert(once.inits.buffers.contains(action.id)) by {
        if state.inits.buffers.contains(action.id) {
        } else {
            assert(once.inits.buffers[once.inits.buffers.len() - 1] == action.id);
        }
    }
    assert(once.inits.extended(action.id, drained).ranges =~= once.inits.ranges);
    assert(twice.buffers =~= once.buffers);
    assert(twice.inits =~= once.inits);
    assert(twice =~= once);
}

/// Whether `id` is among `ids`.
fn contains_id(ids: &Vec<BufferId>, id: BufferId) -> (found: bool)
    ensures
        found == ids@.contains(id),
{
    let mut i: usize = 0;
    while i < ids.len()
        invariant
            i <= ids.len(),
            forall|j: int| 0 <= j < i ==> ids@[j] != id,
        decreases ids.len() - i,
    {
        if ids[i] == id {
            return true;
        }
        i += 1;
    }
    false
}

impl RequiredBufferInits {
    /// No range to fill.
    pub fn new() -> (inits: Self)
        ensures
            inits@ == (RequiredBufferInitsView { buffers: Seq::empty(), ranges: Seq::empty() }),
            inits@.wf(),
    {
        RequiredBufferInits { buffers: Vec::new(), ranges: Vec::new() }
    }

    /// Whether there is no buffer with ranges to fill.
    pub fn is_empty(&self) -> (empty: bool)
        ensures
            empty == (self@.buffers.len() == 0),
    {
        self.buffers.len() == 0
    }

    /// Adds `ranges` of buffer `id`.
    fn extend(&mut self, id: BufferId, ranges: &Vec<AddressRange>)
        requires
            old(self)@.wf(),
            ranges_wf(ranges@),
        ensures
            final(self)@ == old(self)@.extended(id, ranges@),
            final(self)@.wf(),
    {
        if !contains_id(&self.buffers, id) {
            self.buffers.push(id);
        }
        let ghost listed = self.buffers@;
        assert(listed.no_duplicates()) by {
            if !old(self)@.buffers.contains(id) {
                assert forall|i: int, j: int|
                    0 <= i < listed.len() && 0 <= j < listed.len() && i != j implies listed[i]
                    != listed[j] by {
                    if i < old(self)@.buffers.len() {
                        assert(old(self)@.buffers.contains(listed[i]));
                    }
                    if j < old(self)@.buffers.len() {
                        assert(old(self)@.buffers.contains(listed[j]));
                    }
                }
            }
        }
        assert(listed.contains(id)) by {
            if old(self)@.buffers.contains(id) {
            } else {
                assert(listed[listed.len() - 1] == id);
            }
        }
        assert forall|other: u32| old(self)@.buffers.contains(other) implies listed.contains(
            other,
        ) by {
            let j = choose|j: int| 0 <= j < old(self)@.buffers.len() && old(self)@.buffers[j] == other;
            assert(listed[j] == other);
        }
        let mut i: usize = 0;
        assert(self.ranges@ =~= old(self)@.ranges + ranges@.take(0).map_values(
            |range: AddressRange| (id, range),
        ));
        while i < ranges.len()
            invariant
                i <= ranges.len(),
                ranges_wf(ranges@),
                self.buffers@ == listed,
                listed.contains(id),
                self.ranges@ == old(self)@.ranges + ranges@.take(i as int).map_values(
                    |range: AddressRange| (id, range),
                ),
                forall|j: int|
                    0 <= j < self.ranges@.len() ==> range_wf((#[trigger] self.ranges@[j]).1)
                        && listed.contains(self.ranges@[j].0),
            decreases ranges.len() - i,
        {
            assert(range_wf(ranges@[i as int]));
            self.ranges.push((id, ranges[i]));
            i += 1;
            assert(self.ranges@ =~= old(self)@.ranges + ranges@.take(i as int).map_values(
                |range: AddressRange| (id, range),
            ));
        }
        assert(ranges@.take(i as int) =~= ranges@);
    }

    /// Takes the ranges of `buffer_memory_init_actions` out of the
    /// uninitialized ranges of their buffers, and gathers those that an
    /// action reads. Stops at the first action whose buffer is not
    /// registered, and fails with that buffer.
    pub fn add(
        &mut self,
        buffer_memory_init_actions: &Vec<MemoryInitTrackerAction>,
        buffer_guard: &mut Storage<Buffer>,
    ) -> (res: Result<(), QueueSubmitError>)
        requires
            old(self)@.wf(),
            forall|id: u32| #[trigger]
                old(buffer_guard)@.contains_key(id) ==> old(buffer_guard)@[id]@.wf(),
        ensures
            ({
                let end = gathered(
                    InitGathering {
                        inits: old(self)@,
                        buffers: old(buffer_guard).deep(),
                        failed: None,
                    },
                    buffer_memory_init_actions@,
                );
                &&& final(self)@ == end.inits
                &&& final(buffer_guard).deep() == end.buffers
                &&& res == match end.failed {
                    Some(id) => Err::<(), QueueSubmitError>(QueueSubmitError::DestroyedBuffer(id)),
                    None => Ok::<(), QueueSubmitError>(()),
                }
            }),
            final(self)@.wf(),
            forall|id: u32| #[trigger]
                final(buffer_guard)@.contains_key(id) ==> final(buffer_guard)@[id]@.wf(),
    {
        let ghost start = InitGathering {
            inits: old(self)@,
            buffers: old(buffer_guard).deep(),
            failed: None,
        };
        let mut i: usize = 0;
        assert(buffer_memory_init_actions@.take(0) =~= Seq::empty());
        while i < buffer_memory_init_actions.len()
            invariant
                i <= buffer_memory_init_actions.len(),
                self@.wf(),
                start == (InitGathering {
                    inits: old(self)@,
                    buffers: old(buffer_guard).deep(),
                    failed: None,
                }),
                forall|id: u32| #[trigger]
                    buffer_guard@.contains_key(id) ==> buffer_guard@[id]@.wf(),
                gathered(start, buffer_memory_init_actions@.take(i as int)) == (InitGathering {
                    inits: self@,
                    buffers: buffer_guard.deep(),
                    failed: None,
                }),
            decreases buffer_memory_init_actions.len() - i,
        {
            let buffer_use = buffer_memory_init_actions[i];
            proof {
                let upto = buffer_memory_init_actions@.take(i as int + 1);
                assert(upto.drop_last() =~= buffer_memory_init_actions@.take(i as int));
                assert(upto.last() == buffer_use);
            }
            let ghost before = buffer_guard.deep();
            let mut buffer = match buffer_guard.remove(buffer_use.id) {
                Some(buffer) => buffer,
                None => {
                    proof {
                        let upto = buffer_memory_init_actions@.take(i as int + 1);
                        assert(buffer_guard.deep() =~= before);
                        assert(!before.contains_key(buffer_use.id));
                        let stopped = InitGathering {
                            inits: self@,
                            buffers: before,
                            failed: Some(buffer_use.id),
                        };
                        assert(gathered(start, upto) == stopped);
                        assert(upto =~= buffer_memory_init_actions@.take(upto.len() as int));
                        lemma_gathered_stops(start, upto, buffer_memory_init_actions@);
                    }
                    return Err(QueueSubmitError::DestroyedBuffer(buffer_use.id));
                },
            };
            let uninitialized_ranges = buffer.initialization_status.drain(buffer_use.range);
            proof {
                let words = query_words(buffer_use.range);
                lemma_uninitialized_in_wf(
                    before[buffer_use.id].uninitialized,
                    words.0,
                    words.1,
                );
            }
            match buffer_use.kind {
                MemoryInitKind::ImplicitlyInitialized => {},
                MemoryInitKind::NeedsInitializedMemory => {
                    self.extend(buffer_use.id, &uninitialized_ranges);
                },
            }
            let ghost after = buffer@;
            buffer_guard.insert(buffer_use.id, buffer);
            i += 1;
            proof {
                assert(buffer_guard.deep() =~= before.insert(buffer_use.id, after));
                assert(gathered(start, buffer_memory_init_actions@.take(i as int))
                    =~= (InitGathering {
                    inits: self@,
                    buffers: buffer_guard.deep(),
                    failed: None,
                }));
            }
        }
        assert(buffer_memory_init_actions@.take(i as int) =~= buffer_memory_init_actions@);
        Ok(())
    }
}

/// Once the gathering has stopped for a missing buffer, further actions
/// change nothing.
proof fn lemma_gathered_stops(
    start: InitGathering,
    upto: Seq<MemoryInitTrackerAction>,
    actions: Seq<MemoryInitTrackerAction>,
)
    requires
        upto.len() <= actions.len(),
        upto == actions.take(upto.len() as int),
        gathered(start, upto).failed is Some,
    ensures
        gathered(start, actions) == gathered(start, upto),
    decreases actions.len(),
{
    if upto.len() < actions.len() {
        assert(actions.drop_last().take(upto.len() as int) =~= upto);
        lemma_gathered_stops(start, upto, actions.drop_last());
    } else {
        assert(actions.take(upto.len() as int) =~= actions);
    }
}

/// The end of the last of `ranges`, if there is one.
pub open spec fn upper_end(ranges: Seq<AddressRange>) -> int {
    if ranges.len() == 0 {
        0
    } else {
        ranges.last().end as int
    }
}

/// The parts of well-formed ranges between two word bounds are well-formed,
/// and end no later than the ranges do.
pub proof fn lemma_uninitialized_in_wf(ranges: Seq<AddressRange>, lo: int, hi: int)
    requires
        ranges_wf(ranges),
        lo % 4 == 0,
        hi % 4 == 0,
        0 <= lo <= u64::MAX,
        0 <= hi,
    ensures
        ranges_wf(uninitialized_in(ranges, lo, hi)),
        forall|i: int|
            0 <= i < uninitialized_in(ranges, lo, hi).len() ==> (#[trigger] uninitialized_in(
                ranges,
                lo,
                hi,
            )[i]).end <= upper_end(ranges),
    decreases ranges.len(),
{
    if ranges.len() > 0 {
        let front = ranges.drop_last();
        assert(ranges_wf(front));
        lemma_uninitialized_in_wf(front, lo, hi);
        let before = uninitialized_in(front, lo, hi);
        let all = uninitialized_in(ranges, lo, hi);
        assert(range_wf(ranges[ranges.len() - 1]));
        if front.len() > 0 {
            assert(ranges[front.len() - 1].end <= ranges[ranges.len() - 1].start);
            assert(front.last() == ranges[front.len() - 1]);
        }
        assert forall|i: int| 0 <= i < all.len() implies (#[trigger] all[i]).end <= upper_end(
            ranges,
        ) by {
            if i < before.len() {
                assert(all[i] == before[i]);
            }
        }
        assert forall|i: int| 0 <= i < all.len() implies range_wf(#[trigger] all[i]) by {
            if i < before.len() {
                assert(all[i] == before[i]);
            }
        }
        assert forall|i: int, k: int| 0 <= i < k < all.len() implies (#[trigger] all[i]).end <= (
        #[trigger] all[k]).start by {
            assert(all[i] == before[i]);
            if k < before.len() {
                assert(all[k] == before[k]);
            }
        }
    }
}

/// The barrier that takes a staging buffer from being written by the host
/// to being the source of a copy.
pub open spec fn staging_barrier(stage: StagingData) -> BufferBarrier {
    BufferBarrier {
        buffer: stage.buffer,
        usage: UsageRange { start: BUFFER_USES_MAP_WRITE, end: BUFFER_USES_COPY_SRC },
    }
}

/// What a write of `data_size` bytes into a buffer answers: that the device
/// is unknown; success for a write of no bytes; else that the staging failed,
/// the first rule of the write that is broken, or success.
pub open spec fn write_buffer_result(
    global: GlobalView,
    queue_id: QueueId,
    buffer_id: BufferId,
    buffer_offset: BufferAddress,
    data_size: BufferAddress,
    stage: Result<StagingData, DeviceError>,
) -> Result<(), QueueWriteError> {
    if !global.devices.contains_key(queue_id) {
        Err(QueueWriteError::Queue(DeviceError::Invalid))
    } else if data_size == 0 {
        Ok(())
    } else if stage is Err {
        Err(QueueWriteError::Queue(stage->Err_0))
    } else if destination_buffer_status(global.buffers, buffer_id) is Err {
        Err(QueueWriteError::Transfer(destination_buffer_status(global.buffers, buffer_id)->Err_0))
    } else if data_size % COPY_BUFFER_ALIGNMENT != 0 {
        Err(QueueWriteError::Transfer(TransferError::UnalignedCopySize(data_size)))
    } else if buffer_offset % COPY_BUFFER_ALIGNMENT != 0 {
        Err(QueueWriteError::Transfer(TransferError::UnalignedBufferOffset(buffer_offset)))
    } else if buffer_offset + data_size > global.buffers[buffer_id].size {
        Err(
            QueueWriteError::Transfer(
                TransferError::BufferOverrun {
                    start_offset: buffer_offset,
                    end_offset: clamp_u64(buffer_offset + data_size),
                    buffer_size: global.buffers[buffer_id].size,
                    side: CopySide::Destination,
                },
            ),
        )
    } else {
        Ok(())
    }
}

/// A device once its pending writes have recorded the copy of `data_size`
/// staged bytes into a buffer: the buffer is put to its use, the staging
/// buffer is kept until the next submission, and the buffer counts as
/// written.
pub open spec fn write_buffer_recorded(
    device: DeviceView,
    buffer: BufferView,
    buffer_id: BufferId,
    buffer_offset: BufferAddress,
    data_size: BufferAddress,
    stage: StagingData,
) -> DeviceView {
    let uses = device.trackers.buffers;
    let destination_raw = buffer.raw.unwrap();
    let writes = device.pending_writes.activated().recorded(
        buffer_transitions(
            seq![staging_barrier(stage)] + buffer_barriers(
                pending_buffer_replace(uses, buffer_id, BUFFER_USES_COPY_DST),
                destination_raw,
            ),
        ) + buffer_copies(
            stage.buffer,
            destination_raw,
            seq![BufferCopy { src_offset: 0, dst_offset: buffer_offset, size: data_size }],
        ),
    );
    DeviceView {
        trackers: TrackerSetView {
            buffers: uses.insert(buffer_id, use_replaced(uses, buffer_id, BUFFER_USES_COPY_DST)),
            ..device.trackers
        },
        pending_writes: PendingWritesView {
            temp_resources: writes.temp_resources.push(TempResource::Buffer(stage.buffer)),
            dst_buffers: writes.dst_buffers.insert(buffer_id),
            ..writes
        },
        ..device
    }
}

/// A buffer once the bytes from `buffer_offset` on have been written for the
/// submission after `submission_index`: that submission is the last to use
/// it, and the words written are initialized.
pub open spec fn buffer_written(
    buffer: BufferView,
    buffer_offset: BufferAddress,
    data_size: BufferAddress,
    submission_index: u64,
) -> BufferView {
    let words = query_words(
        AddressRange { start: buffer_offset, end: (buffer_offset + data_size) as u64 },
    );
    BufferView {
        life_guard: LifeGuard {
            submission_index: (submission_index + 1) as u64,
            ..buffer.life_guard
        },
        uninitialized: remaining(buffer.uninitialized, words.0, words.1),
        ..buffer
    }
}

/// The registries once device `queue_id`, which is registered, has traced a
/// write of `data` into a buffer.
pub open spec fn write_buffer_traced(
    global: GlobalView,
    queue_id: QueueId,
    buffer_id: BufferId,
    buffer_offset: BufferAddress,
    data: Seq<u8>,
) -> GlobalView {
    GlobalView {
        devices: global.devices.insert(
            queue_id,
            global.devices[queue_id].write_buffer_traced(buffer_id, buffer_offset, data),
        ),
        ..global
    }
}

/// The registries after a write into a buffer. A device that is registered
/// traces the write, whatever comes of it; beyond that they change only
/// where the write succeeds and has bytes.
pub open spec fn write_buffer_state(
    global: GlobalView,
    queue_id: QueueId,
    buffer_id: BufferId,
    buffer_offset: BufferAddress,
    data: Seq<u8>,
    stage: Result<StagingData, DeviceError>,
) -> GlobalView {
    let data_size = data.len() as u64;
    let traced = write_buffer_traced(global, queue_id, buffer_id, buffer_offset, data);
    if !global.devices.contains_key(queue_id) {
        global
    } else if data_size != 0 && write_buffer_result(
        global,
        queue_id,
        buffer_id,
        buffer_offset,
        data_size,
        stage,
    ) is Ok {
        GlobalView {
            devices: global.devices.insert(
                queue_id,
                write_buffer_recorded(
                    traced.devices[queue_id],
                    global.buffers[buffer_id],
                    buffer_id,
                    buffer_offset,
                    data_size,
                    stage.unwrap(),
                ),
            ),
            buffers: global.buffers.insert(
                buffer_id,
                buffer_written(
                    global.buffers[buffer_id],
                    buffer_offset,
                    data_size,
                    global.devices[queue_id].active_submission_index,
                ),
            ),
            ..global
        }
    } else {
        traced
    }
}

impl Global {
    /// Whether device `queue_id`, if it is registered, can number one more
    /// submission.
    pub open spec fn can_submit(&self, queue_id: QueueId) -> bool {
        self.devices@.contains_key(queue_id) ==> self.devices@[queue_id].active_submission_index
            < u64::MAX
    }

    /// The staging buffer that a write of `data_size` bytes into a buffer
    /// needs; none where device `queue_id` is not registered or the write
    /// has no bytes, as the write then ends before it stages.
    pub fn queue_write_buffer_stage(&self, queue_id: QueueId, data_size: BufferAddress) -> (stage:
        Option<StageDescriptor>)
        ensures
            stage == if self@.devices.contains_key(queue_id) && data_size != 0 {
                Some(
                    StageDescriptor {
                        size: data_size,
                        usage: BUFFER_USES_MAP_WRITE | BUFFER_USES_COPY_SRC,
                        transient: true,
                    },
                )
            } else {
                None::<StageDescriptor>
            },
    {
        match self.devices.get(queue_id) {
            Some(device) => if data_size != 0 {
                Some(device.prepare_stage(data_size))
            } else {
                None
            },
            None => None,
        }
    }

    /// Records, in the pending writes of device `queue_id`, the copy of
    /// `data` into buffer `buffer_id` at `buffer_offset`. `stage` is how the
    /// staging of `data` in a host-visible buffer ended; it is looked at only
    /// where the device is registered and `data` is not empty. A device that
    /// is registered traces the write first. Beyond that a write that fails
    /// changes nothing; neither does a write of no bytes, which succeeds.
    pub fn queue_write_buffer(
        &mut self,
        queue_id: QueueId,
        buffer_id: BufferId,
        buffer_offset: BufferAddress,
        data: &[u8],
        stage: Result<StagingData, DeviceError>,
    ) -> (res: Result<(), QueueWriteError>)
        requires
            old(self).wf(),
            old(self).can_submit(queue_id),
        ensures
            res == write_buffer_result(
                old(self)@,
                queue_id,
                buffer_id,
                buffer_offset,
                data@.len() as u64,
                stage,
            ),
            final(self)@ == write_buffer_state(
                old(self)@,
                queue_id,
                buffer_id,
                buffer_offset,
                data@,
                stage,
            ),
            final(self).wf(),
            final(self).can_submit(queue_id),
    {
        let mut device = match self.devices.remove(queue_id) {
            Some(device) => device,
            None => {
                assert(self.devices.deep() =~= old(self).devices.deep());
                assert(self@ =~= old(self)@);
                return Err(QueueWriteError::Queue(DeviceError::Invalid));
            },
        };
        device.trace_write_buffer(buffer_id, buffer_offset, data);
        self.devices.insert(queue_id, device);
        let ghost traced = write_buffer_traced(
            old(self)@,
            queue_id,
            buffer_id,
            buffer_offset,
            data@,
        );
        proof {
            assert(self.devices.deep() =~= traced.devices);
            assert(self@ =~= traced);
        }
        let data_size: u64 = data.len() as u64;
        if data_size == 0 {
            return Ok(());
        }
        let stage = match stage {
            Ok(stage) => stage,
            Err(error) => {
                return Err(QueueWriteError::Queue(error));
            },
        };
        match check_destination_buffer(&self.buffers, buffer_id) {
            Err(error) => {
                return Err(QueueWriteError::Transfer(error));
            },
            Ok(()) => {},
        }
        let dst_size: u64 = match self.buffers.get(buffer_id) {
            Some(buffer) => buffer.size,
            None => {
                return Err(QueueWriteError::Transfer(TransferError::InvalidBuffer(buffer_id)));
            },
        };
        let alignment: u64 = copy_buffer_alignment();
        if data_size % alignment != 0 {
            return Err(QueueWriteError::Transfer(TransferError::UnalignedCopySize(data_size)));
        }
        if buffer_offset % alignment != 0 {
            return Err(
                QueueWriteError::Transfer(TransferError::UnalignedBufferOffset(buffer_offset)),
            );
        }
        if buffer_offset as u128 + data_size as u128 > dst_size as u128 {
            return Err(
                QueueWriteError::Transfer(
                    TransferError::BufferOverrun {
                        start_offset: buffer_offset,
                        end_offset: match buffer_offset.checked_add(data_size) {
                            Some(end) => end,
                            None => u64::MAX,
                        },
                        buffer_size: dst_size,
                        side: CopySide::Destination,
                    },
                ),
            );
        }
        let mut device = self.devices.remove(queue_id).unwrap();
        let mut dst = self.buffers.remove(buffer_id).unwrap();
        let transition = device.trackers.buffers.change_replace(buffer_id, buffer_uses_copy_dst());
        dst.life_guard.use_at(device.active_submission_index + 1);

        let mut barriers: Vec<BufferBarrier> = Vec::new();
        barriers.push(
            BufferBarrier {
                buffer: stage.buffer,
                usage: UsageRange { start: buffer_uses_map_write(), end: buffer_uses_copy_src() },
            },
        );
        push_buffer_barriers(&mut barriers, &transition, &dst);
        let mut regions: Vec<BufferCopy> = Vec::new();
        regions.push(BufferCopy { src_offset: 0, dst_offset: buffer_offset, size: data_size });
        let dst_raw = dst.raw.unwrap();
        device.pending_writes.activate();
        device.pending_writes.command_encoder.transition_buffers(&barriers);
        device.pending_writes.command_encoder.copy_buffer_to_buffer(
            stage.buffer,
            dst_raw,
            &regions,
        );
        device.pending_writes.consume(stage);
        device.pending_writes.dst_buffers.insert(buffer_id);

        // The bytes written need no zeros before they are mapped or bound.
        dst.initialization_status.clear(
            AddressRange { start: buffer_offset, end: buffer_offset + data_size },
        );
        let ghost device_after = device@;
        let ghost buffer_after = dst@;
        self.buffers.insert(buffer_id, dst);
        self.devices.insert(queue_id, device);
        proof {
            let target_device = write_buffer_recorded(
                traced.devices[queue_id],
                old(self)@.buffers[buffer_id],
                buffer_id,
                buffer_offset,
                data_size,
                stage,
            );
            assert(device_after.pending_writes.command_encoder.commands
                =~= target_device.pending_writes.command_encoder.commands);
            assert(device_after.pending_writes =~= target_device.pending_writes);
            assert(device_after.trackers =~= target_device.trackers);
            assert(device_after =~= target_device);
            assert(buffer_after =~= buffer_written(
                old(self)@.buffers[buffer_id],
                buffer_offset,
                data_size,
                old(self)@.devices[queue_id].active_submission_index,
            ));
            assert(self.devices.deep() =~= old(self).devices.deep().insert(
                queue_id,
                device_after,
            ));
            assert(self.buffers.deep() =~= old(self).buffers.deep().insert(
                buffer_id,
                buffer_after,
            ));
            assert(self@ =~= write_buffer_state(
                old(self)@,
                queue_id,
                buffer_id,
                buffer_offset,
                data@,
                Ok(stage),
            ));
        }
        Ok(())
    }
}

/// The smallest range that holds both `first` and `second`.
pub open spec fn joined(first: AddressRange, second: AddressRange) -> AddressRange {
    AddressRange {
        start: if first.start <= second.start {
            first.start
        } else {
            second.start
        },
        end: if first.end >= second.end {
            first.end
        } else {
            second.end
        },
    }
}

/// Sorted ranges once `range` is put in its place among them, joined with
/// those that it touches or overlaps.
pub open spec fn inserted(sorted: Seq<AddressRange>, range: AddressRange) -> Seq<AddressRange>
    decreases sorted.len(),
{
    if sorted.len() == 0 {
        seq![range]
    } else if sorted.last().end < range.start {
        sorted.push(range)
    } else if range.end < sorted.last().start {
        inserted(sorted.drop_last(), range).push(sorted.last())
    } else {
        inserted(sorted.drop_last(), joined(sorted.last(), range))
    }
}

/// The ranges sorted by their start, with those that touch or overlap
/// joined.
pub open spec fn normalized(ranges: Seq<AddressRange>) -> Seq<AddressRange>
    decreases ranges.len(),
{
    if ranges.len() == 0 {
        Seq::empty()
    } else {
        inserted(normalized(ranges.drop_last()), ranges.last())
    }
}

/// The ranges of buffer `id` among `ranges`, in their order.
pub open spec fn ranges_of(ranges: Seq<(BufferId, AddressRange)>, id: BufferId) -> Seq<
    AddressRange,
>
    decreases ranges.len(),
{
    if ranges.len() == 0 {
        Seq::empty()
    } else {
        let before = ranges_of(ranges.drop_last(), id);
        if ranges.last().0 == id {
            before.push(ranges.last().1)
        } else {
            before
        }
    }
}

/// Ranges are normalized if they are in order, with a gap between any two,
/// and each of them is well-formed.
pub open spec fn ranges_separate(ranges: Seq<AddressRange>) -> bool {
    &&& forall|i: int| 0 <= i < ranges.len() ==> range_wf(#[trigger] ranges[i])
    &&& forall|i: int, j: int|
        0 <= i < j < ranges.len() ==> (#[trigger] ranges[i]).end < (#[trigger] ranges[j]).start
}

/// Putting a well-formed range among normalized ranges leaves them
/// normalized; none of them starts before the first of the ranges and the
/// new one, nor ends after the last.
pub proof fn lemma_inserted_separate(sorted: Seq<AddressRange>, range: AddressRange)
    requires
        ranges_separate(sorted),
        range_wf(range),
    ensures
        ranges_separate(inserted(sorted, range)),
        inserted(sorted, range).len() >= 1,
        inserted(sorted, range).first().start == if sorted.len() == 0 || range.start
            <= sorted.first().start {
            range.start
        } else {
            sorted.first().start
        },
        inserted(sorted, range).last().end == if sorted.len() == 0 || range.end
            >= sorted.last().end {
            range.end
        } else {
            sorted.last().end
        },
    decreases sorted.len(),
{
    if sorted.len() == 0 {
    } else {
        let last = sorted[sorted.len() - 1];
        let front = sorted.drop_last();
        assert(range_wf(last));
        assert(ranges_separate(front));
        if front.len() > 0 {
            assert(front.last() == sorted[sorted.len() - 2]);
            assert(sorted[sorted.len() - 2].end < last.start);
            assert(front.first() == sorted[0]);
        }
        if last.end < range.start {
            let all = sorted.push(range);
            assert forall|i: int, j: int| 0 <= i < j < all.len() implies (#[trigger] all[i]).end
                < (#[trigger] all[j]).start by {
                if j == all.len() - 1 {
                    if i < sorted.len() - 1 {
                        assert(sorted[i].end < last.start);
                    }
                }
            }
        } else if range.end < last.start {
            lemma_inserted_separate(front, range);
            let inner = inserted(front, range);
            let all = inner.push(last);
            assert forall|i: int, j: int| 0 <= i < j < all.len() implies (#[trigger] all[i]).end
                < (#[trigger] all[j]).start by {
                if j == all.len() - 1 {
                    assert(inner[i].end <= inner[inner.len() - 1].end);
                }
            }
            assert(all.first() == inner[0]);
        } else {
            lemma_inserted_separate(front, joined(last, range));
        }
    }
}

/// The normalized form of well-formed ranges is normalized.
pub proof fn lemma_normalized_separate(ranges: Seq<AddressRange>)
    requires
        forall|i: int| 0 <= i < ranges.len() ==> range_wf(#[trigger] ranges[i]),
    ensures
        ranges_separate(normalized(ranges)),
    decreases ranges.len(),
{
    if ranges.len() > 0 {
        lemma_normalized_separate(ranges.drop_last());
        assert(range_wf(ranges[ranges.len() - 1]));
        lemma_inserted_separate(normalized(ranges.drop_last()), ranges.last());
    }
}

/// Putting a range among sorted ranges adds its bytes to theirs, and no
/// other.
pub proof fn lemma_inserted_covers(sorted: Seq<AddressRange>, range: AddressRange, address: int)
    ensures
        crate::memory_init::covers(inserted(sorted, range), address)
            <==> crate::memory_init::covers(sorted, address) || range.start <= address
            < range.end,
    decreases sorted.len(),
{
    if sorted.len() == 0 {
        crate::memory_init::lemma_covers_push(sorted, range, address);
        assert(sorted.push(range) =~= seq![range]);
    } else {
        let last = sorted.last();
        let front = sorted.drop_last();
        assert(front.push(last) =~= sorted);
        crate::memory_init::lemma_covers_push(front, last, address);
        if last.end < range.start {
            crate::memory_init::lemma_covers_push(sorted, range, address);
        } else if range.end < last.start {
            lemma_inserted_covers(front, range, address);
            crate::memory_init::lemma_covers_push(inserted(front, range), last, address);
        } else {
            lemma_inserted_covers(front, joined(last, range), address);
        }
    }
}

/// The normalized form of some ranges holds the bytes that they hold, and no
/// other.
pub proof fn lemma_normalized_covers(ranges: Seq<AddressRange>, address: int)
    ensures
        crate::memory_init::covers(normalized(ranges), address) <==> crate::memory_init::covers(
            ranges,
            address,
        ),
    decreases ranges.len(),
{
    if ranges.len() > 0 {
        let front = ranges.drop_last();
        lemma_normalized_covers(front, address);
        lemma_inserted_covers(normalized(front), ranges.last(), address);
        assert(front.push(ranges.last()) =~= ranges);
        crate::memory_init::lemma_covers_push(front, ranges.last(), address);
    }
}

/// The ranges that are filled with zeros for a buffer are in order, with a
/// gap between any two, none of them is empty, and each starts and ends on
/// a word.
pub proof fn lemma_fill_ranges_separate(inits: RequiredBufferInitsView, id: BufferId)
    requires
        inits.wf(),
    ensures
        ranges_separate(normalized(ranges_of(inits.ranges, id))),
{
    lemma_ranges_of_wf(inits.ranges, id);
    lemma_normalized_separate(ranges_of(inits.ranges, id));
}

/// The ranges of a buffer among well-formed ranges are well-formed.
proof fn lemma_ranges_of_wf(ranges: Seq<(BufferId, AddressRange)>, id: BufferId)
    requires
        forall|i: int| 0 <= i < ranges.len() ==> range_wf((#[trigger] ranges[i]).1),
    ensures
        forall|i: int|
            0 <= i < ranges_of(ranges, id).len() ==> range_wf(#[trigger] ranges_of(ranges, id)[i]),
    decreases ranges.len(),
{
    if ranges.len() > 0 {
        let front = ranges.drop_last();
        assert forall|i: int| 0 <= i < front.len() implies range_wf((#[trigger] front[i]).1) by {
            assert(front[i] == ranges[i]);
        }
        lemma_ranges_of_wf(front, id);
        assert(range_wf(ranges[ranges.len() - 1].1));
        let all = ranges_of(ranges, id);
        let before = ranges_of(front, id);
        assert forall|i: int| 0 <= i < all.len() implies range_wf(#[trigger] all[i]) by {
            if i < before.len() {
                assert(all[i] == before[i]);
            }
        }
    }
}

/// Puts `range` in its place among the sorted ranges, joined with those that
/// it touches or overlaps.
fn insert_range(sorted: &mut Vec<AddressRange>, range: AddressRange)
    ensures
        final(sorted)@ == inserted(old(sorted)@, range),
{
    let mut tail: Vec<AddressRange> = Vec::new();
    let mut joined_range = range;
    loop
        invariant
            inserted(old(sorted)@, range) == inserted(sorted@, joined_range) + tail@.reverse(),
        ensures
            sorted.len() == 0 || sorted@.last().end < joined_range.start,
        decreases sorted.len(),
    {
        if sorted.len() == 0 {
            break ;
        }
        let last = sorted[sorted.len() - 1];
        if last.end < joined_range.start {
            break ;
        }
        let ghost before = sorted@;
        sorted.pop();
        assert(sorted@ =~= before.drop_last());
        if joined_range.end < last.start {
            let ghost tail_before = tail@;
            tail.push(last);
            assert(tail@.reverse() =~= seq![last] + tail_before.reverse());
            assert(inserted(before, joined_range) + tail_before.reverse() =~= inserted(
                sorted@,
                joined_range,
            ) + tail@.reverse());
        } else {
            joined_range = AddressRange {
                start: if last.start <= joined_range.start {
                    last.start
                } else {
                    joined_range.start
                },
                end: if last.end >= joined_range.end {
                    last.end
                } else {
                    joined_range.end
                },
            };
        }
    }
    let ghost front = sorted@;
    let ghost rest = tail@;
    sorted.push(joined_range);
    assert(sorted@ =~= inserted(front, joined_range));
    while tail.len() > 0
        invariant
            sorted@ + tail@.reverse() == inserted(front, joined_range) + rest.reverse(),
        decreases tail.len(),
    {
        let ghost sorted_before = sorted@;
        let ghost tail_before = tail@;
        let next = tail.pop().unwrap();
        sorted.push(next);
        assert(tail_before.reverse() =~= seq![next] + tail@.reverse());
        assert(sorted@ + tail@.reverse() =~= sorted_before + tail_before.reverse());
    }
    assert(tail@.reverse() =~= Seq::empty());
    assert(sorted@ =~= sorted@ + tail@.reverse());
}

/// The ranges of buffer `id` among `ranges`, sorted by their start, with
/// those that touch or overlap joined.
fn normalized_ranges(ranges: &Vec<(BufferId, AddressRange)>, id: BufferId) -> (sorted: Vec<
    AddressRange,
>)
    ensures
        sorted@ == normalized(ranges_of(ranges@, id)),
{
    let mut sorted: Vec<AddressRange> = Vec::new();
    let mut i: usize = 0;
    assert(ranges@.take(0) =~= Seq::empty());
    while i < ranges.len()
        invariant
            i <= ranges.len(),
            sorted@ == normalized(ranges_of(ranges@.take(i as int), id)),
        decreases ranges.len() - i,
    {
        let (owner, range) = ranges[i];
        proof {
            let upto = ranges@.take(i as int + 1);
            assert(upto.drop_last() =~= ranges@.take(i as int));
            assert(upto.last() == (owner, range));
            let of = ranges_of(ranges@.take(i as int), id);
            if owner == id {
                assert(ranges_of(upto, id) =~= of.push(range));
                assert(of.push(range).drop_last() =~= of);
            }
        }
        if owner == id {
            insert_range(&mut sorted, range);
        }
        i += 1;
    }
    assert(ranges@.take(i as int) =~= ranges@);
    sorted
}

/// The commands that fill each of `ranges` of the backend's buffer `raw`
/// with zeros.
pub open spec fn zero_fills(raw: RawHandle, ranges: Seq<AddressRange>) -> Seq<Command> {
    ranges.map_values(
        |range: AddressRange|
            Command::FillBuffer { buffer: raw, start: range.start, end: range.end, value: 0 },
    )
}

/// Where the filling of uninitialized ranges stands.
#[verifier::ext_equal]
pub struct InitFilling {
    pub device: DeviceView,
    /// The buffer that is destroyed, if the filling stopped for one.
    pub failed: Option<BufferId>,
}

/// The filling after one more buffer: the queue puts the buffer to use as
/// the destination of copies; it fails where the buffer is not registered
/// or is destroyed; else the pending writes record the transition and the
/// normalized ranges of the buffer as fills.
pub open spec fn fill_step(
    state: InitFilling,
    id: BufferId,
    buffers: Map<u32, BufferView>,
    ranges: Seq<(BufferId, AddressRange)>,
) -> InitFilling {
    let uses = state.device.trackers.buffers;
    let device = DeviceView {
        trackers: TrackerSetView {
            buffers: uses.insert(id, use_replaced(uses, id, BUFFER_USES_COPY_DST)),
            ..state.device.trackers
        },
        ..state.device
    };
    if !buffers.contains_key(id) || buffers[id].raw is None {
        InitFilling { device, failed: Some(id) }
    } else {
        let raw = buffers[id].raw.unwrap();
        InitFilling {
            device: DeviceView {
                pending_writes: device.pending_writes.recorded(
                    buffer_transitions(
                        buffer_barriers(
                            pending_buffer_replace(uses, id, BUFFER_USES_COPY_DST),
                            raw,
                        ),
                    ) + zero_fills(raw, normalized(ranges_of(ranges, id))),
                ),
                ..device
            },
            ..state
        }
    }
}

/// The filling after the buffers `ids`, in their order, up to the first one
/// that is destroyed.
pub open spec fn filled(
    state: InitFilling,
    ids: Seq<BufferId>,
    buffers: Map<u32, BufferView>,
    ranges: Seq<(BufferId, AddressRange)>,
) -> InitFilling
    decreases ids.len(),
{
    if ids.len() == 0 {
        state
    } else {
        let before = filled(state, ids.drop_last(), buffers, ranges);
        if before.failed is Some {
            before
        } else {
            fill_step(before, ids.last(), buffers, ranges)
        }
    }
}

/// Once the filling has stopped for a destroyed buffer, further buffers
/// change nothing.
proof fn lemma_filled_stops(
    state: InitFilling,
    upto: Seq<BufferId>,
    ids: Seq<BufferId>,
    buffers: Map<u32, BufferView>,
    ranges: Seq<(BufferId, AddressRange)>,
)
    requires
        upto.len() <= ids.len(),
        upto == ids.take(upto.len() as int),
        filled(state, upto, buffers, ranges).failed is Some,
    ensures
        filled(state, ids, buffers, ranges) == filled(state, upto, buffers, ranges),
    decreases ids.len(),
{
    if upto.len() < ids.len() {
        assert(ids.drop_last().take(upto.len() as int) =~= upto);
        lemma_filled_stops(state, upto, ids.drop_last(), buffers, ranges);
    } else {
        assert(ids.take(upto.len() as int) =~= ids);
    }
}

/// A set of identifiers with those of `ids` added.
pub open spec fn with_ids(set: Set<u32>, ids: Seq<u32>) -> Set<u32> {
    Set::new(|id: u32| set.contains(id) || ids.contains(id))
}

/// The device once its pending writes are active and count the buffers
/// `ids` among those written.
pub open spec fn filling_begun(device: DeviceView, ids: Seq<BufferId>) -> DeviceView {
    let writes = device.pending_writes.activated();
    DeviceView {
        pending_writes: PendingWritesView {
            dst_buffers: with_ids(writes.dst_buffers, ids),
            ..writes
        },
        ..device
    }
}

impl Device {
    /// Records, in the pending writes, the fill with zeros of the ranges of
    /// `required_buffer_inits`, buffer by buffer: each buffer is put to use
    /// as the destination of copies, and its ranges are filled in order,
    /// those that touch or overlap as one. Stops at the first buffer that is
    /// destroyed, and fails with it.
    pub fn initialize_buffer_memory(
        &mut self,
        required_buffer_inits: RequiredBufferInits,
        buffer_guard: &Storage<Buffer>,
    ) -> (res: Result<(), QueueSubmitError>)
        requires
            old(self).wf(),
        ensures
            ({
                let end = filled(
                    InitFilling {
                        device: filling_begun(old(self)@, required_buffer_inits@.buffers),
                        failed: None,
                    },
                    required_buffer_inits@.buffers,
                    buffer_guard.deep(),
                    required_buffer_inits@.ranges,
                );
                &&& final(self)@ == end.device
                &&& res == match end.failed {
                    Some(id) => Err::<(), QueueSubmitError>(QueueSubmitError::DestroyedBuffer(id)),
                    None => Ok::<(), QueueSubmitError>(()),
                }
            }),
            final(self).wf(),
            final(self).active_submission_index == old(self).active_submission_index,
    {
        let ghost ids = required_buffer_inits@.buffers;
        let ghost ranges = required_buffer_inits@.ranges;
        let mut k: usize = 0;
        assert(self.pending_writes.dst_buffers@ =~= with_ids(
            old(self)@.pending_writes.dst_buffers,
            ids.take(0),
        ));
        while k < required_buffer_inits.buffers.len()
            invariant
                k <= required_buffer_inits.buffers.len(),
                ids == required_buffer_inits@.buffers,
                self.pending_writes.dst_buffers@ == with_ids(
                    old(self)@.pending_writes.dst_buffers,
                    ids.take(k as int),
                ),
                self@ == (DeviceView {
                    pending_writes: PendingWritesView {
                        dst_buffers: self.pending_writes.dst_buffers@,
                        ..old(self)@.pending_writes
                    },
                    ..old(self)@
                }),
                self.wf(),
                self.active_submission_index == old(self).active_submission_index,
            decreases required_buffer_inits.buffers.len() - k,
        {
            let id = required_buffer_inits.buffers[k];
            self.pending_writes.dst_buffers.insert(id);
            proof {
                assert forall|other: u32|
                    ids.take(k as int + 1).contains(other) <==> ids.take(k as int).contains(other)
                        || other == id by {
                    crate::submit::lemma_take_contains(ids, k as int, other);
                }
                assert(self.pending_writes.dst_buffers@ =~= with_ids(
                    old(self)@.pending_writes.dst_buffers,
                    ids.take(k as int + 1),
                ));
            }
            k += 1;
        }
        assert(ids.take(k as int) =~= ids);
        self.pending_writes.activate();
        let ghost start = InitFilling { device: filling_begun(old(self)@, ids), failed: None };
        assert(self@ =~= start.device);

        let mut i: usize = 0;
        assert(ids.take(0) =~= Seq::empty());
        while i < required_buffer_inits.buffers.len()
            invariant
                i <= required_buffer_inits.buffers.len(),
                ids == required_buffer_inits@.buffers,
                ranges == required_buffer_inits@.ranges,
                start == (InitFilling { device: filling_begun(old(self)@, ids), failed: None }),
                self.wf(),
                self.active_submission_index == old(self).active_submission_index,
                self@.pending_writes.is_active,
                filled(start, ids.take(i as int), buffer_guard.deep(), ranges) == (InitFilling {
                    device: self@,
                    failed: None,
                }),
            decreases required_buffer_inits.buffers.len() - i,
        {
            let buffer_id = required_buffer_inits.buffers[i];
            let ghost upto = ids.take(i as int + 1);
            let ghost state_before = InitFilling { device: self@, failed: None };
            proof {
                assert(upto.drop_last() =~= ids.take(i as int));
                assert(upto.last() == buffer_id);
            }
            // Ranges from several command buffers may touch: join them now.
            let sorted = normalized_ranges(&required_buffer_inits.ranges, buffer_id);
            let transition = self.trackers.buffers.change_replace(
                buffer_id,
                buffer_uses_copy_dst(),
            );
            let buffer = match buffer_guard.get(buffer_id) {
                Some(buffer) => buffer,
                None => {
                    proof {
                        assert(!buffer_guard.deep().contains_key(buffer_id));
                        assert(filled(start, upto, buffer_guard.deep(), ranges)
                            =~= (InitFilling { device: self@, failed: Some(buffer_id) }));
                        assert(upto =~= ids.take(upto.len() as int));
                        lemma_filled_stops(start, upto, ids, buffer_guard.deep(), ranges);
                    }
                    return Err(QueueSubmitError::DestroyedBuffer(buffer_id));
                },
            };
            let raw_buf = match buffer.raw {
                Some(raw) => raw,
                None => {
                    proof {
                        assert(filled(start, upto, buffer_guard.deep(), ranges)
                            =~= (InitFilling { device: self@, failed: Some(buffer_id) }));
                        assert(upto =~= ids.take(upto.len() as int));
                        lemma_filled_stops(start, upto, ids, buffer_guard.deep(), ranges);
                    }
                    return Err(QueueSubmitError::DestroyedBuffer(buffer_id));
                },
            };
            let mut barriers: Vec<BufferBarrier> = Vec::new();
            push_buffer_barriers(&mut barriers, &transition, buffer);
            self.pending_writes.command_encoder.transition_buffers(&barriers);
            let ghost before_fills = self.pending_writes.command_encoder@.commands;
            let ghost device_before = self@;
            let mut j: usize = 0;
            assert(self.pending_writes.command_encoder@.commands =~= before_fills + zero_fills(
                raw_buf,
                sorted@.take(0),
            ));
            while j < sorted.len()
                invariant
                    j <= sorted.len(),
                    self.pending_writes.command_encoder.is_encoding,
                    self.pending_writes.command_encoder@.commands == before_fills + zero_fills(
                        raw_buf,
                        sorted@.take(j as int),
                    ),
                    self@ == (DeviceView {
                        pending_writes: PendingWritesView {
                            command_encoder: self.pending_writes.command_encoder@,
                            ..device_before.pending_writes
                        },
                        ..device_before
                    }),
                    self.wf(),
                    self.active_submission_index == old(self).active_submission_index,
                decreases sorted.len() - j,
            {
                let range = sorted[j];
                self.pending_writes.command_encoder.fill_buffer(
                    raw_buf,
                    range.start,
                    range.end,
                    0,
                );
                j += 1;
                assert(self.pending_writes.command_encoder@.commands =~= before_fills
                    + zero_fills(raw_buf, sorted@.take(j as int)));
            }
            assert(sorted@.take(j as int) =~= sorted@);
            i += 1;
            proof {
                let target = fill_step(state_before, buffer_id, buffer_guard.deep(), ranges);
                assert(self@.pending_writes.command_encoder.commands
                    =~= target.device.pending_writes.command_encoder.commands);
                assert(self@.pending_writes =~= target.device.pending_writes);
                assert(self@.trackers =~= target.device.trackers);
                assert(self@ =~= target.device);
                assert(filled(start, upto, buffer_guard.deep(), ranges) =~= (InitFilling {
                    device: self@,
                    failed: None,
                }));
            }
        }
        assert(ids.take(i as int) =~= ids);
        Ok(())
    }
}

} // verus!
