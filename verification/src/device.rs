//! A device: its submission counter, its trackers, its pending writes and
//! the submissions that the backend has not finished.

use crate::command::{TraceCommand, TrackerSet, TrackerSetView};
use crate::outside::{buffer_uses_copy_src, buffer_uses_map_write};
use crate::trace::{trace_view, Trace, TraceView};
use crate::hal::{
    command_lists, Command, RawCommandBuffer, RawEncoder, RawEncoderView, BUFFER_USES_COPY_SRC,
    BUFFER_USES_MAP_WRITE,
};
use crate::types::{
    BufferAddress, BufferId, Extent3d, ImageCopyTexture, ImageDataLayout, RawHandle,
    SubmissionIndex, TextureId,
};
use std::collections::HashSet;
use vstd::prelude::*;

verus! {

/// Number of command buffers that the pool of the pending writes produces
/// before the pool is recycled.
pub const WRITE_COMMAND_BUFFERS_PER_POOL: usize = 64;

/// Why the device cannot carry on.
#[derive(Clone, Copy, Debug, PartialEq, Eq)]
pub enum DeviceError {
    /// The device is unknown.
    Invalid,
    /// The device is lost.
    Lost,
    /// The device is out of memory.
    OutOfMemory,
}

/// Why the device could not be waited for.
#[derive(Clone, Copy, Debug, PartialEq, Eq)]
pub enum WaitIdleError {
    Device(DeviceError),
    StuckGpu,
}

/// What the backend asks of the placement of copies.
#[derive(Clone, Copy, Debug, PartialEq, Eq)]
pub struct Alignments {
    /// The alignment of the start of a buffer that is the source of a copy.
    pub buffer_copy_offset: BufferAddress,
    /// The alignment of the row pitch of texture data in a buffer.
    pub buffer_copy_pitch: BufferAddress,
}

/// A host-visible buffer that holds data on its way to the device.
#[derive(Clone, Copy, Debug, PartialEq, Eq)]
pub struct StagingData {
    pub buffer: RawHandle,
}

/// What the backend is asked for when host data has to be staged: a buffer
/// of `size` bytes with the uses `usage`, in memory that is needed for a
/// short time only if `transient` is set.
#[derive(Clone, Copy, Debug, PartialEq, Eq)]
pub struct StageDescriptor {
    pub size: BufferAddress,
    pub usage: u32,
    pub transient: bool,
}

/// A resource of the backend that is destroyed once the submission that
/// uses it has completed.
#[derive(Clone, Copy, Debug, PartialEq, Eq)]
pub enum TempResource {
    Buffer(RawHandle),
    Texture(RawHandle),
}

/// A command pool with the command buffers that a submission executes.
#[derive(Debug)]
pub struct EncoderInFlight {
    pub raw: RawEncoder,
    pub cmd_buffers: Vec<RawCommandBuffer>,
}

/// What is known of a command pool in flight.
#[verifier::ext_equal]
pub struct EncoderInFlightView {
    pub raw: RawEncoderView,
    pub cmd_buffers: Seq<Seq<Command>>,
}

impl View for EncoderInFlight {
    type V = EncoderInFlightView;

    open spec fn view(&self) -> EncoderInFlightView {
        EncoderInFlightView { raw: self.raw@, cmd_buffers: command_lists(self.cmd_buffers@) }
    }
}

impl EncoderInFlight {
    /// Frees the command buffers and returns the pool, ready for reuse.
    pub fn land(self) -> (raw: RawEncoder)
        ensures
            raw@ == self@.raw,
    {
        self.raw
    }
}

/// What each of some command pools in flight is known to hold.
pub open spec fn encoder_views(encoders: Seq<EncoderInFlight>) -> Seq<EncoderInFlightView> {
    encoders.map_values(|encoder: EncoderInFlight| encoder@)
}

/// The writes that the queue was asked for since the last submission.
#[derive(Debug)]
pub struct PendingWrites {
    pub command_encoder: RawEncoder,
    /// Whether the pool is encoding.
    pub is_active: bool,
    /// The staging buffers, to be retired at the next submission.
    pub temp_resources: Vec<TempResource>,
    /// The buffers written since the last submission.
    pub dst_buffers: HashSet<BufferId>,
    /// The textures written since the last submission.
    pub dst_textures: HashSet<TextureId>,
    /// The command buffers that the pool has produced.
    pub executing_command_buffers: Vec<RawCommandBuffer>,
}

/// What is known of the pending writes.
#[verifier::ext_equal]
pub struct PendingWritesView {
    pub command_encoder: RawEncoderView,
    pub is_active: bool,
    pub temp_resources: Seq<TempResource>,
    pub dst_buffers: Set<BufferId>,
    pub dst_textures: Set<TextureId>,
    pub executing_command_buffers: Seq<Seq<Command>>,
}

impl View for PendingWrites {
    type V = PendingWritesView;

    open spec fn view(&self) -> PendingWritesView {
        PendingWritesView {
            command_encoder: self.command_encoder@,
            is_active: self.is_active,
            temp_resources: self.temp_resources@,
            dst_buffers: self.dst_buffers@,
            dst_textures: self.dst_textures@,
            executing_command_buffers: command_lists(self.executing_command_buffers@),
        }
    }
}

impl PendingWritesView {
    /// The pool encodes exactly while the pending writes are active.
    pub open spec fn wf(self) -> bool {
        self.is_active == self.command_encoder.is_encoding
    }

    /// The pending writes once they are active: as they are where they were
    /// active, else with a new encoding that has recorded nothing.
    pub open spec fn activated(self) -> PendingWritesView {
        if self.is_active {
            self
        } else {
            PendingWritesView {
                command_encoder: RawEncoderView { is_encoding: true, commands: Seq::empty() },
                is_active: true,
                ..self
            }
        }
    }

    /// The pending writes at the point of a submission: what the pool was
    /// encoding is the last of its command buffers, and no buffer or texture
    /// counts as written.
    pub open spec fn submitted(self) -> PendingWritesView {
        PendingWritesView {
            command_encoder: if self.is_active {
                RawEncoderView { is_encoding: false, commands: Seq::empty() }
            } else {
                self.command_encoder
            },
            is_active: false,
            dst_buffers: Set::empty(),
            dst_textures: Set::empty(),
            executing_command_buffers: if self.is_active {
                self.executing_command_buffers.push(self.command_encoder.commands)
            } else {
                self.executing_command_buffers
            },
            ..self
        }
    }

    /// Whether the pool has produced as many command buffers as it may.
    pub open spec fn is_full(self) -> bool {
        self.executing_command_buffers.len() >= WRITE_COMMAND_BUFFERS_PER_POOL
    }

    /// The pending writes after a submission: on a new pool, with no command
    /// buffer, where the pool was full.
    pub open spec fn recycled(self) -> PendingWritesView {
        if self.is_full() {
            PendingWritesView {
                command_encoder: RawEncoderView { is_encoding: false, commands: Seq::empty() },
                executing_command_buffers: Seq::empty(),
                ..self
            }
        } else {
            self
        }
    }

    /// The active pending writes once they have recorded `commands`.
    pub open spec fn recorded(self, commands: Seq<Command>) -> PendingWritesView {
        PendingWritesView {
            command_encoder: RawEncoderView {
                is_encoding: true,
                commands: self.command_encoder.commands + commands,
            },
            ..self
        }
    }
}

/// What is left to destroy of pending writes that are disposed of.
#[derive(Debug)]
pub struct Disposal {
    /// The command pool, which is not encoding and holds no command buffer.
    pub command_encoder: RawEncoder,
    /// The resources, in the order in which the writes took them.
    pub resources: Vec<TempResource>,
}

/// The pools of command buffers that are free for reuse.
#[derive(Debug)]
pub struct CommandAllocator {
    pub free_encoders: Vec<RawEncoder>,
}

impl CommandAllocator {
    /// A free pool that is not encoding: the last one freed, or a new one.
    pub fn acquire_encoder(&mut self) -> (encoder: RawEncoder)
        ensures
            !encoder.is_encoding,
            encoder@.commands == Seq::<Command>::empty(),
            final(self).free_encoders@.len() == if old(self).free_encoders@.len() == 0 {
                0
            } else {
                old(self).free_encoders@.len() - 1
            },
    {
        match self.free_encoders.pop() {
            Some(mut encoder) => {
                encoder.discard_encoding();
                encoder
            },
            None => RawEncoder::new(),
        }
    }
}

impl PendingWrites {
    /// Pending writes that record on `command_encoder` and have recorded
    /// nothing.
    pub fn new(command_encoder: RawEncoder) -> (writes: Self)
        ensures
            writes@ == (PendingWritesView {
                command_encoder: command_encoder@,
                is_active: false,
                temp_resources: Seq::empty(),
                dst_buffers: Set::empty(),
                dst_textures: Set::empty(),
                executing_command_buffers: Seq::empty(),
            }),
    {
        let writes = PendingWrites {
            command_encoder,
            is_active: false,
            temp_resources: Vec::new(),
            dst_buffers: HashSet::new(),
            dst_textures: HashSet::new(),
            executing_command_buffers: Vec::new(),
        };
        assert(writes@.executing_command_buffers =~= Seq::empty());
        writes
    }

    /// Gives up what is being recorded and every command buffer, and hands
    /// back what the backend has to destroy: the pool and the temporary
    /// resources.
    pub fn dispose(self) -> (disposal: Disposal)
        ensures
            disposal.command_encoder@ == (RawEncoderView {
                is_encoding: if self.is_active {
                    false
                } else {
                    self.command_encoder.is_encoding
                },
                commands: if self.is_active {
                    Seq::empty()
                } else {
                    self.command_encoder@.commands
                },
            }),
            disposal.resources@ == self@.temp_resources,
    {
        let mut command_encoder = self.command_encoder;
        if self.is_active {
            command_encoder.discard_encoding();
        }
        Disposal { command_encoder, resources: self.temp_resources }
    }

    /// Keeps `resource` until the next submission has completed.
    pub fn consume_temp(&mut self, resource: TempResource)
        ensures
            final(self)@ == (PendingWritesView {
                temp_resources: old(self)@.temp_resources.push(resource),
                ..old(self)@
            }),
    {
        self.temp_resources.push(resource);
    }

    /// Keeps the staging buffer until the next submission has completed.
    pub fn consume(&mut self, stage: StagingData)
        ensures
            final(self)@ == (PendingWritesView {
                temp_resources: old(self)@.temp_resources.push(TempResource::Buffer(stage.buffer)),
                ..old(self)@
            }),
    {
        self.temp_resources.push(TempResource::Buffer(stage.buffer));
    }

    /// Ends what the pool is encoding, if it encodes, as the last of its
    /// command buffers, and forgets which buffers and textures were written.
    /// Says whether there is such a command buffer.
    pub fn pre_submit(&mut self) -> (produced: bool)
        requires
            old(self)@.wf(),
        ensures
            produced == old(self)@.is_active,
            final(self)@ == old(self)@.submitted(),
            final(self)@.wf(),
            produced ==> final(self).executing_command_buffers@.len() > 0,
            produced ==> final(self).executing_command_buffers@.last()@ == old(
                self,
            )@.command_encoder.commands,
    {
        self.dst_buffers.clear();
        self.dst_textures.clear();
        if self.is_active {
            let cmd_buf = self.command_encoder.end_encoding();
            self.is_active = false;
            self.executing_command_buffers.push(cmd_buf);
            assert(self@.executing_command_buffers =~= old(
                self,
            )@.executing_command_buffers.push(old(self)@.command_encoder.commands));
            true
        } else {
            false
        }
    }

    /// Retires the pool with its command buffers once it has produced enough
    /// of them, and goes on with a free pool of `command_allocator`.
    pub fn post_submit(&mut self, command_allocator: &mut CommandAllocator) -> (retired: Option<
        EncoderInFlight,
    >)
        requires
            !old(self).is_active,
            old(self)@.wf(),
        ensures
            retired is Some == old(self)@.is_full(),
            retired is Some ==> retired.unwrap()@ == (EncoderInFlightView {
                raw: old(self)@.command_encoder,
                cmd_buffers: old(self)@.executing_command_buffers,
            }),
            final(self)@ == old(self)@.recycled(),
            final(self)@.wf(),
            final(command_allocator).free_encoders@.len() == if old(self)@.is_full() && old(
                command_allocator,
            ).free_encoders@.len() > 0 {
                old(command_allocator).free_encoders@.len() - 1
            } else {
                old(command_allocator).free_encoders@.len() as int
            },
    {
        if self.executing_command_buffers.len() >= WRITE_COMMAND_BUFFERS_PER_POOL {
            let mut raw = command_allocator.acquire_encoder();
            std::mem::swap(&mut raw, &mut self.command_encoder);
            let mut cmd_buffers: Vec<RawCommandBuffer> = Vec::new();
            std::mem::swap(&mut cmd_buffers, &mut self.executing_command_buffers);
            assert(self@.executing_command_buffers =~= Seq::empty());
            Some(EncoderInFlight { raw, cmd_buffers })
        } else {
            None
        }
    }

    /// Makes the pool encode, if it does not yet.
    pub fn activate(&mut self)
        requires
            old(self)@.wf(),
        ensures
            final(self)@ == old(self)@.activated(),
            final(self)@.wf(),
    {
        if !self.is_active {
            self.command_encoder.begin_encoding();
            self.is_active = true;
        }
    }

    /// Gives up what the pool is encoding, if it encodes.
    pub fn deactivate(&mut self)
        ensures
            final(self)@ == if old(self)@.is_active {
                PendingWritesView {
                    command_encoder: RawEncoderView { is_encoding: false, commands: Seq::empty() },
                    is_active: false,
                    ..old(self)@
                }
            } else {
                old(self)@
            },
    {
        if self.is_active {
            self.command_encoder.discard_encoding();
            self.is_active = false;
        }
    }
}

/// The resources that may have lost their last user, to be looked at when
/// the device is next maintained.
#[derive(Debug)]
pub struct SuspectedResources {
    pub buffers: Vec<u32>,
    pub textures: Vec<u32>,
    pub texture_views: Vec<u32>,
    pub bind_groups: Vec<u32>,
    pub compute_pipelines: Vec<u32>,
    pub render_pipelines: Vec<u32>,
    pub query_sets: Vec<u32>,
    pub render_bundles: Vec<u32>,
}

/// What is known of the suspected resources.
#[verifier::ext_equal]
pub struct SuspectedResourcesView {
    pub buffers: Seq<u32>,
    pub textures: Seq<u32>,
    pub texture_views: Seq<u32>,
    pub bind_groups: Seq<u32>,
    pub compute_pipelines: Seq<u32>,
    pub render_pipelines: Seq<u32>,
    pub query_sets: Seq<u32>,
    pub render_bundles: Seq<u32>,
}

impl View for SuspectedResources {
    type V = SuspectedResourcesView;

    open spec fn view(&self) -> SuspectedResourcesView {
        SuspectedResourcesView {
            buffers: self.buffers@,
            textures: self.textures@,
            texture_views: self.texture_views@,
            bind_groups: self.bind_groups@,
            compute_pipelines: self.compute_pipelines@,
            render_pipelines: self.render_pipelines@,
            query_sets: self.query_sets@,
            render_bundles: self.render_bundles@,
        }
    }
}

impl SuspectedResourcesView {
    /// No resource is suspected.
    pub open spec fn none() -> SuspectedResourcesView {
        SuspectedResourcesView {
            buffers: Seq::empty(),
            textures: Seq::empty(),
            texture_views: Seq::empty(),
            bind_groups: Seq::empty(),
            compute_pipelines: Seq::empty(),
            render_pipelines: Seq::empty(),
            query_sets: Seq::empty(),
            render_bundles: Seq::empty(),
        }
    }
}

impl SuspectedResources {
    /// No resource is suspected.
    pub fn new() -> (suspected: Self)
        ensures
            suspected@ == SuspectedResourcesView::none(),
    {
        SuspectedResources {
            buffers: Vec::new(),
            textures: Vec::new(),
            texture_views: Vec::new(),
            bind_groups: Vec::new(),
            compute_pipelines: Vec::new(),
            render_pipelines: Vec::new(),
            query_sets: Vec::new(),
            render_bundles: Vec::new(),
        }
    }

    /// Forgets every suspicion.
    pub fn clear(&mut self)
        ensures
            final(self)@ == SuspectedResourcesView::none(),
    {
        self.buffers.clear();
        self.textures.clear();
        self.texture_views.clear();
        self.bind_groups.clear();
        self.compute_pipelines.clear();
        self.render_pipelines.clear();
        self.query_sets.clear();
        self.render_bundles.clear();
    }
}

/// A submission that the backend has not finished, with what is to be freed
/// when it has.
#[derive(Debug)]
pub struct ActiveSubmission {
    pub index: SubmissionIndex,
    /// The temporary resources that the submission is the last to use.
    pub last_resources: Vec<TempResource>,
    /// The command pools whose command buffers the submission executes.
    pub encoders: Vec<EncoderInFlight>,
}

/// What is known of a submission in flight.
#[verifier::ext_equal]
pub struct ActiveSubmissionView {
    pub index: SubmissionIndex,
    pub last_resources: Seq<TempResource>,
    pub encoders: Seq<EncoderInFlightView>,
}

impl View for ActiveSubmission {
    type V = ActiveSubmissionView;

    open spec fn view(&self) -> ActiveSubmissionView {
        ActiveSubmissionView {
            index: self.index,
            last_resources: self.last_resources@,
            encoders: encoder_views(self.encoders@),
        }
    }
}

/// What each of some submissions in flight is known to hold.
pub open spec fn submission_views(submissions: Seq<ActiveSubmission>) -> Seq<
    ActiveSubmissionView,
> {
    submissions.map_values(|submission: ActiveSubmission| submission@)
}

/// The position of the first submission of `active`, from `from` on, that
/// the backend may still execute once it has finished submission
/// `last_done`: the first one with a later index.
pub open spec fn done_from(
    active: Seq<ActiveSubmissionView>,
    last_done: SubmissionIndex,
    from: nat,
) -> nat
    decreases active.len() - from,
{
    if from >= active.len() || active[from as int].index > last_done {
        from
    } else {
        done_from(active, last_done, from + 1)
    }
}

/// The number of the submissions at the front of `active` that the backend
/// has finished once it has finished submission `last_done`.
pub open spec fn done_count(active: Seq<ActiveSubmissionView>, last_done: SubmissionIndex) -> nat {
    done_from(active, last_done, 0)
}

/// The temporary resources that `submissions` were the last to use, in the
/// order of the submissions.
pub open spec fn resources_of(submissions: Seq<ActiveSubmissionView>) -> Seq<TempResource>
    decreases submissions.len(),
{
    if submissions.len() == 0 {
        Seq::empty()
    } else {
        resources_of(submissions.drop_last()) + submissions.last().last_resources
    }
}

/// The number of the command pools of `submissions`.
pub open spec fn pools_of(submissions: Seq<ActiveSubmissionView>) -> nat
    decreases submissions.len(),
{
    if submissions.len() == 0 {
        0
    } else {
        pools_of(submissions.drop_last()) + submissions.last().encoders.len()
    }
}

/// The submissions that the backend has not finished, oldest first.
#[derive(Debug)]
pub struct LifetimeTracker {
    pub active: Vec<ActiveSubmission>,
}

impl LifetimeTracker {
    /// Registers submission `index` with the temporary resources and the
    /// command pools that it is the last to use.
    pub fn track_submission(
        &mut self,
        index: SubmissionIndex,
        temp_resources: Vec<TempResource>,
        encoders: Vec<EncoderInFlight>,
    )
        ensures
            submission_views(final(self).active@) == submission_views(old(self).active@).push(
                ActiveSubmissionView {
                    index,
                    last_resources: temp_resources@,
                    encoders: encoder_views(encoders@),
                },
            ),
    {
        self.active.push(ActiveSubmission { index, last_resources: temp_resources, encoders });
        assert(submission_views(self.active@) =~= submission_views(old(self).active@).push(
            ActiveSubmissionView {
                index,
                last_resources: temp_resources@,
                encoders: encoder_views(encoders@),
            },
        ));
    }
}

/// A device with its queue.
#[derive(Debug)]
pub struct Device {
    /// The number of the last submission.
    pub active_submission_index: SubmissionIndex,
    /// The use that the queue leaves every resource in.
    pub trackers: TrackerSet,
    pub pending_writes: PendingWrites,
    pub temp_suspected: SuspectedResources,
    pub alignments: Alignments,
    pub life_tracker: LifetimeTracker,
    pub command_allocator: CommandAllocator,
    /// What the queue was asked for, where the device is traced.
    pub trace: Option<Trace>,
}

/// What is known of a device.
#[verifier::ext_equal]
pub struct DeviceView {
    pub active_submission_index: SubmissionIndex,
    pub trackers: TrackerSetView,
    pub pending_writes: PendingWritesView,
    pub temp_suspected: SuspectedResourcesView,
    pub alignments: Alignments,
    pub active_submissions: Seq<ActiveSubmissionView>,
    /// The number of command pools that are free for reuse.
    pub free_encoders: nat,
    pub trace: Option<TraceView>,
}

impl View for Device {
    type V = DeviceView;

    open spec fn view(&self) -> DeviceView {
        DeviceView {
            active_submission_index: self.active_submission_index,
            trackers: self.trackers@,
            pending_writes: self.pending_writes@,
            temp_suspected: self.temp_suspected@,
            alignments: self.alignments,
            active_submissions: submission_views(self.life_tracker.active@),
            free_encoders: self.command_allocator.free_encoders@.len(),
            trace: trace_view(self.trace),
        }
    }
}

impl DeviceView {
    /// The device once the write of `data` into buffer `id` at `offset` is
    /// traced, if the device has a trace.
    pub open spec fn write_buffer_traced(
        self,
        id: BufferId,
        offset: BufferAddress,
        data: Seq<u8>,
    ) -> DeviceView {
        DeviceView {
            trace: match self.trace {
                Some(trace) => Some(trace.with_write_buffer(id, offset, data)),
                None => None,
            },
            ..self
        }
    }

    /// The device once the write of `data` into a texture is traced, if the
    /// device has a trace.
    pub open spec fn write_texture_traced(
        self,
        to: ImageCopyTexture,
        data: Seq<u8>,
        layout: ImageDataLayout,
        size: Extent3d,
    ) -> DeviceView {
        DeviceView {
            trace: match self.trace {
                Some(trace) => Some(trace.with_write_texture(to, data, layout, size)),
                None => None,
            },
            ..self
        }
    }

    /// The device once the backend has finished submission `last_done`: the
    /// submissions up to the first later one are no longer in flight, and
    /// their command pools are free for reuse.
    pub open spec fn triaged(self, last_done: SubmissionIndex) -> DeviceView {
        let count = done_count(self.active_submissions, last_done);
        DeviceView {
            active_submissions: self.active_submissions.skip(count as int),
            free_encoders: self.free_encoders + pools_of(
                self.active_submissions.take(count as int),
            ),
            ..self
        }
    }

    /// The device once the submission of a command buffer that had recorded
    /// `commands` is traced, if the device has a trace.
    pub open spec fn submit_traced(
        self,
        index: SubmissionIndex,
        commands: Option<Seq<TraceCommand>>,
    ) -> DeviceView {
        DeviceView {
            trace: match self.trace {
                Some(trace) => Some(trace.with_submit(index, commands)),
                None => None,
            },
            ..self
        }
    }
}

impl Device {
    /// The pending writes are well-formed and the device's texture tracker
    /// is.
    pub open spec fn wf(&self) -> bool {
        &&& self@.pending_writes.wf()
        &&& self.trackers.textures.wf()
        &&& self.alignments.buffer_copy_pitch > 0
    }

    /// A device that has submitted nothing.
    pub fn new(alignments: Alignments) -> (device: Self)
        requires
            alignments.buffer_copy_pitch > 0,
        ensures
            device.wf(),
            device@ == (DeviceView {
                active_submission_index: 0,
                trackers: TrackerSetView::empty(),
                pending_writes: PendingWritesView {
                    command_encoder: RawEncoderView { is_encoding: false, commands: Seq::empty() },
                    is_active: false,
                    temp_resources: Seq::empty(),
                    dst_buffers: Set::empty(),
                    dst_textures: Set::empty(),
                    executing_command_buffers: Seq::empty(),
                },
                temp_suspected: SuspectedResourcesView::none(),
                alignments,
                active_submissions: Seq::empty(),
                free_encoders: 0,
                trace: None,
            }),
    {
        let device = Device {
            active_submission_index: 0,
            trackers: TrackerSet::new(),
            pending_writes: PendingWrites::new(RawEncoder::new()),
            temp_suspected: SuspectedResources::new(),
            alignments,
            life_tracker: LifetimeTracker { active: Vec::new() },
            command_allocator: CommandAllocator { free_encoders: Vec::new() },
            trace: None,
        };
        assert(device@.active_submissions =~= Seq::<ActiveSubmissionView>::empty());
        device
    }

    /// The staging buffer to create for `size` bytes of host data: one that
    /// the host can map for writing and that can be the source of a copy,
    /// in transient memory.
    pub fn prepare_stage(&self, size: BufferAddress) -> (stage: StageDescriptor)
        ensures
            stage == (StageDescriptor {
                size,
                usage: BUFFER_USES_MAP_WRITE | BUFFER_USES_COPY_SRC,
                transient: true,
            }),
    {
        StageDescriptor {
            size,
            usage: buffer_uses_map_write() | buffer_uses_copy_src(),
            transient: true,
        }
    }

    /// Takes note that the backend has finished submission `last_done`. The
    /// submissions in flight up to the first later one are done: their
    /// command pools are landed and freed for reuse, and the temporary
    /// resources that they were the last to use are returned, to be
    /// destroyed.
    pub fn triage_submissions(&mut self, last_done: SubmissionIndex) -> (retired: Vec<
        TempResource,
    >)
        ensures
            final(self)@ == old(self)@.triaged(last_done),
            retired@ == resources_of(
                old(self)@.active_submissions.take(
                    done_count(old(self)@.active_submissions, last_done) as int,
                ),
            ),
            old(self).wf() ==> final(self).wf(),
    {
        let ghost all = self@.active_submissions;
        let mut count: usize = 0;
        while count < self.life_tracker.active.len() && self.life_tracker.active[count].index
            <= last_done
            invariant
                count <= self.life_tracker.active.len(),
                all == submission_views(self.life_tracker.active@),
                done_count(all, last_done) == done_from(all, last_done, count as nat),
            decreases self.life_tracker.active.len() - count,
        {
            count += 1;
        }
        let mut done = self.life_tracker.active.split_off(count);
        std::mem::swap(&mut self.life_tracker.active, &mut done);
        assert(submission_views(done@) =~= all.take(count as int));
        assert(submission_views(self.life_tracker.active@) =~= all.skip(count as int));

        let mut retired: Vec<TempResource> = Vec::new();
        let mut i: usize = 0;
        while i < done.len()
            invariant
                i <= done.len(),
                retired@ == resources_of(submission_views(done@).take(i as int)),
            decreases done.len() - i,
        {
            let ghost before = retired@;
            let resources = &done[i].last_resources;
            let mut j: usize = 0;
            while j < resources.len()
                invariant
                    j <= resources.len(),
                    retired@ == before + resources@.take(j as int),
                decreases resources.len() - j,
            {
                retired.push(resources[j]);
                assert(resources@.take(j + 1) =~= resources@.take(j as int).push(
                    resources@[j as int],
                ));
                j += 1;
            }
            assert(resources@.take(j as int) =~= resources@);
            assert(submission_views(done@).take(i + 1).drop_last() =~= submission_views(
                done@,
            ).take(i as int));
            i += 1;
        }
        assert(submission_views(done@).take(i as int) =~= submission_views(done@));

        let ghost free = self.command_allocator.free_encoders@.len();
        while done.len() > 0
            invariant
                self.command_allocator.free_encoders@.len() + pools_of(submission_views(done@))
                    == free + pools_of(all.take(count as int)),
                submission_views(self.life_tracker.active@) == all.skip(count as int),
                self.active_submission_index == old(self).active_submission_index,
                self.trackers == old(self).trackers,
                self.pending_writes == old(self).pending_writes,
                self.temp_suspected == old(self).temp_suspected,
                self.alignments == old(self).alignments,
                self.trace == old(self).trace,
            decreases done.len(),
        {
            let ghost landing = submission_views(done@);
            let mut submission = done.pop().unwrap();
            assert(submission_views(done@) =~= landing.drop_last());
            assert(submission@ == landing.last());
            assert(encoder_views(submission.encoders@).len() == submission.encoders@.len());
            while submission.encoders.len() > 0
                invariant
                    self.command_allocator.free_encoders@.len() + submission.encoders@.len()
                        + pools_of(submission_views(done@)) == free + pools_of(
                        all.take(count as int),
                    ),
                    submission_views(self.life_tracker.active@) == all.skip(count as int),
                    self.active_submission_index == old(self).active_submission_index,
                    self.trackers == old(self).trackers,
                    self.pending_writes == old(self).pending_writes,
                    self.temp_suspected == old(self).temp_suspected,
                    self.alignments == old(self).alignments,
                    self.trace == old(self).trace,
                decreases submission.encoders.len(),
            {
                let encoder = submission.encoders.pop().unwrap();
                self.command_allocator.free_encoders.push(encoder.land());
            }
        }
        assert(self@ =~= old(self)@.triaged(last_done));
        retired
    }

    /// Starts a trace of what the queue is asked for, in place of the one
    /// that the device has, if any.
    pub fn start_trace(&mut self)
        ensures
            final(self)@ == (DeviceView {
                trace: Some(
                    TraceView {
                        actions: Seq::empty(),
                        binaries: Seq::empty(),
                        command_lists: Seq::empty(),
                    },
                ),
                ..old(self)@
            }),
            old(self).wf() ==> final(self).wf(),
    {
        self.trace = Some(Trace::new());
    }

    /// Adds the write of `data` into buffer `id` at `offset` to the trace,
    /// if the device has one.
    pub fn trace_write_buffer(&mut self, id: BufferId, offset: BufferAddress, data: &[u8])
        ensures
            final(self)@ == old(self)@.write_buffer_traced(id, offset, data@),
            old(self).wf() ==> final(self).wf(),
            final(self).active_submission_index == old(self).active_submission_index,
    {
        match &mut self.trace {
            Some(trace) => {
                trace.add_write_buffer(id, offset, data);
            },
            None => {},
        }
    }

    /// Adds the write of `data` into a texture to the trace, if the device
    /// has one.
    pub fn trace_write_texture(
        &mut self,
        to: &ImageCopyTexture,
        data: &[u8],
        layout: &ImageDataLayout,
        size: &Extent3d,
    )
        ensures
            final(self)@ == old(self)@.write_texture_traced(*to, data@, *layout, *size),
            old(self).wf() ==> final(self).wf(),
            final(self).active_submission_index == old(self).active_submission_index,
    {
        match &mut self.trace {
            Some(trace) => {
                trace.add_write_texture(to, data, layout, size);
            },
            None => {},
        }
    }

    /// Adds the submission of a command buffer that had recorded `commands`
    /// to the trace, if the device has one.
    pub fn trace_submit(&mut self, index: SubmissionIndex, commands: Option<Vec<TraceCommand>>)
        ensures
            final(self)@ == old(self)@.submit_traced(
                index,
                match commands {
                    Some(list) => Some(list@),
                    None => None,
                },
            ),
            old(self).wf() ==> final(self).wf(),
            final(self).active_submission_index == old(self).active_submission_index,
    {
        match &mut self.trace {
            Some(trace) => {
                trace.add_submit(index, commands);
            },
            None => {},
        }
    }
}

} // verus!
