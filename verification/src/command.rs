//! Command encoders and the command buffers that they become.

use crate::hal::{command_lists, Command, RawCommandBuffer, RawEncoder, RawEncoderView};
use crate::memory_init::MemoryInitTrackerAction;
use crate::storage::Storage;
use crate::track::{BufferTracker, ResourceUse, TextureTracker};
use crate::types::{
    BufferAddress, BufferId, CommandEncoderId, Extent3d, ImageCopyBuffer, ImageCopyTexture,
    QueueId, SwapChainId,
};
use vstd::prelude::*;

verus! {

/// Where a command encoder stands.
#[derive(Clone, Copy, Debug, PartialEq, Eq)]
pub enum CommandEncoderStatus {
    Recording,
    Finished,
    Error,
}

/// Why a command encoder cannot record.
#[derive(Clone, Copy, Debug, PartialEq, Eq)]
pub enum CommandEncoderError {
    /// The encoder is unknown or has failed.
    Invalid,
    /// The encoder has finished.
    NotRecording,
}

/// A transfer, as the trace of a command encoder keeps it.
#[derive(Clone, Copy, Debug, PartialEq, Eq)]
pub enum TraceCommand {
    CopyBufferToBuffer {
        src: BufferId,
        src_offset: BufferAddress,
        dst: BufferId,
        dst_offset: BufferAddress,
        size: BufferAddress,
    },
    CopyBufferToTexture { src: ImageCopyBuffer, dst: ImageCopyTexture, size: Extent3d },
    CopyTextureToBuffer { src: ImageCopyTexture, dst: ImageCopyBuffer, size: Extent3d },
    CopyTextureToTexture { src: ImageCopyTexture, dst: ImageCopyTexture, size: Extent3d },
}

/// A command pool with the command buffers that it has finished.
#[derive(Debug)]
pub struct CommandEncoder {
    pub raw: RawEncoder,
    pub list: Vec<RawCommandBuffer>,
    pub is_open: bool,
}

/// What is known of a command encoder.
#[verifier::ext_equal]
pub struct CommandEncoderView {
    pub raw: RawEncoderView,
    pub list: Seq<Seq<Command>>,
    pub is_open: bool,
}

impl View for CommandEncoder {
    type V = CommandEncoderView;

    open spec fn view(&self) -> CommandEncoderView {
        CommandEncoderView {
            raw: self.raw@,
            list: command_lists(self.list@),
            is_open: self.is_open,
        }
    }
}

impl CommandEncoderView {
    /// The pool encodes exactly while the encoder is open.
    pub open spec fn wf(self) -> bool {
        self.is_open == self.raw.is_encoding
    }

    /// The encoder once it is open: as it is where it was open, else with a
    /// new encoding that has recorded nothing.
    pub open spec fn opened(self) -> CommandEncoderView {
        if self.is_open {
            self
        } else {
            CommandEncoderView {
                raw: RawEncoderView { is_encoding: true, commands: Seq::empty() },
                is_open: true,
                ..self
            }
        }
    }

    /// The open encoder once it has recorded `commands`.
    pub open spec fn recorded(self, commands: Seq<Command>) -> CommandEncoderView {
        CommandEncoderView {
            raw: RawEncoderView { is_encoding: true, commands: self.raw.commands + commands },
            ..self
        }
    }
}

impl CommandEncoder {
    /// An encoder on a pool that is not encoding.
    pub fn new(raw: RawEncoder) -> (encoder: Self)
        requires
            !raw.is_encoding,
        ensures
            encoder@ == (CommandEncoderView { raw: raw@, list: Seq::empty(), is_open: false }),
            encoder@.wf(),
    {
        let encoder = CommandEncoder { raw, list: Vec::new(), is_open: false };
        assert(encoder@.list =~= Seq::empty());
        encoder
    }

    /// Opens the encoder, so that it can record.
    pub fn open(&mut self)
        requires
            old(self)@.wf(),
        ensures
            final(self)@ == old(self)@.opened(),
            final(self)@.wf(),
            final(self)@.is_open,
    {
        if !self.is_open {
            self.is_open = true;
            self.raw.begin_encoding();
        }
    }

    /// Closes the encoder: what it has recorded becomes the last of its
    /// command buffers.
    pub fn close(&mut self)
        requires
            old(self)@.wf(),
        ensures
            final(self)@ == if old(self)@.is_open {
                CommandEncoderView {
                    raw: RawEncoderView { is_encoding: false, commands: Seq::empty() },
                    list: old(self)@.list.push(old(self)@.raw.commands),
                    is_open: false,
                }
            } else {
                old(self)@
            },
            final(self)@.wf(),
    {
        if self.is_open {
            self.is_open = false;
            let buffer = self.raw.end_encoding();
            self.list.push(buffer);
            assert(self@.list =~= old(self)@.list.push(old(self)@.raw.commands));
        }
    }
}

/// The resources that a command stream uses: buffers and textures with
/// their uses, the others by identifier.
#[derive(Debug)]
pub struct TrackerSet {
    pub buffers: BufferTracker,
    pub textures: TextureTracker,
    pub views: Vec<u32>,
    pub bind_groups: Vec<u32>,
    pub samplers: Vec<u32>,
    pub compute_pipes: Vec<u32>,
    pub render_pipes: Vec<u32>,
    pub bundles: Vec<u32>,
    pub query_sets: Vec<u32>,
}

/// What is known of the resources that a command stream uses.
#[verifier::ext_equal]
pub struct TrackerSetView {
    pub buffers: Map<u32, ResourceUse>,
    pub textures: Map<u32, Map<u32, Map<u32, ResourceUse>>>,
    pub views: Seq<u32>,
    pub bind_groups: Seq<u32>,
    pub samplers: Seq<u32>,
    pub compute_pipes: Seq<u32>,
    pub render_pipes: Seq<u32>,
    pub bundles: Seq<u32>,
    pub query_sets: Seq<u32>,
}

impl View for TrackerSet {
    type V = TrackerSetView;

    open spec fn view(&self) -> TrackerSetView {
        TrackerSetView {
            buffers: self.buffers@,
            textures: self.textures@,
            views: self.views@,
            bind_groups: self.bind_groups@,
            samplers: self.samplers@,
            compute_pipes: self.compute_pipes@,
            render_pipes: self.render_pipes@,
            bundles: self.bundles@,
            query_sets: self.query_sets@,
        }
    }
}

impl TrackerSetView {
    /// No resource is in use.
    pub open spec fn empty() -> TrackerSetView {
        TrackerSetView {
            buffers: Map::empty(),
            textures: Map::empty(),
            views: Seq::empty(),
            bind_groups: Seq::empty(),
            samplers: Seq::empty(),
            compute_pipes: Seq::empty(),
            render_pipes: Seq::empty(),
            bundles: Seq::empty(),
            query_sets: Seq::empty(),
        }
    }
}

impl TrackerSet {
    /// The trackers of a stream that uses nothing.
    pub fn new() -> (trackers: Self)
        ensures
            trackers@ == TrackerSetView::empty(),
            trackers.textures.wf(),
    {
        TrackerSet {
            buffers: BufferTracker::new(),
            textures: TextureTracker::new(),
            views: Vec::new(),
            bind_groups: Vec::new(),
            samplers: Vec::new(),
            compute_pipes: Vec::new(),
            render_pipes: Vec::new(),
            bundles: Vec::new(),
            query_sets: Vec::new(),
        }
    }
}

/// A command encoder with what it has recorded so far, which becomes a
/// command buffer when it finishes.
#[derive(Debug)]
pub struct CommandBuffer {
    pub encoder: CommandEncoder,
    pub status: CommandEncoderStatus,
    /// The device that the commands are for.
    pub device_id: QueueId,
    pub trackers: TrackerSet,
    pub used_swap_chains: Vec<SwapChainId>,
    /// The uses of buffer memory by the commands, in their order.
    pub buffer_memory_init_actions: Vec<MemoryInitTrackerAction>,
    /// The transfers recorded, where the encoder is traced.
    pub commands: Option<Vec<TraceCommand>>,
}

/// What is known of a command buffer.
#[verifier::ext_equal]
pub struct CommandBufferView {
    pub encoder: CommandEncoderView,
    pub status: CommandEncoderStatus,
    pub device_id: QueueId,
    pub trackers: TrackerSetView,
    pub used_swap_chains: Seq<SwapChainId>,
    pub buffer_memory_init_actions: Seq<MemoryInitTrackerAction>,
    pub commands: Option<Seq<TraceCommand>>,
}

impl View for CommandBuffer {
    type V = CommandBufferView;

    open spec fn view(&self) -> CommandBufferView {
        CommandBufferView {
            encoder: self.encoder@,
            status: self.status,
            device_id: self.device_id,
            trackers: self.trackers@,
            used_swap_chains: self.used_swap_chains@,
            buffer_memory_init_actions: self.buffer_memory_init_actions@,
            commands: match self.commands {
                Some(list) => Some(list@),
                None => None,
            },
        }
    }
}

impl CommandBufferView {
    /// The command buffer once `command` is added to its trace, if it has
    /// one.
    pub open spec fn traced(self, command: TraceCommand) -> CommandBufferView {
        CommandBufferView {
            commands: match self.commands {
                Some(list) => Some(list.push(command)),
                None => None,
            },
            ..self
        }
    }
}

/// Whether encoder `id` can record: it is registered and still recording.
pub open spec fn encoder_status(
    command_buffers: Map<u32, CommandBufferView>,
    id: CommandEncoderId,
) -> Result<(), CommandEncoderError> {
    if !command_buffers.contains_key(id) {
        Err(CommandEncoderError::Invalid)
    } else {
        match command_buffers[id].status {
            CommandEncoderStatus::Recording => Ok(()),
            CommandEncoderStatus::Finished => Err(CommandEncoderError::NotRecording),
            CommandEncoderStatus::Error => Err(CommandEncoderError::Invalid),
        }
    }
}

impl CommandBuffer {
    /// The encoder and the texture tracker are well-formed, and the encoder
    /// of a command buffer that has finished is closed.
    pub open spec fn wf(&self) -> bool {
        &&& self@.encoder.wf()
        &&& self.trackers.textures.wf()
        &&& self.status == CommandEncoderStatus::Finished ==> !self.encoder.is_open
    }

    /// A command buffer that records for device `device_id` on `raw`.
    pub fn new(raw: RawEncoder, device_id: QueueId, traced: bool) -> (buffer: Self)
        requires
            !raw.is_encoding,
        ensures
            buffer@ == (CommandBufferView {
                encoder: CommandEncoderView { raw: raw@, list: Seq::empty(), is_open: false },
                status: CommandEncoderStatus::Recording,
                device_id,
                trackers: TrackerSetView::empty(),
                used_swap_chains: Seq::empty(),
                buffer_memory_init_actions: Seq::empty(),
                commands: if traced {
                    Some(Seq::empty())
                } else {
                    None
                },
            }),
            buffer.wf(),
    {
        CommandBuffer {
            encoder: CommandEncoder::new(raw),
            status: CommandEncoderStatus::Recording,
            device_id,
            trackers: TrackerSet::new(),
            used_swap_chains: Vec::new(),
            buffer_memory_init_actions: Vec::new(),
            commands: if traced {
                Some(Vec::new())
            } else {
                None
            },
        }
    }

    /// Whether the command buffer has finished recording.
    pub fn is_finished(&self) -> (finished: bool)
        ensures
            finished == (self.status == CommandEncoderStatus::Finished),
    {
        match self.status {
            CommandEncoderStatus::Finished => true,
            _ => false,
        }
    }

    /// Whether encoder `id` of `storage` can record.
    pub fn get_encoder(storage: &Storage<CommandBuffer>, id: CommandEncoderId) -> (res: Result<
        (),
        CommandEncoderError,
    >)
        ensures
            res == encoder_status(storage.deep(), id),
    {
        match storage.get(id) {
            Some(buffer) => match buffer.status {
                CommandEncoderStatus::Recording => Ok(()),
                CommandEncoderStatus::Finished => Err(CommandEncoderError::NotRecording),
                CommandEncoderStatus::Error => Err(CommandEncoderError::Invalid),
            },
            None => Err(CommandEncoderError::Invalid),
        }
    }

    /// Adds `command` to the trace, if there is one.
    pub fn trace(&mut self, command: TraceCommand)
        ensures
            final(self)@ == old(self)@.traced(command),
            final(self).trackers.textures.wf() == old(self).trackers.textures.wf(),
            final(self).status == old(self).status,
    {
        match &mut self.commands {
            Some(list) => {
                list.push(command);
            },
            None => {},
        }
    }

    /// Finishes the recording: the encoder is closed, and the command
    /// buffer can be submitted.
    pub fn finish(&mut self)
        requires
            old(self).wf(),
        ensures
            final(self).wf(),
            final(self)@ == (CommandBufferView {
                status: CommandEncoderStatus::Finished,
                encoder: if old(self)@.encoder.is_open {
                    CommandEncoderView {
                        raw: RawEncoderView { is_encoding: false, commands: Seq::empty() },
                        list: old(self)@.encoder.list.push(old(self)@.encoder.raw.commands),
                        is_open: false,
                    }
                } else {
                    old(self)@.encoder
                },
                ..old(self)@
            }),
    {
        self.encoder.close();
        self.status = CommandEncoderStatus::Finished;
    }
}

} // verus!
