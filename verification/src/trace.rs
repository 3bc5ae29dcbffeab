//! The trace of what a queue was asked for, kept where the device is traced.

use crate::command::TraceCommand;
use crate::memory_init::AddressRange;
use crate::types::{
    clamp_u64, BufferAddress, BufferId, Extent3d, ImageCopyTexture, ImageDataLayout,
    SubmissionIndex,
};
use vstd::prelude::*;
use vstd::slice::slice_to_vec;

verus! {

/// Something that a queue was asked for.
#[derive(Clone, Copy, Debug, PartialEq, Eq)]
pub enum Action {
    /// A write into a buffer. `data` is the number of the binary that holds
    /// the bytes; `range` is where in the buffer they go.
    WriteBuffer { id: BufferId, data: usize, range: AddressRange, queued: bool },
    /// A write into a texture. `data` is the number of the binary that holds
    /// the bytes.
    WriteTexture { to: ImageCopyTexture, data: usize, layout: ImageDataLayout, size: Extent3d },
    /// The submission of a command buffer. `commands` is the number of the
    /// list of commands that it had recorded.
    Submit { index: SubmissionIndex, commands: usize },
}

/// The trace of a device.
#[derive(Debug)]
pub struct Trace {
    /// The actions, in their order.
    pub actions: Vec<Action>,
    /// The binaries that the actions refer to, by number.
    pub binaries: Vec<Vec<u8>>,
    /// The lists of commands that the actions refer to, by number.
    pub command_lists: Vec<Vec<TraceCommand>>,
}

/// What is known of a trace.
#[verifier::ext_equal]
pub struct TraceView {
    pub actions: Seq<Action>,
    pub binaries: Seq<Seq<u8>>,
    pub command_lists: Seq<Seq<TraceCommand>>,
}

impl View for Trace {
    type V = TraceView;

    open spec fn view(&self) -> TraceView {
        TraceView {
            actions: self.actions@,
            binaries: self.binaries@.map_values(|binary: Vec<u8>| binary@),
            command_lists: self.command_lists@.map_values(|list: Vec<TraceCommand>| list@),
        }
    }
}

/// What is known of the trace of a device, if it has one.
pub open spec fn trace_view(trace: Option<Trace>) -> Option<TraceView> {
    match trace {
        Some(trace) => Some(trace@),
        None => None,
    }
}

impl TraceView {
    /// The trace once a write of `data` into buffer `id` at `offset` is
    /// added: the data is one more binary, and the action names it.
    pub open spec fn with_write_buffer(
        self,
        id: BufferId,
        offset: BufferAddress,
        data: Seq<u8>,
    ) -> TraceView {
        TraceView {
            actions: self.actions.push(
                Action::WriteBuffer {
                    id,
                    data: self.binaries.len() as usize,
                    range: AddressRange { start: offset, end: clamp_u64(offset + data.len()) },
                    queued: true,
                },
            ),
            binaries: self.binaries.push(data),
            ..self
        }
    }

    /// The trace once a write of `data` into a texture is added: the data is
    /// one more binary, and the action names it.
    pub open spec fn with_write_texture(
        self,
        to: ImageCopyTexture,
        data: Seq<u8>,
        layout: ImageDataLayout,
        size: Extent3d,
    ) -> TraceView {
        TraceView {
            actions: self.actions.push(
                Action::WriteTexture { to, data: self.binaries.len() as usize, layout, size },
            ),
            binaries: self.binaries.push(data),
            ..self
        }
    }

    /// The trace once the submission of a command buffer that had recorded
    /// `commands` is added: the commands are one more list, and the action
    /// names it. A command buffer without a trace counts as having recorded
    /// nothing.
    pub open spec fn with_submit(
        self,
        index: SubmissionIndex,
        commands: Option<Seq<TraceCommand>>,
    ) -> TraceView {
        TraceView {
            actions: self.actions.push(
                Action::Submit { index, commands: self.command_lists.len() as usize },
            ),
            command_lists: self.command_lists.push(
                match commands {
                    Some(list) => list,
                    None => Seq::empty(),
                },
            ),
            ..self
        }
    }
}

impl Trace {
    /// A trace that holds nothing.
    pub fn new() -> (trace: Self)
        ensures
            trace@ == (TraceView {
                actions: Seq::empty(),
                binaries: Seq::empty(),
                command_lists: Seq::empty(),
            }),
    {
        let trace = Trace { actions: Vec::new(), binaries: Vec::new(), command_lists: Vec::new() };
        assert(trace@.binaries =~= Seq::empty());
        assert(trace@.command_lists =~= Seq::empty());
        trace
    }

    /// Keeps a copy of `data` as a binary and returns its number.
    pub fn make_binary(&mut self, data: &[u8]) -> (number: usize)
        ensures
            number == old(self)@.binaries.len(),
            final(self)@ == (TraceView {
                binaries: old(self)@.binaries.push(data@),
                ..old(self)@
            }),
    {
        let number = self.binaries.len();
        self.binaries.push(slice_to_vec(data));
        assert(self@.binaries =~= old(self)@.binaries.push(data@));
        number
    }

    /// Adds `action` at the end.
    pub fn add(&mut self, action: Action)
        ensures
            final(self)@ == (TraceView {
                actions: old(self)@.actions.push(action),
                ..old(self)@
            }),
    {
        self.actions.push(action);
    }

    /// Adds the write of `data` into buffer `id` at `offset`.
    pub fn add_write_buffer(&mut self, id: BufferId, offset: BufferAddress, data: &[u8])
        ensures
            final(self)@ == old(self)@.with_write_buffer(id, offset, data@),
    {
        let number = self.make_binary(data);
        let end: u64 = match offset.checked_add(data.len() as u64) {
            Some(end) => end,
            None => u64::MAX,
        };
        self.add(
            Action::WriteBuffer {
                id,
                data: number,
                range: AddressRange { start: offset, end },
                queued: true,
            },
        );
    }

    /// Adds the write of `data` into a texture.
    pub fn add_write_texture(
        &mut self,
        to: &ImageCopyTexture,
        data: &[u8],
        layout: &ImageDataLayout,
        size: &Extent3d,
    )
        ensures
            final(self)@ == old(self)@.with_write_texture(*to, data@, *layout, *size),
    {
        let number = self.make_binary(data);
        self.add(Action::WriteTexture { to: *to, data: number, layout: *layout, size: *size });
    }

    /// Adds the submission of a command buffer that had recorded
    /// `commands`.
    pub fn add_submit(&mut self, index: SubmissionIndex, commands: Option<Vec<TraceCommand>>)
        ensures
            final(self)@ == old(self)@.with_submit(
                index,
                match commands {
                    Some(list) => Some(list@),
                    None => None,
                },
            ),
    {
        let number = self.command_lists.len();
        let list = match commands {
            Some(list) => list,
            None => Vec::new(),
        };
        let ghost added = list@;
        self.command_lists.push(list);
        assert(self@.command_lists =~= old(self)@.command_lists.push(added));
        self.add(Action::Submit { index, commands: number });
    }
}

} // verus!
