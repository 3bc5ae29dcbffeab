//! The transfers that a command encoder records: between buffers, between
//! buffers and textures, and between textures.

use crate::command::{
    encoder_status, CommandBuffer, CommandBufferView, TraceCommand,
    TrackerSetView,
};
use crate::hal::{
    buffer_copies, buffer_transitions, BufferBarrier, BufferCopy, BUFFER_USES_COPY_DST,
    BUFFER_USES_COPY_SRC,
};
use crate::hub::{Global, GlobalView};
use crate::memory_init::{
    extend_actions, init_actions, uninitialized_in, AddressRange, MemoryInitKind,
};
use crate::outside::{
    buffer_usage_copy_dst, buffer_usage_copy_src, buffer_uses_copy_dst, buffer_uses_copy_src,
    copy_buffer_alignment,
};
use crate::resource::{Buffer, BufferView};
use crate::storage::Storage;
use crate::track::{
    buffer_barriers, pending_buffer_replace, push_buffer_barriers, use_replaced,
};
use crate::transfer::{CopyError, CopySide, TransferError};
use crate::types::{
    clamp_u64, has_usage, usage_contains, BufferAddress, BufferId, CommandEncoderId,
    BUFFER_USAGE_COPY_DST, BUFFER_USAGE_COPY_SRC, COPY_BUFFER_ALIGNMENT,
};
use vstd::prelude::*;

verus! {

/// Whether buffer `id` can be the source of a copy: it is registered, not
/// destroyed, and declared as a copy source.
pub open spec fn source_buffer_status(buffers: Map<u32, BufferView>, id: BufferId) -> Result<
    (),
    TransferError,
> {
    if !buffers.contains_key(id) || buffers[id].raw is None {
        Err(TransferError::InvalidBuffer(id))
    } else if !has_usage(buffers[id].usage, BUFFER_USAGE_COPY_SRC) {
        Err(TransferError::MissingCopySrcUsageFlag)
    } else {
        Ok(())
    }
}

/// Whether buffer `id` can be the destination of a copy: it is registered,
/// not destroyed, and declared as a copy destination.
pub open spec fn destination_buffer_status(buffers: Map<u32, BufferView>, id: BufferId) -> Result<
    (),
    TransferError,
> {
    if !buffers.contains_key(id) || buffers[id].raw is None {
        Err(TransferError::InvalidBuffer(id))
    } else if !has_usage(buffers[id].usage, BUFFER_USAGE_COPY_DST) {
        Err(TransferError::MissingCopyDstUsageFlag(Some(id), None))
    } else {
        Ok(())
    }
}

/// The rules of a copy of `size` bytes between two buffers, in their order:
/// the first one broken, or success.
pub open spec fn buffer_copy_status(
    buffers: Map<u32, BufferView>,
    source: BufferId,
    source_offset: BufferAddress,
    destination: BufferId,
    destination_offset: BufferAddress,
    size: BufferAddress,
) -> Result<(), TransferError> {
    if source_buffer_status(buffers, source) is Err {
        source_buffer_status(buffers, source)
    } else if destination_buffer_status(buffers, destination) is Err {
        destination_buffer_status(buffers, destination)
    } else if size % COPY_BUFFER_ALIGNMENT != 0 {
        Err(TransferError::UnalignedCopySize(size))
    } else if source_offset % COPY_BUFFER_ALIGNMENT != 0 {
        Err(TransferError::UnalignedBufferOffset(source_offset))
    } else if destination_offset % COPY_BUFFER_ALIGNMENT != 0 {
        Err(TransferError::UnalignedBufferOffset(destination_offset))
    } else if source_offset + size > buffers[source].size {
        Err(
            TransferError::BufferOverrun {
                start_offset: source_offset,
                end_offset: clamp_u64(source_offset + size),
                buffer_size: buffers[source].size,
                side: CopySide::Source,
            },
        )
    } else if destination_offset + size > buffers[destination].size {
        Err(
            TransferError::BufferOverrun {
                start_offset: destination_offset,
                end_offset: clamp_u64(destination_offset + size),
                buffer_size: buffers[destination].size,
                side: CopySide::Destination,
            },
        )
    } else {
        Ok(())
    }
}

/// What a copy between two buffers answers: that the encoder cannot record;
/// success for a copy of no bytes; else that source and destination are the
/// same, the first rule of the copy that is broken, or success.
pub open spec fn copy_buffer_to_buffer_result(
    global: GlobalView,
    command_encoder_id: CommandEncoderId,
    source: BufferId,
    source_offset: BufferAddress,
    destination: BufferId,
    destination_offset: BufferAddress,
    size: BufferAddress,
) -> Result<(), CopyError> {
    match encoder_status(global.command_buffers, command_encoder_id) {
        Err(error) => Err(CopyError::Encoder(error)),
        Ok(()) => if size == 0 {
            Ok(())
        } else if source == destination {
            Err(CopyError::Transfer(TransferError::SameSourceDestinationBuffer))
        } else {
            match buffer_copy_status(
                global.buffers,
                source,
                source_offset,
                destination,
                destination_offset,
                size,
            ) {
                Err(error) => Err(CopyError::Transfer(error)),
                Ok(()) => Ok(()),
            }
        },
    }
}

/// The uninitialized ranges of `buffer` among the bytes from `start` up to
/// `end`, as actions of kind `kind`.
pub open spec fn buffer_init_actions(
    buffer: BufferView,
    id: BufferId,
    start: BufferAddress,
    end: BufferAddress,
    kind: MemoryInitKind,
) -> Seq<crate::memory_init::MemoryInitTrackerAction> {
    init_actions(uninitialized_in(buffer.uninitialized, start as int, end as int), id, kind)
}

/// A command buffer once it has recorded a copy of `size` bytes, not zero,
/// that meets the rules: source and destination are put to their uses, the
/// destination's bytes count as written and the source's as read, and the
/// encoder has recorded the barriers and the copy.
pub open spec fn buffer_copy_recorded(
    command_buffer: CommandBufferView,
    buffers: Map<u32, BufferView>,
    source: BufferId,
    source_offset: BufferAddress,
    destination: BufferId,
    destination_offset: BufferAddress,
    size: BufferAddress,
) -> CommandBufferView {
    let uses = command_buffer.trackers.buffers;
    let source_pending = pending_buffer_replace(uses, source, BUFFER_USES_COPY_SRC);
    let uses_after = uses.insert(source, use_replaced(uses, source, BUFFER_USES_COPY_SRC));
    let destination_pending = pending_buffer_replace(
        uses_after,
        destination,
        BUFFER_USES_COPY_DST,
    );
    let source_raw = buffers[source].raw.unwrap();
    let destination_raw = buffers[destination].raw.unwrap();
    CommandBufferView {
        trackers: TrackerSetView {
            buffers: uses_after.insert(
                destination,
                use_replaced(uses_after, destination, BUFFER_USES_COPY_DST),
            ),
            ..command_buffer.trackers
        },
        buffer_memory_init_actions: command_buffer.buffer_memory_init_actions
            + buffer_init_actions(
            buffers[destination],
            destination,
            destination_offset,
            (destination_offset + size) as u64,
            MemoryInitKind::ImplicitlyInitialized,
        ) + buffer_init_actions(
            buffers[source],
            source,
            source_offset,
            (source_offset + size) as u64,
            MemoryInitKind::NeedsInitializedMemory,
        ),
        encoder: command_buffer.encoder.opened().recorded(
            buffer_transitions(
                buffer_barriers(source_pending, source_raw) + buffer_barriers(
                    destination_pending,
                    destination_raw,
                ),
            ) + buffer_copies(
                source_raw,
                destination_raw,
                seq![
                    BufferCopy {
                        src_offset: source_offset,
                        dst_offset: destination_offset,
                        size,
                    },
                ],
            ),
        ),
        ..command_buffer
    }
}

/// The registries after a copy between two buffers: unchanged where the
/// encoder cannot record; else the copy is traced, and recorded if it has
/// bytes and succeeds.
pub open spec fn copy_buffer_to_buffer_state(
    global: GlobalView,
    command_encoder_id: CommandEncoderId,
    source: BufferId,
    source_offset: BufferAddress,
    destination: BufferId,
    destination_offset: BufferAddress,
    size: BufferAddress,
) -> GlobalView {
    if encoder_status(global.command_buffers, command_encoder_id) is Err {
        global
    } else {
        let traced = global.command_buffers[command_encoder_id].traced(
            TraceCommand::CopyBufferToBuffer {
                src: source,
                src_offset: source_offset,
                dst: destination,
                dst_offset: destination_offset,
                size,
            },
        );
        let after = if size != 0 && copy_buffer_to_buffer_result(
            global,
            command_encoder_id,
            source,
            source_offset,
            destination,
            destination_offset,
            size,
        ) is Ok {
            buffer_copy_recorded(
                traced,
                global.buffers,
                source,
                source_offset,
                destination,
                destination_offset,
                size,
            )
        } else {
            traced
        };
        GlobalView {
            command_buffers: global.command_buffers.insert(command_encoder_id, after),
            ..global
        }
    }
}

/// Checks buffer `id` as the source of a copy.
pub(crate) fn check_source_buffer(buffers: &Storage<Buffer>, id: BufferId) -> (res: Result<
    (),
    TransferError,
>)
    ensures
        res == source_buffer_status(buffers.deep(), id),
{
    match buffers.get(id) {
        None => Err(TransferError::InvalidBuffer(id)),
        Some(buffer) => {
            if buffer.raw.is_none() {
                Err(TransferError::InvalidBuffer(id))
            } else if !usage_contains(buffer.usage, buffer_usage_copy_src()) {
                Err(TransferError::MissingCopySrcUsageFlag)
            } else {
                Ok(())
            }
        },
    }
}

/// Checks buffer `id` as the destination of a copy.
pub(crate) fn check_destination_buffer(buffers: &Storage<Buffer>, id: BufferId) -> (res: Result<
    (),
    TransferError,
>)
    ensures
        res == destination_buffer_status(buffers.deep(), id),
{
    match buffers.get(id) {
        None => Err(TransferError::InvalidBuffer(id)),
        Some(buffer) => {
            if buffer.raw.is_none() {
                Err(TransferError::InvalidBuffer(id))
            } else if !usage_contains(buffer.usage, buffer_usage_copy_dst()) {
                Err(TransferError::MissingCopyDstUsageFlag(Some(id), None))
            } else {
                Ok(())
            }
        },
    }
}

/// The end of `size` bytes from `offset`, or `u64::MAX` where it is larger.
fn clamped_end(offset: BufferAddress, size: BufferAddress) -> (end: BufferAddress)
    ensures
        end == clamp_u64(offset + size),
{
    match offset.checked_add(size) {
        Some(end) => end,
        None => u64::MAX,
    }
}

/// Checks a copy of `size` bytes between two buffers against the rules.
fn check_buffer_copy(
    buffers: &Storage<Buffer>,
    source: BufferId,
    source_offset: BufferAddress,
    destination: BufferId,
    destination_offset: BufferAddress,
    size: BufferAddress,
) -> (res: Result<(), TransferError>)
    ensures
        res == buffer_copy_status(
            buffers.deep(),
            source,
            source_offset,
            destination,
            destination_offset,
            size,
        ),
{
    match check_source_buffer(buffers, source) {
        Err(error) => {
            return Err(error);
        },
        Ok(()) => {},
    }
    match check_destination_buffer(buffers, destination) {
        Err(error) => {
            return Err(error);
        },
        Ok(()) => {},
    }
    let src_size: u64 = buffers.get(source).unwrap().size;
    let dst_size: u64 = buffers.get(destination).unwrap().size;
    let alignment: u64 = copy_buffer_alignment();
    if size % alignment != 0 {
        return Err(TransferError::UnalignedCopySize(size));
    }
    if source_offset % alignment != 0 {
        return Err(TransferError::UnalignedBufferOffset(source_offset));
    }
    if destination_offset % alignment != 0 {
        return Err(TransferError::UnalignedBufferOffset(destination_offset));
    }
    if source_offset as u128 + size as u128 > src_size as u128 {
        return Err(
            TransferError::BufferOverrun {
                start_offset: source_offset,
                end_offset: clamped_end(source_offset, size),
                buffer_size: src_size,
                side: CopySide::Source,
            },
        );
    }
    if destination_offset as u128 + size as u128 > dst_size as u128 {
        return Err(
            TransferError::BufferOverrun {
                start_offset: destination_offset,
                end_offset: clamped_end(destination_offset, size),
                buffer_size: dst_size,
                side: CopySide::Destination,
            },
        );
    }
    Ok(())
}

/// Records a copy of `size` bytes, not zero, that meets the rules.
fn record_buffer_copy(
    cmd_buf: &mut CommandBuffer,
    buffers: &Storage<Buffer>,
    source: BufferId,
    source_offset: BufferAddress,
    destination: BufferId,
    destination_offset: BufferAddress,
    size: BufferAddress,
)
    requires
        old(cmd_buf)@.encoder.wf(),
        buffer_copy_status(
            buffers.deep(),
            source,
            source_offset,
            destination,
            destination_offset,
            size,
        ) is Ok,
        buffers@[source]@.wf(),
        buffers@[destination]@.wf(),
    ensures
        final(cmd_buf)@ == buffer_copy_recorded(
            old(cmd_buf)@,
            buffers.deep(),
            source,
            source_offset,
            destination,
            destination_offset,
            size,
        ),
        final(cmd_buf)@.encoder.wf(),
        final(cmd_buf).trackers.textures == old(cmd_buf).trackers.textures,
        final(cmd_buf).status == old(cmd_buf).status,
{
    let (src_buffer, src_pending) = cmd_buf.trackers.buffers.use_replace(
        buffers,
        source,
        buffer_uses_copy_src(),
    ).unwrap();
    let (dst_buffer, dst_pending) = cmd_buf.trackers.buffers.use_replace(
        buffers,
        destination,
        buffer_uses_copy_dst(),
    ).unwrap();
    let mut barriers: Vec<BufferBarrier> = Vec::new();
    push_buffer_barriers(&mut barriers, &src_pending, src_buffer);
    push_buffer_barriers(&mut barriers, &dst_pending, dst_buffer);

    // The source has to be initialized; the destination is from now on.
    let dst_ranges = dst_buffer.initialization_status.check(
        AddressRange { start: destination_offset, end: destination_offset + size },
    );
    extend_actions(
        &mut cmd_buf.buffer_memory_init_actions,
        &dst_ranges,
        destination,
        MemoryInitKind::ImplicitlyInitialized,
    );
    let src_ranges = src_buffer.initialization_status.check(
        AddressRange { start: source_offset, end: source_offset + size },
    );
    extend_actions(
        &mut cmd_buf.buffer_memory_init_actions,
        &src_ranges,
        source,
        MemoryInitKind::NeedsInitializedMemory,
    );

    let region = BufferCopy { src_offset: source_offset, dst_offset: destination_offset, size };
    cmd_buf.encoder.open();
    cmd_buf.encoder.raw.transition_buffers(&barriers);
    let mut regions: Vec<BufferCopy> = Vec::new();
    regions.push(region);
    cmd_buf.encoder.raw.copy_buffer_to_buffer(
        src_buffer.raw.unwrap(),
        dst_buffer.raw.unwrap(),
        &regions,
    );
    proof {
        let target = buffer_copy_recorded(
            old(cmd_buf)@,
            buffers.deep(),
            source,
            source_offset,
            destination,
            destination_offset,
            size,
        );
        assert(cmd_buf@.encoder.raw.commands =~= target.encoder.raw.commands);
        assert(cmd_buf@.buffer_memory_init_actions =~= target.buffer_memory_init_actions);
        assert(cmd_buf@.trackers =~= target.trackers);
        assert(cmd_buf@.encoder =~= target.encoder);
        assert(cmd_buf@ =~= target);
    }
}

impl Global {
    /// Records, on command encoder `command_encoder_id`, a copy of `size`
    /// bytes from `source_offset` of buffer `source` to `destination_offset`
    /// of buffer `destination`. A copy of no bytes succeeds and records
    /// nothing; a copy that breaks a rule fails and records nothing.
    pub fn command_encoder_copy_buffer_to_buffer(
        &mut self,
        command_encoder_id: CommandEncoderId,
        source: BufferId,
        source_offset: BufferAddress,
        destination: BufferId,
        destination_offset: BufferAddress,
        size: BufferAddress,
    ) -> (res: Result<(), CopyError>)
        requires
            old(self).wf(),
        ensures
            res == copy_buffer_to_buffer_result(
                old(self)@,
                command_encoder_id,
                source,
                source_offset,
                destination,
                destination_offset,
                size,
            ),
            final(self)@ == copy_buffer_to_buffer_state(
                old(self)@,
                command_encoder_id,
                source,
                source_offset,
                destination,
                destination_offset,
                size,
            ),
            final(self).wf(),
    {
        match CommandBuffer::get_encoder(&self.command_buffers, command_encoder_id) {
            Err(error) => {
                return Err(CopyError::Encoder(error));
            },
            Ok(()) => {},
        }
        let mut cmd_buf = self.command_buffers.remove(command_encoder_id).unwrap();
        cmd_buf.trace(
            TraceCommand::CopyBufferToBuffer {
                src: source,
                src_offset: source_offset,
                dst: destination,
                dst_offset: destination_offset,
                size,
            },
        );
        let res = if size == 0 {
            Ok(())
        } else if source == destination {
            Err(CopyError::Transfer(TransferError::SameSourceDestinationBuffer))
        } else {
            match check_buffer_copy(
                &self.buffers,
                source,
                source_offset,
                destination,
                destination_offset,
                size,
            ) {
                Err(error) => Err(CopyError::Transfer(error)),
                Ok(()) => {
                    record_buffer_copy(
                        &mut cmd_buf,
                        &self.buffers,
                        source,
                        source_offset,
                        destination,
                        destination_offset,
                        size,
                    );
                    Ok(())
                },
            }
        };
        let ghost after = cmd_buf@;
        self.command_buffers.insert(command_encoder_id, cmd_buf);
        proof {
            assert(self.command_buffers.deep() =~= old(self).command_buffers.deep().insert(
                command_encoder_id,
                after,
            ));
            assert(self@ =~= copy_buffer_to_buffer_state(
                old(self)@,
                command_encoder_id,
                source,
                source_offset,
                destination,
                destination_offset,
                size,
            ));
        }
        res
    }
}

} // verus!
