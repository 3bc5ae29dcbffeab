use transfer_core::command::{CommandBuffer, CommandEncoder, CommandEncoderStatus, TrackerSet};
use transfer_core::device::{
    Alignments, CommandAllocator, Device, EncoderInFlight, LifetimeTracker, PendingWrites,
    StagingData, SuspectedResources, TempResource, WRITE_COMMAND_BUFFERS_PER_POOL,
};
use transfer_core::hal::{
    BufferBarrier, BufferCopy, BufferTextureCopy, Command, CopyExtent, ImageSubresourceRange,
    RawCommandBuffer, RawEncoder, TextureBarrier, TextureCopy, TextureCopyBase, UsageRange,
};
use transfer_core::outside::SignalList;
use transfer_core::resource::{Buffer, BufferMapState, LifeGuard};
use transfer_core::types::{
    usage_contains, Extent3d, ImageDataLayout, Origin3d, BUFFER_USAGE_COPY_DST,
    BUFFER_USAGE_COPY_SRC, BUFFER_USAGE_MAP_WRITE, COPY_BUFFER_ALIGNMENT,
    COPY_BYTES_PER_ROW_ALIGNMENT,
};

fn fill(start: u64) -> Command {
    Command::FillBuffer { buffer: 1, start, end: start + 4, value: 0 }
}

fn base(array_layer: u32) -> TextureCopyBase {
    TextureCopyBase { mip_level: 0, array_layer, origin: Origin3d { x: 0, y: 0, z: 0 }, aspect: 1 }
}

#[test]
fn constants_are_those_of_the_interface() {
    assert_eq!(COPY_BUFFER_ALIGNMENT, 4);
    assert_eq!(COPY_BYTES_PER_ROW_ALIGNMENT, 256);
    assert_eq!(WRITE_COMMAND_BUFFERS_PER_POOL, 64);
    assert_eq!(COPY_BUFFER_ALIGNMENT, wgpu_types::COPY_BUFFER_ALIGNMENT);
    assert_eq!(COPY_BYTES_PER_ROW_ALIGNMENT, wgpu_types::COPY_BYTES_PER_ROW_ALIGNMENT);
    assert_eq!(BUFFER_USAGE_COPY_SRC, wgpu_types::BufferUsages::COPY_SRC.bits());
    assert_eq!(BUFFER_USAGE_COPY_DST, wgpu_types::BufferUsages::COPY_DST.bits());
    assert_eq!(BUFFER_USAGE_MAP_WRITE, wgpu_types::BufferUsages::MAP_WRITE.bits());
}

#[test]
fn usage_sets_hold_flags() {
    assert!(usage_contains(BUFFER_USAGE_COPY_SRC | BUFFER_USAGE_COPY_DST, BUFFER_USAGE_COPY_DST));
    assert!(!usage_contains(BUFFER_USAGE_COPY_SRC, BUFFER_USAGE_COPY_DST));
    assert!(!usage_contains(BUFFER_USAGE_COPY_SRC, BUFFER_USAGE_COPY_SRC | BUFFER_USAGE_COPY_DST));
    assert!(usage_contains(0, 0));
    let empty = Extent3d { width: 4, height: 4, depth_or_array_layers: 0 };
    assert!(empty.has_no_texels());
    assert!(!Extent3d { depth_or_array_layers: 1, ..empty }.has_no_texels());
}

#[test]
fn life_guard_records_the_submission_and_tells_who_refers() {
    let mut guard = LifeGuard::new();
    assert!(guard.use_at(5));
    assert_eq!(guard, LifeGuard { ref_count: true, submission_index: 5 });
    let mut dropped = LifeGuard { ref_count: false, submission_index: 1 };
    assert!(!dropped.use_at(6));
    assert_eq!(dropped.submission_index, 6);
    let buffer = Buffer::new(9, BUFFER_USAGE_COPY_SRC, 16);
    assert_eq!(buffer.map_state, BufferMapState::Idle);
    assert_eq!(buffer.life_guard, LifeGuard::new());
}

#[test]
fn raw_encoder_records_between_begin_and_end() {
    let mut encoder = RawEncoder::new();
    assert!(!encoder.is_encoding);
    encoder.begin_encoding();
    encoder.record(fill(0));
    encoder.fill_buffer(1, 4, 8, 0);
    let done = encoder.end_encoding();
    assert_eq!(done.commands, vec![fill(0), fill(4)]);
    assert!(!encoder.is_encoding && encoder.commands.is_empty());
    encoder.begin_encoding();
    encoder.record(fill(8));
    encoder.discard_encoding();
    assert!(!encoder.is_encoding && encoder.commands.is_empty());
}

#[test]
fn raw_encoder_records_one_command_for_each_barrier_and_region() {
    let buffer_barrier = |buffer| BufferBarrier { buffer, usage: UsageRange { start: 0, end: 4 } };
    let texture_barrier = |texture| TextureBarrier {
        texture,
        range: ImageSubresourceRange {
            base_mip_level: 0,
            mip_level_count: None,
            base_array_layer: 0,
            array_layer_count: None,
        },
        usage: UsageRange { start: 1, end: 2 },
    };
    let region = |array_layer| BufferTextureCopy {
        buffer_layout: ImageDataLayout { offset: 0, bytes_per_row: None, rows_per_image: None },
        texture_base: base(array_layer),
        size: CopyExtent { width: 1, height: 1, depth: 1 },
    };
    let copy = |array_layer| TextureCopy {
        src_base: base(array_layer),
        dst_base: base(array_layer + 1),
        size: CopyExtent { width: 1, height: 1, depth: 1 },
    };
    let bytes = |src_offset| BufferCopy { src_offset, dst_offset: 0, size: 4 };
    let mut encoder = RawEncoder::new();
    encoder.begin_encoding();
    encoder.transition_buffers(&vec![buffer_barrier(1), buffer_barrier(2)]);
    encoder.transition_textures(&vec![texture_barrier(3)]);
    encoder.transition_textures(&vec![]);
    encoder.copy_buffer_to_buffer(1, 2, &vec![bytes(0), bytes(4)]);
    encoder.copy_buffer_to_texture(1, 3, &vec![region(0), region(1)]);
    encoder.copy_texture_to_buffer(3, 1, 2, &vec![region(2)]);
    encoder.copy_texture_to_texture(3, 1, 4, &vec![copy(0), copy(1)]);
    assert_eq!(
        encoder.commands,
        vec![
            Command::TransitionBuffer(buffer_barrier(1)),
            Command::TransitionBuffer(buffer_barrier(2)),
            Command::TransitionTexture(texture_barrier(3)),
            Command::CopyBufferToBuffer { src: 1, dst: 2, region: bytes(0) },
            Command::CopyBufferToBuffer { src: 1, dst: 2, region: bytes(4) },
            Command::CopyBufferToTexture { src: 1, dst: 3, region: region(0) },
            Command::CopyBufferToTexture { src: 1, dst: 3, region: region(1) },
            Command::CopyTextureToBuffer { src: 3, src_usage: 1, dst: 2, region: region(2) },
            Command::CopyTextureToTexture { src: 3, src_usage: 1, dst: 4, copy: copy(0) },
            Command::CopyTextureToTexture { src: 3, src_usage: 1, dst: 4, copy: copy(1) },
        ]
    );
}

#[test]
fn command_encoder_opens_once_and_closes_into_its_list() {
    let mut encoder = CommandEncoder::new(RawEncoder::new());
    assert!(!encoder.is_open);
    encoder.close();
    assert!(encoder.list.is_empty());
    encoder.open();
    encoder.raw.record(fill(0));
    encoder.open();
    assert_eq!(encoder.raw.commands, vec![fill(0)]);
    encoder.close();
    assert!(!encoder.is_open && !encoder.raw.is_encoding);
    assert_eq!(encoder.list.len(), 1);
    assert_eq!(encoder.list[0].commands, vec![fill(0)]);
}

#[test]
fn command_buffer_starts_recording_and_finishes_closed() {
    let mut cmd_buf = CommandBuffer::new(RawEncoder::new(), 3, true);
    assert_eq!(cmd_buf.status, CommandEncoderStatus::Recording);
    assert_eq!(cmd_buf.device_id, 3);
    assert_eq!(cmd_buf.commands, Some(vec![]));
    assert!(!cmd_buf.is_finished());
    cmd_buf.encoder.open();
    cmd_buf.encoder.raw.record(fill(0));
    cmd_buf.finish();
    assert!(cmd_buf.is_finished());
    assert!(!cmd_buf.encoder.is_open);
    assert_eq!(cmd_buf.encoder.list.len(), 1);
    let trackers = TrackerSet::new();
    assert!(trackers.views.is_empty() && trackers.bundles.is_empty());
    assert_eq!(trackers.buffers.used(), Vec::<u32>::new());
}

#[test]
fn pending_writes_activate_once_and_deactivate_by_discarding() {
    let mut writes = PendingWrites::new(RawEncoder::new());
    assert!(!writes.is_active && writes.temp_resources.is_empty());
    assert!(writes.dst_buffers.is_empty() && writes.dst_textures.is_empty());
    assert!(writes.executing_command_buffers.is_empty());
    writes.activate();
    assert!(writes.is_active && writes.command_encoder.is_encoding);
    writes.command_encoder.record(fill(0));
    writes.activate();
    assert_eq!(writes.command_encoder.commands, vec![fill(0)]);
    writes.deactivate();
    assert!(!writes.is_active && !writes.command_encoder.is_encoding);
    assert!(writes.command_encoder.commands.is_empty());
    writes.deactivate();
    assert!(!writes.is_active);
}

#[test]
fn pending_writes_keep_temporary_resources_in_order() {
    let mut writes = PendingWrites::new(RawEncoder::new());
    writes.consume_temp(TempResource::Texture(7));
    writes.consume(StagingData { buffer: 8 });
    writes.consume_temp(TempResource::Buffer(9));
    assert_eq!(
        writes.temp_resources,
        vec![TempResource::Texture(7), TempResource::Buffer(8), TempResource::Buffer(9)]
    );
    writes.activate();
    writes.command_encoder.record(fill(0));
    let disposal = writes.dispose();
    assert!(!disposal.command_encoder.is_encoding);
    assert!(disposal.command_encoder.commands.is_empty());
    assert_eq!(
        disposal.resources,
        vec![TempResource::Texture(7), TempResource::Buffer(8), TempResource::Buffer(9)]
    );
}

#[test]
fn pending_writes_end_their_command_buffer_at_a_submission() {
    let mut writes = PendingWrites::new(RawEncoder::new());
    writes.dst_buffers.insert(3);
    writes.dst_textures.insert(4);
    assert!(!writes.pre_submit());
    assert!(writes.dst_buffers.is_empty() && writes.dst_textures.is_empty());
    writes.activate();
    writes.command_encoder.record(fill(0));
    assert!(writes.pre_submit());
    assert!(!writes.is_active);
    assert_eq!(writes.executing_command_buffers.len(), 1);
    assert_eq!(writes.executing_command_buffers[0].commands, vec![fill(0)]);
    let mut allocator = CommandAllocator { free_encoders: vec![RawEncoder::new()] };
    assert!(writes.post_submit(&mut allocator).is_none());
    assert_eq!(allocator.free_encoders.len(), 1);
    while writes.executing_command_buffers.len() < WRITE_COMMAND_BUFFERS_PER_POOL {
        writes.executing_command_buffers.push(RawCommandBuffer { commands: vec![] });
    }
    let retired = writes.post_submit(&mut allocator).unwrap();
    assert_eq!(retired.cmd_buffers.len(), WRITE_COMMAND_BUFFERS_PER_POOL);
    assert!(writes.executing_command_buffers.is_empty());
    assert!(allocator.free_encoders.is_empty());
    assert!(!retired.land().is_encoding);
    // With no free pool left, a new one is made.
    assert!(!allocator.acquire_encoder().is_encoding);
}

#[test]
fn suspicions_and_submissions_are_kept_in_order() {
    let mut suspected = SuspectedResources::new();
    suspected.buffers.push(1);
    suspected.render_bundles.push(2);
    suspected.clear();
    assert!(suspected.buffers.is_empty() && suspected.render_bundles.is_empty());
    let mut tracker = LifetimeTracker { active: vec![] };
    tracker.track_submission(1, vec![TempResource::Buffer(5)], vec![]);
    tracker.track_submission(
        2,
        vec![],
        vec![EncoderInFlight { raw: RawEncoder::new(), cmd_buffers: vec![] }],
    );
    assert_eq!(tracker.active.len(), 2);
    assert_eq!(tracker.active[0].index, 1);
    assert_eq!(tracker.active[0].last_resources, vec![TempResource::Buffer(5)]);
    assert_eq!(tracker.active[1].encoders.len(), 1);
    let device = Device::new(Alignments { buffer_copy_offset: 4, buffer_copy_pitch: 64 });
    assert_eq!(device.active_submission_index, 0);
    assert_eq!(device.alignments.buffer_copy_pitch, 64);
    assert!(device.life_tracker.active.is_empty());
}

#[test]
fn signal_list_keeps_what_is_pushed_in_order() {
    let mut list = SignalList::new();
    assert_eq!(list.to_vec(), Vec::<u32>::new());
    list.push(4);
    list.push(2);
    list.push(4);
    assert_eq!(list.to_vec(), vec![4, 2, 4]);
}

#[test]
fn uses_and_usages_are_those_of_the_backend_and_of_the_types() {
    assert_eq!(transfer_core::hal::BUFFER_USES_MAP_WRITE, wgpu_hal::BufferUses::MAP_WRITE.bits());
    assert_eq!(transfer_core::hal::BUFFER_USES_COPY_SRC, wgpu_hal::BufferUses::COPY_SRC.bits());
    assert_eq!(transfer_core::hal::BUFFER_USES_COPY_DST, wgpu_hal::BufferUses::COPY_DST.bits());
    assert_eq!(transfer_core::hal::TEXTURE_USES_COPY_SRC, wgpu_hal::TextureUses::COPY_SRC.bits());
    assert_eq!(transfer_core::hal::TEXTURE_USES_COPY_DST, wgpu_hal::TextureUses::COPY_DST.bits());
    assert_eq!(
        transfer_core::types::BUFFER_USAGE_MAP_WRITE,
        wgpu_types::BufferUsages::MAP_WRITE.bits()
    );
    assert_eq!(
        transfer_core::types::BUFFER_USAGE_COPY_SRC,
        wgpu_types::BufferUsages::COPY_SRC.bits()
    );
    assert_eq!(
        transfer_core::types::BUFFER_USAGE_COPY_DST,
        wgpu_types::BufferUsages::COPY_DST.bits()
    );
    assert_eq!(
        transfer_core::types::TEXTURE_USAGE_COPY_SRC,
        wgpu_types::TextureUsages::COPY_SRC.bits()
    );
    assert_eq!(
        transfer_core::types::TEXTURE_USAGE_COPY_DST,
        wgpu_types::TextureUsages::COPY_DST.bits()
    );
}
