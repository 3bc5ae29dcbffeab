use transfer_core::command::CommandBuffer;
use transfer_core::device::{
    Alignments, Device, DeviceError, StageDescriptor, StagingData, TempResource, WaitIdleError,
    WRITE_COMMAND_BUFFERS_PER_POOL,
};
use transfer_core::hal::{
    BufferBarrier, BufferCopy, BufferTextureCopy, Command, CopyExtent, ImageSubresourceRange,
    RawCommandBuffer, RawEncoder, TextureBarrier, TextureCopyBase, UsageRange,
    BUFFER_USES_COPY_DST, BUFFER_USES_COPY_SRC, BUFFER_USES_MAP_WRITE, TEXTURE_USES_COPY_DST,
};
use transfer_core::hub::Global;
use transfer_core::memory_init::AddressRange;
use transfer_core::queue::{QueueSubmitError, QueueWriteError};
use transfer_core::resource::{
    BindGroup, Buffer, BufferMapState, LifeGuard, RenderBundle, Stateless, SwapChain, Texture,
};
use transfer_core::track::ResourceUse;
use transfer_core::transfer::{CopySide, TransferError};
use transfer_core::types::{
    Extent3d, FormatDescriptor, ImageCopyTexture, ImageDataLayout, Origin3d, TextureAspect,
    TextureDescriptor, TextureDimension, ASPECT_COLOR, BUFFER_USAGE_COPY_DST,
    BUFFER_USAGE_COPY_SRC, TEXTURE_USAGE_COPY_DST, TEXTURE_USAGE_COPY_SRC,
};

const QUEUE: u32 = 0;

fn with_device() -> Global {
    let mut global = Global::new();
    global
        .devices
        .insert(QUEUE, Device::new(Alignments { buffer_copy_offset: 1, buffer_copy_pitch: 256 }));
    global
}

fn device(global: &Global) -> &Device {
    global.devices.get(QUEUE).unwrap()
}

fn staged(buffer: u64) -> Result<StagingData, DeviceError> {
    Ok(StagingData { buffer })
}

fn writable_texture(usage: u32) -> Texture {
    Texture {
        raw: Some(200),
        desc: TextureDescriptor {
            size: Extent3d { width: 16, height: 16, depth_or_array_layers: 2 },
            mip_level_count: 1,
            sample_count: 1,
            dimension: TextureDimension::D2,
            format: FormatDescriptor::describe(wgpu_types::TextureFormat::Rgba8Unorm, true, true),
            usage,
        },
        life_guard: LifeGuard::new(),
    }
}

fn whole_texture() -> ImageCopyTexture {
    ImageCopyTexture {
        texture: 0,
        mip_level: 0,
        origin: Origin3d { x: 0, y: 0, z: 0 },
        aspect: TextureAspect::All,
    }
}

fn staging_barrier(buffer: u64) -> Command {
    Command::TransitionBuffer(BufferBarrier {
        buffer,
        usage: UsageRange { start: BUFFER_USES_MAP_WRITE, end: BUFFER_USES_COPY_SRC },
    })
}

fn finished(global: &mut Global, id: u32, record: impl FnOnce(&mut Global)) {
    global.command_buffers.insert(id, CommandBuffer::new(RawEncoder::new(), QUEUE, false));
    record(global);
    let mut cmd_buf = global.command_buffers.remove(id).unwrap();
    cmd_buf.finish();
    global.command_buffers.insert(id, cmd_buf);
}

fn commands_of(buffers: &[RawCommandBuffer]) -> Vec<Vec<Command>> {
    buffers.iter().map(|buffer| buffer.commands.clone()).collect()
}

#[test]
fn write_buffer_records_the_copy_from_the_staging_buffer() {
    let mut global = with_device();
    global.buffers.insert(3, Buffer::new(103, BUFFER_USAGE_COPY_DST, 64));
    let data = [7u8; 16];
    assert_eq!(global.queue_write_buffer(QUEUE, 3, 8, &data, staged(900)), Ok(()));
    let writes = &device(&global).pending_writes;
    assert!(writes.is_active);
    assert_eq!(
        writes.command_encoder.commands,
        vec![
            staging_barrier(900),
            Command::TransitionBuffer(BufferBarrier {
                buffer: 103,
                usage: UsageRange { start: 0, end: BUFFER_USES_COPY_DST },
            }),
            Command::CopyBufferToBuffer {
                src: 900,
                dst: 103,
                region: BufferCopy { src_offset: 0, dst_offset: 8, size: 16 },
            },
        ]
    );
    assert_eq!(writes.temp_resources, vec![TempResource::Buffer(900)]);
    assert!(writes.dst_buffers.contains(&3) && writes.dst_buffers.len() == 1);
    assert_eq!(
        device(&global).trackers.buffers.states.get(3),
        Some(&ResourceUse { first: BUFFER_USES_COPY_DST, last: BUFFER_USES_COPY_DST })
    );
    let buffer = global.buffers.get(3).unwrap();
    assert_eq!(buffer.life_guard.submission_index, 1);
    // The bytes written no longer count as uninitialized.
    assert_eq!(
        buffer.initialization_status.uninitialized_ranges,
        vec![AddressRange { start: 0, end: 8 }, AddressRange { start: 24, end: 64 }]
    );
}

#[test]
fn write_buffer_of_no_bytes_changes_nothing() {
    let mut global = with_device();
    assert_eq!(global.queue_write_buffer(QUEUE, 3, 2, &[], Err(DeviceError::Lost)), Ok(()));
    assert!(!device(&global).pending_writes.is_active);
    assert_eq!(device(&global).pending_writes.temp_resources, vec![]);
}

#[test]
fn write_buffer_fails_in_the_order_of_its_steps() {
    let transfer = |error| Err(QueueWriteError::Transfer(error));
    let mut global = with_device();
    global.buffers.insert(3, Buffer::new(103, BUFFER_USAGE_COPY_DST, 64));
    global.buffers.insert(4, Buffer::new(104, BUFFER_USAGE_COPY_SRC, 64));
    let data = [0u8; 16];
    assert_eq!(
        global.queue_write_buffer(9, 3, 0, &data, staged(900)),
        Err(QueueWriteError::Queue(DeviceError::Invalid))
    );
    assert_eq!(
        global.queue_write_buffer(QUEUE, 9, 0, &data, Err(DeviceError::OutOfMemory)),
        Err(QueueWriteError::Queue(DeviceError::OutOfMemory))
    );
    assert_eq!(
        global.queue_write_buffer(QUEUE, 9, 0, &data, staged(900)),
        transfer(TransferError::InvalidBuffer(9))
    );
    assert_eq!(
        global.queue_write_buffer(QUEUE, 4, 0, &data, staged(900)),
        transfer(TransferError::MissingCopyDstUsageFlag(Some(4), None))
    );
    assert_eq!(
        global.queue_write_buffer(QUEUE, 3, 2, &data[..6], staged(900)),
        transfer(TransferError::UnalignedCopySize(6))
    );
    assert_eq!(
        global.queue_write_buffer(QUEUE, 3, 2, &data, staged(900)),
        transfer(TransferError::UnalignedBufferOffset(2))
    );
    assert_eq!(
        global.queue_write_buffer(QUEUE, 3, 52, &data, staged(900)),
        transfer(TransferError::BufferOverrun {
            start_offset: 52,
            end_offset: 68,
            buffer_size: 64,
            side: CopySide::Destination,
        })
    );
    assert!(!device(&global).pending_writes.is_active);
    assert_eq!(global.buffers.get(3).unwrap().life_guard.submission_index, 0);
}

#[test]
fn write_texture_stages_rows_at_the_pitch_of_the_backend() {
    let mut global = with_device();
    global.textures.insert(0, writable_texture(TEXTURE_USAGE_COPY_DST));
    let data: Vec<u8> = (0..3904u32).map(|i| (i % 251) as u8 + 1).collect();
    let layout = ImageDataLayout { offset: 0, bytes_per_row: Some(64), rows_per_image: None };
    let size = Extent3d { width: 16, height: 16, depth_or_array_layers: 1 };
    assert!(global.queue_write_texture_fits(QUEUE, &whole_texture(), &layout, &size));
    let contents = global
        .queue_write_texture_stage(QUEUE, &whole_texture(), &data, &layout, &size)
        .unwrap()
        .unwrap();
    assert_eq!(contents.len(), 4096);
    for row in 0..16 {
        assert_eq!(contents[row * 256..row * 256 + 64], data[row * 64..row * 64 + 64]);
        assert!(contents[row * 256 + 64..(row + 1) * 256].iter().all(|byte| *byte == 0));
    }

    assert_eq!(
        global.queue_write_texture(QUEUE, &whole_texture(), &data, &layout, &size, staged(900)),
        Ok(())
    );
    let writes = &device(&global).pending_writes;
    assert_eq!(
        writes.command_encoder.commands,
        vec![
            staging_barrier(900),
            Command::TransitionTexture(TextureBarrier {
                texture: 200,
                range: ImageSubresourceRange {
                    base_mip_level: 0,
                    mip_level_count: Some(1),
                    base_array_layer: 0,
                    array_layer_count: Some(1),
                },
                usage: UsageRange { start: 0, end: TEXTURE_USES_COPY_DST },
            }),
            Command::CopyBufferToTexture {
                src: 900,
                dst: 200,
                region: BufferTextureCopy {
                    buffer_layout: ImageDataLayout {
                        offset: 0,
                        bytes_per_row: Some(256),
                        rows_per_image: Some(16),
                    },
                    texture_base: TextureCopyBase {
                        mip_level: 0,
                        array_layer: 0,
                        origin: Origin3d { x: 0, y: 0, z: 0 },
                        aspect: ASPECT_COLOR,
                    },
                    size: CopyExtent { width: 16, height: 16, depth: 1 },
                },
            },
        ]
    );
    assert_eq!(writes.temp_resources, vec![TempResource::Buffer(900)]);
    assert!(writes.dst_textures.contains(&0));
    assert_eq!(global.textures.get(0).unwrap().life_guard.submission_index, 1);
}

#[test]
fn write_texture_with_the_pitch_of_the_backend_stages_the_data_as_it_is() {
    let mut global = with_device();
    global.textures.insert(0, writable_texture(TEXTURE_USAGE_COPY_DST));
    let data: Vec<u8> = (0..8192u32).map(|i| (i % 13) as u8).collect();
    let layout = ImageDataLayout { offset: 0, bytes_per_row: Some(256), rows_per_image: Some(16) };
    let size = Extent3d { width: 16, height: 16, depth_or_array_layers: 2 };
    let contents = global
        .queue_write_texture_stage(QUEUE, &whole_texture(), &data, &layout, &size)
        .unwrap()
        .unwrap();
    assert_eq!(contents, data);
    assert_eq!(
        global.queue_write_texture(QUEUE, &whole_texture(), &data, &layout, &size, staged(900)),
        Ok(())
    );
    // One region for each layer, a layer of data apart.
    let commands = &device(&global).pending_writes.command_encoder.commands;
    assert_eq!(commands.len(), 1 + 1 + 2);
    for layer in 0..2u32 {
        match commands[2 + layer as usize] {
            Command::CopyBufferToTexture { region, .. } => {
                assert_eq!(region.buffer_layout.offset, layer as u64 * 4096);
                assert_eq!(region.texture_base.array_layer, layer);
            }
            _ => panic!("a copy is expected"),
        }
    }
}

#[test]
fn write_texture_fails_before_and_after_the_staging() {
    let transfer = |error| Err(QueueWriteError::Transfer(error));
    let mut global = with_device();
    global.textures.insert(0, writable_texture(TEXTURE_USAGE_COPY_SRC));
    let data = vec![0u8; 4096];
    let layout = ImageDataLayout { offset: 0, bytes_per_row: Some(64), rows_per_image: None };
    let size = Extent3d { width: 16, height: 16, depth_or_array_layers: 1 };
    let empty = Extent3d { width: 0, height: 16, depth_or_array_layers: 1 };
    let target = whole_texture();
    assert_eq!(
        global.queue_write_texture(9, &target, &data, &layout, &size, staged(900)),
        Err(QueueWriteError::Queue(DeviceError::Invalid))
    );
    assert_eq!(
        global.queue_write_texture(QUEUE, &target, &data, &layout, &empty, Err(DeviceError::Lost)),
        Ok(())
    );
    assert_eq!(global.queue_write_texture_stage(QUEUE, &target, &data, &layout, &empty), Ok(None));
    // Too little data fails before anything is staged.
    assert_eq!(
        global.queue_write_texture(QUEUE, &target, &data[..1000], &layout, &size, Err(DeviceError::Lost)),
        transfer(TransferError::BufferOverrun {
            start_offset: 0,
            end_offset: 1024,
            buffer_size: 1000,
            side: CopySide::Source,
        })
    );
    assert_eq!(
        global.queue_write_texture_stage(QUEUE, &target, &data[..1000], &layout, &size),
        Err(QueueWriteError::Transfer(TransferError::BufferOverrun {
            start_offset: 0,
            end_offset: 1024,
            buffer_size: 1000,
            side: CopySide::Source,
        }))
    );
    assert_eq!(
        global.queue_write_texture(QUEUE, &target, &data, &layout, &size, Err(DeviceError::Lost)),
        Err(QueueWriteError::Queue(DeviceError::Lost))
    );
    // The usage is looked at once the data is staged.
    assert_eq!(
        global.queue_write_texture(QUEUE, &target, &data, &layout, &size, staged(900)),
        transfer(TransferError::MissingCopyDstUsageFlag(None, Some(0)))
    );
    assert!(!device(&global).pending_writes.is_active);
}

fn three_buffers() -> Global {
    let mut global = with_device();
    global.buffers.insert(0, Buffer::new(100, BUFFER_USAGE_COPY_SRC, 64));
    global.buffers.insert(1, Buffer::new(101, BUFFER_USAGE_COPY_SRC | BUFFER_USAGE_COPY_DST, 64));
    global.buffers.insert(2, Buffer::new(102, BUFFER_USAGE_COPY_DST, 64));
    global
}

#[test]
fn submit_stitches_command_buffers_with_the_transitions_between_them() {
    let mut global = three_buffers();
    finished(&mut global, 0, |global| {
        global.command_encoder_copy_buffer_to_buffer(0, 0, 0, 1, 0, 32).unwrap();
    });
    finished(&mut global, 1, |global| {
        global.command_encoder_copy_buffer_to_buffer(1, 1, 0, 2, 0, 32).unwrap();
    });
    let first = global.command_buffers.get(0).unwrap().encoder.list[0].commands.clone();
    let second = global.command_buffers.get(1).unwrap().encoder.list[0].commands.clone();

    let submission = global.queue_submit(QUEUE, &vec![0, 1]).unwrap();
    assert_eq!(submission.index, 1);
    let buffers = commands_of(&submission.command_buffers);
    assert_eq!(buffers.len(), 5);
    // The source of the first copy was never written: zeros come first. The
    // source of the second was written by the first, and needs none.
    assert_eq!(
        buffers[0],
        vec![
            Command::TransitionBuffer(BufferBarrier {
                buffer: 100,
                usage: UsageRange { start: BUFFER_USES_COPY_SRC, end: BUFFER_USES_COPY_DST },
            }),
            Command::FillBuffer { buffer: 100, start: 0, end: 32, value: 0 },
            Command::TransitionBuffer(BufferBarrier {
                buffer: 101,
                usage: UsageRange { start: BUFFER_USES_COPY_SRC, end: BUFFER_USES_COPY_DST },
            }),
        ]
    );
    // Nothing ran before the first command buffer.
    assert_eq!(buffers[1], vec![]);
    assert_eq!(buffers[2], first);
    // The second one finds buffer 1 as the first left it.
    assert_eq!(
        buffers[3],
        vec![Command::TransitionBuffer(BufferBarrier {
            buffer: 101,
            usage: UsageRange { start: BUFFER_USES_COPY_DST, end: BUFFER_USES_COPY_SRC },
        })]
    );
    assert_eq!(buffers[4], second);

    assert!(global.command_buffers.get(0).is_none() && global.command_buffers.get(1).is_none());
    let device = device(&global);
    assert_eq!(device.active_submission_index, 1);
    assert_eq!(
        device.trackers.buffers.states.get(2),
        Some(&ResourceUse { first: BUFFER_USES_COPY_DST, last: BUFFER_USES_COPY_DST })
    );
    assert_eq!(device.life_tracker.active.len(), 1);
    assert_eq!(device.life_tracker.active[0].index, 1);
    assert_eq!(device.life_tracker.active[0].encoders.len(), 2);
    assert_eq!(device.life_tracker.active[0].encoders[1].cmd_buffers.len(), 2);
    assert!(!device.pending_writes.is_active);
    assert_eq!(device.pending_writes.executing_command_buffers.len(), 1);
    for id in 0..3 {
        assert_eq!(global.buffers.get(id).unwrap().life_guard.submission_index, 1);
    }
    // What the copies touched is initialized now.
    for id in 0..3 {
        assert_eq!(
            global.buffers.get(id).unwrap().initialization_status.uninitialized_ranges,
            vec![AddressRange { start: 32, end: 64 }]
        );
    }
}

#[test]
fn submit_leads_with_the_pending_writes_and_retires_their_staging() {
    let mut global = three_buffers();
    assert_eq!(global.queue_write_buffer(QUEUE, 2, 0, &[1u8; 64], staged(900)), Ok(()));
    let written = device(&global).pending_writes.command_encoder.commands.clone();
    let submission = global.queue_submit(QUEUE, &vec![]).unwrap();
    assert_eq!(commands_of(&submission.command_buffers), vec![written]);
    let device = device(&global);
    assert_eq!(device.pending_writes.temp_resources, vec![]);
    assert!(device.pending_writes.dst_buffers.is_empty());
    assert_eq!(device.life_tracker.active[0].last_resources, vec![TempResource::Buffer(900)]);
    assert_eq!(device.life_tracker.active[0].encoders.len(), 0);
}

#[test]
fn submit_counts_on_and_passes_over_what_is_not_there() {
    let mut global = three_buffers();
    global.command_buffers.insert(4, CommandBuffer::new(RawEncoder::new(), QUEUE, false));
    let first = global.queue_submit(QUEUE, &vec![9, 4]).unwrap();
    assert_eq!(first.index, 1);
    assert_eq!(commands_of(&first.command_buffers), Vec::<Vec<Command>>::new());
    // The command buffer that was still recording is gone.
    assert!(global.command_buffers.get(4).is_none());
    let second = global.queue_submit(QUEUE, &vec![]).unwrap();
    assert_eq!(second.index, 2);
    assert_eq!(device(&global).life_tracker.active.len(), 2);
    assert_eq!(
        global.queue_submit(3, &vec![]).map(|submission| submission.index),
        Err(QueueSubmitError::Queue(DeviceError::Invalid))
    );
}

#[test]
fn submit_stops_at_a_destroyed_buffer() {
    let mut global = three_buffers();
    finished(&mut global, 0, |global| {
        global.command_encoder_copy_buffer_to_buffer(0, 0, 0, 1, 0, 32).unwrap();
    });
    finished(&mut global, 1, |global| {
        global.command_encoder_copy_buffer_to_buffer(1, 1, 0, 2, 0, 32).unwrap();
    });
    let mut destroyed = global.buffers.remove(1).unwrap();
    destroyed.raw = None;
    global.buffers.insert(1, destroyed);
    let res = global.queue_submit(QUEUE, &vec![0, 1]);
    assert_eq!(res.map(|submission| submission.index), Err(QueueSubmitError::DestroyedBuffer(1)));
    // The index is spent, the first command buffer is gone, the second waits.
    assert_eq!(device(&global).active_submission_index, 1);
    assert!(global.command_buffers.get(0).is_none());
    assert!(global.command_buffers.get(1).is_some());
    assert_eq!(device(&global).life_tracker.active.len(), 0);
}

#[test]
fn submit_stops_at_a_buffer_that_left_its_registry() {
    let mut global = three_buffers();
    finished(&mut global, 0, |global| {
        global.command_encoder_copy_buffer_to_buffer(0, 0, 0, 1, 0, 32).unwrap();
    });
    global.buffers.remove(0);
    let res = global.queue_submit(QUEUE, &vec![0]);
    assert_eq!(res.map(|submission| submission.index), Err(QueueSubmitError::DestroyedBuffer(0)));
}

#[test]
fn submit_stops_at_a_destroyed_texture() {
    let mut global = with_device();
    global.buffers.insert(0, Buffer::new(100, BUFFER_USAGE_COPY_SRC, 8192));
    global.textures.insert(0, writable_texture(TEXTURE_USAGE_COPY_DST));
    finished(&mut global, 0, |global| {
        let source = transfer_core::types::ImageCopyBuffer {
            buffer: 0,
            layout: ImageDataLayout { offset: 0, bytes_per_row: Some(256), rows_per_image: None },
        };
        let size = Extent3d { width: 16, height: 16, depth_or_array_layers: 1 };
        global.command_encoder_copy_buffer_to_texture(0, &source, &whole_texture(), &size).unwrap();
    });
    let mut destroyed = *global.textures.get(0).unwrap();
    destroyed.raw = None;
    global.textures.insert(0, destroyed);
    let res = global.queue_submit(QUEUE, &vec![0]);
    assert_eq!(res.map(|submission| submission.index), Err(QueueSubmitError::DestroyedTexture(0)));
}

#[test]
fn submit_signals_a_swap_chain_once_and_needs_its_output() {
    let mut global = with_device();
    global
        .swap_chains
        .insert(5, SwapChain { acquired_texture: Some(1), active_submission_index: 0 });
    global.swap_chains.insert(6, SwapChain { acquired_texture: None, active_submission_index: 0 });
    for id in 0..3 {
        let mut cmd_buf = CommandBuffer::new(RawEncoder::new(), QUEUE, false);
        cmd_buf.used_swap_chains.push(if id == 2 { 6 } else { 5 });
        cmd_buf.finish();
        global.command_buffers.insert(id, cmd_buf);
    }
    let submission = global.queue_submit(QUEUE, &vec![0, 1]).unwrap();
    assert_eq!(submission.signal_swapchain_semaphores.to_vec(), vec![5]);
    assert_eq!(global.swap_chains.get(5).unwrap().active_submission_index, 1);
    let res = global.queue_submit(QUEUE, &vec![2]);
    assert_eq!(
        res.map(|submission| submission.index),
        Err(QueueSubmitError::SwapChainOutputDropped)
    );
}

#[test]
fn submit_suspects_what_the_user_dropped_and_unmaps_it() {
    let dropped = LifeGuard { ref_count: false, submission_index: 0 };
    let mut global = three_buffers();
    global.buffers.insert(
        1,
        Buffer {
            life_guard: dropped,
            map_state: BufferMapState::Active { offset: 0, size: 16 },
            ..Buffer::new(101, BUFFER_USAGE_COPY_DST, 64)
        },
    );
    global.texture_views.insert(0, Stateless { life_guard: dropped });
    global.texture_views.insert(1, Stateless { life_guard: LifeGuard::new() });
    global.samplers.insert(0, Stateless { life_guard: dropped });
    global.compute_pipelines.insert(0, Stateless { life_guard: dropped });
    global.render_pipelines.insert(0, Stateless { life_guard: LifeGuard::new() });
    global.query_sets.insert(0, Stateless { life_guard: dropped });
    global.bind_groups.insert(
        0,
        BindGroup { life_guard: dropped, used_views: vec![1], used_samplers: vec![0] },
    );
    global.render_bundles.insert(
        0,
        RenderBundle {
            life_guard: LifeGuard::new(),
            used_compute_pipes: vec![],
            used_render_pipes: vec![0],
        },
    );
    finished(&mut global, 0, |global| {
        global.command_encoder_copy_buffer_to_buffer(0, 0, 0, 1, 0, 32).unwrap();
        let mut cmd_buf = global.command_buffers.remove(0).unwrap();
        cmd_buf.trackers.views.push(0);
        cmd_buf.trackers.bind_groups.push(0);
        cmd_buf.trackers.compute_pipes.push(0);
        cmd_buf.trackers.query_sets.push(0);
        cmd_buf.trackers.bundles.push(0);
        global.command_buffers.insert(0, cmd_buf);
    });
    let submission = global.queue_submit(QUEUE, &vec![0]).unwrap();
    assert_eq!(submission.unmapped_buffers, vec![1]);
    let suspected = &device(&global).temp_suspected;
    assert_eq!(suspected.buffers, vec![1]);
    assert_eq!(suspected.texture_views, vec![0]);
    assert_eq!(suspected.bind_groups, vec![0]);
    assert_eq!(suspected.compute_pipelines, vec![0]);
    assert_eq!(suspected.query_sets, vec![0]);
    assert_eq!(suspected.render_bundles, Vec::<u32>::new());
    assert_eq!(suspected.render_pipelines, Vec::<u32>::new());
    // What a bind group or a bundle holds is in use as long as it is.
    assert_eq!(global.texture_views.get(1).unwrap().life_guard.submission_index, 1);
    assert_eq!(global.samplers.get(0).unwrap().life_guard.submission_index, 1);
    assert_eq!(global.render_pipelines.get(0).unwrap().life_guard.submission_index, 1);
    assert_eq!(global.bind_groups.get(0).unwrap().life_guard.submission_index, 1);

    assert_eq!(
        global.queue_submit_maintained(QUEUE, Err(WaitIdleError::StuckGpu)),
        Err(QueueSubmitError::StuckGpu)
    );
    assert_eq!(
        global.queue_submit_maintained(QUEUE, Err(WaitIdleError::Device(DeviceError::Lost))),
        Err(QueueSubmitError::Queue(DeviceError::Lost))
    );
    assert_eq!(device(&global).temp_suspected.buffers, vec![1]);
    assert_eq!(device(&global).life_tracker.active.len(), 1);
    // The backend has finished nothing yet.
    assert_eq!(global.queue_submit_maintained(QUEUE, Ok(0)), Ok(vec![]));
    assert_eq!(device(&global).temp_suspected.buffers, Vec::<u32>::new());
    assert_eq!(device(&global).life_tracker.active.len(), 1);
    assert_eq!(
        global.queue_submit_maintained(8, Ok(0)),
        Err(QueueSubmitError::Queue(DeviceError::Invalid))
    );
}

#[test]
fn maintenance_retires_the_staging_of_the_submissions_that_are_done() {
    let mut global = three_buffers();
    for round in 1..=3u64 {
        assert_eq!(
            global.queue_write_buffer(QUEUE, 2, 0, &[1u8; 4], staged(900 + round)),
            Ok(())
        );
        if round == 2 {
            assert_eq!(global.queue_write_buffer(QUEUE, 2, 4, &[1u8; 4], staged(950)), Ok(()));
        }
        assert_eq!(global.queue_submit(QUEUE, &vec![]).unwrap().index, round);
    }
    assert_eq!(device(&global).life_tracker.active.len(), 3);
    let free = device(&global).command_allocator.free_encoders.len();

    // Submissions 1 and 2 are done; submission 3 may still execute.
    assert_eq!(
        global.queue_submit_maintained(QUEUE, Ok(2)),
        Ok(vec![
            TempResource::Buffer(901),
            TempResource::Buffer(902),
            TempResource::Buffer(950),
        ])
    );
    let device_after = device(&global);
    assert_eq!(device_after.life_tracker.active.len(), 1);
    assert_eq!(device_after.life_tracker.active[0].index, 3);
    assert_eq!(device_after.life_tracker.active[0].last_resources, vec![TempResource::Buffer(903)]);
    assert_eq!(device_after.command_allocator.free_encoders.len(), free);

    // Nothing more is done until the backend gets further.
    assert_eq!(global.queue_submit_maintained(QUEUE, Ok(2)), Ok(vec![]));
    assert_eq!(global.queue_submit_maintained(QUEUE, Ok(u64::MAX)), Ok(vec![TempResource::Buffer(903)]));
    assert!(device(&global).life_tracker.active.is_empty());
}

#[test]
fn maintenance_frees_the_command_pools_of_the_submissions_that_are_done() {
    let mut global = three_buffers();
    finished(&mut global, 0, |global| {
        global.command_encoder_copy_buffer_to_buffer(0, 0, 0, 1, 0, 32).unwrap();
    });
    finished(&mut global, 1, |global| {
        global.command_encoder_copy_buffer_to_buffer(1, 1, 0, 2, 0, 32).unwrap();
    });
    assert!(global.queue_submit(QUEUE, &vec![0, 1]).is_ok());
    let free = device(&global).command_allocator.free_encoders.len();
    assert_eq!(device(&global).life_tracker.active[0].encoders.len(), 2);
    assert_eq!(global.queue_submit_maintained(QUEUE, Ok(1)), Ok(vec![]));
    assert_eq!(device(&global).command_allocator.free_encoders.len(), free + 2);
    assert!(device(&global).life_tracker.active.is_empty());
}

#[test]
fn submit_recycles_the_pool_of_the_pending_writes_when_it_is_full() {
    let mut global = three_buffers();
    for round in 1..=WRITE_COMMAND_BUFFERS_PER_POOL as u64 {
        assert_eq!(global.queue_write_buffer(QUEUE, 2, 0, &[1u8; 4], staged(900 + round)), Ok(()));
        let submission = global.queue_submit(QUEUE, &vec![]).unwrap();
        assert_eq!(submission.index, round);
        assert_eq!(submission.command_buffers.len(), 1);
        let device = device(&global);
        let active = &device.life_tracker.active[round as usize - 1];
        if round < WRITE_COMMAND_BUFFERS_PER_POOL as u64 {
            assert_eq!(device.pending_writes.executing_command_buffers.len(), round as usize);
            assert_eq!(active.encoders.len(), 0);
        } else {
            // The pool goes with all that it produced, the last one included.
            assert_eq!(device.pending_writes.executing_command_buffers.len(), 0);
            assert_eq!(active.encoders.len(), 1);
            assert_eq!(active.encoders[0].cmd_buffers.len(), WRITE_COMMAND_BUFFERS_PER_POOL);
        }
    }
}

#[test]
fn submit_fills_touching_ranges_of_several_command_buffers_as_one() {
    let mut global = with_device();
    global.buffers.insert(0, Buffer::new(100, BUFFER_USAGE_COPY_SRC, 128));
    global.buffers.insert(1, Buffer::new(101, BUFFER_USAGE_COPY_DST, 128));
    finished(&mut global, 0, |global| {
        global.command_encoder_copy_buffer_to_buffer(0, 0, 32, 1, 0, 32).unwrap();
    });
    finished(&mut global, 1, |global| {
        global.command_encoder_copy_buffer_to_buffer(1, 0, 0, 1, 32, 32).unwrap();
        global.command_encoder_copy_buffer_to_buffer(1, 0, 96, 1, 64, 16).unwrap();
    });
    let submission = global.queue_submit(QUEUE, &vec![0, 1]).unwrap();
    let fills: Vec<Command> = submission.command_buffers[0]
        .commands
        .iter()
        .filter(|command| matches!(command, Command::FillBuffer { .. }))
        .copied()
        .collect();
    assert_eq!(
        fills,
        vec![
            Command::FillBuffer { buffer: 100, start: 0, end: 64, value: 0 },
            Command::FillBuffer { buffer: 100, start: 96, end: 112, value: 0 },
        ]
    );
    assert!(device(&global).pending_writes.dst_buffers.is_empty());
}

#[test]
fn submit_stitches_across_a_command_buffer_that_leaves_the_buffer_alone() {
    let mut global = three_buffers();
    finished(&mut global, 0, |global| {
        global.command_encoder_copy_buffer_to_buffer(0, 0, 0, 1, 0, 32).unwrap();
    });
    finished(&mut global, 1, |global| {
        global.command_encoder_copy_buffer_to_buffer(1, 0, 32, 2, 32, 16).unwrap();
    });
    finished(&mut global, 2, |global| {
        global.command_encoder_copy_buffer_to_buffer(2, 1, 0, 2, 0, 32).unwrap();
    });
    let submission = global.queue_submit(QUEUE, &vec![0, 1, 2]).unwrap();
    let buffers = commands_of(&submission.command_buffers);
    // The pending writes, then a transit command buffer and the commands of
    // each of the three.
    assert_eq!(buffers.len(), 7);
    assert_eq!(buffers[1], vec![]);
    // The second uses buffers 0 and 2: the first left buffer 0 as a source,
    // and did not use buffer 2.
    assert_eq!(buffers[3], vec![]);
    // The third finds buffer 1 as the first left it, and buffer 2 as the
    // second left it, which is how it uses it.
    assert_eq!(
        buffers[5],
        vec![Command::TransitionBuffer(BufferBarrier {
            buffer: 101,
            usage: UsageRange { start: BUFFER_USES_COPY_DST, end: BUFFER_USES_COPY_SRC },
        })]
    );
}

#[test]
fn submit_adds_no_transition_where_the_uses_agree() {
    let mut global = three_buffers();
    finished(&mut global, 0, |global| {
        global.command_encoder_copy_buffer_to_buffer(0, 0, 0, 2, 0, 32).unwrap();
    });
    finished(&mut global, 1, |global| {
        global.command_encoder_copy_buffer_to_buffer(1, 1, 0, 2, 32, 32).unwrap();
    });
    let submission = global.queue_submit(QUEUE, &vec![0, 1]).unwrap();
    let buffers = commands_of(&submission.command_buffers);
    assert_eq!(buffers.len(), 5);
    assert_eq!(buffers[1], vec![]);
    assert_eq!(buffers[3], vec![]);
}

#[test]
fn write_buffer_asks_for_a_staging_buffer_where_it_will_stage() {
    let global = with_device();
    assert_eq!(
        global.queue_write_buffer_stage(QUEUE, 48),
        Some(StageDescriptor { size: 48, usage: 6, transient: true })
    );
    assert_eq!(global.queue_write_buffer_stage(QUEUE, 0), None);
    assert_eq!(global.queue_write_buffer_stage(7, 48), None);
}

#[test]
fn a_staging_buffer_is_mapped_for_writing_and_copied_from() {
    let global = with_device();
    let stage = device(&global).prepare_stage(4096);
    assert_eq!(stage.size, 4096);
    assert_eq!(stage.usage, BUFFER_USES_MAP_WRITE | BUFFER_USES_COPY_SRC);
    assert_eq!(
        stage.usage,
        wgpu_hal::BufferUses::MAP_WRITE.bits() | wgpu_hal::BufferUses::COPY_SRC.bits()
    );
    assert!(stage.transient);
}

#[test]
fn write_texture_places_each_layer_where_it_is_staged() {
    let mut global = with_device();
    global.textures.insert(0, writable_texture(TEXTURE_USAGE_COPY_DST));
    // Two layers of 16 rows of 64 bytes, the second one all of another byte.
    let mut data = vec![1u8; 16 * 64];
    data.extend(vec![2u8; 16 * 64]);
    let layout = ImageDataLayout { offset: 0, bytes_per_row: Some(64), rows_per_image: Some(16) };
    let size = Extent3d { width: 16, height: 16, depth_or_array_layers: 2 };
    assert!(global.queue_write_texture_fits(QUEUE, &whole_texture(), &layout, &size));
    let contents = global
        .queue_write_texture_stage(QUEUE, &whole_texture(), &data, &layout, &size)
        .unwrap()
        .unwrap();
    assert_eq!(contents.len(), 256 * 32);
    for row in 0..32 {
        let byte = if row < 16 { 1 } else { 2 };
        assert!(contents[row * 256..row * 256 + 64].iter().all(|found| *found == byte));
        assert!(contents[row * 256 + 64..(row + 1) * 256].iter().all(|found| *found == 0));
    }
    assert_eq!(
        global.queue_write_texture(QUEUE, &whole_texture(), &data, &layout, &size, staged(900)),
        Ok(())
    );
    let commands = &device(&global).pending_writes.command_encoder.commands;
    let regions: Vec<BufferTextureCopy> = commands
        .iter()
        .filter_map(|command| match command {
            Command::CopyBufferToTexture { src: 900, dst: 200, region } => Some(*region),
            _ => None,
        })
        .collect();
    assert_eq!(regions.len(), 2);
    for (layer, region) in regions.iter().enumerate() {
        // The region starts at the first staged row of its layer.
        assert_eq!(
            region.buffer_layout,
            ImageDataLayout {
                offset: layer as u64 * 16 * 256,
                bytes_per_row: Some(256),
                rows_per_image: Some(16),
            }
        );
        assert_eq!(region.texture_base.array_layer, layer as u32);
        assert_eq!(contents[region.buffer_layout.offset as usize], layer as u8 + 1);
    }
}

#[test]
fn write_texture_counts_the_rows_of_an_image_in_blocks() {
    let mut global = with_device();
    let mut compressed = writable_texture(TEXTURE_USAGE_COPY_DST);
    compressed.desc.format =
        FormatDescriptor::describe(wgpu_types::TextureFormat::Bc1RgbaUnorm, true, true);
    global.textures.insert(0, compressed);
    // Two rows of two blocks of eight bytes each.
    let data: Vec<u8> = (1..=32u8).collect();
    let layout = ImageDataLayout { offset: 0, bytes_per_row: Some(16), rows_per_image: None };
    let size = Extent3d { width: 8, height: 8, depth_or_array_layers: 1 };
    assert!(global.queue_write_texture_fits(QUEUE, &whole_texture(), &layout, &size));
    let contents = global
        .queue_write_texture_stage(QUEUE, &whole_texture(), &data, &layout, &size)
        .unwrap()
        .unwrap();
    assert_eq!(contents.len(), 256 * 2);
    assert_eq!(contents[..16], data[..16]);
    assert_eq!(contents[256..272], data[16..]);
    assert_eq!(
        global.queue_write_texture(QUEUE, &whole_texture(), &data, &layout, &size, staged(900)),
        Ok(())
    );
    let commands = &device(&global).pending_writes.command_encoder.commands;
    match commands[commands.len() - 1] {
        Command::CopyBufferToTexture { region, .. } => {
            assert_eq!(
                region.buffer_layout,
                ImageDataLayout { offset: 0, bytes_per_row: Some(256), rows_per_image: Some(2) }
            );
            assert_eq!(region.size, CopyExtent { width: 8, height: 8, depth: 1 });
        }
        _ => panic!("a copy is expected"),
    }
}

#[test]
fn submit_refuses_a_buffer_that_is_mapped_while_the_user_holds_it() {
    let mut global = three_buffers();
    global.buffers.insert(
        1,
        Buffer {
            map_state: BufferMapState::Active { offset: 0, size: 16 },
            ..Buffer::new(101, BUFFER_USAGE_COPY_SRC | BUFFER_USAGE_COPY_DST, 64)
        },
    );
    finished(&mut global, 0, |global| {
        global.command_encoder_copy_buffer_to_buffer(0, 0, 0, 1, 0, 32).unwrap();
    });
    assert_eq!(global.queue_submit(QUEUE, &vec![0]).err(), Some(QueueSubmitError::StillMapped(1)));
    // The buffer before it was marked; the mapped one was not.
    assert_eq!(global.buffers.get(0).unwrap().life_guard.submission_index, 1);
    assert_eq!(global.buffers.get(1).unwrap().life_guard.submission_index, 0);
    assert_eq!(device(&global).active_submission_index, 1);
    assert!(device(&global).life_tracker.active.is_empty());
}
