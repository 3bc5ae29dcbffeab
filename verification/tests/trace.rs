use transfer_core::command::{CommandBuffer, TraceCommand};
use transfer_core::device::{Alignments, Device, DeviceError, StagingData};
use transfer_core::hal::RawEncoder;
use transfer_core::hub::Global;
use transfer_core::memory_init::AddressRange;
use transfer_core::queue::QueueWriteError;
use transfer_core::resource::{Buffer, LifeGuard, Texture};
use transfer_core::trace::{Action, Trace};
use transfer_core::transfer::TransferError;
use transfer_core::types::{
    Extent3d, FormatDescriptor, ImageCopyTexture, ImageDataLayout, Origin3d, TextureAspect,
    TextureDescriptor, TextureDimension, BUFFER_USAGE_COPY_DST, BUFFER_USAGE_COPY_SRC,
    TEXTURE_USAGE_COPY_DST,
};

const TRACED_QUEUE: u32 = 0;

fn traced_device() -> Global {
    let mut global = Global::new();
    let mut device = Device::new(Alignments { buffer_copy_offset: 1, buffer_copy_pitch: 256 });
    device.start_trace();
    global.devices.insert(TRACED_QUEUE, device);
    global
}

fn trace_of(global: &Global) -> &Trace {
    global.devices.get(TRACED_QUEUE).unwrap().trace.as_ref().unwrap()
}

fn stage_at(buffer: u64) -> Result<StagingData, DeviceError> {
    Ok(StagingData { buffer })
}

#[test]
fn a_new_trace_holds_nothing() {
    let trace = Trace::new();
    assert!(trace.actions.is_empty());
    assert!(trace.binaries.is_empty());
    assert!(trace.command_lists.is_empty());
}

#[test]
fn a_trace_numbers_its_binaries_from_zero() {
    let mut trace = Trace::new();
    assert_eq!(trace.make_binary(&[1, 2]), 0);
    assert_eq!(trace.make_binary(&[]), 1);
    assert_eq!(trace.make_binary(&[3]), 2);
    assert_eq!(trace.binaries, vec![vec![1, 2], vec![], vec![3]]);
    assert!(trace.actions.is_empty());
}

#[test]
fn a_device_without_a_trace_records_no_action() {
    let mut global = Global::new();
    global.devices.insert(
        TRACED_QUEUE,
        Device::new(Alignments { buffer_copy_offset: 1, buffer_copy_pitch: 256 }),
    );
    global.buffers.insert(3, Buffer::new(103, BUFFER_USAGE_COPY_DST, 64));
    assert_eq!(global.queue_write_buffer(TRACED_QUEUE, 3, 8, &[7u8; 16], stage_at(900)), Ok(()));
    assert!(global.devices.get(TRACED_QUEUE).unwrap().trace.is_none());
}

#[test]
fn a_traced_device_records_a_buffer_write_with_its_bytes() {
    let mut global = traced_device();
    global.buffers.insert(3, Buffer::new(103, BUFFER_USAGE_COPY_DST, 64));
    let data: Vec<u8> = (0u8..16).collect();
    assert_eq!(global.queue_write_buffer(TRACED_QUEUE, 3, 8, &data, stage_at(900)), Ok(()));
    let trace = trace_of(&global);
    assert_eq!(
        trace.actions,
        vec![Action::WriteBuffer {
            id: 3,
            data: 0,
            range: AddressRange { start: 8, end: 24 },
            queued: true,
        }]
    );
    assert_eq!(trace.binaries, vec![data]);
    assert!(trace.command_lists.is_empty());
}

#[test]
fn a_traced_device_records_writes_that_are_empty_or_refused() {
    let mut global = traced_device();
    global.buffers.insert(3, Buffer::new(103, BUFFER_USAGE_COPY_DST, 64));
    assert_eq!(global.queue_write_buffer(TRACED_QUEUE, 3, 4, &[], stage_at(900)), Ok(()));
    assert_eq!(
        global.queue_write_buffer(TRACED_QUEUE, 3, 0, &[1, 2, 3], stage_at(901)),
        Err(QueueWriteError::Transfer(TransferError::UnalignedCopySize(3)))
    );
    assert_eq!(
        global.queue_write_buffer(TRACED_QUEUE, 9, u64::MAX, &[1], Err(DeviceError::Lost)),
        Err(QueueWriteError::Queue(DeviceError::Lost))
    );
    let device = global.devices.get(TRACED_QUEUE).unwrap();
    assert!(!device.pending_writes.is_active);
    assert!(device.pending_writes.temp_resources.is_empty());
    let trace = trace_of(&global);
    assert_eq!(
        trace.actions,
        vec![
            Action::WriteBuffer {
                id: 3,
                data: 0,
                range: AddressRange { start: 4, end: 4 },
                queued: true,
            },
            Action::WriteBuffer {
                id: 3,
                data: 1,
                range: AddressRange { start: 0, end: 3 },
                queued: true,
            },
            Action::WriteBuffer {
                id: 9,
                data: 2,
                range: AddressRange { start: u64::MAX, end: u64::MAX },
                queued: true,
            },
        ]
    );
    assert_eq!(trace.binaries, vec![vec![], vec![1, 2, 3], vec![1]]);
}

#[test]
fn a_write_to_an_unknown_device_is_traced_nowhere() {
    let mut global = traced_device();
    assert_eq!(
        global.queue_write_buffer(5, 3, 0, &[0u8; 4], stage_at(900)),
        Err(QueueWriteError::Queue(DeviceError::Invalid))
    );
    assert!(trace_of(&global).actions.is_empty());
    assert!(trace_of(&global).binaries.is_empty());
}

#[test]
fn a_traced_device_records_a_texture_write_with_its_bytes() {
    let mut global = traced_device();
    global.textures.insert(
        0,
        Texture {
            raw: Some(200),
            desc: TextureDescriptor {
                size: Extent3d { width: 16, height: 16, depth_or_array_layers: 2 },
                mip_level_count: 1,
                sample_count: 1,
                dimension: TextureDimension::D2,
                format: FormatDescriptor::describe(
                    wgpu_types::TextureFormat::Rgba8Unorm,
                    true,
                    true,
                ),
                usage: TEXTURE_USAGE_COPY_DST,
            },
            life_guard: LifeGuard::new(),
        },
    );
    let to = ImageCopyTexture {
        texture: 0,
        mip_level: 0,
        origin: Origin3d { x: 0, y: 0, z: 0 },
        aspect: TextureAspect::All,
    };
    let layout = ImageDataLayout { offset: 0, bytes_per_row: Some(16), rows_per_image: None };
    let size = Extent3d { width: 4, height: 2, depth_or_array_layers: 1 };
    let data: Vec<u8> = (0u8..32).collect();
    assert_eq!(
        global.queue_write_texture(TRACED_QUEUE, &to, &data, &layout, &size, stage_at(900)),
        Ok(())
    );
    let nothing = Extent3d { width: 0, height: 2, depth_or_array_layers: 1 };
    assert_eq!(
        global.queue_write_texture(TRACED_QUEUE, &to, &[5], &layout, &nothing, stage_at(901)),
        Ok(())
    );
    let trace = trace_of(&global);
    assert_eq!(
        trace.actions,
        vec![
            Action::WriteTexture { to, data: 0, layout, size },
            Action::WriteTexture { to, data: 1, layout, size: nothing },
        ]
    );
    assert_eq!(trace.binaries, vec![data, vec![5]]);
}

#[test]
fn a_traced_device_records_each_command_buffer_that_is_submitted() {
    let mut global = traced_device();
    global.buffers.insert(1, Buffer::new(101, BUFFER_USAGE_COPY_SRC, 64));
    global.buffers.insert(2, Buffer::new(102, BUFFER_USAGE_COPY_DST, 64));
    // One command buffer that is traced and finished, one that is neither,
    // and one that is finished without a trace of its own.
    global.command_buffers.insert(10, CommandBuffer::new(RawEncoder::new(), TRACED_QUEUE, true));
    assert_eq!(global.command_encoder_copy_buffer_to_buffer(10, 1, 0, 2, 16, 32), Ok(()));
    let mut first = global.command_buffers.remove(10).unwrap();
    first.finish();
    global.command_buffers.insert(10, first);
    global.command_buffers.insert(11, CommandBuffer::new(RawEncoder::new(), TRACED_QUEUE, false));
    global.command_buffers.insert(12, CommandBuffer::new(RawEncoder::new(), TRACED_QUEUE, false));
    let mut third = global.command_buffers.remove(12).unwrap();
    third.finish();
    global.command_buffers.insert(12, third);

    let submission = global.queue_submit(TRACED_QUEUE, &vec![10, 11, 99, 12]).unwrap();
    assert_eq!(submission.index, 1);
    let trace = trace_of(&global);
    assert_eq!(
        trace.actions,
        vec![
            Action::Submit { index: 1, commands: 0 },
            Action::Submit { index: 1, commands: 1 },
            Action::Submit { index: 1, commands: 2 },
        ]
    );
    assert_eq!(
        trace.command_lists,
        vec![
            vec![TraceCommand::CopyBufferToBuffer {
                src: 1,
                src_offset: 0,
                dst: 2,
                dst_offset: 16,
                size: 32,
            }],
            vec![],
            vec![],
        ]
    );
    assert!(trace.binaries.is_empty());
}

#[test]
fn writes_and_submissions_are_traced_in_their_order() {
    let mut global = traced_device();
    global.buffers.insert(3, Buffer::new(103, BUFFER_USAGE_COPY_DST, 64));
    global.command_buffers.insert(10, CommandBuffer::new(RawEncoder::new(), TRACED_QUEUE, true));
    let mut cmd_buf = global.command_buffers.remove(10).unwrap();
    cmd_buf.finish();
    global.command_buffers.insert(10, cmd_buf);
    assert_eq!(global.queue_write_buffer(TRACED_QUEUE, 3, 0, &[9u8; 4], stage_at(900)), Ok(()));
    assert!(global.queue_submit(TRACED_QUEUE, &vec![10]).is_ok());
    assert_eq!(global.queue_write_buffer(TRACED_QUEUE, 3, 4, &[8u8; 4], stage_at(901)), Ok(()));
    assert!(global.queue_submit(TRACED_QUEUE, &vec![]).is_ok());
    let trace = trace_of(&global);
    assert_eq!(
        trace.actions,
        vec![
            Action::WriteBuffer {
                id: 3,
                data: 0,
                range: AddressRange { start: 0, end: 4 },
                queued: true,
            },
            Action::Submit { index: 1, commands: 0 },
            Action::WriteBuffer {
                id: 3,
                data: 1,
                range: AddressRange { start: 4, end: 8 },
                queued: true,
            },
        ]
    );
    assert_eq!(trace.binaries, vec![vec![9u8; 4], vec![8u8; 4]]);
    assert_eq!(trace.command_lists, vec![Vec::<TraceCommand>::new()]);
    assert_eq!(global.devices.get(TRACED_QUEUE).unwrap().active_submission_index, 2);
}
