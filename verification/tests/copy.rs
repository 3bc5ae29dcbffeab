use transfer_core::command::{
    CommandBuffer, CommandEncoderError, CommandEncoderStatus, TraceCommand,
};
use transfer_core::hal::{
    BufferBarrier, BufferCopy, BufferTextureCopy, Command, CopyExtent, ImageSubresourceRange,
    RawEncoder, TextureBarrier, TextureCopy, TextureCopyBase, UsageRange, BUFFER_USES_COPY_DST,
    BUFFER_USES_COPY_SRC, TEXTURE_USES_COPY_DST, TEXTURE_USES_COPY_SRC,
};
use transfer_core::hub::Global;
use transfer_core::memory_init::{AddressRange, MemoryInitKind, MemoryInitTrackerAction};
use transfer_core::resource::{Buffer, LifeGuard, Texture};
use transfer_core::track::ResourceUse;
use transfer_core::transfer::{CopyError, CopySide, TextureErrorDimension, TransferError};
use transfer_core::types::{
    Extent3d, FormatDescriptor, ImageCopyBuffer, ImageCopyTexture, ImageDataLayout, Origin3d,
    TextureAspect, TextureDescriptor, TextureDimension, ASPECT_COLOR, BUFFER_USAGE_COPY_DST,
    BUFFER_USAGE_COPY_SRC, TEXTURE_USAGE_COPY_DST, TEXTURE_USAGE_COPY_SRC,
};

const ENCODER: u32 = 0;

fn color_format() -> FormatDescriptor {
    FormatDescriptor::describe(wgpu_types::TextureFormat::Rgba8Unorm, true, true)
}

fn texture(raw: u64, size: Extent3d, dimension: TextureDimension, usage: u32) -> Texture {
    Texture {
        raw: Some(raw),
        desc: TextureDescriptor {
            size,
            mip_level_count: 1,
            sample_count: 1,
            dimension,
            format: color_format(),
            usage,
        },
        life_guard: LifeGuard::new(),
    }
}

fn recording(traced: bool) -> Global {
    let mut global = Global::new();
    global.command_buffers.insert(ENCODER, CommandBuffer::new(RawEncoder::new(), 0, traced));
    global
}

fn two_buffers() -> Global {
    let mut global = recording(false);
    global.buffers.insert(0, Buffer::new(100, BUFFER_USAGE_COPY_SRC, 64));
    global.buffers.insert(1, Buffer::new(101, BUFFER_USAGE_COPY_DST, 64));
    global
}

fn buffer_and_texture() -> Global {
    let mut global = recording(false);
    global.buffers.insert(0, Buffer::new(100, BUFFER_USAGE_COPY_SRC | BUFFER_USAGE_COPY_DST, 4096));
    global.textures.insert(
        0,
        texture(
            200,
            Extent3d { width: 16, height: 16, depth_or_array_layers: 1 },
            TextureDimension::D2,
            TEXTURE_USAGE_COPY_SRC | TEXTURE_USAGE_COPY_DST,
        ),
    );
    global
}

fn image_buffer(bytes_per_row: u32) -> ImageCopyBuffer {
    ImageCopyBuffer {
        buffer: 0,
        layout: ImageDataLayout { offset: 0, bytes_per_row: Some(bytes_per_row), rows_per_image: None },
    }
}

fn image_texture(texture: u32) -> ImageCopyTexture {
    ImageCopyTexture {
        texture,
        mip_level: 0,
        origin: Origin3d { x: 0, y: 0, z: 0 },
        aspect: TextureAspect::All,
    }
}

fn full_size() -> Extent3d {
    Extent3d { width: 16, height: 16, depth_or_array_layers: 1 }
}

fn one_layer(base_array_layer: u32) -> ImageSubresourceRange {
    ImageSubresourceRange {
        base_mip_level: 0,
        mip_level_count: Some(1),
        base_array_layer,
        array_layer_count: Some(1),
    }
}

fn recorded(global: &Global) -> Vec<Command> {
    global.command_buffers.get(ENCODER).unwrap().encoder.raw.commands.clone()
}

#[test]
fn buffer_copy_records_two_barriers_and_one_copy() {
    let mut global = two_buffers();
    let res = global.command_encoder_copy_buffer_to_buffer(ENCODER, 0, 0, 1, 0, 32);
    assert_eq!(res, Ok(()));
    assert_eq!(
        recorded(&global),
        vec![
            Command::TransitionBuffer(BufferBarrier {
                buffer: 100,
                usage: UsageRange { start: 0, end: BUFFER_USES_COPY_SRC },
            }),
            Command::TransitionBuffer(BufferBarrier {
                buffer: 101,
                usage: UsageRange { start: 0, end: BUFFER_USES_COPY_DST },
            }),
            Command::CopyBufferToBuffer {
                src: 100,
                dst: 101,
                region: BufferCopy { src_offset: 0, dst_offset: 0, size: 32 },
            },
        ]
    );
    let cmd_buf = global.command_buffers.get(ENCODER).unwrap();
    assert!(cmd_buf.encoder.is_open && cmd_buf.encoder.raw.is_encoding);
    assert_eq!(
        cmd_buf.trackers.buffers.states.get(0),
        Some(&ResourceUse { first: BUFFER_USES_COPY_SRC, last: BUFFER_USES_COPY_SRC })
    );
    assert_eq!(
        cmd_buf.trackers.buffers.states.get(1),
        Some(&ResourceUse { first: BUFFER_USES_COPY_DST, last: BUFFER_USES_COPY_DST })
    );
    assert_eq!(
        cmd_buf.buffer_memory_init_actions,
        vec![
            MemoryInitTrackerAction {
                id: 1,
                range: AddressRange { start: 0, end: 32 },
                kind: MemoryInitKind::ImplicitlyInitialized,
            },
            MemoryInitTrackerAction {
                id: 0,
                range: AddressRange { start: 0, end: 32 },
                kind: MemoryInitKind::NeedsInitializedMemory,
            },
        ]
    );
}

#[test]
fn buffer_copy_of_an_unaligned_size_is_refused() {
    let mut global = two_buffers();
    let res = global.command_encoder_copy_buffer_to_buffer(ENCODER, 0, 0, 1, 0, 30);
    assert_eq!(res, Err(CopyError::Transfer(TransferError::UnalignedCopySize(30))));
    assert_eq!(recorded(&global), vec![]);
    let cmd_buf = global.command_buffers.get(ENCODER).unwrap();
    assert!(!cmd_buf.encoder.is_open);
    assert_eq!(cmd_buf.trackers.buffers.states.get(0), None);
    assert_eq!(cmd_buf.buffer_memory_init_actions, vec![]);
}

#[test]
fn second_buffer_copy_transitions_only_what_changes_use() {
    let mut global = two_buffers();
    global.buffers.insert(2, Buffer::new(102, BUFFER_USAGE_COPY_SRC | BUFFER_USAGE_COPY_DST, 64));
    assert_eq!(global.command_encoder_copy_buffer_to_buffer(ENCODER, 0, 0, 2, 0, 16), Ok(()));
    let before = recorded(&global).len();
    // Buffer 0 stays a source; buffer 2 turns from destination to source.
    assert_eq!(global.command_encoder_copy_buffer_to_buffer(ENCODER, 0, 16, 1, 0, 16), Ok(()));
    assert_eq!(global.command_encoder_copy_buffer_to_buffer(ENCODER, 2, 0, 1, 16, 16), Ok(()));
    let commands = recorded(&global);
    assert_eq!(
        commands[before..],
        [
            Command::TransitionBuffer(BufferBarrier {
                buffer: 101,
                usage: UsageRange { start: 0, end: BUFFER_USES_COPY_DST },
            }),
            Command::CopyBufferToBuffer {
                src: 100,
                dst: 101,
                region: BufferCopy { src_offset: 16, dst_offset: 0, size: 16 },
            },
            Command::TransitionBuffer(BufferBarrier {
                buffer: 102,
                usage: UsageRange { start: BUFFER_USES_COPY_DST, end: BUFFER_USES_COPY_SRC },
            }),
            Command::CopyBufferToBuffer {
                src: 102,
                dst: 101,
                region: BufferCopy { src_offset: 0, dst_offset: 16, size: 16 },
            },
        ]
    );
    let cmd_buf = global.command_buffers.get(ENCODER).unwrap();
    assert_eq!(
        cmd_buf.trackers.buffers.states.get(2),
        Some(&ResourceUse { first: BUFFER_USES_COPY_DST, last: BUFFER_USES_COPY_SRC })
    );
}

#[test]
fn buffer_copy_of_no_bytes_records_nothing() {
    let mut global = two_buffers();
    assert_eq!(global.command_encoder_copy_buffer_to_buffer(ENCODER, 0, 0, 1, 0, 0), Ok(()));
    assert_eq!(recorded(&global), vec![]);
    assert_eq!(global.command_buffers.get(ENCODER).unwrap().trackers.buffers.states.get(0), None);
    // No rule is looked at, but the encoder has to record.
    assert_eq!(global.command_encoder_copy_buffer_to_buffer(ENCODER, 0, 2, 1, 0, 0), Ok(()));
    assert_eq!(global.command_encoder_copy_buffer_to_buffer(ENCODER, 9, 0, 9, 0, 0), Ok(()));
    assert_eq!(
        global.command_encoder_copy_buffer_to_buffer(7, 0, 0, 1, 0, 0),
        Err(CopyError::Encoder(CommandEncoderError::Invalid))
    );
    assert_eq!(recorded(&global), vec![]);
}

#[test]
fn buffer_copy_is_traced_whatever_comes_of_it() {
    let mut global = recording(true);
    global.buffers.insert(0, Buffer::new(100, BUFFER_USAGE_COPY_SRC, 64));
    global.buffers.insert(1, Buffer::new(101, BUFFER_USAGE_COPY_DST, 64));
    assert!(global.command_encoder_copy_buffer_to_buffer(ENCODER, 0, 0, 1, 0, 30).is_err());
    assert!(global.command_encoder_copy_buffer_to_buffer(ENCODER, 0, 0, 1, 0, 0).is_ok());
    assert!(global.command_encoder_copy_buffer_to_buffer(ENCODER, 0, 0, 0, 0, 4).is_err());
    assert!(global.command_encoder_copy_buffer_to_buffer(5, 0, 0, 1, 0, 4).is_err());
    let trace = global.command_buffers.get(ENCODER).unwrap().commands.clone();
    assert_eq!(
        trace,
        Some(vec![
            TraceCommand::CopyBufferToBuffer { src: 0, src_offset: 0, dst: 1, dst_offset: 0, size: 30 },
            TraceCommand::CopyBufferToBuffer { src: 0, src_offset: 0, dst: 1, dst_offset: 0, size: 0 },
            TraceCommand::CopyBufferToBuffer { src: 0, src_offset: 0, dst: 0, dst_offset: 0, size: 4 },
        ])
    );
}

#[test]
fn buffer_copy_rules_are_checked_in_order() {
    let transfer = |error| Err(CopyError::Transfer(error));
    let mut global = two_buffers();
    global.buffers.insert(2, Buffer { raw: None, ..Buffer::new(0, BUFFER_USAGE_COPY_SRC, 64) });
    assert_eq!(
        global.command_encoder_copy_buffer_to_buffer(7, 1, 0, 1, 0, 30),
        Err(CopyError::Encoder(CommandEncoderError::Invalid))
    );
    assert_eq!(
        global.command_encoder_copy_buffer_to_buffer(ENCODER, 9, 0, 9, 0, 30),
        transfer(TransferError::SameSourceDestinationBuffer)
    );
    assert_eq!(
        global.command_encoder_copy_buffer_to_buffer(ENCODER, 9, 0, 1, 0, 30),
        transfer(TransferError::InvalidBuffer(9))
    );
    assert_eq!(
        global.command_encoder_copy_buffer_to_buffer(ENCODER, 2, 0, 1, 0, 32),
        transfer(TransferError::InvalidBuffer(2))
    );
    assert_eq!(
        global.command_encoder_copy_buffer_to_buffer(ENCODER, 1, 0, 0, 0, 30),
        transfer(TransferError::MissingCopySrcUsageFlag)
    );
    assert_eq!(
        global.command_encoder_copy_buffer_to_buffer(ENCODER, 0, 0, 9, 0, 30),
        transfer(TransferError::InvalidBuffer(9))
    );
    global.buffers.insert(3, Buffer::new(103, BUFFER_USAGE_COPY_SRC, 64));
    assert_eq!(
        global.command_encoder_copy_buffer_to_buffer(ENCODER, 0, 0, 3, 0, 30),
        transfer(TransferError::MissingCopyDstUsageFlag(Some(3), None))
    );
    assert_eq!(
        global.command_encoder_copy_buffer_to_buffer(ENCODER, 0, 2, 1, 6, 32),
        transfer(TransferError::UnalignedBufferOffset(2))
    );
    assert_eq!(
        global.command_encoder_copy_buffer_to_buffer(ENCODER, 0, 4, 1, 6, 32),
        transfer(TransferError::UnalignedBufferOffset(6))
    );
    assert_eq!(
        global.command_encoder_copy_buffer_to_buffer(ENCODER, 0, 48, 1, 60, 32),
        transfer(TransferError::BufferOverrun {
            start_offset: 48,
            end_offset: 80,
            buffer_size: 64,
            side: CopySide::Source,
        })
    );
    assert_eq!(
        global.command_encoder_copy_buffer_to_buffer(ENCODER, 0, 0, 1, 60, 32),
        transfer(TransferError::BufferOverrun {
            start_offset: 60,
            end_offset: 92,
            buffer_size: 64,
            side: CopySide::Destination,
        })
    );
    assert_eq!(
        global.command_encoder_copy_buffer_to_buffer(ENCODER, 0, u64::MAX - 3, 1, 0, 32),
        transfer(TransferError::BufferOverrun {
            start_offset: u64::MAX - 3,
            end_offset: u64::MAX,
            buffer_size: 64,
            side: CopySide::Source,
        })
    );
    assert_eq!(recorded(&global), vec![]);
}

#[test]
fn finished_and_failed_encoders_record_no_copy() {
    let mut global = two_buffers();
    let mut finished = CommandBuffer::new(RawEncoder::new(), 0, false);
    finished.finish();
    assert_eq!(finished.status, CommandEncoderStatus::Finished);
    global.command_buffers.insert(1, finished);
    let mut failed = CommandBuffer::new(RawEncoder::new(), 0, false);
    failed.status = CommandEncoderStatus::Error;
    global.command_buffers.insert(2, failed);
    assert_eq!(
        global.command_encoder_copy_buffer_to_buffer(1, 0, 0, 1, 0, 32),
        Err(CopyError::Encoder(CommandEncoderError::NotRecording))
    );
    assert_eq!(
        global.command_encoder_copy_buffer_to_buffer(2, 0, 0, 1, 0, 32),
        Err(CopyError::Encoder(CommandEncoderError::Invalid))
    );
    assert_eq!(
        global.command_encoder_copy_buffer_to_texture(
            1,
            &image_buffer(256),
            &image_texture(0),
            &full_size()
        ),
        Err(CopyError::Encoder(CommandEncoderError::NotRecording))
    );
}

#[test]
fn buffer_to_texture_copy_records_one_region_for_one_layer() {
    let mut global = buffer_and_texture();
    let res = global.command_encoder_copy_buffer_to_texture(
        ENCODER,
        &image_buffer(256),
        &image_texture(0),
        &full_size(),
    );
    assert_eq!(res, Ok(()));
    assert_eq!(
        recorded(&global),
        vec![
            Command::TransitionBuffer(BufferBarrier {
                buffer: 100,
                usage: UsageRange { start: 0, end: BUFFER_USES_COPY_SRC },
            }),
            Command::TransitionTexture(TextureBarrier {
                texture: 200,
                range: one_layer(0),
                usage: UsageRange { start: 0, end: TEXTURE_USES_COPY_DST },
            }),
            Command::CopyBufferToTexture {
                src: 100,
                dst: 200,
                region: BufferTextureCopy {
                    buffer_layout: ImageDataLayout {
                        offset: 0,
                        bytes_per_row: Some(256),
                        rows_per_image: None,
                    },
                    texture_base: TextureCopyBase {
                        mip_level: 0,
                        array_layer: 0,
                        origin: Origin3d { x: 0, y: 0, z: 0 },
                        aspect: ASPECT_COLOR,
                    },
                    size: CopyExtent { width: 16, height: 16, depth: 1 },
                },
            },
        ]
    );
    // The bytes read are those of the copy: 15 rows of 256 and one of 64.
    assert_eq!(
        global.command_buffers.get(ENCODER).unwrap().buffer_memory_init_actions,
        vec![MemoryInitTrackerAction {
            id: 0,
            range: AddressRange { start: 0, end: 3904 },
            kind: MemoryInitKind::NeedsInitializedMemory,
        }]
    );
}

#[test]
fn buffer_to_texture_copy_with_a_short_row_pitch_is_refused() {
    let mut global = buffer_and_texture();
    let res = global.command_encoder_copy_buffer_to_texture(
        ENCODER,
        &image_buffer(64),
        &image_texture(0),
        &full_size(),
    );
    assert_eq!(res, Err(CopyError::Transfer(TransferError::UnalignedBytesPerRow)));
    assert_eq!(recorded(&global), vec![]);
}

#[test]
fn texture_copies_of_no_texels_succeed_before_any_rule() {
    let mut global = recording(false);
    let empty = Extent3d { width: 16, height: 0, depth_or_array_layers: 1 };
    assert_eq!(
        global.command_encoder_copy_buffer_to_texture(
            ENCODER,
            &image_buffer(64),
            &image_texture(5),
            &empty
        ),
        Ok(())
    );
    assert_eq!(
        global.command_encoder_copy_texture_to_buffer(
            ENCODER,
            &image_texture(5),
            &image_buffer(64),
            &empty
        ),
        Ok(())
    );
    assert_eq!(
        global.command_encoder_copy_texture_to_texture(ENCODER, &image_texture(5), &image_texture(6), &empty),
        Ok(())
    );
    assert_eq!(recorded(&global), vec![]);
}

#[test]
fn buffer_to_texture_copy_of_layers_records_one_region_each() {
    let mut global = recording(false);
    global.buffers.insert(0, Buffer::new(100, BUFFER_USAGE_COPY_SRC, 1 << 16));
    global.textures.insert(
        0,
        texture(
            200,
            Extent3d { width: 16, height: 16, depth_or_array_layers: 4 },
            TextureDimension::D2,
            TEXTURE_USAGE_COPY_DST,
        ),
    );
    let source = ImageCopyBuffer {
        buffer: 0,
        layout: ImageDataLayout { offset: 512, bytes_per_row: Some(256), rows_per_image: Some(16) },
    };
    let mut destination = image_texture(0);
    destination.origin.z = 1;
    let size = Extent3d { width: 16, height: 16, depth_or_array_layers: 3 };
    assert_eq!(global.command_encoder_copy_buffer_to_texture(ENCODER, &source, &destination, &size), Ok(()));
    let commands = recorded(&global);
    // One buffer barrier, one texture barrier for the three layers, and one
    // copy for each layer.
    assert_eq!(commands.len(), 1 + 1 + 3);
    assert_eq!(
        commands[1],
        Command::TransitionTexture(TextureBarrier {
            texture: 200,
            range: ImageSubresourceRange { array_layer_count: Some(3), ..one_layer(1) },
            usage: UsageRange { start: 0, end: TEXTURE_USES_COPY_DST },
        })
    );
    for layer in 0..3u32 {
        assert_eq!(
            commands[2 + layer as usize],
            Command::CopyBufferToTexture {
                src: 100,
                dst: 200,
                region: BufferTextureCopy {
                    buffer_layout: ImageDataLayout {
                        offset: 512 + layer as u64 * 4096,
                        bytes_per_row: Some(256),
                        rows_per_image: Some(16),
                    },
                    texture_base: TextureCopyBase {
                        mip_level: 0,
                        array_layer: 1 + layer,
                        origin: Origin3d { x: 0, y: 0, z: 0 },
                        aspect: ASPECT_COLOR,
                    },
                    size: CopyExtent { width: 16, height: 16, depth: 1 },
                },
            }
        );
    }
}

#[test]
fn buffer_to_texture_rules_are_checked_in_order() {
    let transfer = |error| Err(CopyError::Transfer(error));
    let mut global = buffer_and_texture();
    global.buffers.insert(1, Buffer::new(101, BUFFER_USAGE_COPY_DST, 4096));
    global.textures.insert(1, texture(201, full_size(), TextureDimension::D2, TEXTURE_USAGE_COPY_SRC));
    global.textures.insert(2, Texture { raw: None, ..texture(0, full_size(), TextureDimension::D2, 0) });
    let mut forbidden = texture(203, full_size(), TextureDimension::D2, TEXTURE_USAGE_COPY_DST);
    forbidden.desc.format.copy_dst = false;
    global.textures.insert(3, forbidden);
    let mut copy = |source: ImageCopyBuffer, destination: ImageCopyTexture, size: Extent3d| {
        global.command_encoder_copy_buffer_to_texture(ENCODER, &source, &destination, &size)
    };
    assert_eq!(
        copy(image_buffer(256), image_texture(9), full_size()),
        transfer(TransferError::InvalidTexture(9))
    );
    let mut no_buffer = image_buffer(256);
    no_buffer.buffer = 9;
    assert_eq!(
        copy(no_buffer, image_texture(0), full_size()),
        transfer(TransferError::InvalidBuffer(9))
    );
    let mut no_source = image_buffer(256);
    no_source.buffer = 1;
    assert_eq!(
        copy(no_source, image_texture(0), full_size()),
        transfer(TransferError::MissingCopySrcUsageFlag)
    );
    assert_eq!(
        copy(image_buffer(256), image_texture(2), full_size()),
        transfer(TransferError::InvalidTexture(2))
    );
    assert_eq!(
        copy(image_buffer(256), image_texture(1), full_size()),
        transfer(TransferError::MissingCopyDstUsageFlag(None, Some(1)))
    );
    let wide = Extent3d { width: 17, height: 16, depth_or_array_layers: 1 };
    assert_eq!(
        copy(image_buffer(64), image_texture(0), wide),
        transfer(TransferError::TextureOverrun {
            start_offset: 0,
            end_offset: 17,
            texture_size: 16,
            dimension: TextureErrorDimension::X,
            side: CopySide::Destination,
        })
    );
    let mut late = image_buffer(256);
    late.layout.offset = 256;
    assert_eq!(
        copy(late, image_texture(0), full_size()),
        transfer(TransferError::BufferOverrun {
            start_offset: 256,
            end_offset: 256 + 3904,
            buffer_size: 4096,
            side: CopySide::Source,
        })
    );
    assert_eq!(
        copy(image_buffer(256), image_texture(3), full_size()),
        transfer(TransferError::CopyToForbiddenTextureFormat(FormatDescriptor {
            copy_dst: false,
            ..color_format()
        }))
    );
}

#[test]
fn texture_to_buffer_copy_marks_the_buffer_as_written() {
    let mut global = buffer_and_texture();
    let res = global.command_encoder_copy_texture_to_buffer(
        ENCODER,
        &image_texture(0),
        &image_buffer(256),
        &full_size(),
    );
    assert_eq!(res, Ok(()));
    let commands = recorded(&global);
    assert_eq!(
        commands[..2],
        [
            Command::TransitionBuffer(BufferBarrier {
                buffer: 100,
                usage: UsageRange { start: 0, end: BUFFER_USES_COPY_DST },
            }),
            Command::TransitionTexture(TextureBarrier {
                texture: 200,
                range: one_layer(0),
                usage: UsageRange { start: 0, end: TEXTURE_USES_COPY_SRC },
            }),
        ]
    );
    assert!(matches!(
        commands[2],
        Command::CopyTextureToBuffer { src: 200, src_usage: TEXTURE_USES_COPY_SRC, dst: 100, .. }
    ));
    assert_eq!(commands.len(), 3);
    assert_eq!(
        global.command_buffers.get(ENCODER).unwrap().buffer_memory_init_actions,
        vec![MemoryInitTrackerAction {
            id: 0,
            range: AddressRange { start: 0, end: 3904 },
            kind: MemoryInitKind::ImplicitlyInitialized,
        }]
    );
}

#[test]
fn texture_to_buffer_rules_name_their_sides() {
    let transfer = |error| Err(CopyError::Transfer(error));
    let mut global = buffer_and_texture();
    global.buffers.insert(1, Buffer::new(101, BUFFER_USAGE_COPY_SRC, 4096));
    global.textures.insert(1, texture(201, full_size(), TextureDimension::D2, TEXTURE_USAGE_COPY_DST));
    let mut forbidden = texture(203, full_size(), TextureDimension::D2, TEXTURE_USAGE_COPY_SRC);
    forbidden.desc.format.copy_src = false;
    global.textures.insert(3, forbidden);
    let mut copy = |source: ImageCopyTexture, destination: ImageCopyBuffer, size: Extent3d| {
        global.command_encoder_copy_texture_to_buffer(ENCODER, &source, &destination, &size)
    };
    assert_eq!(
        copy(image_texture(1), image_buffer(256), full_size()),
        transfer(TransferError::MissingCopySrcUsageFlag)
    );
    let mut no_destination = image_buffer(256);
    no_destination.buffer = 1;
    assert_eq!(
        copy(image_texture(0), no_destination, full_size()),
        transfer(TransferError::MissingCopyDstUsageFlag(Some(1), None))
    );
    let mut outside = image_texture(0);
    outside.mip_level = 1;
    assert_eq!(
        copy(outside, image_buffer(256), full_size()),
        transfer(TransferError::InvalidTextureMipLevel { level: 1, total: 1 })
    );
    let mut late = image_buffer(256);
    late.layout.offset = 1024;
    assert_eq!(
        copy(image_texture(0), late, full_size()),
        transfer(TransferError::BufferOverrun {
            start_offset: 1024,
            end_offset: 1024 + 3904,
            buffer_size: 4096,
            side: CopySide::Destination,
        })
    );
    assert_eq!(
        copy(image_texture(3), image_buffer(256), full_size()),
        transfer(TransferError::CopyFromForbiddenTextureFormat(FormatDescriptor {
            copy_src: false,
            ..color_format()
        }))
    );
}

#[test]
fn texture_to_texture_copy_takes_the_smaller_extent() {
    let mut global = recording(false);
    global.textures.insert(
        0,
        texture(
            200,
            Extent3d { width: 16, height: 16, depth_or_array_layers: 4 },
            TextureDimension::D2,
            TEXTURE_USAGE_COPY_SRC,
        ),
    );
    global.textures.insert(
        1,
        texture(
            201,
            Extent3d { width: 32, height: 32, depth_or_array_layers: 8 },
            TextureDimension::D3,
            TEXTURE_USAGE_COPY_DST,
        ),
    );
    let mut source = image_texture(0);
    source.origin.z = 1;
    let mut destination = image_texture(1);
    destination.origin = Origin3d { x: 8, y: 4, z: 2 };
    let size = Extent3d { width: 8, height: 4, depth_or_array_layers: 2 };
    assert_eq!(global.command_encoder_copy_texture_to_texture(ENCODER, &source, &destination, &size), Ok(()));
    let commands = recorded(&global);
    // Two layers of the source and the one of the destination change use.
    assert_eq!(commands.len(), 2 + 2);
    assert_eq!(
        commands[..2],
        [
            Command::TransitionTexture(TextureBarrier {
                texture: 200,
                range: ImageSubresourceRange { array_layer_count: Some(2), ..one_layer(1) },
                usage: UsageRange { start: 0, end: TEXTURE_USES_COPY_SRC },
            }),
            Command::TransitionTexture(TextureBarrier {
                texture: 201,
                range: one_layer(0),
                usage: UsageRange { start: 0, end: TEXTURE_USES_COPY_DST },
            }),
        ]
    );
    for layer in 0..2u32 {
        assert_eq!(
            commands[2 + layer as usize],
            Command::CopyTextureToTexture {
                src: 200,
                src_usage: TEXTURE_USES_COPY_SRC,
                dst: 201,
                copy: TextureCopy {
                    src_base: TextureCopyBase {
                        mip_level: 0,
                        array_layer: 1 + layer,
                        origin: Origin3d { x: 0, y: 0, z: 0 },
                        aspect: ASPECT_COLOR,
                    },
                    dst_base: TextureCopyBase {
                        mip_level: 0,
                        array_layer: layer,
                        origin: Origin3d { x: 8, y: 4, z: 2 },
                        aspect: ASPECT_COLOR,
                    },
                    size: CopyExtent { width: 8, height: 4, depth: 1 },
                },
            }
        );
    }
}

#[test]
fn texture_to_texture_copy_needs_the_same_aspects() {
    let mut global = recording(false);
    global.textures.insert(0, texture(200, full_size(), TextureDimension::D2, TEXTURE_USAGE_COPY_SRC));
    let mut depth = texture(201, full_size(), TextureDimension::D2, TEXTURE_USAGE_COPY_DST);
    depth.desc.format = FormatDescriptor::describe(wgpu_types::TextureFormat::Depth32Float, true, true);
    global.textures.insert(1, depth);
    assert_eq!(
        global.command_encoder_copy_texture_to_texture(
            ENCODER,
            &image_texture(0),
            &image_texture(1),
            &full_size()
        ),
        Err(CopyError::Transfer(TransferError::MismatchedAspects))
    );
    assert_eq!(
        global.command_encoder_copy_texture_to_texture(
            ENCODER,
            &image_texture(1),
            &image_texture(1),
            &full_size()
        ),
        Err(CopyError::Transfer(TransferError::MissingCopySrcUsageFlag))
    );
    assert_eq!(
        global.command_encoder_copy_texture_to_texture(
            ENCODER,
            &image_texture(0),
            &image_texture(0),
            &full_size()
        ),
        Err(CopyError::Transfer(TransferError::MissingCopyDstUsageFlag(None, Some(0))))
    );
}

#[test]
fn copies_record_memory_actions_within_the_bytes_that_they_touch() {
    let mut global = recording(false);
    global.buffers.insert(0, Buffer::new(100, BUFFER_USAGE_COPY_SRC | BUFFER_USAGE_COPY_DST, 64));
    let mut gray = texture(
        200,
        Extent3d { width: 4, height: 4, depth_or_array_layers: 1 },
        TextureDimension::D2,
        TEXTURE_USAGE_COPY_SRC | TEXTURE_USAGE_COPY_DST,
    );
    gray.desc.format = FormatDescriptor::describe(wgpu_types::TextureFormat::R8Unorm, true, true);
    global.textures.insert(0, gray);
    let row = Extent3d { width: 3, height: 1, depth_or_array_layers: 1 };
    let at = |offset: u64| ImageCopyBuffer {
        buffer: 0,
        layout: ImageDataLayout { offset, bytes_per_row: Some(256), rows_per_image: None },
    };
    // Three bytes are written from the start, three are read from byte 5 on.
    assert_eq!(
        global.command_encoder_copy_texture_to_buffer(ENCODER, &image_texture(0), &at(0), &row),
        Ok(())
    );
    assert_eq!(
        global.command_encoder_copy_buffer_to_texture(ENCODER, &at(5), &image_texture(0), &row),
        Ok(())
    );
    assert_eq!(
        global.command_buffers.get(ENCODER).unwrap().buffer_memory_init_actions,
        vec![
            MemoryInitTrackerAction {
                id: 0,
                range: AddressRange { start: 0, end: 3 },
                kind: MemoryInitKind::ImplicitlyInitialized,
            },
            MemoryInitTrackerAction {
                id: 0,
                range: AddressRange { start: 5, end: 8 },
                kind: MemoryInitKind::NeedsInitializedMemory,
            },
        ]
    );
    // Recording leaves the buffer as it is.
    assert_eq!(
        global.buffers.get(0).unwrap().initialization_status.uninitialized_ranges,
        vec![AddressRange { start: 0, end: 64 }]
    );
}
