use transfer_core::hal::{CopyExtent, TextureCopyBase};
use transfer_core::resource::{LifeGuard, Texture};
use transfer_core::storage::Storage;
use transfer_core::track::{IndexRange, TextureSelector};
use transfer_core::transfer::{
    extract_texture_selector, validate_linear_texture_data, validate_texture_copy_range, CopySide,
    TextureErrorDimension, TransferError,
};
use transfer_core::types::{
    Extent3d, FormatDescriptor, ImageCopyTexture, ImageDataLayout, Origin3d, TextureAspect,
    TextureDescriptor, TextureDimension, ASPECT_COLOR, ASPECT_DEPTH, ASPECT_STENCIL,
    TEXTURE_USAGE_COPY_DST, TEXTURE_USAGE_COPY_SRC,
};

fn rgba8() -> FormatDescriptor {
    FormatDescriptor::describe(wgpu_types::TextureFormat::Rgba8Unorm, true, true)
}

fn bc1() -> FormatDescriptor {
    FormatDescriptor::describe(wgpu_types::TextureFormat::Bc1RgbaUnorm, true, true)
}

fn layout(offset: u64, bytes_per_row: Option<u32>, rows_per_image: Option<u32>) -> ImageDataLayout {
    ImageDataLayout { offset, bytes_per_row, rows_per_image }
}

fn extent(width: u32, height: u32, depth_or_array_layers: u32) -> Extent3d {
    Extent3d { width, height, depth_or_array_layers }
}

fn texture_desc(
    size: Extent3d,
    mip_level_count: u32,
    dimension: TextureDimension,
    format: FormatDescriptor,
) -> TextureDescriptor {
    TextureDescriptor {
        size,
        mip_level_count,
        sample_count: 1,
        dimension,
        format,
        usage: TEXTURE_USAGE_COPY_SRC | TEXTURE_USAGE_COPY_DST,
    }
}

fn view(mip_level: u32, x: u32, y: u32, z: u32) -> ImageCopyTexture {
    ImageCopyTexture { texture: 0, mip_level, origin: Origin3d { x, y, z }, aspect: TextureAspect::All }
}

#[test]
fn describe_reads_blocks_and_aspects_of_formats() {
    let color = rgba8();
    assert_eq!(color.block_dimensions, (1, 1));
    assert_eq!(color.block_size, 4);
    assert_eq!(color.aspects, ASPECT_COLOR);
    let compressed = bc1();
    assert_eq!(compressed.block_dimensions, (4, 4));
    assert_eq!(compressed.block_size, 8);
    let astc = FormatDescriptor::describe(wgpu_types::TextureFormat::Astc8x5RgbaUnorm, true, true);
    assert_eq!(astc.block_dimensions, (8, 5));
    assert_eq!(astc.block_size, 16);
    let depth = FormatDescriptor::describe(wgpu_types::TextureFormat::Depth32Float, true, false);
    assert_eq!(depth.aspects, ASPECT_DEPTH);
    assert!(depth.copy_src && !depth.copy_dst);
    let both =
        FormatDescriptor::describe(wgpu_types::TextureFormat::Depth24PlusStencil8, false, false);
    assert_eq!(both.aspects, ASPECT_DEPTH | ASPECT_STENCIL);
}

#[test]
fn linear_data_of_a_padded_image_requires_all_rows_but_the_last_in_full() {
    let res = validate_linear_texture_data(
        &layout(0, Some(256), None),
        rgba8(),
        4096,
        CopySide::Source,
        4,
        &extent(16, 16, 1),
        true,
    );
    assert_eq!(res, Ok((256 * 15 + 4 * 16, 256 * 16)));
    assert_eq!(res, Ok((3904, 4096)));
}

#[test]
fn linear_data_of_several_images_counts_whole_images_first() {
    let res = validate_linear_texture_data(
        &layout(16, Some(256), Some(20)),
        rgba8(),
        1 << 20,
        CopySide::Destination,
        4,
        &extent(16, 16, 3),
        true,
    );
    assert_eq!(res, Ok((256 * 20 * 2 + 256 * 15 + 64, 256 * 20)));
}

#[test]
fn linear_data_of_compressed_blocks_counts_blocks() {
    // 8x8 texels of 4x4 blocks of 8 bytes: two rows of two blocks.
    let res = validate_linear_texture_data(
        &layout(0, Some(256), None),
        bc1(),
        1024,
        CopySide::Source,
        8,
        &extent(8, 8, 1),
        true,
    );
    assert_eq!(res, Ok((256 + 16, 256 * 2)));
}

#[test]
fn linear_data_of_an_empty_copy_requires_nothing() {
    for size in [extent(0, 16, 1), extent(16, 0, 1), extent(16, 16, 0)] {
        let res = validate_linear_texture_data(
            &layout(8, Some(256), Some(16)),
            rgba8(),
            8,
            CopySide::Source,
            4,
            &size,
            true,
        );
        assert_eq!(res.map(|found| found.0), Ok(0));
    }
}

#[test]
fn linear_data_without_a_row_pitch_is_one_row() {
    let res = validate_linear_texture_data(
        &layout(0, None, None),
        rgba8(),
        64,
        CopySide::Source,
        4,
        &extent(16, 1, 1),
        false,
    );
    assert_eq!(res, Ok((64, 64)));
}

#[test]
fn linear_data_needs_a_row_pitch_for_more_than_one_row() {
    let one_image = validate_linear_texture_data(
        &layout(0, None, Some(16)),
        rgba8(),
        4096,
        CopySide::Source,
        4,
        &extent(16, 16, 1),
        true,
    );
    assert_eq!(one_image, Err(TransferError::UnspecifiedBytesPerRow));
    let several = validate_linear_texture_data(
        &layout(0, None, None),
        rgba8(),
        4096,
        CopySide::Source,
        4,
        &extent(16, 1, 2),
        true,
    );
    assert_eq!(several, Err(TransferError::UnspecifiedBytesPerRow));
}

#[test]
fn linear_data_needs_rows_per_image_for_more_than_one_image() {
    let res = validate_linear_texture_data(
        &layout(0, Some(256), None),
        rgba8(),
        1 << 20,
        CopySide::Source,
        4,
        &extent(16, 16, 2),
        true,
    );
    assert_eq!(res, Err(TransferError::UnspecifiedRowsPerImage));
}

#[test]
fn linear_data_rejects_partial_blocks() {
    let width = validate_linear_texture_data(
        &layout(0, Some(256), None),
        bc1(),
        4096,
        CopySide::Source,
        8,
        &extent(6, 8, 1),
        true,
    );
    assert_eq!(width, Err(TransferError::UnalignedCopyWidth));
    let height = validate_linear_texture_data(
        &layout(0, Some(256), None),
        bc1(),
        4096,
        CopySide::Source,
        8,
        &extent(8, 6, 1),
        true,
    );
    assert_eq!(height, Err(TransferError::UnalignedCopyHeight));
}

#[test]
fn linear_data_rejects_an_unaligned_row_pitch_where_alignment_is_asked() {
    let res = validate_linear_texture_data(
        &layout(0, Some(64), None),
        rgba8(),
        4096,
        CopySide::Source,
        4,
        &extent(16, 16, 1),
        true,
    );
    assert_eq!(res, Err(TransferError::UnalignedBytesPerRow));
    // A block size that does not divide the alignment is refused as well.
    let odd = validate_linear_texture_data(
        &layout(0, Some(256), None),
        rgba8(),
        4096,
        CopySide::Source,
        3,
        &extent(16, 16, 1),
        true,
    );
    assert_eq!(odd, Err(TransferError::UnalignedBytesPerRow));
    // Without the demand, any pitch that holds a row will do.
    let free = validate_linear_texture_data(
        &layout(0, Some(64), None),
        rgba8(),
        4096,
        CopySide::Source,
        4,
        &extent(16, 16, 1),
        false,
    );
    assert_eq!(free, Ok((64 * 15 + 64, 64 * 16)));
}

#[test]
fn linear_data_rejects_too_few_rows_per_image() {
    let res = validate_linear_texture_data(
        &layout(0, Some(256), Some(8)),
        rgba8(),
        1 << 20,
        CopySide::Source,
        4,
        &extent(16, 16, 2),
        true,
    );
    assert_eq!(res, Err(TransferError::InvalidRowsPerImage));
}

#[test]
fn linear_data_rejects_a_copy_past_the_end_of_the_buffer() {
    let res = validate_linear_texture_data(
        &layout(256, Some(256), None),
        rgba8(),
        4096,
        CopySide::Destination,
        4,
        &extent(16, 16, 1),
        true,
    );
    assert_eq!(
        res,
        Err(TransferError::BufferOverrun {
            start_offset: 256,
            end_offset: 256 + 3904,
            buffer_size: 4096,
            side: CopySide::Destination,
        })
    );
}

#[test]
fn linear_data_that_needs_more_than_64_bits_overruns() {
    let res = validate_linear_texture_data(
        &layout(0, Some(0xffff_ff00), Some(0xffff_ffff)),
        rgba8(),
        u64::MAX,
        CopySide::Source,
        4,
        &extent(16, 16, 0xffff_ffff),
        true,
    );
    assert_eq!(
        res,
        Err(TransferError::BufferOverrun {
            start_offset: 0,
            end_offset: u64::MAX,
            buffer_size: u64::MAX,
            side: CopySide::Source,
        })
    );
}

#[test]
fn linear_data_rejects_an_offset_off_the_block_size() {
    let res = validate_linear_texture_data(
        &layout(6, Some(256), None),
        rgba8(),
        8192,
        CopySide::Source,
        4,
        &extent(16, 16, 1),
        true,
    );
    assert_eq!(res, Err(TransferError::UnalignedBufferOffset(6)));
}

#[test]
fn linear_data_rejects_a_row_pitch_below_the_row() {
    let res = validate_linear_texture_data(
        &layout(0, Some(32), None),
        rgba8(),
        8192,
        CopySide::Source,
        4,
        &extent(16, 16, 1),
        false,
    );
    assert_eq!(res, Err(TransferError::InvalidBytesPerRow));
}

#[test]
fn copy_range_of_a_whole_2d_texture() {
    let desc = texture_desc(extent(16, 16, 1), 1, TextureDimension::D2, rgba8());
    let res =
        validate_texture_copy_range(&view(0, 0, 0, 0), &desc, CopySide::Destination, &extent(16, 16, 1));
    assert_eq!(res, Ok((CopyExtent { width: 16, height: 16, depth: 1 }, 1)));
}

#[test]
fn copy_range_of_array_layers_counts_layers() {
    let desc = texture_desc(extent(16, 16, 6), 1, TextureDimension::D2, rgba8());
    let res =
        validate_texture_copy_range(&view(0, 0, 0, 2), &desc, CopySide::Source, &extent(8, 4, 3));
    assert_eq!(res, Ok((CopyExtent { width: 8, height: 4, depth: 1 }, 3)));
}

#[test]
fn copy_range_of_a_3d_texture_has_one_layer() {
    let desc = texture_desc(extent(16, 16, 8), 1, TextureDimension::D3, rgba8());
    let res =
        validate_texture_copy_range(&view(0, 0, 0, 2), &desc, CopySide::Source, &extent(8, 4, 3));
    assert_eq!(res, Ok((CopyExtent { width: 8, height: 4, depth: 3 }, 1)));
}

#[test]
fn copy_range_follows_the_size_of_the_mip_level() {
    // Level 2 of 100x60 is 25x15; level 6 is 1x1.
    let desc = texture_desc(extent(100, 60, 1), 7, TextureDimension::D2, rgba8());
    let whole =
        validate_texture_copy_range(&view(2, 0, 0, 0), &desc, CopySide::Source, &extent(25, 15, 1));
    assert_eq!(whole, Ok((CopyExtent { width: 25, height: 15, depth: 1 }, 1)));
    let wide =
        validate_texture_copy_range(&view(2, 0, 0, 0), &desc, CopySide::Source, &extent(26, 15, 1));
    assert_eq!(
        wide,
        Err(TransferError::TextureOverrun {
            start_offset: 0,
            end_offset: 26,
            texture_size: 25,
            dimension: TextureErrorDimension::X,
            side: CopySide::Source,
        })
    );
    let last =
        validate_texture_copy_range(&view(6, 0, 0, 0), &desc, CopySide::Source, &extent(1, 1, 1));
    assert_eq!(last, Ok((CopyExtent { width: 1, height: 1, depth: 1 }, 1)));
    let none =
        validate_texture_copy_range(&view(7, 0, 0, 0), &desc, CopySide::Source, &extent(1, 1, 1));
    assert_eq!(none, Err(TransferError::InvalidTextureMipLevel { level: 7, total: 7 }));
}

#[test]
fn copy_range_of_compressed_blocks_clamps_to_the_virtual_size() {
    // Level 1 of a 12x20 texture is 6x10 texels, 8x12 in whole 4x4 blocks.
    let desc = texture_desc(extent(12, 20, 1), 2, TextureDimension::D2, bc1());
    let res =
        validate_texture_copy_range(&view(1, 0, 0, 0), &desc, CopySide::Destination, &extent(8, 12, 1));
    assert_eq!(res, Ok((CopyExtent { width: 6, height: 10, depth: 1 }, 1)));
}

#[test]
fn copy_range_rejects_overruns_on_every_axis() {
    let desc = texture_desc(extent(16, 16, 4), 1, TextureDimension::D2, rgba8());
    let y = validate_texture_copy_range(&view(0, 0, 8, 0), &desc, CopySide::Source, &extent(16, 9, 1));
    assert_eq!(
        y,
        Err(TransferError::TextureOverrun {
            start_offset: 8,
            end_offset: 17,
            texture_size: 16,
            dimension: TextureErrorDimension::Y,
            side: CopySide::Source,
        })
    );
    let z = validate_texture_copy_range(&view(0, 0, 0, 3), &desc, CopySide::Source, &extent(16, 16, 2));
    assert_eq!(
        z,
        Err(TransferError::TextureOverrun {
            start_offset: 3,
            end_offset: 5,
            texture_size: 4,
            dimension: TextureErrorDimension::Z,
            side: CopySide::Source,
        })
    );
    let far = validate_texture_copy_range(
        &view(0, u32::MAX, 0, 0),
        &desc,
        CopySide::Destination,
        &extent(16, 16, 1),
    );
    assert_eq!(
        far,
        Err(TransferError::TextureOverrun {
            start_offset: u32::MAX,
            end_offset: u32::MAX,
            texture_size: 16,
            dimension: TextureErrorDimension::X,
            side: CopySide::Destination,
        })
    );
}

#[test]
fn copy_range_rejects_origins_and_sizes_off_the_blocks() {
    let desc = texture_desc(extent(16, 16, 1), 1, TextureDimension::D2, bc1());
    let side = CopySide::Source;
    let res = validate_texture_copy_range(&view(0, 2, 0, 0), &desc, side, &extent(4, 4, 1));
    assert_eq!(res, Err(TransferError::UnalignedCopyOriginX));
    let res = validate_texture_copy_range(&view(0, 0, 2, 0), &desc, side, &extent(4, 4, 1));
    assert_eq!(res, Err(TransferError::UnalignedCopyOriginY));
    let res = validate_texture_copy_range(&view(0, 0, 0, 0), &desc, side, &extent(6, 4, 1));
    assert_eq!(res, Err(TransferError::UnalignedCopyWidth));
    let res = validate_texture_copy_range(&view(0, 0, 0, 0), &desc, side, &extent(4, 6, 1));
    assert_eq!(res, Err(TransferError::UnalignedCopyHeight));
}

fn one_texture(dimension: TextureDimension, format: FormatDescriptor) -> Storage<Texture> {
    let mut textures = Storage::new();
    textures.insert(
        0,
        Texture {
            raw: Some(7),
            desc: texture_desc(extent(16, 16, 8), 4, dimension, format),
            life_guard: LifeGuard::new(),
        },
    );
    textures
}

#[test]
fn selector_of_a_2d_texture_takes_its_layers_from_z() {
    let textures = one_texture(TextureDimension::D2, rgba8());
    let res = extract_texture_selector(&view(1, 4, 8, 2), &extent(4, 4, 3), &textures);
    assert_eq!(
        res,
        Ok((
            TextureSelector {
                levels: IndexRange { start: 1, end: 2 },
                layers: IndexRange { start: 2, end: 5 },
            },
            TextureCopyBase {
                mip_level: 1,
                array_layer: 2,
                origin: Origin3d { x: 4, y: 8, z: 0 },
                aspect: ASPECT_COLOR,
            },
            rgba8(),
        ))
    );
}

#[test]
fn selector_of_a_3d_texture_has_one_layer_and_keeps_z() {
    let textures = one_texture(TextureDimension::D3, rgba8());
    let res = extract_texture_selector(&view(0, 4, 8, 2), &extent(4, 4, 3), &textures);
    assert_eq!(
        res,
        Ok((
            TextureSelector {
                levels: IndexRange { start: 0, end: 1 },
                layers: IndexRange { start: 0, end: 1 },
            },
            TextureCopyBase {
                mip_level: 0,
                array_layer: 0,
                origin: Origin3d { x: 4, y: 8, z: 2 },
                aspect: ASPECT_COLOR,
            },
            rgba8(),
        ))
    );
}

#[test]
fn selector_fails_for_unknown_textures_and_missing_aspects() {
    let textures = one_texture(TextureDimension::D2, rgba8());
    let mut unknown = view(0, 0, 0, 0);
    unknown.texture = 3;
    assert_eq!(
        extract_texture_selector(&unknown, &extent(4, 4, 1), &textures),
        Err(TransferError::InvalidTexture(3))
    );
    let mut depth_only = view(0, 0, 0, 0);
    depth_only.aspect = TextureAspect::DepthOnly;
    assert_eq!(
        extract_texture_selector(&depth_only, &extent(4, 4, 1), &textures),
        Err(TransferError::InvalidTextureAspect {
            format: rgba8(),
            aspect: TextureAspect::DepthOnly,
        })
    );
}

#[test]
fn selector_picks_the_aspect_asked_for() {
    let format =
        FormatDescriptor::describe(wgpu_types::TextureFormat::Depth24PlusStencil8, false, false);
    let textures = one_texture(TextureDimension::D2, format);
    let mut stencil = view(0, 0, 0, 0);
    stencil.aspect = TextureAspect::StencilOnly;
    let (_, base, _) = extract_texture_selector(&stencil, &extent(4, 4, 1), &textures).unwrap();
    assert_eq!(base.aspect, ASPECT_STENCIL);
    let mut depth = view(0, 0, 0, 0);
    depth.aspect = TextureAspect::DepthOnly;
    let (_, base, _) = extract_texture_selector(&depth, &extent(4, 4, 1), &textures).unwrap();
    assert_eq!(base.aspect, ASPECT_DEPTH);
    let (_, base, _) = extract_texture_selector(&view(0, 0, 0, 0), &extent(4, 4, 1), &textures).unwrap();
    assert_eq!(base.aspect, ASPECT_DEPTH | ASPECT_STENCIL);
}
