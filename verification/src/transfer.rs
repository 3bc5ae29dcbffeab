//! The rules that a transfer must meet: the errors, and the validation of
//! linear texture data and of texture copy ranges.

use crate::align::{align_up, lemma_align_up};
use crate::command::CommandEncoderError;
use crate::hal::{CopyExtent, TextureCopyBase};
use crate::outside::{
    aspect_flags, aspect_mask, copy_bytes_per_row_alignment, mip_level_extent, mip_level_size,
};
use crate::resource::Texture;
use crate::storage::Storage;
use crate::track::{IndexRange, TextureSelector};
use crate::types::{
    clamp_u32, clamp_u64, BufferAddress, BufferId, Extent3d, FormatDescriptor, ImageCopyTexture,
    ImageDataLayout, Origin3d, TextureAspect, TextureDescriptor, TextureDimension, TextureId,
    COPY_BYTES_PER_ROW_ALIGNMENT,
};
use vstd::arithmetic::div_mod::{lemma_div_nonincreasing, lemma_mod_decreases};
use vstd::arithmetic::mul::lemma_mul_upper_bound;
use vstd::prelude::*;

verus! {

/// The side of a copy that an error speaks of.
#[derive(Clone, Copy, Debug, PartialEq, Eq)]
pub enum CopySide {
    Source,
    Destination,
}

/// The axis of a texture that an error speaks of.
#[derive(Clone, Copy, Debug, PartialEq, Eq)]
pub enum TextureErrorDimension {
    X,
    Y,
    Z,
}

/// Error encountered while attempting a data transfer.
#[derive(Clone, Copy, Debug, PartialEq, Eq)]
pub enum TransferError {
    /// The buffer is unknown or destroyed.
    InvalidBuffer(BufferId),
    /// The texture is unknown or destroyed.
    InvalidTexture(TextureId),
    /// Source and destination are the same buffer.
    SameSourceDestinationBuffer,
    /// The source lacks the copy-source usage.
    MissingCopySrcUsageFlag,
    /// The destination, a buffer or a texture, lacks the copy-destination
    /// usage.
    MissingCopyDstUsageFlag(Option<BufferId>, Option<TextureId>),
    /// The copy would run past the end of the buffer. `end_offset` is the
    /// end of the copy, or `u64::MAX` where that end is larger.
    BufferOverrun {
        start_offset: BufferAddress,
        end_offset: BufferAddress,
        buffer_size: BufferAddress,
        side: CopySide,
    },
    /// The copy would run past the texture on one axis. `end_offset` and
    /// `texture_size` are the end of the copy and the size of the texture,
    /// or `u32::MAX` where they are larger.
    TextureOverrun {
        start_offset: u32,
        end_offset: u32,
        texture_size: u32,
        dimension: TextureErrorDimension,
        side: CopySide,
    },
    /// The format has none of the aspects asked for.
    InvalidTextureAspect { format: FormatDescriptor, aspect: TextureAspect },
    /// The texture has no such mip level.
    InvalidTextureMipLevel { level: u32, total: u32 },
    /// The buffer offset is not a multiple of the block size or of the copy
    /// alignment.
    UnalignedBufferOffset(BufferAddress),
    /// The copy size is not a multiple of the copy alignment.
    UnalignedCopySize(BufferAddress),
    /// The copy width is not a multiple of the block width.
    UnalignedCopyWidth,
    /// The copy height is not a multiple of the block height.
    UnalignedCopyHeight,
    /// The copy origin's x is not a multiple of the block width.
    UnalignedCopyOriginX,
    /// The copy origin's y is not a multiple of the block height.
    UnalignedCopyOriginY,
    /// The row pitch is not a multiple of the row alignment.
    UnalignedBytesPerRow,
    /// More than one row is copied and no row pitch is given.
    UnspecifiedBytesPerRow,
    /// More than one image is copied and no image height is given.
    UnspecifiedRowsPerImage,
    /// The row pitch is less than the bytes of one row.
    InvalidBytesPerRow,
    /// The image is 1D and the copy is higher or deeper than 1.
    InvalidCopySize,
    /// The image height is less than the rows copied.
    InvalidRowsPerImage,
    /// Source and destination address different aspects.
    MismatchedAspects,
    /// Textures of this format cannot be copied from.
    CopyFromForbiddenTextureFormat(FormatDescriptor),
    /// Textures of this format cannot be copied to.
    CopyToForbiddenTextureFormat(FormatDescriptor),
}

/// Error encountered while attempting to do a copy on a command encoder.
#[derive(Clone, Copy, Debug, PartialEq, Eq)]
pub enum CopyError {
    /// The command encoder cannot record.
    Encoder(CommandEncoderError),
    /// The copy breaks a rule of transfers.
    Transfer(TransferError),
}

/// The smaller of two numbers.
pub open spec fn min_of(a: u32, b: u32) -> u32 {
    if a <= b {
        a
    } else {
        b
    }
}

/// The smaller of two numbers.
pub fn min_u32(a: u32, b: u32) -> (m: u32)
    ensures
        m == min_of(a, b),
{
    if a <= b {
        a
    } else {
        b
    }
}

/// Blocks in one row of a copy: the copy width over the block width.
pub open spec fn width_in_blocks(copy_size: Extent3d, format: FormatDescriptor) -> int {
    copy_size.width as int / format.block_width()
}

/// Rows of blocks in one image of a copy: the copy height over the block
/// height.
pub open spec fn height_in_blocks(copy_size: Extent3d, format: FormatDescriptor) -> int {
    copy_size.height as int / format.block_height()
}

/// The row pitch of a copy: the layout's, or else the bytes of one row of
/// blocks.
pub open spec fn resolved_bytes_per_row(
    layout: ImageDataLayout,
    format: FormatDescriptor,
    bytes_per_block: BufferAddress,
    copy_size: Extent3d,
) -> int {
    match layout.bytes_per_row {
        Some(bytes_per_row) => bytes_per_row as int,
        None => bytes_per_block * width_in_blocks(copy_size, format),
    }
}

/// The rows of blocks from one image to the next: the layout's, or else the
/// rows of blocks of the copy.
pub open spec fn resolved_rows_per_image(
    layout: ImageDataLayout,
    format: FormatDescriptor,
    copy_size: Extent3d,
) -> int {
    match layout.rows_per_image {
        Some(rows_per_image) => rows_per_image as int,
        None => height_in_blocks(copy_size, format),
    }
}

/// Bytes from one image to the next: the row pitch times the rows per image.
pub open spec fn bytes_per_image(
    layout: ImageDataLayout,
    format: FormatDescriptor,
    bytes_per_block: BufferAddress,
    copy_size: Extent3d,
) -> int {
    resolved_bytes_per_row(layout, format, bytes_per_block, copy_size) * resolved_rows_per_image(
        layout,
        format,
        copy_size,
    )
}

/// Bytes of the buffer that a copy touches, from its first byte to its last:
/// none where a dimension is zero; else every image but the last in full,
/// every row of the last image but the last in full, and the last row.
pub open spec fn required_bytes_in_copy(
    layout: ImageDataLayout,
    format: FormatDescriptor,
    bytes_per_block: BufferAddress,
    copy_size: Extent3d,
) -> int {
    if copy_size.is_empty() {
        0
    } else {
        bytes_per_image(layout, format, bytes_per_block, copy_size) * (
        copy_size.depth_or_array_layers - 1) + resolved_bytes_per_row(
            layout,
            format,
            bytes_per_block,
            copy_size,
        ) * (height_in_blocks(copy_size, format) - 1) + bytes_per_block * width_in_blocks(
            copy_size,
            format,
        )
    }
}

/// What the validation of linear texture data answers: the first rule broken,
/// in the order of the rules, or the required bytes and the bytes per image
/// (`u64::MAX` where they are more; they are not where more than one image is
/// copied).
pub open spec fn linear_texture_data(
    layout: ImageDataLayout,
    format: FormatDescriptor,
    buffer_size: BufferAddress,
    buffer_side: CopySide,
    bytes_per_block: BufferAddress,
    copy_size: Extent3d,
    need_copy_aligned_rows: bool,
) -> Result<(BufferAddress, BufferAddress), TransferError> {
    let bytes_per_row = resolved_bytes_per_row(layout, format, bytes_per_block, copy_size);
    let required = required_bytes_in_copy(layout, format, bytes_per_block, copy_size);
    if layout.bytes_per_row is None && (copy_size.depth_or_array_layers > 1 || height_in_blocks(
        copy_size,
        format,
    ) > 1) {
        Err(TransferError::UnspecifiedBytesPerRow)
    } else if layout.rows_per_image is None && copy_size.depth_or_array_layers > 1 {
        Err(TransferError::UnspecifiedRowsPerImage)
    } else if copy_size.width as int % format.block_width() != 0 {
        Err(TransferError::UnalignedCopyWidth)
    } else if copy_size.height as int % format.block_height() != 0 {
        Err(TransferError::UnalignedCopyHeight)
    } else if need_copy_aligned_rows && (COPY_BYTES_PER_ROW_ALIGNMENT as int % (
    bytes_per_block as int) != 0 || bytes_per_row % (COPY_BYTES_PER_ROW_ALIGNMENT as int) != 0) {
        Err(TransferError::UnalignedBytesPerRow)
    } else if resolved_rows_per_image(layout, format, copy_size) * format.block_height()
        < copy_size.height {
        Err(TransferError::InvalidRowsPerImage)
    } else if layout.offset + required > buffer_size {
        Err(
            TransferError::BufferOverrun {
                start_offset: layout.offset,
                end_offset: clamp_u64(layout.offset + required),
                buffer_size,
                side: buffer_side,
            },
        )
    } else if layout.offset as int % (bytes_per_block as int) != 0 {
        Err(TransferError::UnalignedBufferOffset(layout.offset))
    } else if copy_size.height > 1 && bytes_per_row < bytes_per_block * width_in_blocks(
        copy_size,
        format,
    ) {
        Err(TransferError::InvalidBytesPerRow)
    } else {
        Ok(
            (
                required as BufferAddress,
                clamp_u64(bytes_per_image(layout, format, bytes_per_block, copy_size)),
            ),
        )
    }
}

/// `value` as a 64-bit number, or `u64::MAX` where it is larger.
fn clamp_to_u64(value: u128) -> (clamped: u64)
    ensures
        clamped == clamp_u64(value as int),
{
    if value > u64::MAX as u128 {
        u64::MAX
    } else {
        value as u64
    }
}

/// `value` as a 32-bit number, or `u32::MAX` where it is larger.
fn clamp_to_u32(value: u64) -> (clamped: u32)
    ensures
        clamped == clamp_u32(value as int),
{
    if value > u32::MAX as u64 {
        u32::MAX
    } else {
        value as u32
    }
}

/// Validates the layout of texture data in a buffer of `buffer_size` bytes
/// against a copy of `copy_size` texels, and returns the number of buffer
/// bytes that the copy requires and the number of bytes between array layers.
/// All sums and products are exact, whatever their size.
pub fn validate_linear_texture_data(
    layout: &ImageDataLayout,
    format: FormatDescriptor,
    buffer_size: BufferAddress,
    buffer_side: CopySide,
    bytes_per_block: BufferAddress,
    copy_size: &Extent3d,
    need_copy_aligned_rows: bool,
) -> (res: Result<(BufferAddress, BufferAddress), TransferError>)
    requires
        format.wf(),
        bytes_per_block > 0,
    ensures
        res == linear_texture_data(
            *layout,
            format,
            buffer_size,
            buffer_side,
            bytes_per_block,
            *copy_size,
            need_copy_aligned_rows,
        ),
        // The bytes required are those of the formula, none for an empty copy.
        res is Ok ==> res.unwrap().0 == required_bytes_in_copy(
            *layout,
            format,
            bytes_per_block,
            *copy_size,
        ),
        res is Ok && copy_size.is_empty() ==> res.unwrap().0 == 0,
        // More than one row needs a row pitch, more than one image an image
        // height.
        layout.bytes_per_row is None && (copy_size.depth_or_array_layers > 1 || height_in_blocks(
            *copy_size,
            format,
        ) > 1) ==> res == Err::<(u64, u64), TransferError>(TransferError::UnspecifiedBytesPerRow),
        layout.bytes_per_row is Some && layout.rows_per_image is None
            && copy_size.depth_or_array_layers > 1 ==> res == Err::<(u64, u64), TransferError>(
            TransferError::UnspecifiedRowsPerImage,
        ),
        // Where aligned rows are asked for, success means an aligned row pitch.
        need_copy_aligned_rows && res is Ok ==> resolved_bytes_per_row(
            *layout,
            format,
            bytes_per_block,
            *copy_size,
        ) % (COPY_BYTES_PER_ROW_ALIGNMENT as int) == 0,
{
    let copy_width: u128 = copy_size.width as u128;
    let copy_height: u128 = copy_size.height as u128;
    let copy_depth: u128 = copy_size.depth_or_array_layers as u128;
    let offset: u128 = layout.offset as u128;
    let block_width: u128 = format.block_dimensions.0 as u128;
    let block_height: u128 = format.block_dimensions.1 as u128;
    let block_size: u128 = bytes_per_block as u128;

    let width_in_blocks: u128 = copy_width / block_width;
    let height_in_blocks: u128 = copy_height / block_height;
    proof {
        lemma_div_nonincreasing(copy_width as int, block_width as int);
        lemma_div_nonincreasing(copy_height as int, block_height as int);
        lemma_mul_upper_bound(
            block_size as int,
            u64::MAX as int,
            width_in_blocks as int,
            u32::MAX as int,
        );
    }
    let bytes_in_last_row: u128 = block_size * width_in_blocks;
    let bytes_per_row: u128 = match layout.bytes_per_row {
        Some(bytes_per_row) => bytes_per_row as u128,
        None => {
            if copy_depth > 1 || height_in_blocks > 1 {
                return Err(TransferError::UnspecifiedBytesPerRow);
            }
            bytes_in_last_row
        },
    };
    let block_rows_per_image: u128 = match layout.rows_per_image {
        Some(rows_per_image) => rows_per_image as u128,
        None => {
            if copy_depth > 1 {
                return Err(TransferError::UnspecifiedRowsPerImage);
            }
            height_in_blocks
        },
    };
    proof {
        lemma_mul_upper_bound(
            block_rows_per_image as int,
            u32::MAX as int,
            block_height as int,
            u8::MAX as int,
        );
    }
    let rows_per_image: u128 = block_rows_per_image * block_height;

    if copy_width % block_width != 0 {
        return Err(TransferError::UnalignedCopyWidth);
    }
    if copy_height % block_height != 0 {
        return Err(TransferError::UnalignedCopyHeight);
    }
    if need_copy_aligned_rows {
        let bytes_per_row_alignment: u128 = copy_bytes_per_row_alignment() as u128;
        if bytes_per_row_alignment % block_size != 0 {
            return Err(TransferError::UnalignedBytesPerRow);
        }
        if bytes_per_row % bytes_per_row_alignment != 0 {
            return Err(TransferError::UnalignedBytesPerRow);
        }
    }
    proof {
        lemma_mul_upper_bound(
            bytes_per_row as int,
            u64::MAX as int * u32::MAX as int,
            block_rows_per_image as int,
            u32::MAX as int,
        );
    }
    let bytes_per_image: u128 = bytes_per_row * block_rows_per_image;
    let required_bytes_in_copy: u128 = if copy_width == 0 || copy_height == 0 || copy_depth == 0 {
        0
    } else {
        proof {
            // Both dimensions are whole blocks and not zero, so there is at
            // least one block each way.
            if width_in_blocks == 0 {
                vstd::arithmetic::div_mod::lemma_fundamental_div_mod(
                    copy_width as int,
                    block_width as int,
                );
            }
            if height_in_blocks == 0 {
                vstd::arithmetic::div_mod::lemma_fundamental_div_mod(
                    copy_height as int,
                    block_height as int,
                );
            }
            if layout.bytes_per_row is Some {
                lemma_mul_upper_bound(
                    bytes_per_row as int,
                    u32::MAX as int,
                    block_rows_per_image as int,
                    u32::MAX as int,
                );
                lemma_mul_upper_bound(
                    bytes_per_image as int,
                    u32::MAX as int * u32::MAX as int,
                    copy_depth as int - 1,
                    u32::MAX as int,
                );
                lemma_mul_upper_bound(
                    bytes_per_row as int,
                    u32::MAX as int,
                    height_in_blocks as int - 1,
                    u32::MAX as int,
                );
            } else {
                assert(copy_depth == 1);
                assert(height_in_blocks == 1);
                assert(bytes_per_image * (copy_depth - 1) == 0) by (nonlinear_arith)
                    requires
                        copy_depth == 1,
                ;
                assert(bytes_per_row * (height_in_blocks - 1) == 0) by (nonlinear_arith)
                    requires
                        height_in_blocks == 1,
                ;
            }
        }
        let bytes_in_last_slice: u128 = bytes_per_row * (height_in_blocks - 1) + bytes_in_last_row;
        bytes_per_image * (copy_depth - 1) + bytes_in_last_slice
    };

    if rows_per_image < copy_height {
        return Err(TransferError::InvalidRowsPerImage);
    }
    if offset + required_bytes_in_copy > buffer_size as u128 {
        return Err(
            TransferError::BufferOverrun {
                start_offset: layout.offset,
                end_offset: clamp_to_u64(offset + required_bytes_in_copy),
                buffer_size,
                side: buffer_side,
            },
        );
    }
    if offset % block_size != 0 {
        return Err(TransferError::UnalignedBufferOffset(layout.offset));
    }
    if copy_height > 1 && bytes_per_row < bytes_in_last_row {
        return Err(TransferError::InvalidBytesPerRow);
    }
    Ok((required_bytes_in_copy as u64, clamp_to_u64(bytes_per_image)))
}

/// The physical size of one dimension of a mip level: its virtual size
/// rounded up to whole blocks.
pub open spec fn physical_size(virtual_size: u32, block: u8) -> int {
    align_up(virtual_size as nat, block as nat) as int
}

/// `virtual_size` rounded up to the next multiple of `block`.
fn physical_dimension(virtual_size: u32, block: u8) -> (physical: u64)
    requires
        block >= 1,
    ensures
        physical == physical_size(virtual_size, block),
{
    proof {
        lemma_align_up(virtual_size as nat, block as nat);
        lemma_mod_decreases(virtual_size as nat, block as nat);
    }
    let rest: u64 = virtual_size as u64 % block as u64;
    if rest == 0 {
        virtual_size as u64
    } else {
        virtual_size as u64 - rest + block as u64
    }
}

/// What the validation of a texture copy range answers: the first rule
/// broken, in the order of the rules, or the extent to copy within one layer
/// and the number of layers. The extent's width and height are those of the
/// copy, each clamped to the virtual size of the mip level.
pub open spec fn texture_copy_range(
    view: ImageCopyTexture,
    desc: TextureDescriptor,
    texture_side: CopySide,
    copy_size: Extent3d,
) -> Result<(CopyExtent, u32), TransferError> {
    match mip_level_extent(desc, view.mip_level) {
        None => Err(
            TransferError::InvalidTextureMipLevel {
                level: view.mip_level,
                total: desc.mip_level_count,
            },
        ),
        Some(extent_virtual) => {
            let width = physical_size(extent_virtual.width, desc.format.block_dimensions.0);
            let height = physical_size(extent_virtual.height, desc.format.block_dimensions.1);
            let x_copy_max = view.origin.x + copy_size.width;
            let y_copy_max = view.origin.y + copy_size.height;
            let z_copy_max = view.origin.z + copy_size.depth_or_array_layers;
            if x_copy_max > width {
                Err(
                    TransferError::TextureOverrun {
                        start_offset: view.origin.x,
                        end_offset: clamp_u32(x_copy_max),
                        texture_size: clamp_u32(width),
                        dimension: TextureErrorDimension::X,
                        side: texture_side,
                    },
                )
            } else if y_copy_max > height {
                Err(
                    TransferError::TextureOverrun {
                        start_offset: view.origin.y,
                        end_offset: clamp_u32(y_copy_max),
                        texture_size: clamp_u32(height),
                        dimension: TextureErrorDimension::Y,
                        side: texture_side,
                    },
                )
            } else if z_copy_max > extent_virtual.depth_or_array_layers {
                Err(
                    TransferError::TextureOverrun {
                        start_offset: view.origin.z,
                        end_offset: clamp_u32(z_copy_max),
                        texture_size: extent_virtual.depth_or_array_layers,
                        dimension: TextureErrorDimension::Z,
                        side: texture_side,
                    },
                )
            } else if view.origin.x as int % desc.format.block_width() != 0 {
                Err(TransferError::UnalignedCopyOriginX)
            } else if view.origin.y as int % desc.format.block_height() != 0 {
                Err(TransferError::UnalignedCopyOriginY)
            } else if copy_size.width as int % desc.format.block_width() != 0 {
                Err(TransferError::UnalignedCopyWidth)
            } else if copy_size.height as int % desc.format.block_height() != 0 {
                Err(TransferError::UnalignedCopyHeight)
            } else {
                Ok(
                    (
                        CopyExtent {
                            width: min_of(copy_size.width, extent_virtual.width),
                            height: min_of(copy_size.height, extent_virtual.height),
                            depth: if desc.is_3d() {
                                min_of(
                                    copy_size.depth_or_array_layers,
                                    extent_virtual.depth_or_array_layers,
                                )
                            } else {
                                1
                            },
                        },
                        if desc.is_3d() {
                            1
                        } else {
                            copy_size.depth_or_array_layers
                        },
                    ),
                )
            }
        },
    }
}

/// Validates a copy of `copy_size` texels at `texture_copy_view` against the
/// texture described by `desc`, and returns the extent to hand to the
/// backend and the number of array layers. All sums are exact, whatever
/// their size.
pub fn validate_texture_copy_range(
    texture_copy_view: &ImageCopyTexture,
    desc: &TextureDescriptor,
    texture_side: CopySide,
    copy_size: &Extent3d,
) -> (res: Result<(CopyExtent, u32), TransferError>)
    requires
        desc.wf(),
    ensures
        res == texture_copy_range(*texture_copy_view, *desc, texture_side, *copy_size),
{
    let block_width: u32 = desc.format.block_dimensions.0 as u32;
    let block_height: u32 = desc.format.block_dimensions.1 as u32;

    let extent_virtual = match mip_level_size(desc, texture_copy_view.mip_level) {
        Some(extent) => extent,
        None => {
            return Err(
                TransferError::InvalidTextureMipLevel {
                    level: texture_copy_view.mip_level,
                    total: desc.mip_level_count,
                },
            );
        },
    };
    // The physical size can be larger than the virtual one.
    let width: u64 = physical_dimension(extent_virtual.width, desc.format.block_dimensions.0);
    let height: u64 = physical_dimension(extent_virtual.height, desc.format.block_dimensions.1);

    let x_copy_max: u64 = texture_copy_view.origin.x as u64 + copy_size.width as u64;
    if x_copy_max > width {
        return Err(
            TransferError::TextureOverrun {
                start_offset: texture_copy_view.origin.x,
                end_offset: clamp_to_u32(x_copy_max),
                texture_size: clamp_to_u32(width),
                dimension: TextureErrorDimension::X,
                side: texture_side,
            },
        );
    }
    let y_copy_max: u64 = texture_copy_view.origin.y as u64 + copy_size.height as u64;
    if y_copy_max > height {
        return Err(
            TransferError::TextureOverrun {
                start_offset: texture_copy_view.origin.y,
                end_offset: clamp_to_u32(y_copy_max),
                texture_size: clamp_to_u32(height),
                dimension: TextureErrorDimension::Y,
                side: texture_side,
            },
        );
    }
    let z_copy_max: u64 = texture_copy_view.origin.z as u64
        + copy_size.depth_or_array_layers as u64;
    if z_copy_max > extent_virtual.depth_or_array_layers as u64 {
        return Err(
            TransferError::TextureOverrun {
                start_offset: texture_copy_view.origin.z,
                end_offset: clamp_to_u32(z_copy_max),
                texture_size: extent_virtual.depth_or_array_layers,
                dimension: TextureErrorDimension::Z,
                side: texture_side,
            },
        );
    }
    if texture_copy_view.origin.x % block_width != 0 {
        return Err(TransferError::UnalignedCopyOriginX);
    }
    if texture_copy_view.origin.y % block_height != 0 {
        return Err(TransferError::UnalignedCopyOriginY);
    }
    if copy_size.width % block_width != 0 {
        return Err(TransferError::UnalignedCopyWidth);
    }
    if copy_size.height % block_height != 0 {
        return Err(TransferError::UnalignedCopyHeight);
    }
    let (depth, array_layer_count) = match desc.dimension {
        TextureDimension::D1 | TextureDimension::D2 => (1u32, copy_size.depth_or_array_layers),
        TextureDimension::D3 => (
            min_u32(copy_size.depth_or_array_layers, extent_virtual.depth_or_array_layers),
            1u32,
        ),
    };
    // The backend works on the virtual size, so the copy is no larger.
    let copy_extent = CopyExtent {
        width: min_u32(copy_size.width, extent_virtual.width),
        height: min_u32(copy_size.height, extent_virtual.height),
        depth,
    };
    Ok((copy_extent, array_layer_count))
}

/// The aspects that a copy at `copy_texture` addresses: those that the
/// texture's format has among those asked for. Fails where the texture is
/// not registered or has none of them.
pub open spec fn texture_copy_aspect(
    textures: Map<u32, Texture>,
    copy_texture: ImageCopyTexture,
) -> Result<u8, TransferError> {
    if !textures.contains_key(copy_texture.texture) {
        Err(TransferError::InvalidTexture(copy_texture.texture))
    } else {
        let format = textures[copy_texture.texture].desc.format;
        let copy_aspect = format.aspects & aspect_flags(copy_texture.aspect);
        if copy_aspect == 0 {
            Err(TransferError::InvalidTextureAspect { format, aspect: copy_texture.aspect })
        } else {
            Ok(copy_aspect)
        }
    }
}

/// The sub-resources that a copy of `copy_size` texels at `copy_texture`
/// touches: one mip level; the layers of the copy, or the one layer of a 3D
/// texture.
pub open spec fn copy_selector(
    texture: Texture,
    copy_texture: ImageCopyTexture,
    copy_size: Extent3d,
) -> TextureSelector {
    TextureSelector {
        levels: IndexRange {
            start: copy_texture.mip_level,
            end: (copy_texture.mip_level + 1) as u32,
        },
        layers: if texture.desc.is_3d() {
            IndexRange { start: 0, end: 1 }
        } else {
            IndexRange {
                start: copy_texture.origin.z,
                end: (copy_texture.origin.z + copy_size.depth_or_array_layers) as u32,
            }
        },
    }
}

/// Where a copy at `copy_texture` starts: at its origin in the first layer
/// that it touches. The origin's `z` is a layer unless the texture is 3D.
pub open spec fn copy_base(
    texture: Texture,
    copy_texture: ImageCopyTexture,
    copy_aspect: u8,
) -> TextureCopyBase {
    TextureCopyBase {
        origin: Origin3d {
            x: copy_texture.origin.x,
            y: copy_texture.origin.y,
            z: if texture.desc.is_3d() {
                copy_texture.origin.z
            } else {
                0
            },
        },
        array_layer: if texture.desc.is_3d() {
            0
        } else {
            copy_texture.origin.z
        },
        mip_level: copy_texture.mip_level,
        aspect: copy_aspect,
    }
}

/// What the extraction of a texture selector answers: that the texture is
/// not registered, that its format has none of the aspects asked for, or the
/// sub-resources touched, the start of the copy and the format.
pub open spec fn texture_selector(
    copy_texture: ImageCopyTexture,
    copy_size: Extent3d,
    textures: Map<u32, Texture>,
) -> Result<(TextureSelector, TextureCopyBase, FormatDescriptor), TransferError> {
    match texture_copy_aspect(textures, copy_texture) {
        Err(error) => Err(error),
        Ok(copy_aspect) => {
            let texture = textures[copy_texture.texture];
            Ok(
                (
                    copy_selector(texture, copy_texture, copy_size),
                    copy_base(texture, copy_texture, copy_aspect),
                    texture.desc.format,
                ),
            )
        },
    }
}

/// Whether the ends of the ranges of a selector fit in 32 bits: the mip
/// level has a successor, and so has the last layer of the copy.
pub open spec fn selector_fits(copy_texture: ImageCopyTexture, copy_size: Extent3d) -> bool {
    &&& copy_texture.mip_level < u32::MAX
    &&& copy_texture.origin.z + copy_size.depth_or_array_layers <= u32::MAX
}

/// The aspects that a copy at `copy_texture` addresses.
pub fn resolve_copy_aspect(textures: &Storage<Texture>, copy_texture: &ImageCopyTexture) -> (res:
    Result<u8, TransferError>)
    ensures
        res == texture_copy_aspect(textures@, *copy_texture),
{
    let texture = match textures.get(copy_texture.texture) {
        Some(texture) => texture,
        None => {
            return Err(TransferError::InvalidTexture(copy_texture.texture));
        },
    };
    let format = texture.desc.format;
    let copy_aspect: u8 = format.aspects & aspect_mask(copy_texture.aspect);
    if copy_aspect == 0 {
        return Err(TransferError::InvalidTextureAspect { format, aspect: copy_texture.aspect });
    }
    Ok(copy_aspect)
}

/// Finds the sub-resources that a copy of `copy_size` texels at
/// `copy_texture` touches, the place where the copy starts and the format of
/// the texture. Where the texture is registered and has the aspect of the
/// copy, the ends of the ranges have to fit in 32 bits.
pub fn extract_texture_selector(
    copy_texture: &ImageCopyTexture,
    copy_size: &Extent3d,
    texture_guard: &Storage<Texture>,
) -> (res: Result<(TextureSelector, TextureCopyBase, FormatDescriptor), TransferError>)
    requires
        texture_copy_aspect(texture_guard@, *copy_texture) is Ok ==> selector_fits(
            *copy_texture,
            *copy_size,
        ),
    ensures
        res == texture_selector(*copy_texture, *copy_size, texture_guard@),
{
    let copy_aspect: u8 = match resolve_copy_aspect(texture_guard, copy_texture) {
        Ok(copy_aspect) => copy_aspect,
        Err(error) => {
            return Err(error);
        },
    };
    let texture = texture_guard.get(copy_texture.texture).unwrap();
    let (layers, origin_z) = match texture.desc.dimension {
        TextureDimension::D1 | TextureDimension::D2 => (
            IndexRange {
                start: copy_texture.origin.z,
                end: copy_texture.origin.z + copy_size.depth_or_array_layers,
            },
            0u32,
        ),
        TextureDimension::D3 => (IndexRange { start: 0, end: 1 }, copy_texture.origin.z),
    };
    let base = TextureCopyBase {
        origin: Origin3d { x: copy_texture.origin.x, y: copy_texture.origin.y, z: origin_z },
        // Incremented for every layer copied.
        array_layer: layers.start,
        mip_level: copy_texture.mip_level,
        aspect: copy_aspect,
    };
    let selector = TextureSelector {
        levels: IndexRange { start: copy_texture.mip_level, end: copy_texture.mip_level + 1 },
        layers,
    };
    Ok((selector, base, texture.desc.format))
}

/// Where a copy of more than no texels meets the rules of linear texture
/// data, every image of it starts inside the bytes required: the offset of
/// the last image, and so of each, is no larger than the end of the copy.
pub proof fn lemma_layer_offsets_fit(
    layout: ImageDataLayout,
    format: FormatDescriptor,
    buffer_size: BufferAddress,
    buffer_side: CopySide,
    bytes_per_block: BufferAddress,
    copy_size: Extent3d,
    need_copy_aligned_rows: bool,
)
    requires
        format.wf(),
        bytes_per_block > 0,
        !copy_size.is_empty(),
        linear_texture_data(
            layout,
            format,
            buffer_size,
            buffer_side,
            bytes_per_block,
            copy_size,
            need_copy_aligned_rows,
        ) is Ok,
    ensures
        ({
            let (required, per_image) = linear_texture_data(
                layout,
                format,
                buffer_size,
                buffer_side,
                bytes_per_block,
                copy_size,
                need_copy_aligned_rows,
            ).unwrap();
            &&& required == required_bytes_in_copy(layout, format, bytes_per_block, copy_size)
            &&& layout.offset + required <= buffer_size
            &&& (copy_size.depth_or_array_layers - 1) * per_image <= required
            &&& copy_size.depth_or_array_layers > 1 ==> per_image == bytes_per_image(
                layout,
                format,
                bytes_per_block,
                copy_size,
            )
        }),
{
    let depth = copy_size.depth_or_array_layers as int;
    let per_row = resolved_bytes_per_row(layout, format, bytes_per_block, copy_size);
    let rows = resolved_rows_per_image(layout, format, copy_size);
    let per_image = bytes_per_image(layout, format, bytes_per_block, copy_size);
    let wide = width_in_blocks(copy_size, format);
    let high = height_in_blocks(copy_size, format);
    let required = required_bytes_in_copy(layout, format, bytes_per_block, copy_size);
    lemma_div_nonincreasing(copy_size.width as int, format.block_width());
    lemma_div_nonincreasing(copy_size.height as int, format.block_height());
    vstd::arithmetic::div_mod::lemma_fundamental_div_mod(
        copy_size.height as int,
        format.block_height(),
    );
    assert(high >= 1) by (nonlinear_arith)
        requires
            copy_size.height >= 1,
            format.block_height() >= 1,
            copy_size.height == format.block_height() * high,
    ;
    assert(wide >= 0 && rows >= 0 && per_row >= 0) by (nonlinear_arith)
        requires
            wide == copy_size.width as int / format.block_width(),
            format.block_width() >= 1,
            rows == resolved_rows_per_image(layout, format, copy_size),
            rows == high || rows == layout.rows_per_image.unwrap(),
            high >= 1,
            per_row == bytes_per_block * wide || per_row == layout.bytes_per_row.unwrap(),
    ;
    assert(per_image >= 0 && per_image * (depth - 1) >= 0 && per_row * (high - 1) >= 0
        && bytes_per_block * wide >= 0) by (nonlinear_arith)
        requires
            per_image == per_row * rows,
            per_row >= 0,
            rows >= 0,
            depth >= 1,
            high >= 1,
            wide >= 0,
    ;
    assert(required == per_image * (depth - 1) + per_row * (high - 1) + bytes_per_block * wide);
    if depth > 1 {
        assert(per_image <= per_image * (depth - 1)) by (nonlinear_arith)
            requires
                per_image >= 0,
                depth > 1,
        ;
    } else {
        assert((depth - 1) * clamp_u64(per_image) == 0) by (nonlinear_arith)
            requires
                depth == 1,
        ;
    }
    assert((depth - 1) * per_image == per_image * (depth - 1)) by (nonlinear_arith);
}

} // verus!
