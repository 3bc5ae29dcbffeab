//! The layout and the contents of the staging buffer through which texture
//! data reaches the device.

use crate::align::{align_to, align_up, get_lowest_common_denom, lcm, lemma_align_up};
use crate::types::{Extent3d, FormatDescriptor, ImageDataLayout};
use vstd::arithmetic::div_mod::{
    lemma_div_nonincreasing, lemma_fundamental_div_mod_converse,
};
use vstd::arithmetic::mul::lemma_mul_upper_bound;
use vstd::prelude::*;

verus! {

/// How texture data lies in a staging buffer, and in the data it comes from.
#[derive(Clone, Copy, Debug, PartialEq, Eq)]
pub struct StagingLayout {
    /// Bytes from one row of blocks to the next in the staging buffer.
    pub stage_bytes_per_row: u32,
    /// Bytes from one row of blocks to the next in the data.
    pub bytes_per_row: u32,
    /// Rows of blocks from one image to the next, in both.
    pub block_rows_per_image: u32,
    /// Rows of blocks of one image that the copy holds.
    pub height_blocks: u32,
    /// Rows of blocks from the first to the last one of the copy.
    pub block_rows_in_copy: u32,
    /// The size of the staging buffer in bytes.
    pub stage_size: u64,
}

/// Blocks in one row of `size`.
pub open spec fn width_blocks(format: FormatDescriptor, size: Extent3d) -> int {
    size.width as int / format.block_width()
}

/// Rows of blocks in one image of `size`.
pub open spec fn height_blocks(format: FormatDescriptor, size: Extent3d) -> int {
    size.height as int / format.block_height()
}

/// Rows of blocks from one image to the next: the layout's, or else the
/// rows of blocks of one image of the copy.
pub open spec fn staged_rows_per_image(
    format: FormatDescriptor,
    data_layout: ImageDataLayout,
    size: Extent3d,
) -> int {
    match data_layout.rows_per_image {
        Some(rows) => rows as int,
        None => height_blocks(format, size),
    }
}

/// The row pitch of the staging buffer: the bytes of one row of blocks,
/// rounded up to a common multiple of the backend's pitch alignment and of
/// the block size.
pub open spec fn stage_bytes_per_row(pitch: u64, format: FormatDescriptor, size: Extent3d) -> int {
    align_up(
        (format.block_size * width_blocks(format, size)) as nat,
        lcm(pitch as nat, format.block_size as nat),
    ) as int
}

/// Rows of blocks from the first to the last one of a copy of `size`.
pub open spec fn block_rows_in_copy(
    format: FormatDescriptor,
    data_layout: ImageDataLayout,
    size: Extent3d,
) -> int {
    (size.depth_or_array_layers - 1) * staged_rows_per_image(format, data_layout, size)
        + height_blocks(format, size)
}

/// Whether the layout of the staging buffer can be computed in 32 bits, as
/// the backend takes it.
pub open spec fn staging_fits(
    pitch: u64,
    format: FormatDescriptor,
    data_layout: ImageDataLayout,
    size: Extent3d,
) -> bool {
    &&& size.depth_or_array_layers >= 1
    &&& pitch * format.block_size <= u32::MAX
    &&& format.block_size * width_blocks(format, size) <= u32::MAX
    &&& stage_bytes_per_row(pitch, format, size) <= u32::MAX
    &&& block_rows_in_copy(format, data_layout, size) <= u32::MAX
}

/// The layout of the staging buffer for a copy of `size` texels of `format`
/// from data laid out as `data_layout`, on a backend with pitch alignment
/// `pitch`.
pub open spec fn staging_layout(
    pitch: u64,
    format: FormatDescriptor,
    data_layout: ImageDataLayout,
    size: Extent3d,
) -> StagingLayout {
    StagingLayout {
        stage_bytes_per_row: stage_bytes_per_row(pitch, format, size) as u32,
        bytes_per_row: match data_layout.bytes_per_row {
            Some(bytes_per_row) => bytes_per_row,
            None => (width_blocks(format, size) * format.block_size) as u32,
        },
        block_rows_per_image: staged_rows_per_image(format, data_layout, size) as u32,
        height_blocks: height_blocks(format, size) as u32,
        block_rows_in_copy: block_rows_in_copy(format, data_layout, size) as u32,
        stage_size: (stage_bytes_per_row(pitch, format, size) * block_rows_in_copy(
            format,
            data_layout,
            size,
        )) as u64,
    }
}

/// Whether the layout of the staging buffer can be computed in 32 bits.
pub fn check_staging_fits(
    pitch: u64,
    format: FormatDescriptor,
    data_layout: &ImageDataLayout,
    size: &Extent3d,
) -> (fits: bool)
    requires
        format.wf(),
        pitch > 0,
    ensures
        fits == staging_fits(pitch, format, *data_layout, *size),
{
    if size.depth_or_array_layers == 0 {
        return false;
    }
    let block_size: u64 = format.block_size as u64;
    proof {
        lemma_mul_upper_bound(pitch as int, u64::MAX as int, block_size as int, u8::MAX as int);
    }
    let common: u128 = (pitch as u128) * (block_size as u128);
    if common > u32::MAX as u128 {
        return false;
    }
    assert(pitch <= u32::MAX) by (nonlinear_arith)
        requires
            pitch * block_size <= u32::MAX,
            block_size >= 1,
    ;
    let width_blocks: u64 = size.width as u64 / format.block_dimensions.0 as u64;
    let height_blocks: u64 = size.height as u64 / format.block_dimensions.1 as u64;
    proof {
        lemma_div_nonincreasing(size.width as int, format.block_width());
        lemma_div_nonincreasing(size.height as int, format.block_height());
        lemma_mul_upper_bound(
            block_size as int,
            u8::MAX as int,
            width_blocks as int,
            u32::MAX as int,
        );
    }
    let row_bytes: u64 = block_size * width_blocks;
    if row_bytes > u32::MAX as u64 {
        return false;
    }
    let alignment: u32 = get_lowest_common_denom(pitch as u32, block_size as u32);
    proof {
        crate::align::lemma_lcm_times_gcd(pitch as nat, block_size as nat);
        crate::align::lemma_gcd_divides(pitch as nat, block_size as nat);
        assert(alignment > 0) by (nonlinear_arith)
            requires
                alignment * crate::align::gcd(pitch as nat, block_size as nat) == pitch
                    * block_size,
                pitch > 0,
                block_size > 0,
        ;
        lemma_align_up(row_bytes as nat, alignment as nat);
        vstd::arithmetic::div_mod::lemma_mod_decreases(row_bytes as nat, alignment as nat);
    }
    let rest: u64 = row_bytes % alignment as u64;
    let stage_bytes_per_row: u64 = if rest == 0 {
        row_bytes
    } else {
        row_bytes - rest + alignment as u64
    };
    if stage_bytes_per_row > u32::MAX as u64 {
        return false;
    }
    let rows_per_image: u64 = match data_layout.rows_per_image {
        Some(rows) => rows as u64,
        None => height_blocks,
    };
    proof {
        lemma_mul_upper_bound(
            size.depth_or_array_layers as int - 1,
            u32::MAX as int,
            rows_per_image as int,
            u32::MAX as int,
        );
    }
    let rows: u64 = (size.depth_or_array_layers as u64 - 1) * rows_per_image + height_blocks;
    rows <= u32::MAX as u64
}

/// The layout of the staging buffer for a copy of `size` texels of `format`
/// from data laid out as `data_layout`, on a backend with pitch alignment
/// `pitch`.
pub fn plan_staging(
    pitch: u64,
    format: FormatDescriptor,
    data_layout: &ImageDataLayout,
    size: &Extent3d,
) -> (layout: StagingLayout)
    requires
        format.wf(),
        pitch > 0,
        staging_fits(pitch, format, *data_layout, *size),
    ensures
        layout == staging_layout(pitch, format, *data_layout, *size),
        layout.stage_size == layout.stage_bytes_per_row * layout.block_rows_in_copy,
{
    let block_size: u32 = format.block_size as u32;
    let width_blocks: u32 = size.width / format.block_dimensions.0 as u32;
    let height_blocks: u32 = size.height / format.block_dimensions.1 as u32;
    let block_rows_per_image: u32 = match data_layout.rows_per_image {
        Some(rows_per_image) => rows_per_image,
        None => height_blocks,
    };
    proof {
        assert(pitch <= u32::MAX) by (nonlinear_arith)
            requires
                pitch * format.block_size <= u32::MAX,
                format.block_size >= 1,
        ;
        crate::align::lemma_lcm_times_gcd(pitch as nat, block_size as nat);
        crate::align::lemma_gcd_divides(pitch as nat, block_size as nat);
        assert(lcm(pitch as nat, block_size as nat) > 0) by (nonlinear_arith)
            requires
                lcm(pitch as nat, block_size as nat) * crate::align::gcd(
                    pitch as nat,
                    block_size as nat,
                ) == pitch * block_size,
                pitch > 0,
                block_size > 0,
        ;
        assert((size.depth_or_array_layers - 1) * block_rows_per_image >= 0) by (nonlinear_arith)
            requires
                size.depth_or_array_layers >= 1,
                block_rows_per_image >= 0,
        ;
        assert(width_blocks * block_size == block_size * width_blocks) by (nonlinear_arith);
    }
    let bytes_per_row_alignment: u32 = get_lowest_common_denom(pitch as u32, block_size);
    let stage_bytes_per_row: u32 = align_to(block_size * width_blocks, bytes_per_row_alignment);
    let block_rows_in_copy: u32 = (size.depth_or_array_layers - 1) * block_rows_per_image
        + height_blocks;
    proof {
        lemma_mul_upper_bound(
            stage_bytes_per_row as int,
            u32::MAX as int,
            block_rows_in_copy as int,
            u32::MAX as int,
        );
    }
    let stage_size: u64 = stage_bytes_per_row as u64 * block_rows_in_copy as u64;
    let bytes_per_row: u32 = match data_layout.bytes_per_row {
        Some(bytes_per_row) => bytes_per_row,
        None => width_blocks * block_size,
    };
    StagingLayout {
        stage_bytes_per_row,
        bytes_per_row,
        block_rows_per_image,
        height_blocks,
        block_rows_in_copy,
        stage_size,
    }
}

/// Byte `index` of `data`, or zero past its end.
pub open spec fn byte_at(data: Seq<u8>, index: int) -> u8 {
    if 0 <= index < data.len() {
        data[index]
    } else {
        0
    }
}

/// Byte `index` of the staging buffer. Where the data has the row pitch of
/// the staging buffer, it is the byte of the data at the same place. Else
/// every row of blocks of the copy is moved to its place in the staging
/// buffer, as far as the smaller of the two pitches; every other byte is
/// zero.
pub open spec fn staged_byte(data: Seq<u8>, layout: StagingLayout, index: int) -> u8 {
    if layout.stage_bytes_per_row == layout.bytes_per_row {
        byte_at(data, index)
    } else {
        let row = index / (layout.stage_bytes_per_row as int);
        let column = index % (layout.stage_bytes_per_row as int);
        if layout.block_rows_per_image > 0 && row % (layout.block_rows_per_image as int)
            < layout.height_blocks && column < layout.bytes_per_row {
            byte_at(data, row * layout.bytes_per_row + column)
        } else {
            0
        }
    }
}

/// The contents of the staging buffer.
pub open spec fn staged(data: Seq<u8>, layout: StagingLayout) -> Seq<u8> {
    Seq::new(layout.stage_size as nat, |index: int| staged_byte(data, layout, index))
}

/// Lays `data` out as the staging buffer holds it.
pub fn stage_texture_data(data: &[u8], layout: &StagingLayout) -> (contents: Vec<u8>)
    requires
        layout.stage_size == layout.stage_bytes_per_row * layout.block_rows_in_copy,
    ensures
        contents@ == staged(data@, *layout),
{
    let mut contents: Vec<u8> = Vec::new();
    let stride: u64 = layout.stage_bytes_per_row as u64;
    let same_pitch: bool = layout.stage_bytes_per_row == layout.bytes_per_row;
    let mut row: u64 = 0;
    assert(contents@ =~= Seq::new(0nat, |index: int| staged_byte(data@, *layout, index)));
    while row < layout.block_rows_in_copy as u64
        invariant
            row <= layout.block_rows_in_copy,
            stride == layout.stage_bytes_per_row,
            same_pitch == (layout.stage_bytes_per_row == layout.bytes_per_row),
            layout.stage_size == layout.stage_bytes_per_row * layout.block_rows_in_copy,
            contents@ == Seq::new(
                (row * stride) as nat,
                |index: int| staged_byte(data@, *layout, index),
            ),
        decreases layout.block_rows_in_copy - row,
    {
        let in_copy: bool = layout.block_rows_per_image > 0 && (row % (
        layout.block_rows_per_image as u64)) < layout.height_blocks as u64;
        proof {
            lemma_mul_upper_bound(
                row as int,
                u32::MAX as int,
                stride as int,
                u32::MAX as int,
            );
            lemma_mul_upper_bound(
                row as int,
                u32::MAX as int,
                layout.bytes_per_row as int,
                u32::MAX as int,
            );
        }
        let row_start: u64 = row * stride;
        let source_start: u64 = row * layout.bytes_per_row as u64;
        assert(row_start + stride <= layout.stage_size) by (nonlinear_arith)
            requires
                row_start == row * stride,
                row < layout.block_rows_in_copy,
                layout.stage_size == stride * layout.block_rows_in_copy,
        ;
        let mut column: u64 = 0;
        while column < stride
            invariant
                column <= stride,
                row < layout.block_rows_in_copy,
                row_start + stride <= layout.stage_size,
                source_start <= u32::MAX * u32::MAX,
                stride == layout.stage_bytes_per_row,
                row_start == row * stride,
                source_start == row * layout.bytes_per_row,
                same_pitch == (layout.stage_bytes_per_row == layout.bytes_per_row),
                in_copy == (layout.block_rows_per_image > 0 && row as int % (
                layout.block_rows_per_image as int) < layout.height_blocks),
                contents@ == Seq::new(
                    (row_start + column) as nat,
                    |index: int| staged_byte(data@, *layout, index),
                ),
            decreases stride - column,
        {
            let index: u64 = row_start + column;
            proof {
                lemma_fundamental_div_mod_converse(
                    index as int,
                    stride as int,
                    row as int,
                    column as int,
                );
            }
            let source: u64 = if same_pitch {
                index
            } else {
                source_start + column
            };
            let byte: u8 = if (same_pitch || (in_copy && column < layout.bytes_per_row as u64))
                && source < data.len() as u64 {
                data[source as usize]
            } else {
                0
            };
            assert(byte == staged_byte(data@, *layout, index as int));
            contents.push(byte);
            column += 1;
            assert(contents@ =~= Seq::new(
                (row_start + column) as nat,
                |index: int| staged_byte(data@, *layout, index),
            ));
        }
        row += 1;
        assert(row * stride == row_start + stride) by (nonlinear_arith)
            requires
                row_start == (row - 1) * stride,
        ;
    }
    assert((row * stride) as nat == layout.stage_size as nat) by (nonlinear_arith)
        requires
            row == layout.block_rows_in_copy,
            stride == layout.stage_bytes_per_row,
            layout.stage_size == layout.stage_bytes_per_row * layout.block_rows_in_copy,
    ;
    contents
}

} // verus!
