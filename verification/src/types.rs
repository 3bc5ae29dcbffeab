//! Plain data that crosses the library's boundary: identifiers, extents,
//! layouts, usage flags and format descriptors.

use crate::outside::{describe_aspects, describe_blocks, described_aspects, described_blocks};
use vstd::prelude::*;

verus! {

/// Offset or size in bytes inside a buffer.
pub type BufferAddress = u64;

/// Identifier of a buffer in its registry.
pub type BufferId = u32;

/// Identifier of a texture in its registry.
pub type TextureId = u32;

/// Identifier of a command encoder, and of the command buffer it becomes.
pub type CommandEncoderId = u32;

/// Identifier of a finished command buffer.
pub type CommandBufferId = u32;

/// Identifier of a device queue, which is that of its device.
pub type QueueId = u32;

/// Identifier of a swap chain.
pub type SwapChainId = u32;

/// Number of a submission to a queue.
pub type SubmissionIndex = u64;

/// Name under which the backend knows a buffer, a texture or a command pool.
pub type RawHandle = u64;

/// Offsets and sizes of buffer copies are multiples of this.
pub const COPY_BUFFER_ALIGNMENT: BufferAddress = 4;

/// The row pitch of a copy between a buffer and a texture is a multiple of
/// this.
pub const COPY_BYTES_PER_ROW_ALIGNMENT: u32 = 256;

/// Buffer usage: may be mapped for writing.
pub const BUFFER_USAGE_MAP_WRITE: u32 = 2;

/// Buffer usage: may be the source of a copy.
pub const BUFFER_USAGE_COPY_SRC: u32 = 4;

/// Buffer usage: may be the destination of a copy.
pub const BUFFER_USAGE_COPY_DST: u32 = 8;

/// Texture usage: may be the source of a copy.
pub const TEXTURE_USAGE_COPY_SRC: u32 = 1;

/// Texture usage: may be the destination of a copy.
pub const TEXTURE_USAGE_COPY_DST: u32 = 2;

/// Format aspect: colour.
pub const ASPECT_COLOR: u8 = 1;

/// Format aspect: depth.
pub const ASPECT_DEPTH: u8 = 2;

/// Format aspect: stencil.
pub const ASPECT_STENCIL: u8 = 4;

/// Every format aspect.
pub const ASPECT_ALL: u8 = 7;

/// Whether the usage set `usage` holds every flag of `flags`.
pub open spec fn has_usage(usage: u32, flags: u32) -> bool {
    usage & flags == flags
}

/// Whether the usage set `usage` holds every flag of `flags`.
pub fn usage_contains(usage: u32, flags: u32) -> (held: bool)
    ensures
        held == has_usage(usage, flags),
{
    usage & flags == flags
}

/// The largest 64-bit value that `value` does not exceed: `value` itself, or
/// `u64::MAX` where it is larger.
pub open spec fn clamp_u64(value: int) -> u64 {
    if value > u64::MAX {
        u64::MAX
    } else if value < 0 {
        0
    } else {
        value as u64
    }
}

/// The largest 32-bit value that `value` does not exceed: `value` itself, or
/// `u32::MAX` where it is larger.
pub open spec fn clamp_u32(value: int) -> u32 {
    if value > u32::MAX {
        u32::MAX
    } else if value < 0 {
        0
    } else {
        value as u32
    }
}

/// Size of a texture, or of a region of one, in texels.
#[derive(Clone, Copy, Debug, PartialEq, Eq)]
pub struct Extent3d {
    pub width: u32,
    pub height: u32,
    pub depth_or_array_layers: u32,
}

impl Extent3d {
    /// Whether a dimension is zero, so that the region holds no texel.
    pub open spec fn is_empty(self) -> bool {
        self.width == 0 || self.height == 0 || self.depth_or_array_layers == 0
    }

    /// Whether a dimension is zero, so that the region holds no texel.
    pub fn has_no_texels(&self) -> (empty: bool)
        ensures
            empty == self.is_empty(),
    {
        self.width == 0 || self.height == 0 || self.depth_or_array_layers == 0
    }
}

/// First texel of a region of a texture.
#[derive(Clone, Copy, Debug, PartialEq, Eq)]
pub struct Origin3d {
    pub x: u32,
    pub y: u32,
    pub z: u32,
}

/// The part of a texture's data that a copy addresses.
#[derive(Clone, Copy, Debug, PartialEq, Eq)]
pub enum TextureAspect {
    All,
    StencilOnly,
    DepthOnly,
}

/// Dimensionality of a texture.
#[derive(Clone, Copy, Debug, PartialEq, Eq)]
pub enum TextureDimension {
    D1,
    D2,
    D3,
}

/// How the texels of a region lie in a buffer.
#[derive(Clone, Copy, Debug, PartialEq, Eq)]
pub struct ImageDataLayout {
    /// Where in the buffer the region starts.
    pub offset: BufferAddress,
    /// Bytes from one row of blocks to the next.
    pub bytes_per_row: Option<u32>,
    /// Rows of blocks from one image to the next.
    pub rows_per_image: Option<u32>,
}

/// A buffer, seen as the linear image of a texture region.
#[derive(Clone, Copy, Debug, PartialEq, Eq)]
pub struct ImageCopyBuffer {
    pub buffer: BufferId,
    pub layout: ImageDataLayout,
}

/// A region of one mip level of a texture.
#[derive(Clone, Copy, Debug, PartialEq, Eq)]
pub struct ImageCopyTexture {
    pub texture: TextureId,
    pub mip_level: u32,
    pub origin: Origin3d,
    pub aspect: TextureAspect,
}

/// What the transfer rules read of a texture format.
#[derive(Clone, Copy, Debug, PartialEq, Eq)]
pub struct FormatDescriptor {
    /// Width and height of a block, in texels.
    pub block_dimensions: (u8, u8),
    /// Bytes that one block takes.
    pub block_size: u8,
    /// The aspects that the format has, a set of `ASPECT_*` flags.
    pub aspects: u8,
    /// Whether a texture of this format may be the source of a copy.
    pub copy_src: bool,
    /// Whether a texture of this format may be the destination of a copy.
    pub copy_dst: bool,
}

impl FormatDescriptor {
    /// A format has blocks of at least one texel and one byte, and at least
    /// one aspect.
    pub open spec fn wf(self) -> bool {
        &&& self.block_dimensions.0 >= 1
        &&& self.block_dimensions.1 >= 1
        &&& self.block_size >= 1
        &&& self.aspects != 0
    }

    /// What the transfer rules read of the format `format`, which may or
    /// may not be copied from and to: its blocks as `wgpu-types` describes
    /// them, and its aspects as `wgpu-hal` gives them.
    pub fn describe(format: wgpu_types::TextureFormat, copy_src: bool, copy_dst: bool) -> (info:
        Self)
        ensures
            info.wf(),
            info.block_dimensions == (described_blocks(format).0, described_blocks(format).1),
            info.block_size == described_blocks(format).2,
            info.aspects == described_aspects(format),
            info.copy_src == copy_src,
            info.copy_dst == copy_dst,
    {
        let blocks = describe_blocks(format);
        FormatDescriptor {
            block_dimensions: (blocks.0, blocks.1),
            block_size: blocks.2,
            aspects: describe_aspects(format),
            copy_src,
            copy_dst,
        }
    }

    /// Width of a block, in texels.
    pub open spec fn block_width(self) -> int {
        self.block_dimensions.0 as int
    }

    /// Height of a block, in texels.
    pub open spec fn block_height(self) -> int {
        self.block_dimensions.1 as int
    }
}

/// Description of a texture.
#[derive(Clone, Copy, Debug, PartialEq, Eq)]
pub struct TextureDescriptor {
    pub size: Extent3d,
    pub mip_level_count: u32,
    pub sample_count: u32,
    pub dimension: TextureDimension,
    pub format: FormatDescriptor,
    /// The declared usages, a set of `TEXTURE_USAGE_*` flags.
    pub usage: u32,
}

impl TextureDescriptor {
    /// A texture has a well-formed format and at most 32 mip levels, the
    /// most that a 32-bit extent can have.
    pub open spec fn wf(self) -> bool {
        &&& self.format.wf()
        &&& self.mip_level_count <= 32
    }

    /// Whether the texture is three-dimensional.
    pub open spec fn is_3d(self) -> bool {
        self.dimension == TextureDimension::D3
    }
}

} // verus!
