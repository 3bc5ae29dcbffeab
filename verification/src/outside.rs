//! The calls into `wgpu-types` and `wgpu-hal`. What is stated of them here is
//! taken on trust from their sources; everything else in the library is
//! proved from it.

use crate::types::{
    Extent3d, TextureAspect, TextureDescriptor, TextureDimension, ASPECT_ALL, ASPECT_DEPTH,
    ASPECT_STENCIL,
};
use vstd::prelude::*;

verus! {

/// `wgpu_types::TextureFormat`, carried as an opaque value.
#[verifier::external_type_specification]
#[verifier::external_body]
pub struct ExTextureFormat(wgpu_types::TextureFormat);

/// The block width, block height and block size that
/// `wgpu_types::TextureFormat::describe` reports for a format.
pub uninterp spec fn described_blocks(format: wgpu_types::TextureFormat) -> (u8, u8, u8);

/// The aspects that `wgpu_hal::FormatAspects::from` gives for a format.
pub uninterp spec fn described_aspects(format: wgpu_types::TextureFormat) -> u8;

/// The extent of mip level `level` of a texture, as
/// `wgpu_types::TextureDescriptor::mip_level_size` computes it: every
/// dimension that is halved per level is shifted right by `level` and is at
/// least 1; array layers are not halved. `None` from the level count on.
pub open spec fn mip_level_extent(desc: TextureDescriptor, level: u32) -> Option<Extent3d> {
    if level >= desc.mip_level_count {
        None
    } else {
        Some(
            Extent3d {
                width: at_least_one(desc.size.width >> level),
                height: at_least_one(desc.size.height >> level),
                depth_or_array_layers: if desc.is_3d() {
                    at_least_one(desc.size.depth_or_array_layers >> level)
                } else {
                    desc.size.depth_or_array_layers
                },
            },
        )
    }
}

/// The larger of 1 and `value`.
pub open spec fn at_least_one(value: u32) -> u32 {
    if value < 1 {
        1
    } else {
        value
    }
}

/// The aspects that a copy addresses: all of them, depth alone or stencil
/// alone.
pub open spec fn aspect_flags(aspect: TextureAspect) -> u8 {
    match aspect {
        TextureAspect::All => ASPECT_ALL,
        TextureAspect::DepthOnly => ASPECT_DEPTH,
        TextureAspect::StencilOnly => ASPECT_STENCIL,
    }
}

/// Calls `wgpu_types::TextureFormat::describe` and returns the block width,
/// block height and block size of its answer. The contract names that
/// answer and claims that none of the three is zero, as the table in the
/// function's source shows for every format.
#[verifier::external_body]
pub(crate) fn describe_blocks(format: wgpu_types::TextureFormat) -> (blocks: (u8, u8, u8))
    ensures
        blocks == described_blocks(format),
        blocks.0 >= 1,
        blocks.1 >= 1,
        blocks.2 >= 1,
{
    let info = format.describe();
    (info.block_dimensions.0, info.block_dimensions.1, info.block_size)
}

/// Calls `wgpu_hal::FormatAspects::from` on a format and returns the bits of
/// its answer. The contract names that answer and claims that it is colour,
/// depth, or depth with stencil, the three sets that the source returns.
#[verifier::external_body]
pub(crate) fn describe_aspects(format: wgpu_types::TextureFormat) -> (aspects: u8)
    ensures
        aspects == described_aspects(format),
        aspects == 1 || aspects == 2 || aspects == 6,
{
    wgpu_hal::FormatAspects::from(format).bits()
}

/// Calls `wgpu_hal::FormatAspects::from` on a texture aspect and returns the
/// bits of its answer: all three flags for `All`, the depth flag for
/// `DepthOnly`, the stencil flag for `StencilOnly`.
#[verifier::external_body]
pub(crate) fn aspect_mask(aspect: TextureAspect) -> (mask: u8)
    ensures
        mask == aspect_flags(aspect),
{
    let outside = match aspect {
        TextureAspect::All => wgpu_types::TextureAspect::All,
        TextureAspect::StencilOnly => wgpu_types::TextureAspect::StencilOnly,
        TextureAspect::DepthOnly => wgpu_types::TextureAspect::DepthOnly,
    };
    wgpu_hal::FormatAspects::from(outside).bits()
}

/// Calls `wgpu_types::TextureDescriptor::mip_level_size` on a descriptor
/// with the given size, level count and dimension. The source shifts by
/// `level` only below the level count, and a shift by 32 or more would
/// overflow, so such levels are left out.
#[verifier::external_body]
pub(crate) fn mip_level_size(desc: &TextureDescriptor, level: u32) -> (extent: Option<Extent3d>)
    requires
        level < desc.mip_level_count ==> level < 32,
    ensures
        extent == mip_level_extent(*desc, level),
{
    let dimension = match desc.dimension {
        TextureDimension::D1 => wgpu_types::TextureDimension::D1,
        TextureDimension::D2 => wgpu_types::TextureDimension::D2,
        TextureDimension::D3 => wgpu_types::TextureDimension::D3,
    };
    let Extent3d { width, height, depth_or_array_layers } = desc.size;
    let size = wgpu_types::Extent3d { width, height, depth_or_array_layers };
    let (mip_level_count, sample_count) = (desc.mip_level_count, desc.sample_count);
    let (format, usage) = (wgpu_types::TextureFormat::R8Unorm, wgpu_types::TextureUsages::empty());
    let outside = wgpu_types::TextureDescriptor { label: (), size, mip_level_count, sample_count, dimension, format, usage };
    let wgpu_types::Extent3d { width, height, depth_or_array_layers } = outside.mip_level_size(level)?;
    Some(Extent3d { width, height, depth_or_array_layers })
}

/// Reads `wgpu_types::COPY_BUFFER_ALIGNMENT`, which is 4.
#[verifier::external_body]
pub(crate) fn copy_buffer_alignment() -> (alignment: u64)
    ensures
        alignment == crate::types::COPY_BUFFER_ALIGNMENT,
{
    wgpu_types::COPY_BUFFER_ALIGNMENT
}

/// Reads `wgpu_types::COPY_BYTES_PER_ROW_ALIGNMENT`, which is 256.
#[verifier::external_body]
pub(crate) fn copy_bytes_per_row_alignment() -> (alignment: u32)
    ensures
        alignment == crate::types::COPY_BYTES_PER_ROW_ALIGNMENT,
{
    wgpu_types::COPY_BYTES_PER_ROW_ALIGNMENT
}

/// Reads the bits of `wgpu_hal::BufferUses::MAP_WRITE`, the flag of a buffer that the host maps for writing.
#[verifier::external_body]
pub(crate) fn buffer_uses_map_write() -> (flag: u32)
    ensures
        flag == crate::hal::BUFFER_USES_MAP_WRITE,
{
    wgpu_hal::BufferUses::MAP_WRITE.bits()
}

/// Reads the bits of `wgpu_hal::BufferUses::COPY_SRC`, the flag of a buffer in use as the source of a copy.
#[verifier::external_body]
pub(crate) fn buffer_uses_copy_src() -> (flag: u32)
    ensures
        flag == crate::hal::BUFFER_USES_COPY_SRC,
{
    wgpu_hal::BufferUses::COPY_SRC.bits()
}

/// Reads the bits of `wgpu_hal::BufferUses::COPY_DST`, the flag of a buffer in use as the destination of a copy.
#[verifier::external_body]
pub(crate) fn buffer_uses_copy_dst() -> (flag: u32)
    ensures
        flag == crate::hal::BUFFER_USES_COPY_DST,
{
    wgpu_hal::BufferUses::COPY_DST.bits()
}

/// Reads the bits of `wgpu_hal::TextureUses::COPY_SRC`, the flag of a texture in use as the source of a copy.
#[verifier::external_body]
pub(crate) fn texture_uses_copy_src() -> (flag: u32)
    ensures
        flag == crate::hal::TEXTURE_USES_COPY_SRC,
{
    wgpu_hal::TextureUses::COPY_SRC.bits()
}

/// Reads the bits of `wgpu_hal::TextureUses::COPY_DST`, the flag of a texture in use as the destination of a copy.
#[verifier::external_body]
pub(crate) fn texture_uses_copy_dst() -> (flag: u32)
    ensures
        flag == crate::hal::TEXTURE_USES_COPY_DST,
{
    wgpu_hal::TextureUses::COPY_DST.bits()
}

/// Reads the bits of `wgpu_types::BufferUsages::COPY_SRC`, the flag of a buffer that may be the source of a copy.
#[verifier::external_body]
pub(crate) fn buffer_usage_copy_src() -> (flag: u32)
    ensures
        flag == crate::types::BUFFER_USAGE_COPY_SRC,
{
    wgpu_types::BufferUsages::COPY_SRC.bits()
}

/// Reads the bits of `wgpu_types::BufferUsages::COPY_DST`, the flag of a buffer that may be the destination of a copy.
#[verifier::external_body]
pub(crate) fn buffer_usage_copy_dst() -> (flag: u32)
    ensures
        flag == crate::types::BUFFER_USAGE_COPY_DST,
{
    wgpu_types::BufferUsages::COPY_DST.bits()
}

/// Reads the bits of `wgpu_types::TextureUsages::COPY_SRC`, the flag of a texture that may be the source of a copy.
#[verifier::external_body]
pub(crate) fn texture_usage_copy_src() -> (flag: u32)
    ensures
        flag == crate::types::TEXTURE_USAGE_COPY_SRC,
{
    wgpu_types::TextureUsages::COPY_SRC.bits()
}

/// Reads the bits of `wgpu_types::TextureUsages::COPY_DST`, the flag of a texture that may be the destination of a copy.
#[verifier::external_body]
pub(crate) fn texture_usage_copy_dst() -> (flag: u32)
    ensures
        flag == crate::types::TEXTURE_USAGE_COPY_DST,
{
    wgpu_types::TextureUsages::COPY_DST.bits()
}

/// A list of swap chains, kept in a `smallvec::SmallVec` that holds one of
/// them in place.
#[verifier::external_body]
#[derive(Debug)]
pub struct SignalList {
    items: smallvec::SmallVec<[u32; 1]>,
}

/// The swap chains that a list holds, in the order in which they were added.
pub uninterp spec fn signal_list_items(list: SignalList) -> Seq<u32>;

impl View for SignalList {
    type V = Seq<u32>;

    open spec fn view(&self) -> Seq<u32> {
        signal_list_items(*self)
    }
}

/// Calls `smallvec::SmallVec::new`, which constructs an empty vector.
#[verifier::external_body]
pub(crate) fn signal_list_new() -> (list: SignalList)
    ensures
        signal_list_items(list) == Seq::<u32>::empty(),
{
    SignalList { items: smallvec::SmallVec::new() }
}

/// Calls `smallvec::SmallVec::push`, which appends an item to the vector.
#[verifier::external_body]
pub(crate) fn signal_list_push(list: &mut SignalList, item: u32)
    ensures
        signal_list_items(*final(list)) == signal_list_items(*old(list)).push(item),
{
    list.items.push(item)
}

/// Calls `smallvec::SmallVec::as_slice` and copies the items of the slice
/// into a vector, in their order.
#[verifier::external_body]
pub(crate) fn signal_list_to_vec(list: &SignalList) -> (items: Vec<u32>)
    ensures
        items@ == signal_list_items(*list),
{
    list.items.as_slice().to_vec()
}

impl SignalList {
    /// A list that holds no swap chain.
    pub fn new() -> (list: Self)
        ensures
            list@ == Seq::<u32>::empty(),
    {
        signal_list_new()
    }

    /// Adds swap chain `id` at the end.
    pub fn push(&mut self, id: u32)
        ensures
            final(self)@ == old(self)@.push(id),
    {
        signal_list_push(self, id)
    }

    /// The swap chains of the list, in their order.
    pub fn to_vec(&self) -> (ids: Vec<u32>)
        ensures
            ids@ == self@,
    {
        signal_list_to_vec(self)
    }
}

} // verus!
