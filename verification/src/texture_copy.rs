//! The transfers that touch a texture: from and to buffers, and between
//! textures.

use crate::command::{
    encoder_status, CommandBuffer, CommandBufferView, TraceCommand,
    TrackerSetView,
};
use crate::copy::{
    buffer_init_actions, check_destination_buffer, check_source_buffer,
    destination_buffer_status, source_buffer_status,
};
use crate::hal::{
    buffer_to_texture_copies, buffer_transitions, texture_copies, texture_to_buffer_copies,
    texture_transitions, BufferBarrier, BufferTextureCopy, CopyExtent, TextureBarrier,
    TextureCopy, TextureCopyBase, BUFFER_USES_COPY_DST, BUFFER_USES_COPY_SRC,
    TEXTURE_USES_COPY_DST, TEXTURE_USES_COPY_SRC,
};
use crate::hub::{Global, GlobalView};
use crate::memory_init::{extend_actions, AddressRange, MemoryInitKind};
use crate::outside::{
    buffer_uses_copy_dst, buffer_uses_copy_src, texture_usage_copy_dst, texture_usage_copy_src,
    texture_uses_copy_dst, texture_uses_copy_src,
};
use crate::resource::{Buffer, BufferView, Texture};
use crate::storage::Storage;
use crate::track::{
    buffer_barriers, coalesced, pending_buffer_replace, pending_texture_replace, push_buffer_barriers,
    push_texture_barriers, texture_barriers, texture_replaced, texture_state_of, use_replaced,
    TextureSelector,
};
use crate::transfer::{
    copy_base, copy_selector, extract_texture_selector, lemma_layer_offsets_fit,
    linear_texture_data, min_of, min_u32, resolve_copy_aspect, texture_copy_aspect,
    texture_copy_range, validate_linear_texture_data, validate_texture_copy_range, CopyError,
    CopySide, TransferError,
};
use crate::types::{
    has_usage, usage_contains, BufferAddress, CommandEncoderId, Extent3d, ImageCopyBuffer,
    ImageCopyTexture, ImageDataLayout, TextureId, TEXTURE_USAGE_COPY_DST, TEXTURE_USAGE_COPY_SRC,
};
use vstd::prelude::*;

verus! {

/// Whether the registered texture `id` can be the source of a copy: it is
/// not destroyed and is declared as a copy source.
pub open spec fn source_texture_status(textures: Map<u32, Texture>, id: TextureId) -> Result<
    (),
    TransferError,
> {
    if textures[id].raw is None {
        Err(TransferError::InvalidTexture(id))
    } else if !has_usage(textures[id].desc.usage, TEXTURE_USAGE_COPY_SRC) {
        Err(TransferError::MissingCopySrcUsageFlag)
    } else {
        Ok(())
    }
}

/// Whether the registered texture `id` can be the destination of a copy: it
/// is not destroyed and is declared as a copy destination.
pub open spec fn destination_texture_status(textures: Map<u32, Texture>, id: TextureId) -> Result<
    (),
    TransferError,
> {
    if textures[id].raw is None {
        Err(TransferError::InvalidTexture(id))
    } else if !has_usage(textures[id].desc.usage, TEXTURE_USAGE_COPY_DST) {
        Err(TransferError::MissingCopyDstUsageFlag(None, Some(id)))
    } else {
        Ok(())
    }
}

/// What a copy between a buffer and a texture that meets the rules comes to.
#[derive(Clone, Copy, Debug, PartialEq, Eq)]
pub struct TextureCopyPlan {
    /// The sub-resources of the texture that the copy touches.
    pub selector: TextureSelector,
    /// Where in the texture the copy starts.
    pub base: TextureCopyBase,
    /// The size of the copy within one layer.
    pub extent: CopyExtent,
    /// The number of layers copied, one region each.
    pub layer_count: u32,
    /// The bytes of the buffer from the first to the last one touched.
    pub required_bytes: BufferAddress,
    /// The bytes of the buffer from one layer to the next.
    pub bytes_per_layer: BufferAddress,
}

impl TextureCopyPlan {
    /// The offsets and layers of all regions fit: the last region starts
    /// within the bytes required, which end within 64 bits, and its layer is
    /// below 2^32.
    pub open spec fn fits(self, layout: ImageDataLayout) -> bool {
        &&& layout.offset + self.required_bytes <= u64::MAX
        &&& self.layer_count >= 1
        &&& (self.layer_count - 1) * self.bytes_per_layer <= self.required_bytes
        &&& self.base.array_layer + self.layer_count <= u32::MAX
    }
}

/// Region `index` of a copy between a buffer and a texture: one layer further
/// in the texture, one image further in the buffer.
pub open spec fn buffer_texture_region(
    layout: ImageDataLayout,
    plan: TextureCopyPlan,
    index: int,
) -> BufferTextureCopy {
    BufferTextureCopy {
        buffer_layout: ImageDataLayout {
            offset: (layout.offset + index * plan.bytes_per_layer) as u64,
            ..layout
        },
        texture_base: TextureCopyBase {
            array_layer: (plan.base.array_layer + index) as u32,
            ..plan.base
        },
        size: plan.extent,
    }
}

/// The first `count` regions of a copy between a buffer and a texture.
pub open spec fn buffer_texture_regions(
    layout: ImageDataLayout,
    plan: TextureCopyPlan,
    count: nat,
) -> Seq<BufferTextureCopy> {
    Seq::new(count, |index: int| buffer_texture_region(layout, plan, index))
}

/// The regions of a copy between a buffer and a texture, one for each layer.
pub(crate) fn layer_regions(layout: &ImageDataLayout, plan: &TextureCopyPlan) -> (regions: Vec<
    BufferTextureCopy,
>)
    requires
        plan.fits(*layout),
    ensures
        regions@ == buffer_texture_regions(*layout, *plan, plan.layer_count as nat),
{
    let mut regions: Vec<BufferTextureCopy> = Vec::new();
    let mut rel_array_layer: u32 = 0;
    assert(regions@ =~= buffer_texture_regions(*layout, *plan, 0));
    while rel_array_layer < plan.layer_count
        invariant
            rel_array_layer <= plan.layer_count,
            plan.fits(*layout),
            regions@ == buffer_texture_regions(*layout, *plan, rel_array_layer as nat),
        decreases plan.layer_count - rel_array_layer,
    {
        assert(rel_array_layer * plan.bytes_per_layer <= (plan.layer_count - 1)
            * plan.bytes_per_layer) by (nonlinear_arith)
            requires
                rel_array_layer <= plan.layer_count - 1,
                plan.bytes_per_layer >= 0,
        ;
        let mut texture_base = plan.base;
        texture_base.array_layer = plan.base.array_layer + rel_array_layer;
        let mut buffer_layout = *layout;
        buffer_layout.offset = layout.offset + rel_array_layer as u64 * plan.bytes_per_layer;
        regions.push(BufferTextureCopy { buffer_layout, texture_base, size: plan.extent });
        rel_array_layer += 1;
        assert(regions@ =~= buffer_texture_regions(*layout, *plan, rel_array_layer as nat));
    }
    regions
}

/// The rules of a copy from a buffer to a texture, in their order: the first
/// one broken, or what the copy comes to.
pub open spec fn buffer_to_texture_plan(
    buffers: Map<u32, BufferView>,
    textures: Map<u32, Texture>,
    source: ImageCopyBuffer,
    destination: ImageCopyTexture,
    copy_size: Extent3d,
) -> Result<TextureCopyPlan, TransferError> {
    match texture_copy_aspect(textures, destination) {
        Err(error) => Err(error),
        Ok(copy_aspect) => {
            let texture = textures[destination.texture];
            if source_buffer_status(buffers, source.buffer) is Err {
                Err(source_buffer_status(buffers, source.buffer)->Err_0)
            } else if destination_texture_status(textures, destination.texture) is Err {
                Err(destination_texture_status(textures, destination.texture)->Err_0)
            } else {
                match texture_copy_range(
                    destination,
                    texture.desc,
                    CopySide::Destination,
                    copy_size,
                ) {
                    Err(error) => Err(error),
                    Ok((extent, layer_count)) => match linear_texture_data(
                        source.layout,
                        texture.desc.format,
                        buffers[source.buffer].size,
                        CopySide::Source,
                        texture.desc.format.block_size as u64,
                        copy_size,
                        true,
                    ) {
                        Err(error) => Err(error),
                        Ok((required_bytes, bytes_per_layer)) => {
                            if !texture.desc.format.copy_dst {
                                Err(
                                    TransferError::CopyToForbiddenTextureFormat(
                                        texture.desc.format,
                                    ),
                                )
                            } else {
                                Ok(
                                    TextureCopyPlan {
                                        selector: copy_selector(texture, destination, copy_size),
                                        base: copy_base(texture, destination, copy_aspect),
                                        extent,
                                        layer_count,
                                        required_bytes,
                                        bytes_per_layer,
                                    },
                                )
                            }
                        },
                    },
                }
            }
        },
    }
}

/// The rules of a copy from a texture to a buffer, in their order: the first
/// one broken, or what the copy comes to.
pub open spec fn texture_to_buffer_plan(
    buffers: Map<u32, BufferView>,
    textures: Map<u32, Texture>,
    source: ImageCopyTexture,
    destination: ImageCopyBuffer,
    copy_size: Extent3d,
) -> Result<TextureCopyPlan, TransferError> {
    match texture_copy_aspect(textures, source) {
        Err(error) => Err(error),
        Ok(copy_aspect) => {
            let texture = textures[source.texture];
            if source_texture_status(textures, source.texture) is Err {
                Err(source_texture_status(textures, source.texture)->Err_0)
            } else if destination_buffer_status(buffers, destination.buffer) is Err {
                Err(destination_buffer_status(buffers, destination.buffer)->Err_0)
            } else {
                match texture_copy_range(source, texture.desc, CopySide::Source, copy_size) {
                    Err(error) => Err(error),
                    Ok((extent, layer_count)) => match linear_texture_data(
                        destination.layout,
                        texture.desc.format,
                        buffers[destination.buffer].size,
                        CopySide::Destination,
                        texture.desc.format.block_size as u64,
                        copy_size,
                        true,
                    ) {
                        Err(error) => Err(error),
                        Ok((required_bytes, bytes_per_layer)) => {
                            if !texture.desc.format.copy_src {
                                Err(
                                    TransferError::CopyFromForbiddenTextureFormat(
                                        texture.desc.format,
                                    ),
                                )
                            } else {
                                Ok(
                                    TextureCopyPlan {
                                        selector: copy_selector(texture, source, copy_size),
                                        base: copy_base(texture, source, copy_aspect),
                                        extent,
                                        layer_count,
                                        required_bytes,
                                        bytes_per_layer,
                                    },
                                )
                            }
                        },
                    },
                }
            }
        },
    }
}

/// Checks the registered texture `id` as the source of a copy.
fn check_source_texture(texture: &Texture, id: TextureId) -> (res: Result<(), TransferError>)
    ensures
        res == source_texture_status(map![id => *texture], id),
{
    if texture.raw.is_none() {
        Err(TransferError::InvalidTexture(id))
    } else if !usage_contains(texture.desc.usage, texture_usage_copy_src()) {
        Err(TransferError::MissingCopySrcUsageFlag)
    } else {
        Ok(())
    }
}

/// Checks the registered texture `id` as the destination of a copy.
fn check_destination_texture(texture: &Texture, id: TextureId) -> (res: Result<
    (),
    TransferError,
>)
    ensures
        res == destination_texture_status(map![id => *texture], id),
{
    if texture.raw.is_none() {
        Err(TransferError::InvalidTexture(id))
    } else if !usage_contains(texture.desc.usage, texture_usage_copy_dst()) {
        Err(TransferError::MissingCopyDstUsageFlag(None, Some(id)))
    } else {
        Ok(())
    }
}

/// The part of a copy between a buffer and a texture that both directions
/// share, once the resources have been checked: the texture range, the linear
/// data, and what the copy comes to.
fn plan_texture_copy(
    textures: &Storage<Texture>,
    texture_view: &ImageCopyTexture,
    texture_side: CopySide,
    layout: &ImageDataLayout,
    buffer_size: BufferAddress,
    buffer_side: CopySide,
    copy_size: &Extent3d,
    copy_aspect: u8,
) -> (res: Result<TextureCopyPlan, TransferError>)
    requires
        textures@.contains_key(texture_view.texture),
        textures@[texture_view.texture].wf(),
        texture_copy_aspect(textures@, *texture_view) == Ok::<u8, TransferError>(copy_aspect),
        !copy_size.is_empty(),
    ensures
        res == ({
            let texture = textures@[texture_view.texture];
            match texture_copy_range(*texture_view, texture.desc, texture_side, *copy_size) {
                Err(error) => Err(error),
                Ok((extent, layer_count)) => match linear_texture_data(
                    *layout,
                    texture.desc.format,
                    buffer_size,
                    buffer_side,
                    texture.desc.format.block_size as u64,
                    *copy_size,
                    true,
                ) {
                    Err(error) => Err(error),
                    Ok((required_bytes, bytes_per_layer)) => Ok(
                        TextureCopyPlan {
                            selector: copy_selector(texture, *texture_view, *copy_size),
                            base: copy_base(texture, *texture_view, copy_aspect),
                            extent,
                            layer_count,
                            required_bytes,
                            bytes_per_layer,
                        },
                    ),
                },
            }
        }),
        res is Ok ==> res.unwrap().fits(*layout),
{
    let texture = textures.get(texture_view.texture).unwrap();
    let (extent, layer_count) = match validate_texture_copy_range(
        texture_view,
        &texture.desc,
        texture_side,
        copy_size,
    ) {
        Ok(found) => found,
        Err(error) => {
            return Err(error);
        },
    };
    let (required_bytes, bytes_per_layer) = match validate_linear_texture_data(
        layout,
        texture.desc.format,
        buffer_size,
        buffer_side,
        texture.desc.format.block_size as u64,
        copy_size,
        true,
    ) {
        Ok(found) => found,
        Err(error) => {
            return Err(error);
        },
    };
    proof {
        lemma_layer_offsets_fit(
            *layout,
            texture.desc.format,
            buffer_size,
            buffer_side,
            texture.desc.format.block_size as u64,
            *copy_size,
            true,
        );
    }
    let (selector, base, _) = match extract_texture_selector(texture_view, copy_size, textures) {
        Ok(found) => found,
        Err(error) => {
            return Err(error);
        },
    };
    proof {
        if texture.desc.is_3d() {
            assert((layer_count - 1) * bytes_per_layer == 0) by (nonlinear_arith)
                requires
                    layer_count == 1,
            ;
        } else {
            assert(layer_count == copy_size.depth_or_array_layers);
        }
    }
    Ok(TextureCopyPlan { selector, base, extent, layer_count, required_bytes, bytes_per_layer })
}

/// Checks a copy from a buffer to a texture against the rules.
fn check_buffer_to_texture(
    buffers: &Storage<Buffer>,
    textures: &Storage<Texture>,
    source: &ImageCopyBuffer,
    destination: &ImageCopyTexture,
    copy_size: &Extent3d,
) -> (res: Result<TextureCopyPlan, TransferError>)
    requires
        forall|id: u32| #[trigger] textures@.contains_key(id) ==> textures@[id].wf(),
        !copy_size.is_empty(),
    ensures
        res == buffer_to_texture_plan(
            buffers.deep(),
            textures@,
            *source,
            *destination,
            *copy_size,
        ),
        res is Ok ==> res.unwrap().fits(source.layout),
{
    let copy_aspect: u8 = match resolve_copy_aspect(textures, destination) {
        Ok(copy_aspect) => copy_aspect,
        Err(error) => {
            return Err(error);
        },
    };
    match check_source_buffer(buffers, source.buffer) {
        Err(error) => {
            return Err(error);
        },
        Ok(()) => {},
    }
    let texture = textures.get(destination.texture).unwrap();
    match check_destination_texture(texture, destination.texture) {
        Err(error) => {
            return Err(error);
        },
        Ok(()) => {},
    }
    let buffer_size: u64 = match buffers.get(source.buffer) {
        Some(buffer) => buffer.size,
        None => {
            return Err(TransferError::InvalidBuffer(source.buffer));
        },
    };
    let plan = match plan_texture_copy(
        textures,
        destination,
        CopySide::Destination,
        &source.layout,
        buffer_size,
        CopySide::Source,
        copy_size,
        copy_aspect,
    ) {
        Ok(plan) => plan,
        Err(error) => {
            return Err(error);
        },
    };
    if !texture.desc.format.copy_dst {
        return Err(TransferError::CopyToForbiddenTextureFormat(texture.desc.format));
    }
    Ok(plan)
}

/// Checks a copy from a texture to a buffer against the rules.
fn check_texture_to_buffer(
    buffers: &Storage<Buffer>,
    textures: &Storage<Texture>,
    source: &ImageCopyTexture,
    destination: &ImageCopyBuffer,
    copy_size: &Extent3d,
) -> (res: Result<TextureCopyPlan, TransferError>)
    requires
        forall|id: u32| #[trigger] textures@.contains_key(id) ==> textures@[id].wf(),
        !copy_size.is_empty(),
    ensures
        res == texture_to_buffer_plan(
            buffers.deep(),
            textures@,
            *source,
            *destination,
            *copy_size,
        ),
        res is Ok ==> res.unwrap().fits(destination.layout),
{
    let copy_aspect: u8 = match resolve_copy_aspect(textures, source) {
        Ok(copy_aspect) => copy_aspect,
        Err(error) => {
            return Err(error);
        },
    };
    let texture = textures.get(source.texture).unwrap();
    match check_source_texture(texture, source.texture) {
        Err(error) => {
            return Err(error);
        },
        Ok(()) => {},
    }
    match check_destination_buffer(buffers, destination.buffer) {
        Err(error) => {
            return Err(error);
        },
        Ok(()) => {},
    }
    let buffer_size: u64 = match buffers.get(destination.buffer) {
        Some(buffer) => buffer.size,
        None => {
            return Err(TransferError::InvalidBuffer(destination.buffer));
        },
    };
    let plan = match plan_texture_copy(
        textures,
        source,
        CopySide::Source,
        &destination.layout,
        buffer_size,
        CopySide::Destination,
        copy_size,
        copy_aspect,
    ) {
        Ok(plan) => plan,
        Err(error) => {
            return Err(error);
        },
    };
    if !texture.desc.format.copy_src {
        return Err(TransferError::CopyFromForbiddenTextureFormat(texture.desc.format));
    }
    Ok(plan)
}

/// A command buffer once it has recorded a copy from a buffer to a texture
/// that meets the rules: both are put to their uses, the buffer's bytes count
/// as read, and the encoder has recorded the barriers and one copy for each
/// layer.
pub open spec fn buffer_to_texture_recorded(
    command_buffer: CommandBufferView,
    buffers: Map<u32, BufferView>,
    textures: Map<u32, Texture>,
    source: ImageCopyBuffer,
    destination: ImageCopyTexture,
    plan: TextureCopyPlan,
) -> CommandBufferView {
    let uses = command_buffer.trackers.buffers;
    let states = command_buffer.trackers.textures;
    let state = texture_state_of(states, destination.texture);
    let levels = plan.selector.levels.end as nat;
    let source_raw = buffers[source.buffer].raw.unwrap();
    let destination_raw = textures[destination.texture].raw.unwrap();
    CommandBufferView {
        trackers: TrackerSetView {
            buffers: uses.insert(
                source.buffer,
                use_replaced(uses, source.buffer, BUFFER_USES_COPY_SRC),
            ),
            textures: states.insert(
                destination.texture,
                texture_replaced(state, plan.selector, levels, TEXTURE_USES_COPY_DST),
            ),
            ..command_buffer.trackers
        },
        buffer_memory_init_actions: command_buffer.buffer_memory_init_actions
            + buffer_init_actions(
            buffers[source.buffer],
            source.buffer,
            source.layout.offset,
            (source.layout.offset + plan.required_bytes) as u64,
            MemoryInitKind::NeedsInitializedMemory,
        ),
        encoder: command_buffer.encoder.opened().recorded(
            buffer_transitions(
                buffer_barriers(
                    pending_buffer_replace(uses, source.buffer, BUFFER_USES_COPY_SRC),
                    source_raw,
                ),
            ) + texture_transitions(
                texture_barriers(
                    coalesced(
                        pending_texture_replace(
                            state,
                            destination.texture,
                            plan.selector,
                            levels,
                            TEXTURE_USES_COPY_DST,
                        ),
                    ),
                    destination_raw,
                ),
            ) + buffer_to_texture_copies(
                source_raw,
                destination_raw,
                buffer_texture_regions(source.layout, plan, plan.layer_count as nat),
            ),
        ),
        ..command_buffer
    }
}

/// A command buffer once it has recorded a copy from a texture to a buffer
/// that meets the rules: both are put to their uses, the buffer's bytes count
/// as written, and the encoder has recorded the barriers and one copy for
/// each layer.
pub open spec fn texture_to_buffer_recorded(
    command_buffer: CommandBufferView,
    buffers: Map<u32, BufferView>,
    textures: Map<u32, Texture>,
    source: ImageCopyTexture,
    destination: ImageCopyBuffer,
    plan: TextureCopyPlan,
) -> CommandBufferView {
    let uses = command_buffer.trackers.buffers;
    let states = command_buffer.trackers.textures;
    let state = texture_state_of(states, source.texture);
    let levels = plan.selector.levels.end as nat;
    let source_raw = textures[source.texture].raw.unwrap();
    let destination_raw = buffers[destination.buffer].raw.unwrap();
    CommandBufferView {
        trackers: TrackerSetView {
            buffers: uses.insert(
                destination.buffer,
                use_replaced(uses, destination.buffer, BUFFER_USES_COPY_DST),
            ),
            textures: states.insert(
                source.texture,
                texture_replaced(state, plan.selector, levels, TEXTURE_USES_COPY_SRC),
            ),
            ..command_buffer.trackers
        },
        buffer_memory_init_actions: command_buffer.buffer_memory_init_actions
            + buffer_init_actions(
            buffers[destination.buffer],
            destination.buffer,
            destination.layout.offset,
            (destination.layout.offset + plan.required_bytes) as u64,
            MemoryInitKind::ImplicitlyInitialized,
        ),
        encoder: command_buffer.encoder.opened().recorded(
            buffer_transitions(
                buffer_barriers(
                    pending_buffer_replace(uses, destination.buffer, BUFFER_USES_COPY_DST),
                    destination_raw,
                ),
            ) + texture_transitions(
                texture_barriers(
                    coalesced(
                        pending_texture_replace(
                            state,
                            source.texture,
                            plan.selector,
                            levels,
                            TEXTURE_USES_COPY_SRC,
                        ),
                    ),
                    source_raw,
                ),
            ) + texture_to_buffer_copies(
                source_raw,
                TEXTURE_USES_COPY_SRC,
                destination_raw,
                buffer_texture_regions(destination.layout, plan, plan.layer_count as nat),
            ),
        ),
        ..command_buffer
    }
}

/// What a copy between a buffer and a texture answers: that the encoder
/// cannot record; success for a copy of no texels; else the first rule
/// broken, or success.
pub open spec fn texture_copy_result<Plan>(
    global: GlobalView,
    command_encoder_id: CommandEncoderId,
    copy_size: Extent3d,
    plan: Result<Plan, TransferError>,
) -> Result<(), CopyError> {
    match encoder_status(global.command_buffers, command_encoder_id) {
        Err(error) => Err(CopyError::Encoder(error)),
        Ok(()) => if copy_size.is_empty() {
            Ok(())
        } else {
            match plan {
                Err(error) => Err(CopyError::Transfer(error)),
                Ok(_) => Ok(()),
            }
        },
    }
}

/// What a copy from a buffer to a texture answers.
pub open spec fn copy_buffer_to_texture_result(
    global: GlobalView,
    command_encoder_id: CommandEncoderId,
    source: ImageCopyBuffer,
    destination: ImageCopyTexture,
    copy_size: Extent3d,
) -> Result<(), CopyError> {
    texture_copy_result(
        global,
        command_encoder_id,
        copy_size,
        buffer_to_texture_plan(global.buffers, global.textures, source, destination, copy_size),
    )
}

/// The registries after a copy from a buffer to a texture: unchanged where
/// the encoder cannot record; else the copy is traced, and recorded if it has
/// texels and meets the rules.
pub open spec fn copy_buffer_to_texture_state(
    global: GlobalView,
    command_encoder_id: CommandEncoderId,
    source: ImageCopyBuffer,
    destination: ImageCopyTexture,
    copy_size: Extent3d,
) -> GlobalView {
    if encoder_status(global.command_buffers, command_encoder_id) is Err {
        global
    } else {
        let traced = global.command_buffers[command_encoder_id].traced(
            TraceCommand::CopyBufferToTexture { src: source, dst: destination, size: copy_size },
        );
        let plan = buffer_to_texture_plan(
            global.buffers,
            global.textures,
            source,
            destination,
            copy_size,
        );
        let after = if !copy_size.is_empty() && plan is Ok {
            buffer_to_texture_recorded(
                traced,
                global.buffers,
                global.textures,
                source,
                destination,
                plan.unwrap(),
            )
        } else {
            traced
        };
        GlobalView {
            command_buffers: global.command_buffers.insert(command_encoder_id, after),
            ..global
        }
    }
}

/// What a copy from a texture to a buffer answers.
pub open spec fn copy_texture_to_buffer_result(
    global: GlobalView,
    command_encoder_id: CommandEncoderId,
    source: ImageCopyTexture,
    destination: ImageCopyBuffer,
    copy_size: Extent3d,
) -> Result<(), CopyError> {
    texture_copy_result(
        global,
        command_encoder_id,
        copy_size,
        texture_to_buffer_plan(global.buffers, global.textures, source, destination, copy_size),
    )
}

/// The registries after a copy from a texture to a buffer: unchanged where
/// the encoder cannot record; else the copy is traced, and recorded if it has
/// texels and meets the rules.
pub open spec fn copy_texture_to_buffer_state(
    global: GlobalView,
    command_encoder_id: CommandEncoderId,
    source: ImageCopyTexture,
    destination: ImageCopyBuffer,
    copy_size: Extent3d,
) -> GlobalView {
    if encoder_status(global.command_buffers, command_encoder_id) is Err {
        global
    } else {
        let traced = global.command_buffers[command_encoder_id].traced(
            TraceCommand::CopyTextureToBuffer { src: source, dst: destination, size: copy_size },
        );
        let plan = texture_to_buffer_plan(
            global.buffers,
            global.textures,
            source,
            destination,
            copy_size,
        );
        let after = if !copy_size.is_empty() && plan is Ok {
            texture_to_buffer_recorded(
                traced,
                global.buffers,
                global.textures,
                source,
                destination,
                plan.unwrap(),
            )
        } else {
            traced
        };
        GlobalView {
            command_buffers: global.command_buffers.insert(command_encoder_id, after),
            ..global
        }
    }
}

/// Records a copy from a buffer to a texture that meets the rules.
fn record_buffer_to_texture(
    cmd_buf: &mut CommandBuffer,
    buffers: &Storage<Buffer>,
    textures: &Storage<Texture>,
    source: &ImageCopyBuffer,
    destination: &ImageCopyTexture,
    plan: &TextureCopyPlan,
)
    requires
        old(cmd_buf)@.encoder.wf(),
        old(cmd_buf).trackers.textures.wf(),
        buffers@.contains_key(source.buffer),
        buffers@[source.buffer].raw is Some,
        buffers@[source.buffer]@.wf(),
        textures@.contains_key(destination.texture),
        textures@[destination.texture].raw is Some,
        plan.fits(source.layout),
    ensures
        final(cmd_buf)@ == buffer_to_texture_recorded(
            old(cmd_buf)@,
            buffers.deep(),
            textures@,
            *source,
            *destination,
            *plan,
        ),
        final(cmd_buf)@.encoder.wf(),
        final(cmd_buf).trackers.textures.wf(),
        final(cmd_buf).status == old(cmd_buf).status,
{
    let (src_buffer, src_pending) = cmd_buf.trackers.buffers.use_replace(
        buffers,
        source.buffer,
        buffer_uses_copy_src(),
    ).unwrap();
    let (dst_texture, dst_pending) = cmd_buf.trackers.textures.use_replace(
        textures,
        destination.texture,
        plan.selector,
        texture_uses_copy_dst(),
    ).unwrap();
    let mut src_barriers: Vec<BufferBarrier> = Vec::new();
    push_buffer_barriers(&mut src_barriers, &src_pending, src_buffer);
    let mut dst_barriers: Vec<TextureBarrier> = Vec::new();
    push_texture_barriers(&mut dst_barriers, &dst_pending, dst_texture);

    let src_ranges = src_buffer.initialization_status.check(
        AddressRange {
            start: source.layout.offset,
            end: source.layout.offset + plan.required_bytes,
        },
    );
    extend_actions(
        &mut cmd_buf.buffer_memory_init_actions,
        &src_ranges,
        source.buffer,
        MemoryInitKind::NeedsInitializedMemory,
    );

    let regions = layer_regions(&source.layout, plan);
    cmd_buf.encoder.open();
    cmd_buf.encoder.raw.transition_buffers(&src_barriers);
    cmd_buf.encoder.raw.transition_textures(&dst_barriers);
    cmd_buf.encoder.raw.copy_buffer_to_texture(
        src_buffer.raw.unwrap(),
        dst_texture.raw.unwrap(),
        &regions,
    );
    proof {
        let target = buffer_to_texture_recorded(
            old(cmd_buf)@,
            buffers.deep(),
            textures@,
            *source,
            *destination,
            *plan,
        );
        assert(cmd_buf@.encoder.raw.commands =~= target.encoder.raw.commands);
        assert(cmd_buf@.buffer_memory_init_actions =~= target.buffer_memory_init_actions);
        assert(cmd_buf@.trackers =~= target.trackers);
        assert(cmd_buf@.encoder =~= target.encoder);
        assert(cmd_buf@ =~= target);
    }
}

/// Records a copy from a texture to a buffer that meets the rules.
fn record_texture_to_buffer(
    cmd_buf: &mut CommandBuffer,
    buffers: &Storage<Buffer>,
    textures: &Storage<Texture>,
    source: &ImageCopyTexture,
    destination: &ImageCopyBuffer,
    plan: &TextureCopyPlan,
)
    requires
        old(cmd_buf)@.encoder.wf(),
        old(cmd_buf).trackers.textures.wf(),
        buffers@.contains_key(destination.buffer),
        buffers@[destination.buffer].raw is Some,
        buffers@[destination.buffer]@.wf(),
        textures@.contains_key(source.texture),
        textures@[source.texture].raw is Some,
        plan.fits(destination.layout),
    ensures
        final(cmd_buf)@ == texture_to_buffer_recorded(
            old(cmd_buf)@,
            buffers.deep(),
            textures@,
            *source,
            *destination,
            *plan,
        ),
        final(cmd_buf)@.encoder.wf(),
        final(cmd_buf).trackers.textures.wf(),
        final(cmd_buf).status == old(cmd_buf).status,
{
    let (src_texture, src_pending) = cmd_buf.trackers.textures.use_replace(
        textures,
        source.texture,
        plan.selector,
        texture_uses_copy_src(),
    ).unwrap();
    let (dst_buffer, dst_pending) = cmd_buf.trackers.buffers.use_replace(
        buffers,
        destination.buffer,
        buffer_uses_copy_dst(),
    ).unwrap();
    let mut src_barriers: Vec<TextureBarrier> = Vec::new();
    push_texture_barriers(&mut src_barriers, &src_pending, src_texture);
    let mut dst_barriers: Vec<BufferBarrier> = Vec::new();
    push_buffer_barriers(&mut dst_barriers, &dst_pending, dst_buffer);

    let dst_ranges = dst_buffer.initialization_status.check(
        AddressRange {
            start: destination.layout.offset,
            end: destination.layout.offset + plan.required_bytes,
        },
    );
    extend_actions(
        &mut cmd_buf.buffer_memory_init_actions,
        &dst_ranges,
        destination.buffer,
        MemoryInitKind::ImplicitlyInitialized,
    );

    let regions = layer_regions(&destination.layout, plan);
    cmd_buf.encoder.open();
    cmd_buf.encoder.raw.transition_buffers(&dst_barriers);
    cmd_buf.encoder.raw.transition_textures(&src_barriers);
    cmd_buf.encoder.raw.copy_texture_to_buffer(
        src_texture.raw.unwrap(),
        texture_uses_copy_src(),
        dst_buffer.raw.unwrap(),
        &regions,
    );
    proof {
        let target = texture_to_buffer_recorded(
            old(cmd_buf)@,
            buffers.deep(),
            textures@,
            *source,
            *destination,
            *plan,
        );
        assert(cmd_buf@.encoder.raw.commands =~= target.encoder.raw.commands);
        assert(cmd_buf@.buffer_memory_init_actions =~= target.buffer_memory_init_actions);
        assert(cmd_buf@.trackers =~= target.trackers);
        assert(cmd_buf@.encoder =~= target.encoder);
        assert(cmd_buf@ =~= target);
    }
}

impl Global {
    /// Records, on command encoder `command_encoder_id`, a copy of
    /// `copy_size` texels from the buffer of `source`, laid out as it says,
    /// to the texture of `destination`. A copy that breaks a rule records
    /// nothing; neither does a copy of no texels, which succeeds.
    pub fn command_encoder_copy_buffer_to_texture(
        &mut self,
        command_encoder_id: CommandEncoderId,
        source: &ImageCopyBuffer,
        destination: &ImageCopyTexture,
        copy_size: &Extent3d,
    ) -> (res: Result<(), CopyError>)
        requires
            old(self).wf(),
        ensures
            res == copy_buffer_to_texture_result(
                old(self)@,
                command_encoder_id,
                *source,
                *destination,
                *copy_size,
            ),
            final(self)@ == copy_buffer_to_texture_state(
                old(self)@,
                command_encoder_id,
                *source,
                *destination,
                *copy_size,
            ),
            final(self).wf(),
    {
        match CommandBuffer::get_encoder(&self.command_buffers, command_encoder_id) {
            Err(error) => {
                return Err(CopyError::Encoder(error));
            },
            Ok(()) => {},
        }
        let mut cmd_buf = self.command_buffers.remove(command_encoder_id).unwrap();
        cmd_buf.trace(
            TraceCommand::CopyBufferToTexture { src: *source, dst: *destination, size: *copy_size },
        );
        let res = if copy_size.has_no_texels() {
            Ok(())
        } else {
            match check_buffer_to_texture(
                &self.buffers,
                &self.textures,
                source,
                destination,
                copy_size,
            ) {
                Err(error) => Err(CopyError::Transfer(error)),
                Ok(plan) => {
                    record_buffer_to_texture(
                        &mut cmd_buf,
                        &self.buffers,
                        &self.textures,
                        source,
                        destination,
                        &plan,
                    );
                    Ok(())
                },
            }
        };
        let ghost after = cmd_buf@;
        self.command_buffers.insert(command_encoder_id, cmd_buf);
        proof {
            assert(self.command_buffers.deep() =~= old(self).command_buffers.deep().insert(
                command_encoder_id,
                after,
            ));
            assert(self@ =~= copy_buffer_to_texture_state(
                old(self)@,
                command_encoder_id,
                *source,
                *destination,
                *copy_size,
            ));
        }
        res
    }

    /// Records, on command encoder `command_encoder_id`, a copy of
    /// `copy_size` texels from the texture of `source` to the buffer of
    /// `destination`, laid out as it says. A copy that breaks a rule records
    /// nothing; neither does a copy of no texels, which succeeds.
    pub fn command_encoder_copy_texture_to_buffer(
        &mut self,
        command_encoder_id: CommandEncoderId,
        source: &ImageCopyTexture,
        destination: &ImageCopyBuffer,
        copy_size: &Extent3d,
    ) -> (res: Result<(), CopyError>)
        requires
            old(self).wf(),
        ensures
            res == copy_texture_to_buffer_result(
                old(self)@,
                command_encoder_id,
                *source,
                *destination,
                *copy_size,
            ),
            final(self)@ == copy_texture_to_buffer_state(
                old(self)@,
                command_encoder_id,
                *source,
                *destination,
                *copy_size,
            ),
            final(self).wf(),
    {
        match CommandBuffer::get_encoder(&self.command_buffers, command_encoder_id) {
            Err(error) => {
                return Err(CopyError::Encoder(error));
            },
            Ok(()) => {},
        }
        let mut cmd_buf = self.command_buffers.remove(command_encoder_id).unwrap();
        cmd_buf.trace(
            TraceCommand::CopyTextureToBuffer { src: *source, dst: *destination, size: *copy_size },
        );
        let res = if copy_size.has_no_texels() {
            Ok(())
        } else {
            match check_texture_to_buffer(
                &self.buffers,
                &self.textures,
                source,
                destination,
                copy_size,
            ) {
                Err(error) => Err(CopyError::Transfer(error)),
                Ok(plan) => {
                    record_texture_to_buffer(
                        &mut cmd_buf,
                        &self.buffers,
                        &self.textures,
                        source,
                        destination,
                        &plan,
                    );
                    Ok(())
                },
            }
        };
        let ghost after = cmd_buf@;
        self.command_buffers.insert(command_encoder_id, cmd_buf);
        proof {
            assert(self.command_buffers.deep() =~= old(self).command_buffers.deep().insert(
                command_encoder_id,
                after,
            ));
            assert(self@ =~= copy_texture_to_buffer_state(
                old(self)@,
                command_encoder_id,
                *source,
                *destination,
                *copy_size,
            ));
        }
        res
    }
}

/// What a copy between two textures that meets the rules comes to.
#[derive(Clone, Copy, Debug, PartialEq, Eq)]
pub struct TextureToTexturePlan {
    /// The sub-resources of the source that the copy touches.
    pub src_selector: TextureSelector,
    /// Where in the source the copy starts.
    pub src_base: TextureCopyBase,
    /// The sub-resources of the destination that the copy touches.
    pub dst_selector: TextureSelector,
    /// Where in the destination the copy starts.
    pub dst_base: TextureCopyBase,
    /// The size of the copy within one layer: in every dimension the smaller
    /// of what the source and the destination allow.
    pub extent: CopyExtent,
    /// The number of layers copied, one region each.
    pub layer_count: u32,
}

impl TextureToTexturePlan {
    /// The layers of all regions are below 2^32.
    pub open spec fn fits(self) -> bool {
        &&& self.src_base.array_layer + self.layer_count <= u32::MAX
        &&& self.dst_base.array_layer + self.layer_count <= u32::MAX
    }
}

/// Region `index` of a copy between two textures: one layer further in both.
pub open spec fn texture_region(plan: TextureToTexturePlan, index: int) -> TextureCopy {
    TextureCopy {
        src_base: TextureCopyBase {
            array_layer: (plan.src_base.array_layer + index) as u32,
            ..plan.src_base
        },
        dst_base: TextureCopyBase {
            array_layer: (plan.dst_base.array_layer + index) as u32,
            ..plan.dst_base
        },
        size: plan.extent,
    }
}

/// The first `count` regions of a copy between two textures.
pub open spec fn texture_regions(plan: TextureToTexturePlan, count: nat) -> Seq<TextureCopy> {
    Seq::new(count, |index: int| texture_region(plan, index))
}

/// The regions of a copy between two textures, one for each layer.
fn texture_layer_regions(plan: &TextureToTexturePlan) -> (regions: Vec<TextureCopy>)
    requires
        plan.fits(),
    ensures
        regions@ == texture_regions(*plan, plan.layer_count as nat),
{
    let mut regions: Vec<TextureCopy> = Vec::new();
    let mut rel_array_layer: u32 = 0;
    assert(regions@ =~= texture_regions(*plan, 0));
    while rel_array_layer < plan.layer_count
        invariant
            rel_array_layer <= plan.layer_count,
            plan.fits(),
            regions@ == texture_regions(*plan, rel_array_layer as nat),
        decreases plan.layer_count - rel_array_layer,
    {
        let mut src_base = plan.src_base;
        let mut dst_base = plan.dst_base;
        src_base.array_layer = plan.src_base.array_layer + rel_array_layer;
        dst_base.array_layer = plan.dst_base.array_layer + rel_array_layer;
        regions.push(TextureCopy { src_base, dst_base, size: plan.extent });
        rel_array_layer += 1;
        assert(regions@ =~= texture_regions(*plan, rel_array_layer as nat));
    }
    regions
}

/// The rules of a copy between two textures, in their order: the first one
/// broken, or what the copy comes to.
pub open spec fn texture_to_texture_plan(
    textures: Map<u32, Texture>,
    source: ImageCopyTexture,
    destination: ImageCopyTexture,
    copy_size: Extent3d,
) -> Result<TextureToTexturePlan, TransferError> {
    match texture_copy_aspect(textures, source) {
        Err(error) => Err(error),
        Ok(src_aspect) => match texture_copy_aspect(textures, destination) {
            Err(error) => Err(error),
            Ok(dst_aspect) => {
                let src = textures[source.texture];
                let dst = textures[destination.texture];
                if src_aspect != dst_aspect {
                    Err(TransferError::MismatchedAspects)
                } else if source_texture_status(textures, source.texture) is Err {
                    Err(source_texture_status(textures, source.texture)->Err_0)
                } else if destination_texture_status(textures, destination.texture) is Err {
                    Err(destination_texture_status(textures, destination.texture)->Err_0)
                } else {
                    match texture_copy_range(source, src.desc, CopySide::Source, copy_size) {
                        Err(error) => Err(error),
                        Ok((src_extent, layer_count)) => match texture_copy_range(
                            destination,
                            dst.desc,
                            CopySide::Destination,
                            copy_size,
                        ) {
                            Err(error) => Err(error),
                            Ok((dst_extent, _)) => Ok(
                                TextureToTexturePlan {
                                    src_selector: copy_selector(src, source, copy_size),
                                    src_base: copy_base(src, source, src_aspect),
                                    dst_selector: copy_selector(dst, destination, copy_size),
                                    dst_base: copy_base(dst, destination, dst_aspect),
                                    extent: CopyExtent {
                                        width: min_of(src_extent.width, dst_extent.width),
                                        height: min_of(src_extent.height, dst_extent.height),
                                        depth: min_of(src_extent.depth, dst_extent.depth),
                                    },
                                    layer_count,
                                },
                            ),
                        },
                    }
                }
            },
        },
    }
}

/// Checks a copy between two textures against the rules.
fn check_texture_to_texture(
    textures: &Storage<Texture>,
    source: &ImageCopyTexture,
    destination: &ImageCopyTexture,
    copy_size: &Extent3d,
) -> (res: Result<TextureToTexturePlan, TransferError>)
    requires
        forall|id: u32| #[trigger] textures@.contains_key(id) ==> textures@[id].wf(),
        !copy_size.is_empty(),
    ensures
        res == texture_to_texture_plan(textures@, *source, *destination, *copy_size),
        res is Ok ==> res.unwrap().fits(),
{
    let src_aspect: u8 = match resolve_copy_aspect(textures, source) {
        Ok(copy_aspect) => copy_aspect,
        Err(error) => {
            return Err(error);
        },
    };
    let dst_aspect: u8 = match resolve_copy_aspect(textures, destination) {
        Ok(copy_aspect) => copy_aspect,
        Err(error) => {
            return Err(error);
        },
    };
    if src_aspect != dst_aspect {
        return Err(TransferError::MismatchedAspects);
    }
    let src_texture = textures.get(source.texture).unwrap();
    match check_source_texture(src_texture, source.texture) {
        Err(error) => {
            return Err(error);
        },
        Ok(()) => {},
    }
    let dst_texture = textures.get(destination.texture).unwrap();
    match check_destination_texture(dst_texture, destination.texture) {
        Err(error) => {
            return Err(error);
        },
        Ok(()) => {},
    }
    let (src_copy_size, array_layer_count) = match validate_texture_copy_range(
        source,
        &src_texture.desc,
        CopySide::Source,
        copy_size,
    ) {
        Ok(found) => found,
        Err(error) => {
            return Err(error);
        },
    };
    let (dst_copy_size, _) = match validate_texture_copy_range(
        destination,
        &dst_texture.desc,
        CopySide::Destination,
        copy_size,
    ) {
        Ok(found) => found,
        Err(error) => {
            return Err(error);
        },
    };
    let (src_selector, src_base, _) = match extract_texture_selector(source, copy_size, textures) {
        Ok(found) => found,
        Err(error) => {
            return Err(error);
        },
    };
    let (dst_selector, dst_base, _) = match extract_texture_selector(
        destination,
        copy_size,
        textures,
    ) {
        Ok(found) => found,
        Err(error) => {
            return Err(error);
        },
    };
    let extent = CopyExtent {
        width: min_u32(src_copy_size.width, dst_copy_size.width),
        height: min_u32(src_copy_size.height, dst_copy_size.height),
        depth: min_u32(src_copy_size.depth, dst_copy_size.depth),
    };
    Ok(
        TextureToTexturePlan {
            src_selector,
            src_base,
            dst_selector,
            dst_base,
            extent,
            layer_count: array_layer_count,
        },
    )
}

/// A command buffer once it has recorded a copy between two textures that
/// meets the rules: the source is put to its use, then the destination, and
/// the encoder has recorded the barriers of both and one copy for each
/// layer.
pub open spec fn texture_to_texture_recorded(
    command_buffer: CommandBufferView,
    textures: Map<u32, Texture>,
    source: ImageCopyTexture,
    destination: ImageCopyTexture,
    plan: TextureToTexturePlan,
) -> CommandBufferView {
    let states = command_buffer.trackers.textures;
    let src_levels = plan.src_selector.levels.end as nat;
    let dst_levels = plan.dst_selector.levels.end as nat;
    let src_state = texture_state_of(states, source.texture);
    let states_after = states.insert(
        source.texture,
        texture_replaced(src_state, plan.src_selector, src_levels, TEXTURE_USES_COPY_SRC),
    );
    let dst_state = texture_state_of(states_after, destination.texture);
    let source_raw = textures[source.texture].raw.unwrap();
    let destination_raw = textures[destination.texture].raw.unwrap();
    CommandBufferView {
        trackers: TrackerSetView {
            textures: states_after.insert(
                destination.texture,
                texture_replaced(dst_state, plan.dst_selector, dst_levels, TEXTURE_USES_COPY_DST),
            ),
            ..command_buffer.trackers
        },
        encoder: command_buffer.encoder.opened().recorded(
            texture_transitions(
                texture_barriers(
                    coalesced(
                        pending_texture_replace(
                            src_state,
                            source.texture,
                            plan.src_selector,
                            src_levels,
                            TEXTURE_USES_COPY_SRC,
                        ),
                    ),
                    source_raw,
                ) + texture_barriers(
                    coalesced(
                        pending_texture_replace(
                            dst_state,
                            destination.texture,
                            plan.dst_selector,
                            dst_levels,
                            TEXTURE_USES_COPY_DST,
                        ),
                    ),
                    destination_raw,
                ),
            ) + texture_copies(
                source_raw,
                TEXTURE_USES_COPY_SRC,
                destination_raw,
                texture_regions(plan, plan.layer_count as nat),
            ),
        ),
        ..command_buffer
    }
}

/// What a copy between two textures answers.
pub open spec fn copy_texture_to_texture_result(
    global: GlobalView,
    command_encoder_id: CommandEncoderId,
    source: ImageCopyTexture,
    destination: ImageCopyTexture,
    copy_size: Extent3d,
) -> Result<(), CopyError> {
    texture_copy_result(
        global,
        command_encoder_id,
        copy_size,
        texture_to_texture_plan(global.textures, source, destination, copy_size),
    )
}

/// The registries after a copy between two textures: unchanged where the
/// encoder cannot record; else the copy is traced, and recorded if it has
/// texels and meets the rules.
pub open spec fn copy_texture_to_texture_state(
    global: GlobalView,
    command_encoder_id: CommandEncoderId,
    source: ImageCopyTexture,
    destination: ImageCopyTexture,
    copy_size: Extent3d,
) -> GlobalView {
    if encoder_status(global.command_buffers, command_encoder_id) is Err {
        global
    } else {
        let traced = global.command_buffers[command_encoder_id].traced(
            TraceCommand::CopyTextureToTexture { src: source, dst: destination, size: copy_size },
        );
        let plan = texture_to_texture_plan(global.textures, source, destination, copy_size);
        let after = if !copy_size.is_empty() && plan is Ok {
            texture_to_texture_recorded(
                traced,
                global.textures,
                source,
                destination,
                plan.unwrap(),
            )
        } else {
            traced
        };
        GlobalView {
            command_buffers: global.command_buffers.insert(command_encoder_id, after),
            ..global
        }
    }
}

/// Records a copy between two textures that meets the rules.
fn record_texture_to_texture(
    cmd_buf: &mut CommandBuffer,
    textures: &Storage<Texture>,
    source: &ImageCopyTexture,
    destination: &ImageCopyTexture,
    plan: &TextureToTexturePlan,
)
    requires
        old(cmd_buf)@.encoder.wf(),
        old(cmd_buf).trackers.textures.wf(),
        textures@.contains_key(source.texture),
        textures@[source.texture].raw is Some,
        textures@.contains_key(destination.texture),
        textures@[destination.texture].raw is Some,
        plan.fits(),
    ensures
        final(cmd_buf)@ == texture_to_texture_recorded(
            old(cmd_buf)@,
            textures@,
            *source,
            *destination,
            *plan,
        ),
        final(cmd_buf)@.encoder.wf(),
        final(cmd_buf).trackers.textures.wf(),
        final(cmd_buf).status == old(cmd_buf).status,
{
    let (src_texture, src_pending) = cmd_buf.trackers.textures.use_replace(
        textures,
        source.texture,
        plan.src_selector,
        texture_uses_copy_src(),
    ).unwrap();
    // Both transitions go into one list: the tracker cannot hand out two
    // lists at a time.
    let mut barriers: Vec<TextureBarrier> = Vec::new();
    push_texture_barriers(&mut barriers, &src_pending, src_texture);
    let (dst_texture, dst_pending) = cmd_buf.trackers.textures.use_replace(
        textures,
        destination.texture,
        plan.dst_selector,
        texture_uses_copy_dst(),
    ).unwrap();
    push_texture_barriers(&mut barriers, &dst_pending, dst_texture);

    let regions = texture_layer_regions(plan);
    cmd_buf.encoder.open();
    cmd_buf.encoder.raw.transition_textures(&barriers);
    cmd_buf.encoder.raw.copy_texture_to_texture(
        src_texture.raw.unwrap(),
        texture_uses_copy_src(),
        dst_texture.raw.unwrap(),
        &regions,
    );
    proof {
        let target = texture_to_texture_recorded(
            old(cmd_buf)@,
            textures@,
            *source,
            *destination,
            *plan,
        );
        assert(cmd_buf@.encoder.raw.commands =~= target.encoder.raw.commands);
        assert(cmd_buf@.trackers =~= target.trackers);
        assert(cmd_buf@.encoder =~= target.encoder);
        assert(cmd_buf@ =~= target);
    }
}

impl Global {
    /// Records, on command encoder `command_encoder_id`, a copy of
    /// `copy_size` texels from the texture of `source` to the texture of
    /// `destination`. A copy that breaks a rule records nothing; neither
    /// does a copy of no texels, which succeeds.
    pub fn command_encoder_copy_texture_to_texture(
        &mut self,
        command_encoder_id: CommandEncoderId,
        source: &ImageCopyTexture,
        destination: &ImageCopyTexture,
        copy_size: &Extent3d,
    ) -> (res: Result<(), CopyError>)
        requires
            old(self).wf(),
        ensures
            res == copy_texture_to_texture_result(
                old(self)@,
                command_encoder_id,
                *source,
                *destination,
                *copy_size,
            ),
            final(self)@ == copy_texture_to_texture_state(
                old(self)@,
                command_encoder_id,
                *source,
                *destination,
                *copy_size,
            ),
            final(self).wf(),
    {
        match CommandBuffer::get_encoder(&self.command_buffers, command_encoder_id) {
            Err(error) => {
                return Err(CopyError::Encoder(error));
            },
            Ok(()) => {},
        }
        let mut cmd_buf = self.command_buffers.remove(command_encoder_id).unwrap();
        cmd_buf.trace(
            TraceCommand::CopyTextureToTexture {
                src: *source,
                dst: *destination,
                size: *copy_size,
            },
        );
        let res = if copy_size.has_no_texels() {
            Ok(())
        } else {
            match check_texture_to_texture(&self.textures, source, destination, copy_size) {
                Err(error) => Err(CopyError::Transfer(error)),
                Ok(plan) => {
                    record_texture_to_texture(
                        &mut cmd_buf,
                        &self.textures,
                        source,
                        destination,
                        &plan,
                    );
                    Ok(())
                },
            }
        };
        let ghost after = cmd_buf@;
        self.command_buffers.insert(command_encoder_id, cmd_buf);
        proof {
            assert(self.command_buffers.deep() =~= old(self).command_buffers.deep().insert(
                command_encoder_id,
                after,
            ));
            assert(self@ =~= copy_texture_to_texture_state(
                old(self)@,
                command_encoder_id,
                *source,
                *destination,
                *copy_size,
            ));
        }
        res
    }
}

} // verus!
