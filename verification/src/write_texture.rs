//! Writes of host data into textures through the queue.

use crate::command::TrackerSetView;
use crate::device::{DeviceError, DeviceView, PendingWritesView, StagingData, TempResource};
use crate::hal::{
    buffer_to_texture_copies, buffer_transitions, texture_transitions, BufferBarrier,
    TextureBarrier, UsageRange, TEXTURE_USES_COPY_DST,
};
use crate::hub::{Global, GlobalView};
use crate::outside::{
    buffer_uses_copy_src, buffer_uses_map_write, texture_usage_copy_dst, texture_uses_copy_dst,
};
use crate::queue::{staging_barrier, QueueWriteError};
use crate::resource::{LifeGuard, Texture};
use crate::staging::{
    check_staging_fits, plan_staging, stage_texture_data, staged, staging_fits, staging_layout,
    StagingLayout,
};
use crate::texture_copy::{
    buffer_texture_regions, destination_texture_status, layer_regions, TextureCopyPlan,
};
use crate::track::{
    coalesced, pending_texture_replace, push_texture_barriers, texture_barriers, texture_replaced,
    texture_state_of,
};
use crate::transfer::{
    copy_base, copy_selector, extract_texture_selector, linear_texture_data,
    resolve_copy_aspect, texture_copy_aspect, texture_copy_range, validate_linear_texture_data,
    validate_texture_copy_range, CopySide, TransferError,
};
use crate::types::{
    usage_contains, BufferAddress, Extent3d, ImageCopyTexture, ImageDataLayout, QueueId,
    TextureId,
};
use vstd::arithmetic::mul::lemma_mul_upper_bound;
use vstd::prelude::*;

verus! {

/// What a write into a texture that meets the rules comes to.
#[derive(Clone, Copy, Debug, PartialEq, Eq)]
pub struct TextureWritePlan {
    /// The copy from the staging buffer to the texture.
    pub copy: TextureCopyPlan,
    /// How the data lies in the staging buffer.
    pub layout: StagingLayout,
}

/// `value`, absent where it is zero.
pub open spec fn non_zero(value: u32) -> Option<u32> {
    if value == 0 {
        None
    } else {
        Some(value)
    }
}

/// The bytes of the staging buffer from one layer to the next: the rows of
/// blocks from one image to the next, at the row pitch of the staging buffer.
pub open spec fn stage_bytes_per_layer(layout: StagingLayout) -> int {
    layout.stage_bytes_per_row * layout.block_rows_per_image
}

/// How the regions of a write find their texels in the staging buffer.
pub open spec fn stage_data_layout(layout: StagingLayout) -> ImageDataLayout {
    ImageDataLayout {
        offset: 0,
        bytes_per_row: non_zero(layout.stage_bytes_per_row),
        rows_per_image: non_zero(layout.block_rows_per_image),
    }
}

/// The rules that a write of `data_size` bytes into a texture must meet
/// before the data is staged, in their order: the first one broken, or what
/// the write comes to. The copy that it comes to reads the staging buffer:
/// all of its bytes, one layer after the other as they are staged.
pub open spec fn write_texture_plan(
    global: GlobalView,
    queue_id: QueueId,
    destination: ImageCopyTexture,
    data_size: BufferAddress,
    data_layout: ImageDataLayout,
    size: Extent3d,
) -> Result<TextureWritePlan, TransferError> {
    match texture_copy_aspect(global.textures, destination) {
        Err(error) => Err(error),
        Ok(copy_aspect) => {
            let texture = global.textures[destination.texture];
            let format = texture.desc.format;
            match linear_texture_data(
                data_layout,
                format,
                data_size,
                CopySide::Source,
                format.block_size as u64,
                size,
                false,
            ) {
                Err(error) => Err(error),
                Ok(_) => match texture_copy_range(
                    destination,
                    texture.desc,
                    CopySide::Destination,
                    size,
                ) {
                    Err(error) => Err(error),
                    Ok((extent, layer_count)) => {
                        if !format.copy_dst {
                            Err(TransferError::CopyToForbiddenTextureFormat(format))
                        } else {
                            let layout = staging_layout(
                                global.devices[queue_id].alignments.buffer_copy_pitch,
                                format,
                                data_layout,
                                size,
                            );
                            Ok(
                                TextureWritePlan {
                                    copy: TextureCopyPlan {
                                        selector: copy_selector(texture, destination, size),
                                        base: copy_base(texture, destination, copy_aspect),
                                        extent,
                                        layer_count,
                                        required_bytes: layout.stage_size,
                                        bytes_per_layer: stage_bytes_per_layer(layout) as u64,
                                    },
                                    layout,
                                },
                            )
                        }
                    },
                },
            }
        },
    }
}

/// What the staging of a write into a texture answers: that the device is
/// unknown; nothing to stage for a write of no texels; else the first rule
/// broken, or the contents of the staging buffer.
pub open spec fn write_texture_stage_result(
    global: GlobalView,
    queue_id: QueueId,
    destination: ImageCopyTexture,
    data: Seq<u8>,
    data_layout: ImageDataLayout,
    size: Extent3d,
) -> Result<Option<Seq<u8>>, QueueWriteError> {
    if !global.devices.contains_key(queue_id) {
        Err(QueueWriteError::Queue(DeviceError::Invalid))
    } else if size.is_empty() {
        Ok(None)
    } else {
        match write_texture_plan(
            global,
            queue_id,
            destination,
            data.len() as u64,
            data_layout,
            size,
        ) {
            Err(error) => Err(QueueWriteError::Transfer(error)),
            Ok(plan) => Ok(Some(staged(data, plan.layout))),
        }
    }
}

/// What a write of `data_size` bytes into a texture answers: that the device
/// is unknown; success for a write of no texels; else the first rule broken
/// before the staging, that the staging failed, that the texture is
/// destroyed or is no copy destination, or success.
pub open spec fn write_texture_result(
    global: GlobalView,
    queue_id: QueueId,
    destination: ImageCopyTexture,
    data_size: BufferAddress,
    data_layout: ImageDataLayout,
    size: Extent3d,
    stage: Result<StagingData, DeviceError>,
) -> Result<(), QueueWriteError> {
    if !global.devices.contains_key(queue_id) {
        Err(QueueWriteError::Queue(DeviceError::Invalid))
    } else if size.is_empty() {
        Ok(())
    } else {
        match write_texture_plan(global, queue_id, destination, data_size, data_layout, size) {
            Err(error) => Err(QueueWriteError::Transfer(error)),
            Ok(_) => if stage is Err {
                Err(QueueWriteError::Queue(stage->Err_0))
            } else if destination_texture_status(global.textures, destination.texture) is Err {
                Err(
                    QueueWriteError::Transfer(
                        destination_texture_status(global.textures, destination.texture)->Err_0,
                    ),
                )
            } else {
                Ok(())
            },
        }
    }
}

/// A device once its pending writes have recorded the copy of staged data
/// into a texture: the sub-resources written are put to their use, and the
/// staging buffer is kept until the next submission.
pub open spec fn write_texture_recorded(
    device: DeviceView,
    texture: Texture,
    texture_id: TextureId,
    plan: TextureWritePlan,
    stage: StagingData,
) -> DeviceView {
    let states = device.trackers.textures;
    let state = texture_state_of(states, texture_id);
    let levels = plan.copy.selector.levels.end as nat;
    let destination_raw = texture.raw.unwrap();
    let writes = device.pending_writes.activated().recorded(
        buffer_transitions(seq![staging_barrier(stage)]) + texture_transitions(
            texture_barriers(
                coalesced(
                    pending_texture_replace(
                        state,
                        texture_id,
                        plan.copy.selector,
                        levels,
                        TEXTURE_USES_COPY_DST,
                    ),
                ),
                destination_raw,
            ),
        ) + buffer_to_texture_copies(
            stage.buffer,
            destination_raw,
            buffer_texture_regions(
                stage_data_layout(plan.layout),
                plan.copy,
                plan.copy.layer_count as nat,
            ),
        ),
    );
    DeviceView {
        trackers: TrackerSetView {
            textures: states.insert(
                texture_id,
                texture_replaced(state, plan.copy.selector, levels, TEXTURE_USES_COPY_DST),
            ),
            ..device.trackers
        },
        pending_writes: PendingWritesView {
            temp_resources: writes.temp_resources.push(TempResource::Buffer(stage.buffer)),
            dst_textures: writes.dst_textures.insert(texture_id),
            ..writes
        },
        ..device
    }
}

/// The registries once device `queue_id`, which is registered, has traced a
/// write of `data` into a texture.
pub open spec fn write_texture_traced(
    global: GlobalView,
    queue_id: QueueId,
    destination: ImageCopyTexture,
    data: Seq<u8>,
    data_layout: ImageDataLayout,
    size: Extent3d,
) -> GlobalView {
    GlobalView {
        devices: global.devices.insert(
            queue_id,
            global.devices[queue_id].write_texture_traced(destination, data, data_layout, size),
        ),
        ..global
    }
}

/// The registries after a write into a texture. A device that is registered
/// traces the write, whatever comes of it; beyond that they change only
/// where the write succeeds and has texels: then the pending writes of the
/// device have recorded it, and the next submission is the last to use the
/// texture.
pub open spec fn write_texture_state(
    global: GlobalView,
    queue_id: QueueId,
    destination: ImageCopyTexture,
    data: Seq<u8>,
    data_layout: ImageDataLayout,
    size: Extent3d,
    stage: Result<StagingData, DeviceError>,
) -> GlobalView {
    let data_size = data.len() as u64;
    let traced = write_texture_traced(global, queue_id, destination, data, data_layout, size);
    if !global.devices.contains_key(queue_id) {
        global
    } else if !size.is_empty() && write_texture_result(
        global,
        queue_id,
        destination,
        data_size,
        data_layout,
        size,
        stage,
    ) is Ok {
        let texture = global.textures[destination.texture];
        let device = traced.devices[queue_id];
        GlobalView {
            devices: global.devices.insert(
                queue_id,
                write_texture_recorded(
                    device,
                    texture,
                    destination.texture,
                    write_texture_plan(
                        global,
                        queue_id,
                        destination,
                        data_size,
                        data_layout,
                        size,
                    ).unwrap(),
                    stage.unwrap(),
                ),
            ),
            textures: global.textures.insert(
                destination.texture,
                Texture {
                    life_guard: LifeGuard {
                        submission_index: (device.active_submission_index + 1) as u64,
                        ..texture.life_guard
                    },
                    ..texture
                },
            ),
            ..global
        }
    } else {
        traced
    }
}

impl Global {
    /// Whether the layout of the staging buffer for a write into a texture
    /// can be computed in 32 bits, where the device and the texture are
    /// registered and the write has texels.
    pub open spec fn write_texture_fits(
        &self,
        queue_id: QueueId,
        destination: ImageCopyTexture,
        data_layout: ImageDataLayout,
        size: Extent3d,
    ) -> bool {
        self.devices@.contains_key(queue_id) && self.textures@.contains_key(destination.texture)
            && !size.is_empty() ==> staging_fits(
            self.devices@[queue_id].alignments.buffer_copy_pitch,
            self.textures@[destination.texture].desc.format,
            data_layout,
            size,
        )
    }

    /// Whether the layout of the staging buffer for a write into a texture
    /// can be computed in 32 bits, so that the write can be asked for.
    pub fn queue_write_texture_fits(
        &self,
        queue_id: QueueId,
        destination: &ImageCopyTexture,
        data_layout: &ImageDataLayout,
        size: &Extent3d,
    ) -> (fits: bool)
        requires
            self.wf(),
        ensures
            fits == self.write_texture_fits(queue_id, *destination, *data_layout, *size),
    {
        let device = match self.devices.get(queue_id) {
            Some(device) => device,
            None => {
                return true;
            },
        };
        let texture = match self.textures.get(destination.texture) {
            Some(texture) => texture,
            None => {
                return true;
            },
        };
        if size.has_no_texels() {
            return true;
        }
        check_staging_fits(
            device.alignments.buffer_copy_pitch,
            texture.desc.format,
            data_layout,
            size,
        )
    }

    /// Checks a write into a texture against the rules that come before the
    /// staging.
    fn check_write_texture(
        &self,
        queue_id: QueueId,
        destination: &ImageCopyTexture,
        data_size: BufferAddress,
        data_layout: &ImageDataLayout,
        size: &Extent3d,
    ) -> (res: Result<TextureWritePlan, TransferError>)
        requires
            self.wf(),
            self.devices@.contains_key(queue_id),
            !size.is_empty(),
            self.write_texture_fits(queue_id, *destination, *data_layout, *size),
        ensures
            res == write_texture_plan(
                self@,
                queue_id,
                *destination,
                data_size,
                *data_layout,
                *size,
            ),
            res is Ok ==> {
                &&& res.unwrap().copy.fits(stage_data_layout(res.unwrap().layout))
                &&& res.unwrap().layout.stage_size == res.unwrap().layout.stage_bytes_per_row
                    * res.unwrap().layout.block_rows_in_copy
            },
    {
        let copy_aspect: u8 = match resolve_copy_aspect(&self.textures, destination) {
            Ok(copy_aspect) => copy_aspect,
            Err(error) => {
                return Err(error);
            },
        };
        let texture = self.textures.get(destination.texture).unwrap();
        let format = texture.desc.format;
        match validate_linear_texture_data(
            data_layout,
            format,
            data_size,
            CopySide::Source,
            format.block_size as u64,
            size,
            false,
        ) {
            Ok(_) => {},
            Err(error) => {
                return Err(error);
            },
        }
        let (extent, layer_count) = match validate_texture_copy_range(
            destination,
            &texture.desc,
            CopySide::Destination,
            size,
        ) {
            Ok(found) => found,
            Err(error) => {
                return Err(error);
            },
        };
        if !format.copy_dst {
            return Err(TransferError::CopyToForbiddenTextureFormat(format));
        }
        let (selector, base, _) = match extract_texture_selector(destination, size, &self.textures) {
            Ok(found) => found,
            Err(error) => {
                return Err(error);
            },
        };
        let pitch: u64 = self.devices.get(queue_id).unwrap().alignments.buffer_copy_pitch;
        let layout = plan_staging(pitch, format, data_layout, size);
        proof {
            lemma_mul_upper_bound(
                layout.stage_bytes_per_row as int,
                u32::MAX as int,
                layout.block_rows_per_image as int,
                u32::MAX as int,
            );
            let rows = layout.block_rows_per_image as int;
            let pitch_bytes = layout.stage_bytes_per_row as int;
            let height = layout.height_blocks as int;
            let layers = size.depth_or_array_layers as int;
            assert(layout.block_rows_in_copy == (layers - 1) * rows + height);
            assert((layer_count - 1) * (pitch_bytes * rows) <= pitch_bytes * ((layers - 1) * rows
                + height)) by (nonlinear_arith)
                requires
                    1 <= layer_count <= layers,
                    rows >= 0,
                    pitch_bytes >= 0,
                    height >= 0,
            ;
        }
        let bytes_per_layer: u64 = layout.stage_bytes_per_row as u64
            * layout.block_rows_per_image as u64;
        Ok(
            TextureWritePlan {
                copy: TextureCopyPlan {
                    selector,
                    base,
                    extent,
                    layer_count,
                    required_bytes: layout.stage_size,
                    bytes_per_layer,
                },
                layout,
            },
        )
    }

    /// The contents of the staging buffer for the write of `data`, laid out
    /// as `data_layout`, into `size` texels of the texture of `destination`;
    /// nothing where the write has no texels. Fails as the write would
    /// before it stages.
    pub fn queue_write_texture_stage(
        &self,
        queue_id: QueueId,
        destination: &ImageCopyTexture,
        data: &[u8],
        data_layout: &ImageDataLayout,
        size: &Extent3d,
    ) -> (res: Result<Option<Vec<u8>>, QueueWriteError>)
        requires
            self.wf(),
            self.write_texture_fits(queue_id, *destination, *data_layout, *size),
        ensures
            match write_texture_stage_result(
                self@,
                queue_id,
                *destination,
                data@,
                *data_layout,
                *size,
            ) {
                Err(error) => res is Err && res->Err_0 == error,
                Ok(None) => res is Ok && res->Ok_0 is None,
                Ok(Some(contents)) => res is Ok && res->Ok_0 is Some && res->Ok_0->Some_0@
                    == contents,
            },
    {
        if !self.devices.contains(queue_id) {
            return Err(QueueWriteError::Queue(DeviceError::Invalid));
        }
        if size.has_no_texels() {
            return Ok(None);
        }
        let plan = match self.check_write_texture(
            queue_id,
            destination,
            data.len() as u64,
            data_layout,
            size,
        ) {
            Ok(plan) => plan,
            Err(error) => {
                return Err(QueueWriteError::Transfer(error));
            },
        };
        Ok(Some(stage_texture_data(data, &plan.layout)))
    }

    /// Records, in the pending writes of device `queue_id`, the copy of
    /// `data`, laid out as `data_layout`, into `size` texels of the texture
    /// of `destination`. `stage` is how the staging of the contents that
    /// `queue_write_texture_stage` gives for the write ended; it is looked at
    /// only where the write has texels and meets the rules that come before
    /// the staging. A device that is registered traces the write first.
    /// Beyond that a write that fails changes nothing; neither does a write
    /// of no texels, which succeeds.
    pub fn queue_write_texture(
        &mut self,
        queue_id: QueueId,
        destination: &ImageCopyTexture,
        data: &[u8],
        data_layout: &ImageDataLayout,
        size: &Extent3d,
        stage: Result<StagingData, DeviceError>,
    ) -> (res: Result<(), QueueWriteError>)
        requires
            old(self).wf(),
            old(self).can_submit(queue_id),
            old(self).write_texture_fits(queue_id, *destination, *data_layout, *size),
        ensures
            res == write_texture_result(
                old(self)@,
                queue_id,
                *destination,
                data@.len() as u64,
                *data_layout,
                *size,
                stage,
            ),
            final(self)@ == write_texture_state(
                old(self)@,
                queue_id,
                *destination,
                data@,
                *data_layout,
                *size,
                stage,
            ),
            final(self).wf(),
            final(self).can_submit(queue_id),
    {
        let mut device = match self.devices.remove(queue_id) {
            Some(device) => device,
            None => {
                assert(self.devices.deep() =~= old(self).devices.deep());
                assert(self@ =~= old(self)@);
                return Err(QueueWriteError::Queue(DeviceError::Invalid));
            },
        };
        device.trace_write_texture(destination, data, data_layout, size);
        self.devices.insert(queue_id, device);
        let ghost traced = write_texture_traced(
            old(self)@,
            queue_id,
            *destination,
            data@,
            *data_layout,
            *size,
        );
        proof {
            assert(self.devices.deep() =~= traced.devices);
            assert(self@ =~= traced);
        }
        if size.has_no_texels() {
            return Ok(());
        }
        let data_size: u64 = data.len() as u64;
        let plan = match self.check_write_texture(
            queue_id,
            destination,
            data_size,
            data_layout,
            size,
        ) {
            Ok(plan) => plan,
            Err(error) => {
                return Err(QueueWriteError::Transfer(error));
            },
        };
        let stage = match stage {
            Ok(stage) => stage,
            Err(error) => {
                return Err(QueueWriteError::Queue(error));
            },
        };
        let mut dst = *self.textures.get(destination.texture).unwrap();
        if dst.raw.is_none() {
            return Err(
                QueueWriteError::Transfer(TransferError::InvalidTexture(destination.texture)),
            );
        }
        if !usage_contains(dst.desc.usage, texture_usage_copy_dst()) {
            return Err(
                QueueWriteError::Transfer(
                    TransferError::MissingCopyDstUsageFlag(None, Some(destination.texture)),
                ),
            );
        }
        let mut device = self.devices.remove(queue_id).unwrap();
        let transition = device.trackers.textures.change_replace(
            destination.texture,
            plan.copy.selector,
            texture_uses_copy_dst(),
        );
        dst.life_guard.use_at(device.active_submission_index + 1);

        let stage_layout = ImageDataLayout {
            offset: 0,
            bytes_per_row: if plan.layout.stage_bytes_per_row == 0 {
                None
            } else {
                Some(plan.layout.stage_bytes_per_row)
            },
            rows_per_image: if plan.layout.block_rows_per_image == 0 {
                None
            } else {
                Some(plan.layout.block_rows_per_image)
            },
        };
        let regions = layer_regions(&stage_layout, &plan.copy);
        let mut stage_barriers: Vec<BufferBarrier> = Vec::new();
        stage_barriers.push(
            BufferBarrier {
                buffer: stage.buffer,
                usage: UsageRange { start: buffer_uses_map_write(), end: buffer_uses_copy_src() },
            },
        );
        let mut barriers: Vec<TextureBarrier> = Vec::new();
        push_texture_barriers(&mut barriers, &transition, &dst);
        let dst_raw = dst.raw.unwrap();

        device.pending_writes.activate();
        device.pending_writes.command_encoder.transition_buffers(&stage_barriers);
        device.pending_writes.command_encoder.transition_textures(&barriers);
        device.pending_writes.command_encoder.copy_buffer_to_texture(
            stage.buffer,
            dst_raw,
            &regions,
        );
        device.pending_writes.consume(stage);
        device.pending_writes.dst_textures.insert(destination.texture);

        let ghost device_after = device@;
        self.textures.insert(destination.texture, dst);
        self.devices.insert(queue_id, device);
        proof {
            let target_device = write_texture_recorded(
                traced.devices[queue_id],
                old(self)@.textures[destination.texture],
                destination.texture,
                plan,
                stage,
            );
            assert(stage_barriers@ =~= seq![staging_barrier(stage)]);
            assert(device_after.pending_writes.command_encoder.commands
                =~= target_device.pending_writes.command_encoder.commands);
            assert(device_after.pending_writes =~= target_device.pending_writes);
            assert(device_after.trackers =~= target_device.trackers);
            assert(device_after =~= target_device);
            assert(self.devices.deep() =~= old(self).devices.deep().insert(
                queue_id,
                device_after,
            ));
            assert(self@ =~= write_texture_state(
                old(self)@,
                queue_id,
                *destination,
                data@,
                *data_layout,
                *size,
                Ok(stage),
            ));
        }
        Ok(())
    }
}

} // verus!
