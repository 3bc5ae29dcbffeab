//! What the library hands to the backend: copy regions, barriers and the
//! commands that an encoder records.

use crate::types::{BufferAddress, ImageDataLayout, Origin3d, RawHandle};
use vstd::prelude::*;

verus! {

/// Internal buffer use: mapped for writing.
pub const BUFFER_USES_MAP_WRITE: u32 = 2;

/// Internal buffer use: source of a copy.
pub const BUFFER_USES_COPY_SRC: u32 = 4;

/// Internal buffer use: destination of a copy.
pub const BUFFER_USES_COPY_DST: u32 = 8;

/// Internal texture use: source of a copy.
pub const TEXTURE_USES_COPY_SRC: u32 = 1;

/// Internal texture use: destination of a copy.
pub const TEXTURE_USES_COPY_DST: u32 = 2;

/// A change of use: from `start` to `end`.
#[derive(Clone, Copy, Debug, PartialEq, Eq)]
pub struct UsageRange {
    pub start: u32,
    pub end: u32,
}

/// One region of a copy between two buffers.
#[derive(Clone, Copy, Debug, PartialEq, Eq)]
pub struct BufferCopy {
    pub src_offset: BufferAddress,
    pub dst_offset: BufferAddress,
    /// The number of bytes, never zero.
    pub size: BufferAddress,
}

/// Where in a texture a copy region starts.
#[derive(Clone, Copy, Debug, PartialEq, Eq)]
pub struct TextureCopyBase {
    pub mip_level: u32,
    pub array_layer: u32,
    /// Origin within the layer; `z` is 0 unless the texture is 3D.
    pub origin: Origin3d,
    /// The aspects copied, a set of `ASPECT_*` flags.
    pub aspect: u8,
}

/// Size of a copy region within one layer.
#[derive(Clone, Copy, Debug, PartialEq, Eq)]
pub struct CopyExtent {
    pub width: u32,
    pub height: u32,
    pub depth: u32,
}

/// One region of a copy between two textures.
#[derive(Clone, Copy, Debug, PartialEq, Eq)]
pub struct TextureCopy {
    pub src_base: TextureCopyBase,
    pub dst_base: TextureCopyBase,
    pub size: CopyExtent,
}

/// One region of a copy between a buffer and a texture.
#[derive(Clone, Copy, Debug, PartialEq, Eq)]
pub struct BufferTextureCopy {
    pub buffer_layout: ImageDataLayout,
    pub texture_base: TextureCopyBase,
    pub size: CopyExtent,
}

/// A change of use of a buffer, to be inserted before the commands that
/// follow.
#[derive(Clone, Copy, Debug, PartialEq, Eq)]
pub struct BufferBarrier {
    pub buffer: RawHandle,
    pub usage: UsageRange,
}

/// The mip levels and array layers that a barrier covers.
#[derive(Clone, Copy, Debug, PartialEq, Eq)]
pub struct ImageSubresourceRange {
    pub base_mip_level: u32,
    /// `None` where the range holds no level.
    pub mip_level_count: Option<u32>,
    pub base_array_layer: u32,
    /// `None` where the range holds no layer.
    pub array_layer_count: Option<u32>,
}

/// A change of use of a range of a texture's sub-resources.
#[derive(Clone, Copy, Debug, PartialEq, Eq)]
pub struct TextureBarrier {
    pub texture: RawHandle,
    pub range: ImageSubresourceRange,
    pub usage: UsageRange,
}

/// One command, as an encoder records it. A call that the backend takes
/// with several barriers or regions is recorded as one command for each, in
/// their order.
#[derive(Clone, Copy, Debug, PartialEq, Eq)]
pub enum Command {
    /// Change the use of a buffer.
    TransitionBuffer(BufferBarrier),
    /// Change the use of some sub-resources of a texture.
    TransitionTexture(TextureBarrier),
    /// Fill the bytes from `start` up to `end` of a buffer with `value`.
    FillBuffer { buffer: RawHandle, start: BufferAddress, end: BufferAddress, value: u8 },
    /// Copy a region from buffer `src` to buffer `dst`.
    CopyBufferToBuffer { src: RawHandle, dst: RawHandle, region: BufferCopy },
    /// Copy a region from buffer `src` to texture `dst`.
    CopyBufferToTexture { src: RawHandle, dst: RawHandle, region: BufferTextureCopy },
    /// Copy a region from texture `src`, which is in use `src_usage`, to
    /// buffer `dst`.
    CopyTextureToBuffer { src: RawHandle, src_usage: u32, dst: RawHandle, region: BufferTextureCopy },
    /// Copy a region from texture `src`, which is in use `src_usage`, to
    /// texture `dst`.
    CopyTextureToTexture { src: RawHandle, src_usage: u32, dst: RawHandle, copy: TextureCopy },
}

/// The commands that change the use of a buffer, one for each of `barriers`.
pub open spec fn buffer_transitions(barriers: Seq<BufferBarrier>) -> Seq<Command> {
    barriers.map_values(|barrier: BufferBarrier| Command::TransitionBuffer(barrier))
}

/// The commands that change the use of a texture, one for each of
/// `barriers`.
pub open spec fn texture_transitions(barriers: Seq<TextureBarrier>) -> Seq<Command> {
    barriers.map_values(|barrier: TextureBarrier| Command::TransitionTexture(barrier))
}

/// The commands that copy each of `regions` from buffer `src` to buffer
/// `dst`.
pub open spec fn buffer_copies(src: RawHandle, dst: RawHandle, regions: Seq<BufferCopy>) -> Seq<
    Command,
> {
    regions.map_values(|region: BufferCopy| Command::CopyBufferToBuffer { src, dst, region })
}

/// The commands that copy each of `regions` from buffer `src` to texture
/// `dst`.
pub open spec fn buffer_to_texture_copies(
    src: RawHandle,
    dst: RawHandle,
    regions: Seq<BufferTextureCopy>,
) -> Seq<Command> {
    regions.map_values(
        |region: BufferTextureCopy| Command::CopyBufferToTexture { src, dst, region },
    )
}

/// The commands that copy each of `regions` from texture `src`, in use
/// `src_usage`, to buffer `dst`.
pub open spec fn texture_to_buffer_copies(
    src: RawHandle,
    src_usage: u32,
    dst: RawHandle,
    regions: Seq<BufferTextureCopy>,
) -> Seq<Command> {
    regions.map_values(
        |region: BufferTextureCopy| Command::CopyTextureToBuffer { src, src_usage, dst, region },
    )
}

/// The commands that copy each of `regions` from texture `src`, in use
/// `src_usage`, to texture `dst`.
pub open spec fn texture_copies(
    src: RawHandle,
    src_usage: u32,
    dst: RawHandle,
    regions: Seq<TextureCopy>,
) -> Seq<Command> {
    regions.map_values(
        |copy: TextureCopy| Command::CopyTextureToTexture { src, src_usage, dst, copy },
    )
}

/// A command pool of the backend, as far as the library drives it: whether
/// it is encoding, and what it has recorded since it began.
#[derive(Debug)]
pub struct RawEncoder {
    pub is_encoding: bool,
    pub commands: Vec<Command>,
}

/// What is known of a command pool.
pub struct RawEncoderView {
    pub is_encoding: bool,
    pub commands: Seq<Command>,
}

impl View for RawEncoder {
    type V = RawEncoderView;

    open spec fn view(&self) -> RawEncoderView {
        RawEncoderView { is_encoding: self.is_encoding, commands: self.commands@ }
    }
}

/// A command buffer of the backend: the commands of one encoding.
#[derive(Debug)]
pub struct RawCommandBuffer {
    pub commands: Vec<Command>,
}

impl View for RawCommandBuffer {
    type V = Seq<Command>;

    open spec fn view(&self) -> Seq<Command> {
        self.commands@
    }
}

/// The commands of each of some command buffers.
pub open spec fn command_lists(buffers: Seq<RawCommandBuffer>) -> Seq<Seq<Command>> {
    buffers.map_values(|buffer: RawCommandBuffer| buffer@)
}

impl RawEncoder {
    /// A command pool that is not encoding.
    pub fn new() -> (encoder: Self)
        ensures
            encoder@ == (RawEncoderView { is_encoding: false, commands: Seq::empty() }),
    {
        RawEncoder { is_encoding: false, commands: Vec::new() }
    }

    /// Begins an encoding.
    pub fn begin_encoding(&mut self)
        requires
            !old(self).is_encoding,
        ensures
            final(self)@ == (RawEncoderView { is_encoding: true, commands: Seq::empty() }),
    {
        self.is_encoding = true;
        self.commands = Vec::new();
    }

    /// Gives up the encoding, if there is one, and what it recorded.
    pub fn discard_encoding(&mut self)
        ensures
            final(self)@ == (RawEncoderView { is_encoding: false, commands: Seq::empty() }),
    {
        self.is_encoding = false;
        self.commands = Vec::new();
    }

    /// Ends the encoding and returns what it recorded as a command buffer.
    pub fn end_encoding(&mut self) -> (buffer: RawCommandBuffer)
        requires
            old(self).is_encoding,
        ensures
            buffer@ == old(self)@.commands,
            final(self)@ == (RawEncoderView { is_encoding: false, commands: Seq::empty() }),
    {
        let mut commands: Vec<Command> = Vec::new();
        std::mem::swap(&mut commands, &mut self.commands);
        self.is_encoding = false;
        RawCommandBuffer { commands }
    }

    /// Records one command.
    pub fn record(&mut self, command: Command)
        requires
            old(self).is_encoding,
        ensures
            final(self)@ == (RawEncoderView {
                is_encoding: true,
                commands: old(self)@.commands.push(command),
            }),
    {
        self.commands.push(command);
    }

    /// Records a change of use for each of `barriers`, in their order.
    pub fn transition_buffers(&mut self, barriers: &Vec<BufferBarrier>)
        requires
            old(self).is_encoding,
        ensures
            final(self)@ == (RawEncoderView {
                is_encoding: true,
                commands: old(self)@.commands + buffer_transitions(barriers@),
            }),
    {
        let mut i: usize = 0;
        assert(self.commands@ =~= old(self)@.commands + buffer_transitions(barriers@.take(0)));
        while i < barriers.len()
            invariant
                i <= barriers.len(),
                self.is_encoding,
                self.commands@ == old(self)@.commands + buffer_transitions(
                    barriers@.take(i as int),
                ),
            decreases barriers.len() - i,
        {
            self.commands.push(Command::TransitionBuffer(barriers[i]));
            i += 1;
            assert(self.commands@ =~= old(self)@.commands + buffer_transitions(
                barriers@.take(i as int),
            ));
        }
        assert(barriers@.take(i as int) =~= barriers@);
    }

    /// Records a change of use for each of `barriers`, in their order.
    pub fn transition_textures(&mut self, barriers: &Vec<TextureBarrier>)
        requires
            old(self).is_encoding,
        ensures
            final(self)@ == (RawEncoderView {
                is_encoding: true,
                commands: old(self)@.commands + texture_transitions(barriers@),
            }),
    {
        let mut i: usize = 0;
        assert(self.commands@ =~= old(self)@.commands + texture_transitions(barriers@.take(0)));
        while i < barriers.len()
            invariant
                i <= barriers.len(),
                self.is_encoding,
                self.commands@ == old(self)@.commands + texture_transitions(
                    barriers@.take(i as int),
                ),
            decreases barriers.len() - i,
        {
            self.commands.push(Command::TransitionTexture(barriers[i]));
            i += 1;
            assert(self.commands@ =~= old(self)@.commands + texture_transitions(
                barriers@.take(i as int),
            ));
        }
        assert(barriers@.take(i as int) =~= barriers@);
    }

    /// Records the fill of the bytes from `start` up to `end` of `buffer`
    /// with `value`.
    pub fn fill_buffer(
        &mut self,
        buffer: RawHandle,
        start: BufferAddress,
        end: BufferAddress,
        value: u8,
    )
        requires
            old(self).is_encoding,
        ensures
            final(self)@ == (RawEncoderView {
                is_encoding: true,
                commands: old(self)@.commands.push(
                    Command::FillBuffer { buffer, start, end, value },
                ),
            }),
    {
        self.commands.push(Command::FillBuffer { buffer, start, end, value });
    }

    /// Records a copy from buffer `src` to buffer `dst` for each of
    /// `regions`, in their order.
    pub fn copy_buffer_to_buffer(&mut self, src: RawHandle, dst: RawHandle, regions: &Vec<BufferCopy>)
        requires
            old(self).is_encoding,
        ensures
            final(self)@ == (RawEncoderView {
                is_encoding: true,
                commands: old(self)@.commands + buffer_copies(src, dst, regions@),
            }),
    {
        let mut i: usize = 0;
        assert(self.commands@ =~= old(self)@.commands + buffer_copies(
            src,
            dst,
            regions@.take(0),
        ));
        while i < regions.len()
            invariant
                i <= regions.len(),
                self.is_encoding,
                self.commands@ == old(self)@.commands + buffer_copies(
                    src,
                    dst,
                    regions@.take(i as int),
                ),
            decreases regions.len() - i,
        {
            self.commands.push(Command::CopyBufferToBuffer { src, dst, region: regions[i] });
            i += 1;
            assert(self.commands@ =~= old(self)@.commands + buffer_copies(
                src,
                dst,
                regions@.take(i as int),
            ));
        }
        assert(regions@.take(i as int) =~= regions@);
    }

    /// Records a copy from buffer `src` to texture `dst` for each of
    /// `regions`, in their order.
    pub fn copy_buffer_to_texture(
        &mut self,
        src: RawHandle,
        dst: RawHandle,
        regions: &Vec<BufferTextureCopy>,
    )
        requires
            old(self).is_encoding,
        ensures
            final(self)@ == (RawEncoderView {
                is_encoding: true,
                commands: old(self)@.commands + buffer_to_texture_copies(src, dst, regions@),
            }),
    {
        let mut i: usize = 0;
        assert(self.commands@ =~= old(self)@.commands + buffer_to_texture_copies(
            src,
            dst,
            regions@.take(0),
        ));
        while i < regions.len()
            invariant
                i <= regions.len(),
                self.is_encoding,
                self.commands@ == old(self)@.commands + buffer_to_texture_copies(
                    src,
                    dst,
                    regions@.take(i as int),
                ),
            decreases regions.len() - i,
        {
            self.commands.push(Command::CopyBufferToTexture { src, dst, region: regions[i] });
            i += 1;
            assert(self.commands@ =~= old(self)@.commands + buffer_to_texture_copies(
                src,
                dst,
                regions@.take(i as int),
            ));
        }
        assert(regions@.take(i as int) =~= regions@);
    }

    /// Records a copy from texture `src`, in use `src_usage`, to buffer
    /// `dst` for each of `regions`, in their order.
    pub fn copy_texture_to_buffer(
        &mut self,
        src: RawHandle,
        src_usage: u32,
        dst: RawHandle,
        regions: &Vec<BufferTextureCopy>,
    )
        requires
            old(self).is_encoding,
        ensures
            final(self)@ == (RawEncoderView {
                is_encoding: true,
                commands: old(self)@.commands + texture_to_buffer_copies(
                    src,
                    src_usage,
                    dst,
                    regions@,
                ),
            }),
    {
        let mut i: usize = 0;
        assert(self.commands@ =~= old(self)@.commands + texture_to_buffer_copies(
            src,
            src_usage,
            dst,
            regions@.take(0),
        ));
        while i < regions.len()
            invariant
                i <= regions.len(),
                self.is_encoding,
                self.commands@ == old(self)@.commands + texture_to_buffer_copies(
                    src,
                    src_usage,
                    dst,
                    regions@.take(i as int),
                ),
            decreases regions.len() - i,
        {
            self.commands.push(
                Command::CopyTextureToBuffer { src, src_usage, dst, region: regions[i] },
            );
            i += 1;
            assert(self.commands@ =~= old(self)@.commands + texture_to_buffer_copies(
                src,
                src_usage,
                dst,
                regions@.take(i as int),
            ));
        }
        assert(regions@.take(i as int) =~= regions@);
    }

    /// Records a copy from texture `src`, in use `src_usage`, to texture
    /// `dst` for each of `regions`, in their order.
    pub fn copy_texture_to_texture(
        &mut self,
        src: RawHandle,
        src_usage: u32,
        dst: RawHandle,
        regions: &Vec<TextureCopy>,
    )
        requires
            old(self).is_encoding,
        ensures
            final(self)@ == (RawEncoderView {
                is_encoding: true,
                commands: old(self)@.commands + texture_copies(src, src_usage, dst, regions@),
            }),
    {
        let mut i: usize = 0;
        assert(self.commands@ =~= old(self)@.commands + texture_copies(
            src,
            src_usage,
            dst,
            regions@.take(0),
        ));
        while i < regions.len()
            invariant
                i <= regions.len(),
                self.is_encoding,
                self.commands@ == old(self)@.commands + texture_copies(
                    src,
                    src_usage,
                    dst,
                    regions@.take(i as int),
                ),
            decreases regions.len() - i,
        {
            self.commands.push(
                Command::CopyTextureToTexture { src, src_usage, dst, copy: regions[i] },
            );
            i += 1;
            assert(self.commands@ =~= old(self)@.commands + texture_copies(
                src,
                src_usage,
                dst,
                regions@.take(i as int),
            ));
        }
        assert(regions@.take(i as int) =~= regions@);
    }
}

} // verus!
