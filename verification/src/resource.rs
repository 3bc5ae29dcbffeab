//! The resources that transfers move data between, and what the library
//! keeps of each.

use crate::memory_init::MemoryInitTracker;
use crate::memory_init::{ranges_wf, AddressRange};
use crate::types::{
    BufferAddress, RawHandle, SubmissionIndex, TextureDescriptor, TextureId,
};
use vstd::prelude::*;

verus! {

/// What keeps a resource alive: the user's reference and the last
/// submission that uses it.
#[derive(Clone, Copy, Debug, PartialEq, Eq)]
pub struct LifeGuard {
    /// Whether the user still holds a reference to the resource.
    pub ref_count: bool,
    /// The last submission that uses the resource.
    pub submission_index: SubmissionIndex,
}

impl LifeGuard {
    /// The guard of a resource that the user holds and no submission uses.
    pub fn new() -> (guard: Self)
        ensures
            guard == (LifeGuard { ref_count: true, submission_index: 0 }),
    {
        LifeGuard { ref_count: true, submission_index: 0 }
    }

    /// Records that submission `submit_index` uses the resource, and says
    /// whether the user still holds a reference to it.
    pub fn use_at(&mut self, submit_index: SubmissionIndex) -> (still_referenced: bool)
        ensures
            final(self).submission_index == submit_index,
            final(self).ref_count == old(self).ref_count,
            still_referenced == old(self).ref_count,
    {
        self.submission_index = submit_index;
        self.ref_count
    }
}

/// Whether a buffer is mapped into host memory.
#[derive(Clone, Copy, Debug, PartialEq, Eq)]
pub enum BufferMapState {
    /// Not mapped.
    Idle,
    /// Mapped, the given bytes from the given offset.
    Active { offset: BufferAddress, size: BufferAddress },
}

/// A buffer.
#[derive(Debug, PartialEq, Eq)]
pub struct Buffer {
    /// The backend's buffer; absent once the buffer is destroyed.
    pub raw: Option<RawHandle>,
    /// The declared usages, a set of `BUFFER_USAGE_*` flags.
    pub usage: u32,
    /// The size in bytes.
    pub size: BufferAddress,
    pub life_guard: LifeGuard,
    pub map_state: BufferMapState,
    /// The bytes that were never written.
    pub initialization_status: MemoryInitTracker,
}

/// What is known of a buffer.
#[verifier::ext_equal]
pub struct BufferView {
    pub raw: Option<RawHandle>,
    pub usage: u32,
    pub size: BufferAddress,
    pub life_guard: LifeGuard,
    pub map_state: BufferMapState,
    /// The ranges of bytes that were never written.
    pub uninitialized: Seq<AddressRange>,
}

impl View for Buffer {
    type V = BufferView;

    open spec fn view(&self) -> BufferView {
        BufferView {
            raw: self.raw,
            usage: self.usage,
            size: self.size,
            life_guard: self.life_guard,
            map_state: self.map_state,
            uninitialized: self.initialization_status.uninitialized_ranges@,
        }
    }
}

impl BufferView {
    /// The uninitialized ranges of a buffer are sorted, disjoint and on word
    /// bounds.
    pub open spec fn wf(self) -> bool {
        ranges_wf(self.uninitialized)
    }
}

impl Buffer {
    /// A buffer of `size` bytes, a multiple of the word size, none of them
    /// initialized.
    pub fn new(raw: RawHandle, usage: u32, size: BufferAddress) -> (buffer: Self)
        requires
            size % 4 == 0,
        ensures
            buffer@.wf(),
            buffer@.raw == Some(raw),
            buffer@.usage == usage,
            buffer@.size == size,
            buffer@.life_guard == (LifeGuard { ref_count: true, submission_index: 0 }),
            buffer@.map_state == BufferMapState::Idle,
            buffer@.uninitialized == if size == 0 {
                Seq::<AddressRange>::empty()
            } else {
                seq![AddressRange { start: 0, end: size }]
            },
    {
        Buffer {
            raw: Some(raw),
            usage,
            size,
            life_guard: LifeGuard::new(),
            map_state: BufferMapState::Idle,
            initialization_status: MemoryInitTracker::new(size),
        }
    }
}

/// A texture.
#[derive(Clone, Copy, Debug, PartialEq, Eq)]
pub struct Texture {
    /// The backend's texture; absent once the texture is destroyed.
    pub raw: Option<RawHandle>,
    pub desc: TextureDescriptor,
    pub life_guard: LifeGuard,
}

impl Texture {
    /// The description of a texture is well-formed.
    pub open spec fn wf(&self) -> bool {
        self.desc.wf()
    }
}

/// A resource of which only the life time is tracked: a texture view, a
/// sampler, a pipeline or a query set.
#[derive(Clone, Copy, Debug, PartialEq, Eq)]
pub struct Stateless {
    pub life_guard: LifeGuard,
}

/// A bind group, which holds texture views and samplers alive.
#[derive(Debug, PartialEq, Eq)]
pub struct BindGroup {
    pub life_guard: LifeGuard,
    pub used_views: Vec<u32>,
    pub used_samplers: Vec<u32>,
}

/// What is known of a bind group.
#[verifier::ext_equal]
pub struct BindGroupView {
    pub life_guard: LifeGuard,
    pub used_views: Seq<u32>,
    pub used_samplers: Seq<u32>,
}

impl View for BindGroup {
    type V = BindGroupView;

    open spec fn view(&self) -> BindGroupView {
        BindGroupView {
            life_guard: self.life_guard,
            used_views: self.used_views@,
            used_samplers: self.used_samplers@,
        }
    }
}

/// A render bundle, which holds pipelines alive.
#[derive(Debug, PartialEq, Eq)]
pub struct RenderBundle {
    pub life_guard: LifeGuard,
    pub used_compute_pipes: Vec<u32>,
    pub used_render_pipes: Vec<u32>,
}

/// What is known of a render bundle.
#[verifier::ext_equal]
pub struct RenderBundleView {
    pub life_guard: LifeGuard,
    pub used_compute_pipes: Seq<u32>,
    pub used_render_pipes: Seq<u32>,
}

impl View for RenderBundle {
    type V = RenderBundleView;

    open spec fn view(&self) -> RenderBundleView {
        RenderBundleView {
            life_guard: self.life_guard,
            used_compute_pipes: self.used_compute_pipes@,
            used_render_pipes: self.used_render_pipes@,
        }
    }
}

/// A swap chain.
#[derive(Clone, Copy, Debug, PartialEq, Eq)]
pub struct SwapChain {
    /// The texture acquired for the frame in flight, if any.
    pub acquired_texture: Option<TextureId>,
    /// The last submission that renders to the swap chain.
    pub active_submission_index: SubmissionIndex,
}

} // verus!
