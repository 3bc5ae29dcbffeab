//! The registries of all resources.

use crate::command::{CommandBuffer, CommandBufferView};
use crate::device::{Device, DeviceView};
use crate::resource::{
    BindGroup, BindGroupView, Buffer, BufferView, RenderBundle, RenderBundleView, Stateless,
    SwapChain, Texture,
};
use crate::storage::Storage;
use vstd::prelude::*;

verus! {

/// Every resource that is alive, by kind and identifier.
#[derive(Debug)]
pub struct Global {
    pub devices: Storage<Device>,
    pub swap_chains: Storage<SwapChain>,
    pub command_buffers: Storage<CommandBuffer>,
    pub render_bundles: Storage<RenderBundle>,
    pub bind_groups: Storage<BindGroup>,
    pub compute_pipelines: Storage<Stateless>,
    pub render_pipelines: Storage<Stateless>,
    pub buffers: Storage<Buffer>,
    pub textures: Storage<Texture>,
    pub texture_views: Storage<Stateless>,
    pub samplers: Storage<Stateless>,
    pub query_sets: Storage<Stateless>,
}

/// What is known of the resources that are alive.
#[verifier::ext_equal]
pub struct GlobalView {
    pub devices: Map<u32, DeviceView>,
    pub swap_chains: Map<u32, SwapChain>,
    pub command_buffers: Map<u32, CommandBufferView>,
    pub render_bundles: Map<u32, RenderBundleView>,
    pub bind_groups: Map<u32, BindGroupView>,
    pub compute_pipelines: Map<u32, Stateless>,
    pub render_pipelines: Map<u32, Stateless>,
    pub buffers: Map<u32, BufferView>,
    pub textures: Map<u32, Texture>,
    pub texture_views: Map<u32, Stateless>,
    pub samplers: Map<u32, Stateless>,
    pub query_sets: Map<u32, Stateless>,
}

impl View for Global {
    type V = GlobalView;

    open spec fn view(&self) -> GlobalView {
        GlobalView {
            devices: self.devices.deep(),
            swap_chains: self.swap_chains@,
            command_buffers: self.command_buffers.deep(),
            render_bundles: self.render_bundles.deep(),
            bind_groups: self.bind_groups.deep(),
            compute_pipelines: self.compute_pipelines@,
            render_pipelines: self.render_pipelines@,
            buffers: self.buffers.deep(),
            textures: self.textures@,
            texture_views: self.texture_views@,
            samplers: self.samplers@,
            query_sets: self.query_sets@,
        }
    }
}

impl Global {
    /// Every buffer, texture, command buffer and device is well-formed.
    pub open spec fn wf(&self) -> bool {
        &&& forall|id: u32| #[trigger]
            self.buffers@.contains_key(id) ==> self.buffers@[id]@.wf()
        &&& forall|id: u32| #[trigger]
            self.textures@.contains_key(id) ==> self.textures@[id].wf()
        &&& forall|id: u32| #[trigger]
            self.command_buffers@.contains_key(id) ==> self.command_buffers@[id].wf()
        &&& forall|id: u32| #[trigger] self.devices@.contains_key(id) ==> self.devices@[id].wf()
    }

    /// Registries that hold nothing.
    pub fn new() -> (global: Self)
        ensures
            global.wf(),
            global@ == (GlobalView {
                devices: Map::empty(),
                swap_chains: Map::empty(),
                command_buffers: Map::empty(),
                render_bundles: Map::empty(),
                bind_groups: Map::empty(),
                compute_pipelines: Map::empty(),
                render_pipelines: Map::empty(),
                buffers: Map::empty(),
                textures: Map::empty(),
                texture_views: Map::empty(),
                samplers: Map::empty(),
                query_sets: Map::empty(),
            }),
    {
        let global = Global {
            devices: Storage::new(),
            swap_chains: Storage::new(),
            command_buffers: Storage::new(),
            render_bundles: Storage::new(),
            bind_groups: Storage::new(),
            compute_pipelines: Storage::new(),
            render_pipelines: Storage::new(),
            buffers: Storage::new(),
            textures: Storage::new(),
            texture_views: Storage::new(),
            samplers: Storage::new(),
            query_sets: Storage::new(),
        };
        assert(global@.devices =~= Map::<u32, DeviceView>::empty());
        assert(global@.command_buffers =~= Map::<u32, CommandBufferView>::empty());
        assert(global@.buffers =~= Map::<u32, BufferView>::empty());
        assert(global@.render_bundles =~= Map::<u32, RenderBundleView>::empty());
        assert(global@.bind_groups =~= Map::<u32, BindGroupView>::empty());
        global
    }
}

} // verus!
