//! The submission of command buffers to the queue of a device.

use crate::resource::{
    BindGroup, BindGroupView, Buffer, BufferMapState, BufferView, LifeGuard, RenderBundle,
    RenderBundleView, Stateless, SwapChain, Texture,
};
use crate::storage::Storage;
use crate::command::{CommandBufferView, CommandEncoderStatus, TrackerSetView};
use crate::device::{
    done_count, encoder_views, resources_of, ActiveSubmissionView, Device, DeviceError,
    DeviceView, EncoderInFlight, EncoderInFlightView, PendingWritesView, SuspectedResourcesView,
    TempResource, WaitIdleError,
};
use crate::hal::{
    buffer_transitions, texture_transitions, BufferBarrier, Command, RawCommandBuffer,
    RawEncoderView, TextureBarrier,
};
use crate::hub::{Global, GlobalView};
use crate::outside::SignalList;
use crate::queue::{
    filled, filling_begun, gathered, InitFilling, InitGathering, QueueSubmitError,
    RequiredBufferInits, RequiredBufferInitsView,
};
use crate::types::QueueId;
use crate::track::{
    coalesced, index_limit, merged, pending_buffer_merge, pending_texture_merge, textures_merged,
    tracked_ids, PendingBufferTransition, PendingTextureTransition,
};
use crate::types::{BufferId, SubmissionIndex, SwapChainId, TextureId};
use vstd::prelude::*;

verus! {

/// A life guard once submission `submit_index` uses its resource.
pub open spec fn used_at(guard: LifeGuard, submit_index: SubmissionIndex) -> LifeGuard {
    LifeGuard { submission_index: submit_index, ..guard }
}

/// The resources once submission `submit_index` uses those of `ids` that are
/// registered.
pub open spec fn stateless_touched(
    resources: Map<u32, Stateless>,
    ids: Seq<u32>,
    submit_index: SubmissionIndex,
) -> Map<u32, Stateless> {
    Map::new(
        |id: u32| resources.contains_key(id),
        |id: u32|
            if ids.contains(id) {
                Stateless { life_guard: used_at(resources[id].life_guard, submit_index) }
            } else {
                resources[id]
            },
    )
}

/// A value is among the first `i + 1` of a sequence if it is among the first
/// `i` or is the one at `i`.
pub proof fn lemma_take_contains<T>(s: Seq<T>, i: int, value: T)
    requires
        0 <= i < s.len(),
    ensures
        s.take(i + 1).contains(value) <==> s.take(i).contains(value) || s[i] == value,
{
    let longer = s.take(i + 1);
    let shorter = s.take(i);
    if longer.contains(value) {
        let j = choose|j: int| 0 <= j < longer.len() && #[trigger] longer[j] == value;
        if j < i {
            assert(shorter[j] == value);
        }
    }
    if shorter.contains(value) {
        let j = choose|j: int| 0 <= j < shorter.len() && #[trigger] shorter[j] == value;
        assert(longer[j] == value);
    }
    if s[i] == value {
        assert(longer[i] == value);
    }
}

/// The suspicions once those of `ids` that are registered and that the user
/// no longer refers to are added, in their order.
pub open spec fn stateless_suspected(
    resources: Map<u32, Stateless>,
    suspected: Seq<u32>,
    ids: Seq<u32>,
) -> Seq<u32>
    decreases ids.len(),
{
    if ids.len() == 0 {
        suspected
    } else {
        let before = stateless_suspected(resources, suspected, ids.drop_last());
        let id = ids.last();
        if resources.contains_key(id) && !resources[id].life_guard.ref_count {
            before.push(id)
        } else {
            before
        }
    }
}

/// Records that submission `submit_index` uses the resources `ids`.
pub fn touch_stateless(
    resources: &mut Storage<Stateless>,
    ids: &Vec<u32>,
    submit_index: SubmissionIndex,
)
    ensures
        final(resources)@ == stateless_touched(old(resources)@, ids@, submit_index),
{
    let mut i: usize = 0;
    assert(resources@ =~= stateless_touched(old(resources)@, ids@.take(0), submit_index));
    while i < ids.len()
        invariant
            i <= ids.len(),
            resources@ == stateless_touched(old(resources)@, ids@.take(i as int), submit_index),
        decreases ids.len() - i,
    {
        let id = ids[i];
        match resources.get(id) {
            Some(resource) => {
                let mut resource = *resource;
                resource.life_guard.use_at(submit_index);
                resources.insert(id, resource);
            },
            None => {},
        }
        proof {
            assert forall|other: u32|
                ids@.take(i as int + 1).contains(other) <==> ids@.take(i as int).contains(other)
                    || other == id by {
                lemma_take_contains(ids@, i as int, other);
            }
            assert(resources@ =~= stateless_touched(
                old(resources)@,
                ids@.take(i as int + 1),
                submit_index,
            ));
        }
        i += 1;
    }
    assert(ids@.take(i as int) =~= ids@);
}

/// Records that submission `submit_index` uses the resources `ids`, and
/// suspects those that the user no longer refers to.
pub fn mark_stateless(
    resources: &mut Storage<Stateless>,
    ids: &Vec<u32>,
    submit_index: SubmissionIndex,
    suspected: &mut Vec<u32>,
)
    ensures
        final(resources)@ == stateless_touched(old(resources)@, ids@, submit_index),
        final(suspected)@ == stateless_suspected(old(resources)@, old(suspected)@, ids@),
{
    let mut i: usize = 0;
    assert(ids@.take(0) =~= Seq::empty());
    assert(resources@ =~= stateless_touched(old(resources)@, ids@.take(0), submit_index));
    while i < ids.len()
        invariant
            i <= ids.len(),
            resources@ == stateless_touched(old(resources)@, ids@.take(i as int), submit_index),
            suspected@ == stateless_suspected(
                old(resources)@,
                old(suspected)@,
                ids@.take(i as int),
            ),
        decreases ids.len() - i,
    {
        let id = ids[i];
        proof {
            let upto = ids@.take(i as int + 1);
            assert(upto.drop_last() =~= ids@.take(i as int));
            assert(upto.last() == id);
        }
        match resources.get(id) {
            Some(resource) => {
                let mut resource = *resource;
                if !resource.life_guard.use_at(submit_index) {
                    suspected.push(id);
                }
                resources.insert(id, resource);
            },
            None => {},
        }
        proof {
            assert forall|other: u32|
                ids@.take(i as int + 1).contains(other) <==> ids@.take(i as int).contains(other)
                    || other == id by {
                lemma_take_contains(ids@, i as int, other);
            }
            assert(resources@ =~= stateless_touched(
                old(resources)@,
                ids@.take(i as int + 1),
                submit_index,
            ));
        }
        i += 1;
    }
    assert(ids@.take(i as int) =~= ids@);
}

/// Where the marking of the swap chains of a command buffer stands.
#[verifier::ext_equal]
pub struct SwapChainMarking {
    pub swap_chains: Map<u32, SwapChain>,
    /// The swap chains that this submission is the first to render to, whose
    /// semaphores have to be signalled.
    pub signals: Seq<SwapChainId>,
    pub failed: bool,
}

/// The marking after one more swap chain: it fails where the swap chain is
/// not registered or has no output; else the submission becomes the last to
/// use the swap chain, which is to be signalled if it was not the last yet.
pub open spec fn swap_chain_step(
    state: SwapChainMarking,
    id: SwapChainId,
    submit_index: SubmissionIndex,
) -> SwapChainMarking {
    if !state.swap_chains.contains_key(id) || state.swap_chains[id].acquired_texture is None {
        SwapChainMarking { failed: true, ..state }
    } else if state.swap_chains[id].active_submission_index != submit_index {
        SwapChainMarking {
            swap_chains: state.swap_chains.insert(
                id,
                SwapChain { active_submission_index: submit_index, ..state.swap_chains[id] },
            ),
            signals: state.signals.push(id),
            ..state
        }
    } else {
        state
    }
}

/// The marking after the swap chains `ids`, in their order, up to the first
/// failure.
pub open spec fn swap_chains_marked(
    state: SwapChainMarking,
    ids: Seq<SwapChainId>,
    submit_index: SubmissionIndex,
) -> SwapChainMarking
    decreases ids.len(),
{
    if ids.len() == 0 {
        state
    } else {
        let before = swap_chains_marked(state, ids.drop_last(), submit_index);
        if before.failed {
            before
        } else {
            swap_chain_step(before, ids.last(), submit_index)
        }
    }
}

/// Once the marking has failed, further swap chains change nothing.
proof fn lemma_swap_chains_marked_stops(
    state: SwapChainMarking,
    upto: Seq<SwapChainId>,
    ids: Seq<SwapChainId>,
    submit_index: SubmissionIndex,
)
    requires
        upto.len() <= ids.len(),
        upto == ids.take(upto.len() as int),
        swap_chains_marked(state, upto, submit_index).failed,
    ensures
        swap_chains_marked(state, ids, submit_index) == swap_chains_marked(
            state,
            upto,
            submit_index,
        ),
    decreases ids.len(),
{
    if upto.len() < ids.len() {
        assert(ids.drop_last().take(upto.len() as int) =~= upto);
        lemma_swap_chains_marked_stops(state, upto, ids.drop_last(), submit_index);
    } else {
        assert(ids.take(upto.len() as int) =~= ids);
    }
}

/// Makes submission `submit_index` the last to use the swap chains `ids`,
/// and lists those that it is the first of its kind to use. Fails, with the
/// swap chains before it marked, at the first one that has no output.
pub fn mark_swap_chains(
    swap_chains: &mut Storage<SwapChain>,
    ids: &Vec<SwapChainId>,
    submit_index: SubmissionIndex,
    signals: &mut SignalList,
) -> (res: Result<(), QueueSubmitError>)
    ensures
        ({
            let end = swap_chains_marked(
                SwapChainMarking {
                    swap_chains: old(swap_chains)@,
                    signals: old(signals)@,
                    failed: false,
                },
                ids@,
                submit_index,
            );
            &&& final(swap_chains)@ == end.swap_chains
            &&& final(signals)@ == end.signals
            &&& res == if end.failed {
                Err::<(), QueueSubmitError>(QueueSubmitError::SwapChainOutputDropped)
            } else {
                Ok::<(), QueueSubmitError>(())
            }
        }),
{
    let ghost start = SwapChainMarking {
        swap_chains: old(swap_chains)@,
        signals: old(signals)@,
        failed: false,
    };
    let mut i: usize = 0;
    assert(ids@.take(0) =~= Seq::empty());
    while i < ids.len()
        invariant
            i <= ids.len(),
            start == (SwapChainMarking {
                swap_chains: old(swap_chains)@,
                signals: old(signals)@,
                failed: false,
            }),
            swap_chains_marked(start, ids@.take(i as int), submit_index) == (SwapChainMarking {
                swap_chains: swap_chains@,
                signals: signals@,
                failed: false,
            }),
        decreases ids.len() - i,
    {
        let id = ids[i];
        let ghost upto = ids@.take(i as int + 1);
        proof {
            assert(upto.drop_last() =~= ids@.take(i as int));
            assert(upto.last() == id);
        }
        let chain = match swap_chains.get(id) {
            Some(chain) => *chain,
            None => {
                proof {
                    assert(upto =~= ids@.take(upto.len() as int));
                    lemma_swap_chains_marked_stops(start, upto, ids@, submit_index);
                }
                return Err(QueueSubmitError::SwapChainOutputDropped);
            },
        };
        if chain.acquired_texture.is_none() {
            proof {
                assert(upto =~= ids@.take(upto.len() as int));
                lemma_swap_chains_marked_stops(start, upto, ids@, submit_index);
            }
            return Err(QueueSubmitError::SwapChainOutputDropped);
        }
        if chain.active_submission_index != submit_index {
            let mut chain = chain;
            chain.active_submission_index = submit_index;
            swap_chains.insert(id, chain);
            // Signalled once, when the submission first uses the swap chain.
            signals.push(id);
        }
        i += 1;
    }
    assert(ids@.take(i as int) =~= ids@);
    Ok(())
}

/// Where the marking of the buffers of a command buffer stands.
#[verifier::ext_equal]
pub struct BufferMarking {
    pub buffers: Map<u32, BufferView>,
    /// The buffers that the user no longer refers to.
    pub suspected: Seq<BufferId>,
    /// The buffers that the user dropped while they were mapped, which the
    /// backend has to unmap.
    pub unmapped: Seq<BufferId>,
    /// Why the marking stopped, if it did.
    pub failed: Option<QueueSubmitError>,
}

/// The marking after one more buffer. It fails where the buffer is not
/// registered or is destroyed, and where it is mapped while the user still
/// holds it. Else the submission becomes the last to use the buffer, which
/// is suspected, and unmapped if it is mapped, if the user no longer refers
/// to it.
pub open spec fn buffer_step(
    state: BufferMarking,
    id: BufferId,
    submit_index: SubmissionIndex,
) -> BufferMarking {
    if !state.buffers.contains_key(id) || state.buffers[id].raw is None {
        BufferMarking { failed: Some(QueueSubmitError::DestroyedBuffer(id)), ..state }
    } else if state.buffers[id].life_guard.ref_count && state.buffers[id].map_state is Active {
        BufferMarking { failed: Some(QueueSubmitError::StillMapped(id)), ..state }
    } else {
        let buffer = state.buffers[id];
        let buffers = state.buffers.insert(
            id,
            BufferView { life_guard: used_at(buffer.life_guard, submit_index), ..buffer },
        );
        if buffer.life_guard.ref_count {
            BufferMarking { buffers, ..state }
        } else {
            BufferMarking {
                buffers,
                suspected: state.suspected.push(id),
                unmapped: if buffer.map_state is Active {
                    state.unmapped.push(id)
                } else {
                    state.unmapped
                },
                ..state
            }
        }
    }
}

/// The marking after the buffers `ids`, in their order, up to the first one
/// that is destroyed.
pub open spec fn buffers_marked(
    state: BufferMarking,
    ids: Seq<BufferId>,
    submit_index: SubmissionIndex,
) -> BufferMarking
    decreases ids.len(),
{
    if ids.len() == 0 {
        state
    } else {
        let before = buffers_marked(state, ids.drop_last(), submit_index);
        if before.failed is Some {
            before
        } else {
            buffer_step(before, ids.last(), submit_index)
        }
    }
}

/// Once the marking has stopped for a destroyed buffer, further buffers
/// change nothing.
proof fn lemma_buffers_marked_stops(
    state: BufferMarking,
    upto: Seq<BufferId>,
    ids: Seq<BufferId>,
    submit_index: SubmissionIndex,
)
    requires
        upto.len() <= ids.len(),
        upto == ids.take(upto.len() as int),
        buffers_marked(state, upto, submit_index).failed is Some,
    ensures
        buffers_marked(state, ids, submit_index) == buffers_marked(state, upto, submit_index),
    decreases ids.len(),
{
    if upto.len() < ids.len() {
        assert(ids.drop_last().take(upto.len() as int) =~= upto);
        lemma_buffers_marked_stops(state, upto, ids.drop_last(), submit_index);
    } else {
        assert(ids.take(upto.len() as int) =~= ids);
    }
}

/// Makes submission `submit_index` the last to use the buffers `ids`,
/// suspects those that the user no longer refers to, and lists those of them
/// that are still mapped. Fails, with the buffers before it marked, at the
/// first one that is destroyed, or that is mapped while the user holds it.
pub fn mark_buffers(
    buffers: &mut Storage<Buffer>,
    ids: &Vec<BufferId>,
    submit_index: SubmissionIndex,
    suspected: &mut Vec<BufferId>,
    unmapped: &mut Vec<BufferId>,
) -> (res: Result<(), QueueSubmitError>)
    requires
        forall|id: u32| #[trigger] old(buffers)@.contains_key(id) ==> old(buffers)@[id]@.wf(),
    ensures
        ({
            let end = buffers_marked(
                BufferMarking {
                    buffers: old(buffers).deep(),
                    suspected: old(suspected)@,
                    unmapped: old(unmapped)@,
                    failed: None,
                },
                ids@,
                submit_index,
            );
            &&& final(buffers).deep() == end.buffers
            &&& final(suspected)@ == end.suspected
            &&& final(unmapped)@ == end.unmapped
            &&& res == match end.failed {
                Some(error) => Err::<(), QueueSubmitError>(error),
                None => Ok::<(), QueueSubmitError>(()),
            }
        }),
        forall|id: u32| #[trigger] final(buffers)@.contains_key(id) ==> final(buffers)@[id]@.wf(),
{
    let ghost start = BufferMarking {
        buffers: old(buffers).deep(),
        suspected: old(suspected)@,
        unmapped: old(unmapped)@,
        failed: None,
    };
    let mut i: usize = 0;
    assert(ids@.take(0) =~= Seq::empty());
    while i < ids.len()
        invariant
            i <= ids.len(),
            start == (BufferMarking {
                buffers: old(buffers).deep(),
                suspected: old(suspected)@,
                unmapped: old(unmapped)@,
                failed: None,
            }),
            forall|id: u32| #[trigger] buffers@.contains_key(id) ==> buffers@[id]@.wf(),
            buffers_marked(start, ids@.take(i as int), submit_index) == (BufferMarking {
                buffers: buffers.deep(),
                suspected: suspected@,
                unmapped: unmapped@,
                failed: None,
            }),
        decreases ids.len() - i,
    {
        let id = ids[i];
        let ghost upto = ids@.take(i as int + 1);
        let ghost before = buffers.deep();
        proof {
            assert(upto.drop_last() =~= ids@.take(i as int));
            assert(upto.last() == id);
        }
        let mut buffer = match buffers.remove(id) {
            Some(buffer) => buffer,
            None => {
                proof {
                    assert(buffers.deep() =~= before);
                    assert(!before.contains_key(id));
                    assert(upto =~= ids@.take(upto.len() as int));
                    lemma_buffers_marked_stops(start, upto, ids@, submit_index);
                }
                return Err(QueueSubmitError::DestroyedBuffer(id));
            },
        };
        if buffer.raw.is_none() {
            buffers.insert(id, buffer);
            proof {
                assert(buffers.deep() =~= before);
                assert(upto =~= ids@.take(upto.len() as int));
                lemma_buffers_marked_stops(start, upto, ids@, submit_index);
            }
            return Err(QueueSubmitError::DestroyedBuffer(id));
        }
        let mapped = match buffer.map_state {
            BufferMapState::Active { .. } => true,
            BufferMapState::Idle => false,
        };
        if buffer.life_guard.ref_count && mapped {
            buffers.insert(id, buffer);
            proof {
                assert(buffers.deep() =~= before);
                assert(upto =~= ids@.take(upto.len() as int));
                lemma_buffers_marked_stops(start, upto, ids@, submit_index);
            }
            return Err(QueueSubmitError::StillMapped(id));
        }
        if !buffer.life_guard.use_at(submit_index) {
            match buffer.map_state {
                BufferMapState::Active { .. } => {
                    unmapped.push(id);
                },
                BufferMapState::Idle => {},
            }
            suspected.push(id);
        }
        let ghost after = buffer@;
        buffers.insert(id, buffer);
        i += 1;
        proof {
            assert(buffers.deep() =~= before.insert(id, after));
        }
    }
    assert(ids@.take(i as int) =~= ids@);
    Ok(())
}

/// Where the marking of the textures of a command buffer stands.
#[verifier::ext_equal]
pub struct TextureMarking {
    pub textures: Map<u32, Texture>,
    /// The textures that the user no longer refers to.
    pub suspected: Seq<TextureId>,
    /// The texture that is destroyed, if the marking stopped for one.
    pub failed: Option<TextureId>,
}

/// The marking after one more texture: it fails where the texture is not
/// registered or is destroyed; else the submission becomes the last to use
/// the texture, which is suspected if the user no longer refers to it.
pub open spec fn texture_step(
    state: TextureMarking,
    id: TextureId,
    submit_index: SubmissionIndex,
) -> TextureMarking {
    if !state.textures.contains_key(id) || state.textures[id].raw is None {
        TextureMarking { failed: Some(id), ..state }
    } else {
        let texture = state.textures[id];
        let textures = state.textures.insert(
            id,
            Texture { life_guard: used_at(texture.life_guard, submit_index), ..texture },
        );
        if texture.life_guard.ref_count {
            TextureMarking { textures, ..state }
        } else {
            TextureMarking { textures, suspected: state.suspected.push(id), ..state }
        }
    }
}

/// The marking after the textures `ids`, in their order, up to the first one
/// that is destroyed.
pub open spec fn textures_marked(
    state: TextureMarking,
    ids: Seq<TextureId>,
    submit_index: SubmissionIndex,
) -> TextureMarking
    decreases ids.len(),
{
    if ids.len() == 0 {
        state
    } else {
        let before = textures_marked(state, ids.drop_last(), submit_index);
        if before.failed is Some {
            before
        } else {
            texture_step(before, ids.last(), submit_index)
        }
    }
}

/// Once the marking has stopped for a destroyed texture, further textures
/// change nothing.
proof fn lemma_textures_marked_stops(
    state: TextureMarking,
    upto: Seq<TextureId>,
    ids: Seq<TextureId>,
    submit_index: SubmissionIndex,
)
    requires
        upto.len() <= ids.len(),
        upto == ids.take(upto.len() as int),
        textures_marked(state, upto, submit_index).failed is Some,
    ensures
        textures_marked(state, ids, submit_index) == textures_marked(state, upto, submit_index),
    decreases ids.len(),
{
    if upto.len() < ids.len() {
        assert(ids.drop_last().take(upto.len() as int) =~= upto);
        lemma_textures_marked_stops(state, upto, ids.drop_last(), submit_index);
    } else {
        assert(ids.take(upto.len() as int) =~= ids);
    }
}

/// Makes submission `submit_index` the last to use the textures `ids`, and
/// suspects those that the user no longer refers to. Fails, with the
/// textures before it marked, at the first one that is destroyed.
pub fn mark_textures(
    textures: &mut Storage<Texture>,
    ids: &Vec<TextureId>,
    submit_index: SubmissionIndex,
    suspected: &mut Vec<TextureId>,
) -> (res: Result<(), QueueSubmitError>)
    requires
        forall|id: u32| #[trigger] old(textures)@.contains_key(id) ==> old(textures)@[id].wf(),
    ensures
        ({
            let end = textures_marked(
                TextureMarking {
                    textures: old(textures)@,
                    suspected: old(suspected)@,
                    failed: None,
                },
                ids@,
                submit_index,
            );
            &&& final(textures)@ == end.textures
            &&& final(suspected)@ == end.suspected
            &&& res == match end.failed {
                Some(id) => Err::<(), QueueSubmitError>(QueueSubmitError::DestroyedTexture(id)),
                None => Ok::<(), QueueSubmitError>(()),
            }
        }),
        forall|id: u32| #[trigger] final(textures)@.contains_key(id) ==> final(textures)@[id].wf(),
{
    let ghost start = TextureMarking {
        textures: old(textures)@,
        suspected: old(suspected)@,
        failed: None,
    };
    let mut i: usize = 0;
    assert(ids@.take(0) =~= Seq::empty());
    while i < ids.len()
        invariant
            i <= ids.len(),
            start == (TextureMarking {
                textures: old(textures)@,
                suspected: old(suspected)@,
                failed: None,
            }),
            forall|id: u32| #[trigger] textures@.contains_key(id) ==> textures@[id].wf(),
            textures_marked(start, ids@.take(i as int), submit_index) == (TextureMarking {
                textures: textures@,
                suspected: suspected@,
                failed: None,
            }),
        decreases ids.len() - i,
    {
        let id = ids[i];
        let ghost upto = ids@.take(i as int + 1);
        proof {
            assert(upto.drop_last() =~= ids@.take(i as int));
            assert(upto.last() == id);
        }
        let mut texture = match textures.get(id) {
            Some(texture) => *texture,
            None => {
                proof {
                    assert(upto =~= ids@.take(upto.len() as int));
                    lemma_textures_marked_stops(start, upto, ids@, submit_index);
                }
                return Err(QueueSubmitError::DestroyedTexture(id));
            },
        };
        if texture.raw.is_none() {
            proof {
                assert(upto =~= ids@.take(upto.len() as int));
                lemma_textures_marked_stops(start, upto, ids@, submit_index);
            }
            return Err(QueueSubmitError::DestroyedTexture(id));
        }
        if !texture.life_guard.use_at(submit_index) {
            suspected.push(id);
        }
        textures.insert(id, texture);
        i += 1;
    }
    assert(ids@.take(i as int) =~= ids@);
    Ok(())
}

/// Touching some resources and then others touches all of them.
pub proof fn lemma_touched_twice(
    resources: Map<u32, Stateless>,
    first: Seq<u32>,
    second: Seq<u32>,
    submit_index: SubmissionIndex,
)
    ensures
        stateless_touched(stateless_touched(resources, first, submit_index), second, submit_index)
            == stateless_touched(resources, first + second, submit_index),
{
    let both = first + second;
    assert forall|id: u32| both.contains(id) <==> first.contains(id) || second.contains(id) by {
        if both.contains(id) {
            let j = choose|j: int| 0 <= j < both.len() && #[trigger] both[j] == id;
            if j < first.len() {
                assert(first[j] == id);
            } else {
                assert(second[j - first.len()] == id);
            }
        }
        if first.contains(id) {
            let j = choose|j: int| 0 <= j < first.len() && #[trigger] first[j] == id;
            assert(both[j] == id);
        }
        if second.contains(id) {
            let j = choose|j: int| 0 <= j < second.len() && #[trigger] second[j] == id;
            assert(both[j + first.len()] == id);
        }
    }
    assert(stateless_touched(
        stateless_touched(resources, first, submit_index),
        second,
        submit_index,
    ) =~= stateless_touched(resources, both, submit_index));
}

/// The bind groups once submission `submit_index` uses those of `ids` that
/// are registered.
pub open spec fn bind_groups_touched(
    groups: Map<u32, BindGroupView>,
    ids: Seq<u32>,
    submit_index: SubmissionIndex,
) -> Map<u32, BindGroupView> {
    Map::new(
        |id: u32| groups.contains_key(id),
        |id: u32|
            if ids.contains(id) {
                BindGroupView {
                    life_guard: used_at(groups[id].life_guard, submit_index),
                    ..groups[id]
                }
            } else {
                groups[id]
            },
    )
}

/// The suspicions once the bind groups of `ids` that are registered and that
/// the user no longer refers to are added, in their order.
pub open spec fn bind_groups_suspected(
    groups: Map<u32, BindGroupView>,
    suspected: Seq<u32>,
    ids: Seq<u32>,
) -> Seq<u32>
    decreases ids.len(),
{
    if ids.len() == 0 {
        suspected
    } else {
        let before = bind_groups_suspected(groups, suspected, ids.drop_last());
        let id = ids.last();
        if groups.contains_key(id) && !groups[id].life_guard.ref_count {
            before.push(id)
        } else {
            before
        }
    }
}

/// The texture views that the registered bind groups of `ids` hold.
pub open spec fn bind_group_views(groups: Map<u32, BindGroupView>, ids: Seq<u32>) -> Seq<u32>
    decreases ids.len(),
{
    if ids.len() == 0 {
        Seq::empty()
    } else {
        let before = bind_group_views(groups, ids.drop_last());
        if groups.contains_key(ids.last()) {
            before + groups[ids.last()].used_views
        } else {
            before
        }
    }
}

/// The samplers that the registered bind groups of `ids` hold.
pub open spec fn bind_group_samplers(groups: Map<u32, BindGroupView>, ids: Seq<u32>) -> Seq<u32>
    decreases ids.len(),
{
    if ids.len() == 0 {
        Seq::empty()
    } else {
        let before = bind_group_samplers(groups, ids.drop_last());
        if groups.contains_key(ids.last()) {
            before + groups[ids.last()].used_samplers
        } else {
            before
        }
    }
}

/// Records that submission `submit_index` uses the bind groups `ids` and
/// the texture views and samplers that they hold, and suspects the bind
/// groups that the user no longer refers to.
pub fn mark_bind_groups(
    groups: &mut Storage<BindGroup>,
    views: &mut Storage<Stateless>,
    samplers: &mut Storage<Stateless>,
    ids: &Vec<u32>,
    submit_index: SubmissionIndex,
    suspected: &mut Vec<u32>,
)
    ensures
        final(groups).deep() == bind_groups_touched(old(groups).deep(), ids@, submit_index),
        final(suspected)@ == bind_groups_suspected(old(groups).deep(), old(suspected)@, ids@),
        final(views)@ == stateless_touched(
            old(views)@,
            bind_group_views(old(groups).deep(), ids@),
            submit_index,
        ),
        final(samplers)@ == stateless_touched(
            old(samplers)@,
            bind_group_samplers(old(groups).deep(), ids@),
            submit_index,
        ),
{
    let mut i: usize = 0;
    assert(ids@.take(0) =~= Seq::empty());
    assert(groups.deep() =~= bind_groups_touched(old(groups).deep(), ids@.take(0), submit_index));
    assert(views@ =~= stateless_touched(old(views)@, Seq::empty(), submit_index));
    assert(samplers@ =~= stateless_touched(old(samplers)@, Seq::empty(), submit_index));
    while i < ids.len()
        invariant
            i <= ids.len(),
            groups.deep() == bind_groups_touched(
                old(groups).deep(),
                ids@.take(i as int),
                submit_index,
            ),
            suspected@ == bind_groups_suspected(
                old(groups).deep(),
                old(suspected)@,
                ids@.take(i as int),
            ),
            views@ == stateless_touched(
                old(views)@,
                bind_group_views(old(groups).deep(), ids@.take(i as int)),
                submit_index,
            ),
            samplers@ == stateless_touched(
                old(samplers)@,
                bind_group_samplers(old(groups).deep(), ids@.take(i as int)),
                submit_index,
            ),
        decreases ids.len() - i,
    {
        let id = ids[i];
        let ghost before = groups.deep();
        let ghost views_before = bind_group_views(old(groups).deep(), ids@.take(i as int));
        let ghost samplers_before = bind_group_samplers(old(groups).deep(), ids@.take(i as int));
        proof {
            let upto = ids@.take(i as int + 1);
            assert(upto.drop_last() =~= ids@.take(i as int));
            assert(upto.last() == id);
        }
        match groups.remove(id) {
            Some(group) => {
                let mut group = group;
                proof {
                    assert(group@ == before[id]);
                    assert(before.contains_key(id));
                    assert(old(groups).deep().contains_key(id));
                    assert(before[id].used_views == old(groups).deep()[id].used_views);
                    assert(before[id].used_samplers == old(groups).deep()[id].used_samplers);
                    assert(before[id].life_guard.ref_count == old(
                        groups,
                    ).deep()[id].life_guard.ref_count);
                }
                if !group.life_guard.use_at(submit_index) {
                    suspected.push(id);
                }
                // What the bind group holds must outlive it as well.
                touch_stateless(views, &group.used_views, submit_index);
                touch_stateless(samplers, &group.used_samplers, submit_index);
                let ghost after = group@;
                groups.insert(id, group);
                proof {
                    assert(groups.deep() =~= before.insert(id, after));
                    lemma_touched_twice(
                        old(views)@,
                        views_before,
                        after.used_views,
                        submit_index,
                    );
                    lemma_touched_twice(
                        old(samplers)@,
                        samplers_before,
                        after.used_samplers,
                        submit_index,
                    );
                }
            },
            None => {
                assert(groups.deep() =~= before);
                assert(!before.contains_key(id));
                assert(!old(groups).deep().contains_key(id));
            },
        }
        proof {
            assert forall|other: u32|
                ids@.take(i as int + 1).contains(other) <==> ids@.take(i as int).contains(other)
                    || other == id by {
                lemma_take_contains(ids@, i as int, other);
            }
            assert(groups.deep() =~= bind_groups_touched(
                old(groups).deep(),
                ids@.take(i as int + 1),
                submit_index,
            ));
        }
        i += 1;
    }
    assert(ids@.take(i as int) =~= ids@);
}

/// The render bundles once submission `submit_index` uses those of `ids` that
/// are registered.
pub open spec fn bundles_touched(
    groups: Map<u32, RenderBundleView>,
    ids: Seq<u32>,
    submit_index: SubmissionIndex,
) -> Map<u32, RenderBundleView> {
    Map::new(
        |id: u32| groups.contains_key(id),
        |id: u32|
            if ids.contains(id) {
                RenderBundleView {
                    life_guard: used_at(groups[id].life_guard, submit_index),
                    ..groups[id]
                }
            } else {
                groups[id]
            },
    )
}

/// The suspicions once the render bundles of `ids` that are registered and that
/// the user no longer refers to are added, in their order.
pub open spec fn bundles_suspected(
    groups: Map<u32, RenderBundleView>,
    suspected: Seq<u32>,
    ids: Seq<u32>,
) -> Seq<u32>
    decreases ids.len(),
{
    if ids.len() == 0 {
        suspected
    } else {
        let before = bundles_suspected(groups, suspected, ids.drop_last());
        let id = ids.last();
        if groups.contains_key(id) && !groups[id].life_guard.ref_count {
            before.push(id)
        } else {
            before
        }
    }
}

/// The compute pipelines that the registered render bundles of `ids` hold.
pub open spec fn bundle_compute_pipes(groups: Map<u32, RenderBundleView>, ids: Seq<u32>) -> Seq<u32>
    decreases ids.len(),
{
    if ids.len() == 0 {
        Seq::empty()
    } else {
        let before = bundle_compute_pipes(groups, ids.drop_last());
        if groups.contains_key(ids.last()) {
            before + groups[ids.last()].used_compute_pipes
        } else {
            before
        }
    }
}

/// The render pipelines that the registered render bundles of `ids` hold.
pub open spec fn bundle_render_pipes(groups: Map<u32, RenderBundleView>, ids: Seq<u32>) -> Seq<u32>
    decreases ids.len(),
{
    if ids.len() == 0 {
        Seq::empty()
    } else {
        let before = bundle_render_pipes(groups, ids.drop_last());
        if groups.contains_key(ids.last()) {
            before + groups[ids.last()].used_render_pipes
        } else {
            before
        }
    }
}

/// Records that submission `submit_index` uses the render bundles `ids`
/// and the pipelines that they hold, and suspects the render bundles that the user no longer refers to.
pub fn mark_bundles(
    groups: &mut Storage<RenderBundle>,
    compute_pipes: &mut Storage<Stateless>,
    render_pipes: &mut Storage<Stateless>,
    ids: &Vec<u32>,
    submit_index: SubmissionIndex,
    suspected: &mut Vec<u32>,
)
    ensures
        final(groups).deep() == bundles_touched(old(groups).deep(), ids@, submit_index),
        final(suspected)@ == bundles_suspected(old(groups).deep(), old(suspected)@, ids@),
        final(compute_pipes)@ == stateless_touched(
            old(compute_pipes)@,
            bundle_compute_pipes(old(groups).deep(), ids@),
            submit_index,
        ),
        final(render_pipes)@ == stateless_touched(
            old(render_pipes)@,
            bundle_render_pipes(old(groups).deep(), ids@),
            submit_index,
        ),
{
    let mut i: usize = 0;
    assert(ids@.take(0) =~= Seq::empty());
    assert(groups.deep() =~= bundles_touched(old(groups).deep(), ids@.take(0), submit_index));
    assert(compute_pipes@ =~= stateless_touched(old(compute_pipes)@, Seq::empty(), submit_index));
    assert(render_pipes@ =~= stateless_touched(old(render_pipes)@, Seq::empty(), submit_index));
    while i < ids.len()
        invariant
            i <= ids.len(),
            groups.deep() == bundles_touched(
                old(groups).deep(),
                ids@.take(i as int),
                submit_index,
            ),
            suspected@ == bundles_suspected(
                old(groups).deep(),
                old(suspected)@,
                ids@.take(i as int),
            ),
            compute_pipes@ == stateless_touched(
                old(compute_pipes)@,
                bundle_compute_pipes(old(groups).deep(), ids@.take(i as int)),
                submit_index,
            ),
            render_pipes@ == stateless_touched(
                old(render_pipes)@,
                bundle_render_pipes(old(groups).deep(), ids@.take(i as int)),
                submit_index,
            ),
        decreases ids.len() - i,
    {
        let id = ids[i];
        let ghost before = groups.deep();
        let ghost compute_before = bundle_compute_pipes(old(groups).deep(), ids@.take(i as int));
        let ghost render_before = bundle_render_pipes(old(groups).deep(), ids@.take(i as int));
        proof {
            let upto = ids@.take(i as int + 1);
            assert(upto.drop_last() =~= ids@.take(i as int));
            assert(upto.last() == id);
        }
        match groups.remove(id) {
            Some(group) => {
                let mut group = group;
                proof {
                    assert(group@ == before[id]);
                    assert(before.contains_key(id));
                    assert(old(groups).deep().contains_key(id));
                    assert(before[id].used_compute_pipes == old(groups).deep()[id].used_compute_pipes);
                    assert(before[id].used_render_pipes == old(groups).deep()[id].used_render_pipes);
                    assert(before[id].life_guard.ref_count == old(
                        groups,
                    ).deep()[id].life_guard.ref_count);
                }
                if !group.life_guard.use_at(submit_index) {
                    suspected.push(id);
                }
                // What the bundle holds must outlive it as well.
                touch_stateless(compute_pipes, &group.used_compute_pipes, submit_index);
                touch_stateless(render_pipes, &group.used_render_pipes, submit_index);
                let ghost after = group@;
                groups.insert(id, group);
                proof {
                    assert(groups.deep() =~= before.insert(id, after));
                    lemma_touched_twice(
                        old(compute_pipes)@,
                        compute_before,
                        after.used_compute_pipes,
                        submit_index,
                    );
                    lemma_touched_twice(
                        old(render_pipes)@,
                        render_before,
                        after.used_render_pipes,
                        submit_index,
                    );
                }
            },
            None => {
                assert(groups.deep() =~= before);
                assert(!before.contains_key(id));
                assert(!old(groups).deep().contains_key(id));
            },
        }
        proof {
            assert forall|other: u32|
                ids@.take(i as int + 1).contains(other) <==> ids@.take(i as int).contains(other)
                    || other == id by {
                lemma_take_contains(ids@, i as int, other);
            }
            assert(groups.deep() =~= bundles_touched(
                old(groups).deep(),
                ids@.take(i as int + 1),
                submit_index,
            ));
        }
        i += 1;
    }
    assert(ids@.take(i as int) =~= ids@);
}

/// The barriers that carry out `pending` on the backend's buffers, for the
/// buffers that are registered and not destroyed.
pub open spec fn stitched_buffer_barriers(
    pending: Seq<PendingBufferTransition>,
    buffers: Map<u32, BufferView>,
) -> Seq<BufferBarrier>
    decreases pending.len(),
{
    if pending.len() == 0 {
        Seq::empty()
    } else {
        let before = stitched_buffer_barriers(pending.drop_last(), buffers);
        let last = pending.last();
        if buffers.contains_key(last.id) && buffers[last.id].raw is Some {
            before.push(last.hal(buffers[last.id].raw.unwrap()))
        } else {
            before
        }
    }
}

/// The barriers that carry out `pending` on the backend's textures, for the
/// textures that are registered and not destroyed.
pub open spec fn stitched_texture_barriers(
    pending: Seq<PendingTextureTransition>,
    textures: Map<u32, Texture>,
) -> Seq<TextureBarrier>
    decreases pending.len(),
{
    if pending.len() == 0 {
        Seq::empty()
    } else {
        let before = stitched_texture_barriers(pending.drop_last(), textures);
        let last = pending.last();
        if textures.contains_key(last.id) && textures[last.id].raw is Some {
            before.push(last.hal(textures[last.id].raw.unwrap()))
        } else {
            before
        }
    }
}

/// The barriers that carry out `pending` on the backend's buffers.
fn stitch_buffer_barriers(pending: &Vec<PendingBufferTransition>, buffers: &Storage<Buffer>) -> (barriers:
    Vec<BufferBarrier>)
    ensures
        barriers@ == stitched_buffer_barriers(pending@, buffers.deep()),
{
    let mut barriers: Vec<BufferBarrier> = Vec::new();
    let mut i: usize = 0;
    assert(pending@.take(0) =~= Seq::empty());
    while i < pending.len()
        invariant
            i <= pending.len(),
            barriers@ == stitched_buffer_barriers(pending@.take(i as int), buffers.deep()),
        decreases pending.len() - i,
    {
        let transition = pending[i];
        proof {
            let upto = pending@.take(i as int + 1);
            assert(upto.drop_last() =~= pending@.take(i as int));
            assert(upto.last() == transition);
        }
        match buffers.get(transition.id) {
            Some(buffer) => {
                if buffer.raw.is_some() {
                    barriers.push(transition.into_hal(buffer));
                }
            },
            None => {},
        }
        i += 1;
    }
    assert(pending@.take(i as int) =~= pending@);
    barriers
}

/// The barriers that carry out `pending` on the backend's textures.
fn stitch_texture_barriers(
    pending: &Vec<PendingTextureTransition>,
    textures: &Storage<Texture>,
) -> (barriers: Vec<TextureBarrier>)
    ensures
        barriers@ == stitched_texture_barriers(pending@, textures@),
{
    let mut barriers: Vec<TextureBarrier> = Vec::new();
    let mut i: usize = 0;
    assert(pending@.take(0) =~= Seq::empty());
    while i < pending.len()
        invariant
            i <= pending.len(),
            barriers@ == stitched_texture_barriers(pending@.take(i as int), textures@),
        decreases pending.len() - i,
    {
        let transition = pending[i];
        proof {
            let upto = pending@.take(i as int + 1);
            assert(upto.drop_last() =~= pending@.take(i as int));
            assert(upto.last() == transition);
        }
        match textures.get(transition.id) {
            Some(texture) => {
                if texture.raw.is_some() {
                    barriers.push(transition.into_hal(texture));
                }
            },
            None => {},
        }
        i += 1;
    }
    assert(pending@.take(i as int) =~= pending@);
    barriers
}

/// The commands of the transit command buffer that lets a command stream
/// with the uses `head` run after the streams that left the uses `base`: the
/// transitions of the buffers, then those of the textures.
pub open spec fn transit_commands(
    base: TrackerSetView,
    head: TrackerSetView,
    buffers: Map<u32, BufferView>,
    textures: Map<u32, Texture>,
) -> Seq<Command> {
    buffer_transitions(
        stitched_buffer_barriers(
            pending_buffer_merge(base.buffers, head.buffers, index_limit()),
            buffers,
        ),
    ) + texture_transitions(
        stitched_texture_barriers(
            coalesced(pending_texture_merge(base.textures, head.textures, index_limit())),
            textures,
        ),
    )
}

/// Where the preparation of a submission stands.
#[verifier::ext_equal]
pub struct SubmitState {
    /// The registries, but for the device.
    pub global: GlobalView,
    /// The device that the submission is for.
    pub device: DeviceView,
    /// The ranges of buffers to fill with zeros before the commands run.
    pub inits: RequiredBufferInitsView,
    /// The command pools whose command buffers are to be executed.
    pub executions: Seq<EncoderInFlightView>,
    /// The buffers that the backend has to unmap.
    pub unmapped: Seq<BufferId>,
    /// The swap chains whose semaphores have to be signalled.
    pub signals: Seq<SwapChainId>,
    /// Why the preparation stopped, if it did.
    pub failed: Option<QueueSubmitError>,
}

/// The preparation once the memory that the commands of `command_buffer` use
/// is accounted for.
pub open spec fn step_gathered(state: SubmitState, command_buffer: CommandBufferView) -> SubmitState {
    let end = gathered(
        InitGathering { inits: state.inits, buffers: state.global.buffers, failed: None },
        command_buffer.buffer_memory_init_actions,
    );
    SubmitState {
        global: GlobalView { buffers: end.buffers, ..state.global },
        inits: end.inits,
        failed: match end.failed {
            Some(id) => Some(QueueSubmitError::DestroyedBuffer(id)),
            None => None,
        },
        ..state
    }
}

/// The preparation once the swap chains of `command_buffer` are marked.
pub open spec fn step_swap_chains(
    state: SubmitState,
    command_buffer: CommandBufferView,
    submit_index: SubmissionIndex,
) -> SubmitState {
    let end = swap_chains_marked(
        SwapChainMarking {
            swap_chains: state.global.swap_chains,
            signals: state.signals,
            failed: false,
        },
        command_buffer.used_swap_chains,
        submit_index,
    );
    SubmitState {
        global: GlobalView { swap_chains: end.swap_chains, ..state.global },
        signals: end.signals,
        failed: if end.failed {
            Some(QueueSubmitError::SwapChainOutputDropped)
        } else {
            None
        },
        ..state
    }
}

/// The preparation once the buffers of `command_buffer` are marked.
pub open spec fn step_buffers(
    state: SubmitState,
    command_buffer: CommandBufferView,
    submit_index: SubmissionIndex,
) -> SubmitState {
    let end = buffers_marked(
        BufferMarking {
            buffers: state.global.buffers,
            suspected: state.device.temp_suspected.buffers,
            unmapped: state.unmapped,
            failed: None,
        },
        tracked_ids(command_buffer.trackers.buffers, index_limit()),
        submit_index,
    );
    SubmitState {
        global: GlobalView { buffers: end.buffers, ..state.global },
        device: DeviceView {
            temp_suspected: SuspectedResourcesView {
                buffers: end.suspected,
                ..state.device.temp_suspected
            },
            ..state.device
        },
        unmapped: end.unmapped,
        failed: end.failed,
        ..state
    }
}

/// The preparation once the textures of `command_buffer` are marked.
pub open spec fn step_textures(
    state: SubmitState,
    command_buffer: CommandBufferView,
    submit_index: SubmissionIndex,
) -> SubmitState {
    let end = textures_marked(
        TextureMarking {
            textures: state.global.textures,
            suspected: state.device.temp_suspected.textures,
            failed: None,
        },
        tracked_ids(command_buffer.trackers.textures, index_limit()),
        submit_index,
    );
    SubmitState {
        global: GlobalView { textures: end.textures, ..state.global },
        device: DeviceView {
            temp_suspected: SuspectedResourcesView {
                textures: end.suspected,
                ..state.device.temp_suspected
            },
            ..state.device
        },
        failed: match end.failed {
            Some(id) => Some(QueueSubmitError::DestroyedTexture(id)),
            None => None,
        },
        ..state
    }
}

/// The preparation once the resources of `command_buffer` whose life time
/// alone is tracked are marked: the texture views, the bind groups with what
/// they hold, the pipelines, the query sets, and the render bundles with
/// what they hold.
pub open spec fn step_stateless(
    state: SubmitState,
    command_buffer: CommandBufferView,
    submit_index: SubmissionIndex,
) -> SubmitState {
    let used = command_buffer.trackers;
    let global = state.global;
    let suspected = state.device.temp_suspected;
    let views = stateless_touched(global.texture_views, used.views, submit_index);
    let compute = stateless_touched(global.compute_pipelines, used.compute_pipes, submit_index);
    let render = stateless_touched(global.render_pipelines, used.render_pipes, submit_index);
    SubmitState {
        global: GlobalView {
            texture_views: stateless_touched(
                views,
                bind_group_views(global.bind_groups, used.bind_groups),
                submit_index,
            ),
            bind_groups: bind_groups_touched(global.bind_groups, used.bind_groups, submit_index),
            samplers: stateless_touched(
                global.samplers,
                bind_group_samplers(global.bind_groups, used.bind_groups),
                submit_index,
            ),
            compute_pipelines: stateless_touched(
                compute,
                bundle_compute_pipes(global.render_bundles, used.bundles),
                submit_index,
            ),
            render_pipelines: stateless_touched(
                render,
                bundle_render_pipes(global.render_bundles, used.bundles),
                submit_index,
            ),
            query_sets: stateless_touched(global.query_sets, used.query_sets, submit_index),
            render_bundles: bundles_touched(global.render_bundles, used.bundles, submit_index),
            ..global
        },
        device: DeviceView {
            temp_suspected: SuspectedResourcesView {
                texture_views: stateless_suspected(
                    global.texture_views,
                    suspected.texture_views,
                    used.views,
                ),
                bind_groups: bind_groups_suspected(
                    global.bind_groups,
                    suspected.bind_groups,
                    used.bind_groups,
                ),
                compute_pipelines: stateless_suspected(
                    global.compute_pipelines,
                    suspected.compute_pipelines,
                    used.compute_pipes,
                ),
                render_pipelines: stateless_suspected(
                    global.render_pipelines,
                    suspected.render_pipelines,
                    used.render_pipes,
                ),
                query_sets: stateless_suspected(
                    global.query_sets,
                    suspected.query_sets,
                    used.query_sets,
                ),
                render_bundles: bundles_suspected(
                    global.render_bundles,
                    suspected.render_bundles,
                    used.bundles,
                ),
                ..suspected
            },
            ..state.device
        },
        ..state
    }
}

/// The preparation once `command_buffer` is stitched to what the queue has
/// run: the queue's trackers take the last uses of the command buffer, and
/// the command pool joins those to execute, with a transit command buffer
/// before its own.
pub open spec fn step_stitched(state: SubmitState, command_buffer: CommandBufferView) -> SubmitState {
    let base = state.device.trackers;
    let head = command_buffer.trackers;
    SubmitState {
        device: DeviceView {
            trackers: TrackerSetView {
                buffers: merged(base.buffers, head.buffers),
                textures: textures_merged(base.textures, head.textures),
                ..base
            },
            ..state.device
        },
        executions: state.executions.push(
            EncoderInFlightView {
                raw: RawEncoderView { is_encoding: false, commands: Seq::empty() },
                cmd_buffers: seq![
                    transit_commands(base, head, state.global.buffers, state.global.textures),
                ] + command_buffer.encoder.list,
            },
        ),
        ..state
    }
}

/// The preparation after one more command buffer. One that is not
/// registered is passed over. Else the command buffer leaves its registry
/// and its submission is traced. One that has not finished is given up; of
/// one that has, the memory, swap chains, buffers, textures and other
/// resources are gone through in this order, up to the first failure; if
/// there is none, it is stitched.
#[verifier::opaque]
pub open spec fn prepare_step(
    state: SubmitState,
    id: u32,
    submit_index: SubmissionIndex,
) -> SubmitState {
    if !state.global.command_buffers.contains_key(id) {
        state
    } else {
        let command_buffer = state.global.command_buffers[id];
        let taken = SubmitState {
            global: GlobalView {
                command_buffers: state.global.command_buffers.remove(id),
                ..state.global
            },
            device: state.device.submit_traced(submit_index, command_buffer.commands),
            ..state
        };
        if command_buffer.status != CommandEncoderStatus::Finished {
            taken
        } else {
            let first = step_gathered(taken, command_buffer);
            if first.failed is Some {
                first
            } else {
                let second = step_swap_chains(first, command_buffer, submit_index);
                if second.failed is Some {
                    second
                } else {
                    let third = step_buffers(second, command_buffer, submit_index);
                    if third.failed is Some {
                        third
                    } else {
                        let fourth = step_textures(third, command_buffer, submit_index);
                        if fourth.failed is Some {
                            fourth
                        } else {
                            step_stitched(
                                step_stateless(fourth, command_buffer, submit_index),
                                command_buffer,
                            )
                        }
                    }
                }
            }
        }
    }
}

/// The preparation after the command buffers `ids`, in their order, up to
/// the first failure.
pub open spec fn prepared(state: SubmitState, ids: Seq<u32>, submit_index: SubmissionIndex) -> SubmitState
    decreases ids.len(),
{
    if ids.len() == 0 {
        state
    } else {
        let before = prepared(state, ids.drop_last(), submit_index);
        if before.failed is Some {
            before
        } else {
            prepare_step(before, ids.last(), submit_index)
        }
    }
}

/// Once the preparation has failed, further command buffers change nothing.
pub proof fn lemma_prepared_stops(
    state: SubmitState,
    upto: Seq<u32>,
    ids: Seq<u32>,
    submit_index: SubmissionIndex,
)
    requires
        upto.len() <= ids.len(),
        upto == ids.take(upto.len() as int),
        prepared(state, upto, submit_index).failed is Some,
    ensures
        prepared(state, ids, submit_index) == prepared(state, upto, submit_index),
    decreases ids.len(),
{
    if upto.len() < ids.len() {
        assert(ids.drop_last().take(upto.len() as int) =~= upto);
        lemma_prepared_stops(state, upto, ids.drop_last(), submit_index);
    } else {
        assert(ids.take(upto.len() as int) =~= ids);
    }
}

impl Global {
    /// Prepares one command buffer for submission `submit_index` to
    /// `device`, which is kept apart from the registries meanwhile.
    pub fn prepare_command_buffer(
        &mut self,
        device: &mut Device,
        cmb_id: u32,
        submit_index: SubmissionIndex,
        inits: &mut RequiredBufferInits,
        executions: &mut Vec<EncoderInFlight>,
        unmapped: &mut Vec<BufferId>,
        signals: &mut SignalList,
    ) -> (res: Result<(), QueueSubmitError>)
        requires
            old(self).wf(),
            old(device).wf(),
            old(inits)@.wf(),
        ensures
            ({
                let end = prepare_step(
                    SubmitState {
                        global: old(self)@,
                        device: old(device)@,
                        inits: old(inits)@,
                        executions: encoder_views(old(executions)@),
                        unmapped: old(unmapped)@,
                        signals: old(signals)@,
                        failed: None,
                    },
                    cmb_id,
                    submit_index,
                );
                &&& final(self)@ == end.global
                &&& final(device)@ == end.device
                &&& final(inits)@ == end.inits
                &&& encoder_views(final(executions)@) == end.executions
                &&& final(unmapped)@ == end.unmapped
                &&& final(signals)@ == end.signals
                &&& res == match end.failed {
                    Some(error) => Err::<(), QueueSubmitError>(error),
                    None => Ok::<(), QueueSubmitError>(()),
                }
            }),
            final(self).wf(),
            final(device).wf(),
            final(inits)@.wf(),
            final(self).devices == old(self).devices,
            final(device).active_submission_index == old(device).active_submission_index,
    {
        let ghost start = SubmitState {
            global: old(self)@,
            device: old(device)@,
            inits: old(inits)@,
            executions: encoder_views(old(executions)@),
            unmapped: old(unmapped)@,
            signals: old(signals)@,
            failed: None,
        };
        proof {
            reveal(prepare_step);
        }
        let mut cmdbuf = match self.command_buffers.remove(cmb_id) {
            Some(cmdbuf) => cmdbuf,
            None => {
                assert(self.command_buffers.deep() =~= old(self).command_buffers.deep());
                assert(self@ =~= start.global);
                return Ok(());
            },
        };
        let ghost command_buffer = cmdbuf@;
        let ghost taken = SubmitState {
            global: GlobalView {
                command_buffers: start.global.command_buffers.remove(cmb_id),
                ..start.global
            },
            device: start.device.submit_traced(submit_index, command_buffer.commands),
            ..start
        };
        proof {
            assert(self.command_buffers.deep() =~= old(self).command_buffers.deep().remove(
                cmb_id,
            ));
            assert(self@ =~= taken.global);
            assert(command_buffer == start.global.command_buffers[cmb_id]);
            assert(cmdbuf.wf());
        }
        let traced_commands = cmdbuf.commands.take();
        device.trace_submit(submit_index, traced_commands);
        assert(device@ =~= taken.device);
        if !cmdbuf.is_finished() {
            // A command buffer that is still recording is destroyed.
            return Ok(());
        }
        let gathered_res = inits.add(&cmdbuf.buffer_memory_init_actions, &mut self.buffers);
        let ghost first = step_gathered(taken, command_buffer);
        proof {
            assert(self@ =~= first.global);
        }
        match gathered_res {
            Err(error) => {
                return Err(error);
            },
            Ok(()) => {},
        }
        let marked = mark_swap_chains(
            &mut self.swap_chains,
            &cmdbuf.used_swap_chains,
            submit_index,
            signals,
        );
        let ghost second = step_swap_chains(first, command_buffer, submit_index);
        proof {
            assert(self@ =~= second.global);
        }
        match marked {
            Err(error) => {
                return Err(error);
            },
            Ok(()) => {},
        }
        // Update the life guards of everything that the commands use.
        let buffer_ids = cmdbuf.trackers.buffers.used();
        let marked = mark_buffers(
            &mut self.buffers,
            &buffer_ids,
            submit_index,
            &mut device.temp_suspected.buffers,
            unmapped,
        );
        let ghost third = step_buffers(second, command_buffer, submit_index);
        proof {
            assert(self@ =~= third.global);
            assert(device@ =~= third.device);
        }
        match marked {
            Err(error) => {
                return Err(error);
            },
            Ok(()) => {},
        }
        let texture_ids = cmdbuf.trackers.textures.used();
        let marked = mark_textures(
            &mut self.textures,
            &texture_ids,
            submit_index,
            &mut device.temp_suspected.textures,
        );
        let ghost fourth = step_textures(third, command_buffer, submit_index);
        proof {
            assert(self@ =~= fourth.global);
            assert(device@ =~= fourth.device);
        }
        match marked {
            Err(error) => {
                return Err(error);
            },
            Ok(()) => {},
        }
        mark_stateless(
            &mut self.texture_views,
            &cmdbuf.trackers.views,
            submit_index,
            &mut device.temp_suspected.texture_views,
        );
        mark_bind_groups(
            &mut self.bind_groups,
            &mut self.texture_views,
            &mut self.samplers,
            &cmdbuf.trackers.bind_groups,
            submit_index,
            &mut device.temp_suspected.bind_groups,
        );
        mark_stateless(
            &mut self.compute_pipelines,
            &cmdbuf.trackers.compute_pipes,
            submit_index,
            &mut device.temp_suspected.compute_pipelines,
        );
        mark_stateless(
            &mut self.render_pipelines,
            &cmdbuf.trackers.render_pipes,
            submit_index,
            &mut device.temp_suspected.render_pipelines,
        );
        mark_stateless(
            &mut self.query_sets,
            &cmdbuf.trackers.query_sets,
            submit_index,
            &mut device.temp_suspected.query_sets,
        );
        mark_bundles(
            &mut self.render_bundles,
            &mut self.compute_pipelines,
            &mut self.render_pipelines,
            &cmdbuf.trackers.bundles,
            submit_index,
            &mut device.temp_suspected.render_bundles,
        );
        let ghost fifth = step_stateless(fourth, command_buffer, submit_index);
        proof {
            assert(self@ =~= fifth.global);
            assert(device@.temp_suspected =~= fifth.device.temp_suspected);
            assert(device@ =~= fifth.device);
        }

        // Stitch the command buffer to what the queue has run.
        let trackers = cmdbuf.trackers;
        let encoder = cmdbuf.encoder;
        let mut raw = encoder.raw;
        let mut list = encoder.list;
        let ghost own = crate::hal::command_lists(list@);
        raw.begin_encoding();
        let buffer_pending = device.trackers.buffers.merge_replace(&trackers.buffers);
        let texture_pending = device.trackers.textures.merge_replace(&trackers.textures);
        let buffer_barriers = stitch_buffer_barriers(&buffer_pending, &self.buffers);
        let texture_barriers = stitch_texture_barriers(&texture_pending, &self.textures);
        raw.transition_buffers(&buffer_barriers);
        raw.transition_textures(&texture_barriers);
        let transit = raw.end_encoding();
        let ghost transit_view = transit@;
        list.insert(0, transit);
        let ghost before = encoder_views(executions@);
        let ghost pushed = EncoderInFlightView {
            raw: raw@,
            cmd_buffers: crate::hal::command_lists(list@),
        };
        executions.push(EncoderInFlight { raw, cmd_buffers: list });
        proof {
            let end = step_stitched(fifth, command_buffer);
            assert(transit_view =~= transit_commands(
                fifth.device.trackers,
                command_buffer.trackers,
                fifth.global.buffers,
                fifth.global.textures,
            ));
            assert(pushed.cmd_buffers =~= seq![transit_view] + own);
            assert(encoder_views(executions@) =~= before.push(pushed));
            assert(device@.trackers =~= end.device.trackers);
            assert(device@ =~= end.device);
            assert(encoder_views(executions@) =~= end.executions);
        }
        Ok(())
    }
}

/// What the backend is handed to execute.
#[derive(Debug)]
pub struct Submission {
    /// The number of the submission, which the fence takes when it is done.
    pub index: SubmissionIndex,
    /// The command buffers, in the order of their execution.
    pub command_buffers: Vec<RawCommandBuffer>,
    /// The buffers to unmap: the user dropped them while they were mapped.
    pub unmapped_buffers: Vec<BufferId>,
    /// The swap chains whose semaphores are to be signalled.
    pub signal_swapchain_semaphores: SignalList,
}

/// What is known of a submission.
#[verifier::ext_equal]
pub struct SubmissionView {
    pub index: SubmissionIndex,
    pub command_buffers: Seq<Seq<Command>>,
    pub unmapped_buffers: Seq<BufferId>,
    pub signal_swapchain_semaphores: Seq<SwapChainId>,
}

impl View for Submission {
    type V = SubmissionView;

    open spec fn view(&self) -> SubmissionView {
        SubmissionView {
            index: self.index,
            command_buffers: crate::hal::command_lists(self.command_buffers@),
            unmapped_buffers: self.unmapped_buffers@,
            signal_swapchain_semaphores: self.signal_swapchain_semaphores@,
        }
    }
}

/// The command buffers of the command pools `executions`, pool by pool.
pub open spec fn all_command_buffers(executions: Seq<EncoderInFlightView>) -> Seq<Seq<Command>>
    decreases executions.len(),
{
    if executions.len() == 0 {
        Seq::empty()
    } else {
        all_command_buffers(executions.drop_last()) + executions.last().cmd_buffers
    }
}

/// The preparation of a submission to device `queue_id` at its start: the
/// device has a new submission index and suspects nothing.
pub open spec fn submit_start(global: GlobalView, queue_id: QueueId) -> SubmitState {
    let device = global.devices[queue_id];
    SubmitState {
        global: GlobalView { devices: global.devices.remove(queue_id), ..global },
        device: DeviceView {
            active_submission_index: (device.active_submission_index + 1) as u64,
            temp_suspected: SuspectedResourcesView::none(),
            ..device
        },
        inits: RequiredBufferInitsView { buffers: Seq::empty(), ranges: Seq::empty() },
        executions: Seq::empty(),
        unmapped: Seq::empty(),
        signals: Seq::empty(),
        failed: None,
    }
}

/// The preparation once the ranges gathered are filled with zeros by the
/// pending writes, if there are any.
pub open spec fn submit_filled(state: SubmitState) -> SubmitState {
    if state.inits.buffers.len() == 0 {
        state
    } else {
        let end = filled(
            InitFilling {
                device: filling_begun(state.device, state.inits.buffers),
                failed: None,
            },
            state.inits.buffers,
            state.global.buffers,
            state.inits.ranges,
        );
        SubmitState {
            device: end.device,
            failed: match end.failed {
                Some(id) => Some(QueueSubmitError::DestroyedBuffer(id)),
                None => None,
            },
            ..state
        }
    }
}

/// The preparation of the command buffers `ids` for device `queue_id`, up to
/// the first failure.
pub open spec fn submit_prepared(global: GlobalView, queue_id: QueueId, ids: Seq<u32>) -> SubmitState {
    let start = submit_start(global, queue_id);
    let ready = prepared(start, ids, start.device.active_submission_index);
    if ready.failed is Some {
        ready
    } else {
        submit_filled(ready)
    }
}

/// What a prepared submission hands to the backend: the command buffer of
/// the pending writes first, if they recorded any, then the command buffers
/// of every command pool, each with its transit command buffer first.
pub open spec fn submission_of(state: SubmitState, index: SubmissionIndex) -> SubmissionView {
    SubmissionView {
        index,
        command_buffers: submitted_command_buffers(state.device, state.executions),
        unmapped_buffers: state.unmapped,
        signal_swapchain_semaphores: state.signals,
    }
}

/// The registries after a submission to device `queue_id`: unchanged where
/// the device is unknown; else as the preparation left them, with the device
/// as it was when the preparation failed, or as it is once the submission is
/// handed over.
pub open spec fn queue_submit_state(global: GlobalView, queue_id: QueueId, ids: Seq<u32>) -> GlobalView {
    if !global.devices.contains_key(queue_id) {
        global
    } else {
        let end = submit_prepared(global, queue_id, ids);
        GlobalView {
            devices: global.devices.insert(
                queue_id,
                if end.failed is Some {
                    end.device
                } else {
                    device_handed_over(end.device, end.executions)
                },
            ),
            ..end.global
        }
    }
}

/// A copy of a command buffer.
fn copy_command_buffer(buffer: &RawCommandBuffer) -> (copy: RawCommandBuffer)
    ensures
        copy@ == buffer@,
{
    let mut commands: Vec<Command> = Vec::new();
    let mut i: usize = 0;
    while i < buffer.commands.len()
        invariant
            i <= buffer.commands.len(),
            commands@ == buffer.commands@.take(i as int),
        decreases buffer.commands.len() - i,
    {
        commands.push(buffer.commands[i]);
        i += 1;
        assert(commands@ =~= buffer.commands@.take(i as int));
    }
    assert(buffer.commands@.take(i as int) =~= buffer.commands@);
    RawCommandBuffer { commands }
}

/// Adds copies of the command buffers of the command pools `executions`,
/// pool by pool, to `refs`.
fn collect_command_buffers(refs: &mut Vec<RawCommandBuffer>, executions: &Vec<EncoderInFlight>)
    ensures
        crate::hal::command_lists(final(refs)@) == crate::hal::command_lists(old(refs)@)
            + all_command_buffers(encoder_views(executions@)),
{
    let ghost start = crate::hal::command_lists(refs@);
    let ghost views = encoder_views(executions@);
    let mut i: usize = 0;
    assert(views.take(0) =~= Seq::empty());
    assert(crate::hal::command_lists(refs@) =~= start + all_command_buffers(views.take(0)));
    while i < executions.len()
        invariant
            i <= executions.len(),
            views == encoder_views(executions@),
            crate::hal::command_lists(refs@) == start + all_command_buffers(views.take(i as int)),
        decreases executions.len() - i,
    {
        let pool = &executions[i];
        let ghost before = crate::hal::command_lists(refs@);
        let ghost own = crate::hal::command_lists(pool.cmd_buffers@);
        assert(views[i as int].cmd_buffers == own);
        let mut j: usize = 0;
        assert(crate::hal::command_lists(refs@) =~= before + own.take(0));
        while j < pool.cmd_buffers.len()
            invariant
                j <= pool.cmd_buffers.len(),
                own == crate::hal::command_lists(pool.cmd_buffers@),
                crate::hal::command_lists(refs@) == before + own.take(j as int),
            decreases pool.cmd_buffers.len() - j,
        {
            let ghost lists = crate::hal::command_lists(refs@);
            let copy = copy_command_buffer(&pool.cmd_buffers[j]);
            assert(copy@ == own[j as int]);
            refs.push(copy);
            assert(crate::hal::command_lists(refs@) =~= lists.push(own[j as int]));
            j += 1;
            assert(crate::hal::command_lists(refs@) =~= before + own.take(j as int));
        }
        proof {
            assert(own.take(j as int) =~= own);
            let upto = views.take(i as int + 1);
            assert(upto.drop_last() =~= views.take(i as int));
            assert(upto.last() == views[i as int]);
            assert(crate::hal::command_lists(refs@) =~= start + all_command_buffers(upto));
        }
        i += 1;
    }
    assert(views.take(i as int) =~= views);
}

/// The device once the command pools `executions` are handed over for the
/// submission that it has numbered.
pub open spec fn device_handed_over(
    device: DeviceView,
    executions: Seq<EncoderInFlightView>,
) -> DeviceView {
    let writes = device.pending_writes.submitted();
    let retired = if writes.is_full() {
        seq![
            EncoderInFlightView {
                raw: writes.command_encoder,
                cmd_buffers: writes.executing_command_buffers,
            },
        ]
    } else {
        Seq::empty()
    };
    DeviceView {
        pending_writes: PendingWritesView { temp_resources: Seq::empty(), ..writes.recycled() },
        active_submissions: device.active_submissions.push(
            ActiveSubmissionView {
                index: device.active_submission_index,
                last_resources: device.pending_writes.temp_resources,
                encoders: executions + retired,
            },
        ),
        free_encoders: if writes.is_full() && device.free_encoders > 0 {
            (device.free_encoders - 1) as nat
        } else {
            device.free_encoders
        },
        ..device
    }
}

/// The command buffers of a submission: that of the pending writes first,
/// if they recorded any, then those of the command pools `executions`.
pub open spec fn submitted_command_buffers(
    device: DeviceView,
    executions: Seq<EncoderInFlightView>,
) -> Seq<Seq<Command>> {
    let leading = if device.pending_writes.is_active {
        seq![device.pending_writes.command_encoder.commands]
    } else {
        Seq::empty()
    };
    leading + all_command_buffers(executions)
}

impl Device {
    /// Hands the command pools `executions` over for the submission that the
    /// device has numbered: the pending writes end their command buffer,
    /// which leads the submission, and retire their pool if it is full; the
    /// submission is registered as in flight with the staging buffers and
    /// the command pools that it is the last to use. Returns the command
    /// buffers in the order of their execution.
    pub fn hand_over(&mut self, executions: Vec<EncoderInFlight>) -> (command_buffers: Vec<
        RawCommandBuffer,
    >)
        requires
            old(self).wf(),
        ensures
            final(self)@ == device_handed_over(old(self)@, encoder_views(executions@)),
            crate::hal::command_lists(command_buffers@) == submitted_command_buffers(
                old(self)@,
                encoder_views(executions@),
            ),
            final(self).wf(),
    {
        let mut active_executions = executions;
        let mut command_buffers: Vec<RawCommandBuffer> = Vec::new();
        let ghost writes_before = self@.pending_writes;
        let produced = self.pending_writes.pre_submit();
        if produced {
            let last = self.pending_writes.executing_command_buffers.len() - 1;
            let copy = copy_command_buffer(&self.pending_writes.executing_command_buffers[last]);
            command_buffers.push(copy);
            assert(crate::hal::command_lists(command_buffers@) =~= seq![
                writes_before.command_encoder.commands,
            ]);
        } else {
            assert(crate::hal::command_lists(command_buffers@) =~= Seq::empty());
        }
        collect_command_buffers(&mut command_buffers, &active_executions);

        let ghost executions_before = encoder_views(active_executions@);
        match self.pending_writes.post_submit(&mut self.command_allocator) {
            Some(pending_execution) => {
                let ghost retired = pending_execution@;
                active_executions.push(pending_execution);
                assert(encoder_views(active_executions@) =~= executions_before + seq![retired]);
            },
            None => {
                assert(encoder_views(active_executions@) =~= executions_before
                    + Seq::<EncoderInFlightView>::empty());
            },
        }
        // Register the submission with what it is the last to use.
        let mut pending_write_resources: Vec<TempResource> = Vec::new();
        std::mem::swap(&mut pending_write_resources, &mut self.pending_writes.temp_resources);
        let submit_index = self.active_submission_index;
        self.life_tracker.track_submission(
            submit_index,
            pending_write_resources,
            active_executions,
        );
        proof {
            let target = device_handed_over(old(self)@, executions_before);
            assert(self@.pending_writes =~= target.pending_writes);
            assert(self@.active_submissions =~= target.active_submissions);
            assert(self@ =~= target);
        }
        command_buffers
    }
}

impl Global {
    /// Prepares the command buffers `command_buffer_ids` for submission
    /// `submit_index` to `device`, which is kept apart from the registries
    /// meanwhile, up to the first failure.
    fn prepare_command_buffers(
        &mut self,
        device: &mut Device,
        command_buffer_ids: &Vec<u32>,
        submit_index: SubmissionIndex,
        inits: &mut RequiredBufferInits,
        executions: &mut Vec<EncoderInFlight>,
        unmapped: &mut Vec<BufferId>,
        signals: &mut SignalList,
    ) -> (res: Result<(), QueueSubmitError>)
        requires
            old(self).wf(),
            old(device).wf(),
            old(inits)@.wf(),
        ensures
            ({
                let end = prepared(
                    SubmitState {
                        global: old(self)@,
                        device: old(device)@,
                        inits: old(inits)@,
                        executions: encoder_views(old(executions)@),
                        unmapped: old(unmapped)@,
                        signals: old(signals)@,
                        failed: None,
                    },
                    command_buffer_ids@,
                    submit_index,
                );
                &&& final(self)@ == end.global
                &&& final(device)@ == end.device
                &&& final(inits)@ == end.inits
                &&& encoder_views(final(executions)@) == end.executions
                &&& final(unmapped)@ == end.unmapped
                &&& final(signals)@ == end.signals
                &&& res == match end.failed {
                    Some(error) => Err::<(), QueueSubmitError>(error),
                    None => Ok::<(), QueueSubmitError>(()),
                }
            }),
            final(self).wf(),
            final(device).wf(),
            final(inits)@.wf(),
            final(self).devices == old(self).devices,
            final(device).active_submission_index == old(device).active_submission_index,
    {
        let ghost start = SubmitState {
            global: old(self)@,
            device: old(device)@,
            inits: old(inits)@,
            executions: encoder_views(old(executions)@),
            unmapped: old(unmapped)@,
            signals: old(signals)@,
            failed: None,
        };
        let ghost ids = command_buffer_ids@;
        assert(ids.take(0) =~= Seq::empty());
        let mut i: usize = 0;
        while i < command_buffer_ids.len()
            invariant
                i <= command_buffer_ids.len(),
                ids == command_buffer_ids@,
                start == (SubmitState {
                    global: old(self)@,
                    device: old(device)@,
                    inits: old(inits)@,
                    executions: encoder_views(old(executions)@),
                    unmapped: old(unmapped)@,
                    signals: old(signals)@,
                    failed: None,
                }),
                self.wf(),
                device.wf(),
                inits@.wf(),
                self.devices == old(self).devices,
                device.active_submission_index == old(device).active_submission_index,
                prepared(start, ids.take(i as int), submit_index) == (SubmitState {
                    global: self@,
                    device: device@,
                    inits: inits@,
                    executions: encoder_views(executions@),
                    unmapped: unmapped@,
                    signals: signals@,
                    failed: None,
                }),
            decreases command_buffer_ids.len() - i,
        {
            let cmb_id = command_buffer_ids[i];
            let ghost upto = ids.take(i as int + 1);
            proof {
                assert(upto.drop_last() =~= ids.take(i as int));
                assert(upto.last() == cmb_id);
            }
            let prepared_res = self.prepare_command_buffer(
                device,
                cmb_id,
                submit_index,
                inits,
                executions,
                unmapped,
                signals,
            );
            match prepared_res {
                Err(error) => {
                    proof {
                        assert(prepared(start, upto, submit_index).failed == Some(error));
                        assert(upto =~= ids.take(upto.len() as int));
                        lemma_prepared_stops(start, upto, ids, submit_index);
                    }
                    return Err(error);
                },
                Ok(()) => {},
            }
            i += 1;
        }
        assert(ids.take(i as int) =~= ids);
        Ok(())
    }

    /// Submits the command buffers `command_buffer_ids` to the queue of
    /// device `queue_id`, and returns what the backend has to execute under
    /// the new submission index.
    ///
    /// Each command buffer leaves its registry. Its memory, swap chains and
    /// resources are gone through, and it is stitched to what the queue has
    /// run with a transit command buffer. The first destroyed buffer or
    /// texture, buffer that is mapped while the user holds it, or swap chain
    /// without output, ends the submission with the error, the changes up to
    /// it made. Then the uninitialized ranges that
    /// the commands read are filled with zeros by the pending writes, whose
    /// command buffer leads the submission.
    pub fn queue_submit(&mut self, queue_id: QueueId, command_buffer_ids: &Vec<u32>) -> (res: Result<
        Submission,
        QueueSubmitError,
    >)
        requires
            old(self).wf(),
            old(self).can_submit(queue_id),
        ensures
            !old(self)@.devices.contains_key(queue_id) ==> res is Err && res->Err_0
                == QueueSubmitError::Queue(DeviceError::Invalid),
            old(self)@.devices.contains_key(queue_id) ==> {
                let end = submit_prepared(old(self)@, queue_id, command_buffer_ids@);
                match end.failed {
                    Some(error) => res is Err && res->Err_0 == error,
                    None => res is Ok && res->Ok_0@ == submission_of(
                        end,
                        (old(self)@.devices[queue_id].active_submission_index + 1) as u64,
                    ),
                }
            },
            final(self)@ == queue_submit_state(old(self)@, queue_id, command_buffer_ids@),
            final(self).wf(),
            // Every submission, failed or not, spends one index.
            old(self)@.devices.contains_key(queue_id) ==> final(self)@.devices.contains_key(
                queue_id,
            ) && final(self)@.devices[queue_id].active_submission_index == old(
                self,
            )@.devices[queue_id].active_submission_index + 1,
    {
        let mut device = match self.devices.remove(queue_id) {
            Some(device) => device,
            None => {
                assert(self.devices.deep() =~= old(self).devices.deep());
                assert(self@ =~= old(self)@);
                return Err(QueueSubmitError::Queue(DeviceError::Invalid));
            },
        };
        let ghost others = self.devices.deep();
        assert(others =~= old(self).devices.deep().remove(queue_id));
        device.temp_suspected.clear();
        device.active_submission_index += 1;
        let submit_index = device.active_submission_index;
        let mut active_executions: Vec<EncoderInFlight> = Vec::new();
        let mut signal_swapchain_semaphores = SignalList::new();
        let mut unmapped_buffers: Vec<BufferId> = Vec::new();
        let mut required_buffer_inits = RequiredBufferInits::new();
        let ghost start = submit_start(old(self)@, queue_id);
        let ghost ids = command_buffer_ids@;
        proof {
            assert(self@ =~= start.global);
            assert(device@ =~= start.device);
            assert(encoder_views(active_executions@) =~= start.executions);
        }
        let prepared_res = self.prepare_command_buffers(
            &mut device,
            command_buffer_ids,
            submit_index,
            &mut required_buffer_inits,
            &mut active_executions,
            &mut unmapped_buffers,
            &mut signal_swapchain_semaphores,
        );
        let ghost ready = prepared(start, ids, submit_index);
        let filled_res = match prepared_res {
            Err(error) => Err(error),
            Ok(()) => {
                if !required_buffer_inits.is_empty() {
                    device.initialize_buffer_memory(required_buffer_inits, &self.buffers)
                } else {
                    Ok(())
                }
            },
        };
        let ghost end = submit_prepared(old(self)@, queue_id, ids);
        let ghost executions = encoder_views(active_executions@);
        proof {
            assert(self@ =~= end.global);
            assert(device@ =~= end.device);
            assert(executions == end.executions);
            assert(unmapped_buffers@ == end.unmapped);
            assert(signal_swapchain_semaphores@ == end.signals);
        }
        match filled_res {
            Err(error) => {
                let ghost device_after = device@;
                self.devices.insert(queue_id, device);
                proof {
                    assert(self.devices.deep() =~= old(self).devices.deep().insert(
                        queue_id,
                        device_after,
                    ));
                    assert(self@ =~= queue_submit_state(old(self)@, queue_id, ids));
                }
                Err(error)
            },
            Ok(()) => {
                let command_buffers = device.hand_over(active_executions);
                let ghost device_after = device@;
                self.devices.insert(queue_id, device);
                let submission = Submission {
                    index: submit_index,
                    command_buffers,
                    unmapped_buffers,
                    signal_swapchain_semaphores,
                };
                proof {
                    assert(self.devices.deep() =~= old(self).devices.deep().insert(
                        queue_id,
                        device_after,
                    ));
                    assert(self@ =~= queue_submit_state(old(self)@, queue_id, ids));
                    assert(submission@.command_buffers == submitted_command_buffers(
                        end.device,
                        end.executions,
                    ));
                    assert(submission@.unmapped_buffers == end.unmapped);
                    assert(submission@.signal_swapchain_semaphores == end.signals);
                    assert(submission@ =~= submission_of(end, submit_index));
                }
                Ok(submission)
            },
        }
    }

    /// Takes note of how the maintenance of device `queue_id` after a
    /// submission ended. Where it failed, the failure is that of the
    /// submission. Where it succeeded, `maintained` is the last submission
    /// that the backend has finished: the suspicions are spent, the
    /// submissions that are done leave the device, and the temporary
    /// resources that they were the last to use are returned, to be
    /// destroyed.
    pub fn queue_submit_maintained(
        &mut self,
        queue_id: QueueId,
        maintained: Result<SubmissionIndex, WaitIdleError>,
    ) -> (res: Result<Vec<TempResource>, QueueSubmitError>)
        requires
            old(self).wf(),
        ensures
            match maintained {
                Ok(last_done) => if old(self)@.devices.contains_key(queue_id) {
                    let active = old(self)@.devices[queue_id].active_submissions;
                    res is Ok && res->Ok_0@ == resources_of(
                        active.take(done_count(active, last_done) as int),
                    )
                } else {
                    res is Err && res->Err_0 == QueueSubmitError::Queue(DeviceError::Invalid)
                },
                Err(WaitIdleError::Device(error)) => res is Err && res->Err_0
                    == QueueSubmitError::Queue(error),
                Err(WaitIdleError::StuckGpu) => res is Err && res->Err_0
                    == QueueSubmitError::StuckGpu,
            },
            final(self)@ == if maintained is Ok && old(self)@.devices.contains_key(queue_id) {
                GlobalView {
                    devices: old(self)@.devices.insert(
                        queue_id,
                        DeviceView {
                            temp_suspected: SuspectedResourcesView::none(),
                            ..old(self)@.devices[queue_id].triaged(maintained->Ok_0)
                        },
                    ),
                    ..old(self)@
                }
            } else {
                old(self)@
            },
            final(self).wf(),
    {
        match maintained {
            Err(WaitIdleError::Device(error)) => Err(QueueSubmitError::Queue(error)),
            Err(WaitIdleError::StuckGpu) => Err(QueueSubmitError::StuckGpu),
            Ok(last_done) => {
                let mut device = match self.devices.remove(queue_id) {
                    Some(device) => device,
                    None => {
                        assert(self.devices.deep() =~= old(self).devices.deep());
                        assert(self@ =~= old(self)@);
                        return Err(QueueSubmitError::Queue(DeviceError::Invalid));
                    },
                };
                device.temp_suspected.clear();
                let retired = device.triage_submissions(last_done);
                let ghost device_after = device@;
                self.devices.insert(queue_id, device);
                proof {
                    assert(self.devices.deep() =~= old(self).devices.deep().insert(
                        queue_id,
                        device_after,
                    ));
                    assert(device_after =~= (DeviceView {
                        temp_suspected: SuspectedResourcesView::none(),
                        ..old(self)@.devices[queue_id].triaged(last_done)
                    }));
                }
                Ok(retired)
            },
        }
    }
}

} // verus!
