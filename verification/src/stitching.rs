//! What a submission promises of the transitions between its command
//! buffers.

use crate::command::{CommandBufferView, CommandEncoderStatus, TrackerSetView};
use crate::device::EncoderInFlightView;
use crate::hal::{
    buffer_transitions, texture_transitions, BufferBarrier, Command, RawEncoderView,
    TextureBarrier, UsageRange,
};
use crate::hub::GlobalView;
use crate::memory_init::MemoryInitTrackerAction;
use crate::queue::{gathered, InitGathering};
use crate::resource::{BufferView, Texture};
use crate::submit::{
    buffers_marked, lemma_prepared_stops, prepare_step, prepared, step_buffers, step_gathered,
    step_swap_chains, stitched_buffer_barriers, stitched_texture_barriers, textures_marked,
    transit_commands, BufferMarking, SubmitState, TextureMarking,
};
use crate::track::{
    coalesced, covers_sub_resource, index_limit, layer_uses, lemma_pending_buffer_merge_holds,
    lemma_pending_texture_merge_from, lemma_texture_merge_covers, merge_transition, merged,
    needs_transition,
    pending_buffer_merge, pending_texture_merge, textures_merged, textures_wf, tracked_ids,
    transitions_cover, PendingBufferTransition, PendingTextureTransition,
};
use crate::types::{BufferId, RawHandle, SubmissionIndex, TextureId};
use vstd::prelude::*;

verus! {

/// Whether buffer `id` is registered and not destroyed.
pub open spec fn is_live(buffers: Map<u32, BufferView>, id: BufferId) -> bool {
    buffers.contains_key(id) && buffers[id].raw is Some
}

/// Whether no registered buffer but `id` is the backend's buffer `raw`.
pub open spec fn handle_is_of(buffers: Map<u32, BufferView>, raw: RawHandle, id: BufferId) -> bool {
    forall|other: u32|
        buffers.contains_key(other) && buffers[other].raw == Some(raw) ==> other == id
}

/// The command that changes the use of the backend's buffer `raw` as
/// `usage` says.
pub open spec fn buffer_transition(raw: RawHandle, usage: UsageRange) -> Command {
    Command::TransitionBuffer(BufferBarrier { buffer: raw, usage })
}

/// Whether `after` holds the buffers that `before` holds, each with the
/// handle that it has there.
pub open spec fn same_handles(before: Map<u32, BufferView>, after: Map<u32, BufferView>) -> bool {
    forall|id: u32|
        #![trigger after.contains_key(id)]
        #![trigger after[id]]
        before.contains_key(id) == after.contains_key(id) && (before.contains_key(id)
            ==> before[id].raw == after[id].raw)
}

/// Whether texture `id` is registered and not destroyed.
pub open spec fn texture_is_live(textures: Map<u32, Texture>, id: TextureId) -> bool {
    textures.contains_key(id) && textures[id].raw is Some
}

/// Whether no registered texture but `id` is the backend's texture `raw`.
pub open spec fn texture_handle_is_of(
    textures: Map<u32, Texture>,
    raw: RawHandle,
    id: TextureId,
) -> bool {
    forall|other: u32|
        textures.contains_key(other) && textures[other].raw == Some(raw) ==> other == id
}

/// Whether `after` holds the textures that `before` holds, each with the
/// handle that it has there.
pub open spec fn same_texture_handles(
    before: Map<u32, Texture>,
    after: Map<u32, Texture>,
) -> bool {
    forall|id: u32|
        #![trigger after.contains_key(id)]
        #![trigger after[id]]
        before.contains_key(id) == after.contains_key(id) && (before.contains_key(id)
            ==> before[id].raw == after[id].raw)
}

/// Whether the `count` indices from `base` on hold `index`.
pub open spec fn range_holds(base: u32, count: Option<u32>, index: u32) -> bool {
    count is Some && base <= index < base + count.unwrap()
}

/// Whether `command` changes the use of layer `layer` of mip level `mip` of
/// the backend's texture `raw` as `usage` says.
pub open spec fn texture_transition_covers(
    command: Command,
    raw: RawHandle,
    mip: u32,
    layer: u32,
    usage: UsageRange,
) -> bool {
    command matches Command::TransitionTexture(barrier) && barrier.texture == raw
        && barrier.usage == usage && range_holds(
        barrier.range.base_mip_level,
        barrier.range.mip_level_count,
        mip,
    ) && range_holds(barrier.range.base_array_layer, barrier.range.array_layer_count, layer)
}

/// Whether the command buffers `ids` are registered and finished, and no
/// two of them are the same.
pub open spec fn all_finished(command_buffers: Map<u32, CommandBufferView>, ids: Seq<u32>) -> bool {
    &&& forall|i: int|
        0 <= i < ids.len() ==> command_buffers.contains_key(#[trigger] ids[i])
            && command_buffers[ids[i]].status == CommandEncoderStatus::Finished
    &&& forall|i: int, j: int| 0 <= i < j < ids.len() ==> ids[i] != ids[j]
}

/// Every identifier below `bound` that `states` holds is among those
/// tracked.
proof fn lemma_tracked_ids_hold<T>(states: Map<u32, T>, bound: nat, id: u32)
    requires
        states.contains_key(id),
        id < bound,
    ensures
        tracked_ids(states, bound).contains(id),
    decreases bound,
{
    let all = tracked_ids(states, bound);
    if id == bound - 1 {
        assert(all.last() == id);
    } else {
        let before = tracked_ids(states, (bound - 1) as nat);
        lemma_tracked_ids_hold(states, (bound - 1) as nat, id);
        let at = choose|at: int| 0 <= at < before.len() && before[at] == id;
        assert(all[at] == id);
    }
}

/// A marking that did not stop has found every one of its buffers
/// registered and not destroyed, and has left it so.
proof fn lemma_marked_buffers_live(
    state: BufferMarking,
    ids: Seq<BufferId>,
    submit_index: SubmissionIndex,
    id: BufferId,
)
    requires
        buffers_marked(state, ids, submit_index).failed is None,
        ids.contains(id) || is_live(state.buffers, id),
    ensures
        is_live(buffers_marked(state, ids, submit_index).buffers, id),
    decreases ids.len(),
{
    if ids.len() > 0 {
        if ids.last() != id {
            if ids.contains(id) {
                let at = choose|at: int| 0 <= at < ids.len() && ids[at] == id;
                assert(ids.drop_last()[at] == id);
            }
            lemma_marked_buffers_live(state, ids.drop_last(), submit_index, id);
        }
    }
}

/// The barriers of a transit command buffer carry out every pending
/// transition of a buffer that is registered and not destroyed.
proof fn lemma_stitched_has(
    pending: Seq<PendingBufferTransition>,
    buffers: Map<u32, BufferView>,
    transition: PendingBufferTransition,
)
    requires
        pending.contains(transition),
        is_live(buffers, transition.id),
    ensures
        stitched_buffer_barriers(pending, buffers).contains(
            transition.hal(buffers[transition.id].raw.unwrap()),
        ),
    decreases pending.len(),
{
    let all = stitched_buffer_barriers(pending, buffers);
    let barrier = transition.hal(buffers[transition.id].raw.unwrap());
    let before = stitched_buffer_barriers(pending.drop_last(), buffers);
    if pending.last() == transition {
        assert(all.last() == barrier);
    } else {
        let at = choose|at: int| 0 <= at < pending.len() && pending[at] == transition;
        assert(pending.drop_last()[at] == transition);
        lemma_stitched_has(pending.drop_last(), buffers, transition);
        let place = choose|place: int| 0 <= place < before.len() && before[place] == barrier;
        assert(all[place] == barrier);
    }
}

/// Every barrier of a transit command buffer carries out a pending
/// transition of a buffer that is registered and not destroyed.
proof fn lemma_stitched_from(
    pending: Seq<PendingBufferTransition>,
    buffers: Map<u32, BufferView>,
    barrier: BufferBarrier,
) -> (transition: PendingBufferTransition)
    requires
        stitched_buffer_barriers(pending, buffers).contains(barrier),
    ensures
        pending.contains(transition),
        is_live(buffers, transition.id),
        barrier == transition.hal(buffers[transition.id].raw.unwrap()),
    decreases pending.len(),
{
    let all = stitched_buffer_barriers(pending, buffers);
    let before = stitched_buffer_barriers(pending.drop_last(), buffers);
    let at = choose|at: int| 0 <= at < all.len() && all[at] == barrier;
    if pending.len() == 0 {
        pending[0]
    } else if at < before.len() {
        assert(before[at] == barrier);
        let transition = lemma_stitched_from(pending.drop_last(), buffers, barrier);
        let place = choose|place: int|
            0 <= place < pending.drop_last().len() && pending.drop_last()[place] == transition;
        assert(pending[place] == transition);
        transition
    } else {
        assert(pending[pending.len() - 1] == pending.last());
        pending.last()
    }
}

/// The commands that change the use of a buffer in a transit command buffer
/// are those of its buffer barriers.
proof fn lemma_transit_buffer_commands(
    buffers: Seq<BufferBarrier>,
    textures: Seq<TextureBarrier>,
    barrier: BufferBarrier,
)
    ensures
        (buffer_transitions(buffers) + texture_transitions(textures)).contains(
            Command::TransitionBuffer(barrier),
        ) <==> buffers.contains(barrier),
{
    let all = buffer_transitions(buffers) + texture_transitions(textures);
    let command = Command::TransitionBuffer(barrier);
    if buffers.contains(barrier) {
        let at = choose|at: int| 0 <= at < buffers.len() && buffers[at] == barrier;
        assert(all[at] == command);
    }
    if all.contains(command) {
        let at = choose|at: int| 0 <= at < all.len() && all[at] == command;
        if at < buffers.len() {
            assert(buffers[at] == barrier);
        } else {
            assert(all[at] == Command::TransitionTexture(textures[at - buffers.len()]));
        }
    }
}

/// A marking that did not stop has found every one of its textures
/// registered and not destroyed, and has left it so.
proof fn lemma_marked_textures_live(
    state: TextureMarking,
    ids: Seq<TextureId>,
    submit_index: SubmissionIndex,
    id: TextureId,
)
    requires
        textures_marked(state, ids, submit_index).failed is None,
        ids.contains(id) || texture_is_live(state.textures, id),
    ensures
        texture_is_live(textures_marked(state, ids, submit_index).textures, id),
    decreases ids.len(),
{
    if ids.len() > 0 {
        if ids.last() != id {
            if ids.contains(id) {
                let at = choose|at: int| 0 <= at < ids.len() && ids[at] == id;
                assert(ids.drop_last()[at] == id);
            }
            lemma_marked_textures_live(state, ids.drop_last(), submit_index, id);
        }
    }
}

/// The barriers of a transit command buffer carry out every pending
/// transition of a texture that is registered and not destroyed.
proof fn lemma_stitched_texture_has(
    pending: Seq<PendingTextureTransition>,
    textures: Map<u32, Texture>,
    transition: PendingTextureTransition,
)
    requires
        pending.contains(transition),
        texture_is_live(textures, transition.id),
    ensures
        stitched_texture_barriers(pending, textures).contains(
            transition.hal(textures[transition.id].raw.unwrap()),
        ),
    decreases pending.len(),
{
    let all = stitched_texture_barriers(pending, textures);
    let barrier = transition.hal(textures[transition.id].raw.unwrap());
    let before = stitched_texture_barriers(pending.drop_last(), textures);
    if pending.last() == transition {
        assert(all.last() == barrier);
    } else {
        let at = choose|at: int| 0 <= at < pending.len() && pending[at] == transition;
        assert(pending.drop_last()[at] == transition);
        lemma_stitched_texture_has(pending.drop_last(), textures, transition);
        let place = choose|place: int| 0 <= place < before.len() && before[place] == barrier;
        assert(all[place] == barrier);
    }
}

/// Every barrier of a transit command buffer carries out a pending
/// transition of a texture that is registered and not destroyed.
proof fn lemma_stitched_texture_from(
    pending: Seq<PendingTextureTransition>,
    textures: Map<u32, Texture>,
    barrier: TextureBarrier,
) -> (transition: PendingTextureTransition)
    requires
        stitched_texture_barriers(pending, textures).contains(barrier),
    ensures
        pending.contains(transition),
        texture_is_live(textures, transition.id),
        barrier == transition.hal(textures[transition.id].raw.unwrap()),
    decreases pending.len(),
{
    let all = stitched_texture_barriers(pending, textures);
    let before = stitched_texture_barriers(pending.drop_last(), textures);
    let at = choose|at: int| 0 <= at < all.len() && all[at] == barrier;
    if pending.len() == 0 {
        pending[0]
    } else if at < before.len() {
        assert(before[at] == barrier);
        let transition = lemma_stitched_texture_from(pending.drop_last(), textures, barrier);
        let place = choose|place: int|
            0 <= place < pending.drop_last().len() && pending.drop_last()[place] == transition;
        assert(pending[place] == transition);
        transition
    } else {
        assert(pending[pending.len() - 1] == pending.last());
        pending.last()
    }
}

/// The commands that change the use of a texture in a transit command
/// buffer are those of its texture barriers.
proof fn lemma_transit_texture_commands(
    buffers: Seq<BufferBarrier>,
    textures: Seq<TextureBarrier>,
    barrier: TextureBarrier,
)
    ensures
        (buffer_transitions(buffers) + texture_transitions(textures)).contains(
            Command::TransitionTexture(barrier),
        ) <==> textures.contains(barrier),
{
    let all = buffer_transitions(buffers) + texture_transitions(textures);
    let command = Command::TransitionTexture(barrier);
    if textures.contains(barrier) {
        let at = choose|at: int| 0 <= at < textures.len() && textures[at] == barrier;
        assert(all[buffers.len() + at] == command);
    }
    if all.contains(command) {
        let at = choose|at: int| 0 <= at < all.len() && all[at] == command;
        if at < buffers.len() {
            assert(all[at] == Command::TransitionBuffer(buffers[at]));
        } else {
            assert(textures[at - buffers.len()] == barrier);
        }
    }
}

/// The barrier of a transition covers a sub-resource of the backend's
/// texture in the way in which the transition covers it.
proof fn lemma_barrier_covers(
    transition: PendingTextureTransition,
    raw: RawHandle,
    mip: u32,
    layer: u32,
    usage: UsageRange,
)
    ensures
        texture_transition_covers(
            Command::TransitionTexture(transition.hal(raw)),
            raw,
            mip,
            layer,
            usage,
        ) <==> covers_sub_resource(transition, transition.id, mip, layer, usage),
{
}

/// The transit command buffer that lets a command stream run after others,
/// where both it and they use layer `layer` of mip level `mip` of texture
/// `id`, which is registered and not destroyed. One of its commands changes
/// the use of that sub-resource of the backend's texture from the use that
/// the others left it in to the use that the stream starts with, if the two
/// differ. Where no other registered texture has that handle, none changes
/// the use of the sub-resource in another way, and none at all if the two
/// uses are the same.
pub proof fn lemma_transit_stitches_texture(
    base: TrackerSetView,
    head: TrackerSetView,
    buffers: Map<u32, BufferView>,
    textures: Map<u32, Texture>,
    id: TextureId,
    mip: u32,
    layer: u32,
)
    requires
        textures_wf(head.textures),
        layer_uses(base.textures, id, mip).contains_key(layer),
        layer_uses(head.textures, id, mip).contains_key(layer),
        texture_is_live(textures, id),
    ensures
        ({
            let left = layer_uses(base.textures, id, mip)[layer].last;
            let entered = layer_uses(head.textures, id, mip)[layer].first;
            let raw = textures[id].raw.unwrap();
            let transit = transit_commands(base, head, buffers, textures);
            &&& left != entered ==> exists|i: int|
                0 <= i < transit.len() && texture_transition_covers(
                    #[trigger] transit[i],
                    raw,
                    mip,
                    layer,
                    UsageRange { start: left, end: entered },
                )
            &&& texture_handle_is_of(textures, raw, id) ==> forall|i: int, usage: UsageRange|
                0 <= i < transit.len() && #[trigger] texture_transition_covers(
                    transit[i],
                    raw,
                    mip,
                    layer,
                    usage,
                ) ==> left != entered && usage == (UsageRange { start: left, end: entered })
        }),
{
    let left = layer_uses(base.textures, id, mip)[layer].last;
    let entered = layer_uses(head.textures, id, mip)[layer].first;
    let expected = UsageRange { start: left, end: entered };
    let raw = textures[id].raw.unwrap();
    let pending = coalesced(pending_texture_merge(base.textures, head.textures, index_limit()));
    let barriers = stitched_texture_barriers(pending, textures);
    let others = stitched_buffer_barriers(
        pending_buffer_merge(base.buffers, head.buffers, index_limit()),
        buffers,
    );
    let transit = transit_commands(base, head, buffers, textures);
    assert(transit == buffer_transitions(others) + texture_transitions(barriers));
    lemma_texture_merge_covers(base.textures, head.textures, id, mip, layer);
    if left != entered {
        let k = choose|k: int|
            0 <= k < pending.len() && covers_sub_resource(
                #[trigger] pending[k],
                id,
                mip,
                layer,
                expected,
            );
        let transition = pending[k];
        lemma_stitched_texture_has(pending, textures, transition);
        lemma_transit_texture_commands(others, barriers, transition.hal(raw));
        lemma_barrier_covers(transition, raw, mip, layer, expected);
        let command = Command::TransitionTexture(transition.hal(raw));
        let i = choose|i: int| 0 <= i < transit.len() && transit[i] == command;
        assert(texture_transition_covers(transit[i], raw, mip, layer, expected));
    }
    if texture_handle_is_of(textures, raw, id) {
        assert forall|i: int, usage: UsageRange|
            0 <= i < transit.len() && #[trigger] texture_transition_covers(
                transit[i],
                raw,
                mip,
                layer,
                usage,
            ) implies left != entered && usage == expected by {
            let barrier = transit[i]->TransitionTexture_0;
            assert(transit.contains(Command::TransitionTexture(barrier)));
            lemma_transit_texture_commands(others, barriers, barrier);
            let transition = lemma_stitched_texture_from(pending, textures, barrier);
            assert(transition.id == id);
            lemma_barrier_covers(transition, raw, mip, layer, usage);
            let k = choose|k: int| 0 <= k < pending.len() && pending[k] == transition;
            assert(covers_sub_resource(pending[k], id, mip, layer, usage));
            assert(transitions_cover(pending, id, mip, layer, usage));
        }
    }
}

/// The transit command buffer that lets a command stream run after others,
/// where both it and they use buffer `id`, which is registered and not
/// destroyed. It holds the transition of the backend's buffer from the use
/// that the others left it in to the use that the stream starts with, if the
/// two differ. Where no other registered buffer has that handle, it holds no
/// other transition of the backend's buffer, and none if the two uses are
/// the same.
pub proof fn lemma_transit_stitches_buffer(
    base: TrackerSetView,
    head: TrackerSetView,
    buffers: Map<u32, BufferView>,
    textures: Map<u32, Texture>,
    id: BufferId,
)
    requires
        base.buffers.contains_key(id),
        head.buffers.contains_key(id),
        is_live(buffers, id),
    ensures
        ({
            let left = base.buffers[id].last;
            let entered = head.buffers[id].first;
            let raw = buffers[id].raw.unwrap();
            let transit = transit_commands(base, head, buffers, textures);
            &&& left != entered ==> transit.contains(
                buffer_transition(raw, UsageRange { start: left, end: entered }),
            )
            &&& handle_is_of(buffers, raw, id) ==> forall|usage: UsageRange| #[trigger]
                transit.contains(buffer_transition(raw, usage)) ==> left != entered && usage == (
                UsageRange { start: left, end: entered })
        }),
{
    let left = base.buffers[id].last;
    let entered = head.buffers[id].first;
    let raw = buffers[id].raw.unwrap();
    let pending = pending_buffer_merge(base.buffers, head.buffers, index_limit());
    let barriers = stitched_buffer_barriers(pending, buffers);
    let others = stitched_texture_barriers(
        coalesced(pending_texture_merge(base.textures, head.textures, index_limit())),
        textures,
    );
    let transit = transit_commands(base, head, buffers, textures);
    assert(transit == buffer_transitions(barriers) + texture_transitions(others));
    lemma_pending_buffer_merge_holds(base.buffers, head.buffers, index_limit());
    let expected = merge_transition(base.buffers, head.buffers, id);
    if left != entered {
        assert(needs_transition(base.buffers, head.buffers, id));
        assert(pending.contains(expected));
        lemma_stitched_has(pending, buffers, expected);
        lemma_transit_buffer_commands(barriers, others, expected.hal(raw));
    }
    if handle_is_of(buffers, raw, id) {
        assert forall|usage: UsageRange| #[trigger]
            transit.contains(buffer_transition(raw, usage)) implies left != entered && usage == (
            UsageRange { start: left, end: entered }) by {
            let barrier = BufferBarrier { buffer: raw, usage };
            lemma_transit_buffer_commands(barriers, others, barrier);
            let transition = lemma_stitched_from(pending, buffers, barrier);
            assert(transition.id == id);
            assert(needs_transition(base.buffers, head.buffers, id));
            assert(transition == expected);
        }
    }
}

/// Gathering the memory that commands use neither registers nor destroys a
/// buffer.
proof fn lemma_gathered_same_handles(state: InitGathering, actions: Seq<MemoryInitTrackerAction>)
    ensures
        same_handles(state.buffers, gathered(state, actions).buffers),
    decreases actions.len(),
{
    if actions.len() > 0 {
        lemma_gathered_same_handles(state, actions.drop_last());
    }
}

/// Marking buffers neither registers nor destroys one.
proof fn lemma_marked_same_handles(
    state: BufferMarking,
    ids: Seq<BufferId>,
    submit_index: SubmissionIndex,
)
    ensures
        same_handles(state.buffers, buffers_marked(state, ids, submit_index).buffers),
    decreases ids.len(),
{
    if ids.len() > 0 {
        lemma_marked_same_handles(state, ids.drop_last(), submit_index);
    }
}

/// Marking textures neither registers nor destroys one.
proof fn lemma_marked_same_texture_handles(
    state: TextureMarking,
    ids: Seq<TextureId>,
    submit_index: SubmissionIndex,
)
    ensures
        same_texture_handles(state.textures, textures_marked(state, ids, submit_index).textures),
    decreases ids.len(),
{
    if ids.len() > 0 {
        lemma_marked_same_texture_handles(state, ids.drop_last(), submit_index);
    }
}

/// The preparation of a submission neither registers nor destroys a buffer
/// or a texture.
pub proof fn lemma_prepare_step_same_handles(
    state: SubmitState,
    id: u32,
    submit_index: SubmissionIndex,
)
    ensures
        same_handles(state.global.buffers, prepare_step(state, id, submit_index).global.buffers),
        same_texture_handles(
            state.global.textures,
            prepare_step(state, id, submit_index).global.textures,
        ),
{
    reveal(prepare_step);
    if state.global.command_buffers.contains_key(id) {
        let command_buffer = state.global.command_buffers[id];
        let taken = SubmitState {
            global: GlobalView {
                command_buffers: state.global.command_buffers.remove(id),
                ..state.global
            },
            device: state.device.submit_traced(submit_index, command_buffer.commands),
            ..state
        };
        let found = step_gathered(taken, command_buffer);
        let signalled = step_swap_chains(found, command_buffer, submit_index);
        lemma_gathered_same_handles(
            InitGathering { inits: taken.inits, buffers: taken.global.buffers, failed: None },
            command_buffer.buffer_memory_init_actions,
        );
        lemma_marked_same_handles(
            BufferMarking {
                buffers: signalled.global.buffers,
                suspected: signalled.device.temp_suspected.buffers,
                unmapped: signalled.unmapped,
                failed: None,
            },
            tracked_ids(command_buffer.trackers.buffers, index_limit()),
            submit_index,
        );
        let marked = step_buffers(signalled, command_buffer, submit_index);
        lemma_marked_same_texture_handles(
            TextureMarking {
                textures: marked.global.textures,
                suspected: marked.device.temp_suspected.textures,
                failed: None,
            },
            tracked_ids(command_buffer.trackers.textures, index_limit()),
            submit_index,
        );
    }
}

/// What the preparation of a submission does with a finished command buffer
/// where nothing fails: the command buffer leaves its registry and no other
/// does; every buffer and texture that it uses is registered and not
/// destroyed; the queue's trackers take its last uses; and its command pool
/// joins those to execute, led by the transit command buffer that stitches
/// it to what the queue has run.
pub proof fn lemma_prepare_step_stitches(
    state: SubmitState,
    id: u32,
    submit_index: SubmissionIndex,
)
    requires
        state.global.command_buffers.contains_key(id),
        state.global.command_buffers[id].status == CommandEncoderStatus::Finished,
        prepare_step(state, id, submit_index).failed is None,
    ensures
        ({
            let command_buffer = state.global.command_buffers[id];
            let end = prepare_step(state, id, submit_index);
            &&& end.global.command_buffers == state.global.command_buffers.remove(id)
            &&& forall|buffer: u32|
                command_buffer.trackers.buffers.contains_key(buffer) ==> #[trigger] is_live(
                    end.global.buffers,
                    buffer,
                )
            &&& forall|texture: u32|
                command_buffer.trackers.textures.contains_key(texture)
                    ==> #[trigger] texture_is_live(end.global.textures, texture)
            &&& end.device.trackers.buffers == merged(
                state.device.trackers.buffers,
                command_buffer.trackers.buffers,
            )
            &&& end.device.trackers.textures == textures_merged(
                state.device.trackers.textures,
                command_buffer.trackers.textures,
            )
            &&& end.executions == state.executions.push(
                EncoderInFlightView {
                    raw: RawEncoderView { is_encoding: false, commands: Seq::empty() },
                    cmd_buffers: seq![
                        transit_commands(
                            state.device.trackers,
                            command_buffer.trackers,
                            end.global.buffers,
                            end.global.textures,
                        ),
                    ] + command_buffer.encoder.list,
                },
            )
        }),
{
    reveal(prepare_step);
    let command_buffer = state.global.command_buffers[id];
    let end = prepare_step(state, id, submit_index);
    let taken = SubmitState {
        global: GlobalView {
            command_buffers: state.global.command_buffers.remove(id),
            ..state.global
        },
        device: state.device.submit_traced(submit_index, command_buffer.commands),
        ..state
    };
    let signalled = step_swap_chains(
        step_gathered(taken, command_buffer),
        command_buffer,
        submit_index,
    );
    let marking = BufferMarking {
        buffers: signalled.global.buffers,
        suspected: signalled.device.temp_suspected.buffers,
        unmapped: signalled.unmapped,
        failed: None,
    };
    let ids = tracked_ids(command_buffer.trackers.buffers, index_limit());
    assert(end.global.buffers == buffers_marked(marking, ids, submit_index).buffers);
    assert forall|buffer: u32|
        command_buffer.trackers.buffers.contains_key(buffer) implies #[trigger] is_live(
        end.global.buffers,
        buffer,
    ) by {
        lemma_tracked_ids_hold(command_buffer.trackers.buffers, index_limit(), buffer);
        lemma_marked_buffers_live(marking, ids, submit_index, buffer);
    }
    let marked = step_buffers(signalled, command_buffer, submit_index);
    let texture_marking = TextureMarking {
        textures: marked.global.textures,
        suspected: marked.device.temp_suspected.textures,
        failed: None,
    };
    let texture_ids = tracked_ids(command_buffer.trackers.textures, index_limit());
    assert(end.global.textures == textures_marked(
        texture_marking,
        texture_ids,
        submit_index,
    ).textures);
    assert forall|texture: u32|
        command_buffer.trackers.textures.contains_key(texture) implies #[trigger] texture_is_live(
        end.global.textures,
        texture,
    ) by {
        lemma_tracked_ids_hold(command_buffer.trackers.textures, index_limit(), texture);
        lemma_marked_textures_live(texture_marking, texture_ids, submit_index, texture);
    }
}

/// Where the preparation of the command buffers `ids`, which are finished
/// and all different, does not fail, it has not failed after the first
/// `count` of them either. By then those that follow are still registered as
/// they were, and one command pool for each of the first `count` has joined
/// those to execute, in their order.
pub proof fn lemma_prepared_in_order(
    state: SubmitState,
    ids: Seq<u32>,
    submit_index: SubmissionIndex,
    count: int,
)
    requires
        state.failed is None,
        all_finished(state.global.command_buffers, ids),
        prepared(state, ids, submit_index).failed is None,
        0 <= count <= ids.len(),
    ensures
        ({
            let upto = prepared(state, ids.take(count), submit_index);
            &&& upto.failed is None
            &&& forall|later: int|
                count <= later < ids.len() ==> upto.global.command_buffers.contains_key(
                    #[trigger] ids[later],
                ) && upto.global.command_buffers[ids[later]]
                    == state.global.command_buffers[ids[later]]
            &&& upto.executions.len() == state.executions.len() + count
            &&& forall|earlier: int|
                0 <= earlier < count ==> #[trigger] upto.executions[state.executions.len()
                    + earlier] == prepared(
                    state,
                    ids.take(earlier + 1),
                    submit_index,
                ).executions.last()
        }),
    decreases count,
{
    let upto = prepared(state, ids.take(count), submit_index);
    if upto.failed is Some {
        lemma_prepared_stops(state, ids.take(count), ids, submit_index);
    }
    if count > 0 {
        let before = prepared(state, ids.take(count - 1), submit_index);
        lemma_prepared_in_order(state, ids, submit_index, count - 1);
        assert(ids.take(count).drop_last() =~= ids.take(count - 1));
        assert(ids.take(count).last() == ids[count - 1]);
        assert(upto == prepare_step(before, ids[count - 1], submit_index));
        lemma_prepare_step_stitches(before, ids[count - 1], submit_index);
        assert forall|earlier: int| 0 <= earlier < count implies #[trigger] upto.executions[state.executions.len()
            + earlier] == prepared(state, ids.take(earlier + 1), submit_index).executions.last() by {
            if earlier < count - 1 {
                assert(upto.executions[state.executions.len() + earlier]
                    == before.executions[state.executions.len() + earlier]);
            }
        }
    } else {
        assert(ids.take(0) =~= Seq::<u32>::empty());
    }
}

/// The preparation of a submission neither registers nor destroys a buffer
/// or a texture, from any number of its command buffers on.
pub proof fn lemma_prepared_same_handles(
    state: SubmitState,
    ids: Seq<u32>,
    submit_index: SubmissionIndex,
    count: int,
)
    requires
        0 <= count <= ids.len(),
    ensures
        same_handles(
            prepared(state, ids.take(count), submit_index).global.buffers,
            prepared(state, ids, submit_index).global.buffers,
        ),
        same_texture_handles(
            prepared(state, ids.take(count), submit_index).global.textures,
            prepared(state, ids, submit_index).global.textures,
        ),
    decreases ids.len(),
{
    if count < ids.len() {
        let before = prepared(state, ids.drop_last(), submit_index);
        assert(ids.drop_last().take(count) =~= ids.take(count));
        lemma_prepared_same_handles(state, ids.drop_last(), submit_index, count);
        lemma_prepare_step_same_handles(before, ids.last(), submit_index);
    } else {
        assert(ids.take(count) =~= ids);
    }
}

/// After command buffer `first` of a preparation that does not fail, and
/// while no later one uses buffer `id`, the queue's trackers hold the buffer
/// in the use that command buffer `first` left it in.
proof fn lemma_prepared_last_use(
    state: SubmitState,
    ids: Seq<u32>,
    submit_index: SubmissionIndex,
    first: int,
    count: int,
    id: BufferId,
)
    requires
        state.failed is None,
        all_finished(state.global.command_buffers, ids),
        prepared(state, ids, submit_index).failed is None,
        0 <= first < count <= ids.len(),
        state.global.command_buffers[ids[first]].trackers.buffers.contains_key(id),
        forall|between: int|
            first < between < count ==> !state.global.command_buffers[#[trigger] ids[between]].trackers.buffers.contains_key(
                id,
            ),
    ensures
        ({
            let uses = prepared(state, ids.take(count), submit_index).device.trackers.buffers;
            uses.contains_key(id) && uses[id].last
                == state.global.command_buffers[ids[first]].trackers.buffers[id].last
        }),
    decreases count,
{
    let before = prepared(state, ids.take(count - 1), submit_index);
    lemma_prepared_in_order(state, ids, submit_index, count - 1);
    lemma_prepared_in_order(state, ids, submit_index, count);
    assert(ids.take(count).drop_last() =~= ids.take(count - 1));
    assert(ids.take(count).last() == ids[count - 1]);
    assert(before.global.command_buffers[ids[count - 1]]
        == state.global.command_buffers[ids[count - 1]]);
    lemma_prepare_step_stitches(before, ids[count - 1], submit_index);
    if first < count - 1 {
        lemma_prepared_last_use(state, ids, submit_index, first, count - 1, id);
    }
}

/// The barrier stitching of a submission. The command buffers `ids`, which
/// are finished and all different, are prepared and nothing fails. Command
/// buffers `first` and `second` of them use buffer `id`, and none between
/// them does. The transit command buffer that leads the command buffers of
/// `second` holds the transition of the backend's buffer from the use that
/// `first` left it in to the use that `second` starts with, if the two
/// differ. Where no other registered buffer has that handle, it holds no
/// other transition of the backend's buffer, and none if the two uses are
/// the same.
pub proof fn lemma_submission_stitches_buffers(
    state: SubmitState,
    ids: Seq<u32>,
    submit_index: SubmissionIndex,
    first: int,
    second: int,
    id: BufferId,
)
    requires
        state.failed is None,
        all_finished(state.global.command_buffers, ids),
        prepared(state, ids, submit_index).failed is None,
        0 <= first < second < ids.len(),
        state.global.command_buffers[ids[first]].trackers.buffers.contains_key(id),
        state.global.command_buffers[ids[second]].trackers.buffers.contains_key(id),
        forall|between: int|
            first < between < second ==> !state.global.command_buffers[#[trigger] ids[between]].trackers.buffers.contains_key(
                id,
            ),
    ensures
        ({
            let left = state.global.command_buffers[ids[first]].trackers.buffers[id].last;
            let entered = state.global.command_buffers[ids[second]].trackers.buffers[id].first;
            let end = prepared(state, ids, submit_index);
            let raw = end.global.buffers[id].raw.unwrap();
            let transit = end.executions[state.executions.len() + second].cmd_buffers[0];
            &&& is_live(end.global.buffers, id)
            &&& end.executions.len() == state.executions.len() + ids.len()
            &&& left != entered ==> transit.contains(
                buffer_transition(raw, UsageRange { start: left, end: entered }),
            )
            &&& handle_is_of(end.global.buffers, raw, id) ==> forall|usage: UsageRange| #[trigger]
                transit.contains(buffer_transition(raw, usage)) ==> left != entered && usage == (
                UsageRange { start: left, end: entered })
        }),
{
    let head = state.global.command_buffers[ids[second]];
    let before = prepared(state, ids.take(second), submit_index);
    let after = prepared(state, ids.take(second + 1), submit_index);
    let end = prepared(state, ids, submit_index);
    lemma_prepared_in_order(state, ids, submit_index, second);
    lemma_prepared_in_order(state, ids, submit_index, second + 1);
    lemma_prepared_in_order(state, ids, submit_index, ids.len() as int);
    assert(ids.take(ids.len() as int) =~= ids);
    assert(ids.take(second + 1).drop_last() =~= ids.take(second));
    assert(ids.take(second + 1).last() == ids[second]);
    assert(after == prepare_step(before, ids[second], submit_index));
    assert(before.global.command_buffers[ids[second]] == head);
    lemma_prepare_step_stitches(before, ids[second], submit_index);
    lemma_prepared_last_use(state, ids, submit_index, first, second, id);
    assert(is_live(after.global.buffers, id));
    lemma_transit_stitches_buffer(
        before.device.trackers,
        head.trackers,
        after.global.buffers,
        after.global.textures,
        id,
    );
    lemma_prepared_same_handles(state, ids, submit_index, second + 1);
    assert(end.executions[state.executions.len() + second] == after.executions.last());
    let raw = end.global.buffers[id].raw.unwrap();
    assert(raw == after.global.buffers[id].raw.unwrap());
    if handle_is_of(end.global.buffers, raw, id) {
        assert forall|other: u32|
            after.global.buffers.contains_key(other) && after.global.buffers[other].raw == Some(
                raw,
            ) implies other == id by {
            assert(end.global.buffers.contains_key(other));
            assert(end.global.buffers[other].raw == Some(raw));
        }
        assert(handle_is_of(after.global.buffers, raw, id));
    }
}

/// Where every buffer of `pending` is registered and not destroyed, the
/// barriers of a transit command buffer are those of `pending`, one for one
/// and in their order.
proof fn lemma_stitched_one_for_one(
    pending: Seq<PendingBufferTransition>,
    buffers: Map<u32, BufferView>,
)
    requires
        forall|i: int| 0 <= i < pending.len() ==> is_live(buffers, (#[trigger] pending[i]).id),
    ensures
        stitched_buffer_barriers(pending, buffers).len() == pending.len(),
        forall|i: int|
            0 <= i < pending.len() ==> #[trigger] stitched_buffer_barriers(pending, buffers)[i]
                == pending[i].hal(buffers[pending[i].id].raw.unwrap()),
    decreases pending.len(),
{
    if pending.len() > 0 {
        let front = pending.drop_last();
        assert forall|i: int| 0 <= i < front.len() implies is_live(
            buffers,
            (#[trigger] front[i]).id,
        ) by {
            assert(front[i] == pending[i]);
        }
        lemma_stitched_one_for_one(front, buffers);
        assert(is_live(buffers, pending[pending.len() - 1].id));
        assert forall|i: int| 0 <= i < pending.len() implies #[trigger] stitched_buffer_barriers(
            pending,
            buffers,
        )[i] == pending[i].hal(buffers[pending[i].id].raw.unwrap()) by {
            if i < front.len() {
                assert(front[i] == pending[i]);
                assert(stitched_buffer_barriers(pending, buffers)[i] == stitched_buffer_barriers(
                    front,
                    buffers,
                )[i]);
            }
        }
    }
}

/// The barrier stitching of a submission, with the buffers told apart by
/// their identifiers. The command buffers `ids`, which are finished and all
/// different, are prepared and nothing fails. Command buffers `first` and
/// `second` of them use buffer `id`, and none between them does. The
/// transit command buffer that leads the command buffers of `second` is made
/// of the transitions that running `second` after what the queue has run
/// calls for: its buffer barriers are those of the transitions of buffers,
/// one for one and in their order. Among these transitions there is one of
/// buffer `id` if and only if the use that `first` left it in differs from
/// the use that `second` starts with; it leads from the one to the other,
/// and no buffer has two transitions.
pub proof fn lemma_submission_stitches_buffers_by_id(
    state: SubmitState,
    ids: Seq<u32>,
    submit_index: SubmissionIndex,
    first: int,
    second: int,
    id: BufferId,
)
    requires
        state.failed is None,
        all_finished(state.global.command_buffers, ids),
        prepared(state, ids, submit_index).failed is None,
        0 <= first < second < ids.len(),
        state.global.command_buffers[ids[first]].trackers.buffers.contains_key(id),
        state.global.command_buffers[ids[second]].trackers.buffers.contains_key(id),
        forall|between: int|
            first < between < second ==> !state.global.command_buffers[#[trigger] ids[between]].trackers.buffers.contains_key(
                id,
            ),
    ensures
        ({
            let left = state.global.command_buffers[ids[first]].trackers.buffers[id].last;
            let head = state.global.command_buffers[ids[second]].trackers;
            let entered = head.buffers[id].first;
            let base = prepared(state, ids.take(second), submit_index).device.trackers;
            let after = prepared(state, ids.take(second + 1), submit_index).global;
            let end = prepared(state, ids, submit_index);
            let pending = pending_buffer_merge(base.buffers, head.buffers, index_limit());
            let barriers = stitched_buffer_barriers(pending, after.buffers);
            &&& end.executions[state.executions.len() + second].cmd_buffers[0]
                == transit_commands(base, head, after.buffers, after.textures)
            &&& barriers.len() == pending.len()
            &&& forall|i: int|
                0 <= i < pending.len() ==> #[trigger] barriers[i] == pending[i].hal(
                    after.buffers[pending[i].id].raw.unwrap(),
                )
            &&& (exists|i: int| 0 <= i < pending.len() && (#[trigger] pending[i]).id == id)
                <==> left != entered
            &&& forall|i: int|
                0 <= i < pending.len() && (#[trigger] pending[i]).id == id ==> pending[i].usage
                    == (UsageRange { start: left, end: entered })
            &&& forall|i: int, j: int|
                0 <= i < j < pending.len() ==> (#[trigger] pending[i]).id < (
                #[trigger] pending[j]).id
        }),
{
    let head = state.global.command_buffers[ids[second]];
    let left = state.global.command_buffers[ids[first]].trackers.buffers[id].last;
    let entered = head.trackers.buffers[id].first;
    let before = prepared(state, ids.take(second), submit_index);
    let after = prepared(state, ids.take(second + 1), submit_index);
    let end = prepared(state, ids, submit_index);
    lemma_prepared_in_order(state, ids, submit_index, second);
    lemma_prepared_in_order(state, ids, submit_index, second + 1);
    lemma_prepared_in_order(state, ids, submit_index, ids.len() as int);
    assert(ids.take(ids.len() as int) =~= ids);
    assert(ids.take(second + 1).drop_last() =~= ids.take(second));
    assert(ids.take(second + 1).last() == ids[second]);
    assert(after == prepare_step(before, ids[second], submit_index));
    assert(before.global.command_buffers[ids[second]] == head);
    lemma_prepare_step_stitches(before, ids[second], submit_index);
    lemma_prepared_last_use(state, ids, submit_index, first, second, id);
    assert(end.executions[state.executions.len() + second] == after.executions.last());
    let base = before.device.trackers.buffers;
    let pending = pending_buffer_merge(base, head.trackers.buffers, index_limit());
    lemma_pending_buffer_merge_holds(base, head.trackers.buffers, index_limit());
    assert forall|i: int| 0 <= i < pending.len() implies is_live(
        after.global.buffers,
        (#[trigger] pending[i]).id,
    ) by {
        assert(pending.contains(pending[i]));
        assert(head.trackers.buffers.contains_key(pending[i].id));
    }
    lemma_stitched_one_for_one(pending, after.global.buffers);
    let expected = merge_transition(base, head.trackers.buffers, id);
    if left != entered {
        assert(needs_transition(base, head.trackers.buffers, id));
        assert(pending.contains(expected));
        let k = choose|k: int| 0 <= k < pending.len() && pending[k] == expected;
        assert(pending[k].id == id);
    }
    assert forall|i: int| 0 <= i < pending.len() && (#[trigger] pending[i]).id == id implies left
        != entered && pending[i].usage == (UsageRange { start: left, end: entered }) by {
        assert(pending.contains(pending[i]));
    }
}

/// The transit command buffer where one buffer alone changes its use. A
/// command stream runs after others; both it and they use buffer `id`,
/// which is registered and not destroyed, and the use that they left it in
/// differs from the use that the stream starts with. No other buffer and no
/// sub-resource of a texture that both have used changes its use. Then the
/// transit command buffer holds one command: the transition of that buffer
/// from the one use to the other.
pub proof fn lemma_transit_of_one_buffer(
    base: TrackerSetView,
    head: TrackerSetView,
    buffers: Map<u32, BufferView>,
    textures: Map<u32, Texture>,
    id: BufferId,
)
    requires
        base.buffers.contains_key(id),
        head.buffers.contains_key(id),
        base.buffers[id].last != head.buffers[id].first,
        is_live(buffers, id),
        forall|other: u32| other != id ==> !needs_transition(base.buffers, head.buffers, other),
        forall|texture: u32, mip: u32, layer: u32|
            !#[trigger] needs_transition(
                layer_uses(base.textures, texture, mip),
                layer_uses(head.textures, texture, mip),
                layer,
            ),
    ensures
        transit_commands(base, head, buffers, textures) == seq![
            buffer_transition(
                buffers[id].raw.unwrap(),
                UsageRange { start: base.buffers[id].last, end: head.buffers[id].first },
            ),
        ],
{
    let pending = pending_buffer_merge(base.buffers, head.buffers, index_limit());
    let expected = merge_transition(base.buffers, head.buffers, id);
    lemma_pending_buffer_merge_holds(base.buffers, head.buffers, index_limit());
    assert(needs_transition(base.buffers, head.buffers, id));
    assert(pending.contains(expected));
    assert forall|i: int| 0 <= i < pending.len() implies #[trigger] pending[i] == expected by {
        assert(pending.contains(pending[i]));
    }
    assert(pending.len() == 1) by {
        if pending.len() > 1 {
            assert(pending[0].id < pending[1].id);
        }
    }
    assert(pending =~= seq![expected]);
    assert(pending.drop_last() =~= Seq::<PendingBufferTransition>::empty());
    let barriers = stitched_buffer_barriers(pending, buffers);
    assert(stitched_buffer_barriers(pending.drop_last(), buffers) =~= Seq::<
        BufferBarrier,
    >::empty());
    assert(barriers =~= seq![expected.hal(buffers[id].raw.unwrap())]);
    let others = pending_texture_merge(base.textures, head.textures, index_limit());
    if others.len() > 0 {
        lemma_pending_texture_merge_from(base.textures, head.textures, index_limit(), 0);
    }
    assert(others =~= Seq::<PendingTextureTransition>::empty());
    assert(coalesced(others) =~= Seq::<PendingTextureTransition>::empty());
    assert(stitched_texture_barriers(coalesced(others), textures) =~= Seq::<
        TextureBarrier,
    >::empty());
    assert(transit_commands(base, head, buffers, textures) =~= seq![
        buffer_transition(
            buffers[id].raw.unwrap(),
            UsageRange { start: base.buffers[id].last, end: head.buffers[id].first },
        ),
    ]);
}

/// After command buffer `first` of a preparation that does not fail, and
/// while no later one uses layer `layer` of mip level `mip` of texture `id`,
/// the queue's trackers hold that sub-resource in the use that command buffer
/// `first` left it in.
proof fn lemma_prepared_last_texture_use(
    state: SubmitState,
    ids: Seq<u32>,
    submit_index: SubmissionIndex,
    first: int,
    count: int,
    id: TextureId,
    mip: u32,
    layer: u32,
)
    requires
        state.failed is None,
        all_finished(state.global.command_buffers, ids),
        prepared(state, ids, submit_index).failed is None,
        0 <= first < count <= ids.len(),
        layer_uses(
            state.global.command_buffers[ids[first]].trackers.textures,
            id,
            mip,
        ).contains_key(layer),
        forall|between: int|
            first < between < count ==> !layer_uses(
                state.global.command_buffers[#[trigger] ids[between]].trackers.textures,
                id,
                mip,
            ).contains_key(layer),
    ensures
        ({
            let uses = layer_uses(
                prepared(state, ids.take(count), submit_index).device.trackers.textures,
                id,
                mip,
            );
            uses.contains_key(layer) && uses[layer].last == layer_uses(
                state.global.command_buffers[ids[first]].trackers.textures,
                id,
                mip,
            )[layer].last
        }),
    decreases count,
{
    let before = prepared(state, ids.take(count - 1), submit_index);
    lemma_prepared_in_order(state, ids, submit_index, count - 1);
    lemma_prepared_in_order(state, ids, submit_index, count);
    assert(ids.take(count).drop_last() =~= ids.take(count - 1));
    assert(ids.take(count).last() == ids[count - 1]);
    assert(before.global.command_buffers[ids[count - 1]]
        == state.global.command_buffers[ids[count - 1]]);
    lemma_prepare_step_stitches(before, ids[count - 1], submit_index);
    if first < count - 1 {
        lemma_prepared_last_texture_use(state, ids, submit_index, first, count - 1, id, mip, layer);
    }
}

/// The barrier stitching of a submission, for textures. The command buffers
/// `ids`, which are finished and all different, are prepared and nothing
/// fails. Command buffers `first` and `second` of them use layer `layer` of
/// mip level `mip` of texture `id`, and none between them does. One of the
/// commands of the transit command buffer that leads the command buffers of
/// `second` changes the use of that sub-resource of the backend's texture
/// from the use that `first` left it in to the use that `second` starts
/// with, if the two differ. Where no other registered texture has that
/// handle, none changes the use of the sub-resource in another way, and none
/// at all if the two uses are the same.
pub proof fn lemma_submission_stitches_textures(
    state: SubmitState,
    ids: Seq<u32>,
    submit_index: SubmissionIndex,
    first: int,
    second: int,
    id: TextureId,
    mip: u32,
    layer: u32,
)
    requires
        state.failed is None,
        all_finished(state.global.command_buffers, ids),
        prepared(state, ids, submit_index).failed is None,
        0 <= first < second < ids.len(),
        textures_wf(state.global.command_buffers[ids[second]].trackers.textures),
        layer_uses(
            state.global.command_buffers[ids[first]].trackers.textures,
            id,
            mip,
        ).contains_key(layer),
        layer_uses(
            state.global.command_buffers[ids[second]].trackers.textures,
            id,
            mip,
        ).contains_key(layer),
        forall|between: int|
            first < between < second ==> !layer_uses(
                state.global.command_buffers[#[trigger] ids[between]].trackers.textures,
                id,
                mip,
            ).contains_key(layer),
    ensures
        ({
            let left = layer_uses(
                state.global.command_buffers[ids[first]].trackers.textures,
                id,
                mip,
            )[layer].last;
            let entered = layer_uses(
                state.global.command_buffers[ids[second]].trackers.textures,
                id,
                mip,
            )[layer].first;
            let end = prepared(state, ids, submit_index);
            let raw = end.global.textures[id].raw.unwrap();
            let transit = end.executions[state.executions.len() + second].cmd_buffers[0];
            &&& texture_is_live(end.global.textures, id)
            &&& end.executions.len() == state.executions.len() + ids.len()
            &&& left != entered ==> exists|i: int|
                0 <= i < transit.len() && texture_transition_covers(
                    #[trigger] transit[i],
                    raw,
                    mip,
                    layer,
                    UsageRange { start: left, end: entered },
                )
            &&& texture_handle_is_of(end.global.textures, raw, id) ==> forall|
                i: int,
                usage: UsageRange,
            |
                0 <= i < transit.len() && #[trigger] texture_transition_covers(
                    transit[i],
                    raw,
                    mip,
                    layer,
                    usage,
                ) ==> left != entered && usage == (UsageRange { start: left, end: entered })
        }),
{
    let head = state.global.command_buffers[ids[second]];
    let before = prepared(state, ids.take(second), submit_index);
    let after = prepared(state, ids.take(second + 1), submit_index);
    let end = prepared(state, ids, submit_index);
    lemma_prepared_in_order(state, ids, submit_index, second);
    lemma_prepared_in_order(state, ids, submit_index, second + 1);
    lemma_prepared_in_order(state, ids, submit_index, ids.len() as int);
    assert(ids.take(ids.len() as int) =~= ids);
    assert(ids.take(second + 1).drop_last() =~= ids.take(second));
    assert(ids.take(second + 1).last() == ids[second]);
    assert(after == prepare_step(before, ids[second], submit_index));
    assert(before.global.command_buffers[ids[second]] == head);
    lemma_prepare_step_stitches(before, ids[second], submit_index);
    lemma_prepared_last_texture_use(state, ids, submit_index, first, second, id, mip, layer);
    assert(head.trackers.textures.contains_key(id));
    assert(texture_is_live(after.global.textures, id));
    lemma_transit_stitches_texture(
        before.device.trackers,
        head.trackers,
        after.global.buffers,
        after.global.textures,
        id,
        mip,
        layer,
    );
    lemma_prepared_same_handles(state, ids, submit_index, second + 1);
    assert(end.executions[state.executions.len() + second] == after.executions.last());
    let raw = end.global.textures[id].raw.unwrap();
    assert(raw == after.global.textures[id].raw.unwrap());
    let transit = end.executions[state.executions.len() + second].cmd_buffers[0];
    assert(transit == transit_commands(
        before.device.trackers,
        head.trackers,
        after.global.buffers,
        after.global.textures,
    ));
    let left = layer_uses(
        state.global.command_buffers[ids[first]].trackers.textures,
        id,
        mip,
    )[layer].last;
    let entered = layer_uses(head.trackers.textures, id, mip)[layer].first;
    assert(layer_uses(before.device.trackers.textures, id, mip)[layer].last == left);
    if left != entered {
        let i = choose|i: int|
            0 <= i < transit.len() && texture_transition_covers(
                #[trigger] transit[i],
                raw,
                mip,
                layer,
                UsageRange { start: left, end: entered },
            );
        assert(texture_transition_covers(
            transit[i],
            raw,
            mip,
            layer,
            UsageRange { start: left, end: entered },
        ));
    }
    if texture_handle_is_of(end.global.textures, raw, id) {
        assert forall|other: u32|
            after.global.textures.contains_key(other) && after.global.textures[other].raw
                == Some(raw) implies other == id by {
            assert(end.global.textures.contains_key(other));
            assert(end.global.textures[other].raw == Some(raw));
        }
        assert(texture_handle_is_of(after.global.textures, raw, id));
        assert forall|i: int, usage: UsageRange|
            0 <= i < transit.len() && #[trigger] texture_transition_covers(
                transit[i],
                raw,
                mip,
                layer,
                usage,
            ) implies left != entered && usage == (UsageRange { start: left, end: entered }) by {
        }
    }
}

/// The barrier stitching of a submission for textures, with the textures
/// told apart by their identifiers. The command buffers `ids`, which are
/// finished and all different, are prepared and nothing fails. Command
/// buffers `first` and `second` of them use layer `layer` of mip level `mip`
/// of texture `id`, and none between them does. The transit command buffer
/// that leads the command buffers of `second` is made of the transitions
/// that running `second` after what the queue has run calls for. Among
/// these, merged where they are adjacent, one changes the use of that
/// sub-resource from what `first` left to what `second` starts with if and
/// only if the two differ, and none changes it in another way.
pub proof fn lemma_submission_stitches_textures_by_id(
    state: SubmitState,
    ids: Seq<u32>,
    submit_index: SubmissionIndex,
    first: int,
    second: int,
    id: TextureId,
    mip: u32,
    layer: u32,
)
    requires
        state.failed is None,
        all_finished(state.global.command_buffers, ids),
        prepared(state, ids, submit_index).failed is None,
        0 <= first < second < ids.len(),
        textures_wf(state.global.command_buffers[ids[second]].trackers.textures),
        layer_uses(
            state.global.command_buffers[ids[first]].trackers.textures,
            id,
            mip,
        ).contains_key(layer),
        layer_uses(
            state.global.command_buffers[ids[second]].trackers.textures,
            id,
            mip,
        ).contains_key(layer),
        forall|between: int|
            first < between < second ==> !layer_uses(
                state.global.command_buffers[#[trigger] ids[between]].trackers.textures,
                id,
                mip,
            ).contains_key(layer),
    ensures
        ({
            let left = layer_uses(
                state.global.command_buffers[ids[first]].trackers.textures,
                id,
                mip,
            )[layer].last;
            let head = state.global.command_buffers[ids[second]].trackers;
            let entered = layer_uses(head.textures, id, mip)[layer].first;
            let base = prepared(state, ids.take(second), submit_index).device.trackers;
            let after = prepared(state, ids.take(second + 1), submit_index).global;
            let end = prepared(state, ids, submit_index);
            let pending = coalesced(
                pending_texture_merge(base.textures, head.textures, index_limit()),
            );
            &&& end.executions[state.executions.len() + second].cmd_buffers[0]
                == transit_commands(base, head, after.buffers, after.textures)
            &&& transitions_cover(
                pending,
                id,
                mip,
                layer,
                UsageRange { start: left, end: entered },
            ) <==> left != entered
            &&& forall|usage: UsageRange| #[trigger]
                transitions_cover(pending, id, mip, layer, usage) ==> usage == (UsageRange {
                    start: left,
                    end: entered,
                })
        }),
{
    let head = state.global.command_buffers[ids[second]];
    let before = prepared(state, ids.take(second), submit_index);
    let after = prepared(state, ids.take(second + 1), submit_index);
    let end = prepared(state, ids, submit_index);
    lemma_prepared_in_order(state, ids, submit_index, second);
    lemma_prepared_in_order(state, ids, submit_index, second + 1);
    lemma_prepared_in_order(state, ids, submit_index, ids.len() as int);
    assert(ids.take(ids.len() as int) =~= ids);
    assert(ids.take(second + 1).drop_last() =~= ids.take(second));
    assert(ids.take(second + 1).last() == ids[second]);
    assert(after == prepare_step(before, ids[second], submit_index));
    assert(before.global.command_buffers[ids[second]] == head);
    lemma_prepare_step_stitches(before, ids[second], submit_index);
    lemma_prepared_last_texture_use(state, ids, submit_index, first, second, id, mip, layer);
    assert(end.executions[state.executions.len() + second] == after.executions.last());
    lemma_texture_merge_covers(
        before.device.trackers.textures,
        head.trackers.textures,
        id,
        mip,
        layer,
    );
}

/// A submission of two command buffers that share one buffer alone. The
/// two command buffers are finished, different, and prepared one after the
/// other without a failure. Both use buffer `id`, and the use that the first
/// left it in differs from the use that the second starts with. The second
/// uses no other buffer and no texture that the first, or the queue before
/// it, has used. Then the transit command buffer of the second holds one
/// command: the transition of the backend's buffer from the one use to the
/// other.
pub proof fn lemma_submission_of_two_stitches_once(
    state: SubmitState,
    ids: Seq<u32>,
    submit_index: SubmissionIndex,
    id: BufferId,
)
    requires
        state.failed is None,
        ids.len() == 2,
        all_finished(state.global.command_buffers, ids),
        prepared(state, ids, submit_index).failed is None,
        state.global.command_buffers[ids[0]].trackers.buffers.contains_key(id),
        state.global.command_buffers[ids[1]].trackers.buffers.contains_key(id),
        state.global.command_buffers[ids[0]].trackers.buffers[id].last
            != state.global.command_buffers[ids[1]].trackers.buffers[id].first,
        forall|other: u32|
            other != id && #[trigger] state.global.command_buffers[ids[1]].trackers.buffers.contains_key(
                other,
            ) ==> !state.device.trackers.buffers.contains_key(other)
                && !state.global.command_buffers[ids[0]].trackers.buffers.contains_key(other),
        forall|texture: u32| #[trigger]
            state.global.command_buffers[ids[1]].trackers.textures.contains_key(texture)
                ==> !state.device.trackers.textures.contains_key(texture)
                && !state.global.command_buffers[ids[0]].trackers.textures.contains_key(texture),
    ensures
        ({
            let end = prepared(state, ids, submit_index);
            &&& is_live(end.global.buffers, id)
            &&& end.executions.len() == state.executions.len() + 2
            &&& end.executions[state.executions.len() as int + 1].cmd_buffers[0] == seq![
                buffer_transition(
                    end.global.buffers[id].raw.unwrap(),
                    UsageRange {
                        start: state.global.command_buffers[ids[0]].trackers.buffers[id].last,
                        end: state.global.command_buffers[ids[1]].trackers.buffers[id].first,
                    },
                ),
            ]
        }),
{
    let one = state.global.command_buffers[ids[0]];
    let two = state.global.command_buffers[ids[1]];
    let before = prepared(state, ids.take(1), submit_index);
    let end = prepared(state, ids, submit_index);
    lemma_prepared_in_order(state, ids, submit_index, 0);
    lemma_prepared_in_order(state, ids, submit_index, 1);
    lemma_prepared_in_order(state, ids, submit_index, 2);
    assert(ids.take(2) =~= ids);
    assert(ids.take(0) =~= Seq::<u32>::empty());
    assert(ids.take(1).drop_last() =~= ids.take(0));
    assert(ids.take(1).last() == ids[0]);
    assert(ids.drop_last() =~= ids.take(1));
    assert(ids.last() == ids[1]);
    assert(prepared(state, ids.take(0), submit_index) == state);
    assert(before == prepare_step(state, ids[0], submit_index));
    assert(end == prepare_step(before, ids[1], submit_index));
    assert(before.global.command_buffers[ids[1]] == two);
    lemma_prepare_step_stitches(state, ids[0], submit_index);
    lemma_prepare_step_stitches(before, ids[1], submit_index);
    let base = before.device.trackers;
    assert(base.buffers == merged(state.device.trackers.buffers, one.trackers.buffers));
    assert(base.textures == textures_merged(state.device.trackers.textures, one.trackers.textures));
    assert(base.buffers[id].last == one.trackers.buffers[id].last);
    assert forall|other: u32| other != id implies !needs_transition(
        base.buffers,
        two.trackers.buffers,
        other,
    ) by {
        if two.trackers.buffers.contains_key(other) {
            assert(!base.buffers.contains_key(other));
        }
    }
    assert forall|texture: u32, mip: u32, layer: u32|
        !#[trigger] needs_transition(
            layer_uses(base.textures, texture, mip),
            layer_uses(two.trackers.textures, texture, mip),
            layer,
        ) by {
        if layer_uses(two.trackers.textures, texture, mip).contains_key(layer) {
            assert(two.trackers.textures.contains_key(texture));
            assert(!base.textures.contains_key(texture));
            assert(!layer_uses(base.textures, texture, mip).contains_key(layer));
        }
    }
    assert(is_live(end.global.buffers, id));
    lemma_transit_of_one_buffer(
        base,
        two.trackers,
        end.global.buffers,
        end.global.textures,
        id,
    );
    assert(end.executions[state.executions.len() as int + 1] == end.executions.last());
}

} // verus!
