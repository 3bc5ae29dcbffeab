//! What a submission promises of the memory that it fills with zeros: what
//! one submission has accounted for, no later one fills again.

use crate::align::lemma_align_up;
use crate::command::CommandEncoderStatus;
use crate::hub::GlobalView;
use crate::memory_init::{
    clear_of, lemma_remaining_is_clear, lemma_remaining_stays_clear,
    lemma_uninitialized_in_stays_clear, query_words, uninitialized_in, AddressRange,
    MemoryInitKind, MemoryInitTrackerAction,
};
use crate::queue::{gather_step, gathered, InitGathering, RequiredBufferInitsView};
use crate::resource::BufferView;
use crate::stitching::{all_finished, lemma_prepared_in_order};
use crate::submit::{
    buffers_marked, prepare_step, prepared, queue_submit_state, step_gathered, step_swap_chains,
    submit_prepared, submit_start, BufferMarking, SubmitState,
};
use crate::track::{index_limit, tracked_ids};
use crate::types::{BufferId, QueueId, SubmissionIndex};
use vstd::arithmetic::div_mod::lemma_mod_decreases;
use vstd::prelude::*;

verus! {

/// Whether none of the words that `range` touches is uninitialized in
/// buffer `id`, where the buffer is registered.
pub open spec fn words_initialized(
    buffers: Map<u32, BufferView>,
    id: BufferId,
    range: AddressRange,
) -> bool {
    buffers.contains_key(id) ==> clear_of(
        buffers[id].uninitialized,
        query_words(range).0,
        query_words(range).1,
    )
}

/// Whether none of the ranges gathered for buffer `id`, to be filled with
/// zeros, holds a byte of the words that `range` touches.
pub open spec fn gathers_outside(
    inits: RequiredBufferInitsView,
    id: BufferId,
    range: AddressRange,
) -> bool {
    forall|i: int|
        0 <= i < inits.ranges.len() && (#[trigger] inits.ranges[i]).0 == id
            ==> inits.ranges[i].1.end <= query_words(range).0 || inits.ranges[i].1.start
            >= query_words(range).1
}

/// The words of a query start at or after zero and within 64 bits, and they
/// end after they start, or the query is empty.
proof fn lemma_query_words(range: AddressRange)
    ensures
        0 <= query_words(range).0 <= u64::MAX,
        0 <= query_words(range).1,
        query_words(range).0 < query_words(range).1 || query_words(range).1 == 0,
{
    if range.start < range.end {
        lemma_align_up(range.end as nat, 4);
        lemma_mod_decreases(range.start as nat, 4);
    }
}

/// One more action accounted for leaves initialized what was initialized.
proof fn lemma_gather_step_keeps_words(
    state: InitGathering,
    action: MemoryInitTrackerAction,
    id: BufferId,
    range: AddressRange,
)
    requires
        words_initialized(state.buffers, id, range),
    ensures
        words_initialized(gather_step(state, action).buffers, id, range),
{
    if state.buffers.contains_key(action.id) && action.id == id {
        lemma_query_words(action.range);
        lemma_remaining_stays_clear(
            state.buffers[id].uninitialized,
            query_words(action.range).0,
            query_words(action.range).1,
            query_words(range).0,
            query_words(range).1,
        );
    }
}

/// One more action accounted for gathers nothing among words that were
/// initialized.
proof fn lemma_gather_step_keeps_outside(
    state: InitGathering,
    action: MemoryInitTrackerAction,
    id: BufferId,
    range: AddressRange,
)
    requires
        words_initialized(state.buffers, id, range),
        gathers_outside(state.inits, id, range),
    ensures
        gathers_outside(gather_step(state, action).inits, id, range),
{
    let after = gather_step(state, action).inits;
    if state.buffers.contains_key(action.id) && action.kind
        == MemoryInitKind::NeedsInitializedMemory {
        let words = query_words(action.range);
        let drained = uninitialized_in(state.buffers[action.id].uninitialized, words.0, words.1);
        lemma_query_words(action.range);
        if action.id == id {
            lemma_uninitialized_in_stays_clear(
                state.buffers[id].uninitialized,
                words.0,
                words.1,
                query_words(range).0,
                query_words(range).1,
            );
        }
        assert forall|i: int|
            0 <= i < after.ranges.len() && (#[trigger] after.ranges[i]).0 == id implies after.ranges[i].1.end
            <= query_words(range).0 || after.ranges[i].1.start >= query_words(range).1 by {
            if i < state.inits.ranges.len() {
                assert(after.ranges[i] == state.inits.ranges[i]);
            } else {
                assert(after.ranges[i] == (action.id, drained[i - state.inits.ranges.len()]));
            }
        }
    }
}

/// An action accounted for leaves the words that it touches initialized.
proof fn lemma_gather_step_initializes(state: InitGathering, action: MemoryInitTrackerAction)
    ensures
        words_initialized(gather_step(state, action).buffers, action.id, action.range),
{
    if state.buffers.contains_key(action.id) {
        lemma_query_words(action.range);
        lemma_remaining_is_clear(
            state.buffers[action.id].uninitialized,
            query_words(action.range).0,
            query_words(action.range).1,
        );
    }
}

/// Accounting for actions leaves initialized what was initialized, and
/// gathers nothing among it.
proof fn lemma_gathered_keeps(
    state: InitGathering,
    actions: Seq<MemoryInitTrackerAction>,
    id: BufferId,
    range: AddressRange,
)
    requires
        words_initialized(state.buffers, id, range),
    ensures
        words_initialized(gathered(state, actions).buffers, id, range),
        gathers_outside(state.inits, id, range) ==> gathers_outside(
            gathered(state, actions).inits,
            id,
            range,
        ),
    decreases actions.len(),
{
    if actions.len() > 0 {
        let before = gathered(state, actions.drop_last());
        lemma_gathered_keeps(state, actions.drop_last(), id, range);
        if before.failed is None {
            lemma_gather_step_keeps_words(before, actions.last(), id, range);
            if gathers_outside(state.inits, id, range) {
                lemma_gather_step_keeps_outside(before, actions.last(), id, range);
            }
        }
    }
}

/// Once actions are accounted for without a failure, the words that each
/// of them touches are initialized.
proof fn lemma_gathered_initializes(
    state: InitGathering,
    actions: Seq<MemoryInitTrackerAction>,
    at: int,
)
    requires
        0 <= at < actions.len(),
        gathered(state, actions).failed is None,
    ensures
        words_initialized(gathered(state, actions).buffers, actions[at].id, actions[at].range),
    decreases actions.len(),
{
    let before = gathered(state, actions.drop_last());
    if at == actions.len() - 1 {
        lemma_gather_step_initializes(before, actions.last());
    } else {
        assert(actions.drop_last()[at] == actions[at]);
        lemma_gathered_initializes(state, actions.drop_last(), at);
        lemma_gather_step_keeps_words(before, actions.last(), actions[at].id, actions[at].range);
    }
}

/// Marking buffers leaves initialized what was initialized.
proof fn lemma_marked_keeps_words(
    state: BufferMarking,
    ids: Seq<BufferId>,
    submit_index: SubmissionIndex,
    id: BufferId,
    range: AddressRange,
)
    requires
        words_initialized(state.buffers, id, range),
    ensures
        words_initialized(buffers_marked(state, ids, submit_index).buffers, id, range),
    decreases ids.len(),
{
    if ids.len() > 0 {
        lemma_marked_keeps_words(state, ids.drop_last(), submit_index, id, range);
    }
}

/// The preparation of one more command buffer leaves initialized what was
/// initialized, and gathers nothing among it.
pub proof fn lemma_prepare_step_keeps_fills(
    state: SubmitState,
    command_buffer: u32,
    submit_index: SubmissionIndex,
    id: BufferId,
    range: AddressRange,
)
    requires
        words_initialized(state.global.buffers, id, range),
    ensures
        words_initialized(
            prepare_step(state, command_buffer, submit_index).global.buffers,
            id,
            range,
        ),
        gathers_outside(state.inits, id, range) ==> gathers_outside(
            prepare_step(state, command_buffer, submit_index).inits,
            id,
            range,
        ),
{
    reveal(prepare_step);
    if state.global.command_buffers.contains_key(command_buffer) {
        let recorded = state.global.command_buffers[command_buffer];
        let taken = SubmitState {
            global: GlobalView {
                command_buffers: state.global.command_buffers.remove(command_buffer),
                ..state.global
            },
            device: state.device.submit_traced(submit_index, recorded.commands),
            ..state
        };
        let found = step_gathered(taken, recorded);
        let signalled = step_swap_chains(found, recorded, submit_index);
        lemma_gathered_keeps(
            InitGathering { inits: taken.inits, buffers: taken.global.buffers, failed: None },
            recorded.buffer_memory_init_actions,
            id,
            range,
        );
        lemma_marked_keeps_words(
            BufferMarking {
                buffers: signalled.global.buffers,
                suspected: signalled.device.temp_suspected.buffers,
                unmapped: signalled.unmapped,
                failed: None,
            },
            tracked_ids(recorded.trackers.buffers, index_limit()),
            submit_index,
            id,
            range,
        );
    }
}

/// Once a finished command buffer is prepared without a failure, the words
/// that each of its memory actions touches are initialized.
pub proof fn lemma_prepare_step_initializes(
    state: SubmitState,
    command_buffer: u32,
    submit_index: SubmissionIndex,
    at: int,
)
    requires
        state.global.command_buffers.contains_key(command_buffer),
        state.global.command_buffers[command_buffer].status == CommandEncoderStatus::Finished,
        prepare_step(state, command_buffer, submit_index).failed is None,
        0 <= at < state.global.command_buffers[command_buffer].buffer_memory_init_actions.len(),
    ensures
        ({
            let action = state.global.command_buffers[command_buffer].buffer_memory_init_actions[at];
            words_initialized(
                prepare_step(state, command_buffer, submit_index).global.buffers,
                action.id,
                action.range,
            )
        }),
{
    reveal(prepare_step);
    let recorded = state.global.command_buffers[command_buffer];
    let action = recorded.buffer_memory_init_actions[at];
    let taken = SubmitState {
        global: GlobalView {
            command_buffers: state.global.command_buffers.remove(command_buffer),
            ..state.global
        },
        device: state.device.submit_traced(submit_index, recorded.commands),
        ..state
    };
    let found = step_gathered(taken, recorded);
    let signalled = step_swap_chains(found, recorded, submit_index);
    lemma_gathered_initializes(
        InitGathering { inits: taken.inits, buffers: taken.global.buffers, failed: None },
        recorded.buffer_memory_init_actions,
        at,
    );
    lemma_marked_keeps_words(
        BufferMarking {
            buffers: signalled.global.buffers,
            suspected: signalled.device.temp_suspected.buffers,
            unmapped: signalled.unmapped,
            failed: None,
        },
        tracked_ids(recorded.trackers.buffers, index_limit()),
        submit_index,
        action.id,
        action.range,
    );
}

/// The preparation of command buffers leaves initialized what was
/// initialized after the first `count` of them, and gathers nothing among
/// it from then on.
pub proof fn lemma_prepared_keeps_fills(
    state: SubmitState,
    ids: Seq<u32>,
    submit_index: SubmissionIndex,
    count: int,
    id: BufferId,
    range: AddressRange,
)
    requires
        0 <= count <= ids.len(),
        words_initialized(
            prepared(state, ids.take(count), submit_index).global.buffers,
            id,
            range,
        ),
    ensures
        words_initialized(prepared(state, ids, submit_index).global.buffers, id, range),
        gathers_outside(prepared(state, ids.take(count), submit_index).inits, id, range)
            ==> gathers_outside(prepared(state, ids, submit_index).inits, id, range),
    decreases ids.len(),
{
    if count < ids.len() {
        let before = prepared(state, ids.drop_last(), submit_index);
        assert(ids.drop_last().take(count) =~= ids.take(count));
        lemma_prepared_keeps_fills(state, ids.drop_last(), submit_index, count, id, range);
        lemma_prepare_step_keeps_fills(before, ids.last(), submit_index, id, range);
    } else {
        assert(ids.take(count) =~= ids);
    }
}

/// Once the command buffers `ids`, which are finished and all different,
/// are prepared without a failure, the words that each memory action of
/// each of them touches are initialized.
pub proof fn lemma_prepared_initializes(
    state: SubmitState,
    ids: Seq<u32>,
    submit_index: SubmissionIndex,
    position: int,
    at: int,
)
    requires
        state.failed is None,
        all_finished(state.global.command_buffers, ids),
        prepared(state, ids, submit_index).failed is None,
        0 <= position < ids.len(),
        0 <= at < state.global.command_buffers[ids[position]].buffer_memory_init_actions.len(),
    ensures
        ({
            let action = state.global.command_buffers[ids[position]].buffer_memory_init_actions[at];
            words_initialized(
                prepared(state, ids, submit_index).global.buffers,
                action.id,
                action.range,
            )
        }),
{
    let action = state.global.command_buffers[ids[position]].buffer_memory_init_actions[at];
    let before = prepared(state, ids.take(position), submit_index);
    lemma_prepared_in_order(state, ids, submit_index, position);
    lemma_prepared_in_order(state, ids, submit_index, position + 1);
    assert(ids.take(position + 1).drop_last() =~= ids.take(position));
    assert(ids.take(position + 1).last() == ids[position]);
    assert(prepared(state, ids.take(position + 1), submit_index) == prepare_step(
        before,
        ids[position],
        submit_index,
    ));
    assert(before.global.command_buffers[ids[position]]
        == state.global.command_buffers[ids[position]]);
    lemma_prepare_step_initializes(before, ids[position], submit_index, at);
    lemma_prepared_keeps_fills(state, ids, submit_index, position + 1, action.id, action.range);
}

/// Memory is filled once. A submission of the command buffers `first`,
/// which are finished and all different, succeeds, and one of them holds a
/// memory action on some range of a buffer. From then on none of the words
/// that the range touches is uninitialized in that buffer; and whatever
/// command buffers `second` a later submission holds, it neither gathers any
/// of these words to be filled with zeros, nor leaves one of them
/// uninitialized.
pub proof fn lemma_memory_is_filled_once(
    global: GlobalView,
    queue_id: QueueId,
    first: Seq<u32>,
    second: Seq<u32>,
    position: int,
    at: int,
)
    requires
        global.devices.contains_key(queue_id),
        all_finished(global.command_buffers, first),
        submit_prepared(global, queue_id, first).failed is None,
        0 <= position < first.len(),
        0 <= at < global.command_buffers[first[position]].buffer_memory_init_actions.len(),
    ensures
        ({
            let action = global.command_buffers[first[position]].buffer_memory_init_actions[at];
            let middle = queue_submit_state(global, queue_id, first);
            let again = submit_prepared(middle, queue_id, second);
            &&& words_initialized(middle.buffers, action.id, action.range)
            &&& gathers_outside(again.inits, action.id, action.range)
            &&& words_initialized(
                queue_submit_state(middle, queue_id, second).buffers,
                action.id,
                action.range,
            )
        }),
{
    let action = global.command_buffers[first[position]].buffer_memory_init_actions[at];
    let start = submit_start(global, queue_id);
    lemma_prepared_initializes(
        start,
        first,
        start.device.active_submission_index,
        position,
        at,
    );
    let middle = queue_submit_state(global, queue_id, first);
    assert(words_initialized(middle.buffers, action.id, action.range));
    let restart = submit_start(middle, queue_id);
    assert(second.take(0) =~= Seq::<u32>::empty());
    lemma_prepared_keeps_fills(
        restart,
        second,
        restart.device.active_submission_index,
        0,
        action.id,
        action.range,
    );
}

} // verus!
