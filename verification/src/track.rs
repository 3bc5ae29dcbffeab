//! The use that every resource is in at the current point of a command
//! stream, and the transitions between uses that must be inserted as
//! barriers.

use crate::hal::{BufferBarrier, ImageSubresourceRange, TextureBarrier, UsageRange};
use crate::resource::{Buffer, Texture};
use crate::storage::Storage;
use crate::types::{BufferId, RawHandle, TextureId};
use vstd::prelude::*;

verus! {

/// The indices from `start` up to, not including, `end`.
#[derive(Clone, Copy, Debug, PartialEq, Eq)]
pub struct IndexRange {
    pub start: u32,
    pub end: u32,
}

impl IndexRange {
    /// Whether `index` lies in the range.
    pub open spec fn contains(self, index: u32) -> bool {
        self.start <= index < self.end
    }
}

/// A set of sub-resources of a texture: some mip levels of some array
/// layers.
#[derive(Clone, Copy, Debug, PartialEq, Eq)]
pub struct TextureSelector {
    pub levels: IndexRange,
    pub layers: IndexRange,
}

/// The uses of one resource, or sub-resource, in a command stream.
#[derive(Clone, Copy, Debug, PartialEq, Eq)]
pub struct ResourceUse {
    /// The use that the stream starts with.
    pub first: u32,
    /// The use at the current point of the stream.
    pub last: u32,
}

/// A change of use of a buffer that has to happen before the next command.
#[derive(Clone, Copy, Debug, PartialEq, Eq)]
pub struct PendingBufferTransition {
    pub id: BufferId,
    pub usage: UsageRange,
}

impl PendingBufferTransition {
    /// The barrier that carries out the transition on the backend's buffer
    /// `raw`.
    pub open spec fn hal(self, raw: RawHandle) -> BufferBarrier {
        BufferBarrier { buffer: raw, usage: self.usage }
    }

    /// The barrier that carries out the transition on the backend's buffer.
    pub fn into_hal(self, buffer: &Buffer) -> (barrier: BufferBarrier)
        requires
            buffer.raw is Some,
        ensures
            barrier == self.hal(buffer.raw.unwrap()),
    {
        BufferBarrier { buffer: buffer.raw.unwrap(), usage: self.usage }
    }
}

/// The use that a stream has a resource in: its last use, or none where the
/// stream has not touched it.
pub open spec fn current_use(states: Map<u32, ResourceUse>, id: u32) -> u32 {
    if states.contains_key(id) {
        states[id].last
    } else {
        0
    }
}

/// The uses of a resource once the stream puts it to `usage`: the first use
/// stays, or is `usage` where there was none.
pub open spec fn use_replaced(states: Map<u32, ResourceUse>, id: u32, usage: u32) -> ResourceUse {
    ResourceUse {
        first: if states.contains_key(id) {
            states[id].first
        } else {
            usage
        },
        last: usage,
    }
}

/// The transition that putting buffer `id` to `usage` calls for: one from
/// the current use, where that differs from `usage`.
pub open spec fn pending_buffer_replace(states: Map<u32, ResourceUse>, id: u32, usage: u32) -> Seq<
    PendingBufferTransition,
> {
    if current_use(states, id) != usage {
        seq![
            PendingBufferTransition {
                id,
                usage: UsageRange { start: current_use(states, id), end: usage },
            },
        ]
    } else {
        Seq::empty()
    }
}

/// The uses of a resource once a stream `head` has run after a stream that
/// left it in `base`: the first use stays, the last use is that of `head`.
pub open spec fn use_merged(base: Map<u32, ResourceUse>, id: u32, head: ResourceUse) -> ResourceUse {
    if base.contains_key(id) {
        ResourceUse { first: base[id].first, last: head.last }
    } else {
        head
    }
}

/// The states of all resources once the stream `head` has run after `base`.
pub open spec fn merged(base: Map<u32, ResourceUse>, head: Map<u32, ResourceUse>) -> Map<
    u32,
    ResourceUse,
> {
    Map::new(
        |id: u32| base.contains_key(id) || head.contains_key(id),
        |id: u32|
            if head.contains_key(id) {
                use_merged(base, id, head[id])
            } else {
                base[id]
            },
    )
}

/// The states of the resources whose identifier is below `bound`.
pub open spec fn below(states: Map<u32, ResourceUse>, bound: nat) -> Map<u32, ResourceUse> {
    states.restrict(Set::new(|id: u32| id < bound))
}

/// Whether running `head` after `base` calls for a transition of resource
/// `id`: both streams use it, and the last use of `base` differs from the
/// first use of `head`.
pub open spec fn needs_transition(
    base: Map<u32, ResourceUse>,
    head: Map<u32, ResourceUse>,
    id: u32,
) -> bool {
    base.contains_key(id) && head.contains_key(id) && base[id].last != head[id].first
}

/// The transitions of the buffers below `bound` that running `head` after
/// `base` calls for, by identifier.
pub open spec fn pending_buffer_merge(
    base: Map<u32, ResourceUse>,
    head: Map<u32, ResourceUse>,
    bound: nat,
) -> Seq<PendingBufferTransition>
    decreases bound,
{
    if bound == 0 {
        Seq::empty()
    } else {
        let id = (bound - 1) as u32;
        let before = pending_buffer_merge(base, head, (bound - 1) as nat);
        if needs_transition(base, head, id) {
            before.push(
                PendingBufferTransition {
                    id,
                    usage: UsageRange { start: base[id].last, end: head[id].first },
                },
            )
        } else {
            before
        }
    }
}

/// The use of every buffer that a command stream has touched.
#[derive(Debug)]
pub struct BufferTracker {
    pub states: Storage<ResourceUse>,
}

impl View for BufferTracker {
    type V = Map<u32, ResourceUse>;

    open spec fn view(&self) -> Map<u32, ResourceUse> {
        self.states@
    }
}

impl BufferTracker {
    /// The tracker of a stream that has touched nothing.
    pub fn new() -> (tracker: Self)
        ensures
            tracker@ == Map::<u32, ResourceUse>::empty(),
    {
        BufferTracker { states: Storage::new() }
    }

    /// One more than the largest identifier that the tracker can hold a
    /// state for.
    pub open spec fn bound(&self) -> nat {
        self.states.spec_bound()
    }

    /// Puts buffer `id` to `usage` from this point of the stream on, and
    /// returns the transitions to insert before it. The tracker's own record
    /// of the buffer is all that changes; a buffer that it has not seen
    /// counts as in no use.
    pub fn change_replace(&mut self, id: BufferId, usage: u32) -> (pending: Vec<
        PendingBufferTransition,
    >)
        ensures
            pending@ == pending_buffer_replace(old(self)@, id, usage),
            final(self)@ == old(self)@.insert(id, use_replaced(old(self)@, id, usage)),
    {
        let mut pending: Vec<PendingBufferTransition> = Vec::new();
        let state = match self.states.get(id) {
            Some(state) => {
                if state.last != usage {
                    pending.push(
                        PendingBufferTransition {
                            id,
                            usage: UsageRange { start: state.last, end: usage },
                        },
                    );
                }
                ResourceUse { first: state.first, last: usage }
            },
            None => {
                if usage != 0 {
                    pending.push(
                        PendingBufferTransition { id, usage: UsageRange { start: 0, end: usage } },
                    );
                }
                ResourceUse { first: usage, last: usage }
            },
        };
        self.states.insert(id, state);
        pending
    }

    /// Looks buffer `id` up in `storage` and puts it to `usage`, as
    /// `change_replace` does. Fails with the identifier, and changes nothing,
    /// where the buffer is not registered.
    pub fn use_replace<'a>(
        &mut self,
        storage: &'a Storage<Buffer>,
        id: BufferId,
        usage: u32,
    ) -> (res: Result<(&'a Buffer, Vec<PendingBufferTransition>), BufferId>)
        ensures
            res is Ok == storage@.contains_key(id),
            res is Err ==> res->Err_0 == id && final(self)@ == old(self)@,
            res is Ok ==> {
                &&& *res->Ok_0.0 == storage@[id]
                &&& res->Ok_0.1@ == pending_buffer_replace(old(self)@, id, usage)
                &&& final(self)@ == old(self)@.insert(id, use_replaced(old(self)@, id, usage))
            },
    {
        match storage.get(id) {
            Some(buffer) => {
                let pending = self.change_replace(id, usage);
                Ok((buffer, pending))
            },
            None => Err(id),
        }
    }

    /// Lets the stream `head` run after this one: every buffer that `head`
    /// touched takes its last use from `head`. Returns the transitions from
    /// the uses that this stream left to the uses that `head` starts with.
    pub fn merge_replace(&mut self, head: &BufferTracker) -> (pending: Vec<
        PendingBufferTransition,
    >)
        ensures
            pending@ == pending_buffer_merge(old(self)@, head@, index_limit()),
            final(self)@ == merged(old(self)@, head@),
    {
        let mut pending: Vec<PendingBufferTransition> = Vec::new();
        let mut index: usize = 0;
        let bound: usize = head.states.bound();
        assert(self@ =~= merged(old(self)@, below(head@, 0)));
        while index < bound
            invariant
                index <= bound,
                bound == head.bound(),
                pending@ == pending_buffer_merge(old(self)@, head@, index as nat),
                self@ == merged(old(self)@, below(head@, index as nat)),
            decreases bound - index,
        {
            let id: u32 = index as u32;
            let ghost before = self@;
            match head.states.get(id) {
                Some(state) => {
                    let merged_state = match self.states.get(id) {
                        Some(base) => {
                            if base.last != state.first {
                                pending.push(
                                    PendingBufferTransition {
                                        id,
                                        usage: UsageRange { start: base.last, end: state.first },
                                    },
                                );
                            }
                            ResourceUse { first: base.first, last: state.last }
                        },
                        None => *state,
                    };
                    self.states.insert(id, merged_state);
                },
                None => {},
            }
            index += 1;
            assert(self@ =~= merged(old(self)@, below(head@, index as nat)));
        }
        proof {
            assert(below(head@, bound as nat) =~= head@);
            lemma_pending_buffer_merge_beyond(old(self)@, head@, bound as nat, index_limit());
        }
        pending
    }
}

/// A change of use of some sub-resources of a texture that has to happen
/// before the next command.
#[derive(Clone, Copy, Debug, PartialEq, Eq)]
pub struct PendingTextureTransition {
    pub id: TextureId,
    pub selector: TextureSelector,
    pub usage: UsageRange,
}

/// The count of a range of indices, absent where the range is empty.
pub open spec fn range_count(range: IndexRange) -> Option<u32> {
    if range.end > range.start {
        Some((range.end - range.start) as u32)
    } else {
        None
    }
}

impl PendingTextureTransition {
    /// The barrier that carries out the transition on the backend's texture
    /// `raw`.
    pub open spec fn hal(self, raw: RawHandle) -> TextureBarrier {
        TextureBarrier {
            texture: raw,
            range: ImageSubresourceRange {
                base_mip_level: self.selector.levels.start,
                mip_level_count: range_count(self.selector.levels),
                base_array_layer: self.selector.layers.start,
                array_layer_count: range_count(self.selector.layers),
            },
            usage: self.usage,
        }
    }

    /// The barrier that carries out the transition on the backend's texture.
    pub fn into_hal(self, texture: &Texture) -> (barrier: TextureBarrier)
        requires
            texture.raw is Some,
        ensures
            barrier == self.hal(texture.raw.unwrap()),
    {
        let levels = self.selector.levels;
        let layers = self.selector.layers;
        TextureBarrier {
            texture: texture.raw.unwrap(),
            range: ImageSubresourceRange {
                base_mip_level: levels.start,
                mip_level_count: if levels.end > levels.start {
                    Some(levels.end - levels.start)
                } else {
                    None
                },
                base_array_layer: layers.start,
                array_layer_count: if layers.end > layers.start {
                    Some(layers.end - layers.start)
                } else {
                    None
                },
            },
            usage: self.usage,
        }
    }
}

/// The sub-resource at mip level `mip` of layer `layer`, alone.
pub open spec fn single(mip: u32, layer: u32) -> TextureSelector {
    TextureSelector {
        levels: IndexRange { start: mip, end: (mip + 1) as u32 },
        layers: IndexRange { start: layer, end: (layer + 1) as u32 },
    }
}

/// The states of the layers of one mip level once those from `lo` up to
/// `hi` are put to `usage`.
pub open spec fn layers_replaced(
    layers: Map<u32, ResourceUse>,
    lo: u32,
    hi: nat,
    usage: u32,
) -> Map<u32, ResourceUse> {
    Map::new(
        |layer: u32| layers.contains_key(layer) || lo <= layer < hi,
        |layer: u32|
            if lo <= layer < hi {
                use_replaced(layers, layer, usage)
            } else {
                layers[layer]
            },
    )
}

/// The transitions that putting the layers from `lo` up to `hi` of one mip
/// level to `usage` calls for: one for each layer whose current use differs
/// from `usage`, by layer.
pub open spec fn pending_layers_replace(
    layers: Map<u32, ResourceUse>,
    id: TextureId,
    mip: u32,
    lo: u32,
    hi: nat,
    usage: u32,
) -> Seq<PendingTextureTransition>
    decreases hi,
{
    if hi <= lo {
        Seq::empty()
    } else {
        let layer = (hi - 1) as u32;
        let before = pending_layers_replace(layers, id, mip, lo, (hi - 1) as nat, usage);
        if current_use(layers, layer) != usage {
            before.push(
                PendingTextureTransition {
                    id,
                    selector: single(mip, layer),
                    usage: UsageRange { start: current_use(layers, layer), end: usage },
                },
            )
        } else {
            before
        }
    }
}

/// The states of the layers of mip level `mip`, none where the level was not
/// touched.
pub open spec fn layers_of(state: Map<u32, Map<u32, ResourceUse>>, mip: u32) -> Map<
    u32,
    ResourceUse,
> {
    if state.contains_key(mip) {
        state[mip]
    } else {
        Map::empty()
    }
}

/// The states of the sub-resources of a texture once those of `selector`,
/// with mip levels up to `hi` only, are put to `usage`.
pub open spec fn texture_replaced(
    state: Map<u32, Map<u32, ResourceUse>>,
    selector: TextureSelector,
    hi: nat,
    usage: u32,
) -> Map<u32, Map<u32, ResourceUse>> {
    Map::new(
        |mip: u32| state.contains_key(mip) || selector.levels.start <= mip < hi,
        |mip: u32|
            if selector.levels.start <= mip < hi {
                layers_replaced(
                    layers_of(state, mip),
                    selector.layers.start,
                    selector.layers.end as nat,
                    usage,
                )
            } else {
                state[mip]
            },
    )
}

/// The transitions that putting the sub-resources of `selector`, with mip
/// levels up to `hi` only, to `usage` calls for, by mip level and layer.
pub open spec fn pending_texture_replace(
    state: Map<u32, Map<u32, ResourceUse>>,
    id: TextureId,
    selector: TextureSelector,
    hi: nat,
    usage: u32,
) -> Seq<PendingTextureTransition>
    decreases hi,
{
    if hi <= selector.levels.start {
        Seq::empty()
    } else {
        let mip = (hi - 1) as u32;
        pending_texture_replace(state, id, selector, (hi - 1) as nat, usage)
            + pending_layers_replace(
            layers_of(state, mip),
            id,
            mip,
            selector.layers.start,
            selector.layers.end as nat,
            usage,
        )
    }
}

/// The states of a texture in a tracker, none where the tracker has not seen
/// the texture.
pub open spec fn texture_state_of(
    states: Map<u32, Map<u32, Map<u32, ResourceUse>>>,
    id: TextureId,
) -> Map<u32, Map<u32, ResourceUse>> {
    if states.contains_key(id) {
        states[id]
    } else {
        Map::empty()
    }
}

/// One more than the largest identifier, mip level or layer.
pub open spec fn index_limit() -> nat {
    0x1_0000_0000
}

/// The transitions of the layers below `bound` of one mip level that running
/// `head` after `base` calls for, by layer.
pub open spec fn pending_layers_merge(
    base: Map<u32, ResourceUse>,
    head: Map<u32, ResourceUse>,
    id: TextureId,
    mip: u32,
    bound: nat,
) -> Seq<PendingTextureTransition>
    decreases bound,
{
    if bound == 0 {
        Seq::empty()
    } else {
        let layer = (bound - 1) as u32;
        let before = pending_layers_merge(base, head, id, mip, (bound - 1) as nat);
        if needs_transition(base, head, layer) {
            before.push(
                PendingTextureTransition {
                    id,
                    selector: single(mip, layer),
                    usage: UsageRange { start: base[layer].last, end: head[layer].first },
                },
            )
        } else {
            before
        }
    }
}

/// The states of the sub-resources of a texture once the stream `head` has
/// run after `base`.
pub open spec fn texture_merged(
    base: Map<u32, Map<u32, ResourceUse>>,
    head: Map<u32, Map<u32, ResourceUse>>,
) -> Map<u32, Map<u32, ResourceUse>> {
    Map::new(
        |mip: u32| base.contains_key(mip) || head.contains_key(mip),
        |mip: u32|
            if head.contains_key(mip) {
                merged(layers_of(base, mip), head[mip])
            } else {
                base[mip]
            },
    )
}

/// The transitions of the mip levels below `bound` of one texture that
/// running `head` after `base` calls for, by mip level and layer.
pub open spec fn pending_mips_merge(
    base: Map<u32, Map<u32, ResourceUse>>,
    head: Map<u32, Map<u32, ResourceUse>>,
    id: TextureId,
    bound: nat,
) -> Seq<PendingTextureTransition>
    decreases bound,
{
    if bound == 0 {
        Seq::empty()
    } else {
        let mip = (bound - 1) as u32;
        pending_mips_merge(base, head, id, (bound - 1) as nat) + pending_layers_merge(
            layers_of(base, mip),
            layers_of(head, mip),
            id,
            mip,
            index_limit(),
        )
    }
}

/// The states of all textures once the stream `head` has run after `base`.
pub open spec fn textures_merged(
    base: Map<u32, Map<u32, Map<u32, ResourceUse>>>,
    head: Map<u32, Map<u32, Map<u32, ResourceUse>>>,
) -> Map<u32, Map<u32, Map<u32, ResourceUse>>> {
    Map::new(
        |id: u32| base.contains_key(id) || head.contains_key(id),
        |id: u32|
            if head.contains_key(id) {
                texture_merged(texture_state_of(base, id), head[id])
            } else {
                base[id]
            },
    )
}

/// The transitions of the textures below `bound` that running `head` after
/// `base` calls for, by identifier, mip level and layer.
pub open spec fn pending_texture_merge(
    base: Map<u32, Map<u32, Map<u32, ResourceUse>>>,
    head: Map<u32, Map<u32, Map<u32, ResourceUse>>>,
    bound: nat,
) -> Seq<PendingTextureTransition>
    decreases bound,
{
    if bound == 0 {
        Seq::empty()
    } else {
        let id = (bound - 1) as u32;
        pending_texture_merge(base, head, (bound - 1) as nat) + pending_mips_merge(
            texture_state_of(base, id),
            texture_state_of(head, id),
            id,
            index_limit(),
        )
    }
}

/// No layer from the largest one that `head` holds on calls for a
/// transition.
proof fn lemma_pending_layers_merge_beyond(
    base: Map<u32, ResourceUse>,
    head: Map<u32, ResourceUse>,
    id: TextureId,
    mip: u32,
    bound: nat,
    limit: nat,
)
    requires
        forall|layer: u32| head.contains_key(layer) ==> layer < bound,
        bound <= limit <= index_limit(),
    ensures
        pending_layers_merge(base, head, id, mip, limit) == pending_layers_merge(
            base,
            head,
            id,
            mip,
            bound,
        ),
    decreases limit,
{
    if bound < limit {
        lemma_pending_layers_merge_beyond(base, head, id, mip, bound, (limit - 1) as nat);
    }
}

/// No mip level from the largest one that `head` holds on calls for a
/// transition.
proof fn lemma_pending_mips_merge_beyond(
    base: Map<u32, Map<u32, ResourceUse>>,
    head: Map<u32, Map<u32, ResourceUse>>,
    id: TextureId,
    bound: nat,
    limit: nat,
)
    requires
        forall|mip: u32| head.contains_key(mip) ==> mip < bound,
        bound <= limit <= index_limit(),
    ensures
        pending_mips_merge(base, head, id, limit) == pending_mips_merge(base, head, id, bound),
    decreases limit,
{
    if bound < limit {
        lemma_pending_mips_merge_beyond(base, head, id, bound, (limit - 1) as nat);
        let mip = (limit - 1) as u32;
        assert(!head.contains_key(mip));
        lemma_pending_layers_merge_beyond(
            layers_of(base, mip),
            layers_of(head, mip),
            id,
            mip,
            0,
            index_limit(),
        );
        assert(pending_layers_merge(layers_of(base, mip), layers_of(head, mip), id, mip, 0)
            =~= Seq::empty());
    }
}

/// The textures below `bound` of a tracker's states.
pub open spec fn textures_below(
    states: Map<u32, Map<u32, Map<u32, ResourceUse>>>,
    bound: nat,
) -> Map<u32, Map<u32, Map<u32, ResourceUse>>> {
    states.restrict(Set::new(|id: u32| id < bound))
}

/// Every mip level and layer of every texture has a successor.
pub open spec fn textures_wf(states: Map<u32, Map<u32, Map<u32, ResourceUse>>>) -> bool {
    forall|id: u32| #[trigger] states.contains_key(id) ==> texture_state_wf(states[id])
}

/// Merging keeps every mip level and layer below the largest index.
proof fn lemma_textures_merged_wf(
    base: Map<u32, Map<u32, Map<u32, ResourceUse>>>,
    head: Map<u32, Map<u32, Map<u32, ResourceUse>>>,
)
    requires
        textures_wf(base),
        textures_wf(head),
    ensures
        textures_wf(textures_merged(base, head)),
{
    let all = textures_merged(base, head);
    assert forall|id: u32| #[trigger] all.contains_key(id) implies texture_state_wf(all[id]) by {
        if head.contains_key(id) {
            assert(texture_state_wf(head[id]));
            if base.contains_key(id) {
                assert(texture_state_wf(base[id]));
            }
        } else {
            assert(texture_state_wf(base[id]));
        }
    }
}

/// The mip levels below `bound` of a texture state.
pub open spec fn levels_below(state: Map<u32, Map<u32, ResourceUse>>, bound: nat) -> Map<
    u32,
    Map<u32, ResourceUse>,
> {
    state.restrict(Set::new(|mip: u32| mip < bound))
}

/// Every mip level and layer that a texture state holds has a successor.
pub open spec fn texture_state_wf(state: Map<u32, Map<u32, ResourceUse>>) -> bool {
    &&& forall|mip: u32| #[trigger] state.contains_key(mip) ==> mip < u32::MAX
    &&& forall|mip: u32, layer: u32|
        state.contains_key(mip) && (#[trigger] state[mip].contains_key(layer)) ==> layer
            < u32::MAX
}

/// Whether two transitions can be carried out as one: they are of the same
/// texture and mip levels, change the use in the same way, and the layers of
/// the second follow those of the first.
pub open spec fn adjacent(first: PendingTextureTransition, second: PendingTextureTransition) -> bool {
    &&& first.id == second.id
    &&& first.usage == second.usage
    &&& first.selector.levels == second.selector.levels
    &&& first.selector.layers.end == second.selector.layers.start
}

/// The transition of the layers of two adjacent transitions.
pub open spec fn joined(
    first: PendingTextureTransition,
    second: PendingTextureTransition,
) -> PendingTextureTransition {
    PendingTextureTransition {
        selector: TextureSelector {
            layers: IndexRange {
                start: first.selector.layers.start,
                end: second.selector.layers.end,
            },
            ..first.selector
        },
        ..first
    }
}

/// The transitions of `pending`, each one merged with those before it that
/// it is adjacent to.
pub open spec fn coalesced(pending: Seq<PendingTextureTransition>) -> Seq<PendingTextureTransition>
    decreases pending.len(),
{
    if pending.len() == 0 {
        Seq::empty()
    } else {
        let before = coalesced(pending.drop_last());
        if before.len() > 0 && adjacent(before.last(), pending.last()) {
            before.drop_last().push(joined(before.last(), pending.last()))
        } else {
            before.push(pending.last())
        }
    }
}

/// Merges adjacent transitions of `pending`.
pub fn coalesce(pending: &Vec<PendingTextureTransition>) -> (merged: Vec<PendingTextureTransition>)
    ensures
        merged@ == coalesced(pending@),
{
    let mut merged: Vec<PendingTextureTransition> = Vec::new();
    let mut i: usize = 0;
    assert(pending@.take(0) =~= Seq::empty());
    while i < pending.len()
        invariant
            i <= pending.len(),
            merged@ == coalesced(pending@.take(i as int)),
        decreases pending.len() - i,
    {
        let next = pending[i];
        proof {
            let upto = pending@.take(i as int + 1);
            assert(upto.drop_last() =~= pending@.take(i as int));
            assert(upto.last() == next);
        }
        let ghost before = merged@;
        let mut joins: bool = false;
        if merged.len() > 0 {
            let last = merged[merged.len() - 1];
            joins = last.id == next.id && last.usage.start == next.usage.start && last.usage.end
                == next.usage.end && last.selector.levels.start == next.selector.levels.start
                && last.selector.levels.end == next.selector.levels.end
                && last.selector.layers.end == next.selector.layers.start;
        }
        if joins {
            let last = merged[merged.len() - 1];
            merged.pop();
            merged.push(
                PendingTextureTransition {
                    id: last.id,
                    selector: TextureSelector {
                        levels: last.selector.levels,
                        layers: IndexRange {
                            start: last.selector.layers.start,
                            end: next.selector.layers.end,
                        },
                    },
                    usage: last.usage,
                },
            );
            assert(merged@ =~= before.drop_last().push(joined(before.last(), next)));
        } else {
            merged.push(next);
        }
        i += 1;
    }
    assert(pending@.take(i as int) =~= pending@);
    merged
}

/// The uses of the sub-resources of one texture: per mip level, per layer.
#[derive(Debug)]
pub struct TextureState {
    pub mips: Storage<Storage<ResourceUse>>,
}

impl View for TextureState {
    type V = Map<u32, Map<u32, ResourceUse>>;

    open spec fn view(&self) -> Map<u32, Map<u32, ResourceUse>> {
        Map::new(|mip: u32| self.mips@.contains_key(mip), |mip: u32| self.mips@[mip]@)
    }
}

/// Puts the layers from `lo` up to `hi` of one mip level to `usage`.
fn replace_layers(
    layers: &mut Storage<ResourceUse>,
    id: TextureId,
    mip: u32,
    range: IndexRange,
    usage: u32,
    pending: &mut Vec<PendingTextureTransition>,
)
    requires
        mip < u32::MAX,
    ensures
        final(layers)@ == layers_replaced(old(layers)@, range.start, range.end as nat, usage),
        final(pending)@ == old(pending)@ + pending_layers_replace(
            old(layers)@,
            id,
            mip,
            range.start,
            range.end as nat,
            usage,
        ),
{
    if range.end <= range.start {
        assert(layers@ =~= layers_replaced(old(layers)@, range.start, range.end as nat, usage));
        assert(pending@ =~= old(pending)@ + pending_layers_replace(
            old(layers)@,
            id,
            mip,
            range.start,
            range.end as nat,
            usage,
        ));
        return ;
    }
    let mut layer: u32 = range.start;
    assert(layers@ =~= layers_replaced(old(layers)@, range.start, layer as nat, usage));
    assert(pending@ =~= old(pending)@ + pending_layers_replace(
        old(layers)@,
        id,
        mip,
        range.start,
        layer as nat,
        usage,
    ));
    while layer < range.end
        invariant
            mip < u32::MAX,
            range.start <= layer <= range.end,
            layers@ == layers_replaced(old(layers)@, range.start, layer as nat, usage),
            pending@ == old(pending)@ + pending_layers_replace(
                old(layers)@,
                id,
                mip,
                range.start,
                layer as nat,
                usage,
            ),
        decreases range.end - layer,
    {
        let ghost before = pending@;
        let current: u32 = match layers.get(layer) {
            Some(state) => state.last,
            None => 0,
        };
        let first: u32 = match layers.get(layer) {
            Some(state) => state.first,
            None => usage,
        };
        assert(current == current_use(old(layers)@, layer));
        if current != usage {
            pending.push(
                PendingTextureTransition {
                    id,
                    selector: TextureSelector {
                        levels: IndexRange { start: mip, end: mip + 1 },
                        layers: IndexRange { start: layer, end: layer + 1 },
                    },
                    usage: UsageRange { start: current, end: usage },
                },
            );
        }
        layers.insert(layer, ResourceUse { first, last: usage });
        layer += 1;
        assert(layers@ =~= layers_replaced(old(layers)@, range.start, layer as nat, usage));
        assert(pending@ =~= old(pending)@ + pending_layers_replace(
            old(layers)@,
            id,
            mip,
            range.start,
            layer as nat,
            usage,
        ));
    }
}

/// Lets the layers of one mip level take their last use from `head`, and
/// adds the transitions that this calls for to `pending`.
fn merge_layers(
    layers: &mut Storage<ResourceUse>,
    head: &Storage<ResourceUse>,
    id: TextureId,
    mip: u32,
    pending: &mut Vec<PendingTextureTransition>,
)
    requires
        mip < u32::MAX,
        forall|layer: u32| head@.contains_key(layer) ==> layer < u32::MAX,
    ensures
        final(layers)@ == merged(old(layers)@, head@),
        final(pending)@ == old(pending)@ + pending_layers_merge(
            old(layers)@,
            head@,
            id,
            mip,
            index_limit(),
        ),
{
    let mut index: usize = 0;
    let bound: usize = head.bound();
    assert(layers@ =~= merged(old(layers)@, below(head@, 0)));
    assert(pending@ =~= old(pending)@ + pending_layers_merge(old(layers)@, head@, id, mip, 0));
    while index < bound
        invariant
            index <= bound,
            bound == head.spec_bound(),
            mip < u32::MAX,
            forall|layer: u32| head@.contains_key(layer) ==> layer < u32::MAX,
            layers@ == merged(old(layers)@, below(head@, index as nat)),
            pending@ == old(pending)@ + pending_layers_merge(
                old(layers)@,
                head@,
                id,
                mip,
                index as nat,
            ),
        decreases bound - index,
    {
        let layer: u32 = index as u32;
        match head.get(layer) {
            Some(state) => {
                let merged_state = match layers.get(layer) {
                    Some(base) => {
                        if base.last != state.first {
                            pending.push(
                                PendingTextureTransition {
                                    id,
                                    selector: TextureSelector {
                                        levels: IndexRange { start: mip, end: mip + 1 },
                                        layers: IndexRange { start: layer, end: layer + 1 },
                                    },
                                    usage: UsageRange { start: base.last, end: state.first },
                                },
                            );
                        }
                        ResourceUse { first: base.first, last: state.last }
                    },
                    None => *state,
                };
                layers.insert(layer, merged_state);
            },
            None => {},
        }
        index += 1;
        assert(layers@ =~= merged(old(layers)@, below(head@, index as nat)));
        assert(pending@ =~= old(pending)@ + pending_layers_merge(
            old(layers)@,
            head@,
            id,
            mip,
            index as nat,
        ));
    }
    proof {
        assert(below(head@, bound as nat) =~= head@);
        lemma_pending_layers_merge_beyond(
            old(layers)@,
            head@,
            id,
            mip,
            bound as nat,
            index_limit(),
        );
    }
}

impl TextureState {
    /// Every mip level and layer that the state holds has a successor.
    pub open spec fn wf(&self) -> bool {
        texture_state_wf(self@)
    }

    /// Lets the sub-resources take their last use from `head`, and adds the
    /// transitions that this calls for to `pending`.
    pub fn merge(
        &mut self,
        head: &TextureState,
        id: TextureId,
        pending: &mut Vec<PendingTextureTransition>,
    )
        requires
            head.wf(),
        ensures
            final(self)@ == texture_merged(old(self)@, head@),
            final(pending)@ == old(pending)@ + pending_mips_merge(
                old(self)@,
                head@,
                id,
                index_limit(),
            ),
    {
        let mut index: usize = 0;
        let bound: usize = head.mips.bound();
        let ghost done = Map::<u32, Map<u32, ResourceUse>>::empty();
        assert(self@ =~= texture_merged(old(self)@, levels_below(head@, 0)));
        assert(pending@ =~= old(pending)@ + pending_mips_merge(old(self)@, head@, id, 0));
        while index < bound
            invariant
                index <= bound,
                bound == head.mips.spec_bound(),
                head.wf(),
                self@ == texture_merged(old(self)@, levels_below(head@, index as nat)),
                pending@ == old(pending)@ + pending_mips_merge(
                    old(self)@,
                    head@,
                    id,
                    index as nat,
                ),
            decreases bound - index,
        {
            let mip: u32 = index as u32;
            let ghost state_before = self@;
            let ghost pending_before = pending@;
            match head.mips.get(mip) {
                Some(head_layers) => {
                    assert(head@.contains_key(mip) && head@[mip] == head_layers@);
                    assert forall|layer: u32| head_layers@.contains_key(layer) implies layer
                        < u32::MAX by {
                        assert(head@[mip].contains_key(layer));
                    }
                    let mut layers = match self.mips.remove(mip) {
                        Some(layers) => layers,
                        None => Storage::new(),
                    };
                    assert(layers@ == layers_of(state_before, mip));
                    assert(layers_of(state_before, mip) == layers_of(old(self)@, mip));
                    merge_layers(&mut layers, head_layers, id, mip, pending);
                    let ghost merged_layers = layers@;
                    self.mips.insert(mip, layers);
                    proof {
                        let target = texture_merged(
                            old(self)@,
                            levels_below(head@, index as nat + 1),
                        );
                        assert forall|level: u32| self@.contains_key(level)
                            == target.contains_key(level) by {
                            if level != mip {
                                assert(self@.contains_key(level) == state_before.contains_key(
                                    level,
                                ));
                            }
                        }
                        assert forall|level: u32| self@.contains_key(level) implies self@[level]
                            == target[level] by {
                            if level != mip {
                                assert(self@[level] == state_before[level]);
                                assert(state_before.contains_key(level));
                                assert(state_before[level] == target[level]);
                            } else {
                                assert(self@[level] == merged_layers);
                                assert(merged_layers == target[level]);
                            }
                        }
                        assert(self@ =~= target);
                    }
                },
                None => {
                    proof {
                        assert(!head@.contains_key(mip));
                        assert(pending_layers_merge(
                            layers_of(old(self)@, mip),
                            layers_of(head@, mip),
                            id,
                            mip,
                            0,
                        ) =~= Seq::empty());
                        lemma_pending_layers_merge_beyond(
                            layers_of(old(self)@, mip),
                            layers_of(head@, mip),
                            id,
                            mip,
                            0,
                            index_limit(),
                        );
                        assert(self@ =~= texture_merged(
                            old(self)@,
                            levels_below(head@, index as nat + 1),
                        ));
                    }
                },
            }
            index += 1;
            assert(pending@ =~= old(pending)@ + pending_mips_merge(
                old(self)@,
                head@,
                id,
                index as nat,
            ));
        }
        proof {
            assert(levels_below(head@, bound as nat) =~= head@);
            lemma_pending_mips_merge_beyond(old(self)@, head@, id, bound as nat, index_limit());
        }
    }

    /// The state of a texture that no command has touched: it holds no mip
    /// level, and is well-formed.
    pub fn new() -> (state: Self)
        ensures
            state@ == Map::<u32, Map<u32, ResourceUse>>::empty(),
            state.wf(),
    {
        let state = TextureState { mips: Storage::new() };
        assert(state@ =~= Map::<u32, Map<u32, ResourceUse>>::empty());
        state
    }

    /// Puts the sub-resources of `selector` to `usage`, and adds the
    /// transitions that this calls for to `pending`.
    pub fn change_replace(
        &mut self,
        id: TextureId,
        selector: TextureSelector,
        usage: u32,
        pending: &mut Vec<PendingTextureTransition>,
    )
        ensures
            final(self)@ == texture_replaced(
                old(self)@,
                selector,
                selector.levels.end as nat,
                usage,
            ),
            final(pending)@ == old(pending)@ + pending_texture_replace(
                old(self)@,
                id,
                selector,
                selector.levels.end as nat,
                usage,
            ),
    {
        if selector.levels.end <= selector.levels.start {
            assert(self@ =~= texture_replaced(
                old(self)@,
                selector,
                selector.levels.end as nat,
                usage,
            ));
            assert(pending@ =~= old(pending)@ + pending_texture_replace(
                old(self)@,
                id,
                selector,
                selector.levels.end as nat,
                usage,
            ));
            return ;
        }
        let mut mip: u32 = selector.levels.start;
        assert(self@ =~= texture_replaced(old(self)@, selector, mip as nat, usage));
        assert(pending@ =~= old(pending)@ + pending_texture_replace(
            old(self)@,
            id,
            selector,
            mip as nat,
            usage,
        ));
        while mip < selector.levels.end
            invariant
                selector.levels.start <= mip <= selector.levels.end,
                self@ == texture_replaced(old(self)@, selector, mip as nat, usage),
                pending@ == old(pending)@ + pending_texture_replace(
                    old(self)@,
                    id,
                    selector,
                    mip as nat,
                    usage,
                ),
            decreases selector.levels.end - mip,
        {
            let ghost before = pending@;
            let ghost state_before = self@;
            let mut layers = match self.mips.remove(mip) {
                Some(layers) => layers,
                None => Storage::new(),
            };
            assert(layers@ == layers_of(state_before, mip));
            assert(layers_of(state_before, mip) == layers_of(old(self)@, mip));
            replace_layers(&mut layers, id, mip, selector.layers, usage, pending);
            let ghost replaced = layers@;
            self.mips.insert(mip, layers);
            proof {
                let target = texture_replaced(old(self)@, selector, mip as nat + 1, usage);
                assert forall|level: u32| self@.contains_key(level) == target.contains_key(
                    level,
                ) by {
                    if level != mip {
                        assert(self@.contains_key(level) == state_before.contains_key(level));
                    }
                }
                assert forall|level: u32| self@.contains_key(level) implies self@[level]
                    == target[level] by {
                    if level != mip {
                        assert(self@[level] == state_before[level]);
                        assert(state_before.contains_key(level));
                        assert(state_before[level] == target[level]);
                    } else {
                        assert(self@[level] == replaced);
                        assert(replaced == target[level]);
                    }
                }
                assert(self@ =~= target);
            }
            mip += 1;
            assert(pending@ =~= old(pending)@ + pending_texture_replace(
                old(self)@,
                id,
                selector,
                mip as nat,
                usage,
            ));
        }
    }
}

/// The use of every sub-resource of every texture that a command stream has
/// touched.
#[derive(Debug)]
pub struct TextureTracker {
    pub states: Storage<TextureState>,
}

impl View for TextureTracker {
    type V = Map<u32, Map<u32, Map<u32, ResourceUse>>>;

    open spec fn view(&self) -> Map<u32, Map<u32, Map<u32, ResourceUse>>> {
        Map::new(|id: u32| self.states@.contains_key(id), |id: u32| self.states@[id]@)
    }
}

impl TextureTracker {
    /// Every mip level and layer that the tracker holds has a successor.
    pub open spec fn wf(&self) -> bool {
        textures_wf(self@)
    }

    /// One more than the largest identifier that the tracker can hold a
    /// state for.
    pub open spec fn bound(&self) -> nat {
        self.states.spec_bound()
    }

    /// The tracker of a stream that has touched nothing.
    pub fn new() -> (tracker: Self)
        ensures
            tracker@ == Map::<u32, Map<u32, Map<u32, ResourceUse>>>::empty(),
            tracker.wf(),
    {
        let tracker = TextureTracker { states: Storage::new() };
        assert(tracker@ =~= Map::<u32, Map<u32, Map<u32, ResourceUse>>>::empty());
        tracker
    }

    /// Puts the sub-resources of `selector` of texture `id` to `usage` from
    /// this point of the stream on, and returns the transitions to insert
    /// before it: one for each sub-resource whose use changes, those of
    /// adjacent layers merged. A sub-resource that the tracker has not seen
    /// counts as in no use.
    pub fn change_replace(&mut self, id: TextureId, selector: TextureSelector, usage: u32) -> (pending:
        Vec<PendingTextureTransition>)
        ensures
            pending@ == coalesced(
                pending_texture_replace(
                    texture_state_of(old(self)@, id),
                    id,
                    selector,
                    selector.levels.end as nat,
                    usage,
                ),
            ),
            final(self)@ == old(self)@.insert(
                id,
                texture_replaced(
                    texture_state_of(old(self)@, id),
                    selector,
                    selector.levels.end as nat,
                    usage,
                ),
            ),
            old(self).wf() ==> final(self).wf(),
    {
        let mut pending: Vec<PendingTextureTransition> = Vec::new();
        let mut state = match self.states.remove(id) {
            Some(state) => state,
            None => TextureState::new(),
        };
        state.change_replace(id, selector, usage, &mut pending);
        self.states.insert(id, state);
        assert(self@ =~= old(self)@.insert(
            id,
            texture_replaced(
                texture_state_of(old(self)@, id),
                selector,
                selector.levels.end as nat,
                usage,
            ),
        ));
        coalesce(&pending)
    }

    /// Lets the stream `head` run after this one: every sub-resource that
    /// `head` touched takes its last use from `head`. Returns the transitions
    /// from the uses that this stream left to the uses that `head` starts
    /// with, those of adjacent layers merged.
    pub fn merge_replace(&mut self, head: &TextureTracker) -> (pending: Vec<
        PendingTextureTransition,
    >)
        requires
            head.wf(),
        ensures
            pending@ == coalesced(pending_texture_merge(old(self)@, head@, index_limit())),
            final(self)@ == textures_merged(old(self)@, head@),
            old(self).wf() ==> final(self).wf(),
    {
        let mut pending: Vec<PendingTextureTransition> = Vec::new();
        let mut index: usize = 0;
        let bound: usize = head.states.bound();
        assert(self@ =~= textures_merged(old(self)@, textures_below(head@, 0)));
        while index < bound
            invariant
                index <= bound,
                bound == head.bound(),
                head.wf(),
                self@ == textures_merged(old(self)@, textures_below(head@, index as nat)),
                pending@ == pending_texture_merge(old(self)@, head@, index as nat),
            decreases bound - index,
        {
            let id: u32 = index as u32;
            let ghost states_before = self@;
            match head.states.get(id) {
                Some(head_state) => {
                    assert(head@.contains_key(id) && head@[id] == head_state@);
                    let mut state = match self.states.remove(id) {
                        Some(state) => state,
                        None => TextureState::new(),
                    };
                    assert(state@ == texture_state_of(states_before, id));
                    assert(texture_state_of(states_before, id) == texture_state_of(
                        old(self)@,
                        id,
                    ));
                    state.merge(head_state, id, &mut pending);
                    let ghost merged_state = state@;
                    self.states.insert(id, state);
                    proof {
                        let target = textures_merged(
                            old(self)@,
                            textures_below(head@, index as nat + 1),
                        );
                        assert forall|other: u32| self@.contains_key(other)
                            == target.contains_key(other) by {
                            if other != id {
                                assert(self@.contains_key(other) == states_before.contains_key(
                                    other,
                                ));
                            }
                        }
                        assert forall|other: u32| self@.contains_key(other) implies self@[other]
                            == target[other] by {
                            if other != id {
                                assert(self@[other] == states_before[other]);
                                assert(states_before.contains_key(other));
                                assert(states_before[other] == target[other]);
                            } else {
                                assert(self@[other] == merged_state);
                                assert(merged_state == target[other]);
                            }
                        }
                        assert(self@ =~= target);
                    }
                },
                None => {
                    proof {
                        assert(!head@.contains_key(id));
                        lemma_pending_mips_merge_beyond(
                            texture_state_of(old(self)@, id),
                            texture_state_of(head@, id),
                            id,
                            0,
                            index_limit(),
                        );
                        assert(pending_mips_merge(
                            texture_state_of(old(self)@, id),
                            texture_state_of(head@, id),
                            id,
                            0,
                        ) =~= Seq::empty());
                        assert(self@ =~= textures_merged(
                            old(self)@,
                            textures_below(head@, index as nat + 1),
                        ));
                    }
                },
            }
            index += 1;
            assert(pending@ =~= pending_texture_merge(old(self)@, head@, index as nat));
        }
        proof {
            assert(textures_below(head@, bound as nat) =~= head@);
            if old(self).wf() {
                lemma_textures_merged_wf(old(self)@, head@);
            }
            lemma_pending_texture_merge_beyond(old(self)@, head@, bound as nat, index_limit());
        }
        coalesce(&pending)
    }

    /// Looks texture `id` up in `storage` and puts the sub-resources of
    /// `selector` to `usage`, as `change_replace` does. Fails with the
    /// identifier, and changes nothing, where the texture is not registered.
    pub fn use_replace<'a>(
        &mut self,
        storage: &'a Storage<Texture>,
        id: TextureId,
        selector: TextureSelector,
        usage: u32,
    ) -> (res: Result<(&'a Texture, Vec<PendingTextureTransition>), TextureId>)
        ensures
            res is Ok == storage@.contains_key(id),
            res is Err ==> res->Err_0 == id && final(self)@ == old(self)@,
            res is Ok ==> {
                &&& *res->Ok_0.0 == storage@[id]
                &&& res->Ok_0.1@ == coalesced(
                    pending_texture_replace(
                        texture_state_of(old(self)@, id),
                        id,
                        selector,
                        selector.levels.end as nat,
                        usage,
                    ),
                )
                &&& final(self)@ == old(self)@.insert(
                    id,
                    texture_replaced(
                        texture_state_of(old(self)@, id),
                        selector,
                        selector.levels.end as nat,
                        usage,
                    ),
                )
            },
            old(self).wf() ==> final(self).wf(),
    {
        match storage.get(id) {
            Some(texture) => {
                let pending = self.change_replace(id, selector, usage);
                Ok((texture, pending))
            },
            None => Err(id),
        }
    }
}

/// The barriers that carry out `pending` on the backend's buffer `raw`.
pub open spec fn buffer_barriers(pending: Seq<PendingBufferTransition>, raw: RawHandle) -> Seq<
    BufferBarrier,
> {
    pending.map_values(|transition: PendingBufferTransition| transition.hal(raw))
}

/// The barriers that carry out `pending` on the backend's texture `raw`.
pub open spec fn texture_barriers(pending: Seq<PendingTextureTransition>, raw: RawHandle) -> Seq<
    TextureBarrier,
> {
    pending.map_values(|transition: PendingTextureTransition| transition.hal(raw))
}

/// Adds the barriers that carry out `pending` on `buffer` to `barriers`.
pub fn push_buffer_barriers(
    barriers: &mut Vec<BufferBarrier>,
    pending: &Vec<PendingBufferTransition>,
    buffer: &Buffer,
)
    requires
        buffer.raw is Some,
    ensures
        final(barriers)@ == old(barriers)@ + buffer_barriers(pending@, buffer.raw.unwrap()),
{
    let mut i: usize = 0;
    assert(barriers@ =~= old(barriers)@ + buffer_barriers(
        pending@.take(0),
        buffer.raw.unwrap(),
    ));
    while i < pending.len()
        invariant
            i <= pending.len(),
            buffer.raw is Some,
            barriers@ == old(barriers)@ + buffer_barriers(
                pending@.take(i as int),
                buffer.raw.unwrap(),
            ),
        decreases pending.len() - i,
    {
        barriers.push(pending[i].into_hal(buffer));
        i += 1;
        assert(barriers@ =~= old(barriers)@ + buffer_barriers(
            pending@.take(i as int),
            buffer.raw.unwrap(),
        ));
    }
    assert(pending@.take(i as int) =~= pending@);
}

/// Adds the barriers that carry out `pending` on `texture` to `barriers`.
pub fn push_texture_barriers(
    barriers: &mut Vec<TextureBarrier>,
    pending: &Vec<PendingTextureTransition>,
    texture: &Texture,
)
    requires
        texture.raw is Some,
    ensures
        final(barriers)@ == old(barriers)@ + texture_barriers(pending@, texture.raw.unwrap()),
{
    let mut i: usize = 0;
    assert(barriers@ =~= old(barriers)@ + texture_barriers(
        pending@.take(0),
        texture.raw.unwrap(),
    ));
    while i < pending.len()
        invariant
            i <= pending.len(),
            texture.raw is Some,
            barriers@ == old(barriers)@ + texture_barriers(
                pending@.take(i as int),
                texture.raw.unwrap(),
            ),
        decreases pending.len() - i,
    {
        barriers.push(pending[i].into_hal(texture));
        i += 1;
        assert(barriers@ =~= old(barriers)@ + texture_barriers(
            pending@.take(i as int),
            texture.raw.unwrap(),
        ));
    }
    assert(pending@.take(i as int) =~= pending@);
}

/// The identifiers below `bound` that `states` holds, in ascending order.
pub open spec fn tracked_ids<T>(states: Map<u32, T>, bound: nat) -> Seq<u32>
    decreases bound,
{
    if bound == 0 {
        Seq::empty()
    } else {
        let id = (bound - 1) as u32;
        let before = tracked_ids(states, (bound - 1) as nat);
        if states.contains_key(id) {
            before.push(id)
        } else {
            before
        }
    }
}

/// The identifiers tracked are those of the keys alone.
pub proof fn lemma_tracked_ids_same_keys<T, U>(first: Map<u32, T>, second: Map<u32, U>, bound: nat)
    requires
        forall|id: u32| first.contains_key(id) == second.contains_key(id),
    ensures
        tracked_ids(first, bound) == tracked_ids(second, bound),
    decreases bound,
{
    if bound > 0 {
        lemma_tracked_ids_same_keys(first, second, (bound - 1) as nat);
    }
}

/// The identifiers of the resources that `storage` holds, in ascending
/// order.
pub fn used_ids<T>(storage: &Storage<T>) -> (ids: Vec<u32>)
    ensures
        ids@ == tracked_ids(storage@, storage.spec_bound()),
        forall|i: int| 0 <= i < ids@.len() ==> storage@.contains_key(#[trigger] ids@[i]),
{
    let mut ids: Vec<u32> = Vec::new();
    let mut index: usize = 0;
    let bound: usize = storage.bound();
    while index < bound
        invariant
            index <= bound,
            bound == storage.spec_bound(),
            ids@ == tracked_ids(storage@, index as nat),
            forall|i: int| 0 <= i < ids@.len() ==> storage@.contains_key(#[trigger] ids@[i]),
        decreases bound - index,
    {
        if storage.contains(index as u32) {
            ids.push(index as u32);
        }
        index += 1;
    }
    ids
}

impl BufferTracker {
    /// The buffers that the stream has touched, in ascending order.
    pub fn used(&self) -> (ids: Vec<u32>)
        ensures
            ids@ == tracked_ids(self@, index_limit()),
    {
        proof {
            lemma_tracked_ids_beyond(self@, self.bound(), index_limit());
        }
        used_ids(&self.states)
    }
}

impl TextureTracker {
    /// The textures that the stream has touched, in ascending order.
    pub fn used(&self) -> (ids: Vec<u32>)
        ensures
            ids@ == tracked_ids(self@, index_limit()),
    {
        proof {
            lemma_tracked_ids_beyond(self.states@, self.bound(), index_limit());
            lemma_tracked_ids_same_keys(self.states@, self@, index_limit());
        }
        used_ids(&self.states)
    }
}

/// No buffer from the largest one that `head` holds on calls for a
/// transition.
pub proof fn lemma_pending_buffer_merge_beyond(
    base: Map<u32, ResourceUse>,
    head: Map<u32, ResourceUse>,
    bound: nat,
    limit: nat,
)
    requires
        forall|id: u32| head.contains_key(id) ==> id < bound,
        bound <= limit <= index_limit(),
    ensures
        pending_buffer_merge(base, head, limit) == pending_buffer_merge(base, head, bound),
    decreases limit,
{
    if bound < limit {
        lemma_pending_buffer_merge_beyond(base, head, bound, (limit - 1) as nat);
    }
}

/// No texture from the largest one that `head` holds on calls for a
/// transition.
pub proof fn lemma_pending_texture_merge_beyond(
    base: Map<u32, Map<u32, Map<u32, ResourceUse>>>,
    head: Map<u32, Map<u32, Map<u32, ResourceUse>>>,
    bound: nat,
    limit: nat,
)
    requires
        forall|id: u32| head.contains_key(id) ==> id < bound,
        bound <= limit <= index_limit(),
    ensures
        pending_texture_merge(base, head, limit) == pending_texture_merge(base, head, bound),
    decreases limit,
{
    if bound < limit {
        lemma_pending_texture_merge_beyond(base, head, bound, (limit - 1) as nat);
        let id = (limit - 1) as u32;
        assert(!head.contains_key(id));
        lemma_pending_mips_merge_beyond(
            texture_state_of(base, id),
            texture_state_of(head, id),
            id,
            0,
            index_limit(),
        );
        assert(pending_mips_merge(texture_state_of(base, id), texture_state_of(head, id), id, 0)
            =~= Seq::empty());
    }
}

/// No identifier from the largest one held on is tracked.
pub proof fn lemma_tracked_ids_beyond<T>(states: Map<u32, T>, bound: nat, limit: nat)
    requires
        forall|id: u32| states.contains_key(id) ==> id < bound,
        bound <= limit <= index_limit(),
    ensures
        tracked_ids(states, limit) == tracked_ids(states, bound),
    decreases limit,
{
    if bound < limit {
        lemma_tracked_ids_beyond(states, bound, (limit - 1) as nat);
    }
}

/// The transition of buffer `id` that running `head` after `base` calls
/// for.
pub open spec fn merge_transition(
    base: Map<u32, ResourceUse>,
    head: Map<u32, ResourceUse>,
    id: BufferId,
) -> PendingBufferTransition {
    PendingBufferTransition {
        id,
        usage: UsageRange { start: base[id].last, end: head[id].first },
    }
}

/// The transitions that running `head` after `base` calls for are those of
/// the buffers that need one, each once.
pub proof fn lemma_pending_buffer_merge_holds(
    base: Map<u32, ResourceUse>,
    head: Map<u32, ResourceUse>,
    bound: nat,
)
    requires
        bound <= index_limit(),
    ensures
        forall|transition: PendingBufferTransition|
            pending_buffer_merge(base, head, bound).contains(transition) <==> transition.id
                < bound && needs_transition(base, head, transition.id) && transition
                == merge_transition(base, head, transition.id),
        forall|i: int, j: int|
            0 <= i < j < pending_buffer_merge(base, head, bound).len() ==> pending_buffer_merge(
                base,
                head,
                bound,
            )[i].id < pending_buffer_merge(base, head, bound)[j].id,
    decreases bound,
{
    let all = pending_buffer_merge(base, head, bound);
    if bound == 0 {
    } else {
        let id = (bound - 1) as u32;
        let before = pending_buffer_merge(base, head, (bound - 1) as nat);
        lemma_pending_buffer_merge_holds(base, head, (bound - 1) as nat);
        assert forall|transition: PendingBufferTransition|
            all.contains(transition) <==> transition.id < bound && needs_transition(
                base,
                head,
                transition.id,
            ) && transition == merge_transition(base, head, transition.id) by {
            if all.contains(transition) {
                let k = choose|k: int| 0 <= k < all.len() && all[k] == transition;
                if k < before.len() {
                    assert(before[k] == transition);
                    assert(before.contains(transition));
                }
            }
            if transition.id < bound && needs_transition(base, head, transition.id) && transition
                == merge_transition(base, head, transition.id) {
                if transition.id == id {
                    assert(all[all.len() - 1] == transition);
                } else {
                    assert(before.contains(transition));
                    let k = choose|k: int| 0 <= k < before.len() && before[k] == transition;
                    assert(all[k] == transition);
                }
            }
        }
        assert forall|i: int, j: int| 0 <= i < j < all.len() implies all[i].id < all[j].id by {
            if j < before.len() {
            } else {
                assert(before[i] == all[i]);
                assert(before.contains(before[i]));
            }
        }
    }
}

/// Two command streams run one after the other on a queue, and both use
/// buffer `id`. The second one is stitched to the first with a transition of
/// the buffer if and only if the use that the first leaves it in differs
/// from the use that the second starts with; the transition then leads from
/// the one to the other, and there is no other for the buffer.
pub proof fn lemma_barrier_stitching(
    queue: Map<u32, ResourceUse>,
    first: Map<u32, ResourceUse>,
    second: Map<u32, ResourceUse>,
    id: BufferId,
)
    requires
        first.contains_key(id),
        second.contains_key(id),
    ensures
        ({
            let stitched = pending_buffer_merge(merged(queue, first), second, index_limit());
            let expected = PendingBufferTransition {
                id,
                usage: UsageRange { start: first[id].last, end: second[id].first },
            };
            &&& (exists|i: int| 0 <= i < stitched.len() && (#[trigger] stitched[i]).id == id)
                <==> first[id].last != second[id].first
            &&& forall|i: int|
                0 <= i < stitched.len() && (#[trigger] stitched[i]).id == id ==> stitched[i]
                    == expected
            &&& forall|i: int, j: int|
                0 <= i < stitched.len() && 0 <= j < stitched.len() && (
                #[trigger] stitched[i]).id == id && (#[trigger] stitched[j]).id == id ==> i == j
        }),
{
    let base = merged(queue, first);
    let stitched = pending_buffer_merge(base, second, index_limit());
    let expected = PendingBufferTransition {
        id,
        usage: UsageRange { start: first[id].last, end: second[id].first },
    };
    lemma_pending_buffer_merge_holds(base, second, index_limit());
    assert(base.contains_key(id));
    assert(base[id].last == first[id].last);
    assert(merge_transition(base, second, id) == expected);
    if first[id].last != second[id].first {
        assert(needs_transition(base, second, id));
        assert(stitched.contains(expected));
        let k = choose|k: int| 0 <= k < stitched.len() && stitched[k] == expected;
        assert(stitched[k].id == id);
    }
    assert forall|i: int| 0 <= i < stitched.len() && (#[trigger] stitched[i]).id
        == id implies stitched[i] == expected && first[id].last != second[id].first by {
        assert(stitched.contains(stitched[i]));
    }
    assert forall|i: int, j: int|
        0 <= i < stitched.len() && 0 <= j < stitched.len() && (#[trigger] stitched[i]).id == id
            && (#[trigger] stitched[j]).id == id implies i == j by {
        if i < j {
            assert(stitched[i].id < stitched[j].id);
        }
        if j < i {
            assert(stitched[j].id < stitched[i].id);
        }
    }
}

/// The transition of layer `layer` of mip level `mip` of texture `id` that
/// running `head` after `base` calls for.
pub open spec fn layer_merge_transition(
    base: Map<u32, ResourceUse>,
    head: Map<u32, ResourceUse>,
    id: TextureId,
    mip: u32,
    layer: u32,
) -> PendingTextureTransition {
    PendingTextureTransition {
        id,
        selector: single(mip, layer),
        usage: UsageRange { start: base[layer].last, end: head[layer].first },
    }
}

/// The transitions of the layers of one mip level that running `head` after
/// `base` calls for are those of the layers that need one, each once and in
/// the order of the layers.
pub proof fn lemma_pending_layers_merge_holds(
    base: Map<u32, ResourceUse>,
    head: Map<u32, ResourceUse>,
    id: TextureId,
    mip: u32,
    bound: nat,
)
    requires
        bound <= index_limit(),
    ensures
        forall|i: int|
            0 <= i < pending_layers_merge(base, head, id, mip, bound).len() ==> {
                let transition = #[trigger] pending_layers_merge(base, head, id, mip, bound)[i];
                let layer = transition.selector.layers.start;
                &&& layer < bound
                &&& needs_transition(base, head, layer)
                &&& transition == layer_merge_transition(base, head, id, mip, layer)
            },
        forall|layer: u32|
            layer < bound && needs_transition(base, head, layer) ==> pending_layers_merge(
                base,
                head,
                id,
                mip,
                bound,
            ).contains(#[trigger] layer_merge_transition(base, head, id, mip, layer)),
        forall|i: int, j: int|
            0 <= i < j < pending_layers_merge(base, head, id, mip, bound).len()
                ==> pending_layers_merge(base, head, id, mip, bound)[i].selector.layers.start
                < pending_layers_merge(base, head, id, mip, bound)[j].selector.layers.start,
    decreases bound,
{
    let all = pending_layers_merge(base, head, id, mip, bound);
    if bound > 0 {
        let last = (bound - 1) as u32;
        let before = pending_layers_merge(base, head, id, mip, (bound - 1) as nat);
        lemma_pending_layers_merge_holds(base, head, id, mip, (bound - 1) as nat);
        assert forall|i: int| 0 <= i < all.len() implies {
            let transition = #[trigger] all[i];
            let layer = transition.selector.layers.start;
            &&& layer < bound
            &&& needs_transition(base, head, layer)
            &&& transition == layer_merge_transition(base, head, id, mip, layer)
        } by {
            if i < before.len() {
                assert(all[i] == before[i]);
            }
        }
        assert forall|layer: u32|
            layer < bound && needs_transition(base, head, layer) implies all.contains(
            #[trigger] layer_merge_transition(base, head, id, mip, layer),
        ) by {
            let wanted = layer_merge_transition(base, head, id, mip, layer);
            if layer == last {
                assert(all[all.len() - 1] == wanted);
            } else {
                assert(before.contains(wanted));
                let k = choose|k: int| 0 <= k < before.len() && before[k] == wanted;
                assert(all[k] == wanted);
            }
        }
        assert forall|i: int, j: int| 0 <= i < j < all.len() implies all[i].selector.layers.start
            < all[j].selector.layers.start by {
            assert(all[i] == before[i]);
            if j < before.len() {
                assert(all[j] == before[j]);
            }
        }
    }
}

/// Whether `transition` changes the use of layer `layer` of mip level `mip`
/// of texture `id` as `usage` says.
pub open spec fn covers_sub_resource(
    transition: PendingTextureTransition,
    id: TextureId,
    mip: u32,
    layer: u32,
    usage: UsageRange,
) -> bool {
    &&& transition.id == id
    &&& transition.usage == usage
    &&& transition.selector.levels.contains(mip)
    &&& transition.selector.layers.contains(layer)
}

/// Whether one of `transitions` changes the use of layer `layer` of mip level
/// `mip` of texture `id` as `usage` says.
pub open spec fn transitions_cover(
    transitions: Seq<PendingTextureTransition>,
    id: TextureId,
    mip: u32,
    layer: u32,
    usage: UsageRange,
) -> bool {
    exists|i: int|
        0 <= i < transitions.len() && covers_sub_resource(
            #[trigger] transitions[i],
            id,
            mip,
            layer,
            usage,
        )
}

/// Whether each of `transitions` is of one layer at least.
pub open spec fn layers_not_empty(transitions: Seq<PendingTextureTransition>) -> bool {
    forall|i: int|
        0 <= i < transitions.len() ==> (#[trigger] transitions[i]).selector.layers.start
            < transitions[i].selector.layers.end
}

/// One of some transitions and one more covers a sub-resource if one of the
/// transitions does or the one more does.
proof fn lemma_cover_push(
    transitions: Seq<PendingTextureTransition>,
    next: PendingTextureTransition,
    id: TextureId,
    mip: u32,
    layer: u32,
    usage: UsageRange,
)
    ensures
        transitions_cover(transitions.push(next), id, mip, layer, usage) <==> transitions_cover(
            transitions,
            id,
            mip,
            layer,
            usage,
        ) || covers_sub_resource(next, id, mip, layer, usage),
{
    let all = transitions.push(next);
    if transitions_cover(all, id, mip, layer, usage) {
        let i = choose|i: int|
            0 <= i < all.len() && covers_sub_resource(#[trigger] all[i], id, mip, layer, usage);
        if i < transitions.len() {
            assert(transitions[i] == all[i]);
        }
    }
    if transitions_cover(transitions, id, mip, layer, usage) {
        let i = choose|i: int|
            0 <= i < transitions.len() && covers_sub_resource(
                #[trigger] transitions[i],
                id,
                mip,
                layer,
                usage,
            );
        assert(all[i] == transitions[i]);
    }
    if covers_sub_resource(next, id, mip, layer, usage) {
        assert(all[all.len() - 1] == next);
    }
}

/// Merging adjacent transitions changes the use of the same sub-resources in
/// the same way.
pub proof fn lemma_coalesced_covers(
    pending: Seq<PendingTextureTransition>,
    id: TextureId,
    mip: u32,
    layer: u32,
    usage: UsageRange,
)
    requires
        layers_not_empty(pending),
    ensures
        transitions_cover(coalesced(pending), id, mip, layer, usage) <==> transitions_cover(
            pending,
            id,
            mip,
            layer,
            usage,
        ),
        layers_not_empty(coalesced(pending)),
    decreases pending.len(),
{
    if pending.len() > 0 {
        let front = pending.drop_last();
        let last = pending[pending.len() - 1];
        assert(front.push(last) =~= pending);
        assert(layers_not_empty(front)) by {
            assert forall|i: int| 0 <= i < front.len() implies (
            #[trigger] front[i]).selector.layers.start < front[i].selector.layers.end by {
                assert(front[i] == pending[i]);
            }
        }
        lemma_coalesced_covers(front, id, mip, layer, usage);
        lemma_cover_push(front, last, id, mip, layer, usage);
        let before = coalesced(front);
        let all = coalesced(pending);
        if before.len() > 0 && adjacent(before.last(), last) {
            let kept = before.drop_last();
            let end = before[before.len() - 1];
            assert(kept.push(end) =~= before);
            lemma_cover_push(kept, end, id, mip, layer, usage);
            lemma_cover_push(kept, joined(end, last), id, mip, layer, usage);
            assert(layers_not_empty(all)) by {
                assert forall|i: int| 0 <= i < all.len() implies (
                #[trigger] all[i]).selector.layers.start < all[i].selector.layers.end by {
                    if i < kept.len() {
                        assert(all[i] == before[i]);
                    }
                }
            }
        } else {
            lemma_cover_push(before, last, id, mip, layer, usage);
            assert(layers_not_empty(all)) by {
                assert forall|i: int| 0 <= i < all.len() implies (
                #[trigger] all[i]).selector.layers.start < all[i].selector.layers.end by {
                    if i < before.len() {
                        assert(all[i] == before[i]);
                    }
                }
            }
        }
    }
}

/// The uses of the layers of mip level `mip` of texture `id` in a tracker,
/// none where the tracker has not seen the level.
pub open spec fn layer_uses(
    states: Map<u32, Map<u32, Map<u32, ResourceUse>>>,
    id: TextureId,
    mip: u32,
) -> Map<u32, ResourceUse> {
    layers_of(texture_state_of(states, id), mip)
}

/// Each of the transitions of one texture that running `head` after `base`
/// calls for is that of one layer of one mip level which needs it.
proof fn lemma_pending_mips_merge_from(
    base: Map<u32, Map<u32, ResourceUse>>,
    head: Map<u32, Map<u32, ResourceUse>>,
    id: TextureId,
    bound: nat,
    i: int,
)
    requires
        bound <= index_limit(),
        0 <= i < pending_mips_merge(base, head, id, bound).len(),
    ensures
        ({
            let transition = pending_mips_merge(base, head, id, bound)[i];
            let mip = transition.selector.levels.start;
            let layer = transition.selector.layers.start;
            &&& mip < bound
            &&& needs_transition(layers_of(base, mip), layers_of(head, mip), layer)
            &&& transition == layer_merge_transition(
                layers_of(base, mip),
                layers_of(head, mip),
                id,
                mip,
                layer,
            )
        }),
    decreases bound,
{
    if bound > 0 {
        let mip = (bound - 1) as u32;
        let before = pending_mips_merge(base, head, id, (bound - 1) as nat);
        let layers = pending_layers_merge(
            layers_of(base, mip),
            layers_of(head, mip),
            id,
            mip,
            index_limit(),
        );
        if i < before.len() {
            lemma_pending_mips_merge_from(base, head, id, (bound - 1) as nat, i);
        } else {
            lemma_pending_layers_merge_holds(
                layers_of(base, mip),
                layers_of(head, mip),
                id,
                mip,
                index_limit(),
            );
            assert(pending_mips_merge(base, head, id, bound)[i] == layers[i - before.len()]);
        }
    }
}

/// The transitions of one texture that running `head` after `base` calls
/// for hold that of every layer of every mip level which needs one.
proof fn lemma_pending_mips_merge_has(
    base: Map<u32, Map<u32, ResourceUse>>,
    head: Map<u32, Map<u32, ResourceUse>>,
    id: TextureId,
    bound: nat,
    mip: u32,
    layer: u32,
)
    requires
        mip < bound <= index_limit(),
        needs_transition(layers_of(base, mip), layers_of(head, mip), layer),
    ensures
        pending_mips_merge(base, head, id, bound).contains(
            layer_merge_transition(layers_of(base, mip), layers_of(head, mip), id, mip, layer),
        ),
    decreases bound,
{
    let all = pending_mips_merge(base, head, id, bound);
    let wanted = layer_merge_transition(layers_of(base, mip), layers_of(head, mip), id, mip, layer);
    let last = (bound - 1) as u32;
    let before = pending_mips_merge(base, head, id, (bound - 1) as nat);
    let layers = pending_layers_merge(
        layers_of(base, last),
        layers_of(head, last),
        id,
        last,
        index_limit(),
    );
    if mip == last {
        lemma_pending_layers_merge_holds(
            layers_of(base, mip),
            layers_of(head, mip),
            id,
            mip,
            index_limit(),
        );
        let at = choose|at: int| 0 <= at < layers.len() && layers[at] == wanted;
        assert(all[before.len() + at] == wanted);
    } else {
        lemma_pending_mips_merge_has(base, head, id, (bound - 1) as nat, mip, layer);
        let at = choose|at: int| 0 <= at < before.len() && before[at] == wanted;
        assert(all[at] == wanted);
    }
}

/// Each of the transitions that running `head` after `base` calls for is
/// that of one layer of one mip level of one texture which needs it.
pub proof fn lemma_pending_texture_merge_from(
    base: Map<u32, Map<u32, Map<u32, ResourceUse>>>,
    head: Map<u32, Map<u32, Map<u32, ResourceUse>>>,
    bound: nat,
    i: int,
)
    requires
        bound <= index_limit(),
        0 <= i < pending_texture_merge(base, head, bound).len(),
    ensures
        ({
            let transition = pending_texture_merge(base, head, bound)[i];
            let id = transition.id;
            let mip = transition.selector.levels.start;
            let layer = transition.selector.layers.start;
            &&& id < bound
            &&& needs_transition(layer_uses(base, id, mip), layer_uses(head, id, mip), layer)
            &&& transition == layer_merge_transition(
                layer_uses(base, id, mip),
                layer_uses(head, id, mip),
                id,
                mip,
                layer,
            )
        }),
    decreases bound,
{
    if bound > 0 {
        let id = (bound - 1) as u32;
        let before = pending_texture_merge(base, head, (bound - 1) as nat);
        let mips = pending_mips_merge(
            texture_state_of(base, id),
            texture_state_of(head, id),
            id,
            index_limit(),
        );
        if i < before.len() {
            lemma_pending_texture_merge_from(base, head, (bound - 1) as nat, i);
        } else {
            lemma_pending_mips_merge_from(
                texture_state_of(base, id),
                texture_state_of(head, id),
                id,
                index_limit(),
                i - before.len(),
            );
            assert(pending_texture_merge(base, head, bound)[i] == mips[i - before.len()]);
        }
    }
}

/// The transitions that running `head` after `base` calls for hold that of
/// every layer of every mip level of every texture which needs one.
pub proof fn lemma_pending_texture_merge_has(
    base: Map<u32, Map<u32, Map<u32, ResourceUse>>>,
    head: Map<u32, Map<u32, Map<u32, ResourceUse>>>,
    bound: nat,
    id: TextureId,
    mip: u32,
    layer: u32,
)
    requires
        id < bound <= index_limit(),
        needs_transition(layer_uses(base, id, mip), layer_uses(head, id, mip), layer),
    ensures
        pending_texture_merge(base, head, bound).contains(
            layer_merge_transition(
                layer_uses(base, id, mip),
                layer_uses(head, id, mip),
                id,
                mip,
                layer,
            ),
        ),
    decreases bound,
{
    let all = pending_texture_merge(base, head, bound);
    let wanted = layer_merge_transition(
        layer_uses(base, id, mip),
        layer_uses(head, id, mip),
        id,
        mip,
        layer,
    );
    let last = (bound - 1) as u32;
    let before = pending_texture_merge(base, head, (bound - 1) as nat);
    let mips = pending_mips_merge(
        texture_state_of(base, last),
        texture_state_of(head, last),
        last,
        index_limit(),
    );
    if id == last {
        lemma_pending_mips_merge_has(
            texture_state_of(base, id),
            texture_state_of(head, id),
            id,
            index_limit(),
            mip,
            layer,
        );
        let at = choose|at: int| 0 <= at < mips.len() && mips[at] == wanted;
        assert(all[before.len() + at] == wanted);
    } else {
        lemma_pending_texture_merge_has(base, head, (bound - 1) as nat, id, mip, layer);
        let at = choose|at: int| 0 <= at < before.len() && before[at] == wanted;
        assert(all[at] == wanted);
    }
}

/// Among the transitions that let a command stream with the uses `head` run
/// after streams that left the uses `base`, merged where they are adjacent,
/// one changes the use of layer `layer` of mip level `mip` of texture `id`,
/// which both have used, from what `base` holds last to what `head` starts
/// with if and only if the two differ; and none changes it in another way.
pub proof fn lemma_texture_merge_covers(
    base: Map<u32, Map<u32, Map<u32, ResourceUse>>>,
    head: Map<u32, Map<u32, Map<u32, ResourceUse>>>,
    id: TextureId,
    mip: u32,
    layer: u32,
)
    requires
        textures_wf(head),
        layer_uses(base, id, mip).contains_key(layer),
        layer_uses(head, id, mip).contains_key(layer),
    ensures
        ({
            let left = layer_uses(base, id, mip)[layer].last;
            let entered = layer_uses(head, id, mip)[layer].first;
            let stitched = coalesced(pending_texture_merge(base, head, index_limit()));
            &&& transitions_cover(
                stitched,
                id,
                mip,
                layer,
                UsageRange { start: left, end: entered },
            ) <==> left != entered
            &&& forall|usage: UsageRange| #[trigger]
                transitions_cover(stitched, id, mip, layer, usage) ==> usage == (UsageRange {
                    start: left,
                    end: entered,
                })
        }),
{
    let left = layer_uses(base, id, mip)[layer].last;
    let entered = layer_uses(head, id, mip)[layer].first;
    let expected = UsageRange { start: left, end: entered };
    let pending = pending_texture_merge(base, head, index_limit());
    assert(head.contains_key(id) && head[id].contains_key(mip));
    assert(texture_state_wf(head[id]));
    assert(head[id][mip].contains_key(layer));
    assert(mip < u32::MAX && layer < u32::MAX);
    assert(layers_not_empty(pending)) by {
        assert forall|i: int| 0 <= i < pending.len() implies (
        #[trigger] pending[i]).selector.layers.start < pending[i].selector.layers.end by {
            lemma_pending_texture_merge_from(base, head, index_limit(), i);
            let other = pending[i].id;
            let level = pending[i].selector.levels.start;
            let at = pending[i].selector.layers.start;
            assert(layer_uses(head, other, level).contains_key(at));
            assert(head.contains_key(other) && head[other].contains_key(level));
            assert(texture_state_wf(head[other]));
            assert(head[other][level].contains_key(at));
        }
    }
    let wanted = layer_merge_transition(
        layer_uses(base, id, mip),
        layer_uses(head, id, mip),
        id,
        mip,
        layer,
    );
    if left != entered {
        lemma_pending_texture_merge_has(base, head, index_limit(), id, mip, layer);
        let k = choose|k: int| 0 <= k < pending.len() && pending[k] == wanted;
        assert(covers_sub_resource(pending[k], id, mip, layer, expected));
    }
    assert forall|usage: UsageRange|
        transitions_cover(pending, id, mip, layer, usage) implies usage == expected && left
        != entered by {
        let i = choose|i: int|
            0 <= i < pending.len() && covers_sub_resource(
                #[trigger] pending[i],
                id,
                mip,
                layer,
                usage,
            );
        lemma_pending_texture_merge_from(base, head, index_limit(), i);
        let other = pending[i].id;
        let level = pending[i].selector.levels.start;
        let at = pending[i].selector.layers.start;
        assert(layer_uses(head, other, level).contains_key(at));
        assert(head.contains_key(other) && head[other].contains_key(level));
        assert(texture_state_wf(head[other]));
        assert(head[other][level].contains_key(at));
        assert(level == mip && at == layer);
    }
    lemma_coalesced_covers(pending, id, mip, layer, expected);
    assert forall|usage: UsageRange| #[trigger]
        transitions_cover(coalesced(pending), id, mip, layer, usage) implies usage
        == expected by {
        lemma_coalesced_covers(pending, id, mip, layer, usage);
    }
}

/// Two command streams run one after the other on a queue, and both use
/// layer `layer` of mip level `mip` of texture `id`. Among the transitions
/// that stitch the second one to the first, merged where they are adjacent,
/// one changes the use of that sub-resource from what the first left to what
/// the second starts with if and only if the two differ.
pub proof fn lemma_texture_barrier_stitching(
    queue: Map<u32, Map<u32, Map<u32, ResourceUse>>>,
    first: Map<u32, Map<u32, Map<u32, ResourceUse>>>,
    second: Map<u32, Map<u32, Map<u32, ResourceUse>>>,
    id: TextureId,
    mip: u32,
    layer: u32,
)
    requires
        textures_wf(second),
        layer_uses(first, id, mip).contains_key(layer),
        layer_uses(second, id, mip).contains_key(layer),
    ensures
        transitions_cover(
            coalesced(
                pending_texture_merge(textures_merged(queue, first), second, index_limit()),
            ),
            id,
            mip,
            layer,
            UsageRange {
                start: layer_uses(first, id, mip)[layer].last,
                end: layer_uses(second, id, mip)[layer].first,
            },
        ) <==> layer_uses(first, id, mip)[layer].last != layer_uses(
            second,
            id,
            mip,
        )[layer].first,
{
    let base = textures_merged(queue, first);
    assert(first.contains_key(id) && first[id].contains_key(mip));
    assert(layer_uses(base, id, mip).contains_key(layer));
    assert(layer_uses(base, id, mip)[layer].last == layer_uses(first, id, mip)[layer].last);
    lemma_texture_merge_covers(base, second, id, mip, layer);
}

} // verus!
