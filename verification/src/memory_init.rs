//! Which bytes of a buffer have never been written, so that they are filled
//! with zeros before they are first read.

use crate::align::{align_up, lemma_align_up};
use crate::types::{BufferAddress, BufferId};
use vstd::arithmetic::div_mod::lemma_mod_decreases;
use vstd::prelude::*;

verus! {

/// The bytes of a buffer from `start` up to, not including, `end`.
#[derive(Clone, Copy, Debug, PartialEq, Eq)]
pub struct AddressRange {
    pub start: BufferAddress,
    pub end: BufferAddress,
}

/// What a command does to the bytes it touches.
#[derive(Clone, Copy, Debug, PartialEq, Eq)]
pub enum MemoryInitKind {
    /// The command writes the bytes, which are initialized from then on.
    ImplicitlyInitialized,
    /// The command reads the bytes, which must be initialized before.
    NeedsInitializedMemory,
}

/// A use of a range of a buffer by a recorded command.
#[derive(Clone, Copy, Debug, PartialEq, Eq)]
pub struct MemoryInitTrackerAction {
    pub id: BufferId,
    pub range: AddressRange,
    pub kind: MemoryInitKind,
}

/// The largest address that is a multiple of the word size.
pub const MAX_ALIGNED_ADDRESS: BufferAddress = 0xffff_ffff_ffff_fffc;

/// A range is kept if it is not empty and starts and ends on a word.
pub open spec fn range_wf(range: AddressRange) -> bool {
    &&& range.start < range.end
    &&& range.start % 4 == 0
    &&& range.end % 4 == 0
}

/// Ranges are kept sorted and disjoint, each of them well-formed.
pub open spec fn ranges_wf(ranges: Seq<AddressRange>) -> bool {
    &&& forall|i: int| 0 <= i < ranges.len() ==> range_wf(#[trigger] ranges[i])
    &&& forall|i: int, j: int|
        0 <= i < j < ranges.len() ==> (#[trigger] ranges[i]).end <= (#[trigger] ranges[j]).start
}

/// The words that a query touches: from the start of the word of its first
/// byte to the end of the word of its last byte; nothing for an empty query.
pub open spec fn query_words(query: AddressRange) -> (int, int) {
    if query.start < query.end {
        (query.start - query.start % 4, align_up(query.end as nat, 4) as int)
    } else {
        (0, 0)
    }
}

/// The part of `range` from `lo` up to `hi`.
pub open spec fn clipped(range: AddressRange, lo: int, hi: int) -> AddressRange {
    AddressRange {
        start: if range.start >= lo {
            range.start
        } else {
            lo as u64
        },
        end: if range.end <= hi {
            range.end
        } else {
            hi as u64
        },
    }
}

/// The parts of `ranges` from `lo` up to `hi`, in their order.
pub open spec fn uninitialized_in(ranges: Seq<AddressRange>, lo: int, hi: int) -> Seq<
    AddressRange,
>
    decreases ranges.len(),
{
    if ranges.len() == 0 {
        Seq::empty()
    } else {
        let before = uninitialized_in(ranges.drop_last(), lo, hi);
        let part = clipped(ranges.last(), lo, hi);
        if part.start < part.end {
            before.push(part)
        } else {
            before
        }
    }
}

/// What is left of `range` below `lo` and from `hi` on: the range itself
/// where there is nothing from `lo` up to `hi`.
pub open spec fn split_around(range: AddressRange, lo: int, hi: int) -> Seq<AddressRange> {
    if lo < hi {
        let below = if range.start < lo {
            seq![
                AddressRange {
                    start: range.start,
                    end: if range.end <= lo {
                        range.end
                    } else {
                        lo as u64
                    },
                },
            ]
        } else {
            Seq::empty()
        };
        let above = if hi < range.end {
            seq![
                AddressRange {
                    start: if range.start >= hi {
                        range.start
                    } else {
                        hi as u64
                    },
                    end: range.end,
                },
            ]
        } else {
            Seq::empty()
        };
        below + above
    } else {
        seq![range]
    }
}

/// What is left of `ranges` once the bytes from `lo` up to `hi` are taken
/// out, in their order.
pub open spec fn remaining(ranges: Seq<AddressRange>, lo: int, hi: int) -> Seq<AddressRange>
    decreases ranges.len(),
{
    if ranges.len() == 0 {
        Seq::empty()
    } else {
        remaining(ranges.drop_last(), lo, hi) + split_around(ranges.last(), lo, hi)
    }
}

/// Whether byte `address` lies in one of `ranges`.
pub open spec fn covers(ranges: Seq<AddressRange>, address: int) -> bool {
    exists|i: int| 0 <= i < ranges.len() && (#[trigger] ranges[i]).start <= address < ranges[i].end
}

/// The uninitialized byte ranges of one buffer.
#[derive(Debug, PartialEq, Eq)]
pub struct MemoryInitTracker {
    pub uninitialized_ranges: Vec<AddressRange>,
}

/// The first and the last word bound of a query, the last one held to the
/// largest aligned address.
fn word_bounds(query: AddressRange) -> (bounds: (BufferAddress, BufferAddress))
    ensures
        bounds.0 == query_words(query).0,
        bounds.1 == if query_words(query).1 > MAX_ALIGNED_ADDRESS {
            MAX_ALIGNED_ADDRESS as int
        } else {
            query_words(query).1
        },
        bounds.0 % 4 == 0,
        bounds.1 % 4 == 0,
        query_words(query).1 % 4 == 0,
        bounds.0 <= bounds.1,
{
    if query.start >= query.end {
        return (0, 0);
    }
    proof {
        lemma_align_up(query.end as nat, 4);
        lemma_mod_decreases(query.start as nat, 4);
        lemma_mod_decreases(query.end as nat, 4);
    }
    let lo: u64 = query.start - query.start % 4;
    let rest: u64 = query.end % 4;
    let hi: u64 = if rest == 0 {
        query.end
    } else if query.end > MAX_ALIGNED_ADDRESS {
        MAX_ALIGNED_ADDRESS
    } else {
        query.end - rest + 4
    };
    (lo, hi)
}

impl MemoryInitTracker {
    /// The tracker keeps its ranges sorted, disjoint and on word bounds.
    pub open spec fn wf(&self) -> bool {
        ranges_wf(self.uninitialized_ranges@)
    }

    /// The tracker of a new buffer of `size` bytes, none of them initialized.
    pub fn new(size: BufferAddress) -> (tracker: Self)
        requires
            size % 4 == 0,
        ensures
            tracker.wf(),
            tracker.uninitialized_ranges@ == if size == 0 {
                Seq::<AddressRange>::empty()
            } else {
                seq![AddressRange { start: 0, end: size }]
            },
    {
        let mut uninitialized_ranges: Vec<AddressRange> = Vec::new();
        if size > 0 {
            uninitialized_ranges.push(AddressRange { start: 0, end: size });
        }
        MemoryInitTracker { uninitialized_ranges }
    }

    /// The parts of the uninitialized ranges that lie in `query`, in their
    /// order: the bytes of `query` that are still uninitialized.
    pub fn check(&self, query: AddressRange) -> (found: Vec<AddressRange>)
        requires
            self.wf(),
        ensures
            found@ == uninitialized_in(
                self.uninitialized_ranges@,
                query.start as int,
                query.end as int,
            ),
    {
        let ghost lo = query.start as int;
        let ghost hi = query.end as int;
        let mut found: Vec<AddressRange> = Vec::new();
        let mut i: usize = 0;
        while i < self.uninitialized_ranges.len()
            invariant
                i <= self.uninitialized_ranges.len(),
                lo == query.start,
                hi == query.end,
                found@ == uninitialized_in(self.uninitialized_ranges@.take(i as int), lo, hi),
            decreases self.uninitialized_ranges.len() - i,
        {
            let range = self.uninitialized_ranges[i];
            proof {
                let upto = self.uninitialized_ranges@.take(i as int + 1);
                assert(upto.drop_last() =~= self.uninitialized_ranges@.take(i as int));
                assert(upto.last() == range);
            }
            let start: u64 = if range.start >= query.start {
                range.start
            } else {
                query.start
            };
            let end: u64 = if range.end <= query.end {
                range.end
            } else {
                query.end
            };
            if start < end {
                found.push(AddressRange { start, end });
            }
            i += 1;
        }
        assert(self.uninitialized_ranges@.take(i as int) =~= self.uninitialized_ranges@);
        found
    }

    /// The uninitialized ranges among the words that `query` touches.
    fn check_words(&self, query: AddressRange) -> (found: Vec<AddressRange>)
        requires
            self.wf(),
        ensures
            found@ == uninitialized_in(
                self.uninitialized_ranges@,
                query_words(query).0,
                query_words(query).1,
            ),
    {
        let (lo, hi) = word_bounds(query);
        let ghost glo = query_words(query).0;
        let ghost ghi = query_words(query).1;
        let mut found: Vec<AddressRange> = Vec::new();
        let mut i: usize = 0;
        while i < self.uninitialized_ranges.len()
            invariant
                i <= self.uninitialized_ranges.len(),
                self.wf(),
                lo == glo,
                hi == if ghi > MAX_ALIGNED_ADDRESS {
                    MAX_ALIGNED_ADDRESS as int
                } else {
                    ghi
                },
                found@ == uninitialized_in(self.uninitialized_ranges@.take(i as int), glo, ghi),
            decreases self.uninitialized_ranges.len() - i,
        {
            let range = self.uninitialized_ranges[i];
            proof {
                let upto = self.uninitialized_ranges@.take(i as int + 1);
                assert(upto.drop_last() =~= self.uninitialized_ranges@.take(i as int));
                assert(upto.last() == range);
                assert(range_wf(self.uninitialized_ranges@[i as int]));
            }
            let start: u64 = if range.start >= lo {
                range.start
            } else {
                lo
            };
            let end: u64 = if range.end <= hi {
                range.end
            } else {
                hi
            };
            if start < end {
                found.push(AddressRange { start, end });
            }
            i += 1;
        }
        assert(self.uninitialized_ranges@.take(i as int) =~= self.uninitialized_ranges@);
        found
    }

    /// Takes the words that `query` touches out of the uninitialized ranges,
    /// and returns what was uninitialized among them.
    pub fn drain(&mut self, query: AddressRange) -> (drained: Vec<AddressRange>)
        requires
            old(self).wf(),
        ensures
            drained@ == uninitialized_in(
                old(self).uninitialized_ranges@,
                query_words(query).0,
                query_words(query).1,
            ),
            final(self).uninitialized_ranges@ == remaining(
                old(self).uninitialized_ranges@,
                query_words(query).0,
                query_words(query).1,
            ),
            final(self).wf(),
    {
        let drained = self.check_words(query);
        let (lo, hi) = word_bounds(query);
        let ghost glo = query_words(query).0;
        let ghost ghi = query_words(query).1;
        let mut kept: Vec<AddressRange> = Vec::new();
        let mut i: usize = 0;
        while i < self.uninitialized_ranges.len()
            invariant
                i <= self.uninitialized_ranges.len(),
                self.wf(),
                lo == glo,
                hi == if ghi > MAX_ALIGNED_ADDRESS {
                    MAX_ALIGNED_ADDRESS as int
                } else {
                    ghi
                },
                lo % 4 == 0,
                hi % 4 == 0,
                lo <= hi,
                kept@ == remaining(self.uninitialized_ranges@.take(i as int), glo, ghi),
                ranges_wf(kept@),
                forall|k: int, j: int|
                    0 <= k < kept.len() && i <= j < self.uninitialized_ranges.len() ==> (
                    #[trigger] kept[k]).end <= (#[trigger] self.uninitialized_ranges[j]).start,
            decreases self.uninitialized_ranges.len() - i,
        {
            let range = self.uninitialized_ranges[i];
            proof {
                let upto = self.uninitialized_ranges@.take(i as int + 1);
                assert(upto.drop_last() =~= self.uninitialized_ranges@.take(i as int));
                assert(upto.last() == range);
                assert(range_wf(self.uninitialized_ranges@[i as int]));
            }
            let ghost before = kept@;
            if lo < hi {
                if range.start < lo {
                    let end: u64 = if range.end <= lo {
                        range.end
                    } else {
                        lo
                    };
                    kept.push(AddressRange { start: range.start, end });
                }
                if hi < range.end {
                    let start: u64 = if range.start >= hi {
                        range.start
                    } else {
                        hi
                    };
                    kept.push(AddressRange { start, end: range.end });
                }
            } else {
                kept.push(range);
            }
            proof {
                assert(kept@ =~= before + split_around(range, glo, ghi));
            }
            i += 1;
        }
        assert(self.uninitialized_ranges@.take(i as int) =~= self.uninitialized_ranges@);
        self.uninitialized_ranges = kept;
        drained
    }

    /// Marks the words that `query` touches as initialized.
    pub fn clear(&mut self, query: AddressRange)
        requires
            old(self).wf(),
        ensures
            final(self).uninitialized_ranges@ == remaining(
                old(self).uninitialized_ranges@,
                query_words(query).0,
                query_words(query).1,
            ),
            final(self).wf(),
    {
        let _ = self.drain(query);
    }
}

/// The action of kind `kind` on buffer `id` for each of `ranges`.
pub open spec fn init_actions(ranges: Seq<AddressRange>, id: BufferId, kind: MemoryInitKind) -> Seq<
    MemoryInitTrackerAction,
> {
    ranges.map_values(|range: AddressRange| MemoryInitTrackerAction { id, range, kind })
}

/// Adds the action of kind `kind` on buffer `id` for each of `ranges` to
/// `actions`.
pub fn extend_actions(
    actions: &mut Vec<MemoryInitTrackerAction>,
    ranges: &Vec<AddressRange>,
    id: BufferId,
    kind: MemoryInitKind,
)
    ensures
        final(actions)@ == old(actions)@ + init_actions(ranges@, id, kind),
{
    let mut i: usize = 0;
    assert(actions@ =~= old(actions)@ + init_actions(ranges@.take(0), id, kind));
    while i < ranges.len()
        invariant
            i <= ranges.len(),
            actions@ == old(actions)@ + init_actions(ranges@.take(i as int), id, kind),
        decreases ranges.len() - i,
    {
        actions.push(MemoryInitTrackerAction { id, range: ranges[i], kind });
        i += 1;
        assert(actions@ =~= old(actions)@ + init_actions(ranges@.take(i as int), id, kind));
    }
    assert(ranges@.take(i as int) =~= ranges@);
}

/// A byte lies in one of some ranges with one more at their end if it lies
/// in one of the ranges or in the one more.
pub proof fn lemma_covers_push(ranges: Seq<AddressRange>, range: AddressRange, address: int)
    ensures
        covers(ranges.push(range), address) <==> covers(ranges, address) || range.start
            <= address < range.end,
{
    let all = ranges.push(range);
    if covers(all, address) {
        let i = choose|i: int|
            0 <= i < all.len() && (#[trigger] all[i]).start <= address < all[i].end;
        if i < ranges.len() {
            assert(ranges[i] == all[i]);
        }
    }
    if covers(ranges, address) {
        let i = choose|i: int|
            0 <= i < ranges.len() && (#[trigger] ranges[i]).start <= address < ranges[i].end;
        assert(all[i] == ranges[i]);
    }
    if range.start <= address < range.end {
        assert(all[all.len() - 1] == range);
    }
}

/// A byte lies in one of two lists of ranges put together if it lies in one
/// of the first or in one of the second.
pub proof fn lemma_covers_concat(first: Seq<AddressRange>, second: Seq<AddressRange>, address: int)
    ensures
        covers(first + second, address) <==> covers(first, address) || covers(second, address),
    decreases second.len(),
{
    if second.len() == 0 {
        assert(first + second =~= first);
    } else {
        let front = second.drop_last();
        assert(first + second =~= (first + front).push(second.last()));
        assert(front.push(second.last()) =~= second);
        lemma_covers_concat(first, front, address);
        lemma_covers_push(first + front, second.last(), address);
        lemma_covers_push(front, second.last(), address);
    }
}

/// The parts of some ranges from `lo` up to `hi` hold the bytes of the
/// ranges that lie from `lo` up to `hi`, and no other: what a check yields
/// is what is uninitialized among the bytes asked for.
pub proof fn lemma_uninitialized_in_covers(
    ranges: Seq<AddressRange>,
    lo: int,
    hi: int,
    address: int,
)
    requires
        0 <= lo <= u64::MAX,
        0 <= hi,
    ensures
        covers(uninitialized_in(ranges, lo, hi), address) <==> covers(ranges, address) && lo
            <= address < hi,
    decreases ranges.len(),
{
    if ranges.len() > 0 {
        let front = ranges.drop_last();
        let last = ranges.last();
        assert(front.push(last) =~= ranges);
        lemma_uninitialized_in_covers(front, lo, hi, address);
        lemma_covers_push(front, last, address);
        let part = clipped(last, lo, hi);
        if part.start < part.end {
            lemma_covers_push(uninitialized_in(front, lo, hi), part, address);
        }
    }
}

/// What is left of some ranges once the bytes from `lo` up to `hi` are taken
/// out holds the bytes of the ranges that lie outside of them, and no other:
/// clearing removes exactly the bytes asked for from the uninitialized ones.
pub proof fn lemma_remaining_covers(ranges: Seq<AddressRange>, lo: int, hi: int, address: int)
    requires
        0 <= lo <= u64::MAX,
        0 <= hi,
    ensures
        covers(remaining(ranges, lo, hi), address) <==> covers(ranges, address) && !(lo
            <= address < hi),
    decreases ranges.len(),
{
    if ranges.len() > 0 {
        let front = ranges.drop_last();
        let last = ranges.last();
        assert(front.push(last) =~= ranges);
        lemma_remaining_covers(front, lo, hi, address);
        lemma_covers_push(front, last, address);
        let parts = split_around(last, lo, hi);
        lemma_covers_concat(remaining(front, lo, hi), parts, address);
        // What the parts of the last range hold.
        if lo < hi {
            let inside = last.start <= address < last.end && !(lo <= address < hi);
            if covers(parts, address) {
                let i = choose|i: int|
                    0 <= i < parts.len() && (#[trigger] parts[i]).start <= address
                        < parts[i].end;
                assert(inside);
            }
            if inside {
                if address < lo {
                    assert(parts[0].start <= address < parts[0].end);
                } else {
                    assert(parts[parts.len() - 1].start <= address < parts[parts.len() - 1].end);
                }
            }
        } else {
            assert(parts[0] == last);
            if covers(parts, address) {
                let i = choose|i: int|
                    0 <= i < parts.len() && (#[trigger] parts[i]).start <= address
                        < parts[i].end;
            }
        }
    }
}

/// What one query drains and what a later query drains have no byte in
/// common: the ranges that a submission gathers for a buffer do not overlap.
pub proof fn lemma_drains_disjoint(
    ranges: Seq<AddressRange>,
    first: AddressRange,
    second: AddressRange,
    address: int,
)
    ensures
        ({
            let first_words = query_words(first);
            let second_words = query_words(second);
            let left = remaining(ranges, first_words.0, first_words.1);
            !(covers(uninitialized_in(ranges, first_words.0, first_words.1), address) && covers(
                uninitialized_in(left, second_words.0, second_words.1),
                address,
            ))
        }),
{
    let first_words = query_words(first);
    let second_words = query_words(second);
    let left = remaining(ranges, first_words.0, first_words.1);
    if first.start < first.end {
        lemma_align_up(first.end as nat, 4);
        lemma_mod_decreases(first.start as nat, 4);
    }
    if second.start < second.end {
        lemma_align_up(second.end as nat, 4);
        lemma_mod_decreases(second.start as nat, 4);
    }
    lemma_uninitialized_in_covers(ranges, first_words.0, first_words.1, address);
    lemma_uninitialized_in_covers(left, second_words.0, second_words.1, address);
    lemma_remaining_covers(ranges, first_words.0, first_words.1, address);
}

/// Whether every one of `ranges` is not empty and lies below `lo` or from
/// `hi` on.
pub open spec fn ranges_outside(ranges: Seq<AddressRange>, lo: int, hi: int) -> bool {
    forall|i: int|
        0 <= i < ranges.len() ==> (#[trigger] ranges[i]).start < ranges[i].end && (ranges[i].end
            <= lo || ranges[i].start >= hi)
}

/// What is left once the bytes from `lo` up to `hi` are taken out of ranges
/// that are not empty lies outside of these bytes.
pub proof fn lemma_remaining_is_outside(ranges: Seq<AddressRange>, lo: int, hi: int)
    requires
        forall|i: int| 0 <= i < ranges.len() ==> (#[trigger] ranges[i]).start < ranges[i].end,
        0 <= lo < hi,
    ensures
        ranges_outside(remaining(ranges, lo, hi), lo, hi),
    decreases ranges.len(),
{
    if ranges.len() > 0 {
        lemma_remaining_is_outside(ranges.drop_last(), lo, hi);
        let before = remaining(ranges.drop_last(), lo, hi);
        let parts = split_around(ranges.last(), lo, hi);
        let all = remaining(ranges, lo, hi);
        assert(ranges[ranges.len() - 1].start < ranges[ranges.len() - 1].end);
        assert forall|i: int| 0 <= i < all.len() implies (#[trigger] all[i]).start < all[i].end
            && (all[i].end <= lo || all[i].start >= hi) by {
            if i < before.len() {
                assert(all[i] == before[i]);
            } else {
                assert(all[i] == parts[i - before.len()]);
            }
        }
    }
}

/// Taking the bytes from `lo` up to `hi` out of ranges that lie outside of
/// them changes nothing, and none of these bytes is found in them.
pub proof fn lemma_remaining_outside(ranges: Seq<AddressRange>, lo: int, hi: int)
    requires
        ranges_outside(ranges, lo, hi),
        0 <= lo <= u64::MAX,
        0 <= hi,
    ensures
        remaining(ranges, lo, hi) == ranges,
        uninitialized_in(ranges, lo, hi) == Seq::<AddressRange>::empty(),
    decreases ranges.len(),
{
    if ranges.len() > 0 {
        let front = ranges.drop_last();
        assert(ranges_outside(front, lo, hi)) by {
            assert forall|i: int| 0 <= i < front.len() implies (#[trigger] front[i]).start
                < front[i].end && (front[i].end <= lo || front[i].start >= hi) by {
                assert(front[i] == ranges[i]);
            }
        }
        lemma_remaining_outside(front, lo, hi);
        let last = ranges[ranges.len() - 1];
        assert(last.start < last.end && (last.end <= lo || last.start >= hi));
        assert(split_around(last, lo, hi) =~= seq![last]);
        assert(remaining(ranges, lo, hi) =~= ranges);
    } else {
        assert(remaining(ranges, lo, hi) =~= ranges);
    }
}

/// Taking the words of a query out of the uninitialized ranges a second time
/// changes nothing, and finds nothing to fill: once the memory that a command
/// needs is initialized, asking for it again is free.
pub proof fn lemma_drain_idempotent(ranges: Seq<AddressRange>, query: AddressRange)
    requires
        ranges_wf(ranges),
    ensures
        ({
            let words = query_words(query);
            let once = remaining(ranges, words.0, words.1);
            &&& remaining(once, words.0, words.1) == once
            &&& uninitialized_in(once, words.0, words.1) == Seq::<AddressRange>::empty()
        }),
{
    let words = query_words(query);
    let once = remaining(ranges, words.0, words.1);
    if query.start < query.end {
        lemma_align_up(query.end as nat, 4);
        lemma_mod_decreases(query.start as nat, 4);
        assert forall|i: int| 0 <= i < ranges.len() implies (#[trigger] ranges[i]).start
            < ranges[i].end by {
            assert(range_wf(ranges[i]));
        }
        lemma_remaining_is_outside(ranges, words.0, words.1);
        lemma_remaining_outside(once, words.0, words.1);
    } else {
        lemma_remaining_empty_query(ranges);
        lemma_remaining_outside(ranges, 0, 0);
    }
}

/// An empty query takes nothing out of the uninitialized ranges.
proof fn lemma_remaining_empty_query(ranges: Seq<AddressRange>)
    requires
        ranges_wf(ranges),
    ensures
        remaining(ranges, 0, 0) == ranges,
        ranges_outside(ranges, 0, 0),
    decreases ranges.len(),
{
    if ranges.len() > 0 {
        assert(ranges_wf(ranges.drop_last()));
        lemma_remaining_empty_query(ranges.drop_last());
        assert(remaining(ranges, 0, 0) =~= ranges);
    } else {
        assert(remaining(ranges, 0, 0) =~= ranges);
    }
    assert forall|i: int| 0 <= i < ranges.len() implies (#[trigger] ranges[i]).start
        < ranges[i].end && (ranges[i].end <= 0 || ranges[i].start >= 0) by {
        assert(range_wf(ranges[i]));
    }
}

/// Whether none of `ranges` holds a byte from `lo` up to `hi`: each of them
/// ends by `lo` or starts from `hi` on.
pub open spec fn clear_of(ranges: Seq<AddressRange>, lo: int, hi: int) -> bool {
    forall|i: int|
        0 <= i < ranges.len() ==> (#[trigger] ranges[i]).end <= lo || ranges[i].start >= hi
}

/// Once the bytes from `lo` up to `hi` are taken out of some ranges, none of
/// what is left holds one of them.
pub proof fn lemma_remaining_is_clear(ranges: Seq<AddressRange>, lo: int, hi: int)
    requires
        0 <= lo,
        0 <= hi,
        lo < hi || hi == 0,
    ensures
        clear_of(remaining(ranges, lo, hi), lo, hi),
    decreases ranges.len(),
{
    if ranges.len() > 0 {
        lemma_remaining_is_clear(ranges.drop_last(), lo, hi);
        let before = remaining(ranges.drop_last(), lo, hi);
        let parts = split_around(ranges.last(), lo, hi);
        let all = remaining(ranges, lo, hi);
        assert forall|i: int| 0 <= i < all.len() implies (#[trigger] all[i]).end <= lo
            || all[i].start >= hi by {
            if i < before.len() {
                assert(all[i] == before[i]);
            } else {
                assert(all[i] == parts[i - before.len()]);
            }
        }
    }
}

/// Taking bytes out of ranges that hold no byte from `lo` up to `hi` leaves
/// ranges that hold none of them either.
pub proof fn lemma_remaining_stays_clear(
    ranges: Seq<AddressRange>,
    from: int,
    to: int,
    lo: int,
    hi: int,
)
    requires
        clear_of(ranges, lo, hi),
        0 <= from,
        0 <= to,
    ensures
        clear_of(remaining(ranges, from, to), lo, hi),
    decreases ranges.len(),
{
    if ranges.len() > 0 {
        let front = ranges.drop_last();
        assert(clear_of(front, lo, hi)) by {
            assert forall|i: int| 0 <= i < front.len() implies (#[trigger] front[i]).end <= lo
                || front[i].start >= hi by {
                assert(front[i] == ranges[i]);
            }
        }
        lemma_remaining_stays_clear(front, from, to, lo, hi);
        let before = remaining(front, from, to);
        let last = ranges[ranges.len() - 1];
        let parts = split_around(last, from, to);
        let all = remaining(ranges, from, to);
        assert(last.end <= lo || last.start >= hi);
        assert forall|i: int| 0 <= i < all.len() implies (#[trigger] all[i]).end <= lo
            || all[i].start >= hi by {
            if i < before.len() {
                assert(all[i] == before[i]);
            } else {
                assert(all[i] == parts[i - before.len()]);
            }
        }
    }
}

/// The parts of ranges that hold no byte from `lo` up to `hi` hold none of
/// them either.
pub proof fn lemma_uninitialized_in_stays_clear(
    ranges: Seq<AddressRange>,
    from: int,
    to: int,
    lo: int,
    hi: int,
)
    requires
        clear_of(ranges, lo, hi),
        0 <= from <= u64::MAX,
        0 <= to,
    ensures
        clear_of(uninitialized_in(ranges, from, to), lo, hi),
    decreases ranges.len(),
{
    if ranges.len() > 0 {
        let front = ranges.drop_last();
        assert(clear_of(front, lo, hi)) by {
            assert forall|i: int| 0 <= i < front.len() implies (#[trigger] front[i]).end <= lo
                || front[i].start >= hi by {
                assert(front[i] == ranges[i]);
            }
        }
        lemma_uninitialized_in_stays_clear(front, from, to, lo, hi);
        let before = uninitialized_in(front, from, to);
        let last = ranges[ranges.len() - 1];
        let all = uninitialized_in(ranges, from, to);
        assert(last.end <= lo || last.start >= hi);
        assert(ranges.last() == last);
        assert forall|i: int| 0 <= i < all.len() implies (#[trigger] all[i]).end <= lo
            || all[i].start >= hi by {
            if i < before.len() {
                assert(all[i] == before[i]);
            } else {
                assert(all[i] == clipped(last, from, to));
            }
        }
    }
}

} // verus!
