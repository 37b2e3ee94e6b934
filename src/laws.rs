use vstd::prelude::*;
use crate::log::Log;
use crate::record::lemma_record_value_unique;
use crate::segment::Segment;

verus! {

/// Round trip: a log holds at most one payload under an offset. As `Log::append` makes the
/// log hold its payload under the returned offset and `Log::read` returns whatever the log
/// holds there, reading the offset an append returned gives back the appended payload.
pub proof fn lemma_round_trip(log: Log, offset: int, payload: Seq<u8>, found: Seq<u8>)
    requires
        log.wf(),
        log.holds(offset, payload),
        log.holds(offset, found),
    ensures
        found == payload,
{
    let i = choose|i: int| 0 <= i < log.segments@.len() && (#[trigger] log.segments@[i]).stored(offset, payload);
    let j = choose|j: int| 0 <= j < log.segments@.len() && (#[trigger] log.segments@[j]).stored(offset, found);
    if i < j {
        assert(log.segments@[i].next_offset <= log.segments@[j].base_offset);
    } else if j < i {
        assert(log.segments@[j].next_offset <= log.segments@[i].base_offset);
    }
    assert(i == j);
    lemma_record_value_unique(offset as u64, payload, found);
}

/// Rotation: a segment added at the log's next offset covers none of the offsets assigned
/// before, so every record the log held is still held by the segment that held it, and a
/// read of its offset still resolves there.
pub proof fn lemma_rotation_keeps_owner(
    before: Log,
    after: Log,
    added: Segment,
    i: int,
    offset: int,
    value: Seq<u8>,
)
    requires
        before.wf(),
        added.base_offset == before.next_offset(),
        after.segments@ == before.segments@.push(added),
        0 <= i < before.segments@.len(),
        before.segments@[i].stored(offset, value),
    ensures
        after.segments@[i].stored(offset, value),
        !added.covers(offset),
        forall|j: int| 0 <= j < after.segments@.len() && j != i ==> !(#[trigger] after.segments@[j]).covers(offset),
{
    let n = before.segments@.len();
    if i < n - 1 {
        assert(before.segments@[i].next_offset <= before.segments@[n - 1].base_offset);
        assert(before.segments@[n - 1].wf());
    }
    assert forall|j: int| 0 <= j < after.segments@.len() && j != i implies !(
    #[trigger] after.segments@[j]).covers(offset) by {
        if j < n {
            assert(after.segments@[j] == before.segments@[j]);
            if j < i {
                assert(before.segments@[j].next_offset <= before.segments@[i].base_offset);
            } else {
                assert(before.segments@[i].next_offset <= before.segments@[j].base_offset);
                assert(before.segments@[j].wf());
            }
        }
    }
}

/// Rotation then append: when the active segment holding `offset` is full, `rotation_due`
/// names `offset + 1`; after `rotate` with a segment there, the next successful `append` is
/// assigned `offset + 1` and lands in that new last segment, which is not the segment that
/// holds `offset`. The requirements are what those three calls ensure.
pub proof fn lemma_rotation_then_append(
    full: Log,
    added: Segment,
    rotated: Log,
    appended: Log,
    offset: int,
    value: Seq<u8>,
    next: int,
    next_value: Seq<u8>,
)
    requires
        full.wf(),
        full.active().stored(offset, value),
        full.next_offset() == offset + 1,
        added.base_offset == full.next_offset(),
        added.next_offset == added.base_offset,
        rotated.segments@ == full.segments@.push(added),
        appended.segments@.len() == rotated.segments@.len(),
        appended.segments@.drop_last() == rotated.segments@.drop_last(),
        appended.active().base_offset == rotated.active().base_offset,
        next == rotated.active().next_offset,
        appended.active().stored(next, next_value),
    ensures
        next == offset + 1,
        appended.active().base_offset == offset + 1,
        appended.segments@.len() == full.segments@.len() + 1,
        appended.segments@[full.segments@.len() - 1] == full.active(),
        !appended.active().covers(offset),
{
    assert(rotated.active() == added);
    assert(appended.segments@[full.segments@.len() - 1] == appended.segments@.drop_last()[full.segments@.len() - 1]);
    assert(rotated.segments@.drop_last()[full.segments@.len() - 1] == full.active());
}

/// Persistence: what a segment holds is a function of its store bytes, its index entries
/// and its offset range alone, so a segment reopened over the same files holds the same
/// records.
pub proof fn lemma_reopen_holds_same(closed: Segment, reopened: Segment)
    requires
        closed.store.data@ == reopened.store.data@,
        closed.index.entries() == reopened.index.entries(),
        closed.base_offset == reopened.base_offset,
        closed.next_offset == reopened.next_offset,
    ensures
        forall|o: int, v: Seq<u8>| closed.stored(o, v) <==> reopened.stored(o, v),
{
}

} // verus!
