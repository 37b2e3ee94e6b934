use vstd::prelude::*;
use crate::config::Config;
use crate::error::LogError;
use crate::record::Record;
use crate::segment::Segment;

verus! {

/// The whole log: segments in ascending order of base offset; the last one is active.
pub struct Log {
    pub segments: Vec<Segment>,
    pub config: Config,
}

impl Log {
    pub open spec fn wf(&self) -> bool {
        &&& self.segments@.len() > 0
        &&& forall|i: int| 0 <= i < self.segments@.len() ==> (#[trigger] self.segments@[i]).wf()
        &&& forall|i: int, j: int|
            0 <= i < j < self.segments@.len() ==> #[trigger] self.segments@[i].next_offset
                <= #[trigger] self.segments@[j].base_offset
        &&& forall|i: int, j: int|
            0 <= i < j < self.segments@.len() ==> #[trigger] self.segments@[i].base_offset
                < #[trigger] self.segments@[j].base_offset
    }

    /// The active segment.
    pub open spec fn active(&self) -> Segment {
        self.segments@.last()
    }

    /// The offset that the next append will assign.
    pub open spec fn next_offset(&self) -> u64 {
        self.active().next_offset
    }

    /// The log holds the record `(offset, value)`.
    pub open spec fn holds(&self, offset: int, value: Seq<u8>) -> bool {
        exists|i: int| 0 <= i < self.segments@.len() && (#[trigger] self.segments@[i]).stored(offset, value)
    }

    /// `offset` was assigned by some segment of the log.
    pub open spec fn assigned(&self, offset: int) -> bool {
        exists|i: int| 0 <= i < self.segments@.len() && (#[trigger] self.segments@[i]).covers(offset)
    }

    /// A log over opened segments. The byte limits of 0 in `config` are replaced by the
    /// default. Fails with `Config` when there is no segment, and with `Corrupt` when the
    /// segments are not in strictly ascending order of base offset with disjoint offset
    /// ranges.
    pub fn new(config: Config, segments: Vec<Segment>) -> (r: Result<Log, LogError>)
        requires
            forall|i: int| 0 <= i < segments@.len() ==> (#[trigger] segments@[i]).wf(),
        ensures
            segments@.len() == 0 ==> r == Err::<Log, LogError>(LogError::Config),
            segments@.len() > 0 ==> (r is Ok <==> forall|i: int|
                0 <= i < segments@.len() - 1 ==> #[trigger] segments@[i].next_offset
                    <= segments@[i + 1].base_offset && segments@[i].base_offset
                    < segments@[i + 1].base_offset),
            r is Ok ==> r->Ok_0.wf() && r->Ok_0.segments@ == segments@ && r->Ok_0.config
                == config.defaulted(),
            r is Err ==> r->Err_0 == LogError::Config || r->Err_0 == LogError::Corrupt,
    {
        let n = segments.len();
        if n == 0 {
            return Err(LogError::Config);
        }
        let mut i: usize = 1;
        while i < n
            invariant
                1 <= i <= n,
                n == segments@.len(),
                forall|k: int| 0 <= k < n ==> (#[trigger] segments@[k]).wf(),
                forall|k: int| 0 <= k < i - 1 ==> #[trigger] segments@[k].next_offset
                    <= segments@[k + 1].base_offset && segments@[k].base_offset
                    < segments@[k + 1].base_offset,
                forall|a: int, b: int|
                    0 <= a < b < i ==> #[trigger] segments@[a].next_offset
                        <= #[trigger] segments@[b].base_offset,
                forall|a: int, b: int|
                    0 <= a < b < i ==> #[trigger] segments@[a].base_offset
                        < #[trigger] segments@[b].base_offset,
            decreases n - i,
        {
            if segments[i - 1].next_offset > segments[i].base_offset || segments[i - 1].base_offset
                >= segments[i].base_offset {
                return Err(LogError::Corrupt);
            }
            proof {
                assert forall|a: int, b: int|
                    0 <= a < b < i + 1 implies #[trigger] segments@[a].base_offset
                        < #[trigger] segments@[b].base_offset by {
                    if b == i && a < i - 1 {
                        assert(segments@[a].base_offset < segments@[i - 1].base_offset);
                    }
                }
                assert forall|a: int, b: int|
                    0 <= a < b < i + 1 implies #[trigger] segments@[a].next_offset
                        <= #[trigger] segments@[b].base_offset by {
                    if b == i && a < i - 1 {
                        assert(segments@[a].next_offset <= segments@[i - 1].base_offset);
                        assert(segments@[i - 1].wf());
                    }
                }
            }
            i = i + 1;
        }
        let config = config.with_defaults();
        Ok(Log { segments, config })
    }

    /// Appends `data` to the active segment and returns the offset assigned to it: the
    /// log's next offset. Fails with `Capacity`, changing nothing, exactly when the active
    /// segment has no room for it; otherwise fails only with `Io`, assigning no offset and
    /// losing nothing held. The other segments stay as they are.
    pub fn append(&mut self, data: Vec<u8>) -> (r: Result<u64, LogError>)
        requires
            old(self).wf(),
        ensures
            final(self).wf(),
            final(self).segments@.len() == old(self).segments@.len(),
            final(self).segments@.drop_last() == old(self).segments@.drop_last(),
            final(self).active().base_offset == old(self).active().base_offset,
            final(self).config == old(self).config,
            old(self).active().append_exhausts(data@) <==> r == Err::<u64, LogError>(
                LogError::Capacity,
            ),
            r == Err::<u64, LogError>(LogError::Capacity) ==> final(self).segments@ == old(
                self,
            ).segments@,
            r is Err ==> r->Err_0 == LogError::Capacity || r->Err_0 == LogError::Io,
            r is Ok ==> r->Ok_0 == old(self).next_offset() && final(self).next_offset()
                == old(self).next_offset() + 1 && final(self).active().stored(
                r->Ok_0 as int,
                data@,
            ) && final(self).holds(r->Ok_0 as int, data@),
            r is Err ==> final(self).next_offset() == old(self).next_offset(),
            forall|o: int, v: Seq<u8>| old(self).holds(o, v) ==> final(self).holds(o, v),
    {
        let ghost prev = self.segments@;
        let mut active = self.segments.pop().unwrap();
        assert(prev[prev.len() - 1] == active);
        let ghost before = active;
        let r = active.append(Record::from_data(data));
        self.segments.push(active);
        proof {
            let last = prev.len() - 1;
            assert(self.segments@ == prev.update(last, active));
            assert(self.segments@.drop_last() =~= prev.drop_last());
            if r == Err::<u64, LogError>(LogError::Capacity) {
                assert(self.segments@ =~= prev);
            }
            assert forall|i: int, j: int|
                0 <= i < j < self.segments@.len() implies #[trigger] self.segments@[i].next_offset
                    <= #[trigger] self.segments@[j].base_offset by {
                assert(prev[i].next_offset <= prev[j].base_offset);
            }
            assert forall|i: int, j: int|
                0 <= i < j < self.segments@.len() implies #[trigger] self.segments@[i].base_offset
                    < #[trigger] self.segments@[j].base_offset by {
                assert(prev[i].base_offset < prev[j].base_offset);
            }
            assert forall|i: int| 0 <= i < self.segments@.len() implies (
            #[trigger] self.segments@[i]).wf() by {
                assert(i < last ==> self.segments@[i] == prev[i]);
            }
            assert forall|o: int, v: Seq<u8>| old(self).holds(o, v) implies self.holds(o, v) by {
                let i = choose|i: int| 0 <= i < prev.len() && (#[trigger] prev[i]).stored(o, v);
                assert(self.segments@[i].stored(o, v));
            }
            if r is Ok {
                assert(self.segments@[last].stored(r->Ok_0 as int, data@));
            }
        }
        r
    }

    /// The base offset that a new segment is to have when the active segment is full: the
    /// next offset; `None` while there is room.
    pub fn rotation_due(&self) -> (r: Option<u64>)
        requires
            self.wf(),
        ensures
            r is Some <==> (self.active().store.data@.len() >= self.active().config.max_store_bytes
                || self.active().index.size >= self.active().config.max_index_bytes),
            r is Some ==> r->Some_0 == self.next_offset(),
    {
        let last = self.segments.len() - 1;
        if self.segments[last].is_full() {
            Some(self.segments[last].next_offset)
        } else {
            None
        }
    }

    /// Makes `segment` the new active segment. Fails with `Corrupt`, changing nothing, unless
    /// it starts at the log's next offset and holds no record yet, and the active segment
    /// holds at least one record (so that no two segments share a base offset).
    pub fn rotate(&mut self, segment: Segment) -> (r: Result<(), LogError>)
        requires
            old(self).wf(),
            segment.wf(),
        ensures
            final(self).wf(),
            final(self).config == old(self).config,
            (segment.base_offset == old(self).next_offset() && segment.next_offset
                == segment.base_offset && old(self).active().base_offset < old(
                self,
            ).active().next_offset) <==> r is Ok,
            r is Ok ==> final(self).segments@ == old(self).segments@.push(segment)
                && final(self).active() == segment && final(self).next_offset() == old(
                self,
            ).next_offset(),
            r is Err ==> *final(self) == *old(self) && r->Err_0 == LogError::Corrupt,
            forall|o: int, v: Seq<u8>| old(self).holds(o, v) ==> final(self).holds(o, v),
    {
        let last = self.segments.len() - 1;
        if segment.base_offset != self.segments[last].next_offset || segment.next_offset
            != segment.base_offset || self.segments[last].base_offset
            >= self.segments[last].next_offset {
            return Err(LogError::Corrupt);
        }
        let ghost prev = self.segments@;
        self.segments.push(segment);
        proof {
            assert forall|i: int, j: int|
                0 <= i < j < self.segments@.len() implies #[trigger] self.segments@[i].next_offset
                    <= #[trigger] self.segments@[j].base_offset by {
                if j == prev.len() && i < last {
                    assert(prev[i].next_offset <= prev[last as int].base_offset);
                    assert(prev[last as int].wf());
                }
            }
            assert forall|i: int, j: int|
                0 <= i < j < self.segments@.len() implies #[trigger] self.segments@[i].base_offset
                    < #[trigger] self.segments@[j].base_offset by {
                if j == prev.len() && i < last {
                    assert(prev[i].base_offset < prev[last as int].base_offset);
                }
            }
            assert forall|i: int| 0 <= i < self.segments@.len() implies (
            #[trigger] self.segments@[i]).wf() by {
                assert(i < prev.len() ==> self.segments@[i] == prev[i]);
            }
            assert forall|o: int, v: Seq<u8>| old(self).holds(o, v) implies self.holds(o, v) by {
                let i = choose|i: int| 0 <= i < prev.len() && (#[trigger] prev[i]).stored(o, v);
                assert(self.segments@[i] == prev[i]);
            }
        }
        Ok(())
    }

    /// Reads the record at `offset` from the segment with the greatest base offset not above
    /// it. Fails with `NotFound` when no segment assigned the offset, and with `Corrupt`
    /// when what is stored there is malformed.
    pub fn read(&self, offset: u64) -> (r: Result<Record, LogError>)
        requires
            self.wf(),
        ensures
            !self.assigned(offset as int) ==> r == Err::<Record, LogError>(LogError::NotFound),
            r is Ok ==> r->Ok_0.offset == offset && self.holds(offset as int, r->Ok_0.value@),
            forall|v: Seq<u8>| self.holds(offset as int, v) ==> r is Ok && r->Ok_0.value@ == v,
            r is Err ==> r->Err_0 == LogError::NotFound || r->Err_0 == LogError::Corrupt,
    {
        let n = self.segments.len();
        if offset < self.segments[0].base_offset {
            proof {
                assert forall|i: int| 0 <= i < n implies !(#[trigger] self.segments@[i]).covers(
                    offset as int,
                ) by {
                    if i > 0 {
                        assert(self.segments@[0].next_offset <= self.segments@[i].base_offset);
                        assert(self.segments@[0].wf());
                    }
                }
            }
            return Err(LogError::NotFound);
        }
        // greatest i with base_offset <= offset
        let mut lo: usize = 0;
        let mut hi: usize = n;
        while lo + 1 < hi
            invariant
                self.wf(),
                n == self.segments@.len(),
                0 <= lo < hi <= n,
                self.segments@[lo as int].base_offset <= offset,
                hi < n ==> self.segments@[hi as int].base_offset > offset,
            decreases hi - lo,
        {
            let mid = lo + (hi - lo) / 2;
            if self.segments[mid].base_offset <= offset {
                lo = mid;
            } else {
                hi = mid;
            }
        }
        let seg = &self.segments[lo];
        proof {
            assert forall|i: int| 0 <= i < n && i != lo implies !(
            #[trigger] self.segments@[i]).covers(offset as int) by {
                assert(self.segments@[i].wf());
                assert(self.segments@[lo as int].wf());
                if i > lo {
                    if hi < n {
                        assert(i >= hi);
                        if i > hi {
                            assert(self.segments@[hi as int].next_offset
                                <= self.segments@[i].base_offset);
                            assert(self.segments@[hi as int].wf());
                        }
                    }
                } else {
                    assert(self.segments@[i].next_offset <= self.segments@[lo as int].base_offset);
                }
            }
        }
        seg.read(offset)
    }

    /// Closes every segment in ascending order, going on past a failure, and returns each
    /// segment's outcome in that order: the store bytes still to be written and the length to
    /// which the index file is to be cut, or `Io`. Every segment keeps what it holds.
    pub fn close(&mut self) -> (r: Vec<Result<(Vec<u8>, usize), LogError>>)
        requires
            old(self).wf(),
        ensures
            final(self).wf(),
            final(self).config == old(self).config,
            r@.len() == old(self).segments@.len(),
            final(self).segments@.len() == old(self).segments@.len(),
            forall|i: int|
                0 <= i < r@.len() ==> closed_as(
                    #[trigger] r@[i],
                    old(self).segments@[i],
                    final(self).segments@[i],
                ),
    {
        let ghost start = self.segments@;
        let n = self.segments.len();
        let mut rest: Vec<Segment> = Vec::new();
        while self.segments.len() > 0
            invariant
                n == start.len(),
                self.config == old(self).config,
                self.segments@ == start.subrange(0, self.segments@.len() as int),
                self.segments@.len() + rest@.len() == n,
                forall|k: int| 0 <= k < rest@.len() ==> #[trigger] rest@[k] == start[n - 1 - k],
            decreases self.segments@.len(),
        {
            let seg = self.segments.pop().unwrap();
            assert(self.segments@ =~= start.subrange(0, self.segments@.len() as int));
            rest.push(seg);
        }
        let mut done: Vec<Segment> = Vec::new();
        let mut out: Vec<Result<(Vec<u8>, usize), LogError>> = Vec::new();
        while rest.len() > 0
            invariant
                n == start.len(),
                self.config == old(self).config,
                done@.len() + rest@.len() == n,
                out@.len() == done@.len(),
                forall|i: int| 0 <= i < n ==> (#[trigger] start[i]).wf(),
                forall|k: int| 0 <= k < rest@.len() ==> #[trigger] rest@[k] == start[n - 1 - k],
                forall|j: int|
                    0 <= j < done@.len() ==> closed_as(#[trigger] out@[j], start[j], done@[j]),
            decreases rest@.len(),
        {
            let ghost j = done@.len() as int;
            let mut seg = rest.pop().unwrap();
            assert(seg == start[j]);
            let res = seg.close();
            out.push(res);
            done.push(seg);
            assert(closed_as(out@[j], start[j], done@[j]));
        }
        self.segments = done;
        proof {
            assert forall|i: int, j: int|
                0 <= i < j < self.segments@.len() implies #[trigger] self.segments@[i].next_offset
                    <= #[trigger] self.segments@[j].base_offset by {
                assert(closed_as(out@[i], start[i], done@[i]));
                assert(closed_as(out@[j], start[j], done@[j]));
                assert(start[i].next_offset <= start[j].base_offset);
                assert(start[i].base_offset < start[j].base_offset);
            }
            assert forall|i: int, j: int|
                0 <= i < j < self.segments@.len() implies #[trigger] self.segments@[i].base_offset
                    < #[trigger] self.segments@[j].base_offset by {
                assert(closed_as(out@[i], start[i], done@[i]));
                assert(closed_as(out@[j], start[j], done@[j]));
                assert(start[i].base_offset < start[j].base_offset);
            }
            assert forall|i: int| 0 <= i < self.segments@.len() implies (
            #[trigger] self.segments@[i]).wf() by {
                assert(closed_as(out@[i], start[i], done@[i]));
            }
        }
        out
    }
}

/// `after` is `before` closed, with `outcome` the result of closing it.
pub open spec fn closed_as(
    outcome: Result<(Vec<u8>, usize), LogError>,
    before: Segment,
    after: Segment,
) -> bool {
    &&& after.wf()
    &&& after.store.data@ == before.store.data@
    &&& after.index == before.index
    &&& after.base_offset == before.base_offset
    &&& after.next_offset == before.next_offset
    &&& outcome is Ok ==> outcome->Ok_0.0@ == before.store.data@.subrange(
        before.store.written as int,
        before.store.data@.len() as int,
    ) && outcome->Ok_0.1 == before.index.size
    &&& outcome is Err ==> outcome->Err_0 == LogError::Io
}

} // verus!
