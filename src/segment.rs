use vstd::prelude::*;
use crate::config::Config;
use crate::error::LogError;
use crate::index::Index;
use crate::record::{record_bytes, Record};
use crate::store::{frame, frame_fits, frame_payload, lemma_store_append_keeps,
    lemma_store_round_trip, Store};

verus! {

/// One Store and one Index sharing a base offset: the records with offsets from
/// `base_offset` up to, not including, `next_offset`.
pub struct Segment {
    pub store: Store,
    pub index: Index,
    pub config: Config,
    pub base_offset: u64,
    pub next_offset: u64,
}

impl Segment {
    pub open spec fn wf(&self) -> bool {
        &&& self.store.wf()
        &&& self.index.wf()
        &&& self.base_offset <= self.next_offset
        &&& self.index.count() == self.next_offset - self.base_offset
        &&& forall|i: int| 0 <= i < self.index.count() ==> #[trigger] self.index.entries()[i].0 == i
    }

    /// Appending a record with payload `value` fails for want of room: the offsets, the
    /// relative offsets, the store or the index would run out.
    pub open spec fn append_exhausts(&self, value: Seq<u8>) -> bool {
        ||| self.next_offset == u64::MAX
        ||| self.next_offset - self.base_offset > 0xffff_ffff
        ||| self.store.data@.len() + 8 + record_bytes(self.next_offset, value).len() > usize::MAX
        ||| self.index.size + 12 > self.index.bytes().len()
    }

    /// `offset` was assigned in this segment.
    pub open spec fn covers(&self, offset: int) -> bool {
        self.base_offset <= offset < self.next_offset
    }

    /// The store position that the index gives for `offset`.
    pub open spec fn position_of(&self, offset: int) -> int {
        self.index.entries()[offset - self.base_offset].1 as int
    }

    /// The segment holds, at `offset`, a well-formed frame whose payload is the wire form of
    /// the record `(offset, value)`.
    pub open spec fn stored(&self, offset: int, value: Seq<u8>) -> bool {
        &&& self.covers(offset)
        &&& 0 <= offset <= u64::MAX
        &&& self.position_of(offset) <= self.store.data@.len()
        &&& frame_fits(self.store.data@, self.position_of(offset))
        &&& frame_payload(self.store.data@, self.position_of(offset)) == record_bytes(
            offset as u64,
            value,
        )
    }

    /// A segment over an opened store and index. The next offset is recovered from the index:
    /// one past the last entry, or `base_offset` when the index is empty. Fails with `Corrupt`
    /// when an entry's relative offset is not its position or the offsets overflow.
    pub fn new(store: Store, index: Index, config: Config, base_offset: u64) -> (r: Result<
        Segment,
        LogError,
    >)
        requires
            store.wf(),
            index.wf(),
        ensures
            r is Ok <==> ((forall|i: int| 0 <= i < index.count() ==> #[trigger] index.entries()[i].0 == i)
                && base_offset + index.count() <= u64::MAX),
            index.count() == 0 ==> r is Ok && r->Ok_0.next_offset == base_offset,
            r is Ok ==> r->Ok_0.wf() && r->Ok_0.store == store && r->Ok_0.index == index
                && r->Ok_0.config == config && r->Ok_0.base_offset == base_offset
                && r->Ok_0.next_offset == base_offset + index.count(),
            r is Err ==> r->Err_0 == LogError::Corrupt,
    {
        let count = index.size() / 12;
        if base_offset > u64::MAX - count as u64 {
            return Err(LogError::Corrupt);
        }
        let mut i: usize = 0;
        while i < count
            invariant
                index.wf(),
                count == index.count(),
                i <= count,
                forall|k: int| 0 <= k < i ==> #[trigger] index.entries()[k].0 == k,
            decreases count - i,
        {
            let (rel, _) = match index.read(i as i64) {
                Ok(e) => e,
                Err(_) => {
                    return Err(LogError::Corrupt);
                },
            };
            if rel as usize != i {
                return Err(LogError::Corrupt);
            }
            i = i + 1;
        }
        let next_offset = base_offset + count as u64;
        Ok(Segment { store, index, config, base_offset, next_offset })
    }

    /// Appends `record` under the next offset, which it returns, and indexes it there with
    /// its relative offset and the position of its frame. Fails with `Capacity`, changing
    /// nothing, exactly when `append_exhausts`; otherwise fails only with `Io`, when the index
    /// cannot be flushed, and then assigns no offset.
    pub fn append(&mut self, record: Record) -> (r: Result<u64, LogError>)
        requires
            old(self).wf(),
        ensures
            final(self).wf(),
            final(self).base_offset == old(self).base_offset,
            final(self).config == old(self).config,
            old(self).append_exhausts(record.value@) <==> r == Err::<u64, LogError>(
                LogError::Capacity,
            ),
            r == Err::<u64, LogError>(LogError::Capacity) ==> *final(self) == *old(self),
            r is Err ==> r->Err_0 == LogError::Capacity || r->Err_0 == LogError::Io,
            r is Err ==> final(self).next_offset == old(self).next_offset,
            r is Ok ==> r->Ok_0 == old(self).next_offset && final(self).next_offset == old(
                self,
            ).next_offset + 1 && final(self).stored(r->Ok_0 as int, record.value@),
            r is Ok ==> final(self).index.entries() == old(self).index.entries().push(
                (
                    (old(self).next_offset - old(self).base_offset) as u32,
                    old(self).store.data@.len() as u64,
                ),
            ),
            forall|o: int, v: Seq<u8>| old(self).stored(o, v) ==> final(self).stored(o, v),
    {
        let current = self.next_offset;
        if current == u64::MAX || current - self.base_offset > 0xffff_ffffu64 {
            return Err(LogError::Capacity);
        }
        let cap = self.index.capacity();
        if cap < 12 || self.index.size() > cap - 12 {
            return Err(LogError::Capacity);
        }
        let mut record = record;
        record.set_offset(current);
        let bytes = record.encode();
        let ghost store_before = self.store.data@;
        let ghost entries_before = self.index.entries();
        let position = match self.store.append(bytes) {
            Ok(p) => p,
            Err(e) => {
                return Err(e);
            },
        };
        proof {
            assert forall|o: int, v: Seq<u8>| old(self).stored(o, v) implies self.stored(o, v) by {
                lemma_store_append_keeps(store_before, record_bytes(current, record.value@),
                    old(self).position_of(o));
            }
        }
        let rel = (current - self.base_offset) as u32;
        match self.index.write(rel, position) {
            Ok(()) => {},
            Err(e) => {
                return Err(e);
            },
        }
        self.next_offset = current + 1;
        proof {
            lemma_store_round_trip(store_before, record_bytes(current, record.value@));
            assert(self.index.entries()[current - self.base_offset] == (rel, position));
            assert forall|o: int, v: Seq<u8>| old(self).stored(o, v) implies self.stored(o, v) by {
                lemma_store_append_keeps(store_before, record_bytes(current, record.value@),
                    old(self).position_of(o));
                assert(self.index.entries()[o - self.base_offset] == entries_before[o
                    - self.base_offset]);
            }
            assert forall|i: int| 0 <= i < self.index.count() implies #[trigger] self.index.entries()[i].0 == i by {
                if i < entries_before.len() {
                    assert(self.index.entries()[i] == entries_before[i]);
                }
            }
        }
        Ok(current)
    }

    /// Reads the record at `offset`. Fails with `NotFound` when the offset was not assigned
    /// here or its position lies beyond the store, and with `Corrupt` when the frame or the
    /// record in it is malformed or carries another offset.
    pub fn read(&self, offset: u64) -> (r: Result<Record, LogError>)
        requires
            self.wf(),
        ensures
            !self.covers(offset as int) ==> r == Err::<Record, LogError>(LogError::NotFound),
            r is Ok ==> r->Ok_0.offset == offset && self.stored(offset as int, r->Ok_0.value@),
            forall|v: Seq<u8>| self.stored(offset as int, v) ==> r is Ok && r->Ok_0.value@ == v,
            self.covers(offset as int) && self.position_of(offset as int)
                > self.store.data@.len() ==> r == Err::<Record, LogError>(LogError::NotFound),
            self.covers(offset as int) && self.position_of(offset as int)
                <= self.store.data@.len() && r is Err ==> r->Err_0 == LogError::Corrupt,
            r is Err ==> r->Err_0 == LogError::NotFound || r->Err_0 == LogError::Corrupt,
    {
        if offset < self.base_offset || offset >= self.next_offset {
            return Err(LogError::NotFound);
        }
        let rel = offset - self.base_offset;
        let (_, position) = match self.index.read(rel as i64) {
            Ok(e) => e,
            Err(e) => {
                return Err(e);
            },
        };
        let raw = match self.store.read(position) {
            Ok(b) => b,
            Err(e) => {
                return Err(e);
            },
        };
        let record = match Record::decode(&raw) {
            Ok(rec) => rec,
            Err(e) => {
                return Err(e);
            },
        };
        if record.offset != offset {
            return Err(LogError::Corrupt);
        }
        Ok(record)
    }

    /// Rotation is due: the store or the index has reached its limit.
    pub fn is_full(&self) -> (r: bool)
        ensures
            r == (self.store.data@.len() >= self.config.max_store_bytes || self.index.size
                >= self.config.max_index_bytes),
    {
        self.store.data.len() >= self.config.max_store_bytes || self.index.size()
            >= self.config.max_index_bytes
    }

    /// Closes the store, then the index: returns the store bytes still to be written and the
    /// length to which the index file is to be cut. Fails with `Io` when the index cannot be
    /// flushed.
    pub fn close(&mut self) -> (r: Result<(Vec<u8>, usize), LogError>)
        requires
            old(self).wf(),
        ensures
            final(self).wf(),
            final(self).store.data@ == old(self).store.data@,
            final(self).index == old(self).index,
            final(self).next_offset == old(self).next_offset,
            final(self).base_offset == old(self).base_offset,
            r is Ok ==> r->Ok_0.0@ == old(self).store.data@.subrange(
                old(self).store.written as int,
                old(self).store.data@.len() as int,
            ) && r->Ok_0.1 == old(self).index.size,
            r is Err ==> r->Err_0 == LogError::Io,
    {
        let pending = self.store.close();
        match self.index.close() {
            Ok(n) => Ok((pending, n)),
            Err(e) => Err(e),
        }
    }
}

} // verus!
