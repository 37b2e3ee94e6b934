use vstd::prelude::*;
use memmap2::MmapMut;
use crate::be::{be32, be32_at, be64, be64_at, lemma_be32_round_trip, lemma_be64_round_trip,
    push_be32, push_be64, read_be32, read_be64};
use crate::error::LogError;

verus! {

/// Width of one index entry: a 4-byte relative offset and an 8-byte store position.
pub const ENTRY_WIDTH: usize = 12;

#[verifier::external_type_specification]
#[verifier::external_body]
pub struct ExMmapMut(memmap2::MmapMut);

/// The bytes a writable memory map currently holds.
pub uninterp spec fn mapped_bytes(m: memmap2::MmapMut) -> Seq<u8>;

/// Relies on `<MmapMut as Deref>::deref` and `[u8]::len`: the length of the mapped region.
#[verifier::external_body]
fn map_len(m: &MmapMut) -> (r: usize)
    ensures
        r == mapped_bytes(*m).len(),
{
    m.len()
}

/// Relies on `<MmapMut as DerefMut>::deref_mut` and `[u8]::copy_from_slice`: overwrites the
/// mapped bytes from `at` on with `bytes`, and nothing else.
#[verifier::external_body]
fn map_put(m: &mut MmapMut, at: usize, bytes: &Vec<u8>)
    requires
        at + bytes@.len() <= mapped_bytes(*old(m)).len(),
    ensures
        mapped_bytes(*final(m)) == mapped_bytes(*old(m)).subrange(0, at as int) + bytes@
            + mapped_bytes(*old(m)).subrange(
            at + bytes@.len(),
            mapped_bytes(*old(m)).len() as int,
        ),
{
    m[at..][..bytes.len()].copy_from_slice(bytes)
}

/// Relies on `<MmapMut as Deref>::deref` and `[u8]::to_vec`: copies `n` mapped bytes from `at`.
#[verifier::external_body]
fn map_get(m: &MmapMut, at: usize, n: usize) -> (r: Vec<u8>)
    requires
        at + n <= mapped_bytes(*m).len(),
    ensures
        r@ == mapped_bytes(*m).subrange(at as int, at + n),
{
    m[at..][..n].to_vec()
}

/// Relies on memmap2::MmapMut::flush: writes outstanding changes through to the file;
/// `false` when the system call failed.
#[verifier::external_body]
fn map_flush(m: &MmapMut) -> (r: bool)
{
    m.flush().is_ok()
}

/// The entry stored at byte `at`: its relative offset and its store position.
pub open spec fn entry_at(s: Seq<u8>, at: int) -> (u32, u64) {
    (be32_at(s, at), be64_at(s, at + 4))
}

/// A fixed-capacity sequence of 12-byte entries over a memory-mapped region. `size` is the
/// number of bytes in use; the capacity is the length of the region.
pub struct Index {
    pub mem_map: MmapMut,
    pub size: usize,
}

impl Index {
    pub open spec fn bytes(&self) -> Seq<u8> {
        mapped_bytes(self.mem_map)
    }

    pub open spec fn wf(&self) -> bool {
        self.size % 12 == 0 && self.size <= self.bytes().len()
    }

    /// Number of entries written.
    pub open spec fn count(&self) -> int {
        self.size as int / 12
    }

    /// The entries written so far, in order.
    pub open spec fn entries(&self) -> Seq<(u32, u64)> {
        Seq::new(self.count() as nat, |i: int| entry_at(self.bytes(), 12 * i))
    }

    /// An index over `mem_map`, of which the first `size` bytes are in use. Fails with
    /// `Corrupt` when `size` is not a whole number of entries or exceeds the region.
    pub fn new(mem_map: MmapMut, size: usize) -> (r: Result<Index, LogError>)
        ensures
            (size % 12 == 0 && size <= mapped_bytes(mem_map).len()) <==> r is Ok,
            r is Ok ==> r->Ok_0.wf() && r->Ok_0.size == size && r->Ok_0.mem_map == mem_map,
            r is Err ==> r->Err_0 == LogError::Corrupt,
    {
        if size % ENTRY_WIDTH != 0 || size > map_len(&mem_map) {
            return Err(LogError::Corrupt);
        }
        Ok(Index { mem_map, size })
    }

    pub fn capacity(&self) -> (r: usize)
        ensures
            r == self.bytes().len(),
    {
        map_len(&self.mem_map)
    }

    /// Bytes in use.
    pub fn size(&self) -> (r: usize)
        ensures
            r == self.size,
    {
        self.size
    }

    /// Writes the entry `(offset, position)` after the last one. Fails with `Capacity` when
    /// it would not fit, and with `Io` when the mapping cannot be flushed; on failure no new
    /// entry is visible.
    pub fn write(&mut self, offset: u32, position: u64) -> (r: Result<(), LogError>)
        requires
            old(self).wf(),
        ensures
            final(self).wf(),
            old(self).size + 12 > old(self).bytes().len() <==> r == Err::<(), LogError>(
                LogError::Capacity,
            ),
            r is Ok ==> final(self).entries() == old(self).entries().push((offset, position))
                && final(self).size == old(self).size + 12,
            r is Ok ==> final(self).bytes() == old(self).bytes().subrange(0, old(self).size as int)
                + be32(offset) + be64(position) + old(self).bytes().subrange(
                old(self).size + 12,
                old(self).bytes().len() as int,
            ),
            r == Err::<(), LogError>(LogError::Capacity) ==> *final(self) == *old(self),
            r is Err ==> final(self).entries() == old(self).entries() && final(self).size == old(
                self,
            ).size && (r->Err_0 == LogError::Capacity || r->Err_0 == LogError::Io),
            final(self).bytes().len() == old(self).bytes().len(),
    {
        let cap = map_len(&self.mem_map);
        if cap < ENTRY_WIDTH || self.size > cap - ENTRY_WIDTH {
            return Err(LogError::Capacity);
        }
        let mut entry: Vec<u8> = Vec::new();
        push_be32(&mut entry, offset);
        push_be64(&mut entry, position);
        let ghost before = self.bytes();
        map_put(&mut self.mem_map, self.size, &entry);
        let ghost after = self.bytes();
        proof {
            let at = self.size as int;
            assert(after.len() == before.len());
            assert forall|i: int| 0 <= i < at implies after[i] == before[i] by {}
            assert(after.subrange(at, at + 4) == be32(offset));
            assert(after.subrange(at + 4, at + 12) == be64(position));
            lemma_be32_round_trip(offset, after, at);
            lemma_be64_round_trip(position, after, at + 4);
            assert(entry@ == be32(offset) + be64(position));
            assert(after =~= before.subrange(0, at) + be32(offset) + be64(position)
                + before.subrange(at + 12, before.len() as int));
        }
        if !map_flush(&self.mem_map) {
            proof {
                let old_entries = Seq::new(
                    (self.size as int / 12) as nat,
                    |i: int| entry_at(before, 12 * i),
                );
                assert(self.entries() =~= old_entries);
            }
            return Err(LogError::Io);
        }
        self.size = self.size + ENTRY_WIDTH;
        proof {
            assert(self.count() == old(self).count() + 1);
            assert(self.entries() =~= old(self).entries().push((offset, position)));
        }
        Ok(())
    }

    /// Reads entry number `entry`; a negative number stands for the last entry. Fails with
    /// `NotFound` when there is no such entry.
    pub fn read(&self, entry: i64) -> (r: Result<(u32, u64), LogError>)
        requires
            self.wf(),
        ensures
            0 <= entry < self.count() ==> r == Ok::<(u32, u64), LogError>(
                self.entries()[entry as int],
            ),
            entry < 0 && self.count() > 0 ==> r == Ok::<(u32, u64), LogError>(
                self.entries()[self.count() - 1],
            ),
            (entry >= self.count() || (entry < 0 && self.count() == 0)) ==> r == Err::<
                (u32, u64),
                LogError,
            >(LogError::NotFound),
    {
        let count = self.size / ENTRY_WIDTH;
        if count == 0 {
            return Err(LogError::NotFound);
        }
        let i: usize = if entry >= 0 {
            if entry as u64 >= count as u64 {
                return Err(LogError::NotFound);
            }
            entry as usize
        } else {
            count - 1
        };
        let at = i * ENTRY_WIDTH;
        let raw = map_get(&self.mem_map, at, ENTRY_WIDTH);
        let rel = read_be32(raw.as_slice(), 0);
        let pos = read_be64(raw.as_slice(), 4);
        proof {
            assert(be32_at(raw@, 0) == be32_at(self.bytes(), at as int));
            assert(be64_at(raw@, 4) == be64_at(self.bytes(), at + 4));
        }
        Ok((rel, pos))
    }

    /// Flushes the mapping and returns the number of bytes in use, to which the backing file
    /// is to be cut down. Fails with `Io` when the flush fails.
    pub fn close(&mut self) -> (r: Result<usize, LogError>)
        requires
            old(self).wf(),
        ensures
            *final(self) == *old(self),
            r is Ok ==> r->Ok_0 == old(self).size,
            r is Err ==> r->Err_0 == LogError::Io,
    {
        if !map_flush(&self.mem_map) {
            return Err(LogError::Io);
        }
        Ok(self.size)
    }
}

} // verus!
