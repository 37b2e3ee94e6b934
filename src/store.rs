use vstd::prelude::*;
use crate::be::{be64, be64_at, lemma_be64_round_trip, push_be64, read_be64};
use crate::error::LogError;

verus! {

/// One frame: the payload's length as 8 big-endian bytes, then the payload.
pub open spec fn frame(payload: Seq<u8>) -> Seq<u8> {
    be64(payload.len() as u64) + payload
}

/// The length field of the frame starting at `at`.
pub open spec fn frame_len(s: Seq<u8>, at: int) -> int {
    be64_at(s, at) as int
}

/// A whole frame starts at `at`: its length field and its payload lie inside `s`.
pub open spec fn frame_fits(s: Seq<u8>, at: int) -> bool {
    0 <= at && at + 8 <= s.len() && at + 8 + frame_len(s, at) <= s.len()
}

/// The payload of the frame starting at `at`.
pub open spec fn frame_payload(s: Seq<u8>, at: int) -> Seq<u8> {
    s.subrange(at + 8, at + 8 + frame_len(s, at))
}

/// An append-only sequence of length-prefixed frames. `data` is the whole content of the store
/// file; the bytes from `written` on have not been handed out to be written yet.
pub struct Store {
    pub data: Vec<u8>,
    pub written: usize,
}

impl Store {
    pub open spec fn wf(&self) -> bool {
        self.written <= self.data@.len()
    }

    /// A store over the existing content of its file; all of it counts as written.
    pub fn new(contents: Vec<u8>) -> (r: Store)
        ensures
            r.wf(),
            r.data@ == contents@,
            r.written == contents@.len(),
    {
        let n = contents.len();
        Store { data: contents, written: n }
    }

    /// The store's size: the byte position where the next frame starts.
    pub fn size(&self) -> (r: u64)
        ensures
            r == self.data@.len(),
    {
        self.data.len() as u64
    }

    /// Appends one frame holding `payload` and returns the position where it starts.
    /// Fails with `Capacity`, changing nothing, when the store cannot grow by that much.
    pub fn append(&mut self, payload: Vec<u8>) -> (r: Result<u64, LogError>)
        requires
            old(self).wf(),
        ensures
            final(self).wf(),
            final(self).written == old(self).written,
            old(self).data@.len() + 8 + payload@.len() <= usize::MAX ==> r == Ok::<u64, LogError>(
                old(self).data@.len() as u64,
            ) && final(self).data@ == old(self).data@ + frame(payload@),
            old(self).data@.len() + 8 + payload@.len() > usize::MAX ==> r == Err::<u64, LogError>(
                LogError::Capacity,
            ) && *final(self) == *old(self),
    {
        let start = self.data.len();
        if payload.len() > usize::MAX - 8 || start > usize::MAX - 8 - payload.len() {
            return Err(LogError::Capacity);
        }
        push_be64(&mut self.data, payload.len() as u64);
        let mut i: usize = 0;
        let head = Ghost(self.data@);
        while i < payload.len()
            invariant
                i <= payload@.len(),
                self.data@ == head@ + payload@.subrange(0, i as int),
                head@ == old(self).data@ + be64(payload@.len() as u64),
                self.written == old(self).written,
                old(self).wf(),
            decreases payload@.len() - i,
        {
            self.data.push(payload[i]);
            assert(payload@.subrange(0, i + 1) == payload@.subrange(0, i as int).push(
                payload@[i as int],
            ));
            i = i + 1;
        }
        assert(payload@.subrange(0, payload@.len() as int) == payload@);
        assert(self.data@ =~= old(self).data@ + frame(payload@));
        Ok(start as u64)
    }

    /// Reads the payload of the frame starting at `offset`.
    pub fn read(&self, offset: u64) -> (r: Result<Vec<u8>, LogError>)
        ensures
            offset > self.data@.len() ==> r == Err::<Vec<u8>, LogError>(LogError::NotFound),
            offset <= self.data@.len() && frame_fits(self.data@, offset as int) ==> r is Ok
                && r->Ok_0@ == frame_payload(self.data@, offset as int),
            offset <= self.data@.len() && !frame_fits(self.data@, offset as int) ==> r
                == Err::<Vec<u8>, LogError>(LogError::Corrupt),
    {
        let n = self.data.len();
        if offset > n as u64 {
            return Err(LogError::NotFound);
        }
        let at = offset as usize;
        if n - at < 8 {
            return Err(LogError::Corrupt);
        }
        let len = read_be64(self.data.as_slice(), at);
        if len > (n - at - 8) as u64 {
            return Err(LogError::Corrupt);
        }
        let start = at + 8;
        let stop = start + len as usize;
        let mut out: Vec<u8> = Vec::new();
        let mut i: usize = start;
        while i < stop
            invariant
                start <= i <= stop <= n,
                n == self.data@.len(),
                out@ == self.data@.subrange(start as int, i as int),
            decreases stop - i,
        {
            out.push(self.data[i]);
            assert(self.data@.subrange(start as int, i + 1) == self.data@.subrange(
                start as int,
                i as int,
            ).push(self.data@[i as int]));
            i = i + 1;
        }
        Ok(out)
    }

    /// The bytes appended since they were last marked written, to be written to the store
    /// file.
    pub fn pending(&self) -> (r: Vec<u8>)
        requires
            self.wf(),
        ensures
            r@ == self.data@.subrange(self.written as int, self.data@.len() as int),
    {
        let n = self.data.len();
        let mut out: Vec<u8> = Vec::new();
        let mut i: usize = self.written;
        while i < n
            invariant
                self.written <= i <= n,
                n == self.data@.len(),
                out@ == self.data@.subrange(self.written as int, i as int),
            decreases n - i,
        {
            out.push(self.data[i]);
            assert(self.data@.subrange(self.written as int, i + 1) == self.data@.subrange(
                self.written as int,
                i as int,
            ).push(self.data@[i as int]));
            i = i + 1;
        }
        out
    }

    /// Records that every byte appended so far has been written to the store file.
    pub fn mark_written(&mut self)
        requires
            old(self).wf(),
        ensures
            final(self).wf(),
            final(self).data@ == old(self).data@,
            final(self).written == old(self).data@.len(),
    {
        self.written = self.data.len();
    }

    /// Hands out the pending bytes and marks them written.
    pub fn flush(&mut self) -> (r: Vec<u8>)
        requires
            old(self).wf(),
        ensures
            final(self).wf(),
            final(self).data@ == old(self).data@,
            final(self).written == old(self).data@.len(),
            r@ == old(self).data@.subrange(old(self).written as int, old(self).data@.len() as int),
    {
        let out = self.pending();
        self.mark_written();
        out
    }

    /// Closes the store: hands out what is still to be written, as `flush` does.
    pub fn close(&mut self) -> (r: Vec<u8>)
        requires
            old(self).wf(),
        ensures
            final(self).wf(),
            final(self).data@ == old(self).data@,
            final(self).written == old(self).data@.len(),
            r@ == old(self).data@.subrange(old(self).written as int, old(self).data@.len() as int),
    {
        self.flush()
    }
}

/// Reading back the frame that an append wrote gives the appended payload.
pub proof fn lemma_store_round_trip(before: Seq<u8>, payload: Seq<u8>)
    requires
        before.len() + 8 + payload.len() <= usize::MAX,
    ensures
        frame_fits(before + frame(payload), before.len() as int),
        frame_payload(before + frame(payload), before.len() as int) == payload,
{
    let s = before + frame(payload);
    let at = before.len() as int;
    assert(s.subrange(at, at + 8) == be64(payload.len() as u64));
    lemma_be64_round_trip(payload.len() as u64, s, at);
    assert(s.subrange(at + 8, at + 8 + payload.len()) == payload);
}

/// Appending a frame leaves every frame that was already there as it was.
pub proof fn lemma_store_append_keeps(before: Seq<u8>, payload: Seq<u8>, at: int)
    requires
        frame_fits(before, at),
    ensures
        frame_fits(before + frame(payload), at),
        frame_payload(before + frame(payload), at) == frame_payload(before, at),
{
    let s = before + frame(payload);
    assert(be64_at(s, at) == be64_at(before, at));
    assert(frame_payload(s, at) =~= frame_payload(before, at));
}

} // verus!
