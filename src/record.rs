use vstd::prelude::*;
use crate::error::LogError;

verus! {

/// The logical unit stored in the log: an assigned offset and an opaque payload.
#[derive(Debug, Clone)]
pub struct Record {
    pub offset: u64,
    pub value: Vec<u8>,
}

/// LEB128 encoding of `v`: seven bits per byte, low bits first, high bit set on all but the last.
pub open spec fn varint(v: nat) -> Seq<u8>
    decreases v,
{
    if v < 128 {
        seq![v as u8]
    } else {
        seq![((v % 128) + 128) as u8] + varint(v / 128)
    }
}

/// The wire form of a record: field 1 (`offset`, a varint under key byte 8) and field 2
/// (`value`, length-delimited under key byte 18); a field at its default value is omitted.
pub open spec fn record_bytes(offset: u64, value: Seq<u8>) -> Seq<u8> {
    (if offset == 0 { Seq::empty() } else { seq![8u8] + varint(offset as nat) })
    + (if value.len() == 0 { Seq::empty() } else { seq![18u8] + varint(value.len()) + value })
}

/// `s` holds `p` starting at `at`.
pub open spec fn holds_at(s: Seq<u8>, at: int, p: Seq<u8>) -> bool {
    0 <= at && at + p.len() <= s.len() && s.subrange(at, at + p.len()) == p
}

/// Relies on prost::encoding::encode_varint: appends the LEB128 encoding of `v` to `buf`.
#[verifier::external_body]
fn put_varint(v: u64, buf: &mut Vec<u8>)
    ensures
        final(buf)@ == old(buf)@ + varint(v as nat),
{
    prost::encoding::encode_varint(v, buf)
}

/// Relies on prost::encoding::decode_varint: reads one LEB128 integer at the front of
/// `bytes[start..]` and returns it with the number of bytes left after it.
#[verifier::external_body]
fn take_varint(bytes: &Vec<u8>, start: usize) -> (r: Option<(u64, usize)>)
    requires
        start <= bytes.len(),
    ensures
        r is Some ==> r->Some_0.1 < bytes.len() - start,
        forall|v: u64|
            #![trigger varint(v as nat)]
            holds_at(bytes@, start as int, varint(v as nat)) ==> r == Some(
                (v, (bytes.len() - start - varint(v as nat).len()) as usize),
            ),
{
    let mut rest: &[u8] = &bytes[start..];
    match prost::encoding::decode_varint(&mut rest) {
        Ok(v) => Some((v, rest.len())),
        Err(_) => None,
    }
}

proof fn lemma_varint_nonempty(v: nat)
    ensures
        varint(v).len() >= 1,
        varint(v)[0] < 128 <==> v < 128,
    decreases v,
{
    if v >= 128 {
        lemma_varint_nonempty(v / 128);
    }
}

/// Where each part of `s`, the wire form of `(o, v)`, lies.
pub open spec fn layout_of(s: Seq<u8>, o: u64, v: Seq<u8>) -> bool {
    let p: int = if o == 0 { 0int } else { 1 + varint(o as nat).len() as int };
    &&& o != 0 ==> s[0] == 8u8 && holds_at(s, 1, varint(o as nat))
    &&& o == 0 ==> s.len() == 0 || s[0] == 18u8
    &&& v.len() == 0 ==> s.len() == p
    &&& v.len() != 0 ==> p < s.len() && s[p] == 18u8 && s[p] != 8u8 && holds_at(
        s,
        p + 1,
        varint(v.len()),
    ) && s.subrange(p + 1 + varint(v.len()).len() as int, s.len() as int) == v
}

/// Where each part of `record_bytes(o, v)` lies.
proof fn lemma_record_layout(o: u64, v: Seq<u8>)
    ensures
        layout_of(record_bytes(o, v), o, v),
{
    lemma_varint_nonempty(o as nat);
    lemma_varint_nonempty(v.len());
    let s = record_bytes(o, v);
    let p: int = if o == 0 { 0int } else { 1 + varint(o as nat).len() as int };
    if o != 0 {
        assert(s.subrange(1, 1 + varint(o as nat).len() as int) == varint(o as nat));
    }
    if v.len() != 0 {
        let q = p + 1 + varint(v.len()).len() as int;
        assert(s.subrange(p + 1, q) == varint(v.len()));
        assert(s.subrange(q, s.len() as int) == v);
    }
}

/// An encoding of a varint followed by anything starts with no other varint.
proof fn lemma_varint_prefix_unique(a: nat, x: Seq<u8>, b: nat, y: Seq<u8>)
    requires
        varint(a) + x == varint(b) + y,
    ensures
        a == b,
        x == y,
    decreases a,
{
    lemma_varint_nonempty(a);
    lemma_varint_nonempty(b);
    let s = varint(a) + x;
    assert(s[0] == varint(a)[0] && s[0] == varint(b)[0]);
    if a < 128 {
        assert(varint(a) == varint(b));
        assert(x =~= s.subrange(1, s.len() as int));
        assert(y =~= s.subrange(1, s.len() as int));
    } else {
        assert(varint(a) == seq![((a % 128) + 128) as u8] + varint(a / 128));
        assert(varint(b) == seq![((b % 128) + 128) as u8] + varint(b / 128));
        let t = s.subrange(1, s.len() as int);
        assert(t =~= varint(a / 128) + x);
        assert(t =~= varint(b / 128) + y);
        lemma_varint_prefix_unique(a / 128, x, b / 128, y);
    }
}

/// A record's wire form under a given offset determines its value.
pub proof fn lemma_record_value_unique(o: u64, v: Seq<u8>, w: Seq<u8>)
    requires
        record_bytes(o, v) == record_bytes(o, w),
    ensures
        v == w,
{
    let head: Seq<u8> = if o == 0 { Seq::empty() } else { seq![8u8] + varint(o as nat) };
    let tv: Seq<u8> = if v.len() == 0 { Seq::empty() } else { seq![18u8] + varint(v.len()) + v };
    let tw: Seq<u8> = if w.len() == 0 { Seq::empty() } else { seq![18u8] + varint(w.len()) + w };
    assert(record_bytes(o, v) == head + tv);
    assert(record_bytes(o, w) == head + tw);
    assert(tv =~= (head + tv).subrange(head.len() as int, (head + tv).len() as int));
    assert(tw =~= (head + tw).subrange(head.len() as int, (head + tw).len() as int));
    if v.len() != 0 && w.len() != 0 {
        let a = tv.subrange(1, tv.len() as int);
        assert(a =~= varint(v.len()) + v);
        assert(a =~= varint(w.len()) + w);
        lemma_varint_prefix_unique(v.len(), v, w.len(), w);
    } else if v.len() != 0 || w.len() != 0 {
        assert(tv.len() != tw.len());
    } else {
        assert(v =~= w);
    }
}

impl Record {
    pub fn new(offset: u64, data: Vec<u8>) -> (r: Record)
        ensures
            r.offset == offset,
            r.value@ == data@,
    {
        Record { offset, value: data }
    }

    /// A record holding `data`, not yet given an offset.
    pub fn from_data(data: Vec<u8>) -> (r: Record)
        ensures
            r.offset == 0,
            r.value@ == data@,
    {
        Record { offset: 0, value: data }
    }

    pub fn set_offset(&mut self, offset: u64)
        ensures
            final(self).offset == offset,
            final(self).value@ == old(self).value@,
    {
        self.offset = offset;
    }

    /// The wire form of this record.
    pub fn encode(&self) -> (r: Vec<u8>)
        ensures
            r@ == record_bytes(self.offset, self.value@),
    {
        let mut out: Vec<u8> = Vec::new();
        if self.offset != 0 {
            out.push(8u8);
            put_varint(self.offset, &mut out);
        }
        let n = self.value.len();
        if n != 0 {
            let mark = Ghost(out@);
            out.push(18u8);
            put_varint(n as u64, &mut out);
            let mut i: usize = 0;
            let head = Ghost(out@);
            while i < n
                invariant
                    n == self.value.len(),
                    i <= n,
                    out@ == head@ + self.value@.subrange(0, i as int),
                decreases n - i,
            {
                out.push(self.value[i]);
                proof {
                    assert(self.value@.subrange(0, i + 1) == self.value@.subrange(0, i as int).push(
                        self.value@[i as int],
                    ));
                }
                i = i + 1;
            }
            assert(self.value@.subrange(0, n as int) == self.value@);
        }
        proof {
            if n == 0 {
                assert(self.value@.len() == 0);
            }
        }
        out
    }

    /// Decodes the wire form of a record. Succeeds exactly on the bytes that `encode` produces,
    /// and then gives back the record that was encoded.
    pub fn decode(bytes: &Vec<u8>) -> (r: Result<Record, LogError>)
        ensures
            r is Ok ==> bytes@ == record_bytes(r->Ok_0.offset, r->Ok_0.value@),
            r is Err ==> r->Err_0 == LogError::Corrupt,
            forall|o: u64, v: Seq<u8>|
                #![trigger record_bytes(o, v)]
                bytes@ == record_bytes(o, v) ==> (r is Ok && r->Ok_0.offset == o
                    && r->Ok_0.value@ == v),
    {
        proof {
            assert forall|o: u64, v: Seq<u8>| #[trigger]
                record_bytes(o, v) == bytes@ implies layout_of(bytes@, o, v) by {
                lemma_record_layout(o, v);
            }
        }
        let n = bytes.len();
        let mut pos: usize = 0;
        let mut offset: u64 = 0;
        if n > 0 && bytes[0] == 8u8 {
            match take_varint(bytes, 1) {
                Some((v, rest)) => {
                    offset = v;
                    pos = n - rest;
                },
                None => {
                    return Err(LogError::Corrupt);
                },
            }
        }
        let mut value: Vec<u8> = Vec::new();
        if pos < n && bytes[pos] == 18u8 {
            match take_varint(bytes, pos + 1) {
                Some((len, rest)) => {
                    if len > rest as u64 {
                        return Err(LogError::Corrupt);
                    }
                    let start = n - rest;
                    let stop = start + len as usize;
                    let mut i: usize = start;
                    while i < stop
                        invariant
                            start <= i <= stop <= n,
                            n == bytes.len(),
                            value@ == bytes@.subrange(start as int, i as int),
                        decreases stop - i,
                    {
                        value.push(bytes[i]);
                        proof {
                            assert(bytes@.subrange(start as int, i + 1) == bytes@.subrange(
                                start as int,
                                i as int,
                            ).push(bytes@[i as int]));
                        }
                        i = i + 1;
                    }
                    pos = stop;
                },
                None => {
                    return Err(LogError::Corrupt);
                },
            }
        }
        if pos != n {
            return Err(LogError::Corrupt);
        }
        let rec = Record::new(offset, value);
        proof {
            assert forall|o: u64, v: Seq<u8>| #[trigger]
                record_bytes(o, v) == bytes@ implies rec.offset == o && rec.value@ == v by {
                lemma_record_layout(o, v);
            }
        }
        let again = rec.encode();
        if !same_bytes(&again, bytes) {
            return Err(LogError::Corrupt);
        }
        Ok(rec)
    }
}

/// Whether two byte vectors hold the same bytes.
pub fn same_bytes(a: &Vec<u8>, b: &Vec<u8>) -> (r: bool)
    ensures
        r == (a@ == b@),
{
    if a.len() != b.len() {
        return false;
    }
    let mut i: usize = 0;
    while i < a.len()
        invariant
            a.len() == b.len(),
            i <= a.len(),
            forall|j: int| 0 <= j < i ==> a@[j] == b@[j],
        decreases a.len() - i,
    {
        if a[i] != b[i] {
            return false;
        }
        i = i + 1;
    }
    assert(a@ == b@);
    true
}

} // verus!
