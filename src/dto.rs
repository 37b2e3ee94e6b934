use vstd::prelude::*;
use vstd::string::StringSliceAdditionalSpecFns;
use vstd::utf8::{encode_utf8, valid_utf8};
use crate::record::Record;

verus! {

/// Body of an append request: the payload as text.
pub struct AppendRequest {
    pub data: String,
}

/// Query of a read request.
pub struct ReadRequest {
    pub offset: u64,
}

/// Answer to a read request: the record, its payload as text.
pub struct ReadResponse {
    pub offset: u64,
    pub value: String,
}

/// Relies on std's String::from_utf8: the string holding exactly `bytes`, when they are
/// valid UTF-8.
#[verifier::external_body]
fn utf8_string(bytes: Vec<u8>) -> (r: Option<String>)
    ensures
        r is Some <==> valid_utf8(bytes@),
        r is Some ==> encode_utf8(r->Some_0@) == bytes@,
{
    String::from_utf8(bytes).ok()
}

impl AppendRequest {
    /// The bytes to append: the UTF-8 bytes of the text.
    pub fn payload(&self) -> (r: Vec<u8>)
        ensures
            r@ == encode_utf8(self.data@),
    {
        let b = self.data.as_str().as_bytes();
        let mut out: Vec<u8> = Vec::new();
        let mut i: usize = 0;
        while i < b.len()
            invariant
                i <= b@.len(),
                out@ == b@.subrange(0, i as int),
            decreases b@.len() - i,
        {
            out.push(b[i]);
            assert(b@.subrange(0, i + 1) == b@.subrange(0, i as int).push(b@[i as int]));
            i = i + 1;
        }
        assert(b@.subrange(0, b@.len() as int) == b@);
        out
    }
}

impl ReadResponse {
    /// The answer for `record`, or `None` when its payload is not valid UTF-8.
    pub fn from_record(record: Record) -> (r: Option<ReadResponse>)
        ensures
            r is Some <==> valid_utf8(record.value@),
            r is Some ==> r->Some_0.offset == record.offset && encode_utf8(r->Some_0.value@)
                == record.value@,
    {
        let offset = record.offset;
        match utf8_string(record.value) {
            Some(value) => Some(ReadResponse { offset, value }),
            None => None,
        }
    }
}

} // verus!
