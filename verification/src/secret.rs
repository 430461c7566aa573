//! The bridging core: buffer allocation, count clamping and decoding for one
//! echo-disabled terminal read.

use vstd::prelude::*;
use vstd::utf8::*;

use crate::encoding::utf8_check;

verus! {

/// The byte count the reader reported, clamped to the caller's bound: a
/// reported count is treated as untrusted until checked against the bound.
pub open spec fn clamped_count(count: int, max_len: int) -> int {
    if count <= max_len {
        count
    } else {
        max_len
    }
}

/// The byte run that one read hands to decoding: the first `clamped_count`
/// bytes of the transfer buffer. Bytes past the count are never interpreted.
pub open spec fn payload(buffer: Seq<u8>, count: int, max_len: int) -> Seq<u8> {
    buffer.subrange(0, clamped_count(count, max_len))
}

/// The byte run of one read was not a complete UTF-8 encoding: the caller's
/// byte bound cut the input inside a multi-byte character. Carries the raw
/// truncated bytes for diagnosis.
#[derive(Debug)]
pub struct DecodeError {
    pub bytes: Vec<u8>,
}

/// Allocates the transfer buffer for one read: room for `max_len` payload
/// bytes plus one byte reserved for the reader's terminator, all zeroed, so
/// that no call can see bytes left over from an earlier one.
pub fn secret_buffer(max_len: usize) -> (buf: Vec<u8>)
    requires
        1 <= max_len < usize::MAX,
    ensures
        buf@.len() == max_len + 1,
        forall|k: int| 0 <= k < buf@.len() ==> buf@[k] == 0u8,
{
    let size = max_len + 1;
    let mut buf: Vec<u8> = Vec::new();
    while buf.len() < size
        invariant
            buf@.len() <= size,
            forall|k: int| 0 <= k < buf@.len() ==> buf@[k] == 0u8,
        decreases size - buf@.len(),
    {
        buf.push(0u8);
    }
    buf
}

/// Relies on `String::from_utf8`: on a byte vector that is valid UTF-8 it
/// returns the string whose characters are exactly the UTF-8 decoding of
/// those bytes.
#[verifier::external_body]
fn string_from_valid_utf8(bytes: Vec<u8>) -> (s: String)
    requires
        valid_utf8(bytes@),
    ensures
        s@ == decode_utf8(bytes@),
{
    String::from_utf8(bytes).unwrap()
}

/// Turns the buffer one read filled into the call's outcome. The reported
/// `count` is clamped to `max_len`, the buffer's view is truncated to that
/// many bytes, and the byte run either decodes completely or is returned
/// inside [`DecodeError`] untouched — never dropped or replaced bytes.
pub fn decode_secret(max_len: usize, buffer: Vec<u8>, count: usize) -> (r: Result<
    String,
    DecodeError,
>)
    requires
        max_len >= 1,
        buffer@.len() == max_len + 1,
        forall|k: int|
            0 <= k < clamped_count(count as int, max_len as int) ==> buffer@[k] != 0u8,
    ensures
        ({
            let data = payload(buffer@, count as int, max_len as int);
            match r {
                Ok(s) => {
                    &&& valid_utf8(data)
                    &&& s@ == decode_utf8(data)
                    &&& encode_utf8(s@) == data
                    &&& encode_utf8(s@).len() <= max_len
                    &&& forall|j: int| 0 <= j < s@.len() ==> s@[j] != '\0'
                },
                Err(e) => {
                    &&& !valid_utf8(data)
                    &&& e.bytes@ == data
                },
            }
        }),
{
    let n = if count <= max_len {
        count
    } else {
        max_len
    };
    let mut data = buffer;
    data.truncate(n);
    proof {
        assert(data@ == payload(buffer@, count as int, max_len as int));
    }
    if utf8_check(&data) {
        let ghost raw = data@;
        let s = string_from_valid_utf8(data);
        proof {
            decode_utf8_encode_utf8(raw);
            crate::encoding::lemma_terminator_free(s@);
        }
        Ok(s)
    } else {
        Err(DecodeError { bytes: data })
    }
}

} // verus!