//! The compute step of the capture worker: decode one chunk of bytes
//! read from the external source and append it to the buffer.  The
//! blocking read itself lives with the process plumbing, outside the
//! verified library.

use crate::buffer::LogBuffer;
use vstd::prelude::*;

verus! {

/// What `String::from_utf8_lossy` returns for a given byte sequence:
/// the decoded text, with every invalid sequence replaced by the
/// replacement character.
pub uninterp spec fn lossy_decode(bytes: Seq<u8>) -> Seq<char>;

/// Relies on `String::from_utf8_lossy`: the result depends on the bytes
/// alone, never fails, and no bytes decode to no text.
#[verifier::external_body]
fn decode_chunk(bytes: &[u8]) -> (r: String)
    ensures
        r@ == lossy_decode(bytes@),
        bytes@.len() == 0 ==> r@.len() == 0,
{
    String::from_utf8_lossy(bytes).into_owned()
}

/// One step of the capture worker: decode the bytes just read and grow
/// the buffer's tail by the decoded text, as a single whole chunk.
pub fn ingest_chunk(buffer: &mut LogBuffer, bytes: &[u8])
    ensures
        final(buffer)@ == old(buffer)@ + lossy_decode(bytes@),
        final(buffer).appends() == old(buffer).appends().push(lossy_decode(bytes@)),
{
    let text = decode_chunk(bytes);
    buffer.append(text.as_str());
}

} // verus!
