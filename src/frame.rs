//! Length-prefixed records: each variable-length field is preceded by its
//! length as an eight-byte big-endian number. The response record is the same
//! for both cipher families: `[length of message][message bytes]`.
use vstd::prelude::*;
use crate::be_bytes::{be_u64, push_u64_be, read_u64_be, u64_be};
use crate::text::{decode_lossy, lossy_text};
use vstd::utf8::{decode_utf8, valid_utf8};

verus! {

/// Why bytes do not hold a whole record.
#[derive(Debug, Clone, Copy, PartialEq, Eq, Structural)]
pub enum FrameError {
    /// The bytes end before a field that the record declares is complete.
    Truncated,
}

/// The UTF-8 bytes of text `t`.
pub open spec fn utf8_of(t: Seq<char>) -> Seq<u8> {
    vstd::utf8::encode_utf8(t)
}

/// A length field followed by that many bytes.
pub open spec fn field_wire(b: Seq<u8>) -> Seq<u8> {
    u64_be(b.len() as u64) + b
}

/// The number held by the eight bytes at `at`.
pub open spec fn u64_at(b: Seq<u8>, at: int) -> u64 {
    be_u64(b.subrange(at, at + 8))
}

/// The response record that carries text `m`.
pub open spec fn response_wire(m: Seq<char>) -> Seq<u8> {
    field_wire(utf8_of(m))
}

/// How many more bytes a reader that holds `b` must take before the next
/// field of a response is complete; 0 once `b` holds a whole response.
pub open spec fn response_needed(b: Seq<u8>) -> int {
    if b.len() < 8 {
        8 - b.len()
    } else if b.len() - 8 < u64_at(b, 0) {
        u64_at(b, 0) - (b.len() - 8)
    } else {
        0
    }
}

/// The message of the whole response held by `b`, decoded lossily.
pub open spec fn response_message(b: Seq<u8>) -> Seq<char> {
    lossy_text(b.subrange(8, 8 + u64_at(b, 0)))
}

/// Appends a length field and the bytes of `s`.
pub fn push_field(out: &mut Vec<u8>, s: &[u8])
    ensures
        final(out)@ == old(out)@ + field_wire(s@),
{
    push_u64_be(out, s.len() as u64);
    let ghost mid = out@;
    out.extend_from_slice(s);
    assert(out@ =~= mid + s@);
}

/// Decodes `len` bytes from `at` onwards as text, lossily.
pub fn text_at(b: &[u8], at: usize, len: u64) -> (r: String)
    requires
        at + len <= b@.len(),
    ensures
        r@ == lossy_text(b@.subrange(at as int, at + len)),
        valid_utf8(b@.subrange(at as int, at + len)) ==> r@ == decode_utf8(
            b@.subrange(at as int, at + len),
        ),
{
    let n = b.len();
    assert(len <= n);
    let l = len as usize;
    let end = at + l;
    decode_lossy(vstd::slice::slice_subrange(b, at, end))
}

/// The response record that carries `message`.
pub fn encode_response(message: &str) -> (r: Vec<u8>)
    ensures
        r@ == response_wire(message@),
{
    let mut out: Vec<u8> = Vec::new();
    push_field(&mut out, message.as_bytes());
    assert(out@ =~= response_wire(message@));
    out
}

/// How many more bytes to read before the next field of the response whose
/// first bytes are `b` is complete; 0 once `b` holds the whole response.
pub fn response_bytes_needed(b: &[u8]) -> (r: u64)
    ensures
        r as int == response_needed(b@),
{
    let n = b.len() as u64;
    if n < 8 {
        return 8 - n;
    }
    let len = read_u64_be(b, 0);
    if n - 8 < len {
        len - (n - 8)
    } else {
        0
    }
}

/// Decodes the response that starts `b`: its message, decoded lossily, or
/// `Truncated` where `b` ends before the declared message does.
pub fn decode_response(b: &[u8]) -> (r: Result<String, FrameError>)
    ensures
        response_needed(b@) == 0 ==> r is Ok && r->Ok_0@ == response_message(b@),
        response_needed(b@) == 0 && valid_utf8(b@.subrange(8, 8 + u64_at(b@, 0))) ==> r->Ok_0@
            == decode_utf8(b@.subrange(8, 8 + u64_at(b@, 0))),
        response_needed(b@) != 0 ==> r == Err::<String, FrameError>(FrameError::Truncated),
{
    if response_bytes_needed(b) != 0 {
        return Err(FrameError::Truncated);
    }
    let len = read_u64_be(b, 0);
    Ok(text_at(b, 8, len))
}

/// A length field written for `n` reads back as `n`, wherever it stands.
pub proof fn lemma_u64_at(b: Seq<u8>, at: int, n: u64)
    requires
        0 <= at,
        at + 8 <= b.len(),
        b.subrange(at, at + 8) == u64_be(n),
    ensures
        u64_at(b, at) == n,
{
    crate::be_bytes::lemma_be_u64_round_trip(n);
}

/// Decoding an encoded response finds it whole, with the UTF-8 bytes of its
/// message, which decode back to the message.
pub proof fn lemma_response_round_trip(m: Seq<char>)
    requires
        utf8_of(m).len() <= u64::MAX,
    ensures
        response_needed(response_wire(m)) == 0,
        response_wire(m).subrange(8, 8 + u64_at(response_wire(m), 0)) == utf8_of(m),
        decode_utf8(response_wire(m).subrange(8, 8 + u64_at(response_wire(m), 0))) == m,
{
    let w = response_wire(m);
    let bytes = utf8_of(m);
    assert(w.subrange(0, 8) =~= u64_be(bytes.len() as u64));
    lemma_u64_at(w, 0, bytes.len() as u64);
    assert(w.subrange(8, 8 + u64_at(w, 0)) =~= bytes);
    vstd::utf8::encode_utf8_decode_utf8(m);
}

/// Every proper prefix of an encoded response still needs bytes, so it never
/// decodes as a response.
pub proof fn lemma_response_prefix_needs_more(m: Seq<char>, j: int)
    requires
        utf8_of(m).len() <= u64::MAX,
        0 <= j < response_wire(m).len(),
    ensures
        response_needed(response_wire(m).take(j)) > 0,
{
    let w = response_wire(m);
    let p = w.take(j);
    if j >= 8 {
        assert(p.subrange(0, 8) =~= u64_be(utf8_of(m).len() as u64));
        lemma_u64_at(p, 0, utf8_of(m).len() as u64);
    }
}

} // verus!
