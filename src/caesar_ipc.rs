//! The Caesar shift cipher and the request format that carries a message and
//! a shift.
use vstd::prelude::*;
use crate::be_bytes::{push_u64_be, read_u64_be, u64_be};
use crate::frame::{
    encode_response, lemma_u64_at, response_wire, text_at, u64_at, utf8_of, FrameError,
};
use crate::letters::{
    is_ascii_letter, is_letter, is_lower, is_upper, lemma_rotate_inverse, lemma_rotate_letter,
    lemma_rotate_congruent, lemma_rotate_period, rotate, rotate_letter,
};
use crate::text::lossy_text;
use vstd::utf8::{decode_utf8, valid_utf8};

verus! {

broadcast use vstd::string::axiom_spec_iter;

/// Every letter of `t` moved `shift` places forward in its alphabet.
pub open spec fn caesar_text(t: Seq<char>, shift: int) -> Seq<char> {
    t.map_values(|c: char| rotate(c, shift))
}

/// Applies the Caesar cipher with `shift` to the ASCII letters of `text`; any
/// other character is kept. `caesar(t, -s)` undoes `caesar(t, s)`.
pub fn caesar(text: &str, shift: i64) -> (r: String)
    ensures
        r@ == caesar_text(text@, shift as int),
{
    let s: i64 = ((shift % 26) + 26) % 26;
    let s_u8 = s as u8;
    assert(s == (shift as int) % 26);
    let mut out = String::new();
    for ch in it: text.chars()
        invariant
            it.seq() == text@,
            s_u8 as int == (shift as int) % 26,
            out@ == caesar_text(it.seq().take(it.index() as int), shift as int),
    {
        let ghost done = it.seq().take(it.index() as int);
        if is_ascii_letter(ch) {
            out.push(rotate_letter(ch, s_u8));
        } else {
            out.push(ch);
        }
        proof {
            assert(it.seq().take(it.index() + 1) =~= done.push(ch));
            assert(caesar_text(done.push(ch), shift as int) =~= caesar_text(done, shift as int).push(
                rotate(ch, shift as int),
            ));
        }
    }
    out
}

/// Applies the Caesar cipher with the opposite of `shift`, which undoes
/// `caesar(text, shift)`; defined for every `shift`, `i64::MIN` included.
pub fn caesar_decrypt(text: &str, shift: i64) -> (r: String)
    ensures
        r@ == caesar_text(text@, -(shift as int)),
{
    let s: i64 = ((shift % 26) + 26) % 26;
    let back: i64 = 26 - s;
    proof {
        let q = (shift as int) / 26;
        vstd::arithmetic::div_mod::lemma_fundamental_div_mod(shift as int, 26);
        assert(back - (-(shift as int)) == (q + 1) * 26) by (nonlinear_arith)
            requires
                shift as int == 26 * q + (shift as int) % 26,
                back == 26 - (shift as int) % 26,
        ;
        vstd::arithmetic::div_mod::lemma_mod_multiples_basic(q + 1, 26);
        vstd::arithmetic::div_mod::lemma_mod_equivalence(back as int, -(shift as int), 26);
        assert forall|i: int| 0 <= i < text@.len() implies caesar_text(text@, back as int)[i]
            == caesar_text(text@, -(shift as int))[i] by {
            lemma_rotate_congruent(text@[i], back as int, -(shift as int));
        }
        assert(caesar_text(text@, back as int) =~= caesar_text(text@, -(shift as int)));
    }
    caesar(text, back)
}

/// Shifting back by `s` undoes shifting by `s`.
pub proof fn lemma_caesar_inverse(t: Seq<char>, s: int)
    ensures
        caesar_text(caesar_text(t, s), -s) == t,
{
    assert forall|i: int| 0 <= i < t.len() implies caesar_text(caesar_text(t, s), -s)[i] == t[i] by {
        lemma_rotate_inverse(t[i], s);
    }
    assert(caesar_text(caesar_text(t, s), -s) =~= t);
}

/// The cipher keeps the length of the text, the case of each letter, and
/// every other character where it stands.
pub proof fn lemma_caesar_shape(t: Seq<char>, s: int)
    ensures
        caesar_text(t, s).len() == t.len(),
        forall|i: int|
            0 <= i < t.len() ==> is_upper(#[trigger] caesar_text(t, s)[i]) == is_upper(t[i])
                && is_lower(caesar_text(t, s)[i]) == is_lower(t[i]),
        forall|i: int| 0 <= i < t.len() && !is_letter(t[i]) ==> #[trigger] caesar_text(t, s)[i] == t[i],
{
    assert forall|i: int| 0 <= i < t.len() implies is_upper(#[trigger] caesar_text(t, s)[i])
        == is_upper(t[i]) && is_lower(caesar_text(t, s)[i]) == is_lower(t[i]) by {
        if is_letter(t[i]) {
            lemma_rotate_letter(t[i], s);
        }
    }
}

/// Shifts that differ by 26 give the same text.
pub proof fn lemma_caesar_period(t: Seq<char>, s: int)
    ensures
        caesar_text(t, s + 26) == caesar_text(t, s),
        caesar_text(t, s - 26) == caesar_text(t, s),
{
    assert forall|i: int| 0 <= i < t.len() implies caesar_text(t, s + 26)[i] == caesar_text(t, s)[i] by {
        lemma_rotate_period(t[i], s);
    }
    assert forall|i: int| 0 <= i < t.len() implies caesar_text(t, s - 26)[i] == caesar_text(t, s)[i] by {
        lemma_rotate_period(t[i], s - 26);
    }
    assert(caesar_text(t, s + 26) =~= caesar_text(t, s));
    assert(caesar_text(t, s - 26) =~= caesar_text(t, s));
}

/// The request record for `shift` and text `m`:
/// `[length of message][shift][message bytes]`.
pub open spec fn request_wire(shift: i64, m: Seq<char>) -> Seq<u8> {
    u64_be(utf8_of(m).len() as u64) + u64_be(shift as u64) + utf8_of(m)
}

/// The declared length of the message of the request that starts `b`.
pub open spec fn message_len(b: Seq<u8>) -> int {
    u64_at(b, 0) as int
}

/// How many more bytes a reader that holds `b` must take before the next
/// field of a request is complete; 0 once `b` holds a whole request.
pub open spec fn request_needed(b: Seq<u8>) -> int {
    if b.len() < 8 {
        8 - b.len()
    } else if b.len() < 16 {
        16 - b.len()
    } else if b.len() - 16 < message_len(b) {
        message_len(b) - (b.len() - 16)
    } else {
        0
    }
}

/// The shift of the request that starts `b`.
pub open spec fn request_shift(b: Seq<u8>) -> i64 {
    u64_at(b, 8) as i64
}

/// The message bytes of the whole request that starts `b`.
pub open spec fn request_message_bytes(b: Seq<u8>) -> Seq<u8> {
    b.subrange(16, 16 + message_len(b))
}

/// The request record that carries `message` and `shift`.
pub fn encode_request(shift: i64, message: &str) -> (r: Vec<u8>)
    ensures
        r@ == request_wire(shift, message@),
{
    let bytes = message.as_bytes();
    let mut out: Vec<u8> = Vec::new();
    push_u64_be(&mut out, bytes.len() as u64);
    push_u64_be(&mut out, shift as u64);
    let ghost mid = out@;
    out.extend_from_slice(bytes);
    assert(out@ =~= mid + bytes@);
    out
}

/// How many more bytes to read before the next field of the request whose
/// first bytes are `b` is complete; 0 once `b` holds the whole request.
pub fn request_bytes_needed(b: &[u8]) -> (r: u64)
    ensures
        r as int == request_needed(b@),
{
    let n = b.len() as u64;
    if n < 8 {
        return 8 - n;
    }
    if n < 16 {
        return 16 - n;
    }
    let len = read_u64_be(b, 0);
    if n - 16 < len {
        len - (n - 16)
    } else {
        0
    }
}

/// Decodes the request that starts `b` into its shift and its message,
/// decoded lossily; `Truncated` where `b` ends before a declared field does.
pub fn decode_request(b: &[u8]) -> (r: Result<(i64, String), FrameError>)
    ensures
        request_needed(b@) == 0 ==> r is Ok && r->Ok_0.0 == request_shift(b@) && r->Ok_0.1@
            == lossy_text(request_message_bytes(b@)),
        request_needed(b@) == 0 && valid_utf8(request_message_bytes(b@)) ==> r->Ok_0.1@
            == decode_utf8(request_message_bytes(b@)),
        request_needed(b@) != 0 ==> r == Err::<(i64, String), FrameError>(FrameError::Truncated),
{
    if request_bytes_needed(b) != 0 {
        return Err(FrameError::Truncated);
    }
    let len = read_u64_be(b, 0);
    let shift = read_u64_be(b, 8) as i64;
    let message = text_at(b, 16, len);
    Ok((shift, message))
}

/// Answers one request: the response carries the request's message under the
/// Caesar cipher with the request's shift. `Truncated` where `request` does
/// not hold a whole request.
pub fn serve(request: &[u8]) -> (r: Result<Vec<u8>, FrameError>)
    ensures
        request_needed(request@) == 0 ==> r is Ok && r->Ok_0@ == response_wire(
            caesar_text(lossy_text(request_message_bytes(request@)), request_shift(request@) as int),
        ),
        request_needed(request@) != 0 ==> r == Err::<Vec<u8>, FrameError>(FrameError::Truncated),
{
    match decode_request(request) {
        Ok((shift, message)) => Ok(encode_response(caesar(message.as_str(), shift).as_str())),
        Err(e) => Err(e),
    }
}

/// Decoding an encoded request gives back its shift exactly and the text that
/// lossy decoding makes of its message bytes, which are the message's UTF-8
/// bytes.
pub proof fn lemma_request_round_trip(shift: i64, m: Seq<char>)
    requires
        utf8_of(m).len() <= u64::MAX,
    ensures
        request_needed(request_wire(shift, m)) == 0,
        request_shift(request_wire(shift, m)) == shift,
        request_message_bytes(request_wire(shift, m)) == utf8_of(m),
        valid_utf8(request_message_bytes(request_wire(shift, m))),
        decode_utf8(request_message_bytes(request_wire(shift, m))) == m,
{
    let w = request_wire(shift, m);
    let bytes = utf8_of(m);
    crate::be_bytes::lemma_be_u64_round_trip(bytes.len() as u64);
    crate::be_bytes::lemma_be_u64_round_trip(shift as u64);
    assert(w.subrange(0, 8) =~= u64_be(bytes.len() as u64));
    assert(w.subrange(8, 16) =~= u64_be(shift as u64));
    assert(((shift as u64) as i64) == shift) by (bit_vector);
    assert(w.subrange(16, 16 + message_len(w)) =~= bytes);
    vstd::utf8::encode_utf8_valid_utf8(m);
    vstd::utf8::encode_utf8_decode_utf8(m);
}

/// Every proper prefix of an encoded request still needs bytes, so it never
/// decodes as a request.
pub proof fn lemma_request_prefix_needs_more(shift: i64, m: Seq<char>, j: int)
    requires
        utf8_of(m).len() <= u64::MAX,
        0 <= j < request_wire(shift, m).len(),
    ensures
        request_needed(request_wire(shift, m).take(j)) > 0,
{
    let w = request_wire(shift, m);
    let p = w.take(j);
    if j >= 16 {
        assert(p.subrange(0, 8) =~= u64_be(utf8_of(m).len() as u64));
        lemma_u64_at(p, 0, utf8_of(m).len() as u64);
    }
}

} // verus!
