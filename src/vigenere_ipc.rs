//! The Vigenère cipher and the request format that carries a message and a
//! key.
use vstd::prelude::*;
use crate::be_bytes::{read_u64_be, u64_be};
use crate::frame::{
    encode_response, field_wire, lemma_u64_at, push_field, response_wire, text_at, u64_at, utf8_of,
    FrameError,
};
use crate::letters::{
    is_ascii_letter, is_letter, lemma_rotate_back, lemma_rotate_inverse, lemma_rotate_letter,
    letter_index, letter_offset, rotate, rotate_letter,
};
use crate::text::lossy_text;
use vstd::utf8::{decode_utf8, valid_utf8};

verus! {

broadcast use vstd::string::axiom_spec_iter;

/// The shifts that key `k` gives: one for each ASCII letter of `k`, in order,
/// 0 for `a` or `A` up to 25 for `z` or `Z`; other characters give none.
pub open spec fn key_shifts(k: Seq<char>) -> Seq<int>
    decreases k.len(),
{
    if k.len() == 0 {
        seq![]
    } else if is_letter(k.last()) {
        key_shifts(k.drop_last()).push(letter_index(k.last()))
    } else {
        key_shifts(k.drop_last())
    }
}

/// The number of ASCII letters in `t`.
pub open spec fn letter_count(t: Seq<char>) -> nat
    decreases t.len(),
{
    if t.len() == 0 {
        0
    } else {
        letter_count(t.drop_last()) + if is_letter(t.last()) {
            1nat
        } else {
            0nat
        }
    }
}

/// Character `i` of `t` under the non-empty shifts `ks`: a letter takes the
/// shift after as many as there are letters before it, cycling through `ks`.
pub open spec fn vigenere_char(t: Seq<char>, ks: Seq<int>, encrypt: bool, i: int) -> char {
    let d = ks[letter_count(t.take(i)) as int % ks.len() as int];
    rotate(t[i], if encrypt { d } else { -d })
}

/// `t` under key `k`; a key without letters leaves every text unchanged.
pub open spec fn vigenere_text(t: Seq<char>, k: Seq<char>, encrypt: bool) -> Seq<char> {
    let ks = key_shifts(k);
    if ks.len() == 0 {
        t
    } else {
        Seq::new(t.len(), |i: int| vigenere_char(t, ks, encrypt, i))
    }
}

proof fn lemma_letter_count_step(t: Seq<char>, i: int)
    requires
        0 <= i < t.len(),
    ensures
        letter_count(t.take(i + 1)) == letter_count(t.take(i)) + if is_letter(t[i]) {
            1nat
        } else {
            0nat
        },
{
    assert(t.take(i + 1).drop_last() =~= t.take(i));
}

proof fn lemma_mod_succ(a: int, n: int)
    requires
        n > 0,
    ensures
        (a + 1) % n == if a % n + 1 == n {
            0
        } else {
            a % n + 1
        },
{
    vstd::arithmetic::div_mod::lemma_fundamental_div_mod(a, n);
    let q = a / n;
    if a % n + 1 == n {
        assert(a + 1 == (q + 1) * n + 0) by (nonlinear_arith)
            requires
                a == n * q + a % n,
                a % n + 1 == n,
        ;
        vstd::arithmetic::div_mod::lemma_fundamental_div_mod_converse(a + 1, n, q + 1, 0);
    } else {
        assert(a + 1 == q * n + (a % n + 1)) by (nonlinear_arith)
            requires
                a == n * q + a % n,
        ;
        vstd::arithmetic::div_mod::lemma_fundamental_div_mod_converse(a + 1, n, q, a % n + 1);
    }
}

/// The shifts of the ASCII letters of `key`, in order.
fn key_digits(key: &str) -> (r: Vec<u8>)
    ensures
        r@.len() == key_shifts(key@).len(),
        forall|i: int| 0 <= i < r@.len() ==> #[trigger] r@[i] as int == key_shifts(key@)[i],
        forall|i: int| 0 <= i < r@.len() ==> #[trigger] r@[i] < 26,
{
    let mut digits: Vec<u8> = Vec::new();
    let ghost mut seen: Seq<char> = Seq::empty();
    for ch in it: key.chars()
        invariant
            it.seq() == key@,
            seen == key@.take(it.index() as int),
            digits@.len() == key_shifts(it.seq().take(it.index() as int)).len(),
            forall|i: int|
                0 <= i < digits@.len() ==> #[trigger] digits@[i] as int == key_shifts(
                    it.seq().take(it.index() as int),
                )[i],
            forall|i: int| 0 <= i < digits@.len() ==> #[trigger] digits@[i] < 26,
    {
        let ghost done = it.seq().take(it.index() as int);
        assert(it.seq().take(it.index() + 1).drop_last() =~= done);
        if is_ascii_letter(ch) {
            digits.push(letter_offset(ch));
        }
        assert(key_shifts(it.seq().take(it.index() + 1)) == if is_letter(ch) {
            key_shifts(done).push(letter_index(ch))
        } else {
            key_shifts(done)
        });
        proof {
            seen = seen.push(ch);
        }
    }
    assert(seen =~= key@);
    digits
}

/// Applies the Vigenère cipher with `key` to `text`: encrypts when `encrypt`
/// holds, decrypts otherwise. Only the ASCII letters of `key` count, and only
/// the ASCII letters of `text` change, each using up one of them in turn.
pub fn vigenere(text: &str, key: &str, encrypt: bool) -> (r: String)
    ensures
        r@ == vigenere_text(text@, key@, encrypt),
{
    let digits = key_digits(key);
    if digits.len() == 0 {
        return text.to_owned();
    }
    let ghost ks = key_shifts(key@);
    let n = digits.len();
    let mut out = String::new();
    let mut j: usize = 0;
    assert(text@.take(0) =~= Seq::<char>::empty());
    for ch in it: text.chars()
        invariant
            it.seq() == text@,
            n == digits@.len(),
            n == ks.len(),
            n > 0,
            ks == key_shifts(key@),
            forall|i: int| 0 <= i < n ==> #[trigger] digits@[i] as int == ks[i],
            forall|i: int| 0 <= i < n ==> #[trigger] digits@[i] < 26,
            j == letter_count(text@.take(it.index() as int)) as int % n as int,
            out@.len() == it.index(),
            forall|m: int| 0 <= m < it.index() ==> out@[m] == vigenere_char(text@, ks, encrypt, m),
    {
        let ghost i = it.index() as int;
        proof {
            lemma_letter_count_step(text@, i);
            lemma_mod_succ(letter_count(text@.take(i)) as int, n as int);
        }
        assert(ch == text@[i]);
        if is_ascii_letter(ch) {
            assert(j < n);
            let d = digits[j];
            let k: u8 = if encrypt {
                d
            } else {
                (26 - d) % 26
            };
            proof {
                lemma_rotate_back(ch, d as int);
            }
            out.push(rotate_letter(ch, k));
            j = if j + 1 == n {
                0
            } else {
                j + 1
            };
        } else {
            out.push(ch);
        }
    }
    assert(out@ =~= vigenere_text(text@, key@, encrypt));
    out
}

proof fn lemma_letter_count_same(a: Seq<char>, b: Seq<char>)
    requires
        a.len() == b.len(),
        forall|j: int| 0 <= j < a.len() ==> is_letter(#[trigger] a[j]) == is_letter(b[j]),
    ensures
        letter_count(a) == letter_count(b),
    decreases a.len(),
{
    if a.len() > 0 {
        lemma_letter_count_same(a.drop_last(), b.drop_last());
    }
}

/// A key without letters leaves the text unchanged, both ways.
pub proof fn lemma_vigenere_letterless_key(t: Seq<char>, k: Seq<char>)
    requires
        key_shifts(k).len() == 0,
    ensures
        vigenere_text(t, k, true) == t,
        vigenere_text(t, k, false) == t,
{
}

/// Decrypting with a key undoes encrypting with it.
pub proof fn lemma_vigenere_inverse(t: Seq<char>, k: Seq<char>)
    ensures
        vigenere_text(vigenere_text(t, k, true), k, false) == t,
{
    let ks = key_shifts(k);
    if ks.len() > 0 {
        let e = vigenere_text(t, k, true);
        assert forall|j: int| 0 <= j < t.len() implies is_letter(#[trigger] e[j]) == is_letter(
            t[j],
        ) by {
            if is_letter(t[j]) {
                lemma_rotate_letter(t[j], ks[letter_count(t.take(j)) as int % ks.len() as int]);
            }
        }
        assert forall|i: int| 0 <= i < t.len() implies vigenere_text(e, k, false)[i] == t[i] by {
            lemma_letter_count_same(e.take(i), t.take(i));
            lemma_rotate_inverse(t[i], ks[letter_count(t.take(i)) as int % ks.len() as int]);
        }
        assert(vigenere_text(e, k, false) =~= t);
    }
}

/// The request record for key `k` and text `m`:
/// `[length of key][key bytes][length of message][message bytes]`.
pub open spec fn request_wire(k: Seq<char>, m: Seq<char>) -> Seq<u8> {
    field_wire(utf8_of(k)) + field_wire(utf8_of(m))
}

/// The declared length of the key of the request that starts `b`.
pub open spec fn key_len(b: Seq<u8>) -> int {
    u64_at(b, 0) as int
}

/// The declared length of the message of the request that starts `b`.
pub open spec fn message_len(b: Seq<u8>) -> int {
    u64_at(b, 8 + key_len(b)) as int
}

/// How many more bytes a reader that holds `b` must take before the next
/// field of a request is complete; 0 once `b` holds a whole request.
pub open spec fn request_needed(b: Seq<u8>) -> int {
    if b.len() < 8 {
        8 - b.len()
    } else if b.len() - 8 < key_len(b) {
        key_len(b) - (b.len() - 8)
    } else if b.len() - 8 - key_len(b) < 8 {
        8 - (b.len() - 8 - key_len(b))
    } else if b.len() - 16 - key_len(b) < message_len(b) {
        message_len(b) - (b.len() - 16 - key_len(b))
    } else {
        0
    }
}

/// The key bytes of the request that starts `b`.
pub open spec fn request_key_bytes(b: Seq<u8>) -> Seq<u8> {
    b.subrange(8, 8 + key_len(b))
}

/// The message bytes of the whole request that starts `b`.
pub open spec fn request_message_bytes(b: Seq<u8>) -> Seq<u8> {
    b.subrange(16 + key_len(b), 16 + key_len(b) + message_len(b))
}

/// The request record that carries `key` and `message`.
pub fn encode_request(key: &str, message: &str) -> (r: Vec<u8>)
    ensures
        r@ == request_wire(key@, message@),
{
    let mut out: Vec<u8> = Vec::new();
    push_field(&mut out, key.as_bytes());
    push_field(&mut out, message.as_bytes());
    assert(out@ =~= request_wire(key@, message@));
    out
}

/// How many more bytes to read before the next field of the request whose
/// first bytes are `b` is complete; 0 once `b` holds the whole request.
pub fn request_bytes_needed(b: &[u8]) -> (r: u64)
    ensures
        r as int == request_needed(b@),
{
    let n = b.len() as u64;
    if n < 8 {
        return 8 - n;
    }
    let klen = read_u64_be(b, 0);
    let rest = n - 8;
    if rest < klen {
        return klen - rest;
    }
    let rest = rest - klen;
    if rest < 8 {
        return 8 - rest;
    }
    let at = 8 + klen as usize;
    let mlen = read_u64_be(b, at);
    let rest = rest - 8;
    if rest < mlen {
        mlen - rest
    } else {
        0
    }
}

/// Decodes the request that starts `b` into its key and its message, each
/// decoded lossily; `Truncated` where `b` ends before a declared field does.
pub fn decode_request(b: &[u8]) -> (r: Result<(String, String), FrameError>)
    ensures
        request_needed(b@) == 0 ==> r is Ok && r->Ok_0.0@ == lossy_text(request_key_bytes(b@))
            && r->Ok_0.1@ == lossy_text(request_message_bytes(b@)),
        request_needed(b@) == 0 && valid_utf8(request_key_bytes(b@)) ==> r->Ok_0.0@
            == decode_utf8(request_key_bytes(b@)),
        request_needed(b@) == 0 && valid_utf8(request_message_bytes(b@)) ==> r->Ok_0.1@
            == decode_utf8(request_message_bytes(b@)),
        request_needed(b@) != 0 ==> r == Err::<(String, String), FrameError>(FrameError::Truncated),
{
    if request_bytes_needed(b) != 0 {
        return Err(FrameError::Truncated);
    }
    let klen = read_u64_be(b, 0);
    let key = text_at(b, 8, klen);
    let n = b.len();
    assert(klen + 16 <= n);
    let at = 16 + klen as usize;
    let mlen = read_u64_be(b, at - 8);
    let message = text_at(b, at, mlen);
    Ok((key, message))
}

/// Answers one request: the response carries the request's message encrypted
/// with the request's key. `Truncated` where `request` does not hold a whole
/// request.
pub fn serve(request: &[u8]) -> (r: Result<Vec<u8>, FrameError>)
    ensures
        request_needed(request@) == 0 ==> r is Ok && r->Ok_0@ == response_wire(
            vigenere_text(
                lossy_text(request_message_bytes(request@)),
                lossy_text(request_key_bytes(request@)),
                true,
            ),
        ),
        request_needed(request@) != 0 ==> r == Err::<Vec<u8>, FrameError>(FrameError::Truncated),
{
    match decode_request(request) {
        Ok((key, message)) => Ok(
            encode_response(vigenere(message.as_str(), key.as_str(), true).as_str()),
        ),
        Err(e) => Err(e),
    }
}

/// Decoding an encoded request finds it whole, with the UTF-8 bytes of its key
/// and of its message, which decode back to the key and the message.
pub proof fn lemma_request_round_trip(k: Seq<char>, m: Seq<char>)
    requires
        utf8_of(k).len() <= u64::MAX,
        utf8_of(m).len() <= u64::MAX,
    ensures
        request_needed(request_wire(k, m)) == 0,
        request_key_bytes(request_wire(k, m)) == utf8_of(k),
        request_message_bytes(request_wire(k, m)) == utf8_of(m),
        decode_utf8(request_key_bytes(request_wire(k, m))) == k,
        decode_utf8(request_message_bytes(request_wire(k, m))) == m,
{
    let w = request_wire(k, m);
    let kb = utf8_of(k);
    let mb = utf8_of(m);
    let kl = kb.len() as int;
    assert(w.subrange(0, 8) =~= u64_be(kb.len() as u64));
    lemma_u64_at(w, 0, kb.len() as u64);
    assert(w.subrange(8 + kl, 16 + kl) =~= u64_be(mb.len() as u64));
    lemma_u64_at(w, 8 + kl, mb.len() as u64);
    assert(request_key_bytes(w) =~= kb);
    assert(request_message_bytes(w) =~= mb);
    vstd::utf8::encode_utf8_decode_utf8(k);
    vstd::utf8::encode_utf8_decode_utf8(m);
}

/// Every proper prefix of an encoded request still needs bytes, so it never
/// decodes as a request.
pub proof fn lemma_request_prefix_needs_more(k: Seq<char>, m: Seq<char>, j: int)
    requires
        utf8_of(k).len() <= u64::MAX,
        utf8_of(m).len() <= u64::MAX,
        0 <= j < request_wire(k, m).len(),
    ensures
        request_needed(request_wire(k, m).take(j)) > 0,
{
    let w = request_wire(k, m);
    let p = w.take(j);
    let kl = utf8_of(k).len() as int;
    if j >= 8 {
        assert(p.subrange(0, 8) =~= u64_be(kl as u64));
        lemma_u64_at(p, 0, kl as u64);
        if j >= 16 + kl {
            assert(p.subrange(8 + kl, 16 + kl) =~= u64_be(utf8_of(m).len() as u64));
            lemma_u64_at(p, 8 + kl, utf8_of(m).len() as u64);
        }
    }
}

} // verus!
