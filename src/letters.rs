//! ASCII letters and their rotation within a 26-letter alphabet.
use vstd::prelude::*;

verus! {

/// An ASCII capital, `A`-`Z`.
pub open spec fn is_upper(c: char) -> bool {
    'A' as u32 <= c as u32 <= 'Z' as u32
}

/// An ASCII small letter, `a`-`z`.
pub open spec fn is_lower(c: char) -> bool {
    'a' as u32 <= c as u32 <= 'z' as u32
}

/// An ASCII letter, `A`-`Z` or `a`-`z`.
pub open spec fn is_letter(c: char) -> bool {
    is_upper(c) || is_lower(c)
}

/// The code of the first letter of `c`'s alphabet.
pub open spec fn case_base(c: char) -> int {
    if is_upper(c) {
        'A' as int
    } else {
        'a' as int
    }
}

/// The position of letter `c` in its alphabet, 0 for `a` or `A`.
pub open spec fn letter_index(c: char) -> int {
    c as int - case_base(c)
}

/// `c` moved `k` places forward in its alphabet, wrapping around; a character
/// that is not a letter is left as it is.
pub open spec fn rotate(c: char, k: int) -> char {
    if is_letter(c) {
        (case_base(c) + (letter_index(c) + k) % 26) as char
    } else {
        c
    }
}

/// A letter stays a letter of the same case, and moves only within its
/// alphabet.
pub proof fn lemma_rotate_letter(c: char, k: int)
    requires
        is_letter(c),
    ensures
        is_upper(rotate(c, k)) == is_upper(c),
        is_lower(rotate(c, k)) == is_lower(c),
        case_base(rotate(c, k)) == case_base(c),
        letter_index(rotate(c, k)) == (letter_index(c) + k) % 26,
{
}

/// Moving back by `k` places undoes moving forward by `k` places.
pub proof fn lemma_rotate_inverse(c: char, k: int)
    ensures
        rotate(rotate(c, k), -k) == c,
{
    if is_letter(c) {
        lemma_rotate_letter(c, k);
        let i = letter_index(c);
        vstd::arithmetic::div_mod::lemma_fundamental_div_mod(i + k, 26);
        let q = (i + k) / 26;
        vstd::arithmetic::div_mod::lemma_fundamental_div_mod_converse(
            (i + k) % 26 - k,
            26,
            -q,
            i,
        );
    }
}

/// Shifts that differ by 26 move a character alike.
pub proof fn lemma_rotate_period(c: char, k: int)
    ensures
        rotate(c, k + 26) == rotate(c, k),
{
    vstd::arithmetic::div_mod::lemma_mod_add_multiples_vanish(letter_index(c) + k, 26);
}

/// Shifts that leave the same remainder by 26 move a character alike.
pub proof fn lemma_rotate_congruent(c: char, k: int, l: int)
    requires
        k % 26 == l % 26,
    ensures
        rotate(c, k) == rotate(c, l),
{
    vstd::arithmetic::div_mod::lemma_add_mod_noop(letter_index(c), k, 26);
    vstd::arithmetic::div_mod::lemma_add_mod_noop(letter_index(c), l, 26);
}

/// Moving forward by `26 - d` places is moving back by `d`.
pub proof fn lemma_rotate_back(c: char, d: int)
    requires
        0 <= d < 26,
    ensures
        rotate(c, (26 - d) % 26) == rotate(c, -d),
{
    if d > 0 {
        vstd::arithmetic::div_mod::lemma_fundamental_div_mod_converse(26 - d, 26, 0, 26 - d);
        vstd::arithmetic::div_mod::lemma_mod_add_multiples_vanish(letter_index(c) - d, 26);
    }
}

/// Tells whether `c` is an ASCII letter.
pub fn is_ascii_letter(c: char) -> (r: bool)
    ensures
        r == is_letter(c),
{
    let u = c as u32;
    (0x41u32 <= u && u <= 0x5Au32) || (0x61u32 <= u && u <= 0x7Au32)
}

/// The position of letter `c` in its alphabet.
pub fn letter_offset(c: char) -> (r: u8)
    requires
        is_letter(c),
    ensures
        r as int == letter_index(c),
        r < 26,
{
    let u = c as u32;
    let off: u32 = if u <= 0x5Au32 { u - 0x41u32 } else { u - 0x61u32 };
    off as u8
}

/// Moves letter `c` forward by `k` places, `0 <= k < 26`.
pub fn rotate_letter(c: char, k: u8) -> (r: char)
    requires
        is_letter(c),
        k < 26,
    ensures
        r == rotate(c, k as int),
{
    let u = c as u32;
    let base: u32 = if u <= 0x5Au32 { 0x41u32 } else { 0x61u32 };
    let off: u32 = (u - base + k as u32) % 26;
    let r = (base + off) as u8 as char;
    r
}

} // verus!
