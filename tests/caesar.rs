use cipher_ipc::caesar_ipc::{
    caesar, caesar_decrypt, decode_request, encode_request, request_bytes_needed, serve,
};
use cipher_ipc::frame::{decode_response, FrameError};

#[test]
fn caesar_attack_at_dawn() {
    let enc = caesar("Attack at dawn", 3);
    assert_eq!(enc, "Dwwdfn dw gdzq");
    assert_eq!(caesar(&enc, -3), "Attack at dawn");
    assert_eq!(caesar_decrypt(&enc, 3), "Attack at dawn");
}

#[test]
fn caesar_server_answers_attack_at_dawn() {
    let request = encode_request(3, "Attack at dawn");
    let response = serve(&request).unwrap();
    let enc = decode_response(&response).unwrap();
    assert_eq!(enc, "Dwwdfn dw gdzq");
    assert_eq!(caesar_decrypt(&enc, 3), "Attack at dawn");
}

#[test]
fn caesar_wraps_around_the_alphabet() {
    assert_eq!(caesar("xyz XYZ", 3), "abc ABC");
    assert_eq!(caesar("abc", -1), "zab");
    assert_eq!(caesar("abc", 0), "abc");
    assert_eq!(caesar("abc", 26), "abc");
}

#[test]
fn caesar_undoes_itself_with_opposite_shift() {
    let t = "TheQuickBrownFoxJumpsOverTheLazyDog";
    for s in [-100i64, -27, -26, -1, 0, 1, 13, 25, 26, 27, 1000, i64::MAX] {
        assert_eq!(caesar(&caesar(t, s), -s), t);
        assert_eq!(caesar_decrypt(&caesar(t, s), s), t);
    }
}

#[test]
fn caesar_extreme_shifts() {
    // i64::MIN is -2^63, which leaves 18 when taken modulo 26
    assert_eq!(caesar("a", i64::MIN), "s");
    assert_eq!(caesar_decrypt("s", i64::MIN), "a");
    // i64::MAX is 2^63 - 1, which leaves 7
    assert_eq!(caesar("a", i64::MAX), "h");
}

#[test]
fn caesar_keeps_length_case_and_other_characters() {
    let t = "Hello, World! 123 é ß";
    let r = caesar(t, 5);
    assert_eq!(r, "Mjqqt, Btwqi! 123 é ß");
    assert_eq!(r.chars().count(), t.chars().count());
    for (a, b) in t.chars().zip(r.chars()) {
        assert_eq!(a.is_ascii_uppercase(), b.is_ascii_uppercase());
        assert_eq!(a.is_ascii_lowercase(), b.is_ascii_lowercase());
        if !a.is_ascii_alphabetic() {
            assert_eq!(a, b);
        }
    }
}

#[test]
fn caesar_shift_is_taken_modulo_26() {
    let t = "Some Text, with Letters";
    for s in [-53i64, -3, 0, 7, 40] {
        assert_eq!(caesar(t, s), caesar(t, s + 26));
        assert_eq!(caesar(t, s), caesar(t, s - 26));
    }
}

#[test]
fn caesar_empty_text() {
    assert_eq!(caesar("", 5), "");
}

#[test]
fn caesar_request_bytes() {
    let r = encode_request(-2, "hi");
    assert_eq!(
        r,
        vec![0, 0, 0, 0, 0, 0, 0, 2, 0xff, 0xff, 0xff, 0xff, 0xff, 0xff, 0xff, 0xfe, b'h', b'i']
    );
}

#[test]
fn caesar_request_round_trip() {
    for (shift, msg) in [(0i64, ""), (3, "Attack at dawn"), (i64::MIN, "é ✓"), (i64::MAX, "x")] {
        let r = encode_request(shift, msg);
        assert_eq!(request_bytes_needed(&r), 0);
        assert_eq!(decode_request(&r), Ok((shift, msg.to_string())));
    }
}

#[test]
fn caesar_request_reading_steps() {
    let r = encode_request(7, "abcd");
    assert_eq!(request_bytes_needed(&[]), 8);
    assert_eq!(request_bytes_needed(&r[..3]), 5);
    assert_eq!(request_bytes_needed(&r[..8]), 8);
    assert_eq!(request_bytes_needed(&r[..16]), 4);
    assert_eq!(request_bytes_needed(&r[..18]), 2);
    assert_eq!(request_bytes_needed(&r), 0);
}

#[test]
fn caesar_short_request_is_truncated() {
    let r = encode_request(3, "Attack at dawn");
    for j in 0..r.len() {
        assert!(request_bytes_needed(&r[..j]) > 0);
        assert_eq!(decode_request(&r[..j]), Err(FrameError::Truncated));
        assert_eq!(serve(&r[..j]), Err(FrameError::Truncated));
    }
}

#[test]
fn caesar_invalid_utf8_message_is_decoded_lossily() {
    let mut r = vec![0, 0, 0, 0, 0, 0, 0, 3, 0, 0, 0, 0, 0, 0, 0, 1];
    r.extend_from_slice(&[b'a', 0xff, b'b']);
    assert_eq!(decode_request(&r), Ok((1, "a\u{FFFD}b".to_string())));
    let response = serve(&r).unwrap();
    assert_eq!(decode_response(&response).unwrap(), "b\u{FFFD}c");
}
