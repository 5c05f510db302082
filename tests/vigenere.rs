use cipher_ipc::frame::{decode_response, FrameError};
use cipher_ipc::vigenere_ipc::{
    decode_request, encode_request, request_bytes_needed, serve, vigenere,
};

#[test]
fn vigenere_lemon() {
    assert_eq!(vigenere("ATTACKATDAWN", "LEMON", true), "LXFOPVEFRNHR");
    assert_eq!(vigenere("LXFOPVEFRNHR", "LEMON", false), "ATTACKATDAWN");
}

#[test]
fn vigenere_server_answers_lemon() {
    let request = encode_request("LEMON", "ATTACKATDAWN");
    let response = serve(&request).unwrap();
    let enc = decode_response(&response).unwrap();
    assert_eq!(enc, "LXFOPVEFRNHR");
    assert_eq!(vigenere(&enc, "LEMON", false), "ATTACKATDAWN");
}

#[test]
fn vigenere_non_letters_take_no_key_digit() {
    // a + x(23) = x, then b + y(24) = z; the dot uses no key digit
    assert_eq!(vigenere("a.b", "xy", true), "x.z");
    assert_eq!(vigenere("x.z", "xy", false), "a.b");
}

#[test]
fn vigenere_key_is_case_insensitive_and_filtered() {
    assert_eq!(vigenere("attack at dawn", "LeMoN", true), "lxfopv ef rnhr");
    assert_eq!(vigenere("ATTACKATDAWN", "l-e m1o!n", true), "LXFOPVEFRNHR");
}

#[test]
fn vigenere_letterless_key_is_identity() {
    for k in ["", "1234", " !?"] {
        assert_eq!(vigenere("Hello, World", k, true), "Hello, World");
        assert_eq!(vigenere("Hello, World", k, false), "Hello, World");
    }
}

#[test]
fn vigenere_decrypt_undoes_encrypt() {
    let t = "The quick brown fox, 42 times — über!";
    for k in ["a", "LEMON", "zz", "Key With Spaces"] {
        assert_eq!(vigenere(&vigenere(t, k, true), k, false), t);
    }
}

#[test]
fn vigenere_empty_text() {
    assert_eq!(vigenere("", "KEY", true), "");
}

#[test]
fn vigenere_request_bytes() {
    let r = encode_request("k", "ab");
    assert_eq!(r, vec![0, 0, 0, 0, 0, 0, 0, 1, b'k', 0, 0, 0, 0, 0, 0, 0, 2, b'a', b'b']);
}

#[test]
fn vigenere_request_round_trip() {
    for (key, msg) in [("", ""), ("LEMON", "ATTACKATDAWN"), ("ключ", "é ✓")] {
        let r = encode_request(key, msg);
        assert_eq!(request_bytes_needed(&r), 0);
        assert_eq!(decode_request(&r), Ok((key.to_string(), msg.to_string())));
    }
}

#[test]
fn vigenere_request_reading_steps() {
    let r = encode_request("abc", "hello");
    assert_eq!(request_bytes_needed(&[]), 8);
    assert_eq!(request_bytes_needed(&r[..8]), 3);
    assert_eq!(request_bytes_needed(&r[..10]), 1);
    assert_eq!(request_bytes_needed(&r[..11]), 8);
    assert_eq!(request_bytes_needed(&r[..19]), 5);
    assert_eq!(request_bytes_needed(&r), 0);
}

#[test]
fn vigenere_short_request_is_truncated() {
    let r = encode_request("LEMON", "ATTACKATDAWN");
    for j in 0..r.len() {
        assert!(request_bytes_needed(&r[..j]) > 0);
        assert_eq!(decode_request(&r[..j]), Err(FrameError::Truncated));
        assert_eq!(serve(&r[..j]), Err(FrameError::Truncated));
    }
}

#[test]
fn vigenere_huge_declared_key_needs_more() {
    let r = vec![0xff; 8];
    assert_eq!(request_bytes_needed(&r), u64::MAX);
    assert_eq!(decode_request(&r), Err(FrameError::Truncated));
}
