use cipher_ipc::frame::{decode_response, encode_response, response_bytes_needed, FrameError};

#[test]
fn response_bytes() {
    assert_eq!(encode_response("ok"), vec![0, 0, 0, 0, 0, 0, 0, 2, b'o', b'k']);
    assert_eq!(encode_response(""), vec![0; 8]);
}

#[test]
fn response_round_trip() {
    for m in ["", "Dwwdfn dw gdzq", "naïve ✓"] {
        let r = encode_response(m);
        assert_eq!(response_bytes_needed(&r), 0);
        assert_eq!(decode_response(&r), Ok(m.to_string()));
    }
}

#[test]
fn response_short_is_truncated() {
    let r = encode_response("LXFOPVEFRNHR");
    assert_eq!(response_bytes_needed(&r[..5]), 3);
    assert_eq!(response_bytes_needed(&r[..10]), 10);
    for j in 0..r.len() {
        assert!(response_bytes_needed(&r[..j]) > 0);
        assert_eq!(decode_response(&r[..j]), Err(FrameError::Truncated));
    }
}

#[test]
fn response_invalid_utf8_is_replaced() {
    let r = vec![0, 0, 0, 0, 0, 0, 0, 4, b'o', 0xc3, 0x28, b'k'];
    assert_eq!(decode_response(&r), Ok("o\u{FFFD}(k".to_string()));
}

#[test]
fn response_ignores_bytes_after_the_record() {
    let mut r = encode_response("ab");
    r.push(b'!');
    assert_eq!(decode_response(&r), Ok("ab".to_string()));
}
