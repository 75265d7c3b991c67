use mame::codec::{encode_frame, encode_message, try_parse_frames};

fn bytes(s: &str) -> Vec<u8> {
    s.as_bytes().to_vec()
}

#[test]
fn round_trip_single_frame() {
    let body = bytes("{\"jsonrpc\":\"2.0\",\"id\":7,\"result\":null}");
    let framed = encode_frame(&body);
    let batch = try_parse_frames(&framed).expect("well-formed frame");
    assert_eq!(batch.consumed, framed.len());
    assert_eq!(batch.frames.len(), 1);
    assert_eq!(batch.frames[0], body);
}

#[test]
fn round_trip_empty_body() {
    let body: Vec<u8> = Vec::new();
    let framed = encode_frame(&body);
    assert_eq!(String::from_utf8(framed.clone()).unwrap(), "Content-Length:0\r\n\r\n");
    let batch = try_parse_frames(&framed).expect("well-formed frame");
    assert_eq!(batch.consumed, framed.len());
    assert_eq!(batch.frames, vec![body]);
}

#[test]
fn round_trip_body_with_crlf_inside() {
    let body = bytes("ab\r\n\r\ncd");
    let framed = encode_frame(&body);
    let batch = try_parse_frames(&framed).expect("well-formed frame");
    assert_eq!(batch.frames, vec![body]);
    assert_eq!(batch.consumed, framed.len());
}

#[test]
fn partial_delivery_every_split() {
    let body = bytes("{\"id\":1}");
    let framed = encode_frame(&body);
    for cut in 0..=framed.len() {
        // feed the first part, keep the unconsumed trailer, feed the rest
        let mut buffer: Vec<u8> = framed[..cut].to_vec();
        let first = try_parse_frames(&buffer).expect("prefix is never malformed");
        let mut collected = first.frames.clone();
        buffer.drain(..first.consumed);
        buffer.extend_from_slice(&framed[cut..]);
        let second = try_parse_frames(&buffer).expect("rest is never malformed");
        collected.extend(second.frames.clone());
        assert_eq!(collected, vec![body.clone()], "split at {cut}");
        assert_eq!(first.consumed + second.consumed, framed.len(), "split at {cut}");
    }
}

#[test]
fn two_frames_in_one_buffer() {
    let a = bytes("first");
    let b = bytes("second!");
    let mut wire = encode_frame(&a);
    wire.extend_from_slice(&encode_frame(&b));
    let batch = try_parse_frames(&wire).expect("well-formed frames");
    assert_eq!(batch.frames, vec![a, b]);
    assert_eq!(batch.consumed, wire.len());
}

#[test]
fn header_key_case_is_ignored() {
    for key in ["Content-Length", "content-length", "CONTENT-LENGTH", "cOnTeNt-LeNgTh"] {
        let wire = bytes(&format!("{key}:5\r\n\r\nhello"));
        let batch = try_parse_frames(&wire).expect("any casing is accepted");
        assert_eq!(batch.frames, vec![bytes("hello")], "key {key}");
        assert_eq!(batch.consumed, wire.len());
    }
}

#[test]
fn header_value_padding_is_ignored() {
    let wire = bytes("Content-Length: \t 5 \r\n\r\nhello");
    let batch = try_parse_frames(&wire).expect("padded value is accepted");
    assert_eq!(batch.frames, vec![bytes("hello")]);
}

#[test]
fn unknown_header_lines_are_skipped() {
    let wire = bytes("Content-Type: application/json\r\nContent-Length:2\r\n\r\nok");
    let batch = try_parse_frames(&wire).expect("extra headers are fine");
    assert_eq!(batch.frames, vec![bytes("ok")]);
}

#[test]
fn incomplete_frame_consumes_nothing() {
    let body = bytes("abcdef");
    let framed = encode_frame(&body);
    let partial: Vec<u8> = framed[..framed.len() - 1].to_vec();
    let batch = try_parse_frames(&partial).expect("incomplete is not malformed");
    assert_eq!(batch.frames.len(), 0);
    assert_eq!(batch.consumed, 0);
}

#[test]
fn blank_line_without_length_is_malformed() {
    let wire = bytes("Content-Type: text\r\n\r\nxx");
    assert!(try_parse_frames(&wire).is_none());
}

#[test]
fn non_numeric_length_is_malformed() {
    let wire = bytes("Content-Length: five\r\n\r\nhello");
    assert!(try_parse_frames(&wire).is_none());
}

#[test]
fn empty_length_value_is_malformed() {
    let wire = bytes("Content-Length: \r\n\r\nhello");
    assert!(try_parse_frames(&wire).is_none());
}

#[test]
fn oversized_length_value_is_malformed() {
    let wire = bytes("Content-Length:99999999999999999999999999\r\n\r\nhello");
    assert!(try_parse_frames(&wire).is_none());
}

#[test]
fn request_envelope_shape() {
    let method = bytes("initialize");
    let params = bytes("{\"a\":1}");
    let framed = encode_message(&method, Some(42), &params);
    let batch = try_parse_frames(&framed).expect("well-formed frame");
    assert_eq!(batch.frames.len(), 1);
    let body = String::from_utf8(batch.frames[0].clone()).unwrap();
    assert_eq!(body, "{\"jsonrpc\":\"2.0\",\"method\":\"initialize\",\"id\":42,\"params\":{\"a\":1}}");
}

#[test]
fn notification_envelope_has_no_id() {
    let method = bytes("initialized");
    let params = bytes("null");
    let framed = encode_message(&method, None, &params);
    let batch = try_parse_frames(&framed).expect("well-formed frame");
    let body = String::from_utf8(batch.frames[0].clone()).unwrap();
    assert_eq!(body, "{\"jsonrpc\":\"2.0\",\"method\":\"initialized\",\"params\":null}");
}
