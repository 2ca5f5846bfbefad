use websocket_adapter::envelope::{envelope_from_fields, frame};
use websocket_adapter::{decode, encode, DecodeError, Envelope};

fn envelope(tag: &str, payload: &[u8]) -> Envelope {
    Envelope::new(tag, payload.to_vec()).expect("a tag that is not empty")
}

#[test]
fn decode_reads_tag_and_payload() {
    let decoded = decode(br#"{"message_type":"ping","payload":{}}"#).unwrap();
    assert_eq!(decoded.message_type(), "ping");
    assert_eq!(decoded.payload(), b"{}");
}

#[test]
fn decode_accepts_any_member_order_and_spacing() {
    let decoded = decode(b" { \"payload\" : { \"n\" : 1 } ,\n \"message_type\" : \"move\" } ");
    assert_eq!(decoded, Ok(envelope("move", br#"{"n":1}"#)));
}

#[test]
fn decode_keeps_the_payload_whatever_its_shape() {
    assert_eq!(
        decode(br#"{"message_type":"t","payload":[1, 2, 3]}"#),
        Ok(envelope("t", b"[1,2,3]"))
    );
    assert_eq!(
        decode(br#"{"message_type":"t","payload":"hi"}"#),
        Ok(envelope("t", br#""hi""#))
    );
    assert_eq!(
        decode(br#"{"message_type":"t","payload":null}"#),
        Ok(envelope("t", b"null"))
    );
    assert_eq!(
        decode(br#"{"message_type":"t","payload":{"a":{"b":[true,false]}}}"#),
        Ok(envelope("t", br#"{"a":{"b":[true,false]}}"#))
    );
}

#[test]
fn decode_ignores_other_members() {
    assert_eq!(
        decode(br#"{"id":7,"message_type":"ping","payload":{},"z":null}"#),
        Ok(envelope("ping", b"{}"))
    );
}

#[test]
fn decode_unescapes_the_tag() {
    let decoded = decode(br#"{"message_type":"a\"b\\cA","payload":0}"#).unwrap();
    assert_eq!(decoded.message_type(), "a\"b\\cA");
}

#[test]
fn decode_rejects_truncated_input() {
    assert_eq!(decode(br#"{"message_type":"ping","payload":{}"#), Err(DecodeError::Malformed));
    assert_eq!(decode(br#"{"message_type":"pi"#), Err(DecodeError::Malformed));
    assert_eq!(decode(b""), Err(DecodeError::Malformed));
}

#[test]
fn decode_rejects_trailing_input() {
    assert_eq!(
        decode(br#"{"message_type":"ping","payload":{}} x"#),
        Err(DecodeError::Malformed)
    );
}

#[test]
fn decode_rejects_wrong_structure() {
    assert_eq!(decode(b"[]"), Err(DecodeError::Malformed));
    assert_eq!(decode(br#"["ping",{}]"#), Err(DecodeError::Malformed));
    assert_eq!(decode(br#""ping""#), Err(DecodeError::Malformed));
    assert_eq!(decode(b"42"), Err(DecodeError::Malformed));
    assert_eq!(decode(b"{}"), Err(DecodeError::Malformed));
    assert_eq!(decode(br#"{"payload":{}}"#), Err(DecodeError::Malformed));
    assert_eq!(decode(br#"{"message_type":"ping"}"#), Err(DecodeError::Malformed));
    assert_eq!(decode(br#"{"message_type":7,"payload":{}}"#), Err(DecodeError::Malformed));
    assert_eq!(decode(br#"{"message_type":null,"payload":{}}"#), Err(DecodeError::Malformed));
}

#[test]
fn decode_rejects_invalid_text_encoding() {
    let mut bytes = br#"{"message_type":"pi"#.to_vec();
    bytes.push(0xff);
    bytes.extend_from_slice(br#"ng","payload":{}}"#);
    assert_eq!(decode(&bytes), Err(DecodeError::Malformed));
    assert_eq!(decode(&[0xff, 0xfe, 0x00]), Err(DecodeError::Malformed));
}

#[test]
fn decode_rejects_the_empty_tag() {
    assert_eq!(decode(br#"{"message_type":"","payload":{}}"#), Err(DecodeError::Malformed));
}

#[test]
fn envelope_needs_a_tag() {
    assert_eq!(Envelope::new("", b"{}".to_vec()), None);
    let made = Envelope::new("ping", b"{}".to_vec()).unwrap();
    assert_eq!(made.message_type(), "ping");
    assert_eq!(made.payload(), b"{}");
    assert_eq!(made.into_payload(), b"{}".to_vec());
}

#[test]
fn envelope_from_fields_needs_both_members() {
    assert_eq!(
        envelope_from_fields(Some("ping"), Some(b"{}".to_vec())),
        Ok(envelope("ping", b"{}"))
    );
    assert_eq!(envelope_from_fields(None, Some(b"{}".to_vec())), Err(DecodeError::Malformed));
    assert_eq!(envelope_from_fields(Some("ping"), None), Err(DecodeError::Malformed));
    assert_eq!(envelope_from_fields(None, None), Err(DecodeError::Malformed));
    assert_eq!(envelope_from_fields(Some(""), Some(b"{}".to_vec())), Err(DecodeError::Malformed));
}

#[test]
fn frame_places_tag_and_payload() {
    assert_eq!(
        frame(br#""ping""#, b"{}"),
        br#"{"message_type":"ping","payload":{}}"#.to_vec()
    );
    assert_eq!(frame(b"", b""), br#"{"message_type":,"payload":}"#.to_vec());
}

#[test]
fn encode_frames_tag_and_payload() {
    assert_eq!(encode("ping", b"{}"), br#"{"message_type":"ping","payload":{}}"#.to_vec());
    assert_eq!(
        encode("move", br#"{"x":1,"y":-2}"#),
        br#"{"message_type":"move","payload":{"x":1,"y":-2}}"#.to_vec()
    );
}

#[test]
fn encode_quotes_the_tag() {
    assert_eq!(
        encode("a\"b\\c\n", b"1"),
        br#"{"message_type":"a\"b\\c\n","payload":1}"#.to_vec()
    );
    assert_eq!(
        encode("h\u{e9}", b"1"),
        "{\"message_type\":\"h\u{e9}\",\"payload\":1}".as_bytes().to_vec()
    );
}

#[test]
fn encode_then_decode_gives_the_envelope_back() {
    let tags = ["ping", "pong", "chat.message", "a\"b\\c", "h\u{e9}llo \u{1F600}", " ", "\t\n"];
    let payloads: [&[u8]; 7] = [
        b"{}",
        b"null",
        b"[]",
        b"-12",
        br#""text with \"quotes\"""#,
        br#"{"a":[1,2,{"b":null}],"c":"d"}"#,
        b"[true,false]",
    ];
    for tag in tags {
        for payload in payloads {
            let decoded = decode(&encode(tag, payload));
            assert_eq!(decoded, Ok(envelope(tag, payload)));
        }
    }
}

#[test]
fn encode_gives_a_frame_that_does_not_decode_for_a_payload_that_is_no_json() {
    assert_eq!(
        encode("ping", b"not json"),
        br#"{"message_type":"ping","payload":not json}"#.to_vec()
    );
    assert_eq!(decode(&encode("ping", b"not json")), Err(DecodeError::Malformed));
    assert_eq!(decode(&encode("ping", b"")), Err(DecodeError::Malformed));
}

#[test]
fn encode_of_the_empty_tag_does_not_decode() {
    assert_eq!(encode("", b"{}"), br#"{"message_type":"","payload":{}}"#.to_vec());
    assert_eq!(decode(&encode("", b"{}")), Err(DecodeError::Malformed));
}

#[test]
fn decode_gives_the_payload_in_compact_form() {
    let decoded = decode(&encode("ping", b" { \"a\" : 1 } ")).unwrap();
    assert_eq!(decoded.payload(), br#"{"a":1}"#);
}
