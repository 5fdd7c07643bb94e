use nf_tunnel::protocol::{
    Data, Protocol, ProtocolArgs, ProtocolForwardStartArgs, ProtocolHeader, ProtocolHeaderType,
};

fn str_args(s: &str) -> Option<ProtocolArgs> {
    Some(ProtocolArgs::Str(s.to_string()))
}

#[test]
fn test_header_encoding_is_byte_exact() {
    let header = ProtocolHeader {
        version: 1,
        p_type: ProtocolHeaderType::ForwardStart,
        args_len: 5,
        body_len: 10,
    };
    let bytes = header.to_bytes();
    assert_eq!(
        bytes,
        vec![0x01, 0x01, 0x00, 0x00, 0x00, 0x05, 0x00, 0x00, 0x00, 0x00, 0x00, 0x00, 0x00, 0x0A]
    );
}

#[test]
fn test_header_round_trip() {
    let header = ProtocolHeader {
        version: 1,
        p_type: ProtocolHeaderType::ForwardDataRes,
        args_len: 0x01020304,
        body_len: 0x0102030405060708,
    };
    let parsed = ProtocolHeader::try_from_bytes(&header.to_bytes()).unwrap();
    assert_eq!(parsed.version, 1);
    assert!(matches!(parsed.p_type, ProtocolHeaderType::ForwardDataRes));
    assert_eq!(parsed.args_len, 0x01020304);
    assert_eq!(parsed.body_len, 0x0102030405060708);
}

#[test]
fn test_header_too_short() {
    assert!(ProtocolHeader::try_from_bytes(&vec![1, 2, 3]).is_err());
}

#[test]
fn test_unknown_type_decodes_to_none() {
    assert!(matches!(ProtocolHeaderType::from_code(0x7f), ProtocolHeaderType::NoneType));
    assert!(matches!(ProtocolHeaderType::from_code(0x00), ProtocolHeaderType::NoneType));
    assert_eq!(ProtocolHeaderType::ForwardEndRes.code(), 0x83);
    // a response code is its request code plus 0x80
    assert_eq!(
        ProtocolHeaderType::ForwardStart.code() + 0x80,
        ProtocolHeaderType::ForwardStartRes.code()
    );
    assert_eq!(
        ProtocolHeaderType::ForwardData.code() + 0x80,
        ProtocolHeaderType::ForwardDataRes.code()
    );
    assert_eq!(
        ProtocolHeaderType::ForwardEnd.code() + 0x80,
        ProtocolHeaderType::ForwardEndRes.code()
    );
}

#[test]
fn test_frame_round_trip_with_string_args_and_body() {
    let frame = Protocol::new(
        ProtocolHeaderType::ForwardDataRes,
        str_args("hello args"),
        Some(vec![1, 2, 3, 4, 5]),
    );
    let bytes = frame.to_bytes();
    let (parsed, used) = Protocol::from_bytes(&bytes).unwrap();
    assert_eq!(used, bytes.len());
    assert_eq!(parsed.header.version, 1);
    assert!(matches!(parsed.header.p_type, ProtocolHeaderType::ForwardDataRes));
    assert_eq!(parsed.header.args_len, 10);
    assert_eq!(parsed.header.body_len, 5);
    match parsed.args {
        Some(ProtocolArgs::Str(s)) => assert_eq!(s, "hello args"),
        _ => panic!("args did not round trip"),
    }
    assert_eq!(parsed.body, Some(vec![1, 2, 3, 4, 5]));
}

#[test]
fn test_frame_round_trip_without_args_or_body() {
    let frame = Protocol::new(ProtocolHeaderType::ForwardEnd, None, None);
    let bytes = frame.to_bytes();
    assert_eq!(bytes.len(), 14);
    let (parsed, used) = Protocol::from_bytes(&bytes).unwrap();
    assert_eq!(used, 14);
    assert!(parsed.args.is_none());
    assert!(parsed.body.is_none());
}

#[test]
fn test_frame_round_trip_with_handshake_args() {
    let arg = ProtocolForwardStartArgs {
        target_address: "10.0.0.9:4000".to_string(),
        link_address: vec!["X:1".to_string(), "Y:2".to_string()],
    };
    let frame = Protocol::new(
        ProtocolHeaderType::ForwardStart,
        Some(ProtocolArgs::ForwardStart(arg)),
        None,
    );
    let bytes = frame.to_bytes();
    let (parsed, _) = Protocol::from_bytes(&bytes).unwrap();
    match parsed.args {
        Some(ProtocolArgs::ForwardStart(a)) => {
            assert_eq!(a.target_address, "10.0.0.9:4000");
            assert_eq!(a.link_address, vec!["X:1".to_string(), "Y:2".to_string()]);
        },
        _ => panic!("handshake args did not round trip"),
    }
}

#[test]
fn test_handshake_args_with_escapes_round_trip() {
    let arg = ProtocolForwardStartArgs {
        target_address: "a\"b\\c\nd\te\u{1}f".to_string(),
        link_address: vec![],
    };
    let encoded = arg.to_json_bytes();
    let decoded = ProtocolForwardStartArgs::from_json_bytes(&encoded).unwrap();
    assert_eq!(decoded.target_address, "a\"b\\c\nd\te\u{1}f");
    assert!(decoded.link_address.is_empty());
}

#[test]
fn test_handshake_json_is_the_expected_text() {
    let arg = ProtocolForwardStartArgs {
        target_address: "t:9".to_string(),
        link_address: vec!["a:1".to_string(), "b:2".to_string()],
    };
    let encoded = arg.to_json_bytes();
    assert_eq!(
        String::from_utf8(encoded).unwrap(),
        "{\"target_address\":\"t:9\",\"link_address\":[\"a:1\",\"b:2\"]}"
    );
}

#[test]
fn test_handshake_json_interops_with_serde() {
    let arg = ProtocolForwardStartArgs {
        target_address: "t:9".to_string(),
        link_address: vec!["a:1".to_string()],
    };
    let encoded = arg.to_json_bytes();
    let value: serde_json::Value = serde_json::from_slice(&encoded).unwrap();
    assert_eq!(value["target_address"], "t:9");
    assert_eq!(value["link_address"][0], "a:1");
}

#[test]
fn test_malformed_handshake_args_fail() {
    let frame = Protocol::new(
        ProtocolHeaderType::ForwardStart,
        str_args("{\"unexpected\":true}"),
        None,
    );
    // the args bytes are not a handshake object, so reading fails
    let bytes = frame.to_bytes();
    assert!(Protocol::from_bytes(&bytes).is_err());
}

#[test]
fn test_invalid_utf8_args_fail() {
    let frame = Protocol::new(ProtocolHeaderType::ForwardData, str_args("abcd"), None);
    let mut bytes = frame.to_bytes();
    bytes[14] = 0xff;
    bytes[15] = 0xfe;
    assert!(Protocol::from_bytes(&bytes).is_err());
}

#[test]
fn test_incomplete_frame_fails() {
    let frame = Protocol::new(
        ProtocolHeaderType::ForwardData,
        None,
        Some(vec![9; 100]),
    );
    let mut bytes = frame.to_bytes();
    bytes.truncate(50);
    assert!(Protocol::from_bytes(&bytes).is_err());
}

#[test]
fn test_status_envelope_encoding() {
    let data = Data::default();
    assert_eq!(
        String::from_utf8(data.to_json_bytes()).unwrap(),
        "{\"code\":0,\"msg\":\"\",\"data\":null}"
    );
}

#[test]
fn test_status_envelope_round_trip() {
    let mut data = Data::default();
    data.update_error(-3, "dial failed: \"refused\"".to_string());
    let encoded = data.to_json_bytes();
    let decoded = Data::from_json_bytes(&encoded).unwrap();
    assert_eq!(decoded.code, -3);
    assert_eq!(decoded.msg, "dial failed: \"refused\"");
    assert_eq!(decoded.data, b"null".to_vec());
}

#[test]
fn test_status_envelope_with_nested_data() {
    let text = b"{\"code\":7,\"msg\":\"m\",\"data\":{\"xs\":[1,2.5,true,\"s\"],\"o\":{}}}".to_vec();
    let decoded = Data::from_json_bytes(&text).unwrap();
    assert_eq!(decoded.code, 7);
    assert_eq!(decoded.msg, "m");
    assert_eq!(decoded.data, b"{\"xs\":[1,2.5,true,\"s\"],\"o\":{}}".to_vec());
}

#[test]
fn test_status_envelope_code_overflow_fails() {
    let text = b"{\"code\":99999999999,\"msg\":\"\",\"data\":null}".to_vec();
    assert!(Data::from_json_bytes(&text).is_err());
}

#[test]
fn test_status_envelope_interops_with_serde() {
    let mut data = Data::default();
    data.update_error(1, "the link nodes is None.".to_string());
    let value: serde_json::Value = serde_json::from_slice(&data.to_json_bytes()).unwrap();
    assert_eq!(value["code"], 1);
    assert_eq!(value["msg"], "the link nodes is None.");
    assert!(value["data"].is_null());
}

#[test]
fn test_status_envelope_rejects_trailing_bytes() {
    let text = b"{\"code\":0,\"msg\":\"\",\"data\":null}x".to_vec();
    assert!(Data::from_json_bytes(&text).is_err());
}

#[test]
fn test_serde_encoded_handshake_decodes() {
    // the exact text a serde-derive peer emits for this payload, with its
    // short escapes, decodes to the same strings
    let bytes = b"{\"target_address\":\"a\\\"b\\\\c\\nd\",\"link_address\":[\"X:1\"]}".to_vec();
    let decoded = ProtocolForwardStartArgs::from_json_bytes(&bytes).unwrap();
    assert_eq!(decoded.target_address, "a\"b\\c\nd");
    assert_eq!(decoded.link_address, vec!["X:1".to_string()]);
}

#[test]
fn test_unicode_escape_decodes_to_ascii() {
    let bytes = b"{\"target_address\":\"\\u0041\\u002f\",\"link_address\":[]}".to_vec();
    let decoded = ProtocolForwardStartArgs::from_json_bytes(&bytes).unwrap();
    assert_eq!(decoded.target_address, "A/");
}

#[test]
fn test_unicode_escapes_decode_across_the_bmp() {
    // two-byte and three-byte encodings
    let bytes = b"{\"target_address\":\"\\u00e9\\u20ac\",\"link_address\":[]}".to_vec();
    let decoded = ProtocolForwardStartArgs::from_json_bytes(&bytes).unwrap();
    assert_eq!(decoded.target_address, "\u{e9}\u{20ac}");
}

#[test]
fn test_unicode_surrogate_escape_is_rejected() {
    let bytes = b"{\"target_address\":\"\\ud83d\\ude00\",\"link_address\":[]}".to_vec();
    assert!(ProtocolForwardStartArgs::from_json_bytes(&bytes).is_err());
}
