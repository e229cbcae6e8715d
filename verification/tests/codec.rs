use hybridconsensus::codec::{encode_request_json, parse_u64};

fn serde_json_request(timestamp: u64, client_id: &str, operation: &[u8]) -> String {
    format!(
        "{{\"timestamp\":{},\"client_id\":{},\"operation\":{}}}",
        timestamp,
        serde_json::to_string(client_id).unwrap(),
        serde_json::to_string(&operation.to_vec()).unwrap()
    )
}

#[test]
fn request_json_is_compact_serde_json() {
    let out = encode_request_json(1, "client1", &[1, 2, 3]);
    assert_eq!(
        String::from_utf8(out).unwrap(),
        r#"{"timestamp":1,"client_id":"client1","operation":[1,2,3]}"#
    );
    let out = encode_request_json(0, "", &[]);
    assert_eq!(String::from_utf8(out).unwrap(), r#"{"timestamp":0,"client_id":"","operation":[]}"#);
}

#[test]
fn request_json_escapes_like_serde_json() {
    let id = "q\"b\\s/\u{8}\u{9}\n\u{c}\r\u{1}\u{1f}\u{7f}é€";
    let op = [0u8, 9, 10, 99, 100, 255];
    let out = encode_request_json(18446744073709551615, id, &op);
    assert_eq!(String::from_utf8(out).unwrap(), serde_json_request(u64::MAX, id, &op));
}

#[test]
fn parse_reads_unsigned_decimals() {
    assert_eq!(parse_u64("0"), Some(0));
    assert_eq!(parse_u64("42"), Some(42));
    assert_eq!(parse_u64("+7"), Some(7));
    assert_eq!(parse_u64("007"), Some(7));
    assert_eq!(parse_u64("18446744073709551615"), Some(u64::MAX));
    assert_eq!(parse_u64("18446744073709551616"), None);
    assert_eq!(parse_u64(""), None);
    assert_eq!(parse_u64("+"), None);
    assert_eq!(parse_u64("-1"), None);
    assert_eq!(parse_u64("1a"), None);
    assert_eq!(parse_u64("node1"), None);
    for text in ["", "+", "-", "12", "+0", "99999999999999999999", " 1", "1 "] {
        assert_eq!(parse_u64(text), text.parse::<u64>().ok(), "{:?}", text);
    }
}

#[test]
fn parse_reads_back_decimals() {
    for n in [0u64, 9, 10, 12345, u64::MAX] {
        assert_eq!(parse_u64(&n.to_string()), Some(n));
    }
}
