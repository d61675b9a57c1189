//! JSON framing, canonicalization and codec behavior.
use sentinel::canon::canonicalize_value;
use sentinel::codec::{b64_decode, b64_encode, hex_encode, parse_u64_dec, u64_to_dec};
use sentinel::json::JsonValue;
use sentinel::jtext::{parse_json, to_json_bytes};

fn parse(s: &str) -> JsonValue {
    parse_json(&s.as_bytes().to_vec()).expect("valid JSON")
}

fn ser(v: &JsonValue) -> String {
    String::from_utf8(to_json_bytes(v)).unwrap()
}

#[test]
fn parse_and_serialize_round_trip() {
    let cases = [
        "null",
        "true",
        "false",
        "0",
        "-12.5e3",
        "\"hello\"",
        "[]",
        "[1,2,3]",
        "{}",
        "{\"a\":1,\"b\":[true,null],\"c\":{\"d\":\"x\"}}",
    ];
    for c in cases {
        let v = parse(c);
        assert_eq!(ser(&v), *c, "round trip of {c}");
    }
}

#[test]
fn parse_tolerates_whitespace_and_canonicalizes_it_away() {
    let v = parse(" { \"b\" : 1 , \"a\" : [ 1 , 2 ] } ");
    assert_eq!(ser(&v), "{\"b\":1,\"a\":[1,2]}");
}

#[test]
fn parse_rejects_garbage() {
    for c in ["", "{", "nul", "{\"a\"}", "[1,]", "\"unterminated", "{\"a\":1}x"] {
        assert!(parse_json(&c.as_bytes().to_vec()).is_none(), "{c} should be rejected");
    }
}

#[test]
fn string_escapes_are_kept_verbatim() {
    let v = parse("\"a\\n\\\"b\\\"\"");
    assert_eq!(ser(&v), "\"a\\n\\\"b\\\"\"");
}

#[test]
fn canonicalize_sorts_keys_recursively() {
    let v = parse("{\"b\":{\"z\":1,\"a\":2},\"a\":[{\"y\":0,\"x\":1}]}");
    let c = canonicalize_value(&v);
    assert_eq!(ser(&c), "{\"a\":[{\"x\":1,\"y\":0}],\"b\":{\"a\":2,\"z\":1}}");
}

#[test]
fn canonicalize_keeps_last_duplicate() {
    let v = parse("{\"a\":1,\"b\":2,\"a\":3}");
    let c = canonicalize_value(&v);
    assert_eq!(ser(&c), "{\"a\":3,\"b\":2}");
}

#[test]
fn canonicalize_is_a_fixed_point() {
    let v = parse("{\"b\":{\"z\":1,\"a\":2},\"a\":[3,{\"q\":null,\"p\":true}],\"c\":\"s\"}");
    let once = canonicalize_value(&v);
    let twice = canonicalize_value(&once);
    assert_eq!(ser(&once), ser(&twice));
}

#[test]
fn canonicalize_is_order_independent() {
    let v1 = parse("{\"a\":1,\"b\":{\"y\":2,\"x\":3}}");
    let v2 = parse("{\"b\":{\"x\":3,\"y\":2},\"a\":1}");
    assert_eq!(ser(&canonicalize_value(&v1)), ser(&canonicalize_value(&v2)));
}

#[test]
fn hex_encoding_is_lowercase_two_digits_per_byte() {
    let r = hex_encode(&vec![0x00, 0x0f, 0xa5, 0xff]);
    assert_eq!(String::from_utf8(r).unwrap(), "000fa5ff");
}

#[test]
fn decimal_codec_round_trips() {
    for n in [0u64, 1, 9, 10, 12345, u64::MAX] {
        let d = u64_to_dec(n);
        assert_eq!(String::from_utf8(d.clone()).unwrap(), n.to_string());
        assert_eq!(parse_u64_dec(&d), Some(n));
    }
    assert_eq!(parse_u64_dec(&b"".to_vec()), None);
    assert_eq!(parse_u64_dec(&b"12x".to_vec()), None);
    // one past u64::MAX
    assert_eq!(parse_u64_dec(&b"18446744073709551616".to_vec()), None);
}

#[test]
fn base64_round_trips_and_rejects_noncanonical() {
    let data = vec![0u8, 1, 2, 250, 251, 252];
    let enc = b64_encode(&data);
    assert_ne!(enc, data, "encoding is not the identity");
    assert_eq!(b64_decode(&enc), Some(data));
    // non-canonical trailing bits are refused
    assert!(b64_decode(&b"ab==".to_vec()).is_none());
    assert!(b64_decode(&b"not base64!".to_vec()).is_none());
}
