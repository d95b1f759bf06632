use dns_kv::codec::{decode, encode, FormatError, Message};

fn msg(key: &str, value: &str) -> Message {
    Message {
        key: key.to_string(),
        value: value.to_string(),
    }
}

#[test]
fn encode_hello_world_exact_text() {
    let t = encode(&msg("HELLO", "WORLD"));
    assert_eq!(t, "AUAAAAAAAAAAASCFJRGE6BIAAAAAAAAAABLU6USMIQ");
}

#[test]
fn encode_empty_value_exact_text() {
    let t = encode(&msg("k", ""));
    assert_eq!(t, "AEAAAAAAAAAAA2YAAAAAAAAAAAAA");
}

#[test]
fn round_trip_hello_world() {
    let m = decode(&encode(&msg("HELLO", "WORLD"))).unwrap();
    assert_eq!(m.key, "HELLO");
    assert_eq!(m.value, "WORLD");
}

#[test]
fn round_trip_unicode_and_long_values() {
    let long = "x".repeat(1000);
    for (k, v) in [("", ""), ("clé", "värde ☃"), ("big", long.as_str())] {
        let t = encode(&msg(k, v));
        assert!(t.chars().all(|c| c.is_ascii_uppercase() || ('2'..='7').contains(&c)));
        let m = decode(&t).unwrap();
        assert_eq!(m.key, k);
        assert_eq!(m.value, v);
    }
}

#[test]
fn decode_rejects_lower_case_text() {
    assert_eq!(decode("auaaaaaa").unwrap_err(), FormatError::NotBase32);
}

#[test]
fn decode_rejects_bad_length() {
    assert_eq!(decode("A").unwrap_err(), FormatError::NotBase32);
}

#[test]
fn decode_rejects_non_record_bytes() {
    assert_eq!(decode("AAAA").unwrap_err(), FormatError::NotRecord);
    assert_eq!(decode("").unwrap_err(), FormatError::NotRecord);
}

#[test]
fn decode_accepts_trailing_bytes() {
    let mut bytes = vec![1u8, 0, 0, 0, 0, 0, 0, 0, b'k', 1, 0, 0, 0, 0, 0, 0, 0, b'v'];
    bytes.push(9);
    let text = data_encoding::BASE32_NOPAD.encode(&bytes);
    let m = decode(&text).unwrap();
    assert_eq!(m.key, "k");
    assert_eq!(m.value, "v");
}
