use price_watch::quote::decode_quote;
use price_watch::quote::encode_quote;
use price_watch::quote::is_plain_str;
use price_watch::quote::sanitize;
use price_watch::quote::Quote;

#[test]
fn encode_exact_text() {
    let q = Quote::new("42000.5", "2024-01-01 00:00:00 UTC");
    let s = encode_quote(&q);
    assert_eq!(s, "{\"price\":\"42000.5\",\"timestamp\":\"2024-01-01 00:00:00 UTC\"}");
}

#[test]
fn round_trip() {
    let q = Quote::new("42000.5", "2024-01-01 00:00:00 UTC");
    let s = encode_quote(&q);
    let back = decode_quote(&s).expect("an encoded quote must decode");
    assert_eq!(back.price, "42000.5");
    assert_eq!(back.timestamp, "2024-01-01 00:00:00 UTC");
}

#[test]
fn round_trip_empty_fields() {
    let q = Quote::new("", "");
    let s = encode_quote(&q);
    let back = decode_quote(&s).expect("an encoded quote must decode");
    assert_eq!(back.price, "");
    assert_eq!(back.timestamp, "");
}

#[test]
fn round_trip_sentinel() {
    let q = Quote::new("N/A", "2024-01-01 00:00:00 UTC");
    let s = encode_quote(&q);
    let back = decode_quote(&s).expect("an encoded quote must decode");
    assert_eq!(back.price, "N/A");
}

#[test]
fn decode_rejects_truncated() {
    let q = Quote::new("42000.5", "2024-01-01 00:00:00 UTC");
    let s = encode_quote(&q);
    let cut = &s[..s.len() - 2];
    assert!(decode_quote(cut).is_none());
}

#[test]
fn decode_rejects_garbage() {
    assert!(decode_quote("not json at all").is_none());
    assert!(decode_quote("").is_none());
    assert!(decode_quote("{}").is_none());
    assert!(decode_quote("{\"price\":\"1\"}").is_none());
}

#[test]
fn decode_rejects_trailing_garbage() {
    assert!(decode_quote("{\"price\":\"1\",\"timestamp\":\"t\"}x").is_none());
}

#[test]
fn decode_rejects_escapes() {
    assert!(decode_quote("{\"price\":\"a\\\"b\",\"timestamp\":\"t\"}").is_none());
}

#[test]
fn sanitize_keeps_plain_text() {
    assert_eq!(sanitize("42000.5"), "42000.5");
    assert!(is_plain_str("42000.5"));
}

#[test]
fn sanitize_degrades_unsafe_text() {
    assert_eq!(sanitize("a\"b"), "N/A");
    assert_eq!(sanitize("a\\b"), "N/A");
    assert_eq!(sanitize("a\nb"), "N/A");
    let q = Quote::new("a\"b", "2024-01-01 00:00:00 UTC");
    assert_eq!(q.price, "N/A");
}
