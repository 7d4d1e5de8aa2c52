use atuin_core::kv::{deserialize_kv, KvRecord};
use atuin_core::stats::num_to_day;
use atuin_core::textobj::{encode_assertion, encode_footer, parse_footer};

#[test]
fn footer_round_trips() {
    let footer = encode_footer("k4.local-wrap.pie.abc-123", "k4.lid.xyz");
    assert_eq!(footer, "{\"wpk\":\"k4.local-wrap.pie.abc-123\",\"kid\":\"k4.lid.xyz\"}");
    let (wpk, kid) = parse_footer(footer.as_str()).unwrap();
    assert_eq!(wpk, "k4.local-wrap.pie.abc-123");
    assert_eq!(kid, "k4.lid.xyz");
}

#[test]
fn footer_rejects_other_shapes() {
    assert!(parse_footer("").is_none());
    assert!(parse_footer("{}").is_none());
    assert!(parse_footer("{\"wpk\":\"a\"}").is_none());
    assert!(parse_footer("{\"kid\":\"a\",\"wpk\":\"b\"}").is_none());
    assert!(parse_footer("{\"wpk\":\"a\",\"kid\":\"b\"} ").is_none());
}

#[test]
fn assertion_has_fixed_field_order() {
    let text = encode_assertion("id1", "v0", "kv", "host1");
    assert_eq!(
        text,
        "{\"id\":\"id1\",\"version\":\"v0\",\"tag\":\"kv\",\"host\":\"host1\"}"
    );
}

#[test]
fn assertion_escapes_quotes_and_backslashes() {
    let text = encode_assertion("a\"b", "v\\0", "kv", "h");
    assert_eq!(
        text,
        "{\"id\":\"a\\\"b\",\"version\":\"v\\\\0\",\"tag\":\"kv\",\"host\":\"h\"}"
    );
}

#[test]
fn kv_serialize_matches_compact_binary_form() {
    let kv = KvRecord { key: "a-key".to_string(), value: "a-value".to_string() };
    let ours = kv.serialize().unwrap();
    let reference = rmp_serde::to_vec(&("a-key".to_string(), "a-value".to_string())).unwrap();
    assert_eq!(ours, reference);
}

#[test]
fn kv_serialize_matches_for_longer_strings() {
    let key = "k".repeat(40);
    let value = "v".repeat(300);
    let kv = KvRecord { key: key.clone(), value: value.clone() };
    let ours = kv.serialize().unwrap();
    let reference = rmp_serde::to_vec(&(key, value)).unwrap();
    assert_eq!(ours, reference);
}

#[test]
fn kv_deserialize_round_trips() {
    let kv = KvRecord { key: "k".to_string(), value: "value with spaces".to_string() };
    let bytes = kv.serialize().unwrap();
    let back = deserialize_kv(bytes.as_slice()).unwrap();
    assert_eq!(back, kv);
}

#[test]
fn kv_deserialize_rejects_malformed_bytes() {
    assert!(deserialize_kv(&[]).is_none());
    assert!(deserialize_kv(&[0x91]).is_none());
    assert!(deserialize_kv(&[0x92, 0xa1]).is_none());
    assert!(deserialize_kv(&[0x92, 0xa1, 0x61]).is_none());
    assert!(deserialize_kv(&[0x92, 0xa1, 0x61, 0xa1, 0x62, 0x00]).is_none());
}

#[test]
fn num_to_day_names_every_weekday() {
    assert_eq!(num_to_day("0"), "Sunday");
    assert_eq!(num_to_day("1"), "Monday");
    assert_eq!(num_to_day("2"), "Tuesday");
    assert_eq!(num_to_day("3"), "Wednesday");
    assert_eq!(num_to_day("4"), "Thursday");
    assert_eq!(num_to_day("5"), "Friday");
    assert_eq!(num_to_day("6"), "Saturday");
    assert_eq!(num_to_day("7"), "Invalid day");
    assert_eq!(num_to_day("sunday"), "Invalid day");
}

#[test]
fn kv_serialize_matches_for_multibyte_text() {
    let key = "ключ".to_string();
    let value = "värde \"quoted\" \\slash".to_string();
    let kv = KvRecord { key: key.clone(), value: value.clone() };
    let ours = kv.serialize().unwrap();
    let reference = rmp_serde::to_vec(&(key, value)).unwrap();
    assert_eq!(ours, reference);
    let back = deserialize_kv(ours.as_slice()).unwrap();
    assert_eq!(back, kv);
}
