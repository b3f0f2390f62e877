use contract_metadata_injection::cdgc::{
    build_fields, nonce_from_time, parse_field_map, percent_encode, resolve_path, CachedMeta,
};
use contract_metadata_injection::json::{parse_json, Json};
use std::time::{Duration, SystemTime};

fn json(text: &str) -> Json {
    parse_json(text.as_bytes()).unwrap()
}

#[test]
fn percent_encode_escapes_unsafe() {
    assert_eq!(percent_encode("abc-1.0_~"), "abc-1.0_~");
    assert_eq!(percent_encode("a b/c?d"), "a%20b%2Fc%3Fd");
}

#[test]
fn resolve_nested_object() {
    let v = json(r#"{"core":{"name":"Sales Orders"}}"#);
    assert_eq!(resolve_path(&v, "core/name"), Some("Sales Orders".into()));
}

#[test]
fn resolve_dotted_literal_key_in_array() {
    let v = json(r#"{"dataQuality":[{"core.score":92.5},{"core.score":80.0}]}"#);
    assert_eq!(resolve_path(&v, "dataQuality/0/core.score"), Some("92.5".into()));
    assert_eq!(resolve_path(&v, "dataQuality/1/core.score"), Some("80.0".into()));
}

#[test]
fn resolve_top_level_dotted_literal_key() {
    let v = json(r#"{"core.classification":"Confidential"}"#);
    assert_eq!(resolve_path(&v, "core.classification"), Some("Confidential".into()));
}

#[test]
fn resolve_missing_and_complex_return_none() {
    let v = json(r#"{"a":{"b":1},"arr":[1,2]}"#);
    assert_eq!(resolve_path(&v, "a/missing"), None);
    assert_eq!(resolve_path(&v, "a"), None);
    assert_eq!(resolve_path(&v, "arr/9"), None);
    assert_eq!(resolve_path(&v, "arr"), None);
}

#[test]
fn field_map_parse_and_build() {
    let fm = parse_field_map(r#"{"x-dp-name":"core.name","x-dp-score":"dataQuality/0/core.score"}"#);
    assert_eq!(fm.len(), 2);
    let detail = json(r#"{"core.name":"Orders","dataQuality":[{"core.score":91.0}]}"#);
    let fields = build_fields(&detail, &fm);
    assert_eq!(fields.get("x-dp-name"), Some(&"Orders".to_string()));
    assert_eq!(fields.get("x-dp-score"), Some(&"91.0".to_string()));
}

#[test]
fn field_map_bad_json_is_empty() {
    assert!(parse_field_map("not json").is_empty());
    assert!(parse_field_map("{}").is_empty());
}

#[test]
fn build_fields_skips_missing_paths() {
    let fm = parse_field_map(r#"{"x-a":"a","x-missing":"nope/here"}"#);
    let fields = build_fields(&json(r#"{"a":"1"}"#), &fm);
    assert_eq!(fields.len(), 1);
    assert_eq!(fields.get("x-a"), Some(&"1".to_string()));
}

#[test]
fn percent_encode_writes_every_byte_of_a_character() {
    assert_eq!(percent_encode("é"), "%C3%A9");
    assert_eq!(percent_encode("€"), "%E2%82%AC");
    assert_eq!(percent_encode("\u{0}\u{7f}"), "%00%7F");
    assert_eq!(percent_encode(""), "");
}

#[test]
fn percent_encode_leaves_no_delimiter() {
    let encoded = percent_encode("a?b#c/d&e=f g%h");
    assert_eq!(encoded, "a%3Fb%23c%2Fd%26e%3Df%20g%25h");
    for c in encoded.chars() {
        assert!(!"?#/&= ".contains(c));
    }
}

#[test]
fn percent_encode_tells_values_apart() {
    assert_ne!(percent_encode("a b"), percent_encode("a%20b"));
    assert_eq!(percent_encode("a%20b"), "a%2520b");
}

#[test]
fn nonce_is_the_nanoseconds_since_the_epoch() {
    let at = SystemTime::UNIX_EPOCH + Duration::new(1_700_000_000, 123_456_789);
    assert_eq!(nonce_from_time(at), "1700000000123456789");
    assert_eq!(nonce_from_time(SystemTime::UNIX_EPOCH), "0");
}

#[test]
fn nonce_before_the_epoch_is_zero() {
    let at = SystemTime::UNIX_EPOCH - Duration::from_secs(5);
    assert_eq!(nonce_from_time(at), "0");
}

#[test]
fn nonces_of_two_points_in_time_differ() {
    let at = SystemTime::UNIX_EPOCH + Duration::new(1, 0);
    let later = at + Duration::from_nanos(100);
    assert_eq!(nonce_from_time(at), "1000000000");
    assert_eq!(nonce_from_time(later), "1000000100");
}

#[test]
fn resolve_stamps_scalars_only() {
    let v = json(r#"{"s":"x","n":7,"neg":-3,"t":true,"f":false,"z":null,"o":{},"a":[]}"#);
    assert_eq!(resolve_path(&v, "s"), Some("x".into()));
    assert_eq!(resolve_path(&v, "n"), Some("7".into()));
    assert_eq!(resolve_path(&v, "neg"), Some("-3".into()));
    assert_eq!(resolve_path(&v, "t"), Some("true".into()));
    assert_eq!(resolve_path(&v, "f"), Some("false".into()));
    assert_eq!(resolve_path(&v, "z"), None);
    assert_eq!(resolve_path(&v, "o"), None);
    assert_eq!(resolve_path(&v, "a"), None);
}

#[test]
fn resolve_passes_over_empty_segments() {
    let v = json(r#"{"a":{"b":"x"},"":"y"}"#);
    assert_eq!(resolve_path(&v, "/a//b/"), Some("x".into()));
    assert_eq!(resolve_path(&v, ""), None);
    assert_eq!(resolve_path(&json("\"leaf\""), ""), Some("leaf".into()));
    assert_eq!(resolve_path(&json("\"leaf\""), "a"), None);
}

#[test]
fn resolve_reads_array_indices() {
    let v = json(r#"[10,11,12]"#);
    assert_eq!(resolve_path(&v, "2"), Some("12".into()));
    assert_eq!(resolve_path(&v, "02"), Some("12".into()));
    assert_eq!(resolve_path(&v, "+1"), Some("11".into()));
    assert_eq!(resolve_path(&v, "-1"), None);
    assert_eq!(resolve_path(&v, "one"), None);
    assert_eq!(resolve_path(&v, "3"), None);
    assert_eq!(resolve_path(&v, "99999999999999999999999"), None);
}

#[test]
fn resolve_goes_step_by_step() {
    let inner = json(r#"{"b":[{"c":"x"}]}"#);
    let outer = json(r#"{"a":{"b":[{"c":"x"}]}}"#);
    assert_eq!(resolve_path(&inner, "b/0/c"), resolve_path(&outer, "a/b/0/c"));
    assert_eq!(resolve_path(&outer, "a/b/0/c"), Some("x".into()));
}

#[test]
fn field_map_is_in_order_of_its_headers() {
    let fm = parse_field_map(" \n{\"x-b\":\"1\",\"x-a\":\"2\",\"X-c\":\"3\"}\t");
    assert_eq!(
        fm,
        vec![
            ("X-c".to_string(), "3".to_string()),
            ("x-a".to_string(), "2".to_string()),
            ("x-b".to_string(), "1".to_string()),
        ]
    );
}

#[test]
fn field_map_with_other_values_is_empty() {
    assert!(parse_field_map(r#"{"x-a":1}"#).is_empty());
    assert!(parse_field_map(r#"["x-a"]"#).is_empty());
    assert!(parse_field_map("").is_empty());
}

#[test]
fn build_fields_keeps_the_last_of_equal_headers() {
    let fm = vec![
        ("x-a".to_string(), "one".to_string()),
        ("x-a".to_string(), "two".to_string()),
        ("x-a".to_string(), "missing".to_string()),
    ];
    let fields = build_fields(&json(r#"{"one":"1","two":"2"}"#), &fm);
    assert_eq!(fields.entries(), &vec![("x-a".to_string(), "2".to_string())]);
}

#[test]
fn cached_metadata_defaults_to_nothing() {
    let empty = CachedMeta::default();
    assert!(empty.fields.is_empty());
    assert_eq!(empty.timestamp, 0);
    assert_eq!(empty.clone(), empty);
}
