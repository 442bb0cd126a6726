use floxmeta::codec::{parse, serialize, ParseError};
use floxmeta::document::UserMeta;

const UUID_ZERO: &str = "00000000-0000-0000-0000-000000000000";

fn doc(channels: Option<Vec<(String, String)>>, consent: u8) -> UserMeta {
    UserMeta::new(channels, UUID_ZERO.to_string(), consent).expect("document should be valid")
}

#[test]
fn serialize_without_channels() {
    let m = doc(None, 0);
    assert_eq!(
        serialize(&m),
        "{\"floxClientUUID\":\"00000000-0000-0000-0000-000000000000\",\"floxMetricsConsent\":0,\"version\":1}"
    );
}

#[test]
fn serialize_with_channels() {
    let m = doc(
        Some(vec![("nixpkgs".to_string(), "github:NixOS/nixpkgs".to_string())]),
        1,
    );
    assert_eq!(
        serialize(&m),
        "{\"channels\":{\"nixpkgs\":\"github:NixOS/nixpkgs\"},\"floxClientUUID\":\"00000000-0000-0000-0000-000000000000\",\"floxMetricsConsent\":1,\"version\":1}"
    );
}

#[test]
fn serialize_escapes_quotes_and_backslashes() {
    let m = doc(
        Some(vec![("na\"me".to_string(), "lo\\c".to_string())]),
        2,
    );
    let text = serialize(&m);
    assert!(text.contains("\"na\\\"me\":\"lo\\\\c\""));
    let back = parse(&text).expect("escaped document should parse");
    let cs = back.channels().as_ref().expect("channels should be present");
    assert_eq!(cs.len(), 1);
    assert_eq!(cs[0].0, "na\"me");
    assert_eq!(cs[0].1, "lo\\c");
}

#[test]
fn parse_round_trip_preserves_document() {
    let m = doc(
        Some(vec![
            ("nixpkgs".to_string(), "github:NixOS/nixpkgs".to_string()),
            ("flox".to_string(), "github:flox/floxpkgs".to_string()),
        ]),
        255,
    );
    let back = parse(&serialize(&m)).expect("canonical text should parse");
    assert!(back == m);
    let cs = back.channels().as_ref().expect("channels should be present");
    assert_eq!(cs.len(), 2);
    assert_eq!(cs[0].0, "nixpkgs");
    assert_eq!(cs[0].1, "github:NixOS/nixpkgs");
    assert_eq!(cs[1].0, "flox");
    assert_eq!(cs[1].1, "github:flox/floxpkgs");
    assert_eq!(back.client_uuid(), UUID_ZERO);
    assert_eq!(back.metrics_consent(), 255);
}

#[test]
fn parse_tolerates_whitespace_field_order_and_unknown_fields() {
    let text = "  {\n  \"version\" : 1 ,\n  \"future\": {\"nested\": [1, 2, \"s]\"], \"deep\": {}},\n  \"floxMetricsConsent\": 1,\n  \"other\": true,\n  \"floxClientUUID\": \"11111111-2222-3333-4444-555555555555\"\n}  ";
    let m = parse(text).expect("reordered document with unknown fields should parse");
    assert!(m.channels().is_none());
    assert_eq!(m.client_uuid(), "11111111-2222-3333-4444-555555555555");
    assert_eq!(m.metrics_consent(), 1);
}

#[test]
fn parse_accepts_null_and_empty_channels() {
    let null_text = "{\"channels\":null,\"floxClientUUID\":\"00000000-0000-0000-0000-000000000000\",\"floxMetricsConsent\":0,\"version\":1}";
    let m = parse(null_text).expect("null channels should parse");
    assert!(m.channels().is_none());

    let empty_text = "{\"channels\":{},\"floxClientUUID\":\"00000000-0000-0000-0000-000000000000\",\"floxMetricsConsent\":0,\"version\":1}";
    let m = parse(empty_text).expect("empty channels should parse");
    let cs = m.channels().as_ref().expect("channels should be present");
    assert!(cs.is_empty());
}

#[test]
fn parse_rejects_version_mismatch() {
    let text = "{\"floxClientUUID\":\"00000000-0000-0000-0000-000000000000\",\"floxMetricsConsent\":0,\"version\":2}";
    assert_eq!(parse(text).err(), Some(ParseError::VersionMismatch));
    let text256 = "{\"floxClientUUID\":\"00000000-0000-0000-0000-000000000000\",\"floxMetricsConsent\":0,\"version\":256}";
    assert_eq!(parse(text256).err(), Some(ParseError::VersionMismatch));
}

#[test]
fn parse_rejects_missing_fields() {
    assert_eq!(parse("{\"floxMetricsConsent\":0,\"version\":1}").err(), Some(ParseError::MissingField));
    assert_eq!(parse("{}").err(), Some(ParseError::MissingField));
}

#[test]
fn parse_rejects_duplicate_fields_and_channel_names() {
    let dup_field = "{\"version\":1,\"version\":1,\"floxClientUUID\":\"00000000-0000-0000-0000-000000000000\",\"floxMetricsConsent\":0}";
    assert_eq!(parse(dup_field).err(), Some(ParseError::DuplicateField));
    let dup_channel = "{\"channels\":{\"a\":\"x\",\"a\":\"y\"},\"floxClientUUID\":\"00000000-0000-0000-0000-000000000000\",\"floxMetricsConsent\":0,\"version\":1}";
    assert_eq!(parse(dup_channel).err(), Some(ParseError::DuplicateField));
}

#[test]
fn parse_rejects_bad_numbers() {
    let big_consent = "{\"floxClientUUID\":\"00000000-0000-0000-0000-000000000000\",\"floxMetricsConsent\":256,\"version\":1}";
    assert_eq!(parse(big_consent).err(), Some(ParseError::InvalidNumber));
    let huge = "{\"floxClientUUID\":\"00000000-0000-0000-0000-000000000000\",\"floxMetricsConsent\":99999999999999999999999999,\"version\":1}";
    assert_eq!(parse(huge).err(), Some(ParseError::InvalidNumber));
}

#[test]
fn parse_rejects_bad_uuid() {
    let bad = "{\"floxClientUUID\":\"not-a-uuid\",\"floxMetricsConsent\":0,\"version\":1}";
    assert_eq!(parse(bad).err(), Some(ParseError::InvalidUuid));
    let bad_digit = "{\"floxClientUUID\":\"0000000g-0000-0000-0000-000000000000\",\"floxMetricsConsent\":0,\"version\":1}";
    assert_eq!(parse(bad_digit).err(), Some(ParseError::InvalidUuid));
}

#[test]
fn parse_rejects_malformed_text() {
    assert_eq!(parse("").err(), Some(ParseError::Syntax));
    assert_eq!(parse("[1,2]").err(), Some(ParseError::Syntax));
    assert_eq!(parse("{\"version\":1").err(), Some(ParseError::Syntax));
    assert_eq!(parse("{\"version\":1} trailing").err(), Some(ParseError::Syntax));
    assert_eq!(parse("{\"version\":}").err(), Some(ParseError::Syntax));
}

#[test]
fn document_constructor_validates() {
    assert!(UserMeta::new(None, "not-a-uuid".to_string(), 0).is_none());
    assert!(UserMeta::new(
        Some(vec![
            ("a".to_string(), "x".to_string()),
            ("a".to_string(), "y".to_string()),
        ]),
        UUID_ZERO.to_string(),
        0,
    )
    .is_none());
    assert!(UserMeta::new(
        Some(vec![("a\n".to_string(), "x".to_string())]),
        UUID_ZERO.to_string(),
        0,
    )
    .is_none());
    assert!(UserMeta::new(None, UUID_ZERO.to_string(), 7).is_some());
}
