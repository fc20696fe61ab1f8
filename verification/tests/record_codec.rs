use issue_escalation::record::{parse_record, serialize_record, u64_to_dec, EscalationRecord};
use issue_escalation::types::Error;

fn record(ping: Option<u64>, npings: u64) -> EscalationRecord {
    EscalationRecord { issue_no_project_ping: ping, issue_no_project_npings: npings }
}

#[test]
fn serializes_empty_record_exactly() {
    let bytes = serialize_record(&record(None, 0));
    assert_eq!(
        bytes,
        b"{\"issue_no_project_ping\":null,\"issue_no_project_npings\":0}".to_vec()
    );
}

#[test]
fn serializes_pinged_record_exactly() {
    let bytes = serialize_record(&record(Some(1569827700), 2));
    assert_eq!(
        bytes,
        b"{\"issue_no_project_ping\":1569827700,\"issue_no_project_npings\":2}".to_vec()
    );
}

#[test]
fn round_trips_records() {
    for rec in [
        record(None, 0),
        record(None, 17),
        record(Some(0), 0),
        record(Some(1), 10),
        record(Some(1569827700), 3),
        record(Some(u64::MAX), u64::MAX),
    ] {
        let bytes = serialize_record(&rec);
        assert_eq!(parse_record(&bytes), Ok(rec));
    }
}

#[test]
fn wire_format_is_real_json_with_the_protocol_field_names() {
    let bytes = serialize_record(&record(Some(77), 4));
    let v: serde_json::Value = serde_json::from_slice(&bytes).expect("valid JSON");
    assert_eq!(v["issue_no_project_ping"], serde_json::Value::from(77u64));
    assert_eq!(v["issue_no_project_npings"], serde_json::Value::from(4u64));
    let null_bytes = serialize_record(&record(None, 0));
    let v: serde_json::Value = serde_json::from_slice(&null_bytes).expect("valid JSON");
    assert!(v["issue_no_project_ping"].is_null());
}

#[test]
fn rejects_non_canonical_and_corrupt_encodings() {
    let bad: &[&[u8]] = &[
        b"",
        b"{}",
        b"{\"issue_no_project_ping\":null}",
        b"{\"issue_no_project_ping\":null,\"issue_no_project_npings\":0} ",
        b" {\"issue_no_project_ping\":null,\"issue_no_project_npings\":0}",
        b"{\"issue_no_project_ping\": null,\"issue_no_project_npings\":0}",
        b"{\"issue_no_project_ping\":01,\"issue_no_project_npings\":0}",
        b"{\"issue_no_project_ping\":null,\"issue_no_project_npings\":00}",
        b"{\"issue_no_project_ping\":-1,\"issue_no_project_npings\":0}",
        b"{\"issue_no_project_ping\":18446744073709551616,\"issue_no_project_npings\":0}",
        b"{\"issue_no_project_npings\":0,\"issue_no_project_ping\":null}",
        b"{\"issue_no_project_ping\":null,\"issue_no_project_npings\":0",
    ];
    for bytes in bad {
        assert_eq!(
            parse_record(&bytes.to_vec()),
            Err(Error::DeserializationError),
            "accepted: {:?}",
            String::from_utf8_lossy(bytes)
        );
    }
}

#[test]
fn accepts_the_largest_timestamp() {
    let bytes = b"{\"issue_no_project_ping\":18446744073709551615,\"issue_no_project_npings\":0}"
        .to_vec();
    assert_eq!(parse_record(&bytes), Ok(record(Some(u64::MAX), 0)));
}

#[test]
fn store_keys_are_decimal_identifiers() {
    assert_eq!(u64_to_dec(0), b"0".to_vec());
    assert_eq!(u64_to_dec(42), b"42".to_vec());
    assert_eq!(u64_to_dec(1069), b"1069".to_vec());
    assert_eq!(u64_to_dec(u64::MAX), b"18446744073709551615".to_vec());
}
