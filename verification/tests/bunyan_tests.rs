//! Tests for Bunyan record checks and the response-header allow-list.

use http_router::bunyan::verify_bunyan_records;
use http_router::bunyan::verify_bunyan_records_sequential;
use http_router::bunyan::BunyanLogRecord;
use http_router::bunyan::BunyanLogRecordSpec;
use http_router::headers::response_header_allowed;

const T1_STR: &str = "2020-03-24T00:00:00Z";
const T2_STR: &str = "2020-03-25T00:00:00Z";

fn timestamp_of(s: &str) -> i64 {
    chrono::DateTime::parse_from_rfc3339(s).unwrap().timestamp()
}

fn make_dummy_record() -> BunyanLogRecord {
    BunyanLogRecord {
        time: timestamp_of(T1_STR),
        name: "n1".to_string(),
        hostname: "h1".to_string(),
        pid: 1,
        msg: "msg1".to_string(),
        v: 0,
    }
}

// Various cases where verify_bunyan_records() should find no mismatch.
#[test]
fn test_bunyan_easy_cases() {
    let t1 = timestamp_of(T1_STR);
    let r1 = make_dummy_record();
    let r2 = BunyanLogRecord {
        time: t1,
        name: "n1".to_string(),
        hostname: "h2".to_string(),
        pid: 1,
        msg: "msg2".to_string(),
        v: 1,
    };

    // Test case: nothing to check.
    let records = vec![r1.clone()];
    assert!(verify_bunyan_records(
        &records,
        &BunyanLogRecordSpec { name: None, hostname: None, pid: None, v: None },
    ));

    // Test case: check name, no problem.
    assert!(verify_bunyan_records(
        &records,
        &BunyanLogRecordSpec {
            name: Some("n1".to_string()),
            hostname: None,
            pid: None,
            v: None,
        },
    ));

    // Test case: check hostname, no problem.
    assert!(verify_bunyan_records(
        &records,
        &BunyanLogRecordSpec {
            name: None,
            hostname: Some("h1".to_string()),
            pid: None,
            v: None,
        },
    ));

    // Test case: check pid, no problem.
    assert!(verify_bunyan_records(
        &records,
        &BunyanLogRecordSpec { name: None, hostname: None, pid: Some(1), v: None },
    ));

    // Test case: check v, no problem.
    assert!(verify_bunyan_records(
        &records,
        &BunyanLogRecordSpec { name: None, hostname: None, pid: None, v: Some(0) },
    ));

    // Test case: check all, no problem.
    assert!(verify_bunyan_records(
        &records,
        &BunyanLogRecordSpec {
            name: Some("n1".to_string()),
            hostname: Some("h1".to_string()),
            pid: Some(1),
            v: Some(0),
        },
    ));

    // Test case: check multiple records, no problem.
    let records = vec![r1.clone(), r2.clone()];
    assert!(verify_bunyan_records(
        &records,
        &BunyanLogRecordSpec {
            name: Some("n1".to_string()),
            hostname: None,
            pid: Some(1),
            v: None,
        },
    ));
}

// Cases exercising violations of each of the fields.
#[test]
fn test_bunyan_mismatches_reported() {
    let r1 = make_dummy_record();
    let records = vec![r1];
    assert!(!verify_bunyan_records(
        &records,
        &BunyanLogRecordSpec {
            name: Some("n2".to_string()),
            hostname: None,
            pid: None,
            v: None,
        },
    ));
    assert!(!verify_bunyan_records(
        &records,
        &BunyanLogRecordSpec {
            name: None,
            hostname: Some("h2".to_string()),
            pid: None,
            v: None,
        },
    ));
    assert!(!verify_bunyan_records(
        &records,
        &BunyanLogRecordSpec { name: None, hostname: None, pid: Some(2), v: None },
    ));
    assert!(!verify_bunyan_records(
        &records,
        &BunyanLogRecordSpec { name: None, hostname: None, pid: None, v: Some(1) },
    ));
}

// These cases exercise 0, 1, and 2 records with every valid combination
// of lower and upper bounds.
#[test]
fn test_bunyan_seq_easy_cases() {
    let t1 = timestamp_of(T1_STR);
    let t2 = timestamp_of(T2_STR);
    let v0: Vec<BunyanLogRecord> = vec![];
    let v1 = vec![BunyanLogRecord {
        time: t1,
        name: "dummy_name".to_string(),
        hostname: "dummy_hostname".to_string(),
        pid: 123,
        msg: "dummy_msg".to_string(),
        v: 0,
    }];
    let v2 = vec![
        BunyanLogRecord {
            time: t1,
            name: "dummy_name".to_string(),
            hostname: "dummy_hostname".to_string(),
            pid: 123,
            msg: "dummy_msg".to_string(),
            v: 0,
        },
        BunyanLogRecord {
            time: t2,
            name: "dummy_name".to_string(),
            hostname: "dummy_hostname".to_string(),
            pid: 123,
            msg: "dummy_msg".to_string(),
            v: 0,
        },
    ];

    assert!(verify_bunyan_records_sequential(&v0, None, None));
    assert!(verify_bunyan_records_sequential(&v0, Some(t1), None));
    assert!(verify_bunyan_records_sequential(&v0, None, Some(t1)));
    assert!(verify_bunyan_records_sequential(&v0, Some(t1), Some(t2)));
    assert!(verify_bunyan_records_sequential(&v1, None, None));
    assert!(verify_bunyan_records_sequential(&v1, Some(t1), None));
    assert!(verify_bunyan_records_sequential(&v1, None, Some(t2)));
    assert!(verify_bunyan_records_sequential(&v1, Some(t1), Some(t2)));
    assert!(verify_bunyan_records_sequential(&v2, None, None));
    assert!(verify_bunyan_records_sequential(&v2, Some(t1), None));
    assert!(verify_bunyan_records_sequential(&v2, None, Some(t2)));
    assert!(verify_bunyan_records_sequential(&v2, Some(t1), Some(t2)));
}

// Violations of chronological order and of the bounds are reported.
#[test]
fn test_bunyan_seq_violations_reported() {
    let t1 = timestamp_of(T1_STR);
    let t2 = timestamp_of(T2_STR);
    let v0: Vec<BunyanLogRecord> = vec![];
    let record_at = |t: i64| BunyanLogRecord {
        time: t,
        name: "dummy_name".to_string(),
        hostname: "dummy_hostname".to_string(),
        pid: 123,
        msg: "dummy_msg".to_string(),
        v: 0,
    };
    // bounds out of order, no records
    assert!(!verify_bunyan_records_sequential(&v0, Some(t2), Some(t1)));
    // sole record before the early bound
    assert!(!verify_bunyan_records_sequential(&vec![record_at(t1)], Some(t2), None));
    // sole record after the late bound
    assert!(!verify_bunyan_records_sequential(&vec![record_at(t2)], None, Some(t1)));
    // two records out of order
    assert!(!verify_bunyan_records_sequential(
        &vec![record_at(t2), record_at(t1)],
        None,
        None
    ));
}

#[test]
fn test_response_header_allow_list() {
    assert!(response_header_allowed("content-length", "42"));
    assert!(response_header_allowed("content-type", "application/json"));
    assert!(response_header_allowed("date", "anything"));
    assert!(response_header_allowed("location", "/elsewhere"));
    assert!(response_header_allowed("x-request-id", "abc"));
    assert!(response_header_allowed("x-dropshot-test-header-1", "1"));
    assert!(response_header_allowed("x-dropshot-test-header-2", "2"));
    assert!(response_header_allowed("transfer-encoding", "chunked"));
    assert!(!response_header_allowed("transfer-encoding", "gzip"));
    assert!(!response_header_allowed("set-cookie", "nope"));
}
