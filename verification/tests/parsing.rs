use httop::parser::{parse_log_line, request_from_groups, LINE_PATTERN, TIMESTAMP_LAYOUT};
use httop::request::Request;

fn line(status: &str, bytes: &str, stamp: &str, tail: &str) -> String {
    format!(
        "192.168.1.1 - - [{}] \"GET /page.html HTTP/1.1\" {} {} \"http://referrer.com\" \"Mozilla/5.0 (X11)\"{}",
        stamp, status, bytes, tail
    )
}

fn groups(texts: &[Option<&str>]) -> Vec<Option<String>> {
    texts.iter().map(|t| t.map(|s| s.to_string())).collect()
}

#[test]
fn well_formed_line_gives_the_captured_fields() {
    let parsed = parse_log_line(&line("200", "2326", "29/Nov/2021:12:34:56 +0000", " 0.002"));
    assert_eq!(
        parsed,
        Some(Request {
            timestamp: 1638189296,
            ip: "192.168.1.1".to_string(),
            method: "GET".to_string(),
            path: "/page.html".to_string(),
            status_code: 200,
            response_time: Some("0.002".to_string()),
            user_agent: "Mozilla/5.0 (X11)".to_string(),
            bytes_sent: 2326,
        })
    );
}

#[test]
fn line_without_response_time_has_none() {
    let parsed = parse_log_line(&line("404", "0", "29/Nov/2021:12:34:56 +0000", " "));
    let request = parsed.expect("the line follows the grammar");
    assert_eq!(request.response_time, None);
    assert_eq!(request.status_code, 404);
    assert_eq!(request.bytes_sent, 0);
}

#[test]
fn line_that_ends_at_the_user_agent_is_rejected() {
    assert_eq!(parse_log_line(&line("200", "1", "29/Nov/2021:12:34:56 +0000", "")), None);
}

#[test]
fn timestamp_is_normalised_to_utc() {
    let east = parse_log_line(&line("200", "1", "29/Feb/2024:23:59:59 +0530", " 1.5")).unwrap();
    assert_eq!(east.timestamp, 1709231399);
    let west = parse_log_line(&line("200", "1", "29/Nov/2021:12:34:56 -0800", " 1.5")).unwrap();
    assert_eq!(west.timestamp, 1638218096);
    let utc = parse_log_line(&line("200", "1", "29/Nov/2021:20:34:56 +0000", " 1.5")).unwrap();
    assert_eq!(utc.timestamp, west.timestamp);
}

#[test]
fn the_match_may_start_inside_the_line() {
    let text = format!("noise {}", line("200", "7", "29/Nov/2021:12:34:56 +0000", " 0.1"));
    let request = parse_log_line(&text).unwrap();
    assert_eq!(request.ip, "192.168.1.1");
    assert_eq!(request.bytes_sent, 7);
}

#[test]
fn bad_quoting_is_rejected() {
    let text = "192.168.1.1 - - [29/Nov/2021:12:34:56 +0000] GET /page.html HTTP/1.1 200 2326 \"-\" \"agent\" 0.1";
    assert_eq!(parse_log_line(text), None);
    let open = "192.168.1.1 - - [29/Nov/2021:12:34:56 +0000] \"GET /page.html HTTP/1.1\" 200 2326 \"-\" \"agent 0.1";
    assert_eq!(parse_log_line(open), None);
}

#[test]
fn non_numeric_status_or_bytes_is_rejected() {
    assert_eq!(parse_log_line(&line("abc", "2326", "29/Nov/2021:12:34:56 +0000", " 0.1")), None);
    assert_eq!(parse_log_line(&line("200", "-", "29/Nov/2021:12:34:56 +0000", " 0.1")), None);
    assert_eq!(parse_log_line(&line("-200", "5", "29/Nov/2021:12:34:56 +0000", " 0.1")), None);
}

#[test]
fn status_or_bytes_out_of_range_is_rejected() {
    assert_eq!(parse_log_line(&line("65536", "1", "29/Nov/2021:12:34:56 +0000", " 0.1")), None);
    assert_eq!(
        parse_log_line(&line("200", "18446744073709551616", "29/Nov/2021:12:34:56 +0000", " 0.1")),
        None
    );
    let top = parse_log_line(&line(
        "65535",
        "18446744073709551615",
        "29/Nov/2021:12:34:56 +0000",
        " 0.1",
    ))
    .unwrap();
    assert_eq!(top.status_code, 65535);
    assert_eq!(top.bytes_sent, u64::MAX);
}

#[test]
fn digits_of_another_script_are_rejected() {
    // The pattern takes any decimal digit; the numbers must be ASCII.
    assert_eq!(
        parse_log_line(&line("\u{0662}\u{0660}\u{0660}", "1", "29/Nov/2021:12:34:56 +0000", " 0.1")),
        None
    );
}

#[test]
fn unparsable_timestamp_is_rejected() {
    assert_eq!(parse_log_line(&line("200", "1", "yesterday", " 0.1")), None);
    assert_eq!(parse_log_line(&line("200", "1", "31/Nov/2021:12:34:56 +0000", " 0.1")), None);
    assert_eq!(parse_log_line(&line("200", "1", "29/Nov/2021:12:34:56", " 0.1")), None);
    assert_eq!(parse_log_line(&line("200", "1", "29/Nov/2021:25:34:56 +0000", " 0.1")), None);
}

#[test]
fn empty_line_is_rejected() {
    assert_eq!(parse_log_line(""), None);
}

#[test]
fn groups_make_a_request() {
    let found = groups(&[
        Some("whole"),
        Some("10.0.0.1"),
        Some("ignored"),
        Some("POST"),
        Some("/submit"),
        Some("+201"),
        Some("0042"),
        Some("ref"),
        Some("curl/8"),
        None,
    ]);
    assert_eq!(
        request_from_groups(&found, -5),
        Some(Request {
            timestamp: -5,
            ip: "10.0.0.1".to_string(),
            method: "POST".to_string(),
            path: "/submit".to_string(),
            status_code: 201,
            response_time: None,
            user_agent: "curl/8".to_string(),
            bytes_sent: 42,
        })
    );
}

#[test]
fn groups_with_a_gap_make_no_request() {
    let full = [
        Some("whole"),
        Some("10.0.0.1"),
        Some("stamp"),
        Some("POST"),
        Some("/submit"),
        Some("201"),
        Some("42"),
        Some("ref"),
        Some("curl/8"),
        Some("0.25"),
    ];
    assert!(request_from_groups(&groups(&full), 0).is_some());
    for missing in [1usize, 3, 4, 5, 6, 8] {
        let mut holed = full;
        holed[missing] = None;
        assert_eq!(request_from_groups(&groups(&holed), 0), None, "group {}", missing);
    }
    // The timestamp text, the referrer and the response time are not needed here.
    for spare in [0usize, 2, 7, 9] {
        let mut holed = full;
        holed[spare] = None;
        assert!(request_from_groups(&groups(&holed), 0).is_some(), "group {}", spare);
    }
    assert_eq!(request_from_groups(&groups(&full[..8]), 0), None);
    assert_eq!(request_from_groups(&Vec::new(), 0), None);
}

#[test]
fn pattern_and_layout_are_the_documented_ones() {
    assert!(LINE_PATTERN.starts_with("(\\S+) (?:\\S+) (?:\\S+) \\[([^\\]]+)\\] "));
    assert!(LINE_PATTERN.ends_with(" (?:(\\d+\\.\\d+))?"));
    assert_eq!(TIMESTAMP_LAYOUT, "%d/%b/%Y:%H:%M:%S %z");
}
