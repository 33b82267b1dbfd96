//! The grammar of an access-log line.
//!
//! A line has the shape
//!
//! ```text
//! ADDRESS - - [TIMESTAMP] "METHOD PATH PROTOCOL" STATUS BYTES "REFERRER" "USER_AGENT" [RESPONSE_TIME]
//! ```
//!
//! The pattern is searched for, not anchored: what stands before the match
//! is ignored. The space after the user agent belongs to the pattern, also
//! where no response time follows it.
//!
//! Matching the pattern and reading the timestamp are left to the `regex`
//! and `chrono` crates; what they return is named here and not described.
//! Everything that follows from their answers is verified.
use vstd::prelude::*;
use vstd::string::*;
use crate::request::{optional_text, Request, RequestView};
use crate::text::{decimal_of, parse_u16, parse_u64};

verus! {

/// The pattern of a line. Its groups are, by number: 1 the address, 2 the
/// timestamp, 3 the method, 4 the path, 5 the status, 6 the bytes sent,
/// 7 the referrer, 8 the user agent, 9 the response time, if there is one.
pub const LINE_PATTERN: &'static str =
    r#"(\S+) (?:\S+) (?:\S+) \[([^\]]+)\] "(\S+) (\S+)[^"]+" (\d+) (\d+) "([^"]*)" "([^"]*)" (?:(\d+\.\d+))?"#;

/// The layout of a timestamp: day, abbreviated month, year, hour, minute,
/// second, and the offset from UTC.
pub const TIMESTAMP_LAYOUT: &'static str = "%d/%b/%Y:%H:%M:%S %z";

/// What the `regex` crate captures when it searches `text` for the first
/// match of `pattern`: `None` where the pattern does not compile or does not
/// match; else the text of every group, group 0 being the whole match, with
/// `None` for a group that took no part in the match.
pub uninterp spec fn pattern_groups(pattern: Seq<char>, text: Seq<char>) -> Option<
    Seq<Option<Seq<char>>>,
>;

/// The instant that the `chrono` crate reads from `text` under the strftime
/// `layout`, in non-leap seconds since the Unix epoch, UTC; `None` where it
/// reads none.
pub uninterp spec fn layout_instant(text: Seq<char>, layout: Seq<char>) -> Option<i64>;

/// The characters of each group.
pub open spec fn group_views(groups: Seq<Option<String>>) -> Seq<Option<Seq<char>>> {
    groups.map_values(|g: Option<String>| optional_text(g))
}

/// The characters of each group of a match, if there is one.
pub open spec fn match_view(found: Option<Vec<Option<String>>>) -> Option<Seq<Option<Seq<char>>>> {
    match found {
        Some(groups) => Some(group_views(groups@)),
        None => None,
    }
}

/// Calls `regex::Regex::new` on `pattern` and `Regex::captures` on `text`.
/// Trusted: the result is what `pattern_groups` names. A pattern that does
/// not compile and a text without a match both give `None`.
#[verifier::external_body]
fn capture_groups(pattern: &str, text: &str) -> (found: Option<Vec<Option<String>>>)
    ensures
        match_view(found) == pattern_groups(pattern@, text@),
{
    let compiled = match regex::Regex::new(pattern) {
        Ok(compiled) => compiled,
        Err(_) => return None,
    };
    compiled.captures(text).map(
        |found| found.iter().map(|group| group.map(|m| m.as_str().to_string())).collect(),
    )
}

/// Calls `chrono::DateTime::parse_from_str` and converts the result to UTC
/// seconds with `DateTime::with_timezone` and `DateTime::timestamp`.
/// Trusted: the result is what `layout_instant` names.
#[verifier::external_body]
fn read_instant(text: &str, layout: &str) -> (instant: Option<i64>)
    ensures
        instant == layout_instant(text@, layout@),
{
    match chrono::DateTime::parse_from_str(text, layout) {
        Ok(moment) => Some(moment.with_timezone(&chrono::Utc).timestamp()),
        Err(_) => None,
    }
}

/// The text of group `i`: `None` where the match has no such group or the
/// group took no part in it.
pub open spec fn group(groups: Seq<Option<Seq<char>>>, i: int) -> Option<Seq<char>> {
    if 0 <= i < groups.len() {
        groups[i]
    } else {
        None
    }
}

/// The request that the groups of a matched line and the instant of its
/// timestamp stand for. There is none unless the address, method, path,
/// status, bytes and user agent are all there, the status is a decimal
/// number of 16 bits and the bytes one of 64 bits.
pub open spec fn request_of(groups: Seq<Option<Seq<char>>>, timestamp: i64) -> Option<RequestView> {
    if group(groups, 1) is Some && group(groups, 3) is Some && group(groups, 4) is Some && group(
        groups,
        8,
    ) is Some && group(groups, 5) is Some && group(groups, 6) is Some && decimal_of(
        group(groups, 5)->0,
        u16::MAX as nat,
    ) is Some && decimal_of(group(groups, 6)->0, u64::MAX as nat) is Some {
        Some(
            RequestView {
                timestamp,
                ip: group(groups, 1)->0,
                method: group(groups, 3)->0,
                path: group(groups, 4)->0,
                status_code: decimal_of(group(groups, 5)->0, u16::MAX as nat)->0 as u16,
                response_time: group(groups, 9),
                user_agent: group(groups, 8)->0,
                bytes_sent: decimal_of(group(groups, 6)->0, u64::MAX as nat)->0 as u64,
            },
        )
    } else {
        None
    }
}

/// The request that a line stands for, if it stands for one: the pattern
/// must match, the timestamp must read as an instant, and the groups must
/// make a request.
pub open spec fn parsed(line: Seq<char>) -> Option<RequestView> {
    match pattern_groups(LINE_PATTERN@, line) {
        None => None,
        Some(groups) => match group(groups, 2) {
            None => None,
            Some(stamp) => match layout_instant(stamp, TIMESTAMP_LAYOUT@) {
                None => None,
                Some(timestamp) => request_of(groups, timestamp),
            },
        },
    }
}

/// The value of an optional request.
pub open spec fn optional_request(request: Option<Request>) -> Option<RequestView> {
    match request {
        Some(r) => Some(r@),
        None => None,
    }
}

/// The text of group `i` of a match.
fn group_at(groups: &Vec<Option<String>>, i: usize) -> (text: Option<&String>)
    ensures
        match text {
            Some(t) => group(group_views(groups@), i as int) == Some(t@),
            None => group(group_views(groups@), i as int) is None,
        },
{
    if i < groups.len() {
        match &groups[i] {
            Some(t) => Some(t),
            None => None,
        }
    } else {
        None
    }
}

/// Builds the request of a matched line from its groups and the instant of
/// its timestamp.
pub fn request_from_groups(groups: &Vec<Option<String>>, timestamp: i64) -> (request: Option<
    Request,
>)
    ensures
        optional_request(request) == request_of(group_views(groups@), timestamp),
{
    let ip = match group_at(groups, 1) {
        Some(t) => t,
        None => { return None; },
    };
    let method = match group_at(groups, 3) {
        Some(t) => t,
        None => { return None; },
    };
    let path = match group_at(groups, 4) {
        Some(t) => t,
        None => { return None; },
    };
    let status_code = match group_at(groups, 5) {
        Some(t) => match parse_u16(t.as_str()) {
            Some(n) => n,
            None => { return None; },
        },
        None => { return None; },
    };
    let bytes_sent = match group_at(groups, 6) {
        Some(t) => match parse_u64(t.as_str()) {
            Some(n) => n,
            None => { return None; },
        },
        None => { return None; },
    };
    let user_agent = match group_at(groups, 8) {
        Some(t) => t,
        None => { return None; },
    };
    let response_time = match group_at(groups, 9) {
        Some(t) => Some(t.clone()),
        None => None,
    };
    Some(
        Request {
            timestamp,
            ip: ip.clone(),
            method: method.clone(),
            path: path.clone(),
            status_code,
            response_time,
            user_agent: user_agent.clone(),
            bytes_sent,
        },
    )
}

/// Parses one line of the access log. A line that does not follow the
/// grammar gives `None`: there is no request with some fields missing.
pub fn parse_log_line(line: &str) -> (request: Option<Request>)
    ensures
        optional_request(request) == parsed(line@),
{
    let groups = match capture_groups(LINE_PATTERN, line) {
        Some(groups) => groups,
        None => { return None; },
    };
    let stamp = match group_at(&groups, 2) {
        Some(t) => t,
        None => { return None; },
    };
    let timestamp = match read_instant(stamp.as_str(), TIMESTAMP_LAYOUT) {
        Some(t) => t,
        None => { return None; },
    };
    request_from_groups(&groups, timestamp)
}

/// A line that is accepted gives a request whose fields are the captured
/// groups: the address, method, path and user agent as they stand, the
/// status and the bytes as the numbers they spell, the response time as it
/// stands if the line has one, and the instant of the timestamp.
pub proof fn lemma_accepted_fields(line: Seq<char>)
    requires
        parsed(line) is Some,
    ensures
        pattern_groups(LINE_PATTERN@, line) is Some,
        ({
            let groups = pattern_groups(LINE_PATTERN@, line)->0;
            let request = parsed(line)->0;
            &&& group(groups, 2) is Some
            &&& layout_instant(group(groups, 2)->0, TIMESTAMP_LAYOUT@) == Some(request.timestamp)
            &&& group(groups, 1) == Some(request.ip)
            &&& group(groups, 3) == Some(request.method)
            &&& group(groups, 4) == Some(request.path)
            &&& group(groups, 8) == Some(request.user_agent)
            &&& group(groups, 5) is Some
            &&& decimal_of(group(groups, 5)->0, u16::MAX as nat) == Some(request.status_code as nat)
            &&& group(groups, 6) is Some
            &&& decimal_of(group(groups, 6)->0, u64::MAX as nat) == Some(request.bytes_sent as nat)
            &&& group(groups, 9) == request.response_time
        }),
{
}

/// A line is rejected as a whole if the pattern does not match, if the
/// timestamp does not read as an instant, or if the status or the bytes are
/// not numbers of their width.
pub proof fn lemma_rejected(line: Seq<char>)
    ensures
        pattern_groups(LINE_PATTERN@, line) is None ==> parsed(line) is None,
        pattern_groups(LINE_PATTERN@, line) matches Some(groups) ==> {
            &&& (group(groups, 2) matches Some(stamp) ==> layout_instant(stamp, TIMESTAMP_LAYOUT@)
                is None ==> parsed(line) is None)
            &&& (group(groups, 5) matches Some(status) ==> decimal_of(status, u16::MAX as nat)
                is None ==> parsed(line) is None)
            &&& (group(groups, 6) matches Some(bytes) ==> decimal_of(bytes, u64::MAX as nat)
                is None ==> parsed(line) is None)
            &&& (exists|i: int| 1 <= i <= 8 && i != 7 && group(groups, i) is None) ==> parsed(line)
                is None
        },
{
}

} // verus!
