//! One parsed access-log record.
use vstd::prelude::*;
use vstd::string::*;

verus! {

/// A request as the server logged it.
///
/// `timestamp` counts the non-leap seconds since the Unix epoch, in UTC,
/// whatever offset the line gave the time in.
/// `response_time` is the trailing latency field as the line spells it, in
/// seconds with a decimal point; a line without the field has `None`.
#[derive(Debug, PartialEq, Eq)]
pub struct Request {
    pub timestamp: i64,
    pub ip: String,
    pub method: String,
    pub path: String,
    pub status_code: u16,
    pub response_time: Option<String>,
    pub user_agent: String,
    pub bytes_sent: u64,
}

/// The mathematical value of a [`Request`].
pub struct RequestView {
    pub timestamp: i64,
    pub ip: Seq<char>,
    pub method: Seq<char>,
    pub path: Seq<char>,
    pub status_code: u16,
    pub response_time: Option<Seq<char>>,
    pub user_agent: Seq<char>,
    pub bytes_sent: u64,
}

/// The characters of an optional text.
pub open spec fn optional_text(text: Option<String>) -> Option<Seq<char>> {
    match text {
        Some(t) => Some(t@),
        None => None,
    }
}

impl View for Request {
    type V = RequestView;

    open spec fn view(&self) -> RequestView {
        RequestView {
            timestamp: self.timestamp,
            ip: self.ip@,
            method: self.method@,
            path: self.path@,
            status_code: self.status_code,
            response_time: optional_text(self.response_time),
            user_agent: self.user_agent@,
            bytes_sent: self.bytes_sent,
        }
    }
}

impl Clone for Request {
    /// An independent copy with the same value.
    fn clone(&self) -> (copy: Request)
        ensures
            copy@ == self@,
    {
        Request {
            timestamp: self.timestamp,
            ip: self.ip.clone(),
            method: self.method.clone(),
            path: self.path.clone(),
            status_code: self.status_code,
            response_time: match &self.response_time {
                Some(t) => Some(t.clone()),
                None => None,
            },
            user_agent: self.user_agent.clone(),
            bytes_sent: self.bytes_sent,
        }
    }
}

/// The values of a run of items, in the same order.
pub open spec fn views<T: View>(items: Seq<T>) -> Seq<T::V> {
    items.map_values(|item: T| item@)
}

} // verus!
