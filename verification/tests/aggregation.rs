use httop::histogram::Histogram;
use httop::parser::parse_log_line;
use httop::request::Request;
use httop::stats::{Stats, RECENT_CAPACITY};

fn request(n: u64, path: &str, status: u16, ip: &str, method: &str) -> Request {
    Request {
        timestamp: 1_700_000_000 + n as i64,
        ip: ip.to_string(),
        method: method.to_string(),
        path: path.to_string(),
        status_code: status,
        response_time: None,
        user_agent: format!("agent-{}", n),
        bytes_sent: n,
    }
}

fn entries_of_text(histogram: &Histogram<String>) -> Vec<(String, u64)> {
    (0..histogram.len()).map(|i| (histogram.key(i).clone(), histogram.count(i))).collect()
}

fn entries_of_status(histogram: &Histogram<u16>) -> Vec<(u16, u64)> {
    (0..histogram.len()).map(|i| (*histogram.key(i), histogram.count(i))).collect()
}

fn sum_text(histogram: &Histogram<String>) -> u64 {
    entries_of_text(histogram).iter().map(|e| e.1).sum()
}

fn sum_status(histogram: &Histogram<u16>) -> u64 {
    entries_of_status(histogram).iter().map(|e| e.1).sum()
}

#[test]
fn new_statistics_are_empty() {
    let stats = Stats::new();
    assert_eq!(stats.total_requests(), 0);
    assert_eq!(stats.bytes_sent(), 0);
    assert_eq!(stats.status_codes().len(), 0);
    assert_eq!(stats.paths().len(), 0);
    assert_eq!(stats.ips().len(), 0);
    assert_eq!(stats.methods().len(), 0);
    assert!(stats.recent_requests().is_empty());
    assert_eq!(RECENT_CAPACITY, 100);
}

#[test]
fn every_request_counts_once_in_each_histogram() {
    let mut stats = Stats::new();
    let statuses = [200u16, 404, 200, 500, 301];
    let paths = ["/a", "/b", "/a", "/c", "/a"];
    let ips = ["1.1.1.1", "2.2.2.2"];
    let methods = ["GET", "POST", "PUT"];
    for n in 0..37u64 {
        let i = n as usize;
        stats.update(request(
            n,
            paths[i % paths.len()],
            statuses[i % statuses.len()],
            ips[i % ips.len()],
            methods[i % methods.len()],
        ));
        assert_eq!(stats.total_requests(), n + 1);
        assert_eq!(sum_status(stats.status_codes()), n + 1);
        assert_eq!(sum_text(stats.paths()), n + 1);
        assert_eq!(sum_text(stats.ips()), n + 1);
        assert_eq!(sum_text(stats.methods()), n + 1);
    }
    assert_eq!(stats.bytes_sent(), (0..37u64).sum::<u64>());
    assert_eq!(
        entries_of_text(stats.methods()),
        vec![("GET".to_string(), 13), ("POST".to_string(), 12), ("PUT".to_string(), 12)]
    );
    assert_eq!(stats.ips().get(&"1.1.1.1".to_string()), 19);
    assert_eq!(stats.ips().get(&"2.2.2.2".to_string()), 18);
    assert_eq!(stats.ips().get(&"3.3.3.3".to_string()), 0);
}

#[test]
fn histogram_keeps_the_order_of_first_arrival() {
    let mut histogram: Histogram<String> = Histogram::new();
    for label in ["b", "a", "b", "c", "a", "b"] {
        histogram.add(&label.to_string());
    }
    assert_eq!(
        entries_of_text(&histogram),
        vec![("b".to_string(), 3), ("a".to_string(), 2), ("c".to_string(), 1)]
    );
    assert_eq!(histogram.get(&"b".to_string()), 3);
    assert_eq!(histogram.get(&"z".to_string()), 0);
    let copy = histogram.clone();
    histogram.add(&"z".to_string());
    assert_eq!(copy.len(), 3);
    assert_eq!(histogram.len(), 4);
}

#[test]
fn the_hundred_and_first_request_displaces_the_first() {
    let mut stats = Stats::new();
    for n in 1..=101u64 {
        stats.update(request(n, &format!("/page{}", n), 200, "1.1.1.1", "GET"));
        assert!(stats.recent_requests().len() <= 100);
    }
    let recent = stats.recent_requests();
    assert_eq!(recent.len(), 100);
    for (i, kept) in recent.iter().enumerate() {
        assert_eq!(kept.bytes_sent, i as u64 + 2);
        assert_eq!(kept.path, format!("/page{}", i + 2));
    }
    assert!(recent.iter().all(|r| r.path != "/page1"));
    assert_eq!(stats.total_requests(), 101);
    assert_eq!(stats.paths().get(&"/page1".to_string()), 1);
}

#[test]
fn a_hundred_requests_are_all_kept() {
    let mut stats = Stats::new();
    for n in 1..=100u64 {
        stats.update(request(n, "/p", 200, "1.1.1.1", "GET"));
        assert_eq!(stats.recent_requests().len() as u64, n);
    }
    assert_eq!(stats.recent_requests()[0].bytes_sent, 1);
    assert_eq!(stats.recent_requests()[99].bytes_sent, 100);
}

#[test]
fn snapshot_is_an_independent_copy() {
    let mut stats = Stats::new();
    stats.update(request(5, "/a", 200, "1.1.1.1", "GET"));
    stats.update(request(6, "/b", 404, "2.2.2.2", "POST"));
    let copy = stats.snapshot();
    stats.update(request(7, "/c", 500, "3.3.3.3", "PUT"));
    assert_eq!(copy.total_requests(), 2);
    assert_eq!(copy.bytes_sent(), 11);
    assert_eq!(entries_of_status(copy.status_codes()), vec![(200, 1), (404, 1)]);
    assert_eq!(
        entries_of_text(copy.paths()),
        vec![("/a".to_string(), 1), ("/b".to_string(), 1)]
    );
    assert_eq!(entries_of_text(copy.ips()).len(), 2);
    assert_eq!(entries_of_text(copy.methods()).len(), 2);
    assert_eq!(copy.recent_requests().len(), 2);
    assert_eq!(copy.recent_requests()[1], request(6, "/b", 404, "2.2.2.2", "POST"));
    assert_eq!(stats.total_requests(), 3);
    assert_eq!(stats.recent_requests().len(), 3);
}

#[test]
fn room_is_tested_against_the_counters() {
    let mut stats = Stats::new();
    let mut big = request(1, "/a", 200, "1.1.1.1", "GET");
    big.bytes_sent = u64::MAX - 1;
    assert!(stats.has_room_for(&big));
    stats.update(big);
    let mut one = request(2, "/a", 200, "1.1.1.1", "GET");
    one.bytes_sent = 1;
    assert!(stats.has_room_for(&one));
    let mut two = request(3, "/a", 200, "1.1.1.1", "GET");
    two.bytes_sent = 2;
    assert!(!stats.has_room_for(&two));
}

#[test]
fn three_lines_end_to_end() {
    let mut stats = Stats::new();
    for status in [200, 200, 404] {
        let text = format!(
            "10.0.0.7 - - [29/Nov/2021:12:34:56 +0000] \"GET /x HTTP/1.1\" {} 10 \"-\" \"curl/8.0\" 0.25",
            status
        );
        let parsed = parse_log_line(&text).expect("a well-formed line");
        assert!(stats.has_room_for(&parsed));
        stats.update(parsed);
    }
    assert_eq!(entries_of_status(stats.status_codes()), vec![(200, 2), (404, 1)]);
    assert_eq!(entries_of_text(stats.paths()), vec![("/x".to_string(), 3)]);
    assert_eq!(entries_of_text(stats.ips()), vec![("10.0.0.7".to_string(), 3)]);
    assert_eq!(entries_of_text(stats.methods()), vec![("GET".to_string(), 3)]);
    assert_eq!(stats.total_requests(), 3);
    assert_eq!(stats.bytes_sent(), 30);
    let elapsed_seconds = 1.5f64;
    assert_eq!(stats.total_requests() as f64 / elapsed_seconds, 2.0);
}
