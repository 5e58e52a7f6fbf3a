use load_balancer::Metrics;
use load_balancer::MetricsClient;
use load_balancer::TrackedRequest;

fn record_call(client: &mut MetricsClient, duration_ms: u64, status: Option<u16>, failed: bool) {
    client.record_outcome(
        0,
        "GET".to_string(),
        "http://w/work".to_string(),
        duration_ms,
        status,
        failed,
    );
}

#[test]
fn accumulation_is_exact() {
    let mut client = MetricsClient::new();
    let durations = [3u64, 5, 7, 11];
    for d in durations {
        record_call(&mut client, d, Some(200), false);
    }
    let snapshot = client.snapshot();
    assert_eq!(snapshot.total_requests, 4);
    assert_eq!(snapshot.total_duration_ms, 26);
    assert_eq!(snapshot.errors, 0);
    assert_eq!(snapshot.average_duration_ms(), 6);
}

#[test]
fn status_buckets_count_each_code() {
    let mut client = MetricsClient::new();
    record_call(&mut client, 1, Some(200), false);
    record_call(&mut client, 1, Some(200), false);
    record_call(&mut client, 1, Some(404), false);
    record_call(&mut client, 1, Some(500), false);
    record_call(&mut client, 1, None, true);
    let snapshot = client.snapshot();
    assert_eq!(snapshot.status_count(200), 2);
    assert_eq!(snapshot.status_count(404), 1);
    assert_eq!(snapshot.status_count(500), 1);
    assert_eq!(snapshot.status_count(302), 0);
}

#[test]
fn errors_count_transport_failures_and_non_success_statuses() {
    let mut client = MetricsClient::new();
    record_call(&mut client, 1, Some(200), false);
    record_call(&mut client, 1, Some(299), false);
    record_call(&mut client, 1, Some(404), false);
    record_call(&mut client, 1, Some(500), false);
    record_call(&mut client, 1, None, true);
    let snapshot = client.snapshot();
    assert_eq!(snapshot.total_requests, 5);
    assert_eq!(snapshot.errors, 3);
    assert_eq!(snapshot.error_rate_permille(), 600);
}

#[test]
fn tracked_request_error_flag_follows_status() {
    let ok = TrackedRequest::new(0, "GET".to_string(), "u".to_string(), 1, Some(204), false);
    assert!(!ok.is_error);
    let client_error = TrackedRequest::new(0, "GET".to_string(), "u".to_string(), 1, Some(400), false);
    assert!(client_error.is_error);
    let transport = TrackedRequest::new(0, "GET".to_string(), "u".to_string(), 1, None, true);
    assert!(transport.is_error);
    assert_eq!(transport.status, None);
}

#[test]
fn snapshot_is_idempotent_without_recording() {
    let mut client = MetricsClient::new();
    record_call(&mut client, 4, Some(200), false);
    record_call(&mut client, 6, Some(503), true);
    let first = client.snapshot();
    let second = client.snapshot();
    assert_eq!(first.total_requests, second.total_requests);
    assert_eq!(first.total_duration_ms, second.total_duration_ms);
    assert_eq!(first.errors, second.errors);
    assert_eq!(first.status_count(200), second.status_count(200));
    assert_eq!(first.status_count(503), second.status_count(503));
    assert_eq!(first.recent_requests.len(), second.recent_requests.len());
}

#[test]
fn recent_requests_keep_the_last_thousand() {
    let mut client = MetricsClient::new();
    let n = 1100u64;
    for i in 0..n {
        client.record_outcome(
            i,
            "GET".to_string(),
            format!("http://w/{}", i),
            1,
            Some(200),
            false,
        );
    }
    let snapshot = client.snapshot();
    assert_eq!(snapshot.recent_requests.len(), 1000);
    // The oldest retained entry is the record of call number n - 1000
    // (counting from zero).
    assert_eq!(snapshot.recent_requests[0].timestamp_ms, n - 1000);
    assert_eq!(snapshot.recent_requests[0].uri, format!("http://w/{}", n - 1000));
    assert_eq!(snapshot.recent_requests[999].timestamp_ms, n - 1);
}

#[test]
fn empty_metrics_report_zero_rates() {
    let m = Metrics::new();
    assert_eq!(m.total_requests, 0);
    assert_eq!(m.average_duration_ms(), 0);
    assert_eq!(m.error_rate_permille(), 0);
    assert_eq!(m.status_count(200), 0);
}

#[test]
fn record_outcome_returns_the_tracked_record() {
    let mut client = MetricsClient::new();
    let t = client.record_outcome(
        42,
        "PUT".to_string(),
        "http://w/item".to_string(),
        17,
        Some(201),
        false,
    );
    assert_eq!(t.timestamp_ms, 42);
    assert_eq!(t.method, "PUT");
    assert_eq!(t.uri, "http://w/item");
    assert_eq!(t.duration_ms, 17);
    assert_eq!(t.status, Some(201));
    assert!(!t.is_error);
    let snapshot = client.snapshot();
    assert_eq!(snapshot.recent_requests.len(), 1);
    assert_eq!(snapshot.recent_requests[0].method, "PUT");
}
