use load_balancer::ActiveStrategy;
use load_balancer::LBStrategy;
use load_balancer::LeastConnectionsStrategy;
use load_balancer::LoadBalancer;
use load_balancer::RoundRobinStrategy;
use load_balancer::build_outbound_request;
use load_balancer::insert_header;

fn hosts(names: &[&str]) -> Vec<String> {
    names.iter().map(|n| n.to_string()).collect()
}

fn header(name: &str, value: &str) -> (String, String) {
    (name.to_string(), value.to_string())
}

#[test]
fn outbound_uri_appends_path_and_query() {
    let r = build_outbound_request(
        "http://localhost:3000",
        "POST",
        &Some("/work?x=1".to_string()),
        &Vec::new(),
    );
    assert_eq!(r.uri, "http://localhost:3000/work?x=1");
    assert_eq!(r.method, "POST");
    assert!(r.headers.is_empty());
}

#[test]
fn outbound_uri_without_path_is_the_bare_worker() {
    let r = build_outbound_request("http://localhost:3000", "GET", &None, &Vec::new());
    assert_eq!(r.uri, "http://localhost:3000");
    assert_eq!(r.method, "GET");
}

#[test]
fn outbound_headers_are_copied_verbatim() {
    let inbound = vec![header("host", "proxy"), header("accept", "*/*")];
    let r = build_outbound_request("http://w", "GET", &None, &inbound);
    assert_eq!(r.headers, inbound);
}

#[test]
fn outbound_duplicate_header_last_write_wins() {
    let inbound = vec![
        header("x-trace", "first"),
        header("accept", "*/*"),
        header("x-trace", "second"),
    ];
    let r = build_outbound_request("http://w", "GET", &None, &inbound);
    assert_eq!(r.headers, vec![header("x-trace", "second"), header("accept", "*/*")]);
}

#[test]
fn insert_header_replaces_in_place_or_appends() {
    let mut headers = vec![header("a", "1"), header("b", "2")];
    insert_header(&mut headers, "a".to_string(), "3".to_string());
    assert_eq!(headers, vec![header("a", "3"), header("b", "2")]);
    insert_header(&mut headers, "c".to_string(), "4".to_string());
    assert_eq!(headers, vec![header("a", "3"), header("b", "2"), header("c", "4")]);
}

#[test]
fn prepare_forward_selects_and_rewrites() {
    let strategy = ActiveStrategy::RoundRobin(RoundRobinStrategy::new(hosts(&["http://a", "http://b"])));
    let mut lb = LoadBalancer::new(strategy);
    let inbound_headers = vec![header("accept", "*/*")];
    let (worker, outbound) = lb.prepare_forward("POST", &Some("/work".to_string()), &inbound_headers);
    assert_eq!(worker, "http://a");
    assert_eq!(outbound.uri, "http://a/work");
    assert_eq!(outbound.method, "POST");
    assert_eq!(outbound.headers, inbound_headers);
    let (worker2, outbound2) = lb.prepare_forward("GET", &None, &Vec::new());
    assert_eq!(worker2, "http://b");
    assert_eq!(outbound2.uri, "http://b");
}

#[test]
fn forward_hooks_update_least_connections_accounting() {
    let strategy =
        ActiveStrategy::LeastConnections(LeastConnectionsStrategy::new(hosts(&["a", "b"])));
    let mut lb = LoadBalancer::new(strategy);
    let (worker, _outbound) = lb.prepare_forward("GET", &None, &Vec::new());
    assert_eq!(worker, "a");
    // The start hook ran, so the next selection goes elsewhere.
    let (worker2, _outbound2) = lb.prepare_forward("GET", &None, &Vec::new());
    assert_eq!(worker2, "b");
    // Completion accounting runs on success and failure alike.
    lb.complete_forward(&worker);
    lb.complete_forward(&worker2);
    let (worker3, _outbound3) = lb.prepare_forward("GET", &None, &Vec::new());
    assert_eq!(worker3, "a");
}

#[test]
fn set_strategy_takes_effect_for_later_selections() {
    let mut lb = LoadBalancer::new(ActiveStrategy::RoundRobin(RoundRobinStrategy::new(hosts(&[
        "a", "b",
    ]))));
    assert_eq!(lb.get_worker_hosts(), hosts(&["a", "b"]));
    let (w, _) = lb.prepare_forward("GET", &None, &Vec::new());
    assert_eq!(w, "a");
    lb.set_strategy(ActiveStrategy::LeastConnections(LeastConnectionsStrategy::new(hosts(&[
        "b", "a",
    ]))));
    assert_eq!(lb.get_worker_hosts(), hosts(&["b", "a"]));
    let (w2, _) = lb.prepare_forward("GET", &None, &Vec::new());
    assert_eq!(w2, "b");
}

#[test]
fn active_strategy_dispatches_through_the_trait() {
    let mut s = ActiveStrategy::RoundRobin(RoundRobinStrategy::new(hosts(&["a", "b"])));
    assert_eq!(s.get_next_worker(), "a");
    assert_eq!(s.get_next_worker(), "b");
    assert_eq!(s.get_worker_hosts(), hosts(&["a", "b"]));
}
