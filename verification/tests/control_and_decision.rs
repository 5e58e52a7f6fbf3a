use load_balancer::ActiveStrategy;
use load_balancer::ControlError;
use load_balancer::DecisionEngine;
use load_balancer::LoadBalancer;
use load_balancer::MetricsClient;
use load_balancer::RoundRobinStrategy;
use load_balancer::apply_strategy_command;
use load_balancer::handle_strategy_request;

fn hosts(names: &[&str]) -> Vec<String> {
    names.iter().map(|n| n.to_string()).collect()
}

fn three_worker_round_robin() -> LoadBalancer {
    LoadBalancer::new(ActiveStrategy::RoundRobin(RoundRobinStrategy::new(hosts(&[
        "http://w0",
        "http://w1",
        "http://w2",
    ]))))
}

#[test]
fn switching_to_least_connections_selects_the_first_idle_worker() {
    let mut lb = three_worker_round_robin();
    let (status, _body) = handle_strategy_request(&mut lb, "least_connections");
    assert_eq!(status, 200);
    // All counts are zero after the swap, so the first worker wins the tie.
    let (worker, outbound) = lb.prepare_forward("POST", &Some("/work".to_string()), &Vec::new());
    assert_eq!(worker, "http://w0");
    assert_eq!(outbound.uri, "http://w0/work");
}

#[test]
fn unrecognized_strategy_name_is_rejected_without_mutation() {
    let mut lb = three_worker_round_robin();
    let (w, _) = lb.prepare_forward("GET", &None, &Vec::new());
    assert_eq!(w, "http://w0");
    let (status, _body) = handle_strategy_request(&mut lb, "bogus");
    assert_eq!(status, 400);
    // The round-robin rotation continues where it left off.
    let (w2, _) = lb.prepare_forward("GET", &None, &Vec::new());
    assert_eq!(w2, "http://w1");
}

#[test]
fn strategy_names_are_exact_and_case_sensitive() {
    let mut lb = three_worker_round_robin();
    assert_eq!(
        apply_strategy_command(&mut lb, "Round_Robin"),
        Err(ControlError::UnknownStrategy)
    );
    assert_eq!(
        apply_strategy_command(&mut lb, "least_connections "),
        Err(ControlError::UnknownStrategy)
    );
    assert_eq!(apply_strategy_command(&mut lb, "round_robin"), Ok(()));
    assert_eq!(apply_strategy_command(&mut lb, "least_connections"), Ok(()));
}

#[test]
fn switching_back_to_round_robin_restarts_the_rotation() {
    let mut lb = three_worker_round_robin();
    let _ = lb.prepare_forward("GET", &None, &Vec::new());
    let _ = lb.prepare_forward("GET", &None, &Vec::new());
    assert_eq!(apply_strategy_command(&mut lb, "round_robin"), Ok(()));
    let (w, _) = lb.prepare_forward("GET", &None, &Vec::new());
    assert_eq!(w, "http://w0");
}

#[test]
fn engine_below_threshold_changes_nothing() {
    let mut lb = three_worker_round_robin();
    let mut client = MetricsClient::new();
    let engine = DecisionEngine::new(5, None);
    for _ in 0..5 {
        client.record_outcome(0, "POST".to_string(), "http://w/work".to_string(), 1, Some(200), false);
    }
    let snapshot = client.snapshot();
    assert_eq!(snapshot.total_requests, 5);
    engine.evaluate(snapshot.total_requests, &mut lb);
    // Exactly five completed calls do not exceed the threshold of five.
    let (w, _) = lb.prepare_forward("GET", &None, &Vec::new());
    assert_eq!(w, "http://w0");
    let (w2, _) = lb.prepare_forward("GET", &None, &Vec::new());
    assert_eq!(w2, "http://w1");
}

#[test]
fn engine_above_threshold_installs_first_worker() {
    let mut lb = three_worker_round_robin();
    let mut client = MetricsClient::new();
    let engine = DecisionEngine::new(5, None);
    for _ in 0..6 {
        client.record_outcome(0, "POST".to_string(), "http://w/work".to_string(), 1, Some(200), false);
    }
    let before = lb.get_worker_hosts();
    engine.evaluate(client.snapshot().total_requests, &mut lb);
    // The worker list is unchanged, but every selection now returns the
    // first worker.
    assert_eq!(lb.get_worker_hosts(), before);
    for _ in 0..4 {
        let (w, _) = lb.prepare_forward("POST", &Some("/work".to_string()), &Vec::new());
        assert_eq!(w, "http://w0");
    }
}

#[test]
fn engine_retrigger_is_idempotent() {
    let mut lb = three_worker_round_robin();
    let engine = DecisionEngine::new(5, None);
    engine.evaluate(10, &mut lb);
    engine.evaluate(11, &mut lb);
    let (w, _) = lb.prepare_forward("GET", &None, &Vec::new());
    assert_eq!(w, "http://w0");
    assert_eq!(lb.get_worker_hosts(), hosts(&["http://w0", "http://w1", "http://w2"]));
}
