use load_balancer::FirstWorkerStrategy;
use load_balancer::LBStrategy;
use load_balancer::LeastConnectionsStrategy;
use load_balancer::RandomStrategy;
use load_balancer::RoundRobinStrategy;

fn hosts(names: &[&str]) -> Vec<String> {
    names.iter().map(|n| n.to_string()).collect()
}

#[test]
fn round_robin_cycles_in_order() {
    let mut s = RoundRobinStrategy::new(hosts(&["a", "b", "c", "d"]));
    let mut seen = Vec::new();
    for _ in 0..9 {
        seen.push(s.get_next_worker());
    }
    assert_eq!(seen, vec!["a", "b", "c", "d", "a", "b", "c", "d", "a"]);
}

#[test]
fn round_robin_selection_i_is_i_mod_n() {
    let n = 3;
    let mut s = RoundRobinStrategy::new(hosts(&["w0", "w1", "w2"]));
    for i in 0..20 {
        let w = s.get_next_worker();
        assert_eq!(w, format!("w{}", i % n));
    }
}

#[test]
fn round_robin_hooks_do_not_disturb_rotation() {
    let mut s = RoundRobinStrategy::new(hosts(&["a", "b"]));
    assert_eq!(s.get_next_worker(), "a");
    s.on_request_start("a");
    s.on_request_complete("a");
    assert_eq!(s.get_next_worker(), "b");
    s.on_request_start("b");
    assert_eq!(s.get_next_worker(), "a");
}

#[test]
fn round_robin_lists_workers_in_construction_order() {
    let s = RoundRobinStrategy::new(hosts(&["x", "y"]));
    assert_eq!(s.get_worker_hosts(), vec!["x".to_string(), "y".to_string()]);
}

#[test]
fn first_worker_always_picks_the_first() {
    let mut s = FirstWorkerStrategy::new(hosts(&["one", "two", "three"]));
    for _ in 0..5 {
        assert_eq!(s.get_next_worker(), "one");
    }
    assert_eq!(s.get_worker_hosts(), hosts(&["one", "two", "three"]));
}

#[test]
fn random_picks_a_known_worker() {
    let list = hosts(&["a", "b", "c"]);
    let mut s = RandomStrategy::new(list.clone());
    for _ in 0..50 {
        let w = s.get_next_worker();
        assert!(list.contains(&w));
    }
}

#[test]
fn random_with_one_worker_is_deterministic() {
    let mut s = RandomStrategy::new(hosts(&["only"]));
    for _ in 0..10 {
        assert_eq!(s.get_next_worker(), "only");
    }
}

#[test]
fn least_connections_all_tied_picks_first() {
    let mut s = LeastConnectionsStrategy::new(hosts(&["a", "b", "c"]));
    assert_eq!(s.get_next_worker(), "a");
}

#[test]
fn least_connections_avoids_busy_workers() {
    let mut s = LeastConnectionsStrategy::new(hosts(&["a", "b", "c"]));
    s.on_request_start("a");
    assert_eq!(s.get_next_worker(), "b");
    s.on_request_start("b");
    s.on_request_start("b");
    // a has 1 outstanding, b has 2, c has 0.
    assert_eq!(s.get_next_worker(), "c");
    s.on_request_start("c");
    s.on_request_start("c");
    // a now has the fewest outstanding starts minus completes.
    assert_eq!(s.get_next_worker(), "a");
}

#[test]
fn least_connections_counts_track_starts_minus_completes() {
    let mut s = LeastConnectionsStrategy::new(hosts(&["a", "b"]));
    assert_eq!(s.get_connections_count("a"), 0);
    s.add_active_connection("a");
    s.add_active_connection("a");
    s.add_active_connection("b");
    assert_eq!(s.get_connections_count("a"), 2);
    assert_eq!(s.get_connections_count("b"), 1);
    s.remove_active_connection("a");
    assert_eq!(s.get_connections_count("a"), 1);
    s.remove_active_connection("a");
    assert_eq!(s.get_connections_count("a"), 0);
}

#[test]
fn least_connections_removal_below_zero_is_a_no_op() {
    let mut s = LeastConnectionsStrategy::new(hosts(&["a"]));
    s.remove_active_connection("a");
    assert_eq!(s.get_connections_count("a"), 0);
    s.remove_active_connection("nowhere");
    assert_eq!(s.get_connections_count("nowhere"), 0);
}

#[test]
fn least_connections_ties_break_by_construction_order() {
    let mut s = LeastConnectionsStrategy::new(hosts(&["a", "b", "c"]));
    s.on_request_start("a");
    s.on_request_start("b");
    s.on_request_start("c");
    // All tied at one outstanding connection again: the first wins.
    assert_eq!(s.get_next_worker(), "a");
}

#[test]
fn least_connections_completion_frees_the_worker() {
    let mut s = LeastConnectionsStrategy::new(hosts(&["a", "b"]));
    s.on_request_start("a");
    assert_eq!(s.get_next_worker(), "b");
    s.on_request_complete("a");
    assert_eq!(s.get_next_worker(), "a");
}
