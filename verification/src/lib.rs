//! An adaptive reverse-proxy load-balancing core.
//!
//! The crate holds the verified logic of a small reverse proxy: the routing
//! strategies (round-robin, least-connections, random, first-worker), the
//! construction of the outbound request from an inbound one, the metrics
//! aggregate fed by completed outbound calls, and the decision rules that
//! swap the active strategy at runtime.  The network transport around this
//! core hands plain values in and takes plain values back.

mod active_strategy;
mod control;
mod decision_engine;
mod first_worker;
mod least_connections;
mod load_balancer;
mod metrics;
mod metrics_client;
mod outbound;
mod random;
mod round_robin;
mod strategy;
mod tracked_request;
mod util;

pub use active_strategy::ActiveStrategy;
pub use control::ControlError;
pub use control::apply_strategy_command;
pub use control::handle_strategy_request;
pub use decision_engine::DEFAULT_DECISION_THRESHOLD;
pub use decision_engine::DEFAULT_TICK_INTERVAL_MS;
pub use decision_engine::DecisionEngine;
pub use first_worker::FirstWorkerStrategy;
pub use least_connections::LeastConnectionsStrategy;
pub use least_connections::HookEvent;
pub use least_connections::assoc_count;
pub use least_connections::assoc_has_key;
pub use least_connections::assoc_keys_unique;
pub use least_connections::completes_for;
pub use least_connections::first_min_index;
pub use least_connections::hook_chain;
pub use least_connections::lemma_first_min_index;
pub use least_connections::lemma_first_min_index_all_tied;
pub use least_connections::lemma_counts_track_hooks;
pub use least_connections::lemma_least_connections_selection;
pub use least_connections::starts_for;
pub use load_balancer::LoadBalancer;
pub use metrics::Metrics;
pub use metrics::MetricsView;
pub use metrics::RECENT_REQUEST_CAPACITY;
pub use metrics::lemma_metrics_accumulation;
pub use metrics::lemma_recent_requests_bound;
pub use metrics::lemma_recent_requests_window;
pub use metrics::lemma_snapshot_idempotent;
pub use metrics::spec_record;
pub use metrics::spec_replay;
pub use metrics::status_count_in;
pub use metrics::status_has_key;
pub use metrics::status_keys_unique;
pub use metrics::sum_durations;
pub use metrics_client::MetricsClient;
pub use outbound::OutboundRequest;
pub use outbound::build_outbound_request;
pub use outbound::header_map;
pub use outbound::header_names_unique;
pub use outbound::insert_header;
pub use random::RandomStrategy;
pub use round_robin::RotationEvent;
pub use round_robin::RoundRobinStrategy;
pub use round_robin::lemma_round_robin_rotation;
pub use round_robin::rotation_chain;
pub use round_robin::selections_in;
pub use strategy::LBStrategy;
pub use tracked_request::TrackedRequest;
pub use tracked_request::TrackedRequestView;
pub use tracked_request::is_success_status;
pub use tracked_request::spec_is_success;
