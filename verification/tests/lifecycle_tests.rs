use systeminfo::config::ConnectionConfig;
use systeminfo::publisher::{publish_args, SAMPLE_INTERVAL_MS};
use systeminfo::supervisor::{
    repair_plan, ChannelAction, ChannelSupervisor, ConnectAction, ConnectionSupervisor,
    RETRY_DELAY_MS,
};
use systeminfo::topology::{
    consumer_tag_for, dead_letter_exchange, exchange_name, fresh_queue_name, queue_name_for,
    QueueBinding,
};

#[test]
fn connection_supervisor_retries_until_success() {
    // Two injected connection failures, then success: the supervisor sleeps
    // the fixed interval once per failure and ends up connected, within
    // RETRY_DELAY_MS times the number of attempts.
    let mut sup = ConnectionSupervisor::new();
    let outcomes = [false, false, true];
    let mut slept: u64 = 0;
    for ok in outcomes.iter() {
        match sup.on_attempt(*ok) {
            ConnectAction::SleepThenRetry { delay_ms } => slept += delay_ms,
            ConnectAction::UseConnection => break,
        }
    }
    assert!(sup.connected);
    assert_eq!(sup.attempts, 3);
    assert_eq!(slept, 2 * RETRY_DELAY_MS);
    assert!(slept <= RETRY_DELAY_MS * sup.attempts);
}

#[test]
fn connection_supervisor_entry_check() {
    let sup = ConnectionSupervisor::new();
    assert!(sup.must_open(false, false));
    assert!(sup.must_open(true, false));
    assert!(!sup.must_open(true, true));
}

#[test]
fn mark_disconnected_starts_new_episode() {
    let mut sup = ConnectionSupervisor::new();
    let _ = sup.on_attempt(true);
    assert!(sup.connected);
    sup.mark_disconnected();
    assert!(!sup.connected);
    assert_eq!(sup.attempts, 0);
}

#[test]
fn channel_open_failure_is_fatal() {
    let mut sup = ChannelSupervisor::new();
    assert_eq!(sup.on_open(false), ChannelAction::FailChain);
    assert!(!sup.channel_open);
    assert_eq!(sup.on_open(true), ChannelAction::UseChannel);
    assert!(sup.channel_open);
    sup.mark_invalid();
    assert!(!sup.channel_open);
}

#[test]
fn repair_order_connection_then_channel() {
    // A closed connection forces both repairs; a closed channel alone only
    // the channel; nothing open needs nothing.
    let p = repair_plan(false, true);
    assert!(p.reconnect && p.reopen_channel);
    let p = repair_plan(false, false);
    assert!(p.reconnect && p.reopen_channel);
    let p = repair_plan(true, false);
    assert!(!p.reconnect && p.reopen_channel);
    let p = repair_plan(true, true);
    assert!(!p.reconnect && !p.reopen_channel);
}

#[test]
fn publish_arguments_are_durable_fanout() {
    let a = publish_args(exchange_name());
    assert_eq!(a.exchange, "systemmonitor");
    assert_eq!(a.routing_key, "");
    assert!(a.persistent);
    assert!(!a.confirm_mode);
    assert_eq!(SAMPLE_INTERVAL_MS, 1000);
}

#[test]
fn fixed_names() {
    assert_eq!(exchange_name(), "systemmonitor");
    assert_eq!(dead_letter_exchange(), "all.deadletter");
}

#[test]
fn queue_names_carry_prefix_and_token() {
    assert_eq!(queue_name_for("abc"), "c_systemmonitor_abc");
    let q = fresh_queue_name();
    assert_eq!(q.len(), "c_systemmonitor_".len() + 36);
    assert!(q.starts_with("c_systemmonitor_"));
    let token = &q["c_systemmonitor_".len()..];
    assert!(token.chars().all(|c| c.is_ascii_hexdigit() || c == '-'));
}

#[test]
fn fresh_queue_names_are_distinct() {
    // Distinct processes (here: distinct draws) get distinct names.
    let a = fresh_queue_name();
    let b = fresh_queue_name();
    assert_ne!(a, b);
}

#[test]
fn consumer_tag_follows_queue_name() {
    assert_eq!(consumer_tag_for("c_systemmonitor_x"), "c_systemmonitor_x sub_monitor");
}

#[test]
fn queue_binding_is_auto_delete_fanout() {
    let b = QueueBinding::new(
        "c_systemmonitor_x".to_string(),
        "systemmonitor".to_string(),
        Some("all.deadletter".to_string()),
    );
    assert_eq!(b.queue_name, "c_systemmonitor_x");
    assert_eq!(b.exchange, "systemmonitor");
    assert_eq!(b.routing_key, "");
    assert!(b.auto_delete);
    assert!(!b.durable);
    assert_eq!(b.dead_letter_exchange.as_deref(), Some("all.deadletter"));
    // Declare and bind are separate round trips: a channel seen closed in
    // between must be reopened before the bind.
    assert!(b.reopen_before_bind(false));
    assert!(!b.reopen_before_bind(true));
}

#[test]
fn config_defaults_to_root_virtual_host() {
    let c = ConnectionConfig::new(
        "localhost".to_string(),
        5672,
        "consumer".to_string(),
        "crabs".to_string(),
    );
    assert_eq!(c.host, "localhost");
    assert_eq!(c.port, 5672);
    assert_eq!(c.username, "consumer");
    assert_eq!(c.virtual_host, "/");
    let d = c.duplicate();
    assert_eq!(d.host, c.host);
    assert_eq!(d.port, c.port);
    assert_eq!(d.username, c.username);
    assert_eq!(d.password, c.password);
    assert_eq!(d.virtual_host, c.virtual_host);
    let e = d.with_virtual_host("/telemetry".to_string());
    assert_eq!(e.virtual_host, "/telemetry");
    assert_eq!(e.host, "localhost");
}
