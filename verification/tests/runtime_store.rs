//! What is remembered of the messages and failures of a server.

use subspace_daemon::clock::Timestamp;
use subspace_daemon::retry::{
    next_backoff, offset_delay, RetryConfig, StormGuardConfig,
};
use subspace_daemon::runtime_store::{timestamp_before_floor, RuntimeFile, RuntimeStore};

fn at(text: &str) -> Timestamp {
    Timestamp::parse(text).unwrap()
}

fn store(window: usize, floor: Option<&str>) -> RuntimeStore {
    RuntimeStore::load(
        None,
        window,
        floor.map(|value| value.to_string()),
        at("2026-03-18T12:00:00Z"),
    )
}

fn retry(threshold: u32) -> RetryConfig {
    RetryConfig {
        base_ms: 1,
        max_ms: 1,
        jitter_ratio_bits: 0f64.to_bits(),
        storm_guard: StormGuardConfig {
            failure_window_ms: 60_000,
            consecutive_failure_threshold: threshold,
            cooldown_ms: 5_000,
            max_cooldown_ms: 60_000,
        },
    }
}

#[test]
fn dedupes_pending_and_recent_ids() {
    let mut store = store(500, None);
    assert!(store.should_enqueue("m1", "2026-03-18T12:00:00Z"));
    assert!(!store.should_enqueue("m1", "2026-03-18T12:00:00Z"));
    store.mark_processed("m1", "2026-03-18T12:00:00Z");
    assert!(!store.should_enqueue("m1", "2026-03-18T12:00:00Z"));
}

#[test]
fn drops_messages_older_than_discard_floor() {
    let mut store = store(500, Some("2026-03-18T12:00:00Z"));
    assert!(!store.should_enqueue("m1", "2026-03-18T11:59:59Z"));
    assert!(store.should_enqueue("m2", "2026-03-18T12:00:00Z"));
}

#[test]
fn compares_discard_floor_by_timestamp_not_string_order() {
    let mut store = store(500, Some("2026-03-18T12:00:00Z"));
    assert!(store.should_enqueue("m1", "2026-03-18T05:00:00-07:00"));
}

#[test]
fn floors_that_are_no_instants_are_compared_as_texts() {
    assert!(timestamp_before_floor("a", &Some("b".to_string())));
    assert!(!timestamp_before_floor("b", &Some("a".to_string())));
    assert!(!timestamp_before_floor("a", &None));
    assert!(timestamp_before_floor("2026-03-18T12:00:00Z", &Some("later".to_string())));
}

#[test]
fn dedupe_window_size_bounds_recent_ids() {
    let mut store = store(1, None);
    assert!(store.should_enqueue("m1", "2026-03-18T12:00:00Z"));
    store.mark_processed("m1", "2026-03-18T12:00:00Z");
    assert!(store.should_enqueue("m2", "2026-03-18T12:00:01Z"));
    store.mark_processed("m2", "2026-03-18T12:00:01Z");
    assert!(store.should_enqueue("m1", "2026-03-18T12:00:02Z"));
}

#[test]
fn given_up_messages_may_come_again() {
    let mut store = store(10, None);
    assert!(store.should_enqueue("m1", "t"));
    store.mark_failed("m1");
    assert!(store.should_enqueue("m1", "t"));
}

#[test]
fn records_reconnect_cooldown_after_threshold() {
    let mut store = store(500, None);
    let retry = retry(2);
    let now = at("2026-04-17T12:00:00Z");

    assert!(store
        .record_reconnect_failure(now, &retry, "connection_refused".to_string(), 5_000)
        .is_none());
    assert_eq!(store.cooldown_due(now, &retry), Some(5_000));
    let cooldown = store
        .record_reconnect_failure(now, &retry, "connection_refused".to_string(), 5_000)
        .unwrap();

    assert_eq!(cooldown.consecutive_failures, 2);
    assert_eq!(cooldown.cooldown_ms, 5_000);
    assert_eq!(cooldown.next_attempt_at, "2026-04-17T12:00:05Z");
    assert_eq!(cooldown.last_error_kind.as_deref(), Some("connection_refused"));
    assert_eq!(cooldown.wait_ms(now), 5_000);
    assert_eq!(cooldown.wait_ms(at("2026-04-17T12:00:03.5Z")), 1_500);
    assert_eq!(cooldown.wait_ms(at("2026-04-17T12:00:06Z")), 0);
}

#[test]
fn persists_reconnect_storm_metadata() {
    let retry = retry(1);
    let now = at("2026-04-17T12:00:00Z");
    let mut before = store(500, None);
    before.record_reconnect_failure(now, &retry, "join_failed".to_string(), 5_000);
    let file = before.flush();

    let reloaded = RuntimeStore::load(Some(file), 500, None, now);
    let cooldown = reloaded.reconnect_cooldown().unwrap();
    assert_eq!(cooldown.consecutive_failures, 1);
    assert_eq!(cooldown.cooldown_ms, 5_000);
    assert_eq!(cooldown.next_attempt_at, "2026-04-17T12:00:05Z");
    assert_eq!(cooldown.last_error_kind.as_deref(), Some("join_failed"));
}

#[test]
fn reloaded_pre_cooldown_failures_continue_counting() {
    let retry = retry(3);
    let now = at("2026-04-17T12:00:00Z");
    let mut before = store(500, None);
    assert!(before
        .record_reconnect_failure(now, &retry, "timeout".to_string(), 5_000)
        .is_none());
    let file = before.flush();

    let mut reloaded = RuntimeStore::load(Some(file), 500, None, now);
    assert!(reloaded
        .record_reconnect_failure(now, &retry, "timeout".to_string(), 5_000)
        .is_none());
    let cooldown = reloaded
        .record_reconnect_failure(now, &retry, "timeout".to_string(), 5_000)
        .unwrap();

    assert_eq!(cooldown.consecutive_failures, 3);
    assert_eq!(cooldown.cooldown_ms, 5_000);
}

#[test]
fn cooldowns_double_up_to_the_maximum() {
    let mut store = store(1, None);
    let retry = retry(1);
    let now = at("2026-04-17T12:00:00Z");
    let mut seen = Vec::new();
    for _ in 0..6 {
        let due = store.cooldown_due(now, &retry).unwrap();
        let cooldown =
            store.record_reconnect_failure(now, &retry, "x".to_string(), due).unwrap();
        seen.push(cooldown.cooldown_ms);
    }
    assert_eq!(seen, vec![5_000, 10_000, 20_000, 40_000, 60_000, 60_000]);
    // A pause that chance has made longer than the maximum is cut.
    let cut = store.record_reconnect_failure(now, &retry, "x".to_string(), 70_000).unwrap();
    assert_eq!(cut.cooldown_ms, 60_000);
    store.clear_reconnect_storm();
    assert!(store.reconnect_cooldown().is_none());
}

#[test]
fn failures_outside_the_window_do_not_add_up() {
    let mut store = store(1, None);
    let retry = retry(2);
    assert!(store
        .record_reconnect_failure(at("2026-04-17T12:00:00Z"), &retry, "x".to_string(), 0)
        .is_none());
    assert!(store
        .record_reconnect_failure(at("2026-04-17T12:01:00.001Z"), &retry, "x".to_string(), 0)
        .is_none());
    assert!(store
        .record_reconnect_failure(at("2026-04-17T12:02:00Z"), &retry, "x".to_string(), 5_000)
        .is_some());
}

#[test]
fn restart_keeps_what_was_handled() {
    let mut before = store(2, None);
    for id in ["m1", "m2", "m3"] {
        assert!(before.should_enqueue(id, "2026-03-18T12:00:00Z"));
        before.mark_processed(id, "2026-03-18T12:00:00Z");
    }
    assert!(before.should_enqueue("m4", "2026-03-18T12:00:01Z"));
    let file: RuntimeFile = before.flush();
    assert_eq!(file.recent_ids, vec!["m2", "m3"]);
    assert_eq!(file.last_seen_ts.as_deref(), Some("2026-03-18T12:00:00Z"));
    let mut after = RuntimeStore::load(Some(file), 2, None, at("2026-03-18T12:00:02Z"));
    assert!(!after.should_enqueue("m3", "2026-03-18T12:00:00Z"));
    assert!(after.should_enqueue("m1", "2026-03-18T12:00:00Z"));
    assert!(after.should_enqueue("m4", "2026-03-18T12:00:01Z"));
}

#[test]
fn delays() {
    assert_eq!(next_backoff(1_000, 60_000), 2_000);
    assert_eq!(next_backoff(40_000, 60_000), 60_000);
    assert_eq!(next_backoff(u64::MAX, u64::MAX), u64::MAX);
    assert_eq!(offset_delay(1_000, 200), 1_200);
    assert_eq!(offset_delay(1_000, -200), 800);
    assert_eq!(offset_delay(100, -200), 0);
}

#[test]
fn instants_are_written_and_read() {
    assert_eq!(at("2026-03-18T05:00:00-07:00").format(), "2026-03-18T12:00:00Z");
    assert_eq!(
        Timestamp::from_unix_nanos(1_500_000_000).unwrap().format(),
        "1970-01-01T00:00:01.5Z"
    );
    assert!(Timestamp::parse("2026-03-18").is_none());
    assert!(Timestamp::from_unix_nanos(i128::MAX).is_none());
    let earlier = at("2026-03-18T12:00:00Z");
    assert!(earlier.is_before(&earlier.plus_ms(1)));
    assert_eq!(earlier.plus_ms(1).nanos_since(&earlier), 1_000_000);
}
