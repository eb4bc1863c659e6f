//! The way of an accepted message to its sinks, and the failures on it.

use subspace_daemon::attention::layer::{
    AttentionDisposition, AttentionResult, ReceptorMatch,
};
use subspace_daemon::attention::receptor::ReceptorClass;
use subspace_daemon::config::{ServerConfig, SinkConfig, SinkKind, StorageConfig};
use subspace_daemon::hard_failure::{
    render_template, HardFailureEvent, HardFailureHookConfig, HardFailureHooks,
};
use subspace_daemon::json::{empty_object, Json};
use subspace_daemon::storage::{
    accepted_record, sink_delivery_row, wake_sink_settings, DeliveryStore, SchemaStep,
};
use subspace_daemon::supervisor::tasks::{
    needs_delivery_store, server_task_name, servers_to_start, store_not_ready_event,
    task_exit_event, task_exit_reason, TaskEnd,
};
use subspace_daemon::supervisor::wake::{
    db_sink, enabled_sink_count, render_inbound_wake, routing_entry_for_sink,
    storage_hard_failure_event, StepOutcome, WakeAction, WakeContext, WakeEnvelope, WakeRun,
};

// ---------------------------------------------------------------------------
// Hooks
// ---------------------------------------------------------------------------

fn payload_for_test() -> Json {
    empty_object().with("test", Json::Bool(true))
}

fn hook(key: &str, throttle_ms: u64, enabled: bool) -> HardFailureHookConfig {
    HardFailureHookConfig {
        key: key.to_string(),
        command: "/bin/sh".to_string(),
        args: vec!["-c".to_string(), "true".to_string()],
        env: Vec::new(),
        template: "{{payload}}".to_string(),
        timeout_ms: 5_000,
        throttle_ms,
        enabled,
    }
}

fn failed(target: Option<&str>) -> HardFailureEvent {
    let target = target.map(|value| value.to_string());
    HardFailureEvent::new("daemon", "gateway", target, "failed", payload_for_test())
}

#[test]
fn hook_dedupes_within_throttle_window() {
    let mut hooks = HardFailureHooks::new(vec![hook("capture", 60_000, true)]);
    let event = failed(None);
    let mut runs = String::new();
    for now_ns in [0, 1_000_000] {
        if !hooks.throttled(0, &event, now_ns) {
            runs.push('x');
        }
    }
    assert_eq!(runs, "x");
}

#[test]
fn hook_runs_again_after_the_throttle_window() {
    let mut hooks = HardFailureHooks::new(vec![hook("capture", 60_000, true)]);
    assert!(!hooks.throttled(0, &failed(None), 5));
    assert!(hooks.throttled(0, &failed(None), 5 + 60_000_000_000 - 1));
    assert!(!hooks.throttled(0, &failed(Some("other")), 6));
    assert!(!hooks.throttled(0, &failed(None), 5 + 60_000_000_000));
}

#[test]
fn hooks_without_throttle_always_run() {
    let mut hooks = HardFailureHooks::new(vec![
        hook("off", 0, false),
        hook("a", 0, true),
        hook("b", 1, true),
    ]);
    assert!(!hooks.is_empty());
    assert_eq!(hooks.len(), 2);
    assert_eq!(hooks.hook(0).key, "a");
    assert_eq!(hooks.hook(1).key, "b");
    assert!(!hooks.throttled(0, &failed(None), 0));
    assert!(!hooks.throttled(0, &failed(None), 0));
    assert!(!hooks.throttled(1, &failed(None), 0));
    assert!(hooks.throttled(1, &failed(None), 0));
    assert!(HardFailureHooks::new(vec![hook("off", 0, false)]).is_empty());
}

#[test]
fn templates_are_filled_in() {
    let event = failed(Some("server-a"));
    assert_eq!(event.dedupe_key(), "daemon:gateway:server-a");
    assert_eq!(failed(None).dedupe_key(), "daemon:gateway:");
    assert_eq!(
        render_template("{{kind}}/{{component}}/{{target}}/{{message}} {{payload}}", &event, "{}"),
        "daemon/gateway/server-a/failed {}"
    );
    assert_eq!(render_template("{{target}}", &failed(None), ""), "");
    assert_eq!(render_template("{{payload}}", &event, "<{{kind}}>"), "<daemon>");
}

#[test]
fn payload_leaves_out_a_missing_target() {
    let payload = failed(Some("server-a")).into_payload();
    assert_eq!(payload.get_text("kind"), Some("daemon"));
    assert_eq!(payload.get_text("component"), Some("gateway"));
    assert_eq!(payload.get_text("target"), Some("server-a"));
    assert_eq!(payload.get_text("message"), Some("failed"));
    assert!(matches!(payload.get("metadata").unwrap().get("test"), Some(Json::Bool(true))));
    assert!(failed(None).into_payload().get("target").is_none());
}

// ---------------------------------------------------------------------------
// Sinks
// ---------------------------------------------------------------------------

fn sink(key: &str, kind: SinkKind, enabled: bool, destination: Option<&str>) -> SinkConfig {
    SinkConfig {
        key: key.to_string(),
        kind,
        enabled,
        destination: destination.map(|value| value.to_string()),
    }
}

#[test]
fn enabled_sink_count_treats_empty_and_disabled_sinks_as_no_delivery_targets() {
    assert_eq!(enabled_sink_count(&vec![]), 0);
    assert_eq!(
        enabled_sink_count(&vec![SinkConfig {
            key: "db".to_string(),
            kind: SinkKind::Db,
            enabled: false,
            destination: None,
        }]),
        0
    );
    assert_eq!(
        enabled_sink_count(&vec![SinkConfig {
            key: "db".to_string(),
            kind: SinkKind::Db,
            enabled: true,
            destination: None,
        }]),
        1
    );
}

fn envelope() -> WakeEnvelope {
    WakeEnvelope {
        server: "https://subspace.example".to_string(),
        server_key: "https_subspace_example_443".to_string(),
        message_id: "msg-1".to_string(),
        timestamp: "2026-05-13T18:00:00Z".to_string(),
        inbound_event: "new_message".to_string(),
        author_id: "agent:sender".to_string(),
        author_name: "Sender".to_string(),
        text: "hello".to_string(),
        sender_embeddings: Vec::new(),
        wake_session_key_override: None,
    }
}

fn attention(deliver: bool) -> AttentionResult {
    AttentionResult {
        deliver,
        disposition: if deliver {
            AttentionDisposition::Deliver
        } else {
            AttentionDisposition::Filtered
        },
        matches: vec![ReceptorMatch {
            receptor_id: "rust".to_string(),
            class: ReceptorClass::Broad,
            score: 0.75f32.to_bits(),
            threshold: 0.5f32.to_bits(),
            above_threshold: deliver,
        }],
        space_id: None,
        fallback: false,
        veto_not_evaluated: false,
    }
}

fn context(sinks: Vec<SinkConfig>, deliver: bool, database: bool) -> WakeContext {
    WakeContext {
        item: envelope(),
        attention: attention(deliver),
        sinks,
        wake_session_key: "agent:heimdal:main".to_string(),
        database_path: if database { Some("/r/daemon.sqlite3".to_string()) } else { None },
        base_ms: 100,
        max_ms: 350,
    }
}

#[test]
fn wake_text_names_server_sender_and_matches() {
    assert_eq!(
        render_inbound_wake(&envelope(), &attention(true)),
        "[Subspace inbound]\nServer: https://subspace.example\nServerKey: https_subspace_example_443\nFrom: Sender\nMessageId: msg-1\nReceptorMatches:\n  - rust (0.750)\n\nhello"
    );
    let anonymous = WakeEnvelope { author_name: "  ".to_string(), ..envelope() };
    assert_eq!(
        render_inbound_wake(&anonymous, &attention(false)),
        "[Subspace inbound]\nServer: https://subspace.example\nServerKey: https_subspace_example_443\nFrom: agent:sender\nMessageId: msg-1\n\nhello"
    );
}

#[test]
fn destinations_of_sinks() {
    let destination = |sink: &SinkConfig, over: Option<&str>, path: Option<&str>| {
        routing_entry_for_sink(
            sink,
            &over.map(|value| value.to_string()),
            "agent:main",
            &path.map(|value| value.to_string()),
        )
        .destination
    };
    let wake = sink("w", SinkKind::AgentSessionWake, true, None);
    assert_eq!(destination(&wake, None, None), "agent:main");
    assert_eq!(destination(&wake, Some("agent:over"), None), "agent:over");
    let named = sink("w", SinkKind::AgentSessionWake, true, Some("agent:named"));
    assert_eq!(destination(&named, Some("agent:over"), None), "agent:named");
    let db = sink("d", SinkKind::Db, true, None);
    assert_eq!(destination(&db, None, Some("/r/d")), "/r/d");
    assert_eq!(destination(&db, None, None), "db");
}

#[test]
fn messages_are_routed_to_one_database_and_all_sessions() {
    let ctx = context(
        vec![
            sink("w1", SinkKind::AgentSessionWake, true, None),
            sink("d0", SinkKind::Db, false, None),
            sink("d1", SinkKind::Db, true, None),
            sink("d2", SinkKind::Db, true, None),
            sink("w2", SinkKind::AgentSessionWake, true, Some("agent:two")),
        ],
        true,
        true,
    );
    assert_eq!(db_sink(&ctx.sinks), Some(2));
    assert!(needs_delivery_store(&ctx.sinks));
    assert!(!needs_delivery_store(&vec![sink("d0", SinkKind::Db, false, None)]));
    let routing = ctx.routing();
    let keys = |entries: &Vec<subspace_daemon::supervisor::wake::SinkRoutingEntry>| -> Vec<String> {
        entries.iter().map(|entry| entry.sink_key.clone()).collect()
    };
    assert_eq!(keys(&routing.candidate_sinks), vec!["w1", "d1", "d2", "w2"]);
    assert_eq!(keys(&routing.selected_sinks), vec!["d1", "w1", "w2"]);
}

// ---------------------------------------------------------------------------
// The way of a message
// ---------------------------------------------------------------------------

/// A word for each step that a message goes through; a step fails as the list says, by its number.
fn course(ctx: &WakeContext, mut outcomes: Vec<(usize, StepOutcome)>) -> Vec<String> {
    let mut run = WakeRun::start(ctx);
    let mut steps: Vec<String> = Vec::new();
    loop {
        let (step, last) = match run.action(ctx) {
            WakeAction::RecordDecision => ("decision".to_string(), false),
            WakeAction::Report(event) => (format!("report {}", event.kind), false),
            WakeAction::ReconcileTargets => ("reconcile".to_string(), false),
            WakeAction::RecordDbDelivery(i) => (format!("db {}", i), false),
            WakeAction::QueueWake { sink, session_key } => {
                (format!("queue {} {}", sink, session_key), false)
            }
            WakeAction::MarkAttempted => ("attempted".to_string(), false),
            WakeAction::Send { session_key, idempotency_key, .. } => {
                (format!("send {} {}", session_key, idempotency_key), false)
            }
            WakeAction::MarkDelivered => ("delivered".to_string(), false),
            WakeAction::MarkFailed { error } => (format!("failed {}", error), false),
            WakeAction::Pause { base_ms } => (format!("pause {}", base_ms), false),
            WakeAction::MarkProcessed => ("processed".to_string(), false),
            WakeAction::Finished => ("finished".to_string(), true),
            WakeAction::Abort { event, message } => (
                format!("abort {} {}", event.map(|e| e.kind).unwrap_or_default(), message),
                true,
            ),
            WakeAction::Stop => ("stop".to_string(), true),
        };
        steps.push(step);
        if last {
            return steps;
        }
        let number = steps.len() - 1;
        let outcome = match outcomes.iter().position(|(n, _)| *n == number) {
            Some(i) => outcomes.remove(i).1,
            None => StepOutcome::Done,
        };
        run.advance(ctx, outcome);
    }
}

fn failing(number: usize) -> (usize, StepOutcome) {
    (number, StepOutcome::Failed("boom".to_string()))
}

fn two_sinks() -> Vec<SinkConfig> {
    vec![
        sink("db", SinkKind::Db, true, None),
        sink("wake", SinkKind::AgentSessionWake, true, None),
    ]
}

const SEND: &str = "send agent:heimdal:main https_subspace_example_443:msg-1:wake";

#[test]
fn delivered_message_goes_through_all_steps() {
    assert_eq!(
        course(&context(two_sinks(), true, true), vec![]),
        vec![
            "decision",
            "reconcile",
            "db 0",
            "queue 1 agent:heimdal:main",
            "attempted",
            SEND,
            "delivered",
            "processed",
            "finished"
        ]
    );
}

#[test]
fn filtered_message_is_only_recorded() {
    assert_eq!(
        course(&context(two_sinks(), false, true), vec![]),
        vec!["decision", "processed", "finished"]
    );
    assert_eq!(
        course(&context(two_sinks(), false, false), vec![]),
        vec!["processed", "finished"]
    );
}

#[test]
fn message_without_sinks_is_reported() {
    let off = vec![sink("wake", SinkKind::AgentSessionWake, false, None)];
    assert_eq!(
        course(&context(off, true, false), vec![]),
        vec!["report sink_delivery_blocked_no_sinks", "processed", "finished"]
    );
}

#[test]
fn failed_wake_is_tried_again_after_growing_pauses() {
    let wake = vec![sink("wake", SinkKind::AgentSessionWake, true, None)];
    assert_eq!(
        course(&context(wake, true, false), vec![failing(0), failing(3), failing(6)]),
        vec![
            SEND,
            "report wake_delivery_failed",
            "pause 100",
            SEND,
            "report wake_delivery_failed",
            "pause 200",
            SEND,
            "report wake_delivery_failed",
            "pause 350",
            SEND,
            "processed",
            "finished"
        ]
    );
}

#[test]
fn failed_wake_is_recorded_where_there_is_a_database() {
    let wake = vec![sink("wake", SinkKind::AgentSessionWake, true, None)];
    assert_eq!(
        course(&context(wake, true, true), vec![failing(4)]),
        vec![
            "decision",
            "reconcile",
            "queue 0 agent:heimdal:main",
            "attempted",
            SEND,
            "failed boom",
            "report wake_delivery_failed",
            "pause 100",
            "attempted",
            SEND,
            "delivered",
            "processed",
            "finished"
        ]
    );
}

#[test]
fn delivered_wake_is_passed_over() {
    let steps = course(
        &context(two_sinks(), true, true),
        vec![(3, StepOutcome::AlreadyDelivered)],
    );
    assert_eq!(steps[3..], ["queue 1 agent:heimdal:main", "processed", "finished"]);
}

#[test]
fn database_failures_leave_the_message_unhandled() {
    let ctx = context(two_sinks(), true, true);
    let last = |number: usize| course(&ctx, vec![failing(number)]).pop().unwrap();
    assert_eq!(last(0), "abort db_attention_decision_failed boom");
    assert_eq!(last(1), "abort db_sink_target_reconcile_failed boom");
    assert_eq!(last(2), "abort db_sink_delivery_failed boom");
    assert_eq!(last(3), "abort db_wake_sink_queue_failed boom");
    assert_eq!(last(4), "abort  boom");
    assert_eq!(last(6), "abort  boom");
    assert_eq!(last(7), "abort  boom");
}

#[test]
fn shutdown_stops_the_way_of_a_message() {
    let ctx = context(two_sinks(), true, true);
    assert_eq!(course(&ctx, vec![(5, StepOutcome::TimedOut)]).pop().unwrap(), "stop");
    assert_eq!(
        course(&ctx, vec![failing(5), (8, StepOutcome::TimedOut)]).pop().unwrap(),
        "stop"
    );
}

// ---------------------------------------------------------------------------
// The database
// ---------------------------------------------------------------------------

fn store(auto_migrate: bool) -> DeliveryStore {
    DeliveryStore::new(&StorageConfig {
        database_path: "/r/daemon.sqlite3".to_string(),
        artifact_root: "/r/artifacts".to_string(),
        auto_migrate,
    })
}

#[test]
fn auto_migrate_false_requires_existing_schema() {
    let err = store(false).ensure_ready(false).unwrap_err().message;
    assert!(err.contains("storage.auto_migrate is false"));
}

#[test]
fn tables_are_made_once() {
    assert_eq!(store(true).ensure_ready(false).unwrap(), SchemaStep::CreateTables);
    assert_eq!(store(true).ensure_ready(true).unwrap(), SchemaStep::Ready);
    assert_eq!(store(false).ensure_ready(true).unwrap(), SchemaStep::Ready);
}

#[test]
fn rows_of_the_database() {
    let store = store(true);
    assert_eq!(store.database_path(), "/r/daemon.sqlite3");
    assert_eq!(store.artifact_root(), "/r/artifacts");
    assert_eq!(store.db_sink_settings().get_text("artifact_root"), Some("/r/artifacts"));
    assert_eq!(wake_sink_settings("agent:main").get_text("session_key"), Some("agent:main"));
    let first = accepted_record(1, Some(7)).unwrap();
    assert_eq!((first.accepted_message_id, first.inserted), (7, true));
    assert!(!accepted_record(0, Some(7)).unwrap().inserted);
    assert_eq!(
        accepted_record(1, None).unwrap_err().message,
        "accepted_message row missing after upsert"
    );
    let row = sink_delivery_row(7, "wake", SinkKind::AgentSessionWake, "agent:main").unwrap();
    assert_eq!(row.destination, "agent:main");
    assert_eq!(
        sink_delivery_row(7, "wake", SinkKind::Db, " ").unwrap_err().message,
        "sink destination must not be empty"
    );
    assert_eq!(SinkKind::AgentSessionWake.as_str(), "agent_session_wake");
}

#[test]
fn storage_events_name_the_message() {
    let event = storage_hard_failure_event("db_sink_delivery_failed", &envelope(), "locked");
    assert_eq!(event.component, "storage");
    assert_eq!(event.target.as_deref(), Some("https://subspace.example"));
    assert_eq!(event.message, "locked");
    assert_eq!(event.metadata.get_text("message_id"), Some("msg-1"));
    let event = store_not_ready_event("/r/d", "locked");
    assert_eq!(event.kind, "db_sink_ready_failed");
    assert_eq!(event.metadata.get_text("database_path"), Some("/r/d"));
}

// ---------------------------------------------------------------------------
// Parts of the daemon
// ---------------------------------------------------------------------------

fn server(base_url: &str, enabled: bool) -> ServerConfig {
    ServerConfig {
        base_url: base_url.to_string(),
        websocket_url: String::new(),
        enabled,
        server_key: String::new(),
        registration_name: String::new(),
        identity: None,
        local_pack_paths: None,
        session_path: String::new(),
        runtime_path: String::new(),
        wake_session_key: None,
    }
}

#[test]
fn enabled_servers_are_started() {
    let servers = vec![server("a", true), server("b", false), server("c", true)];
    assert_eq!(servers_to_start(&servers), vec![0, 2]);
    assert_eq!(server_task_name("key"), "subspace:key");
}

#[test]
fn ended_parts_are_reported() {
    assert_eq!(task_exit_reason("gateway", TaskEnd::Finished), "gateway exited unexpectedly");
    assert_eq!(task_exit_reason("gateway", TaskEnd::Failed("boom".to_string())), "boom");
    let event = task_exit_event("gateway", "boom");
    assert_eq!(event.kind, "critical_task_exit");
    assert_eq!(event.target.as_deref(), Some("gateway"));
    assert_eq!(event.metadata.get_text("task"), Some("gateway"));
}
