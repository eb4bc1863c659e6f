//! The requests of local clients.

use subspace_daemon::attention::layer::MessageEmbedding;
use subspace_daemon::clock::Timestamp;
use subspace_daemon::failure::Failure;
use subspace_daemon::ipc::{
    check_send_request, daemon_refusal, finish_send, health_body, plain_request, route_request,
    select_targets, send_result, validate_embedding_request, OutboundSendResult, Route,
    SendRequest, SendRouteError,
};
use subspace_daemon::json::{empty_object, Json};
use subspace_daemon::server_url::canonicalize_base_url;
use subspace_daemon::sorted_map::SortedMap;
use subspace_daemon::supervisor::status::{AttentionHealth, DaemonStatus, ServerHealth};

fn health(server: &str, state: &str) -> ServerHealth {
    ServerHealth {
        server: server.to_string(),
        server_key: "https_subspace_example_443".to_string(),
        subspace_state: state.to_string(),
        session_expires_at: None,
        veto_enforcement_state: "not_configured".to_string(),
        attention: AttentionHealth::not_configured(),
        consecutive_failures: Some(10),
        cooldown_ms: Some(300_000),
        next_attempt_at: Some("2026-04-17T12:05:00Z".to_string()),
        last_error_kind: Some("connect".to_string()),
    }
}

fn status(servers: &[(&str, &str)]) -> DaemonStatus {
    let mut map = SortedMap::new();
    for (server, state) in servers {
        map.insert(server.to_string(), health(server, state));
    }
    DaemonStatus {
        gateway_state: "live".to_string(),
        wake_session_key: "agent:heimdal:main".to_string(),
        servers: map,
    }
}

fn handles(servers: &[&str]) -> SortedMap<u8> {
    let mut map = SortedMap::new();
    for server in servers {
        map.insert(server.to_string(), 0);
    }
    map
}

#[test]
fn targeted_send_to_reconnect_cooldown_returns_503() {
    let server = "https://subspace.example";
    let canonical = canonicalize_base_url(server).unwrap();
    let status = status(&[(canonical.as_str(), "reconnect_cooldown")]);
    let handles = handles(&[canonical.as_str()]);

    let err = select_targets(&status, &handles, &Some(server.to_string())).unwrap_err();

    assert_eq!(err.status, 503);
    assert_eq!(err.code, "subspace_unavailable");
    assert!(err.message.contains("targeted Subspace server is not live"));
}

#[test]
fn messages_go_to_live_servers() {
    let a = "https://a.example";
    let b = "https://b.example";
    let c = "https://c.example";
    let status = status(&[(c, "live"), (a, "live"), (b, "connecting")]);
    let handles = handles(&[a, b, c]);
    assert_eq!(select_targets(&status, &handles, &None).unwrap(), vec![a, c]);
    assert_eq!(
        select_targets(&status, &handles, &Some("HTTPS://A.example/".to_string())).unwrap(),
        vec![a]
    );
    let refused = |server: &str| {
        let e = select_targets(&status, &handles, &Some(server.to_string())).unwrap_err();
        (e.status, e.code, e.message)
    };
    assert_eq!(
        refused(b),
        (
            503,
            "subspace_unavailable".to_string(),
            "targeted Subspace server is not live: https://b.example".to_string()
        )
    );
    assert_eq!(
        refused("https://d.example"),
        (404, "unknown_server".to_string(), "server not configured".to_string())
    );
    assert_eq!(
        refused("nonsense"),
        (
            400,
            "invalid_request".to_string(),
            "invalid server url: invalid server base_url".to_string()
        )
    );
}

#[test]
fn no_live_server_means_503() {
    let none = select_targets(&status(&[]), &handles(&[]), &None).unwrap_err();
    assert_eq!(none.status, 503);
    assert_eq!(none.message, "no targeted Subspace server is live");
}

#[test]
fn requests_are_told_apart() {
    assert_eq!(route_request("GET", "/healthz"), Route::Health);
    assert_eq!(route_request("POST", "/v1/messages"), Route::Messages);
    assert_eq!(route_request("POST", "/v1/setup"), Route::Setup);
    assert_eq!(route_request("GET", "/v1/setup"), Route::NotFound);
    assert_eq!(route_request("POST", "/healthz/"), Route::NotFound);
    let missing = SendRouteError::not_found();
    assert_eq!((missing.status, missing.code.as_str()), (404, "not_found"));
    assert_eq!(SendRouteError::invalid_json("eof").message, "invalid json: eof");
}

fn request(text: &str) -> SendRequest {
    SendRequest {
        text: text.to_string(),
        idempotency_key: None,
        server: None,
        embeddings: Vec::new(),
        generate_for_spaces: Vec::new(),
        generated_embeddings_override_supplied: false,
    }
}

#[test]
fn requests_are_checked() {
    assert!(check_send_request(&request("hello")).is_ok());
    let refused = |request: &SendRequest| {
        let e = check_send_request(request).unwrap_err();
        (e.status, e.code, e.message)
    };
    let bad = |message: &str| (400, "invalid_request".to_string(), message.to_string());
    assert_eq!(refused(&request(" \n")), bad("text required"));
    let embedding = |space_id: &str, vector: Vec<u32>| {
        let mut request = request("hello");
        request.embeddings.push(MessageEmbedding { space_id: space_id.to_string(), vector });
        request
    };
    assert_eq!(
        refused(&embedding(" ", vec![0])),
        bad("embeddings[].space_id must not be empty")
    );
    assert_eq!(refused(&embedding("s", vec![])), bad("embeddings[s].vector must not be empty"));
    let mut generate = embedding("s", vec![0]);
    assert!(validate_embedding_request(&generate).is_ok());
    generate.generate_for_spaces.push("".to_string());
    assert_eq!(refused(&generate), bad("generate_for_spaces entries must not be empty"));
    generate.generated_embeddings_override_supplied = true;
    let outbound = generate.into_embedding_request();
    assert_eq!(outbound.embeddings.len(), 1);
    assert_eq!(outbound.generate_for_spaces, vec![""]);
    assert!(outbound.generated_embeddings_override_supplied);
}

#[test]
fn one_failure_fails_the_whole_request() {
    let sent = send_result(
        "https://a.example",
        Ok(OutboundSendResult {
            server: "https://a.example".to_string(),
            subspace_message_id: Some("m1".to_string()),
            idempotency_key: "k".to_string(),
        }),
        &None,
    );
    assert!(sent.sent);
    assert_eq!(sent.idempotency_key.as_deref(), Some("k"));
    let lost = send_result(
        "https://b.example",
        Err(Failure { message: "gone".to_string() }),
        &Some("k".to_string()),
    );
    assert!(!lost.sent);
    assert_eq!(lost.server, "https://b.example");
    assert_eq!(lost.error.as_deref(), Some("gone"));
    assert_eq!(lost.idempotency_key.as_deref(), Some("k"));
    assert_eq!(finish_send(vec![sent.clone()]).unwrap().len(), 1);
    let mixed = finish_send(vec![sent, lost]).unwrap_err();
    assert_eq!((mixed.status, mixed.results.len()), (503, 2));
    assert_eq!(mixed.message, "one or more targeted Subspace servers failed");
}

#[test]
fn health_is_reported() {
    let now = Timestamp::parse("2026-04-17T12:00:00Z").unwrap();
    let body = health_body(&status(&[("https://b.example", "live"), ("https://a.example", "x")]), now);
    assert!(!body.ok);
    assert_eq!(body.gateway_state, "live");
    assert_eq!(body.wake_session_key, "agent:heimdal:main");
    let servers: Vec<&str> = body.servers.iter().map(|health| health.server.as_str()).collect();
    assert_eq!(servers, vec!["https://a.example", "https://b.example"]);
}

#[test]
fn client_requests_have_a_key() {
    let mut request = plain_request("hello".to_string(), None, None);
    let body = request.body("fresh", empty_object());
    assert_eq!(body.get_text("text"), Some("hello"));
    assert_eq!(body.get_text("idempotency_key"), Some("fresh"));
    assert!(matches!(body.get("server"), Some(Json::Null)));
    assert!(matches!(
        body.get("generated_embeddings_override_supplied"),
        Some(Json::Bool(false))
    ));
    request.idempotency_key = Some("mine".to_string());
    request.server = Some("https://a.example".to_string());
    let body = request.body("fresh", empty_object());
    assert_eq!(body.get_text("idempotency_key"), Some("mine"));
    assert_eq!(body.get_text("server"), Some("https://a.example"));
    assert_eq!(
        daemon_refusal("503 Service Unavailable", "{}").message,
        "daemon returned 503 Service Unavailable: {}"
    );
}
