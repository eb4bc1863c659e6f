//! How the daemon judges its own health.

use subspace_daemon::clock::Timestamp;
use subspace_daemon::sorted_map::SortedMap;
use subspace_daemon::supervisor::status::{
    session_expires_soon, AttentionHealth, DaemonStatus, ServerHealth,
};

fn now() -> Timestamp {
    Timestamp::parse("2026-04-17T12:00:00Z").unwrap()
}

fn health(state: &str, expires: Option<&str>) -> ServerHealth {
    ServerHealth {
        server: "https://subspace.example".to_string(),
        server_key: "https_subspace_example_443".to_string(),
        subspace_state: state.to_string(),
        session_expires_at: expires.map(|value| value.to_string()),
        veto_enforcement_state: "not_configured".to_string(),
        attention: AttentionHealth::not_configured(),
        consecutive_failures: None,
        cooldown_ms: None,
        next_attempt_at: None,
        last_error_kind: None,
    }
}

fn status_with(gateway: &str, server: Option<ServerHealth>) -> DaemonStatus {
    let mut servers = SortedMap::new();
    if let Some(server) = server {
        servers.insert("https://subspace.example".to_string(), server);
    }
    DaemonStatus {
        gateway_state: gateway.to_string(),
        wake_session_key: "agent:target:main".to_string(),
        servers,
    }
}

#[test]
fn reconnect_cooldown_counts_as_healthy_readiness_state() {
    let mut servers = SortedMap::new();
    servers.insert(
        "https://subspace.example".to_string(),
        ServerHealth {
            server: "https://subspace.example".to_string(),
            server_key: "https_subspace_example_443".to_string(),
            subspace_state: "reconnect_cooldown".to_string(),
            session_expires_at: Some("2099-04-17T12:05:00Z".to_string()),
            veto_enforcement_state: "not_configured".to_string(),
            attention: AttentionHealth::not_configured(),
            consecutive_failures: Some(10),
            cooldown_ms: Some(300_000),
            next_attempt_at: Some("2026-04-17T12:05:00Z".to_string()),
            last_error_kind: Some("connection_refused".to_string()),
        },
    );
    let status = DaemonStatus {
        gateway_state: "live".to_string(),
        wake_session_key: "agent:target:main".to_string(),
        servers,
    };

    assert!(status.is_healthy(now()));
}

#[test]
fn missing_session_expiry_is_unhealthy() {
    let mut servers = SortedMap::new();
    servers.insert(
        "https://subspace.example".to_string(),
        ServerHealth {
            server: "https://subspace.example".to_string(),
            server_key: "https_subspace_example_443".to_string(),
            subspace_state: "live".to_string(),
            session_expires_at: None,
            veto_enforcement_state: "not_configured".to_string(),
            attention: AttentionHealth::not_configured(),
            consecutive_failures: None,
            cooldown_ms: None,
            next_attempt_at: None,
            last_error_kind: None,
        },
    );
    let status = DaemonStatus {
        gateway_state: "live".to_string(),
        wake_session_key: "agent:target:main".to_string(),
        servers,
    };

    assert!(!status.is_healthy(now()));
}

#[test]
fn server_status_preserves_veto_enforcement_state_across_connection_updates() {
    let mut status = DaemonStatus {
        gateway_state: "live".to_string(),
        wake_session_key: "agent:target:main".to_string(),
        servers: SortedMap::new(),
    };

    status.set_server_veto_enforcement_state(
        "https://subspace.example",
        "https_subspace_example_443",
        "unavailable",
    );
    status.set_server_state("https://subspace.example", "https_subspace_example_443", "live");
    assert_eq!(
        status.servers.get("https://subspace.example").unwrap().veto_enforcement_state,
        "unavailable"
    );

    status.set_server_reconnect_cooldown(
        "https://subspace.example",
        "https_subspace_example_443",
        10,
        300_000,
        "2026-04-17T12:05:00Z".to_string(),
        Some("connection_refused".to_string()),
    );
    assert_eq!(
        status.servers.get("https://subspace.example").unwrap().veto_enforcement_state,
        "unavailable"
    );
}

#[test]
fn health_follows_the_states_of_gateway_and_servers() {
    let live = "2099-04-17T12:05:00Z";
    assert!(status_with("live", None).is_healthy(now()));
    assert!(status_with("pairing_required", None).is_healthy(now()));
    assert!(!status_with("connecting", None).is_healthy(now()));
    assert!(status_with("live", Some(health("live", Some(live)))).is_healthy(now()));
    for state in ["reconnecting", "reconnect_cooldown", "subspace_auth_required"] {
        assert!(status_with("live", Some(health(state, None))).is_healthy(now()), "{}", state);
    }
    for state in ["connecting", "authenticating", ""] {
        assert!(!status_with("live", Some(health(state, Some(live)))).is_healthy(now()));
    }
    assert!(!status_with("connecting", Some(health("live", Some(live)))).is_healthy(now()));
}

#[test]
fn session_that_expires_soon_or_is_unreadable_is_unhealthy() {
    assert!(session_expires_soon(&None, now()));
    assert!(session_expires_soon(&Some("tomorrow".to_string()), now()));
    assert!(session_expires_soon(&Some("2026-04-17T11:00:00Z".to_string()), now()));
    assert!(!session_expires_soon(&Some("2099-01-01T00:00:00Z".to_string()), now()));
}

#[test]
fn state_change_keeps_session_and_attention_and_drops_the_cooldown() {
    let mut status = status_with("live", None);
    let url = "https://subspace.example";
    let key = "https_subspace_example_443";
    let attention = AttentionHealth {
        receptor_count: 3,
        interest_receptor_count: 1,
        veto_receptor_count: 1,
        wildcard_receptor_count: 1,
        delivery_mode: "wildcard".to_string(),
        degraded: false,
    };
    status.set_server_attention_health(url, key, attention);
    status.set_server_session_expires_at(url, key, Some("2099-01-01T00:00:00Z".to_string()));
    status.set_server_reconnect_cooldown(url, key, 4, 5_000, "2026-04-17T12:00:05Z".to_string(), None);
    assert_eq!(status.server_state(url).as_deref(), Some("reconnect_cooldown"));
    assert_eq!(status.servers.get(url).unwrap().consecutive_failures, Some(4));

    status.set_server_state(url, key, "connecting");
    let server = status.servers.get(url).unwrap();
    assert_eq!(server.subspace_state, "connecting");
    assert_eq!(server.session_expires_at.as_deref(), Some("2099-01-01T00:00:00Z"));
    assert_eq!(server.attention.receptor_count, 3);
    assert_eq!(server.consecutive_failures, None);
    assert_eq!(server.cooldown_ms, None);
    assert_eq!(server.next_attempt_at, None);
    assert_eq!(status.server_state("https://other.example"), None);
}

#[test]
fn snapshot_is_in_the_order_of_base_urls() {
    let mut status = status_with("live", None);
    status.set_server_state("https://b.example", "b", "live");
    status.set_server_state("https://a.example", "a", "live");
    status.set_server_state("https://c.example", "c", "live");
    status.set_gateway_state("pairing_required");
    let order: Vec<String> =
        status.servers_snapshot().into_iter().map(|server| server.server).collect();
    assert_eq!(order, vec!["https://a.example", "https://b.example", "https://c.example"]);
    assert_eq!(status.gateway_state, "pairing_required");
}

#[test]
fn health_of_a_server_without_receptors() {
    let health = AttentionHealth::not_configured();
    assert_eq!(health.receptor_count, 0);
    assert!(!health.degraded);
    assert_eq!(health.veto_enforcement_state(), "not_configured");
}
