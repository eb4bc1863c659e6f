//! The configuration of the daemon, and the addresses of its servers.

use subspace_daemon::config::{
    default_registration_name, derive_app_paths, load_local_gateway_auth, normalize_gateway_client_mode,
    normalize_scopes, require_gateway_client_id, AppPaths, Config, StoredConfig,
    StoredServerConfig, StoredStormGuardConfig, Surroundings,
};
use subspace_daemon::paths::{default_config_path, expand_tilde, join_path};
use subspace_daemon::server_url::{
    canonicalize_base_url, derive_server_key, derive_subspace_ws_url, normalize_path,
    sanitize_server_key_component,
};

fn text(value: &str) -> Option<String> {
    Some(value.to_string())
}

fn paths() -> AppPaths {
    derive_app_paths("/r/config.json", &text("/r"), &text("/home/me"), &None).unwrap()
}

fn surroundings() -> Surroundings {
    Surroundings { home: text("/home/me"), openclaw_config: None, hostname: text("asgard") }
}

fn entry(base_url: &str, name: &str) -> StoredServerConfig {
    StoredServerConfig {
        base_url: base_url.to_string(),
        registration_name: text(name),
        identity: text(name),
        local_pack_paths: None,
        enabled: None,
        wake_session_key: None,
    }
}

fn stored(servers: Vec<StoredServerConfig>) -> StoredConfig {
    StoredConfig { servers, ..StoredConfig::default() }
}

fn made(stored: StoredConfig) -> Config {
    Config::from_stored(stored, paths(), &surroundings()).unwrap()
}

#[test]
fn canonicalizes_server_urls() {
    assert_eq!(canonicalize_base_url("HTTP://Example.COM/").unwrap(), "http://example.com");
    assert_eq!(
        canonicalize_base_url("https://example.com/subspace/").unwrap(),
        "https://example.com/subspace"
    );
    assert_eq!(
        canonicalize_base_url("http://example.com:8080/x/").unwrap(),
        "http://example.com:8080/x"
    );
}

#[test]
fn canonical_urls_are_written_in_ascii() {
    let canonical = |raw: &str| canonicalize_base_url(raw).unwrap();
    assert_eq!(canonical("http://B\u{fc}cher.example/\u{e4}/"), "http://xn--bcher-kva.example/%C3%A4");
    assert_eq!(canonical("http://0x7f.1:8080//"), "http://127.0.0.1:8080");
    assert_eq!(canonical("https://u.example/a b/%7e/../c//"), "https://u.example/a%20b/c");
}

/// A label can be longer in Punycode than the parser accepts; such a URL has a canonical form that
/// is none itself.
#[test]
fn canonical_url_with_too_long_a_label_is_refused() {
    let label: String = (0u32..1000)
        .map(|i| char::from_u32(0x4e00 + (i * 7919) % 20000).unwrap())
        .collect();
    let canonical = canonicalize_base_url(&format!("http://{}.example/", label)).unwrap();
    assert!(canonical.starts_with("http://xn--"));
    assert!(canonical.len() > 2020);
    assert_eq!(canonicalize_base_url(&canonical).unwrap_err().message, "invalid server base_url");
}

#[test]
fn canonical_urls_are_canonical() {
    for raw in [
        "HTTP://Example.COM/",
        " https://e.example:443/a//b/ ",
        "http://[::1]:80/x",
        "http://0x7f.1:8080//",
        "https://u.example/a b/%7e/../c//",
        "http://B\u{fc}cher.example/\u{e4}/",
        "http:\\\\e.example\\x\\.\\",
    ] {
        let once = canonicalize_base_url(raw).unwrap();
        assert_eq!(canonicalize_base_url(&once).unwrap(), once);
        assert!(!once.ends_with('/'));
        assert_eq!(derive_server_key(&once).unwrap(), derive_server_key(raw).unwrap());
        assert_eq!(derive_subspace_ws_url(&once).unwrap(), derive_subspace_ws_url(raw).unwrap());
    }
}

#[test]
fn refused_server_urls() {
    let complaint = |raw: &str| canonicalize_base_url(raw).unwrap_err().message;
    assert_eq!(complaint("  "), "missing server base_url");
    assert_eq!(complaint("not a url"), "invalid server base_url");
    for raw in ["ftp://example.com", "http://user@example.com", "http://example.com/?q=1",
        "http://example.com/#f"] {
        assert!(canonicalize_base_url(raw).is_err(), "{}", raw);
    }
}

#[test]
fn derives_websocket_url_from_base_url() {
    assert_eq!(
        derive_subspace_ws_url("http://example.com").unwrap(),
        "ws://example.com/api/firehose/stream/websocket"
    );
    assert_eq!(
        derive_subspace_ws_url("https://example.com/subspace").unwrap(),
        "wss://example.com/subspace/api/firehose/stream/websocket"
    );
}

#[test]
fn derives_server_key_from_components() {
    assert_eq!(derive_server_key("http://146.190.132.104").unwrap(), "http_146_190_132_104_80");
    assert_eq!(
        derive_server_key("https://subspace.example.net").unwrap(),
        "https_subspace_example_net_443"
    );
    assert_eq!(
        derive_server_key("https://example.com/subspace").unwrap(),
        "https_example_com_443_subspace"
    );
}

#[test]
fn server_keys_hold_letters_digits_and_underscores() {
    let key = derive_server_key("https://a-b.example:8443/X y/%20").unwrap();
    assert!(key.chars().all(|c| c.is_ascii_lowercase() || c.is_ascii_digit() || c == '_'), "{}", key);
    assert_eq!(sanitize_server_key_component("A--b..c").as_deref(), Some("a_b_c"));
    assert_eq!(sanitize_server_key_component("--"), None);
    assert_eq!(normalize_path("/a/b//"), "/a/b");
    assert_eq!(normalize_path(""), "/");
}

#[test]
fn loads_defaults_and_derives_paths() {
    let config = made(stored(vec![entry("http://example.com", "heimdal")]));
    assert_eq!(config.servers.len(), 1);
    assert_eq!(
        config.servers[0].websocket_url,
        "ws://example.com/api/firehose/stream/websocket"
    );
    assert_eq!(config.servers[0].registration_name, "heimdal");
    assert_eq!(config.servers[0].identity.as_deref(), Some("heimdal"));
    assert!(config.servers[0].runtime_path.ends_with("runtime.json"));
    assert_eq!(config.paths.config_path, "/r/config.json");
}

#[test]
fn loads_multiple_servers_with_isolated_state_paths() {
    let config = made(stored(vec![
        entry("http://146.190.132.104", "heimdal"),
        entry("https://example.com/subspace", "backup"),
    ]));
    assert_eq!(config.servers.len(), 2);
    assert_eq!(config.servers[0].server_key, "http_146_190_132_104_80");
    assert_eq!(config.servers[1].server_key, "https_example_com_443_subspace");
    assert!(config.servers[0]
        .session_path
        .ends_with("servers/http_146_190_132_104_80/subspace-session.json"));
    assert!(config.servers[1]
        .runtime_path
        .ends_with("servers/https_example_com_443_subspace/runtime.json"));
}

#[test]
fn per_server_wake_session_key_override() {
    let mut second = entry("http://64.23.172.52", "b");
    second.wake_session_key = text("agent:custom:target");
    let mut stored = stored(vec![entry("http://146.190.132.104", "a"), second]);
    stored.routing.wake_session_key = text("agent:global:main");

    let config = made(stored);
    assert_eq!(config.routing.wake_session_key, "agent:global:main");
    assert_eq!(config.servers[0].wake_session_key, None);
    assert_eq!(config.servers[1].wake_session_key.as_deref(), Some("agent:custom:target"));
}

#[test]
fn existing_config_without_per_server_key_still_loads() {
    let config = made(stored(vec![entry("http://example.com", "test")]));
    assert_eq!(config.servers[0].wake_session_key, None);
    assert_eq!(config.routing.wake_session_key, "agent:heimdal:main");
}

#[test]
fn per_server_local_pack_paths_override_global_defaults() {
    let mut first = entry("http://146.190.132.104", "a");
    first.local_pack_paths =
        Some(vec!["~/.openclaw/subspace-daemon/receptors/packs/server-a".to_string()]);
    let mut stored = stored(vec![first, entry("http://64.23.172.52", "b")]);
    stored.attention.local_pack_paths =
        vec!["~/.openclaw/subspace-daemon/receptors/packs/global".to_string()];

    let config = made(stored);
    assert_eq!(
        config.servers[0].effective_local_pack_paths(&config.attention.local_pack_paths),
        vec!["~/.openclaw/subspace-daemon/receptors/packs/server-a".to_string()]
    );
    assert_eq!(
        config.servers[1].effective_local_pack_paths(&config.attention.local_pack_paths),
        vec!["~/.openclaw/subspace-daemon/receptors/packs/global".to_string()]
    );
}

#[test]
fn empty_per_server_local_pack_paths_allow_passthrough() {
    let mut first = entry("http://146.190.132.104", "a");
    first.local_pack_paths = Some(Vec::new());
    let mut stored = stored(vec![first]);
    stored.attention.local_pack_paths =
        vec!["~/.openclaw/subspace-daemon/receptors/packs/global".to_string()];

    let config = made(stored);
    assert!(config.servers[0]
        .effective_local_pack_paths(&config.attention.local_pack_paths)
        .is_empty());
}

#[test]
fn loads_retry_storm_guard_config() {
    let mut stored = stored(Vec::new());
    stored.retry.base_ms = Some(50);
    stored.retry.max_ms = Some(1000);
    stored.retry.jitter_ratio_bits = Some(0.0f64.to_bits());
    stored.retry.storm_guard = StoredStormGuardConfig {
        failure_window_ms: Some(60000),
        consecutive_failure_threshold: Some(3),
        cooldown_ms: Some(5000),
        max_cooldown_ms: Some(30000),
    };

    let config = made(stored);
    assert_eq!(config.retry.base_ms, 50);
    assert_eq!(config.retry.storm_guard.failure_window_ms, 60_000);
    assert_eq!(config.retry.storm_guard.consecutive_failure_threshold, 3);
    assert_eq!(config.retry.storm_guard.cooldown_ms, 5_000);
    assert_eq!(config.retry.storm_guard.max_cooldown_ms, 30_000);
}

#[test]
fn defaults_of_the_configuration() {
    let config = made(stored(vec![StoredServerConfig {
        registration_name: None,
        identity: None,
        ..entry("http://example.com", "x")
    }]));
    assert_eq!(config.retry.base_ms, 1_000);
    assert_eq!(config.retry.max_ms, 60_000);
    assert_eq!(f64::from_bits(config.retry.jitter_ratio_bits), 0.2);
    assert_eq!(config.retry.storm_guard.consecutive_failure_threshold, 10);
    assert_eq!(config.gateway.client_id, "gateway-client");
    assert_eq!(config.gateway.shared_token, None);
    assert!(config.servers[0].enabled);
    assert_eq!(config.servers[0].registration_name, "subspace-daemon-asgard");
    assert_eq!(default_registration_name(&text("  ")), "subspace-daemon-host");
    assert_eq!(default_registration_name(&None), "subspace-daemon-host");
}

#[test]
fn no_two_servers_share_a_base_url() {
    let twice = stored(vec![
        entry("http://example.com", "a"),
        entry("HTTP://EXAMPLE.com:80/", "b"),
    ]);
    assert!(Config::from_stored(twice, paths(), &surroundings()).is_err());
}

#[test]
fn shared_secrets_come_from_the_gateways_configuration() {
    let raw = text(r#"{"gateway": {"auth": {"token": "t", "password": "p"}}}"#);
    let auth = load_local_gateway_auth(&raw, "/o.json").unwrap();
    assert_eq!(auth.shared_token.as_deref(), Some("t"));
    assert_eq!(auth.shared_password.as_deref(), Some("p"));
    let auth = load_local_gateway_auth(&None, "/o.json").unwrap();
    assert_eq!(auth.shared_token, None);
    assert_eq!(
        load_local_gateway_auth(&text("{"), "/o.json").unwrap_err().message,
        "failed parsing /o.json"
    );
}

#[test]
fn gateway_settings_are_normalized() {
    assert_eq!(require_gateway_client_id(&None).unwrap(), "gateway-client");
    assert_eq!(require_gateway_client_id(&text(" gateway-client ")).unwrap(), "gateway-client");
    assert_eq!(
        require_gateway_client_id(&text("a\"b")).unwrap_err().message,
        "gateway.client_id must be \"gateway-client\"; got \"a\\\"b\""
    );
    assert_eq!(normalize_gateway_client_mode(&None), "backend");
    assert_eq!(
        normalize_scopes(&vec!["b ".to_string(), "a".to_string(), "".to_string(), "b".to_string()]),
        vec!["a", "b"]
    );
}

#[test]
fn setup_touches_one_server() {
    let mut config = stored(vec![
        entry("https://a.example", "a"),
        StoredServerConfig {
            enabled: Some(false),
            wake_session_key: text("agent:b"),
            ..entry("HTTPS://B.example/", "b")
        },
    ]);
    config.upsert_server("https://b.example".to_string(), "new".to_string(), "id".to_string());
    assert_eq!(config.servers.len(), 2);
    assert_eq!(config.servers[0].registration_name.as_deref(), Some("a"));
    assert_eq!(config.servers[1].base_url, "https://b.example");
    assert_eq!(config.servers[1].registration_name.as_deref(), Some("new"));
    assert_eq!(config.servers[1].identity.as_deref(), Some("id"));
    assert_eq!(config.servers[1].enabled, Some(true));
    assert_eq!(config.servers[1].wake_session_key.as_deref(), Some("agent:b"));
    config.upsert_server("https://c.example".to_string(), "c".to_string(), "c".to_string());
    assert_eq!(config.servers.len(), 3);
    assert_eq!(config.registration_name_at("https://b.example").as_deref(), Some("new"));
    assert_eq!(config.registration_name_at("https://d.example"), None);
}

#[test]
fn paths_are_joined_and_expanded() {
    assert_eq!(join_path("/r", "a"), "/r/a");
    assert_eq!(join_path("/r/", "a"), "/r/a");
    assert_eq!(join_path("/r", "/a"), "/a");
    assert_eq!(expand_tilde("~/x", &text("/home/me")), "/home/me/x");
    assert_eq!(expand_tilde("~x", &text("/home/me")), "~x");
    assert_eq!(expand_tilde("~/x", &None), "~/x");
    assert_eq!(
        default_config_path(&text("/home/me")),
        "/home/me/.openclaw/subspace-daemon/config.json"
    );
    let paths = paths();
    assert_eq!(paths.socket_path, "/r/daemon.sock");
    assert_eq!(paths.identities_dir, "/r/identities");
    assert_eq!(
        paths.launchd_plist_path,
        "/home/me/Library/LaunchAgents/ai.openclaw.subspace-daemon.plist"
    );
    assert_eq!(
        derive_app_paths("c", &None, &text("/h"), &None).unwrap_err().message,
        "config path must have parent directory"
    );
    assert_eq!(
        derive_app_paths("c", &text("/r"), &None, &None).unwrap_err().message,
        "home directory unavailable"
    );
    let elsewhere =
        derive_app_paths("c", &text("/r"), &text("/h"), &text("~/s.sock")).unwrap();
    assert_eq!(elsewhere.socket_path, "/h/s.sock");
}
