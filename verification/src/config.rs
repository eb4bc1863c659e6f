//! The configuration of the daemon: what is stored, and what is made of it.

use vstd::prelude::*;

use crate::attention::embedding_plugin::EmbeddingBackendConfig;
use crate::attention::layer::AttentionConfig;
use crate::attention::similarity;
use crate::failure;
use crate::failure::{failure, failure_with, Failure};
use crate::hard_failure::HardFailureHookConfig;
use crate::json;
use crate::json::{parse_json, Json, JsonView};
use crate::paths;
use crate::paths::{expand_tilde, join_path};
use crate::retry::{RetryConfig, StormGuardConfig};
use crate::server_url;
use crate::server_url::{canonicalize_base_url, derive_server_key, derive_subspace_ws_url};
use crate::text;

verus! {

/// The configuration that the daemon runs with.
#[derive(Debug, Clone)]
pub struct Config {
    pub gateway: GatewayConfig,
    pub servers: Vec<ServerConfig>,
    pub attention: AttentionConfig,
    pub routing: RoutingConfig,
    pub replay: ReplayConfig,
    pub logging: LoggingConfig,
    pub retry: RetryConfig,
    pub storage: StorageConfig,
    pub sinks: Vec<SinkConfig>,
    pub hard_failure_hooks: Vec<HardFailureHookConfig>,
    pub paths: AppPaths,
}

#[derive(Debug, Clone)]
pub struct GatewayConfig {
    pub ws_url: String,
    pub client_id: String,
    pub client_mode: String,
    pub display_name: String,
    pub device_id: Option<String>,
    pub shared_token: Option<String>,
    pub shared_password: Option<String>,
    pub requested_role: String,
    pub requested_scopes: Vec<String>,
}

#[derive(Debug, Clone)]
pub struct ServerConfig {
    pub base_url: String,
    pub websocket_url: String,
    pub enabled: bool,
    pub server_key: String,
    pub registration_name: String,
    pub identity: Option<String>,
    pub local_pack_paths: Option<Vec<String>>,
    pub session_path: String,
    pub runtime_path: String,
    pub wake_session_key: Option<String>,
}

#[derive(Debug, Clone)]
pub struct RoutingConfig {
    pub wake_session_key: String,
}

#[derive(Debug, Clone)]
pub struct ReplayConfig {
    pub dedupe_window_size: usize,
    pub discard_before_ts: Option<String>,
}

#[derive(Debug, Clone)]
pub struct LoggingConfig {
    pub level: String,
    pub json: bool,
}

/// Where matched messages are stored.
#[derive(Debug, Clone)]
pub struct StorageConfig {
    pub database_path: String,
    pub artifact_root: String,
    pub auto_migrate: bool,
}

/// What a sink does with a message.
#[derive(Debug, Clone, Copy, PartialEq, Eq, Structural)]
pub enum SinkKind {
    /// Stores it.
    Db,
    /// Wakes an agent session with it.
    AgentSessionWake,
}

impl SinkKind {
    /// The name of the kind in the configuration.
    pub open spec fn name(self) -> Seq<char> {
        match self {
            SinkKind::Db => "db"@,
            SinkKind::AgentSessionWake => "agent_session_wake"@,
        }
    }

    /// The name of the kind in the configuration.
    pub fn as_str(self) -> (name: &'static str)
        ensures
            name@ == self.name(),
    {
        match self {
            SinkKind::Db => "db",
            SinkKind::AgentSessionWake => "agent_session_wake",
        }
    }
}

/// Where a message goes that the receptors have accepted.
#[derive(Debug, Clone)]
pub struct SinkConfig {
    pub key: String,
    pub kind: SinkKind,
    pub enabled: bool,
    pub destination: Option<String>,
}

#[derive(Debug, Clone)]
pub struct AppPaths {
    pub root: String,
    pub config_path: String,
    pub socket_path: String,
    pub log_file: String,
    pub identities_dir: String,
    pub gateway_private_key_path: String,
    pub gateway_public_key_path: String,
    pub gateway_device_auth_store_path: String,
    pub launchd_plist_path: String,
    pub state_lock_path: String,
}

/// The configuration as it is stored.
#[derive(Debug, Clone)]
pub struct StoredConfig {
    pub gateway: StoredGatewayConfig,
    pub servers: Vec<StoredServerConfig>,
    pub attention: StoredAttentionConfig,
    pub routing: StoredRoutingConfig,
    pub replay: StoredReplayConfig,
    pub ipc: StoredIpcConfig,
    pub logging: StoredLoggingConfig,
    pub retry: StoredRetryConfig,
    pub storage: StoredStorageConfig,
    pub sinks: Vec<SinkConfig>,
    pub hard_failure_hooks: Vec<HardFailureHookConfig>,
}

#[derive(Debug, Clone)]
pub struct StoredGatewayConfig {
    pub ws_url: Option<String>,
    pub client_id: Option<String>,
    pub client_mode: Option<String>,
    pub display_name: Option<String>,
    pub device_id: Option<String>,
    pub requested_role: Option<String>,
    pub requested_scopes: Option<Vec<String>>,
}

#[derive(Debug, Clone)]
pub struct StoredServerConfig {
    pub base_url: String,
    pub registration_name: Option<String>,
    pub identity: Option<String>,
    pub local_pack_paths: Option<Vec<String>>,
    pub enabled: Option<bool>,
    pub wake_session_key: Option<String>,
}

#[derive(Debug, Clone)]
pub struct StoredRoutingConfig {
    pub wake_session_key: Option<String>,
}

#[derive(Debug, Clone)]
pub struct StoredReplayConfig {
    pub dedupe_window_size: Option<usize>,
    pub discard_before_ts: Option<String>,
}

#[derive(Debug, Clone)]
pub struct StoredIpcConfig {
    pub socket_path: Option<String>,
}

#[derive(Debug, Clone)]
pub struct StoredLoggingConfig {
    pub level: Option<String>,
    pub file: Option<String>,
    pub json: Option<bool>,
}

#[derive(Debug, Clone, Copy)]
pub struct StoredRetryConfig {
    pub base_ms: Option<u64>,
    pub max_ms: Option<u64>,
    /// The bits of an IEEE 754 double.
    pub jitter_ratio_bits: Option<u64>,
    pub storm_guard: StoredStormGuardConfig,
}

#[derive(Debug, Clone, Copy)]
pub struct StoredStormGuardConfig {
    pub failure_window_ms: Option<u64>,
    pub consecutive_failure_threshold: Option<u32>,
    pub cooldown_ms: Option<u64>,
    pub max_cooldown_ms: Option<u64>,
}

#[derive(Debug, Clone)]
pub struct StoredStorageConfig {
    pub database_path: Option<String>,
    pub artifact_root: Option<String>,
    pub auto_migrate: Option<bool>,
}

#[derive(Debug, Clone)]
pub struct StoredAttentionConfig {
    pub local_pack_paths: Vec<String>,
    pub embedding_backends: Vec<StoredEmbeddingBackend>,
    /// The bits of a single-precision number.
    pub threshold: Option<u32>,
}

#[derive(Debug, Clone)]
pub struct StoredEmbeddingBackend {
    pub backend_id: String,
    pub exec_path: String,
    pub args: Vec<String>,
    pub default_space_id: String,
    pub enabled: bool,
    /// Environment variables to pass to the plugin subprocess.
    pub env: Vec<(String, String)>,
}

/// The default for the share by which delays are varied at random: 0.2.
pub const DEFAULT_JITTER_RATIO_BITS: u64 = 0x3fc9_9999_9999_999a;

/// What the daemon finds around it when it makes its configuration.
#[derive(Debug, Clone)]
pub struct Surroundings {
    /// The home directory.
    pub home: Option<String>,
    /// The contents of the gateway's own configuration, if it has one.
    pub openclaw_config: Option<String>,
    /// The name of the host, as the system keeps it.
    pub hostname: Option<String>,
}

/// A stored configuration that leaves everything to its defaults.
pub open spec fn says_nothing(stored: StoredConfig) -> bool {
    &&& stored.gateway.ws_url is None
    &&& stored.gateway.client_id is None
    &&& stored.gateway.client_mode is None
    &&& stored.gateway.display_name is None
    &&& stored.gateway.device_id is None
    &&& stored.gateway.requested_role is None
    &&& stored.gateway.requested_scopes is None
    &&& stored.servers@.len() == 0
    &&& stored.attention.local_pack_paths@.len() == 0
    &&& stored.attention.embedding_backends@.len() == 0
    &&& stored.attention.threshold is None
    &&& stored.routing.wake_session_key is None
    &&& stored.replay.dedupe_window_size is None
    &&& stored.replay.discard_before_ts is None
    &&& stored.ipc.socket_path is None
    &&& stored.logging.level is None
    &&& stored.logging.file is None
    &&& stored.logging.json is None
    &&& stored.retry.base_ms is None
    &&& stored.retry.max_ms is None
    &&& stored.retry.jitter_ratio_bits is None
    &&& stored.retry.storm_guard.failure_window_ms is None
    &&& stored.retry.storm_guard.consecutive_failure_threshold is None
    &&& stored.retry.storm_guard.cooldown_ms is None
    &&& stored.retry.storm_guard.max_cooldown_ms is None
    &&& stored.storage.database_path is None
    &&& stored.storage.artifact_root is None
    &&& stored.storage.auto_migrate is None
    &&& stored.sinks@.len() == 0
    &&& stored.hard_failure_hooks@.len() == 0
}

impl Default for StoredConfig {
    fn default() -> (stored: Self)
        ensures
            says_nothing(stored),
    {
        StoredConfig {
            gateway: StoredGatewayConfig {
                ws_url: None,
                client_id: None,
                client_mode: None,
                display_name: None,
                device_id: None,
                requested_role: None,
                requested_scopes: None,
            },
            servers: Vec::new(),
            attention: StoredAttentionConfig {
                local_pack_paths: Vec::new(),
                embedding_backends: Vec::new(),
                threshold: None,
            },
            routing: StoredRoutingConfig { wake_session_key: None },
            replay: StoredReplayConfig { dedupe_window_size: None, discard_before_ts: None },
            ipc: StoredIpcConfig { socket_path: None },
            logging: StoredLoggingConfig { level: None, file: None, json: None },
            retry: StoredRetryConfig {
                base_ms: None,
                max_ms: None,
                jitter_ratio_bits: None,
                storm_guard: StoredStormGuardConfig {
                    failure_window_ms: None,
                    consecutive_failure_threshold: None,
                    cooldown_ms: None,
                    max_cooldown_ms: None,
                },
            },
            storage: StoredStorageConfig {
                database_path: None,
                artifact_root: None,
                auto_migrate: None,
            },
            sinks: Vec::new(),
            hard_failure_hooks: Vec::new(),
        }
    }
}

// ---------------------------------------------------------------------------
// Paths
// ---------------------------------------------------------------------------

pub open spec fn under(root: Seq<char>, first: Seq<char>, second: Seq<char>) -> Seq<char> {
    paths::joined_path(paths::joined_path(root, first), second)
}

fn join_two(root: &str, first: &str, second: &str) -> (joined: String)
    ensures
        joined@ == under(root@, first@, second@),
{
    join_path(join_path(root, first).as_str(), second)
}

/// The paths of a daemon whose configuration lies in `root`.
pub open spec fn layout(
    paths: AppPaths,
    root: Seq<char>,
    config_path: Seq<char>,
    socket_path: Seq<char>,
    home: Seq<char>,
) -> bool {
    &&& paths.root@ == root
    &&& paths.config_path@ == config_path
    &&& paths.socket_path@ == socket_path
    &&& paths.log_file@ == under(root, "logs"@, "daemon.log"@)
    &&& paths.identities_dir@ == paths::joined_path(root, "identities"@)
    &&& paths.gateway_private_key_path@ == under(root, "device"@, "private.pem"@)
    &&& paths.gateway_public_key_path@ == under(root, "device"@, "public.pem"@)
    &&& paths.gateway_device_auth_store_path@ == paths::joined_path(root, "device-auth.json"@)
    &&& paths.launchd_plist_path@ == paths::joined_path(
        under(home, "Library"@, "LaunchAgents"@),
        "ai.openclaw.subspace-daemon.plist"@,
    )
    &&& paths.state_lock_path@ == paths::joined_path(root, "state.lock"@)
}

/// The paths of a daemon. `config_path` has been expanded already; `root` is the directory in which
/// it lies.
pub fn derive_app_paths(
    config_path: &str,
    root: &Option<String>,
    home: &Option<String>,
    socket_override: &Option<String>,
) -> (result: Result<AppPaths, Failure>)
    ensures
        match result {
            Ok(paths) => root is Some && home is Some && layout(
                paths,
                root->0@,
                config_path@,
                match socket_override {
                    Some(path) => paths::expanded(path@, text::opt_text(*home)),
                    None => paths::joined_path(root->0@, "daemon.sock"@),
                },
                home->0@,
            ),
            Err(f) => {
                ||| root is None && f@ == "config path must have parent directory"@
                ||| root is Some && home is None && f@ == "home directory unavailable"@
            },
        },
{
    let root = match root {
        Some(root) => root.as_str(),
        None => return Err(failure("config path must have parent directory")),
    };
    let home_dir = match home {
        Some(home) => home.as_str(),
        None => return Err(failure("home directory unavailable")),
    };
    let socket_path = match socket_override {
        Some(path) => expand_tilde(path.as_str(), home),
        None => join_path(root, "daemon.sock"),
    };
    Ok(
        AppPaths {
            root: root.to_owned(),
            config_path: config_path.to_owned(),
            socket_path,
            log_file: join_two(root, "logs", "daemon.log"),
            identities_dir: join_path(root, "identities"),
            gateway_private_key_path: join_two(root, "device", "private.pem"),
            gateway_public_key_path: join_two(root, "device", "public.pem"),
            gateway_device_auth_store_path: join_path(root, "device-auth.json"),
            launchd_plist_path: join_path(
                join_two(home_dir, "Library", "LaunchAgents").as_str(),
                "ai.openclaw.subspace-daemon.plist",
            ),
            state_lock_path: join_path(root, "state.lock"),
        },
    )
}

// ---------------------------------------------------------------------------
// Gateway
// ---------------------------------------------------------------------------

/// A text in quotes as `{:?}` writes it.
pub uninterp spec fn debug_quoted(s: Seq<char>) -> Seq<char>;

/// Writes a text in quotes with `format!("{:?}")`, which escapes what a Rust string literal
/// escapes. The contract names the text; it is a function of the argument alone.
#[verifier::external_body]
pub(crate) fn quote_debug(s: &str) -> (quoted: String)
    ensures
        quoted@ == debug_quoted(s@),
{
    format!("{s:?}")
}

/// `raw` without the white space around it; nothing if there is nothing else.
pub open spec fn given(raw: Option<Seq<char>>) -> Option<Seq<char>> {
    match raw {
        Some(s) => if text::trimmed(s).len() == 0 {
            None
        } else {
            Some(text::trimmed(s))
        },
        None => None,
    }
}

fn given_text<'a>(raw: &'a Option<String>) -> (found: Option<&'a str>)
    ensures
        text::opt_str(found) == given(text::opt_text(*raw)),
{
    match raw {
        Some(s) => {
            let inner = text::trim(s.as_str());
            if inner.is_empty() {
                None
            } else {
                Some(inner)
            }
        },
        None => None,
    }
}

/// The client id of the gateway connection: the one that there is.
pub open spec fn client_id_of(raw: Option<Seq<char>>) -> Result<Seq<char>, Seq<char>> {
    match given(raw) {
        Some(other) => if other == "gateway-client"@ {
            Ok("gateway-client"@)
        } else {
            Err("gateway.client_id must be \"gateway-client\"; got "@ + debug_quoted(other))
        },
        None => Ok("gateway-client"@),
    }
}

/// The client id of the gateway connection: the one that there is.
pub fn require_gateway_client_id(raw: &Option<String>) -> (result: Result<String, Failure>)
    ensures
        failure::text_result(result) == client_id_of(text::opt_text(*raw)),
{
    match given_text(raw) {
        Some(other) => {
            if text::same_text(other, "gateway-client") {
                Ok("gateway-client".to_owned())
            } else {
                Err(
                    failure_with(
                        "gateway.client_id must be \"gateway-client\"; got ",
                        quote_debug(other).as_str(),
                    ),
                )
            }
        },
        None => Ok("gateway-client".to_owned()),
    }
}

/// The mode of the gateway client.
pub open spec fn client_mode_of(raw: Option<Seq<char>>) -> Seq<char> {
    match given(raw) {
        Some(mode) => mode,
        None => "backend"@,
    }
}

/// The mode of the gateway client.
pub fn normalize_gateway_client_mode(raw: &Option<String>) -> (mode: String)
    ensures
        mode@ == client_mode_of(text::opt_text(*raw)),
{
    match given_text(raw) {
        Some(mode) => mode.to_owned(),
        None => "backend".to_owned(),
    }
}

/// `scope` is one of `raw` without the white space around it, and not empty.
pub open spec fn scope_given(raw: Seq<Seq<char>>, scope: Seq<char>) -> bool {
    scope.len() > 0 && exists|i: int| 0 <= i < raw.len() && text::trimmed(#[trigger] raw[i]) == scope
}

/// The scopes that are given, in ascending order and each once.
pub fn normalize_scopes(scopes: &Vec<String>) -> (out: Vec<String>)
    ensures
        text::ascending(text::texts(out@)),
        forall|scope: Seq<char>|
            text::texts(out@).contains(scope) <==> scope_given(text::texts(scopes@), scope),
{
    let ghost raw = text::texts(scopes@);
    let mut out: Vec<String> = Vec::new();
    let mut i: usize = 0;
    assert(text::texts(out@) == Seq::<Seq<char>>::empty());
    while i < scopes.len()
        invariant
            i <= scopes.len(),
            raw == text::texts(scopes@),
            text::ascending(text::texts(out@)),
            forall|scope: Seq<char>|
                text::texts(out@).contains(scope) <==> scope_given(raw.take(i as int), scope),
        decreases scopes.len() - i,
    {
        let ghost before = text::texts(out@);
        assert(raw[i as int] == scopes@[i as int]@);
        let scope = text::trim(scopes[i].as_str());
        if !scope.is_empty() {
            text::insert_ascending(&mut out, scope.to_owned());
        }
        assert forall|s: Seq<char>|
            text::texts(out@).contains(s) <==> scope_given(raw.take(i + 1), s) by {
            if scope_given(raw.take(i as int), s) {
                let k = choose|k: int|
                    0 <= k < raw.take(i as int).len() && text::trimmed(
                        #[trigger] raw.take(i as int)[k],
                    ) == s;
                assert(raw.take(i + 1)[k] == raw.take(i as int)[k]);
            }
            if scope_given(raw.take(i + 1), s) {
                let k = choose|k: int|
                    0 <= k < raw.take(i + 1).len() && text::trimmed(#[trigger] raw.take(i + 1)[k])
                        == s;
                if k < i {
                    assert(raw.take(i as int)[k] == raw.take(i + 1)[k]);
                }
            }
            if s == scope@ && s.len() > 0 {
                assert(raw.take(i + 1)[i as int] == raw[i as int]);
            }
        }
        i = i + 1;
    }
    assert(raw.take(raw.len() as int) == raw);
    out
}

/// What the gateway's own configuration says about authentication.
#[derive(Debug, Clone)]
pub struct LocalGatewayAuth {
    pub shared_token: Option<String>,
    pub shared_password: Option<String>,
}

pub struct LocalAuthView {
    pub shared_token: Option<Seq<char>>,
    pub shared_password: Option<Seq<char>>,
}

impl View for LocalGatewayAuth {
    type V = LocalAuthView;

    open spec fn view(&self) -> LocalAuthView {
        LocalAuthView {
            shared_token: text::opt_text(self.shared_token),
            shared_password: text::opt_text(self.shared_password),
        }
    }
}

/// The text at `gateway.auth.<key>`.
pub open spec fn auth_text(config: JsonView, key: Seq<char>) -> Option<Seq<char>> {
    match config.member("gateway"@) {
        Some(gateway) => match gateway.member("auth"@) {
            Some(auth) => auth.text_member(key),
            None => None,
        },
        None => None,
    }
}

/// The shared secrets in the gateway's own configuration.
pub open spec fn local_auth(config: JsonView) -> LocalAuthView {
    LocalAuthView {
        shared_token: auth_text(config, "token"@),
        shared_password: auth_text(config, "password"@),
    }
}

/// The shared secrets that the text of the gateway's own configuration holds; nothing where there
/// is none.
pub open spec fn local_auth_of_text(raw: Option<Seq<char>>, path: Seq<char>) -> Result<
    LocalAuthView,
    Seq<char>,
> {
    match raw {
        None => Ok(LocalAuthView { shared_token: None, shared_password: None }),
        Some(raw) => match json::parsed_json(raw) {
            Ok(config) => Ok(local_auth(config)),
            Err(_) => Err("failed parsing "@ + path),
        },
    }
}

fn copy_str(value: Option<&str>) -> (copy: Option<String>)
    ensures
        text::opt_text(copy) == text::opt_str(value),
{
    match value {
        Some(s) => Some(s.to_owned()),
        None => None,
    }
}

/// The shared secrets in the gateway's own configuration.
pub fn gateway_auth_from_json(config: &Json) -> (auth: LocalGatewayAuth)
    ensures
        auth@ == local_auth(config@),
{
    match config.get("gateway") {
        Some(gateway) => match gateway.get("auth") {
            Some(auth) => LocalGatewayAuth {
                shared_token: copy_str(auth.get_text("token")),
                shared_password: copy_str(auth.get_text("password")),
            },
            None => LocalGatewayAuth { shared_token: None, shared_password: None },
        },
        None => LocalGatewayAuth { shared_token: None, shared_password: None },
    }
}

pub open spec fn auth_result(result: Result<LocalGatewayAuth, Failure>) -> Result<
    LocalAuthView,
    Seq<char>,
> {
    match result {
        Ok(auth) => Ok(auth@),
        Err(f) => Err(f@),
    }
}

/// The shared secrets that the text of the gateway's own configuration holds. `path` is where the
/// text comes from.
pub fn load_local_gateway_auth(raw: &Option<String>, path: &str) -> (result: Result<
    LocalGatewayAuth,
    Failure,
>)
    ensures
        auth_result(result) == local_auth_of_text(text::opt_text(*raw), path@),
{
    match raw {
        None => Ok(LocalGatewayAuth { shared_token: None, shared_password: None }),
        Some(raw) => match parse_json(raw.as_str()) {
            Ok(config) => Ok(gateway_auth_from_json(&config)),
            Err(_) => Err(failure_with("failed parsing ", path)),
        },
    }
}

pub struct GatewayView {
    pub ws_url: Seq<char>,
    pub client_id: Seq<char>,
    pub client_mode: Seq<char>,
    pub display_name: Seq<char>,
    pub device_id: Option<Seq<char>>,
    pub shared_token: Option<Seq<char>>,
    pub shared_password: Option<Seq<char>>,
    pub requested_role: Seq<char>,
    pub requested_scopes: Seq<Seq<char>>,
}

impl View for GatewayConfig {
    type V = GatewayView;

    open spec fn view(&self) -> GatewayView {
        GatewayView {
            ws_url: self.ws_url@,
            client_id: self.client_id@,
            client_mode: self.client_mode@,
            display_name: self.display_name@,
            device_id: text::opt_text(self.device_id),
            shared_token: text::opt_text(self.shared_token),
            shared_password: text::opt_text(self.shared_password),
            requested_role: self.requested_role@,
            requested_scopes: text::texts(self.requested_scopes@),
        }
    }
}

pub open spec fn opt_list(value: Option<Vec<String>>) -> Option<Seq<Seq<char>>> {
    match value {
        Some(list) => Some(text::texts(list@)),
        None => None,
    }
}

pub open spec fn or_default(value: Option<Seq<char>>, fallback: Seq<char>) -> Seq<char> {
    match value {
        Some(s) => s,
        None => fallback,
    }
}

fn text_or(value: Option<String>, fallback: &str) -> (out: String)
    ensures
        out@ == or_default(text::opt_text(value), fallback@),
{
    match value {
        Some(s) => s,
        None => fallback.to_owned(),
    }
}

/// `wanted` is given, and no other scope is.
pub open spec fn only_scope_given(list: Seq<Seq<char>>, wanted: Seq<char>) -> bool {
    scope_given(list, wanted) && forall|scope: Seq<char>| #[trigger]
        scope_given(list, scope) ==> scope == wanted
}

/// The only scope that is requested is `operator.write`.
pub open spec fn scopes_accepted(raw: Option<Seq<Seq<char>>>) -> bool {
    match raw {
        None => true,
        Some(list) => only_scope_given(list, "operator.write"@),
    }
}

/// The settings of the gateway connection, or what is wrong with them.
pub open spec fn gateway_of(stored: StoredGatewayConfig, auth: LocalAuthView) -> Result<
    GatewayView,
    Seq<char>,
> {
    match client_id_of(text::opt_text(stored.client_id)) {
        Err(message) => Err(message),
        Ok(client_id) => if !scopes_accepted(opt_list(stored.requested_scopes)) {
            Err("gateway.requested_scopes must be [\"operator.write\"] in v1"@)
        } else {
            Ok(
                GatewayView {
                    ws_url: or_default(text::opt_text(stored.ws_url), "ws://127.0.0.1:18789"@),
                    client_id,
                    client_mode: client_mode_of(text::opt_text(stored.client_mode)),
                    display_name: or_default(
                        text::opt_text(stored.display_name),
                        "Subspace Daemon"@,
                    ),
                    device_id: text::opt_text(stored.device_id),
                    shared_token: auth.shared_token,
                    shared_password: auth.shared_password,
                    requested_role: or_default(text::opt_text(stored.requested_role), "operator"@),
                    requested_scopes: seq!["operator.write"@],
                },
            )
        },
    }
}

pub open spec fn gateway_result(result: Result<GatewayConfig, Failure>) -> Result<
    GatewayView,
    Seq<char>,
> {
    match result {
        Ok(gateway) => Ok(gateway@),
        Err(f) => Err(f@),
    }
}

/// Whether the only one of the requested scopes is `operator.write`.
fn check_scopes(requested: &Option<Vec<String>>) -> (accepted: bool)
    ensures
        accepted == scopes_accepted(opt_list(*requested)),
{
    match requested {
        None => true,
        Some(list) => {
            let scopes = normalize_scopes(list);
            let ghost out = text::texts(scopes@);
            let ghost raw = text::texts(list@);
            let ghost wanted = "operator.write"@;
            let accepted = scopes.len() == 1 && text::same_text(
                scopes[0].as_str(),
                "operator.write",
            );
            proof {
                if accepted {
                    assert(out[0] == wanted);
                    assert(out.contains(wanted));
                    assert forall|scope: Seq<char>| #[trigger]
                        scope_given(raw, scope) implies scope == wanted by {
                        assert(out.contains(scope));
                    }
                }
                if only_scope_given(raw, wanted) {
                    assert(out.contains(wanted));
                    let expected = seq![wanted];
                    assert forall|x: Seq<char>| out.contains(x) <==> expected.contains(x) by {
                        assert(expected[0] == wanted);
                        if out.contains(x) {
                            assert(scope_given(raw, x));
                        }
                    }
                    text::lemma_ascending_unique(out, expected);
                    assert(scopes@[0]@ == out[0]);
                }
            }
            accepted
        },
    }
}

fn make_gateway(stored: StoredGatewayConfig, auth: LocalGatewayAuth) -> (result: Result<
    GatewayConfig,
    Failure,
>)
    ensures
        gateway_result(result) == gateway_of(stored, auth@),
{
    let client_id = match require_gateway_client_id(&stored.client_id) {
        Ok(client_id) => client_id,
        Err(f) => return Err(f),
    };
    if !check_scopes(&stored.requested_scopes) {
        return Err(failure("gateway.requested_scopes must be [\"operator.write\"] in v1"));
    }
    let client_mode = normalize_gateway_client_mode(&stored.client_mode);
    let mut requested_scopes: Vec<String> = Vec::new();
    requested_scopes.push("operator.write".to_owned());
    assert(text::texts(requested_scopes@) == seq!["operator.write"@]);
    Ok(
        GatewayConfig {
            ws_url: text_or(stored.ws_url, "ws://127.0.0.1:18789"),
            client_id,
            client_mode,
            display_name: text_or(stored.display_name, "Subspace Daemon"),
            device_id: stored.device_id,
            shared_token: auth.shared_token,
            shared_password: auth.shared_password,
            requested_role: text_or(stored.requested_role, "operator"),
            requested_scopes,
        },
    )
}

// ---------------------------------------------------------------------------
// Servers
// ---------------------------------------------------------------------------

pub struct ServerView {
    pub base_url: Seq<char>,
    pub websocket_url: Seq<char>,
    pub enabled: bool,
    pub server_key: Seq<char>,
    pub registration_name: Seq<char>,
    pub identity: Option<Seq<char>>,
    pub local_pack_paths: Option<Seq<Seq<char>>>,
    pub session_path: Seq<char>,
    pub runtime_path: Seq<char>,
    pub wake_session_key: Option<Seq<char>>,
}

impl View for ServerConfig {
    type V = ServerView;

    open spec fn view(&self) -> ServerView {
        ServerView {
            base_url: self.base_url@,
            websocket_url: self.websocket_url@,
            enabled: self.enabled,
            server_key: self.server_key@,
            registration_name: self.registration_name@,
            identity: text::opt_text(self.identity),
            local_pack_paths: opt_list(self.local_pack_paths),
            session_path: self.session_path@,
            runtime_path: self.runtime_path@,
            wake_session_key: text::opt_text(self.wake_session_key),
        }
    }
}

pub open spec fn server_views(list: Seq<ServerConfig>) -> Seq<ServerView> {
    list.map_values(|server: ServerConfig| server@)
}

/// The name under which the daemon registers unless told otherwise.
pub open spec fn registration_name_for(hostname: Option<Seq<char>>) -> Seq<char> {
    "subspace-daemon-"@ + or_default(given(hostname), "host"@)
}

/// The name under which the daemon registers unless told otherwise: made of the name of the host.
pub fn default_registration_name(hostname: &Option<String>) -> (name: String)
    ensures
        name@ == registration_name_for(text::opt_text(*hostname)),
{
    let mut name = "subspace-daemon-".to_owned();
    match given_text(hostname) {
        Some(host) => name.append(host),
        None => name.append("host"),
    }
    name
}

/// The settings of a server, or what is wrong with them; `root` is the directory of the daemon.
pub open spec fn server_of(
    stored: StoredServerConfig,
    root: Seq<char>,
    default_name: Seq<char>,
) -> Result<ServerView, Seq<char>> {
    match server_url::canonical_base_url(stored.base_url@) {
        Err(message) => Err(message),
        Ok(base_url) => match server_url::server_key(base_url) {
            Err(message) => Err(message),
            Ok(server_key) => match server_url::subspace_ws_url(base_url) {
                Err(message) => Err(message),
                Ok(websocket_url) => Ok(
                    ServerView {
                        base_url,
                        websocket_url,
                        enabled: match stored.enabled {
                            Some(enabled) => enabled,
                            None => true,
                        },
                        server_key,
                        registration_name: or_default(
                            text::opt_text(stored.registration_name),
                            default_name,
                        ),
                        identity: text::opt_text(stored.identity),
                        local_pack_paths: opt_list(stored.local_pack_paths),
                        session_path: paths::joined_path(
                            under(root, "servers"@, server_key),
                            "subspace-session.json"@,
                        ),
                        runtime_path: paths::joined_path(
                            under(root, "servers"@, server_key),
                            "runtime.json"@,
                        ),
                        wake_session_key: text::opt_text(stored.wake_session_key),
                    },
                ),
            },
        },
    }
}

pub open spec fn has_base_url(servers: Seq<ServerView>, base_url: Seq<char>) -> bool {
    exists|i: int| 0 <= i < servers.len() && (#[trigger] servers[i]).base_url == base_url
}

/// The settings of all servers in order, or the first thing that is wrong with them; no two may
/// have the same base URL.
pub open spec fn servers_of(
    stored: Seq<StoredServerConfig>,
    root: Seq<char>,
    default_name: Seq<char>,
) -> Result<Seq<ServerView>, Seq<char>>
    decreases stored.len(),
{
    if stored.len() == 0 {
        Ok(Seq::empty())
    } else {
        match servers_of(stored.drop_last(), root, default_name) {
            Err(message) => Err(message),
            Ok(before) => match server_url::canonical_base_url(stored.last().base_url@) {
                Err(message) => Err(message),
                Ok(base_url) => if has_base_url(before, base_url) {
                    Err("duplicate server base_url: "@ + base_url)
                } else {
                    match server_of(stored.last(), root, default_name) {
                        Err(message) => Err(message),
                        Ok(server) => Ok(before.push(server)),
                    }
                },
            },
        }
    }
}

/// Whatever servers follow, the first thing that is wrong stays what it is.
proof fn lemma_servers_stop(
    stored: Seq<StoredServerConfig>,
    n: int,
    root: Seq<char>,
    default_name: Seq<char>,
)
    requires
        0 <= n <= stored.len(),
        servers_of(stored.take(n), root, default_name) is Err,
    ensures
        servers_of(stored, root, default_name) == servers_of(stored.take(n), root, default_name),
    decreases stored.len() - n,
{
    if n == stored.len() {
        assert(stored.take(n) == stored);
    } else {
        assert(stored.take(n + 1).drop_last() == stored.take(n));
        lemma_servers_stop(stored, n + 1, root, default_name);
    }
}

fn copy_opt_list(value: &Option<Vec<String>>) -> (copy: Option<Vec<String>>)
    ensures
        opt_list(copy) == opt_list(*value),
{
    match value {
        Some(list) => Some(text::copy_list(list)),
        None => None,
    }
}

pub open spec fn server_result(result: Result<ServerConfig, Failure>) -> Result<
    ServerView,
    Seq<char>,
> {
    match result {
        Ok(server) => Ok(server@),
        Err(f) => Err(f@),
    }
}

fn make_server(
    stored: &StoredServerConfig,
    base_url: String,
    root: &str,
    default_name: &str,
) -> (result: Result<ServerConfig, Failure>)
    requires
        server_url::canonical_base_url(stored.base_url@) == Ok::<Seq<char>, Seq<char>>(base_url@),
    ensures
        server_result(result) == server_of(*stored, root@, default_name@),
{
    let server_key = match derive_server_key(base_url.as_str()) {
        Ok(server_key) => server_key,
        Err(f) => return Err(f),
    };
    let websocket_url = match derive_subspace_ws_url(base_url.as_str()) {
        Ok(websocket_url) => websocket_url,
        Err(f) => return Err(f),
    };
    let server_dir = join_two(root, "servers", server_key.as_str());
    Ok(
        ServerConfig {
            websocket_url,
            enabled: match stored.enabled {
                Some(enabled) => enabled,
                None => true,
            },
            registration_name: text_or(text::copy_opt(&stored.registration_name), default_name),
            identity: text::copy_opt(&stored.identity),
            local_pack_paths: copy_opt_list(&stored.local_pack_paths),
            session_path: join_path(server_dir.as_str(), "subspace-session.json"),
            runtime_path: join_path(server_dir.as_str(), "runtime.json"),
            server_key,
            base_url,
            wake_session_key: text::copy_opt(&stored.wake_session_key),
        },
    )
}

pub open spec fn servers_result(result: Result<Vec<ServerConfig>, Failure>) -> Result<
    Seq<ServerView>,
    Seq<char>,
> {
    match result {
        Ok(servers) => Ok(server_views(servers@)),
        Err(f) => Err(f@),
    }
}

fn make_servers(stored: &Vec<StoredServerConfig>, root: &str, default_name: &str) -> (result: Result<
    Vec<ServerConfig>,
    Failure,
>)
    ensures
        servers_result(result) == servers_of(stored@, root@, default_name@),
{
    let mut servers: Vec<ServerConfig> = Vec::new();
    let mut i: usize = 0;
    assert(stored@.take(0) == Seq::<StoredServerConfig>::empty());
    assert(server_views(servers@) == Seq::<ServerView>::empty());
    while i < stored.len()
        invariant
            i <= stored.len(),
            servers_of(stored@.take(i as int), root@, default_name@) == Ok::<
                Seq<ServerView>,
                Seq<char>,
            >(server_views(servers@)),
        decreases stored.len() - i,
    {
        let ghost before = server_views(servers@);
        proof {
            assert(stored@.take(i + 1).drop_last() == stored@.take(i as int));
            assert(stored@.take(i + 1).last() == stored@[i as int]);
            if servers_of(stored@.take(i + 1), root@, default_name@) is Err {
                lemma_servers_stop(stored@, i + 1, root@, default_name@);
            }
        }
        let base_url = match canonicalize_base_url(stored[i].base_url.as_str()) {
            Ok(base_url) => base_url,
            Err(f) => return Err(f),
        };
        let mut k: usize = 0;
        while k < servers.len()
            invariant
                k <= servers.len(),
                i < stored.len(),
                before == server_views(servers@),
                forall|j: int| 0 <= j < k ==> (#[trigger] before[j]).base_url != base_url@,
                servers_of(stored@.take(i as int), root@, default_name@) == Ok::<
                    Seq<ServerView>,
                    Seq<char>,
                >(before),
                stored@.take(i + 1).drop_last() == stored@.take(i as int),
                stored@.take(i + 1).last() == stored@[i as int],
                servers_of(stored@.take(i + 1), root@, default_name@) is Err ==> servers_of(
                    stored@,
                    root@,
                    default_name@,
                ) == servers_of(stored@.take(i + 1), root@, default_name@),
                server_url::canonical_base_url(stored@[i as int].base_url@) == Ok::<
                    Seq<char>,
                    Seq<char>,
                >(base_url@),
            decreases servers.len() - k,
        {
            assert(before[k as int] == servers@[k as int]@);
            if text::same_text(servers[k].base_url.as_str(), base_url.as_str()) {
                assert(has_base_url(before, base_url@));
                return Err(failure_with("duplicate server base_url: ", base_url.as_str()));
            }
            k = k + 1;
        }
        let server = match make_server(&stored[i], base_url, root, default_name) {
            Ok(server) => server,
            Err(f) => return Err(f),
        };
        servers.push(server);
        assert(server_views(servers@) == before.push(server@));
        i = i + 1;
    }
    assert(stored@.take(stored@.len() as int) == stored@);
    Ok(servers)
}

impl ServerConfig {
    /// The receptor packs of the server: its own where it has a list of its own, even an empty one.
    pub fn effective_local_pack_paths(&self, global_paths: &Vec<String>) -> (out: Vec<String>)
        ensures
            text::texts(out@) == match self@.local_pack_paths {
                Some(own) => own,
                None => text::texts(global_paths@),
            },
    {
        match &self.local_pack_paths {
            Some(own) => text::copy_list(own),
            None => text::copy_list(global_paths),
        }
    }
}

// ---------------------------------------------------------------------------
// The whole configuration
// ---------------------------------------------------------------------------

/// The backend that a stored one describes.
pub open spec fn backend_made(
    backend: EmbeddingBackendConfig,
    stored: StoredEmbeddingBackend,
    home: Seq<char>,
) -> bool {
    &&& backend.backend_id@ == stored.backend_id@
    &&& backend.exec_path@ == paths::expanded(stored.exec_path@, Some(home))
    &&& backend.args@ == stored.args@
    &&& backend.default_space_id@ == stored.default_space_id@
    &&& backend.enabled == stored.enabled
    &&& backend.env@ == stored.env@
}

fn make_backends(stored: &Vec<StoredEmbeddingBackend>, home: &Option<String>) -> (backends: Vec<
    EmbeddingBackendConfig,
>)
    requires
        home is Some,
    ensures
        backends@.len() == stored@.len(),
        forall|i: int|
            0 <= i < stored@.len() ==> backend_made(
                #[trigger] backends@[i],
                stored@[i],
                home->0@,
            ),
{
    let mut backends: Vec<EmbeddingBackendConfig> = Vec::new();
    let mut i: usize = 0;
    while i < stored.len()
        invariant
            i <= stored.len(),
            home is Some,
            backends@.len() == i,
            forall|j: int|
                0 <= j < i ==> backend_made(#[trigger] backends@[j], stored@[j], home->0@),
        decreases stored.len() - i,
    {
        let b = &stored[i];
        backends.push(
            EmbeddingBackendConfig {
                backend_id: b.backend_id.clone(),
                exec_path: expand_tilde(b.exec_path.as_str(), home),
                args: text::copy_list(&b.args),
                default_space_id: b.default_space_id.clone(),
                enabled: b.enabled,
                env: text::copy_pairs(&b.env),
            },
        );
        i = i + 1;
    }
    backends
}

/// What is wrong with a stored configuration; nothing if a configuration can be made of it.
pub open spec fn config_problem(
    stored: StoredConfig,
    root: Seq<char>,
    around: Surroundings,
) -> Option<Seq<char>> {
    if around.home is None {
        Some("home directory unavailable"@)
    } else {
        match local_auth_of_text(
            text::opt_text(around.openclaw_config),
            under(around.home->0@, ".openclaw"@, "openclaw.json"@),
        ) {
            Err(message) => Some(message),
            Ok(auth) => match gateway_of(stored.gateway, auth) {
                Err(message) => Some(message),
                Ok(_) => match servers_of(
                    stored.servers@,
                    root,
                    registration_name_for(text::opt_text(around.hostname)),
                ) {
                    Err(message) => Some(message),
                    Ok(_) => None,
                },
            },
        }
    }
}

pub open spec fn or_number<T>(value: Option<T>, fallback: T) -> T {
    match value {
        Some(n) => n,
        None => fallback,
    }
}

/// The spacing of attempts.
pub open spec fn retry_of(stored: StoredRetryConfig) -> RetryConfig {
    RetryConfig {
        base_ms: or_number(stored.base_ms, 1_000),
        max_ms: or_number(stored.max_ms, 60_000),
        jitter_ratio_bits: or_number(stored.jitter_ratio_bits, DEFAULT_JITTER_RATIO_BITS),
        storm_guard: StormGuardConfig {
            failure_window_ms: or_number(stored.storm_guard.failure_window_ms, 300_000),
            consecutive_failure_threshold: or_number(
                stored.storm_guard.consecutive_failure_threshold,
                10,
            ),
            cooldown_ms: or_number(stored.storm_guard.cooldown_ms, 300_000),
            max_cooldown_ms: or_number(stored.storm_guard.max_cooldown_ms, 3_600_000),
        },
    }
}

/// A path of the storage: the stored one, or a default under the directory of the daemon.
pub open spec fn storage_path(
    stored: Option<String>,
    fallback: Seq<char>,
    home: Option<Seq<char>>,
) -> Seq<char> {
    match stored {
        Some(path) => paths::expanded(path@, home),
        None => fallback,
    }
}

/// The configuration that is made of a stored one.
pub open spec fn config_made(
    config: Config,
    stored: StoredConfig,
    paths: AppPaths,
    around: Surroundings,
) -> bool {
    let root = paths.root@;
    let auth = local_auth_of_text(
        text::opt_text(around.openclaw_config),
        under(around.home->0@, ".openclaw"@, "openclaw.json"@),
    )->Ok_0;
    &&& Ok::<GatewayView, Seq<char>>(config.gateway@) == gateway_of(stored.gateway, auth)
    &&& Ok::<Seq<ServerView>, Seq<char>>(server_views(config.servers@)) == servers_of(
        stored.servers@,
        root,
        registration_name_for(text::opt_text(around.hostname)),
    )
    &&& config.attention.local_pack_paths == stored.attention.local_pack_paths
    &&& config.attention.threshold == or_number(
        stored.attention.threshold,
        similarity::DEFAULT_THRESHOLD,
    )
    &&& config.attention.embedding_backends@.len() == stored.attention.embedding_backends@.len()
    &&& forall|i: int|
        0 <= i < stored.attention.embedding_backends@.len() ==> backend_made(
            #[trigger] config.attention.embedding_backends@[i],
            stored.attention.embedding_backends@[i],
            around.home->0@,
        )
    &&& config.routing.wake_session_key@ == or_default(
        text::opt_text(stored.routing.wake_session_key),
        "agent:heimdal:main"@,
    )
    &&& config.replay.dedupe_window_size == or_number(stored.replay.dedupe_window_size, 500usize)
    &&& text::opt_text(config.replay.discard_before_ts) == given(
        text::opt_text(stored.replay.discard_before_ts),
    )
    &&& config.logging.level@ == or_default(text::opt_text(stored.logging.level), "info"@)
    &&& config.logging.json == or_number(stored.logging.json, true)
    &&& config.retry == retry_of(stored.retry)
    &&& config.storage.database_path@ == storage_path(
        stored.storage.database_path,
        under(root, "data"@, "daemon.sqlite3"@),
        text::opt_text(around.home),
    )
    &&& config.storage.artifact_root@ == storage_path(
        stored.storage.artifact_root,
        paths::joined_path(root, "artifacts"@),
        text::opt_text(around.home),
    )
    &&& config.storage.auto_migrate == or_number(stored.storage.auto_migrate, true)
    &&& config.sinks == stored.sinks
    &&& config.hard_failure_hooks == stored.hard_failure_hooks
    &&& config.paths == paths
}

fn make_retry(stored: &StoredRetryConfig) -> (retry: RetryConfig)
    ensures
        retry == retry_of(*stored),
{
    let guard = &stored.storm_guard;
    RetryConfig {
        base_ms: stored.base_ms.unwrap_or(1_000),
        max_ms: stored.max_ms.unwrap_or(60_000),
        jitter_ratio_bits: stored.jitter_ratio_bits.unwrap_or(DEFAULT_JITTER_RATIO_BITS),
        storm_guard: StormGuardConfig {
            failure_window_ms: guard.failure_window_ms.unwrap_or(300_000),
            consecutive_failure_threshold: guard.consecutive_failure_threshold.unwrap_or(10),
            cooldown_ms: guard.cooldown_ms.unwrap_or(300_000),
            max_cooldown_ms: guard.max_cooldown_ms.unwrap_or(3_600_000),
        },
    }
}

impl Config {
    /// Makes the configuration that the daemon runs with.
    pub fn from_stored(stored: StoredConfig, paths: AppPaths, around: &Surroundings) -> (result:
        Result<Config, Failure>)
        ensures
            match result {
                Ok(config) => config_problem(stored, paths.root@, *around) is None && config_made(
                    config,
                    stored,
                    paths,
                    *around,
                ),
                Err(f) => config_problem(stored, paths.root@, *around) == Some(f@),
            },
    {
        let home = match &around.home {
            Some(home) => home.as_str(),
            None => return Err(failure("home directory unavailable")),
        };
        let openclaw_path = join_two(home, ".openclaw", "openclaw.json");
        let auth = match load_local_gateway_auth(
            &around.openclaw_config,
            openclaw_path.as_str(),
        ) {
            Ok(auth) => auth,
            Err(f) => return Err(f),
        };
        let gateway = match make_gateway(stored.gateway, auth) {
            Ok(gateway) => gateway,
            Err(f) => return Err(f),
        };
        let default_name = default_registration_name(&around.hostname);
        let servers = match make_servers(
            &stored.servers,
            paths.root.as_str(),
            default_name.as_str(),
        ) {
            Ok(servers) => servers,
            Err(f) => return Err(f),
        };
        let embedding_backends = make_backends(
            &stored.attention.embedding_backends,
            &around.home,
        );
        let discard_before_ts = match given_text(&stored.replay.discard_before_ts) {
            Some(ts) => Some(ts.to_owned()),
            None => None,
        };
        let database_path = match &stored.storage.database_path {
            Some(path) => expand_tilde(path.as_str(), &around.home),
            None => join_two(paths.root.as_str(), "data", "daemon.sqlite3"),
        };
        let artifact_root = match &stored.storage.artifact_root {
            Some(path) => expand_tilde(path.as_str(), &around.home),
            None => join_path(paths.root.as_str(), "artifacts"),
        };
        Ok(
            Config {
                gateway,
                servers,
                attention: AttentionConfig {
                    local_pack_paths: stored.attention.local_pack_paths,
                    embedding_backends,
                    threshold: stored.attention.threshold.unwrap_or(similarity::DEFAULT_THRESHOLD),
                },
                routing: RoutingConfig {
                    wake_session_key: text_or(
                        stored.routing.wake_session_key,
                        "agent:heimdal:main",
                    ),
                },
                replay: ReplayConfig {
                    dedupe_window_size: stored.replay.dedupe_window_size.unwrap_or(500),
                    discard_before_ts,
                },
                logging: LoggingConfig {
                    level: text_or(stored.logging.level, "info"),
                    json: stored.logging.json.unwrap_or(true),
                },
                retry: make_retry(&stored.retry),
                storage: StorageConfig {
                    database_path,
                    artifact_root,
                    auto_migrate: stored.storage.auto_migrate.unwrap_or(true),
                },
                sinks: stored.sinks,
                hard_failure_hooks: stored.hard_failure_hooks,
                paths,
            },
        )
    }
}

// ---------------------------------------------------------------------------
// Changing the stored configuration
// ---------------------------------------------------------------------------

/// The stored server has the given canonical base URL.
pub open spec fn stored_at(server: StoredServerConfig, base_url: Seq<char>) -> bool {
    server_url::canonical_base_url(server.base_url@) == Ok::<Seq<char>, Seq<char>>(base_url)
}

/// The place of the first stored server with the given canonical base URL.
pub open spec fn stored_place(servers: Seq<StoredServerConfig>, base_url: Seq<char>) -> Option<int>
    decreases servers.len(),
{
    if servers.len() == 0 {
        None
    } else if stored_at(servers[0], base_url) {
        Some(0)
    } else {
        match stored_place(servers.skip(1), base_url) {
            Some(i) => Some(i + 1),
            None => None,
        }
    }
}

/// The server entry after a setup: what the setup does not speak of stays as it is.
pub open spec fn server_updated(
    server: StoredServerConfig,
    base_url: String,
    registration_name: String,
    identity: String,
) -> StoredServerConfig {
    StoredServerConfig {
        base_url,
        registration_name: Some(registration_name),
        identity: Some(identity),
        enabled: Some(true),
        ..server
    }
}

/// The server entry that a setup adds.
pub open spec fn server_added(
    base_url: String,
    registration_name: String,
    identity: String,
) -> StoredServerConfig {
    StoredServerConfig {
        base_url,
        registration_name: Some(registration_name),
        identity: Some(identity),
        local_pack_paths: None,
        enabled: Some(true),
        wake_session_key: None,
    }
}

/// The server entries after a setup.
pub open spec fn servers_after_setup(
    servers: Seq<StoredServerConfig>,
    base_url: String,
    registration_name: String,
    identity: String,
) -> Seq<StoredServerConfig> {
    match stored_place(servers, base_url@) {
        Some(i) => servers.update(
            i,
            server_updated(servers[i], base_url, registration_name, identity),
        ),
        None => servers.push(server_added(base_url, registration_name, identity)),
    }
}

/// The name under which the daemon is registered at a server, where the configuration says so.
pub open spec fn stored_registration_name(
    servers: Seq<StoredServerConfig>,
    base_url: Seq<char>,
) -> Option<Seq<char>> {
    match stored_place(servers, base_url) {
        Some(i) => text::opt_text(servers[i].registration_name),
        None => None,
    }
}

impl StoredConfig {
    /// The name under which the daemon is registered at a server, where the configuration says so.
    pub fn registration_name_at(&self, base_url: &str) -> (name: Option<String>)
        ensures
            text::opt_text(name) == stored_registration_name(self.servers@, base_url@),
    {
        match self.find_server(base_url) {
            Some(i) => text::copy_opt(&self.servers[i].registration_name),
            None => None,
        }
    }

    fn find_server(&self, base_url: &str) -> (found: Option<usize>)
        ensures
            found is Some <==> stored_place(self.servers@, base_url@) is Some,
            found matches Some(i) ==> stored_place(self.servers@, base_url@) == Some(i as int) && i
                < self.servers.len(),
    {
        let ghost all = self.servers@;
        let mut i: usize = 0;
        assert(all.skip(0) == all);
        while i < self.servers.len()
            invariant
                i <= self.servers.len(),
                all == self.servers@,
                stored_place(all, base_url@) is Some <==> stored_place(
                    all.skip(i as int),
                    base_url@,
                ) is Some,
                stored_place(all.skip(i as int), base_url@) matches Some(k) ==> stored_place(
                    all,
                    base_url@,
                ) == Some(k + i),
            decreases self.servers.len() - i,
        {
            let matches_url = match canonicalize_base_url(self.servers[i].base_url.as_str()) {
                Ok(canonical) => text::same_text(canonical.as_str(), base_url),
                Err(_) => false,
            };
            if matches_url {
                return Some(i);
            }
            assert(all.skip(i as int).skip(1) == all.skip(i + 1));
            i = i + 1;
        }
        None
    }

    /// Adds the server that was set up, or updates its entry.
    pub fn upsert_server(&mut self, base_url: String, registration_name: String, identity: String)
        ensures
            final(self).servers@ == servers_after_setup(
                old(self).servers@,
                base_url,
                registration_name,
                identity,
            ),
            *final(self) == (StoredConfig { servers: final(self).servers, ..*old(self) }),
    {
        match self.find_server(base_url.as_str()) {
            Some(i) => {
                let existing = self.servers.remove(i);
                let ghost rest = self.servers@;
                let updated = StoredServerConfig {
                    base_url,
                    registration_name: Some(registration_name),
                    identity: Some(identity),
                    enabled: Some(true),
                    local_pack_paths: existing.local_pack_paths,
                    wake_session_key: existing.wake_session_key,
                };
                self.servers.insert(i, updated);
                assert(self.servers@ == old(self).servers@.update(i as int, updated));
            },
            None => {
                self.servers.push(
                    StoredServerConfig {
                        base_url,
                        registration_name: Some(registration_name),
                        identity: Some(identity),
                        local_pack_paths: None,
                        enabled: Some(true),
                        wake_session_key: None,
                    },
                );
            },
        }
    }
}

// ---------------------------------------------------------------------------
// Laws
// ---------------------------------------------------------------------------

/// No two servers of a configuration have the same base URL.
pub proof fn law_servers_are_distinct(
    stored: Seq<StoredServerConfig>,
    root: Seq<char>,
    default_name: Seq<char>,
)
    ensures
        servers_of(stored, root, default_name) matches Ok(servers) ==> servers.len()
            == stored.len() && forall|i: int, j: int|
            0 <= i < j < servers.len() ==> (#[trigger] servers[i]).base_url != (
            #[trigger] servers[j]).base_url,
    decreases stored.len(),
{
    if stored.len() > 0 {
        law_servers_are_distinct(stored.drop_last(), root, default_name);
        if let Ok(servers) = servers_of(stored, root, default_name) {
            let before = servers_of(stored.drop_last(), root, default_name)->Ok_0;
            assert forall|i: int, j: int| 0 <= i < j < servers.len() implies (
            #[trigger] servers[i]).base_url != (#[trigger] servers[j]).base_url by {
                assert(servers[i] == before[i]);
                if j < before.len() {
                    assert(servers[j] == before[j]);
                } else {
                    assert(!has_base_url(before, servers[j].base_url));
                }
            }
        }
    }
}

/// A setup adds one server entry or changes one, and leaves all others as they are.
pub proof fn law_setup_touches_one_server(
    servers: Seq<StoredServerConfig>,
    base_url: String,
    registration_name: String,
    identity: String,
)
    ensures
        servers.len() <= servers_after_setup(
            servers,
            base_url,
            registration_name,
            identity,
        ).len() <= servers.len() + 1,
        exists|place: int|
            0 <= place < servers_after_setup(
                servers,
                base_url,
                registration_name,
                identity,
            ).len() && (#[trigger] servers_after_setup(
                servers,
                base_url,
                registration_name,
                identity,
            )[place]).base_url == base_url && forall|i: int|
                0 <= i < servers.len() && i != place ==> (#[trigger] servers_after_setup(
                    servers,
                    base_url,
                    registration_name,
                    identity,
                )[i]) == servers[i],
{
    let after = servers_after_setup(servers, base_url, registration_name, identity);
    lemma_stored_place(servers, base_url@);
    match stored_place(servers, base_url@) {
        Some(i) => {
            assert(after[i].base_url == base_url);
        },
        None => {
            assert(after[servers.len() as int].base_url == base_url);
        },
    }
}

proof fn lemma_stored_place(servers: Seq<StoredServerConfig>, base_url: Seq<char>)
    ensures
        stored_place(servers, base_url) matches Some(i) ==> 0 <= i < servers.len() && stored_at(
            servers[i],
            base_url,
        ),
    decreases servers.len(),
{
    if servers.len() > 0 && !stored_at(servers[0], base_url) {
        lemma_stored_place(servers.skip(1), base_url);
    }
}

/// Normalized scopes are normal: normalizing them again changes nothing.
pub proof fn law_normalized_scopes_are_normal(
    raw: Seq<Seq<char>>,
    once: Seq<Seq<char>>,
    twice: Seq<Seq<char>>,
)
    requires
        text::ascending(once),
        forall|scope: Seq<char>| once.contains(scope) <==> scope_given(raw, scope),
        text::ascending(twice),
        forall|scope: Seq<char>| twice.contains(scope) <==> scope_given(once, scope),
    ensures
        twice == once,
{
    assert forall|scope: Seq<char>| twice.contains(scope) <==> once.contains(scope) by {
        if once.contains(scope) {
            let i = choose|i: int| 0 <= i < once.len() && once[i] == scope;
            let k = choose|k: int| 0 <= k < raw.len() && text::trimmed(#[trigger] raw[k]) == scope;
            text::lemma_trimmed_twice(raw[k]);
            assert(text::trimmed(once[i]) == scope);
        }
        if scope_given(once, scope) {
            let i = choose|i: int| 0 <= i < once.len() && text::trimmed(#[trigger] once[i]) == scope;
            assert(once.contains(once[i]));
            let k = choose|k: int|
                0 <= k < raw.len() && text::trimmed(#[trigger] raw[k]) == once[i];
            text::lemma_trimmed_twice(raw[k]);
        }
    }
    text::lemma_ascending_unique(twice, once);
}

/// After a setup the server has an entry with its base URL, the name and the identity of the setup,
/// and it is enabled, whether or not it had an entry before; where the base URL is canonical, the first
/// entry for it is that one, so that it is found. What an entry says besides is kept.
pub proof fn law_server_is_set_up(
    servers: Seq<StoredServerConfig>,
    base_url: String,
    registration_name: String,
    identity: String,
)
    ensures
        ({
            let after = servers_after_setup(servers, base_url, registration_name, identity);
            exists|k: int|
                0 <= k < after.len() && (#[trigger] after[k]).base_url == base_url
                    && after[k].registration_name == Some(registration_name) && after[k].identity
                    == Some(identity) && after[k].enabled == Some(true) && (
                server_url::canonical_base_url(base_url@) == Ok::<Seq<char>, Seq<char>>(base_url@)
                    ==> stored_place(after, base_url@) == Some(k)) && (k < servers.len() ==> after[k].local_pack_paths
                    == servers[k].local_pack_paths && after[k].wake_session_key
                    == servers[k].wake_session_key && stored_at(servers[k], base_url@)) && (k
                    == servers.len() ==> after[k].local_pack_paths is None
                    && after[k].wake_session_key is None && forall|i: int|
                    0 <= i < servers.len() ==> !stored_at(#[trigger] servers[i], base_url@))
        }),
{
    let after = servers_after_setup(servers, base_url, registration_name, identity);
    law_stored_server_is_found(servers, base_url@);
    law_stored_server_is_found(after, base_url@);
    let k = match stored_place(servers, base_url@) {
        Some(i) => i,
        None => servers.len() as int,
    };
    assert(after[k].base_url == base_url);
    assert(forall|i: int| 0 <= i < k ==> #[trigger] after[i] == servers[i]);
    if server_url::canonical_base_url(base_url@) == Ok::<Seq<char>, Seq<char>>(base_url@) {
        assert(stored_at(after[k], base_url@));
        let found = stored_place(after, base_url@)->0;
        assert(found == k) by {
            if found < k {
                assert(stored_at(servers[found], base_url@));
            }
        }
    }
}

/// The entry of a server is found exactly if there is one, and it is the first.
pub proof fn law_stored_server_is_found(servers: Seq<StoredServerConfig>, base_url: Seq<char>)
    ensures
        stored_place(servers, base_url) is Some <==> exists|i: int|
            0 <= i < servers.len() && stored_at(#[trigger] servers[i], base_url),
        stored_place(servers, base_url) matches Some(k) ==> 0 <= k < servers.len() && stored_at(
            servers[k],
            base_url,
        ) && forall|i: int| 0 <= i < k ==> !stored_at(#[trigger] servers[i], base_url),
    decreases servers.len(),
{
    if servers.len() > 0 {
        let rest = servers.skip(1);
        law_stored_server_is_found(rest, base_url);
        assert(forall|i: int| 0 <= i < rest.len() ==> #[trigger] rest[i] == servers[i + 1]);
        if !stored_at(servers[0], base_url) {
            if exists|i: int| 0 <= i < servers.len() && stored_at(#[trigger] servers[i], base_url) {
                let i = choose|i: int|
                    0 <= i < servers.len() && stored_at(#[trigger] servers[i], base_url);
                assert(stored_at(rest[i - 1], base_url));
            }
            if let Some(k) = stored_place(rest, base_url) {
                assert(stored_at(servers[k + 1], base_url));
                assert forall|i: int| 0 <= i < k + 1 implies !stored_at(
                    #[trigger] servers[i],
                    base_url,
                ) by {
                    if i > 0 {
                        assert(!stored_at(rest[i - 1], base_url));
                    }
                }
            }
        } else {
            assert(stored_at(servers[0], base_url));
        }
    }
}

/// Every server that is stored is configured, in its place: at its canonical URL, under the name and
/// the identity that are stored, with its own packs and session, and enabled unless it is stored as
/// disabled.
pub proof fn law_every_stored_server_is_configured(
    stored: Seq<StoredServerConfig>,
    root: Seq<char>,
    default_name: Seq<char>,
    i: int,
)
    requires
        servers_of(stored, root, default_name) is Ok,
        0 <= i < stored.len(),
    ensures
        ({
            let servers = servers_of(stored, root, default_name)->Ok_0;
            let server = servers[i];
            &&& servers.len() == stored.len()
            &&& server_url::canonical_base_url(stored[i].base_url@) == Ok::<Seq<char>, Seq<char>>(
                server.base_url,
            )
            &&& server_url::server_key(server.base_url) == Ok::<Seq<char>, Seq<char>>(
                server.server_key,
            )
            &&& server_url::subspace_ws_url(server.base_url) == Ok::<Seq<char>, Seq<char>>(
                server.websocket_url,
            )
            &&& server.enabled <==> stored[i].enabled != Some(false)
            &&& match stored[i].registration_name {
                Some(name) => server.registration_name == name@,
                None => server.registration_name == default_name,
            }
            &&& match stored[i].identity {
                Some(identity) => server.identity == Some(identity@),
                None => server.identity is None,
            }
            &&& match stored[i].wake_session_key {
                Some(key) => server.wake_session_key == Some(key@),
                None => server.wake_session_key is None,
            }
            &&& match stored[i].local_pack_paths {
                Some(list) => server.local_pack_paths == Some(text::texts(list@)),
                None => server.local_pack_paths is None,
            }
        }),
    decreases stored.len(),
{
    law_servers_are_distinct(stored, root, default_name);
    law_servers_are_distinct(stored.drop_last(), root, default_name);
    let servers = servers_of(stored, root, default_name)->Ok_0;
    let before = servers_of(stored.drop_last(), root, default_name)->Ok_0;
    if i < stored.len() - 1 {
        law_every_stored_server_is_configured(stored.drop_last(), root, default_name, i);
        assert(stored.drop_last()[i] == stored[i]);
        assert(servers[i] == before[i]);
    }
}

/// Servers are refused only if one of them cannot be reached at its URL, or if two are the same.
pub proof fn law_good_servers_are_accepted(
    stored: Seq<StoredServerConfig>,
    root: Seq<char>,
    default_name: Seq<char>,
)
    requires
        forall|i: int|
            0 <= i < stored.len() ==> server_of(#[trigger] stored[i], root, default_name) is Ok,
        forall|i: int, j: int|
            0 <= i < j < stored.len() ==> server_url::canonical_base_url(
                (#[trigger] stored[i]).base_url@,
            ) != server_url::canonical_base_url((#[trigger] stored[j]).base_url@),
    ensures
        servers_of(stored, root, default_name) is Ok,
    decreases stored.len(),
{
    if stored.len() > 0 {
        let rest = stored.drop_last();
        let n = rest.len() as int;
        assert(forall|i: int| 0 <= i < n ==> #[trigger] rest[i] == stored[i]);
        law_good_servers_are_accepted(rest, root, default_name);
        law_servers_are_distinct(rest, root, default_name);
        let before = servers_of(rest, root, default_name)->Ok_0;
        assert(server_of(stored[n], root, default_name) is Ok);
        let base_url = server_url::canonical_base_url(stored[n].base_url@)->Ok_0;
        assert(!has_base_url(before, base_url)) by {
            if has_base_url(before, base_url) {
                let k = choose|k: int|
                    0 <= k < before.len() && (#[trigger] before[k]).base_url == base_url;
                law_every_stored_server_is_configured(rest, root, default_name, k);
                assert(rest[k] == stored[k]);
                assert(server_url::canonical_base_url(stored[k].base_url@)
                    == server_url::canonical_base_url(stored[n].base_url@));
            }
        }
    }
}

/// The gateway is reached as the configuration says, with the credentials of the gateway's own
/// configuration; the daemon asks for one scope and has no other name than its own.
pub proof fn law_gateway_is_configured(stored: StoredGatewayConfig, auth: LocalAuthView)
    ensures
        gateway_of(stored, auth) matches Ok(gateway) ==> {
            &&& gateway.shared_token == auth.shared_token
            &&& gateway.shared_password == auth.shared_password
            &&& gateway.client_id == "gateway-client"@
            &&& gateway.requested_scopes == seq!["operator.write"@]
            &&& match stored.ws_url {
                Some(url) => gateway.ws_url == url@,
                None => gateway.ws_url == "ws://127.0.0.1:18789"@,
            }
            &&& match stored.display_name {
                Some(name) => gateway.display_name == name@,
                None => gateway.display_name == "Subspace Daemon"@,
            }
            &&& match stored.requested_role {
                Some(role) => gateway.requested_role == role@,
                None => gateway.requested_role == "operator"@,
            }
            &&& match stored.device_id {
                Some(id) => gateway.device_id == Some(id@),
                None => gateway.device_id is None,
            }
            &&& match stored.client_mode {
                Some(mode) => text::trimmed(mode@).len() > 0 ==> gateway.client_mode
                    == text::trimmed(mode@),
                None => gateway.client_mode == "backend"@,
            }
        },
        stored.client_id is None && stored.requested_scopes is None ==> gateway_of(stored, auth)
            is Ok,
        stored.client_id matches Some(id) ==> (text::trimmed(id@).len() > 0 && text::trimmed(id@)
            != "gateway-client"@ ==> gateway_of(stored, auth) is Err),
        stored.requested_scopes matches Some(list) ==> (forall|i: int|
            0 <= i < list@.len() ==> text::trimmed((#[trigger] list@[i])@) != "operator.write"@)
            ==> gateway_of(stored, auth) is Err,
{
    if let Some(list) = stored.requested_scopes {
        if forall|i: int|
            0 <= i < list@.len() ==> text::trimmed((#[trigger] list@[i])@) != "operator.write"@ {
            let raw = text::texts(list@);
            assert(!scope_given(raw, "operator.write"@)) by {
                if scope_given(raw, "operator.write"@) {
                    let i = choose|i: int|
                        0 <= i < raw.len() && text::trimmed(#[trigger] raw[i])
                            == "operator.write"@;
                    assert(raw[i] == list@[i]@);
                }
            }
        }
    }
}

/// The credentials are the ones that the gateway's own configuration has under `gateway.auth`. There
/// are none if there is no such configuration, and one that is no JSON is an error.
pub proof fn law_local_credentials_are_read(
    raw: Seq<char>,
    path: Seq<char>,
    config: JsonView,
    gateway: JsonView,
    auth: JsonView,
)
    requires
        config.member("gateway"@) == Some(gateway),
        gateway.member("auth"@) == Some(auth),
    ensures
        local_auth(config).shared_token == auth.text_member("token"@),
        local_auth(config).shared_password == auth.text_member("password"@),
        json::parsed_json(raw) == Ok::<JsonView, Seq<char>>(config) ==> (local_auth_of_text(
            Some(raw),
            path,
        ) matches Ok(found) && found.shared_token == auth.text_member("token"@)
            && found.shared_password == auth.text_member("password"@)),
        json::parsed_json(raw) is Err ==> local_auth_of_text(Some(raw), path) is Err,
        local_auth_of_text(None, path) matches Ok(found) && found.shared_token is None
            && found.shared_password is None,
{
}

/// A configuration has what is stored, and the default of what is not.
pub proof fn law_configuration_is_what_is_stored(
    config: Config,
    stored: StoredConfig,
    paths: AppPaths,
    around: Surroundings,
)
    requires
        config_made(config, stored, paths, around),
    ensures
        config.sinks@ == stored.sinks@,
        config.hard_failure_hooks@ == stored.hard_failure_hooks@,
        config.paths == paths,
        config.attention.local_pack_paths@ == stored.attention.local_pack_paths@,
        stored.attention.threshold matches Some(threshold) ==> config.attention.threshold
            == threshold,
        config.attention.embedding_backends@.len() == stored.attention.embedding_backends@.len(),
        forall|i: int|
            #![trigger config.attention.embedding_backends@[i]]
            0 <= i < stored.attention.embedding_backends@.len()
                ==> config.attention.embedding_backends@[i].backend_id@
                == stored.attention.embedding_backends@[i].backend_id@
                && config.attention.embedding_backends@[i].enabled
                == stored.attention.embedding_backends@[i].enabled
                && config.attention.embedding_backends@[i].args@
                == stored.attention.embedding_backends@[i].args@
                && config.attention.embedding_backends@[i].env@
                == stored.attention.embedding_backends@[i].env@
                && config.attention.embedding_backends@[i].default_space_id@
                == stored.attention.embedding_backends@[i].default_space_id@,
        match stored.routing.wake_session_key {
            Some(key) => config.routing.wake_session_key@ == key@,
            None => config.routing.wake_session_key@ == "agent:heimdal:main"@,
        },
        match stored.replay.dedupe_window_size {
            Some(size) => config.replay.dedupe_window_size == size,
            None => config.replay.dedupe_window_size == 500,
        },
        match stored.replay.discard_before_ts {
            Some(ts) => match config.replay.discard_before_ts {
                Some(kept) => kept@ == text::trimmed(ts@) && kept@.len() > 0,
                None => text::trimmed(ts@).len() == 0,
            },
            None => config.replay.discard_before_ts is None,
        },
        match stored.logging.level {
            Some(level) => config.logging.level@ == level@,
            None => config.logging.level@ == "info"@,
        },
        config.logging.json <==> stored.logging.json != Some(false),
        config.storage.auto_migrate <==> stored.storage.auto_migrate != Some(false),
        stored.retry.base_ms == Some(config.retry.base_ms) || stored.retry.base_ms is None
            && config.retry.base_ms == 1_000,
        stored.retry.max_ms == Some(config.retry.max_ms) || stored.retry.max_ms is None
            && config.retry.max_ms == 60_000,
        stored.retry.jitter_ratio_bits matches Some(bits) ==> config.retry.jitter_ratio_bits
            == bits,
        stored.retry.storm_guard.failure_window_ms == Some(
            config.retry.storm_guard.failure_window_ms,
        ) || stored.retry.storm_guard.failure_window_ms is None
            && config.retry.storm_guard.failure_window_ms == 300_000,
        stored.retry.storm_guard.consecutive_failure_threshold == Some(
            config.retry.storm_guard.consecutive_failure_threshold,
        ) || stored.retry.storm_guard.consecutive_failure_threshold is None
            && config.retry.storm_guard.consecutive_failure_threshold == 10,
        stored.retry.storm_guard.cooldown_ms == Some(config.retry.storm_guard.cooldown_ms)
            || stored.retry.storm_guard.cooldown_ms is None
            && config.retry.storm_guard.cooldown_ms == 300_000,
        stored.retry.storm_guard.max_cooldown_ms == Some(config.retry.storm_guard.max_cooldown_ms)
            || stored.retry.storm_guard.max_cooldown_ms is None
            && config.retry.storm_guard.max_cooldown_ms == 3_600_000,
{
    assert forall|i: int| 0 <= i < stored.attention.embedding_backends@.len() implies backend_made(
        #[trigger] config.attention.embedding_backends@[i],
        stored.attention.embedding_backends@[i],
        around.home->0@,
    ) by {}
}

/// Where the files of the daemon lie: a path that is stored is used, from the home directory where
/// it begins with `~/`.
pub proof fn law_stored_paths_are_used(
    config: Config,
    stored: StoredConfig,
    paths: AppPaths,
    around: Surroundings,
    home: String,
    rest: Seq<char>,
)
    requires
        config_made(config, stored, paths, around),
        around.home == Some(home),
    ensures
        stored.storage.database_path matches Some(path) ==> (path@[0] == '/'
            ==> config.storage.database_path@ == path@) && (path@ == seq!['~', '/'] + rest
            ==> config.storage.database_path@ == paths::joined_path(home@, rest)),
        stored.storage.artifact_root matches Some(path) ==> (path@[0] == '/'
            ==> config.storage.artifact_root@ == path@) && (path@ == seq!['~', '/'] + rest
            ==> config.storage.artifact_root@ == paths::joined_path(home@, rest)),
        stored.storage.database_path is None ==> config.storage.database_path@
            == paths::joined_path(paths::joined_path(paths.root@, "data"@), "daemon.sqlite3"@),
        stored.storage.artifact_root is None ==> config.storage.artifact_root@
            == paths::joined_path(paths.root@, "artifacts"@),
        forall|i: int|
            #![trigger config.attention.embedding_backends@[i]]
            0 <= i < stored.attention.embedding_backends@.len() ==> (
            stored.attention.embedding_backends@[i].exec_path@[0] == '/'
                ==> config.attention.embedding_backends@[i].exec_path@
                == stored.attention.embedding_backends@[i].exec_path@) && (
            stored.attention.embedding_backends@[i].exec_path@ == seq!['~', '/'] + rest
                ==> config.attention.embedding_backends@[i].exec_path@ == paths::joined_path(
                home@,
                rest,
            )),
{
    paths::lemma_home_is_expanded(rest, home@);
    assert forall|i: int| 0 <= i < stored.attention.embedding_backends@.len() implies backend_made(
        #[trigger] config.attention.embedding_backends@[i],
        stored.attention.embedding_backends@[i],
        around.home->0@,
    ) by {}
    reveal_strlit("~/");
    assert("~/"@[0] == '~');
}

/// A daemon on a host registers under the host's name.
pub proof fn law_usual_name_is_that_of_the_host(hostname: Seq<char>)
    ensures
        registration_name_for(None) == "subspace-daemon-host"@,
        text::trimmed(hostname).len() > 0 ==> registration_name_for(Some(hostname))
            == "subspace-daemon-"@ + text::trimmed(hostname),
{
    reveal_strlit("subspace-daemon-");
    reveal_strlit("host");
    reveal_strlit("subspace-daemon-host");
    assert("subspace-daemon-"@ + "host"@ =~= "subspace-daemon-host"@);
}

/// A file of a server lies in the server's directory.
proof fn lemma_server_file(root: Seq<char>, key: Seq<char>, file: Seq<char>)
    requires
        key.len() > 0,
        key[0] != '/',
        key.last() != '/',
        file.len() > 0,
        file[0] != '/',
    ensures
        paths::joined_path(under(root, "servers"@, key), file) == paths::joined_path(
            root,
            "servers"@,
        ).push('/') + key + seq!['/'] + file,
{
    reveal_strlit("servers");
    let directory = paths::joined_path(root, "servers"@);
    assert("servers"@[0] == 's');
    assert("servers"@.last() == 's');
    assert(directory.len() > 0 && directory.last() == 's');
    let own = under(root, "servers"@, key);
    assert(own == directory.push('/') + key);
    assert(own.last() == key.last());
    assert(own.push('/') + file =~= directory.push('/') + key + seq!['/'] + file);
}

/// Every server keeps its files apart from those of all others, and its session apart from what else it
/// remembers.
pub proof fn law_servers_keep_their_files_apart(
    one: StoredServerConfig,
    other: StoredServerConfig,
    root: Seq<char>,
    default_name: Seq<char>,
)
    requires
        server_of(one, root, default_name) is Ok,
        server_of(other, root, default_name) is Ok,
    ensures
        ({
            let a = server_of(one, root, default_name)->Ok_0;
            let b = server_of(other, root, default_name)->Ok_0;
            &&& a.session_path != a.runtime_path
            &&& "subspace-session.json"@.is_suffix_of(a.session_path)
            &&& "runtime.json"@.is_suffix_of(a.runtime_path)
            &&& a.server_key != b.server_key ==> a.session_path != b.session_path && a.runtime_path
                != b.runtime_path
            &&& a.server_key == b.server_key ==> a.session_path == b.session_path && a.runtime_path
                == b.runtime_path
        }),
{
    let a = server_of(one, root, default_name)->Ok_0;
    let b = server_of(other, root, default_name)->Ok_0;
    let session = "subspace-session.json"@;
    let runtime = "runtime.json"@;
    reveal_strlit("subspace-session.json");
    reveal_strlit("runtime.json");
    assert(session.len() == 21 && session[0] == 's');
    assert(runtime.len() == 12 && runtime[0] == 'r');
    server_url::law_server_key_alphabet(a.base_url);
    server_url::law_server_key_alphabet(b.base_url);
    assert(a.server_key[0] != '/' && a.server_key.last() != '/');
    assert(b.server_key[0] != '/' && b.server_key.last() != '/');
    lemma_server_file(root, a.server_key, session);
    lemma_server_file(root, a.server_key, runtime);
    lemma_server_file(root, b.server_key, session);
    lemma_server_file(root, b.server_key, runtime);
    let head = paths::joined_path(root, "servers"@).push('/');
    let n = head.len() as int;
    assert(a.session_path.skip(a.session_path.len() - session.len()) =~= session);
    assert(a.runtime_path.skip(a.runtime_path.len() - runtime.len()) =~= runtime);
    assert(a.session_path.len() != a.runtime_path.len());
    assert(a.session_path.subrange(n, a.session_path.len() - session.len() - 1) =~= a.server_key);
    assert(b.session_path.subrange(n, b.session_path.len() - session.len() - 1) =~= b.server_key);
    assert(a.runtime_path.subrange(n, a.runtime_path.len() - runtime.len() - 1) =~= a.server_key);
    assert(b.runtime_path.subrange(n, b.runtime_path.len() - runtime.len() - 1) =~= b.server_key);
}

/// A configuration is refused exactly if there is no home directory, the gateway's own configuration
/// cannot be read, or what is stored of the gateway or of the servers is refused.
pub proof fn law_configuration_is_accepted(
    stored: StoredConfig,
    root: Seq<char>,
    around: Surroundings,
)
    ensures
        config_problem(stored, root, around) is None <==> (around.home matches Some(home) && (
        local_auth_of_text(
            text::opt_text(around.openclaw_config),
            under(home@, ".openclaw"@, "openclaw.json"@),
        ) matches Ok(auth) && gateway_of(stored.gateway, auth) is Ok) && servers_of(
            stored.servers@,
            root,
            registration_name_for(text::opt_text(around.hostname)),
        ) is Ok),
{
}

proof fn lemma_under_lies_below(root: Seq<char>, first: Seq<char>, second: Seq<char>)
    requires
        first.len() > 0,
        first[0] != '/',
        second.len() > 0,
        second[0] != '/',
    ensures
        root.is_prefix_of(under(root, first, second)),
{
    let directory = paths::joined_path(root, first);
    let path = under(root, first, second);
    paths::law_joined_path_lies_below(root, first);
    paths::law_joined_path_lies_below(directory, second);
    assert forall|i: int| 0 <= i < root.len() implies path[i] == root[i] by {
        assert(path[i] == path.take(directory.len() as int)[i]);
        assert(directory[i] == directory.take(root.len() as int)[i]);
    }
    assert(path.take(root.len() as int) =~= root);
}

/// The daemon's files lie below its directory, each in its own place.
pub proof fn law_daemon_files_have_their_places(
    paths: AppPaths,
    root: Seq<char>,
    config_path: Seq<char>,
    socket_path: Seq<char>,
    home: Seq<char>,
)
    requires
        layout(paths, root, config_path, socket_path, home),
    ensures
        paths.root@ == root,
        paths.config_path@ == config_path,
        paths.socket_path@ == socket_path,
        root.is_prefix_of(paths.identities_dir@) && "identities"@.is_suffix_of(
            paths.identities_dir@,
        ),
        root.is_prefix_of(paths.gateway_device_auth_store_path@)
            && "device-auth.json"@.is_suffix_of(paths.gateway_device_auth_store_path@),
        root.is_prefix_of(paths.state_lock_path@) && "state.lock"@.is_suffix_of(
            paths.state_lock_path@,
        ),
        root.is_prefix_of(paths.log_file@),
        root.is_prefix_of(paths.gateway_private_key_path@),
        root.is_prefix_of(paths.gateway_public_key_path@),
        "daemon.log"@.is_suffix_of(paths.log_file@),
        "private.pem"@.is_suffix_of(paths.gateway_private_key_path@),
        "public.pem"@.is_suffix_of(paths.gateway_public_key_path@),
        "ai.openclaw.subspace-daemon.plist"@.is_suffix_of(paths.launchd_plist_path@),
        home.is_prefix_of(paths.launchd_plist_path@),
        paths.gateway_private_key_path@ != paths.gateway_public_key_path@,
        paths.gateway_device_auth_store_path@ != paths.state_lock_path@,
{
    reveal_strlit("identities");
    reveal_strlit("device-auth.json");
    reveal_strlit("state.lock");
    reveal_strlit("daemon.log");
    reveal_strlit("private.pem");
    reveal_strlit("public.pem");
    reveal_strlit("ai.openclaw.subspace-daemon.plist");
    reveal_strlit("Library");
    reveal_strlit("LaunchAgents");
    assert("identities"@[0] == 'i');
    assert("device-auth.json"@[0] == 'd' && "device-auth.json"@.len() == 16);
    assert("state.lock"@[0] == 's' && "state.lock"@.len() == 10);
    assert("daemon.log"@[0] == 'd');
    assert("private.pem"@[0] == 'p' && "private.pem"@.len() == 11);
    assert("public.pem"@[0] == 'p' && "public.pem"@.len() == 10);
    assert("ai.openclaw.subspace-daemon.plist"@[0] == 'a');
    assert("Library"@[0] == 'L');
    assert("LaunchAgents"@[0] == 'L');
    paths::law_joined_path_lies_below(root, "identities"@);
    paths::law_joined_path_lies_below(root, "device-auth.json"@);
    paths::law_joined_path_lies_below(root, "state.lock"@);
    let device = paths::joined_path(root, "device"@);
    paths::law_joined_path_lies_below(paths::joined_path(root, "logs"@), "daemon.log"@);
    paths::law_joined_path_lies_below(device, "private.pem"@);
    paths::law_joined_path_lies_below(device, "public.pem"@);
    paths::law_files_in_a_directory_differ(device, "private.pem"@, "public.pem"@);
    paths::law_files_in_a_directory_differ(root, "device-auth.json"@, "state.lock"@);
    reveal_strlit("logs");
    reveal_strlit("device");
    assert("logs"@[0] == 'l');
    assert("device"@[0] == 'd');
    lemma_under_lies_below(root, "logs"@, "daemon.log"@);
    lemma_under_lies_below(root, "device"@, "private.pem"@);
    lemma_under_lies_below(root, "device"@, "public.pem"@);
    let library = paths::joined_path(home, "Library"@);
    let agents = paths::joined_path(library, "LaunchAgents"@);
    let plist = "ai.openclaw.subspace-daemon.plist"@;
    paths::law_joined_path_lies_below(home, "Library"@);
    paths::law_joined_path_lies_below(library, "LaunchAgents"@);
    paths::law_joined_path_lies_below(agents, plist);
    let path = paths::joined_path(agents, plist);
    assert(path.take(home.len() as int) =~= home) by {
        assert forall|i: int| 0 <= i < home.len() implies path[i] == home[i] by {
            assert(path[i] == path.take(agents.len() as int)[i]);
            assert(agents[i] == agents.take(library.len() as int)[i]);
            assert(library[i] == library.take(home.len() as int)[i]);
        }
    }
}

/// A configuration that says nothing connects to no server and delivers to nobody; what it leaves open
/// has the defaults.
pub proof fn law_empty_configuration_has_the_defaults(
    config: Config,
    stored: StoredConfig,
    paths: AppPaths,
    around: Surroundings,
)
    requires
        says_nothing(stored),
        config_made(config, stored, paths, around),
    ensures
        config.servers@.len() == 0,
        config.sinks@.len() == 0,
        config.hard_failure_hooks@.len() == 0,
        config.attention.local_pack_paths@.len() == 0,
        config.attention.embedding_backends@.len() == 0,
        config.attention.threshold == similarity::DEFAULT_THRESHOLD,
        config.gateway@.ws_url == "ws://127.0.0.1:18789"@,
        config.gateway@.client_mode == "backend"@,
        config.gateway@.display_name == "Subspace Daemon"@,
        config.gateway@.device_id is None,
        config.gateway@.requested_role == "operator"@,
        config.routing.wake_session_key@ == "agent:heimdal:main"@,
        config.replay.dedupe_window_size == 500,
        config.replay.discard_before_ts is None,
        config.logging.level@ == "info"@,
        config.logging.json,
        config.storage.auto_migrate,
        config.retry.base_ms == 1_000,
        config.retry.max_ms == 60_000,
        config.retry.jitter_ratio_bits == DEFAULT_JITTER_RATIO_BITS,
        config.retry.storm_guard.failure_window_ms == 300_000,
        config.retry.storm_guard.consecutive_failure_threshold == 10,
        config.retry.storm_guard.cooldown_ms == 300_000,
        config.retry.storm_guard.max_cooldown_ms == 3_600_000,
        stored.ipc.socket_path is None,
        stored.logging.file is None,
        stored.storage.database_path is None,
        stored.storage.artifact_root is None,
        stored.gateway.client_id is None,
        stored.gateway.requested_scopes is None,
{
    assert(server_views(config.servers@).len() == config.servers@.len());
}

/// The name under which a server is known is that of its first entry; after a setup it is the name of
/// the setup.
pub proof fn law_name_of_the_setup_is_kept(
    servers: Seq<StoredServerConfig>,
    base_url: String,
    registration_name: String,
    identity: String,
    k: int,
)
    ensures
        0 <= k < servers.len() && stored_at(servers[k], base_url@) && (forall|i: int|
            0 <= i < k ==> !stored_at(#[trigger] servers[i], base_url@))
            ==> stored_registration_name(servers, base_url@) == text::opt_text(
            servers[k].registration_name,
        ),
        (forall|i: int| 0 <= i < servers.len() ==> !stored_at(#[trigger] servers[i], base_url@))
            ==> stored_registration_name(servers, base_url@) is None,
        server_url::canonical_base_url(base_url@) == Ok::<Seq<char>, Seq<char>>(base_url@)
            ==> stored_registration_name(
            servers_after_setup(servers, base_url, registration_name, identity),
            base_url@,
        ) == Some(registration_name@),
{
    law_stored_server_is_found(servers, base_url@);
    if 0 <= k < servers.len() && stored_at(servers[k], base_url@) && (forall|i: int|
        0 <= i < k ==> !stored_at(#[trigger] servers[i], base_url@)) {
        let found = stored_place(servers, base_url@)->0;
        assert(stored_at(servers[found], base_url@));
        assert(found == k);
    }
    law_server_is_set_up(servers, base_url, registration_name, identity);
}

} // verus!
