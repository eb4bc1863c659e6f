//! How the daemon and its connections are doing.

use vstd::prelude::*;

use crate::attention::layer;
use crate::attention::layer::{AttentionLayer, LayerView};
use crate::attention::receptor::{ReceptorClass, ReceptorView};
use crate::clock;
use crate::clock::Timestamp;
use crate::config;
use crate::config::{Config, ServerView};
use crate::sorted_map::SortedMap;
use crate::text;

verus! {

/// How the attention layer of a server is doing.
#[derive(Debug, Clone)]
pub struct AttentionHealth {
    pub receptor_count: usize,
    pub interest_receptor_count: usize,
    pub veto_receptor_count: usize,
    pub wildcard_receptor_count: usize,
    pub delivery_mode: String,
    pub degraded: bool,
}

pub struct AttentionHealthView {
    pub receptor_count: nat,
    pub interest_receptor_count: nat,
    pub veto_receptor_count: nat,
    pub wildcard_receptor_count: nat,
    pub delivery_mode: Seq<char>,
    pub degraded: bool,
}

impl View for AttentionHealth {
    type V = AttentionHealthView;

    open spec fn view(&self) -> AttentionHealthView {
        AttentionHealthView {
            receptor_count: self.receptor_count as nat,
            interest_receptor_count: self.interest_receptor_count as nat,
            veto_receptor_count: self.veto_receptor_count as nat,
            wildcard_receptor_count: self.wildcard_receptor_count as nat,
            delivery_mode: self.delivery_mode@,
            degraded: self.degraded,
        }
    }
}

/// How the connection to a server is doing.
#[derive(Debug, Clone)]
pub struct ServerHealth {
    pub server: String,
    pub server_key: String,
    pub subspace_state: String,
    pub session_expires_at: Option<String>,
    pub veto_enforcement_state: String,
    pub attention: AttentionHealth,
    pub consecutive_failures: Option<u32>,
    pub cooldown_ms: Option<u64>,
    pub next_attempt_at: Option<String>,
    pub last_error_kind: Option<String>,
}

pub struct HealthView {
    pub server: Seq<char>,
    pub server_key: Seq<char>,
    pub subspace_state: Seq<char>,
    pub session_expires_at: Option<Seq<char>>,
    pub veto_enforcement_state: Seq<char>,
    pub attention: AttentionHealthView,
    pub consecutive_failures: Option<u32>,
    pub cooldown_ms: Option<u64>,
    pub next_attempt_at: Option<Seq<char>>,
    pub last_error_kind: Option<Seq<char>>,
}

impl View for ServerHealth {
    type V = HealthView;

    open spec fn view(&self) -> HealthView {
        HealthView {
            server: self.server@,
            server_key: self.server_key@,
            subspace_state: self.subspace_state@,
            session_expires_at: text::opt_text(self.session_expires_at),
            veto_enforcement_state: self.veto_enforcement_state@,
            attention: self.attention@,
            consecutive_failures: self.consecutive_failures,
            cooldown_ms: self.cooldown_ms,
            next_attempt_at: text::opt_text(self.next_attempt_at),
            last_error_kind: text::opt_text(self.last_error_kind),
        }
    }
}

/// How the daemon is doing.
#[derive(Debug)]
pub struct DaemonStatus {
    pub gateway_state: String,
    pub wake_session_key: String,
    /// The servers by their base URLs.
    pub servers: SortedMap<ServerHealth>,
}

pub struct StatusView {
    pub gateway_state: Seq<char>,
    pub wake_session_key: Seq<char>,
    pub servers: Map<Seq<char>, HealthView>,
}

impl View for DaemonStatus {
    type V = StatusView;

    open spec fn view(&self) -> StatusView {
        StatusView {
            gateway_state: self.gateway_state@,
            wake_session_key: self.wake_session_key@,
            servers: self.servers@.map_values(|health: ServerHealth| health@),
        }
    }
}

// ---------------------------------------------------------------------------
// Attention
// ---------------------------------------------------------------------------

/// The health of a layer that has no receptors.
pub open spec fn no_attention() -> AttentionHealthView {
    AttentionHealthView {
        receptor_count: 0,
        interest_receptor_count: 0,
        veto_receptor_count: 0,
        wildcard_receptor_count: 0,
        delivery_mode: "no_active_receptors"@,
        degraded: false,
    }
}

/// Whether vetoes are enforced, in one word.
pub open spec fn veto_enforcement(attention: AttentionHealthView) -> Seq<char> {
    if attention.delivery_mode == "veto_enforcement_unavailable"@ {
        "unavailable"@
    } else if attention.veto_receptor_count > 0 {
        "ready"@
    } else {
        "not_configured"@
    }
}

/// The health of a layer.
pub open spec fn attention_health(layer: LayerView) -> AttentionHealthView {
    AttentionHealthView {
        receptor_count: layer.receptors.len(),
        interest_receptor_count: layer.receptors.filter(|r: ReceptorView| r.class.interest()).len(),
        veto_receptor_count: layer::class_count(layer.receptors, ReceptorClass::Veto),
        wildcard_receptor_count: layer::class_count(layer.receptors, ReceptorClass::Wildcard),
        delivery_mode: layer::delivery_mode(layer),
        degraded: layer.degraded,
    }
}

impl AttentionHealth {
    /// The health of a layer.
    pub fn from_layer(layer: &AttentionLayer) -> (health: Self)
        ensures
            health@ == attention_health(layer@),
    {
        AttentionHealth {
            receptor_count: layer.receptor_count(),
            interest_receptor_count: layer.interest_receptor_count(),
            veto_receptor_count: layer.veto_receptor_count(),
            wildcard_receptor_count: layer.wildcard_receptor_count(),
            delivery_mode: layer.delivery_mode().to_owned(),
            degraded: layer.is_degraded(),
        }
    }

    /// The health of a layer that has no receptors.
    pub fn not_configured() -> (health: Self)
        ensures
            health@ == no_attention(),
    {
        AttentionHealth {
            receptor_count: 0,
            interest_receptor_count: 0,
            veto_receptor_count: 0,
            wildcard_receptor_count: 0,
            delivery_mode: "no_active_receptors".to_owned(),
            degraded: false,
        }
    }

    /// Whether vetoes are enforced, in one word.
    pub fn veto_enforcement_state(&self) -> (state: &'static str)
        ensures
            state@ == veto_enforcement(self@),
    {
        if text::same_text(self.delivery_mode.as_str(), "veto_enforcement_unavailable") {
            "unavailable"
        } else if self.veto_receptor_count > 0 {
            "ready"
        } else {
            "not_configured"
        }
    }

    fn copy(&self) -> (copy: Self)
        ensures
            copy == *self,
    {
        AttentionHealth {
            receptor_count: self.receptor_count,
            interest_receptor_count: self.interest_receptor_count,
            veto_receptor_count: self.veto_receptor_count,
            wildcard_receptor_count: self.wildcard_receptor_count,
            delivery_mode: self.delivery_mode.clone(),
            degraded: self.degraded,
        }
    }
}

// ---------------------------------------------------------------------------
// Servers
// ---------------------------------------------------------------------------

/// The health of a server of which nothing is known yet.
pub open spec fn fresh_health(base_url: Seq<char>, server_key: Seq<char>) -> HealthView {
    HealthView {
        server: base_url,
        server_key,
        subspace_state: "connecting"@,
        session_expires_at: None,
        veto_enforcement_state: "not_configured"@,
        attention: no_attention(),
        consecutive_failures: None,
        cooldown_ms: None,
        next_attempt_at: None,
        last_error_kind: None,
    }
}

/// What is known of a server: its health, or that of a fresh one.
pub open spec fn known_health(
    status: StatusView,
    base_url: Seq<char>,
    server_key: Seq<char>,
) -> HealthView {
    if status.servers.dom().contains(base_url) {
        status.servers[base_url]
    } else {
        fresh_health(base_url, server_key)
    }
}

/// The status with the health of one server replaced.
pub open spec fn with_health(
    status: StatusView,
    base_url: Seq<char>,
    health: HealthView,
) -> StatusView {
    StatusView { servers: status.servers.insert(base_url, health), ..status }
}

/// The health after a change of state: what concerns attention and the session stays; a cooldown is
/// over.
pub open spec fn health_in_state(
    known: HealthView,
    base_url: Seq<char>,
    server_key: Seq<char>,
    state: Seq<char>,
) -> HealthView {
    HealthView {
        server: base_url,
        server_key,
        subspace_state: state,
        session_expires_at: known.session_expires_at,
        veto_enforcement_state: known.veto_enforcement_state,
        attention: known.attention,
        consecutive_failures: None,
        cooldown_ms: None,
        next_attempt_at: None,
        last_error_kind: None,
    }
}

/// The servers that a configuration enables, as long as nothing is known of them.
pub open spec fn initial_servers(servers: Seq<ServerView>) -> Map<Seq<char>, HealthView>
    decreases servers.len(),
{
    if servers.len() == 0 {
        Map::empty()
    } else {
        let before = initial_servers(servers.drop_last());
        let server = servers.last();
        if server.enabled {
            before.insert(server.base_url, fresh_health(server.base_url, server.server_key))
        } else {
            before
        }
    }
}

/// Whether a session ends within a day, or when it ends is not known.
pub open spec fn expires_soon(session_expires_at: Option<Seq<char>>, now: int) -> bool {
    match session_expires_at {
        None => true,
        Some(at) => match clock::rfc3339_nanos(at) {
            None => true,
            Some(expires) => expires - now <= clock::DAY,
        },
    }
}

/// Whether a session ends within a day, or when it ends is not known.
pub fn session_expires_soon(session_expires_at: &Option<String>, now: Timestamp) -> (soon: bool)
    ensures
        soon == expires_soon(text::opt_text(*session_expires_at), now@),
{
    match session_expires_at {
        None => true,
        Some(at) => match Timestamp::parse(at.as_str()) {
            None => true,
            Some(expires) => expires.nanos_since(&now) <= clock::DAY,
        },
    }
}

/// Whether a server is in a state that needs no attention.
pub open spec fn server_healthy(health: HealthView, now: int) -> bool {
    if health.subspace_state == "live"@ {
        !expires_soon(health.session_expires_at, now)
    } else {
        health.subspace_state == "reconnecting"@ || health.subspace_state == "reconnect_cooldown"@
            || health.subspace_state == "subspace_auth_required"@
    }
}

/// Whether the daemon is in a state that needs no attention.
pub open spec fn healthy(status: StatusView, now: int) -> bool {
    (status.gateway_state == "live"@ || status.gateway_state == "pairing_required"@)
        && forall|base_url: Seq<char>| #[trigger]
        status.servers.dom().contains(base_url) ==> server_healthy(status.servers[base_url], now)
}

impl ServerHealth {
    fn fresh(base_url: &str, server_key: &str) -> (health: Self)
        ensures
            health@ == fresh_health(base_url@, server_key@),
    {
        ServerHealth {
            server: base_url.to_owned(),
            server_key: server_key.to_owned(),
            subspace_state: "connecting".to_owned(),
            session_expires_at: None,
            veto_enforcement_state: "not_configured".to_owned(),
            attention: AttentionHealth::not_configured(),
            consecutive_failures: None,
            cooldown_ms: None,
            next_attempt_at: None,
            last_error_kind: None,
        }
    }

    fn copy(&self) -> (copy: Self)
        ensures
            copy == *self,
    {
        ServerHealth {
            server: self.server.clone(),
            server_key: self.server_key.clone(),
            subspace_state: self.subspace_state.clone(),
            session_expires_at: text::copy_opt(&self.session_expires_at),
            veto_enforcement_state: self.veto_enforcement_state.clone(),
            attention: self.attention.copy(),
            consecutive_failures: self.consecutive_failures,
            cooldown_ms: self.cooldown_ms,
            next_attempt_at: text::copy_opt(&self.next_attempt_at),
            last_error_kind: text::copy_opt(&self.last_error_kind),
        }
    }

    fn is_healthy(&self, now: Timestamp) -> (b: bool)
        ensures
            b == server_healthy(self@, now@),
    {
        let state = self.subspace_state.as_str();
        if text::same_text(state, "live") {
            !session_expires_soon(&self.session_expires_at, now)
        } else {
            text::same_text(state, "reconnecting") || text::same_text(state, "reconnect_cooldown")
                || text::same_text(state, "subspace_auth_required")
        }
    }
}

/// The base URLs of servers, in their order.
pub open spec fn server_urls(list: Seq<ServerHealth>) -> Seq<Seq<char>> {
    list.map_values(|health: ServerHealth| health.server@)
}

impl DaemonStatus {
    /// The servers are in order, and each is kept under its own base URL.
    pub open spec fn wf(&self) -> bool {
        self.servers.wf() && forall|base_url: Seq<char>| #[trigger]
            self@.servers.dom().contains(base_url) ==> self@.servers[base_url].server == base_url
    }

    /// The status of a daemon that has just been started.
    pub fn new(config: &Config) -> (status: Self)
        ensures
            status.wf(),
            status@ == (StatusView {
                gateway_state: "connecting"@,
                wake_session_key: config.routing.wake_session_key@,
                servers: initial_servers(config::server_views(config.servers@)),
            }),
    {
        let ghost all = config::server_views(config.servers@);
        let mut status = DaemonStatus {
            gateway_state: "connecting".to_owned(),
            wake_session_key: config.routing.wake_session_key.clone(),
            servers: SortedMap::new(),
        };
        assert(status@.servers =~= Map::<Seq<char>, HealthView>::empty());
        let mut i: usize = 0;
        assert(all.take(0) == Seq::<ServerView>::empty());
        while i < config.servers.len()
            invariant
                i <= config.servers.len(),
                all == config::server_views(config.servers@),
                status.wf(),
                status@ == (StatusView {
                    gateway_state: "connecting"@,
                    wake_session_key: config.routing.wake_session_key@,
                    servers: initial_servers(all.take(i as int)),
                }),
            decreases config.servers.len() - i,
        {
            let server = &config.servers[i];
            assert(all.take(i + 1).drop_last() == all.take(i as int));
            assert(all.take(i + 1).last() == server@);
            if server.enabled {
                status.put(
                    server.base_url.as_str(),
                    ServerHealth::fresh(server.base_url.as_str(), server.server_key.as_str()),
                );
            }
            i = i + 1;
        }
        assert(all.take(all.len() as int) == all);
        status
    }

    /// Replaces the health of one server.
    fn put(&mut self, base_url: &str, health: ServerHealth)
        requires
            old(self).wf(),
            health@.server == base_url@,
        ensures
            final(self).wf(),
            final(self)@ == with_health(old(self)@, base_url@, health@),
    {
        self.servers.insert(base_url.to_owned(), health);
        assert(self@.servers =~= old(self)@.servers.insert(base_url@, health@));
        assert forall|url: Seq<char>| #[trigger]
            self@.servers.dom().contains(url) implies self@.servers[url].server == url by {
            if url != base_url@ {
                assert(old(self)@.servers.dom().contains(url));
            }
        }
    }

    /// What is known of a server.
    fn known(&self, base_url: &str, server_key: &str) -> (health: ServerHealth)
        requires
            self.wf(),
        ensures
            health@ == known_health(self@, base_url@, server_key@),
            health@.server == base_url@,
    {
        assert(self@.servers.dom().contains(base_url@) == self.servers@.dom().contains(base_url@));
        match self.servers.get(base_url) {
            Some(health) => health.copy(),
            None => ServerHealth::fresh(base_url, server_key),
        }
    }

    /// Whether the daemon is in a state that needs no attention: the gateway is live or waits for
    /// pairing, and every server is live with a session that lasts, or on its way there.
    pub fn is_healthy(&self, now: Timestamp) -> (b: bool)
        requires
            self.wf(),
        ensures
            b == healthy(self@, now@),
    {
        let gateway = self.gateway_state.as_str();
        if !text::same_text(gateway, "live") && !text::same_text(gateway, "pairing_required") {
            return false;
        }
        proof {
            self.servers.lemma_keys();
        }
        let ghost keys = self.servers.keys();
        let mut i: usize = 0;
        while i < self.servers.len()
            invariant
                i <= keys.len(),
                keys == self.servers.keys(),
                self.wf(),
                forall|k: Seq<char>| keys.contains(k) <==> self.servers@.dom().contains(k),
                self@.gateway_state == "live"@ || self@.gateway_state == "pairing_required"@,
                forall|j: int|
                    0 <= j < i ==> server_healthy(self@.servers[#[trigger] keys[j]], now@),
            decreases keys.len() - i,
        {
            let (base_url, health) = self.servers.entry(i);
            assert(self@.servers.dom().contains(base_url@));
            assert(self@.servers[base_url@] == health@);
            if !health.is_healthy(now) {
                return false;
            }
            i = i + 1;
        }
        assert forall|base_url: Seq<char>| #[trigger]
            self@.servers.dom().contains(base_url) implies server_healthy(
            self@.servers[base_url],
            now@,
        ) by {
            assert(keys.contains(base_url));
            let j = choose|j: int| 0 <= j < keys.len() && keys[j] == base_url;
            assert(server_healthy(self@.servers[keys[j]], now@));
        }
        true
    }

    /// Changes the state of the gateway connection.
    pub fn set_gateway_state(&mut self, value: &str)
        requires
            old(self).wf(),
        ensures
            final(self).wf(),
            final(self)@ == (StatusView { gateway_state: value@, ..old(self)@ }),
    {
        self.gateway_state = value.to_owned();
    }

    /// Changes the state of a server.
    pub fn set_server_state(&mut self, base_url: &str, server_key: &str, value: &str)
        requires
            old(self).wf(),
        ensures
            final(self).wf(),
            final(self)@ == with_health(
                old(self)@,
                base_url@,
                health_in_state(
                    known_health(old(self)@, base_url@, server_key@),
                    base_url@,
                    server_key@,
                    value@,
                ),
            ),
    {
        let known = self.known(base_url, server_key);
        self.put(
            base_url,
            ServerHealth {
                server: base_url.to_owned(),
                server_key: server_key.to_owned(),
                subspace_state: value.to_owned(),
                session_expires_at: known.session_expires_at,
                veto_enforcement_state: known.veto_enforcement_state,
                attention: known.attention,
                consecutive_failures: None,
                cooldown_ms: None,
                next_attempt_at: None,
                last_error_kind: None,
            },
        );
    }

    /// Records that a server is left alone for a while after too many failures.
    pub fn set_server_reconnect_cooldown(
        &mut self,
        base_url: &str,
        server_key: &str,
        consecutive_failures: u32,
        cooldown_ms: u64,
        next_attempt_at: String,
        last_error_kind: Option<String>,
    )
        requires
            old(self).wf(),
        ensures
            final(self).wf(),
            final(self)@ == with_health(
                old(self)@,
                base_url@,
                (HealthView {
                    consecutive_failures: Some(consecutive_failures),
                    cooldown_ms: Some(cooldown_ms),
                    next_attempt_at: Some(next_attempt_at@),
                    last_error_kind: text::opt_text(last_error_kind),
                    ..health_in_state(
                        known_health(old(self)@, base_url@, server_key@),
                        base_url@,
                        server_key@,
                        "reconnect_cooldown"@,
                    )
                }),
            ),
    {
        let known = self.known(base_url, server_key);
        self.put(
            base_url,
            ServerHealth {
                server: base_url.to_owned(),
                server_key: server_key.to_owned(),
                subspace_state: "reconnect_cooldown".to_owned(),
                session_expires_at: known.session_expires_at,
                veto_enforcement_state: known.veto_enforcement_state,
                attention: known.attention,
                consecutive_failures: Some(consecutive_failures),
                cooldown_ms: Some(cooldown_ms),
                next_attempt_at: Some(next_attempt_at),
                last_error_kind,
            },
        );
    }

    /// Records whether the vetoes of a server are enforced.
    pub fn set_server_veto_enforcement_state(
        &mut self,
        base_url: &str,
        server_key: &str,
        state: &str,
    )
        requires
            old(self).wf(),
        ensures
            final(self).wf(),
            final(self)@ == with_health(
                old(self)@,
                base_url@,
                (HealthView {
                    server_key: server_key@,
                    veto_enforcement_state: state@,
                    ..known_health(old(self)@, base_url@, server_key@)
                }),
            ),
    {
        let mut health = self.known(base_url, server_key);
        health.server_key = server_key.to_owned();
        health.veto_enforcement_state = state.to_owned();
        self.put(base_url, health);
    }

    /// Records how the attention layer of a server is doing.
    pub fn set_server_attention_health(
        &mut self,
        base_url: &str,
        server_key: &str,
        attention: AttentionHealth,
    )
        requires
            old(self).wf(),
        ensures
            final(self).wf(),
            final(self)@ == with_health(
                old(self)@,
                base_url@,
                (HealthView {
                    server_key: server_key@,
                    veto_enforcement_state: veto_enforcement(attention@),
                    attention: attention@,
                    ..known_health(old(self)@, base_url@, server_key@)
                }),
            ),
    {
        let mut health = self.known(base_url, server_key);
        health.server_key = server_key.to_owned();
        health.veto_enforcement_state = attention.veto_enforcement_state().to_owned();
        health.attention = attention;
        self.put(base_url, health);
    }

    /// The state of a server.
    pub fn server_state(&self, base_url: &str) -> (state: Option<String>)
        requires
            self.wf(),
        ensures
            text::opt_text(state) == if self@.servers.dom().contains(base_url@) {
                Some(self@.servers[base_url@].subspace_state)
            } else {
                None
            },
    {
        match self.servers.get(base_url) {
            Some(health) => Some(health.subspace_state.clone()),
            None => None,
        }
    }

    /// Records when the session with a server ends.
    pub fn set_server_session_expires_at(
        &mut self,
        base_url: &str,
        server_key: &str,
        session_expires_at: Option<String>,
    )
        requires
            old(self).wf(),
        ensures
            final(self).wf(),
            final(self)@ == with_health(
                old(self)@,
                base_url@,
                (HealthView {
                    server_key: server_key@,
                    session_expires_at: text::opt_text(session_expires_at),
                    ..known_health(old(self)@, base_url@, server_key@)
                }),
            ),
    {
        let mut health = self.known(base_url, server_key);
        health.server_key = server_key.to_owned();
        health.session_expires_at = session_expires_at;
        self.put(base_url, health);
    }

    /// The health of all servers, each once, in the order of their base URLs.
    pub fn servers_snapshot(&self) -> (snapshot: Vec<ServerHealth>)
        requires
            self.wf(),
        ensures
            snapshot@.len() == self.servers.keys().len(),
            server_urls(snapshot@) == self.servers.keys(),
            text::ascending(server_urls(snapshot@)),
            forall|base_url: Seq<char>|
                server_urls(snapshot@).contains(base_url) <==> self@.servers.dom().contains(
                    base_url,
                ),
            forall|i: int|
                0 <= i < snapshot@.len() ==> (#[trigger] snapshot@[i])@
                    == self@.servers[snapshot@[i].server@],
    {
        proof {
            self.servers.lemma_keys();
        }
        let ghost keys = self.servers.keys();
        let mut snapshot: Vec<ServerHealth> = Vec::new();
        let mut i: usize = 0;
        while i < self.servers.len()
            invariant
                i <= keys.len(),
                keys == self.servers.keys(),
                self.wf(),
                snapshot@.len() == i,
                forall|j: int|
                    0 <= j < i ==> (#[trigger] snapshot@[j])@ == self@.servers[keys[j]]
                        && snapshot@[j].server@ == keys[j],
            decreases keys.len() - i,
        {
            let (base_url, health) = self.servers.entry(i);
            assert(self@.servers.dom().contains(base_url@));
            assert(self@.servers[base_url@] == health@);
            snapshot.push(health.copy());
            i = i + 1;
        }
        assert(server_urls(snapshot@) =~= keys);
        snapshot
    }
}

// ---------------------------------------------------------------------------
// Laws
// ---------------------------------------------------------------------------

/// Changing the state of a server leaves what is known of its attention layer, of its vetoes and of
/// its session as it is, and leaves all other servers as they are.
pub proof fn law_state_change_keeps_the_rest(
    status: StatusView,
    base_url: Seq<char>,
    server_key: Seq<char>,
    state: Seq<char>,
    other: Seq<char>,
)
    requires
        status.servers.dom().contains(base_url),
        other != base_url,
    ensures
        ({
            let after = with_health(
                status,
                base_url,
                health_in_state(
                    known_health(status, base_url, server_key),
                    base_url,
                    server_key,
                    state,
                ),
            );
            &&& after.servers[base_url].veto_enforcement_state
                == status.servers[base_url].veto_enforcement_state
            &&& after.servers[base_url].attention == status.servers[base_url].attention
            &&& after.servers[base_url].session_expires_at
                == status.servers[base_url].session_expires_at
            &&& after.servers.dom().contains(other) == status.servers.dom().contains(other)
            &&& after.servers[other] == status.servers[other]
            &&& after.gateway_state == status.gateway_state
        }),
{
}

/// A server in a cooldown, or one that waits for authentication, does not make the daemon
/// unhealthy: if the daemon was healthy before it went into that state, it is healthy after.
pub proof fn law_cooldown_keeps_the_daemon_healthy(
    status: StatusView,
    base_url: Seq<char>,
    health: HealthView,
    now: int,
)
    requires
        healthy(status, now),
        health.subspace_state == "reconnect_cooldown"@ || health.subspace_state
            == "subspace_auth_required"@ || health.subspace_state == "reconnecting"@,
    ensures
        healthy(with_health(status, base_url, health), now),
{
    reveal_strlit("live");
    reveal_strlit("reconnect_cooldown");
    reveal_strlit("subspace_auth_required");
    reveal_strlit("reconnecting");
    assert("live"@.len() == 4);
    assert("reconnect_cooldown"@.len() == 18);
    let after = with_health(status, base_url, health);
    assert forall|url: Seq<char>| #[trigger]
        after.servers.dom().contains(url) implies server_healthy(after.servers[url], now) by {
        if url != base_url {
            assert(status.servers.dom().contains(url));
        }
    }
}

/// Every enabled server is watched from the start, and no other: it is being connected to, and nothing
/// is known of it yet.
pub proof fn law_enabled_servers_are_watched(servers: Seq<ServerView>)
    ensures
        forall|base_url: Seq<char>| #[trigger]
            initial_servers(servers).dom().contains(base_url) <==> exists|i: int|
                0 <= i < servers.len() && (#[trigger] servers[i]).enabled && servers[i].base_url
                    == base_url,
        forall|base_url: Seq<char>| #[trigger]
            initial_servers(servers).dom().contains(base_url) ==> {
                let health = initial_servers(servers)[base_url];
                &&& health.server == base_url
                &&& health.subspace_state == "connecting"@
                &&& health.veto_enforcement_state == "not_configured"@
                &&& health.session_expires_at is None
                &&& health.consecutive_failures is None
                &&& health.cooldown_ms is None
                &&& health.next_attempt_at is None
                &&& health.last_error_kind is None
                &&& exists|i: int|
                    0 <= i < servers.len() && (#[trigger] servers[i]).enabled
                        && servers[i].base_url == base_url && servers[i].server_key
                        == health.server_key
            },
    decreases servers.len(),
{
    if servers.len() > 0 {
        let rest = servers.drop_last();
        let n = rest.len() as int;
        law_enabled_servers_are_watched(rest);
        assert(forall|i: int| 0 <= i < n ==> #[trigger] rest[i] == servers[i]);
        assert(servers[n] == servers.last());
        assert forall|base_url: Seq<char>| #[trigger]
            initial_servers(servers).dom().contains(base_url) <==> exists|i: int|
                0 <= i < servers.len() && (#[trigger] servers[i]).enabled && servers[i].base_url
                    == base_url by {
            if initial_servers(rest).dom().contains(base_url) {
                let i = choose|i: int|
                    0 <= i < rest.len() && (#[trigger] rest[i]).enabled && rest[i].base_url
                        == base_url;
                assert(servers[i].enabled);
            }
            if exists|i: int|
                0 <= i < servers.len() && (#[trigger] servers[i]).enabled && servers[i].base_url
                    == base_url {
                let i = choose|i: int|
                    0 <= i < servers.len() && (#[trigger] servers[i]).enabled
                        && servers[i].base_url == base_url;
                if i < n {
                    assert(rest[i].enabled);
                }
            }
        }
        assert forall|base_url: Seq<char>| #[trigger]
            initial_servers(servers).dom().contains(base_url) implies ({
            let health = initial_servers(servers)[base_url];
            &&& health.server == base_url
            &&& health.subspace_state == "connecting"@
            &&& health.veto_enforcement_state == "not_configured"@
            &&& health.session_expires_at is None
            &&& health.consecutive_failures is None
            &&& health.cooldown_ms is None
            &&& health.next_attempt_at is None
            &&& health.last_error_kind is None
            &&& exists|i: int|
                0 <= i < servers.len() && (#[trigger] servers[i]).enabled && servers[i].base_url
                    == base_url && servers[i].server_key == health.server_key
        }) by {
            if servers.last().enabled && servers.last().base_url == base_url {
                assert(servers[n].enabled);
            } else {
                assert(initial_servers(rest).dom().contains(base_url));
                let health = initial_servers(rest)[base_url];
                let i = choose|i: int|
                    0 <= i < rest.len() && (#[trigger] rest[i]).enabled && rest[i].base_url
                        == base_url && rest[i].server_key == health.server_key;
                assert(servers[i].enabled);
            }
        }
    }
}

/// The daemon is well exactly if the gateway is live or waits to be paired and no server is unwell; a
/// server is unwell if it is live with a session that ends soon, or if it is in any state but the ones
/// in which the daemon waits to connect again.
pub proof fn law_one_unwell_server_is_enough(status: StatusView, base_url: Seq<char>, now: int)
    ensures
        healthy(status, now) ==> status.gateway_state == "live"@ || status.gateway_state
            == "pairing_required"@,
        healthy(status, now) && status.servers.dom().contains(base_url) ==> {
            let health = status.servers[base_url];
            ||| health.subspace_state == "live"@ && !expires_soon(health.session_expires_at, now)
            ||| health.subspace_state == "reconnecting"@
            ||| health.subspace_state == "reconnect_cooldown"@
            ||| health.subspace_state == "subspace_auth_required"@
        },
        status.gateway_state == "live"@ && (forall|url: Seq<char>| #[trigger]
            status.servers.dom().contains(url) ==> status.servers[url].subspace_state == "live"@
                && !expires_soon(status.servers[url].session_expires_at, now)) ==> healthy(
            status,
            now,
        ),
{
}

/// A session ends soon exactly if no more than a day is left of it, and from then on always.
pub proof fn law_session_ends_soon(at: Seq<char>, now: int, later: int)
    requires
        now <= later,
    ensures
        expires_soon(None, now),
        clock::rfc3339_nanos(at) is None ==> expires_soon(Some(at), now),
        clock::rfc3339_nanos(at) matches Some(end) ==> (expires_soon(Some(at), now) <==> end
            <= now + 24 * 60 * 60 * 1_000_000_000),
        expires_soon(Some(at), now) ==> expires_soon(Some(at), later),
{
}

/// Vetoes are enforced if there are any and nothing keeps the layer from it.
pub proof fn law_veto_enforcement_is_told(attention: AttentionHealthView)
    ensures
        veto_enforcement(attention) == "unavailable"@ <==> attention.delivery_mode
            == "veto_enforcement_unavailable"@,
        attention.delivery_mode != "veto_enforcement_unavailable"@ ==> (veto_enforcement(attention)
            == "ready"@ <==> attention.veto_receptor_count > 0) && (veto_enforcement(attention)
            == "not_configured"@ <==> attention.veto_receptor_count == 0),
{
    reveal_strlit("unavailable");
    reveal_strlit("ready");
    reveal_strlit("not_configured");
    assert("unavailable"@.len() == 11);
    assert("ready"@.len() == 5);
    assert("not_configured"@.len() == 14);
}

/// Every receptor of a layer is counted, once and under its class.
pub proof fn law_every_receptor_is_counted(layer: LayerView)
    ensures
        ({
            let health = attention_health(layer);
            &&& health.receptor_count == layer.receptors.len()
            &&& health.receptor_count == health.interest_receptor_count + health.veto_receptor_count
                + health.wildcard_receptor_count
            &&& health.degraded == layer.degraded
        }),
        forall|i: int|
            0 <= i < layer.receptors.len() ==> {
                let health = attention_health(layer);
                match (#[trigger] layer.receptors[i]).class {
                    ReceptorClass::Veto => health.veto_receptor_count > 0,
                    ReceptorClass::Wildcard => health.wildcard_receptor_count > 0,
                    _ => health.interest_receptor_count > 0,
                }
            },
{
    lemma_classes_add_up(layer.receptors);
    let veto = |r: ReceptorView| r.class == ReceptorClass::Veto;
    let wildcard = |r: ReceptorView| r.class == ReceptorClass::Wildcard;
    let interest = |r: ReceptorView| r.class.interest();
    assert forall|i: int| 0 <= i < layer.receptors.len() implies ({
        let health = attention_health(layer);
        match (#[trigger] layer.receptors[i]).class {
            ReceptorClass::Veto => health.veto_receptor_count > 0,
            ReceptorClass::Wildcard => health.wildcard_receptor_count > 0,
            _ => health.interest_receptor_count > 0,
        }
    }) by {
        let r = layer.receptors[i];
        assert(layer.receptors.contains(r));
        if veto(r) {
            layer.receptors.lemma_filter_contains(veto, i);
        } else if wildcard(r) {
            layer.receptors.lemma_filter_contains(wildcard, i);
        } else {
            layer.receptors.lemma_filter_contains(interest, i);
        }
    }
}

proof fn lemma_classes_add_up(receptors: Seq<ReceptorView>)
    ensures
        receptors.len() == receptors.filter(|r: ReceptorView| r.class.interest()).len()
            + layer::class_count(receptors, ReceptorClass::Veto) + layer::class_count(
            receptors,
            ReceptorClass::Wildcard,
        ),
    decreases receptors.len(),
{
    reveal(Seq::filter);
    if receptors.len() > 0 {
        lemma_classes_add_up(receptors.drop_last());
    }
}

/// A change of state is recorded for the server, and what a cooldown had left behind is gone.
pub proof fn law_state_is_changed(
    status: StatusView,
    base_url: Seq<char>,
    server_key: Seq<char>,
    state: Seq<char>,
)
    ensures
        ({
            let after = with_health(
                status,
                base_url,
                health_in_state(
                    known_health(status, base_url, server_key),
                    base_url,
                    server_key,
                    state,
                ),
            );
            let health = after.servers[base_url];
            &&& after.servers.dom().contains(base_url)
            &&& health.subspace_state == state
            &&& health.server == base_url
            &&& health.server_key == server_key
            &&& health.consecutive_failures is None
            &&& health.cooldown_ms is None
            &&& health.next_attempt_at is None
            &&& health.last_error_kind is None
        }),
        status.servers.dom().contains(base_url) ==> known_health(status, base_url, server_key)
            == status.servers[base_url],
        !status.servers.dom().contains(base_url) ==> known_health(
            status,
            base_url,
            server_key,
        ).server == base_url && known_health(status, base_url, server_key).server_key == server_key,
{
}

/// As long as nothing is known of a server's layer, it is taken for one without receptors.
pub proof fn law_unknown_layer_counts_as_empty(layer: LayerView)
    requires
        layer.receptors.len() == 0,
        !layer.degraded,
    ensures
        attention_health(layer) == no_attention(),
        veto_enforcement(no_attention()) == "not_configured"@,
{
    reveal(Seq::filter);
    reveal_strlit("no_active_receptors");
    reveal_strlit("veto_enforcement_unavailable");
    assert("no_active_receptors"@.len() == 19);
    assert("veto_enforcement_unavailable"@.len() == 28);
}

} // verus!
