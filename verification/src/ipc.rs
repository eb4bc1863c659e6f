//! The local interface: which requests there are, which are refused, and which servers a message is
//! sent to.

use vstd::prelude::*;

use crate::attention::layer;
use crate::attention::layer::{EmbeddingView, MessageEmbedding};
use crate::attention::outbound;
use crate::attention::outbound::{validate_generated_spaces, OutboundEmbeddingRequest};
use crate::attention::receptor;
use crate::clock::Timestamp;
use crate::failure::{failure, Failure};
use crate::json;
use crate::json::{empty_object, Json, JsonView};
use crate::lists;
use crate::server_url;
use crate::server_url::canonicalize_base_url;
use crate::sorted_map::SortedMap;
use crate::supervisor::status;
use crate::supervisor::status::{DaemonStatus, HealthView, ServerHealth};
use crate::text;

verus! {

/// A request to send a message.
#[derive(Debug, Clone)]
pub struct SendRequest {
    pub text: String,
    pub idempotency_key: Option<String>,
    pub server: Option<String>,
    pub embeddings: Vec<MessageEmbedding>,
    pub generate_for_spaces: Vec<String>,
    pub generated_embeddings_override_supplied: bool,
}

/// How sending a message to one server went.
#[derive(Debug, Clone)]
pub struct ServerSendResultEnvelope {
    pub server: String,
    pub sent: bool,
    pub subspace_message_id: Option<String>,
    pub idempotency_key: Option<String>,
    pub error: Option<String>,
}

pub struct SendResultView {
    pub server: Seq<char>,
    pub sent: bool,
    pub subspace_message_id: Option<Seq<char>>,
    pub idempotency_key: Option<Seq<char>>,
    pub error: Option<Seq<char>>,
}

impl View for ServerSendResultEnvelope {
    type V = SendResultView;

    open spec fn view(&self) -> SendResultView {
        SendResultView {
            server: self.server@,
            sent: self.sent,
            subspace_message_id: text::opt_text(self.subspace_message_id),
            idempotency_key: text::opt_text(self.idempotency_key),
            error: text::opt_text(self.error),
        }
    }
}

/// How sending a message to one server went, where it was sent.
#[derive(Debug, Clone)]
pub struct OutboundSendResult {
    pub server: String,
    pub subspace_message_id: Option<String>,
    pub idempotency_key: String,
}

/// What the local interface answers about the state of the daemon.
#[derive(Debug)]
pub struct HealthBody {
    pub ok: bool,
    pub gateway_state: String,
    pub wake_session_key: String,
    pub servers: Vec<ServerHealth>,
}

/// Why a request is refused: the status of the answer, a code and a message.
#[derive(Debug, Clone)]
pub struct SendRouteError {
    pub status: u16,
    pub code: String,
    pub message: String,
    pub results: Vec<ServerSendResultEnvelope>,
}

pub struct RouteErrorView {
    pub status: u16,
    pub code: Seq<char>,
    pub message: Seq<char>,
    pub results: Seq<ServerSendResultEnvelope>,
}

impl View for SendRouteError {
    type V = RouteErrorView;

    open spec fn view(&self) -> RouteErrorView {
        RouteErrorView {
            status: self.status,
            code: self.code@,
            message: self.message@,
            results: self.results@,
        }
    }
}

pub open spec fn bad_request(message: Seq<char>) -> RouteErrorView {
    RouteErrorView { status: 400, code: "invalid_request"@, message, results: Seq::empty() }
}

pub open spec fn not_configured() -> RouteErrorView {
    RouteErrorView {
        status: 404,
        code: "unknown_server"@,
        message: "server not configured"@,
        results: Seq::empty(),
    }
}

pub open spec fn unavailable(message: Seq<char>) -> RouteErrorView {
    RouteErrorView { status: 503, code: "subspace_unavailable"@, message, results: Seq::empty() }
}

impl SendRouteError {
    /// The request makes no sense.
    pub fn invalid_request(message: String) -> (e: Self)
        ensures
            e@ == bad_request(message@),
    {
        let e = SendRouteError {
            status: 400,
            code: "invalid_request".to_owned(),
            message,
            results: Vec::new(),
        };
        assert(e@.results == Seq::<ServerSendResultEnvelope>::empty());
        e
    }

    /// The body of the request is no JSON, or not the JSON that is expected.
    pub fn invalid_json(error: &str) -> (e: Self)
        ensures
            e@ == bad_request("invalid json: "@ + error@),
    {
        let mut message = "invalid json: ".to_owned();
        message.append(error);
        SendRouteError::invalid_request(message)
    }

    /// The server is not one of the daemon's.
    pub fn unknown_server() -> (e: Self)
        ensures
            e@ == not_configured(),
    {
        let e = SendRouteError {
            status: 404,
            code: "unknown_server".to_owned(),
            message: "server not configured".to_owned(),
            results: Vec::new(),
        };
        assert(e@.results == Seq::<ServerSendResultEnvelope>::empty());
        e
    }

    /// There is nothing at the path of the request.
    pub fn not_found() -> (e: Self)
        ensures
            e@ == (RouteErrorView {
                status: 404,
                code: "not_found"@,
                message: "not found"@,
                results: Seq::empty(),
            }),
    {
        let e = SendRouteError {
            status: 404,
            code: "not_found".to_owned(),
            message: "not found".to_owned(),
            results: Vec::new(),
        };
        assert(e@.results == Seq::<ServerSendResultEnvelope>::empty());
        e
    }

    /// The message cannot be sent now.
    pub fn subspace_unavailable(message: String) -> (e: Self)
        ensures
            e@ == unavailable(message@),
    {
        let e = SendRouteError {
            status: 503,
            code: "subspace_unavailable".to_owned(),
            message,
            results: Vec::new(),
        };
        assert(e@.results == Seq::<ServerSendResultEnvelope>::empty());
        e
    }

    /// The message was not sent to all servers.
    pub fn mixed_failure(results: Vec<ServerSendResultEnvelope>) -> (e: Self)
        ensures
            e@ == (RouteErrorView {
                status: 503,
                code: "subspace_unavailable"@,
                message: "one or more targeted Subspace servers failed"@,
                results: results@,
            }),
    {
        SendRouteError {
            status: 503,
            code: "subspace_unavailable".to_owned(),
            message: "one or more targeted Subspace servers failed".to_owned(),
            results,
        }
    }
}

// ---------------------------------------------------------------------------
// Requests
// ---------------------------------------------------------------------------

/// What a request asks for.
#[derive(Debug, Clone, Copy, PartialEq, Eq, Structural)]
pub enum Route {
    Health,
    Messages,
    Setup,
    NotFound,
}

/// What a request with the given method and path asks for.
pub open spec fn route_of(method: Seq<char>, path: Seq<char>) -> Route {
    if method == "GET"@ && path == "/healthz"@ {
        Route::Health
    } else if method == "POST"@ && path == "/v1/messages"@ {
        Route::Messages
    } else if method == "POST"@ && path == "/v1/setup"@ {
        Route::Setup
    } else {
        Route::NotFound
    }
}

/// What a request with the given method and path asks for.
pub fn route_request(method: &str, path: &str) -> (route: Route)
    ensures
        route == route_of(method@, path@),
{
    if text::same_text(method, "GET") && text::same_text(path, "/healthz") {
        Route::Health
    } else if text::same_text(method, "POST") && text::same_text(path, "/v1/messages") {
        Route::Messages
    } else if text::same_text(method, "POST") && text::same_text(path, "/v1/setup") {
        Route::Setup
    } else {
        Route::NotFound
    }
}

/// What the local interface answers about the state of the daemon.
pub fn health_body(status: &DaemonStatus, now: Timestamp) -> (body: HealthBody)
    requires
        status.wf(),
    ensures
        body.ok == status::healthy(status@, now@),
        body.gateway_state@ == status@.gateway_state,
        body.wake_session_key@ == status@.wake_session_key,
        health_views(body.servers@) == snapshot_of(*status),
{
    let servers = status.servers_snapshot();
    assert(health_views(servers@) == snapshot_of(*status));
    HealthBody {
        ok: status.is_healthy(now),
        gateway_state: status.gateway_state.clone(),
        wake_session_key: status.wake_session_key.clone(),
        servers,
    }
}

/// What is wrong with an embedding that a sender supplies.
pub open spec fn embedding_problem(e: EmbeddingView) -> Option<Seq<char>> {
    if text::trimmed(e.space_id).len() == 0 {
        Some("embeddings[].space_id must not be empty"@)
    } else if e.vector.len() == 0 {
        Some("embeddings["@ + e.space_id + "].vector must not be empty"@)
    } else {
        None
    }
}

/// The first thing wrong with the embeddings that a sender supplies.
pub open spec fn embeddings_problem(list: Seq<EmbeddingView>) -> Option<Seq<char>>
    decreases list.len(),
{
    if list.len() == 0 {
        None
    } else if embedding_problem(list[0]) is Some {
        embedding_problem(list[0])
    } else {
        embeddings_problem(list.skip(1))
    }
}

/// What is wrong with what a request says about embeddings.
pub open spec fn embedding_request_problem(payload: SendRequest) -> Option<Seq<char>> {
    match embeddings_problem(layer::embeddings(payload.embeddings@)) {
        Some(problem) => Some(problem),
        None => outbound::spaces_problem(text::texts(payload.generate_for_spaces@)),
    }
}

/// Checks what a request says about embeddings.
pub fn validate_embedding_request(payload: &SendRequest) -> (result: Result<(), Failure>)
    ensures
        receptor::problem(result) == embedding_request_problem(*payload),
{
    let ghost all = layer::embeddings(payload.embeddings@);
    let mut i: usize = 0;
    assert(all.skip(0) == all);
    while i < payload.embeddings.len()
        invariant
            i <= payload.embeddings.len(),
            all == layer::embeddings(payload.embeddings@),
            embeddings_problem(all) == embeddings_problem(all.skip(i as int)),
        decreases payload.embeddings.len() - i,
    {
        let e = &payload.embeddings[i];
        assert(all[i as int] == e@);
        if text::trim(e.space_id.as_str()).is_empty() {
            return Err(failure("embeddings[].space_id must not be empty"));
        }
        if e.vector.len() == 0 {
            let mut message = "embeddings[".to_owned();
            message.append(e.space_id.as_str());
            message.append("].vector must not be empty");
            return Err(Failure { message });
        }
        assert(all.skip(i as int).skip(1) == all.skip(i + 1));
        i = i + 1;
    }
    validate_generated_spaces(&payload.generate_for_spaces)
}

/// Why a request to send a message is refused before any server is looked for.
pub open spec fn send_refusal(payload: SendRequest) -> Option<RouteErrorView> {
    if text::trimmed(payload.text@).len() == 0 {
        Some(bad_request("text required"@))
    } else {
        match embedding_request_problem(payload) {
            Some(problem) => Some(bad_request(problem)),
            None => None,
        }
    }
}

pub open spec fn refusal(result: Result<(), SendRouteError>) -> Option<RouteErrorView> {
    match result {
        Ok(_) => None,
        Err(e) => Some(e@),
    }
}

/// Checks a request to send a message: it has a text, and what it says about embeddings makes sense.
pub fn check_send_request(payload: &SendRequest) -> (result: Result<(), SendRouteError>)
    ensures
        refusal(result) == send_refusal(*payload),
{
    if text::trim(payload.text.as_str()).is_empty() {
        return Err(SendRouteError::invalid_request("text required".to_owned()));
    }
    match validate_embedding_request(payload) {
        Ok(_) => Ok(()),
        Err(f) => Err(SendRouteError::invalid_request(f.message)),
    }
}

impl SendRequest {
    /// What the sender asks for in the way of embeddings.
    pub fn into_embedding_request(self) -> (request: OutboundEmbeddingRequest)
        ensures
            request.embeddings == self.embeddings,
            request.generate_for_spaces == self.generate_for_spaces,
            request.generated_embeddings_override_supplied
                == self.generated_embeddings_override_supplied,
    {
        OutboundEmbeddingRequest {
            embeddings: self.embeddings,
            generate_for_spaces: self.generate_for_spaces,
            generated_embeddings_override_supplied: self.generated_embeddings_override_supplied,
        }
    }
}

// ---------------------------------------------------------------------------
// Targets
// ---------------------------------------------------------------------------

pub open spec fn health_views(list: Seq<ServerHealth>) -> Seq<HealthView> {
    list.map_values(|health: ServerHealth| health@)
}

/// The health of all servers, in the order of their base URLs.
pub open spec fn snapshot_of(status: DaemonStatus) -> Seq<HealthView> {
    status.servers.keys().map_values(|base_url: Seq<char>| status@.servers[base_url])
}

/// The servers of a snapshot that are live.
pub open spec fn live_servers(snapshot: Seq<HealthView>) -> Seq<Seq<char>>
    decreases snapshot.len(),
{
    if snapshot.len() == 0 {
        Seq::empty()
    } else if snapshot.last().subspace_state == "live"@ {
        live_servers(snapshot.drop_last()).push(snapshot.last().server)
    } else {
        live_servers(snapshot.drop_last())
    }
}

/// The state of a server is `live`.
pub open spec fn is_live(status: status::StatusView, base_url: Seq<char>) -> bool {
    status.servers.dom().contains(base_url) && status.servers[base_url].subspace_state == "live"@
}

/// The first of the targets that is not live.
pub open spec fn first_not_live(status: status::StatusView, targets: Seq<Seq<char>>) -> Option<
    Seq<char>,
>
    decreases targets.len(),
{
    if targets.len() == 0 {
        None
    } else if !is_live(status, targets[0]) {
        Some(targets[0])
    } else {
        first_not_live(status, targets.skip(1))
    }
}

/// The servers that a message is meant for: the one that is named, which must be one of the
/// daemon's, or all that are live.
pub open spec fn wanted_targets(
    status: DaemonStatus,
    handles: Set<Seq<char>>,
    server: Option<Seq<char>>,
) -> Result<Seq<Seq<char>>, RouteErrorView> {
    match server {
        Some(server) => match server_url::canonical_base_url(server) {
            Err(message) => Err(bad_request("invalid server url: "@ + message)),
            Ok(canonical) => if handles.contains(canonical) {
                Ok(seq![canonical])
            } else {
                Err(not_configured())
            },
        },
        None => Ok(live_servers(snapshot_of(status))),
    }
}

/// The servers that a message is sent to, or why it is not sent.
pub open spec fn targets_of(
    status: DaemonStatus,
    handles: Set<Seq<char>>,
    server: Option<Seq<char>>,
) -> Result<Seq<Seq<char>>, RouteErrorView> {
    match wanted_targets(status, handles, server) {
        Err(e) => Err(e),
        Ok(targets) => if targets.len() == 0 {
            Err(unavailable("no targeted Subspace server is live"@))
        } else {
            match first_not_live(status@, targets) {
                Some(target) => Err(
                    unavailable("targeted Subspace server is not live: "@ + target),
                ),
                None => Ok(targets),
            }
        },
    }
}

pub open spec fn targets_result(result: Result<Vec<String>, SendRouteError>) -> Result<
    Seq<Seq<char>>,
    RouteErrorView,
> {
    match result {
        Ok(targets) => Ok(text::texts(targets@)),
        Err(e) => Err(e@),
    }
}

/// The live servers of a status.
fn live_targets(status: &DaemonStatus) -> (targets: Vec<String>)
    requires
        status.wf(),
    ensures
        text::texts(targets@) == live_servers(snapshot_of(*status)),
{
    let snapshot = status.servers_snapshot();
    let ghost views = snapshot_of(*status);
    assert(health_views(snapshot@) == views);
    let mut targets: Vec<String> = Vec::new();
    let mut i: usize = 0;
    assert(views.take(0) == Seq::<HealthView>::empty());
    assert(text::texts(targets@) == Seq::<Seq<char>>::empty());
    while i < snapshot.len()
        invariant
            i <= snapshot.len(),
            views == health_views(snapshot@),
            text::texts(targets@) == live_servers(views.take(i as int)),
        decreases snapshot.len() - i,
    {
        assert(views[i as int] == snapshot@[i as int]@);
        assert(views.take(i + 1).drop_last() == views.take(i as int));
        assert(views.take(i + 1).last() == views[i as int]);
        if text::same_text(snapshot[i].subspace_state.as_str(), "live") {
            let ghost before = text::texts(targets@);
            targets.push(snapshot[i].server.clone());
            assert(text::texts(targets@) == before.push(snapshot@[i as int].server@));
        }
        i = i + 1;
    }
    assert(views.take(views.len() as int) == views);
    targets
}

/// The servers that a message is sent to. `handles` holds the daemon's servers.
pub fn select_targets<H>(
    status: &DaemonStatus,
    handles: &SortedMap<H>,
    server: &Option<String>,
) -> (result: Result<Vec<String>, SendRouteError>)
    requires
        status.wf(),
        handles.wf(),
    ensures
        targets_result(result) == targets_of(
            *status,
            handles@.dom(),
            text::opt_text(*server),
        ),
{
    let targets = match server {
        Some(server) => {
            let canonical = match canonicalize_base_url(server.as_str()) {
                Ok(canonical) => canonical,
                Err(f) => {
                    let mut message = "invalid server url: ".to_owned();
                    message.append(f.message.as_str());
                    return Err(SendRouteError::invalid_request(message));
                },
            };
            if !handles.contains_key(canonical.as_str()) {
                return Err(SendRouteError::unknown_server());
            }
            let mut targets: Vec<String> = Vec::new();
            targets.push(canonical);
            assert(text::texts(targets@) == seq![canonical@]);
            targets
        },
        None => live_targets(status),
    };
    let ghost all = text::texts(targets@);
    if targets.len() == 0 {
        return Err(
            SendRouteError::subspace_unavailable("no targeted Subspace server is live".to_owned()),
        );
    }
    let mut i: usize = 0;
    assert(all.skip(0) == all);
    while i < targets.len()
        invariant
            i <= targets.len(),
            status.wf(),
            all == text::texts(targets@),
            all.len() > 0,
            wanted_targets(*status, handles@.dom(), text::opt_text(*server)) == Ok::<
                Seq<Seq<char>>,
                RouteErrorView,
            >(all),
            first_not_live(status@, all) == first_not_live(status@, all.skip(i as int)),
        decreases targets.len() - i,
    {
        assert(all[i as int] == targets@[i as int]@);
        let live = match status.server_state(targets[i].as_str()) {
            Some(state) => text::same_text(state.as_str(), "live"),
            None => false,
        };
        if !live {
            let mut message = "targeted Subspace server is not live: ".to_owned();
            message.append(targets[i].as_str());
            return Err(SendRouteError::subspace_unavailable(message));
        }
        assert(all.skip(i as int).skip(1) == all.skip(i + 1));
        i = i + 1;
    }
    Ok(targets)
}

/// How sending a message to a server went.
pub open spec fn result_of(
    target: Seq<char>,
    outcome: Result<OutboundSendResult, Failure>,
    idempotency_key: Option<Seq<char>>,
) -> SendResultView {
    match outcome {
        Ok(sent) => SendResultView {
            server: sent.server@,
            sent: true,
            subspace_message_id: text::opt_text(sent.subspace_message_id),
            idempotency_key: Some(sent.idempotency_key@),
            error: None,
        },
        Err(f) => SendResultView {
            server: target,
            sent: false,
            subspace_message_id: None,
            idempotency_key,
            error: Some(f@),
        },
    }
}

/// How sending a message to a server went.
pub fn send_result(
    target: &str,
    outcome: Result<OutboundSendResult, Failure>,
    idempotency_key: &Option<String>,
) -> (result: ServerSendResultEnvelope)
    ensures
        result@ == result_of(target@, outcome, text::opt_text(*idempotency_key)),
{
    match outcome {
        Ok(sent) => ServerSendResultEnvelope {
            server: sent.server,
            sent: true,
            subspace_message_id: sent.subspace_message_id,
            idempotency_key: Some(sent.idempotency_key),
            error: None,
        },
        Err(f) => ServerSendResultEnvelope {
            server: target.to_owned(),
            sent: false,
            subspace_message_id: None,
            idempotency_key: text::copy_opt(idempotency_key),
            error: Some(f.message),
        },
    }
}

/// The message was sent to every server.
pub open spec fn all_sent(results: Seq<ServerSendResultEnvelope>) -> bool {
    forall|i: int| 0 <= i < results.len() ==> (#[trigger] results[i]).sent
}

/// The outcome of sending a message: good if it was sent to every server.
pub fn finish_send(results: Vec<ServerSendResultEnvelope>) -> (outcome: Result<
    Vec<ServerSendResultEnvelope>,
    SendRouteError,
>)
    ensures
        match outcome {
            Ok(list) => all_sent(results@) && list == results,
            Err(e) => !all_sent(results@) && e@ == (RouteErrorView {
                status: 503,
                code: "subspace_unavailable"@,
                message: "one or more targeted Subspace servers failed"@,
                results: results@,
            }),
        },
{
    let mut i: usize = 0;
    while i < results.len()
        invariant
            i <= results.len(),
            forall|j: int| 0 <= j < i ==> (#[trigger] results@[j]).sent,
        decreases results.len() - i,
    {
        if !results[i].sent {
            assert(!all_sent(results@));
            return Err(SendRouteError::mixed_failure(results));
        }
        i = i + 1;
    }
    Ok(results)
}

// ---------------------------------------------------------------------------
// The other end
// ---------------------------------------------------------------------------

/// What a client is told about one server.
#[derive(Debug, Clone)]
pub struct ClientSendResult {
    pub server: String,
    pub sent: bool,
    pub subspace_message_id: Option<String>,
    pub idempotency_key: Option<String>,
    pub error: Option<String>,
}

/// What a client is told about a message.
#[derive(Debug)]
pub struct ClientResponse {
    pub ok: bool,
    pub results: Vec<ClientSendResult>,
    pub error: Option<Json>,
}

/// A message that a client wants to have sent.
#[derive(Debug, Clone)]
pub struct ClientSendRequest {
    pub text: String,
    pub idempotency_key: Option<String>,
    pub server: Option<String>,
    pub embeddings: Vec<MessageEmbedding>,
    pub generate_for_spaces: Vec<String>,
    pub generated_embeddings_override_supplied: bool,
}

/// A request for one server, or for all, with nothing said about embeddings.
pub fn plain_request(text: String, idempotency_key: Option<String>, server: Option<String>) -> (
    request: ClientSendRequest)
    ensures
        request.text == text,
        request.idempotency_key == idempotency_key,
        request.server == server,
        request.embeddings@.len() == 0,
        request.generate_for_spaces@.len() == 0,
        !request.generated_embeddings_override_supplied,
{
    ClientSendRequest {
        text,
        idempotency_key,
        server,
        embeddings: Vec::new(),
        generate_for_spaces: Vec::new(),
        generated_embeddings_override_supplied: false,
    }
}

/// The body of a client's request: what it does not name has no value, but for the idempotency
/// key, which is then a fresh one.
pub open spec fn request_json(
    request: ClientSendRequest,
    fresh_key: Seq<char>,
    embeddings: JsonView,
) -> JsonView {
    json::object_view().with_text("text"@, request.text@).with(
        "server"@,
        match request.server {
            Some(server) => JsonView::Text(server@),
            None => JsonView::Null,
        },
    ).with_text(
        "idempotency_key"@,
        match request.idempotency_key {
            Some(key) => key@,
            None => fresh_key,
        },
    ).with("embeddings"@, embeddings).with(
        "generate_for_spaces"@,
        json::text_array(text::texts(request.generate_for_spaces@)),
    ).with(
        "generated_embeddings_override_supplied"@,
        JsonView::Bool(request.generated_embeddings_override_supplied),
    )
}

impl ClientSendRequest {
    /// The body of the request. `embeddings` is the JSON form of the embeddings, and `fresh_key` a
    /// key that was never used before.
    pub fn body(&self, fresh_key: &str, embeddings: Json) -> (body: Json)
        ensures
            body@ == request_json(*self, fresh_key@, embeddings@),
    {
        let server = match &self.server {
            Some(server) => json::text_json(server.as_str()),
            None => Json::Null,
        };
        let key = match &self.idempotency_key {
            Some(key) => key.as_str(),
            None => fresh_key,
        };
        empty_object().with_text("text", self.text.as_str()).with("server", server).with_text(
            "idempotency_key",
            key,
        ).with("embeddings", embeddings).with(
            "generate_for_spaces",
            json::text_array_json(text::copy_list(&self.generate_for_spaces)),
        ).with(
            "generated_embeddings_override_supplied",
            Json::Bool(self.generated_embeddings_override_supplied),
        )
    }
}

/// What a client reports when the daemon refuses its request. `status` is the status of the answer
/// in words, and `body` its text.
pub fn daemon_refusal(status: &str, body: &str) -> (f: Failure)
    ensures
        f@ == "daemon returned "@ + status@ + ": "@ + body@,
{
    let mut message = "daemon returned ".to_owned();
    message.append(status);
    message.append(": ");
    message.append(body);
    Failure { message }
}

// ---------------------------------------------------------------------------
// Laws
// ---------------------------------------------------------------------------

/// A message is only ever sent to servers that are live.
pub proof fn law_targets_are_live(
    status: DaemonStatus,
    handles: Set<Seq<char>>,
    server: Option<Seq<char>>,
)
    ensures
        targets_of(status, handles, server) matches Ok(targets) ==> targets.len() > 0 && forall|
            i: int,
        |
            0 <= i < targets.len() ==> is_live(status@, #[trigger] targets[i]),
{
    if let Ok(targets) = targets_of(status, handles, server) {
        lemma_all_live(status@, targets);
    }
}

proof fn lemma_all_live(status: status::StatusView, targets: Seq<Seq<char>>)
    requires
        first_not_live(status, targets) is None,
    ensures
        forall|i: int| 0 <= i < targets.len() ==> is_live(status, #[trigger] targets[i]),
    decreases targets.len(),
{
    if targets.len() > 0 {
        lemma_all_live(status, targets.skip(1));
        assert forall|i: int| 0 <= i < targets.len() implies is_live(
            status,
            #[trigger] targets[i],
        ) by {
            if i > 0 {
                assert(targets[i] == targets.skip(1)[i - 1]);
            }
        }
    }
}

/// A server that is named and is not live is refused with status 503, whatever the other servers
/// do.
pub proof fn law_named_server_must_be_live(
    status: DaemonStatus,
    handles: Set<Seq<char>>,
    server: Seq<char>,
)
    requires
        server_url::canonical_base_url(server) matches Ok(canonical) && handles.contains(canonical)
            && !is_live(status@, canonical),
    ensures
        targets_of(status, handles, Some(server)) matches Err(e) && e.status == 503 && e.code
            == "subspace_unavailable"@,
{
    let canonical = server_url::canonical_base_url(server)->Ok_0;
    assert(seq![canonical][0] == canonical);
}

/// The servers that are live are found, each once and in the order of the snapshot.
proof fn lemma_live_servers(snapshot: Seq<HealthView>) -> (at: Seq<int>)
    ensures
        lists::places(at, snapshot.len() as int),
        live_servers(snapshot).len() == at.len(),
        forall|k: int|
            0 <= k < at.len() ==> live_servers(snapshot)[k] == snapshot[#[trigger] at[k]].server
                && snapshot[at[k]].subspace_state == "live"@,
        forall|i: int|
            0 <= i < snapshot.len() && (#[trigger] snapshot[i]).subspace_state == "live"@
                ==> at.contains(i),
    decreases snapshot.len(),
{
    if snapshot.len() == 0 {
        Seq::empty()
    } else {
        let rest = snapshot.drop_last();
        let n = rest.len() as int;
        let before = lemma_live_servers(rest);
        lists::lemma_places_grow(before, n);
        assert(forall|i: int| 0 <= i < n ==> #[trigger] rest[i] == snapshot[i]);
        if snapshot.last().subspace_state == "live"@ {
            let at = before.push(n);
            assert forall|k: int| 0 <= k < at.len() implies live_servers(snapshot)[k]
                == snapshot[#[trigger] at[k]].server && snapshot[at[k]].subspace_state
                == "live"@ by {
                if k < before.len() {
                    assert(at[k] == before[k]);
                    assert(rest[before[k]] == snapshot[at[k]]);
                }
            }
            assert forall|i: int|
                0 <= i < snapshot.len() && (#[trigger] snapshot[i]).subspace_state
                    == "live"@ implies at.contains(i) by {
                if i < n {
                    assert(rest[i] == snapshot[i]);
                    let k = choose|k: int| 0 <= k < before.len() && before[k] == i;
                    assert(at[k] == i);
                } else {
                    assert(at[before.len() as int] == i);
                }
            }
            at
        } else {
            assert forall|k: int| 0 <= k < before.len() implies live_servers(snapshot)[k]
                == snapshot[#[trigger] before[k]].server && snapshot[before[k]].subspace_state
                == "live"@ by {
                assert(rest[before[k]] == snapshot[before[k]]);
            }
            assert forall|i: int|
                0 <= i < snapshot.len() && (#[trigger] snapshot[i]).subspace_state
                    == "live"@ implies before.contains(i) by {
                assert(i < n);
                assert(rest[i] == snapshot[i]);
            }
            before
        }
    }
}

/// Targets that are all live are all accepted.
proof fn lemma_none_is_refused(status: status::StatusView, targets: Seq<Seq<char>>)
    requires
        forall|i: int| 0 <= i < targets.len() ==> is_live(status, #[trigger] targets[i]),
    ensures
        first_not_live(status, targets) is None,
    decreases targets.len(),
{
    if targets.len() > 0 {
        let rest = targets.skip(1);
        assert(forall|i: int| 0 <= i < rest.len() ==> #[trigger] rest[i] == targets[i + 1]);
        lemma_none_is_refused(status, rest);
    }
}

/// A message for no server in particular goes to every server that is live, once, in the order of
/// their URLs, and to no other; if none is live, it is refused with status 503.
pub proof fn law_message_goes_to_every_live_server(status: DaemonStatus, handles: Set<Seq<char>>)
    requires
        status.wf(),
    ensures
        (exists|url: Seq<char>| #[trigger] is_live(status@, url)) ==> (targets_of(
            status,
            handles,
            None,
        ) matches Ok(targets) && text::ascending(targets) && forall|url: Seq<char>|
            targets.contains(url) <==> #[trigger] is_live(status@, url)),
        (forall|url: Seq<char>| !(#[trigger] is_live(status@, url))) ==> (targets_of(
            status,
            handles,
            None,
        ) matches Err(e) && e.status == 503),
{
    status.servers.lemma_keys();
    let keys = status.servers.keys();
    let snapshot = snapshot_of(status);
    let targets = live_servers(snapshot);
    let at = lemma_live_servers(snapshot);
    assert forall|i: int| 0 <= i < keys.len() implies (#[trigger] snapshot[i]).server == keys[i]
        && status@.servers.dom().contains(keys[i]) && snapshot[i] == status@.servers[keys[i]] by {
        assert(keys.contains(keys[i]));
        assert(status@.servers.dom().contains(keys[i]));
    }
    assert forall|k: int| 0 <= k < targets.len() implies is_live(
        status@,
        #[trigger] targets[k],
    ) && targets[k] == keys[at[k]] by {
        assert(snapshot[at[k]].server == keys[at[k]]);
    }
    assert forall|i: int, j: int| 0 <= i < j < targets.len() implies text::precedes(
        #[trigger] targets[i],
        #[trigger] targets[j],
    ) by {
        assert(at[i] < at[j]);
        assert(text::precedes(keys[at[i]], keys[at[j]]));
    }
    assert forall|url: Seq<char>| targets.contains(url) <==> #[trigger] is_live(status@, url) by {
        if is_live(status@, url) {
            assert(status.servers@.dom().contains(url));
            assert(keys.contains(url));
            let i = choose|i: int| 0 <= i < keys.len() && keys[i] == url;
            assert(snapshot[i].subspace_state == "live"@);
            let k = choose|k: int| 0 <= k < at.len() && at[k] == i;
            assert(targets[k] == url);
        }
    }
    lemma_none_is_refused(status@, targets);
    if exists|url: Seq<char>| #[trigger] is_live(status@, url) {
        let url = choose|url: Seq<char>| #[trigger] is_live(status@, url);
        assert(targets.contains(url));
        assert(targets.len() > 0);
    } else {
        if targets.len() > 0 {
            assert(is_live(status@, targets[0]));
        }
    }
}

/// A message for a server goes to that server alone. A server that is none of the daemon's is answered
/// with status 404, and what is no URL of a server with status 400.
pub proof fn law_message_goes_to_the_named_server(
    status: DaemonStatus,
    handles: Set<Seq<char>>,
    server: Seq<char>,
)
    ensures
        server_url::canonical_base_url(server) matches Ok(url) ==> {
            &&& handles.contains(url) && is_live(status@, url) ==> targets_of(
                status,
                handles,
                Some(server),
            ) == Ok::<Seq<Seq<char>>, RouteErrorView>(seq![url])
            &&& !handles.contains(url) ==> (targets_of(status, handles, Some(server)) matches Err(e)
                && e.status == 404)
        },
        server_url::canonical_base_url(server) is Err ==> (targets_of(status, handles, Some(server))
            matches Err(e) && e.status == 400),
{
    if let Ok(url) = server_url::canonical_base_url(server) {
        if handles.contains(url) && is_live(status@, url) {
            assert(seq![url][0] == url);
            lemma_none_is_refused(status@, seq![url]);
        }
    }
}

/// A request is accepted exactly if it has a text, each of its embeddings has a space and a vector, and
/// the spaces it wants are good; else it is answered with status 400.
pub proof fn law_good_request_is_accepted(payload: SendRequest)
    ensures
        send_refusal(payload) is None <==> text::trimmed(payload.text@).len() > 0 && (forall|i: int|
            0 <= i < payload.embeddings@.len() ==> text::trimmed(
                (#[trigger] payload.embeddings@[i])@.space_id,
            ).len() > 0 && payload.embeddings@[i]@.vector.len() > 0) && outbound::spaces_problem(
            text::texts(payload.generate_for_spaces@),
        ) is None,
        send_refusal(payload) matches Some(e) ==> e.status == 400 && e.code == "invalid_request"@,
{
    let list = layer::embeddings(payload.embeddings@);
    lemma_embeddings_problem(list);
    assert(forall|i: int|
        0 <= i < payload.embeddings@.len() ==> (#[trigger] payload.embeddings@[i])@ == list[i]);
    assert(list.len() == payload.embeddings@.len());
    if embeddings_problem(list) is None {
        assert forall|i: int| 0 <= i < payload.embeddings@.len() implies text::trimmed(
            (#[trigger] payload.embeddings@[i])@.space_id,
        ).len() > 0 && payload.embeddings@[i]@.vector.len() > 0 by {
            assert(embedding_problem(list[i]) is None);
        }
    } else {
        let i = choose|i: int|
            0 <= i < list.len() && (#[trigger] embedding_problem(list[i])) is Some;
        assert(payload.embeddings@[i]@ == list[i]);
    }
}

proof fn lemma_embeddings_problem(list: Seq<EmbeddingView>)
    ensures
        embeddings_problem(list) is None <==> forall|i: int|
            0 <= i < list.len() ==> (#[trigger] embedding_problem(list[i])) is None,
    decreases list.len(),
{
    if list.len() > 0 {
        let rest = list.skip(1);
        lemma_embeddings_problem(rest);
        assert(forall|i: int| 0 <= i < rest.len() ==> #[trigger] rest[i] == list[i + 1]);
        if embeddings_problem(list) is None {
            assert forall|i: int| 0 <= i < list.len() implies (#[trigger] embedding_problem(
                list[i],
            )) is None by {
                if i > 0 {
                    assert(embedding_problem(rest[i - 1]) is None);
                }
            }
        } else if embedding_problem(list[0]) is None {
            let i = choose|i: int|
                0 <= i < rest.len() && (#[trigger] embedding_problem(rest[i])) is Some;
            assert(embedding_problem(list[i + 1]) is Some);
        }
    }
}

/// Each server is reported with what came of the message: the id that it gave to it, or the error.
pub proof fn law_outcome_is_reported(
    target: Seq<char>,
    sent: OutboundSendResult,
    f: Failure,
    key: Option<Seq<char>>,
)
    ensures
        ({
            let good = result_of(target, Ok(sent), key);
            &&& good.sent
            &&& good.server == sent.server@
            &&& good.subspace_message_id == text::opt_text(sent.subspace_message_id)
            &&& good.idempotency_key == Some(sent.idempotency_key@)
            &&& good.error is None
        }),
        ({
            let bad = result_of(target, Err(f), key);
            &&& !bad.sent
            &&& bad.server == target
            &&& bad.subspace_message_id is None
            &&& bad.idempotency_key == key
            &&& bad.error == Some(f@)
        }),
{
}

/// A client's request has all that it was made of; its idempotency key is fresh exactly if it has none
/// of its own.
pub proof fn law_request_is_written_in_full(
    request: ClientSendRequest,
    fresh_key: Seq<char>,
    embeddings: JsonView,
)
    ensures
        ({
            let body = request_json(request, fresh_key, embeddings);
            &&& body.text_member("text"@) == Some(request.text@)
            &&& match request.server {
                Some(server) => body.member("server"@) == Some(JsonView::Text(server@)),
                None => body.member("server"@) == Some(JsonView::Null),
            }
            &&& match request.idempotency_key {
                Some(key) => body.text_member("idempotency_key"@) == Some(key@),
                None => body.text_member("idempotency_key"@) == Some(fresh_key),
            }
            &&& body.member("embeddings"@) == Some(embeddings)
            &&& body.member("generate_for_spaces"@) == Some(
                json::text_array(text::texts(request.generate_for_spaces@)),
            )
            &&& body.member("generated_embeddings_override_supplied"@) == Some(
                JsonView::Bool(request.generated_embeddings_override_supplied),
            )
        }),
{
    reveal_strlit("text");
    reveal_strlit("server");
    reveal_strlit("idempotency_key");
    reveal_strlit("embeddings");
    reveal_strlit("generate_for_spaces");
    reveal_strlit("generated_embeddings_override_supplied");
    assert("text"@.len() == 4);
    assert("server"@.len() == 6);
    assert("idempotency_key"@.len() == 15);
    assert("embeddings"@.len() == 10);
    assert("generate_for_spaces"@.len() == 19);
    assert("generated_embeddings_override_supplied"@.len() == 38);
    json::lemma_members();
}

/// What the interface offers: the health, sending and setting up, each under its method alone.
pub proof fn law_requests_are_routed(method: Seq<char>, path: Seq<char>)
    ensures
        route_of(method, path) == Route::Health <==> method == "GET"@ && path == "/healthz"@,
        route_of(method, path) == Route::Messages <==> method == "POST"@ && path == "/v1/messages"@,
        route_of(method, path) == Route::Setup <==> method == "POST"@ && path == "/v1/setup"@,
{
    reveal_strlit("GET");
    reveal_strlit("POST");
    reveal_strlit("/v1/messages");
    reveal_strlit("/v1/setup");
    assert("GET"@.len() == 3 && "POST"@.len() == 4);
    assert("/v1/messages"@.len() == 12 && "/v1/setup"@.len() == 9);
}

/// What is refused is answered with its own status and code, and with the message that says why.
pub proof fn law_refusals_are_told_apart(message: Seq<char>)
    ensures
        bad_request(message).status == 400,
        bad_request(message).code == "invalid_request"@,
        bad_request(message).message == message,
        bad_request(message).results.len() == 0,
        not_configured().status == 404,
        not_configured().code == "unknown_server"@,
        not_configured().results.len() == 0,
        unavailable(message).status == 503,
        unavailable(message).code == "subspace_unavailable"@,
        unavailable(message).message == message,
        unavailable(message).results.len() == 0,
{
}

/// A message counts as sent only if it was sent to every server: one failure is enough against it.
pub proof fn law_one_failure_is_enough(results: Seq<ServerSendResultEnvelope>, i: int)
    ensures
        0 <= i < results.len() && !results[i].sent ==> !all_sent(results),
        (forall|k: int| 0 <= k < results.len() ==> (#[trigger] results[k])@.sent) ==> all_sent(
            results,
        ),
{
}

/// The answer names the server that is not live, and a server whose URL is wrong is told what is wrong
/// with it.
pub proof fn law_refused_target_is_named(
    status: DaemonStatus,
    handles: Set<Seq<char>>,
    server: Seq<char>,
)
    ensures
        server_url::canonical_base_url(server) matches Ok(url) ==> (handles.contains(url)
            && !is_live(status@, url) ==> (targets_of(status, handles, Some(server)) matches Err(e)
            && e.message == "targeted Subspace server is not live: "@ + url)),
        server_url::canonical_base_url(server) matches Err(problem) ==> (targets_of(
            status,
            handles,
            Some(server),
        ) matches Err(e) && e.message == "invalid server url: "@ + problem),
{
    if let Ok(url) = server_url::canonical_base_url(server) {
        assert(seq![url][0] == url);
    }
}

} // verus!
