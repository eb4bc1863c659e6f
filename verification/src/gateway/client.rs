//! How the daemon connects to the gateway and what it makes of the gateway's frames.

use vstd::prelude::*;

use crate::build_info::PACKAGE_VERSION;
use crate::config::GatewayConfig;
use crate::crypto;
use crate::failure::{failure, Failure};
use crate::failure;
use crate::gateway::device_identity::GatewayDeviceIdentity;
use crate::gateway::protocol;
use crate::gateway::protocol::{
    build_device_auth_payload_v3, AuthPayload, ConnectClient, ConnectParams, DeviceAuthPayload,
    EventFrame, HelloOk, RequestFrame, ResponseFrame, PROTOCOL_VERSION,
};
use crate::json;
use crate::json::{empty_object, JsonView};
use crate::retry;
use crate::retry::{next_backoff, RetryConfig};
use crate::sorted_map::SortedMap;
use crate::text;
use crate::websocket::{text_from_utf8, WsMessage};

verus! {

// ---------------------------------------------------------------------------
// Credentials
// ---------------------------------------------------------------------------

/// The credentials with which the daemon connects.
#[derive(Debug, Clone)]
pub struct SelectedConnectAuth {
    pub auth_token: Option<String>,
    pub auth_device_token: Option<String>,
    pub auth_password: Option<String>,
    /// The token that the signature covers.
    pub signature_token: Option<String>,
}

pub struct AuthView {
    pub auth_token: Option<Seq<char>>,
    pub auth_device_token: Option<Seq<char>>,
    pub auth_password: Option<Seq<char>>,
    pub signature_token: Option<Seq<char>>,
}

impl View for SelectedConnectAuth {
    type V = AuthView;

    open spec fn view(&self) -> AuthView {
        AuthView {
            auth_token: text::opt_text(self.auth_token),
            auth_device_token: text::opt_text(self.auth_device_token),
            auth_password: text::opt_text(self.auth_password),
            signature_token: text::opt_text(self.signature_token),
        }
    }
}

/// The credentials that are used: a shared token, or else a shared password, or else the token that
/// the gateway has given to the device, or else none.
pub open spec fn selected_auth(
    shared_token: Option<Seq<char>>,
    shared_password: Option<Seq<char>>,
    stored_device_token: Option<Seq<char>>,
) -> AuthView {
    if shared_token is Some {
        AuthView {
            auth_token: shared_token,
            auth_device_token: None,
            auth_password: None,
            signature_token: shared_token,
        }
    } else if shared_password is Some {
        AuthView {
            auth_token: None,
            auth_device_token: None,
            auth_password: shared_password,
            signature_token: None,
        }
    } else {
        AuthView {
            auth_token: stored_device_token,
            auth_device_token: stored_device_token,
            auth_password: None,
            signature_token: stored_device_token,
        }
    }
}

/// Selects the credentials with which to connect.
pub fn select_connect_auth(
    shared_token: Option<String>,
    shared_password: Option<String>,
    stored_device_token: Option<String>,
) -> (auth: SelectedConnectAuth)
    ensures
        auth@ == selected_auth(
            text::opt_text(shared_token),
            text::opt_text(shared_password),
            text::opt_text(stored_device_token),
        ),
{
    if shared_token.is_some() {
        SelectedConnectAuth {
            auth_token: text::copy_opt(&shared_token),
            auth_device_token: None,
            auth_password: None,
            signature_token: shared_token,
        }
    } else if shared_password.is_some() {
        SelectedConnectAuth {
            auth_token: None,
            auth_device_token: None,
            auth_password: shared_password,
            signature_token: None,
        }
    } else {
        SelectedConnectAuth {
            auth_token: text::copy_opt(&stored_device_token),
            auth_device_token: text::copy_opt(&stored_device_token),
            auth_password: None,
            signature_token: stored_device_token,
        }
    }
}

/// Where a secret is shared with the gateway, the token that the gateway has given to the device
/// makes no difference.
pub proof fn law_shared_secret_precedes_device_token(
    shared_token: Option<Seq<char>>,
    shared_password: Option<Seq<char>>,
    stored: Option<Seq<char>>,
    other_stored: Option<Seq<char>>,
)
    requires
        shared_token is Some || shared_password is Some,
    ensures
        selected_auth(shared_token, shared_password, stored) == selected_auth(
            shared_token,
            shared_password,
            other_stored,
        ),
        selected_auth(shared_token, shared_password, stored).auth_device_token is None,
{
}

/// The signature covers the token that is sent, and a password is never signed.
pub proof fn law_signature_covers_the_token_sent(
    shared_token: Option<Seq<char>>,
    shared_password: Option<Seq<char>>,
    stored: Option<Seq<char>>,
)
    ensures
        selected_auth(shared_token, shared_password, stored).signature_token == selected_auth(
            shared_token,
            shared_password,
            stored,
        ).auth_token,
        selected_auth(shared_token, shared_password, stored).auth_password is Some
            ==> selected_auth(shared_token, shared_password, stored).signature_token is None,
{
}

// ---------------------------------------------------------------------------
// The request to connect
// ---------------------------------------------------------------------------

/// What the device signs when it connects.
pub open spec fn connect_signature_payload(
    config: GatewayConfig,
    device_id: Seq<char>,
    signature_token: Option<Seq<char>>,
    nonce: Seq<char>,
    signed_at: u64,
    platform: Seq<char>,
) -> Seq<char> {
    protocol::device_auth_payload(
        device_id,
        config.client_id@,
        config.client_mode@,
        config.requested_role@,
        text::texts(config.requested_scopes@),
        signed_at,
        signature_token,
        nonce,
        platform,
        None,
    )
}

/// Whether the request to connect holds these credentials.
pub open spec fn carries_auth(auth: Option<AuthPayload>, selected: AuthView) -> bool {
    match auth {
        None => selected.auth_token is None && selected.auth_device_token is None
            && selected.auth_password is None,
        Some(payload) => {
            &&& selected.auth_token is Some || selected.auth_device_token is Some
                || selected.auth_password is Some
            &&& text::opt_text(payload.token) == selected.auth_token
            &&& payload.bootstrap_token is None
            &&& text::opt_text(payload.device_token) == selected.auth_device_token
            &&& text::opt_text(payload.password) == selected.auth_password
        },
    }
}

fn auth_payload(selected: SelectedConnectAuth) -> (auth: Option<AuthPayload>)
    ensures
        carries_auth(auth, selected@),
{
    if selected.auth_token.is_some() || selected.auth_device_token.is_some()
        || selected.auth_password.is_some() {
        Some(
            AuthPayload {
                token: selected.auth_token,
                bootstrap_token: None,
                device_token: selected.auth_device_token,
                password: selected.auth_password,
            },
        )
    } else {
        None
    }
}

/// The answer to the gateway's challenge: who the daemon is, what it asks for, and its signature.
pub fn connect_params(
    config: &GatewayConfig,
    identity: &GatewayDeviceIdentity,
    stored_device_token: Option<String>,
    nonce: &str,
    signed_at: u64,
    platform: &str,
) -> (params: ConnectParams)
    requires
        identity.wf(),
    ensures
        params.min_protocol == PROTOCOL_VERSION,
        params.max_protocol == PROTOCOL_VERSION,
        params.client.id@ == config.client_id@,
        text::opt_text(params.client.display_name) == Some(config.display_name@),
        params.client.version@ == PACKAGE_VERSION@,
        params.client.platform@ == platform@,
        params.client.device_family is None,
        params.client.mode@ == config.client_mode@,
        params.client.instance_id is None,
        params.caps@.len() == 0,
        params.commands is None,
        params.permissions is None,
        params.path_env is None,
        params.role@ == config.requested_role@,
        text::texts(params.scopes@) == text::texts(config.requested_scopes@),
        params.device matches Some(device) && device.id@ == identity@.device_id
            && device.public_key@ == identity@.public_key && device.signed_at == signed_at
            && device.nonce@ == nonce@ && device.signature@ == crypto::base64url(
            crypto::ed25519_signature(
                identity@.secret,
                vstd::utf8::encode_utf8(
                    connect_signature_payload(
                        *config,
                        identity@.device_id,
                        selected_auth(
                            text::opt_text(config.shared_token),
                            text::opt_text(config.shared_password),
                            text::opt_text(stored_device_token),
                        ).signature_token,
                        nonce@,
                        signed_at,
                        platform@,
                    ),
                ),
            ),
        ),
        carries_auth(
            params.auth,
            selected_auth(
                text::opt_text(config.shared_token),
                text::opt_text(config.shared_password),
                text::opt_text(stored_device_token),
            ),
        ),
{
    let selected = select_connect_auth(
        text::copy_opt(&config.shared_token),
        text::copy_opt(&config.shared_password),
        stored_device_token,
    );
    let payload = build_device_auth_payload_v3(
        identity.device_id(),
        config.client_id.as_str(),
        config.client_mode.as_str(),
        config.requested_role.as_str(),
        &config.requested_scopes,
        signed_at,
        match &selected.signature_token {
            Some(token) => Some(token.as_str()),
            None => None,
        },
        nonce,
        platform,
        None,
    );
    ConnectParams {
        min_protocol: PROTOCOL_VERSION,
        max_protocol: PROTOCOL_VERSION,
        client: ConnectClient {
            id: config.client_id.clone(),
            display_name: Some(config.display_name.clone()),
            version: PACKAGE_VERSION.to_owned(),
            platform: platform.to_owned(),
            device_family: None,
            mode: config.client_mode.clone(),
            instance_id: None,
        },
        caps: Vec::new(),
        commands: None,
        permissions: None,
        path_env: None,
        role: config.requested_role.clone(),
        scopes: text::copy_list(&config.requested_scopes),
        device: Some(
            DeviceAuthPayload {
                id: identity.device_id().to_owned(),
                public_key: identity.public_key().to_owned(),
                signature: identity.sign_payload(payload.as_str()),
                signed_at,
                nonce: nonce.to_owned(),
            },
        ),
        auth: auth_payload(selected),
    }
}

/// The request frame with the answer to the challenge.
pub fn connect_request(connect_id: &str, params: ConnectParams) -> (frame: RequestFrame)
    ensures
        frame.frame_type@ == "req"@,
        frame.id@ == connect_id@,
        frame.method@ == "connect"@,
        frame.params matches Some(sent) && sent@ == params.json(),
{
    RequestFrame {
        frame_type: "req".to_owned(),
        id: connect_id.to_owned(),
        method: "connect".to_owned(),
        params: Some(params.into_json()),
    }
}

// ---------------------------------------------------------------------------
// Messages of the transport
// ---------------------------------------------------------------------------

/// The text of a message; control messages have none, and a closed connection is a failure.
pub open spec fn message_text(message: WsMessage) -> Result<Seq<char>, Seq<char>> {
    match message {
        WsMessage::Text(s) => Ok(s@),
        WsMessage::Binary(bytes) => if vstd::utf8::valid_utf8(bytes@) {
            Ok(vstd::utf8::decode_utf8(bytes@))
        } else {
            Err("non-utf8 websocket message"@)
        },
        WsMessage::Close { .. } => Err("websocket closed"@),
        WsMessage::Control => Ok(Seq::empty()),
    }
}

/// The text of a message.
pub fn ws_text(message: WsMessage) -> (result: Result<String, Failure>)
    ensures
        failure::text_result(result) == message_text(message),
{
    match message {
        WsMessage::Text(s) => Ok(s),
        WsMessage::Binary(bytes) => match text_from_utf8(bytes) {
            Some(s) => Ok(s),
            None => Err(failure("non-utf8 websocket message")),
        },
        WsMessage::Close { .. } => Err(failure("websocket closed")),
        WsMessage::Control => Ok(String::new()),
    }
}

// ---------------------------------------------------------------------------
// The course of a connection
// ---------------------------------------------------------------------------

/// Why a connection has ended.
#[derive(Debug, Clone, Copy, PartialEq, Eq, Structural)]
pub enum DisconnectReason {
    /// The daemon is to stop.
    Restart,
    /// The gateway has not accepted the device yet.
    PairingRequired,
    /// The gateway has refused the device's token.
    AuthFailed,
    /// The gateway has gone.
    Transport,
}

/// How far a connection has come.
#[derive(Debug, Clone, Copy, PartialEq, Eq, Structural)]
pub enum GatewayPhase {
    AwaitingChallenge,
    AwaitingHello,
    Live,
    Ended,
}

/// What a connection is told.
#[derive(Debug)]
pub enum GatewayInput {
    /// The daemon is to stop.
    Shutdown,
    /// Nobody is left who could send anything.
    CommandsClosed,
    /// The gateway sends nothing more.
    StreamEnded,
    /// Nothing could be read, for this reason.
    ReadFailed(String),
    /// A frame, read as an event, as a response, and its payload as a hello; as far as it is one.
    Frame {
        event: Option<EventFrame>,
        response: Option<ResponseFrame>,
        hello: Option<HelloOk>,
    },
}

/// A token that the gateway gives to the device.
#[derive(Debug, Clone)]
pub struct TokenGrant {
    pub role: String,
    pub token: String,
    pub scopes: Vec<String>,
}

pub struct GrantView {
    pub role: Seq<char>,
    pub token: Seq<char>,
    pub scopes: Seq<Seq<char>>,
}

impl View for TokenGrant {
    type V = GrantView;

    open spec fn view(&self) -> GrantView {
        GrantView { role: self.role@, token: self.token@, scopes: text::texts(self.scopes@) }
    }
}

pub open spec fn opt_grant(grant: Option<TokenGrant>) -> Option<GrantView> {
    match grant {
        Some(g) => Some(g@),
        None => None,
    }
}

/// What is to be done next.
#[derive(Debug)]
pub enum GatewayAction {
    /// Nothing.
    Wait,
    /// The challenge is to be answered.
    AnswerChallenge { nonce: String },
    /// The connection is live; a token that came with it is to be stored.
    GoLive { grant: Option<TokenGrant> },
    /// The device's token is to be cleared, and the connection ends.
    ForgetToken,
    /// Somebody has to accept the device first; the connection ends.
    AwaitPairing,
    /// A request has been answered: with success, or with this failure.
    Settle { id: String, problem: Option<String> },
    /// The connection ends; the gateway is told so where `close` is set.
    End { reason: DisconnectReason, close: bool },
    /// The connection has failed.
    Fail { message: String },
}

pub enum ActionView {
    Wait,
    AnswerChallenge { nonce: Seq<char> },
    GoLive { grant: Option<GrantView> },
    ForgetToken,
    AwaitPairing,
    Settle { id: Seq<char>, problem: Option<Seq<char>> },
    End { reason: DisconnectReason, close: bool },
    Fail { message: Seq<char> },
}

impl View for GatewayAction {
    type V = ActionView;

    open spec fn view(&self) -> ActionView {
        match self {
            GatewayAction::Wait => ActionView::Wait,
            GatewayAction::AnswerChallenge { nonce } => ActionView::AnswerChallenge {
                nonce: nonce@,
            },
            GatewayAction::GoLive { grant } => ActionView::GoLive { grant: opt_grant(*grant) },
            GatewayAction::ForgetToken => ActionView::ForgetToken,
            GatewayAction::AwaitPairing => ActionView::AwaitPairing,
            GatewayAction::Settle { id, problem } => ActionView::Settle {
                id: id@,
                problem: text::opt_text(*problem),
            },
            GatewayAction::End { reason, close } => ActionView::End {
                reason: *reason,
                close: *close,
            },
            GatewayAction::Fail { message } => ActionView::Fail { message: message@ },
        }
    }
}

/// The challenge in a frame: the nonce that it holds, if it holds one.
pub open spec fn challenge_in(event: Option<EventFrame>) -> Option<Option<Seq<char>>> {
    match event {
        Some(frame) => if frame.frame_type@ == "event"@ && frame.event@ == "connect.challenge"@ {
            Some(frame.payload@.text_member("nonce"@))
        } else {
            None
        },
        None => None,
    }
}

/// What is done while the challenge is awaited.
pub open spec fn challenge_action(input: GatewayInput) -> ActionView {
    match input {
        GatewayInput::Shutdown => ActionView::End { reason: DisconnectReason::Restart, close: false },
        GatewayInput::CommandsClosed => ActionView::Wait,
        GatewayInput::StreamEnded => ActionView::Fail {
            message: "gateway closed before connect challenge"@,
        },
        GatewayInput::ReadFailed(message) => ActionView::Fail { message: message@ },
        GatewayInput::Frame { event, .. } => match challenge_in(event) {
            None => ActionView::Wait,
            Some(None) => ActionView::Fail { message: "gateway connect challenge missing nonce"@ },
            Some(Some(nonce)) => ActionView::AnswerChallenge { nonce },
        },
    }
}

/// The code in the details of a refusal.
pub open spec fn detail_code(response: ResponseFrame) -> Seq<char> {
    match response.error {
        Some(error) => match error.details {
            Some(details) => details@.text_member_or("code"@, Seq::empty()),
            None => Seq::empty(),
        },
        None => Seq::empty(),
    }
}

/// The message of a refusal.
pub open spec fn refusal_message(response: ResponseFrame, fallback: Seq<char>) -> Seq<char> {
    match response.error {
        Some(error) => error.message@,
        None => fallback,
    }
}

/// The token that comes with a hello.
pub open spec fn granted(hello: HelloOk) -> Option<GrantView> {
    match hello.auth {
        Some(auth) => match auth.device_token {
            Some(token) => Some(
                GrantView {
                    role: auth.role@,
                    token: token@,
                    scopes: text::texts(auth.scopes@),
                },
            ),
            None => None,
        },
        None => None,
    }
}

/// What is done with the response to the request to connect.
pub open spec fn connect_response_action(
    response: ResponseFrame,
    hello: Option<HelloOk>,
) -> ActionView {
    let code = detail_code(response);
    if response.ok {
        match hello {
            Some(h) => ActionView::GoLive { grant: granted(h) },
            None => ActionView::Fail { message: "invalid hello-ok payload"@ },
        }
    } else if code == "PAIRING_REQUIRED"@ {
        ActionView::AwaitPairing
    } else if code == "AUTH_TOKEN_MISMATCH"@ || code == "AUTH_DEVICE_TOKEN_MISMATCH"@ {
        ActionView::ForgetToken
    } else {
        ActionView::Fail { message: refusal_message(response, "connect failed"@) }
    }
}

/// What is done while the hello is awaited.
pub open spec fn hello_action(connect_id: Seq<char>, input: GatewayInput) -> ActionView {
    match input {
        GatewayInput::Shutdown => ActionView::End { reason: DisconnectReason::Restart, close: true },
        GatewayInput::CommandsClosed => ActionView::Wait,
        GatewayInput::StreamEnded => ActionView::Fail { message: "gateway closed during connect"@ },
        GatewayInput::ReadFailed(message) => ActionView::Fail { message: message@ },
        GatewayInput::Frame { response, hello, .. } => match response {
            Some(frame) => if frame.frame_type@ == "res"@ && frame.id@ == connect_id {
                connect_response_action(frame, hello)
            } else {
                ActionView::Wait
            },
            None => ActionView::Wait,
        },
    }
}

/// Whether a frame is the gateway's sign of life.
pub open spec fn is_tick(event: Option<EventFrame>) -> bool {
    event matches Some(frame) && frame.frame_type@ == "event"@ && frame.event@ == "tick"@
}

/// What is done on a live connection.
pub open spec fn live_action(
    pending: Map<Seq<char>, Seq<char>>,
    input: GatewayInput,
) -> ActionView {
    match input {
        GatewayInput::Shutdown => ActionView::End { reason: DisconnectReason::Restart, close: true },
        GatewayInput::CommandsClosed => ActionView::End {
            reason: DisconnectReason::Restart,
            close: true,
        },
        GatewayInput::StreamEnded => ActionView::End {
            reason: DisconnectReason::Transport,
            close: false,
        },
        GatewayInput::ReadFailed(message) => ActionView::Fail { message: message@ },
        GatewayInput::Frame { event, response, .. } => match response {
            Some(frame) => if !is_tick(event) && pending.dom().contains(frame.id@) {
                ActionView::Settle {
                    id: frame.id@,
                    problem: if frame.ok {
                        None
                    } else {
                        Some(refusal_message(frame, pending[frame.id@] + " failed"@))
                    },
                }
            } else {
                ActionView::Wait
            },
            None => ActionView::Wait,
        },
    }
}

pub struct SessionView {
    pub connect_id: Seq<char>,
    pub phase: GatewayPhase,
    /// The requests without an answer, and their methods.
    pub pending: Map<Seq<char>, Seq<char>>,
}

/// What a connection does when it is told something.
pub open spec fn session_action(session: SessionView, input: GatewayInput) -> ActionView {
    match session.phase {
        GatewayPhase::AwaitingChallenge => challenge_action(input),
        GatewayPhase::AwaitingHello => hello_action(session.connect_id, input),
        GatewayPhase::Live => live_action(session.pending, input),
        GatewayPhase::Ended => ActionView::Wait,
    }
}

/// How far a connection has come once it has done something.
pub open spec fn phase_after(phase: GatewayPhase, action: ActionView) -> GatewayPhase {
    match action {
        ActionView::Wait => phase,
        ActionView::AnswerChallenge { .. } => GatewayPhase::AwaitingHello,
        ActionView::GoLive { .. } => GatewayPhase::Live,
        ActionView::Settle { .. } => phase,
        ActionView::ForgetToken => GatewayPhase::Ended,
        ActionView::AwaitPairing => GatewayPhase::Ended,
        ActionView::End { .. } => GatewayPhase::Ended,
        ActionView::Fail { .. } => GatewayPhase::Ended,
    }
}

/// A connection that has been told something.
pub open spec fn session_after(session: SessionView, input: GatewayInput) -> SessionView {
    let action = session_action(session, input);
    SessionView {
        phase: phase_after(session.phase, action),
        pending: match action {
            ActionView::Settle { id, .. } => session.pending.remove(id),
            _ => session.pending,
        },
        ..session
    }
}

/// A connection on which a request has been sent.
pub open spec fn session_with_request(
    session: SessionView,
    id: Seq<char>,
    method: Seq<char>,
) -> SessionView {
    SessionView { pending: session.pending.insert(id, method), ..session }
}

/// The parameters of a request to deliver a chat message.
pub open spec fn chat_params(
    session_key: Seq<char>,
    message: Seq<char>,
    idempotency_key: Seq<char>,
) -> JsonView {
    json::object_view().with_text("sessionKey"@, session_key).with_text(
        "message"@,
        message,
    ).with_text("idempotencyKey"@, idempotency_key)
}

/// A connection to the gateway.
#[derive(Debug)]
pub struct GatewaySession {
    connect_id: String,
    phase: GatewayPhase,
    pending: SortedMap<String>,
}

impl View for GatewaySession {
    type V = SessionView;

    closed spec fn view(&self) -> SessionView {
        SessionView {
            connect_id: self.connect_id@,
            phase: self.phase,
            pending: self.pending@.map_values(|method: String| method@),
        }
    }
}

impl GatewaySession {
    pub closed spec fn wf(&self) -> bool {
        self.pending.wf()
    }

    /// A connection on which nothing has happened yet.
    pub fn new(connect_id: String) -> (session: Self)
        ensures
            session.wf(),
            session@ == (SessionView {
                connect_id: connect_id@,
                phase: GatewayPhase::AwaitingChallenge,
                pending: Map::empty(),
            }),
    {
        let session = GatewaySession {
            connect_id,
            phase: GatewayPhase::AwaitingChallenge,
            pending: SortedMap::new(),
        };
        assert(session@.pending =~= Map::<Seq<char>, Seq<char>>::empty());
        session
    }

    /// How far the connection has come.
    pub fn phase(&self) -> (phase: GatewayPhase)
        ensures
            phase == self@.phase,
    {
        self.phase
    }

    /// Requests that a chat message be delivered.
    pub fn request_chat(
        &mut self,
        request_id: &str,
        session_key: &str,
        message: &str,
        idempotency_key: &str,
    ) -> (frame: RequestFrame)
        requires
            old(self).wf(),
            old(self)@.phase == GatewayPhase::Live,
        ensures
            final(self).wf(),
            final(self)@ == session_with_request(old(self)@, request_id@, "chat.send"@),
            frame.frame_type@ == "req"@,
            frame.id@ == request_id@,
            frame.method@ == "chat.send"@,
            frame.params matches Some(sent) && sent@ == chat_params(
                session_key@,
                message@,
                idempotency_key@,
            ),
    {
        self.pending.insert(request_id.to_owned(), "chat.send".to_owned());
        assert(self@.pending =~= old(self)@.pending.insert(request_id@, "chat.send"@));
        RequestFrame {
            frame_type: "req".to_owned(),
            id: request_id.to_owned(),
            method: "chat.send".to_owned(),
            params: Some(
                empty_object().with_text("sessionKey", session_key).with_text(
                    "message",
                    message,
                ).with_text("idempotencyKey", idempotency_key),
            ),
        }
    }

    /// Tells the connection something; it says what is to be done.
    pub fn advance(&mut self, input: GatewayInput) -> (action: GatewayAction)
        requires
            old(self).wf(),
        ensures
            final(self).wf(),
            action@ == session_action(old(self)@, input),
            final(self)@ == session_after(old(self)@, input),
    {
        match self.phase {
            GatewayPhase::AwaitingChallenge => {
                let action = on_challenge(input);
                match &action {
                    GatewayAction::Wait => {},
                    GatewayAction::AnswerChallenge { .. } => {
                        self.phase = GatewayPhase::AwaitingHello;
                    },
                    _ => {
                        self.phase = GatewayPhase::Ended;
                    },
                }
                action
            },
            GatewayPhase::AwaitingHello => {
                let action = on_hello(self.connect_id.as_str(), input);
                match &action {
                    GatewayAction::Wait => {},
                    GatewayAction::GoLive { .. } => {
                        self.phase = GatewayPhase::Live;
                    },
                    _ => {
                        self.phase = GatewayPhase::Ended;
                    },
                }
                action
            },
            GatewayPhase::Live => self.on_live(input),
            GatewayPhase::Ended => GatewayAction::Wait,
        }
    }

    fn on_live(&mut self, input: GatewayInput) -> (action: GatewayAction)
        requires
            old(self).wf(),
            old(self)@.phase == GatewayPhase::Live,
        ensures
            final(self).wf(),
            action@ == live_action(old(self)@.pending, input),
            final(self)@ == session_after(old(self)@, input),
    {
        match input {
            GatewayInput::Shutdown | GatewayInput::CommandsClosed => {
                self.phase = GatewayPhase::Ended;
                GatewayAction::End { reason: DisconnectReason::Restart, close: true }
            },
            GatewayInput::StreamEnded => {
                self.phase = GatewayPhase::Ended;
                GatewayAction::End { reason: DisconnectReason::Transport, close: false }
            },
            GatewayInput::ReadFailed(message) => {
                self.phase = GatewayPhase::Ended;
                GatewayAction::Fail { message }
            },
            GatewayInput::Frame { event, response, .. } => {
                if tick(&event) {
                    return GatewayAction::Wait;
                }
                let frame = match response {
                    Some(frame) => frame,
                    None => return GatewayAction::Wait,
                };
                let method = match self.pending.remove(frame.id.as_str()) {
                    Some(method) => method,
                    None => {
                        assert(self@ == old(self)@) by {
                            assert(self@.pending =~= old(self)@.pending);
                        }
                        return GatewayAction::Wait;
                    },
                };
                assert(self@.pending =~= old(self)@.pending.remove(frame.id@));
                let problem = if frame.ok {
                    None
                } else {
                    match frame.error {
                        Some(error) => Some(error.message),
                        None => {
                            let mut message = method;
                            message.append(" failed");
                            Some(message)
                        },
                    }
                };
                GatewayAction::Settle { id: frame.id, problem }
            },
        }
    }
}

fn tick(event: &Option<EventFrame>) -> (b: bool)
    ensures
        b == is_tick(*event),
{
    match event {
        Some(frame) => text::same_text(frame.frame_type.as_str(), "event") && text::same_text(
            frame.event.as_str(),
            "tick",
        ),
        None => false,
    }
}

fn on_challenge(input: GatewayInput) -> (action: GatewayAction)
    ensures
        action@ == challenge_action(input),
{
    match input {
        GatewayInput::Shutdown => GatewayAction::End {
            reason: DisconnectReason::Restart,
            close: false,
        },
        GatewayInput::CommandsClosed => GatewayAction::Wait,
        GatewayInput::StreamEnded => GatewayAction::Fail {
            message: "gateway closed before connect challenge".to_owned(),
        },
        GatewayInput::ReadFailed(message) => GatewayAction::Fail { message },
        GatewayInput::Frame { event, .. } => match event {
            Some(frame) => if text::same_text(frame.frame_type.as_str(), "event")
                && text::same_text(frame.event.as_str(), "connect.challenge") {
                match frame.payload.get_text("nonce") {
                    Some(nonce) => GatewayAction::AnswerChallenge { nonce: nonce.to_owned() },
                    None => GatewayAction::Fail {
                        message: "gateway connect challenge missing nonce".to_owned(),
                    },
                }
            } else {
                GatewayAction::Wait
            },
            None => GatewayAction::Wait,
        },
    }
}

fn on_hello(connect_id: &str, input: GatewayInput) -> (action: GatewayAction)
    ensures
        action@ == hello_action(connect_id@, input),
{
    match input {
        GatewayInput::Shutdown => GatewayAction::End {
            reason: DisconnectReason::Restart,
            close: true,
        },
        GatewayInput::CommandsClosed => GatewayAction::Wait,
        GatewayInput::StreamEnded => GatewayAction::Fail {
            message: "gateway closed during connect".to_owned(),
        },
        GatewayInput::ReadFailed(message) => GatewayAction::Fail { message },
        GatewayInput::Frame { response, hello, .. } => match response {
            Some(frame) => if text::same_text(frame.frame_type.as_str(), "res") && text::same_text(
                frame.id.as_str(),
                connect_id,
            ) {
                on_connect_response(frame, hello)
            } else {
                GatewayAction::Wait
            },
            None => GatewayAction::Wait,
        },
    }
}

fn on_connect_response(response: ResponseFrame, hello: Option<HelloOk>) -> (action: GatewayAction)
    ensures
        action@ == connect_response_action(response, hello),
{
    if response.ok {
        return match hello {
            Some(h) => GatewayAction::GoLive { grant: grant_of(h) },
            None => GatewayAction::Fail { message: "invalid hello-ok payload".to_owned() },
        };
    }
    proof {
        reveal_strlit("");
        assert(""@ == Seq::<char>::empty());
    }
    let code = match &response.error {
        Some(error) => match &error.details {
            Some(details) => details.get_text_or("code", ""),
            None => "",
        },
        None => "",
    };
    if text::same_text(code, "PAIRING_REQUIRED") {
        return GatewayAction::AwaitPairing;
    }
    if text::same_text(code, "AUTH_TOKEN_MISMATCH") || text::same_text(
        code,
        "AUTH_DEVICE_TOKEN_MISMATCH",
    ) {
        return GatewayAction::ForgetToken;
    }
    match response.error {
        Some(error) => GatewayAction::Fail { message: error.message },
        None => GatewayAction::Fail { message: "connect failed".to_owned() },
    }
}

fn grant_of(hello: HelloOk) -> (grant: Option<TokenGrant>)
    ensures
        opt_grant(grant) == granted(hello),
{
    match hello.auth {
        Some(auth) => match auth.device_token {
            Some(token) => Some(TokenGrant { role: auth.role, token, scopes: auth.scopes }),
            None => None,
        },
        None => None,
    }
}

/// A request is answered at most once: when it has been, nothing answers it again unless it is sent
/// again; and no other request is answered with it.
pub proof fn law_request_is_answered_once(
    session: SessionView,
    input: GatewayInput,
    id: Seq<char>,
    problem: Option<Seq<char>>,
    later: GatewayInput,
)
    requires
        session_action(session, input) == (ActionView::Settle { id, problem }),
    ensures
        session.pending.dom().contains(id),
        !session_after(session, input).pending.dom().contains(id),
        session_action(session_after(session, input), later) matches ActionView::Settle {
            id: next,
            ..
        } ==> next != id,
        forall|other: Seq<char>|
            other != id && session.pending.dom().contains(other)
                ==> #[trigger] session_after(session, input).pending.dom().contains(other),
{
}

/// The challenge is answered before the hello is taken, and requests are answered on a live
/// connection only.
pub proof fn law_phases_follow_in_order(session: SessionView, input: GatewayInput)
    ensures
        session_action(session, input) is AnswerChallenge ==> session.phase
            == GatewayPhase::AwaitingChallenge,
        session_action(session, input) is GoLive ==> session.phase == GatewayPhase::AwaitingHello,
        session_action(session, input) is Settle ==> session.phase == GatewayPhase::Live,
        session.phase == GatewayPhase::Ended ==> session_after(session, input) == session
            && session_action(session, input) == ActionView::Wait,
{
}

/// A token is cleared only where the gateway has refused the request to connect and has named a
/// token as the reason.
pub proof fn law_token_is_cleared_on_mismatch_only(session: SessionView, input: GatewayInput)
    requires
        session_action(session, input) == ActionView::ForgetToken,
    ensures
        session.phase == GatewayPhase::AwaitingHello,
        input matches GatewayInput::Frame { response: Some(frame), .. } && !frame.ok && frame.id@
            == session.connect_id && (detail_code(frame) == "AUTH_TOKEN_MISMATCH"@ || detail_code(
            frame,
        ) == "AUTH_DEVICE_TOKEN_MISMATCH"@),
{
}

// ---------------------------------------------------------------------------
// Attempts
// ---------------------------------------------------------------------------

/// How an attempt to stay connected has ended.
#[derive(Debug, Clone, Copy, PartialEq, Eq, Structural)]
pub enum AttemptOutcome {
    Ended(DisconnectReason),
    Failed,
}

/// What follows an attempt.
#[derive(Debug, Clone, Copy, PartialEq, Eq, Structural)]
pub struct NextAttempt {
    /// The pause before the next attempt, in milliseconds; none where it is made at once.
    pub pause_ms: Option<u64>,
    /// The pause that would follow another failure.
    pub backoff_ms: u64,
}

/// What follows an attempt: after a connection that stood, the pauses begin anew; after a refused
/// token there is none; and while attempts fail, they grow.
pub open spec fn next_attempt(
    backoff_ms: u64,
    outcome: AttemptOutcome,
    base_ms: u64,
    max_ms: u64,
) -> NextAttempt {
    match outcome {
        AttemptOutcome::Ended(DisconnectReason::AuthFailed) => NextAttempt {
            pause_ms: None,
            backoff_ms: base_ms,
        },
        AttemptOutcome::Ended(_) => NextAttempt {
            pause_ms: Some(base_ms),
            backoff_ms: retry::backoff_after(base_ms, max_ms),
        },
        AttemptOutcome::Failed => NextAttempt {
            pause_ms: Some(backoff_ms),
            backoff_ms: retry::backoff_after(backoff_ms, max_ms),
        },
    }
}

/// What follows an attempt.
pub fn after_attempt(backoff_ms: u64, outcome: AttemptOutcome, config: &RetryConfig) -> (next:
    NextAttempt)
    ensures
        next == next_attempt(backoff_ms, outcome, config.base_ms, config.max_ms),
{
    match outcome {
        AttemptOutcome::Ended(DisconnectReason::AuthFailed) => NextAttempt {
            pause_ms: None,
            backoff_ms: config.base_ms,
        },
        AttemptOutcome::Ended(_) => NextAttempt {
            pause_ms: Some(config.base_ms),
            backoff_ms: next_backoff(config.base_ms, config.max_ms),
        },
        AttemptOutcome::Failed => NextAttempt {
            pause_ms: Some(backoff_ms),
            backoff_ms: next_backoff(backoff_ms, config.max_ms),
        },
    }
}

/// The pause that would follow the next failure, after `n` failures in a row.
pub open spec fn backoff_after_failures(base_ms: u64, max_ms: u64, n: nat) -> u64
    decreases n,
{
    if n == 0 {
        base_ms
    } else {
        next_attempt(
            backoff_after_failures(base_ms, max_ms, (n - 1) as nat),
            AttemptOutcome::Failed,
            base_ms,
            max_ms,
        ).backoff_ms
    }
}

/// While attempts fail, the pauses between them double from the base up to the maximum.
pub proof fn law_failures_double_the_pause(base_ms: u64, max_ms: u64, n: nat)
    ensures
        backoff_after_failures(base_ms, max_ms, n) == retry::backoff_series(base_ms, max_ms, n),
    decreases n,
{
    if n > 0 {
        law_failures_double_the_pause(base_ms, max_ms, (n - 1) as nat);
    }
}

// ---------------------------------------------------------------------------
// Laws
// ---------------------------------------------------------------------------

/// A shared token is used where there is one; a shared password where there is no shared token; and
/// the token of the device where neither is shared. What is used is used as it is.
pub proof fn law_strongest_credential_is_used(
    shared_token: Option<Seq<char>>,
    shared_password: Option<Seq<char>>,
    stored: Option<Seq<char>>,
)
    ensures
        ({
            let auth = selected_auth(shared_token, shared_password, stored);
            &&& shared_token is Some ==> auth.auth_token == shared_token && auth.auth_password is None
            &&& shared_token is None && shared_password is Some ==> auth.auth_password
                == shared_password && auth.auth_token is None
            &&& shared_token is None && shared_password is None ==> auth.auth_token == stored
                && auth.auth_device_token == stored && auth.auth_password is None
        }),
{
}

/// The credential that is used stands in the request to connect, under its name.
pub proof fn law_credential_reaches_the_gateway(
    params: ConnectParams,
    shared_token: Option<Seq<char>>,
    shared_password: Option<Seq<char>>,
    stored: Option<Seq<char>>,
)
    requires
        carries_auth(params.auth, selected_auth(shared_token, shared_password, stored)),
    ensures
        shared_token matches Some(token) ==> (params.json().member("auth"@) matches Some(auth)
            && auth.text_member("token"@) == Some(token)),
        shared_token is None ==> (shared_password matches Some(password) ==> (params.json().member(
            "auth"@,
        ) matches Some(auth) && auth.text_member("password"@) == Some(password))),
        shared_token is None && shared_password is None ==> (stored matches Some(token) ==> (
        params.json().member("auth"@) matches Some(auth) && auth.text_member("token"@) == Some(
            token,
        ) && auth.text_member("deviceToken"@) == Some(token))),
        shared_token is None && shared_password is None && stored is None ==> params.json().member(
            "auth"@,
        ) is None,
{
    protocol::law_connect_params_are_sent(params);
}

/// The challenge of the gateway is answered with its nonce.
pub proof fn law_challenge_is_answered(
    session: SessionView,
    frame: EventFrame,
    nonce: Seq<char>,
    response: Option<ResponseFrame>,
    hello: Option<HelloOk>,
)
    requires
        session.phase == GatewayPhase::AwaitingChallenge,
        frame.frame_type@ == "event"@,
        frame.event@ == "connect.challenge"@,
        frame.payload@.text_member("nonce"@) == Some(nonce),
    ensures
        ({
            let input = GatewayInput::Frame { event: Some(frame), response, hello };
            session_action(session, input) == (ActionView::AnswerChallenge { nonce })
                && session_after(session, input).phase == GatewayPhase::AwaitingHello
        }),
{
}

/// What the gateway answers to the request to connect decides: accepted, the connection is live and
/// the token that came is kept; refused for want of pairing, it waits for pairing; refused for its
/// token, the token is forgotten; refused otherwise, it fails with the reason.
pub proof fn law_hello_decides(
    session: SessionView,
    event: Option<EventFrame>,
    frame: ResponseFrame,
    hello: HelloOk,
)
    requires
        session.phase == GatewayPhase::AwaitingHello,
        frame.frame_type@ == "res"@,
        frame.id@ == session.connect_id,
    ensures
        ({
            let input = GatewayInput::Frame {
                event,
                response: Some(frame),
                hello: Some(hello),
            };
            let action = session_action(session, input);
            &&& frame.ok ==> session_after(session, input).phase == GatewayPhase::Live
            &&& frame.ok ==> (hello.auth matches Some(auth) ==> (auth.device_token matches Some(token)
                ==> (action matches ActionView::GoLive { grant: Some(grant) } && grant.token
                == token@ && grant.role == auth.role@ && grant.scopes == text::texts(auth.scopes@))))
            &&& frame.ok && (hello.auth matches Some(auth) ==> auth.device_token is None)
                ==> action == (ActionView::GoLive { grant: None })
            &&& !frame.ok ==> session_after(session, input).phase == GatewayPhase::Ended
            &&& !frame.ok ==> (frame.error matches Some(error) ==> (error.details matches Some(details)
                ==> (details@.text_member("code"@) == Some("PAIRING_REQUIRED"@) ==> action
                == ActionView::AwaitPairing)))
            &&& !frame.ok ==> (frame.error matches Some(error) ==> (error.details matches Some(details)
                ==> ((details@.text_member("code"@) == Some("AUTH_TOKEN_MISMATCH"@)
                || details@.text_member("code"@) == Some("AUTH_DEVICE_TOKEN_MISMATCH"@)) ==> action
                == ActionView::ForgetToken)))
            &&& !frame.ok ==> (frame.error matches Some(error) ==> (error.details is None ==> action
                == (ActionView::Fail { message: error.message@ })))
        }),
{
    reveal_strlit("PAIRING_REQUIRED");
    reveal_strlit("AUTH_TOKEN_MISMATCH");
    reveal_strlit("AUTH_DEVICE_TOKEN_MISMATCH");
    assert("PAIRING_REQUIRED"@.len() == 16);
    assert("AUTH_TOKEN_MISMATCH"@.len() == 19);
    assert("AUTH_DEVICE_TOKEN_MISMATCH"@.len() == 26);
}

/// A chat message is requested with the session, the text and the key that it was given.
pub proof fn law_chat_message_is_requested_in_full(
    session_key: Seq<char>,
    message: Seq<char>,
    idempotency_key: Seq<char>,
)
    ensures
        chat_params(session_key, message, idempotency_key).text_member("sessionKey"@) == Some(
            session_key,
        ),
        chat_params(session_key, message, idempotency_key).text_member("message"@) == Some(message),
        chat_params(session_key, message, idempotency_key).text_member("idempotencyKey"@) == Some(
            idempotency_key,
        ),
{
    reveal_strlit("sessionKey");
    reveal_strlit("message");
    reveal_strlit("idempotencyKey");
    assert("sessionKey"@.len() == 10);
    assert("message"@.len() == 7);
    assert("idempotencyKey"@.len() == 14);
    json::lemma_members();
}

/// A request that has been sent is answered by the response with its id: it has succeeded exactly if
/// the response says so, and else it has failed for the reason that the response gives.
pub proof fn law_response_answers_its_request(
    session: SessionView,
    id: Seq<char>,
    method: Seq<char>,
    frame: ResponseFrame,
    hello: Option<HelloOk>,
)
    requires
        session.phase == GatewayPhase::Live,
        frame.id@ == id,
    ensures
        ({
            let input = GatewayInput::Frame { event: None, response: Some(frame), hello };
            let action = session_action(session_with_request(session, id, method), input);
            &&& action matches ActionView::Settle { id: answered, problem } && answered == id && (
            problem is None <==> frame.ok)
            &&& !frame.ok ==> (frame.error matches Some(error) ==> action == (ActionView::Settle {
                id,
                problem: Some(error.message@),
            }))
        }),
{
}

/// A live connection ends when the daemon stops, when the gateway goes and when nothing can be read;
/// a response to a request that was not sent changes nothing.
pub proof fn law_live_connection_ends(session: SessionView, frame: ResponseFrame, message: String)
    requires
        session.phase == GatewayPhase::Live,
    ensures
        session_action(session, GatewayInput::Shutdown) == (ActionView::End {
            reason: DisconnectReason::Restart,
            close: true,
        }),
        session_after(session, GatewayInput::Shutdown).phase == GatewayPhase::Ended,
        session_action(session, GatewayInput::StreamEnded) == (ActionView::End {
            reason: DisconnectReason::Transport,
            close: false,
        }),
        session_after(session, GatewayInput::StreamEnded).phase == GatewayPhase::Ended,
        session_action(session, GatewayInput::ReadFailed(message)) == (ActionView::Fail {
            message: message@,
        }),
        !session.pending.dom().contains(frame.id@) ==> session_after(
            session,
            GatewayInput::Frame { event: None, response: Some(frame), hello: None },
        ) == session,
{
}

/// After a refused token the next attempt is made at once; after any other end there is a pause,
/// which begins at the base after a connection that stood, and is the one that is due after a
/// failure.
pub proof fn law_pause_follows_the_outcome(backoff_ms: u64, base_ms: u64, max_ms: u64)
    ensures
        next_attempt(
            backoff_ms,
            AttemptOutcome::Ended(DisconnectReason::AuthFailed),
            base_ms,
            max_ms,
        ).pause_ms is None,
        next_attempt(
            backoff_ms,
            AttemptOutcome::Ended(DisconnectReason::Transport),
            base_ms,
            max_ms,
        ).pause_ms == Some(base_ms),
        next_attempt(
            backoff_ms,
            AttemptOutcome::Ended(DisconnectReason::PairingRequired),
            base_ms,
            max_ms,
        ).pause_ms == Some(base_ms),
        next_attempt(backoff_ms, AttemptOutcome::Failed, base_ms, max_ms).pause_ms == Some(
            backoff_ms,
        ),
        backoff_ms <= max_ms / 2 ==> next_attempt(
            backoff_ms,
            AttemptOutcome::Failed,
            base_ms,
            max_ms,
        ).backoff_ms == 2 * backoff_ms,
{
}

/// A request waits for its answer beside all that were made before.
pub proof fn law_requests_wait_side_by_side(
    session: SessionView,
    id: Seq<char>,
    method: Seq<char>,
    other: Seq<char>,
)
    requires
        other != id,
    ensures
        ({
            let after = session_with_request(session, id, method);
            &&& after.pending.dom().contains(id)
            &&& after.pending[id] == method
            &&& after.pending.dom().contains(other) <==> session.pending.dom().contains(other)
            &&& session.pending.dom().contains(other) ==> after.pending[other]
                == session.pending[other]
            &&& after.phase == session.phase
            &&& after.connect_id == session.connect_id
        }),
{
}

/// A frame that can be read as an answer is one unless it is a tick, which is an event of that name.
pub proof fn law_tick_is_no_answer(
    session: SessionView,
    event: EventFrame,
    frame: ResponseFrame,
    hello: Option<HelloOk>,
)
    requires
        session.phase == GatewayPhase::Live,
        session.pending.dom().contains(frame.id@),
    ensures
        ({
            let action = session_action(
                session,
                GatewayInput::Frame { event: Some(event), response: Some(frame), hello },
            );
            let tick = event.frame_type@ == "event"@ && event.event@ == "tick"@;
            &&& tick ==> action == ActionView::Wait
            &&& !tick ==> (action matches ActionView::Settle { id, .. } && id == frame.id@)
        }),
{
}

/// What comes as bytes is read as text, as what comes as text is; a close ends the reading.
pub proof fn law_gateway_bytes_are_read_as_text(
    text: String,
    bytes: Vec<u8>,
    code: Option<u16>,
    reason: String,
)
    ensures
        message_text(WsMessage::Text(text)) == Ok::<Seq<char>, Seq<char>>(text@),
        vstd::utf8::valid_utf8(bytes@) ==> message_text(WsMessage::Binary(bytes)) == Ok::<
            Seq<char>,
            Seq<char>,
        >(vstd::utf8::decode_utf8(bytes@)),
        !vstd::utf8::valid_utf8(bytes@) ==> message_text(WsMessage::Binary(bytes)) is Err,
        message_text(WsMessage::Close { code, reason }) is Err,
        message_text(WsMessage::Control) matches Ok(nothing) && nothing.len() == 0,
{
}

/// The credentials that go with a connection are the ones that were selected, and no others; where none
/// was selected, none go.
pub proof fn law_selected_credentials_go_along(payload: AuthPayload, selected: AuthView)
    ensures
        carries_auth(Some(payload), selected) ==> payload.bootstrap_token is None && (
        payload.token is Some || payload.device_token is Some || payload.password is Some)
            && text::opt_text(payload.token) == selected.auth_token && text::opt_text(
            payload.device_token,
        ) == selected.auth_device_token && text::opt_text(payload.password)
            == selected.auth_password,
        carries_auth(None, selected) <==> selected.auth_token is None && selected.auth_device_token
            is None && selected.auth_password is None,
{
}

/// What is signed for a connection is what the connection is configured with: who the client is, its
/// role and its scopes, beside the token, the challenge and the time.
pub proof fn law_signature_is_of_the_configured_client(
    config: GatewayConfig,
    device_id: Seq<char>,
    token: Seq<char>,
    nonce: Seq<char>,
    signed_at: u64,
    platform: Seq<char>,
)
    ensures
        ({
            let head = "v3|"@ + device_id + "|"@ + config.client_id@ + "|"@ + config.client_mode@
                + "|"@ + config.requested_role@ + "|"@ + text::joined(
                text::texts(config.requested_scopes@),
                ","@,
            ) + "|"@ + text::decimal(signed_at as nat) + "|"@;
            &&& (head + token + "|"@ + nonce + "|"@).is_prefix_of(
                connect_signature_payload(
                    config,
                    device_id,
                    Some(token),
                    nonce,
                    signed_at,
                    platform,
                ),
            )
            &&& (head + "|"@ + nonce + "|"@).is_prefix_of(
                connect_signature_payload(config, device_id, None, nonce, signed_at, platform),
            )
        }),
{
    let head = "v3|"@ + device_id + "|"@ + config.client_id@ + "|"@ + config.client_mode@ + "|"@
        + config.requested_role@ + "|"@ + text::joined(text::texts(config.requested_scopes@), ","@)
        + "|"@ + text::decimal(signed_at as nat) + "|"@;
    let one = head + token + "|"@ + nonce + "|"@;
    let signed = connect_signature_payload(
        config,
        device_id,
        Some(token),
        nonce,
        signed_at,
        platform,
    );
    assert(signed.take(one.len() as int) =~= one);
    let other = head + "|"@ + nonce + "|"@;
    let bare = connect_signature_payload(config, device_id, None, nonce, signed_at, platform);
    assert(bare.take(other.len() as int) =~= other);
}

} // verus!
