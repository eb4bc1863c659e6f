//! The course of a connection to a Subspace server.

use vstd::prelude::*;

use crate::attention::layer;
use crate::attention::layer::MessageEmbedding;
use crate::config;
use crate::config::{quote_debug, ServerConfig};
use crate::failure::{failure, failure_with, Failure};
use crate::ipc::OutboundSendResult;
use crate::json;
use crate::lists;
use crate::json::{empty_object, parse_json, Json, JsonNumber, JsonView, NumberView};
use crate::runtime_store;
use crate::runtime_store::{RuntimeStore, RuntimeView};
use crate::sorted_map::SortedMap;
use crate::subspace::auth;
use crate::subspace::auth::{reauth_legacy_verify, reauth_start, reauth_verify, Answer, PostRequest};
use crate::subspace::identity;
use crate::subspace::identity::{
    LegacySubspaceSessionRecord, LoadedSessionRecord, NamedIdentityRecord, SubspaceSessionRecord,
};
use crate::supervisor::wake::WakeEnvelope;
use crate::text;
use crate::websocket::{text_from_utf8, WsMessage};

verus! {

// ---------------------------------------------------------------------------
// The session in use
// ---------------------------------------------------------------------------

/// The session with which the daemon connects.
#[derive(Debug, Clone)]
pub enum ActiveSession {
    Current { session: SubspaceSessionRecord, identity: NamedIdentityRecord },
    Legacy(LegacySubspaceSessionRecord),
}

pub enum ActiveView {
    Current { session: identity::SessionView, identity: identity::IdentityView },
    Legacy(identity::LegacyView),
}

impl View for ActiveSession {
    type V = ActiveView;

    open spec fn view(&self) -> ActiveView {
        match self {
            ActiveSession::Current { session, identity } => ActiveView::Current {
                session: session@,
                identity: identity@,
            },
            ActiveSession::Legacy(session) => ActiveView::Legacy(session@),
        }
    }
}

impl ActiveView {
    /// The agent that the daemon is to the server.
    pub open spec fn agent_id(self) -> Seq<char> {
        match self {
            ActiveView::Current { session, .. } => session.agent_id,
            ActiveView::Legacy(session) => session.agent_id,
        }
    }

    pub open spec fn session_token(self) -> Option<Seq<char>> {
        match self {
            ActiveView::Current { session, .. } => session.session_token,
            ActiveView::Legacy(session) => session.session_token,
        }
    }

    /// The secret key with which the session signs.
    pub open spec fn secret(self) -> Seq<u8> {
        match self {
            ActiveView::Current { identity, .. } => identity.secret,
            ActiveView::Legacy(session) => session.secret,
        }
    }

    /// The session with another token, or none.
    pub open spec fn with_token(self, session_token: Option<Seq<char>>) -> ActiveView {
        match self {
            ActiveView::Current { session, identity } => ActiveView::Current {
                session: identity::SessionView { session_token, ..session },
                identity,
            },
            ActiveView::Legacy(session) => ActiveView::Legacy(
                identity::LegacyView { session_token, ..session },
            ),
        }
    }
}

/// The session that a record stands for: a session under a named identity needs that identity.
pub open spec fn activated(
    record: identity::LoadedView,
    named: Option<identity::IdentityView>,
    identity_path: Seq<char>,
) -> Result<ActiveView, Seq<char>> {
    match record {
        identity::LoadedView::Legacy(session) => Ok(ActiveView::Legacy(session)),
        identity::LoadedView::Current(session) => match named {
            None => Err("missing identity file: "@ + identity_path),
            Some(found) => match identity::agent_mismatch(found, session.agent_id) {
                Some(message) => Err(message),
                None => Ok(ActiveView::Current { session, identity: found }),
            },
        },
    }
}

pub open spec fn active_result(result: Result<ActiveSession, Failure>) -> Result<
    ActiveView,
    Seq<char>,
> {
    match result {
        Ok(session) => Ok(session@),
        Err(f) => Err(f@),
    }
}

pub open spec fn opt_identity(identity: Option<NamedIdentityRecord>) -> Option<
    identity::IdentityView,
> {
    match identity {
        Some(i) => Some(i@),
        None => None,
    }
}

impl ActiveSession {
    pub open spec fn wf(&self) -> bool {
        match self {
            ActiveSession::Current { identity, .. } => identity.wf(),
            ActiveSession::Legacy(session) => session.wf(),
        }
    }

    /// The session that a record stands for. `identity` is what `identity_path` holds.
    pub fn activate(
        record: LoadedSessionRecord,
        identity: Option<NamedIdentityRecord>,
        identity_path: &str,
    ) -> (result: Result<Self, Failure>)
        requires
            record.wf(),
            identity matches Some(i) ==> i.wf(),
        ensures
            active_result(result) == activated(record@, opt_identity(identity), identity_path@),
            result matches Ok(session) ==> session.wf(),
    {
        let session = match record {
            LoadedSessionRecord::Legacy(session) => return Ok(ActiveSession::Legacy(session)),
            LoadedSessionRecord::Current(session) => session,
        };
        let identity = match identity {
            Some(identity) => identity,
            None => return Err(failure_with("missing identity file: ", identity_path)),
        };
        match identity.ensure_matches_agent_id(session.agent_id.as_str()) {
            Ok(()) => Ok(ActiveSession::Current { session, identity }),
            Err(f) => Err(f),
        }
    }

    pub fn agent_id(&self) -> (id: &str)
        ensures
            id@ == self@.agent_id(),
    {
        match self {
            ActiveSession::Current { session, .. } => session.agent_id.as_str(),
            ActiveSession::Legacy(session) => session.agent_id(),
        }
    }

    pub fn session_token(&self) -> (token: Option<&str>)
        ensures
            text::opt_str(token) == self@.session_token(),
    {
        match self {
            ActiveSession::Current { session, .. } => match &session.session_token {
                Some(token) => Some(token.as_str()),
                None => None,
            },
            ActiveSession::Legacy(session) => session.session_token(),
        }
    }

    /// Forgets the token.
    pub fn clear_session_token(&mut self)
        requires
            old(self).wf(),
        ensures
            final(self).wf(),
            final(self)@ == old(self)@.with_token(None),
    {
        match self {
            ActiveSession::Current { session, .. } => session.clear_session_token(),
            ActiveSession::Legacy(session) => session.clear_session_token(),
        }
    }

    /// Takes a new token.
    pub fn update_session_token(&mut self, token: String)
        requires
            old(self).wf(),
        ensures
            final(self).wf(),
            final(self)@ == old(self)@.with_token(Some(token@)),
    {
        match self {
            ActiveSession::Current { session, .. } => session.update_session_token(token),
            ActiveSession::Legacy(session) => session.update_session_token(token),
        }
    }

    /// The first request of an authentication.
    pub fn reauth_start(&self, base_url: &str) -> (request: PostRequest)
        ensures
            request@ == auth::authentication_start(base_url@, self@.agent_id()),
    {
        reauth_start(base_url, self.agent_id())
    }

    /// The second request of an authentication, made of the answer to the first.
    pub fn reauth_verify(&self, base_url: &str, start: &Answer) -> (result: Result<
        PostRequest,
        Failure,
    >)
        requires
            self.wf(),
        ensures
            auth::post_result(result) == auth::authentication_answer(
                base_url@,
                self@.agent_id(),
                self@.secret(),
                *start,
            ),
    {
        match self {
            ActiveSession::Current { session, identity } => reauth_verify(
                base_url,
                session,
                identity,
                start,
            ),
            ActiveSession::Legacy(session) => reauth_legacy_verify(base_url, session, start),
        }
    }
}

// ---------------------------------------------------------------------------
// Messages of the transport
// ---------------------------------------------------------------------------

/// What a message of the transport comes to.
#[derive(Debug, Clone)]
pub enum WsFrame {
    Text(String),
    Ignore,
    Closed { code: Option<u16>, reason: String },
}

pub enum WsFrameView {
    Text(Seq<char>),
    Ignore,
    Closed { code: Option<u16>, reason: Seq<char> },
}

impl View for WsFrame {
    type V = WsFrameView;

    open spec fn view(&self) -> WsFrameView {
        match self {
            WsFrame::Text(s) => WsFrameView::Text(s@),
            WsFrame::Ignore => WsFrameView::Ignore,
            WsFrame::Closed { code, reason } => WsFrameView::Closed {
                code: *code,
                reason: reason@,
            },
        }
    }
}

/// What a message of the transport comes to.
pub open spec fn frame_of(message: WsMessage) -> Result<WsFrameView, Seq<char>> {
    match message {
        WsMessage::Text(s) => Ok(WsFrameView::Text(s@)),
        WsMessage::Binary(bytes) => if vstd::utf8::valid_utf8(bytes@) {
            Ok(WsFrameView::Text(vstd::utf8::decode_utf8(bytes@)))
        } else {
            Err("non-utf8 websocket message"@)
        },
        WsMessage::Close { code, reason } => Ok(WsFrameView::Closed { code, reason: reason@ }),
        WsMessage::Control => Ok(WsFrameView::Ignore),
    }
}

pub open spec fn frame_result(result: Result<WsFrame, Failure>) -> Result<WsFrameView, Seq<char>> {
    match result {
        Ok(frame) => Ok(frame@),
        Err(f) => Err(f@),
    }
}

/// What a message of the transport comes to.
pub fn ws_text(message: WsMessage) -> (result: Result<WsFrame, Failure>)
    ensures
        frame_result(result) == frame_of(message),
{
    match message {
        WsMessage::Text(s) => Ok(WsFrame::Text(s)),
        WsMessage::Binary(bytes) => match text_from_utf8(bytes) {
            Some(s) => Ok(WsFrame::Text(s)),
            None => Err(failure("non-utf8 websocket message")),
        },
        WsMessage::Close { code, reason } => Ok(WsFrame::Closed { code, reason }),
        WsMessage::Control => Ok(WsFrame::Ignore),
    }
}

/// That the server has closed the connection, with what it gave as the reason.
pub open spec fn closed_message(
    head: Seq<char>,
    code: Option<u16>,
    reason: Seq<char>,
) -> Seq<char> {
    let with_code = match code {
        Some(c) => head + " code="@ + text::decimal(c as nat),
        None => head,
    };
    if reason.len() == 0 {
        with_code
    } else {
        with_code + " reason="@ + config::debug_quoted(reason)
    }
}

fn describe_close(head: &str, code: Option<u16>, reason: &str) -> (message: String)
    ensures
        message@ == closed_message(head@, code, reason@),
{
    let mut message = head.to_owned();
    if let Some(c) = code {
        message.append(" code=");
        message.append(text::decimal_text(c as u128).as_str());
    }
    if reason.unicode_len() > 0 {
        message.append(" reason=");
        message.append(quote_debug(reason).as_str());
    }
    message
}

// ---------------------------------------------------------------------------
// Frames that are sent
// ---------------------------------------------------------------------------

/// A frame: for whom, what, with which payload, and the reference by which it is answered.
pub open spec fn frame_json(
    topic: Seq<char>,
    event: Seq<char>,
    payload: JsonView,
    reference: Seq<char>,
) -> JsonView {
    json::object_view().with_text("topic"@, topic).with_text("event"@, event).with(
        "payload"@,
        payload,
    ).with_text("ref"@, reference)
}

fn build_frame(topic: &str, event: &str, payload: Json, reference: &str) -> (frame: Json)
    ensures
        frame@ == frame_json(topic@, event@, payload@, reference@),
{
    empty_object().with_text("topic", topic).with_text("event", event).with(
        "payload",
        payload,
    ).with_text("ref", reference)
}

/// The request to join the stream of messages.
pub open spec fn join_json(
    agent_id: Seq<char>,
    session_token: Option<Seq<char>>,
    reference: Seq<char>,
) -> JsonView {
    frame_json(
        "firehose"@,
        "phx_join"@,
        json::object_view().with_text("agent_id"@, agent_id).with_text(
            "session_token"@,
            match session_token {
                Some(token) => token,
                None => Seq::empty(),
            },
        ),
        reference,
    )
}

/// The sign of life.
pub open spec fn heartbeat_json(reference: Seq<char>) -> JsonView {
    frame_json("phoenix"@, "heartbeat"@, json::object_view(), reference)
}

/// The sign of life.
pub fn heartbeat_frame(reference: &str) -> (frame: Json)
    ensures
        frame@ == heartbeat_json(reference@),
{
    build_frame("phoenix", "heartbeat", empty_object(), reference)
}

/// The request to post a message.
pub open spec fn post_json(
    text: Seq<char>,
    idempotency_key: Seq<char>,
    embeddings: JsonView,
    reference: Seq<char>,
) -> JsonView {
    frame_json(
        "firehose"@,
        "post_message"@,
        json::object_view().with_text("text"@, text).with_text(
            "idempotency_key"@,
            idempotency_key,
        ).with("embeddings"@, embeddings),
        reference,
    )
}

// ---------------------------------------------------------------------------
// Embeddings that come with a message
// ---------------------------------------------------------------------------

/// An embedding as it came over the wire.
#[derive(Debug, Clone)]
pub struct WireEmbedding {
    pub space_id: String,
    pub vector: Vec<JsonNumber>,
}

pub struct WireView {
    pub space_id: Seq<char>,
    pub vector: Seq<NumberView>,
}

pub open spec fn numbers(list: Seq<JsonNumber>) -> Seq<NumberView> {
    list.map_values(|n: JsonNumber| n@)
}

impl View for WireEmbedding {
    type V = WireView;

    open spec fn view(&self) -> WireView {
        WireView { space_id: self.space_id@, vector: numbers(self.vector@) }
    }
}

pub open spec fn wires(list: Seq<WireEmbedding>) -> Seq<WireView> {
    list.map_values(|e: WireEmbedding| e@)
}

/// The first of two, where it is there.
pub open spec fn first_of(a: Option<JsonView>, b: Option<JsonView>) -> Option<JsonView> {
    if a is Some {
        a
    } else {
        b
    }
}

/// The numbers among the items of an array.
pub open spec fn numbers_among(items: Seq<JsonView>) -> Seq<NumberView>
    decreases items.len(),
{
    if items.len() == 0 {
        Seq::empty()
    } else {
        match items.last() {
            JsonView::Number(n) => numbers_among(items.drop_last()).push(n),
            _ => numbers_among(items.drop_last()),
        }
    }
}

/// The embedding that a value stands for: it names a space and has at least one number.
pub open spec fn wire_embedding(value: JsonView) -> Option<WireView> {
    match first_of(value.member("space_id"@), value.member("spaceId"@)) {
        Some(JsonView::Text(raw)) => match value.items_member("vector"@) {
            Some(items) => if text::trimmed(raw).len() == 0 || numbers_among(items).len() == 0 {
                None
            } else {
                Some(WireView { space_id: text::trimmed(raw), vector: numbers_among(items) })
            },
            None => None,
        },
        _ => None,
    }
}

/// The embeddings among the items of an array.
pub open spec fn embeddings_among(items: Seq<JsonView>) -> Seq<WireView>
    decreases items.len(),
{
    if items.len() == 0 {
        Seq::empty()
    } else {
        match wire_embedding(items.last()) {
            Some(embedding) => embeddings_among(items.drop_last()).push(embedding),
            None => embeddings_among(items.drop_last()),
        }
    }
}

/// The embeddings that come with a message.
pub open spec fn embeddings_in(payload: JsonView) -> Seq<WireView> {
    match first_of(
        first_of(payload.member("supplied_embeddings"@), payload.member("suppliedEmbeddings"@)),
        payload.member("embeddings"@),
    ) {
        Some(JsonView::Array(items)) => embeddings_among(items),
        _ => Seq::empty(),
    }
}

fn copy_number(n: &JsonNumber) -> (copy: JsonNumber)
    ensures
        copy@ == n@,
{
    match n {
        JsonNumber::Unsigned(v) => JsonNumber::Unsigned(*v),
        JsonNumber::Negative(v) => JsonNumber::Negative(*v),
        JsonNumber::Notation(s) => JsonNumber::Notation(s.clone()),
    }
}

fn collect_numbers(items: &Vec<Json>) -> (list: Vec<JsonNumber>)
    ensures
        numbers(list@) == numbers_among(json::trees(items@)),
{
    let ghost all = json::trees(items@);
    let mut list: Vec<JsonNumber> = Vec::new();
    let mut i: usize = 0;
    assert(numbers(list@) =~= numbers_among(all.take(0)));
    while i < items.len()
        invariant
            i <= items.len(),
            all == json::trees(items@),
            numbers(list@) == numbers_among(all.take(i as int)),
        decreases items.len() - i,
    {
        assert(all.take(i + 1).drop_last() =~= all.take(i as int));
        assert(all.take(i + 1).last() == items@[i as int]@);
        if let Json::Number(n) = &items[i] {
            let ghost before = list@;
            list.push(copy_number(n));
            assert(numbers(list@) =~= numbers(before).push(n@));
        }
        i = i + 1;
    }
    assert(all.take(all.len() as int) =~= all);
    list
}

fn read_embedding(value: &Json) -> (embedding: Option<WireEmbedding>)
    ensures
        embedding is Some <==> wire_embedding(value@) is Some,
        embedding matches Some(e) ==> wire_embedding(value@) == Some(e@),
{
    let named = match value.get("space_id") {
        Some(member) => Some(member),
        None => value.get("spaceId"),
    };
    let raw = match named {
        Some(Json::Text(raw)) => raw,
        _ => return None,
    };
    let items = match value.get_items("vector") {
        Some(items) => items,
        None => return None,
    };
    let space_id = text::trim(raw.as_str());
    let vector = collect_numbers(items);
    assert(numbers(vector@).len() == vector@.len());
    if space_id.unicode_len() == 0 || vector.len() == 0 {
        return None;
    }
    Some(WireEmbedding { space_id: space_id.to_owned(), vector })
}

/// Reads the embeddings that come with a message. Where they stand under several keys, the first
/// key counts; what is no embedding is left out.
pub fn parse_message_embeddings(payload: &Json) -> (list: Vec<WireEmbedding>)
    ensures
        wires(list@) == embeddings_in(payload@),
{
    let mut list: Vec<WireEmbedding> = Vec::new();
    assert(wires(list@) =~= Seq::<WireView>::empty());
    let found = match payload.get("supplied_embeddings") {
        Some(member) => Some(member),
        None => match payload.get("suppliedEmbeddings") {
            Some(member) => Some(member),
            None => payload.get("embeddings"),
        },
    };
    let items = match found {
        Some(member) => match member.as_items() {
            Some(items) => items,
            None => return list,
        },
        None => return list,
    };
    let ghost all = json::trees(items@);
    let mut i: usize = 0;
    assert(embeddings_among(all.take(0)) =~= Seq::<WireView>::empty());
    while i < items.len()
        invariant
            i <= items.len(),
            all == json::trees(items@),
            wires(list@) == embeddings_among(all.take(i as int)),
        decreases items.len() - i,
    {
        assert(all.take(i + 1).drop_last() =~= all.take(i as int));
        assert(all.take(i + 1).last() == items@[i as int]@);
        if let Some(embedding) = read_embedding(&items[i]) {
            let ghost before = list@;
            let ghost seen = embedding@;
            list.push(embedding);
            assert(wires(list@) =~= wires(before).push(seen));
        }
        i = i + 1;
    }
    assert(all.take(all.len() as int) =~= all);
    list
}

// ---------------------------------------------------------------------------
// What a frame means
// ---------------------------------------------------------------------------

/// A message that is to be handled.
#[derive(Debug, Clone)]
pub struct InboundMessage {
    pub server: String,
    pub server_key: String,
    pub message_id: String,
    pub timestamp: String,
    pub event: String,
    pub author_id: String,
    pub author_name: String,
    pub text: String,
    pub embeddings: Vec<WireEmbedding>,
    pub wake_session_key_override: Option<String>,
}

pub struct InboundView {
    pub server: Seq<char>,
    pub server_key: Seq<char>,
    pub message_id: Seq<char>,
    pub timestamp: Seq<char>,
    pub event: Seq<char>,
    pub author_id: Seq<char>,
    pub author_name: Seq<char>,
    pub text: Seq<char>,
    pub embeddings: Seq<WireView>,
    pub wake_session_key_override: Option<Seq<char>>,
}

impl View for InboundMessage {
    type V = InboundView;

    open spec fn view(&self) -> InboundView {
        InboundView {
            server: self.server@,
            server_key: self.server_key@,
            message_id: self.message_id@,
            timestamp: self.timestamp@,
            event: self.event@,
            author_id: self.author_id@,
            author_name: self.author_name@,
            text: self.text@,
            embeddings: wires(self.embeddings@),
            wake_session_key_override: text::opt_text(self.wake_session_key_override),
        }
    }
}

impl InboundMessage {
    /// The envelope in which the message is queued. `sender_embeddings` are its embeddings, with
    /// their numbers in single precision.
    pub fn into_envelope(self, sender_embeddings: Vec<MessageEmbedding>) -> (envelope: WakeEnvelope)
        ensures
            envelope.server@ == self@.server,
            envelope.server_key@ == self@.server_key,
            envelope.message_id@ == self@.message_id,
            envelope.timestamp@ == self@.timestamp,
            envelope.inbound_event@ == self@.event,
            envelope.author_id@ == self@.author_id,
            envelope.author_name@ == self@.author_name,
            envelope.text@ == self@.text,
            layer::embeddings(envelope.sender_embeddings@) == layer::embeddings(
                sender_embeddings@,
            ),
            text::opt_text(envelope.wake_session_key_override) == self@.wake_session_key_override,
    {
        WakeEnvelope {
            server: self.server,
            server_key: self.server_key,
            message_id: self.message_id,
            timestamp: self.timestamp,
            inbound_event: self.event,
            author_id: self.author_id,
            author_name: self.author_name,
            text: self.text,
            sender_embeddings,
            wake_session_key_override: self.wake_session_key_override,
        }
    }
}

/// What a message of the stream comes to.
pub enum MessageReading {
    /// The daemon's own message.
    Own,
    /// It lacks an id or a timestamp.
    Malformed,
    Message(InboundView),
}

/// The payload of a frame.
pub open spec fn payload_of(frame: JsonView) -> JsonView {
    match frame.member("payload"@) {
        Some(payload) => payload,
        None => json::object_view(),
    }
}

/// What a message of the stream says.
pub open spec fn read_message(
    event: Seq<char>,
    payload: JsonView,
    agent_id: Seq<char>,
    server: ServerConfig,
) -> MessageReading {
    let none = Seq::<char>::empty();
    let author_id = payload.text_member_or("agentId"@, none);
    let message_id = payload.text_member_or("id"@, none);
    let timestamp = payload.text_member_or("ts"@, none);
    if author_id == agent_id {
        MessageReading::Own
    } else if message_id.len() == 0 || timestamp.len() == 0 {
        MessageReading::Malformed
    } else {
        MessageReading::Message(
            InboundView {
                server: server.base_url@,
                server_key: server.server_key@,
                message_id,
                timestamp,
                event,
                author_id,
                author_name: payload.text_member_or("agentName"@, author_id),
                text: payload.text_member_or("text"@, none),
                embeddings: embeddings_in(payload),
                wake_session_key_override: text::opt_text(server.wake_session_key),
            },
        )
    }
}

/// What the server says of a request.
pub struct ReplyView {
    pub ok: bool,
    pub response: JsonView,
}

/// What the server says of a request.
pub open spec fn reply_in(frame: JsonView) -> ReplyView {
    let payload = payload_of(frame);
    ReplyView {
        ok: payload.text_member("status"@) == Some("ok"@),
        response: match payload.member("response"@) {
            Some(response) => response,
            None => JsonView::Null,
        },
    }
}

/// The id that the server has given to a posted message.
pub open spec fn posted_id(response: JsonView) -> Option<Seq<char>> {
    match response.member("id"@) {
        Some(id) => id.text(),
        None => response.text_member("messageId"@),
    }
}

/// Whether the server no longer accepts the session's token.
pub open spec fn token_refused(error: Seq<char>) -> bool {
    error == "TOKEN_INVALID"@ || error == "TOKEN_REVOKED"@
}

fn is_token_refused(error: &str) -> (b: bool)
    ensures
        b == token_refused(error@),
{
    text::same_text(error, "TOKEN_INVALID") || text::same_text(error, "TOKEN_REVOKED")
}

// ---------------------------------------------------------------------------
// The course of a connection
// ---------------------------------------------------------------------------

/// How far a connection has come.
#[derive(Debug, Clone, Copy, PartialEq, Eq, Structural)]
pub enum ConnectionPhase {
    Joining,
    Live,
    Ended,
}

/// What a connection is told.
#[derive(Debug, Clone)]
pub enum ConnectionInput {
    /// The daemon is to stop.
    Shutdown,
    /// Nobody is left who could send anything.
    CommandsClosed,
    /// The server sends nothing more.
    StreamEnded,
    /// Nothing could be read, for this reason.
    ReadFailed(String),
    Message(WsMessage),
}

pub struct SentView {
    pub server: Seq<char>,
    pub subspace_message_id: Option<Seq<char>>,
    pub idempotency_key: Seq<char>,
}

/// A message that has been posted.
pub open spec fn sent_view(sent: OutboundSendResult) -> SentView {
    SentView {
        server: sent.server@,
        subspace_message_id: text::opt_text(sent.subspace_message_id),
        idempotency_key: sent.idempotency_key@,
    }
}

/// What is to be done next.
#[derive(Debug)]
pub enum ConnectionAction {
    /// Nothing.
    Wait,
    /// What came in has been dropped, for this reason.
    Dropped { problem: String },
    /// The connection is live, and what is remembered of failures has been cleared.
    GoLive,
    /// A message is to be queued.
    Offer { message: InboundMessage },
    /// A posted message has been answered; with `token_refused`, the session has changed too.
    Settle {
        reference: String,
        outcome: Result<OutboundSendResult, String>,
        token_refused: bool,
    },
    /// The connection is to be closed, and the daemon is done with it.
    Close,
    /// The connection has failed; with `token_refused`, the session has changed too.
    Fail { message: String, token_refused: bool },
}

pub enum ConnectionActionView {
    Wait,
    Dropped { problem: Seq<char> },
    GoLive,
    Offer { message: InboundView },
    Settle {
        reference: Seq<char>,
        outcome: Result<SentView, Seq<char>>,
        token_refused: bool,
    },
    Close,
    Fail { message: Seq<char>, token_refused: bool },
}

impl View for ConnectionAction {
    type V = ConnectionActionView;

    open spec fn view(&self) -> ConnectionActionView {
        match self {
            ConnectionAction::Wait => ConnectionActionView::Wait,
            ConnectionAction::Dropped { problem } => ConnectionActionView::Dropped {
                problem: problem@,
            },
            ConnectionAction::GoLive => ConnectionActionView::GoLive,
            ConnectionAction::Offer { message } => ConnectionActionView::Offer {
                message: message@,
            },
            ConnectionAction::Settle { reference, outcome, token_refused } => {
                ConnectionActionView::Settle {
                    reference: reference@,
                    outcome: match outcome {
                        Ok(sent) => Ok(sent_view(*sent)),
                        Err(message) => Err(message@),
                    },
                    token_refused: *token_refused,
                }
            },
            ConnectionAction::Close => ConnectionActionView::Close,
            ConnectionAction::Fail { message, token_refused } => ConnectionActionView::Fail {
                message: message@,
                token_refused: *token_refused,
            },
        }
    }
}

pub struct ConnectionView {
    pub join_ref: Seq<char>,
    pub phase: ConnectionPhase,
    /// The posted messages without an answer: their references and their idempotency keys.
    pub pending: Map<Seq<char>, Seq<char>>,
}

pub open spec fn failed(message: Seq<char>) -> ConnectionActionView {
    ConnectionActionView::Fail { message, token_refused: false }
}

/// What is done with a frame while the daemon joins.
pub open spec fn join_frame_action(join_ref: Seq<char>, text: Seq<char>) -> ConnectionActionView {
    match json::parsed_json(text) {
        Err(message) => failed(message),
        Ok(frame) => if frame.text_member("event"@) == Some("phx_reply"@) && frame.text_member(
            "ref"@,
        ) == Some(join_ref) {
            let reply = reply_in(frame);
            let error = reply.response.text_member_or("error"@, "join_failed"@);
            if reply.ok {
                ConnectionActionView::GoLive
            } else {
                ConnectionActionView::Fail {
                    message: "subspace join failed: "@ + error,
                    token_refused: token_refused(error),
                }
            }
        } else {
            ConnectionActionView::Wait
        },
    }
}

/// What is done with the answer to a posted message.
pub open spec fn reply_action(
    reference: Seq<char>,
    idempotency_key: Seq<char>,
    frame: JsonView,
    server: ServerConfig,
) -> ConnectionActionView {
    let reply = reply_in(frame);
    let error = reply.response.text_member_or("error"@, "send_failed"@);
    if reply.ok {
        ConnectionActionView::Settle {
            reference,
            outcome: Ok(
                SentView {
                    server: server.base_url@,
                    subspace_message_id: posted_id(reply.response),
                    idempotency_key,
                },
            ),
            token_refused: false,
        }
    } else {
        ConnectionActionView::Settle {
            reference,
            outcome: Err(error),
            token_refused: token_refused(error),
        }
    }
}

/// What is done with a frame on a live connection.
pub open spec fn live_frame_action(
    pending: Map<Seq<char>, Seq<char>>,
    text: Seq<char>,
    agent_id: Seq<char>,
    runtime: RuntimeView,
    server: ServerConfig,
) -> ConnectionActionView {
    match json::parsed_json(text) {
        Err(message) => ConnectionActionView::Dropped { problem: message },
        Ok(frame) => if frame.text_member("topic"@) != Some("firehose"@) {
            ConnectionActionView::Wait
        } else {
            let event = frame.text_member_or("event"@, Seq::empty());
            if event == "new_message"@ || event == "replay_message"@ {
                match read_message(event, payload_of(frame), agent_id, server) {
                    MessageReading::Own => ConnectionActionView::Wait,
                    MessageReading::Malformed => ConnectionActionView::Dropped {
                        problem: "dropping malformed new_message payload"@,
                    },
                    MessageReading::Message(message) => if runtime_store::takes_up(
                        runtime,
                        message.message_id,
                        message.timestamp,
                    ) {
                        ConnectionActionView::Offer { message }
                    } else {
                        ConnectionActionView::Wait
                    },
                }
            } else if event == "phx_reply"@ {
                match frame.text_member("ref"@) {
                    Some(reference) => if pending.dom().contains(reference) {
                        reply_action(reference, pending[reference], frame, server)
                    } else {
                        ConnectionActionView::Wait
                    },
                    None => ConnectionActionView::Wait,
                }
            } else {
                ConnectionActionView::Wait
            }
        },
    }
}

/// What is done while the daemon joins.
pub open spec fn join_action(join_ref: Seq<char>, input: ConnectionInput) -> ConnectionActionView {
    match input {
        ConnectionInput::Shutdown => ConnectionActionView::Close,
        ConnectionInput::CommandsClosed => ConnectionActionView::Wait,
        ConnectionInput::StreamEnded => failed("subspace closed during join"@),
        ConnectionInput::ReadFailed(message) => failed(message@),
        ConnectionInput::Message(message) => match frame_of(message) {
            Err(problem) => failed(problem),
            Ok(WsFrameView::Ignore) => ConnectionActionView::Wait,
            Ok(WsFrameView::Closed { code, reason }) => failed(
                closed_message("subspace websocket closed during join"@, code, reason),
            ),
            Ok(WsFrameView::Text(text)) => join_frame_action(join_ref, text),
        },
    }
}

/// What is done on a live connection.
pub open spec fn live_action(
    pending: Map<Seq<char>, Seq<char>>,
    input: ConnectionInput,
    agent_id: Seq<char>,
    runtime: RuntimeView,
    server: ServerConfig,
) -> ConnectionActionView {
    match input {
        ConnectionInput::Shutdown => ConnectionActionView::Close,
        ConnectionInput::CommandsClosed => ConnectionActionView::Close,
        ConnectionInput::StreamEnded => failed("subspace websocket closed"@),
        ConnectionInput::ReadFailed(message) => failed(message@),
        ConnectionInput::Message(message) => match frame_of(message) {
            Err(problem) => failed(problem),
            Ok(WsFrameView::Ignore) => ConnectionActionView::Wait,
            Ok(WsFrameView::Closed { code, reason }) => failed(
                closed_message("subspace websocket closed"@, code, reason),
            ),
            Ok(WsFrameView::Text(text)) => live_frame_action(
                pending,
                text,
                agent_id,
                runtime,
                server,
            ),
        },
    }
}

/// What a connection does when it is told something.
pub open spec fn connection_action(
    connection: ConnectionView,
    input: ConnectionInput,
    agent_id: Seq<char>,
    runtime: RuntimeView,
    server: ServerConfig,
) -> ConnectionActionView {
    match connection.phase {
        ConnectionPhase::Joining => join_action(connection.join_ref, input),
        ConnectionPhase::Live => live_action(connection.pending, input, agent_id, runtime, server),
        ConnectionPhase::Ended => ConnectionActionView::Wait,
    }
}

/// A connection that has done something.
pub open spec fn connection_after(
    connection: ConnectionView,
    action: ConnectionActionView,
) -> ConnectionView {
    match action {
        ConnectionActionView::GoLive => ConnectionView {
            phase: ConnectionPhase::Live,
            ..connection
        },
        ConnectionActionView::Settle { reference, .. } => ConnectionView {
            pending: connection.pending.remove(reference),
            ..connection
        },
        ConnectionActionView::Close => ConnectionView {
            phase: ConnectionPhase::Ended,
            ..connection
        },
        ConnectionActionView::Fail { .. } => ConnectionView {
            phase: ConnectionPhase::Ended,
            ..connection
        },
        _ => connection,
    }
}

/// Whether the session's token has been refused.
pub open spec fn refuses_token(action: ConnectionActionView) -> bool {
    match action {
        ConnectionActionView::Settle { token_refused, .. } => token_refused,
        ConnectionActionView::Fail { token_refused, .. } => token_refused,
        _ => false,
    }
}

/// The session after an action: a token that was refused is forgotten.
pub open spec fn session_after(session: ActiveView, action: ConnectionActionView) -> ActiveView {
    if refuses_token(action) {
        session.with_token(None)
    } else {
        session
    }
}

/// The runtime state after an action: going live clears the failures, and a message that is
/// offered counts as being handled.
pub open spec fn runtime_after(runtime: RuntimeView, action: ConnectionActionView) -> RuntimeView {
    match action {
        ConnectionActionView::GoLive => RuntimeView {
            storm: runtime_store::calm(),
            failures_since: None,
            ..runtime
        },
        ConnectionActionView::Offer { message } => runtime_store::after_offer(
            runtime,
            message.message_id,
            message.timestamp,
        ),
        _ => runtime,
    }
}

/// A connection to a server.
#[derive(Debug)]
pub struct ServerConnection {
    join_ref: String,
    phase: ConnectionPhase,
    pending: SortedMap<String>,
}

impl View for ServerConnection {
    type V = ConnectionView;

    closed spec fn view(&self) -> ConnectionView {
        ConnectionView {
            join_ref: self.join_ref@,
            phase: self.phase,
            pending: self.pending@.map_values(|key: String| key@),
        }
    }
}

fn fail(message: String) -> (action: ConnectionAction)
    ensures
        action@ == failed(message@),
{
    ConnectionAction::Fail { message, token_refused: false }
}

fn on_join_frame(join_ref: &str, text: &str) -> (action: ConnectionAction)
    ensures
        action@ == join_frame_action(join_ref@, text@),
{
    let frame = match parse_json(text) {
        Ok(frame) => frame,
        Err(message) => return fail(message),
    };
    if !(frame.has_text("event", "phx_reply") && frame.has_text("ref", join_ref)) {
        return ConnectionAction::Wait;
    }
    let reply = read_reply(&frame);
    if reply.ok {
        return ConnectionAction::GoLive;
    }
    let error = match reply.response {
        Some(response) => response.get_text_or("error", "join_failed"),
        None => "join_failed",
    };
    let mut message = "subspace join failed: ".to_owned();
    message.append(error);
    ConnectionAction::Fail { message, token_refused: is_token_refused(error) }
}

struct Reply<'a> {
    ok: bool,
    response: Option<&'a Json>,
}

fn read_reply<'a>(frame: &'a Json) -> (reply: Reply<'a>)
    ensures
        reply.ok == reply_in(frame@).ok,
        reply_in(frame@).response == match reply.response {
            Some(response) => response@,
            None => JsonView::Null,
        },
{
    match frame.get("payload") {
        Some(payload) => Reply {
            ok: payload.has_text("status", "ok"),
            response: payload.get("response"),
        },
        None => {
            assert(json::object_view().member("status"@) is None);
            assert(json::object_view().member("response"@) is None);
            Reply { ok: false, response: None }
        },
    }
}

impl ServerConnection {
    pub closed spec fn wf(&self) -> bool {
        self.pending.wf()
    }

    /// A connection on which nothing has happened yet.
    pub fn new(join_ref: String) -> (connection: Self)
        ensures
            connection.wf(),
            connection@ == (ConnectionView {
                join_ref: join_ref@,
                phase: ConnectionPhase::Joining,
                pending: Map::empty(),
            }),
    {
        let connection = ServerConnection {
            join_ref,
            phase: ConnectionPhase::Joining,
            pending: SortedMap::new(),
        };
        assert(connection@.pending =~= Map::<Seq<char>, Seq<char>>::empty());
        connection
    }

    /// How far the connection has come.
    pub fn phase(&self) -> (phase: ConnectionPhase)
        ensures
            phase == self@.phase,
    {
        self.phase
    }

    /// The request to join the stream of messages.
    pub fn join_frame(&self, session: &ActiveSession) -> (frame: Json)
        ensures
            frame@ == join_json(session@.agent_id(), session@.session_token(), self@.join_ref),
    {
        proof {
            reveal_strlit("");
            assert(""@ == Seq::<char>::empty());
        }
        let token = match session.session_token() {
            Some(token) => token,
            None => "",
        };
        build_frame(
            "firehose",
            "phx_join",
            empty_object().with_text("agent_id", session.agent_id()).with_text(
                "session_token",
                token,
            ),
            self.join_ref.as_str(),
        )
    }

    /// Posts a message; its answer will come under the given reference.
    pub fn post(
        &mut self,
        reference: &str,
        text: &str,
        idempotency_key: &str,
        embeddings: Json,
    ) -> (frame: Json)
        requires
            old(self).wf(),
            old(self)@.phase == ConnectionPhase::Live,
        ensures
            final(self).wf(),
            final(self)@ == (ConnectionView {
                pending: old(self)@.pending.insert(reference@, idempotency_key@),
                ..old(self)@
            }),
            frame@ == post_json(text@, idempotency_key@, embeddings@, reference@),
    {
        self.pending.insert(reference.to_owned(), idempotency_key.to_owned());
        assert(self@.pending =~= old(self)@.pending.insert(reference@, idempotency_key@));
        build_frame(
            "firehose",
            "post_message",
            empty_object().with_text("text", text).with_text(
                "idempotency_key",
                idempotency_key,
            ).with("embeddings", embeddings),
            reference,
        )
    }

    /// Tells the connection something; it says what is to be done.
    pub fn advance(
        &mut self,
        input: ConnectionInput,
        session: &mut ActiveSession,
        runtime: &mut RuntimeStore,
        server: &ServerConfig,
    ) -> (action: ConnectionAction)
        requires
            old(self).wf(),
            old(session).wf(),
            old(runtime).wf(),
        ensures
            final(self).wf(),
            final(session).wf(),
            final(runtime).wf(),
            action@ == connection_action(
                old(self)@,
                input,
                old(session)@.agent_id(),
                old(runtime)@,
                *server,
            ),
            final(self)@ == connection_after(old(self)@, action@),
            final(session)@ == session_after(old(session)@, action@),
            final(runtime)@ == runtime_after(old(runtime)@, action@),
    {
        let action = match self.phase {
            ConnectionPhase::Joining => self.on_join(input),
            ConnectionPhase::Live => self.on_live(input, session.agent_id(), runtime, server),
            ConnectionPhase::Ended => ConnectionAction::Wait,
        };
        match &action {
            ConnectionAction::GoLive => {
                self.phase = ConnectionPhase::Live;
                runtime.clear_reconnect_storm();
            },
            ConnectionAction::Settle { token_refused, .. } => {
                if *token_refused {
                    session.clear_session_token();
                }
            },
            ConnectionAction::Close => {
                self.phase = ConnectionPhase::Ended;
            },
            ConnectionAction::Fail { token_refused, .. } => {
                self.phase = ConnectionPhase::Ended;
                if *token_refused {
                    session.clear_session_token();
                }
            },
            _ => {},
        }
        action
    }

    fn on_join(&self, input: ConnectionInput) -> (action: ConnectionAction)
        ensures
            action@ == join_action(self@.join_ref, input),
    {
        match input {
            ConnectionInput::Shutdown => ConnectionAction::Close,
            ConnectionInput::CommandsClosed => ConnectionAction::Wait,
            ConnectionInput::StreamEnded => fail("subspace closed during join".to_owned()),
            ConnectionInput::ReadFailed(message) => fail(message),
            ConnectionInput::Message(message) => match ws_text(message) {
                Err(f) => fail(f.message),
                Ok(WsFrame::Ignore) => ConnectionAction::Wait,
                Ok(WsFrame::Closed { code, reason }) => fail(
                    describe_close("subspace websocket closed during join", code, reason.as_str()),
                ),
                Ok(WsFrame::Text(text)) => on_join_frame(self.join_ref.as_str(), text.as_str()),
            },
        }
    }

    fn on_live(
        &mut self,
        input: ConnectionInput,
        agent_id: &str,
        runtime: &mut RuntimeStore,
        server: &ServerConfig,
    ) -> (action: ConnectionAction)
        requires
            old(self).wf(),
            old(runtime).wf(),
        ensures
            final(self).wf(),
            final(runtime).wf(),
            action@ == live_action(
                old(self)@.pending,
                input,
                agent_id@,
                old(runtime)@,
                *server,
            ),
            final(self)@ == (ConnectionView {
                pending: connection_after(old(self)@, action@).pending,
                ..old(self)@
            }),
            final(runtime)@ == runtime_after(old(runtime)@, action@),
            !(action@ is GoLive),
    {
        match input {
            ConnectionInput::Shutdown => ConnectionAction::Close,
            ConnectionInput::CommandsClosed => ConnectionAction::Close,
            ConnectionInput::StreamEnded => fail("subspace websocket closed".to_owned()),
            ConnectionInput::ReadFailed(message) => fail(message),
            ConnectionInput::Message(message) => match ws_text(message) {
                Err(f) => fail(f.message),
                Ok(WsFrame::Ignore) => ConnectionAction::Wait,
                Ok(WsFrame::Closed { code, reason }) => fail(
                    describe_close("subspace websocket closed", code, reason.as_str()),
                ),
                Ok(WsFrame::Text(text)) => self.on_live_frame(
                    text.as_str(),
                    agent_id,
                    runtime,
                    server,
                ),
            },
        }
    }

    fn on_live_frame(
        &mut self,
        text: &str,
        agent_id: &str,
        runtime: &mut RuntimeStore,
        server: &ServerConfig,
    ) -> (action: ConnectionAction)
        requires
            old(self).wf(),
            old(runtime).wf(),
        ensures
            final(self).wf(),
            final(runtime).wf(),
            action@ == live_frame_action(
                old(self)@.pending,
                text@,
                agent_id@,
                old(runtime)@,
                *server,
            ),
            final(self)@ == (ConnectionView {
                pending: connection_after(old(self)@, action@).pending,
                ..old(self)@
            }),
            final(runtime)@ == runtime_after(old(runtime)@, action@),
            !(action@ is GoLive),
    {
        let frame = match parse_json(text) {
            Ok(frame) => frame,
            Err(problem) => return ConnectionAction::Dropped { problem },
        };
        if !frame.has_text("topic", "firehose") {
            return ConnectionAction::Wait;
        }
        proof {
            reveal_strlit("");
            assert(""@ == Seq::<char>::empty());
        }
        let event = frame.get_text_or("event", "");
        if text::same_text(event, "new_message") || text::same_text(event, "replay_message") {
            return on_message(event, &frame, agent_id, runtime, server);
        }
        if !text::same_text(event, "phx_reply") {
            return ConnectionAction::Wait;
        }
        let reference = match frame.get_text("ref") {
            Some(reference) => reference,
            None => return ConnectionAction::Wait,
        };
        let idempotency_key = match self.pending.remove(reference) {
            Some(key) => key,
            None => {
                assert(self@.pending =~= old(self)@.pending);
                return ConnectionAction::Wait;
            },
        };
        assert(self@.pending =~= old(self)@.pending.remove(reference@));
        on_reply(reference, idempotency_key, &frame, server)
    }

    /// Gives up a message that the queue did not take: the daemon drops the connection, and the
    /// server will replay the message. `closed` says that the queue will take nothing more.
    pub fn queue_refused(
        &mut self,
        message_id: &str,
        closed: bool,
        runtime: &mut RuntimeStore,
    ) -> (action: ConnectionAction)
        requires
            old(self).wf(),
            old(runtime).wf(),
        ensures
            final(self).wf(),
            final(runtime).wf(),
            action@ == failed(
                if closed {
                    "wake queue closed"@
                } else {
                    "wake queue full"@
                },
            ),
            final(self)@ == connection_after(old(self)@, action@),
            final(runtime)@ == runtime_store::after_abandon(old(runtime)@, message_id@),
    {
        runtime.mark_failed(message_id);
        self.phase = ConnectionPhase::Ended;
        if closed {
            fail("wake queue closed".to_owned())
        } else {
            fail("wake queue full".to_owned())
        }
    }
}

fn on_message(
    event: &str,
    frame: &Json,
    agent_id: &str,
    runtime: &mut RuntimeStore,
    server: &ServerConfig,
) -> (action: ConnectionAction)
    requires
        old(runtime).wf(),
    ensures
        final(runtime).wf(),
        action@ == match read_message(event@, payload_of(frame@), agent_id@, *server) {
            MessageReading::Own => ConnectionActionView::Wait,
            MessageReading::Malformed => ConnectionActionView::Dropped {
                problem: "dropping malformed new_message payload"@,
            },
            MessageReading::Message(message) => if runtime_store::takes_up(
                old(runtime)@,
                message.message_id,
                message.timestamp,
            ) {
                ConnectionActionView::Offer { message }
            } else {
                ConnectionActionView::Wait
            },
        },
        final(runtime)@ == runtime_after(old(runtime)@, action@),
        action@ is Wait || action@ is Dropped || action@ is Offer,
{
    proof {
        reveal_strlit("");
        assert(""@ == Seq::<char>::empty());
    }
    let blank = empty_object();
    let payload = match frame.get("payload") {
        Some(payload) => payload,
        None => &blank,
    };
    let author_id = payload.get_text_or("agentId", "");
    if text::same_text(author_id, agent_id) {
        return ConnectionAction::Wait;
    }
    let message_id = payload.get_text_or("id", "");
    let timestamp = payload.get_text_or("ts", "");
    if message_id.unicode_len() == 0 || timestamp.unicode_len() == 0 {
        return ConnectionAction::Dropped {
            problem: "dropping malformed new_message payload".to_owned(),
        };
    }
    if !runtime.should_enqueue(message_id, timestamp) {
        return ConnectionAction::Wait;
    }
    ConnectionAction::Offer {
        message: InboundMessage {
            server: server.base_url.clone(),
            server_key: server.server_key.clone(),
            message_id: message_id.to_owned(),
            timestamp: timestamp.to_owned(),
            event: event.to_owned(),
            author_id: author_id.to_owned(),
            author_name: payload.get_text_or("agentName", author_id).to_owned(),
            text: payload.get_text_or("text", "").to_owned(),
            embeddings: parse_message_embeddings(payload),
            wake_session_key_override: text::copy_opt(&server.wake_session_key),
        },
    }
}

fn on_reply(
    reference: &str,
    idempotency_key: String,
    frame: &Json,
    server: &ServerConfig,
) -> (action: ConnectionAction)
    ensures
        action@ == reply_action(reference@, idempotency_key@, frame@, *server),
{
    let reply = read_reply(frame);
    if reply.ok {
        let subspace_message_id = match reply.response {
            Some(response) => match response.get("id") {
                Some(id) => match id.as_text() {
                    Some(id) => Some(id.to_owned()),
                    None => None,
                },
                None => match response.get_text("messageId") {
                    Some(id) => Some(id.to_owned()),
                    None => None,
                },
            },
            None => None,
        };
        return ConnectionAction::Settle {
            reference: reference.to_owned(),
            outcome: Ok(
                OutboundSendResult {
                    server: server.base_url.clone(),
                    subspace_message_id,
                    idempotency_key,
                },
            ),
            token_refused: false,
        };
    }
    let error = match reply.response {
        Some(response) => response.get_text_or("error", "send_failed"),
        None => "send_failed",
    };
    ConnectionAction::Settle {
        reference: reference.to_owned(),
        outcome: Err(error.to_owned()),
        token_refused: is_token_refused(error),
    }
}

// ---------------------------------------------------------------------------
// Laws
// ---------------------------------------------------------------------------

/// The daemon takes up nothing that it has posted itself.
pub proof fn law_own_messages_are_ignored(
    connection: ConnectionView,
    input: ConnectionInput,
    agent_id: Seq<char>,
    runtime: RuntimeView,
    server: ServerConfig,
)
    ensures
        connection_action(connection, input, agent_id, runtime, server) matches
            ConnectionActionView::Offer { message } ==> message.author_id != agent_id,
{
}

/// A message that is offered has an id and a timestamp, and was not taken up before.
pub proof fn law_offered_messages_are_new(
    connection: ConnectionView,
    input: ConnectionInput,
    agent_id: Seq<char>,
    runtime: RuntimeView,
    server: ServerConfig,
)
    ensures
        connection_action(connection, input, agent_id, runtime, server) matches
            ConnectionActionView::Offer { message } ==> message.message_id.len() > 0
            && message.timestamp.len() > 0 && runtime_store::takes_up(
            runtime,
            message.message_id,
            message.timestamp,
        ),
{
}

/// A message that comes in twice is offered once: until it has been given up, the same frame
/// brings nothing. Once it has been given up, the same frame offers it again.
pub proof fn law_repeated_message_is_offered_once(
    connection: ConnectionView,
    input: ConnectionInput,
    agent_id: Seq<char>,
    runtime: RuntimeView,
    server: ServerConfig,
    message: InboundView,
)
    requires
        connection_action(connection, input, agent_id, runtime, server) == (
        ConnectionActionView::Offer { message }),
    ensures
        connection_action(
            connection,
            input,
            agent_id,
            runtime_after(runtime, ConnectionActionView::Offer { message }),
            server,
        ) == ConnectionActionView::Wait,
        connection_action(
            connection,
            input,
            agent_id,
            runtime_store::after_abandon(
                runtime_after(runtime, ConnectionActionView::Offer { message }),
                message.message_id,
            ),
            server,
        ) == (ConnectionActionView::Offer { message }),
{
    runtime_store::law_abandon_undoes_offer(runtime, message.message_id, message.timestamp);
}

/// A posted message is answered at most once, and no other is answered with it.
pub proof fn law_post_is_answered_once(
    connection: ConnectionView,
    input: ConnectionInput,
    agent_id: Seq<char>,
    runtime: RuntimeView,
    server: ServerConfig,
    later: ConnectionInput,
)
    requires
        connection_action(connection, input, agent_id, runtime, server) is Settle,
    ensures
        ({
            let action = connection_action(connection, input, agent_id, runtime, server);
            let after = connection_after(connection, action);
            &&& connection.pending.dom().contains(action->Settle_reference)
            &&& !after.pending.dom().contains(action->Settle_reference)
            &&& connection_action(after, later, agent_id, runtime, server) matches
                ConnectionActionView::Settle { reference, .. } ==> reference
                != action->Settle_reference
            &&& forall|other: Seq<char>|
                other != action->Settle_reference && connection.pending.dom().contains(other)
                    ==> #[trigger] after.pending.dom().contains(other)
        }),
{
}

/// What the server answers under an idempotency key is handed to whoever posted under that key.
pub proof fn law_answer_keeps_the_idempotency_key(
    connection: ConnectionView,
    input: ConnectionInput,
    agent_id: Seq<char>,
    runtime: RuntimeView,
    server: ServerConfig,
)
    ensures
        connection_action(connection, input, agent_id, runtime, server) matches
            ConnectionActionView::Settle { reference, outcome: Ok(sent), .. }
            ==> sent.idempotency_key == connection.pending[reference] && sent.server
            == server.base_url@,
{
}

/// A text that is no JSON ends no live connection and changes nothing.
pub proof fn law_malformed_input_is_dropped(
    connection: ConnectionView,
    text: String,
    agent_id: Seq<char>,
    runtime: RuntimeView,
    server: ServerConfig,
)
    requires
        connection.phase == ConnectionPhase::Live,
        json::parsed_json(text@) is Err,
    ensures
        ({
            let action = connection_action(
                connection,
                ConnectionInput::Message(WsMessage::Text(text)),
                agent_id,
                runtime,
                server,
            );
            &&& action is Dropped
            &&& connection_after(connection, action) == connection
            &&& runtime_after(runtime, action) == runtime
            &&& forall|session: ActiveView| #[trigger] session_after(session, action) == session
        }),
{
}

/// A token that the server refuses is forgotten, and only such a token is.
pub proof fn law_refused_token_is_forgotten(session: ActiveView, action: ConnectionActionView)
    ensures
        refuses_token(action) ==> session_after(session, action).session_token() is None,
        !refuses_token(action) ==> session_after(session, action) == session,
        session_after(session, action).agent_id() == session.agent_id(),
        session_after(session, action).secret() == session.secret(),
{
}

/// All numbers among the items of an array are read, in their order, and nothing else is.
pub proof fn law_every_number_is_read(items: Seq<JsonView>)
    ensures
        exists|at: Seq<int>|
            #[trigger] lists::places(at, items.len() as int) && at.len() == numbers_among(
                items,
            ).len() && (forall|k: int|
                0 <= k < at.len() ==> items[#[trigger] at[k]] == JsonView::Number(
                    numbers_among(items)[k],
                )) && (forall|i: int|
                0 <= i < items.len() && (#[trigger] items[i]) is Number ==> at.contains(i)),
    decreases items.len(),
{
    if items.len() == 0 {
        assert(lists::places(Seq::<int>::empty(), 0));
    } else {
        let rest = items.drop_last();
        let n = rest.len() as int;
        law_every_number_is_read(rest);
        let at = choose|at: Seq<int>|
            #[trigger] lists::places(at, rest.len() as int) && at.len() == numbers_among(
                rest,
            ).len() && (forall|k: int|
                0 <= k < at.len() ==> rest[#[trigger] at[k]] == JsonView::Number(
                    numbers_among(rest)[k],
                )) && (forall|i: int|
                0 <= i < rest.len() && (#[trigger] rest[i]) is Number ==> at.contains(i));
        lists::lemma_places_grow(at, n);
        let now = if items.last() is Number {
            at.push(n)
        } else {
            at
        };
        assert(lists::places(now, items.len() as int));
        assert forall|k: int| 0 <= k < now.len() implies items[#[trigger] now[k]]
            == JsonView::Number(numbers_among(items)[k]) by {
            if k < at.len() {
                assert(now[k] == at[k]);
                assert(items[at[k]] == rest[at[k]]);
            }
        }
        assert forall|i: int| 0 <= i < items.len() && (#[trigger] items[i]) is Number implies now.contains(
            i,
        ) by {
            if i < n {
                assert(rest[i] is Number);
                let k = choose|k: int| 0 <= k < at.len() && at[k] == i;
                assert(now[k] == i);
            } else {
                assert(now[at.len() as int] == i);
            }
        }
    }
}

/// All embeddings among the items of an array are read, in their order, and nothing else is.
pub proof fn law_every_embedding_is_read(items: Seq<JsonView>)
    ensures
        exists|at: Seq<int>|
            #[trigger] lists::places(at, items.len() as int) && at.len() == embeddings_among(
                items,
            ).len() && (forall|k: int|
                0 <= k < at.len() ==> wire_embedding(items[#[trigger] at[k]]) == Some(
                    embeddings_among(items)[k],
                )) && (forall|i: int|
                0 <= i < items.len() && wire_embedding(#[trigger] items[i]) is Some ==> at.contains(
                    i,
                )),
    decreases items.len(),
{
    if items.len() == 0 {
        assert(lists::places(Seq::<int>::empty(), 0));
    } else {
        let rest = items.drop_last();
        let n = rest.len() as int;
        law_every_embedding_is_read(rest);
        let at = choose|at: Seq<int>|
            #[trigger] lists::places(at, rest.len() as int) && at.len() == embeddings_among(
                rest,
            ).len() && (forall|k: int|
                0 <= k < at.len() ==> wire_embedding(rest[#[trigger] at[k]]) == Some(
                    embeddings_among(rest)[k],
                )) && (forall|i: int|
                0 <= i < rest.len() && wire_embedding(#[trigger] rest[i]) is Some ==> at.contains(
                    i,
                ));
        lists::lemma_places_grow(at, n);
        let now = if wire_embedding(items.last()) is Some {
            at.push(n)
        } else {
            at
        };
        assert(lists::places(now, items.len() as int));
        assert forall|k: int| 0 <= k < now.len() implies wire_embedding(items[#[trigger] now[k]])
            == Some(embeddings_among(items)[k]) by {
            if k < at.len() {
                assert(now[k] == at[k]);
                assert(items[at[k]] == rest[at[k]]);
            }
        }
        assert forall|i: int|
            0 <= i < items.len() && wire_embedding(#[trigger] items[i]) is Some implies now.contains(
            i,
        ) by {
            if i < n {
                assert(wire_embedding(rest[i]) is Some);
                let k = choose|k: int| 0 <= k < at.len() && at[k] == i;
                assert(now[k] == i);
            } else {
                assert(now[at.len() as int] == i);
            }
        }
    }
}

/// A value that names a space and has numbers is an embedding in that space, with all these numbers
/// in their order. One without a space, without an array or without a number is none.
pub proof fn law_embedding_has_its_space_and_its_numbers(value: JsonView, raw: Seq<char>, items: Seq<JsonView>)
    requires
        value.text_member("space_id"@) == Some(raw) || (value.member("space_id"@) is None
            && value.text_member("spaceId"@) == Some(raw)),
        value.items_member("vector"@) == Some(items),
    ensures
        wire_embedding(value) is Some <==> text::trimmed(raw).len() > 0 && exists|i: int|
            0 <= i < items.len() && (#[trigger] items[i]) is Number,
        wire_embedding(value) matches Some(embedding) ==> embedding.space_id == text::trimmed(raw)
            && exists|at: Seq<int>|
            #[trigger] lists::places(at, items.len() as int) && at.len() == embedding.vector.len()
                && (forall|k: int|
                0 <= k < at.len() ==> items[#[trigger] at[k]] == JsonView::Number(
                    embedding.vector[k],
                )) && (forall|i: int|
                0 <= i < items.len() && (#[trigger] items[i]) is Number ==> at.contains(i)),
{
    law_every_number_is_read(items);
    let at = choose|at: Seq<int>|
        #[trigger] lists::places(at, items.len() as int) && at.len() == numbers_among(items).len()
            && (forall|k: int|
            0 <= k < at.len() ==> items[#[trigger] at[k]] == JsonView::Number(
                numbers_among(items)[k],
            )) && (forall|i: int|
            0 <= i < items.len() && (#[trigger] items[i]) is Number ==> at.contains(i));
    if at.len() > 0 {
        assert(items[at[0]] is Number);
    }
}

/// The embeddings of a message stand under the first of three keys that it has.
pub proof fn law_embeddings_stand_under_the_first_key(payload: JsonView, items: Seq<JsonView>)
    ensures
        payload.member("supplied_embeddings"@) == Some(JsonView::Array(items)) ==> embeddings_in(
            payload,
        ) == embeddings_among(items),
        payload.member("supplied_embeddings"@) is None && payload.member("suppliedEmbeddings"@)
            == Some(JsonView::Array(items)) ==> embeddings_in(payload) == embeddings_among(items),
        payload.member("supplied_embeddings"@) is None && payload.member("suppliedEmbeddings"@)
            is None && payload.member("embeddings"@) == Some(JsonView::Array(items))
            ==> embeddings_in(payload) == embeddings_among(items),
        payload.member("supplied_embeddings"@) is None && payload.member("suppliedEmbeddings"@)
            is None && payload.member("embeddings"@) is None ==> embeddings_in(payload).len() == 0,
{
}

/// A message of somebody else that has an id and a timestamp and is to be taken up is offered, with
/// everything that it says.
pub proof fn law_message_is_offered_in_full(
    connection: ConnectionView,
    text: String,
    frame: JsonView,
    payload: JsonView,
    event: Seq<char>,
    agent_id: Seq<char>,
    runtime: RuntimeView,
    server: ServerConfig,
    id: Seq<char>,
    ts: Seq<char>,
    author: Seq<char>,
)
    requires
        connection.phase == ConnectionPhase::Live,
        json::parsed_json(text@) == Ok::<JsonView, Seq<char>>(frame),
        frame.text_member("topic"@) == Some("firehose"@),
        frame.text_member("event"@) == Some(event),
        event == "new_message"@ || event == "replay_message"@,
        frame.member("payload"@) == Some(payload),
        payload.text_member("id"@) == Some(id),
        id.len() > 0,
        payload.text_member("ts"@) == Some(ts),
        ts.len() > 0,
        payload.text_member("agentId"@) == Some(author),
        author != agent_id,
        runtime_store::takes_up(runtime, id, ts),
    ensures
        connection_action(
            connection,
            ConnectionInput::Message(WsMessage::Text(text)),
            agent_id,
            runtime,
            server,
        ) matches ConnectionActionView::Offer { message } && message.message_id == id
            && message.timestamp == ts && message.author_id == author && message.event == event
            && message.server == server.base_url@ && message.server_key == server.server_key@
            && message.wake_session_key_override == text::opt_text(server.wake_session_key)
            && message.embeddings == embeddings_in(payload) && (payload.text_member(
            "text"@,
        ) matches Some(said) ==> message.text == said) && (payload.text_member(
            "agentName"@,
        ) matches Some(name) ==> message.author_name == name) && (payload.text_member("agentName"@)
            is None ==> message.author_name == author),
{
}

/// The answer to the request to join decides: with success the connection is live, and else it has
/// failed, for the reason that the server gives; a token that the server refuses is forgotten.
pub proof fn law_answer_to_joining_decides(
    connection: ConnectionView,
    text: String,
    frame: JsonView,
    payload: JsonView,
    response: JsonView,
    agent_id: Seq<char>,
    runtime: RuntimeView,
    server: ServerConfig,
    session: ActiveView,
)
    requires
        connection.phase == ConnectionPhase::Joining,
        json::parsed_json(text@) == Ok::<JsonView, Seq<char>>(frame),
        frame.text_member("event"@) == Some("phx_reply"@),
        frame.text_member("ref"@) == Some(connection.join_ref),
        frame.member("payload"@) == Some(payload),
        payload.member("response"@) == Some(response),
    ensures
        ({
            let action = connection_action(
                connection,
                ConnectionInput::Message(WsMessage::Text(text)),
                agent_id,
                runtime,
                server,
            );
            let after = connection_after(connection, action);
            &&& payload.text_member("status"@) == Some("ok"@) ==> action
                == ConnectionActionView::GoLive && after.phase == ConnectionPhase::Live
                && session_after(session, action) == session
            &&& payload.text_member("status"@) != Some("ok"@) ==> action is Fail && after.phase
                == ConnectionPhase::Ended
            &&& payload.text_member("status"@) != Some("ok"@) ==> (response.text_member(
                "error"@,
            ) matches Some(error) ==> action->Fail_message == "subspace join failed: "@ + error)
            &&& payload.text_member("status"@) != Some("ok"@) && (response.text_member("error"@)
                == Some("TOKEN_INVALID"@) || response.text_member("error"@) == Some(
                "TOKEN_REVOKED"@,
            )) ==> session_after(session, action).session_token() is None
        }),
{
}

/// The answer to a posted message settles it: with success, under the id that the server gave; and
/// else with the reason that the server gives. A token that the server refuses is forgotten.
pub proof fn law_answer_settles_the_post(
    connection: ConnectionView,
    text: String,
    frame: JsonView,
    payload: JsonView,
    response: JsonView,
    reference: Seq<char>,
    agent_id: Seq<char>,
    runtime: RuntimeView,
    server: ServerConfig,
    session: ActiveView,
)
    requires
        connection.phase == ConnectionPhase::Live,
        connection.pending.dom().contains(reference),
        json::parsed_json(text@) == Ok::<JsonView, Seq<char>>(frame),
        frame.text_member("topic"@) == Some("firehose"@),
        frame.text_member("event"@) == Some("phx_reply"@),
        frame.text_member("ref"@) == Some(reference),
        frame.member("payload"@) == Some(payload),
        payload.member("response"@) == Some(response),
    ensures
        ({
            let action = connection_action(
                connection,
                ConnectionInput::Message(WsMessage::Text(text)),
                agent_id,
                runtime,
                server,
            );
            &&& action matches ConnectionActionView::Settle { reference: settled, .. } && settled
                == reference
            &&& payload.text_member("status"@) == Some("ok"@) ==> action->Settle_outcome is Ok
                && action->Settle_outcome->Ok_0.idempotency_key == connection.pending[reference]
                && session_after(session, action) == session
            &&& payload.text_member("status"@) == Some("ok"@) ==> (response.text_member(
                "id"@,
            ) matches Some(id) ==> action->Settle_outcome->Ok_0.subspace_message_id == Some(id))
            &&& payload.text_member("status"@) == Some("ok"@) && response.member("id"@) is None
                ==> action->Settle_outcome->Ok_0.subspace_message_id == response.text_member(
                "messageId"@,
            )
            &&& payload.text_member("status"@) != Some("ok"@) ==> action->Settle_outcome is Err
            &&& payload.text_member("status"@) != Some("ok"@) ==> (response.text_member(
                "error"@,
            ) matches Some(error) ==> action->Settle_outcome == Err::<SentView, Seq<char>>(error))
            &&& payload.text_member("status"@) != Some("ok"@) && (response.text_member("error"@)
                == Some("TOKEN_INVALID"@) || response.text_member("error"@) == Some(
                "TOKEN_REVOKED"@,
            )) ==> session_after(session, action).session_token() is None
        }),
{
    reveal_strlit("new_message");
    reveal_strlit("replay_message");
    reveal_strlit("phx_reply");
    assert("new_message"@.len() == 11);
    assert("replay_message"@.len() == 14);
    assert("phx_reply"@.len() == 9);
}

/// A connection ends when the daemon stops, when the server closes it or sends nothing more, and
/// when nothing can be read.
pub proof fn law_connection_ends(
    connection: ConnectionView,
    code: Option<u16>,
    reason: String,
    token_refused: bool,
    agent_id: Seq<char>,
    runtime: RuntimeView,
    server: ServerConfig,
)
    requires
        connection.phase != ConnectionPhase::Ended,
    ensures
        connection_action(connection, ConnectionInput::Shutdown, agent_id, runtime, server)
            == ConnectionActionView::Close,
        connection_action(connection, ConnectionInput::StreamEnded, agent_id, runtime, server)
            is Fail,
        connection_action(
            connection,
            ConnectionInput::ReadFailed(reason),
            agent_id,
            runtime,
            server,
        ) == (ConnectionActionView::Fail { message: reason@, token_refused: false }),
        connection_action(
            connection,
            ConnectionInput::Message(WsMessage::Close { code, reason }),
            agent_id,
            runtime,
            server,
        ) is Fail,
        connection_action(
            connection,
            ConnectionInput::Message(WsMessage::Control),
            agent_id,
            runtime,
            server,
        ) == ConnectionActionView::Wait,
        connection_after(connection, ConnectionActionView::Close).phase == ConnectionPhase::Ended,
        connection_after(
            connection,
            ConnectionActionView::Fail { message: reason@, token_refused },
        ).phase == ConnectionPhase::Ended,
{
}

/// A text is read the same whether it comes as text or as bytes.
pub proof fn law_bytes_are_read_as_text(text: String, bytes: Vec<u8>)
    requires
        vstd::utf8::valid_utf8(bytes@),
        vstd::utf8::decode_utf8(bytes@) == text@,
    ensures
        frame_of(WsMessage::Binary(bytes)) == frame_of(WsMessage::Text(text)),
        frame_of(WsMessage::Text(text)) == Ok::<WsFrameView, Seq<char>>(WsFrameView::Text(text@)),
{
}

proof fn lemma_frame_members(
    topic: Seq<char>,
    event: Seq<char>,
    payload: JsonView,
    reference: Seq<char>,
)
    ensures
        frame_json(topic, event, payload, reference).text_member("topic"@) == Some(topic),
        frame_json(topic, event, payload, reference).text_member("event"@) == Some(event),
        frame_json(topic, event, payload, reference).member("payload"@) == Some(payload),
        frame_json(topic, event, payload, reference).text_member("ref"@) == Some(reference),
{
    reveal_strlit("topic");
    reveal_strlit("event");
    reveal_strlit("payload");
    reveal_strlit("ref");
    assert("topic"@.len() == 5 && "topic"@[0] == 't');
    assert("event"@.len() == 5 && "event"@[0] == 'e');
    assert("payload"@.len() == 7);
    assert("ref"@.len() == 3);
    json::lemma_members();
}

/// A message is posted with its text, its key and its embeddings, under its reference.
pub proof fn law_message_is_posted_in_full(
    text: Seq<char>,
    idempotency_key: Seq<char>,
    embeddings: JsonView,
    reference: Seq<char>,
)
    ensures
        ({
            let frame = post_json(text, idempotency_key, embeddings, reference);
            &&& frame.text_member("topic"@) == Some("firehose"@)
            &&& frame.text_member("event"@) == Some("post_message"@)
            &&& frame.text_member("ref"@) == Some(reference)
            &&& frame.member("payload"@) matches Some(payload) && payload.text_member("text"@)
                == Some(text) && payload.text_member("idempotency_key"@) == Some(idempotency_key)
                && payload.member("embeddings"@) == Some(embeddings)
        }),
{
    let payload = json::object_view().with_text("text"@, text).with_text(
        "idempotency_key"@,
        idempotency_key,
    ).with("embeddings"@, embeddings);
    lemma_frame_members("firehose"@, "post_message"@, payload, reference);
    reveal_strlit("text");
    reveal_strlit("idempotency_key");
    reveal_strlit("embeddings");
    assert("text"@.len() == 4);
    assert("idempotency_key"@.len() == 15);
    assert("embeddings"@.len() == 10);
    json::lemma_members();
}

/// The daemon joins as its agent, with its token if it has one.
pub proof fn law_daemon_joins_with_its_token(
    agent_id: Seq<char>,
    session_token: Option<Seq<char>>,
    reference: Seq<char>,
)
    ensures
        ({
            let frame = join_json(agent_id, session_token, reference);
            &&& frame.text_member("topic"@) == Some("firehose"@)
            &&& frame.text_member("event"@) == Some("phx_join"@)
            &&& frame.text_member("ref"@) == Some(reference)
            &&& frame.member("payload"@) matches Some(payload) && payload.text_member("agent_id"@)
                == Some(agent_id) && (session_token matches Some(token) ==> payload.text_member(
                "session_token"@,
            ) == Some(token))
        }),
{
    let payload = json::object_view().with_text("agent_id"@, agent_id).with_text(
        "session_token"@,
        match session_token {
            Some(token) => token,
            None => Seq::empty(),
        },
    );
    lemma_frame_members("firehose"@, "phx_join"@, payload, reference);
    reveal_strlit("agent_id");
    reveal_strlit("session_token");
    assert("agent_id"@.len() == 8);
    assert("session_token"@.len() == 13);
    json::lemma_members();
}

/// A sign of life is answered under its reference.
pub proof fn law_heartbeat_has_its_reference(reference: Seq<char>)
    ensures
        heartbeat_json(reference).text_member("topic"@) == Some("phoenix"@),
        heartbeat_json(reference).text_member("event"@) == Some("heartbeat"@),
        heartbeat_json(reference).text_member("ref"@) == Some(reference),
{
    lemma_frame_members("phoenix"@, "heartbeat"@, json::object_view(), reference);
}

/// A session of the old kind is used as it is; one under a named identity only with that identity,
/// and only if the identity is the agent of the session.
pub proof fn law_session_needs_its_identity(
    record: identity::LoadedView,
    named: Option<identity::IdentityView>,
    path: Seq<char>,
)
    ensures
        record matches identity::LoadedView::Legacy(session) ==> activated(record, named, path)
            == Ok::<ActiveView, Seq<char>>(ActiveView::Legacy(session)),
        record is Current && named is None ==> activated(record, named, path) is Err,
        activated(record, named, path) matches Ok(ActiveView::Current { session, identity })
            ==> record == identity::LoadedView::Current(session) && named == Some(identity)
            && identity.public_key == session.agent_id,
        record matches identity::LoadedView::Current(session) ==> (named matches Some(found) ==> (
        found.public_key == session.agent_id ==> activated(record, named, path) == Ok::<
            ActiveView,
            Seq<char>,
        >(ActiveView::Current { session, identity: found }))),
{
}

/// A close is reported with its code and its reason, as far as it has them.
pub proof fn law_close_is_described(head: Seq<char>, code: u16, reason: Seq<char>)
    requires
        reason.len() > 0,
    ensures
        closed_message(head, None, Seq::empty()) == head,
        closed_message(head, Some(code), Seq::empty()) == head + " code="@ + text::decimal(
            code as nat,
        ),
        closed_message(head, None, reason) == head + " reason="@ + config::debug_quoted(reason),
        closed_message(head, Some(code), reason) == head + " code="@ + text::decimal(code as nat)
            + " reason="@ + config::debug_quoted(reason),
{
}

/// When the daemon has joined, the failures before are forgotten; a message that is offered is taken up;
/// and nothing else changes what the daemon remembers.
pub proof fn law_joining_ends_the_failures(
    runtime: RuntimeView,
    action: ConnectionActionView,
    message: InboundView,
)
    ensures
        ({
            let joined = runtime_after(runtime, ConnectionActionView::GoLive);
            &&& joined.storm.consecutive_failures == 0
            &&& joined.storm.cooldown_ms is None
            &&& joined.storm.next_attempt_at is None
            &&& joined.storm.last_error_kind is None
            &&& joined.failures_since is None
            &&& joined.recent == runtime.recent
            &&& joined.pending == runtime.pending
            &&& joined.last_seen == runtime.last_seen
            &&& joined.floor == runtime.floor
            &&& joined.window == runtime.window
        }),
        runtime_store::takes_up(runtime, message.message_id, message.timestamp) ==> runtime_after(
            runtime,
            ConnectionActionView::Offer { message },
        ).pending == runtime.pending.insert(message.message_id),
        !(action is GoLive) && !(action is Offer) ==> runtime_after(runtime, action) == runtime,
{
}

/// What does not belong to the firehose is passed over.
pub proof fn law_other_topics_are_passed_over(
    connection: ConnectionView,
    text: String,
    frame: JsonView,
    agent_id: Seq<char>,
    runtime: RuntimeView,
    server: ServerConfig,
)
    requires
        connection.phase == ConnectionPhase::Live,
        json::parsed_json(text@) == Ok::<JsonView, Seq<char>>(frame),
        frame.text_member("topic"@) != Some("firehose"@),
    ensures
        connection_action(
            connection,
            ConnectionInput::Message(WsMessage::Text(text)),
            agent_id,
            runtime,
            server,
        ) == ConnectionActionView::Wait,
{
}

/// When there is nobody left to send anything, a live connection is closed in order; one that is not live
/// yet waits for the answer.
pub proof fn law_connection_without_senders_is_closed(
    connection: ConnectionView,
    agent_id: Seq<char>,
    runtime: RuntimeView,
    server: ServerConfig,
)
    ensures
        ({
            let action = connection_action(
                connection,
                ConnectionInput::CommandsClosed,
                agent_id,
                runtime,
                server,
            );
            &&& connection.phase == ConnectionPhase::Live ==> action == ConnectionActionView::Close
            &&& connection.phase == ConnectionPhase::Joining ==> action
                == ConnectionActionView::Wait
            &&& connection.phase == ConnectionPhase::Ended ==> action == ConnectionActionView::Wait
        }),
{
}

} // verus!
