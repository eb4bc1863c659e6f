//! The connection to a Subspace server.

use ed25519_dalek::pkcs8::EncodePrivateKey;
use ed25519_dalek::SigningKey;
use subspace_daemon::clock::Timestamp;
use subspace_daemon::config::ServerConfig;
use subspace_daemon::json::{array_json, parse_json, Json, JsonNumber};
use subspace_daemon::retry::{RetryConfig, StormGuardConfig};
use subspace_daemon::runtime_store::RuntimeStore;
use subspace_daemon::subspace::auth::{
    read_body, read_session_auth, read_string, reauth_finish, reauth_start, reauth_verify,
    register_finish, register_start, register_verify, Answer,
};
use subspace_daemon::subspace::client::{
    heartbeat_frame, parse_message_embeddings, ws_text, ActiveSession, ConnectionAction,
    ConnectionInput, ConnectionPhase, ServerConnection, WireEmbedding, WsFrame,
};
use subspace_daemon::subspace::identity::{
    identity_file_name, load_session_record, IdentityFile, LegacySessionFile,
    LegacySubspaceSessionRecord, LoadedSessionRecord, NamedIdentityRecord, SessionFile,
    SubspaceSessionRecord,
};
use subspace_daemon::subspace::manager::{
    reconnect_error_kind, ManagerEvent, ManagerStep, ServerManager,
};
use subspace_daemon::websocket::WsMessage;

fn json(text: &str) -> Json {
    parse_json(text).unwrap()
}

/// URL-safe Base64 without padding.
fn base64url(bytes: &[u8]) -> String {
    base64::Engine::encode(&base64::engine::general_purpose::URL_SAFE_NO_PAD, bytes)
}

fn created(name: &str, secret: u8) -> NamedIdentityRecord {
    NamedIdentityRecord::load_or_create(name, None, vec![secret; 32]).unwrap().identity
}

fn legacy_file(agent_id: &str, secret: u8) -> LegacySessionFile {
    let key = SigningKey::from_bytes(&[secret; 32]);
    LegacySessionFile {
        version: 1,
        public_key: agent_id.to_string(),
        private_key: base64url(key.to_pkcs8_der().unwrap().as_bytes()),
        owner: "openclaw".to_string(),
        name: "heimdal".to_string(),
        session_token: Some("token".to_string()),
    }
}

fn legacy(agent_id: &str, secret: u8) -> LegacySubspaceSessionRecord {
    LegacySubspaceSessionRecord::from_file(legacy_file(agent_id, secret)).unwrap()
}

// ---------------------------------------------------------------------------
// Identities and sessions
// ---------------------------------------------------------------------------

#[test]
fn creates_named_identity_once() {
    let created = NamedIdentityRecord::load_or_create("heimdal", None, vec![5; 32]).unwrap();
    assert!(created.created);
    let file = created.identity.to_file("2026-04-17T12:00:00Z");
    let reloaded =
        NamedIdentityRecord::load_or_create("heimdal", Some(file), vec![6; 32]).unwrap();
    assert!(!reloaded.created);
    assert_eq!(created.identity.name(), "heimdal");
    assert_eq!(created.identity.public_key(), reloaded.identity.public_key());
    assert_eq!(
        created.identity.sign_canonical_payload("x"),
        reloaded.identity.sign_canonical_payload("x")
    );
}

#[test]
fn validates_identity_name() {
    assert!(NamedIdentityRecord::validate_name("heimdal-1").is_ok());
    assert!(NamedIdentityRecord::validate_name("Heimdal").is_err());
    assert!(NamedIdentityRecord::validate_name("heimdal/main").is_err());
}

#[test]
fn identity_name_is_trimmed_and_must_not_be_empty() {
    assert_eq!(NamedIdentityRecord::validate_name("  heimdal\n").unwrap(), "heimdal");
    assert_eq!(
        NamedIdentityRecord::validate_name("   ").unwrap_err().message,
        "identity name must not be empty"
    );
    assert_eq!(
        NamedIdentityRecord::validate_name("a b").unwrap_err().message,
        "identity name must be lowercase alphanumeric plus hyphens"
    );
    assert_eq!(identity_file_name("heimdal"), "heimdal.json");
}

#[test]
fn identity_file_must_fit_its_name_and_hold_a_key() {
    let file = created("heimdal", 5).to_file("now");
    let named = IdentityFile { name: "other".to_string(), ..file.clone() };
    assert_eq!(
        NamedIdentityRecord::load("heimdal", named).unwrap_err().message,
        "identity file name mismatch: expected \"heimdal\", got \"other\""
    );
    let unreadable = IdentityFile { private_key: "***".to_string(), ..file.clone() };
    assert_eq!(
        NamedIdentityRecord::load("heimdal", unreadable).unwrap_err().message,
        "invalid identity private key"
    );
    let short = IdentityFile { private_key: base64url(&[1, 2, 3]), ..file };
    assert_eq!(
        NamedIdentityRecord::load("heimdal", short).unwrap_err().message,
        "invalid Ed25519 private key length"
    );
}

#[test]
fn loads_legacy_session_record() {
    let loaded =
        load_session_record(SessionFile::Legacy(legacy_file("agent", 9))).unwrap().unwrap();
    match loaded {
        LoadedSessionRecord::Current(_) => panic!("expected legacy session"),
        LoadedSessionRecord::Legacy(session) => {
            assert_eq!(session.registration_name(), "heimdal");
            assert_eq!(session.session_token(), Some("token"));
        }
    }
}

#[test]
fn session_files_are_told_apart() {
    assert!(load_session_record(SessionFile::Absent).unwrap().is_none());
    let current = SubspaceSessionRecord::new("heimdal".to_string(), "agent".to_string());
    assert!(matches!(
        load_session_record(SessionFile::Current(current)).unwrap(),
        Some(LoadedSessionRecord::Current(_))
    ));
    assert_eq!(
        load_session_record(SessionFile::Malformed("expected value".to_string()))
            .unwrap_err()
            .message,
        "expected value"
    );
    let unreadable =
        LegacySessionFile { private_key: "***".to_string(), ..legacy_file("agent", 9) };
    assert_eq!(
        load_session_record(SessionFile::Legacy(unreadable)).unwrap_err().message,
        "invalid legacy session private key"
    );
    let no_document =
        LegacySessionFile { private_key: base64url(&[1, 2, 3]), ..legacy_file("agent", 9) };
    assert!(load_session_record(SessionFile::Legacy(no_document)).is_err());
}

#[test]
fn session_tokens_change_and_nothing_else() {
    let mut session = SubspaceSessionRecord::new("heimdal".to_string(), "agent".to_string());
    assert_eq!(session.session_token, None);
    session.update_session_token("t".to_string());
    assert_eq!(session.session_token.as_deref(), Some("t"));
    session.clear_session_token();
    assert_eq!(session.session_token, None);
    assert_eq!(session.identity, "heimdal");
    assert_eq!(session.agent_id, "agent");

    let mut old = legacy("agent", 9);
    old.clear_session_token();
    assert_eq!(old.session_token(), None);
    old.update_session_token("u".to_string());
    let file = old.to_file();
    assert_eq!(file.session_token.as_deref(), Some("u"));
    assert_eq!(file.private_key, legacy_file("agent", 9).private_key);
    assert_eq!(file.owner, "openclaw");
    assert_eq!(file.version, 1);
}

#[test]
fn migration_keeps_agent_token_and_signatures() {
    let identity = created("heimdal", 9);
    let old = legacy(identity.public_key(), 9);
    let taken =
        NamedIdentityRecord::load_or_create_from_legacy("heimdal", None, &old).unwrap();
    assert!(taken.created);
    assert_eq!(
        taken.identity.sign_canonical_payload("p"),
        old.sign_canonical_payload("p")
    );
    let session = old.migrate_to_identity(&taken.identity).unwrap();
    assert_eq!(session.identity, "heimdal");
    assert_eq!(session.agent_id, identity.public_key());
    assert_eq!(session.session_token.as_deref(), Some("token"));
}

#[test]
fn migration_needs_the_same_key() {
    let identity = created("heimdal", 1);
    let old = legacy("another agent", 9);
    let expected = "identity \"heimdal\" public key does not match session agent_id another agent";
    assert_eq!(old.migrate_to_identity(&identity).unwrap_err().message, expected);
    let file = identity.to_file("now");
    assert_eq!(
        NamedIdentityRecord::load_or_create_from_legacy("heimdal", Some(file), &old)
            .unwrap_err()
            .message,
        expected
    );
    assert!(identity.ensure_matches_agent_id(identity.public_key()).is_ok());
}

// ---------------------------------------------------------------------------
// Authentication
// ---------------------------------------------------------------------------

#[test]
fn reads_session_expiry_from_auth_response() {
    let auth = read_session_auth(&json(
        r#"{"sessionToken": "token", "sessionExpiresAt": "2099-01-01T00:00:00Z"}"#,
    ))
    .unwrap();

    assert_eq!(auth.token, "token");
    assert_eq!(auth.expires_at, "2099-01-01T00:00:00Z");
}

#[test]
fn requires_session_expiry_from_auth_response() {
    assert!(read_session_auth(&json(r#"{"sessionToken": "token"}"#)).is_err());
}

#[test]
fn response_fields_must_be_texts_that_are_not_empty() {
    for body in [r#"{"k": ""}"#, r#"{"k": 1}"#, "{}", "[]"] {
        assert_eq!(
            read_string(&json(body), "k").unwrap_err().message,
            "expected response field: k"
        );
    }
    assert_eq!(read_string(&json(r#"{"k": "v"}"#), "k").unwrap(), "v");
}

#[test]
fn bodies_without_json_count_as_empty_objects() {
    assert!(matches!(read_body(b"oops".to_vec()), Json::Object(members) if members.is_empty()));
    assert!(matches!(read_body(vec![0xff, 0xfe]), Json::Object(members) if members.is_empty()));
    assert_eq!(read_body(br#"{"a": "b"}"#.to_vec()).get_text("a"), Some("b"));
}

fn answer(status: u16, body: &str) -> Answer {
    Answer { status, body: json(body) }
}

#[test]
fn registration_signs_the_challenge() {
    let identity = created("heimdal", 4);
    let start = register_start("https://s.example", "my \"name\"", &identity);
    assert_eq!(start.url, "https://s.example/api/agents/register/start");
    assert_eq!(start.body.get_text("name"), Some("my \"name\""));
    assert_eq!(start.body.get_text("owner"), Some("openclaw"));
    assert_eq!(start.body.get_text("publicKey"), Some(identity.public_key()));

    let verify = register_verify(
        "https://s.example",
        "my \"name\"",
        &identity,
        &answer(200, r#"{"challenge": "c\n1", "challengeId": "id-1"}"#),
    )
    .unwrap();
    let signed = format!(
        "{{\"challenge\":\"c\\n1\",\"name\":\"my \\\"name\\\"\",\"owner\":\"openclaw\",\"publicKey\":\"{}\"}}",
        identity.public_key()
    );
    assert_eq!(verify.url, "https://s.example/api/agents/register/verify");
    assert_eq!(verify.body.get_text("challengeId"), Some("id-1"));
    assert_eq!(
        verify.body.get_text("signature"),
        Some(identity.sign_canonical_payload(&signed).as_str())
    );

    let granted = r#"{"sessionToken": "t", "sessionExpiresAt": "e"}"#;
    assert_eq!(register_finish("n", &answer(201, granted)).unwrap().token, "t");
    assert_eq!(register_finish("n", &answer(200, granted)).unwrap().expires_at, "e");
    assert_eq!(
        register_finish("a\"b", &answer(409, "{}")).unwrap_err().message,
        "name \"a\\\"b\" is already registered by a different agent on this server"
    );
    assert_eq!(
        register_finish("n", &answer(500, granted)).unwrap_err().message,
        "register_verify failed with status 500"
    );
}

#[test]
fn registration_fails_without_a_challenge() {
    let identity = created("heimdal", 4);
    let refused = register_verify("u", "n", &identity, &answer(403, "{}"));
    assert_eq!(refused.unwrap_err().message, "register_start failed with status 403");
    let empty = register_verify("u", "n", &identity, &answer(200, r#"{"challenge": "c"}"#));
    assert_eq!(empty.unwrap_err().message, "expected response field: challengeId");
}

#[test]
fn authentication_signs_the_challenge() {
    let identity = created("heimdal", 4);
    let session =
        SubspaceSessionRecord::new("heimdal".to_string(), identity.public_key().to_string());
    let start = reauth_start("https://s.example", &session.agent_id);
    assert_eq!(start.url, "https://s.example/api/agents/reauth/start");
    assert_eq!(start.body.get_text("agentId"), Some(identity.public_key()));

    let challenge = answer(299, r#"{"challenge": "c", "challengeId": "id-1"}"#);
    let verify = reauth_verify("https://s.example", &session, &identity, &challenge).unwrap();
    let signed =
        format!("{{\"agentId\":\"{}\",\"challenge\":\"c\"}}", identity.public_key());
    assert_eq!(verify.url, "https://s.example/api/agents/reauth/verify");
    assert_eq!(verify.body.get_text("challengeId"), Some("id-1"));
    assert_eq!(verify.body.get_text("agentId"), Some(identity.public_key()));
    assert_eq!(
        verify.body.get_text("signature"),
        Some(identity.sign_canonical_payload(&signed).as_str())
    );
    let active = ActiveSession::Legacy(legacy(identity.public_key(), 4));
    let alike = active.reauth_verify("https://s.example", &challenge).unwrap();
    assert_eq!(alike.body.get_text("signature"), verify.body.get_text("signature"));
    assert_eq!(active.reauth_start("u").url, "u/api/agents/reauth/start");

    assert_eq!(
        reauth_verify("u", &session, &identity, &answer(300, "{}")).unwrap_err().message,
        "reauth_start failed with status 300"
    );
    assert_eq!(
        reauth_finish(&answer(409, "{}")).unwrap_err().message,
        "reauth_verify failed with status 409"
    );
    let granted = r#"{"sessionToken": "t", "sessionExpiresAt": "e"}"#;
    assert_eq!(reauth_finish(&answer(200, granted)).unwrap().token, "t");
}

#[test]
fn sessions_need_their_identity() {
    let identity = created("heimdal", 4);
    let session = LoadedSessionRecord::Current(SubspaceSessionRecord::new(
        "heimdal".to_string(),
        identity.public_key().to_string(),
    ));
    assert_eq!(
        ActiveSession::activate(session.clone(), None, "/i/heimdal.json").unwrap_err().message,
        "missing identity file: /i/heimdal.json"
    );
    assert!(ActiveSession::activate(session.clone(), Some(created("heimdal", 5)), "p").is_err());
    let active = ActiveSession::activate(session, Some(identity.clone()), "p").unwrap();
    assert_eq!(active.agent_id(), identity.public_key());
    assert_eq!(active.session_token(), None);
    let old = LoadedSessionRecord::Legacy(legacy("agent", 9));
    let active = ActiveSession::activate(old, None, "p").unwrap();
    assert_eq!(active.session_token(), Some("token"));
}

// ---------------------------------------------------------------------------
// Embeddings
// ---------------------------------------------------------------------------

/// The components of an embedding in single precision.
fn vector(embedding: &WireEmbedding) -> Vec<f32> {
    embedding
        .vector
        .iter()
        .map(|number| match number {
            JsonNumber::Unsigned(n) => *n as f64 as f32,
            JsonNumber::Negative(n) => *n as f64 as f32,
            JsonNumber::Notation(text) => text.parse::<f64>().unwrap() as f32,
        })
        .collect()
}

#[test]
fn prefers_supplied_embeddings_payload_key() {
    let payload = json(
        r#"{
            "supplied_embeddings": [
                {"space_id": "test:space", "vector": [1.0, 0.0]}
            ],
            "embeddings": [
                {"space_id": "wrong:space", "vector": [0.0, 1.0]}
            ]
        }"#,
    );

    let parsed = parse_message_embeddings(&payload);

    assert_eq!(parsed.len(), 1);
    assert_eq!(parsed[0].space_id, "test:space");
    assert_eq!(vector(&parsed[0]), vec![1.0, 0.0]);
}

#[test]
fn parses_camel_case_supplied_embeddings_payload_key() {
    let payload = json(
        r#"{
            "suppliedEmbeddings": [
                {"spaceId": "test:space", "vector": [1.0, 0.0]}
            ]
        }"#,
    );

    let parsed = parse_message_embeddings(&payload);

    assert_eq!(parsed.len(), 1);
    assert_eq!(parsed[0].space_id, "test:space");
    assert_eq!(vector(&parsed[0]), vec![1.0, 0.0]);
}

#[test]
fn what_is_no_embedding_is_left_out() {
    let payload = json(
        r#"{"embeddings": [
            {"space_id": "  ", "vector": [1]},
            {"space_id": "a", "vector": []},
            {"space_id": "a", "vector": ["x", null]},
            {"space_id": "a"},
            {"space_id": 7, "spaceId": "a", "vector": [1]},
            {"space_id": " b ", "vector": [1, "x", -2, 0.5]},
            "c"
        ]}"#,
    );
    let parsed = parse_message_embeddings(&payload);
    assert_eq!(parsed.len(), 1);
    assert_eq!(parsed[0].space_id, "b");
    assert_eq!(vector(&parsed[0]), vec![1.0, -2.0, 0.5]);
    assert!(parse_message_embeddings(&json(r#"{"supplied_embeddings": 1, "embeddings": []}"#))
        .is_empty());
    assert!(parse_message_embeddings(&json("{}")).is_empty());
}

// ---------------------------------------------------------------------------
// The connection
// ---------------------------------------------------------------------------

fn server() -> ServerConfig {
    ServerConfig {
        base_url: "https://s.example".to_string(),
        websocket_url: "wss://s.example/api/firehose/stream/websocket".to_string(),
        enabled: true,
        server_key: "https_s_example_443".to_string(),
        registration_name: "heimdal".to_string(),
        identity: Some("heimdal".to_string()),
        local_pack_paths: None,
        session_path: "/r/subspace-session.json".to_string(),
        runtime_path: "/r/runtime.json".to_string(),
        wake_session_key: Some("agent:custom".to_string()),
    }
}

fn session() -> ActiveSession {
    let identity = created("heimdal", 4);
    let mut record =
        SubspaceSessionRecord::new("heimdal".to_string(), identity.public_key().to_string());
    record.update_session_token("token".to_string());
    ActiveSession::Current { session: record, identity }
}

fn now() -> Timestamp {
    Timestamp::parse("2026-04-17T12:00:00Z").unwrap()
}

struct Bench {
    connection: ServerConnection,
    session: ActiveSession,
    runtime: RuntimeStore,
}

impl Bench {
    fn new() -> Bench {
        Bench {
            connection: ServerConnection::new("join-1".to_string()),
            session: session(),
            runtime: RuntimeStore::load(None, 10, None, now()),
        }
    }

    fn live() -> Bench {
        let mut bench = Bench::new();
        let action = bench.text(
            r#"{"event": "phx_reply", "ref": "join-1", "payload": {"status": "ok"}}"#,
        );
        assert!(matches!(action, ConnectionAction::GoLive));
        assert_eq!(bench.connection.phase(), ConnectionPhase::Live);
        bench
    }

    fn tell(&mut self, input: ConnectionInput) -> ConnectionAction {
        self.connection.advance(input, &mut self.session, &mut self.runtime, &server())
    }

    fn text(&mut self, text: &str) -> ConnectionAction {
        self.tell(ConnectionInput::Message(WsMessage::Text(text.to_string())))
    }
}

fn failed_with(action: ConnectionAction, expected: &str, refused: bool) {
    match action {
        ConnectionAction::Fail { message, token_refused } => {
            assert_eq!(message, expected);
            assert_eq!(token_refused, refused);
        }
        other => panic!("{:?}", other),
    }
}

#[test]
fn joining_sends_agent_and_token() {
    let bench = Bench::new();
    let frame = bench.connection.join_frame(&bench.session);
    assert_eq!(frame.get_text("topic"), Some("firehose"));
    assert_eq!(frame.get_text("event"), Some("phx_join"));
    assert_eq!(frame.get_text("ref"), Some("join-1"));
    let payload = frame.get("payload").unwrap();
    assert_eq!(payload.get_text("agent_id"), Some(bench.session.agent_id()));
    assert_eq!(payload.get_text("session_token"), Some("token"));
    let beat = heartbeat_frame("h-1");
    assert_eq!(beat.get_text("topic"), Some("phoenix"));
    assert_eq!(beat.get_text("event"), Some("heartbeat"));
    assert_eq!(beat.get_text("ref"), Some("h-1"));
}

#[test]
fn join_waits_for_its_own_reply() {
    let mut bench = Bench::new();
    assert!(matches!(bench.text(r#"{"event": "phx_reply", "ref": "x"}"#), ConnectionAction::Wait));
    assert!(matches!(
        bench.tell(ConnectionInput::Message(WsMessage::Control)),
        ConnectionAction::Wait
    ));
    assert_eq!(bench.connection.phase(), ConnectionPhase::Joining);
}

#[test]
fn join_failures() {
    let refused = |error: &str| {
        format!(
            "{{\"event\": \"phx_reply\", \"ref\": \"join-1\", \"payload\": {{\"status\": \"error\", \"response\": {{\"error\": \"{}\"}}}}}}",
            error
        )
    };
    for error in ["TOKEN_INVALID", "TOKEN_REVOKED"] {
        let mut bench = Bench::new();
        let action = bench.text(&refused(error));
        failed_with(action, &format!("subspace join failed: {}", error), true);
        assert_eq!(bench.session.session_token(), None);
        assert_eq!(bench.connection.phase(), ConnectionPhase::Ended);
    }
    let mut bench = Bench::new();
    failed_with(bench.text(&refused("BUSY")), "subspace join failed: BUSY", false);
    assert_eq!(bench.session.session_token(), Some("token"));
    let mut bench = Bench::new();
    let action = bench.text(r#"{"event": "phx_reply", "ref": "join-1"}"#);
    failed_with(action, "subspace join failed: join_failed", false);
    let mut bench = Bench::new();
    failed_with(bench.tell(ConnectionInput::StreamEnded), "subspace closed during join", false);
    let mut bench = Bench::new();
    let closed = WsMessage::Close { code: Some(1008), reason: "no \"way\"".to_string() };
    failed_with(
        bench.tell(ConnectionInput::Message(closed)),
        "subspace websocket closed during join code=1008 reason=\"no \\\"way\\\"\"",
        false,
    );
    let mut bench = Bench::new();
    assert!(matches!(bench.text("no json"), ConnectionAction::Fail { .. }));
    let mut bench = Bench::new();
    assert!(matches!(bench.tell(ConnectionInput::Shutdown), ConnectionAction::Close));
}

const MESSAGE: &str = r#"{"topic": "firehose", "event": "new_message", "payload": {
    "id": "m-1", "ts": "2026-04-17T11:00:00Z", "agentId": "a-2", "agentName": "Ada",
    "text": "hello", "embeddings": [{"space_id": "s", "vector": [1]}]}}"#;

#[test]
fn inbound_message_is_offered_once() {
    let mut bench = Bench::live();
    match bench.text(MESSAGE) {
        ConnectionAction::Offer { message } => {
            assert_eq!(message.server, "https://s.example");
            assert_eq!(message.server_key, "https_s_example_443");
            assert_eq!(message.message_id, "m-1");
            assert_eq!(message.timestamp, "2026-04-17T11:00:00Z");
            assert_eq!(message.event, "new_message");
            assert_eq!(message.author_id, "a-2");
            assert_eq!(message.author_name, "Ada");
            assert_eq!(message.text, "hello");
            assert_eq!(message.embeddings.len(), 1);
            assert_eq!(message.wake_session_key_override.as_deref(), Some("agent:custom"));
            let envelope = message.into_envelope(Vec::new());
            assert_eq!(envelope.message_id, "m-1");
            assert_eq!(envelope.inbound_event, "new_message");
            assert_eq!(envelope.author_name, "Ada");
        }
        other => panic!("{:?}", other),
    }
    assert!(matches!(bench.text(MESSAGE), ConnectionAction::Wait));
    let action = bench.connection.queue_refused("m-1", false, &mut bench.runtime);
    failed_with(action, "wake queue full", false);

    bench.connection = ServerConnection::new("join-2".to_string());
    bench.text(r#"{"event": "phx_reply", "ref": "join-2", "payload": {"status": "ok"}}"#);
    assert!(matches!(bench.text(MESSAGE), ConnectionAction::Offer { .. }));
    let action = bench.connection.queue_refused("m-1", true, &mut bench.runtime);
    failed_with(action, "wake queue closed", false);
}

#[test]
fn author_without_a_name_goes_by_its_id() {
    let mut bench = Bench::live();
    let text = r#"{"topic": "firehose", "event": "replay_message",
        "payload": {"id": "m", "ts": "t", "agentId": "a-2"}}"#;
    match bench.text(text) {
        ConnectionAction::Offer { message } => {
            assert_eq!(message.author_name, "a-2");
            assert_eq!(message.event, "replay_message");
            assert_eq!(message.text, "");
        }
        other => panic!("{:?}", other),
    }
}

#[test]
fn own_and_malformed_messages_are_not_offered() {
    let mut bench = Bench::live();
    let own = format!(
        "{{\"topic\": \"firehose\", \"event\": \"new_message\", \"payload\": {{\"id\": \"m\", \"ts\": \"t\", \"agentId\": \"{}\"}}}}",
        bench.session.agent_id()
    );
    assert!(matches!(bench.text(&own), ConnectionAction::Wait));
    for payload in [r#"{"ts": "t"}"#, r#"{"id": "m"}"#, r#"{"id": "", "ts": "t"}"#] {
        let text = format!(
            "{{\"topic\": \"firehose\", \"event\": \"new_message\", \"payload\": {}}}",
            payload
        );
        assert!(matches!(bench.text(&text), ConnectionAction::Dropped { problem }
            if problem == "dropping malformed new_message payload"));
    }
    assert!(matches!(bench.text("no json"), ConnectionAction::Dropped { .. }));
    assert!(matches!(
        bench.text(r#"{"topic": "phoenix", "event": "heartbeat"}"#),
        ConnectionAction::Wait
    ));
    assert!(matches!(
        bench.text(r#"{"topic": "other", "event": "new_message"}"#),
        ConnectionAction::Wait
    ));
    assert!(matches!(
        bench.text(r#"{"topic": "firehose", "event": "replay_done"}"#),
        ConnectionAction::Wait
    ));
    assert_eq!(bench.connection.phase(), ConnectionPhase::Live);
}

fn reply(reference: &str, payload: &str) -> String {
    format!(
        "{{\"topic\": \"firehose\", \"event\": \"phx_reply\", \"ref\": \"{}\", \"payload\": {}}}",
        reference, payload
    )
}

#[test]
fn posted_messages_are_answered_once() {
    let mut bench = Bench::live();
    let frame = bench.connection.post("p-1", "hi", "idem-1", array_json(Vec::new()));
    assert_eq!(frame.get_text("event"), Some("post_message"));
    assert_eq!(frame.get_text("ref"), Some("p-1"));
    let payload = frame.get("payload").unwrap();
    assert_eq!(payload.get_text("text"), Some("hi"));
    assert_eq!(payload.get_text("idempotency_key"), Some("idem-1"));
    assert!(payload.get_items("embeddings").unwrap().is_empty());

    let ok = reply("p-1", r#"{"status": "ok", "response": {"id": "m-7"}}"#);
    match bench.text(&ok) {
        ConnectionAction::Settle { reference, outcome: Ok(sent), token_refused } => {
            assert_eq!(reference, "p-1");
            assert_eq!(sent.server, "https://s.example");
            assert_eq!(sent.subspace_message_id.as_deref(), Some("m-7"));
            assert_eq!(sent.idempotency_key, "idem-1");
            assert!(!token_refused);
        }
        other => panic!("{:?}", other),
    }
    assert!(matches!(bench.text(&ok), ConnectionAction::Wait));
    assert!(matches!(
        bench.text(r#"{"topic": "firehose", "event": "phx_reply"}"#),
        ConnectionAction::Wait
    ));
}

#[test]
fn message_ids_of_replies() {
    let id_of = |payload: &str| {
        let mut bench = Bench::live();
        bench.connection.post("p", "hi", "i", array_json(Vec::new()));
        match bench.text(&reply("p", payload)) {
            ConnectionAction::Settle { outcome: Ok(sent), .. } => sent.subspace_message_id,
            other => panic!("{:?}", other),
        }
    };
    assert_eq!(
        id_of(r#"{"status": "ok", "response": {"messageId": "m-8"}}"#).as_deref(),
        Some("m-8")
    );
    assert_eq!(id_of(r#"{"status": "ok", "response": {"id": 1, "messageId": "m-8"}}"#), None);
    assert_eq!(id_of(r#"{"status": "ok"}"#), None);
}

#[test]
fn refused_posts_and_refused_tokens() {
    let mut bench = Bench::live();
    bench.connection.post("p", "hi", "i", array_json(Vec::new()));
    match bench.text(&reply("p", r#"{"status": "error"}"#)) {
        ConnectionAction::Settle { outcome: Err(error), token_refused, .. } => {
            assert_eq!(error, "send_failed");
            assert!(!token_refused);
        }
        other => panic!("{:?}", other),
    }
    assert_eq!(bench.session.session_token(), Some("token"));
    bench.connection.post("q", "hi", "i", array_json(Vec::new()));
    match bench.text(&reply("q", r#"{"response": {"error": "TOKEN_REVOKED"}}"#)) {
        ConnectionAction::Settle { outcome: Err(error), token_refused, .. } => {
            assert_eq!(error, "TOKEN_REVOKED");
            assert!(token_refused);
        }
        other => panic!("{:?}", other),
    }
    assert_eq!(bench.session.session_token(), None);
    assert_eq!(bench.connection.phase(), ConnectionPhase::Live);
}

#[test]
fn live_connection_ends() {
    let mut bench = Bench::live();
    failed_with(bench.tell(ConnectionInput::StreamEnded), "subspace websocket closed", false);
    let mut bench = Bench::live();
    let closed = WsMessage::Close { code: None, reason: String::new() };
    failed_with(
        bench.tell(ConnectionInput::Message(closed)),
        "subspace websocket closed",
        false,
    );
    let mut bench = Bench::live();
    let binary = WsMessage::Binary(vec![0xc3, 0x28]);
    failed_with(
        bench.tell(ConnectionInput::Message(binary)),
        "non-utf8 websocket message",
        false,
    );
    let mut bench = Bench::live();
    assert!(matches!(bench.tell(ConnectionInput::CommandsClosed), ConnectionAction::Close));
    assert!(matches!(bench.tell(ConnectionInput::Shutdown), ConnectionAction::Wait));
}

#[test]
fn going_live_clears_the_failures() {
    let mut bench = Bench::new();
    let retry = RetryConfig {
        base_ms: 1,
        max_ms: 1,
        jitter_ratio_bits: 0f64.to_bits(),
        storm_guard: StormGuardConfig {
            failure_window_ms: 60_000,
            consecutive_failure_threshold: 1,
            cooldown_ms: 5_000,
            max_cooldown_ms: 60_000,
        },
    };
    bench.runtime.record_reconnect_failure(now(), &retry, "timeout".to_string(), 5_000);
    assert!(bench.runtime.reconnect_cooldown().is_some());
    bench.text(r#"{"event": "phx_reply", "ref": "join-1", "payload": {"status": "ok"}}"#);
    assert!(bench.runtime.reconnect_cooldown().is_none());
}

#[test]
fn websocket_messages_become_frames() {
    assert!(matches!(ws_text(WsMessage::Text("a".to_string())), Ok(WsFrame::Text(t)) if t == "a"));
    assert!(matches!(ws_text(WsMessage::Binary(b"b".to_vec())), Ok(WsFrame::Text(t)) if t == "b"));
    assert!(matches!(ws_text(WsMessage::Control), Ok(WsFrame::Ignore)));
    assert!(matches!(
        ws_text(WsMessage::Close { code: Some(1), reason: "r".to_string() }),
        Ok(WsFrame::Closed { code: Some(1), reason }) if reason == "r"
    ));
}

// ---------------------------------------------------------------------------
// The manager
// ---------------------------------------------------------------------------

#[test]
fn failures_are_told_apart_by_their_messages() {
    assert_eq!(reconnect_error_kind("Connection REFUSED (os error 61)"), "connection_refused");
    assert_eq!(reconnect_error_kind("operation timed out"), "timeout");
    assert_eq!(reconnect_error_kind("Timeout"), "timeout");
    assert_eq!(reconnect_error_kind("subspace join failed: AUTH"), "join_failed");
    assert_eq!(reconnect_error_kind("reauth_start failed with status 401"), "auth_failed");
    assert_eq!(
        reconnect_error_kind("subspace websocket connect failed"),
        "websocket_connect_failed"
    );
    assert_eq!(reconnect_error_kind("subspace websocket closed"), "transport_failed");
}

fn manager() -> ServerManager {
    ServerManager::new(&RetryConfig {
        base_ms: 1_000,
        max_ms: 3_000,
        jitter_ratio_bits: 0f64.to_bits(),
        storm_guard: StormGuardConfig::default(),
    })
}

#[test]
fn manager_authenticates_before_it_connects() {
    let mut manager = manager();
    assert_eq!(manager.step(), ManagerStep::Cooldown);
    assert_eq!(manager.advance(ManagerEvent::CooldownOver), None);
    assert_eq!(manager.step(), ManagerStep::LoadSession);
    assert_eq!(
        manager.advance(ManagerEvent::SessionFound { has_token: false }),
        Some("authenticating")
    );
    assert_eq!(manager.step(), ManagerStep::Authenticate);
    assert_eq!(manager.advance(ManagerEvent::Authenticated), Some("connecting"));
    assert_eq!(manager.step(), ManagerStep::Connect);
    assert_eq!(manager.advance(ManagerEvent::ConnectionClosed), None);
    assert_eq!(manager.step(), ManagerStep::Stop);
    assert_eq!(manager.advance(ManagerEvent::PauseOver), None);
    assert_eq!(manager.step(), ManagerStep::Stop);
}

#[test]
fn manager_pauses_grow_and_begin_anew_after_a_live_connection() {
    let mut manager = manager();
    let mut pauses = Vec::new();
    for _ in 0..3 {
        manager.advance(ManagerEvent::CooldownOver);
        assert_eq!(
            manager.advance(ManagerEvent::SessionMissing),
            Some("subspace_auth_required")
        );
        match manager.step() {
            ManagerStep::Pause { ms } => pauses.push(ms),
            other => panic!("{:?}", other),
        }
        manager.advance(ManagerEvent::PauseOver);
    }
    assert_eq!(pauses, vec![1_000, 2_000, 3_000]);
    manager.advance(ManagerEvent::CooldownOver);
    assert_eq!(
        manager.advance(ManagerEvent::SessionFound { has_token: true }),
        Some("connecting")
    );
    let lost = ManagerEvent::ConnectionFailed { reached_live: true, cooldown: false };
    assert_eq!(manager.advance(lost), Some("reconnecting"));
    assert_eq!(manager.step(), ManagerStep::Pause { ms: 1_000 });
}

#[test]
fn manager_keeps_a_cooldown_in_place_of_the_pause() {
    let mut manager = manager();
    manager.advance(ManagerEvent::CooldownOver);
    manager.advance(ManagerEvent::SessionFound { has_token: false });
    assert_eq!(
        manager.advance(ManagerEvent::AuthenticationFailed { cooldown: true }),
        Some("subspace_auth_required")
    );
    assert_eq!(manager.step(), ManagerStep::Cooldown);
    manager.advance(ManagerEvent::CooldownOver);
    manager.advance(ManagerEvent::SessionFound { has_token: true });
    manager.advance(ManagerEvent::ConnectionFailed { reached_live: false, cooldown: true });
    assert_eq!(manager.step(), ManagerStep::Cooldown);
    manager.advance(ManagerEvent::CooldownOver);
    manager.advance(ManagerEvent::SessionFound { has_token: false });
    manager.advance(ManagerEvent::AuthenticationFailed { cooldown: false });
    assert_eq!(manager.step(), ManagerStep::Pause { ms: 1_000 });
    assert_eq!(manager.advance(ManagerEvent::Shutdown), None);
    assert_eq!(manager.step(), ManagerStep::Stop);
}
