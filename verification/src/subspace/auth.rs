//! How the daemon proves to a server who it is.

use vstd::prelude::*;

use crate::config;
use crate::config::quote_debug;
use crate::failure;
use crate::failure::{failure_with, Failure};
use crate::json;
use crate::json::{empty_object, parse_json, quote_json, Json, JsonView};
use crate::subspace::identity;
use crate::subspace::identity::{
    LegacySubspaceSessionRecord, NamedIdentityRecord, SubspaceSessionRecord,
    DEFAULT_SUBSPACE_OWNER,
};
use crate::text;
use crate::websocket::text_from_utf8;

verus! {

/// What a server grants to an agent that has proved who it is.
#[derive(Debug, Clone)]
pub struct SessionAuth {
    pub token: String,
    pub expires_at: String,
}

pub struct SessionAuthView {
    pub token: Seq<char>,
    pub expires_at: Seq<char>,
}

impl View for SessionAuth {
    type V = SessionAuthView;

    open spec fn view(&self) -> SessionAuthView {
        SessionAuthView { token: self.token@, expires_at: self.expires_at@ }
    }
}

pub open spec fn auth_result(result: Result<SessionAuth, Failure>) -> Result<
    SessionAuthView,
    Seq<char>,
> {
    match result {
        Ok(auth) => Ok(auth@),
        Err(f) => Err(f@),
    }
}

// ---------------------------------------------------------------------------
// Answers
// ---------------------------------------------------------------------------

/// The text of a member that must be there and must not be empty.
pub open spec fn required_text(json: JsonView, key: Seq<char>) -> Result<Seq<char>, Seq<char>> {
    match json.text_member(key) {
        Some(value) => if value.len() > 0 {
            Ok(value)
        } else {
            Err("expected response field: "@ + key)
        },
        None => Err("expected response field: "@ + key),
    }
}

/// The text of a member that must be there and must not be empty.
pub fn read_string(json: &Json, key: &str) -> (result: Result<String, Failure>)
    ensures
        failure::text_result(result) == required_text(json@, key@),
{
    match json.get_text(key) {
        Some(value) => {
            if value.unicode_len() > 0 {
                Ok(value.to_owned())
            } else {
                Err(failure_with("expected response field: ", key))
            }
        },
        None => Err(failure_with("expected response field: ", key)),
    }
}

/// What a server grants in its answer.
pub open spec fn session_auth_in(json: JsonView) -> Result<SessionAuthView, Seq<char>> {
    match required_text(json, "sessionToken"@) {
        Err(message) => Err(message),
        Ok(token) => match required_text(json, "sessionExpiresAt"@) {
            Err(message) => Err(message),
            Ok(expires_at) => Ok(SessionAuthView { token, expires_at }),
        },
    }
}

/// Reads what a server grants in its answer.
pub fn read_session_auth(json: &Json) -> (result: Result<SessionAuth, Failure>)
    ensures
        auth_result(result) == session_auth_in(json@),
{
    let token = match read_string(json, "sessionToken") {
        Ok(token) => token,
        Err(f) => return Err(f),
    };
    let expires_at = match read_string(json, "sessionExpiresAt") {
        Ok(expires_at) => expires_at,
        Err(f) => return Err(f),
    };
    Ok(SessionAuth { token, expires_at })
}

/// The JSON in the body of an answer; a body that holds none counts as an empty object.
pub open spec fn body_json(bytes: Seq<u8>) -> JsonView {
    if vstd::utf8::valid_utf8(bytes) {
        match json::parsed_json(vstd::utf8::decode_utf8(bytes)) {
            Ok(json) => json,
            Err(_) => json::object_view(),
        }
    } else {
        json::object_view()
    }
}

/// Reads the JSON in the body of an answer.
pub fn read_body(bytes: Vec<u8>) -> (json: Json)
    ensures
        json@ == body_json(bytes@),
{
    match text_from_utf8(bytes) {
        Some(text) => match parse_json(text.as_str()) {
            Ok(json) => json,
            Err(_) => empty_object(),
        },
        None => empty_object(),
    }
}

/// The answer of a server.
#[derive(Debug)]
pub struct Answer {
    /// The status code.
    pub status: u16,
    pub body: Json,
}

/// A step of the exchange failed with a status code.
pub open spec fn status_problem(step: Seq<char>, status: u16) -> Seq<char> {
    step + " failed with status "@ + text::decimal(status as nat)
}

fn status_failure(step: &str, status: u16) -> (f: Failure)
    ensures
        f@ == status_problem(step@, status),
{
    let mut message = step.to_owned();
    message.append(" failed with status ");
    message.append(text::decimal_text(status as u128).as_str());
    Failure { message }
}

pub struct ChallengeView {
    pub challenge: Seq<char>,
    pub challenge_id: Seq<char>,
}

/// What is to be signed.
#[derive(Debug, Clone)]
struct Challenge {
    challenge: String,
    challenge_id: String,
}

/// The challenge in the answer to the first request of an exchange.
pub open spec fn challenge_in(step: Seq<char>, answer: Answer) -> Result<ChallengeView, Seq<char>> {
    if !(200 <= answer.status < 300) {
        Err(status_problem(step, answer.status))
    } else {
        match required_text(answer.body@, "challenge"@) {
            Err(message) => Err(message),
            Ok(challenge) => match required_text(answer.body@, "challengeId"@) {
                Err(message) => Err(message),
                Ok(challenge_id) => Ok(ChallengeView { challenge, challenge_id }),
            },
        }
    }
}

spec fn challenge_result(result: Result<Challenge, Failure>) -> Result<ChallengeView, Seq<char>> {
    match result {
        Ok(c) => Ok(ChallengeView { challenge: c.challenge@, challenge_id: c.challenge_id@ }),
        Err(f) => Err(f@),
    }
}

fn read_challenge(step: &str, answer: &Answer) -> (result: Result<Challenge, Failure>)
    ensures
        challenge_result(result) == challenge_in(step@, *answer),
{
    if !(200 <= answer.status && answer.status < 300) {
        return Err(status_failure(step, answer.status));
    }
    let challenge = match read_string(&answer.body, "challenge") {
        Ok(challenge) => challenge,
        Err(f) => return Err(f),
    };
    let challenge_id = match read_string(&answer.body, "challengeId") {
        Ok(challenge_id) => challenge_id,
        Err(f) => return Err(f),
    };
    Ok(Challenge { challenge, challenge_id })
}

// ---------------------------------------------------------------------------
// Requests
// ---------------------------------------------------------------------------

/// A request to a server, whose body is JSON.
#[derive(Debug)]
pub struct PostRequest {
    pub url: String,
    pub body: Json,
}

pub struct PostView {
    pub url: Seq<char>,
    pub body: JsonView,
}

impl View for PostRequest {
    type V = PostView;

    open spec fn view(&self) -> PostView {
        PostView { url: self.url@, body: self.body@ }
    }
}

pub open spec fn post_result(result: Result<PostRequest, Failure>) -> Result<PostView, Seq<char>> {
    match result {
        Ok(request) => Ok(request@),
        Err(f) => Err(f@),
    }
}

fn endpoint(base_url: &str, path: &str) -> (url: String)
    ensures
        url@ == base_url@ + path@,
{
    let mut url = base_url.to_owned();
    url.append(path);
    url
}

/// The first request of a registration.
pub open spec fn registration_start(
    base_url: Seq<char>,
    registration_name: Seq<char>,
    public_key: Seq<char>,
) -> PostView {
    PostView {
        url: base_url + "/api/agents/register/start"@,
        body: json::object_view().with_text("name"@, registration_name).with_text(
            "owner"@,
            DEFAULT_SUBSPACE_OWNER@,
        ).with_text("publicKey"@, public_key),
    }
}

/// The first request of a registration.
pub fn register_start(
    base_url: &str,
    registration_name: &str,
    identity: &NamedIdentityRecord,
) -> (request: PostRequest)
    ensures
        request@ == registration_start(base_url@, registration_name@, identity@.public_key),
{
    PostRequest {
        url: endpoint(base_url, "/api/agents/register/start"),
        body: empty_object().with_text("name", registration_name).with_text(
            "owner",
            DEFAULT_SUBSPACE_OWNER,
        ).with_text("publicKey", identity.public_key()),
    }
}

/// What an agent signs when it registers: a JSON object with its members in order.
pub open spec fn registration_payload(
    challenge: Seq<char>,
    registration_name: Seq<char>,
    public_key: Seq<char>,
) -> Seq<char> {
    "{\"challenge\":"@ + json::json_quoted(challenge) + ",\"name\":"@ + json::json_quoted(
        registration_name,
    ) + ",\"owner\":"@ + json::json_quoted(DEFAULT_SUBSPACE_OWNER@) + ",\"publicKey\":"@
        + json::json_quoted(public_key) + "}"@
}

fn canonical_registration(challenge: &str, registration_name: &str, public_key: &str) -> (payload:
    String)
    ensures
        payload@ == registration_payload(challenge@, registration_name@, public_key@),
{
    let mut payload = "{\"challenge\":".to_owned();
    payload.append(quote_json(challenge).as_str());
    payload.append(",\"name\":");
    payload.append(quote_json(registration_name).as_str());
    payload.append(",\"owner\":");
    payload.append(quote_json(DEFAULT_SUBSPACE_OWNER).as_str());
    payload.append(",\"publicKey\":");
    payload.append(quote_json(public_key).as_str());
    payload.append("}");
    payload
}

/// The second request of a registration: the challenge, signed.
pub open spec fn registration_verify(
    base_url: Seq<char>,
    registration_name: Seq<char>,
    identity: identity::IdentityView,
    challenge: ChallengeView,
) -> PostView {
    PostView {
        url: base_url + "/api/agents/register/verify"@,
        body: json::object_view().with_text("challengeId"@, challenge.challenge_id).with_text(
            "name"@,
            registration_name,
        ).with_text("owner"@, DEFAULT_SUBSPACE_OWNER@).with_text(
            "publicKey"@,
            identity.public_key,
        ).with_text(
            "signature"@,
            identity::signature_of(
                identity.secret,
                registration_payload(challenge.challenge, registration_name, identity.public_key),
            ),
        ),
    }
}

/// The second request of a registration, made of the answer to the first.
pub fn register_verify(
    base_url: &str,
    registration_name: &str,
    identity: &NamedIdentityRecord,
    start: &Answer,
) -> (result: Result<PostRequest, Failure>)
    requires
        identity.wf(),
    ensures
        post_result(result) == match challenge_in("register_start"@, *start) {
            Err(message) => Err::<PostView, Seq<char>>(message),
            Ok(challenge) => Ok::<PostView, Seq<char>>(
                registration_verify(base_url@, registration_name@, identity@, challenge),
            ),
        },
{
    let challenge = match read_challenge("register_start", start) {
        Ok(challenge) => challenge,
        Err(f) => return Err(f),
    };
    let payload = canonical_registration(
        challenge.challenge.as_str(),
        registration_name,
        identity.public_key(),
    );
    let signature = identity.sign_canonical_payload(payload.as_str());
    Ok(
        PostRequest {
            url: endpoint(base_url, "/api/agents/register/verify"),
            body: empty_object().with_text(
                "challengeId",
                challenge.challenge_id.as_str(),
            ).with_text("name", registration_name).with_text(
                "owner",
                DEFAULT_SUBSPACE_OWNER,
            ).with_text("publicKey", identity.public_key()).with_text(
                "signature",
                signature.as_str(),
            ),
        },
    )
}

/// What comes of a registration.
pub open spec fn registration_outcome(registration_name: Seq<char>, answer: Answer) -> Result<
    SessionAuthView,
    Seq<char>,
> {
    if answer.status == 200 || answer.status == 201 {
        session_auth_in(answer.body@)
    } else if answer.status == 409 {
        Err(
            "name "@ + config::debug_quoted(registration_name)
                + " is already registered by a different agent on this server"@,
        )
    } else {
        Err(status_problem("register_verify"@, answer.status))
    }
}

/// What comes of a registration, by the answer to the second request.
pub fn register_finish(registration_name: &str, answer: &Answer) -> (result: Result<
    SessionAuth,
    Failure,
>)
    ensures
        auth_result(result) == registration_outcome(registration_name@, *answer),
{
    if answer.status == 200 || answer.status == 201 {
        return read_session_auth(&answer.body);
    }
    if answer.status == 409 {
        let mut message = "name ".to_owned();
        message.append(quote_debug(registration_name).as_str());
        message.append(" is already registered by a different agent on this server");
        return Err(Failure { message });
    }
    Err(status_failure("register_verify", answer.status))
}

/// The first request of an authentication.
pub open spec fn authentication_start(base_url: Seq<char>, agent_id: Seq<char>) -> PostView {
    PostView {
        url: base_url + "/api/agents/reauth/start"@,
        body: json::object_view().with_text("agentId"@, agent_id),
    }
}

/// The first request of an authentication.
pub fn reauth_start(base_url: &str, agent_id: &str) -> (request: PostRequest)
    ensures
        request@ == authentication_start(base_url@, agent_id@),
{
    PostRequest {
        url: endpoint(base_url, "/api/agents/reauth/start"),
        body: empty_object().with_text("agentId", agent_id),
    }
}

/// What an agent signs when it authenticates: a JSON object with its members in order.
pub open spec fn authentication_payload(agent_id: Seq<char>, challenge: Seq<char>) -> Seq<char> {
    "{\"agentId\":"@ + json::json_quoted(agent_id) + ",\"challenge\":"@ + json::json_quoted(
        challenge,
    ) + "}"@
}

fn canonical_authentication(agent_id: &str, challenge: &str) -> (payload: String)
    ensures
        payload@ == authentication_payload(agent_id@, challenge@),
{
    let mut payload = "{\"agentId\":".to_owned();
    payload.append(quote_json(agent_id).as_str());
    payload.append(",\"challenge\":");
    payload.append(quote_json(challenge).as_str());
    payload.append("}");
    payload
}

/// The second request of an authentication: the challenge, signed.
pub open spec fn authentication_verify(
    base_url: Seq<char>,
    agent_id: Seq<char>,
    secret: Seq<u8>,
    challenge: ChallengeView,
) -> PostView {
    PostView {
        url: base_url + "/api/agents/reauth/verify"@,
        body: json::object_view().with_text("challengeId"@, challenge.challenge_id).with_text(
            "agentId"@,
            agent_id,
        ).with_text(
            "signature"@,
            identity::signature_of(
                secret,
                authentication_payload(agent_id, challenge.challenge),
            ),
        ),
    }
}

/// The second request of an authentication, where there is a challenge.
pub open spec fn authentication_answer(
    base_url: Seq<char>,
    agent_id: Seq<char>,
    secret: Seq<u8>,
    start: Answer,
) -> Result<PostView, Seq<char>> {
    match challenge_in("reauth_start"@, start) {
        Err(message) => Err(message),
        Ok(challenge) => Ok(authentication_verify(base_url, agent_id, secret, challenge)),
    }
}

fn verify_request(base_url: &str, agent_id: &str, challenge_id: &str, signature: &str) -> (request:
    PostRequest)
    ensures
        request.url@ == base_url@ + "/api/agents/reauth/verify"@,
        request.body@ == json::object_view().with_text("challengeId"@, challenge_id@).with_text(
            "agentId"@,
            agent_id@,
        ).with_text("signature"@, signature@),
{
    PostRequest {
        url: endpoint(base_url, "/api/agents/reauth/verify"),
        body: empty_object().with_text("challengeId", challenge_id).with_text(
            "agentId",
            agent_id,
        ).with_text("signature", signature),
    }
}

/// The second request of an authentication under a named identity, made of the answer to the first.
pub fn reauth_verify(
    base_url: &str,
    session: &SubspaceSessionRecord,
    identity: &NamedIdentityRecord,
    start: &Answer,
) -> (result: Result<PostRequest, Failure>)
    requires
        identity.wf(),
    ensures
        post_result(result) == authentication_answer(
            base_url@,
            session@.agent_id,
            identity@.secret,
            *start,
        ),
{
    let challenge = match read_challenge("reauth_start", start) {
        Ok(challenge) => challenge,
        Err(f) => return Err(f),
    };
    let payload = canonical_authentication(
        session.agent_id.as_str(),
        challenge.challenge.as_str(),
    );
    let signature = identity.sign_canonical_payload(payload.as_str());
    Ok(
        verify_request(
            base_url,
            session.agent_id.as_str(),
            challenge.challenge_id.as_str(),
            signature.as_str(),
        ),
    )
}

/// The second request of an authentication with a session's own key pair, made of the answer to the
/// first.
pub fn reauth_legacy_verify(
    base_url: &str,
    session: &LegacySubspaceSessionRecord,
    start: &Answer,
) -> (result: Result<PostRequest, Failure>)
    requires
        session.wf(),
    ensures
        post_result(result) == authentication_answer(
            base_url@,
            session@.agent_id,
            session@.secret,
            *start,
        ),
{
    let challenge = match read_challenge("reauth_start", start) {
        Ok(challenge) => challenge,
        Err(f) => return Err(f),
    };
    let payload = canonical_authentication(session.agent_id(), challenge.challenge.as_str());
    let signature = session.sign_canonical_payload(payload.as_str());
    Ok(
        verify_request(
            base_url,
            session.agent_id(),
            challenge.challenge_id.as_str(),
            signature.as_str(),
        ),
    )
}

/// What comes of an authentication.
pub open spec fn authentication_outcome(answer: Answer) -> Result<SessionAuthView, Seq<char>> {
    if answer.status == 200 || answer.status == 201 {
        session_auth_in(answer.body@)
    } else {
        Err(status_problem("reauth_verify"@, answer.status))
    }
}

/// What comes of an authentication, by the answer to the second request.
pub fn reauth_finish(answer: &Answer) -> (result: Result<SessionAuth, Failure>)
    ensures
        auth_result(result) == authentication_outcome(*answer),
{
    if answer.status == 200 || answer.status == 201 {
        return read_session_auth(&answer.body);
    }
    Err(status_failure("reauth_verify", answer.status))
}

/// No session is granted without a token and an instant at which it expires.
pub proof fn law_session_has_token_and_expiry(registration_name: Seq<char>, answer: Answer)
    ensures
        registration_outcome(registration_name, answer) matches Ok(auth) ==> auth.token.len() > 0
            && auth.expires_at.len() > 0,
        authentication_outcome(answer) matches Ok(auth) ==> auth.token.len() > 0
            && auth.expires_at.len() > 0,
{
}

/// What a server must answer with is read: a text that is there and not empty is taken, and anything
/// else is an error.
pub proof fn law_answer_is_read(json: JsonView, key: Seq<char>)
    ensures
        required_text(json, key) matches Ok(value) ==> json.text_member(key) == Some(value)
            && value.len() > 0,
        json.text_member(key) matches Some(value) ==> (value.len() > 0 ==> required_text(json, key)
            is Ok),
{
}

/// A granted session has the token and the end that the server has named, and a server that names both
/// and answers with status 200 or 201 has granted it.
pub proof fn law_granted_session_is_taken(
    registration_name: Seq<char>,
    answer: Answer,
    token: Seq<char>,
    expires_at: Seq<char>,
)
    requires
        answer.body@.text_member("sessionToken"@) == Some(token),
        answer.body@.text_member("sessionExpiresAt"@) == Some(expires_at),
        token.len() > 0,
        expires_at.len() > 0,
    ensures
        answer.status == 200 || answer.status == 201 ==> (registration_outcome(
            registration_name,
            answer,
        ) matches Ok(auth) && auth.token == token && auth.expires_at == expires_at)
            && (authentication_outcome(answer) matches Ok(auth) && auth.token == token
            && auth.expires_at == expires_at),
{
}

/// No other status grants a session.
pub proof fn law_other_status_grants_nothing(registration_name: Seq<char>, answer: Answer)
    requires
        answer.status != 200 && answer.status != 201,
    ensures
        registration_outcome(registration_name, answer) is Err,
        authentication_outcome(answer) is Err,
        answer.status != 409 ==> (registration_outcome(registration_name, answer) matches Err(
            message,
        ) && text::decimal(answer.status as nat).is_suffix_of(message)),
        authentication_outcome(answer) matches Err(message) && text::decimal(
            answer.status as nat,
        ).is_suffix_of(message),
{
    lemma_status_is_named("register_verify"@, answer.status);
    lemma_status_is_named("reauth_verify"@, answer.status);
}

proof fn lemma_status_is_named(step: Seq<char>, status: u16)
    ensures
        text::decimal(status as nat).is_suffix_of(status_problem(step, status)),
{
    let digits = text::decimal(status as nat);
    let message = status_problem(step, status);
    assert(message.skip(message.len() - digits.len()) =~= digits);
}

/// The challenge is the one that the server has sent, under the id that it has given to it.
pub proof fn law_challenge_is_the_servers(step: Seq<char>, answer: Answer)
    ensures
        challenge_in(step, answer) matches Ok(found) ==> 200 <= answer.status < 300
            && answer.body@.text_member("challenge"@) == Some(found.challenge)
            && answer.body@.text_member("challengeId"@) == Some(found.challenge_id),
        (200 <= answer.status < 300 && (answer.body@.text_member("challenge"@) matches Some(
            challenge,
        ) && challenge.len() > 0) && (answer.body@.text_member("challengeId"@) matches Some(id)
            && id.len() > 0)) ==> challenge_in(step, answer) is Ok,
{
}

proof fn lemma_keys_differ()
    ensures
        "challengeId"@.len() == 11,
        "name"@.len() == 4,
        "owner"@.len() == 5,
        "publicKey"@.len() == 9 && "publicKey"@[0] == 'p',
        "signature"@.len() == 9 && "signature"@[0] == 's',
        "agentId"@.len() == 7,
{
    reveal_strlit("challengeId");
    reveal_strlit("name");
    reveal_strlit("owner");
    reveal_strlit("publicKey");
    reveal_strlit("signature");
    reveal_strlit("agentId");
}

/// A registration tells the server the name, the owner and the key, first to get a challenge and then
/// with its id and the signature of what the challenge asks for, made with the secret key.
pub proof fn law_registration_says_it_all(
    base_url: Seq<char>,
    name: Seq<char>,
    identity: identity::IdentityView,
    challenge: ChallengeView,
)
    ensures
        ({
            let start = registration_start(base_url, name, identity.public_key);
            &&& start.url == base_url + "/api/agents/register/start"@
            &&& start.body.text_member("name"@) == Some(name)
            &&& start.body.text_member("owner"@) == Some("openclaw"@)
            &&& start.body.text_member("publicKey"@) == Some(identity.public_key)
        }),
        ({
            let verify = registration_verify(base_url, name, identity, challenge);
            &&& verify.url == base_url + "/api/agents/register/verify"@
            &&& verify.body.text_member("challengeId"@) == Some(challenge.challenge_id)
            &&& verify.body.text_member("name"@) == Some(name)
            &&& verify.body.text_member("owner"@) == Some("openclaw"@)
            &&& verify.body.text_member("publicKey"@) == Some(identity.public_key)
            &&& verify.body.text_member("signature"@) == Some(
                identity::signature_of(
                    identity.secret,
                    registration_payload(challenge.challenge, name, identity.public_key),
                ),
            )
        }),
{
    lemma_keys_differ();
    json::lemma_members();
}

/// An authentication tells the server the agent, first to get a challenge and then with its id and the
/// signature of what the challenge asks for, made with the secret key.
pub proof fn law_authentication_says_it_all(
    base_url: Seq<char>,
    agent_id: Seq<char>,
    secret: Seq<u8>,
    start: Answer,
    challenge: Seq<char>,
    challenge_id: Seq<char>,
)
    requires
        200 <= start.status < 300,
        start.body@.text_member("challenge"@) == Some(challenge),
        start.body@.text_member("challengeId"@) == Some(challenge_id),
        challenge.len() > 0,
        challenge_id.len() > 0,
    ensures
        authentication_start(base_url, agent_id).url == base_url + "/api/agents/reauth/start"@,
        authentication_start(base_url, agent_id).body.text_member("agentId"@) == Some(agent_id),
        authentication_answer(base_url, agent_id, secret, start) matches Ok(verify) && verify.url
            == base_url + "/api/agents/reauth/verify"@ && verify.body.text_member("challengeId"@)
            == Some(challenge_id) && verify.body.text_member("agentId"@) == Some(agent_id)
            && verify.body.text_member("signature"@) == Some(
            identity::signature_of(secret, authentication_payload(agent_id, challenge)),
        ),
{
    lemma_keys_differ();
    json::lemma_members();
}

/// What is signed names the challenge and who answers it: every part stands in it in quotes.
pub proof fn law_signed_text_names_every_part(
    challenge: Seq<char>,
    name: Seq<char>,
    public_key: Seq<char>,
    agent_id: Seq<char>,
)
    ensures
        ({
            let signed = registration_payload(challenge, name, public_key);
            &&& text::has_part(signed, "\"challenge\":"@ + json::json_quoted(challenge))
            &&& text::has_part(signed, "\"name\":"@ + json::json_quoted(name))
            &&& text::has_part(signed, "\"owner\":"@ + json::json_quoted("openclaw"@))
            &&& text::has_part(signed, "\"publicKey\":"@ + json::json_quoted(public_key))
        }),
        ({
            let signed = authentication_payload(agent_id, challenge);
            &&& text::has_part(signed, "\"agentId\":"@ + json::json_quoted(agent_id))
            &&& text::has_part(signed, "\"challenge\":"@ + json::json_quoted(challenge))
        }),
{
    reveal_strlit("{\"challenge\":");
    reveal_strlit(",\"challenge\":");
    reveal_strlit("\"challenge\":");
    reveal_strlit(",\"name\":");
    reveal_strlit("\"name\":");
    reveal_strlit(",\"owner\":");
    reveal_strlit("\"owner\":");
    reveal_strlit(",\"publicKey\":");
    reveal_strlit("\"publicKey\":");
    reveal_strlit("{\"agentId\":");
    reveal_strlit("\"agentId\":");
    let a = "\"challenge\":"@ + json::json_quoted(challenge);
    let b = "\"name\":"@ + json::json_quoted(name);
    let c = "\"owner\":"@ + json::json_quoted("openclaw"@);
    let d = "\"publicKey\":"@ + json::json_quoted(public_key);
    let e = "\"agentId\":"@ + json::json_quoted(agent_id);
    let signed = registration_payload(challenge, name, public_key);
    assert(signed =~= seq!['{'] + a + seq![','] + b + seq![','] + c + seq![','] + d + "}"@);
    let to_a: int = 1;
    let to_b: int = to_a + a.len() + 1;
    let to_c: int = to_b + b.len() + 1;
    let to_d: int = to_c + c.len() + 1;
    assert(signed.subrange(to_a, to_a + a.len()) =~= a);
    assert(signed.subrange(to_b, to_b + b.len()) =~= b);
    assert(signed.subrange(to_c, to_c + c.len()) =~= c);
    assert(signed.subrange(to_d, to_d + d.len()) =~= d);
    let again = authentication_payload(agent_id, challenge);
    assert(again =~= seq!['{'] + e + seq![','] + a + "}"@);
    let to_f: int = to_a + e.len() + 1;
    assert(again.subrange(to_a, to_a + e.len()) =~= e);
    assert(again.subrange(to_f, to_f + a.len()) =~= a);
}

/// The body of an answer is read as JSON; one that is none counts as an empty object.
pub proof fn law_body_is_read(bytes: Seq<u8>, json: JsonView)
    ensures
        vstd::utf8::valid_utf8(bytes) && json::parsed_json(vstd::utf8::decode_utf8(bytes)) == Ok::<
            JsonView,
            Seq<char>,
        >(json) ==> body_json(bytes) == json,
        !vstd::utf8::valid_utf8(bytes) || json::parsed_json(vstd::utf8::decode_utf8(bytes)) is Err
            ==> body_json(bytes) == json::object_view(),
{
}

/// A name that is taken is named in the refusal.
pub proof fn law_taken_name_is_refused(registration_name: Seq<char>, answer: Answer)
    requires
        answer.status == 409,
    ensures
        registration_outcome(registration_name, answer) == Err::<SessionAuthView, Seq<char>>(
            "name "@ + config::debug_quoted(registration_name)
                + " is already registered by a different agent on this server"@,
        ),
{
}

} // verus!
