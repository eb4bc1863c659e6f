//! The frames that are exchanged with the gateway.

use vstd::prelude::*;

use crate::json;
use crate::json::{Json, JsonNumber, JsonView, NumberView};
use crate::text;

verus! {

pub const PROTOCOL_VERSION: u64 = 4;

#[derive(Debug)]
pub struct ConnectParams {
    pub min_protocol: u64,
    pub max_protocol: u64,
    pub client: ConnectClient,
    pub caps: Vec<String>,
    pub commands: Option<Vec<String>>,
    pub permissions: Option<Json>,
    pub path_env: Option<String>,
    pub role: String,
    pub scopes: Vec<String>,
    pub device: Option<DeviceAuthPayload>,
    pub auth: Option<AuthPayload>,
}

#[derive(Debug, Clone)]
pub struct ConnectClient {
    pub id: String,
    pub display_name: Option<String>,
    pub version: String,
    pub platform: String,
    pub device_family: Option<String>,
    pub mode: String,
    pub instance_id: Option<String>,
}

#[derive(Debug, Clone)]
pub struct DeviceAuthPayload {
    pub id: String,
    pub public_key: String,
    pub signature: String,
    pub signed_at: u64,
    pub nonce: String,
}

#[derive(Debug, Clone)]
pub struct AuthPayload {
    pub token: Option<String>,
    pub bootstrap_token: Option<String>,
    pub device_token: Option<String>,
    pub password: Option<String>,
}

#[derive(Debug)]
pub struct RequestFrame {
    pub frame_type: String,
    pub id: String,
    pub method: String,
    pub params: Option<Json>,
}

#[derive(Debug)]
pub struct ResponseFrame {
    pub frame_type: String,
    pub id: String,
    pub ok: bool,
    pub payload: Json,
    pub error: Option<GatewayError>,
}

#[derive(Debug)]
pub struct EventFrame {
    pub frame_type: String,
    pub event: String,
    pub payload: Json,
    pub seq: Option<u64>,
}

#[derive(Debug)]
pub struct GatewayError {
    pub code: Option<String>,
    pub message: String,
    pub details: Option<Json>,
}

#[derive(Debug)]
pub struct HelloOk {
    pub hello_type: String,
    pub protocol: u64,
    pub server: Option<Json>,
    pub features: Option<Json>,
    pub snapshot: Option<Json>,
    pub auth: Option<HelloAuth>,
    pub policy: HelloPolicy,
}

#[derive(Debug, Clone)]
pub struct HelloAuth {
    pub device_token: Option<String>,
    pub device_tokens: Vec<HelloDeviceToken>,
    pub issued_at_ms: Option<u64>,
    pub role: String,
    pub scopes: Vec<String>,
}

#[derive(Debug, Clone)]
pub struct HelloDeviceToken {
    pub device_token: String,
    pub role: String,
    pub scopes: Vec<String>,
    pub issued_at_ms: Option<u64>,
}

#[derive(Debug, Clone, Copy)]
pub struct HelloPolicy {
    pub tick_interval_ms: u64,
}

// ---------------------------------------------------------------------------
// What a device signs
// ---------------------------------------------------------------------------

/// A text in lower case, by the rules of Unicode.
pub uninterp spec fn unicode_lowercase(s: Seq<char>) -> Seq<char>;

/// Puts a text into lower case with `str::to_lowercase`. The contract names the text; it is a
/// function of the argument alone.
#[verifier::external_body]
fn to_lowercase(s: &str) -> (lower: String)
    ensures
        lower@ == unicode_lowercase(s@),
{
    s.to_lowercase()
}

pub open spec fn or_blank(value: Option<Seq<char>>) -> Seq<char> {
    match value {
        Some(s) => s,
        None => Seq::empty(),
    }
}

/// What a device signs when it connects: the parts of its request, with bars between them.
pub open spec fn device_auth_payload(
    device_id: Seq<char>,
    client_id: Seq<char>,
    client_mode: Seq<char>,
    role: Seq<char>,
    scopes: Seq<Seq<char>>,
    signed_at_ms: u64,
    token: Option<Seq<char>>,
    nonce: Seq<char>,
    platform: Seq<char>,
    device_family: Option<Seq<char>>,
) -> Seq<char> {
    "v3|"@ + device_id + "|"@ + client_id + "|"@ + client_mode + "|"@ + role + "|"@ + text::joined(
        scopes,
        ","@,
    ) + "|"@ + text::decimal(signed_at_ms as nat) + "|"@ + or_blank(token) + "|"@ + nonce + "|"@
        + unicode_lowercase(text::trimmed(platform)) + "|"@ + unicode_lowercase(
        text::trimmed(or_blank(device_family)),
    )
}

fn str_or_blank<'a>(value: Option<&'a str>) -> (s: &'a str)
    ensures
        s@ == or_blank(text::opt_str(value)),
{
    proof {
        reveal_strlit("");
        assert(""@ == Seq::<char>::empty());
    }
    match value {
        Some(s) => s,
        None => "",
    }
}

/// What a device signs when it connects.
pub fn build_device_auth_payload_v3(
    device_id: &str,
    client_id: &str,
    client_mode: &str,
    role: &str,
    scopes: &Vec<String>,
    signed_at_ms: u64,
    token: Option<&str>,
    nonce: &str,
    platform: &str,
    device_family: Option<&str>,
) -> (payload: String)
    ensures
        payload@ == device_auth_payload(
            device_id@,
            client_id@,
            client_mode@,
            role@,
            text::texts(scopes@),
            signed_at_ms,
            text::opt_str(token),
            nonce@,
            platform@,
            text::opt_str(device_family),
        ),
{
    let mut payload = "v3|".to_owned();
    payload.append(device_id);
    payload.append("|");
    payload.append(client_id);
    payload.append("|");
    payload.append(client_mode);
    payload.append("|");
    payload.append(role);
    payload.append("|");
    payload.append(text::join(scopes, ",").as_str());
    payload.append("|");
    payload.append(text::decimal_text(signed_at_ms as u128).as_str());
    payload.append("|");
    payload.append(str_or_blank(token));
    payload.append("|");
    payload.append(nonce);
    payload.append("|");
    payload.append(to_lowercase(text::trim(platform)).as_str());
    payload.append("|");
    payload.append(to_lowercase(text::trim(str_or_blank(device_family))).as_str());
    payload
}

// ---------------------------------------------------------------------------
// Diagnostics
// ---------------------------------------------------------------------------

/// A whole number that is not negative, in decimal notation.
pub open spec fn whole_number(value: Option<JsonView>) -> Option<Seq<char>> {
    match value {
        Some(JsonView::Number(NumberView::Unsigned(n))) => Some(text::decimal(n as nat)),
        _ => None,
    }
}

pub open spec fn or_missing(value: Option<Seq<char>>) -> Seq<char> {
    match value {
        Some(s) => s,
        None => "<missing>"@,
    }
}

/// What a hello says of authentication, or nothing.
pub open spec fn auth_of(payload: JsonView) -> JsonView {
    match payload.member("auth"@) {
        Some(auth) => auth,
        None => JsonView::Null,
    }
}

pub open spec fn item_count(value: JsonView, key: Seq<char>) -> nat {
    match value.items_member(key) {
        Some(items) => items.len(),
        None => 0,
    }
}

pub open spec fn yes_or_no(b: bool) -> Seq<char> {
    if b {
        "true"@
    } else {
        "false"@
    }
}

/// A description of a hello for the log. It says whether there are tokens and how many, and does
/// not hold them.
pub open spec fn hello_description(payload: JsonView) -> Seq<char> {
    let auth = auth_of(payload);
    "type="@ + or_missing(payload.text_member("type"@)) + " protocol="@ + or_missing(
        whole_number(payload.member("protocol"@)),
    ) + " auth_role="@ + or_missing(auth.text_member("role"@)) + " auth_scope_count="@
        + text::decimal(item_count(auth, "scopes"@)) + " has_device_token="@ + yes_or_no(
        auth.text_member("deviceToken"@) is Some,
    ) + " device_token_count="@ + text::decimal(item_count(auth, "deviceTokens"@))
}

fn append_text_or_missing(out: &mut String, value: Option<&str>)
    ensures
        final(out)@ == old(out)@ + or_missing(text::opt_str(value)),
{
    match value {
        Some(s) => out.append(s),
        None => out.append("<missing>"),
    }
}

fn count_items(value: &Json, key: &str) -> (count: usize)
    ensures
        count == item_count(value@, key@),
{
    match value.get_items(key) {
        Some(items) => items.len(),
        None => 0,
    }
}

/// Describes a hello for the log, without the tokens in it.
pub fn describe_hello_payload(payload: &Json) -> (description: String)
    ensures
        description@ == hello_description(payload@),
{
    let null = Json::Null;
    let auth = match payload.get("auth") {
        Some(auth) => auth,
        None => &null,
    };
    let mut out = "type=".to_owned();
    append_text_or_missing(&mut out, payload.get_text("type"));
    out.append(" protocol=");
    let protocol = match payload.get("protocol") {
        Some(Json::Number(JsonNumber::Unsigned(n))) => Some(text::decimal_text(*n as u128)),
        _ => None,
    };
    match &protocol {
        Some(number) => out.append(number.as_str()),
        None => out.append("<missing>"),
    }
    out.append(" auth_role=");
    append_text_or_missing(&mut out, auth.get_text("role"));
    out.append(" auth_scope_count=");
    out.append(text::decimal_text(count_items(auth, "scopes") as u128).as_str());
    out.append(" has_device_token=");
    if auth.get_text("deviceToken").is_some() {
        out.append("true");
    } else {
        out.append("false");
    }
    out.append(" device_token_count=");
    out.append(text::decimal_text(count_items(auth, "deviceTokens") as u128).as_str());
    out
}

/// The description of a hello does not depend on the tokens in it: of two hellos that differ in
/// nothing but the values of their tokens, the descriptions are the same.
pub proof fn law_hello_description_redacts_tokens(
    payload: JsonView,
    role: Option<Seq<char>>,
    scopes: nat,
    tokens: nat,
    other: JsonView,
)
    requires
        payload.text_member("type"@) == other.text_member("type"@),
        whole_number(payload.member("protocol"@)) == whole_number(other.member("protocol"@)),
        auth_of(payload).text_member("role"@) == role,
        auth_of(other).text_member("role"@) == role,
        item_count(auth_of(payload), "scopes"@) == scopes,
        item_count(auth_of(other), "scopes"@) == scopes,
        item_count(auth_of(payload), "deviceTokens"@) == tokens,
        item_count(auth_of(other), "deviceTokens"@) == tokens,
        auth_of(payload).text_member("deviceToken"@) is Some == auth_of(other).text_member(
            "deviceToken"@,
        ) is Some,
    ensures
        hello_description(payload) == hello_description(other),
{
}

// ---------------------------------------------------------------------------
// The JSON form of what is sent
// ---------------------------------------------------------------------------

/// The object with one member more where there is a text for it.
pub open spec fn with_opt_text(
    object: JsonView,
    key: Seq<char>,
    value: Option<Seq<char>>,
) -> JsonView {
    match value {
        Some(s) => object.with_text(key, s),
        None => object,
    }
}

fn add_opt_text(object: Json, key: &str, value: Option<String>) -> (json: Json)
    ensures
        json@ == with_opt_text(object@, key@, text::opt_text(value)),
{
    match value {
        Some(s) => object.with_text(key, s.as_str()),
        None => object,
    }
}

impl ConnectClient {
    /// The client as JSON.
    pub open spec fn json(self) -> JsonView {
        let named = with_opt_text(
            json::object_view().with_text("id"@, self.id@),
            "displayName"@,
            text::opt_text(self.display_name),
        ).with_text("version"@, self.version@).with_text("platform"@, self.platform@);
        with_opt_text(
            with_opt_text(
                named,
                "deviceFamily"@,
                text::opt_text(self.device_family),
            ).with_text("mode"@, self.mode@),
            "instanceId"@,
            text::opt_text(self.instance_id),
        )
    }

    fn into_json(self) -> (json: Json)
        ensures
            json@ == self.json(),
    {
        let named = add_opt_text(
            json::empty_object().with_text("id", self.id.as_str()),
            "displayName",
            self.display_name,
        ).with_text("version", self.version.as_str()).with_text(
            "platform",
            self.platform.as_str(),
        );
        add_opt_text(
            add_opt_text(named, "deviceFamily", self.device_family).with_text(
                "mode",
                self.mode.as_str(),
            ),
            "instanceId",
            self.instance_id,
        )
    }
}

impl DeviceAuthPayload {
    /// The device's proof as JSON.
    pub open spec fn json(self) -> JsonView {
        json::object_view().with_text("id"@, self.id@).with_text(
            "publicKey"@,
            self.public_key@,
        ).with_text("signature"@, self.signature@).with(
            "signedAt"@,
            json::number_view(self.signed_at),
        ).with_text("nonce"@, self.nonce@)
    }

    fn into_json(self) -> (json: Json)
        ensures
            json@ == self.json(),
    {
        json::empty_object().with_text("id", self.id.as_str()).with_text(
            "publicKey",
            self.public_key.as_str(),
        ).with_text("signature", self.signature.as_str()).with(
            "signedAt",
            json::number_json(self.signed_at),
        ).with_text("nonce", self.nonce.as_str())
    }
}

impl AuthPayload {
    /// The credentials as JSON.
    pub open spec fn json(self) -> JsonView {
        let token = with_opt_text(json::object_view(), "token"@, text::opt_text(self.token));
        let bootstrap = with_opt_text(
            token,
            "bootstrapToken"@,
            text::opt_text(self.bootstrap_token),
        );
        let device = with_opt_text(bootstrap, "deviceToken"@, text::opt_text(self.device_token));
        with_opt_text(device, "password"@, text::opt_text(self.password))
    }

    fn into_json(self) -> (json: Json)
        ensures
            json@ == self.json(),
    {
        let token = add_opt_text(json::empty_object(), "token", self.token);
        let bootstrap = add_opt_text(token, "bootstrapToken", self.bootstrap_token);
        let device = add_opt_text(bootstrap, "deviceToken", self.device_token);
        add_opt_text(device, "password", self.password)
    }
}

impl ConnectParams {
    /// The members that are always there.
    pub open spec fn json_head(self) -> JsonView {
        json::object_view().with("minProtocol"@, json::number_view(self.min_protocol)).with(
            "maxProtocol"@,
            json::number_view(self.max_protocol),
        ).with("client"@, self.client.json()).with("caps"@, json::text_array(text::texts(self.caps@)))
    }

    /// The parameters as JSON; what is absent has no member.
    pub open spec fn json(self) -> JsonView {
        let with_commands = match self.commands {
            Some(commands) => self.json_head().with(
                "commands"@,
                json::text_array(text::texts(commands@)),
            ),
            None => self.json_head(),
        };
        let with_permissions = match self.permissions {
            Some(permissions) => with_commands.with("permissions"@, permissions@),
            None => with_commands,
        };
        let with_role = with_opt_text(
            with_permissions,
            "pathEnv"@,
            text::opt_text(self.path_env),
        ).with_text("role"@, self.role@).with("scopes"@, json::text_array(text::texts(self.scopes@)));
        let with_device = match self.device {
            Some(device) => with_role.with("device"@, device.json()),
            None => with_role,
        };
        match self.auth {
            Some(auth) => with_device.with("auth"@, auth.json()),
            None => with_device,
        }
    }

    /// The parameters as JSON.
    pub fn into_json(self) -> (json: Json)
        ensures
            json@ == self.json(),
    {
        let head = json::empty_object().with("minProtocol", json::number_json(self.min_protocol)).with(
            "maxProtocol",
            json::number_json(self.max_protocol),
        ).with("client", self.client.into_json()).with("caps", json::text_array_json(self.caps));
        let with_commands = match self.commands {
            Some(commands) => head.with("commands", json::text_array_json(commands)),
            None => head,
        };
        let with_permissions = match self.permissions {
            Some(permissions) => with_commands.with("permissions", permissions),
            None => with_commands,
        };
        let with_role = add_opt_text(with_permissions, "pathEnv", self.path_env).with_text(
            "role",
            self.role.as_str(),
        ).with("scopes", json::text_array_json(self.scopes));
        let with_device = match self.device {
            Some(device) => with_role.with("device", device.into_json()),
            None => with_role,
        };
        match self.auth {
            Some(auth) => with_device.with("auth", auth.into_json()),
            None => with_device,
        }
    }
}

impl RequestFrame {
    /// The frame as JSON.
    pub open spec fn json(self) -> JsonView {
        let head = json::object_view().with_text("type"@, self.frame_type@).with_text(
            "id"@,
            self.id@,
        ).with_text("method"@, self.method@);
        match self.params {
            Some(params) => head.with("params"@, params@),
            None => head,
        }
    }

    /// The frame as JSON.
    pub fn into_json(self) -> (json: Json)
        ensures
            json@ == self.json(),
    {
        let head = json::empty_object().with_text("type", self.frame_type.as_str()).with_text(
            "id",
            self.id.as_str(),
        ).with_text("method", self.method.as_str());
        match self.params {
            Some(params) => head.with("params", params),
            None => head,
        }
    }
}

// ---------------------------------------------------------------------------
// Laws
// ---------------------------------------------------------------------------

proof fn lemma_auth_keys()
    ensures
        "token"@ != "bootstrapToken"@,
        "token"@ != "deviceToken"@,
        "token"@ != "password"@,
        "bootstrapToken"@ != "deviceToken"@,
        "bootstrapToken"@ != "password"@,
        "deviceToken"@ != "password"@,
{
    reveal_strlit("token");
    reveal_strlit("bootstrapToken");
    reveal_strlit("deviceToken");
    reveal_strlit("password");
    assert("token"@.len() == 5);
    assert("bootstrapToken"@.len() == 14);
    assert("deviceToken"@.len() == 11);
    assert("password"@.len() == 8);
}

/// Every credential that there is is sent under its name, as it is, and none that there is not.
pub proof fn law_credentials_are_sent(auth: AuthPayload)
    ensures
        auth.json().text_member("token"@) == text::opt_text(auth.token),
        auth.json().text_member("bootstrapToken"@) == text::opt_text(auth.bootstrap_token),
        auth.json().text_member("deviceToken"@) == text::opt_text(auth.device_token),
        auth.json().text_member("password"@) == text::opt_text(auth.password),
{
    lemma_auth_keys();
    json::lemma_members();
}

/// The proof of the device is sent with all its parts.
pub proof fn law_device_proof_is_sent(device: DeviceAuthPayload)
    ensures
        device.json().text_member("id"@) == Some(device.id@),
        device.json().text_member("publicKey"@) == Some(device.public_key@),
        device.json().text_member("signature"@) == Some(device.signature@),
        device.json().text_member("nonce"@) == Some(device.nonce@),
        device.json().member("signedAt"@) == Some(json::number_view(device.signed_at)),
{
    reveal_strlit("id");
    reveal_strlit("publicKey");
    reveal_strlit("signature");
    reveal_strlit("signedAt");
    reveal_strlit("nonce");
    assert("id"@.len() == 2);
    assert("publicKey"@.len() == 9);
    assert("signature"@.len() == 9);
    assert("publicKey"@[0] != "signature"@[0]);
    assert("signedAt"@.len() == 8);
    assert("nonce"@.len() == 5);
    json::lemma_members();
}

/// The client is sent with all that is known of it.
pub proof fn law_client_is_sent(client: ConnectClient)
    ensures
        client.json().text_member("id"@) == Some(client.id@),
        client.json().text_member("displayName"@) == text::opt_text(client.display_name),
        client.json().text_member("version"@) == Some(client.version@),
        client.json().text_member("platform"@) == Some(client.platform@),
        client.json().text_member("deviceFamily"@) == text::opt_text(client.device_family),
        client.json().text_member("mode"@) == Some(client.mode@),
        client.json().text_member("instanceId"@) == text::opt_text(client.instance_id),
{
    reveal_strlit("id");
    reveal_strlit("displayName");
    reveal_strlit("version");
    reveal_strlit("platform");
    reveal_strlit("deviceFamily");
    reveal_strlit("mode");
    reveal_strlit("instanceId");
    assert("id"@.len() == 2);
    assert("displayName"@.len() == 11);
    assert("version"@.len() == 7);
    assert("platform"@.len() == 8);
    assert("deviceFamily"@.len() == 12);
    assert("mode"@.len() == 4);
    assert("instanceId"@.len() == 10);
    json::lemma_members();
}

/// The answer to the challenge is sent with who asks, what is asked for, and what proves it.
pub proof fn law_connect_params_are_sent(params: ConnectParams)
    ensures
        params.json().member("minProtocol"@) == Some(json::number_view(params.min_protocol)),
        params.json().member("maxProtocol"@) == Some(json::number_view(params.max_protocol)),
        params.json().text_member("role"@) == Some(params.role@),
        params.json().text_member("pathEnv"@) == text::opt_text(params.path_env),
        params.json().items_member("scopes"@) matches Some(items) && items.len()
            == params.scopes@.len() && forall|i: int|
            0 <= i < items.len() ==> (#[trigger] items[i]).text() == Some(params.scopes@[i]@),
        params.json().items_member("caps"@) matches Some(items) && items.len()
            == params.caps@.len() && forall|i: int|
            0 <= i < items.len() ==> (#[trigger] items[i]).text() == Some(params.caps@[i]@),
        params.json().member("client"@) matches Some(client) && client.text_member("id"@) == Some(
            params.client.id@,
        ) && client.text_member("mode"@) == Some(params.client.mode@) && client.text_member(
            "platform"@,
        ) == Some(params.client.platform@) && client.text_member("version"@) == Some(
            params.client.version@,
        ) && client.text_member("displayName"@) == text::opt_text(params.client.display_name),
        params.device matches Some(device) ==> (params.json().member("device"@) matches Some(sent)
            && sent.text_member("id"@) == Some(device.id@) && sent.text_member("publicKey"@)
            == Some(device.public_key@) && sent.text_member("signature"@) == Some(
            device.signature@,
        ) && sent.text_member("nonce"@) == Some(device.nonce@) && sent.member("signedAt"@) == Some(
            json::number_view(device.signed_at),
        )),
        params.auth matches Some(auth) ==> (params.json().member("auth"@) matches Some(sent)
            && sent.text_member("token"@) == text::opt_text(auth.token) && sent.text_member(
            "deviceToken"@,
        ) == text::opt_text(auth.device_token) && sent.text_member("password"@) == text::opt_text(
            auth.password,
        )),
        params.auth is None ==> params.json().member("auth"@) is None,
        params.device is None ==> params.json().member("device"@) is None,
{
    reveal_strlit("minProtocol");
    reveal_strlit("maxProtocol");
    reveal_strlit("client");
    reveal_strlit("caps");
    reveal_strlit("commands");
    reveal_strlit("permissions");
    reveal_strlit("pathEnv");
    reveal_strlit("role");
    reveal_strlit("scopes");
    reveal_strlit("device");
    reveal_strlit("auth");
    assert("minProtocol"@.len() == 11 && "minProtocol"@[1] == 'i');
    assert("maxProtocol"@.len() == 11 && "maxProtocol"@[1] == 'a');
    assert("permissions"@.len() == 11 && "permissions"@[1] == 'e');
    assert("client"@.len() == 6 && "client"@[0] == 'c');
    assert("scopes"@.len() == 6 && "scopes"@[0] == 's');
    assert("device"@.len() == 6 && "device"@[0] == 'd');
    assert("caps"@.len() == 4 && "caps"@[0] == 'c');
    assert("role"@.len() == 4 && "role"@[0] == 'r');
    assert("auth"@.len() == 4 && "auth"@[0] == 'a');
    assert("commands"@.len() == 8);
    assert("pathEnv"@.len() == 7);
    assert(params.json().member("minProtocol"@) == Some(json::number_view(params.min_protocol))
        && params.json().member("maxProtocol"@) == Some(json::number_view(params.max_protocol))
        && params.json().member("client"@) == Some(params.client.json()) && params.json().member(
        "caps"@,
    ) == Some(json::text_array(text::texts(params.caps@))) && params.json().text_member("role"@)
        == Some(params.role@) && params.json().text_member("pathEnv"@) == text::opt_text(
        params.path_env,
    ) && params.json().member("scopes"@) == Some(json::text_array(text::texts(params.scopes@)))
        && params.json().member("device"@) == match params.device {
        Some(device) => Some(device.json()),
        None => None,
    } && params.json().member("auth"@) == match params.auth {
        Some(auth) => Some(auth.json()),
        None => None,
    }) by {
        json::lemma_members();
    }
    law_client_is_sent(params.client);
    if let Some(device) = params.device {
        law_device_proof_is_sent(device);
    }
    if let Some(auth) = params.auth {
        law_credentials_are_sent(auth);
    }
}

/// A request is sent with its id, its method and its parameters.
pub proof fn law_request_is_sent(frame: RequestFrame)
    ensures
        frame.json().text_member("type"@) == Some(frame.frame_type@),
        frame.json().text_member("id"@) == Some(frame.id@),
        frame.json().text_member("method"@) == Some(frame.method@),
        frame.params matches Some(params) ==> frame.json().member("params"@) == Some(params@),
        frame.params is None ==> frame.json().member("params"@) is None,
{
    reveal_strlit("type");
    reveal_strlit("id");
    reveal_strlit("method");
    reveal_strlit("params");
    assert("type"@.len() == 4);
    assert("id"@.len() == 2);
    assert("method"@.len() == 6 && "method"@[0] == 'm');
    assert("params"@.len() == 6 && "params"@[0] == 'p');
    json::lemma_members();
}

proof fn lemma_same_middle(before: Seq<char>, one: Seq<char>, other: Seq<char>, after: Seq<char>)
    requires
        before + one + after == before + other + after,
    ensures
        one == other,
{
    let s = before + one + after;
    let t = before + other + after;
    assert(s.len() == t.len());
    assert(one =~= s.subrange(before.len() as int, (before.len() + one.len()) as int));
    assert(other =~= t.subrange(before.len() as int, (before.len() + other.len()) as int));
}

spec fn signed_tail(platform: Seq<char>, device_family: Option<Seq<char>>) -> Seq<char> {
    "|"@ + unicode_lowercase(text::trimmed(platform)) + "|"@ + unicode_lowercase(
        text::trimmed(or_blank(device_family)),
    )
}

proof fn lemma_shift(a: Seq<char>, x: Seq<char>, bar: Seq<char>, y: Seq<char>, rest: Seq<char>)
    ensures
        (a + x + bar) + y + rest == a + x + (bar + y + rest),
{
    assert((a + x + bar) + y + rest =~= a + x + (bar + y + rest));
}

/// What a device signs, taken apart at each of its parts.
proof fn lemma_signed_parts(
    device_id: Seq<char>,
    client_id: Seq<char>,
    client_mode: Seq<char>,
    role: Seq<char>,
    scopes: Seq<Seq<char>>,
    signed_at_ms: u64,
    token: Option<Seq<char>>,
    nonce: Seq<char>,
    platform: Seq<char>,
    device_family: Option<Seq<char>>,
)
    ensures
        ({
            let bar = "|"@;
            let s = text::joined(scopes, ","@);
            let t = text::decimal(signed_at_ms as nat);
            let k = or_blank(token);
            let q8 = signed_tail(platform, device_family);
            let p1 = "v3|"@;
            let p2 = p1 + device_id + bar;
            let p3 = p2 + client_id + bar;
            let p4 = p3 + client_mode + bar;
            let p5 = p4 + role + bar;
            let p6 = p5 + s + bar;
            let p7 = p6 + t + bar;
            let p8 = p7 + k + bar;
            let q7 = bar + nonce + q8;
            let q6 = bar + k + q7;
            let q5 = bar + t + q6;
            let q4 = bar + s + q5;
            let q3 = bar + role + q4;
            let q2 = bar + client_mode + q3;
            let q1 = bar + client_id + q2;
            let whole = device_auth_payload(
                device_id,
                client_id,
                client_mode,
                role,
                scopes,
                signed_at_ms,
                token,
                nonce,
                platform,
                device_family,
            );
            &&& whole == p1 + device_id + q1
            &&& whole == p2 + client_id + q2
            &&& whole == p3 + client_mode + q3
            &&& whole == p4 + role + q4
            &&& whole == p5 + s + q5
            &&& whole == p6 + t + q6
            &&& whole == p7 + k + q7
            &&& whole == p8 + nonce + q8
        }),
{
    let bar = "|"@;
    let s = text::joined(scopes, ","@);
    let t = text::decimal(signed_at_ms as nat);
    let k = or_blank(token);
    let q8 = signed_tail(platform, device_family);
    let p1 = "v3|"@;
    let p2 = p1 + device_id + bar;
    let p3 = p2 + client_id + bar;
    let p4 = p3 + client_mode + bar;
    let p5 = p4 + role + bar;
    let p6 = p5 + s + bar;
    let p7 = p6 + t + bar;
    let p8 = p7 + k + bar;
    let q7 = bar + nonce + q8;
    let q6 = bar + k + q7;
    let q5 = bar + t + q6;
    let q4 = bar + s + q5;
    let q3 = bar + role + q4;
    let q2 = bar + client_mode + q3;
    let q1 = bar + client_id + q2;
    let whole = device_auth_payload(
        device_id,
        client_id,
        client_mode,
        role,
        scopes,
        signed_at_ms,
        token,
        nonce,
        platform,
        device_family,
    );
    assert(whole =~= p8 + nonce + q8);
    lemma_shift(p7, k, bar, nonce, q8);
    lemma_shift(p6, t, bar, k, q7);
    lemma_shift(p5, s, bar, t, q6);
    lemma_shift(p4, role, bar, s, q5);
    lemma_shift(p3, client_mode, bar, role, q4);
    lemma_shift(p2, client_id, bar, client_mode, q3);
    lemma_shift(p1, device_id, bar, client_id, q2);
}

/// The signature covers every part of the request: two requests that differ in one part only are
/// signed differently.
pub proof fn law_signature_covers_every_part(
    device_id: Seq<char>,
    client_id: Seq<char>,
    client_mode: Seq<char>,
    role: Seq<char>,
    scopes: Seq<Seq<char>>,
    signed_at_ms: u64,
    token: Option<Seq<char>>,
    nonce: Seq<char>,
    platform: Seq<char>,
    device_family: Option<Seq<char>>,
    other: Seq<char>,
    other_scopes: Seq<Seq<char>>,
    other_time: u64,
)
    ensures
        device_auth_payload(
            device_id,
            client_id,
            client_mode,
            role,
            scopes,
            signed_at_ms,
            token,
            nonce,
            platform,
            device_family,
        ) == device_auth_payload(
            other,
            client_id,
            client_mode,
            role,
            scopes,
            signed_at_ms,
            token,
            nonce,
            platform,
            device_family,
        ) ==> device_id == other,
        device_auth_payload(
            device_id,
            client_id,
            client_mode,
            role,
            scopes,
            signed_at_ms,
            token,
            nonce,
            platform,
            device_family,
        ) == device_auth_payload(
            device_id,
            other,
            client_mode,
            role,
            scopes,
            signed_at_ms,
            token,
            nonce,
            platform,
            device_family,
        ) ==> client_id == other,
        device_auth_payload(
            device_id,
            client_id,
            client_mode,
            role,
            scopes,
            signed_at_ms,
            token,
            nonce,
            platform,
            device_family,
        ) == device_auth_payload(
            device_id,
            client_id,
            other,
            role,
            scopes,
            signed_at_ms,
            token,
            nonce,
            platform,
            device_family,
        ) ==> client_mode == other,
        device_auth_payload(
            device_id,
            client_id,
            client_mode,
            role,
            scopes,
            signed_at_ms,
            token,
            nonce,
            platform,
            device_family,
        ) == device_auth_payload(
            device_id,
            client_id,
            client_mode,
            other,
            scopes,
            signed_at_ms,
            token,
            nonce,
            platform,
            device_family,
        ) ==> role == other,
        device_auth_payload(
            device_id,
            client_id,
            client_mode,
            role,
            scopes,
            signed_at_ms,
            token,
            nonce,
            platform,
            device_family,
        ) == device_auth_payload(
            device_id,
            client_id,
            client_mode,
            role,
            other_scopes,
            signed_at_ms,
            token,
            nonce,
            platform,
            device_family,
        ) ==> text::joined(scopes, ","@) == text::joined(other_scopes, ","@),
        device_auth_payload(
            device_id,
            client_id,
            client_mode,
            role,
            scopes,
            signed_at_ms,
            token,
            nonce,
            platform,
            device_family,
        ) == device_auth_payload(
            device_id,
            client_id,
            client_mode,
            role,
            scopes,
            other_time,
            token,
            nonce,
            platform,
            device_family,
        ) ==> signed_at_ms == other_time,
        device_auth_payload(
            device_id,
            client_id,
            client_mode,
            role,
            scopes,
            signed_at_ms,
            token,
            nonce,
            platform,
            device_family,
        ) == device_auth_payload(
            device_id,
            client_id,
            client_mode,
            role,
            scopes,
            signed_at_ms,
            Some(other),
            nonce,
            platform,
            device_family,
        ) ==> or_blank(token) == other,
        device_auth_payload(
            device_id,
            client_id,
            client_mode,
            role,
            scopes,
            signed_at_ms,
            token,
            nonce,
            platform,
            device_family,
        ) == device_auth_payload(
            device_id,
            client_id,
            client_mode,
            role,
            scopes,
            signed_at_ms,
            token,
            other,
            platform,
            device_family,
        ) ==> nonce == other,
{
    let bar = "|"@;
    let s = text::joined(scopes, ","@);
    let t = text::decimal(signed_at_ms as nat);
    let k = or_blank(token);
    let q8 = signed_tail(platform, device_family);
    let p1 = "v3|"@;
    let p2 = p1 + device_id + bar;
    let p3 = p2 + client_id + bar;
    let p4 = p3 + client_mode + bar;
    let p5 = p4 + role + bar;
    let p6 = p5 + s + bar;
    let p7 = p6 + t + bar;
    let p8 = p7 + k + bar;
    let q7 = bar + nonce + q8;
    let q6 = bar + k + q7;
    let q5 = bar + t + q6;
    let q4 = bar + s + q5;
    let q3 = bar + role + q4;
    let q2 = bar + client_mode + q3;
    let q1 = bar + client_id + q2;
    let s2 = text::joined(other_scopes, ","@);
    let t2 = text::decimal(other_time as nat);
    lemma_signed_parts(device_id, client_id, client_mode, role, scopes, signed_at_ms, token, nonce, platform, device_family);
    if device_auth_payload(
        device_id,
        client_id,
        client_mode,
        role,
        scopes,
        signed_at_ms,
        token,
        nonce,
        platform,
        device_family,
    ) == device_auth_payload(
        other,
        client_id,
        client_mode,
        role,
        scopes,
        signed_at_ms,
        token,
        nonce,
        platform,
        device_family,
    ) {
        lemma_signed_parts(other, client_id, client_mode, role, scopes, signed_at_ms, token, nonce, platform, device_family);
        lemma_same_middle(p1, device_id, other, q1);
    }
    if device_auth_payload(
        device_id,
        client_id,
        client_mode,
        role,
        scopes,
        signed_at_ms,
        token,
        nonce,
        platform,
        device_family,
    ) == device_auth_payload(
        device_id,
        other,
        client_mode,
        role,
        scopes,
        signed_at_ms,
        token,
        nonce,
        platform,
        device_family,
    ) {
        lemma_signed_parts(device_id, other, client_mode, role, scopes, signed_at_ms, token, nonce, platform, device_family);
        lemma_same_middle(p2, client_id, other, q2);
    }
    if device_auth_payload(
        device_id,
        client_id,
        client_mode,
        role,
        scopes,
        signed_at_ms,
        token,
        nonce,
        platform,
        device_family,
    ) == device_auth_payload(
        device_id,
        client_id,
        other,
        role,
        scopes,
        signed_at_ms,
        token,
        nonce,
        platform,
        device_family,
    ) {
        lemma_signed_parts(device_id, client_id, other, role, scopes, signed_at_ms, token, nonce, platform, device_family);
        lemma_same_middle(p3, client_mode, other, q3);
    }
    if device_auth_payload(
        device_id,
        client_id,
        client_mode,
        role,
        scopes,
        signed_at_ms,
        token,
        nonce,
        platform,
        device_family,
    ) == device_auth_payload(
        device_id,
        client_id,
        client_mode,
        other,
        scopes,
        signed_at_ms,
        token,
        nonce,
        platform,
        device_family,
    ) {
        lemma_signed_parts(device_id, client_id, client_mode, other, scopes, signed_at_ms, token, nonce, platform, device_family);
        lemma_same_middle(p4, role, other, q4);
    }
    if device_auth_payload(
        device_id,
        client_id,
        client_mode,
        role,
        scopes,
        signed_at_ms,
        token,
        nonce,
        platform,
        device_family,
    ) == device_auth_payload(
        device_id,
        client_id,
        client_mode,
        role,
        other_scopes,
        signed_at_ms,
        token,
        nonce,
        platform,
        device_family,
    ) {
        lemma_signed_parts(device_id, client_id, client_mode, role, other_scopes, signed_at_ms, token, nonce, platform, device_family);
        lemma_same_middle(p5, s, s2, q5);
    }
    if device_auth_payload(
        device_id,
        client_id,
        client_mode,
        role,
        scopes,
        signed_at_ms,
        token,
        nonce,
        platform,
        device_family,
    ) == device_auth_payload(
        device_id,
        client_id,
        client_mode,
        role,
        scopes,
        other_time,
        token,
        nonce,
        platform,
        device_family,
    ) {
        lemma_signed_parts(device_id, client_id, client_mode, role, scopes, other_time, token, nonce, platform, device_family);
        lemma_same_middle(p6, t, t2, q6);
        text::law_numbers_are_written_differently(signed_at_ms as nat, other_time as nat);
    }
    if device_auth_payload(
        device_id,
        client_id,
        client_mode,
        role,
        scopes,
        signed_at_ms,
        token,
        nonce,
        platform,
        device_family,
    ) == device_auth_payload(
        device_id,
        client_id,
        client_mode,
        role,
        scopes,
        signed_at_ms,
        Some(other),
        nonce,
        platform,
        device_family,
    ) {
        lemma_signed_parts(device_id, client_id, client_mode, role, scopes, signed_at_ms, Some(other), nonce, platform, device_family);
        lemma_same_middle(p7, k, other, q7);
    }
    if device_auth_payload(
        device_id,
        client_id,
        client_mode,
        role,
        scopes,
        signed_at_ms,
        token,
        nonce,
        platform,
        device_family,
    ) == device_auth_payload(
        device_id,
        client_id,
        client_mode,
        role,
        scopes,
        signed_at_ms,
        token,
        other,
        platform,
        device_family,
    ) {
        lemma_signed_parts(device_id, client_id, client_mode, role, scopes, signed_at_ms, token, other, platform, device_family);
        lemma_same_middle(p8, nonce, other, q8);
    }
}

proof fn lemma_part(before: Seq<char>, part: Seq<char>, after: Seq<char>)
    ensures
        text::has_part(before + part + after, part),
{
    let all = before + part + after;
    let i: int = before.len() as int;
    assert(all.subrange(i, i + part.len()) =~= part);
}

/// The description of a hello tells its type, its protocol, the role, how many scopes and tokens it
/// grants and whether there is a token for the device.
pub proof fn law_hello_is_described(
    payload: JsonView,
    auth: JsonView,
    protocol: u64,
    role: Seq<char>,
    scopes: Seq<JsonView>,
    tokens: Seq<JsonView>,
)
    requires
        payload.member("auth"@) == Some(auth),
        payload.member("protocol"@) == Some(JsonView::Number(NumberView::Unsigned(protocol))),
        auth.text_member("role"@) == Some(role),
        auth.items_member("scopes"@) == Some(scopes),
        auth.items_member("deviceTokens"@) == Some(tokens),
    ensures
        ({
            let told = hello_description(payload);
            &&& payload.text_member("type"@) matches Some(kind) ==> ("type="@ + kind).is_prefix_of(
                told,
            )
            &&& text::has_part(told, " protocol="@ + text::decimal(protocol as nat))
            &&& text::has_part(told, " auth_role="@ + role)
            &&& text::has_part(told, " auth_scope_count="@ + text::decimal(scopes.len()))
            &&& auth.text_member("deviceToken"@) is Some ==> text::has_part(
                told,
                " has_device_token="@ + "true"@,
            )
            &&& auth.text_member("deviceToken"@) is None ==> text::has_part(
                told,
                " has_device_token="@ + "false"@,
            )
            &&& (" device_token_count="@ + text::decimal(tokens.len())).is_suffix_of(told)
        }),
{
    let told = hello_description(payload);
    let a = "type="@ + or_missing(payload.text_member("type"@));
    let b = " protocol="@ + text::decimal(protocol as nat);
    let c = " auth_role="@ + role;
    let d = " auth_scope_count="@ + text::decimal(scopes.len());
    let e = " has_device_token="@ + yes_or_no(auth.text_member("deviceToken"@) is Some);
    let f = " device_token_count="@ + text::decimal(tokens.len());
    assert(told =~= a + b + c + d + e + f);
    assert(told.take(a.len() as int) =~= a);
    assert(told.skip(told.len() - f.len()) =~= f);
    lemma_part(a, b, c + d + e + f);
    assert(told =~= a + b + (c + d + e + f));
    lemma_part(a + b, c, d + e + f);
    assert(told =~= a + b + c + (d + e + f));
    lemma_part(a + b + c, d, e + f);
    assert(told =~= a + b + c + d + (e + f));
    lemma_part(a + b + c + d, e, f);
}

} // verus!
