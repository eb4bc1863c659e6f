//! Under which identity the daemon is known to a server, and what it keeps of a session.

use vstd::prelude::*;

use crate::config;
use crate::config::quote_debug;
use crate::crypto;
use crate::crypto::{decode_base64url, encode_base64url, public_key, secret_from_der, sign};
use crate::failure;
use crate::failure::{failure, Failure};
use crate::text;

verus! {

pub const DEFAULT_SUBSPACE_OWNER: &'static str = "openclaw";

// ---------------------------------------------------------------------------
// Named identities
// ---------------------------------------------------------------------------

/// An identity: a name and a key pair.
#[derive(Debug, Clone)]
pub struct NamedIdentityRecord {
    name: String,
    public_key: String,
    secret: Vec<u8>,
}

pub struct IdentityView {
    pub name: Seq<char>,
    /// The public key in URL-safe Base64.
    pub public_key: Seq<char>,
    pub secret: Seq<u8>,
}

impl View for NamedIdentityRecord {
    type V = IdentityView;

    closed spec fn view(&self) -> IdentityView {
        IdentityView {
            name: self.name@,
            public_key: self.public_key@,
            secret: self.secret@,
        }
    }
}

/// The file in which an identity is kept.
#[derive(Debug, Clone)]
pub struct IdentityFile {
    pub name: String,
    pub created_at: String,
    pub public_key: String,
    /// The secret key in URL-safe Base64.
    pub private_key: String,
}

pub open spec fn name_char(c: char) -> bool {
    text::ascii_lower(c) || text::ascii_digit(c) || c == '-'
}

pub open spec fn is_name(s: Seq<char>) -> bool {
    forall|i: int| 0 <= i < s.len() ==> name_char(#[trigger] s[i])
}

/// The name that is meant, or what is wrong with it.
pub open spec fn valid_name(raw: Seq<char>) -> Result<Seq<char>, Seq<char>> {
    let name = text::trimmed(raw);
    if name.len() == 0 {
        Err("identity name must not be empty"@)
    } else if is_name(name) {
        Ok(name)
    } else {
        Err("identity name must be lowercase alphanumeric plus hyphens"@)
    }
}

/// What an identity's file holds: the file is named `stem`.
pub open spec fn identity_in(stem: Seq<char>, file: IdentityFile) -> Result<
    IdentityView,
    Seq<char>,
> {
    if file.name@ != stem {
        Err(
            "identity file name mismatch: expected "@ + config::debug_quoted(stem) + ", got "@
                + config::debug_quoted(file.name@),
        )
    } else {
        match crypto::base64url_decoded(file.private_key@) {
            None => Err("invalid identity private key"@),
            Some(secret) => if secret.len() != crypto::SECRET_LEN {
                Err("invalid Ed25519 private key length"@)
            } else {
                Ok(IdentityView { name: file.name@, public_key: file.public_key@, secret })
            },
        }
    }
}

/// What is wrong with using an identity for an agent.
pub open spec fn agent_mismatch(identity: IdentityView, agent_id: Seq<char>) -> Option<Seq<char>> {
    if identity.public_key == agent_id {
        None
    } else {
        Some(
            "identity "@ + config::debug_quoted(identity.name)
                + " public key does not match session agent_id "@ + agent_id,
        )
    }
}

/// An identity that is made of a secret key.
pub open spec fn identity_of_secret(name: Seq<char>, secret: Seq<u8>) -> IdentityView {
    IdentityView { name, public_key: crypto::base64url(crypto::ed25519_public(secret)), secret }
}

/// An identity that has been loaded, or made: then it is to be kept.
#[derive(Debug, Clone)]
pub struct ResolvedIdentity {
    pub identity: NamedIdentityRecord,
    pub created: bool,
}

pub open spec fn resolved(result: Result<ResolvedIdentity, Failure>) -> Result<
    (IdentityView, bool),
    Seq<char>,
> {
    match result {
        Ok(r) => Ok((r.identity@, r.created)),
        Err(f) => Err(f@),
    }
}

/// The identity with the given name: the one in its file, or where there is no file, one made of
/// `secret`.
pub open spec fn loaded_or_created(
    raw_name: Seq<char>,
    file: Option<IdentityFile>,
    secret: Seq<u8>,
) -> Result<(IdentityView, bool), Seq<char>> {
    match valid_name(raw_name) {
        Err(message) => Err(message),
        Ok(name) => match file {
            Some(f) => match identity_in(name, f) {
                Ok(identity) => Ok((identity, false)),
                Err(message) => Err(message),
            },
            None => Ok((identity_of_secret(name, secret), true)),
        },
    }
}

/// The identity that takes over from a session with a key pair of its own.
pub open spec fn loaded_or_taken_over(
    raw_name: Seq<char>,
    file: Option<IdentityFile>,
    legacy: LegacyView,
) -> Result<(IdentityView, bool), Seq<char>> {
    match valid_name(raw_name) {
        Err(message) => Err(message),
        Ok(name) => match file {
            Some(f) => match identity_in(name, f) {
                Ok(identity) => match agent_mismatch(identity, legacy.agent_id) {
                    Some(message) => Err(message),
                    None => Ok((identity, false)),
                },
                Err(message) => Err(message),
            },
            None => Ok(
                (
                    IdentityView { name, public_key: legacy.agent_id, secret: legacy.secret },
                    true,
                ),
            ),
        },
    }
}

/// The signature of a text in URL-safe Base64.
pub open spec fn signature_of(secret: Seq<u8>, payload: Seq<char>) -> Seq<char> {
    crypto::base64url(crypto::ed25519_signature(secret, vstd::utf8::encode_utf8(payload)))
}

pub open spec fn identity_result(result: Result<NamedIdentityRecord, Failure>) -> Result<
    IdentityView,
    Seq<char>,
> {
    match result {
        Ok(identity) => Ok(identity@),
        Err(f) => Err(f@),
    }
}

pub open spec fn unit_problem(result: Result<(), Failure>) -> Option<Seq<char>> {
    match result {
        Ok(()) => None,
        Err(f) => Some(f@),
    }
}

impl NamedIdentityRecord {
    pub closed spec fn wf(&self) -> bool {
        self.secret@.len() == crypto::SECRET_LEN
    }

    /// The name that is meant: lower-case letters, digits and hyphens.
    pub fn validate_name(raw: &str) -> (result: Result<String, Failure>)
        ensures
            failure::text_result(result) == valid_name(raw@),
    {
        let trimmed = text::trim(raw);
        let chars = text::chars_of(trimmed);
        if chars.len() == 0 {
            return Err(failure("identity name must not be empty"));
        }
        let mut i: usize = 0;
        while i < chars.len()
            invariant
                i <= chars.len(),
                chars@ == trimmed@,
                trimmed@ == text::trimmed(raw@),
                chars@.len() > 0,
                forall|j: int| 0 <= j < i ==> name_char(#[trigger] trimmed@[j]),
            decreases chars.len() - i,
        {
            let c: char = chars[i];
            if !(('a' <= c && c <= 'z') || ('0' <= c && c <= '9') || c == '-') {
                assert(!name_char(trimmed@[i as int]));
                return Err(failure("identity name must be lowercase alphanumeric plus hyphens"));
            }
            i = i + 1;
        }
        Ok(trimmed.to_owned())
    }

    /// Reads an identity from its file, which is named `stem`.
    pub fn load(stem: &str, file: IdentityFile) -> (result: Result<Self, Failure>)
        ensures
            identity_result(result) == identity_in(stem@, file),
            result matches Ok(identity) ==> identity.wf(),
    {
        if !text::same_text(file.name.as_str(), stem) {
            let mut message = "identity file name mismatch: expected ".to_owned();
            message.append(quote_debug(stem).as_str());
            message.append(", got ");
            message.append(quote_debug(file.name.as_str()).as_str());
            return Err(Failure { message });
        }
        let secret = match decode_base64url(file.private_key.as_str()) {
            Some(secret) => secret,
            None => return Err(failure("invalid identity private key")),
        };
        if secret.len() != crypto::SECRET_LEN {
            return Err(failure("invalid Ed25519 private key length"));
        }
        Ok(NamedIdentityRecord { name: file.name, public_key: file.public_key, secret })
    }

    /// The identity with the given name: the one in its file, or where there is no file, one made
    /// of `secret`, which nobody else knows.
    pub fn load_or_create(name: &str, file: Option<IdentityFile>, secret: Vec<u8>) -> (result:
        Result<ResolvedIdentity, Failure>)
        requires
            secret@.len() == crypto::SECRET_LEN,
        ensures
            resolved(result) == loaded_or_created(name@, file, secret@),
            result matches Ok(r) ==> r.identity.wf(),
    {
        let name = match NamedIdentityRecord::validate_name(name) {
            Ok(name) => name,
            Err(f) => return Err(f),
        };
        match file {
            Some(file) => match NamedIdentityRecord::load(name.as_str(), file) {
                Ok(identity) => Ok(ResolvedIdentity { identity, created: false }),
                Err(f) => Err(f),
            },
            None => {
                let public = public_key(&secret);
                Ok(
                    ResolvedIdentity {
                        identity: NamedIdentityRecord {
                            name,
                            public_key: encode_base64url(public.as_slice()),
                            secret,
                        },
                        created: true,
                    },
                )
            },
        }
    }

    /// The identity with the given name: the one in its file, which must be that of the session,
    /// or where there is no file, one with the session's key pair.
    pub fn load_or_create_from_legacy(
        name: &str,
        file: Option<IdentityFile>,
        legacy: &LegacySubspaceSessionRecord,
    ) -> (result: Result<ResolvedIdentity, Failure>)
        requires
            legacy.wf(),
        ensures
            resolved(result) == loaded_or_taken_over(name@, file, legacy@),
            result matches Ok(r) ==> r.identity.wf(),
    {
        let name = match NamedIdentityRecord::validate_name(name) {
            Ok(name) => name,
            Err(f) => return Err(f),
        };
        match file {
            Some(file) => {
                let identity = match NamedIdentityRecord::load(name.as_str(), file) {
                    Ok(identity) => identity,
                    Err(f) => return Err(f),
                };
                match identity.ensure_matches_agent_id(legacy.agent_id.as_str()) {
                    Ok(()) => Ok(ResolvedIdentity { identity, created: false }),
                    Err(f) => Err(f),
                }
            },
            None => Ok(
                ResolvedIdentity {
                    identity: NamedIdentityRecord {
                        name,
                        public_key: legacy.agent_id.clone(),
                        secret: copy_bytes(&legacy.secret),
                    },
                    created: true,
                },
            ),
        }
    }

    /// The file in which the identity is kept. What is read from it, where it is named after the
    /// identity, is the identity.
    pub fn to_file(&self, created_at: &str) -> (file: IdentityFile)
        requires
            self.wf(),
        ensures
            file.name@ == self@.name,
            file.created_at@ == created_at@,
            file.public_key@ == self@.public_key,
            file.private_key@ == crypto::base64url(self@.secret),
            identity_in(self@.name, file) == Ok::<IdentityView, Seq<char>>(self@),
    {
        IdentityFile {
            name: self.name.clone(),
            created_at: created_at.to_owned(),
            public_key: self.public_key.clone(),
            private_key: encode_base64url(self.secret.as_slice()),
        }
    }

    /// The name of the identity.
    pub fn name(&self) -> (name: &str)
        ensures
            name@ == self@.name,
    {
        self.name.as_str()
    }

    /// The public key in URL-safe Base64.
    pub fn public_key(&self) -> (key: &str)
        ensures
            key@ == self@.public_key,
    {
        self.public_key.as_str()
    }

    /// The signature of a text in URL-safe Base64.
    pub fn sign_canonical_payload(&self, payload: &str) -> (signature: String)
        requires
            self.wf(),
        ensures
            signature@ == signature_of(self@.secret, payload@),
    {
        encode_base64url(sign(&self.secret, payload.as_bytes()).as_slice())
    }

    /// Checks that the identity is that of an agent.
    pub fn ensure_matches_agent_id(&self, agent_id: &str) -> (result: Result<(), Failure>)
        ensures
            unit_problem(result) == agent_mismatch(self@, agent_id@),
    {
        if text::same_text(self.public_key.as_str(), agent_id) {
            return Ok(());
        }
        let mut message = "identity ".to_owned();
        message.append(quote_debug(self.name.as_str()).as_str());
        message.append(" public key does not match session agent_id ");
        message.append(agent_id);
        Err(Failure { message })
    }
}

fn copy_bytes(bytes: &Vec<u8>) -> (copy: Vec<u8>)
    ensures
        copy@ == bytes@,
{
    let mut copy: Vec<u8> = Vec::new();
    let mut i: usize = 0;
    while i < bytes.len()
        invariant
            i <= bytes.len(),
            copy@ == bytes@.take(i as int),
        decreases bytes.len() - i,
    {
        copy.push(bytes[i]);
        i = i + 1;
    }
    assert(bytes@.take(bytes@.len() as int) == bytes@);
    copy
}

/// The name of the file in which an identity is kept.
pub open spec fn identity_file_of(name: Seq<char>) -> Seq<char> {
    name + ".json"@
}

/// The name of the file in which an identity is kept.
pub fn identity_file_name(name: &str) -> (file: String)
    ensures
        file@ == identity_file_of(name@),
{
    let mut file = name.to_owned();
    file.append(".json");
    file
}

// ---------------------------------------------------------------------------
// Sessions
// ---------------------------------------------------------------------------

/// A session with a server, under a named identity.
#[derive(Debug, Clone)]
pub struct SubspaceSessionRecord {
    pub identity: String,
    pub agent_id: String,
    pub session_token: Option<String>,
}

pub struct SessionView {
    pub identity: Seq<char>,
    pub agent_id: Seq<char>,
    pub session_token: Option<Seq<char>>,
}

impl View for SubspaceSessionRecord {
    type V = SessionView;

    open spec fn view(&self) -> SessionView {
        SessionView {
            identity: self.identity@,
            agent_id: self.agent_id@,
            session_token: text::opt_text(self.session_token),
        }
    }
}

impl SubspaceSessionRecord {
    /// A session without a token.
    pub fn new(identity: String, agent_id: String) -> (session: Self)
        ensures
            session@ == (SessionView {
                identity: identity@,
                agent_id: agent_id@,
                session_token: None,
            }),
    {
        SubspaceSessionRecord { identity, agent_id, session_token: None }
    }

    /// Forgets the token.
    pub fn clear_session_token(&mut self)
        ensures
            final(self)@ == (SessionView { session_token: None, ..old(self)@ }),
    {
        self.session_token = None;
    }

    /// Takes a new token.
    pub fn update_session_token(&mut self, token: String)
        ensures
            final(self)@ == (SessionView { session_token: Some(token@), ..old(self)@ }),
    {
        self.session_token = Some(token);
    }
}

/// A session with a key pair of its own, as the daemon once kept it.
#[derive(Debug, Clone)]
pub struct LegacySubspaceSessionRecord {
    agent_id: String,
    registration_name: String,
    session_token: Option<String>,
    secret: Vec<u8>,
    private_key: String,
}

pub struct LegacyView {
    pub agent_id: Seq<char>,
    pub registration_name: Seq<char>,
    pub session_token: Option<Seq<char>>,
    pub secret: Seq<u8>,
    /// The secret key as it stood in the file.
    pub private_key: Seq<char>,
}

impl View for LegacySubspaceSessionRecord {
    type V = LegacyView;

    closed spec fn view(&self) -> LegacyView {
        LegacyView {
            agent_id: self.agent_id@,
            registration_name: self.registration_name@,
            session_token: text::opt_text(self.session_token),
            secret: self.secret@,
            private_key: self.private_key@,
        }
    }
}

/// The file of a session with a key pair of its own.
#[derive(Debug, Clone)]
pub struct LegacySessionFile {
    pub version: u8,
    pub public_key: String,
    /// The secret key as a PKCS#8 document in DER notation, in URL-safe Base64.
    pub private_key: String,
    pub owner: String,
    pub name: String,
    pub session_token: Option<String>,
}

/// The session that a file of the old kind holds.
pub open spec fn legacy_in(file: LegacySessionFile) -> Result<LegacyView, Seq<char>> {
    match crypto::base64url_decoded(file.private_key@) {
        None => Err("invalid legacy session private key"@),
        Some(der) => match crypto::der_secret(der) {
            Err(message) => Err(message),
            Ok(secret) => Ok(
                LegacyView {
                    agent_id: file.public_key@,
                    registration_name: file.name@,
                    session_token: text::opt_text(file.session_token),
                    secret,
                    private_key: file.private_key@,
                },
            ),
        },
    }
}

/// The session in which a session with a key pair of its own goes on under a named identity.
pub open spec fn migrated(legacy: LegacyView, identity: IdentityView) -> Result<
    SessionView,
    Seq<char>,
> {
    match agent_mismatch(identity, legacy.agent_id) {
        Some(message) => Err(message),
        None => Ok(
            SessionView {
                identity: identity.name,
                agent_id: legacy.agent_id,
                session_token: legacy.session_token,
            },
        ),
    }
}

pub open spec fn session_result(result: Result<SubspaceSessionRecord, Failure>) -> Result<
    SessionView,
    Seq<char>,
> {
    match result {
        Ok(session) => Ok(session@),
        Err(f) => Err(f@),
    }
}

pub open spec fn legacy_result(result: Result<LegacySubspaceSessionRecord, Failure>) -> Result<
    LegacyView,
    Seq<char>,
> {
    match result {
        Ok(session) => Ok(session@),
        Err(f) => Err(f@),
    }
}

impl LegacySubspaceSessionRecord {
    /// The secret key is the one that stood in the file.
    pub closed spec fn wf(&self) -> bool {
        &&& self.secret@.len() == crypto::SECRET_LEN
        &&& crypto::base64url_decoded(self.private_key@) matches Some(der) && crypto::der_secret(
            der,
        ) == Ok::<Seq<u8>, Seq<char>>(self.secret@)
    }

    /// Reads a session from its file.
    pub fn from_file(file: LegacySessionFile) -> (result: Result<Self, Failure>)
        ensures
            legacy_result(result) == legacy_in(file),
            result matches Ok(session) ==> session.wf(),
    {
        let der = match decode_base64url(file.private_key.as_str()) {
            Some(der) => der,
            None => return Err(failure("invalid legacy session private key")),
        };
        let secret = match secret_from_der(&der) {
            Ok(secret) => secret,
            Err(message) => return Err(Failure { message }),
        };
        Ok(
            LegacySubspaceSessionRecord {
                agent_id: file.public_key,
                registration_name: file.name,
                session_token: file.session_token,
                secret,
                private_key: file.private_key,
            },
        )
    }

    /// The file in which the session is kept. What is read from it is the session.
    pub fn to_file(&self) -> (file: LegacySessionFile)
        requires
            self.wf(),
        ensures
            legacy_in(file) == Ok::<LegacyView, Seq<char>>(self@),
            file.version == 1,
            file.public_key@ == self@.agent_id,
            file.private_key@ == self@.private_key,
            file.owner@ == DEFAULT_SUBSPACE_OWNER@,
            file.name@ == self@.registration_name,
            text::opt_text(file.session_token) == self@.session_token,
    {
        LegacySessionFile {
            version: 1,
            public_key: self.agent_id.clone(),
            private_key: self.private_key.clone(),
            owner: DEFAULT_SUBSPACE_OWNER.to_owned(),
            name: self.registration_name.clone(),
            session_token: text::copy_opt(&self.session_token),
        }
    }

    pub fn agent_id(&self) -> (id: &str)
        ensures
            id@ == self@.agent_id,
    {
        self.agent_id.as_str()
    }

    pub fn registration_name(&self) -> (name: &str)
        ensures
            name@ == self@.registration_name,
    {
        self.registration_name.as_str()
    }

    pub fn session_token(&self) -> (token: Option<&str>)
        ensures
            text::opt_str(token) == self@.session_token,
    {
        match &self.session_token {
            Some(token) => Some(token.as_str()),
            None => None,
        }
    }

    /// Forgets the token.
    pub fn clear_session_token(&mut self)
        requires
            old(self).wf(),
        ensures
            final(self).wf(),
            final(self)@ == (LegacyView { session_token: None, ..old(self)@ }),
    {
        self.session_token = None;
    }

    /// Takes a new token.
    pub fn update_session_token(&mut self, token: String)
        requires
            old(self).wf(),
        ensures
            final(self).wf(),
            final(self)@ == (LegacyView { session_token: Some(token@), ..old(self)@ }),
    {
        self.session_token = Some(token);
    }

    /// The signature of a text in URL-safe Base64.
    pub fn sign_canonical_payload(&self, payload: &str) -> (signature: String)
        requires
            self.wf(),
        ensures
            signature@ == signature_of(self@.secret, payload@),
    {
        encode_base64url(sign(&self.secret, payload.as_bytes()).as_slice())
    }

    /// The session under a named identity, which must have the same key.
    pub fn migrate_to_identity(&self, identity: &NamedIdentityRecord) -> (result: Result<
        SubspaceSessionRecord,
        Failure,
    >)
        ensures
            session_result(result) == migrated(self@, identity@),
    {
        match identity.ensure_matches_agent_id(self.agent_id.as_str()) {
            Ok(()) => {},
            Err(f) => return Err(f),
        }
        let mut session = SubspaceSessionRecord::new(
            identity.name().to_owned(),
            self.agent_id.clone(),
        );
        if let Some(token) = &self.session_token {
            session.update_session_token(token.clone());
        }
        Ok(session)
    }
}

/// A session as it was found.
#[derive(Debug, Clone)]
pub enum LoadedSessionRecord {
    Current(SubspaceSessionRecord),
    Legacy(LegacySubspaceSessionRecord),
}

/// The file of a session: whether there is one, and as what it could be read.
#[derive(Debug, Clone)]
pub enum SessionFile {
    Absent,
    Current(SubspaceSessionRecord),
    Legacy(LegacySessionFile),
    /// It is neither; the reason says why.
    Malformed(String),
}

pub enum LoadedView {
    Current(SessionView),
    Legacy(LegacyView),
}

impl View for LoadedSessionRecord {
    type V = LoadedView;

    open spec fn view(&self) -> LoadedView {
        match self {
            LoadedSessionRecord::Current(session) => LoadedView::Current(session@),
            LoadedSessionRecord::Legacy(session) => LoadedView::Legacy(session@),
        }
    }
}

/// The session in a file.
pub open spec fn session_in(file: SessionFile) -> Result<Option<LoadedView>, Seq<char>> {
    match file {
        SessionFile::Absent => Ok(None),
        SessionFile::Current(session) => Ok(Some(LoadedView::Current(session@))),
        SessionFile::Legacy(legacy) => match legacy_in(legacy) {
            Ok(session) => Ok(Some(LoadedView::Legacy(session))),
            Err(message) => Err(message),
        },
        SessionFile::Malformed(message) => Err(message@),
    }
}

pub open spec fn loaded_result(result: Result<Option<LoadedSessionRecord>, Failure>) -> Result<
    Option<LoadedView>,
    Seq<char>,
> {
    match result {
        Ok(Some(session)) => Ok(Some(session@)),
        Ok(None) => Ok(None),
        Err(f) => Err(f@),
    }
}

impl LoadedSessionRecord {
    pub open spec fn wf(&self) -> bool {
        match self {
            LoadedSessionRecord::Current(_) => true,
            LoadedSessionRecord::Legacy(session) => session.wf(),
        }
    }
}

/// Reads the session in a file.
pub fn load_session_record(file: SessionFile) -> (result: Result<
    Option<LoadedSessionRecord>,
    Failure,
>)
    ensures
        loaded_result(result) == session_in(file),
        result matches Ok(Some(session)) ==> session.wf(),
{
    match file {
        SessionFile::Absent => Ok(None),
        SessionFile::Current(session) => Ok(Some(LoadedSessionRecord::Current(session))),
        SessionFile::Legacy(legacy) => match LegacySubspaceSessionRecord::from_file(legacy) {
            Ok(session) => Ok(Some(LoadedSessionRecord::Legacy(session))),
            Err(f) => Err(f),
        },
        SessionFile::Malformed(message) => Err(Failure { message }),
    }
}

// ---------------------------------------------------------------------------
// Laws
// ---------------------------------------------------------------------------

/// Once an identity stands in its file, it is what its name stands for, whatever new secret is at
/// hand.
pub proof fn law_identity_is_made_once(
    raw_name: Seq<char>,
    first_secret: Seq<u8>,
    file: IdentityFile,
    second_secret: Seq<u8>,
)
    requires
        valid_name(raw_name) is Ok,
        identity_in(valid_name(raw_name)->Ok_0, file) == Ok::<IdentityView, Seq<char>>(
            identity_of_secret(valid_name(raw_name)->Ok_0, first_secret),
        ),
    ensures
        loaded_or_created(raw_name, None, first_secret) == Ok::<(IdentityView, bool), Seq<char>>(
            (identity_of_secret(valid_name(raw_name)->Ok_0, first_secret), true),
        ),
        loaded_or_created(raw_name, Some(file), second_secret) == Ok::<
            (IdentityView, bool),
            Seq<char>,
        >((identity_of_secret(valid_name(raw_name)->Ok_0, first_secret), false)),
{
}

/// A session with a key pair of its own can always go on under an identity that takes over its key
/// pair: it stays the same agent, keeps its token and signs as before.
pub proof fn law_migration_keeps_the_agent(raw_name: Seq<char>, legacy: LegacyView)
    requires
        valid_name(raw_name) is Ok,
    ensures
        loaded_or_taken_over(raw_name, None, legacy) matches Ok((identity, created)) && created
            && migrated(legacy, identity) == Ok::<SessionView, Seq<char>>(
            SessionView {
                identity: valid_name(raw_name)->Ok_0,
                agent_id: legacy.agent_id,
                session_token: legacy.session_token,
            },
        ) && forall|payload: Seq<char>| #[trigger]
            signature_of(identity.secret, payload) == signature_of(legacy.secret, payload),
{
}

/// A session never goes on under an identity of another agent.
pub proof fn law_migration_needs_the_same_key(
    raw_name: Seq<char>,
    file: Option<IdentityFile>,
    legacy: LegacyView,
)
    ensures
        loaded_or_taken_over(raw_name, file, legacy) matches Ok((identity, _))
            ==> identity.public_key == legacy.agent_id,
        forall|identity: IdentityView| #[trigger]
            migrated(legacy, identity) is Ok <==> identity.public_key == legacy.agent_id,
{
}

/// A valid name is not changed by validating it again.
pub proof fn law_valid_name_is_stable(raw: Seq<char>)
    requires
        valid_name(raw) is Ok,
    ensures
        valid_name(valid_name(raw)->Ok_0) == valid_name(raw),
{
    text::lemma_trimmed_twice(raw);
}

/// A name is valid exactly if, without the white space around it, it has letters of lower case, digits
/// and hyphens only, and at least one of them.
pub proof fn law_valid_name_has_its_letters(raw: Seq<char>)
    ensures
        ({
            let name = text::trimmed(raw);
            valid_name(raw) is Ok <==> name.len() > 0 && forall|i: int|
                0 <= i < name.len() ==> ('a' <= #[trigger] name[i] <= 'z' || '0' <= name[i] <= '9'
                    || name[i] == '-')
        }),
        valid_name(raw) matches Ok(name) ==> name == text::trimmed(raw),
{
    let name = text::trimmed(raw);
    if valid_name(raw) is Ok {
        assert forall|i: int| 0 <= i < name.len() implies ('a' <= #[trigger] name[i] <= 'z' || '0'
            <= name[i] <= '9' || name[i] == '-') by {
            assert(name_char(name[i]));
        }
    }
}

/// An identity's file holds the identity whose name it has, with the key pair that is in it.
pub proof fn law_identity_is_read_from_its_file(stem: Seq<char>, file: IdentityFile)
    ensures
        identity_in(stem, file) matches Ok(identity) ==> identity.name == stem && file.name@ == stem
            && identity.public_key == file.public_key@ && crypto::base64url_decoded(
            file.private_key@,
        ) == Some(identity.secret) && identity.secret.len() == 32,
        identity_in(stem, file) is Ok <==> file.name@ == stem && (crypto::base64url_decoded(
            file.private_key@,
        ) matches Some(secret) && secret.len() == 32),
{
}

/// An identity that is made has the name that was asked for and the key that belongs to its secret.
pub proof fn law_made_identity_has_its_key(raw_name: Seq<char>, secret: Seq<u8>, file: IdentityFile)
    ensures
        loaded_or_created(raw_name, None, secret) matches Ok((identity, created)) ==> created
            && identity.name == text::trimmed(raw_name) && identity.secret == secret
            && identity.public_key == crypto::base64url(crypto::ed25519_public(secret)),
        loaded_or_created(raw_name, None, secret) is Ok <==> valid_name(raw_name) is Ok,
        loaded_or_created(raw_name, Some(file), secret) matches Ok((identity, created))
            ==> !created && identity.name == text::trimmed(raw_name) && identity.public_key
            == file.public_key@,
{
}

/// A session is found as it was stored, and what cannot be read is an error.
pub proof fn law_stored_session_is_found(
    session: SubspaceSessionRecord,
    legacy: LegacySessionFile,
    message: String,
)
    ensures
        session_in(SessionFile::Absent) == Ok::<Option<LoadedView>, Seq<char>>(None),
        session_in(SessionFile::Current(session)) matches Ok(Some(LoadedView::Current(found)))
            && found.identity == session.identity@ && found.agent_id == session.agent_id@
            && found.session_token == text::opt_text(session.session_token),
        session_in(SessionFile::Malformed(message)) is Err,
        session_in(SessionFile::Legacy(legacy)) matches Ok(found) ==> (found matches Some(
            LoadedView::Legacy(old),
        ) && old.agent_id == legacy.public_key@ && old.registration_name == legacy.name@
            && old.session_token == text::opt_text(legacy.session_token) && old.private_key
            == legacy.private_key@ && (crypto::base64url_decoded(legacy.private_key@) matches Some(
            der,
        ) && crypto::der_secret(der) == Ok::<Seq<u8>, Seq<char>>(old.secret))),
        crypto::base64url_decoded(legacy.private_key@) matches Some(der) ==> (crypto::der_secret(
            der,
        ) is Ok ==> session_in(SessionFile::Legacy(legacy)) is Ok),
{
}

/// An identity belongs to an agent exactly if its public key is the agent's id; else the message names
/// both.
pub proof fn law_identity_of_an_agent(identity: IdentityView, agent_id: Seq<char>)
    ensures
        agent_mismatch(identity, agent_id) is None <==> identity.public_key == agent_id,
        agent_mismatch(identity, agent_id) matches Some(message) ==> agent_id.is_suffix_of(message)
            && ("identity "@ + config::debug_quoted(identity.name)).is_prefix_of(message),
{
    if let Some(message) = agent_mismatch(identity, agent_id) {
        let head = "identity "@ + config::debug_quoted(identity.name);
        assert(message.skip(message.len() - agent_id.len()) =~= agent_id);
        assert(message.take(head.len() as int) =~= head);
    }
}

/// A signature is that of the text, in UTF-8, under the secret key.
pub proof fn law_signature_is_that_of_the_text(secret: Seq<u8>, payload: Seq<char>)
    ensures
        signature_of(secret, payload) == crypto::base64url(
            crypto::ed25519_signature(secret, vstd::utf8::encode_utf8(payload)),
        ),
{
}

/// Every identity has a file of its own.
pub proof fn law_identities_have_their_own_files(one: Seq<char>, other: Seq<char>)
    ensures
        one != other ==> identity_file_of(one) != identity_file_of(other),
        one.is_prefix_of(identity_file_of(one)),
        ".json"@.is_suffix_of(identity_file_of(one)),
{
    let a = identity_file_of(one);
    let b = identity_file_of(other);
    let n = ".json"@.len() as int;
    assert(a.take(one.len() as int) =~= one);
    assert(a.skip(a.len() - n) =~= ".json"@);
    assert(a.take(a.len() - n) =~= one);
    assert(b.take(b.len() - n) =~= other);
}

} // verus!
