//! How a server is set up: under which name and identity the daemon is known to it.

use vstd::prelude::*;

use crate::config;
use crate::config::{AppPaths, ServerConfig, StoredConfig};
use crate::failure;
use crate::failure::{failure, failure_with, Failure};
use crate::paths;
use crate::paths::join_path;
use crate::server_url;
use crate::server_url::{canonicalize_base_url, derive_server_key};
use crate::subspace::client;
use crate::subspace::identity;
use crate::subspace::identity::{
    LegacySubspaceSessionRecord, LoadedSessionRecord, NamedIdentityRecord, SubspaceSessionRecord,
};
use crate::text;

verus! {

/// What a setup is asked for.
#[derive(Debug, Clone)]
pub struct SetupRequest {
    pub url: String,
    pub name: Option<String>,
    pub identity: Option<String>,
}

/// What a setup has brought about.
#[derive(Debug, Clone)]
pub struct SetupResult {
    pub base_url: String,
    pub server_key: String,
    pub session_path: String,
    pub config_path: String,
    pub agent_id: String,
    pub identity: String,
    pub had_existing_session: bool,
    pub applied_live: bool,
}

// ---------------------------------------------------------------------------
// The server
// ---------------------------------------------------------------------------

/// The server that is set up, and where its session is kept.
#[derive(Debug, Clone)]
pub struct SetupTarget {
    pub base_url: String,
    pub server_key: String,
    pub session_path: String,
}

pub struct TargetView {
    pub base_url: Seq<char>,
    pub server_key: Seq<char>,
    pub session_path: Seq<char>,
}

impl View for SetupTarget {
    type V = TargetView;

    open spec fn view(&self) -> TargetView {
        TargetView {
            base_url: self.base_url@,
            server_key: self.server_key@,
            session_path: self.session_path@,
        }
    }
}

/// The server at a URL, whose state is kept under `root`.
pub open spec fn target_of(url: Seq<char>, root: Seq<char>) -> Result<TargetView, Seq<char>> {
    match server_url::canonical_base_url(url) {
        Err(message) => Err(message),
        Ok(base_url) => match server_url::server_key(base_url) {
            Err(message) => Err(message),
            Ok(server_key) => Ok(
                TargetView {
                    base_url,
                    server_key,
                    session_path: paths::joined_path(
                        config::under(root, "servers"@, server_key),
                        "subspace-session.json"@,
                    ),
                },
            ),
        },
    }
}

pub open spec fn target_result(result: Result<SetupTarget, Failure>) -> Result<
    TargetView,
    Seq<char>,
> {
    match result {
        Ok(target) => Ok(target@),
        Err(f) => Err(f@),
    }
}

/// The server at a URL.
pub fn setup_target(url: &str, paths: &AppPaths) -> (result: Result<SetupTarget, Failure>)
    ensures
        target_result(result) == target_of(url@, paths.root@),
{
    let base_url = match canonicalize_base_url(url) {
        Ok(base_url) => base_url,
        Err(f) => return Err(f),
    };
    let server_key = match derive_server_key(base_url.as_str()) {
        Ok(server_key) => server_key,
        Err(f) => return Err(f),
    };
    let servers_dir = join_path(paths.root.as_str(), "servers");
    let server_dir = join_path(servers_dir.as_str(), server_key.as_str());
    Ok(
        SetupTarget {
            base_url,
            server_key,
            session_path: join_path(server_dir.as_str(), "subspace-session.json"),
        },
    )
}

// ---------------------------------------------------------------------------
// Name and identity
// ---------------------------------------------------------------------------

pub open spec fn opt_loaded(session: Option<LoadedSessionRecord>) -> Option<identity::LoadedView> {
    match session {
        Some(s) => Some(s@),
        None => None,
    }
}

/// The name in a session of the old kind.
pub open spec fn session_registration_name(session: Option<identity::LoadedView>) -> Option<
    Seq<char>,
> {
    match session {
        Some(identity::LoadedView::Legacy(legacy)) => Some(legacy.registration_name),
        _ => None,
    }
}

/// The name under which the daemon registers: the one that was asked for, or else the one that the
/// configuration has, or else the one in the session, or else the usual one.
pub open spec fn resolved_name(
    requested: Option<Seq<char>>,
    configured: Option<Seq<char>>,
    session: Option<identity::LoadedView>,
    usual: Seq<char>,
) -> Result<Seq<char>, Seq<char>> {
    let name = match requested {
        Some(raw) => text::trimmed(raw),
        None => match configured {
            Some(name) => name,
            None => match session_registration_name(session) {
                Some(name) => name,
                None => usual,
            },
        },
    };
    if name.len() == 0 {
        Err("registration name must not be empty"@)
    } else {
        Ok(name)
    }
}

/// The name under which the daemon registers. `configured` is the name that the configuration has
/// for the server, and `usual` the one that the daemon takes by itself.
pub fn resolve_registration_name(
    requested_name: &Option<String>,
    configured: Option<String>,
    existing_session: &Option<LoadedSessionRecord>,
    usual: &str,
) -> (result: Result<String, Failure>)
    ensures
        failure::text_result(result) == resolved_name(
            text::opt_text(*requested_name),
            text::opt_text(configured),
            opt_loaded(*existing_session),
            usual@,
        ),
{
    let resolved = match requested_name {
        Some(raw) => text::trim(raw.as_str()).to_owned(),
        None => match configured {
            Some(name) => name,
            None => match existing_session {
                Some(LoadedSessionRecord::Legacy(legacy)) => legacy.registration_name().to_owned(),
                _ => usual.to_owned(),
            },
        },
    };
    if resolved.as_str().unicode_len() == 0 {
        return Err(failure("registration name must not be empty"));
    }
    Ok(resolved)
}

/// How the daemon comes to an identity at the server.
#[derive(Debug, Clone)]
pub enum IdentityPlan {
    /// The session goes on under its identity.
    Keep { identity: String },
    /// The session, which has a key pair of its own, goes on under this identity.
    Migrate { identity: String },
    /// The daemon registers under this identity.
    Register { identity: String },
}

pub enum IdentityPlanView {
    Keep { identity: Seq<char> },
    Migrate { identity: Seq<char> },
    Register { identity: Seq<char> },
}

impl View for IdentityPlan {
    type V = IdentityPlanView;

    open spec fn view(&self) -> IdentityPlanView {
        match self {
            IdentityPlan::Keep { identity } => IdentityPlanView::Keep { identity: identity@ },
            IdentityPlan::Migrate { identity } => IdentityPlanView::Migrate {
                identity: identity@,
            },
            IdentityPlan::Register { identity } => IdentityPlanView::Register {
                identity: identity@,
            },
        }
    }
}

/// How the daemon comes to an identity, given the one that was asked for and the session that there
/// is.
pub open spec fn planned_identity(
    requested: Option<Seq<char>>,
    session: Option<identity::LoadedView>,
) -> Result<IdentityPlanView, Seq<char>> {
    match session {
        Some(identity::LoadedView::Current(current)) => match requested {
            None => Ok(IdentityPlanView::Keep { identity: current.identity }),
            Some(raw) => match identity::valid_name(raw) {
                Err(message) => Err(message),
                Ok(name) => if name != current.identity {
                    Err(
                        "server identity is "@ + current.identity + ", not "@ + name
                            + "; delete the server state directory to switch identities"@,
                    )
                } else {
                    Ok(IdentityPlanView::Keep { identity: name })
                },
            },
        },
        Some(identity::LoadedView::Legacy(_)) => match requested {
            None => Err("legacy session file requires --identity to migrate"@),
            Some(raw) => match identity::valid_name(raw) {
                Err(message) => Err(message),
                Ok(name) => Ok(IdentityPlanView::Migrate { identity: name }),
            },
        },
        None => match requested {
            None => Err("setup requires --identity for a new server"@),
            Some(raw) => match identity::valid_name(raw) {
                Err(message) => Err(message),
                Ok(name) => Ok(IdentityPlanView::Register { identity: name }),
            },
        },
    }
}

pub open spec fn plan_result(result: Result<IdentityPlan, Failure>) -> Result<
    IdentityPlanView,
    Seq<char>,
> {
    match result {
        Ok(plan) => Ok(plan@),
        Err(f) => Err(f@),
    }
}

/// How the daemon comes to an identity.
pub fn plan_identity(
    requested: &Option<String>,
    existing_session: &Option<LoadedSessionRecord>,
) -> (result: Result<IdentityPlan, Failure>)
    ensures
        plan_result(result) == planned_identity(
            text::opt_text(*requested),
            opt_loaded(*existing_session),
        ),
{
    match existing_session {
        Some(LoadedSessionRecord::Current(current)) => {
            let raw = match requested {
                Some(raw) => raw,
                None => return Ok(IdentityPlan::Keep { identity: current.identity.clone() }),
            };
            let name = match NamedIdentityRecord::validate_name(raw.as_str()) {
                Ok(name) => name,
                Err(f) => return Err(f),
            };
            if !text::same_text(name.as_str(), current.identity.as_str()) {
                let mut message = "server identity is ".to_owned();
                message.append(current.identity.as_str());
                message.append(", not ");
                message.append(name.as_str());
                message.append("; delete the server state directory to switch identities");
                return Err(Failure { message });
            }
            Ok(IdentityPlan::Keep { identity: name })
        },
        Some(LoadedSessionRecord::Legacy(_)) => match requested {
            None => Err(failure("legacy session file requires --identity to migrate")),
            Some(raw) => match NamedIdentityRecord::validate_name(raw.as_str()) {
                Ok(identity) => Ok(IdentityPlan::Migrate { identity }),
                Err(f) => Err(f),
            },
        },
        None => match requested {
            None => Err(failure("setup requires --identity for a new server")),
            Some(raw) => match NamedIdentityRecord::validate_name(raw.as_str()) {
                Ok(identity) => Ok(IdentityPlan::Register { identity }),
                Err(f) => Err(f),
            },
        },
    }
}

/// A setup that can be carried out.
#[derive(Debug, Clone)]
pub struct SetupPlan {
    pub registration_name: String,
    pub identity: IdentityPlan,
    pub had_existing_session: bool,
}

pub struct SetupPlanView {
    pub registration_name: Seq<char>,
    pub identity: IdentityPlanView,
    pub had_existing_session: bool,
}

impl View for SetupPlan {
    type V = SetupPlanView;

    open spec fn view(&self) -> SetupPlanView {
        SetupPlanView {
            registration_name: self.registration_name@,
            identity: self.identity@,
            had_existing_session: self.had_existing_session,
        }
    }
}

/// What a setup will do.
pub open spec fn planned_setup(
    request: SetupRequest,
    base_url: Seq<char>,
    stored: StoredConfig,
    session: Option<identity::LoadedView>,
    usual_name: Seq<char>,
) -> Result<SetupPlanView, Seq<char>> {
    match resolved_name(
        text::opt_text(request.name),
        config::stored_registration_name(stored.servers@, base_url),
        session,
        usual_name,
    ) {
        Err(message) => Err(message),
        Ok(registration_name) => match planned_identity(text::opt_text(request.identity), session) {
            Err(message) => Err(message),
            Ok(identity) => Ok(
                SetupPlanView {
                    registration_name,
                    identity,
                    had_existing_session: session is Some,
                },
            ),
        },
    }
}

pub open spec fn setup_plan_result(result: Result<SetupPlan, Failure>) -> Result<
    SetupPlanView,
    Seq<char>,
> {
    match result {
        Ok(plan) => Ok(plan@),
        Err(f) => Err(f@),
    }
}

/// Plans a setup: `stored` is the configuration as it is, and `existing_session` the session that
/// there is for the server.
pub fn plan_setup(
    request: &SetupRequest,
    target: &SetupTarget,
    stored: &StoredConfig,
    existing_session: &Option<LoadedSessionRecord>,
    usual_name: &str,
) -> (result: Result<SetupPlan, Failure>)
    ensures
        setup_plan_result(result) == planned_setup(
            *request,
            target@.base_url,
            *stored,
            opt_loaded(*existing_session),
            usual_name@,
        ),
{
    let registration_name = match resolve_registration_name(
        &request.name,
        stored.registration_name_at(target.base_url.as_str()),
        existing_session,
        usual_name,
    ) {
        Ok(name) => name,
        Err(f) => return Err(f),
    };
    let identity = match plan_identity(&request.identity, existing_session) {
        Ok(identity) => identity,
        Err(f) => return Err(f),
    };
    Ok(
        SetupPlan {
            registration_name,
            identity,
            had_existing_session: existing_session.is_some(),
        },
    )
}

// ---------------------------------------------------------------------------
// What comes of it
// ---------------------------------------------------------------------------

/// The daemon's identity at the server, and the session that is to be stored where it has changed.
#[derive(Debug, Clone)]
pub struct SetupOutcome {
    pub identity: String,
    pub agent_id: String,
    pub session: Option<SubspaceSessionRecord>,
}

pub struct OutcomeView {
    pub identity: Seq<char>,
    pub agent_id: Seq<char>,
    pub session: Option<identity::SessionView>,
}

impl View for SetupOutcome {
    type V = OutcomeView;

    open spec fn view(&self) -> OutcomeView {
        OutcomeView {
            identity: self.identity@,
            agent_id: self.agent_id@,
            session: match self.session {
                Some(session) => Some(session@),
                None => None,
            },
        }
    }
}

pub open spec fn outcome_result(result: Result<SetupOutcome, Failure>) -> Result<
    OutcomeView,
    Seq<char>,
> {
    match result {
        Ok(outcome) => Ok(outcome@),
        Err(f) => Err(f@),
    }
}

/// A session that goes on under its identity.
pub open spec fn kept(
    session: identity::SessionView,
    name: Seq<char>,
    named: Option<identity::IdentityView>,
    identity_path: Seq<char>,
) -> Result<OutcomeView, Seq<char>> {
    match named {
        None => Err("missing identity file: "@ + identity_path),
        Some(found) => match identity::agent_mismatch(found, session.agent_id) {
            Some(message) => Err(message),
            None => Ok(OutcomeView { identity: name, agent_id: session.agent_id, session: None }),
        },
    }
}

/// Lets a session go on under its identity, which is what `identity_path` holds.
pub fn keep_session(
    session: &SubspaceSessionRecord,
    name: &str,
    named: &Option<NamedIdentityRecord>,
    identity_path: &str,
) -> (result: Result<SetupOutcome, Failure>)
    ensures
        outcome_result(result) == kept(session@, name@, client::opt_identity(*named), identity_path@),
{
    let found = match named {
        Some(found) => found,
        None => return Err(failure_with("missing identity file: ", identity_path)),
    };
    match found.ensure_matches_agent_id(session.agent_id.as_str()) {
        Ok(()) => Ok(
            SetupOutcome {
                identity: name.to_owned(),
                agent_id: session.agent_id.clone(),
                session: None,
            },
        ),
        Err(f) => Err(f),
    }
}

/// A session with a key pair of its own that goes on under an identity.
pub open spec fn moved(
    legacy: identity::LegacyView,
    named: identity::IdentityView,
) -> Result<OutcomeView, Seq<char>> {
    match identity::migrated(legacy, named) {
        Err(message) => Err(message),
        Ok(session) => Ok(
            OutcomeView {
                identity: named.name,
                agent_id: session.agent_id,
                session: Some(session),
            },
        ),
    }
}

/// Lets a session with a key pair of its own go on under an identity.
pub fn migrate_session(
    legacy: &LegacySubspaceSessionRecord,
    named: &NamedIdentityRecord,
) -> (result: Result<SetupOutcome, Failure>)
    ensures
        outcome_result(result) == moved(legacy@, named@),
{
    match legacy.migrate_to_identity(named) {
        Ok(session) => Ok(
            SetupOutcome {
                identity: named.name().to_owned(),
                agent_id: session.agent_id.clone(),
                session: Some(session),
            },
        ),
        Err(f) => Err(f),
    }
}

/// A session that begins with a registration.
pub open spec fn registered(named: identity::IdentityView, token: Seq<char>) -> OutcomeView {
    OutcomeView {
        identity: named.name,
        agent_id: named.public_key,
        session: Some(
            identity::SessionView {
                identity: named.name,
                agent_id: named.public_key,
                session_token: Some(token),
            },
        ),
    }
}

/// Begins a session with the token that a registration has brought.
pub fn begin_session(named: &NamedIdentityRecord, token: String) -> (outcome: SetupOutcome)
    ensures
        outcome@ == registered(named@, token@),
{
    let mut session = SubspaceSessionRecord::new(
        named.name().to_owned(),
        named.public_key().to_owned(),
    );
    session.update_session_token(token);
    SetupOutcome {
        identity: named.name().to_owned(),
        agent_id: named.public_key().to_owned(),
        session: Some(session),
    }
}

/// What a setup reports.
pub fn setup_result(
    target: SetupTarget,
    config_path: String,
    plan: &SetupPlan,
    outcome: SetupOutcome,
    applied_live: bool,
) -> (result: SetupResult)
    ensures
        result.base_url@ == target@.base_url,
        result.server_key@ == target@.server_key,
        result.session_path@ == target@.session_path,
        result.config_path@ == config_path@,
        result.agent_id@ == outcome@.agent_id,
        result.identity@ == outcome@.identity,
        result.had_existing_session == plan@.had_existing_session,
        result.applied_live == applied_live,
{
    SetupResult {
        base_url: target.base_url,
        server_key: target.server_key,
        session_path: target.session_path,
        config_path,
        agent_id: outcome.agent_id,
        identity: outcome.identity,
        had_existing_session: plan.had_existing_session,
        applied_live,
    }
}

/// The place of the first enabled server with the given base URL.
pub open spec fn enabled_place(servers: Seq<ServerConfig>, base_url: Seq<char>) -> Option<int>
    decreases servers.len(),
{
    if servers.len() == 0 {
        None
    } else if servers[0].base_url@ == base_url && servers[0].enabled {
        Some(0)
    } else {
        match enabled_place(servers.skip(1), base_url) {
            Some(i) => Some(i + 1),
            None => None,
        }
    }
}

/// The place of the server that is to be connected to after its setup.
pub fn server_to_start(servers: &Vec<ServerConfig>, base_url: &str) -> (result: Result<
    usize,
    Failure,
>)
    ensures
        match result {
            Ok(i) => enabled_place(servers@, base_url@) == Some(i as int) && i < servers.len(),
            Err(f) => enabled_place(servers@, base_url@) is None && f@
                == "configured server not found after setup"@,
        },
{
    let ghost all = servers@;
    let mut i: usize = 0;
    assert(all.skip(0) == all);
    while i < servers.len()
        invariant
            i <= servers.len(),
            all == servers@,
            enabled_place(all, base_url@) is Some <==> enabled_place(
                all.skip(i as int),
                base_url@,
            ) is Some,
            enabled_place(all.skip(i as int), base_url@) matches Some(k) ==> enabled_place(
                all,
                base_url@,
            ) == Some(k + i),
        decreases servers.len() - i,
    {
        if text::same_text(servers[i].base_url.as_str(), base_url) && servers[i].enabled {
            return Ok(i);
        }
        assert(all.skip(i as int).skip(1) == all.skip(i + 1));
        i = i + 1;
    }
    Err(failure("configured server not found after setup"))
}

// ---------------------------------------------------------------------------
// Laws
// ---------------------------------------------------------------------------

/// A setup never makes the daemon another agent at a server that has a session: whether the session
/// is kept or moved, the agent stays the same.
pub proof fn law_setup_keeps_the_agent(
    session: identity::SessionView,
    legacy: identity::LegacyView,
    name: Seq<char>,
    named: identity::IdentityView,
    identity_path: Seq<char>,
)
    ensures
        kept(session, name, Some(named), identity_path) matches Ok(outcome) ==> outcome.agent_id
            == session.agent_id && named.public_key == session.agent_id,
        moved(legacy, named) matches Ok(outcome) ==> outcome.agent_id == legacy.agent_id
            && named.public_key == legacy.agent_id && outcome.session->0.session_token
            == legacy.session_token,
{
}

/// A server with a session is never registered again, and its identity is never exchanged.
pub proof fn law_setup_keeps_the_identity(
    requested: Option<Seq<char>>,
    session: identity::LoadedView,
)
    ensures
        planned_identity(requested, Some(session)) matches Ok(plan) ==> !(plan is Register),
        session matches identity::LoadedView::Current(current) ==> (planned_identity(
            requested,
            Some(session),
        ) matches Ok(plan) ==> plan == (IdentityPlanView::Keep { identity: current.identity })),
{
}

/// The name that was asked for is the one that is used, whatever else is known; without one the
/// configuration decides, then the session, and the usual name comes last.
pub proof fn law_name_is_taken_from_the_first_source(
    raw: Seq<char>,
    configured: Option<Seq<char>>,
    name: Seq<char>,
    session: Option<identity::LoadedView>,
    legacy: identity::LegacyView,
    current: identity::SessionView,
    usual: Seq<char>,
)
    requires
        text::trimmed(raw).len() > 0,
        name.len() > 0,
        legacy.registration_name.len() > 0,
        usual.len() > 0,
    ensures
        resolved_name(Some(raw), configured, session, usual) == Ok::<Seq<char>, Seq<char>>(
            text::trimmed(raw),
        ),
        resolved_name(None, Some(name), session, usual) == Ok::<Seq<char>, Seq<char>>(name),
        resolved_name(None, None, Some(identity::LoadedView::Legacy(legacy)), usual) == Ok::<
            Seq<char>,
            Seq<char>,
        >(legacy.registration_name),
        resolved_name(None, None, Some(identity::LoadedView::Current(current)), usual) == Ok::<
            Seq<char>,
            Seq<char>,
        >(usual),
        resolved_name(None, None, None, usual) == Ok::<Seq<char>, Seq<char>>(usual),
{
}

/// A name that is used is never empty: to ask for a blank one is an error.
pub proof fn law_name_is_not_empty(
    requested: Option<Seq<char>>,
    configured: Option<Seq<char>>,
    session: Option<identity::LoadedView>,
    usual: Seq<char>,
)
    ensures
        resolved_name(requested, configured, session, usual) matches Ok(name) ==> name.len() > 0,
        requested matches Some(raw) ==> (text::trimmed(raw).len() == 0 ==> resolved_name(
            requested,
            configured,
            session,
            usual,
        ) is Err),
{
}

/// Under a valid identity a new server is registered with, and a session with a key pair of its own is
/// moved; without one a session that has an identity goes on, and any other setup is refused.
pub proof fn law_identity_decides_the_setup(
    raw: Seq<char>,
    legacy: identity::LegacyView,
    current: identity::SessionView,
)
    ensures
        identity::valid_name(raw) matches Ok(name) ==> {
            &&& planned_identity(Some(raw), None) == Ok::<IdentityPlanView, Seq<char>>(
                IdentityPlanView::Register { identity: name },
            )
            &&& planned_identity(Some(raw), Some(identity::LoadedView::Legacy(legacy))) == Ok::<
                IdentityPlanView,
                Seq<char>,
            >(IdentityPlanView::Migrate { identity: name })
            &&& planned_identity(Some(raw), Some(identity::LoadedView::Current(current))) is Ok
                <==> name == current.identity
        },
        identity::valid_name(raw) is Err ==> planned_identity(Some(raw), None) is Err
            && planned_identity(Some(raw), Some(identity::LoadedView::Legacy(legacy))) is Err
            && planned_identity(Some(raw), Some(identity::LoadedView::Current(current))) is Err,
        planned_identity(None, None) is Err,
        planned_identity(None, Some(identity::LoadedView::Legacy(legacy))) is Err,
        planned_identity(None, Some(identity::LoadedView::Current(current))) is Ok,
{
}

/// A setup is planned with its name and its identity, and knows whether there was a session.
pub proof fn law_setup_is_planned_in_full(
    request: SetupRequest,
    base_url: Seq<char>,
    stored: StoredConfig,
    session: Option<identity::LoadedView>,
    usual: Seq<char>,
)
    ensures
        ({
            let name = resolved_name(
                text::opt_text(request.name),
                config::stored_registration_name(stored.servers@, base_url),
                session,
                usual,
            );
            let plan = planned_identity(text::opt_text(request.identity), session);
            match planned_setup(request, base_url, stored, session, usual) {
                Ok(setup) => name == Ok::<Seq<char>, Seq<char>>(setup.registration_name) && plan
                    == Ok::<IdentityPlanView, Seq<char>>(setup.identity)
                    && setup.had_existing_session == (session is Some),
                Err(message) => name == Err::<Seq<char>, Seq<char>>(message) || name is Ok && plan
                    == Err::<IdentityPlanView, Seq<char>>(message),
            }
        }),
{
}

/// A registered server has a session with its token, for the agent of the identity.
pub proof fn law_registration_begins_a_session(named: identity::IdentityView, token: Seq<char>)
    ensures
        registered(named, token).agent_id == named.public_key,
        registered(named, token).identity == named.name,
        registered(named, token).session matches Some(session) && session.session_token == Some(
            token,
        ) && session.agent_id == named.public_key && session.identity == named.name,
{
}

/// A session that goes on is not written again, and it goes on exactly if its identity is still there
/// and is that of its agent.
pub proof fn law_session_goes_on(
    session: identity::SessionView,
    name: Seq<char>,
    named: Option<identity::IdentityView>,
    identity_path: Seq<char>,
    legacy: identity::LegacyView,
    target: identity::IdentityView,
)
    ensures
        kept(session, name, named, identity_path) is Ok <==> (named matches Some(found)
            && found.public_key == session.agent_id),
        kept(session, name, named, identity_path) matches Ok(outcome) ==> outcome.session is None
            && outcome.identity == name,
        moved(legacy, target) is Ok <==> target.public_key == legacy.agent_id,
        moved(legacy, target) matches Ok(outcome) ==> outcome.identity == target.name && (
        outcome.session matches Some(session) && session.identity == target.name
            && session.agent_id == legacy.agent_id),
{
}

/// The session of a server that is set up lies where the daemon looks for it.
pub proof fn law_session_is_found_again(
    url: Seq<char>,
    stored: config::StoredServerConfig,
    root: Seq<char>,
    default_name: Seq<char>,
)
    requires
        stored.base_url@ == url,
    ensures
        config::server_of(stored, root, default_name) matches Ok(server) ==> (target_of(url, root)
            matches Ok(target) && target.base_url == server.base_url && target.server_key
            == server.server_key && target.session_path == server.session_path),
        target_of(url, root) matches Ok(target) ==> server_url::canonical_base_url(url) == Ok::<
            Seq<char>,
            Seq<char>,
        >(target.base_url) && server_url::server_key(target.base_url) == Ok::<
            Seq<char>,
            Seq<char>,
        >(target.server_key),
        server_url::canonical_base_url(url) is Err ==> target_of(url, root) is Err,
{
}

/// The server that is connected to after its setup is the first enabled one at its URL.
pub proof fn law_server_that_is_set_up_is_started(servers: Seq<ServerConfig>, base_url: Seq<char>)
    ensures
        enabled_place(servers, base_url) is Some <==> exists|i: int|
            0 <= i < servers.len() && (#[trigger] servers[i]).enabled && servers[i].base_url@
                == base_url,
        enabled_place(servers, base_url) matches Some(k) ==> 0 <= k < servers.len()
            && servers[k].enabled && servers[k].base_url@ == base_url && forall|i: int|
            0 <= i < k ==> !((#[trigger] servers[i]).enabled && servers[i].base_url@ == base_url),
    decreases servers.len(),
{
    if servers.len() > 0 {
        let rest = servers.skip(1);
        law_server_that_is_set_up_is_started(rest, base_url);
        assert(forall|i: int| 0 <= i < rest.len() ==> #[trigger] rest[i] == servers[i + 1]);
        assert(forall|i: int| 1 <= i < servers.len() ==> #[trigger] servers[i] == rest[i - 1]);
        if let Some(k) = enabled_place(rest, base_url) {
            assert(servers[k + 1] == rest[k]);
        }
    }
}

} // verus!
