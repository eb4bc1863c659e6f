//! Setting up a server, and the commands around it.

use base64::engine::general_purpose::URL_SAFE_NO_PAD;
use base64::Engine;
use ed25519_dalek::pkcs8::EncodePrivateKey;
use ed25519_dalek::SigningKey;

use subspace_daemon::cli::{
    describe_setup_result, existing_setup_registration_name, is_send_command, name_source,
    prompt_answer, resolve_send_target, validate_registration_name, NameSource,
};
use subspace_daemon::config::{
    derive_app_paths, AppPaths, Config, StoredConfig, StoredServerConfig, Surroundings,
};
use subspace_daemon::setup::{
    begin_session, keep_session, migrate_session, plan_identity, plan_setup,
    resolve_registration_name, server_to_start, setup_result, setup_target, IdentityPlan,
    SetupRequest,
};
use subspace_daemon::subspace::identity::{
    load_session_record, LegacySessionFile, LegacySubspaceSessionRecord, LoadedSessionRecord,
    NamedIdentityRecord, SessionFile, SubspaceSessionRecord,
};

const BASE_URL: &str = "https://subspace.example.com";

fn text(value: &str) -> Option<String> {
    Some(value.to_string())
}

fn paths() -> AppPaths {
    derive_app_paths("/r/config.json", &text("/r"), &text("/home/me"), &None).unwrap()
}

fn stored_with(entries: &[(&str, &str, &str)]) -> StoredConfig {
    let mut stored = StoredConfig::default();
    for (base_url, name, identity) in entries {
        stored.servers.push(StoredServerConfig {
            base_url: base_url.to_string(),
            registration_name: text(name),
            identity: text(identity),
            local_pack_paths: None,
            enabled: None,
            wake_session_key: None,
        });
    }
    stored
}

fn named(name: &str, secret: u8) -> NamedIdentityRecord {
    NamedIdentityRecord::load_or_create(name, None, vec![secret; 32]).unwrap().identity
}

fn legacy_file(agent_id: &str, secret: u8) -> LegacySessionFile {
    let signing_key = SigningKey::from_bytes(&[secret; 32]);
    LegacySessionFile {
        version: 1,
        public_key: agent_id.to_string(),
        private_key: URL_SAFE_NO_PAD.encode(signing_key.to_pkcs8_der().unwrap().as_bytes()),
        owner: "openclaw".to_string(),
        name: "legacy-name".to_string(),
        session_token: text("token"),
    }
}

#[test]
fn existing_setup_registration_name_prefers_config_entry() {
    let stored = stored_with(&[("https://subspace.example.com", "heimdal", "heimdal")]);
    let name = existing_setup_registration_name(
        &stored,
        "https://subspace.example.com",
        SessionFile::Absent,
    )
    .unwrap();
    assert_eq!(name.as_deref(), Some("heimdal"));
}

#[test]
fn existing_setup_registration_name_uses_legacy_session_when_config_missing() {
    let name = existing_setup_registration_name(
        &StoredConfig::default(),
        "https://subspace.example.com",
        SessionFile::Legacy(legacy_file("agent", 3)),
    )
    .unwrap();
    assert_eq!(name.as_deref(), Some("legacy-name"));
}

#[test]
fn existing_name_may_be_missing_or_unreadable() {
    let none = StoredConfig::default();
    assert_eq!(
        existing_setup_registration_name(&none, BASE_URL, SessionFile::Absent).unwrap(),
        None
    );
    assert!(existing_setup_registration_name(
        &none,
        BASE_URL,
        SessionFile::Malformed("bad".to_string())
    )
    .is_err());
}

#[test]
fn perform_setup_live_mutates_only_targeted_server_config() {
    let base_url = "https://subspace.example.com";
    let identity = named("heimdal", 7);
    let mut stored = stored_with(&[
        (base_url, "heimdal-old", "heimdal"),
        ("https://other.example.com", "other", "other"),
    ]);
    let session = load_session_record(SessionFile::Current(SubspaceSessionRecord {
        identity: "heimdal".to_string(),
        agent_id: identity.public_key().to_string(),
        session_token: text("token"),
    }))
    .unwrap();
    let request =
        SetupRequest { url: base_url.to_string(), name: text("heimdal-new"), identity: None };

    let target = setup_target(&request.url, &paths()).unwrap();
    let plan = plan_setup(&request, &target, &stored, &session, "usual").unwrap();
    let outcome = match (&plan.identity, &session) {
        (IdentityPlan::Keep { identity: name }, Some(LoadedSessionRecord::Current(current))) => {
            keep_session(current, name, &Some(identity.clone()), "/r/identities/heimdal.json")
                .unwrap()
        }
        _ => panic!("the session is kept"),
    };
    assert!(outcome.session.is_none());
    stored.upsert_server(
        target.base_url.clone(),
        plan.registration_name.clone(),
        outcome.identity.clone(),
    );
    let config = Config::from_stored(
        stored.clone(),
        paths(),
        &Surroundings { home: text("/home/me"), openclaw_config: None, hostname: None },
    )
    .unwrap();
    let place = server_to_start(&config.servers, base_url).unwrap();
    assert_eq!(config.servers[place].base_url, base_url);
    let result = setup_result(target, "/r/config.json".to_string(), &plan, outcome, true);

    assert!(result.applied_live);
    assert!(result.had_existing_session);
    assert_eq!(result.identity, "heimdal");
    assert_eq!(result.agent_id, identity.public_key());
    assert_eq!(stored.servers[0].registration_name.as_deref(), Some("heimdal-new"));
    assert_eq!(stored.servers[0].identity.as_deref(), Some("heimdal"));
    assert_eq!(stored.servers[1].registration_name.as_deref(), Some("other"));
}

#[test]
fn setup_target_has_its_own_directory() {
    let target = setup_target("HTTPS://Subspace.example.com/", &paths()).unwrap();
    assert_eq!(target.base_url, BASE_URL);
    assert_eq!(target.server_key, "https_subspace_example_com_443");
    assert_eq!(
        target.session_path,
        "/r/servers/https_subspace_example_com_443/subspace-session.json"
    );
    assert!(setup_target("", &paths()).is_err());
}

#[test]
fn names_are_looked_for_in_turn() {
    let legacy = Some(LoadedSessionRecord::Legacy(
        LegacySubspaceSessionRecord::from_file(legacy_file("agent", 3)).unwrap(),
    ));
    let name = |asked: Option<String>, configured: Option<String>, session| {
        resolve_registration_name(&asked, configured, session, "usual").map_err(|f| f.message)
    };
    assert_eq!(name(text(" asked "), text("set"), &legacy), Ok("asked".to_string()));
    assert_eq!(name(None, text("set"), &legacy), Ok("set".to_string()));
    assert_eq!(name(None, None, &legacy), Ok("legacy-name".to_string()));
    assert_eq!(name(None, None, &None), Ok("usual".to_string()));
    assert_eq!(
        name(text(" "), text("set"), &None),
        Err("registration name must not be empty".to_string())
    );
}

#[test]
fn identities_are_not_switched() {
    let current = Some(LoadedSessionRecord::Current(SubspaceSessionRecord::new(
        "heimdal".to_string(),
        "agent".to_string(),
    )));
    let legacy = Some(LoadedSessionRecord::Legacy(
        LegacySubspaceSessionRecord::from_file(legacy_file("agent", 3)).unwrap(),
    ));
    let refused = |asked: Option<String>, session| plan_identity(&asked, session).unwrap_err().message;
    assert!(matches!(plan_identity(&None, &current), Ok(IdentityPlan::Keep { .. })));
    assert!(matches!(plan_identity(&text("heimdal"), &current), Ok(IdentityPlan::Keep { .. })));
    assert_eq!(
        refused(text("other"), &current),
        "server identity is heimdal, not other; delete the server state directory to switch identities"
    );
    assert!(matches!(
        plan_identity(&text("new"), &legacy),
        Ok(IdentityPlan::Migrate { identity }) if identity == "new"
    ));
    assert_eq!(refused(None, &legacy), "legacy session file requires --identity to migrate");
    assert!(matches!(
        plan_identity(&text("new"), &None),
        Ok(IdentityPlan::Register { identity }) if identity == "new"
    ));
    assert_eq!(refused(None, &None), "setup requires --identity for a new server");
}

#[test]
fn sessions_go_on_under_the_same_agent() {
    let identity = named("heimdal", 7);
    let agent = identity.public_key().to_string();
    let session = SubspaceSessionRecord::new("heimdal".to_string(), agent.clone());
    assert_eq!(
        keep_session(&session, "heimdal", &None, "/r/i.json").unwrap_err().message,
        "missing identity file: /r/i.json"
    );
    assert!(keep_session(&session, "heimdal", &Some(named("heimdal", 8)), "/r/i.json").is_err());
    let legacy = LegacySubspaceSessionRecord::from_file(legacy_file(&agent, 7)).unwrap();
    let moved = migrate_session(&legacy, &identity).unwrap();
    assert_eq!(moved.agent_id, agent);
    assert_eq!(moved.session.unwrap().session_token.as_deref(), Some("token"));
    assert!(migrate_session(&legacy, &named("heimdal", 8)).is_err());
    let begun = begin_session(&identity, "fresh".to_string());
    assert_eq!(begun.agent_id, agent);
    assert_eq!(begun.session.unwrap().session_token.as_deref(), Some("fresh"));
}

#[test]
fn disabled_server_is_not_started() {
    let mut stored = stored_with(&[(BASE_URL, "a", "a")]);
    stored.servers[0].enabled = Some(false);
    let around = Surroundings { home: text("/h"), openclaw_config: None, hostname: None };
    let config = Config::from_stored(stored, paths(), &around).unwrap();
    assert_eq!(
        server_to_start(&config.servers, BASE_URL).unwrap_err().message,
        "configured server not found after setup"
    );
}

#[test]
fn commands_and_prompts() {
    assert!(is_send_command("subspace-send"));
    assert!(!is_send_command("subspace-daemon"));
    assert_eq!(resolve_send_target(text("*")).unwrap(), None);
    assert_eq!(resolve_send_target(text(BASE_URL)).unwrap(), text(BASE_URL));
    assert!(resolve_send_target(None).unwrap_err().message.starts_with("--server is required."));
    assert_eq!(prompt_answer("\n", "usual"), "usual");
    assert_eq!(prompt_answer(" mine\n", "usual"), "mine");
    assert_eq!(validate_registration_name(" a ").unwrap(), "a");
    assert!(validate_registration_name(" ").is_err());
    assert!(matches!(name_source(text("a"), &None), Ok(NameSource::Given(name)) if name == "a"));
    assert!(matches!(name_source(None, &text("b")), Ok(NameSource::Known)));
    assert!(matches!(name_source(None, &None), Ok(NameSource::Prompt)));
}

#[test]
fn setup_is_described() {
    let request = SetupRequest { url: BASE_URL.to_string(), name: None, identity: text("me") };
    let target = setup_target(BASE_URL, &paths()).unwrap();
    let plan = plan_setup(&request, &target, &StoredConfig::default(), &None, "usual").unwrap();
    let identity = named("me", 9);
    let outcome = begin_session(&identity, "token".to_string());
    let mut result = setup_result(target, "/r/config.json".to_string(), &plan, outcome, false);
    assert_eq!(
        describe_setup_result(&result),
        format!(
            "configured Subspace server\nbase_url: {}\nserver_key: https_subspace_example_com_443\nsession_path: /r/servers/https_subspace_example_com_443/subspace-session.json\nconfig_path: /r/config.json\nidentity: me\nagent_id: {}",
            BASE_URL,
            identity.public_key()
        )
    );
    result.had_existing_session = true;
    result.applied_live = true;
    assert!(describe_setup_result(&result)
        .contains("\nidentity: preserved existing identity assignment\nlive_apply: true\n"));
}
