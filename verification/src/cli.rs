//! What the commands of the daemon decide.

use vstd::prelude::*;

use crate::config;
use crate::config::StoredConfig;
use crate::failure;
use crate::failure::{failure, Failure};
use crate::setup;
use crate::setup::SetupResult;
use crate::subspace::identity;
use crate::subspace::identity::{load_session_record, LoadedSessionRecord, SessionFile};
use crate::text;

verus! {

/// Whether the daemon was called as the command that sends a message, by the name of its file.
pub fn is_send_command(file_name: &str) -> (b: bool)
    ensures
        b == (file_name@ == "subspace-send"@),
{
    text::same_text(file_name, "subspace-send")
}

/// The server to which a message is sent; none stands for all of them.
pub open spec fn send_target(server: Option<Seq<char>>) -> Result<Option<Seq<char>>, Seq<char>> {
    match server {
        None => Err(
            "--server is required. Use --server <url> to target a specific server, or --server '*' to broadcast to all."@,
        ),
        Some(s) => if s == "*"@ {
            Ok(None)
        } else {
            Ok(Some(s))
        },
    }
}

pub open spec fn opt_text_result(result: Result<Option<String>, Failure>) -> Result<
    Option<Seq<char>>,
    Seq<char>,
> {
    match result {
        Ok(value) => Ok(text::opt_text(value)),
        Err(f) => Err(f@),
    }
}

/// The server to which a message is sent; none stands for all of them.
pub fn resolve_send_target(server: Option<String>) -> (result: Result<Option<String>, Failure>)
    ensures
        opt_text_result(result) == send_target(text::opt_text(server)),
{
    match server {
        None => Err(
            failure(
                "--server is required. Use --server <url> to target a specific server, or --server '*' to broadcast to all.",
            ),
        ),
        Some(s) => {
            if text::same_text(s.as_str(), "*") {
                Ok(None)
            } else {
                Ok(Some(s))
            }
        },
    }
}

/// A registration name without the white space around it; it must not be empty.
pub open spec fn valid_registration_name(raw: Seq<char>) -> Result<Seq<char>, Seq<char>> {
    if text::trimmed(raw).len() == 0 {
        Err("registration name must not be empty"@)
    } else {
        Ok(text::trimmed(raw))
    }
}

/// A registration name without the white space around it; it must not be empty.
pub fn validate_registration_name(name: &str) -> (result: Result<String, Failure>)
    ensures
        failure::text_result(result) == valid_registration_name(name@),
{
    let trimmed = text::trim(name);
    if trimmed.unicode_len() == 0 {
        return Err(failure("registration name must not be empty"));
    }
    Ok(trimmed.to_owned())
}

/// The name under which the daemon is already registered at a server: the one that the
/// configuration has, or else the one in a session of the old kind.
pub open spec fn existing_name(
    stored: StoredConfig,
    base_url: Seq<char>,
    session: SessionFile,
) -> Result<Option<Seq<char>>, Seq<char>> {
    match config::stored_registration_name(stored.servers@, base_url) {
        Some(name) => Ok(Some(name)),
        None => match identity::session_in(session) {
            Err(message) => Err(message),
            Ok(loaded) => Ok(setup::session_registration_name(loaded)),
        },
    }
}

/// The name under which the daemon is already registered at a server. Where the configuration has
/// one, the session does not matter.
pub fn existing_setup_registration_name(
    stored: &StoredConfig,
    base_url: &str,
    session: SessionFile,
) -> (result: Result<Option<String>, Failure>)
    ensures
        opt_text_result(result) == existing_name(*stored, base_url@, session),
{
    if let Some(name) = stored.registration_name_at(base_url) {
        return Ok(Some(name));
    }
    match load_session_record(session) {
        Err(f) => Err(f),
        Ok(Some(LoadedSessionRecord::Legacy(legacy))) => Ok(
            Some(legacy.registration_name().to_owned()),
        ),
        Ok(_) => Ok(None),
    }
}

/// The answer to a prompt: what was typed in, or the default where that is nothing.
pub open spec fn prompted(input: Seq<char>, default: Seq<char>) -> Seq<char> {
    if text::trimmed(input).len() == 0 {
        default
    } else {
        text::trimmed(input)
    }
}

/// The answer to a prompt.
pub fn prompt_answer(input: &str, default: &str) -> (answer: String)
    ensures
        answer@ == prompted(input@, default@),
{
    let trimmed = text::trim(input);
    if trimmed.unicode_len() == 0 {
        default.to_owned()
    } else {
        trimmed.to_owned()
    }
}

/// Where the registration name of a setup comes from.
#[derive(Debug, Clone)]
pub enum NameSource {
    /// It was given.
    Given(String),
    /// It is known already.
    Known,
    /// The user is asked for it.
    Prompt,
}

/// Where the registration name of a setup comes from: an existing name spares the user a question.
pub fn name_source(given: Option<String>, existing: &Option<String>) -> (result: Result<
    NameSource,
    Failure,
>)
    ensures
        match given {
            Some(raw) => match valid_registration_name(raw@) {
                Ok(name) => result matches Ok(NameSource::Given(used)) && used@ == name,
                Err(message) => result matches Err(f) && f@ == message,
            },
            None => if existing is Some {
                result matches Ok(NameSource::Known)
            } else {
                result matches Ok(NameSource::Prompt)
            },
        },
{
    match given {
        Some(raw) => match validate_registration_name(raw.as_str()) {
            Ok(name) => Ok(NameSource::Given(name)),
            Err(f) => Err(f),
        },
        None => {
            if existing.is_some() {
                Ok(NameSource::Known)
            } else {
                Ok(NameSource::Prompt)
            }
        },
    }
}

/// The lines that tell the user what a setup has brought about.
pub open spec fn setup_report(result: SetupResult) -> Seq<char> {
    "configured Subspace server\nbase_url: "@ + result.base_url@ + "\nserver_key: "@
        + result.server_key@ + "\nsession_path: "@ + result.session_path@ + "\nconfig_path: "@
        + result.config_path@ + (if result.had_existing_session {
        "\nidentity: preserved existing identity assignment"@
    } else {
        "\nidentity: "@ + result.identity@
    }) + (if result.applied_live {
        "\nlive_apply: true"@
    } else {
        Seq::empty()
    }) + "\nagent_id: "@ + result.agent_id@
}

/// Tells the user what a setup has brought about.
pub fn describe_setup_result(result: &SetupResult) -> (report: String)
    ensures
        report@ == setup_report(*result),
{
    let mut report = "configured Subspace server\nbase_url: ".to_owned();
    report.append(result.base_url.as_str());
    report.append("\nserver_key: ");
    report.append(result.server_key.as_str());
    report.append("\nsession_path: ");
    report.append(result.session_path.as_str());
    report.append("\nconfig_path: ");
    report.append(result.config_path.as_str());
    if result.had_existing_session {
        report.append("\nidentity: preserved existing identity assignment");
    } else {
        let mut line = "\nidentity: ".to_owned();
        line.append(result.identity.as_str());
        report.append(line.as_str());
    }
    if result.applied_live {
        report.append("\nlive_apply: true");
    } else {
        assert(report@ + Seq::<char>::empty() == report@);
    }
    report.append("\nagent_id: ");
    report.append(result.agent_id.as_str());
    report
}

// ---------------------------------------------------------------------------
// Laws
// ---------------------------------------------------------------------------

/// A message is sent to the server that is named, or to all where an asterisk is; one of the two must
/// be said.
pub proof fn law_target_must_be_said(server: Seq<char>)
    ensures
        send_target(None) is Err,
        server != "*"@ ==> send_target(Some(server)) == Ok::<Option<Seq<char>>, Seq<char>>(
            Some(server),
        ),
        send_target(Some("*"@)) == Ok::<Option<Seq<char>>, Seq<char>>(None),
{
}

/// A name is taken without the white space around it, and must not be blank.
pub proof fn law_name_is_trimmed(raw: Seq<char>, default: Seq<char>)
    ensures
        valid_registration_name(raw) is Ok <==> text::trimmed(raw).len() > 0,
        valid_registration_name(raw) matches Ok(name) ==> name == text::trimmed(raw),
        text::trimmed(raw).len() > 0 ==> prompted(raw, default) == text::trimmed(raw),
        text::trimmed(raw).len() == 0 ==> prompted(raw, default) == default,
{
}

/// The name that a server is known under comes from the configuration, or else from the session.
pub proof fn law_existing_name_is_found(
    stored: StoredConfig,
    base_url: Seq<char>,
    session: SessionFile,
)
    ensures
        config::stored_registration_name(stored.servers@, base_url) matches Some(name)
            ==> existing_name(stored, base_url, session) == Ok::<Option<Seq<char>>, Seq<char>>(
            Some(name),
        ),
        config::stored_registration_name(stored.servers@, base_url) is None ==> {
            &&& identity::session_in(session) is Err ==> existing_name(stored, base_url, session)
                is Err
            &&& identity::session_in(session) matches Ok(Some(identity::LoadedView::Legacy(old)))
                ==> existing_name(stored, base_url, session) == Ok::<Option<Seq<char>>, Seq<char>>(
                Some(old.registration_name),
            )
            &&& identity::session_in(session) == Ok::<Option<identity::LoadedView>, Seq<char>>(None)
                ==> existing_name(stored, base_url, session) == Ok::<Option<Seq<char>>, Seq<char>>(
                None,
            )
        },
{
}

/// The report of a setup names the server, its files and the agent, and the identity where it is new.
pub proof fn law_report_names_what_was_done(result: SetupResult)
    ensures
        ({
            let report = setup_report(result);
            &&& ("configured Subspace server\nbase_url: "@ + result.base_url@ + "\nserver_key: "@
                + result.server_key@ + "\nsession_path: "@ + result.session_path@
                + "\nconfig_path: "@ + result.config_path@).is_prefix_of(report)
            &&& ("\nagent_id: "@ + result.agent_id@).is_suffix_of(report)
            &&& !result.had_existing_session && !result.applied_live ==> ("\nidentity: "@
                + result.identity@ + "\nagent_id: "@ + result.agent_id@).is_suffix_of(report)
            &&& result.applied_live ==> ("\nlive_apply: true"@ + "\nagent_id: "@
                + result.agent_id@).is_suffix_of(report)
        }),
{
    let report = setup_report(result);
    let head = "configured Subspace server\nbase_url: "@ + result.base_url@ + "\nserver_key: "@
        + result.server_key@ + "\nsession_path: "@ + result.session_path@ + "\nconfig_path: "@
        + result.config_path@;
    let tail = "\nagent_id: "@ + result.agent_id@;
    assert(report.take(head.len() as int) =~= head);
    assert(report.skip(report.len() - tail.len()) =~= tail);
    let named = "\nidentity: "@ + result.identity@ + "\nagent_id: "@ + result.agent_id@;
    if !result.had_existing_session && !result.applied_live {
        assert(report.skip(report.len() - named.len()) =~= named);
    }
    let live = "\nlive_apply: true"@ + "\nagent_id: "@ + result.agent_id@;
    if result.applied_live {
        assert(report.skip(report.len() - live.len()) =~= live);
    }
}

} // verus!
