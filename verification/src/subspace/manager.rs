//! How the daemon keeps up its connection to a server.

use vstd::prelude::*;

use crate::retry;
use crate::retry::{next_backoff, RetryConfig};
use crate::text;

verus! {

// ---------------------------------------------------------------------------
// Kinds of failures
// ---------------------------------------------------------------------------

/// The kind of a failure, by what its message mentions.
pub open spec fn error_kind(message: Seq<char>) -> Seq<char> {
    let lower = text::lower_ascii(message);
    if text::has_part(lower, "connection refused"@) {
        "connection_refused"@
    } else if text::has_part(lower, "timed out"@) || text::has_part(lower, "timeout"@) {
        "timeout"@
    } else if text::has_part(lower, "join failed"@) {
        "join_failed"@
    } else if text::has_part(lower, "auth"@) {
        "auth_failed"@
    } else if text::has_part(lower, "websocket connect"@) {
        "websocket_connect_failed"@
    } else {
        "transport_failed"@
    }
}

/// The kind of a failure, by what its message mentions.
pub fn reconnect_error_kind(message: &str) -> (kind: &'static str)
    ensures
        kind@ == error_kind(message@),
{
    let lower = text::to_lower_ascii(message);
    let lower = lower.as_str();
    if text::contains(lower, "connection refused") {
        "connection_refused"
    } else if text::contains(lower, "timed out") || text::contains(lower, "timeout") {
        "timeout"
    } else if text::contains(lower, "join failed") {
        "join_failed"
    } else if text::contains(lower, "auth") {
        "auth_failed"
    } else if text::contains(lower, "websocket connect") {
        "websocket_connect_failed"
    } else {
        "transport_failed"
    }
}

// ---------------------------------------------------------------------------
// Steps
// ---------------------------------------------------------------------------

/// What is to be done for a server.
#[derive(Debug, Clone, Copy, PartialEq, Eq, Structural)]
pub enum ManagerStep {
    /// A pause that a series of failures has brought is to be kept, if there is one.
    Cooldown,
    /// The session is to be loaded.
    LoadSession,
    /// The daemon is to authenticate.
    Authenticate,
    /// The daemon is to connect, and to stay connected.
    Connect,
    /// The daemon is to wait for so many milliseconds, varied at random.
    Pause { ms: u64 },
    /// There is nothing left to do.
    Stop,
}

/// What has come of a step.
#[derive(Debug, Clone, Copy, PartialEq, Eq, Structural)]
pub enum ManagerEvent {
    /// The daemon is to stop.
    Shutdown,
    CooldownOver,
    SessionMissing,
    SessionFound { has_token: bool },
    Authenticated,
    /// `cooldown` says that the failure has brought a longer pause.
    AuthenticationFailed { cooldown: bool },
    ConnectionClosed,
    /// `reached_live` says that the daemon had joined before.
    ConnectionFailed { reached_live: bool, cooldown: bool },
    PauseOver,
}

pub struct ManagerView {
    pub step: ManagerStep,
    /// The pause that would follow another failure.
    pub backoff_ms: u64,
    pub base_ms: u64,
    pub max_ms: u64,
}

/// Goes to the given step.
pub open spec fn at_step(manager: ManagerView, step: ManagerStep) -> ManagerView {
    ManagerView { step, ..manager }
}

/// Pauses; the next pause will be longer.
pub open spec fn paused(manager: ManagerView) -> ManagerView {
    ManagerView {
        step: ManagerStep::Pause { ms: manager.backoff_ms },
        backoff_ms: retry::backoff_after(manager.backoff_ms, manager.max_ms),
        ..manager
    }
}

/// Goes on after a failure: the longer pause, if there is one, takes the place of the usual one.
pub open spec fn after_failure(manager: ManagerView, cooldown: bool) -> ManagerView {
    if cooldown {
        at_step(manager, ManagerStep::Cooldown)
    } else {
        paused(manager)
    }
}

/// What follows an event. An event that does not belong to the step changes nothing.
pub open spec fn manager_after(manager: ManagerView, event: ManagerEvent) -> ManagerView {
    match (manager.step, event) {
        (_, ManagerEvent::Shutdown) => at_step(manager, ManagerStep::Stop),
        (ManagerStep::Cooldown, ManagerEvent::CooldownOver) => at_step(
            manager,
            ManagerStep::LoadSession,
        ),
        (ManagerStep::LoadSession, ManagerEvent::SessionMissing) => paused(manager),
        (ManagerStep::LoadSession, ManagerEvent::SessionFound { has_token }) => at_step(
            manager,
            if has_token {
                ManagerStep::Connect
            } else {
                ManagerStep::Authenticate
            },
        ),
        (ManagerStep::Authenticate, ManagerEvent::Authenticated) => at_step(
            manager,
            ManagerStep::Connect,
        ),
        (ManagerStep::Authenticate, ManagerEvent::AuthenticationFailed { cooldown }) => {
            after_failure(manager, cooldown)
        },
        (ManagerStep::Connect, ManagerEvent::ConnectionClosed) => at_step(
            manager,
            ManagerStep::Stop,
        ),
        (ManagerStep::Connect, ManagerEvent::ConnectionFailed { reached_live, cooldown }) => {
            after_failure(
                ManagerView {
                    backoff_ms: if reached_live {
                        manager.base_ms
                    } else {
                        manager.backoff_ms
                    },
                    ..manager
                },
                cooldown,
            )
        },
        (ManagerStep::Pause { .. }, ManagerEvent::PauseOver) => at_step(
            manager,
            ManagerStep::Cooldown,
        ),
        _ => manager,
    }
}

/// The state that the server is in from an event on, where the event changes it.
pub open spec fn reported_state(step: ManagerStep, event: ManagerEvent) -> Option<Seq<char>> {
    match (step, event) {
        (ManagerStep::LoadSession, ManagerEvent::SessionMissing) => Some(
            "subspace_auth_required"@,
        ),
        (ManagerStep::LoadSession, ManagerEvent::SessionFound { has_token }) => Some(
            if has_token {
                "connecting"@
            } else {
                "authenticating"@
            },
        ),
        (ManagerStep::Authenticate, ManagerEvent::Authenticated) => Some("connecting"@),
        (ManagerStep::Authenticate, ManagerEvent::AuthenticationFailed { .. }) => Some(
            "subspace_auth_required"@,
        ),
        (ManagerStep::Connect, ManagerEvent::ConnectionFailed { .. }) => Some("reconnecting"@),
        _ => None,
    }
}

/// Decides what is done for a server, and when.
#[derive(Debug, Clone, Copy)]
pub struct ServerManager {
    step: ManagerStep,
    backoff_ms: u64,
    base_ms: u64,
    max_ms: u64,
}

impl View for ServerManager {
    type V = ManagerView;

    closed spec fn view(&self) -> ManagerView {
        ManagerView {
            step: self.step,
            backoff_ms: self.backoff_ms,
            base_ms: self.base_ms,
            max_ms: self.max_ms,
        }
    }
}

impl ServerManager {
    /// A manager that has done nothing yet.
    pub fn new(retry: &RetryConfig) -> (manager: Self)
        ensures
            manager@ == (ManagerView {
                step: ManagerStep::Cooldown,
                backoff_ms: retry.base_ms,
                base_ms: retry.base_ms,
                max_ms: retry.max_ms,
            }),
    {
        ServerManager {
            step: ManagerStep::Cooldown,
            backoff_ms: retry.base_ms,
            base_ms: retry.base_ms,
            max_ms: retry.max_ms,
        }
    }

    /// What is to be done.
    pub fn step(&self) -> (step: ManagerStep)
        ensures
            step == self@.step,
    {
        self.step
    }

    fn pause(&mut self)
        ensures
            final(self)@ == paused(old(self)@),
    {
        self.step = ManagerStep::Pause { ms: self.backoff_ms };
        self.backoff_ms = next_backoff(self.backoff_ms, self.max_ms);
    }

    fn fail(&mut self, cooldown: bool)
        ensures
            final(self)@ == after_failure(old(self)@, cooldown),
    {
        if cooldown {
            self.step = ManagerStep::Cooldown;
        } else {
            self.pause();
        }
    }

    /// Tells the manager what has come of its step. What it returns is the state that the server is
    /// in from now on, where that changes.
    pub fn advance(&mut self, event: ManagerEvent) -> (report: Option<&'static str>)
        ensures
            final(self)@ == manager_after(old(self)@, event),
            text::opt_str(report) == reported_state(old(self)@.step, event),
    {
        match (self.step, event) {
            (_, ManagerEvent::Shutdown) => {
                self.step = ManagerStep::Stop;
                None
            },
            (ManagerStep::Cooldown, ManagerEvent::CooldownOver) => {
                self.step = ManagerStep::LoadSession;
                None
            },
            (ManagerStep::LoadSession, ManagerEvent::SessionMissing) => {
                self.pause();
                Some("subspace_auth_required")
            },
            (ManagerStep::LoadSession, ManagerEvent::SessionFound { has_token }) => {
                if has_token {
                    self.step = ManagerStep::Connect;
                    Some("connecting")
                } else {
                    self.step = ManagerStep::Authenticate;
                    Some("authenticating")
                }
            },
            (ManagerStep::Authenticate, ManagerEvent::Authenticated) => {
                self.step = ManagerStep::Connect;
                Some("connecting")
            },
            (ManagerStep::Authenticate, ManagerEvent::AuthenticationFailed { cooldown }) => {
                self.fail(cooldown);
                Some("subspace_auth_required")
            },
            (ManagerStep::Connect, ManagerEvent::ConnectionClosed) => {
                self.step = ManagerStep::Stop;
                None
            },
            (ManagerStep::Connect, ManagerEvent::ConnectionFailed { reached_live, cooldown }) => {
                if reached_live {
                    self.backoff_ms = self.base_ms;
                }
                self.fail(cooldown);
                Some("reconnecting")
            },
            (ManagerStep::Pause { .. }, ManagerEvent::PauseOver) => {
                self.step = ManagerStep::Cooldown;
                None
            },
            _ => None,
        }
    }
}

// ---------------------------------------------------------------------------
// Laws
// ---------------------------------------------------------------------------

/// The daemon connects only with a session that has a token: one that was found with it, or one for
/// which it has just authenticated.
pub proof fn law_connects_with_a_token_only(manager: ManagerView, event: ManagerEvent)
    requires
        manager.step != ManagerStep::Connect,
        manager_after(manager, event).step == ManagerStep::Connect,
    ensures
        event == (ManagerEvent::SessionFound { has_token: true }) || event
            == ManagerEvent::Authenticated,
{
}

/// Once the daemon is to stop, it does nothing more for the server.
pub proof fn law_stop_is_final(manager: ManagerView, event: ManagerEvent)
    ensures
        manager_after(manager, ManagerEvent::Shutdown).step == ManagerStep::Stop,
        manager.step == ManagerStep::Stop ==> manager_after(manager, event) == manager,
{
}

/// After a connection that was live, the pauses begin anew, with the shortest.
pub proof fn law_live_connection_resets_the_pause(manager: ManagerView)
    requires
        manager.step == ManagerStep::Connect,
    ensures
        manager_after(
            manager,
            ManagerEvent::ConnectionFailed { reached_live: true, cooldown: false },
        ).step == (ManagerStep::Pause { ms: manager.base_ms }),
{
}

/// A longer pause takes the place of the usual one, which does not grow with it.
pub proof fn law_cooldown_replaces_the_pause(manager: ManagerView)
    ensures
        manager.step == ManagerStep::Connect ==> manager_after(
            manager,
            ManagerEvent::ConnectionFailed { reached_live: false, cooldown: true },
        ) == at_step(manager, ManagerStep::Cooldown),
        manager.step == ManagerStep::Authenticate ==> manager_after(
            manager,
            ManagerEvent::AuthenticationFailed { cooldown: true },
        ) == at_step(manager, ManagerStep::Cooldown),
{
}

/// The pauses keep within the longer of the two bounds that the configuration gives.
pub open spec fn pauses_bounded(manager: ManagerView) -> bool {
    let bound = if manager.base_ms >= manager.max_ms {
        manager.base_ms
    } else {
        manager.max_ms
    };
    &&& manager.backoff_ms <= bound
    &&& manager.step matches ManagerStep::Pause { ms } ==> ms <= bound
}

/// No event makes a pause longer than the bounds that the configuration gives.
pub proof fn law_pauses_stay_bounded(manager: ManagerView, event: ManagerEvent)
    requires
        pauses_bounded(manager),
    ensures
        pauses_bounded(manager_after(manager, event)),
{
}

/// Whether a message mentions something does not depend on its letters' case, and the kind of a
/// failure is the first that is mentioned; a failure that mentions nothing is one of the transport.
pub proof fn law_kind_is_the_first_mentioned(message: Seq<char>)
    ensures
        ({
            let lower = text::lower_ascii(message);
            let refused = text::has_part(lower, "connection refused"@);
            let late = text::has_part(lower, "timed out"@) || text::has_part(lower, "timeout"@);
            let join = text::has_part(lower, "join failed"@);
            let auth = text::has_part(lower, "auth"@);
            let connect = text::has_part(lower, "websocket connect"@);
            &&& refused ==> error_kind(message) == "connection_refused"@
            &&& late && !refused ==> error_kind(message) == "timeout"@
            &&& join && !refused && !late ==> error_kind(message) == "join_failed"@
            &&& auth && !refused && !late && !join ==> error_kind(message) == "auth_failed"@
            &&& connect && !refused && !late && !join && !auth ==> error_kind(message)
                == "websocket_connect_failed"@
            &&& !refused && !late && !join && !auth && !connect ==> error_kind(message)
                == "transport_failed"@
        }),
{
}

/// After a connection has failed, the daemon pauses, looks whether it has to wait longer, loads its
/// session and connects again; and so it goes on until it is to stop.
pub proof fn law_failed_connection_is_tried_again(manager: ManagerView)
    requires
        manager.step == ManagerStep::Connect,
    ensures
        ({
            let failed = manager_after(
                manager,
                ManagerEvent::ConnectionFailed { reached_live: false, cooldown: false },
            );
            let rested = manager_after(failed, ManagerEvent::PauseOver);
            let ready = manager_after(rested, ManagerEvent::CooldownOver);
            let again = manager_after(ready, ManagerEvent::SessionFound { has_token: true });
            &&& failed.step == (ManagerStep::Pause { ms: manager.backoff_ms })
            &&& rested.step == ManagerStep::Cooldown
            &&& ready.step == ManagerStep::LoadSession
            &&& again.step == ManagerStep::Connect
            &&& again.backoff_ms == retry::backoff_after(manager.backoff_ms, manager.max_ms)
            &&& again.base_ms == manager.base_ms
            &&& again.max_ms == manager.max_ms
        }),
{
}

/// A session without a token is authenticated before the daemon connects; one that cannot be, or that
/// is missing, is looked for again after a pause, and each pause prepares a longer one.
pub proof fn law_session_is_made_ready(manager: ManagerView)
    ensures
        manager.step == ManagerStep::LoadSession ==> {
            let found = manager_after(manager, ManagerEvent::SessionFound { has_token: false });
            let missing = manager_after(manager, ManagerEvent::SessionMissing);
            &&& found.step == ManagerStep::Authenticate
            &&& manager_after(found, ManagerEvent::Authenticated).step == ManagerStep::Connect
            &&& manager_after(
                found,
                ManagerEvent::AuthenticationFailed { cooldown: false },
            ).step == (ManagerStep::Pause { ms: manager.backoff_ms })
            &&& missing.step == (ManagerStep::Pause { ms: manager.backoff_ms })
            &&& missing.backoff_ms == retry::backoff_after(manager.backoff_ms, manager.max_ms)
            &&& manager_after(missing, ManagerEvent::PauseOver).step == ManagerStep::Cooldown
        },
{
}

/// A connection that was closed in order is not taken up again.
pub proof fn law_closed_connection_is_the_end(manager: ManagerView)
    requires
        manager.step == ManagerStep::Connect,
    ensures
        manager_after(manager, ManagerEvent::ConnectionClosed).step == ManagerStep::Stop,
{
}

/// The state that is reported tells what the daemon does next.
pub proof fn law_report_tells_the_next_step(manager: ManagerView, event: ManagerEvent)
    ensures
        reported_state(manager.step, event) == Some("connecting"@) ==> manager_after(
            manager,
            event,
        ).step == ManagerStep::Connect,
        reported_state(manager.step, event) == Some("authenticating"@) ==> manager_after(
            manager,
            event,
        ).step == ManagerStep::Authenticate,
        manager.step != ManagerStep::Connect && manager_after(manager, event).step
            == ManagerStep::Connect ==> reported_state(manager.step, event) == Some("connecting"@),
        manager.step != ManagerStep::Authenticate && manager_after(manager, event).step
            == ManagerStep::Authenticate ==> reported_state(manager.step, event) == Some(
            "authenticating"@,
        ),
        manager.step == ManagerStep::Connect && event is ConnectionFailed ==> reported_state(
            manager.step,
            event,
        ) == Some("reconnecting"@),
        manager.step == ManagerStep::Authenticate && event is AuthenticationFailed || manager.step
            == ManagerStep::LoadSession && event is SessionMissing ==> reported_state(
            manager.step,
            event,
        ) == Some("subspace_auth_required"@),
        event is Shutdown || event is PauseOver || event is CooldownOver || event
            is ConnectionClosed ==> reported_state(manager.step, event) is None,
{
    reveal_strlit("connecting");
    reveal_strlit("authenticating");
    reveal_strlit("reconnecting");
    reveal_strlit("subspace_auth_required");
    assert("connecting"@.len() == 10);
    assert("authenticating"@.len() == 14);
    assert("reconnecting"@.len() == 12);
    assert("subspace_auth_required"@.len() == 22);
}

} // verus!
