//! The way of a message from the attention layer to its sinks.
//!
//! A message that has been evaluated is taken through a series of steps: the decision is recorded,
//! the database sink stores the message, each wake sink is sent it until it gets through, and the
//! message is marked as handled. What a step does is done outside; here it is decided which step
//! comes next.

use vstd::prelude::*;

use crate::attention::layer;
use crate::attention::layer::{
    format_attention_annotation, AttentionResult, MessageEmbedding, ResultView,
};
use crate::config::{SinkConfig, SinkKind};
use crate::hard_failure::{EventView, HardFailureEvent};
use crate::json;
use crate::json::{empty_object, Json, JsonView};
use crate::lists;
use crate::retry;
use crate::text;

verus! {

/// A message that has come in and is to be evaluated.
#[derive(Debug, Clone)]
pub struct WakeEnvelope {
    pub server: String,
    pub server_key: String,
    pub message_id: String,
    pub timestamp: String,
    pub inbound_event: String,
    pub author_id: String,
    pub author_name: String,
    pub text: String,
    pub sender_embeddings: Vec<MessageEmbedding>,
    pub wake_session_key_override: Option<String>,
}

/// A sink that a message is routed to.
#[derive(Debug, Clone)]
pub struct SinkRoutingEntry {
    pub sink_key: String,
    pub sink_kind: SinkKind,
    pub destination: String,
}

pub struct RoutingView {
    pub sink_key: Seq<char>,
    pub sink_kind: SinkKind,
    pub destination: Seq<char>,
}

impl View for SinkRoutingEntry {
    type V = RoutingView;

    open spec fn view(&self) -> RoutingView {
        RoutingView {
            sink_key: self.sink_key@,
            sink_kind: self.sink_kind,
            destination: self.destination@,
        }
    }
}

pub open spec fn routing_views(list: Seq<SinkRoutingEntry>) -> Seq<RoutingView> {
    list.map_values(|entry: SinkRoutingEntry| entry@)
}

/// The sinks that were considered for a message, and those that it goes to.
#[derive(Debug, Clone)]
pub struct RoutingSnapshot {
    pub candidate_sinks: Vec<SinkRoutingEntry>,
    pub selected_sinks: Vec<SinkRoutingEntry>,
}

/// Everything that the way of one message depends on.
#[derive(Debug, Clone)]
pub struct WakeContext {
    pub item: WakeEnvelope,
    pub attention: AttentionResult,
    pub sinks: Vec<SinkConfig>,
    /// The session that is woken unless a server or a sink names another.
    pub wake_session_key: String,
    /// The path of the delivery database, if there is one.
    pub database_path: Option<String>,
    pub base_ms: u64,
    pub max_ms: u64,
}

// ---------------------------------------------------------------------------
// Sinks
// ---------------------------------------------------------------------------

/// The number of enabled sinks.
pub open spec fn enabled_count(sinks: Seq<SinkConfig>) -> nat {
    sinks.filter(|sink: SinkConfig| sink.enabled).len()
}

/// The number of enabled sinks.
pub fn enabled_sink_count(sinks: &Vec<SinkConfig>) -> (count: usize)
    ensures
        count == enabled_count(sinks@),
{
    let ghost enabled = |sink: SinkConfig| sink.enabled;
    let mut count: usize = 0;
    let mut i: usize = 0;
    assert(sinks@.take(0).filter(enabled).len() == 0) by {
        assert(sinks@.take(0) == Seq::<SinkConfig>::empty());
        reveal(Seq::filter);
    }
    while i < sinks.len()
        invariant
            i <= sinks.len(),
            count <= i,
            enabled == (|sink: SinkConfig| sink.enabled),
            count == sinks@.take(i as int).filter(enabled).len(),
        decreases sinks.len() - i,
    {
        proof {
            assert(sinks@.take(i + 1).drop_last() == sinks@.take(i as int));
            assert(sinks@.take(i + 1).last() == sinks@[i as int]);
            reveal(Seq::filter);
        }
        if sinks[i].enabled {
            count = count + 1;
        }
        i = i + 1;
    }
    assert(sinks@.take(sinks@.len() as int) == sinks@);
    count
}

/// Where a sink delivers: its own destination or, where it names none, the one that goes with its
/// kind.
pub open spec fn destination_of(
    sink: SinkConfig,
    wake_session_key_override: Option<Seq<char>>,
    default_wake_session_key: Seq<char>,
    database_path: Option<Seq<char>>,
) -> Seq<char> {
    match sink.destination {
        Some(destination) => destination@,
        None => match sink.kind {
            SinkKind::Db => match database_path {
                Some(path) => path,
                None => "db"@,
            },
            SinkKind::AgentSessionWake => match wake_session_key_override {
                Some(key) => key,
                None => default_wake_session_key,
            },
        },
    }
}

/// The routing entry of a sink.
pub open spec fn entry_of(
    sink: SinkConfig,
    wake_session_key_override: Option<Seq<char>>,
    default_wake_session_key: Seq<char>,
    database_path: Option<Seq<char>>,
) -> RoutingView {
    RoutingView {
        sink_key: sink.key@,
        sink_kind: sink.kind,
        destination: destination_of(
            sink,
            wake_session_key_override,
            default_wake_session_key,
            database_path,
        ),
    }
}

/// The routing entries of the enabled sinks of the given kinds, in order.
pub open spec fn entries_of(
    sinks: Seq<SinkConfig>,
    chosen: spec_fn(SinkConfig) -> bool,
    wake_session_key_override: Option<Seq<char>>,
    default_wake_session_key: Seq<char>,
    database_path: Option<Seq<char>>,
) -> Seq<RoutingView>
    decreases sinks.len(),
{
    if sinks.len() == 0 {
        Seq::empty()
    } else {
        let before = entries_of(
            sinks.drop_last(),
            chosen,
            wake_session_key_override,
            default_wake_session_key,
            database_path,
        );
        if sinks.last().enabled && chosen(sinks.last()) {
            before.push(
                entry_of(
                    sinks.last(),
                    wake_session_key_override,
                    default_wake_session_key,
                    database_path,
                ),
            )
        } else {
            before
        }
    }
}

fn copy_text(value: &Option<String>, fallback: &str) -> (out: String)
    ensures
        out@ == match text::opt_text(*value) {
            Some(s) => s,
            None => fallback@,
        },
{
    match value {
        Some(s) => s.clone(),
        None => fallback.to_owned(),
    }
}

/// The routing entry of a sink.
pub fn routing_entry_for_sink(
    sink: &SinkConfig,
    wake_session_key_override: &Option<String>,
    default_wake_session_key: &str,
    database_path: &Option<String>,
) -> (entry: SinkRoutingEntry)
    ensures
        entry@ == entry_of(
            *sink,
            text::opt_text(*wake_session_key_override),
            default_wake_session_key@,
            text::opt_text(*database_path),
        ),
{
    let destination = match &sink.destination {
        Some(destination) => destination.clone(),
        None => match sink.kind {
            SinkKind::Db => copy_text(database_path, "db"),
            SinkKind::AgentSessionWake => copy_text(
                wake_session_key_override,
                default_wake_session_key,
            ),
        },
    };
    SinkRoutingEntry { sink_key: sink.key.clone(), sink_kind: sink.kind, destination }
}

/// The routing entries of the enabled sinks, in order.
pub fn routing_entries_for_sinks(
    sinks: &Vec<SinkConfig>,
    wake_session_key_override: &Option<String>,
    default_wake_session_key: &str,
    database_path: &Option<String>,
) -> (entries: Vec<SinkRoutingEntry>)
    ensures
        routing_views(entries@) == entries_of(
            sinks@,
            |sink: SinkConfig| true,
            text::opt_text(*wake_session_key_override),
            default_wake_session_key@,
            text::opt_text(*database_path),
        ),
{
    let ghost all = |sink: SinkConfig| true;
    let ghost over = text::opt_text(*wake_session_key_override);
    let ghost path = text::opt_text(*database_path);
    let mut entries: Vec<SinkRoutingEntry> = Vec::new();
    let mut i: usize = 0;
    assert(sinks@.take(0) == Seq::<SinkConfig>::empty());
    assert(routing_views(entries@) == Seq::<RoutingView>::empty());
    while i < sinks.len()
        invariant
            i <= sinks.len(),
            all == (|sink: SinkConfig| true),
            over == text::opt_text(*wake_session_key_override),
            path == text::opt_text(*database_path),
            routing_views(entries@) == entries_of(
                sinks@.take(i as int),
                all,
                over,
                default_wake_session_key@,
                path,
            ),
        decreases sinks.len() - i,
    {
        assert(sinks@.take(i + 1).drop_last() == sinks@.take(i as int));
        assert(sinks@.take(i + 1).last() == sinks@[i as int]);
        if sinks[i].enabled {
            let ghost before = routing_views(entries@);
            let entry = routing_entry_for_sink(
                &sinks[i],
                wake_session_key_override,
                default_wake_session_key,
                database_path,
            );
            entries.push(entry);
            assert(routing_views(entries@) == before.push(entry@));
        }
        i = i + 1;
    }
    assert(sinks@.take(sinks@.len() as int) == sinks@);
    entries
}

/// The place of the first enabled database sink.
pub open spec fn db_place(sinks: Seq<SinkConfig>) -> Option<int>
    decreases sinks.len(),
{
    if sinks.len() == 0 {
        None
    } else if sinks[0].enabled && sinks[0].kind == SinkKind::Db {
        Some(0)
    } else {
        match db_place(sinks.skip(1)) {
            Some(i) => Some(i + 1),
            None => None,
        }
    }
}

/// The first enabled database sink.
pub fn db_sink(sinks: &Vec<SinkConfig>) -> (found: Option<usize>)
    ensures
        found is Some <==> db_place(sinks@) is Some,
        found matches Some(i) ==> db_place(sinks@) == Some(i as int) && i < sinks.len()
            && sinks@[i as int].enabled && sinks@[i as int].kind == SinkKind::Db,
{
    let mut i: usize = 0;
    assert(sinks@.skip(0) == sinks@);
    while i < sinks.len()
        invariant
            i <= sinks.len(),
            db_place(sinks@) is Some <==> db_place(sinks@.skip(i as int)) is Some,
            db_place(sinks@.skip(i as int)) matches Some(k) ==> db_place(sinks@) == Some(k + i),
        decreases sinks.len() - i,
    {
        if sinks[i].enabled && sinks[i].kind == SinkKind::Db {
            return Some(i);
        }
        assert(sinks@.skip(i as int).skip(1) == sinks@.skip(i + 1));
        i = i + 1;
    }
    None
}

/// The places of the enabled wake sinks, in order.
pub open spec fn wake_places(sinks: Seq<SinkConfig>) -> Seq<usize>
    decreases sinks.len(),
{
    if sinks.len() == 0 {
        Seq::empty()
    } else if sinks.last().enabled && sinks.last().kind == SinkKind::AgentSessionWake {
        wake_places(sinks.drop_last()).push((sinks.len() - 1) as usize)
    } else {
        wake_places(sinks.drop_last())
    }
}

/// Every place is that of an enabled wake sink.
pub proof fn lemma_wake_places(sinks: Seq<SinkConfig>)
    requires
        sinks.len() <= usize::MAX,
    ensures
        forall|k: int|
            0 <= k < wake_places(sinks).len() ==> (#[trigger] wake_places(sinks)[k]) < sinks.len()
                && sinks[wake_places(sinks)[k] as int].enabled
                && sinks[wake_places(sinks)[k] as int].kind == SinkKind::AgentSessionWake,
    decreases sinks.len(),
{
    if sinks.len() > 0 {
        let rest = sinks.drop_last();
        lemma_wake_places(rest);
        assert forall|k: int| 0 <= k < wake_places(sinks).len() implies (#[trigger] wake_places(
            sinks,
        )[k]) < sinks.len() && sinks[wake_places(sinks)[k] as int].enabled && sinks[wake_places(
            sinks,
        )[k] as int].kind == SinkKind::AgentSessionWake by {
            if k < wake_places(rest).len() {
                assert(wake_places(sinks)[k] == wake_places(rest)[k]);
                assert(sinks[wake_places(rest)[k] as int] == rest[wake_places(rest)[k] as int]);
            }
        }
    }
}

fn wake_sinks(sinks: &Vec<SinkConfig>) -> (places: Vec<usize>)
    ensures
        places@ == wake_places(sinks@),
{
    let mut places: Vec<usize> = Vec::new();
    let mut i: usize = 0;
    assert(sinks@.take(0) == Seq::<SinkConfig>::empty());
    while i < sinks.len()
        invariant
            i <= sinks.len(),
            places@ == wake_places(sinks@.take(i as int)),
        decreases sinks.len() - i,
    {
        assert(sinks@.take(i + 1).drop_last() == sinks@.take(i as int));
        assert(sinks@.take(i + 1).last() == sinks@[i as int]);
        if sinks[i].enabled && sinks[i].kind == SinkKind::AgentSessionWake {
            places.push(i);
        }
        i = i + 1;
    }
    assert(sinks@.take(sinks@.len() as int) == sinks@);
    places
}

impl WakeContext {
    pub open spec fn over(&self) -> Option<Seq<char>> {
        text::opt_text(self.item.wake_session_key_override)
    }

    pub open spec fn database(&self) -> Option<Seq<char>> {
        text::opt_text(self.database_path)
    }

    /// The session that a wake sink wakes.
    pub open spec fn session_key(&self, sink: SinkConfig) -> Seq<char> {
        destination_of(sink, self.over(), self.wake_session_key@, self.database())
    }

    /// The sinks that the message goes to: the database first, then the sessions to wake.
    pub open spec fn selected(&self) -> Seq<RoutingView> {
        let wakes = entries_of(
            self.sinks@,
            |sink: SinkConfig| sink.kind == SinkKind::AgentSessionWake,
            self.over(),
            self.wake_session_key@,
            self.database(),
        );
        match db_place(self.sinks@) {
            Some(i) => seq![
                entry_of(self.sinks@[i], self.over(), self.wake_session_key@, self.database()),
            ] + wakes,
            None => wakes,
        }
    }

    /// The sinks that are considered for the message, and those that it goes to.
    pub fn routing(&self) -> (routing: RoutingSnapshot)
        ensures
            routing_views(routing.candidate_sinks@) == entries_of(
                self.sinks@,
                |sink: SinkConfig| true,
                self.over(),
                self.wake_session_key@,
                self.database(),
            ),
            routing_views(routing.selected_sinks@) == self.selected(),
    {
        let candidate_sinks = routing_entries_for_sinks(
            &self.sinks,
            &self.item.wake_session_key_override,
            self.wake_session_key.as_str(),
            &self.database_path,
        );
        let ghost over = self.over();
        let ghost path = self.database();
        let ghost chosen = |sink: SinkConfig| sink.kind == SinkKind::AgentSessionWake;
        let mut selected_sinks: Vec<SinkRoutingEntry> = Vec::new();
        if let Some(i) = db_sink(&self.sinks) {
            selected_sinks.push(
                routing_entry_for_sink(
                    &self.sinks[i],
                    &self.item.wake_session_key_override,
                    self.wake_session_key.as_str(),
                    &self.database_path,
                ),
            );
        }
        let ghost head = routing_views(selected_sinks@);
        let mut i: usize = 0;
        assert(self.sinks@.take(0) == Seq::<SinkConfig>::empty());
        assert(head + Seq::<RoutingView>::empty() == head);
        while i < self.sinks.len()
            invariant
                i <= self.sinks.len(),
                over == self.over(),
                path == self.database(),
                chosen == (|sink: SinkConfig| sink.kind == SinkKind::AgentSessionWake),
                routing_views(selected_sinks@) == head + entries_of(
                    self.sinks@.take(i as int),
                    chosen,
                    over,
                    self.wake_session_key@,
                    path,
                ),
            decreases self.sinks.len() - i,
        {
            assert(self.sinks@.take(i + 1).drop_last() == self.sinks@.take(i as int));
            assert(self.sinks@.take(i + 1).last() == self.sinks@[i as int]);
            if self.sinks[i].enabled && self.sinks[i].kind == SinkKind::AgentSessionWake {
                let ghost before = routing_views(selected_sinks@);
                let ghost tail = entries_of(
                    self.sinks@.take(i as int),
                    chosen,
                    over,
                    self.wake_session_key@,
                    path,
                );
                let entry = routing_entry_for_sink(
                    &self.sinks[i],
                    &self.item.wake_session_key_override,
                    self.wake_session_key.as_str(),
                    &self.database_path,
                );
                selected_sinks.push(entry);
                assert(routing_views(selected_sinks@) == before.push(entry@));
                assert((head + tail).push(entry@) == head + tail.push(entry@));
            }
            i = i + 1;
        }
        assert(self.sinks@.take(self.sinks@.len() as int) == self.sinks@);
        proof {
            match db_place(self.sinks@) {
                Some(d) => {
                    assert(head == seq![
                        entry_of(self.sinks@[d], over, self.wake_session_key@, path),
                    ]);
                },
                None => {
                    let wakes = entries_of(
                        self.sinks@,
                        chosen,
                        over,
                        self.wake_session_key@,
                        path,
                    );
                    assert(head == Seq::<RoutingView>::empty());
                    assert(head + wakes == wakes);
                },
            }
        }
        RoutingSnapshot { candidate_sinks, selected_sinks }
    }
}

// ---------------------------------------------------------------------------
// Texts and events
// ---------------------------------------------------------------------------

/// Who a message is from: the name of the author or, where that is blank, the id.
pub open spec fn sender_of(item: WakeEnvelope) -> Seq<char> {
    if text::trimmed(item.author_name@).len() == 0 {
        item.author_id@
    } else {
        item.author_name@
    }
}

/// The lines with which an agent session is woken.
pub open spec fn wake_lines(item: WakeEnvelope, attention: ResultView) -> Seq<Seq<char>> {
    let head = seq![
        "[Subspace inbound]"@,
        "Server: "@ + item.server@,
        "ServerKey: "@ + item.server_key@,
        "From: "@ + sender_of(item),
        "MessageId: "@ + item.message_id@,
    ];
    let annotated = match layer::annotation(attention.matches) {
        Some(annotation) => head.push(annotation),
        None => head,
    };
    annotated.push(Seq::empty()).push(item.text@)
}

fn labelled(label: &str, value: &str) -> (line: String)
    ensures
        line@ == label@ + value@,
{
    let mut line = label.to_owned();
    line.append(value);
    line
}

/// The text with which an agent session is woken.
pub fn render_inbound_wake(message: &WakeEnvelope, attention: &AttentionResult) -> (rendered: String)
    ensures
        rendered@ == text::joined(wake_lines(*message, attention@), "\n"@),
{
    let from = if text::trim(message.author_name.as_str()).is_empty() {
        message.author_id.as_str()
    } else {
        message.author_name.as_str()
    };
    let mut lines: Vec<String> = Vec::new();
    lines.push("[Subspace inbound]".to_owned());
    lines.push(labelled("Server: ", message.server.as_str()));
    lines.push(labelled("ServerKey: ", message.server_key.as_str()));
    lines.push(labelled("From: ", from));
    lines.push(labelled("MessageId: ", message.message_id.as_str()));
    let ghost head = text::texts(lines@);
    assert(head == seq![
        "[Subspace inbound]"@,
        "Server: "@ + message.server@,
        "ServerKey: "@ + message.server_key@,
        "From: "@ + sender_of(*message),
        "MessageId: "@ + message.message_id@,
    ]);
    match format_attention_annotation(attention) {
        Some(annotation) => {
            lines.push(annotation);
            assert(text::texts(lines@) == head.push(annotation@));
        },
        None => {},
    }
    let ghost annotated = text::texts(lines@);
    lines.push(String::new());
    lines.push(message.text.clone());
    assert(text::texts(lines@) == annotated.push(Seq::empty()).push(message.text@));
    text::join(&lines, "\n")
}

/// What makes sending a message to a sink again recognizable.
pub open spec fn idempotency_key(item: WakeEnvelope, sink: SinkConfig) -> Seq<char> {
    item.server_key@ + ":"@ + item.message_id@ + ":"@ + sink.key@
}

fn make_idempotency_key(item: &WakeEnvelope, sink: &SinkConfig) -> (key: String)
    ensures
        key@ == idempotency_key(*item, *sink),
{
    let mut key = item.server_key.clone();
    key.append(":");
    key.append(item.message_id.as_str());
    key.append(":");
    key.append(sink.key.as_str());
    key
}

/// What an event says of a message.
pub open spec fn message_metadata(item: WakeEnvelope) -> JsonView {
    json::object_view().with_text("server"@, item.server@).with_text(
        "server_key"@,
        item.server_key@,
    ).with_text("message_id"@, item.message_id@)
}

fn make_message_metadata(item: &WakeEnvelope) -> (metadata: Json)
    ensures
        metadata@ == message_metadata(*item),
{
    empty_object().with_text("server", item.server.as_str()).with_text(
        "server_key",
        item.server_key.as_str(),
    ).with_text("message_id", item.message_id.as_str())
}

/// The event of a failure of the delivery database.
pub open spec fn storage_event(kind: Seq<char>, item: WakeEnvelope, error: Seq<char>) -> EventView {
    EventView {
        kind,
        component: "storage"@,
        target: Some(item.server@),
        message: error,
        metadata: message_metadata(item),
    }
}

/// The event of a failure of the delivery database.
pub fn storage_hard_failure_event(kind: &str, item: &WakeEnvelope, error: &str) -> (event:
    HardFailureEvent)
    ensures
        event@ == storage_event(kind@, *item, error@),
{
    HardFailureEvent::new(
        kind,
        "storage",
        Some(item.server.clone()),
        error,
        make_message_metadata(item),
    )
}

/// The event of a message that is accepted and has nowhere to go.
pub open spec fn no_sinks_event(item: WakeEnvelope) -> EventView {
    EventView {
        kind: "sink_delivery_blocked_no_sinks"@,
        component: "wake_router"@,
        target: Some(item.server@),
        message: "message matched receptor policy but no sinks are configured"@,
        metadata: message_metadata(item),
    }
}

/// The event of a failure to bring the table of sinks up to date.
pub open spec fn reconcile_event(error: Seq<char>) -> EventView {
    EventView {
        kind: "db_sink_target_reconcile_failed"@,
        component: "storage"@,
        target: None,
        message: error,
        metadata: json::object_view(),
    }
}

/// The event of a failure to wake a session.
pub open spec fn wake_failed_event(
    item: WakeEnvelope,
    sink: SinkConfig,
    error: Seq<char>,
) -> EventView {
    EventView {
        kind: "wake_delivery_failed"@,
        component: "wake_router"@,
        target: Some(item.server@ + ":"@ + sink.key@),
        message: error,
        metadata: message_metadata(item).with_text("sink_key"@, sink.key@),
    }
}

fn make_wake_failed_event(item: &WakeEnvelope, sink: &SinkConfig, error: &str) -> (event:
    HardFailureEvent)
    ensures
        event@ == wake_failed_event(*item, *sink, error@),
{
    let mut target = item.server.clone();
    target.append(":");
    target.append(sink.key.as_str());
    HardFailureEvent::new(
        "wake_delivery_failed",
        "wake_router",
        Some(target),
        error,
        make_message_metadata(item).with_text("sink_key", sink.key.as_str()),
    )
}

// ---------------------------------------------------------------------------
// Steps
// ---------------------------------------------------------------------------

/// Why the way of a message ends in an error.
#[derive(Debug, Clone, Copy, PartialEq, Eq, Structural)]
pub enum AbortCause {
    /// The decision could not be recorded.
    Decision,
    /// The table of sinks could not be brought up to date.
    Reconcile,
    /// The database sink could not store the message.
    DbDelivery,
    /// A wake could not be queued.
    Queue,
    /// Progress could not be recorded.
    Progress,
}

/// Where a message is on its way. The number counts the wake sinks.
#[derive(Debug, Clone, Copy, PartialEq, Eq, Structural)]
pub enum WakePhase {
    RecordDecision,
    NoSinks,
    Reconcile,
    RecordDb,
    Queue(usize),
    MarkAttempted(usize),
    Send(usize),
    MarkDelivered(usize),
    MarkFailed(usize),
    Report(usize),
    Pause(usize),
    MarkProcessed,
    Finished,
    Aborted(AbortCause),
    /// The daemon is going down; the message is left for the next start.
    Stopped,
}

/// How a step went.
#[derive(Debug, Clone)]
pub enum StepOutcome {
    Done,
    /// The wake is recorded as delivered already.
    AlreadyDelivered,
    Failed(String),
    /// The time that is left before the daemon goes down has run out.
    TimedOut,
}

/// What is to be done next.
#[derive(Debug)]
pub enum WakeAction {
    /// Record the decision of the attention layer.
    RecordDecision,
    /// Report an event and go on.
    Report(HardFailureEvent),
    /// Bring the table of sinks up to date.
    ReconcileTargets,
    /// Store the message as the delivery of the sink at this place.
    RecordDbDelivery(usize),
    /// Record that the message is to be sent to the session by the sink at this place.
    QueueWake { sink: usize, session_key: String },
    /// Record an attempt to send the queued message.
    MarkAttempted,
    /// Send the message to the session.
    Send { session_key: String, message: String, idempotency_key: String },
    /// Record that the queued message was sent.
    MarkDelivered,
    /// Record that the queued message could not be sent.
    MarkFailed { error: String },
    /// Wait; the time is varied at random.
    Pause { base_ms: u64 },
    /// Record that the message has been handled.
    MarkProcessed,
    /// Nothing is left to do.
    Finished,
    /// Report the event, if there is one, and give up with the message as the error.
    Abort { event: Option<HardFailureEvent>, message: String },
    /// Give up without an error.
    Stop,
}

pub enum ActionView {
    RecordDecision,
    Report(EventView),
    ReconcileTargets,
    RecordDbDelivery(int),
    QueueWake { sink: int, session_key: Seq<char> },
    MarkAttempted,
    Send { session_key: Seq<char>, message: Seq<char>, idempotency_key: Seq<char> },
    MarkDelivered,
    MarkFailed { error: Seq<char> },
    Pause { base_ms: u64 },
    MarkProcessed,
    Finished,
    Abort { event: Option<EventView>, message: Seq<char> },
    Stop,
}

impl View for WakeAction {
    type V = ActionView;

    open spec fn view(&self) -> ActionView {
        match self {
            WakeAction::RecordDecision => ActionView::RecordDecision,
            WakeAction::Report(event) => ActionView::Report(event@),
            WakeAction::ReconcileTargets => ActionView::ReconcileTargets,
            WakeAction::RecordDbDelivery(i) => ActionView::RecordDbDelivery(*i as int),
            WakeAction::QueueWake { sink, session_key } => ActionView::QueueWake {
                sink: *sink as int,
                session_key: session_key@,
            },
            WakeAction::MarkAttempted => ActionView::MarkAttempted,
            WakeAction::Send { session_key, message, idempotency_key } => ActionView::Send {
                session_key: session_key@,
                message: message@,
                idempotency_key: idempotency_key@,
            },
            WakeAction::MarkDelivered => ActionView::MarkDelivered,
            WakeAction::MarkFailed { error } => ActionView::MarkFailed { error: error@ },
            WakeAction::Pause { base_ms } => ActionView::Pause { base_ms: *base_ms },
            WakeAction::MarkProcessed => ActionView::MarkProcessed,
            WakeAction::Finished => ActionView::Finished,
            WakeAction::Abort { event, message } => ActionView::Abort {
                event: match event {
                    Some(event) => Some(event@),
                    None => None,
                },
                message: message@,
            },
            WakeAction::Stop => ActionView::Stop,
        }
    }
}

/// The way of one message: where it is, how long the next pause is, and the last error.
#[derive(Debug)]
pub struct WakeRun {
    phase: WakePhase,
    wakes: Vec<usize>,
    backoff_ms: u64,
    error: String,
}

pub struct RunView {
    pub phase: WakePhase,
    pub backoff_ms: u64,
    pub error: Seq<char>,
}

impl View for WakeRun {
    type V = RunView;

    closed spec fn view(&self) -> RunView {
        RunView { phase: self.phase, backoff_ms: self.backoff_ms, error: self.error@ }
    }
}

/// The phase in which the wake sink number `k` is taken up; where there is none, all is delivered.
pub open spec fn phase_of_wake(ctx: WakeContext, k: int) -> WakePhase {
    if k >= wake_places(ctx.sinks@).len() {
        WakePhase::MarkProcessed
    } else if ctx.database_path is Some {
        WakePhase::Queue(k as usize)
    } else {
        WakePhase::Send(k as usize)
    }
}

/// The phase after the table of sinks is up to date.
pub open spec fn phase_after_reconcile(ctx: WakeContext) -> WakePhase {
    if ctx.database_path is Some && db_place(ctx.sinks@) is Some {
        WakePhase::RecordDb
    } else {
        phase_of_wake(ctx, 0)
    }
}

/// The phase after the decision has been recorded.
pub open spec fn phase_after_decision(ctx: WakeContext) -> WakePhase {
    if !ctx.attention.deliver {
        WakePhase::MarkProcessed
    } else if enabled_count(ctx.sinks@) == 0 {
        WakePhase::NoSinks
    } else if ctx.database_path is Some {
        WakePhase::Reconcile
    } else {
        phase_after_reconcile(ctx)
    }
}

/// The first phase.
pub open spec fn first_phase(ctx: WakeContext) -> WakePhase {
    if ctx.database_path is Some {
        WakePhase::RecordDecision
    } else {
        phase_after_decision(ctx)
    }
}

/// The way of a message at its beginning.
pub open spec fn first_run(ctx: WakeContext) -> RunView {
    RunView { phase: first_phase(ctx), backoff_ms: ctx.base_ms, error: Seq::empty() }
}

/// The phase that follows once a step is over.
pub open spec fn next_phase(ctx: WakeContext, phase: WakePhase, outcome: StepOutcome) -> WakePhase {
    match phase {
        WakePhase::RecordDecision => if outcome is Failed {
            WakePhase::Aborted(AbortCause::Decision)
        } else {
            phase_after_decision(ctx)
        },
        WakePhase::NoSinks => WakePhase::MarkProcessed,
        WakePhase::Reconcile => if outcome is Failed {
            WakePhase::Aborted(AbortCause::Reconcile)
        } else {
            phase_after_reconcile(ctx)
        },
        WakePhase::RecordDb => if outcome is Failed {
            WakePhase::Aborted(AbortCause::DbDelivery)
        } else {
            phase_of_wake(ctx, 0)
        },
        WakePhase::Queue(k) => match outcome {
            StepOutcome::Failed(_) => WakePhase::Aborted(AbortCause::Queue),
            StepOutcome::AlreadyDelivered => phase_of_wake(ctx, k + 1),
            _ => WakePhase::MarkAttempted(k),
        },
        WakePhase::MarkAttempted(k) => if outcome is Failed {
            WakePhase::Aborted(AbortCause::Progress)
        } else {
            WakePhase::Send(k)
        },
        WakePhase::Send(k) => match outcome {
            StepOutcome::TimedOut => WakePhase::Stopped,
            StepOutcome::Failed(_) => if ctx.database_path is Some {
                WakePhase::MarkFailed(k)
            } else {
                WakePhase::Report(k)
            },
            _ => if ctx.database_path is Some {
                WakePhase::MarkDelivered(k)
            } else {
                phase_of_wake(ctx, k + 1)
            },
        },
        WakePhase::MarkDelivered(k) => if outcome is Failed {
            WakePhase::Aborted(AbortCause::Progress)
        } else {
            phase_of_wake(ctx, k + 1)
        },
        WakePhase::MarkFailed(k) => if outcome is Failed {
            WakePhase::Aborted(AbortCause::Progress)
        } else {
            WakePhase::Report(k)
        },
        WakePhase::Report(k) => WakePhase::Pause(k),
        WakePhase::Pause(k) => if outcome is TimedOut {
            WakePhase::Stopped
        } else if ctx.database_path is Some {
            WakePhase::MarkAttempted(k)
        } else {
            WakePhase::Send(k)
        },
        WakePhase::MarkProcessed => if outcome is Failed {
            WakePhase::Aborted(AbortCause::Progress)
        } else {
            WakePhase::Finished
        },
        WakePhase::Finished => WakePhase::Finished,
        WakePhase::Aborted(cause) => WakePhase::Aborted(cause),
        WakePhase::Stopped => WakePhase::Stopped,
    }
}

/// The pause after the next failure: it begins anew with each sink, and doubles with each pause.
pub open spec fn next_backoff_ms(
    ctx: WakeContext,
    phase: WakePhase,
    outcome: StepOutcome,
    backoff_ms: u64,
) -> u64 {
    match phase {
        WakePhase::Pause(_) => retry::backoff_after(backoff_ms, ctx.max_ms),
        WakePhase::MarkAttempted(_) | WakePhase::MarkFailed(_) | WakePhase::Report(_) => backoff_ms,
        WakePhase::Send(_) => if outcome is Failed {
            backoff_ms
        } else {
            ctx.base_ms
        },
        _ => ctx.base_ms,
    }
}

/// The run after a step.
pub open spec fn next_run(ctx: WakeContext, run: RunView, outcome: StepOutcome) -> RunView {
    RunView {
        phase: next_phase(ctx, run.phase, outcome),
        backoff_ms: next_backoff_ms(ctx, run.phase, outcome, run.backoff_ms),
        error: match outcome {
            StepOutcome::Failed(error) => error@,
            _ => run.error,
        },
    }
}

/// What is to be done in a phase.
pub open spec fn action_of(ctx: WakeContext, run: RunView) -> ActionView {
    let places = wake_places(ctx.sinks@);
    match run.phase {
        WakePhase::RecordDecision => ActionView::RecordDecision,
        WakePhase::NoSinks => ActionView::Report(no_sinks_event(ctx.item)),
        WakePhase::Reconcile => ActionView::ReconcileTargets,
        WakePhase::RecordDb => ActionView::RecordDbDelivery(db_place(ctx.sinks@)->0),
        WakePhase::Queue(k) => ActionView::QueueWake {
            sink: places[k as int] as int,
            session_key: ctx.session_key(ctx.sinks@[places[k as int] as int]),
        },
        WakePhase::MarkAttempted(_) => ActionView::MarkAttempted,
        WakePhase::Send(k) => ActionView::Send {
            session_key: ctx.session_key(ctx.sinks@[places[k as int] as int]),
            message: text::joined(wake_lines(ctx.item, ctx.attention@), "\n"@),
            idempotency_key: idempotency_key(ctx.item, ctx.sinks@[places[k as int] as int]),
        },
        WakePhase::MarkDelivered(_) => ActionView::MarkDelivered,
        WakePhase::MarkFailed(_) => ActionView::MarkFailed { error: run.error },
        WakePhase::Report(k) => ActionView::Report(
            wake_failed_event(ctx.item, ctx.sinks@[places[k as int] as int], run.error),
        ),
        WakePhase::Pause(_) => ActionView::Pause { base_ms: run.backoff_ms },
        WakePhase::MarkProcessed => ActionView::MarkProcessed,
        WakePhase::Finished => ActionView::Finished,
        WakePhase::Aborted(cause) => ActionView::Abort {
            event: match cause {
                AbortCause::Decision => Some(
                    storage_event("db_attention_decision_failed"@, ctx.item, run.error),
                ),
                AbortCause::Reconcile => Some(reconcile_event(run.error)),
                AbortCause::DbDelivery => Some(
                    storage_event("db_sink_delivery_failed"@, ctx.item, run.error),
                ),
                AbortCause::Queue => Some(
                    storage_event("db_wake_sink_queue_failed"@, ctx.item, run.error),
                ),
                AbortCause::Progress => None,
            },
            message: run.error,
        },
        WakePhase::Stopped => ActionView::Stop,
    }
}

/// The number of the wake sink that a phase is about.
pub open spec fn wake_number(phase: WakePhase) -> Option<usize> {
    match phase {
        WakePhase::Queue(k) | WakePhase::MarkAttempted(k) | WakePhase::Send(k)
        | WakePhase::MarkDelivered(k) | WakePhase::MarkFailed(k) | WakePhase::Report(k)
        | WakePhase::Pause(k) => Some(k),
        _ => None,
    }
}

/// A phase that a message can be in: it is sent only if it is to be delivered and only to sinks
/// that there are, and the database is used only where there is one.
pub open spec fn possible(ctx: WakeContext, phase: WakePhase) -> bool {
    &&& wake_number(phase) matches Some(k) ==> ctx.attention.deliver && k < wake_places(
        ctx.sinks@,
    ).len()
    &&& phase == WakePhase::RecordDb ==> ctx.attention.deliver && db_place(ctx.sinks@) is Some
    &&& (phase == WakePhase::Reconcile || phase == WakePhase::NoSinks) ==> ctx.attention.deliver
    &&& phase == WakePhase::NoSinks ==> enabled_count(ctx.sinks@) == 0
    &&& (phase is RecordDecision || phase is Reconcile || phase is RecordDb || phase is Queue
        || phase is MarkAttempted || phase is MarkDelivered || phase is MarkFailed)
        ==> ctx.database_path is Some
}

impl WakeRun {
    pub closed spec fn wf(&self, ctx: &WakeContext) -> bool {
        self.wakes@ == wake_places(ctx.sinks@) && possible(*ctx, self.phase)
    }

    /// Takes up a message that has been evaluated.
    pub fn start(ctx: &WakeContext) -> (run: Self)
        ensures
            run.wf(ctx),
            run@ == first_run(*ctx),
            run@.phase == first_phase(*ctx),
            run@.backoff_ms == ctx.base_ms,
    {
        let wakes = wake_sinks(&ctx.sinks);
        let mut run = WakeRun {
            phase: WakePhase::RecordDecision,
            wakes,
            backoff_ms: ctx.base_ms,
            error: String::new(),
        };
        if ctx.database_path.is_none() {
            run.phase = run.after_decision(ctx);
        }
        run
    }

    fn of_wake(&self, ctx: &WakeContext, k: usize) -> (phase: WakePhase)
        requires
            self.wakes@ == wake_places(ctx.sinks@),
            ctx.attention.deliver,
        ensures
            phase == phase_of_wake(*ctx, k as int),
            possible(*ctx, phase),
    {
        if k >= self.wakes.len() {
            WakePhase::MarkProcessed
        } else if ctx.database_path.is_some() {
            WakePhase::Queue(k)
        } else {
            WakePhase::Send(k)
        }
    }

    fn after_reconcile(&self, ctx: &WakeContext) -> (phase: WakePhase)
        requires
            self.wakes@ == wake_places(ctx.sinks@),
            ctx.attention.deliver,
        ensures
            phase == phase_after_reconcile(*ctx),
            possible(*ctx, phase),
    {
        if ctx.database_path.is_some() && db_sink(&ctx.sinks).is_some() {
            WakePhase::RecordDb
        } else {
            self.of_wake(ctx, 0)
        }
    }

    fn after_decision(&self, ctx: &WakeContext) -> (phase: WakePhase)
        requires
            self.wakes@ == wake_places(ctx.sinks@),
        ensures
            phase == phase_after_decision(*ctx),
            possible(*ctx, phase),
    {
        if !ctx.attention.deliver {
            WakePhase::MarkProcessed
        } else if enabled_sink_count(&ctx.sinks) == 0 {
            WakePhase::NoSinks
        } else if ctx.database_path.is_some() {
            WakePhase::Reconcile
        } else {
            self.after_reconcile(ctx)
        }
    }

    /// Goes on to the next step once one is over.
    pub fn advance(&mut self, ctx: &WakeContext, outcome: StepOutcome)
        requires
            old(self).wf(ctx),
        ensures
            final(self).wf(ctx),
            final(self)@ == next_run(*ctx, old(self)@, outcome),
    {
        let failed = matches!(outcome, StepOutcome::Failed(_));
        let timed_out = matches!(outcome, StepOutcome::TimedOut);
        let already_delivered = matches!(outcome, StepOutcome::AlreadyDelivered);
        let has_database = ctx.database_path.is_some();
        let count: usize = self.wakes.len();
        assert(wake_number(self.phase) matches Some(k) ==> k < count);
        let phase = self.phase;
        let mut backoff_ms: u64 = ctx.base_ms;
        let next = match phase {
            WakePhase::RecordDecision => if failed {
                WakePhase::Aborted(AbortCause::Decision)
            } else {
                self.after_decision(ctx)
            },
            WakePhase::NoSinks => WakePhase::MarkProcessed,
            WakePhase::Reconcile => if failed {
                WakePhase::Aborted(AbortCause::Reconcile)
            } else {
                self.after_reconcile(ctx)
            },
            WakePhase::RecordDb => if failed {
                WakePhase::Aborted(AbortCause::DbDelivery)
            } else {
                self.of_wake(ctx, 0)
            },
            WakePhase::Queue(k) => if failed {
                WakePhase::Aborted(AbortCause::Queue)
            } else if already_delivered {
                self.of_wake(ctx, k + 1)
            } else {
                WakePhase::MarkAttempted(k)
            },
            WakePhase::MarkAttempted(k) => {
                backoff_ms = self.backoff_ms;
                if failed {
                    WakePhase::Aborted(AbortCause::Progress)
                } else {
                    WakePhase::Send(k)
                }
            },
            WakePhase::Send(k) => {
                if failed {
                    backoff_ms = self.backoff_ms;
                }
                if timed_out {
                    WakePhase::Stopped
                } else if failed {
                    if has_database {
                        WakePhase::MarkFailed(k)
                    } else {
                        WakePhase::Report(k)
                    }
                } else if has_database {
                    WakePhase::MarkDelivered(k)
                } else {
                    self.of_wake(ctx, k + 1)
                }
            },
            WakePhase::MarkDelivered(k) => if failed {
                WakePhase::Aborted(AbortCause::Progress)
            } else {
                self.of_wake(ctx, k + 1)
            },
            WakePhase::MarkFailed(k) => {
                backoff_ms = self.backoff_ms;
                if failed {
                    WakePhase::Aborted(AbortCause::Progress)
                } else {
                    WakePhase::Report(k)
                }
            },
            WakePhase::Report(k) => {
                backoff_ms = self.backoff_ms;
                WakePhase::Pause(k)
            },
            WakePhase::Pause(k) => {
                backoff_ms = retry::next_backoff(self.backoff_ms, ctx.max_ms);
                if timed_out {
                    WakePhase::Stopped
                } else if has_database {
                    WakePhase::MarkAttempted(k)
                } else {
                    WakePhase::Send(k)
                }
            },
            WakePhase::MarkProcessed => if failed {
                WakePhase::Aborted(AbortCause::Progress)
            } else {
                WakePhase::Finished
            },
            WakePhase::Finished => WakePhase::Finished,
            WakePhase::Aborted(cause) => WakePhase::Aborted(cause),
            WakePhase::Stopped => WakePhase::Stopped,
        };
        self.phase = next;
        self.backoff_ms = backoff_ms;
        if let StepOutcome::Failed(error) = outcome {
            self.error = error;
        }
    }

    /// What is to be done now.
    pub fn action(&self, ctx: &WakeContext) -> (action: WakeAction)
        requires
            self.wf(ctx),
        ensures
            action@ == action_of(*ctx, self@),
    {
        let count: usize = ctx.sinks.len();
        proof {
            assert(ctx.sinks@.len() == count);
            lemma_wake_places(ctx.sinks@);
        }
        match self.phase {
            WakePhase::RecordDecision => WakeAction::RecordDecision,
            WakePhase::NoSinks => WakeAction::Report(
                HardFailureEvent::new(
                    "sink_delivery_blocked_no_sinks",
                    "wake_router",
                    Some(ctx.item.server.clone()),
                    "message matched receptor policy but no sinks are configured",
                    make_message_metadata(&ctx.item),
                ),
            ),
            WakePhase::Reconcile => WakeAction::ReconcileTargets,
            WakePhase::RecordDb => {
                let place = db_sink(&ctx.sinks);
                WakeAction::RecordDbDelivery(place.unwrap())
            },
            WakePhase::Queue(k) => {
                let place: usize = self.wakes[k];
                WakeAction::QueueWake {
                    sink: place,
                    session_key: self.session_key(ctx, &ctx.sinks[place]),
                }
            },
            WakePhase::MarkAttempted(_) => WakeAction::MarkAttempted,
            WakePhase::Send(k) => {
                let sink = &ctx.sinks[self.wakes[k]];
                WakeAction::Send {
                    session_key: self.session_key(ctx, sink),
                    message: render_inbound_wake(&ctx.item, &ctx.attention),
                    idempotency_key: make_idempotency_key(&ctx.item, sink),
                }
            },
            WakePhase::MarkDelivered(_) => WakeAction::MarkDelivered,
            WakePhase::MarkFailed(_) => WakeAction::MarkFailed { error: self.error.clone() },
            WakePhase::Report(k) => WakeAction::Report(
                make_wake_failed_event(
                    &ctx.item,
                    &ctx.sinks[self.wakes[k]],
                    self.error.as_str(),
                ),
            ),
            WakePhase::Pause(_) => WakeAction::Pause { base_ms: self.backoff_ms },
            WakePhase::MarkProcessed => WakeAction::MarkProcessed,
            WakePhase::Finished => WakeAction::Finished,
            WakePhase::Aborted(cause) => {
                let error = self.error.as_str();
                let event = match cause {
                    AbortCause::Decision => Some(
                        storage_hard_failure_event(
                            "db_attention_decision_failed",
                            &ctx.item,
                            error,
                        ),
                    ),
                    AbortCause::Reconcile => Some(
                        HardFailureEvent::new(
                            "db_sink_target_reconcile_failed",
                            "storage",
                            None,
                            error,
                            empty_object(),
                        ),
                    ),
                    AbortCause::DbDelivery => Some(
                        storage_hard_failure_event("db_sink_delivery_failed", &ctx.item, error),
                    ),
                    AbortCause::Queue => Some(
                        storage_hard_failure_event("db_wake_sink_queue_failed", &ctx.item, error),
                    ),
                    AbortCause::Progress => None,
                };
                WakeAction::Abort { event, message: self.error.clone() }
            },
            WakePhase::Stopped => WakeAction::Stop,
        }
    }

    fn session_key(&self, ctx: &WakeContext, sink: &SinkConfig) -> (key: String)
        ensures
            key@ == ctx.session_key(*sink),
    {
        routing_entry_for_sink(
            sink,
            &ctx.item.wake_session_key_override,
            ctx.wake_session_key.as_str(),
            &ctx.database_path,
        ).destination
    }
}

// ---------------------------------------------------------------------------
// Laws
// ---------------------------------------------------------------------------

/// The phases that a message goes through from its first phase on.
pub open spec fn phase_after(ctx: WakeContext, outcomes: Seq<StepOutcome>) -> WakePhase
    decreases outcomes.len(),
{
    if outcomes.len() == 0 {
        first_phase(ctx)
    } else {
        next_phase(ctx, phase_after(ctx, outcomes.drop_last()), outcomes.last())
    }
}

proof fn lemma_phase_possible(ctx: WakeContext, outcomes: Seq<StepOutcome>)
    requires
        ctx.sinks@.len() <= usize::MAX,
    ensures
        possible(ctx, phase_after(ctx, outcomes)),
    decreases outcomes.len(),
{
    lemma_wake_count(ctx.sinks@);
    if outcomes.len() > 0 {
        lemma_phase_possible(ctx, outcomes.drop_last());
    }
}

proof fn lemma_wake_count(sinks: Seq<SinkConfig>)
    ensures
        wake_places(sinks).len() <= sinks.len(),
    decreases sinks.len(),
{
    if sinks.len() > 0 {
        lemma_wake_count(sinks.drop_last());
    }
}

/// A message that the attention layer does not deliver is neither stored by a sink nor sent to any
/// session, whatever happens; and it is marked as handled.
pub proof fn law_undelivered_message_reaches_no_sink(
    ctx: WakeContext,
    outcomes: Seq<StepOutcome>,
)
    requires
        ctx.sinks@.len() <= usize::MAX,
        !ctx.attention.deliver,
    ensures
        wake_number(phase_after(ctx, outcomes)) is None,
        phase_after(ctx, outcomes) != WakePhase::RecordDb,
        phase_after(ctx, outcomes) is RecordDecision || phase_after(ctx, outcomes) is MarkProcessed
            || phase_after(ctx, outcomes) is Finished || phase_after(ctx, outcomes) is Aborted,
    decreases outcomes.len(),
{
    lemma_phase_possible(ctx, outcomes);
    if outcomes.len() > 0 {
        law_undelivered_message_reaches_no_sink(ctx, outcomes.drop_last());
    }
}

/// Without an enabled sink nothing is stored by a sink and nothing is sent, whatever happens.
pub proof fn law_no_sinks_no_delivery(ctx: WakeContext, outcomes: Seq<StepOutcome>)
    requires
        ctx.sinks@.len() <= usize::MAX,
        enabled_count(ctx.sinks@) == 0,
    ensures
        wake_number(phase_after(ctx, outcomes)) is None,
        phase_after(ctx, outcomes) != WakePhase::RecordDb,
        phase_after(ctx, outcomes) != WakePhase::Reconcile,
    decreases outcomes.len(),
{
    if outcomes.len() > 0 {
        law_no_sinks_no_delivery(ctx, outcomes.drop_last());
    }
}

/// The wake sinks are taken in turn: from a step of one sink the message goes on to a step of the same
/// sink or of the next, and only from a step of the last one to the marking as handled.
pub proof fn law_sinks_are_taken_in_turn(
    ctx: WakeContext,
    phase: WakePhase,
    outcome: StepOutcome,
)
    requires
        possible(ctx, phase),
        ctx.sinks@.len() <= usize::MAX,
        wake_number(phase) is Some,
    ensures
        match wake_number(next_phase(ctx, phase, outcome)) {
            Some(k) => k == wake_number(phase)->0 || k == wake_number(phase)->0 + 1,
            None => true,
        },
        next_phase(ctx, phase, outcome) == WakePhase::MarkProcessed ==> wake_number(phase)->0 + 1
            == wake_places(ctx.sinks@).len(),
{
    lemma_wake_count(ctx.sinks@);
}

/// A wake sink is left behind only once the message has been sent to it, or is recorded as sent
/// already: a failure to send never leads on to the next sink or to the end.
pub proof fn law_failed_wake_is_tried_again(ctx: WakeContext, k: usize, error: String)
    requires
        possible(ctx, WakePhase::Send(k)),
    ensures
        wake_number(next_phase(ctx, WakePhase::Send(k), StepOutcome::Failed(error))) == Some(k),
        wake_number(next_phase(ctx, WakePhase::MarkFailed(k), StepOutcome::Done)) == Some(k),
        wake_number(next_phase(ctx, WakePhase::Report(k), StepOutcome::Done)) == Some(k),
        wake_number(next_phase(ctx, WakePhase::Pause(k), StepOutcome::Done)) == Some(k),
{
}

/// A wake that is recorded as delivered is not sent again: its sink is passed over.
pub proof fn law_delivered_wake_is_not_repeated(ctx: WakeContext, k: usize)
    requires
        possible(ctx, WakePhase::Queue(k)),
        ctx.sinks@.len() <= usize::MAX,
    ensures
        next_phase(ctx, WakePhase::Queue(k), StepOutcome::AlreadyDelivered) == phase_of_wake(
            ctx,
            k + 1,
        ),
        wake_number(next_phase(ctx, WakePhase::Queue(k), StepOutcome::AlreadyDelivered))
            != Some(k),
{
    lemma_wake_count(ctx.sinks@);
}

/// A message is marked as handled before its way ends well, and never where a step of the database
/// has failed.
pub proof fn law_only_handled_messages_finish(
    ctx: WakeContext,
    phase: WakePhase,
    outcome: StepOutcome,
)
    requires
        phase != WakePhase::Finished,
        next_phase(ctx, phase, outcome) == WakePhase::Finished,
    ensures
        phase == WakePhase::MarkProcessed,
        outcome !is Failed,
{
}

/// A step that settles the wake sink number `k`: the message is sent to its session, or is recorded
/// as sent already.
pub open spec fn settles(phase: WakePhase, outcome: StepOutcome, k: int) -> bool {
    ||| phase == WakePhase::Send(k as usize) && outcome !is Failed && outcome !is TimedOut
    ||| phase == WakePhase::Queue(k as usize) && outcome is AlreadyDelivered
}

/// One of the steps taken has settled the wake sink number `k`.
pub open spec fn settled(ctx: WakeContext, outcomes: Seq<StepOutcome>, k: int) -> bool {
    exists|n: int|
        0 <= n < outcomes.len() && settles(
            phase_after(ctx, #[trigger] outcomes.take(n)),
            outcomes[n],
            k,
        )
}

/// How many wake sinks must have been settled for a message to be in a phase.
spec fn settled_before(ctx: WakeContext, phase: WakePhase) -> int {
    match phase {
        WakePhase::Queue(k) | WakePhase::MarkAttempted(k) | WakePhase::Send(k)
        | WakePhase::MarkFailed(k) | WakePhase::Report(k) | WakePhase::Pause(k) => k as int,
        WakePhase::MarkDelivered(k) => k + 1,
        WakePhase::MarkProcessed | WakePhase::Finished => wake_places(ctx.sinks@).len() as int,
        _ => 0,
    }
}

proof fn lemma_no_wakes_without_sinks(sinks: Seq<SinkConfig>)
    requires
        enabled_count(sinks) == 0,
    ensures
        wake_places(sinks).len() == 0,
    decreases sinks.len(),
{
    reveal(Seq::filter);
    if sinks.len() > 0 {
        lemma_no_wakes_without_sinks(sinks.drop_last());
    }
}

proof fn lemma_settled_grows(ctx: WakeContext, outcomes: Seq<StepOutcome>, k: int)
    requires
        outcomes.len() > 0,
        settled(ctx, outcomes.drop_last(), k),
    ensures
        settled(ctx, outcomes, k),
{
    let before = outcomes.drop_last();
    let n = choose|n: int|
        0 <= n < before.len() && settles(
            phase_after(ctx, #[trigger] before.take(n)),
            before[n],
            k,
        );
    assert(before.take(n) == outcomes.take(n));
    assert(before[n] == outcomes[n]);
}

proof fn lemma_settled(ctx: WakeContext, outcomes: Seq<StepOutcome>)
    requires
        ctx.sinks@.len() <= usize::MAX,
        ctx.attention.deliver,
    ensures
        forall|k: int|
            0 <= k < settled_before(ctx, phase_after(ctx, outcomes)) ==> settled(ctx, outcomes, k),
    decreases outcomes.len(),
{
    lemma_wake_count(ctx.sinks@);
    if enabled_count(ctx.sinks@) == 0 {
        lemma_no_wakes_without_sinks(ctx.sinks@);
    }
    lemma_phase_possible(ctx, outcomes);
    if outcomes.len() > 0 {
        let before = outcomes.drop_last();
        lemma_settled(ctx, before);
        lemma_phase_possible(ctx, before);
        let phase = phase_after(ctx, before);
        assert(outcomes.take(outcomes.len() - 1) == before);
        assert forall|k: int| 0 <= k < settled_before(ctx, phase_after(ctx, outcomes)) implies settled(
            ctx,
            outcomes,
            k,
        ) by {
            if k < settled_before(ctx, phase) {
                lemma_settled_grows(ctx, outcomes, k);
            } else {
                assert(settles(phase, outcomes.last(), k));
                assert(settles(
                    phase_after(ctx, outcomes.take(outcomes.len() - 1)),
                    outcomes[outcomes.len() - 1],
                    k,
                ));
            }
        }
    }
}

/// A message that was to be delivered and has been handled was sent to the session of every enabled
/// wake sink, or was recorded as sent already.
pub proof fn law_handled_message_was_sent_to_every_session(
    ctx: WakeContext,
    outcomes: Seq<StepOutcome>,
    k: int,
)
    requires
        ctx.sinks@.len() <= usize::MAX,
        ctx.attention.deliver,
        phase_after(ctx, outcomes) == WakePhase::Finished,
        0 <= k < wake_places(ctx.sinks@).len(),
    ensures
        settled(ctx, outcomes, k),
{
    lemma_settled(ctx, outcomes);
}

// ---------------------------------------------------------------------------
// What is done with a message
// ---------------------------------------------------------------------------

/// Every enabled wake sink has its place, once and in order, and nothing else has.
pub proof fn law_every_wake_sink_has_its_place(sinks: Seq<SinkConfig>, i: int)
    requires
        sinks.len() <= usize::MAX,
        0 <= i < sinks.len(),
    ensures
        wake_places(sinks).contains(i as usize) <==> sinks[i].enabled && sinks[i].kind
            == SinkKind::AgentSessionWake,
        forall|a: int, b: int|
            0 <= a < b < wake_places(sinks).len() ==> #[trigger] wake_places(sinks)[a]
                < #[trigger] wake_places(sinks)[b],
    decreases sinks.len(),
{
    let rest = sinks.drop_last();
    let places = wake_places(sinks);
    let before = wake_places(rest);
    lemma_wake_places(sinks);
    lemma_wake_places(rest);
    if rest.len() > 0 {
        law_every_wake_sink_has_its_place(rest, 0);
    }
    assert forall|a: int, b: int| 0 <= a < b < places.len() implies #[trigger] places[a]
        < #[trigger] places[b] by {
        assert(places[a] == before[a]);
        if b < before.len() {
            assert(places[b] == before[b]);
        }
    }
    if i < rest.len() {
        law_every_wake_sink_has_its_place(rest, i);
        assert(rest[i] == sinks[i]);
        if before.contains(i as usize) {
            let k = choose|k: int| 0 <= k < before.len() && before[k] == i as usize;
            assert(places[k] == i as usize);
        }
        if places.contains(i as usize) {
            let k = choose|k: int| 0 <= k < places.len() && places[k] == i as usize;
            if k < before.len() {
                assert(before[k] == i as usize);
            }
        }
    } else {
        if sinks[i].enabled && sinks[i].kind == SinkKind::AgentSessionWake {
            assert(places[places.len() - 1] == i as usize);
        }
        if places.contains(i as usize) {
            let k = choose|k: int| 0 <= k < places.len() && places[k] == i as usize;
            assert(sinks[places[k] as int].enabled);
        }
    }
}

/// The way of a message after some steps.
pub open spec fn run_after(ctx: WakeContext, outcomes: Seq<StepOutcome>) -> RunView
    decreases outcomes.len(),
{
    if outcomes.len() == 0 {
        first_run(ctx)
    } else {
        next_run(ctx, run_after(ctx, outcomes.drop_last()), outcomes.last())
    }
}

/// What is done in the step after some steps.
pub open spec fn action_after(ctx: WakeContext, outcomes: Seq<StepOutcome>) -> ActionView {
    action_of(ctx, run_after(ctx, outcomes))
}

proof fn lemma_run_phase(ctx: WakeContext, outcomes: Seq<StepOutcome>)
    ensures
        run_after(ctx, outcomes).phase == phase_after(ctx, outcomes),
    decreases outcomes.len(),
{
    if outcomes.len() > 0 {
        lemma_run_phase(ctx, outcomes.drop_last());
    }
}

/// The message is sent to a session by the sink at place `i`, and gets through; or it is found to
/// have been sent by it before.
pub open spec fn wakes(
    ctx: WakeContext,
    action: ActionView,
    outcome: StepOutcome,
    i: int,
    session_key: Seq<char>,
) -> bool {
    ||| action matches ActionView::Send { session_key: woken, message, idempotency_key }
        && outcome !is Failed && outcome !is TimedOut && woken == session_key
        && message.len() >= ctx.item.text@.len() && message.skip(
        message.len() - ctx.item.text@.len(),
    ) == ctx.item.text@ && idempotency_key == ctx.item.server_key@ + ":"@ + ctx.item.message_id@
        + ":"@ + ctx.sinks@[i].key@
    ||| action matches ActionView::QueueWake { sink, session_key: woken } && sink == i && woken
        == session_key && outcome is AlreadyDelivered
}

/// A message that is to be delivered and whose way has ended well was sent to the session of every
/// enabled wake sink, with its text and under its key, or had been sent to it before. The session is
/// the one that the sink names, or else that of the server, or else the general one.
pub proof fn law_every_session_is_woken(
    ctx: WakeContext,
    outcomes: Seq<StepOutcome>,
    i: int,
    session_key: Seq<char>,
)
    requires
        ctx.sinks@.len() <= usize::MAX,
        ctx.attention.deliver,
        action_after(ctx, outcomes) == ActionView::Finished,
        0 <= i < ctx.sinks@.len(),
        ctx.sinks@[i].enabled,
        ctx.sinks@[i].kind == SinkKind::AgentSessionWake,
        ctx.sinks@[i].destination matches Some(own) ==> session_key == own@,
        ctx.sinks@[i].destination is None ==> (ctx.item.wake_session_key_override matches Some(over)
            ==> session_key == over@),
        ctx.sinks@[i].destination is None && ctx.item.wake_session_key_override is None
            ==> session_key == ctx.wake_session_key@,
    ensures
        exists|n: int|
            0 <= n < outcomes.len() && wakes(
                ctx,
                action_after(ctx, #[trigger] outcomes.take(n)),
                outcomes[n],
                i,
                session_key,
            ),
{
    lemma_run_phase(ctx, outcomes);
    law_every_wake_sink_has_its_place(ctx.sinks@, i);
    let places = wake_places(ctx.sinks@);
    let k = choose|k: int| 0 <= k < places.len() && places[k] == i as usize;
    lemma_wake_count(ctx.sinks@);
    law_handled_message_was_sent_to_every_session(ctx, outcomes, k);
    let n = choose|n: int|
        0 <= n < outcomes.len() && settles(
            phase_after(ctx, #[trigger] outcomes.take(n)),
            outcomes[n],
            k,
        );
    lemma_run_phase(ctx, outcomes.take(n));
    law_wake_text_says_it_all(ctx.item, ctx.attention@);
    assert(wakes(ctx, action_after(ctx, outcomes.take(n)), outcomes[n], i, session_key));
}

/// The text that wakes a session ends with the text of the message, and says on lines of its own
/// from where, from whom and which message it is. Who sent it is the author's name, or the author's id
/// where the name is blank.
pub proof fn law_wake_text_says_it_all(item: WakeEnvelope, attention: ResultView)
    ensures
        ({
            let said = text::joined(wake_lines(item, attention), "\n"@);
            &&& said.len() >= item.text@.len() && said.skip(said.len() - item.text@.len())
                == item.text@
            &&& text::has_prefix(said, "[Subspace inbound]"@)
            &&& text::has_part(said, "Server: "@ + item.server@ + "\n"@)
            &&& text::has_part(said, "ServerKey: "@ + item.server_key@ + "\n"@)
            &&& text::has_part(said, "MessageId: "@ + item.message_id@ + "\n"@)
            &&& text::trimmed(item.author_name@).len() > 0 ==> text::has_part(
                said,
                "From: "@ + item.author_name@ + "\n"@,
            )
            &&& text::trimmed(item.author_name@).len() == 0 ==> text::has_part(
                said,
                "From: "@ + item.author_id@ + "\n"@,
            )
            &&& layer::annotation(attention.matches) matches Some(annotation) ==> text::has_part(
                said,
                annotation + "\n"@,
            )
        }),
{
    let lines = wake_lines(item, attention);
    let sep = "\n"@;
    assert(lines[0] == "[Subspace inbound]"@);
    assert(lines[1] == "Server: "@ + item.server@);
    assert(lines[2] == "ServerKey: "@ + item.server_key@);
    assert(lines[3] == "From: "@ + sender_of(item));
    assert(lines[4] == "MessageId: "@ + item.message_id@);
    assert(lines[lines.len() - 1] == item.text@);
    text::law_joined_texts_hold_each(lines, sep, 0);
    text::law_joined_texts_hold_each(lines, sep, 1);
    text::law_joined_texts_hold_each(lines, sep, 2);
    text::law_joined_texts_hold_each(lines, sep, 3);
    text::law_joined_texts_hold_each(lines, sep, 4);
    text::law_joined_texts_hold_each(lines, sep, lines.len() - 1);
    if layer::annotation(attention.matches) is Some {
        assert(lines[5] == layer::annotation(attention.matches)->0);
        text::law_joined_texts_hold_each(lines, sep, 5);
    }
}

/// A message is sent to different sinks, and different messages of a server to one sink, under
/// different keys; so that sending it again is recognized, and nothing else is taken for it.
pub proof fn law_idempotency_key_tells_apart(
    item: WakeEnvelope,
    other: WakeEnvelope,
    sink: SinkConfig,
    other_sink: SinkConfig,
)
    ensures
        idempotency_key(item, sink) == idempotency_key(item, other_sink) ==> sink.key@
            == other_sink.key@,
        item.server_key@ == other.server_key@ && idempotency_key(item, sink) == idempotency_key(
            other,
            sink,
        ) ==> item.message_id@ == other.message_id@,
{
    let head = item.server_key@ + ":"@;
    let start = head + item.message_id@ + ":"@;
    if idempotency_key(item, sink) == idempotency_key(item, other_sink) {
        assert(idempotency_key(item, sink).skip(start.len() as int) =~= sink.key@);
        assert(idempotency_key(item, other_sink).skip(start.len() as int) =~= other_sink.key@);
    }
    if item.server_key@ == other.server_key@ && idempotency_key(item, sink) == idempotency_key(
        other,
        sink,
    ) {
        let a = idempotency_key(item, sink);
        let b = idempotency_key(other, sink);
        let n = head.len() as int;
        let tail = ":"@ + sink.key@;
        assert(a.len() == n + item.message_id@.len() + tail.len());
        assert(b.len() == n + other.message_id@.len() + tail.len());
        assert(a.subrange(n, n + item.message_id@.len()) =~= item.message_id@);
        assert(b.subrange(n, n + other.message_id@.len()) =~= other.message_id@);
    }
}

/// The message is recorded as delivered by the database sink at place `i`, and nothing goes wrong.
pub open spec fn stores(action: ActionView, outcome: StepOutcome, i: int) -> bool {
    action == ActionView::RecordDbDelivery(i) && outcome !is Failed
}

/// The first enabled database sink is found, if there is one.
pub proof fn law_database_sink_is_found(sinks: Seq<SinkConfig>)
    ensures
        db_place(sinks) is Some <==> exists|i: int|
            0 <= i < sinks.len() && (#[trigger] sinks[i]).enabled && sinks[i].kind == SinkKind::Db,
        db_place(sinks) matches Some(k) ==> 0 <= k < sinks.len() && sinks[k].enabled && sinks[k].kind
            == SinkKind::Db && forall|i: int|
            0 <= i < k ==> !((#[trigger] sinks[i]).enabled && sinks[i].kind == SinkKind::Db),
    decreases sinks.len(),
{
    if sinks.len() > 0 {
        let rest = sinks.skip(1);
        law_database_sink_is_found(rest);
        assert(forall|i: int| 0 <= i < rest.len() ==> #[trigger] rest[i] == sinks[i + 1]);
        if !(sinks[0].enabled && sinks[0].kind == SinkKind::Db) {
            if exists|i: int|
                0 <= i < sinks.len() && (#[trigger] sinks[i]).enabled && sinks[i].kind
                    == SinkKind::Db {
                let i = choose|i: int|
                    0 <= i < sinks.len() && (#[trigger] sinks[i]).enabled && sinks[i].kind
                        == SinkKind::Db;
                assert(rest[i - 1].enabled);
            }
            if let Some(k) = db_place(rest) {
                assert(sinks[k + 1].enabled);
                assert forall|i: int| 0 <= i < k + 1 implies !((#[trigger] sinks[i]).enabled
                    && sinks[i].kind == SinkKind::Db) by {
                    if i > 0 {
                        assert(rest[i - 1] == sinks[i]);
                    }
                }
            }
        } else {
            assert(sinks[0].enabled);
        }
    }
}

/// Sinks are counted that are enabled: none exactly if there is none.
pub proof fn law_no_sink_counts_exactly_if_none_is_enabled(sinks: Seq<SinkConfig>)
    ensures
        enabled_count(sinks) == 0 <==> forall|i: int|
            0 <= i < sinks.len() ==> !(#[trigger] sinks[i]).enabled,
    decreases sinks.len(),
{
    reveal(Seq::filter);
    if sinks.len() > 0 {
        let rest = sinks.drop_last();
        law_no_sink_counts_exactly_if_none_is_enabled(rest);
        assert(forall|i: int| 0 <= i < rest.len() ==> #[trigger] rest[i] == sinks[i]);
        assert(sinks[sinks.len() - 1] == sinks.last());
        if forall|i: int| 0 <= i < sinks.len() ==> !(#[trigger] sinks[i]).enabled {
            assert forall|i: int| 0 <= i < rest.len() implies !(#[trigger] rest[i]).enabled by {
                assert(!sinks[i].enabled);
            }
        } else {
            let i = choose|i: int| 0 <= i < sinks.len() && (#[trigger] sinks[i]).enabled;
            if i < rest.len() {
                assert(rest[i].enabled);
            }
        }
    }
}

spec fn stored_in(ctx: WakeContext, outcomes: Seq<StepOutcome>, i: int) -> bool {
    exists|n: int|
        0 <= n < outcomes.len() && stores(
            action_after(ctx, #[trigger] outcomes.take(n)),
            outcomes[n],
            i,
        )
}

proof fn lemma_stored(ctx: WakeContext, outcomes: Seq<StepOutcome>)
    requires
        ctx.sinks@.len() <= usize::MAX,
        ctx.attention.deliver,
        ctx.database_path is Some,
        db_place(ctx.sinks@) is Some,
    ensures
        run_after(ctx, outcomes).phase is MarkProcessed || run_after(ctx, outcomes).phase is Finished
            || wake_number(run_after(ctx, outcomes).phase) is Some ==> stored_in(
            ctx,
            outcomes,
            db_place(ctx.sinks@)->0,
        ),
        !(run_after(ctx, outcomes).phase is NoSinks),
    decreases outcomes.len(),
{
    let i = db_place(ctx.sinks@)->0;
    law_database_sink_is_found(ctx.sinks@);
    law_no_sink_counts_exactly_if_none_is_enabled(ctx.sinks@);
    assert(ctx.sinks@[i].enabled);
    if outcomes.len() > 0 {
        let before = outcomes.drop_last();
        lemma_stored(ctx, before);
        assert(outcomes.take(outcomes.len() - 1) == before);
        if stored_in(ctx, before, i) {
            let n = choose|n: int|
                0 <= n < before.len() && stores(
                    action_after(ctx, #[trigger] before.take(n)),
                    before[n],
                    i,
                );
            assert(outcomes.take(n) == before.take(n));
            assert(stored_in(ctx, outcomes, i));
        } else if run_after(ctx, before).phase is RecordDb && outcomes.last() !is Failed {
            assert(stores(
                action_after(ctx, outcomes.take(outcomes.len() - 1)),
                outcomes[outcomes.len() - 1],
                i,
            ));
        }
    }
}

/// A message that is to be delivered and whose way has ended well was stored by the first enabled
/// database sink, where there is a database and such a sink.
pub proof fn law_message_is_stored(ctx: WakeContext, outcomes: Seq<StepOutcome>, i: int)
    requires
        ctx.sinks@.len() <= usize::MAX,
        ctx.attention.deliver,
        ctx.database_path is Some,
        action_after(ctx, outcomes) == ActionView::Finished,
        0 <= i < ctx.sinks@.len(),
        ctx.sinks@[i].enabled,
        ctx.sinks@[i].kind == SinkKind::Db,
        forall|j: int|
            0 <= j < i ==> !((#[trigger] ctx.sinks@[j]).enabled && ctx.sinks@[j].kind
                == SinkKind::Db),
    ensures
        exists|n: int|
            0 <= n < outcomes.len() && stores(
                action_after(ctx, #[trigger] outcomes.take(n)),
                outcomes[n],
                i,
            ),
{
    law_database_sink_is_found(ctx.sinks@);
    let k = db_place(ctx.sinks@)->0;
    assert(k == i) by {
        if k < i {
            assert(ctx.sinks@[k].enabled);
        }
    }
    lemma_stored(ctx, outcomes);
    assert(stored_in(ctx, outcomes, i));
}

/// The way of a message ends well only with the marking as handled, which nothing follows; and where
/// there is a database, it begins with recording the decision.
pub proof fn law_way_begins_and_ends_with_a_record(ctx: WakeContext, outcomes: Seq<StepOutcome>)
    ensures
        ctx.database_path is Some ==> action_after(ctx, Seq::empty())
            == ActionView::RecordDecision,
        ctx.database_path is Some && outcomes.len() > 0 && action_after(ctx, outcomes)
            == ActionView::Finished ==> outcomes[0] !is Failed,
        action_after(ctx, outcomes) == ActionView::Finished ==> exists|n: int|
            0 <= n < outcomes.len() && action_after(ctx, #[trigger] outcomes.take(n))
                == ActionView::MarkProcessed && outcomes[n] !is Failed,
    decreases outcomes.len(),
{
    if outcomes.len() > 0 {
        let before = outcomes.drop_last();
        law_way_begins_and_ends_with_a_record(ctx, before);
        assert(outcomes.take(outcomes.len() - 1) == before);
        if action_after(ctx, outcomes) == ActionView::Finished {
            if action_after(ctx, before) == ActionView::Finished {
                let n = choose|n: int|
                    0 <= n < before.len() && action_after(ctx, #[trigger] before.take(n))
                        == ActionView::MarkProcessed && before[n] !is Failed;
                assert(before.take(n) == outcomes.take(n));
            } else {
                assert(action_after(ctx, outcomes.take(outcomes.len() - 1))
                    == ActionView::MarkProcessed);
            }
            if ctx.database_path is Some && outcomes[0] is Failed {
                lemma_decision_recorded(ctx, outcomes);
            }
        }
    }
}

proof fn lemma_decision_recorded(ctx: WakeContext, outcomes: Seq<StepOutcome>)
    requires
        ctx.database_path is Some,
        outcomes.len() > 0,
        outcomes[0] is Failed,
    ensures
        run_after(ctx, outcomes).phase is Aborted,
    decreases outcomes.len(),
{
    let before = outcomes.drop_last();
    if before.len() > 0 {
        assert(before[0] == outcomes[0]);
        lemma_decision_recorded(ctx, before);
    } else {
        assert(before == Seq::<StepOutcome>::empty());
        assert(run_after(ctx, before) == first_run(ctx));
        assert(outcomes.last() == outcomes[0]);
    }
}

/// A message that is not to be delivered is neither stored nor queued nor sent in any step.
pub proof fn law_held_back_message_goes_nowhere(ctx: WakeContext, outcomes: Seq<StepOutcome>)
    requires
        ctx.sinks@.len() <= usize::MAX,
        !ctx.attention.deliver,
    ensures
        !(action_after(ctx, outcomes) is Send),
        !(action_after(ctx, outcomes) is QueueWake),
        !(action_after(ctx, outcomes) is RecordDbDelivery),
{
    lemma_run_phase(ctx, outcomes);
    law_undelivered_message_reaches_no_sink(ctx, outcomes);
}

/// A message that did not get through is sent again, the same to the same session, after the failure
/// has been reported and a pause that doubles with each failure up to the limit.
pub proof fn law_failed_send_is_repeated(ctx: WakeContext, run: RunView, error: String)
    requires
        possible(ctx, run.phase),
        action_of(ctx, run) is Send,
    ensures
        ({
            let failed = next_run(ctx, run, StepOutcome::Failed(error));
            let report = if ctx.database_path is Some {
                next_run(ctx, failed, StepOutcome::Done)
            } else {
                failed
            };
            let pause = next_run(ctx, report, StepOutcome::Done);
            let over = next_run(ctx, pause, StepOutcome::Done);
            let again = if ctx.database_path is Some {
                next_run(ctx, over, StepOutcome::Done)
            } else {
                over
            };
            &&& ctx.database_path is Some ==> action_of(ctx, failed) == (ActionView::MarkFailed {
                error: error@,
            }) && action_of(ctx, over) == ActionView::MarkAttempted
            &&& action_of(ctx, report) matches ActionView::Report(event) && event.message == error@
            &&& action_of(ctx, pause) == (ActionView::Pause { base_ms: run.backoff_ms })
            &&& action_of(ctx, again) == action_of(ctx, run)
            &&& run.backoff_ms <= ctx.max_ms / 2 ==> again.backoff_ms == 2 * run.backoff_ms
            &&& run.backoff_ms > ctx.max_ms / 2 ==> again.backoff_ms == ctx.max_ms
        }),
{
}

/// A step that takes up a sink, in the database or with a message, begins with the first pause.
pub proof fn law_each_sink_begins_with_the_first_pause(
    ctx: WakeContext,
    run: RunView,
    outcome: StepOutcome,
)
    requires
        possible(ctx, run.phase),
        ctx.sinks@.len() <= usize::MAX,
        wake_number(next_run(ctx, run, outcome).phase) is Some,
        wake_number(next_run(ctx, run, outcome).phase) != wake_number(run.phase),
    ensures
        next_run(ctx, run, outcome).backoff_ms == ctx.base_ms,
{
}

/// Every enabled sink of the given kind is an entry, in order, with its key and its kind, and nothing
/// else is.
pub proof fn law_every_enabled_sink_is_an_entry(
    sinks: Seq<SinkConfig>,
    chosen: spec_fn(SinkConfig) -> bool,
    over: Option<Seq<char>>,
    default_key: Seq<char>,
    path: Option<Seq<char>>,
)
    ensures
        exists|at: Seq<int>|
            #[trigger] lists::places(at, sinks.len() as int) && at.len() == entries_of(
                sinks,
                chosen,
                over,
                default_key,
                path,
            ).len() && (forall|k: int|
                0 <= k < at.len() ==> is_entry_of(
                    entries_of(sinks, chosen, over, default_key, path)[k],
                    sinks[#[trigger] at[k]],
                    over,
                    default_key,
                    path,
                )) && (forall|i: int|
                0 <= i < sinks.len() ==> (at.contains(i) <==> (#[trigger] sinks[i]).enabled
                    && chosen(sinks[i]))),
    decreases sinks.len(),
{
    if sinks.len() == 0 {
        assert(lists::places(Seq::<int>::empty(), 0));
    } else {
        let rest = sinks.drop_last();
        let n = rest.len() as int;
        let before = entries_of(rest, chosen, over, default_key, path);
        let all = entries_of(sinks, chosen, over, default_key, path);
        law_every_enabled_sink_is_an_entry(rest, chosen, over, default_key, path);
        let at = choose|at: Seq<int>|
            #[trigger] lists::places(at, rest.len() as int) && at.len() == before.len() && (forall|
                k: int,
            |
                0 <= k < at.len() ==> is_entry_of(
                    before[k],
                    rest[#[trigger] at[k]],
                    over,
                    default_key,
                    path,
                )) && (forall|i: int|
                0 <= i < rest.len() ==> (at.contains(i) <==> (#[trigger] rest[i]).enabled && chosen(
                    rest[i],
                )));
        lists::lemma_places_grow(at, n);
        let now = if sinks.last().enabled && chosen(sinks.last()) {
            at.push(n)
        } else {
            at
        };
        assert(lists::places(now, sinks.len() as int));
        assert forall|k: int| 0 <= k < now.len() implies is_entry_of(
            all[k],
            sinks[#[trigger] now[k]],
            over,
            default_key,
            path,
        ) by {
            if k < at.len() {
                assert(now[k] == at[k]);
                assert(sinks[at[k]] == rest[at[k]]);
                assert(all[k] == before[k]);
            }
        }
        assert forall|i: int| 0 <= i < sinks.len() implies (now.contains(i) <==> (
        #[trigger] sinks[i]).enabled && chosen(sinks[i])) by {
            if i < n {
                assert(rest[i] == sinks[i]);
                if at.contains(i) {
                    let k = choose|k: int| 0 <= k < at.len() && at[k] == i;
                    assert(now[k] == i);
                }
                if now.contains(i) {
                    let k = choose|k: int| 0 <= k < now.len() && now[k] == i;
                    assert(at[k] == i);
                }
            } else {
                if sinks[i].enabled && chosen(sinks[i]) {
                    assert(now[at.len() as int] == i);
                }
                if now.contains(i) {
                    let k = choose|k: int| 0 <= k < now.len() && now[k] == i;
                    if k < at.len() {
                        assert(at[k] < n);
                    }
                }
            }
        }
    }
}

/// The entry has the key and the kind of the sink, and delivers where the sink says; or else, to the
/// database where there is one, and to the session of the server or the general one.
pub open spec fn is_entry_of(
    entry: RoutingView,
    sink: SinkConfig,
    over: Option<Seq<char>>,
    default_key: Seq<char>,
    path: Option<Seq<char>>,
) -> bool {
    &&& entry.sink_key == sink.key@
    &&& entry.sink_kind == sink.kind
    &&& sink.destination matches Some(own) ==> entry.destination == own@
    &&& sink.destination is None && sink.kind == SinkKind::Db ==> (path matches Some(path)
        ==> entry.destination == path)
    &&& sink.destination is None && sink.kind == SinkKind::Db && path is None
        ==> entry.destination == "db"@
    &&& sink.destination is None && sink.kind == SinkKind::AgentSessionWake ==> (over matches Some(
        key,
    ) ==> entry.destination == key)
    &&& sink.destination is None && sink.kind == SinkKind::AgentSessionWake && over is None
        ==> entry.destination == default_key
}

/// A message goes to the first enabled database sink, if there is one, and then to all enabled wake
/// sinks.
pub proof fn law_database_comes_before_the_sessions(ctx: WakeContext, i: int)
    requires
        0 <= i < ctx.sinks@.len(),
        ctx.sinks@[i].enabled,
        ctx.sinks@[i].kind == SinkKind::AgentSessionWake,
    ensures
        exists|k: int|
            0 <= k < ctx.selected().len() && is_entry_of(
                #[trigger] ctx.selected()[k],
                ctx.sinks@[i],
                ctx.over(),
                ctx.wake_session_key@,
                ctx.database(),
            ),
        (exists|d: int|
            0 <= d < ctx.sinks@.len() && (#[trigger] ctx.sinks@[d]).enabled && ctx.sinks@[d].kind
                == SinkKind::Db) ==> ctx.selected()[0].sink_kind == SinkKind::Db,
{
    let chosen = |sink: SinkConfig| sink.kind == SinkKind::AgentSessionWake;
    let wakes = entries_of(
        ctx.sinks@,
        chosen,
        ctx.over(),
        ctx.wake_session_key@,
        ctx.database(),
    );
    law_database_sink_is_found(ctx.sinks@);
    law_every_enabled_sink_is_an_entry(
        ctx.sinks@,
        chosen,
        ctx.over(),
        ctx.wake_session_key@,
        ctx.database(),
    );
    let at = choose|at: Seq<int>|
        #[trigger] lists::places(at, ctx.sinks@.len() as int) && at.len() == wakes.len() && (forall|
            k: int,
        |
            0 <= k < at.len() ==> is_entry_of(
                wakes[k],
                ctx.sinks@[#[trigger] at[k]],
                ctx.over(),
                ctx.wake_session_key@,
                ctx.database(),
            )) && (forall|j: int|
            0 <= j < ctx.sinks@.len() ==> (at.contains(j) <==> (#[trigger] ctx.sinks@[j]).enabled
                && chosen(ctx.sinks@[j])));
    assert(at.contains(i));
    let k = choose|k: int| 0 <= k < at.len() && at[k] == i;
    let shift: int = if db_place(ctx.sinks@) is Some {
        1
    } else {
        0
    };
    assert(ctx.selected()[k + shift] == wakes[k]);
}

/// What an event says of a message: its server and its id.
pub proof fn law_event_names_the_message(item: WakeEnvelope, sink: SinkConfig, error: Seq<char>)
    ensures
        message_metadata(item).text_member("server"@) == Some(item.server@),
        message_metadata(item).text_member("server_key"@) == Some(item.server_key@),
        message_metadata(item).text_member("message_id"@) == Some(item.message_id@),
        wake_failed_event(item, sink, error).metadata.text_member("message_id"@) == Some(
            item.message_id@,
        ),
        wake_failed_event(item, sink, error).metadata.text_member("sink_key"@) == Some(sink.key@),
        wake_failed_event(item, sink, error).message == error,
        no_sinks_event(item).metadata.text_member("message_id"@) == Some(item.message_id@),
        no_sinks_event(item).target == Some(item.server@),
{
    reveal_strlit("server");
    reveal_strlit("server_key");
    reveal_strlit("message_id");
    reveal_strlit("sink_key");
    assert("server"@.len() == 6);
    assert("server_key"@.len() == 10 && "server_key"@[0] == 's');
    assert("message_id"@.len() == 10 && "message_id"@[0] == 'm');
    assert("sink_key"@.len() == 8);
    json::lemma_members();
}

/// A message that is accepted and has nowhere to go is reported before it is marked as handled.
pub proof fn law_message_without_sinks_is_reported(ctx: WakeContext, run: RunView, outcome: StepOutcome)
    requires
        ctx.attention.deliver,
        forall|i: int| 0 <= i < ctx.sinks@.len() ==> !(#[trigger] ctx.sinks@[i]).enabled,
        outcome !is Failed,
    ensures
        ctx.database_path is None ==> action_of(ctx, first_run(ctx)) == ActionView::Report(
            no_sinks_event(ctx.item),
        ),
        action_of(ctx, run) == ActionView::RecordDecision ==> action_of(
            ctx,
            next_run(ctx, run, outcome),
        ) == ActionView::Report(no_sinks_event(ctx.item)),
{
    law_no_sink_counts_exactly_if_none_is_enabled(ctx.sinks@);
}

/// Where a record cannot be made, the way of the message ends with that error, and it is not marked
/// as handled.
pub proof fn law_failed_record_ends_the_way(
    ctx: WakeContext,
    run: RunView,
    error: String,
    later: StepOutcome,
)
    requires
        action_of(ctx, run) is RecordDecision || action_of(ctx, run) is ReconcileTargets
            || action_of(ctx, run) is RecordDbDelivery || action_of(ctx, run) is QueueWake
            || action_of(ctx, run) is MarkAttempted || action_of(ctx, run) is MarkDelivered
            || action_of(ctx, run) is MarkFailed || action_of(ctx, run) is MarkProcessed,
    ensures
        ({
            let after = next_run(ctx, run, StepOutcome::Failed(error));
            &&& action_of(ctx, after) matches ActionView::Abort { event, message } && message
                == error@ && (event matches Some(event) ==> event.message == error@)
            &&& next_run(ctx, after, later).phase == after.phase
        }),
{
}

/// When the time runs out, the message is left for the next start, without an error.
pub proof fn law_time_out_leaves_the_message(ctx: WakeContext, run: RunView)
    requires
        action_of(ctx, run) is Send || action_of(ctx, run) is Pause,
    ensures
        action_of(ctx, next_run(ctx, run, StepOutcome::TimedOut)) == ActionView::Stop,
{
}

/// A record that cannot be made is reported as a failure of the database, by what was to be recorded; a
/// mark that cannot be made is not reported.
pub proof fn law_failed_record_is_reported(ctx: WakeContext, run: RunView, error: String)
    ensures
        ({
            let action = action_of(ctx, run);
            let after = action_of(ctx, next_run(ctx, run, StepOutcome::Failed(error)));
            let kind = if action is RecordDecision {
                "db_attention_decision_failed"@
            } else if action is RecordDbDelivery {
                "db_sink_delivery_failed"@
            } else {
                "db_wake_sink_queue_failed"@
            };
            &&& action is RecordDecision || action is RecordDbDelivery || action is QueueWake ==> (
            after matches ActionView::Abort { event: Some(event), .. } && event.kind == kind
                && event.component == "storage"@ && event.target == Some(ctx.item.server@)
                && event.metadata == message_metadata(ctx.item))
            &&& action is ReconcileTargets ==> (after matches ActionView::Abort {
                event: Some(event),
                ..
            } && event.kind == "db_sink_target_reconcile_failed"@ && event.component == "storage"@)
            &&& action is MarkAttempted || action is MarkDelivered || action is MarkFailed || action
                is MarkProcessed ==> (after matches ActionView::Abort { event, .. } && event
                is None)
        }),
{
}

/// A wake that fails is reported under the server and the sink.
pub proof fn law_failed_wake_is_reported(item: WakeEnvelope, sink: SinkConfig, error: Seq<char>)
    ensures
        wake_failed_event(item, sink, error).target == Some(item.server@ + ":"@ + sink.key@),
        wake_failed_event(item, sink, error).kind == "wake_delivery_failed"@,
        no_sinks_event(item).kind == "sink_delivery_blocked_no_sinks"@,
{
}

/// With a database, nothing is sent before it is recorded: a wake is queued before its first attempt, and
/// each attempt is marked before it is made.
pub proof fn law_attempt_is_recorded_before_it_is_made(
    ctx: WakeContext,
    run: RunView,
    outcome: StepOutcome,
)
    requires
        ctx.database_path is Some,
    ensures
        action_of(ctx, first_run(ctx)) == ActionView::RecordDecision,
        action_of(ctx, next_run(ctx, run, outcome)) is Send ==> action_of(ctx, run)
            is MarkAttempted,
        action_of(ctx, next_run(ctx, run, outcome)) is MarkAttempted ==> action_of(ctx, run)
            is QueueWake || action_of(ctx, run) is Pause,
{
}

} // verus!
