//! What the daemon starts, and what it makes of a part of it that ends.

use vstd::prelude::*;

use crate::config::{ServerConfig, SinkConfig};
use crate::hard_failure::{EventView, HardFailureEvent};
use crate::json;
use crate::json::empty_object;
use crate::supervisor::wake;
use crate::supervisor::wake::db_sink;
use crate::text;

verus! {

/// The places of the servers that are enabled, in order.
pub open spec fn enabled_places(servers: Seq<ServerConfig>) -> Seq<usize>
    decreases servers.len(),
{
    if servers.len() == 0 {
        Seq::empty()
    } else if servers.last().enabled {
        enabled_places(servers.drop_last()).push((servers.len() - 1) as usize)
    } else {
        enabled_places(servers.drop_last())
    }
}

/// The places of the servers that the daemon connects to when it starts.
pub fn servers_to_start(servers: &Vec<ServerConfig>) -> (places: Vec<usize>)
    ensures
        places@ == enabled_places(servers@),
        forall|k: int|
            0 <= k < places@.len() ==> (#[trigger] places@[k]) < servers.len()
                && servers@[places@[k] as int].enabled,
{
    let mut places: Vec<usize> = Vec::new();
    let mut i: usize = 0;
    assert(places@ =~= enabled_places(servers@.take(0)));
    while i < servers.len()
        invariant
            i <= servers.len(),
            places@ == enabled_places(servers@.take(i as int)),
            forall|k: int|
                0 <= k < places@.len() ==> (#[trigger] places@[k]) < i
                    && servers@[places@[k] as int].enabled,
        decreases servers.len() - i,
    {
        assert(servers@.take(i + 1).drop_last() =~= servers@.take(i as int));
        if servers[i].enabled {
            places.push(i);
        }
        i = i + 1;
    }
    assert(servers@.take(servers@.len() as int) =~= servers@);
    places
}

/// Whether the daemon needs its delivery database: a sink that is enabled writes to it.
pub fn needs_delivery_store(sinks: &Vec<SinkConfig>) -> (b: bool)
    ensures
        b == (wake::db_place(sinks@) is Some),
{
    db_sink(sinks).is_some()
}

/// The delivery database cannot be used.
pub open spec fn store_event(database_path: Seq<char>, error: Seq<char>) -> EventView {
    EventView {
        kind: "db_sink_ready_failed"@,
        component: "storage"@,
        target: Some(database_path),
        message: error,
        metadata: json::object_view().with_text("database_path"@, database_path),
    }
}

/// The delivery database cannot be used.
pub fn store_not_ready_event(database_path: &str, error: &str) -> (event: HardFailureEvent)
    ensures
        event@ == store_event(database_path@, error@),
{
    HardFailureEvent::new(
        "db_sink_ready_failed",
        "storage",
        Some(database_path.to_owned()),
        error,
        empty_object().with_text("database_path", database_path),
    )
}

/// How a part of the daemon has ended.
#[derive(Debug, Clone)]
pub enum TaskEnd {
    /// It was done, which it never should be.
    Finished,
    /// It failed, or broke off, for this reason.
    Failed(String),
}

/// Why the daemon stops when one of its parts has ended.
pub open spec fn exit_reason(task_name: Seq<char>, end: TaskEnd) -> Seq<char> {
    match end {
        TaskEnd::Finished => task_name + " exited unexpectedly"@,
        TaskEnd::Failed(message) => message@,
    }
}

/// Why the daemon stops when one of its parts has ended.
pub fn task_exit_reason(task_name: &str, end: TaskEnd) -> (reason: String)
    ensures
        reason@ == exit_reason(task_name@, end),
{
    match end {
        TaskEnd::Finished => {
            let mut reason = task_name.to_owned();
            reason.append(" exited unexpectedly");
            reason
        },
        TaskEnd::Failed(message) => message,
    }
}

/// A part of the daemon has ended.
pub open spec fn exit_event(task_name: Seq<char>, reason: Seq<char>) -> EventView {
    EventView {
        kind: "critical_task_exit"@,
        component: "supervisor"@,
        target: Some(task_name),
        message: reason,
        metadata: json::object_view().with_text("task"@, task_name),
    }
}

/// A part of the daemon has ended.
pub fn task_exit_event(task_name: &str, reason: &str) -> (event: HardFailureEvent)
    ensures
        event@ == exit_event(task_name@, reason@),
{
    HardFailureEvent::new(
        "critical_task_exit",
        "supervisor",
        Some(task_name.to_owned()),
        reason,
        empty_object().with_text("task", task_name),
    )
}

/// The name of the part that keeps up the connection to a server.
pub fn server_task_name(server_key: &str) -> (name: String)
    ensures
        name@ == "subspace:"@ + server_key@,
{
    let mut name = "subspace:".to_owned();
    name.append(server_key);
    name
}

// ---------------------------------------------------------------------------
// Laws
// ---------------------------------------------------------------------------

/// Every enabled server is started, once and in the order of the configuration, and no other.
pub proof fn law_every_enabled_server_is_started(servers: Seq<ServerConfig>)
    requires
        servers.len() <= usize::MAX,
    ensures
        forall|k: int|
            0 <= k < enabled_places(servers).len() ==> (#[trigger] enabled_places(servers)[k])
                < servers.len() && servers[enabled_places(servers)[k] as int].enabled,
        forall|j: int, k: int|
            0 <= j < k < enabled_places(servers).len() ==> (#[trigger] enabled_places(servers)[j])
                < (#[trigger] enabled_places(servers)[k]),
        forall|i: int|
            0 <= i < servers.len() && (#[trigger] servers[i]).enabled ==> enabled_places(
                servers,
            ).contains(i as usize),
    decreases servers.len(),
{
    if servers.len() > 0 {
        let rest = servers.drop_last();
        law_every_enabled_server_is_started(rest);
        let before = enabled_places(rest);
        let at = enabled_places(servers);
        assert(forall|i: int| 0 <= i < rest.len() ==> #[trigger] rest[i] == servers[i]);
        assert forall|k: int| 0 <= k < at.len() implies (#[trigger] at[k]) < servers.len()
            && servers[at[k] as int].enabled by {
            if k < before.len() {
                assert(at[k] == before[k]);
                assert(rest[before[k] as int] == servers[at[k] as int]);
            }
        }
        assert forall|j: int, k: int| 0 <= j < k < at.len() implies (#[trigger] at[j]) < (
        #[trigger] at[k]) by {
            assert(at[j] == before[j]);
            if k < before.len() {
                assert(at[k] == before[k]);
            }
        }
        assert forall|i: int| 0 <= i < servers.len() && (#[trigger] servers[i]).enabled implies at.contains(
            i as usize,
        ) by {
            if i < rest.len() {
                assert(rest[i].enabled);
                let k = choose|k: int| 0 <= k < before.len() && before[k] == i as usize;
                assert(at[k] == i as usize);
            } else {
                assert(at[before.len() as int] == i as usize);
            }
        }
    }
}

/// A task that ends is reported under its name, with the reason for its end.
pub proof fn law_end_of_a_task_is_reported(
    task_name: Seq<char>,
    reason: Seq<char>,
    message: String,
    database_path: Seq<char>,
)
    ensures
        exit_reason(task_name, TaskEnd::Failed(message)) == message@,
        task_name.is_prefix_of(exit_reason(task_name, TaskEnd::Finished)),
        exit_event(task_name, reason).target == Some(task_name),
        exit_event(task_name, reason).message == reason,
        exit_event(task_name, reason).metadata.text_member("task"@) == Some(task_name),
        store_event(database_path, reason).target == Some(database_path),
        store_event(database_path, reason).message == reason,
        store_event(database_path, reason).metadata.text_member("database_path"@) == Some(
            database_path,
        ),
{
    json::lemma_members();
    let said = exit_reason(task_name, TaskEnd::Finished);
    assert(said.take(task_name.len() as int) =~= task_name);
}

} // verus!
