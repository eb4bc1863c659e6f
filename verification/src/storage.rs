//! What is written to the delivery database, and when its tables are made.

use vstd::prelude::*;

use crate::config::{SinkKind, StorageConfig};
use crate::failure::{failure, Failure};
use crate::json;
use crate::json::{empty_object, Json};
use crate::text;

verus! {

/// The delivery database.
#[derive(Debug, Clone)]
pub struct DeliveryStore {
    database_path: String,
    artifact_root: String,
    auto_migrate: bool,
}

pub struct StoreView {
    pub database_path: Seq<char>,
    pub artifact_root: Seq<char>,
    pub auto_migrate: bool,
}

impl View for DeliveryStore {
    type V = StoreView;

    closed spec fn view(&self) -> StoreView {
        StoreView {
            database_path: self.database_path@,
            artifact_root: self.artifact_root@,
            auto_migrate: self.auto_migrate,
        }
    }
}

/// What has to be done before the database can be used.
#[derive(Debug, Clone, Copy, PartialEq, Eq, Structural)]
pub enum SchemaStep {
    /// Nothing: the tables are there.
    Ready,
    /// The tables have to be made.
    CreateTables,
}

/// A message in the database.
#[derive(Debug, Clone)]
pub struct AcceptedMessageRecord {
    pub accepted_message_id: i64,
    /// Whether the message was not in the database before.
    pub inserted: bool,
}

/// A delivery of a message by a sink.
#[derive(Debug, Clone)]
pub struct SinkDeliveryRow {
    pub accepted_message_id: i64,
    pub sink_key: String,
    pub sink_kind: SinkKind,
    pub destination: String,
}

pub struct DeliveryRowView {
    pub accepted_message_id: i64,
    pub sink_key: Seq<char>,
    pub sink_kind: SinkKind,
    pub destination: Seq<char>,
}

impl View for SinkDeliveryRow {
    type V = DeliveryRowView;

    open spec fn view(&self) -> DeliveryRowView {
        DeliveryRowView {
            accepted_message_id: self.accepted_message_id,
            sink_key: self.sink_key@,
            sink_kind: self.sink_kind,
            destination: self.destination@,
        }
    }
}

impl DeliveryStore {
    /// The database that is configured.
    pub fn new(config: &StorageConfig) -> (store: Self)
        ensures
            store@ == (StoreView {
                database_path: config.database_path@,
                artifact_root: config.artifact_root@,
                auto_migrate: config.auto_migrate,
            }),
    {
        DeliveryStore {
            database_path: config.database_path.clone(),
            artifact_root: config.artifact_root.clone(),
            auto_migrate: config.auto_migrate,
        }
    }

    /// The path of the database.
    pub fn database_path(&self) -> (path: &str)
        ensures
            path@ == self@.database_path,
    {
        self.database_path.as_str()
    }

    /// The directory of artifacts.
    pub fn artifact_root(&self) -> (path: &str)
        ensures
            path@ == self@.artifact_root,
    {
        self.artifact_root.as_str()
    }

    /// What has to be done before the database can be used. `initialized` says whether its tables
    /// are there.
    pub fn ensure_ready(&self, initialized: bool) -> (step: Result<SchemaStep, Failure>)
        ensures
            match step {
                Ok(SchemaStep::Ready) => initialized,
                Ok(SchemaStep::CreateTables) => !initialized && self@.auto_migrate,
                Err(f) => !initialized && !self@.auto_migrate && f@
                    == "database schema missing and storage.auto_migrate is false"@,
            },
    {
        if initialized {
            Ok(SchemaStep::Ready)
        } else if self.auto_migrate {
            Ok(SchemaStep::CreateTables)
        } else {
            Err(failure("database schema missing and storage.auto_migrate is false"))
        }
    }

    /// The settings of the database sink, as they are kept with a delivery.
    pub fn db_sink_settings(&self) -> (settings: Json)
        ensures
            settings@ == json::object_view().with_text(
                "database_path"@,
                self@.database_path,
            ).with_text("artifact_root"@, self@.artifact_root),
    {
        empty_object().with_text("database_path", self.database_path.as_str()).with_text(
            "artifact_root",
            self.artifact_root.as_str(),
        )
    }
}

/// The settings of a wake sink, as they are kept with a delivery.
pub fn wake_sink_settings(destination: &str) -> (settings: Json)
    ensures
        settings@ == json::object_view().with_text("session_key"@, destination@),
{
    empty_object().with_text("session_key", destination)
}

/// The record of a message: `changed` is the number of rows that storing it has added, `id` is the
/// one that was found for it afterwards.
pub fn accepted_record(changed: usize, id: Option<i64>) -> (result: Result<
    AcceptedMessageRecord,
    Failure,
>)
    ensures
        match result {
            Ok(record) => id == Some(record.accepted_message_id) && record.inserted == (changed > 0),
            Err(f) => id is None && f@ == "accepted_message row missing after upsert"@,
        },
{
    match id {
        Some(accepted_message_id) => Ok(
            AcceptedMessageRecord { accepted_message_id, inserted: changed > 0 },
        ),
        None => Err(failure("accepted_message row missing after upsert")),
    }
}

/// The row of a delivery; a delivery must go somewhere.
pub fn sink_delivery_row(
    accepted_message_id: i64,
    sink_key: &str,
    sink_kind: SinkKind,
    destination: &str,
) -> (result: Result<SinkDeliveryRow, Failure>)
    ensures
        match result {
            Ok(row) => text::trimmed(destination@).len() > 0 && row@ == (DeliveryRowView {
                accepted_message_id,
                sink_key: sink_key@,
                sink_kind,
                destination: destination@,
            }),
            Err(f) => text::trimmed(destination@).len() == 0 && f@
                == "sink destination must not be empty"@,
        },
{
    if text::trim(destination).is_empty() {
        return Err(failure("sink destination must not be empty"));
    }
    Ok(
        SinkDeliveryRow {
            accepted_message_id,
            sink_key: sink_key.to_owned(),
            sink_kind,
            destination: destination.to_owned(),
        },
    )
}

} // verus!
