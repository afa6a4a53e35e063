//! Where indexed events and the progress of the indexer are kept.
pub mod in_memory;
pub mod log;
pub mod postgres;

pub use in_memory::InMemory;
pub use postgres::Postgres;

use crate::messages::{Event, EventView};
use crate::text::copy_of;
use std::num::TryFromIntError;
use vstd::prelude::*;

verus! {

/// Progress of the indexer, as a storage keeps it.
#[derive(Debug)]
pub struct IndexerState {
    /// Cursor from which the next upstream page continues, none before the first page.
    pub last_upstream_cursor: Option<String>,
    /// Latest ledger of the network, zero while unknown.
    pub ledger_tip: u32,
    /// Oldest ledger that upstream reported, zero while unknown.
    pub oldest_ledger: u32,
    /// Whether indexing has once reached the retention cutoff.
    pub archive_ready: bool,
}

impl Clone for IndexerState {
    fn clone(&self) -> (r: Self)
        ensures
            r == *self,
    {
        IndexerState {
            last_upstream_cursor: copy_of(&self.last_upstream_cursor),
            ledger_tip: self.ledger_tip,
            oldest_ledger: self.oldest_ledger,
            archive_ready: self.archive_ready,
        }
    }
}

/// All that a storage keeps for one deployment.
#[verifier::ext_equal]
pub struct DeploymentView {
    pub last_upstream_cursor: Option<Seq<char>>,
    pub ledger_tip: u32,
    pub oldest_ledger: u32,
    pub archive_ready: bool,
    /// The event log, as [`log::ordered`] has it.
    pub events: Seq<EventView>,
}

/// What a storage keeps for a deployment that nothing was stored for.
pub open spec fn fresh_deployment() -> DeploymentView {
    DeploymentView {
        last_upstream_cursor: None,
        ledger_tip: 0,
        oldest_ledger: 0,
        archive_ready: false,
        events: Seq::empty(),
    }
}

/// Why a storage operation failed, with the error behind it.
#[derive(Debug)]
pub enum StorageError {
    /// The database connection string cannot be parsed.
    DatabaseUrl(tokio_postgres::Error),
    /// The ledger of an event does not fit the database's integer column.
    EventLedger(TryFromIntError),
    /// The ledger tip does not fit the database's integer column.
    LedgerTip(TryFromIntError),
    /// The oldest ledger does not fit the database's integer column.
    OldestLedger(TryFromIntError),
    /// The cutoff ledger does not fit the database's integer column.
    CutoffLedger(TryFromIntError),
    /// The start ledger does not fit the database's integer column.
    StartLedger(TryFromIntError),
    /// The deployment has no row in the state table.
    RowMissing { deployment_id: String },
}

impl StorageError {
    /// The text of the error.
    pub open spec fn text(&self) -> Seq<char> {
        match self {
            StorageError::DatabaseUrl(_) => "failed to parse DATABASE_URL"@,
            StorageError::EventLedger(_) => "event ledger exceeds postgres INTEGER range"@,
            StorageError::LedgerTip(_) => "ledger_tip exceeds postgres INTEGER range"@,
            StorageError::OldestLedger(_) => "oldest_ledger exceeds postgres INTEGER range"@,
            StorageError::CutoffLedger(_) => "cutoff_ledger exceeds postgres INTEGER range"@,
            StorageError::StartLedger(_) => "start_ledger exceeds postgres INTEGER range"@,
            StorageError::RowMissing { deployment_id } =>
                "indexer_state row missing for deployment_id="@ + deployment_id@,
        }
    }

    /// Renders the error for people.
    pub fn message(&self) -> (r: String)
        ensures
            r@ == self.text(),
    {
        match self {
            StorageError::DatabaseUrl(_) => "failed to parse DATABASE_URL".to_owned(),
            StorageError::EventLedger(_) => "event ledger exceeds postgres INTEGER range".to_owned(),
            StorageError::LedgerTip(_) => "ledger_tip exceeds postgres INTEGER range".to_owned(),
            StorageError::OldestLedger(_) => "oldest_ledger exceeds postgres INTEGER range".to_owned(),
            StorageError::CutoffLedger(_) => "cutoff_ledger exceeds postgres INTEGER range".to_owned(),
            StorageError::StartLedger(_) => "start_ledger exceeds postgres INTEGER range".to_owned(),
            StorageError::RowMissing { deployment_id } => {
                let head = "indexer_state row missing for deployment_id=".to_owned();
                head.concat(deployment_id.as_str())
            },
        }
    }
}

/// Nothing is kept for a deployment that nothing was stored for.
pub proof fn fresh_is_empty()
    ensures
        fresh_deployment().last_upstream_cursor is None,
        fresh_deployment().ledger_tip == 0,
        fresh_deployment().oldest_ledger == 0,
        !fresh_deployment().archive_ready,
        fresh_deployment().events.len() == 0,
{
}

impl StorageError {
    /// The text for a missing row ends with the whole name of its deployment, so
    /// two deployments have two texts.
    pub proof fn missing_row_names_its_deployment(a: String, b: String)
        ensures
            ({
                let text = (StorageError::RowMissing { deployment_id: a }).text();
                let head = "indexer_state row missing for deployment_id="@;
                &&& text.len() == head.len() + a@.len()
                &&& text.take(head.len() as int) == head
                &&& text.skip(head.len() as int) == a@
            }),
            (StorageError::RowMissing { deployment_id: a }).text() == (StorageError::RowMissing {
                deployment_id: b,
            }).text() ==> a@ == b@,
    {
        let head = "indexer_state row missing for deployment_id="@;
        assert((head + a@).take(head.len() as int) =~= head);
        assert((head + a@).skip(head.len() as int) =~= a@);
        assert((head + b@).skip(head.len() as int) =~= b@);
    }
}

/// A store for the events and the indexer progress of one deployment.
pub trait Storage {
    /// Whether the store is in a state that its operations accept.
    spec fn wf(&self) -> bool;

    /// Checks that the store can be reached.
    fn ping(&self) -> (r: Result<(), StorageError>)
        requires
            self.wf(),
    ;

    /// Reads the progress of the indexer.
    fn load_indexer_state(&self) -> (r: Result<IndexerState, StorageError>)
        requires
            self.wf(),
    ;

    /// Records the cursor from which the next upstream page continues.
    fn set_last_upstream_cursor(&mut self, cursor: &str) -> (r: Result<(), StorageError>)
        requires
            old(self).wf(),
        ensures
            final(self).wf(),
    ;

    /// Records the latest ledger of the network.
    fn set_ledger_tip(&mut self, ledger_tip: u32) -> (r: Result<(), StorageError>)
        requires
            old(self).wf(),
        ensures
            final(self).wf(),
    ;

    /// Records the oldest ledger that upstream holds.
    fn set_oldest_ledger(&mut self, oldest_ledger: u32) -> (r: Result<(), StorageError>)
        requires
            old(self).wf(),
        ensures
            final(self).wf(),
    ;

    /// Records that indexing has reached the retention cutoff.
    fn set_archive_ready(&mut self) -> (r: Result<(), StorageError>)
        requires
            old(self).wf(),
        ensures
            final(self).wf(),
    ;

    /// Adds the events that are not stored yet.
    fn upsert_events(&mut self, events: &[Event]) -> (r: Result<(), StorageError>)
        requires
            old(self).wf(),
        ensures
            final(self).wf(),
    ;

    /// Reads a page of events from a ledger on.
    fn page_events_ledger(&self, start_ledger: u32, cutoff_ledger: u32, limit: u32) -> (r: Result<
        Vec<Event>,
        StorageError,
    >)
        requires
            self.wf(),
    ;

    /// Reads the ledger of an event and a page of the events that follow it.
    fn page_events_cursor(&self, after_event_id: &str, cutoff_ledger: u32, limit: u32) -> (r:
        Result<(Option<u32>, Vec<Event>), StorageError>)
        requires
            self.wf(),
    ;
}

} // verus!
