//! What a Postgres storage sends to its database, and what it makes of the rows.
//!
//! The event table keeps ledgers in `INTEGER` columns, so a ledger above
//! `i32::MAX` cannot be stored or asked for.
use super::log;
use super::{IndexerState, StorageError};
use crate::messages;
use crate::messages::{Event, EventView};
use crate::text;
use std::num::TryFromIntError;
use tokio_postgres::Config as ConnectionConfig;
use tokio_postgres::Error as ConnectionError;
use vstd::prelude::*;

verus! {

/// [`tokio_postgres::Config`], carried and never looked into.
#[verifier::external_type_specification]
#[verifier::external_body]
pub struct ExConnectionConfig(ConnectionConfig);

/// [`tokio_postgres::Error`], carried and never looked into.
#[verifier::external_type_specification]
#[verifier::external_body]
pub struct ExConnectionError(ConnectionError);

/// What [`tokio_postgres::Config`] reads out of a connection string, or why it
/// cannot be parsed.
pub uninterp spec fn connection_settings(database_url: Seq<char>) -> Result<
    ConnectionConfig,
    ConnectionError,
>;

/// Parses a connection string by `tokio_postgres::Config::from_str`. Taken on
/// trust: the outcome, settings or error, depends on the string alone.
#[verifier::external_body]
fn parse_connection_string(database_url: &str) -> (r: Result<ConnectionConfig, ConnectionError>)
    ensures
        r == connection_settings(database_url@),
{
    database_url.parse()
}

/// How many events one insertion holds at most.
pub const BATCH_SIZE: usize = 1_000;

/// A storage in a Postgres database, scoped to one deployment.
pub struct Postgres {
    /// Where and how to connect.
    pub config: ConnectionConfig,
    /// Size of the connection pool.
    pub max_connections: usize,
    pub deployment_id: String,
    /// Whether to drop what other deployments stored.
    pub delete_other_deployments: bool,
}

/// One step of preparing the database.
#[derive(Debug, Clone, Copy, PartialEq, Eq, Structural)]
pub enum InitStep {
    /// Bring the tables up to date.
    Migrate,
    /// Add a row for this deployment to the state table, unless it is there.
    EnsureStateRow,
    /// Delete the events of other deployments.
    DeleteOtherEvents,
    /// Delete the state rows of other deployments.
    DeleteOtherState,
}

/// The columns of one insertion, a row for each event.
#[derive(Debug)]
pub struct EventColumns {
    pub ids: Vec<String>,
    pub ledgers: Vec<i32>,
    /// The events themselves, to be encoded.
    pub payloads: Vec<Event>,
}

impl EventColumns {
    /// Whether the columns hold these events, row by row.
    pub open spec fn hold(&self, events: Seq<Event>) -> bool {
        &&& self.ids@.len() == events.len()
        &&& self.ledgers@.len() == events.len()
        &&& messages::event_views(self.payloads@) == messages::event_views(events)
        &&& forall|i: int|
            0 <= i < events.len() ==> self.ids@[i] == (#[trigger] events[i]).id && self.ledgers@[i]
                == events[i].ledger
    }
}

/// Bounds of a page by ledger, as the database takes them.
#[derive(Debug, Clone, Copy, PartialEq, Eq, Structural)]
pub struct LedgerPageBounds {
    pub start_ledger: i32,
    pub cutoff_ledger: i32,
    pub limit: i64,
}

/// Bounds of a page after a cursor, as the database takes them.
#[derive(Debug, Clone, Copy, PartialEq, Eq, Structural)]
pub struct CursorPageBounds {
    pub cutoff_ledger: i32,
    pub limit: i64,
}

/// Whether the ledger fits an `INTEGER` column.
pub open spec fn fits(ledger: u32) -> bool {
    ledger <= i32::MAX
}

/// Whether the ledgers of all the events fit.
pub open spec fn all_fit(events: Seq<EventView>) -> bool {
    forall|i: int| 0 <= i < events.len() ==> fits((#[trigger] events[i]).ledger)
}

/// What an `INTEGER` column says of a ledger: negative numbers count as zero.
pub open spec fn ledger_of(column: i32) -> u32 {
    if column < 0 {
        0
    } else {
        column as u32
    }
}

/// What the rows of a cursor query hold: the payloads that are there.
pub open spec fn payloads(rows: Seq<(i32, Option<Event>)>) -> Seq<Event>
    decreases rows.len(),
{
    if rows.len() == 0 {
        Seq::empty()
    } else {
        match rows.last().1 {
            Some(event) => payloads(rows.drop_last()).push(event),
            None => payloads(rows.drop_last()),
        }
    }
}

/// The rows that a cursor query asks the database for: none where the cursor
/// is unknown, else one for each event of the page, or a single one without an
/// event where the page is empty, each with the ledger of the cursor.
pub open spec fn cursor_rows(place: Option<u32>, page: Seq<Event>) -> Seq<(i32, Option<Event>)> {
    match place {
        None => Seq::empty(),
        Some(ledger) => if page.len() == 0 {
            seq![(ledger as i32, None::<Event>)]
        } else {
            page.map_values(|e: Event| (ledger as i32, Some(e)))
        },
    }
}

/// What the rows of a cursor query say: the ledger of the cursor and the events
/// after it.
pub open spec fn read_rows(rows: Seq<(i32, Option<Event>)>) -> (Option<u32>, Seq<EventView>) {
    (
        if rows.len() == 0 {
            None
        } else {
            Some(ledger_of(rows[0].0))
        },
        messages::event_views(payloads(rows)),
    )
}

/// What a cursor query asks for out of the events of the deployment: the ledger
/// of the cursor, and of the events below the cutoff with a later ledger, or
/// with the same ledger and a later identifier, the first `limit`.
pub open spec fn queried(
    log: Seq<EventView>,
    id: Seq<char>,
    cutoff_ledger: u32,
    limit: u32,
) -> (Option<u32>, Seq<EventView>) {
    match log::cursor_ledger(log, id) {
        None => (None, Seq::empty()),
        Some(ledger) => (
            Some(ledger),
            log::first_n(
                log.filter(
                    |e: EventView|
                        e.ledger < cutoff_ledger && (e.ledger > ledger || (e.ledger == ledger
                            && text::text_before(id, e.id))),
                ),
                limit as int,
            ),
        ),
    }
}

/// Where the insertion that begins with event `start` ends.
pub open spec fn batch_end(len: nat, start: nat) -> nat {
    if start + BATCH_SIZE <= len {
        (start + BATCH_SIZE) as nat
    } else {
        len
    }
}

/// The events that have been inserted, from event `start` on, when the first
/// insertion that cannot be made ends it all.
pub open spec fn inserted(events: Seq<EventView>, start: nat) -> Seq<EventView>
    decreases events.len() - start,
{
    if start >= events.len() {
        Seq::empty()
    } else {
        let end = batch_end(events.len(), start);
        let batch = events.subrange(start as int, end as int);
        if all_fit(batch) {
            batch + inserted(events, end)
        } else {
            Seq::empty()
        }
    }
}

fn integer(ledger: u32) -> (r: Result<i32, TryFromIntError>)
    ensures
        r is Ok <==> fits(ledger),
        r matches Ok(n) ==> n == ledger,
{
    i32::try_from(u64::from(ledger))
}

fn ledger(column: i32) -> (r: u32)
    ensures
        r == ledger_of(column),
{
    if column < 0 {
        0
    } else {
        column as u32
    }
}

impl Postgres {
    /// A storage on the database that the connection string names. No
    /// connection is made yet.
    pub fn connect(
        database_url: &str,
        max_connections: usize,
        deployment_id: &str,
        delete_other_deployments: bool,
    ) -> (r: Result<Self, StorageError>)
        ensures
            match connection_settings(database_url@) {
                Ok(config) => r matches Ok(p) && p.config == config && p.max_connections
                    == max_connections && p.deployment_id@ == deployment_id@
                    && p.delete_other_deployments == delete_other_deployments,
                Err(cause) => r == Err::<Postgres, StorageError>(StorageError::DatabaseUrl(cause)),
            },
    {
        match parse_connection_string(database_url) {
            Ok(config) => Ok(Self::with_config(
                config,
                max_connections,
                deployment_id,
                delete_other_deployments,
            )),
            Err(cause) => Err(StorageError::DatabaseUrl(cause)),
        }
    }

    /// A storage on the database that the connection settings name.
    pub fn with_config(
        config: ConnectionConfig,
        max_connections: usize,
        deployment_id: &str,
        delete_other_deployments: bool,
    ) -> (p: Self)
        ensures
            p.config == config,
            p.max_connections == max_connections,
            p.deployment_id@ == deployment_id@,
            p.delete_other_deployments == delete_other_deployments,
    {
        Postgres {
            config,
            max_connections,
            deployment_id: deployment_id.to_owned(),
            delete_other_deployments,
        }
    }

    /// The steps that prepare the database, each to be made when the one before succeeded.
    pub fn init(&self) -> (steps: Vec<InitStep>)
        ensures
            steps@ == if self.delete_other_deployments {
                seq![
                    InitStep::Migrate,
                    InitStep::EnsureStateRow,
                    InitStep::DeleteOtherEvents,
                    InitStep::DeleteOtherState,
                ]
            } else {
                seq![InitStep::Migrate, InitStep::EnsureStateRow]
            },
    {
        let mut steps: Vec<InitStep> = Vec::new();
        steps.push(InitStep::Migrate);
        steps.push(InitStep::EnsureStateRow);
        if self.delete_other_deployments {
            steps.push(InitStep::DeleteOtherEvents);
            steps.push(InitStep::DeleteOtherState);
        }
        steps
    }

    /// The deployment that the storage is scoped to.
    pub fn deployment_id(&self) -> (r: &str)
        ensures
            r@ == self.deployment_id@,
    {
        self.deployment_id.as_str()
    }

    /// The columns of an insertion of these events.
    pub fn insert_events_batch(events: &[Event]) -> (r: Result<EventColumns, StorageError>)
        ensures
            match r {
                Ok(columns) => all_fit(messages::event_views(events@)) && columns.hold(events@)
                    && columns.ids@.len() == events@.len() && columns.ledgers@.len()
                    == events@.len() && columns.payloads@.len() == events@.len() && forall|i: int|
                    0 <= i < events@.len() ==> columns.ids@[i]@ == (#[trigger] events@[i]).id@
                        && columns.ledgers@[i] == events@[i].ledger && columns.payloads@[i]@
                        == events@[i]@,
                Err(e) => !all_fit(messages::event_views(events@)) && e is EventLedger,
            },
    {
        let mut ids: Vec<String> = Vec::new();
        let mut ledgers: Vec<i32> = Vec::new();
        let mut payloads: Vec<Event> = Vec::new();
        let ghost all = messages::event_views(events@);
        let mut i: usize = 0;
        while i < events.len()
            invariant
                i <= events.len(),
                all == messages::event_views(events@),
                ids.len() == i,
                ledgers.len() == i,
                messages::event_views(payloads@) =~= all.take(i as int),
                forall|j: int|
                    0 <= j < i ==> ids@[j] == (#[trigger] events@[j]).id && ledgers@[j]
                        == events@[j].ledger && fits(events@[j].ledger),
            decreases events.len() - i,
        {
            match integer(events[i].ledger) {
                Ok(n) => {
                    let ghost had = payloads@;
                    ids.push(events[i].id.clone());
                    ledgers.push(n);
                    payloads.push(events[i].clone());
                    assert(messages::event_views(payloads@) =~= messages::event_views(had).push(
                        all[i as int],
                    ));
                },
                Err(cause) => {
                    assert(!fits(all[i as int].ledger));
                    return Err(StorageError::EventLedger(cause));
                },
            }
            i += 1;
        }
        assert forall|j: int| 0 <= j < all.len() implies fits((#[trigger] all[j]).ledger) by {
            assert(all[j] == events@[j]@);
        }
        assert(all.take(i as int) =~= all);
        assert(payloads@.len() == messages::event_views(payloads@).len());
        assert forall|j: int| 0 <= j < events@.len() implies ids@[j]@ == (#[trigger] events@[j]).id@
            && ledgers@[j] == events@[j].ledger && payloads@[j]@ == events@[j]@ by {
            assert(messages::event_views(payloads@)[j] == all[j]);
        }
        Ok(EventColumns { ids, ledgers, payloads })
    }

    /// The insertion that begins with event `start`, and where it ends; none
    /// when all events are inserted.
    pub fn upsert_events(events: &[Event], start: usize) -> (r: Option<
        (usize, Result<EventColumns, StorageError>),
    >)
        ensures
            match r {
                None => start >= events@.len(),
                Some((end, columns)) => {
                    let batch = events@.subrange(start as int, end as int);
                    &&& start < events@.len()
                    &&& end == batch_end(events@.len(), start as nat)
                    &&& start < end <= events@.len()
                    &&& end - start == 1_000 || (end - start < 1_000 && end == events@.len())
                    &&& match columns {
                        Ok(columns) => all_fit(messages::event_views(batch)) && columns.hold(batch),
                        Err(e) => !all_fit(messages::event_views(batch)) && e is EventLedger,
                    }
                },
            },
    {
        if start >= events.len() {
            return None;
        }
        let end: usize = if events.len() - start >= BATCH_SIZE {
            start + BATCH_SIZE
        } else {
            events.len()
        };
        let batch = vstd::slice::slice_subrange(events, start, end);
        Some((end, Self::insert_events_batch(batch)))
    }

    /// The state that a row of the state table holds.
    pub fn load_indexer_state(
        last_upstream_cursor: Option<String>,
        ledger_tip: i32,
        oldest_ledger: i32,
        archive_ready: bool,
    ) -> (r: IndexerState)
        ensures
            r == (IndexerState {
                last_upstream_cursor,
                ledger_tip: ledger_of(ledger_tip),
                oldest_ledger: ledger_of(oldest_ledger),
                archive_ready,
            }),
    {
        IndexerState {
            last_upstream_cursor,
            ledger_tip: ledger(ledger_tip),
            oldest_ledger: ledger(oldest_ledger),
            archive_ready,
        }
    }

    /// The column for a ledger tip.
    pub fn set_ledger_tip(ledger_tip: u32) -> (r: Result<i32, StorageError>)
        ensures
            match r {
                Ok(n) => fits(ledger_tip) && n == ledger_tip,
                Err(e) => !fits(ledger_tip) && e is LedgerTip,
            },
    {
        match integer(ledger_tip) {
            Ok(n) => Ok(n),
            Err(cause) => Err(StorageError::LedgerTip(cause)),
        }
    }

    /// The column for an oldest ledger.
    pub fn set_oldest_ledger(oldest_ledger: u32) -> (r: Result<i32, StorageError>)
        ensures
            match r {
                Ok(n) => fits(oldest_ledger) && n == oldest_ledger,
                Err(e) => !fits(oldest_ledger) && e is OldestLedger,
            },
    {
        match integer(oldest_ledger) {
            Ok(n) => Ok(n),
            Err(cause) => Err(StorageError::OldestLedger(cause)),
        }
    }

    /// Checks how many rows an update of the deployment's state row touched.
    pub fn check_updated(&self, updated: u64) -> (r: Result<(), StorageError>)
        ensures
            updated == 1 ==> r is Ok,
            updated != 1 ==> r == Err::<(), StorageError>(
                StorageError::RowMissing { deployment_id: self.deployment_id },
            ),
    {
        if updated != 1 {
            return Err(StorageError::RowMissing { deployment_id: self.deployment_id.clone() });
        }
        Ok(())
    }

    /// The bounds of a page by ledger.
    pub fn page_events_ledger(start_ledger: u32, cutoff_ledger: u32, limit: u32) -> (r: Result<
        LedgerPageBounds,
        StorageError,
    >)
        ensures
            match r {
                Ok(b) => b.start_ledger == start_ledger && b.cutoff_ledger == cutoff_ledger
                    && b.limit == limit,
                Err(e) => if fits(cutoff_ledger) {
                    !fits(start_ledger) && e is StartLedger
                } else {
                    e is CutoffLedger
                },
            },
            r is Ok <==> fits(start_ledger) && fits(cutoff_ledger),
    {
        match integer(cutoff_ledger) {
            Err(cause) => Err(StorageError::CutoffLedger(cause)),
            Ok(cutoff_ledger) => match integer(start_ledger) {
                Err(cause) => Err(StorageError::StartLedger(cause)),
                Ok(start_ledger) => Ok(
                    LedgerPageBounds { start_ledger, cutoff_ledger, limit: limit as i64 },
                ),
            },
        }
    }

    /// The bounds of a page after a cursor.
    pub fn page_events_cursor(cutoff_ledger: u32, limit: u32) -> (r: Result<
        CursorPageBounds,
        StorageError,
    >)
        ensures
            match r {
                Ok(b) => fits(cutoff_ledger) && b.cutoff_ledger == cutoff_ledger && b.limit
                    == limit,
                Err(e) => !fits(cutoff_ledger) && e is CutoffLedger,
            },
    {
        match integer(cutoff_ledger) {
            Err(cause) => Err(StorageError::CutoffLedger(cause)),
            Ok(cutoff_ledger) => Ok(CursorPageBounds { cutoff_ledger, limit: limit as i64 }),
        }
    }

    /// The ledger of a cursor and the events after it, out of the rows of a
    /// cursor query: each row repeats the ledger of the cursor and may hold an
    /// event; no row means that the cursor is unknown.
    pub fn cursor_page(rows: Vec<(i32, Option<Event>)>) -> (r: (Option<u32>, Vec<Event>))
        ensures
            (r.0, messages::event_views(r.1@)) == read_rows(rows@),
    {
        let mut events: Vec<Event> = Vec::new();
        if rows.len() == 0 {
            assert(messages::event_views(events@) =~= messages::event_views(payloads(rows@)));
            return (None, events);
        }
        let cursor_ledger: u32 = ledger(rows[0].0);
        let mut i: usize = 0;
        while i < rows.len()
            invariant
                i <= rows.len(),
                messages::event_views(events@) =~= messages::event_views(
                    payloads(rows@.take(i as int)),
                ),
            decreases rows.len() - i,
        {
            let ghost had = events@;
            if let Some(event) = &rows[i].1 {
                events.push(event.clone());
                assert(messages::event_views(events@) =~= messages::event_views(had).push(event@));
            }
            proof {
                let part = rows@.take(i + 1);
                assert(part.drop_last() =~= rows@.take(i as int));
                assert(part.last() == rows@[i as int]);
                if rows@[i as int].1 is Some {
                    assert(messages::event_views(payloads(part)) =~= messages::event_views(
                        payloads(rows@.take(i as int)),
                    ).push(rows@[i as int].1->0@));
                }
            }
            i += 1;
        }
        assert(rows@.take(i as int) =~= rows@);
        (Some(cursor_ledger), events)
    }

    /// A ledger fits a column when it is at most 2147483647; a column says its
    /// number, and zero where that is negative.
    pub proof fn columns_hold_small_ledgers(ledger: u32, column: i32)
        ensures
            fits(ledger) <==> ledger <= 2_147_483_647,
            column >= 0 ==> ledger_of(column) == column,
            column < 0 ==> ledger_of(column) == 0,
    {
    }

    /// Events fit when the ledger of each does.
    pub proof fn events_fit_one_by_one(events: Seq<EventView>)
        ensures
            all_fit(events) <==> forall|i: int|
                0 <= i < events.len() ==> (#[trigger] events[i]).ledger <= 2_147_483_647,
    {
        if forall|i: int|
            0 <= i < events.len() ==> (#[trigger] events[i]).ledger <= 2_147_483_647 {
            assert forall|i: int| 0 <= i < events.len() implies fits(
                (#[trigger] events[i]).ledger,
            ) by {}
        }
    }

    /// Columns that hold events have a row for each, with its identifier, its
    /// ledger and the event itself.
    pub proof fn columns_are_row_by_row(columns: EventColumns, events: Seq<Event>)
        requires
            columns.hold(events),
        ensures
            columns.ids@.len() == events.len(),
            columns.ledgers@.len() == events.len(),
            columns.payloads@.len() == events.len(),
            forall|i: int|
                0 <= i < events.len() ==> columns.ids@[i]@ == (#[trigger] events[i]).id@
                    && columns.ledgers@[i] == events[i].ledger && columns.payloads@[i]@
                    == events[i]@,
    {
        let views = messages::event_views(columns.payloads@);
        assert(views.len() == messages::event_views(events).len());
        assert forall|i: int| 0 <= i < events.len() implies columns.payloads@[i]@ == (
        #[trigger] events[i])@ by {
            assert(views[i] == messages::event_views(events)[i]);
        }
    }

    /// Rows are read one after the other: each gives the event that it holds, or
    /// nothing; the first says the ledger of the cursor, and no row that the
    /// cursor is unknown.
    pub proof fn rows_are_read_one_by_one(
        a: Seq<(i32, Option<Event>)>,
        b: Seq<(i32, Option<Event>)>,
        column: i32,
        event: Event,
    )
        ensures
            payloads(Seq::empty()).len() == 0,
            payloads(seq![(column, Some(event))]) == seq![event],
            payloads(seq![(column, None::<Event>)]).len() == 0,
            payloads(a + b) == payloads(a) + payloads(b),
            read_rows(a).0 is None <==> a.len() == 0,
            a.len() > 0 && a[0].0 >= 0 ==> read_rows(a).0 == Some(a[0].0 as u32),
            a.len() > 0 && a[0].0 < 0 ==> read_rows(a).0 == Some(0u32),
            read_rows(a).1.len() == payloads(a).len(),
            forall|i: int|
                0 <= i < payloads(a).len() ==> #[trigger] read_rows(a).1[i] == payloads(a)[i]@,
    {
        let one = seq![(column, Some(event))];
        assert(one.drop_last() =~= Seq::empty());
        assert(payloads(one.drop_last()) =~= Seq::empty());
        assert(payloads(one) =~= seq![event]);
        let none = seq![(column, None::<Event>)];
        assert(none.drop_last() =~= Seq::empty());
        assert(payloads(none.drop_last()) =~= Seq::empty());
        Self::payloads_in_parts(a, b);
    }

    proof fn payloads_in_parts(a: Seq<(i32, Option<Event>)>, b: Seq<(i32, Option<Event>)>)
        ensures
            payloads(a + b) == payloads(a) + payloads(b),
        decreases b.len(),
    {
        if b.len() == 0 {
            assert(a + b =~= a);
            assert(payloads(a) + payloads(b) =~= payloads(a));
        } else {
            Self::payloads_in_parts(a, b.drop_last());
            assert((a + b).drop_last() =~= a + b.drop_last());
            assert((a + b).last() == b.last());
            assert(payloads(a + b) =~= payloads(a) + payloads(b));
        }
    }

    /// A tip and an oldest ledger that could be stored are read back unchanged.
    pub proof fn stored_ledger_is_read_back(ledger: u32)
        requires
            fits(ledger),
        ensures
            ledger_of(ledger as i32) == ledger,
    {
    }

    /// The rows of a cursor query give back the ledger of the cursor and the
    /// events of the page.
    pub proof fn cursor_rows_are_read_back(place: Option<u32>, page: Seq<Event>)
        requires
            place matches Some(ledger) ==> fits(ledger),
            place is None ==> page.len() == 0,
        ensures
            ({
                let rows = cursor_rows(place, page);
                &&& rows.len() == 0 <==> place is None
                &&& place matches Some(ledger) ==> ledger_of(rows[0].0) == ledger
                &&& payloads(rows) == page
            }),
    {
        let rows = cursor_rows(place, page);
        if place is Some {
            if page.len() == 0 {
                assert(rows.drop_last() =~= Seq::empty());
                assert(payloads(rows.drop_last()) =~= Seq::empty());
                assert(payloads(rows) =~= page);
            } else {
                Self::payloads_of(place->0 as i32, page);
            }
        }
    }

    /// The rows that a ledger query selects with the bounds of a request, in the
    /// order that it asks for and up to its limit, are the page of the log.
    pub proof fn ledger_query_is_log_page(
        log: Seq<EventView>,
        start_ledger: u32,
        cutoff_ledger: u32,
        limit: u32,
        bounds: LedgerPageBounds,
        rows: Seq<EventView>,
    )
        requires
            log::ordered(log),
            bounds.start_ledger == start_ledger,
            bounds.cutoff_ledger == cutoff_ledger,
            bounds.limit == limit,
            log::ordered(rows),
            forall|x: EventView| #[trigger]
                rows.contains(x) <==> log.contains(x) && bounds.start_ledger <= x.ledger && x.ledger
                    < bounds.cutoff_ledger,
        ensures
            log::first_n(rows, bounds.limit as int) == log::ledger_page(
                log,
                start_ledger,
                cutoff_ledger,
                limit,
            ),
    {
        log::sorted_selection(
            log,
            |e: EventView| start_ledger <= e.ledger && e.ledger < cutoff_ledger,
            rows,
        );
    }

    /// The insertions of a batch, each of which leaves a row alone whose
    /// identifier is there, keep the identifiers unique; and where an identifier
    /// always comes with the same ledger, they leave the log that a storage in
    /// memory has after the batch.
    pub proof fn insertions_agree(log: Seq<EventView>, events: Seq<EventView>)
        requires
            log::ordered(log),
            log::unique_ids(log),
        ensures
            log::ordered(log::upsert_by_id(log, events)),
            log::unique_ids(log::upsert_by_id(log, events)),
            log::ids_fix_ledgers(log + events) ==> log::upsert_by_id(log, events) == log::upsert(
                log,
                events,
            ),
    {
        log::upsert_by_id_contents(log, events);
        if log::ids_fix_ledgers(log + events) {
            log::keys_agree(log, events);
        }
    }

    /// A cursor query asks for the page that the log has after the cursor.
    pub proof fn cursor_query_is_log_page(
        log: Seq<EventView>,
        id: Seq<char>,
        cutoff_ledger: u32,
        limit: u32,
    )
        requires
            log::unique_ids(log),
        ensures
            queried(log, id, cutoff_ledger, limit) == log::cursor_page(
                log,
                id,
                cutoff_ledger,
                limit,
            ),
    {
        if let Some(ledger) = log::cursor_ledger(log, id) {
            let asked = |e: EventView|
                e.ledger < cutoff_ledger && (e.ledger > ledger || (e.ledger == ledger
                    && text::text_before(id, e.id)));
            let follow = |e: EventView|
                e.ledger < cutoff_ledger && e.id != id && (e.ledger > ledger || (e.ledger == ledger
                    && text::text_before(id, e.id)));
            assert forall|i: int| 0 <= i < log.len() implies asked(#[trigger] log[i]) == follow(
                log[i],
            ) by {
                if log[i].id == id {
                    log::cursor_ledger_of(log, i);
                    text::text_before_irreflexive(id);
                }
            }
            log::filter_agree(log, asked, follow);
        }
    }

    /// A page after a cursor is the same out of the database as out of memory:
    /// where the rows are those that the query asks for, reading them gives the
    /// ledger of the cursor and the events that the log has after it.
    pub proof fn cursor_pages_agree(
        log: Seq<EventView>,
        id: Seq<char>,
        cutoff_ledger: u32,
        limit: u32,
        page: Seq<Event>,
    )
        requires
            log::unique_ids(log),
            log::cursor_ledger(log, id) matches Some(ledger) ==> fits(ledger),
            messages::event_views(page) == queried(log, id, cutoff_ledger, limit).1,
        ensures
            read_rows(cursor_rows(queried(log, id, cutoff_ledger, limit).0, page))
                == log::cursor_page(log, id, cutoff_ledger, limit),
    {
        let place = queried(log, id, cutoff_ledger, limit).0;
        Self::cursor_query_is_log_page(log, id, cutoff_ledger, limit);
        assert(messages::event_views(page).len() == page.len());
        Self::cursor_rows_are_read_back(place, page);
    }

    proof fn payloads_of(column: i32, page: Seq<Event>)
        ensures
            payloads(page.map_values(|e: Event| (column, Some(e)))) == page,
        decreases page.len(),
    {
        let rows = page.map_values(|e: Event| (column, Some(e)));
        if page.len() > 0 {
            let front = page.drop_last();
            assert(rows.drop_last() =~= front.map_values(|e: Event| (column, Some(e))));
            Self::payloads_of(column, front);
            assert(front.push(page.last()) =~= page);
        }
    }

    /// Where every ledger fits, going from insertion to insertion stores every
    /// event once and in order; otherwise it stores a beginning of them.
    pub proof fn insertions_cover(events: Seq<EventView>, start: nat)
        requires
            start <= events.len(),
        ensures
            all_fit(events) ==> inserted(events, start) == events.skip(start as int),
            inserted(events, start).is_prefix_of(events.skip(start as int)),
        decreases events.len() - start,
    {
        let rest = events.skip(start as int);
        if start < events.len() {
            let end = batch_end(events.len(), start);
            let batch = events.subrange(start as int, end as int);
            Self::insertions_cover(events, end);
            assert(rest =~= batch + events.skip(end as int));
            if all_fit(events) {
                assert forall|i: int| 0 <= i < batch.len() implies fits(
                    (#[trigger] batch[i]).ledger,
                ) by {
                    assert(batch[i] == events[start + i]);
                }
            }
            assert(batch + inserted(events, end) =~= rest.take(
                (batch + inserted(events, end)).len() as int,
            )) by {
                let tail = inserted(events, end);
                assert(tail =~= events.skip(end as int).take(tail.len() as int));
            }
        } else {
            assert(rest =~= Seq::empty());
        }
    }
}

} // verus!
