use bootnode::messages::Event;
use bootnode::storage::postgres::{CursorPageBounds, InitStep, LedgerPageBounds};
use bootnode::storage::{Storage, StorageError};
use bootnode::{InMemory, Postgres};

fn row_event(id: &str, ledger: u32) -> Event {
    Event {
        event_type: "contract".to_owned(),
        ledger,
        ledger_closed_at: "2024-01-01T00:00:00Z".to_owned(),
        contract_id: "C".to_owned(),
        id: id.to_owned(),
        topic: Vec::new(),
        value: "00".to_owned(),
    }
}

fn on_database(delete_other_deployments: bool) -> Postgres {
    match Postgres::connect(
        "postgres://user:pw@db.example:5433/events",
        7,
        "deployment-1",
        delete_other_deployments,
    ) {
        Ok(p) => p,
        Err(e) => panic!("{}", e.message()),
    }
}

#[test]
fn connection_string_is_parsed() {
    let p = on_database(true);
    assert_eq!(p.config.get_user(), Some("user"));
    assert_eq!(p.config.get_dbname(), Some("events"));
    assert_eq!(p.config.get_ports(), [5433]);
    assert_eq!(p.max_connections, 7);
    assert_eq!(p.deployment_id(), "deployment-1");
    assert!(p.delete_other_deployments);
}

#[test]
fn bad_connection_string_is_refused() {
    match Postgres::connect("postgres://user@host:notaport/db", 1, "d", false) {
        Ok(_) => panic!("expected an error"),
        Err(e) => {
            assert_eq!(e.message(), "failed to parse DATABASE_URL");
            let expected = "postgres://user@host:notaport/db"
                .parse::<tokio_postgres::Config>()
                .unwrap_err();
            match e {
                StorageError::DatabaseUrl(cause) => {
                    assert_eq!(cause.to_string(), expected.to_string())
                }
                _ => panic!("expected another error"),
            }
        }
    }
}

#[test]
fn init_deletes_other_deployments_on_request() {
    assert_eq!(on_database(false).init(), [InitStep::Migrate, InitStep::EnsureStateRow]);
    assert_eq!(
        on_database(true).init(),
        [
            InitStep::Migrate,
            InitStep::EnsureStateRow,
            InitStep::DeleteOtherEvents,
            InitStep::DeleteOtherState,
        ]
    );
}

#[test]
fn batch_has_a_row_for_each_event() {
    let columns =
        Postgres::insert_events_batch(&[row_event("a", 1), row_event("b", i32::MAX as u32)]).unwrap();
    assert_eq!(columns.ids, ["a", "b"]);
    assert_eq!(columns.ledgers, [1, i32::MAX]);
    assert_eq!(columns.payloads.len(), 2);
    assert_eq!(columns.payloads[0].id, "a");
    assert_eq!(columns.payloads[1].ledger, i32::MAX as u32);
    assert_eq!(columns.payloads[1].value, "00");
    let columns = Postgres::insert_events_batch(&[]).unwrap();
    assert!(columns.ids.is_empty());
}

#[test]
fn batch_with_a_large_ledger_is_refused() {
    let e = Postgres::insert_events_batch(&[row_event("a", 1), row_event("b", i32::MAX as u32 + 1)])
        .unwrap_err();
    assert_eq!(e.message(), "event ledger exceeds postgres INTEGER range");
    let expected = i32::try_from(i32::MAX as u32 + 1).unwrap_err();
    match e {
        StorageError::EventLedger(cause) => assert_eq!(cause, expected),
        _ => panic!("expected another error"),
    }
}

#[test]
fn events_are_inserted_a_thousand_at_a_time() {
    let events: Vec<Event> = (0..2_500u32).map(|n| row_event(&format!("e{n}"), n)).collect();
    let mut start = 0usize;
    let mut sizes = Vec::new();
    let mut ids = Vec::new();
    while let Some((end, columns)) = Postgres::upsert_events(&events, start) {
        let columns = columns.unwrap();
        assert_eq!(columns.ids.len(), end - start);
        sizes.push(end - start);
        ids.extend(columns.ids);
        start = end;
    }
    assert_eq!(sizes, [1_000, 1_000, 500]);
    let expected: Vec<String> = events.iter().map(|e| e.id.clone()).collect();
    assert_eq!(ids, expected);
    assert!(Postgres::upsert_events(&[], 0).is_none());
}

#[test]
fn insertion_stops_at_the_batch_that_does_not_fit() {
    let mut events: Vec<Event> = (0..1_500u32).map(|n| row_event(&format!("e{n}"), n)).collect();
    events[1_200].ledger = u32::MAX;
    let (end, first) = Postgres::upsert_events(&events, 0).unwrap();
    assert_eq!(end, 1_000);
    assert!(first.is_ok());
    let (_, second) = Postgres::upsert_events(&events, end).unwrap();
    assert!(matches!(second, Err(StorageError::EventLedger(_))));
}

#[test]
fn state_row_is_decoded() {
    let state = Postgres::load_indexer_state(Some("c".to_owned()), 9, -3, true);
    assert_eq!(state.last_upstream_cursor.as_deref(), Some("c"));
    assert_eq!(state.ledger_tip, 9);
    assert_eq!(state.oldest_ledger, 0);
    assert!(state.archive_ready);
}

#[test]
fn stored_ledgers_are_read_back() {
    let tip = Postgres::set_ledger_tip(i32::MAX as u32).unwrap();
    let oldest = Postgres::set_oldest_ledger(0).unwrap();
    let state = Postgres::load_indexer_state(None, tip, oldest, false);
    assert_eq!(state.ledger_tip, i32::MAX as u32);
    assert_eq!(state.oldest_ledger, 0);
}

#[test]
fn large_ledgers_are_refused() {
    let large = i32::MAX as u32 + 1;
    assert_eq!(
        Postgres::set_ledger_tip(large).unwrap_err().message(),
        "ledger_tip exceeds postgres INTEGER range"
    );
    assert_eq!(
        Postgres::set_oldest_ledger(large).unwrap_err().message(),
        "oldest_ledger exceeds postgres INTEGER range"
    );
    assert_eq!(
        Postgres::page_events_ledger(large, large, 5).unwrap_err().message(),
        "cutoff_ledger exceeds postgres INTEGER range"
    );
    assert_eq!(
        Postgres::page_events_ledger(large, 5, 5).unwrap_err().message(),
        "start_ledger exceeds postgres INTEGER range"
    );
    assert_eq!(
        Postgres::page_events_cursor(large, 5).unwrap_err().message(),
        "cutoff_ledger exceeds postgres INTEGER range"
    );
}

#[test]
fn page_bounds_fit_the_columns() {
    assert_eq!(
        Postgres::page_events_ledger(3, 9, u32::MAX).unwrap(),
        LedgerPageBounds { start_ledger: 3, cutoff_ledger: 9, limit: 4_294_967_295 }
    );
    assert_eq!(
        Postgres::page_events_cursor(9, 4).unwrap(),
        CursorPageBounds { cutoff_ledger: 9, limit: 4 }
    );
}

#[test]
fn missing_state_row_is_an_error() {
    let p = on_database(false);
    assert!(p.check_updated(1).is_ok());
    assert_eq!(
        p.check_updated(0).unwrap_err().message(),
        "indexer_state row missing for deployment_id=deployment-1"
    );
    assert!(p.check_updated(2).is_err());
}

#[test]
fn cursor_rows_are_decoded() {
    let (place, page) = Postgres::cursor_page(Vec::new());
    assert_eq!(place, None);
    assert!(page.is_empty());
    let (place, page) = Postgres::cursor_page(vec![(5, None)]);
    assert_eq!(place, Some(5));
    assert!(page.is_empty());
    let (place, page) =
        Postgres::cursor_page(vec![(-1, Some(row_event("a", 6))), (-1, Some(row_event("b", 7)))]);
    assert_eq!(place, Some(0));
    assert_eq!(page.len(), 2);
    assert_eq!(page[0].id, "a");
    assert_eq!(page[1].ledger, 7);
}

#[test]
fn cursor_pages_agree_with_those_in_memory() {
    let mut storage = InMemory::with_deployment_id("d");
    storage
        .upsert_events(&[row_event("a", 1), row_event("b", 2), row_event("c", 2), row_event("d", 9)])
        .unwrap();
    for id in ["a", "b", "c", "d", "unknown"] {
        let (place, page) = storage.page_events_cursor(id, 5, 2).unwrap();
        let rows: Vec<(i32, Option<Event>)> = match place {
            None => Vec::new(),
            Some(ledger) if page.is_empty() => vec![(ledger as i32, None)],
            Some(ledger) => page.iter().map(|e| (ledger as i32, Some(e.clone()))).collect(),
        };
        let (read_place, read_page) = Postgres::cursor_page(rows);
        assert_eq!(read_place, place);
        let got: Vec<&str> = read_page.iter().map(|e| e.id.as_str()).collect();
        let expected: Vec<&str> = page.iter().map(|e| e.id.as_str()).collect();
        assert_eq!(got, expected);
    }
}
