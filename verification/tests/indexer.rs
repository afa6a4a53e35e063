use bootnode::indexer::{pause_after, Action, Indexer, Pause, Round, RoundEvent, RoundLimits};
use bootnode::messages::{Event, GetEventsResponse};
use bootnode::node::Published;
use bootnode::storage::Storage;
use bootnode::InMemory;

fn upstream_event(id: &str, ledger: u32) -> Event {
    Event {
        event_type: "contract".to_owned(),
        ledger,
        ledger_closed_at: "2024-01-01T00:00:00Z".to_owned(),
        contract_id: "C".to_owned(),
        id: id.to_owned(),
        topic: Vec::new(),
        value: "00".to_owned(),
    }
}

fn upstream_page(ids: &[(&str, u32)], cursor: &str, latest: u32, oldest: u32) -> GetEventsResponse {
    GetEventsResponse {
        events: ids.iter().map(|(id, ledger)| upstream_event(id, *ledger)).collect(),
        cursor: cursor.to_owned(),
        latest_ledger: latest,
        oldest_ledger: oldest,
    }
}

fn limits(max_pages_per_round: u32) -> RoundLimits {
    RoundLimits { min_deployment_ledger: 10, page_size: 3, max_pages_per_round, cutoff_ledgers: 100 }
}

fn unpublished() -> Published {
    Published { ledger_tip: 0, oldest_ledger: 0, archive_ready: false }
}

/// Runs a round over a storage; upstream answers with the tip and then the pages in turn.
fn drive(
    storage: &mut InMemory,
    limits: RoundLimits,
    published: Published,
    tip: u32,
    pages: Vec<GetEventsResponse>,
) -> (Published, Result<bool, String>, Vec<String>) {
    let mut pages = pages.into_iter();
    let mut trace: Vec<String> = Vec::new();
    let contract_ids = vec!["C1".to_owned(), "C2".to_owned()];
    let (mut round, mut action) = Round::begin(limits, &contract_ids, published);
    loop {
        let event = match &action {
            Action::FetchLatestLedger => RoundEvent::LatestLedger(tip),
            Action::FetchEvents(query) => {
                assert_eq!(query.contract_ids, &["C1", "C2"]);
                trace.push(format!("fetch {:?} {:?} {}", query.start_ledger, query.cursor, query.limit));
                match pages.next() {
                    Some(page) => RoundEvent::Page(page),
                    None => RoundEvent::Failure("upstream is gone".to_owned()),
                }
            }
            Action::Finish(result) => return (round.published, result.clone(), trace),
            stored => {
                match stored {
                    Action::StoreLedgerTip(t) => trace.push(format!("tip {t}")),
                    Action::UpsertEvents(events) => trace.push(format!("events {}", events.len())),
                    Action::StoreOldestLedger(l) => trace.push(format!("oldest {l}")),
                    Action::StoreUpstreamCursor(c) => trace.push(format!("cursor {c}")),
                    Action::StoreArchiveReady => trace.push("ready".to_owned()),
                    _ => {}
                }
                stored.perform_in_memory(storage.with_deployment_mut()).unwrap()
            }
        };
        (round, action) = round.step(event);
    }
}

#[test]
fn round_indexes_up_to_the_tail() {
    let mut storage = InMemory::with_deployment_id("d");
    let (published, result, trace) = drive(
        &mut storage,
        limits(10),
        unpublished(),
        500,
        vec![
            upstream_page(&[("a", 20), ("b", 30)], "c1", 500, 7),
            upstream_page(&[("c", 450)], "c2", 500, 0),
            upstream_page(&[], "c2", 500, 0),
        ],
    );
    assert_eq!(result, Ok(false));
    assert_eq!(published, Published { ledger_tip: 500, oldest_ledger: 7, archive_ready: true });
    assert_eq!(
        trace,
        [
            "tip 500",
            "fetch Some(10) None 3",
            "events 2",
            "oldest 7",
            "cursor c1",
            "fetch None Some(\"c1\") 3",
            "events 1",
            "cursor c2",
            "fetch None Some(\"c2\") 3",
            "events 0",
            "cursor c2",
            "ready",
        ]
    );
    let state = storage.load_indexer_state().unwrap();
    assert_eq!(state.last_upstream_cursor.as_deref(), Some("c2"));
    assert_eq!(state.ledger_tip, 500);
    assert_eq!(state.oldest_ledger, 7);
    assert!(state.archive_ready);
    assert_eq!(storage.page_events_ledger(0, 500, 10).unwrap().len(), 3);
}

#[test]
fn round_stops_when_its_pages_run_out() {
    let mut storage = InMemory::with_deployment_id("d");
    let (published, result, trace) = drive(
        &mut storage,
        limits(2),
        unpublished(),
        500,
        vec![
            upstream_page(&[("a", 20)], "c1", 500, 0),
            upstream_page(&[("b", 480)], "c2", 500, 0),
        ],
    );
    assert_eq!(result, Ok(true));
    assert!(!published.archive_ready);
    assert_eq!(trace.iter().filter(|t| t.starts_with("fetch")).count(), 2);
    let (published, result, trace) =
        drive(&mut storage, limits(2), published, 501, vec![upstream_page(&[], "c2", 501, 0)]);
    assert_eq!(result, Ok(false));
    assert!(published.archive_ready);
    assert_eq!(trace[1], "fetch None Some(\"c2\") 3");
}

#[test]
fn round_without_pages_has_nothing_more() {
    let mut storage = InMemory::with_deployment_id("d");
    let (published, result, trace) = drive(&mut storage, limits(0), unpublished(), 500, vec![]);
    assert_eq!(result, Ok(false));
    assert_eq!(published.ledger_tip, 500);
    assert_eq!(trace, ["tip 500"]);
}

#[test]
fn tail_below_the_cutoff_is_not_ready() {
    let mut storage = InMemory::with_deployment_id("d");
    storage.set_last_upstream_cursor("c1").unwrap();
    let (published, result, _) = drive(
        &mut storage,
        limits(5),
        unpublished(),
        500,
        vec![upstream_page(&[("a", 399)], "c1", 500, 0)],
    );
    assert_eq!(result, Ok(false));
    assert!(!published.archive_ready);
    let (published, _, _) = drive(
        &mut storage,
        limits(5),
        published,
        500,
        vec![upstream_page(&[("b", 400)], "c1", 500, 0)],
    );
    assert!(published.archive_ready);
}

#[test]
fn readiness_is_stored_once() {
    let mut storage = InMemory::with_deployment_id("d");
    storage.set_last_upstream_cursor("c1").unwrap();
    let ready = Published { ledger_tip: 500, oldest_ledger: 0, archive_ready: true };
    let (published, _, trace) =
        drive(&mut storage, limits(5), ready, 510, vec![upstream_page(&[], "c1", 510, 0)]);
    assert!(published.archive_ready);
    assert!(!trace.contains(&"ready".to_owned()));
}

#[test]
fn failure_ends_the_round_and_keeps_what_is_stored() {
    let mut storage = InMemory::with_deployment_id("d");
    let (published, result, _) = drive(
        &mut storage,
        limits(5),
        unpublished(),
        500,
        vec![upstream_page(&[("a", 20)], "c1", 500, 7)],
    );
    assert_eq!(result, Err("upstream is gone".to_owned()));
    assert_eq!(published, Published { ledger_tip: 500, oldest_ledger: 7, archive_ready: false });
    assert_eq!(
        storage.load_indexer_state().unwrap().last_upstream_cursor.as_deref(),
        Some("c1")
    );
    assert_eq!(storage.page_events_ledger(0, 500, 10).unwrap().len(), 1);
}

#[test]
fn rests_between_rounds() {
    assert_eq!(pause_after(&Ok(true), 5_000), Pause { millis: None, failed: false });
    assert_eq!(pause_after(&Ok(false), 0), Pause { millis: Some(0), failed: false });
    assert_eq!(pause_after(&Ok(false), 5_000), Pause { millis: Some(5_000), failed: false });
    assert_eq!(
        pause_after(&Err("x".to_owned()), 5_000),
        Pause { millis: Some(2_000), failed: true }
    );
}

/// Upstream's events, in pages of two, with the place in the list as cursor.
fn upstream_answer(cursor: Option<&str>) -> GetEventsResponse {
    let all = [("a", 20), ("b", 30), ("c", 450), ("d", 460), ("e", 470)];
    let from: usize = cursor.map_or(0, |c| c.parse().unwrap());
    let to = all.len().min(from + 2);
    upstream_page(&all[from..to], &to.to_string(), 500, 7)
}

#[test]
fn failure_at_any_point_loses_nothing() {
    let contract_ids = Vec::new();
    for fail_at in 0..40usize {
        let mut storage = InMemory::with_deployment_id("d");
        storage.upsert_events(&[upstream_event("old", 1)]).unwrap();
        let mut published = unpublished();
        let mut steps = 0usize;
        let mut rounds = 0;
        loop {
            rounds += 1;
            assert!(rounds < 10);
            let (mut round, mut action) = Round::begin(limits(2), &contract_ids, published);
            let result = loop {
                let event = match &action {
                    Action::Finish(result) => break result.clone(),
                    _ if steps == fail_at => RoundEvent::Failure("lost".to_owned()),
                    Action::FetchLatestLedger => RoundEvent::LatestLedger(500),
                    Action::FetchEvents(query) => {
                        RoundEvent::Page(upstream_answer(query.cursor.as_deref()))
                    }
                    stored => stored.perform_in_memory(storage.with_deployment_mut()).unwrap(),
                };
                steps += 1;
                (round, action) = round.step(event);
            };
            published = round.published;
            let kept = storage.load_indexer_state().unwrap();
            assert_eq!(published.oldest_ledger, kept.oldest_ledger);
            assert!(!published.archive_ready || kept.archive_ready);
            assert_eq!(storage.page_events_ledger(1, 2, 10).unwrap().len(), 1);
            if result == Ok(false) {
                break;
            }
        }
        assert!(published.archive_ready);
        let page = storage.page_events_ledger(0, 1_000, 10).unwrap();
        let got: Vec<&str> = page.iter().map(|e| e.id.as_str()).collect();
        assert_eq!(got, ["old", "a", "b", "c", "d", "e"]);
    }
}

#[test]
fn upstream_actions_are_not_for_the_storage() {
    let mut storage = InMemory::with_deployment_id("d");
    assert!(Action::FetchLatestLedger.perform_in_memory(storage.scope("d").with_deployment_mut()).is_none());
    assert!(Action::Finish(Ok(true)).perform_in_memory(storage.scope("d").with_deployment_mut()).is_none());
}

#[test]
fn another_round_follows_every_round() {
    let contract_ids = vec!["C".to_owned()];
    let indexer =
        Indexer { limits: limits(2), contract_ids: &contract_ids, indexer_sleep_ms: 700 };
    let (round, action) = indexer.begin(unpublished());
    assert_eq!(round.published, unpublished());
    assert!(matches!(action, Action::FetchLatestLedger));
    let left = Published { ledger_tip: 9, oldest_ledger: 2, archive_ready: true };
    for (result, millis) in [
        (Ok(true), None),
        (Ok(false), Some(700)),
        (Err("lost".to_owned()), Some(2_000)),
    ] {
        let (pause, round, action) = indexer.run(&result, left);
        assert_eq!(pause, Pause { millis, failed: result.is_err() });
        assert_eq!(round.published, left);
        assert_eq!(round.limits, limits(2));
        assert_eq!(round.contract_ids, &contract_ids);
        assert!(matches!(action, Action::FetchLatestLedger));
    }
}

#[test]
fn batch_that_breaks_off_is_made_good_by_the_next_round() {
    let contract_ids = Vec::new();
    for stored_before_failure in 0..=2usize {
        let mut storage = InMemory::with_deployment_id("d");
        let (mut round, mut action) = Round::begin(limits(9), &contract_ids, unpublished());
        let mut broken = false;
        loop {
            let event = match &action {
                Action::Finish(result) if result.is_err() => {
                    assert!(broken);
                    let published = round.published;
                    (round, action) = Round::begin(limits(9), &contract_ids, published);
                    continue;
                }
                Action::Finish(_) => break,
                Action::FetchLatestLedger => RoundEvent::LatestLedger(500),
                Action::FetchEvents(query) => {
                    RoundEvent::Page(upstream_answer(query.cursor.as_deref()))
                }
                Action::UpsertEvents(events) if !broken => {
                    broken = true;
                    storage.upsert_events(&events[..stored_before_failure]).unwrap();
                    RoundEvent::Failure("lost".to_owned())
                }
                stored => stored.perform_in_memory(storage.with_deployment_mut()).unwrap(),
            };
            (round, action) = round.step(event);
        }
        let page = storage.page_events_ledger(0, 1_000, 10).unwrap();
        let got: Vec<&str> = page.iter().map(|e| e.id.as_str()).collect();
        assert_eq!(got, ["a", "b", "c", "d", "e"]);
    }
}
