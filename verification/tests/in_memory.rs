use bootnode::messages::Event;
use bootnode::storage::Storage;
use bootnode::InMemory;

fn sample_event(id: &str, ledger: u32) -> Event {
    Event {
        event_type: "contract".to_owned(),
        ledger,
        ledger_closed_at: "2024-01-01T00:00:00Z".to_owned(),
        contract_id: "CAAAAAAAAAAAAAAAAAAAAAAAAAAAAAAAAAAAAAAAAAAAAAAAAAAAD2KM".to_owned(),
        id: id.to_owned(),
        topic: Vec::new(),
        value: "00".to_owned(),
    }
}

fn ids(events: &[Event]) -> Vec<&str> {
    events.iter().map(|e| e.id.as_str()).collect()
}

#[test]
fn page_events_respects_cutoff_and_cursor() {
    let mut storage = InMemory::with_deployment_id("test-deployment");
    storage
        .upsert_events(&[
            sample_event("event-a", 100),
            sample_event("event-b", 200),
            sample_event("event-c", 500),
        ])
        .expect("seed");

    let first = storage.page_events_ledger(100, 400, 10).expect("first page");
    assert_eq!(first.len(), 2);
    assert_eq!(first[0].id, "event-a");
    assert_eq!(first[1].id, "event-b");

    let (cursor_ledger, second) = storage
        .page_events_cursor("event-b", 600, 10)
        .expect("second page");
    assert_eq!(cursor_ledger, Some(200));
    assert_eq!(second.len(), 1);
    assert_eq!(second[0].id, "event-c");
}

#[test]
fn events_come_out_in_order_of_ledger_then_id() {
    let mut storage = InMemory::with_deployment_id("d");
    storage
        .upsert_events(&[
            sample_event("z", 2),
            sample_event("b", 3),
            sample_event("a", 3),
            sample_event("m", 1),
            sample_event("a", 2),
        ])
        .unwrap();
    let page = storage.page_events_ledger(0, u32::MAX, 10).unwrap();
    let got: Vec<(u32, &str)> = page.iter().map(|e| (e.ledger, e.id.as_str())).collect();
    assert_eq!(got, [(1, "m"), (2, "a"), (2, "z"), (3, "a"), (3, "b")]);
}

#[test]
fn first_event_of_a_key_stays() {
    let mut storage = InMemory::with_deployment_id("d");
    let mut late = sample_event("a", 1);
    late.value = "11".to_owned();
    storage.upsert_events(&[sample_event("a", 1), late]).unwrap();
    let mut later = sample_event("a", 1);
    later.value = "22".to_owned();
    storage.upsert_events(&[later]).unwrap();
    let page = storage.page_events_ledger(0, 10, 10).unwrap();
    assert_eq!(page.len(), 1);
    assert_eq!(page[0].value, "00");
    assert_eq!(page[0].event_type, "contract");
}

#[test]
fn storing_a_batch_again_changes_nothing() {
    let batch = [sample_event("b", 2), sample_event("a", 1)];
    let mut storage = InMemory::with_deployment_id("d");
    storage.upsert_events(&batch).unwrap();
    storage.upsert_events(&batch).unwrap();
    let page = storage.page_events_ledger(0, 10, 10).unwrap();
    assert_eq!(ids(&page), ["a", "b"]);
}

#[test]
fn page_holds_no_more_than_the_limit() {
    let mut storage = InMemory::with_deployment_id("d");
    storage
        .upsert_events(&[sample_event("a", 1), sample_event("b", 1), sample_event("c", 2)])
        .unwrap();
    assert_eq!(ids(&storage.page_events_ledger(0, 10, 2).unwrap()), ["a", "b"]);
    assert_eq!(storage.page_events_ledger(0, 10, 0).unwrap().len(), 0);
    let (_, page) = storage.page_events_cursor("a", 10, 1).unwrap();
    assert_eq!(ids(&page), ["b"]);
}

#[test]
fn unknown_cursor_has_no_ledger() {
    let mut storage = InMemory::with_deployment_id("d");
    let (place, page) = storage.page_events_cursor("a", 10, 10).unwrap();
    assert_eq!(place, None);
    assert!(page.is_empty());
    storage.upsert_events(&[sample_event("a", 1)]).unwrap();
    let (place, page) = storage.page_events_cursor("b", 10, 10).unwrap();
    assert_eq!(place, None);
    assert!(page.is_empty());
}

#[test]
fn cursor_above_cutoff_keeps_its_ledger() {
    let mut storage = InMemory::with_deployment_id("d");
    storage.upsert_events(&[sample_event("a", 50), sample_event("b", 60)]).unwrap();
    let (place, page) = storage.page_events_cursor("a", 10, 10).unwrap();
    assert_eq!(place, Some(50));
    assert!(page.is_empty());
}

#[test]
fn repeated_id_resolves_to_its_first_ledger() {
    let mut storage = InMemory::with_deployment_id("d");
    storage
        .upsert_events(&[sample_event("a", 1), sample_event("a", 5), sample_event("b", 3)])
        .unwrap();
    let (place, page) = storage.page_events_cursor("a", 10, 10).unwrap();
    assert_eq!(place, Some(1));
    assert_eq!(ids(&page), ["b"]);
}

#[test]
fn following_cursors_gathers_every_event_once() {
    let mut storage = InMemory::with_deployment_id("d");
    let mut batch = Vec::new();
    for n in 0..23u32 {
        batch.push(sample_event(&format!("e{:02}", (n * 7) % 23), n / 3));
    }
    storage.upsert_events(&batch).unwrap();
    for limit in 1..30u32 {
        let mut got: Vec<(u32, String)> = Vec::new();
        let mut page = storage.page_events_ledger(1, 7, limit).unwrap();
        while !page.is_empty() {
            let last = page[page.len() - 1].id.clone();
            for e in page {
                got.push((e.ledger, e.id));
            }
            page = storage.page_events_cursor(&last, 7, limit).unwrap().1;
        }
        let mut expected: Vec<(u32, String)> = batch
            .iter()
            .filter(|e| e.ledger >= 1 && e.ledger < 7)
            .map(|e| (e.ledger, e.id.clone()))
            .collect();
        expected.sort();
        assert_eq!(got, expected);
    }
}

#[test]
fn namespaces_are_kept_apart() {
    let mut storage = InMemory::with_deployment_id("one");
    storage.upsert_events(&[sample_event("a", 1)]).unwrap();
    storage.set_ledger_tip(7).unwrap();
    let mut two = storage.scope("two");
    assert_eq!(two.deployment_id(), "two");
    two.ping().unwrap();
    assert!(two.page_events_ledger(0, 10, 10).unwrap().is_empty());
    assert_eq!(two.load_indexer_state().unwrap().ledger_tip, 0);
    two.upsert_events(&[sample_event("b", 1)]).unwrap();
    two.set_archive_ready().unwrap();
    assert_eq!(storage.deployment_id(), "one");
    assert_eq!(ids(&storage.page_events_ledger(0, 10, 10).unwrap()), ["a"]);
    let state = storage.load_indexer_state().unwrap();
    assert_eq!(state.ledger_tip, 7);
    assert!(!state.archive_ready);
}

#[test]
fn handles_share_the_backend() {
    let mut storage = InMemory::with_deployment_id("one");
    let mut one = storage.scope("one");
    one.upsert_events(&[sample_event("a", 1)]).unwrap();
    one.set_last_upstream_cursor("c").unwrap();
    assert_eq!(ids(&storage.page_events_ledger(0, 10, 10).unwrap()), ["a"]);
    storage.set_ledger_tip(7).unwrap();
    storage.scope("two").set_oldest_ledger(3).unwrap();
    let one = storage.scope("one");
    assert_eq!(one.load_indexer_state().unwrap().ledger_tip, 7);
    assert_eq!(one.load_indexer_state().unwrap().oldest_ledger, 0);
    assert_eq!(one.page_events_cursor("a", 10, 10).unwrap().0, Some(1));
    assert_eq!(storage.scope("two").load_indexer_state().unwrap().oldest_ledger, 3);
    assert_eq!(
        storage.load_indexer_state().unwrap().last_upstream_cursor.as_deref(),
        Some("c")
    );
}

#[test]
fn scope_of_a_scope_comes_back() {
    let mut storage = InMemory::with_deployment_id("one");
    storage.upsert_events(&[sample_event("a", 1)]).unwrap();
    let mut two = storage.scope("two");
    two.set_ledger_tip(5).unwrap();
    let mut one = two.scope("one");
    assert_eq!(one.deployment_id(), "one");
    assert_eq!(ids(&one.page_events_ledger(0, 10, 10).unwrap()), ["a"]);
    assert_eq!(one.load_indexer_state().unwrap().ledger_tip, 0);
    one.upsert_events(&[sample_event("b", 1)]).unwrap();
    one.with_deployment_mut().set_oldest_ledger(2).unwrap();
    assert_eq!(two.deployment_id(), "two");
    assert_eq!(two.load_indexer_state().unwrap().ledger_tip, 5);
    assert_eq!(two.load_indexer_state().unwrap().oldest_ledger, 0);
    two.set_last_upstream_cursor("c").unwrap();
    assert_eq!(storage.deployment_id(), "one");
    assert_eq!(ids(&storage.page_events_ledger(0, 10, 10).unwrap()), ["a", "b"]);
    assert_eq!(storage.load_indexer_state().unwrap().oldest_ledger, 2);
    assert_eq!(storage.load_indexer_state().unwrap().last_upstream_cursor, None);
    storage.set_archive_ready().unwrap();
    assert!(storage.scope("two").scope("one").load_indexer_state().unwrap().archive_ready);
}

#[test]
fn indexer_state_is_read_back() {
    let mut storage = InMemory::new(Ok("compiled-in".to_owned()));
    assert_eq!(storage.deployment_id(), "compiled-in");
    storage.ping().unwrap();
    let fresh = storage.load_indexer_state().unwrap();
    assert_eq!(fresh.last_upstream_cursor, None);
    assert_eq!(fresh.ledger_tip, 0);
    assert_eq!(fresh.oldest_ledger, 0);
    assert!(!fresh.archive_ready);
    storage.set_last_upstream_cursor("cursor-1").unwrap();
    storage.set_ledger_tip(30).unwrap();
    storage.set_oldest_ledger(4).unwrap();
    storage.set_archive_ready().unwrap();
    storage.set_last_upstream_cursor("cursor-2").unwrap();
    let state = storage.load_indexer_state().unwrap();
    assert_eq!(state.last_upstream_cursor.as_deref(), Some("cursor-2"));
    assert_eq!(state.ledger_tip, 30);
    assert_eq!(state.oldest_ledger, 4);
    assert!(state.archive_ready);
}

#[test]
fn two_batches_are_stored_as_one() {
    let a = [sample_event("b", 2), sample_event("a", 1)];
    let mut again = sample_event("b", 2);
    again.value = "ff".to_owned();
    let b = [again.clone(), sample_event("c", 0)];
    let mut apart = InMemory::with_deployment_id("d");
    apart.upsert_events(&a).unwrap();
    apart.upsert_events(&b).unwrap();
    let mut at_once = InMemory::with_deployment_id("d");
    at_once
        .upsert_events(&[a[0].clone(), a[1].clone(), b[0].clone(), b[1].clone()])
        .unwrap();
    let left = apart.page_events_ledger(0, 10, 10).unwrap();
    let right = at_once.page_events_ledger(0, 10, 10).unwrap();
    assert_eq!(ids(&left), ["c", "a", "b"]);
    assert_eq!(ids(&right), ["c", "a", "b"]);
    assert_eq!(left[2].value, "00");
    assert_eq!(right[2].value, "00");
}
