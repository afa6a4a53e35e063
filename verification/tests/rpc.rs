use bootnode::messages::{Event, GetLatestLedgerResponse};
use bootnode::node::Published;
use bootnode::rpc::{
    internal_error, invalid_params, retention_handoff, warming_up, BootnodeRpc, Counter,
    EventsRequest, Outcome, ParsedParams, Step, RETENTION_HANDOFF_CODE, WARMING_UP_CODE,
};
use bootnode::storage::Storage;
use bootnode::InMemory;

fn served_event(id: &str, ledger: u32) -> Event {
    Event {
        event_type: "contract".to_owned(),
        ledger,
        ledger_closed_at: "2024-01-01T00:00:00Z".to_owned(),
        contract_id: "C".to_owned(),
        id: id.to_owned(),
        topic: vec!["t".to_owned()],
        value: "00".to_owned(),
    }
}

fn ready_rpc() -> BootnodeRpc {
    BootnodeRpc {
        cutoff_ledgers: 100,
        min_deployment_ledger: 10,
        published: Published { ledger_tip: 500, oldest_ledger: 0, archive_ready: true },
    }
}

fn request(start_ledger: Option<u32>, cursor: Option<&str>) -> EventsRequest {
    EventsRequest {
        end_ledger: None,
        xdr_format: None,
        parsed: Ok(ParsedParams {
            start_ledger,
            cursor: cursor.map(str::to_owned),
            limit: 2,
            genesis_cursor: false,
        }),
        filters_allowed: true,
    }
}

fn seeded() -> InMemory {
    let mut storage = InMemory::with_deployment_id("d");
    storage
        .upsert_events(&[
            served_event("a", 20),
            served_event("b", 300),
            served_event("c", 399),
            served_event("d", 400),
        ])
        .unwrap();
    storage
}

fn error_of(outcome: &Outcome) -> (i32, &str, Option<u32>) {
    match &outcome.reply {
        Ok(_) => panic!("expected an error"),
        Err(e) => (e.code, e.message.as_str(), e.data.as_ref().map(|d| d.from_ledger)),
    }
}

#[test]
fn handoff_object_names_reason_and_ledger() {
    let object = retention_handoff(123).to_error_object();
    assert_eq!(object.code(), -32_002);
    assert_eq!(object.message(), "Continue syncing on your RPC endpoint");
    let data: serde_json::Value = serde_json::from_str(object.data().unwrap().get()).unwrap();
    assert_eq!(data["reason"], "retention_threshold");
    assert_eq!(data["fromLedger"], 123);
    assert_eq!(data.as_object().unwrap().len(), 2);
}

#[test]
fn other_error_objects_have_no_data() {
    let object = warming_up().to_error_object();
    assert_eq!(object.code(), -32_004);
    assert_eq!(object.message(), "bootnode warming up; retry later");
    assert!(object.data().is_none());
    let object = invalid_params("nope".to_owned()).to_error_object();
    assert_eq!(object.code(), -32_602);
    assert_eq!(object.message(), "nope");
    assert!(object.data().is_none());
    let object = internal_error("broken".to_owned()).to_error_object();
    assert_eq!(object.code(), -32_603);
    assert_eq!(object.message(), "broken");
    assert!(object.data().is_none());
}

#[test]
fn unsupported_parameters_are_refused() {
    let rpc = ready_rpc();
    let storage = seeded();
    let mut r = request(Some(20), None);
    r.end_ledger = Some(30);
    r.xdr_format = Some("json".to_owned());
    let outcome = rpc.get_events_in_memory(storage.with_deployment(), r);
    assert_eq!(
        error_of(&outcome),
        (-32_602, "endLedger is not supported by bootnode", None)
    );
    let mut r = request(Some(20), None);
    r.xdr_format = Some("json".to_owned());
    let outcome = rpc.get_events_in_memory(storage.with_deployment(), r);
    assert_eq!(
        error_of(&outcome),
        (-32_602, "xdrFormat is not supported by bootnode", None)
    );
    let mut r = request(Some(20), None);
    r.parsed = Err("bad paging".to_owned());
    r.filters_allowed = false;
    let outcome = rpc.get_events_in_memory(storage.with_deployment(), r);
    assert_eq!(error_of(&outcome), (-32_602, "bad paging", None));
    let mut r = request(Some(20), None);
    r.filters_allowed = false;
    let outcome = rpc.get_events_in_memory(storage.with_deployment(), r);
    assert_eq!(error_of(&outcome), (-32_602, "unsupported filters", None));
    assert_eq!(outcome.counter, None);
}

#[test]
fn warm_up_while_tip_is_unknown_or_archive_is_not_ready() {
    let storage = seeded();
    let mut rpc = ready_rpc();
    rpc.published.archive_ready = false;
    let outcome = rpc.get_events_in_memory(storage.with_deployment(), request(Some(20), None));
    assert_eq!(error_of(&outcome).0, WARMING_UP_CODE);
    assert_eq!(outcome.counter, Some(Counter::WarmingUp));
    let mut rpc = ready_rpc();
    rpc.published.ledger_tip = 0;
    let outcome = rpc.get_events_in_memory(storage.with_deployment(), request(Some(450), None));
    assert_eq!(error_of(&outcome).0, WARMING_UP_CODE);
}

#[test]
fn start_at_cutoff_is_handed_off() {
    let storage = seeded();
    let outcome = ready_rpc().get_events_in_memory(storage.with_deployment(), request(Some(400), None));
    assert_eq!(
        error_of(&outcome),
        (RETENTION_HANDOFF_CODE, "Continue syncing on your RPC endpoint", Some(400))
    );
    assert_eq!(outcome.counter, Some(Counter::Handoff));
    let outcome = ready_rpc().get_events_in_memory(storage.with_deployment(), request(Some(399), None));
    assert_eq!(outcome.reply.unwrap().events.len(), 1);
}

#[test]
fn cutoff_does_not_go_below_zero() {
    let mut rpc = ready_rpc();
    rpc.published.ledger_tip = 50;
    let outcome = rpc.get_events_in_memory(seeded().with_deployment(), request(Some(0), None));
    assert_eq!(error_of(&outcome).2, Some(0));
}

#[test]
fn cursor_at_cutoff_is_handed_off() {
    let storage = seeded();
    let outcome = ready_rpc().get_events_in_memory(storage.with_deployment(), request(None, Some("d")));
    assert_eq!(error_of(&outcome).2, Some(400));
    let mut r = request(None, Some("genesis"));
    if let Ok(p) = &mut r.parsed {
        p.genesis_cursor = true;
    }
    let outcome = ready_rpc().get_events_in_memory(storage.with_deployment(), r);
    assert_eq!(error_of(&outcome).2, Some(400));
}

#[test]
fn unknown_cursor_is_refused() {
    let outcome = ready_rpc().get_events_in_memory(seeded().with_deployment(), request(None, Some("nope")));
    assert_eq!(error_of(&outcome), (-32_602, "invalid cursor", None));
}

#[test]
fn client_walks_to_the_cutoff_and_is_handed_off() {
    let storage = seeded();
    let rpc = ready_rpc();
    let first = rpc.get_events_in_memory(storage.with_deployment(), request(None, None));
    assert_eq!(first.counter, Some(Counter::CacheHit));
    let page = first.reply.unwrap();
    let got: Vec<&str> = page.events.iter().map(|e| e.id.as_str()).collect();
    assert_eq!(got, ["a", "b"]);
    assert_eq!(page.start_ledger, None);
    assert_eq!(page.cursor, None);
    assert_eq!(page.latest_ledger, 500);
    assert_eq!(page.oldest_ledger, 10);
    let second = rpc.get_events_in_memory(storage.with_deployment(), request(None, Some("b")));
    let page = second.reply.unwrap();
    let got: Vec<&str> = page.events.iter().map(|e| e.id.as_str()).collect();
    assert_eq!(got, ["c"]);
    assert_eq!(page.cursor.as_deref(), Some("b"));
    let third = rpc.get_events_in_memory(storage.with_deployment(), request(None, Some("c")));
    assert_eq!(error_of(&third).2, Some(400));
    assert_eq!(third.counter, Some(Counter::Handoff));
}

#[test]
fn scoped_namespace_is_served() {
    let mut storage = InMemory::with_deployment_id("other");
    storage.scope("d").upsert_events(&[served_event("a", 20)]).unwrap();
    let outcome = ready_rpc()
        .get_events_in_memory(storage.scope("d").with_deployment(), request(Some(20), None));
    assert_eq!(outcome.reply.unwrap().events.len(), 1);
    let outcome =
        ready_rpc().get_events_in_memory(storage.with_deployment(), request(Some(20), None));
    assert!(outcome.reply.unwrap().events.is_empty());
}

#[test]
fn empty_page_keeps_the_start_ledger() {
    let mut rpc = ready_rpc();
    rpc.published.oldest_ledger = 77;
    let storage = InMemory::with_deployment_id("d");
    let outcome = rpc.get_events_in_memory(storage.with_deployment(), request(Some(42), None));
    assert_eq!(outcome.counter, Some(Counter::EmptyPage));
    let page = outcome.reply.unwrap();
    assert!(page.events.is_empty());
    assert_eq!(page.start_ledger, Some(42));
    assert_eq!(page.oldest_ledger, 77);
}

#[test]
fn storage_failures_are_internal_errors() {
    match ready_rpc().get_events(request(Some(42), None)) {
        Step::ReadFromLedger(query) => {
            assert_eq!(query.start_ledger, 42);
            assert_eq!(query.cutoff_ledger, 400);
            assert_eq!(query.limit, 2);
            let outcome = query.finish(Err("database is down".to_owned()));
            assert_eq!(error_of(&outcome), (-32_603, "database is down", None));
        }
        _ => panic!("expected a read"),
    }
    match ready_rpc().get_events(request(None, Some("b"))) {
        Step::ReadAfterCursor(query) => {
            assert_eq!(query.cursor, "b");
            let outcome = query.finish(Err("database is down".to_owned()));
            assert_eq!(error_of(&outcome), (-32_603, "database is down", None));
        }
        _ => panic!("expected a read"),
    }
}

#[test]
fn latest_ledger_is_passed_on() {
    let (counter, reply) =
        BootnodeRpc::get_latest_ledger(Ok(GetLatestLedgerResponse { sequence: 9 }));
    assert_eq!(counter, None);
    assert_eq!(reply.unwrap().sequence, 9);
    let (counter, reply) = BootnodeRpc::get_latest_ledger(Err("unreachable".to_owned()));
    assert_eq!(counter, Some(Counter::HandlerError));
    let error = reply.unwrap_err();
    assert_eq!(error.code, -32_603);
    assert_eq!(error.message, "unreachable");
}

#[test]
fn counters_have_metric_names() {
    assert_eq!(Counter::WarmingUp.metric(), "bootnode_warming_up_total");
    assert_eq!(Counter::Handoff.metric(), "bootnode_handoffs_total");
    assert_eq!(Counter::CacheHit.metric(), "bootnode_cache_hits_total");
    assert_eq!(Counter::EmptyPage.metric(), "bootnode_empty_pages_total");
    assert_eq!(Counter::HandlerError.metric(), "bootnode_handler_errors_total");
}

#[test]
fn cutoff_follows_the_tip() {
    let storage = InMemory::with_deployment_id("d");
    let mut last = 0;
    for tip in [1u32, 50, 100, 101, 500, u32::MAX] {
        let mut rpc = ready_rpc();
        rpc.published.ledger_tip = tip;
        let outcome = rpc.get_events_in_memory(storage.with_deployment(), request(Some(u32::MAX), None));
        let cutoff = error_of(&outcome).2.unwrap();
        assert_eq!(cutoff, tip.saturating_sub(100));
        assert!(cutoff >= last && cutoff <= tip);
        last = cutoff;
    }
}
