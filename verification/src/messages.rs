//! Messages exchanged with clients and with the upstream endpoint.
use vstd::prelude::*;

verus! {

/// A contract event, as the upstream endpoint reports it and as clients get it.
#[derive(Debug)]
pub struct Event {
    /// Kind of the event, such as `contract`.
    pub event_type: String,
    /// Sequence number of the ledger that emitted the event.
    pub ledger: u32,
    /// Time at which that ledger closed.
    pub ledger_closed_at: String,
    /// Contract that emitted the event.
    pub contract_id: String,
    /// Identifier of the event, which also serves as a paging cursor.
    pub id: String,
    /// Encoded topics.
    pub topic: Vec<String>,
    /// Encoded value.
    pub value: String,
}

/// The content of an [`Event`].
#[verifier::ext_equal]
pub struct EventView {
    pub event_type: Seq<char>,
    pub ledger: u32,
    pub ledger_closed_at: Seq<char>,
    pub contract_id: Seq<char>,
    pub id: Seq<char>,
    pub topic: Seq<Seq<char>>,
    pub value: Seq<char>,
}

impl View for Event {
    type V = EventView;

    open spec fn view(&self) -> EventView {
        EventView {
            event_type: self.event_type@,
            ledger: self.ledger,
            ledger_closed_at: self.ledger_closed_at@,
            contract_id: self.contract_id@,
            id: self.id@,
            topic: self.topic@.map_values(|t: String| t@),
            value: self.value@,
        }
    }
}

impl Clone for Event {
    fn clone(&self) -> (r: Self)
        ensures
            r@ == self@,
            r.event_type == self.event_type,
            r.ledger == self.ledger,
            r.ledger_closed_at == self.ledger_closed_at,
            r.contract_id == self.contract_id,
            r.id == self.id,
            r.topic@ == self.topic@,
            r.value == self.value,
    {
        let topic = self.topic.clone();
        assert(topic@ =~= self.topic@);
        Event {
            event_type: self.event_type.clone(),
            ledger: self.ledger,
            ledger_closed_at: self.ledger_closed_at.clone(),
            contract_id: self.contract_id.clone(),
            id: self.id.clone(),
            topic,
            value: self.value.clone(),
        }
    }
}

/// The contents of a run of events.
pub open spec fn event_views(events: Seq<Event>) -> Seq<EventView> {
    events.map_values(|e: Event| e@)
}

/// Events with the same content agree in every field.
pub proof fn content_is_every_field(a: Event, b: Event)
    requires
        a@ == b@,
    ensures
        a.event_type@ == b.event_type@,
        a.ledger == b.ledger,
        a.ledger_closed_at@ == b.ledger_closed_at@,
        a.contract_id@ == b.contract_id@,
        a.id@ == b.id@,
        a.topic@.len() == b.topic@.len(),
        forall|i: int| 0 <= i < a.topic@.len() ==> (#[trigger] a.topic@[i])@ == b.topic@[i]@,
        a.value@ == b.value@,
{
    let f = |t: String| t@;
    assert(a.topic@.map_values(f).len() == b.topic@.map_values(f).len());
    assert forall|i: int| 0 <= i < a.topic@.len() implies (#[trigger] a.topic@[i])@
        == b.topic@[i]@ by {
        assert(a.topic@.map_values(f)[i] == b.topic@.map_values(f)[i]);
    }
}

/// The content of an event is what its fields say, and the contents of a run of
/// events are those of its events, one by one.
pub proof fn contents_one_by_one(events: Seq<Event>, i: int)
    requires
        0 <= i < events.len(),
    ensures
        event_views(events).len() == events.len(),
        event_views(events)[i] == events[i]@,
        events[i]@.ledger == events[i].ledger,
        events[i]@.id == events[i].id@,
        events[i]@.event_type == events[i].event_type@,
        events[i]@.ledger_closed_at == events[i].ledger_closed_at@,
        events[i]@.contract_id == events[i].contract_id@,
        events[i]@.value == events[i].value@,
        events[i]@.topic.len() == events[i].topic@.len(),
{
}

/// Answer to a request for the latest ledger.
#[derive(Debug)]
pub struct GetLatestLedgerResponse {
    /// Sequence number of the latest ledger.
    pub sequence: u32,
}

/// One page of events, as the upstream endpoint sends it.
#[derive(Debug)]
pub struct GetEventsResponse {
    pub events: Vec<Event>,
    /// Cursor from which the next page continues.
    pub cursor: String,
    /// Latest ledger that the endpoint knows of.
    pub latest_ledger: u32,
    /// Oldest ledger that the endpoint still holds, zero if it does not say.
    pub oldest_ledger: u32,
}

} // verus!
