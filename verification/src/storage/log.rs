//! The event log of one deployment as a mathematical value: events in
//! ascending order of ledger, then identifier, no two with the same pair.
use crate::messages::EventView;
use crate::text;
use vstd::prelude::*;

verus! {

/// Whether `a` stands before `b` in a log.
pub open spec fn event_before(a: EventView, b: EventView) -> bool {
    a.ledger < b.ledger || (a.ledger == b.ledger && text::text_before(a.id, b.id))
}

/// Whether the two events compete for the same place in a log.
pub open spec fn same_key(a: EventView, b: EventView) -> bool {
    a.ledger == b.ledger && a.id == b.id
}

/// Whether the events are in ascending order, no two with the same key.
pub open spec fn ordered(log: Seq<EventView>) -> bool {
    forall|i: int, j: int|
        0 <= i < j < log.len() ==> event_before(#[trigger] log[i], #[trigger] log[j])
}

/// Whether some event of the log has the key of `e`.
pub open spec fn has_key(log: Seq<EventView>, e: EventView) -> bool {
    exists|i: int| 0 <= i < log.len() && same_key(#[trigger] log[i], e)
}

/// Whether the identifier is that of one event below the cutoff at most, in a
/// log that is in order.
pub open spec fn unique_below(log: Seq<EventView>, id: Seq<char>, cutoff_ledger: u32) -> bool {
    forall|i: int, j: int|
        0 <= i < j < log.len() && (#[trigger] log[i]).id == id && (#[trigger] log[j]).id == id
            ==> log[j].ledger >= cutoff_ledger
}

/// Whether no two events below the cutoff share an identifier, in a log that is
/// in order.
pub open spec fn all_unique_below(log: Seq<EventView>, cutoff_ledger: u32) -> bool {
    forall|i: int, j: int|
        0 <= i < j < log.len() && (#[trigger] log[i]).id == (#[trigger] log[j]).id
            ==> log[j].ledger >= cutoff_ledger
}

/// The log with `e` at its place, or unchanged where its key is taken.
pub open spec fn insert_event(log: Seq<EventView>, e: EventView) -> Seq<EventView>
    decreases log.len(),
{
    if log.len() == 0 {
        seq![e]
    } else if same_key(log.last(), e) {
        log
    } else if event_before(log.last(), e) {
        log.push(e)
    } else {
        insert_event(log.drop_last(), e).push(log.last())
    }
}

/// The log after inserting each event in turn.
pub open spec fn upsert(log: Seq<EventView>, events: Seq<EventView>) -> Seq<EventView>
    decreases events.len(),
{
    if events.len() == 0 {
        log
    } else {
        insert_event(upsert(log, events.drop_last()), events.last())
    }
}

/// Whether some event of the log has the identifier.
pub open spec fn has_id(log: Seq<EventView>, id: Seq<char>) -> bool {
    exists|i: int| 0 <= i < log.len() && (#[trigger] log[i]).id == id
}

/// Whether no two events of the log have the same identifier.
pub open spec fn unique_ids(log: Seq<EventView>) -> bool {
    forall|i: int, j: int|
        0 <= i < j < log.len() ==> (#[trigger] log[i]).id != (#[trigger] log[j]).id
}

/// The log after inserting each event in turn, unless its identifier is taken,
/// be it at another ledger.
pub open spec fn upsert_by_id(log: Seq<EventView>, events: Seq<EventView>) -> Seq<EventView>
    decreases events.len(),
{
    if events.len() == 0 {
        log
    } else {
        let before = upsert_by_id(log, events.drop_last());
        if has_id(before, events.last().id) {
            before
        } else {
            insert_event(before, events.last())
        }
    }
}

/// By what a storage knows an event again.
#[derive(Debug, Clone, Copy, PartialEq, Eq, Structural)]
pub enum Key {
    /// By its ledger and its identifier.
    LedgerAndId,
    /// By its identifier alone.
    Id,
}

impl Key {
    /// The log after a batch, in a storage that knows events again like this.
    pub open spec fn upsert(self, log: Seq<EventView>, events: Seq<EventView>) -> Seq<EventView> {
        match self {
            Key::LedgerAndId => upsert(log, events),
            Key::Id => upsert_by_id(log, events),
        }
    }

    /// Whether the storage takes the event for one that it has.
    pub open spec fn known(self, log: Seq<EventView>, e: EventView) -> bool {
        match self {
            Key::LedgerAndId => has_key(log, e),
            Key::Id => has_id(log, e.id),
        }
    }
}

/// The first `n` elements, or all where there are fewer.
pub open spec fn first_n<A>(s: Seq<A>, n: int) -> Seq<A> {
    if s.len() <= n {
        s
    } else {
        s.take(n)
    }
}

/// The events from `start_ledger` on that lie below the cutoff.
pub open spec fn window(log: Seq<EventView>, start_ledger: u32, cutoff_ledger: u32) -> Seq<
    EventView,
> {
    log.filter(|e: EventView| start_ledger <= e.ledger && e.ledger < cutoff_ledger)
}

/// A page of at most `limit` events from `start_ledger` on.
pub open spec fn ledger_page(
    log: Seq<EventView>,
    start_ledger: u32,
    cutoff_ledger: u32,
    limit: u32,
) -> Seq<EventView> {
    first_n(window(log, start_ledger, cutoff_ledger), limit as int)
}

/// The events with the identifier.
pub open spec fn with_id(log: Seq<EventView>, id: Seq<char>) -> Seq<EventView> {
    log.filter(|e: EventView| e.id == id)
}

/// The ledger that a cursor stands for: that of the first event with this identifier.
pub open spec fn cursor_ledger(log: Seq<EventView>, id: Seq<char>) -> Option<u32> {
    if with_id(log, id).len() == 0 {
        None
    } else {
        Some(with_id(log, id)[0].ledger)
    }
}

/// The events below the cutoff that stand after the place `(ledger, id)`.
pub open spec fn after_cursor(
    log: Seq<EventView>,
    ledger: u32,
    id: Seq<char>,
    cutoff_ledger: u32,
) -> Seq<EventView> {
    log.filter(
        |e: EventView|
            e.ledger < cutoff_ledger && e.id != id && (e.ledger > ledger || (e.ledger == ledger
                && text::text_before(id, e.id))),
    )
}

/// The ledger of the cursor, and a page of at most `limit` events that follow it.
pub open spec fn cursor_page(
    log: Seq<EventView>,
    id: Seq<char>,
    cutoff_ledger: u32,
    limit: u32,
) -> (Option<u32>, Seq<EventView>) {
    match cursor_ledger(log, id) {
        None => (None, Seq::empty()),
        Some(ledger) => (
            Some(ledger),
            first_n(after_cursor(log, ledger, id, cutoff_ledger), limit as int),
        ),
    }
}

/// All events that a client gathers who has `page` and goes on from the last
/// event of each page, for `rounds` more pages at most.
pub open spec fn gather(
    log: Seq<EventView>,
    page: Seq<EventView>,
    cutoff_ledger: u32,
    limit: u32,
    rounds: nat,
) -> Seq<EventView>
    decreases rounds,
{
    if page.len() == 0 || rounds == 0 {
        page
    } else {
        page + gather(
            log,
            cursor_page(log, page.last().id, cutoff_ledger, limit).1,
            cutoff_ledger,
            limit,
            (rounds - 1) as nat,
        )
    }
}

/// The order of events is a strict total order on keys.
pub proof fn event_before_strict(a: EventView, b: EventView)
    ensures
        !event_before(a, a),
        same_key(a, b) ==> !event_before(a, b),
        event_before(a, b) ==> !event_before(b, a),
        same_key(a, b) || event_before(a, b) || event_before(b, a),
{
    text::text_before_irreflexive(a.id);
    text::text_before_total(a.id, b.id);
    if text::text_before(a.id, b.id) && text::text_before(b.id, a.id) {
        text::text_before_transitive(a.id, b.id, a.id);
    }
}

/// The order of events is transitive.
pub proof fn event_before_transitive(a: EventView, b: EventView, c: EventView)
    requires
        event_before(a, b),
        event_before(b, c),
    ensures
        event_before(a, c),
{
    if a.ledger == b.ledger && b.ledger == c.ledger {
        text::text_before_transitive(a.id, b.id, c.id);
    }
}

/// Inserting keeps a log ordered, and adds the event where its key is free and
/// nothing else.
pub proof fn insert_event_contents(log: Seq<EventView>, e: EventView)
    requires
        ordered(log),
    ensures
        ordered(insert_event(log, e)),
        has_key(log, e) ==> insert_event(log, e) == log,
        forall|x: EventView| #[trigger]
            insert_event(log, e).contains(x) <==> log.contains(x) || (x == e && !has_key(log, e)),
    decreases log.len(),
{
    let out = insert_event(log, e);
    if log.len() == 0 {
        assert(out[0] == e);
    } else if same_key(log.last(), e) {
    } else if event_before(log.last(), e) {
        assert forall|i: int| 0 <= i < log.len() implies event_before(#[trigger] log[i], e) by {
            if i < log.len() - 1 {
                event_before_transitive(log[i], log.last(), e);
            }
        }
        assert forall|i: int| 0 <= i < log.len() implies !same_key(#[trigger] log[i], e) by {
            event_before_strict(log[i], e);
        }
        assert forall|x: EventView| #[trigger] out.contains(x) <==> log.contains(x) || x == e by {
            assert(out[log.len() as int] == e);
            if log.contains(x) {
                let i = choose|i: int| 0 <= i < log.len() && log[i] == x;
                assert(out[i] == x);
            }
        }
    } else {
        let rest = log.drop_last();
        let placed = insert_event(rest, e);
        event_before_strict(log.last(), e);
        insert_event_contents(rest, e);
        assert forall|i: int| 0 <= i < placed.len() implies event_before(
            #[trigger] placed[i],
            log.last(),
        ) by {
            assert(placed.contains(placed[i]));
            if rest.contains(placed[i]) {
                let k = choose|k: int| 0 <= k < rest.len() && rest[k] == placed[i];
                assert(event_before(log[k], log[log.len() - 1]));
            }
        }
        assert(has_key(log, e) == has_key(rest, e)) by {
            if has_key(log, e) {
                let k = choose|k: int| 0 <= k < log.len() && same_key(#[trigger] log[k], e);
                assert(rest[k] == log[k]);
            }
            if has_key(rest, e) {
                let k = choose|k: int| 0 <= k < rest.len() && same_key(#[trigger] rest[k], e);
                assert(same_key(log[k], e));
            }
        }
        assert(rest.push(log.last()) =~= log);
        assert forall|x: EventView| #[trigger] out.contains(x) <==> log.contains(x) || (x == e
            && !has_key(log, e)) by {
            assert(out.contains(x) <==> placed.contains(x) || x == log.last()) by {
                assert(out[placed.len() as int] == log.last());
                if placed.contains(x) {
                    let k = choose|k: int| 0 <= k < placed.len() && placed[k] == x;
                    assert(out[k] == x);
                }
            }
            assert(log.contains(x) <==> rest.contains(x) || x == log.last()) by {
                assert(log[rest.len() as int] == log.last());
                if rest.contains(x) {
                    let k = choose|k: int| 0 <= k < rest.len() && rest[k] == x;
                    assert(log[k] == x);
                }
                if log.contains(x) && x != log.last() {
                    let k = choose|k: int| 0 <= k < log.len() && log[k] == x;
                    assert(rest[k] == x);
                }
            }
        }
    }
}

/// Whether `x` is the first event of the batch with its key.
pub open spec fn first_of_key(events: Seq<EventView>, x: EventView) -> bool {
    exists|i: int|
        0 <= i < events.len() && #[trigger] events[i] == x && forall|j: int|
            0 <= j < i ==> !same_key(#[trigger] events[j], x)
}

/// What a batch leaves in the log: all that was there, unchanged, and of each
/// key that was free the first event of the batch. The log stays ordered.
pub proof fn upsert_contents(log: Seq<EventView>, events: Seq<EventView>)
    requires
        ordered(log),
    ensures
        ordered(upsert(log, events)),
        forall|x: EventView| #[trigger]
            upsert(log, events).contains(x) <==> log.contains(x) || (!has_key(log, x)
                && first_of_key(events, x)),
    decreases events.len(),
{
    if events.len() > 0 {
        let front = events.drop_last();
        let e = events.last();
        let mid = upsert(log, front);
        upsert_contents(log, front);
        insert_event_contents(mid, e);
        assert(has_key(mid, e) <==> has_key(log, e) || has_key(front, e)) by {
            upsert_keys(log, front, e);
        }
        assert forall|x: EventView| #[trigger]
            upsert(log, events).contains(x) <==> log.contains(x) || (!has_key(log, x)
                && first_of_key(events, x)) by {
            if first_of_key(front, x) {
                let i = choose|i: int|
                    0 <= i < front.len() && #[trigger] front[i] == x && forall|j: int|
                        0 <= j < i ==> !same_key(#[trigger] front[j], x);
                assert(events[i] == x);
                assert forall|j: int| 0 <= j < i implies !same_key(#[trigger] events[j], x) by {
                    assert(front[j] == events[j]);
                }
            }
            if x == e && !has_key(front, e) {
                assert(events[events.len() - 1] == x);
                assert forall|j: int| 0 <= j < events.len() - 1 implies !same_key(
                    #[trigger] events[j],
                    x,
                ) by {
                    assert(front[j] == events[j]);
                }
            }
            if first_of_key(events, x) {
                let i = choose|i: int|
                    0 <= i < events.len() && #[trigger] events[i] == x && forall|j: int|
                        0 <= j < i ==> !same_key(#[trigger] events[j], x);
                if i < front.len() {
                    assert(front[i] == x);
                    assert forall|j: int| 0 <= j < i implies !same_key(#[trigger] front[j], x) by {
                        assert(front[j] == events[j]);
                    }
                } else {
                    assert forall|j: int| 0 <= j < front.len() implies !same_key(
                        #[trigger] front[j],
                        x,
                    ) by {
                        assert(front[j] == events[j]);
                    }
                }
            }
        }
    }
}

/// The keys after a batch are those before it and those of the batch.
pub proof fn upsert_keys(log: Seq<EventView>, events: Seq<EventView>, x: EventView)
    requires
        ordered(log),
    ensures
        ordered(upsert(log, events)),
        has_key(upsert(log, events), x) <==> has_key(log, x) || has_key(events, x),
    decreases events.len(),
{
    if events.len() > 0 {
        let front = events.drop_last();
        let e = events.last();
        let mid = upsert(log, front);
        let out = upsert(log, events);
        upsert_keys(log, front, x);
        upsert_keys(log, front, e);
        insert_event_contents(mid, e);
        if has_key(events, x) {
            let k = choose|k: int| 0 <= k < events.len() && same_key(#[trigger] events[k], x);
            if k < front.len() {
                assert(same_key(front[k], x));
            }
        }
        if has_key(front, x) {
            let k = choose|k: int| 0 <= k < front.len() && same_key(#[trigger] front[k], x);
            assert(same_key(events[k], x));
        }
        if same_key(e, x) {
            assert(same_key(events[events.len() - 1], x));
            if has_key(mid, e) {
                let k = choose|k: int| 0 <= k < mid.len() && same_key(#[trigger] mid[k], e);
                assert(same_key(out[k], x));
            } else {
                assert(out.contains(e));
                let k = choose|k: int| 0 <= k < out.len() && out[k] == e;
                assert(same_key(out[k], x));
            }
        }
        if has_key(mid, x) {
            let k = choose|k: int| 0 <= k < mid.len() && same_key(#[trigger] mid[k], x);
            assert(mid.contains(mid[k]));
            assert(out.contains(mid[k]));
            let m = choose|m: int| 0 <= m < out.len() && out[m] == mid[k];
            assert(same_key(out[m], x));
        }
        if has_key(out, x) {
            let k = choose|k: int| 0 <= k < out.len() && same_key(#[trigger] out[k], x);
            assert(out.contains(out[k]));
            if mid.contains(out[k]) {
                let m = choose|m: int| 0 <= m < mid.len() && mid[m] == out[k];
                assert(same_key(mid[m], x));
            }
        }
    }
}

/// A batch whose keys are all taken changes nothing.
pub proof fn upsert_known(log: Seq<EventView>, events: Seq<EventView>)
    requires
        ordered(log),
        forall|i: int| 0 <= i < events.len() ==> has_key(log, #[trigger] events[i]),
    ensures
        upsert(log, events) == log,
    decreases events.len(),
{
    if events.len() > 0 {
        let front = events.drop_last();
        assert forall|i: int| 0 <= i < front.len() implies has_key(log, #[trigger] front[i]) by {
            assert(front[i] == events[i]);
        }
        upsert_known(log, front);
        assert(has_key(log, events[events.len() - 1]));
        insert_event_contents(log, events.last());
    }
}

/// Storing the same batch twice is the same as storing it once.
pub proof fn upsert_idempotent(log: Seq<EventView>, events: Seq<EventView>)
    requires
        ordered(log),
    ensures
        upsert(upsert(log, events), events) == upsert(log, events),
{
    let once = upsert(log, events);
    upsert_contents(log, events);
    assert forall|i: int| 0 <= i < events.len() implies has_key(once, #[trigger] events[i]) by {
        upsert_keys(log, events, events[i]);
        assert(same_key(events[i], events[i]));
    }
    upsert_known(once, events);
}

/// Storing two batches one after the other is storing them as one.
pub proof fn upsert_batches(log: Seq<EventView>, a: Seq<EventView>, b: Seq<EventView>)
    ensures
        upsert(upsert(log, a), b) == upsert(log, a + b),
    decreases b.len(),
{
    if b.len() == 0 {
        assert(a + b =~= a);
    } else {
        upsert_batches(log, a, b.drop_last());
        assert((a + b).drop_last() =~= a + b.drop_last());
        assert((a + b).last() == b.last());
    }
}

/// Whether `x` is the first event of the batch with its identifier.
pub open spec fn first_of_id(events: Seq<EventView>, x: EventView) -> bool {
    exists|i: int|
        0 <= i < events.len() && #[trigger] events[i] == x && !has_id(events.take(i), x.id)
}

/// What a batch leaves in a log that knows events by their identifiers: all
/// that was there, unchanged, and of each identifier that was free the first
/// event of the batch. The log stays ordered, and where its identifiers were
/// unique, they still are.
pub proof fn upsert_by_id_contents(log: Seq<EventView>, events: Seq<EventView>)
    requires
        ordered(log),
    ensures
        ordered(upsert_by_id(log, events)),
        unique_ids(log) ==> unique_ids(upsert_by_id(log, events)),
        forall|x: EventView| #[trigger]
            upsert_by_id(log, events).contains(x) <==> log.contains(x) || (!has_id(log, x.id)
                && first_of_id(events, x)),
        forall|id: Seq<char>| #[trigger]
            has_id(upsert_by_id(log, events), id) <==> has_id(log, id) || has_id(events, id),
    decreases events.len(),
{
    if events.len() > 0 {
        let front = events.drop_last();
        let e = events.last();
        let last = events.len() - 1;
        let before = upsert_by_id(log, front);
        let out = upsert_by_id(log, events);
        upsert_by_id_contents(log, front);
        insert_event_contents(before, e);
        assert(events.take(last) =~= front);
        let taken = has_id(before, e.id);
        assert(has_id(before, e.id) <==> has_id(log, e.id) || has_id(front, e.id));
        if has_key(before, e) {
            let k = choose|k: int| 0 <= k < before.len() && same_key(#[trigger] before[k], e);
            assert(before[k].id == e.id);
        }
        assert forall|x: EventView| #[trigger] out.contains(x) <==> before.contains(x) || (x == e
            && !taken) by {}
        assert forall|x: EventView| #[trigger] out.contains(x) <==> log.contains(x) || (!has_id(
            log,
            x.id,
        ) && first_of_id(events, x)) by {
            assert(before.contains(x) <==> log.contains(x) || (!has_id(log, x.id) && first_of_id(
                front,
                x,
            )));
            if first_of_id(front, x) {
                let i = choose|i: int|
                    0 <= i < front.len() && #[trigger] front[i] == x && !has_id(
                        front.take(i),
                        x.id,
                    );
                assert(events[i] == x);
                assert(events.take(i) =~= front.take(i));
            }
            if x == e && !has_id(front, e.id) {
                assert(events[last] == x);
            }
            if first_of_id(events, x) {
                let i = choose|i: int|
                    0 <= i < events.len() && #[trigger] events[i] == x && !has_id(
                        events.take(i),
                        x.id,
                    );
                if i < last {
                    assert(front[i] == x);
                    assert(events.take(i) =~= front.take(i));
                }
            }
        }
        assert forall|id: Seq<char>| #[trigger]
            has_id(out, id) <==> has_id(log, id) || has_id(events, id) by {
            assert(has_id(before, id) <==> has_id(log, id) || has_id(front, id));
            if has_id(front, id) {
                let k = choose|k: int| 0 <= k < front.len() && (#[trigger] front[k]).id == id;
                assert(events[k].id == id);
            }
            if has_id(events, id) {
                let k = choose|k: int| 0 <= k < events.len() && (#[trigger] events[k]).id == id;
                if k < last {
                    assert(front[k].id == id);
                }
            }
            if has_id(before, id) {
                let k = choose|k: int| 0 <= k < before.len() && (#[trigger] before[k]).id == id;
                assert(before.contains(before[k]));
                assert(out.contains(before[k]));
                let m = choose|m: int| 0 <= m < out.len() && out[m] == before[k];
                assert(out[m].id == id);
            }
            if e.id == id {
                assert(events[last].id == id);
                if !taken {
                    assert(out.contains(e));
                    let m = choose|m: int| 0 <= m < out.len() && out[m] == e;
                    assert(out[m].id == id);
                }
            }
            if has_id(out, id) {
                let k = choose|k: int| 0 <= k < out.len() && (#[trigger] out[k]).id == id;
                assert(out.contains(out[k]));
                if before.contains(out[k]) {
                    let m = choose|m: int| 0 <= m < before.len() && before[m] == out[k];
                    assert(before[m].id == id);
                }
            }
        }
        if unique_ids(log) && !taken {
            assert forall|i: int, j: int| 0 <= i < j < out.len() implies (#[trigger] out[i]).id != (
            #[trigger] out[j]).id by {
                event_before_strict(out[i], out[i]);
                assert(event_before(out[i], out[j]));
                assert(out.contains(out[i]) && out.contains(out[j]));
                if before.contains(out[i]) && before.contains(out[j]) {
                    let p = choose|p: int| 0 <= p < before.len() && before[p] == out[i];
                    let q = choose|q: int| 0 <= q < before.len() && before[q] == out[j];
                    if p < q {
                        assert(before[p].id != before[q].id);
                    } else if q < p {
                        assert(before[q].id != before[p].id);
                    }
                } else if before.contains(out[i]) {
                    let p = choose|p: int| 0 <= p < before.len() && before[p] == out[i];
                    assert(before[p].id != e.id);
                } else if before.contains(out[j]) {
                    let q = choose|q: int| 0 <= q < before.len() && before[q] == out[j];
                    assert(before[q].id != e.id);
                }
            }
        }
    }
}

/// Inserting two batches one after the other, by identifiers, is inserting them
/// as one.
pub proof fn upsert_by_id_batches(log: Seq<EventView>, a: Seq<EventView>, b: Seq<EventView>)
    ensures
        upsert_by_id(upsert_by_id(log, a), b) == upsert_by_id(log, a + b),
    decreases b.len(),
{
    if b.len() == 0 {
        assert(a + b =~= a);
    } else {
        upsert_by_id_batches(log, a, b.drop_last());
        assert((a + b).drop_last() =~= a + b.drop_last());
        assert((a + b).last() == b.last());
    }
}

/// Whether an identifier always comes with the same ledger.
pub open spec fn ids_fix_ledgers(events: Seq<EventView>) -> bool {
    forall|i: int, j: int|
        0 <= i < events.len() && 0 <= j < events.len() && (#[trigger] events[i]).id == (
        #[trigger] events[j]).id ==> events[i].ledger == events[j].ledger
}

/// Whether a storage knows events by their identifiers, or by ledger and
/// identifier, makes no difference where an identifier always comes with the
/// same ledger.
pub proof fn keys_agree(log: Seq<EventView>, events: Seq<EventView>)
    requires
        ordered(log),
        ids_fix_ledgers(log + events),
    ensures
        upsert_by_id(log, events) == upsert(log, events),
    decreases events.len(),
{
    if events.len() > 0 {
        let front = events.drop_last();
        let e = events.last();
        let all = log + events;
        assert(ids_fix_ledgers(log + front)) by {
            assert forall|i: int, j: int|
                0 <= i < (log + front).len() && 0 <= j < (log + front).len() && (
                #[trigger] (log + front)[i]).id == (#[trigger] (log + front)[j]).id implies (log
                + front)[i].ledger == (log + front)[j].ledger by {
                assert((log + front)[i] == all[i] && (log + front)[j] == all[j]);
            }
        }
        keys_agree(log, front);
        let before = upsert(log, front);
        upsert_contents(log, front);
        insert_event_contents(before, e);
        assert(all[all.len() - 1] == e);
        if has_id(before, e.id) {
            let k = choose|k: int| 0 <= k < before.len() && (#[trigger] before[k]).id == e.id;
            let x = before[k];
            assert(before.contains(x));
            if log.contains(x) {
                let p = choose|p: int| 0 <= p < log.len() && log[p] == x;
                assert(all[p] == x);
            } else {
                let p = choose|p: int|
                    0 <= p < front.len() && #[trigger] front[p] == x && forall|j: int|
                        0 <= j < p ==> !same_key(#[trigger] front[j], x);
                assert(all[log.len() + p] == x);
            }
            assert(same_key(before[k], e));
        }
    }
}

impl Key {
    /// However a storage knows events again, a batch keeps the log ordered and
    /// all that was there, and every event of the batch is known afterwards.
    pub proof fn upsert_keeps_and_adds(self, log: Seq<EventView>, events: Seq<EventView>)
        requires
            ordered(log),
        ensures
            ordered(self.upsert(log, events)),
            forall|x: EventView|
                log.contains(x) ==> #[trigger] self.upsert(log, events).contains(x),
            forall|i: int|
                0 <= i < events.len() ==> self.known(
                    self.upsert(log, events),
                    #[trigger] events[i],
                ),
    {
        upsert_contents(log, events);
        upsert_by_id_contents(log, events);
        assert forall|i: int| 0 <= i < events.len() implies self.known(
            self.upsert(log, events),
            #[trigger] events[i],
        ) by {
            match self {
                Key::LedgerAndId => {
                    upsert_keys(log, events, events[i]);
                    assert(same_key(events[i], events[i]));
                },
                Key::Id => {
                    assert(has_id(events, events[i].id));
                },
            }
        }
    }
}

/// Two logs in order that hold the same events are the same.
proof fn ordered_equal(a: Seq<EventView>, b: Seq<EventView>)
    requires
        ordered(a),
        ordered(b),
        forall|x: EventView| #[trigger] a.contains(x) <==> b.contains(x),
    ensures
        a == b,
    decreases a.len(),
{
    if a.len() == 0 {
        if b.len() > 0 {
            assert(b.contains(b[0]));
            assert(a.contains(b[0]));
        }
        assert(a =~= b);
    } else {
        let x = a.last();
        assert(a.contains(x) && b.contains(x));
        let y = b.last();
        assert(b.contains(y) && a.contains(y));
        let p = choose|p: int| 0 <= p < b.len() && b[p] == x;
        let q = choose|q: int| 0 <= q < a.len() && a[q] == y;
        event_before_strict(x, y);
        assert(x == y) by {
            if p < b.len() - 1 && q < a.len() - 1 {
                assert(event_before(b[p], b[b.len() - 1]));
                assert(event_before(a[q], a[a.len() - 1]));
            }
        }
        let fa = a.drop_last();
        let fb = b.drop_last();
        assert forall|z: EventView| #[trigger] fa.contains(z) <==> fb.contains(z) by {
            event_before_strict(z, z);
            if fa.contains(z) {
                let k = choose|k: int| 0 <= k < fa.len() && fa[k] == z;
                assert(event_before(a[k], a[a.len() - 1]));
                assert(a.contains(a[k]));
                let m = choose|m: int| 0 <= m < b.len() && b[m] == z;
                assert(fb[m] == z);
            }
            if fb.contains(z) {
                let k = choose|k: int| 0 <= k < fb.len() && fb[k] == z;
                assert(event_before(b[k], b[b.len() - 1]));
                assert(b.contains(b[k]) && a.contains(z));
                let m = choose|m: int| 0 <= m < a.len() && a[m] == z;
                assert(fa[m] == z);
            }
        }
        ordered_equal(fa, fb);
        assert(a =~= fa.push(x));
        assert(b =~= fb.push(y));
    }
}

/// Rows that are in order and are those events of the log that a condition
/// selects are what filtering the log by the condition gives, in whatever order
/// the rows were kept.
pub proof fn sorted_selection(
    log: Seq<EventView>,
    keep: spec_fn(EventView) -> bool,
    rows: Seq<EventView>,
)
    requires
        ordered(log),
        ordered(rows),
        forall|x: EventView| #[trigger] rows.contains(x) <==> log.contains(x) && keep(x),
    ensures
        rows == log.filter(keep),
{
    let kept = log.filter(keep);
    filter_ordered(log, keep);
    assert forall|x: EventView| #[trigger] rows.contains(x) <==> kept.contains(x) by {
        if kept.contains(x) {
            let k = choose|k: int| 0 <= k < kept.len() && kept[k] == x;
            assert(log.contains(kept[k]) && keep(kept[k]));
        }
        if rows.contains(x) {
            let p = choose|p: int| 0 <= p < log.len() && log[p] == x;
            log.lemma_filter_contains(keep, p);
        }
    }
    ordered_equal(rows, kept);
}

/// Filtering keeps the order of a log and takes only events of it.
proof fn filter_ordered(log: Seq<EventView>, keep: spec_fn(EventView) -> bool)
    requires
        ordered(log),
    ensures
        ordered(log.filter(keep)),
        forall|i: int|
            0 <= i < log.filter(keep).len() ==> log.contains(#[trigger] log.filter(keep)[i])
                && keep(log.filter(keep)[i]),
    decreases log.len(),
{
    reveal(Seq::filter);
    if log.len() > 0 {
        let front = log.drop_last();
        filter_ordered(front, keep);
        let sub = front.filter(keep);
        assert forall|i: int| 0 <= i < sub.len() implies event_before(#[trigger] sub[i], log.last())
            && log.contains(sub[i]) by {
            let k = choose|k: int| 0 <= k < front.len() && front[k] == sub[i];
            assert(log[k] == sub[i]);
            assert(event_before(log[k], log[log.len() - 1]));
        }
        let out = log.filter(keep);
        assert forall|i: int| 0 <= i < out.len() implies log.contains(#[trigger] out[i]) && keep(
            out[i],
        ) by {
            if i < sub.len() {
                assert(out[i] == sub[i]);
            } else {
                assert(log[log.len() - 1] == out[i]);
            }
        }
        assert forall|i: int, j: int| 0 <= i < j < out.len() implies event_before(
            #[trigger] out[i],
            #[trigger] out[j],
        ) by {
            assert(out[i] == sub[i]);
            if j < sub.len() {
                assert(out[j] == sub[j]);
            }
        }
    }
}

/// Filters that agree on the elements give the same.
pub proof fn filter_agree(
    log: Seq<EventView>,
    f: spec_fn(EventView) -> bool,
    g: spec_fn(EventView) -> bool,
)
    requires
        forall|i: int| 0 <= i < log.len() ==> f(#[trigger] log[i]) == g(log[i]),
    ensures
        log.filter(f) == log.filter(g),
    decreases log.len(),
{
    reveal(Seq::filter);
    if log.len() > 0 {
        let front = log.drop_last();
        assert forall|i: int| 0 <= i < front.len() implies f(#[trigger] front[i]) == g(
            front[i],
        ) by {
            assert(front[i] == log[i]);
        }
        filter_agree(front, f, g);
        assert(f(log[log.len() - 1]) == g(log[log.len() - 1]));
    }
}

/// A filter that rejects every element gives nothing.
proof fn filter_none(log: Seq<EventView>, f: spec_fn(EventView) -> bool)
    requires
        forall|i: int| 0 <= i < log.len() ==> !f(#[trigger] log[i]),
    ensures
        log.filter(f) == Seq::<EventView>::empty(),
    decreases log.len(),
{
    reveal(Seq::filter);
    if log.len() > 0 {
        let front = log.drop_last();
        assert forall|i: int| 0 <= i < front.len() implies !f(#[trigger] front[i]) by {
            assert(front[i] == log[i]);
        }
        filter_none(front, f);
        assert(!f(log[log.len() - 1]));
    }
}

/// A window is in order and holds the events of the log in its ledgers.
pub proof fn window_bounds(log: Seq<EventView>, start_ledger: u32, cutoff_ledger: u32)
    requires
        ordered(log),
    ensures
        ordered(window(log, start_ledger, cutoff_ledger)),
        forall|i: int|
            0 <= i < window(log, start_ledger, cutoff_ledger).len() ==> start_ledger <= (
            #[trigger] window(log, start_ledger, cutoff_ledger)[i]).ledger < cutoff_ledger
                && log.contains(window(log, start_ledger, cutoff_ledger)[i]),
{
    filter_ordered(log, |e: EventView| start_ledger <= e.ledger && e.ledger < cutoff_ledger);
}

/// A page by ledger holds events of the log, in order, of the ledgers asked
/// for, below the cutoff, no more than the limit.
pub proof fn ledger_page_bounds(
    log: Seq<EventView>,
    start_ledger: u32,
    cutoff_ledger: u32,
    limit: u32,
)
    requires
        ordered(log),
    ensures
        ({
            let page = ledger_page(log, start_ledger, cutoff_ledger, limit);
            &&& ordered(page)
            &&& page.len() <= limit
            &&& forall|i: int|
                0 <= i < page.len() ==> start_ledger <= (#[trigger] page[i]).ledger
                    < cutoff_ledger && log.contains(page[i])
        }),
{
    let keep = |e: EventView| start_ledger <= e.ledger && e.ledger < cutoff_ledger;
    filter_ordered(log, keep);
    let w = window(log, start_ledger, cutoff_ledger);
    let page = ledger_page(log, start_ledger, cutoff_ledger, limit);
    assert forall|i: int| 0 <= i < page.len() implies page[i] == w[i] by {}
    assert(forall|i: int| 0 <= i < page.len() ==> #[trigger] page[i] == w[i] && keep(w[i]));
}

/// A page after a cursor holds events of the log, in order, after the place
/// of the cursor, below the cutoff, no more than the limit.
pub proof fn cursor_page_bounds(
    log: Seq<EventView>,
    id: Seq<char>,
    cutoff_ledger: u32,
    limit: u32,
)
    requires
        ordered(log),
    ensures
        ({
            let (place, page) = cursor_page(log, id, cutoff_ledger, limit);
            &&& ordered(page)
            &&& page.len() <= limit
            &&& place is None ==> page.len() == 0
            &&& forall|i: int|
                0 <= i < page.len() ==> (place->0 < (#[trigger] page[i]).ledger || (place->0
                    == page[i].ledger && text::text_before(id, page[i].id))) && page[i].ledger
                    < cutoff_ledger && log.contains(page[i])
        }),
{
    match cursor_ledger(log, id) {
        None => {},
        Some(ledger) => {
            let keep = |e: EventView|
                e.ledger < cutoff_ledger && e.id != id && (e.ledger > ledger || (e.ledger == ledger
                    && text::text_before(id, e.id)));
            filter_ordered(log, keep);
            let rest = after_cursor(log, ledger, id, cutoff_ledger);
            let page = cursor_page(log, id, cutoff_ledger, limit).1;
            assert forall|i: int| 0 <= i < page.len() implies page[i] == rest[i] by {}
            assert(forall|i: int|
                0 <= i < page.len() ==> #[trigger] page[i] == rest[i] && keep(rest[i]));
        },
    }
}

/// A filter keeps a single element that it accepts.
proof fn filter_one(e: EventView, f: spec_fn(EventView) -> bool)
    requires
        f(e),
    ensures
        seq![e].filter(f) == seq![e],
{
    reveal_with_fuel(Seq::filter, 2);
    let one = seq![e];
    let none = one.drop_last();
    assert(one.len() == 1 && one.last() == e);
    assert(none.len() == 0);
    assert(none.filter(f) == none);
    assert(none.push(e) =~= one);
}

/// The cursor of an event stands for its own ledger where no event before it
/// has its identifier.
pub proof fn cursor_ledger_of(log: Seq<EventView>, p: int)
    requires
        0 <= p < log.len(),
        forall|i: int| 0 <= i < p ==> (#[trigger] log[i]).id != log[p].id,
    ensures
        cursor_ledger(log, log[p].id) == Some(log[p].ledger),
{
    let id = log[p].id;
    let keep = |e: EventView| e.id == id;
    let head = log.take(p);
    let tail = log.skip(p + 1);
    assert(log =~= head + seq![log[p]] + tail);
    Seq::filter_distributes_over_add(head + seq![log[p]], tail, keep);
    Seq::filter_distributes_over_add(head, seq![log[p]], keep);
    assert forall|i: int| 0 <= i < head.len() implies !keep(#[trigger] head[i]) by {
        assert(head[i] == log[i]);
    }
    filter_none(head, keep);
    filter_one(log[p], keep);
    assert(with_id(log, id) == log.filter(keep));
    assert(with_id(log, id)[0] == log[p]);
}

/// Going on from any event of a window whose identifier no other event below
/// the cutoff has gives exactly the events of the window that follow it: no
/// event is skipped and none comes twice.
pub proof fn cursor_continues(
    log: Seq<EventView>,
    start_ledger: u32,
    cutoff_ledger: u32,
    limit: u32,
    k: int,
)
    requires
        ordered(log),
        0 <= k < window(log, start_ledger, cutoff_ledger).len(),
        unique_below(log, window(log, start_ledger, cutoff_ledger)[k].id, cutoff_ledger),
    ensures
        ({
            let w = window(log, start_ledger, cutoff_ledger);
            cursor_page(log, w[k].id, cutoff_ledger, limit) == (
                Some(w[k].ledger),
                first_n(w.skip(k + 1), limit as int),
            )
        }),
{
    let w = window(log, start_ledger, cutoff_ledger);
    let keep = |e: EventView| start_ledger <= e.ledger && e.ledger < cutoff_ledger;
    filter_ordered(log, keep);
    assert(log.contains(w[k]));
    let p = choose|p: int| 0 <= p < log.len() && log[p] == w[k];
    let id = w[k].id;
    let ledger = w[k].ledger;
    assert(keep(w[k]));
    cursor_ledger_of(log, p);
    let follow = |e: EventView|
        e.ledger < cutoff_ledger && e.id != id && (e.ledger > ledger || (e.ledger == ledger
            && text::text_before(id, e.id)));
    let head = log.take(p + 1);
    let tail = log.skip(p + 1);
    assert(log =~= head + tail);
    Seq::filter_distributes_over_add(head, tail, keep);
    Seq::filter_distributes_over_add(head, tail, follow);
    assert forall|i: int| 0 <= i < head.len() implies !follow(#[trigger] head[i]) by {
        assert(head[i] == log[i]);
        event_before_strict(log[i], log[p]);
    }
    filter_none(head, follow);
    assert forall|i: int| 0 <= i < tail.len() implies keep(#[trigger] tail[i]) == follow(
        tail[i],
    ) by {
        assert(tail[i] == log[p + 1 + i]);
        assert(event_before(log[p], log[p + 1 + i]));
        event_before_strict(log[p], log[p + 1 + i]);
    }
    filter_agree(tail, keep, follow);
    let before = head.filter(keep);
    assert(before.last() == log[p] && before.len() > 0) by {
        reveal(Seq::filter);
        assert(head.last() == log[p]);
        assert(keep(w[k]));
    }
    assert(w == before + tail.filter(keep));
    assert(w[before.len() - 1] == log[p]);
    event_before_strict(w[k], w[k]);
    assert(before.len() - 1 == k) by {
        if before.len() - 1 < k {
            assert(event_before(w[before.len() - 1], w[k]));
        } else if before.len() - 1 > k {
            assert(event_before(w[k], w[before.len() - 1]));
        }
    }
    assert(w.skip(k + 1) =~= tail.filter(keep));
    assert(after_cursor(log, ledger, id, cutoff_ledger) =~= tail.filter(keep));
}

/// What a client gathers from the rest of a window, page by page.
proof fn gather_rest(
    log: Seq<EventView>,
    start_ledger: u32,
    cutoff_ledger: u32,
    limit: u32,
    from: int,
    rounds: nat,
)
    requires
        ordered(log),
        all_unique_below(log, cutoff_ledger),
        limit > 0,
        0 <= from <= window(log, start_ledger, cutoff_ledger).len(),
        window(log, start_ledger, cutoff_ledger).len() - from <= rounds,
    ensures
        ({
            let w = window(log, start_ledger, cutoff_ledger);
            gather(log, first_n(w.skip(from), limit as int), cutoff_ledger, limit, rounds)
                == w.skip(from)
        }),
    decreases rounds,
{
    let w = window(log, start_ledger, cutoff_ledger);
    let page = first_n(w.skip(from), limit as int);
    if page.len() == 0 {
        assert(page =~= w.skip(from));
    } else {
        let k = from + page.len() - 1;
        assert(page.last() == w[k]);
        cursor_continues(log, start_ledger, cutoff_ledger, limit, k);
        gather_rest(log, start_ledger, cutoff_ledger, limit, k + 1, (rounds - 1) as nat);
        assert(page + w.skip(k + 1) =~= w.skip(from));
    }
}

/// A client that asks from a start ledger and then goes on from the last event
/// of each page gathers every event from that ledger to the cutoff, each once
/// and in order, whatever the page size, where identifiers are unique.
pub proof fn gather_is_complete(
    log: Seq<EventView>,
    start_ledger: u32,
    cutoff_ledger: u32,
    limit: u32,
    rounds: nat,
)
    requires
        ordered(log),
        all_unique_below(log, cutoff_ledger),
        limit > 0,
        window(log, start_ledger, cutoff_ledger).len() <= rounds,
    ensures
        gather(
            log,
            ledger_page(log, start_ledger, cutoff_ledger, limit),
            cutoff_ledger,
            limit,
            rounds,
        ) == window(log, start_ledger, cutoff_ledger),
{
    let w = window(log, start_ledger, cutoff_ledger);
    assert(w.skip(0) =~= w);
    gather_rest(log, start_ledger, cutoff_ledger, limit, 0, rounds);
}

/// What was stored is read back: an event that was added under a free key, or
/// that was there before, is in every window over its ledger, and so among the
/// events that a client gathers; a page that is large enough has it at once.
pub proof fn stored_events_are_read_back(
    log: Seq<EventView>,
    events: Seq<EventView>,
    x: EventView,
    start_ledger: u32,
    cutoff_ledger: u32,
    limit: u32,
)
    requires
        ordered(log),
        log.contains(x) || (!has_key(log, x) && first_of_key(events, x)),
        start_ledger <= x.ledger < cutoff_ledger,
    ensures
        ({
            let w = window(upsert(log, events), start_ledger, cutoff_ledger);
            &&& w.contains(x)
            &&& w.len() <= limit ==> ledger_page(
                upsert(log, events),
                start_ledger,
                cutoff_ledger,
                limit,
            ).contains(x)
        }),
{
    let after = upsert(log, events);
    upsert_contents(log, events);
    assert(after.contains(x));
    let p = choose|p: int| 0 <= p < after.len() && after[p] == x;
    let keep = |e: EventView| start_ledger <= e.ledger && e.ledger < cutoff_ledger;
    after.lemma_filter_contains(keep, p);
}

/// Events sort by their ledgers, those of one ledger by their identifiers, and
/// have the same key when both are the same.
pub proof fn events_sort_by_ledger_then_id(a: EventView, b: EventView)
    ensures
        a.ledger < b.ledger ==> event_before(a, b) && !event_before(b, a),
        a.ledger == b.ledger ==> (event_before(a, b) <==> text::text_before(a.id, b.id)),
        same_key(a, b) <==> a.ledger == b.ledger && a.id == b.id,
{
}

/// A log is in order when each event has a smaller ledger than every later one,
/// or the same ledger and an identifier that sorts before.
pub proof fn ordered_is_ascending(log: Seq<EventView>)
    ensures
        ordered(log) <==> forall|i: int, j: int|
            0 <= i < j < log.len() ==> (#[trigger] log[i]).ledger < (#[trigger] log[j]).ledger || (
            log[i].ledger == log[j].ledger && text::text_before(log[i].id, log[j].id)),
{
    if forall|i: int, j: int|
        0 <= i < j < log.len() ==> (#[trigger] log[i]).ledger < (#[trigger] log[j]).ledger || (
        log[i].ledger == log[j].ledger && text::text_before(log[i].id, log[j].id)) {
        assert forall|i: int, j: int| 0 <= i < j < log.len() implies event_before(
            #[trigger] log[i],
            #[trigger] log[j],
        ) by {}
    }
}

/// After a batch the log has all that it had; every event of the batch has one
/// with its ledger and identifier there; and what is new is an event of the
/// batch, the first with its ledger and identifier, neither of which the log had
/// together before. It is in order of ledger, then identifier.
pub proof fn first_event_of_a_place_wins(log: Seq<EventView>, events: Seq<EventView>)
    requires
        ordered(log),
    ensures
        ({
            let out = upsert(log, events);
            &&& forall|i: int, j: int|
                0 <= i < j < out.len() ==> (#[trigger] out[i]).ledger < (#[trigger] out[j]).ledger
                    || (out[i].ledger == out[j].ledger && text::text_before(out[i].id, out[j].id))
            &&& forall|i: int| 0 <= i < log.len() ==> out.contains(#[trigger] log[i])
            &&& forall|i: int|
                0 <= i < events.len() ==> exists|k: int|
                    0 <= k < out.len() && (#[trigger] out[k]).ledger == (
                    #[trigger] events[i]).ledger && out[k].id == events[i].id
            &&& forall|k: int|
                0 <= k < out.len() && !log.contains(#[trigger] out[k]) ==> {
                    &&& forall|m: int|
                        0 <= m < log.len() ==> (#[trigger] log[m]).ledger != out[k].ledger
                            || log[m].id != out[k].id
                    &&& exists|i: int|
                        0 <= i < events.len() && #[trigger] events[i] == out[k] && forall|j: int|
                            0 <= j < i ==> (#[trigger] events[j]).ledger != out[k].ledger
                                || events[j].id != out[k].id
                }
        }),
{
    let out = upsert(log, events);
    upsert_contents(log, events);
    ordered_is_ascending(out);
    assert forall|i: int| 0 <= i < log.len() implies out.contains(#[trigger] log[i]) by {
        assert(log.contains(log[i]));
    }
    assert forall|i: int| 0 <= i < events.len() implies exists|k: int|
        0 <= k < out.len() && (#[trigger] out[k]).ledger == (#[trigger] events[i]).ledger
            && out[k].id == events[i].id by {
        upsert_keys(log, events, events[i]);
        assert(same_key(events[i], events[i]));
        let k = choose|k: int| 0 <= k < out.len() && same_key(#[trigger] out[k], events[i]);
        assert(out[k].ledger == events[i].ledger && out[k].id == events[i].id);
    }
    assert forall|k: int| 0 <= k < out.len() && !log.contains(#[trigger] out[k]) implies {
        &&& forall|m: int|
            0 <= m < log.len() ==> (#[trigger] log[m]).ledger != out[k].ledger || log[m].id
                != out[k].id
        &&& exists|i: int|
            0 <= i < events.len() && #[trigger] events[i] == out[k] && forall|j: int|
                0 <= j < i ==> (#[trigger] events[j]).ledger != out[k].ledger || events[j].id
                    != out[k].id
    } by {
        assert(out.contains(out[k]));
        assert forall|m: int| 0 <= m < log.len() implies (#[trigger] log[m]).ledger != out[k].ledger
            || log[m].id != out[k].id by {
            assert(!same_key(log[m], out[k]));
        }
        let i = choose|i: int|
            0 <= i < events.len() && #[trigger] events[i] == out[k] && forall|j: int|
                0 <= j < i ==> !same_key(#[trigger] events[j], out[k]);
        assert forall|j: int| 0 <= j < i implies (#[trigger] events[j]).ledger != out[k].ledger
            || events[j].id != out[k].id by {
            assert(!same_key(events[j], out[k]));
        }
        assert(events[i] == out[k]);
    }
}

/// A filter gives the events of the log that it accepts.
proof fn filter_contents(log: Seq<EventView>, keep: spec_fn(EventView) -> bool, x: EventView)
    requires
        ordered(log),
    ensures
        log.filter(keep).contains(x) <==> log.contains(x) && keep(x),
{
    let kept = log.filter(keep);
    filter_ordered(log, keep);
    if kept.contains(x) {
        let k = choose|k: int| 0 <= k < kept.len() && kept[k] == x;
        assert(log.contains(kept[k]) && keep(kept[k]));
    }
    if log.contains(x) && keep(x) {
        let p = choose|p: int| 0 <= p < log.len() && log[p] == x;
        log.lemma_filter_contains(keep, p);
    }
}

/// A window holds the events of the log from its start ledger on that lie below
/// the cutoff, those and no others, in order of ledger, then identifier.
pub proof fn window_holds_exactly(
    log: Seq<EventView>,
    start_ledger: u32,
    cutoff_ledger: u32,
    x: EventView,
)
    requires
        ordered(log),
    ensures
        ({
            let w = window(log, start_ledger, cutoff_ledger);
            &&& w.contains(x) <==> log.contains(x) && start_ledger <= x.ledger && x.ledger
                < cutoff_ledger
            &&& forall|i: int, j: int|
                0 <= i < j < w.len() ==> (#[trigger] w[i]).ledger < (#[trigger] w[j]).ledger || (
                w[i].ledger == w[j].ledger && text::text_before(w[i].id, w[j].id))
        }),
{
    let keep = |e: EventView| start_ledger <= e.ledger && e.ledger < cutoff_ledger;
    filter_contents(log, keep, x);
    filter_ordered(log, keep);
    ordered_is_ascending(window(log, start_ledger, cutoff_ledger));
}

/// A beginning has as many elements as it may, each at its place.
pub proof fn beginning_is_full<A>(s: Seq<A>, n: int)
    requires
        n >= 0,
    ensures
        first_n(s, n).len() <= n,
        first_n(s, n).len() <= s.len(),
        first_n(s, n).len() == n || first_n(s, n).len() == s.len(),
        forall|i: int| 0 <= i < first_n(s, n).len() ==> #[trigger] first_n(s, n)[i] == s[i],
{
}

/// A page by ledger has as many events as the limit allows and the window has,
/// the first of the window.
pub proof fn ledger_page_is_full(
    log: Seq<EventView>,
    start_ledger: u32,
    cutoff_ledger: u32,
    limit: u32,
)
    ensures
        ({
            let w = window(log, start_ledger, cutoff_ledger);
            let page = ledger_page(log, start_ledger, cutoff_ledger, limit);
            &&& page.len() == if w.len() < limit {
                w.len() as int
            } else {
                limit as int
            }
            &&& forall|i: int| 0 <= i < page.len() ==> #[trigger] page[i] == w[i]
        }),
{
}

/// A page by ledger holds events of the log in its ledgers, in order, no more
/// than the limit; and every such event that it does not hold comes after all
/// that it holds, and is left out only because the limit is reached.
pub proof fn ledger_page_is_complete(
    log: Seq<EventView>,
    start_ledger: u32,
    cutoff_ledger: u32,
    limit: u32,
    x: EventView,
)
    requires
        ordered(log),
    ensures
        ({
            let page = ledger_page(log, start_ledger, cutoff_ledger, limit);
            &&& page.len() <= limit
            &&& page.contains(x) ==> log.contains(x) && start_ledger <= x.ledger && x.ledger
                < cutoff_ledger
            &&& forall|i: int, j: int|
                0 <= i < j < page.len() ==> (#[trigger] page[i]).ledger < (
                #[trigger] page[j]).ledger || (page[i].ledger == page[j].ledger
                    && text::text_before(page[i].id, page[j].id))
            &&& log.contains(x) && start_ledger <= x.ledger && x.ledger < cutoff_ledger
                && !page.contains(x) ==> page.len() == limit && forall|i: int|
                0 <= i < page.len() ==> (#[trigger] page[i]).ledger < x.ledger || (page[i].ledger
                    == x.ledger && text::text_before(page[i].id, x.id))
        }),
{
    let keep = |e: EventView| start_ledger <= e.ledger && e.ledger < cutoff_ledger;
    filter_contents(log, keep, x);
    filter_ordered(log, keep);
    beginning_of_ordered(log.filter(keep), limit, x);
}

/// What a beginning of ordered events leaves out comes after what it holds.
proof fn beginning_of_ordered(w: Seq<EventView>, limit: u32, x: EventView)
    requires
        ordered(w),
    ensures
        ({
            let page = first_n(w, limit as int);
            &&& page.len() <= limit
            &&& page.contains(x) ==> w.contains(x)
            &&& forall|i: int, j: int|
                0 <= i < j < page.len() ==> (#[trigger] page[i]).ledger < (
                #[trigger] page[j]).ledger || (page[i].ledger == page[j].ledger
                    && text::text_before(page[i].id, page[j].id))
            &&& w.contains(x) && !page.contains(x) ==> page.len() == limit && forall|i: int|
                0 <= i < page.len() ==> (#[trigger] page[i]).ledger < x.ledger || (page[i].ledger
                    == x.ledger && text::text_before(page[i].id, x.id))
        }),
{
    let page = first_n(w, limit as int);
    assert forall|i: int| 0 <= i < page.len() implies page[i] == w[i] by {}
    if page.contains(x) {
        let k = choose|k: int| 0 <= k < page.len() && page[k] == x;
        assert(w[k] == x);
    }
    assert forall|i: int, j: int| 0 <= i < j < page.len() implies (#[trigger] page[i]).ledger < (
    #[trigger] page[j]).ledger || (page[i].ledger == page[j].ledger && text::text_before(
        page[i].id,
        page[j].id,
    )) by {
        assert(event_before(w[i], w[j]));
    }
    if w.contains(x) && !page.contains(x) {
        let p = choose|p: int| 0 <= p < w.len() && w[p] == x;
        assert(p >= page.len()) by {
            if p < page.len() {
                assert(page[p] == x);
            }
        }
        assert forall|i: int| 0 <= i < page.len() implies (#[trigger] page[i]).ledger < x.ledger
            || (page[i].ledger == x.ledger && text::text_before(page[i].id, x.id)) by {
            assert(event_before(w[i], w[p]));
        }
    }
}

/// A cursor stands for the smallest ledger that has an event with its
/// identifier, and for none when no event has it.
pub proof fn cursor_stands_for_first_ledger(log: Seq<EventView>, id: Seq<char>)
    requires
        ordered(log),
    ensures
        cursor_ledger(log, id) is None <==> forall|i: int|
            0 <= i < log.len() ==> (#[trigger] log[i]).id != id,
        cursor_ledger(log, id) matches Some(ledger) ==> {
            &&& exists|i: int|
                0 <= i < log.len() && (#[trigger] log[i]).id == id && log[i].ledger == ledger
            &&& forall|i: int|
                0 <= i < log.len() && (#[trigger] log[i]).id == id ==> ledger <= log[i].ledger
        },
{
    let keep = |e: EventView| e.id == id;
    let found = with_id(log, id);
    filter_ordered(log, keep);
    assert forall|i: int| 0 <= i < log.len() && (#[trigger] log[i]).id == id implies found.len() > 0
        && found[0].ledger <= log[i].ledger by {
        assert(log.contains(log[i]));
        filter_contents(log, keep, log[i]);
        let k = choose|k: int| 0 <= k < found.len() && found[k] == log[i];
        if k > 0 {
            assert(event_before(found[0], found[k]));
        }
    }
    if found.len() > 0 {
        assert(log.contains(found[0]) && keep(found[0]));
        let p = choose|p: int| 0 <= p < log.len() && log[p] == found[0];
        assert(log[p].id == id && log[p].ledger == found[0].ledger);
    }
}

/// A page after a cursor holds as many events as the limit allows of those that
/// follow the cursor below the cutoff, the first of them; it holds none where
/// the cursor is unknown.
pub proof fn cursor_page_is_full(
    log: Seq<EventView>,
    id: Seq<char>,
    cutoff_ledger: u32,
    limit: u32,
)
    ensures
        ({
            let (place, page) = cursor_page(log, id, cutoff_ledger, limit);
            &&& place == cursor_ledger(log, id)
            &&& place is None ==> page.len() == 0
            &&& place is Some ==> {
                let rest = after_cursor(log, place->0, id, cutoff_ledger);
                &&& page.len() == if rest.len() < limit {
                    rest.len() as int
                } else {
                    limit as int
                }
                &&& forall|i: int| 0 <= i < page.len() ==> #[trigger] page[i] == rest[i]
            }
        }),
{
}

/// A page after a cursor holds events of the log that lie below the cutoff and
/// come after the place of the cursor, in order, no more than the limit; and
/// every such event that it does not hold comes after all that it holds, and is
/// left out only because the limit is reached.
pub proof fn cursor_page_is_complete(
    log: Seq<EventView>,
    id: Seq<char>,
    cutoff_ledger: u32,
    limit: u32,
    x: EventView,
)
    requires
        ordered(log),
    ensures
        ({
            let (place, page) = cursor_page(log, id, cutoff_ledger, limit);
            let follows = place is Some && log.contains(x) && x.ledger < cutoff_ledger && x.id != id
                && (x.ledger > place->0 || (x.ledger == place->0 && text::text_before(id, x.id)));
            &&& page.len() <= limit
            &&& page.contains(x) ==> follows
            &&& forall|i: int, j: int|
                0 <= i < j < page.len() ==> (#[trigger] page[i]).ledger < (
                #[trigger] page[j]).ledger || (page[i].ledger == page[j].ledger
                    && text::text_before(page[i].id, page[j].id))
            &&& follows && !page.contains(x) ==> page.len() == limit && forall|i: int|
                0 <= i < page.len() ==> (#[trigger] page[i]).ledger < x.ledger || (page[i].ledger
                    == x.ledger && text::text_before(page[i].id, x.id))
        }),
{
    if let Some(ledger) = cursor_ledger(log, id) {
        let keep = |e: EventView|
            e.ledger < cutoff_ledger && e.id != id && (e.ledger > ledger || (e.ledger == ledger
                && text::text_before(id, e.id)));
        filter_contents(log, keep, x);
        filter_ordered(log, keep);
        beginning_of_ordered(log.filter(keep), limit, x);
    }
}

} // verus!
