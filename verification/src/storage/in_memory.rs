//! A storage that keeps everything in memory.
use super::log;
use super::{DeploymentView, IndexerState, Storage, StorageError};
use crate::messages;
use crate::messages::{Event, EventView};
use crate::storage;
use crate::text;
use crate::text::{copy_of, is_text_before};
use vstd::prelude::*;

verus! {

/// What is kept for one deployment; the events in log order.
struct DeploymentState {
    last_upstream_cursor: Option<String>,
    ledger_tip: u32,
    oldest_ledger: u32,
    archive_ready: bool,
    events: Vec<Event>,
}

impl DeploymentState {
    spec fn state(&self) -> DeploymentView {
        DeploymentView {
            last_upstream_cursor: text::text_of(self.last_upstream_cursor),
            ledger_tip: self.ledger_tip,
            oldest_ledger: self.oldest_ledger,
            archive_ready: self.archive_ready,
            events: messages::event_views(self.events@),
        }
    }

    fn fresh() -> (r: Self)
        ensures
            r.state() == storage::fresh_deployment(),
    {
        let r = DeploymentState {
            last_upstream_cursor: None,
            ledger_tip: 0,
            oldest_ledger: 0,
            archive_ready: false,
            events: Vec::new(),
        };
        assert(messages::event_views(r.events@) =~= Seq::empty());
        r
    }
}

/// Tells whether `a` stands before `b` in a log.
fn is_event_before(a: &Event, b: &Event) -> (r: bool)
    ensures
        r == log::event_before(a@, b@),
{
    a.ledger < b.ledger || (a.ledger == b.ledger && is_text_before(a.id.as_str(), b.id.as_str()))
}

impl DeploymentState {
    /// Puts the event at its place, unless its key is taken.
    fn insert(&mut self, event: &Event)
        requires
            log::ordered(old(self).state().events),
        ensures
            final(self).state() == (DeploymentView {
                events: log::insert_event(old(self).state().events, event@),
                ..old(self).state()
            }),
            log::ordered(final(self).state().events),
    {
        let ghost before = messages::event_views(self.events@);
        let mut pos: usize = self.events.len();
        assert(before.take(pos as int) =~= before);
        assert(before.skip(pos as int) =~= Seq::empty());
        while pos > 0 && is_event_before(event, &self.events[pos - 1])
            invariant
                pos <= self.events.len(),
                before == messages::event_views(self.events@),
                log::insert_event(before, event@) =~= log::insert_event(
                    before.take(pos as int),
                    event@,
                ) + before.skip(pos as int),
            decreases pos,
        {
            proof {
                let last = before[pos - 1];
                log::event_before_strict(event@, last);
                log::event_before_strict(last, event@);
                assert(before.take(pos as int).last() == last);
                assert(before.take(pos as int).drop_last() =~= before.take(pos - 1));
                assert(seq![last] + before.skip(pos as int) =~= before.skip(pos - 1));
            }
            pos -= 1;
        }
        proof {
            log::insert_event_contents(before, event@);
            if pos > 0 {
                log::event_before_strict(event@, before[pos - 1]);
                assert(before.take(pos as int).last() == before[pos - 1]);
            }
            assert(before.take(pos as int) + before.skip(pos as int) =~= before);
        }
        if pos > 0 && self.events[pos - 1].ledger == event.ledger && self.events[pos - 1].id
            == event.id {
            return;
        }
        self.events.insert(pos, event.clone());
        proof {
            assert(messages::event_views(self.events@) =~= before.insert(pos as int, event@));
            assert(before.insert(pos as int, event@) =~= before.take(pos as int).push(event@)
                + before.skip(pos as int));
            assert(messages::event_views(self.events@) =~= log::insert_event(before, event@));
        }
    }

    /// The ledger of the first event with the identifier.
    fn find_ledger(&self, id: &str) -> (r: Option<u32>)
        ensures
            r == log::cursor_ledger(self.state().events, id@),
    {
        let ghost all = messages::event_views(self.events@);
        let ghost keep = |e: EventView| e.id == id@;
        let target = id.to_owned();
        let mut i: usize = 0;
        assert(all.take(0).filter(keep) =~= Seq::empty()) by {
            reveal(Seq::filter);
        }
        while i < self.events.len()
            invariant
                i <= self.events.len(),
                all == messages::event_views(self.events@),
                keep == (|e: EventView| e.id == id@),
                target@ == id@,
                all.take(i as int).filter(keep) == Seq::<EventView>::empty(),
            decreases self.events.len() - i,
        {
            let event = &self.events[i];
            assert(all.take(i + 1).filter(keep) == if keep(event@) {
                seq![event@]
            } else {
                Seq::empty()
            }) by {
                reveal(Seq::filter);
                assert(all.take(i + 1).drop_last() =~= all.take(i as int));
                assert(Seq::<EventView>::empty().push(event@) =~= seq![event@]);
            }
            if event.id == target {
                proof {
                    assert(all =~= all.take(i + 1) + all.skip(i + 1));
                    Seq::filter_distributes_over_add(all.take(i + 1), all.skip(i + 1), keep);
                    assert(log::with_id(all, id@) == all.filter(keep));
                    assert(log::with_id(all, id@)[0] == event@);
                }
                return Some(event.ledger);
            }
            i += 1;
        }
        assert(all.take(i as int) =~= all);
        None
    }

    /// The events of a page by ledger.
    fn page_from(&self, start_ledger: u32, cutoff_ledger: u32, limit: u32) -> (page: Vec<Event>)
        ensures
            messages::event_views(page@) == log::ledger_page(
                self.state().events,
                start_ledger,
                cutoff_ledger,
                limit,
            ),
    {
        let ghost all = messages::event_views(self.events@);
        let ghost keep = |e: EventView| start_ledger <= e.ledger && e.ledger < cutoff_ledger;
        let mut page: Vec<Event> = Vec::new();
        let mut i: usize = 0;
        assert(messages::event_views(page@) =~= all.take(0).filter(keep)) by {
            reveal(Seq::filter);
        }
        while i < self.events.len()
            invariant
                i <= self.events.len(),
                all == messages::event_views(self.events@),
                keep == (|e: EventView| start_ledger <= e.ledger && e.ledger < cutoff_ledger),
                messages::event_views(page@) == all.take(i as int).filter(keep),
            decreases self.events.len() - i,
        {
            let event = &self.events[i];
            let ghost had = page@;
            if event.ledger < cutoff_ledger && event.ledger >= start_ledger {
                page.push(event.clone());
            }
            proof {
                reveal(Seq::filter);
                assert(all.take(i + 1).drop_last() =~= all.take(i as int));
                assert(all.take(i + 1).last() == event@);
                if keep(event@) {
                    assert(messages::event_views(page@) =~= messages::event_views(had).push(
                        event@,
                    ));
                }
            }
            i += 1;
        }
        assert(all.take(i as int) =~= all);
        let ghost whole = page@;
        page.truncate(limit as usize);
        assert(messages::event_views(page@) =~= log::first_n(
            messages::event_views(whole),
            limit as int,
        ));
        page
    }

    /// The events of a page after the place `(ledger, id)`.
    fn page_after(&self, ledger: u32, id: &str, cutoff_ledger: u32, limit: u32) -> (page: Vec<
        Event,
    >)
        ensures
            messages::event_views(page@) == log::first_n(
                log::after_cursor(self.state().events, ledger, id@, cutoff_ledger),
                limit as int,
            ),
    {
        let ghost all = messages::event_views(self.events@);
        let ghost keep = |e: EventView|
            e.ledger < cutoff_ledger && e.id != id@ && (e.ledger > ledger || (e.ledger == ledger
                && text::text_before(id@, e.id)));
        let target = id.to_owned();
        let mut page: Vec<Event> = Vec::new();
        let mut i: usize = 0;
        assert(messages::event_views(page@) =~= all.take(0).filter(keep)) by {
            reveal(Seq::filter);
        }
        while i < self.events.len()
            invariant
                i <= self.events.len(),
                all == messages::event_views(self.events@),
                keep == (|e: EventView|
                    e.ledger < cutoff_ledger && e.id != id@ && (e.ledger > ledger || (e.ledger
                        == ledger && text::text_before(id@, e.id)))),
                target@ == id@,
                messages::event_views(page@) == all.take(i as int).filter(keep),
            decreases self.events.len() - i,
        {
            let event = &self.events[i];
            let ghost had = page@;
            if event.ledger < cutoff_ledger && !(event.id == target) && (event.ledger > ledger
                || (event.ledger == ledger && is_text_before(id, event.id.as_str()))) {
                page.push(event.clone());
            }
            proof {
                reveal(Seq::filter);
                assert(all.take(i + 1).drop_last() =~= all.take(i as int));
                assert(all.take(i + 1).last() == event@);
                if keep(event@) {
                    assert(messages::event_views(page@) =~= messages::event_views(had).push(
                        event@,
                    ));
                }
            }
            i += 1;
        }
        assert(all.take(i as int) =~= all);
        let ghost whole = page@;
        page.truncate(limit as usize);
        assert(messages::event_views(page@) =~= log::first_n(
            messages::event_views(whole),
            limit as int,
        ));
        page
    }
}

impl DeploymentState {
    /// The ledger of a cursor and the events of the page that follows it.
    fn page_of_cursor(&self, after_event_id: &str, cutoff_ledger: u32, limit: u32) -> (r: (
        Option<u32>,
        Vec<Event>,
    ))
        ensures
            (r.0, messages::event_views(r.1@)) == log::cursor_page(
                self.state().events,
                after_event_id@,
                cutoff_ledger,
                limit,
            ),
    {
        match self.find_ledger(after_event_id) {
            None => {
                let none: Vec<Event> = Vec::new();
                assert(messages::event_views(none@) =~= Seq::empty());
                (None, none)
            },
            Some(ledger) => (
                Some(ledger),
                self.page_after(ledger, after_event_id, cutoff_ledger, limit),
            ),
        }
    }
}

/// What a backend keeps for one deployment.
pub struct Namespace {
    id: String,
    state: DeploymentState,
}

impl Namespace {
    /// The deployment that the namespace is for.
    pub closed spec fn id(&self) -> Seq<char> {
        self.id@
    }

    /// What is kept for the deployment.
    pub closed spec fn kept(&self) -> DeploymentView {
        self.state.state()
    }

    fn fresh(id: String) -> (r: Self)
        ensures
            r.wf(),
            r.id() == id@,
            r.kept() == storage::fresh_deployment(),
    {
        Namespace { id, state: DeploymentState::fresh() }
    }

    /// The deployment that the namespace is for.
    pub fn deployment_id(&self) -> (r: &str)
        ensures
            r@ == self.id(),
    {
        self.id.as_str()
    }
}

impl Storage for Namespace {
    open spec fn wf(&self) -> bool {
        log::ordered(self.kept().events)
    }

    fn ping(&self) -> (r: Result<(), StorageError>)
        ensures
            r is Ok,
    {
        Ok(())
    }

    fn load_indexer_state(&self) -> (r: Result<IndexerState, StorageError>)
        ensures
            r matches Ok(s) && text::text_of(s.last_upstream_cursor)
                == self.kept().last_upstream_cursor && s.ledger_tip == self.kept().ledger_tip
                && s.oldest_ledger == self.kept().oldest_ledger && s.archive_ready
                == self.kept().archive_ready,
    {
        Ok(
            IndexerState {
                last_upstream_cursor: copy_of(&self.state.last_upstream_cursor),
                ledger_tip: self.state.ledger_tip,
                oldest_ledger: self.state.oldest_ledger,
                archive_ready: self.state.archive_ready,
            },
        )
    }

    fn set_last_upstream_cursor(&mut self, cursor: &str) -> (r: Result<(), StorageError>)
        ensures
            r is Ok,
            final(self).id() == old(self).id(),
            final(self).kept() == (DeploymentView {
                last_upstream_cursor: Some(cursor@),
                ..old(self).kept()
            }),
    {
        self.state.last_upstream_cursor = Some(cursor.to_owned());
        Ok(())
    }

    fn set_ledger_tip(&mut self, ledger_tip: u32) -> (r: Result<(), StorageError>)
        ensures
            r is Ok,
            final(self).id() == old(self).id(),
            final(self).kept() == (DeploymentView { ledger_tip, ..old(self).kept() }),
    {
        self.state.ledger_tip = ledger_tip;
        Ok(())
    }

    fn set_oldest_ledger(&mut self, oldest_ledger: u32) -> (r: Result<(), StorageError>)
        ensures
            r is Ok,
            final(self).id() == old(self).id(),
            final(self).kept() == (DeploymentView { oldest_ledger, ..old(self).kept() }),
    {
        self.state.oldest_ledger = oldest_ledger;
        Ok(())
    }

    fn set_archive_ready(&mut self) -> (r: Result<(), StorageError>)
        ensures
            r is Ok,
            final(self).id() == old(self).id(),
            final(self).kept() == (DeploymentView { archive_ready: true, ..old(self).kept() }),
    {
        self.state.archive_ready = true;
        Ok(())
    }

    fn upsert_events(&mut self, events: &[Event]) -> (r: Result<(), StorageError>)
        ensures
            r is Ok,
            final(self).id() == old(self).id(),
            final(self).kept() == (DeploymentView {
                events: log::upsert(old(self).kept().events, messages::event_views(events@)),
                ..old(self).kept()
            }),
    {
        let ghost batch = messages::event_views(events@);
        let mut i: usize = 0;
        assert(batch.take(0) =~= Seq::empty());
        while i < events.len()
            invariant
                i <= events.len(),
                batch == messages::event_views(events@),
                self.wf(),
                self.id() == old(self).id(),
                self.kept() == (DeploymentView {
                    events: log::upsert(old(self).kept().events, batch.take(i as int)),
                    ..old(self).kept()
                }),
            decreases events.len() - i,
        {
            self.state.insert(&events[i]);
            proof {
                assert(batch.take(i + 1).drop_last() =~= batch.take(i as int));
                assert(batch.take(i + 1).last() == events@[i as int]@);
            }
            i += 1;
        }
        assert(batch.take(i as int) =~= batch);
        Ok(())
    }

    fn page_events_ledger(&self, start_ledger: u32, cutoff_ledger: u32, limit: u32) -> (r: Result<
        Vec<Event>,
        StorageError,
    >)
        ensures
            r matches Ok(page) && messages::event_views(page@) == log::ledger_page(
                self.kept().events,
                start_ledger,
                cutoff_ledger,
                limit,
            ),
    {
        Ok(self.state.page_from(start_ledger, cutoff_ledger, limit))
    }

    fn page_events_cursor(&self, after_event_id: &str, cutoff_ledger: u32, limit: u32) -> (r:
        Result<(Option<u32>, Vec<Event>), StorageError>)
        ensures
            r matches Ok(found) && (found.0, messages::event_views(found.1@)) == log::cursor_page(
                self.kept().events,
                after_event_id@,
                cutoff_ledger,
                limit,
            ),
    {
        Ok(self.state.page_of_cursor(after_event_id, cutoff_ledger, limit))
    }
}

spec fn lookup(by_deployment: Seq<Namespace>, id: Seq<char>) -> DeploymentView
    decreases by_deployment.len(),
{
    if by_deployment.len() == 0 {
        storage::fresh_deployment()
    } else if by_deployment.last().id() == id {
        by_deployment.last().kept()
    } else {
        lookup(by_deployment.drop_last(), id)
    }
}

spec fn distinct(by_deployment: Seq<Namespace>) -> bool {
    forall|i: int, j: int|
        0 <= i < j < by_deployment.len() ==> (#[trigger] by_deployment[i]).id() != (
        #[trigger] by_deployment[j]).id()
}

proof fn lookup_at(by_deployment: Seq<Namespace>, i: int)
    requires
        distinct(by_deployment),
        0 <= i < by_deployment.len(),
    ensures
        lookup(by_deployment, by_deployment[i].id()) == by_deployment[i].kept(),
    decreases by_deployment.len(),
{
    if i < by_deployment.len() - 1 {
        let front = by_deployment.drop_last();
        assert(by_deployment[i].id() != by_deployment[by_deployment.len() - 1].id());
        assert(front[i] == by_deployment[i]);
        lookup_at(front, i);
    }
}

proof fn lookup_absent(by_deployment: Seq<Namespace>, id: Seq<char>)
    requires
        forall|i: int| 0 <= i < by_deployment.len() ==> (#[trigger] by_deployment[i]).id() != id,
    ensures
        lookup(by_deployment, id) == storage::fresh_deployment(),
    decreases by_deployment.len(),
{
    if by_deployment.len() > 0 {
        let front = by_deployment.drop_last();
        assert forall|i: int| 0 <= i < front.len() implies (#[trigger] front[i]).id() != id by {
            assert(front[i] == by_deployment[i]);
        }
        assert(by_deployment[by_deployment.len() - 1].id() != id);
        lookup_absent(front, id);
    }
}

/// Two backends that agree on every other deployment give the same for it.
proof fn lookup_update(by_deployment: Seq<Namespace>, i: int, n: Namespace, other: Seq<char>)
    requires
        0 <= i < by_deployment.len(),
        n.id() == by_deployment[i].id(),
        other != n.id(),
    ensures
        lookup(by_deployment.update(i, n), other) == lookup(by_deployment, other),
    decreases by_deployment.len(),
{
    let front = by_deployment.drop_last();
    if i < by_deployment.len() - 1 {
        assert(by_deployment.update(i, n).drop_last() =~= front.update(i, n));
        lookup_update(front, i, n, other);
    } else {
        assert(by_deployment.update(i, n).drop_last() =~= front);
    }
}

/// What is kept in memory for all deployments. Handles share it.
pub struct Backend {
    by_deployment: Vec<Namespace>,
}

impl Backend {
    /// What is kept for the deployment.
    pub closed spec fn namespace(&self, id: Seq<char>) -> DeploymentView {
        lookup(self.by_deployment@, id)
    }

    /// Whether there is a namespace for the deployment.
    pub closed spec fn has(&self, id: Seq<char>) -> bool {
        exists|i: int|
            0 <= i < self.by_deployment.len() && (#[trigger] self.by_deployment@[i]).id() == id
    }

    /// Whether each deployment has one namespace at most, and each log is in order.
    pub closed spec fn wf(&self) -> bool {
        &&& distinct(self.by_deployment@)
        &&& forall|i: int|
            0 <= i < self.by_deployment.len() ==> (#[trigger] self.by_deployment@[i]).wf()
    }

    /// Whether another backend has what this one has, and keeps the same for
    /// every deployment but one.
    pub open spec fn differs_at(&self, id: Seq<char>, after: Backend) -> bool {
        &&& forall|other: Seq<char>|
            other != id ==> #[trigger] after.namespace(other) == self.namespace(other)
        &&& forall|x: Seq<char>| self.has(x) ==> #[trigger] after.has(x)
    }

    fn position(&self, deployment_id: &str) -> (r: Option<usize>)
        ensures
            match r {
                Some(i) => i < self.by_deployment.len() && self.by_deployment@[i as int].id()
                    == deployment_id@,
                None => !self.has(deployment_id@),
            },
    {
        let target = deployment_id.to_owned();
        let mut i: usize = 0;
        while i < self.by_deployment.len()
            invariant
                i <= self.by_deployment.len(),
                target@ == deployment_id@,
                forall|j: int|
                    0 <= j < i ==> (#[trigger] self.by_deployment@[j]).id() != deployment_id@,
            decreases self.by_deployment.len() - i,
        {
            if self.by_deployment[i].id == target {
                return Some(i);
            }
            i += 1;
        }
        None
    }

    /// Gives the deployment a namespace where it has none yet.
    fn ensure(&mut self, deployment_id: &str)
        requires
            old(self).wf(),
        ensures
            final(self).wf(),
            final(self).has(deployment_id@),
            forall|x: Seq<char>| old(self).has(x) ==> #[trigger] final(self).has(x),
            forall|id: Seq<char>| #[trigger]
                final(self).namespace(id) == old(self).namespace(id),
    {
        if self.position(deployment_id).is_none() {
            let ghost before = self.by_deployment@;
            self.by_deployment.push(Namespace::fresh(deployment_id.to_owned()));
            proof {
                let after = self.by_deployment@;
                assert(after[before.len() as int].id() == deployment_id@);
                assert forall|x: Seq<char>| old(self).has(x) implies #[trigger] self.has(x) by {
                    let i = choose|i: int|
                        0 <= i < before.len() && (#[trigger] before[i]).id() == x;
                    assert(after[i].id() == x);
                }
                lookup_absent(before, deployment_id@);
                assert(after.drop_last() =~= before);
                assert forall|id: Seq<char>| lookup(after, id) == lookup(before, id) by {}
            }
        }
    }

    /// The namespace of a deployment.
    fn get(&self, deployment_id: &str) -> (r: &Namespace)
        requires
            self.wf(),
            self.has(deployment_id@),
        ensures
            r.wf(),
            r.id() == deployment_id@,
            r.kept() == self.namespace(deployment_id@),
    {
        let i: usize = self.position(deployment_id).unwrap();
        proof {
            lookup_at(self.by_deployment@, i as int);
        }
        &self.by_deployment[i]
    }

    /// The namespace of a deployment, to be changed in place.
    fn get_mut(&mut self, deployment_id: &str) -> (r: &mut Namespace)
        requires
            old(self).wf(),
            old(self).has(deployment_id@),
        ensures
            r.wf(),
            r.id() == deployment_id@,
            r.kept() == old(self).namespace(deployment_id@),
            final(r).wf() && final(r).id() == r.id() ==> {
                &&& final(self).wf()
                &&& old(self).differs_at(deployment_id@, *final(self))
                &&& final(self).namespace(deployment_id@) == final(r).kept()
            },
    {
        let i: usize = self.position(deployment_id).unwrap();
        proof {
            let all = self.by_deployment@;
            let id = deployment_id@;
            lookup_at(all, i as int);
            assert forall|n: Namespace| n.id() == id implies distinct(
                #[trigger] all.update(i as int, n),
            ) && lookup(all.update(i as int, n), id) == n.kept() by {
                let changed = all.update(i as int, n);
                assert forall|j: int, k: int| 0 <= j < k < changed.len() implies (
                #[trigger] changed[j]).id() != (#[trigger] changed[k]).id() by {
                    assert(all[j].id() != all[k].id());
                }
                lookup_at(changed, i as int);
            }
            assert forall|n: Namespace, other: Seq<char>|
                n.id() == id && other != id implies #[trigger] lookup(
                all.update(i as int, n),
                other,
            ) == old(self).namespace(other) by {
                lookup_update(all, i as int, n, other);
            }
            assert forall|n: Namespace, x: Seq<char>| n.id() == id && old(self).has(x) implies (
            exists|k: int|
                0 <= k < all.len() && #[trigger] all.update(i as int, n)[k].id() == x) by {
                let k = choose|k: int| 0 <= k < all.len() && (#[trigger] all[k]).id() == x;
                assert(all.update(i as int, n)[k].id() == x);
            }
        }
        &mut self.by_deployment[i]
    }

    /// A backend that differs at one deployment keeps every other as it was, and
    /// has all that it had.
    pub proof fn others_stay(&self, id: Seq<char>, after: Backend, other: Seq<char>)
        requires
            self.differs_at(id, after),
            other != id,
        ensures
            after.namespace(other) == self.namespace(other),
            self.has(other) ==> after.has(other),
            self.has(id) ==> after.has(id),
    {
    }

    /// Every log of the backend is in order.
    pub proof fn logs_ordered(&self, id: Seq<char>)
        requires
            self.wf(),
        ensures
            log::ordered(self.namespace(id).events),
    {
        if self.has(id) {
            let i = choose|i: int|
                0 <= i < self.by_deployment.len() && (#[trigger] self.by_deployment@[i]).id() == id;
            lookup_at(self.by_deployment@, i);
        } else {
            lookup_absent(self.by_deployment@, id);
        }
    }
}

/// A handle on one deployment of an in-memory backend.
pub struct InMemory {
    backend: Backend,
    deployment_id: String,
}

impl InMemory {
    /// The backend behind the handle.
    pub closed spec fn backend(&self) -> Backend {
        self.backend
    }

    /// What the backend keeps for the deployment.
    pub open spec fn namespace(&self, id: Seq<char>) -> DeploymentView {
        self.backend().namespace(id)
    }

    /// The deployment that the handle is on.
    pub closed spec fn id(&self) -> Seq<char> {
        self.deployment_id@
    }

    /// What the backend keeps for the deployment that the handle is on.
    pub open spec fn here(&self) -> DeploymentView {
        self.namespace(self.id())
    }

    /// The namespace of the handle's deployment, to be changed in place.
    pub fn with_deployment_mut(&mut self) -> (r: &mut Namespace)
        requires
            old(self).wf(),
        ensures
            r.wf(),
            r.id() == old(self).id(),
            r.kept() == old(self).here(),
            final(r).wf() && final(r).id() == r.id() ==> {
                &&& final(self).wf()
                &&& differ_here_only(*old(self), *final(self))
                &&& final(self).here() == final(r).kept()
            },
    {
        self.backend.get_mut(self.deployment_id.as_str())
    }

    /// The namespace of the handle's deployment.
    pub fn with_deployment(&self) -> (r: &Namespace)
        requires
            self.wf(),
        ensures
            r.wf(),
            r.id() == self.id(),
            r.kept() == self.here(),
    {
        self.backend.get(self.deployment_id.as_str())
    }

    fn over(deployment_id: String) -> (r: Self)
        ensures
            r.wf(),
            r.id() == deployment_id@,
            forall|id: Seq<char>| #[trigger] r.namespace(id) == storage::fresh_deployment(),
    {
        let mut backend = Backend { by_deployment: Vec::new() };
        backend.ensure(deployment_id.as_str());
        InMemory { backend, deployment_id }
    }

    /// A handle on an empty backend, on the deployment that `current` names:
    /// the storage identifier of the deployment that was compiled in.
    pub fn new(current: Result<String, String>) -> (r: Self)
        requires
            current is Ok,
        ensures
            r.wf(),
            r.id() == current->Ok_0@,
            forall|id: Seq<char>| #[trigger] r.namespace(id) == storage::fresh_deployment(),
    {
        Self::over(current.unwrap())
    }

    /// A handle on an empty backend, on the deployment of that name.
    pub fn with_deployment_id(deployment_id: &str) -> (r: Self)
        ensures
            r.wf(),
            r.id() == deployment_id@,
            forall|id: Seq<char>| #[trigger] r.namespace(id) == storage::fresh_deployment(),
    {
        Self::over(deployment_id.to_owned())
    }

    /// Another deployment namespace on the same shared backend. The scope finds
    /// what the backend keeps, and whatever it leaves in the backend the handle
    /// finds, which stays on its own deployment.
    pub fn scope<'a>(&'a mut self, deployment_id: &str) -> (r: Scope<'a>)
        requires
            old(self).wf(),
        ensures
            r.wf(),
            r.id() == deployment_id@,
            r.here() == old(self).namespace(deployment_id@),
            forall|id: Seq<char>| #[trigger]
                r.backend.namespace(id) == old(self).namespace(id),
            forall|x: Seq<char>| old(self).backend().has(x) ==> #[trigger] r.backend.has(x),
            final(self).backend() == *final(r.backend),
            final(self).id() == old(self).id(),
    {
        self.backend.ensure(deployment_id);
        Scope { backend: &mut self.backend, deployment_id: deployment_id.to_owned() }
    }

    /// The deployment that the handle is on.
    pub fn deployment_id(&self) -> (r: &str)
        ensures
            r@ == self.id(),
    {
        self.deployment_id.as_str()
    }
}

/// Whether two handles differ in what is kept for the deployment that they
/// are on, at most.
pub open spec fn differ_here_only(before: InMemory, after: InMemory) -> bool {
    &&& after.id() == before.id()
    &&& before.backend().differs_at(before.id(), after.backend())
}

/// A handle that differs here only is on the same deployment and finds every
/// other as it was.
pub proof fn elsewhere_nothing_changes(before: InMemory, after: InMemory, other: Seq<char>)
    requires
        differ_here_only(before, after),
    ensures
        after.id() == before.id(),
        other != before.id() ==> after.namespace(other) == before.namespace(other),
        after.here() == after.namespace(before.id()),
        before.here() == before.namespace(before.id()),
{
}

/// A handle on one deployment of a backend that is shared with another handle.
pub struct Scope<'a> {
    /// The shared backend.
    pub backend: &'a mut Backend,
    /// The deployment that the scope is on.
    pub deployment_id: String,
}

impl<'a> Scope<'a> {
    /// What the shared backend keeps for the deployment.
    pub open spec fn namespace(&self, id: Seq<char>) -> DeploymentView {
        self.backend.namespace(id)
    }

    /// The deployment that the scope is on.
    pub open spec fn id(&self) -> Seq<char> {
        self.deployment_id@
    }

    /// What the shared backend keeps for the deployment that the scope is on.
    pub open spec fn here(&self) -> DeploymentView {
        self.namespace(self.id())
    }

    /// The deployment that the scope is on.
    pub fn deployment_id(&self) -> (r: &str)
        ensures
            r@ == self.id(),
    {
        self.deployment_id.as_str()
    }

    /// Another deployment namespace on the same shared backend, as
    /// [`InMemory::scope`] gives it. So a scope of a scope that comes back to a
    /// deployment finds what is kept for it, and what it writes is found there.
    pub fn scope<'b>(&'b mut self, deployment_id: &str) -> (r: Scope<'b>)
        requires
            old(self).wf(),
        ensures
            r.wf(),
            r.id() == deployment_id@,
            r.here() == old(self).namespace(deployment_id@),
            forall|id: Seq<char>| #[trigger]
                r.backend.namespace(id) == old(self).namespace(id),
            forall|x: Seq<char>| old(self).backend.has(x) ==> #[trigger] r.backend.has(x),
            *final(self).backend == *final(r.backend),
            final(self).id() == old(self).id(),
            *final(final(self).backend) == *final(old(self).backend),
    {
        self.backend.ensure(deployment_id);
        Scope { backend: &mut *self.backend, deployment_id: deployment_id.to_owned() }
    }

    /// The namespace of the scope's deployment.
    pub fn with_deployment(&self) -> (r: &Namespace)
        requires
            self.wf(),
        ensures
            r.wf(),
            r.id() == self.id(),
            r.kept() == self.here(),
    {
        self.backend.get(self.deployment_id.as_str())
    }

    /// The namespace of the scope's deployment, to be changed in place.
    pub fn with_deployment_mut(&mut self) -> (r: &mut Namespace)
        requires
            old(self).wf(),
        ensures
            r.wf(),
            r.id() == old(self).id(),
            r.kept() == old(self).here(),
            final(r).wf() && final(r).id() == r.id() ==> {
                &&& final(self).wf()
                &&& final(self).id() == old(self).id()
                &&& old(self).backend.differs_at(old(self).id(), *final(self).backend)
                &&& final(self).here() == final(r).kept()
            },
            *final(final(self).backend) == *final(old(self).backend),
    {
        self.backend.get_mut(self.deployment_id.as_str())
    }
}

impl Storage for InMemory {
    open spec fn wf(&self) -> bool {
        self.backend().wf() && self.backend().has(self.id())
    }

    fn ping(&self) -> (r: Result<(), StorageError>)
        ensures
            r is Ok,
    {
        Ok(())
    }

    fn load_indexer_state(&self) -> (r: Result<IndexerState, StorageError>)
        ensures
            r matches Ok(s) && text::text_of(s.last_upstream_cursor)
                == self.here().last_upstream_cursor && s.ledger_tip == self.here().ledger_tip
                && s.oldest_ledger == self.here().oldest_ledger && s.archive_ready
                == self.here().archive_ready,
    {
        self.with_deployment().load_indexer_state()
    }

    fn set_last_upstream_cursor(&mut self, cursor: &str) -> (r: Result<(), StorageError>)
        ensures
            r is Ok,
            differ_here_only(*old(self), *final(self)),
            final(self).here() == (DeploymentView {
                last_upstream_cursor: Some(cursor@),
                ..old(self).here()
            }),
    {
        self.with_deployment_mut().set_last_upstream_cursor(cursor)
    }

    fn set_ledger_tip(&mut self, ledger_tip: u32) -> (r: Result<(), StorageError>)
        ensures
            r is Ok,
            differ_here_only(*old(self), *final(self)),
            final(self).here() == (DeploymentView { ledger_tip, ..old(self).here() }),
    {
        self.with_deployment_mut().set_ledger_tip(ledger_tip)
    }

    fn set_oldest_ledger(&mut self, oldest_ledger: u32) -> (r: Result<(), StorageError>)
        ensures
            r is Ok,
            differ_here_only(*old(self), *final(self)),
            final(self).here() == (DeploymentView { oldest_ledger, ..old(self).here() }),
    {
        self.with_deployment_mut().set_oldest_ledger(oldest_ledger)
    }

    fn set_archive_ready(&mut self) -> (r: Result<(), StorageError>)
        ensures
            r is Ok,
            differ_here_only(*old(self), *final(self)),
            final(self).here() == (DeploymentView { archive_ready: true, ..old(self).here() }),
    {
        self.with_deployment_mut().set_archive_ready()
    }

    fn upsert_events(&mut self, events: &[Event]) -> (r: Result<(), StorageError>)
        ensures
            r is Ok,
            differ_here_only(*old(self), *final(self)),
            final(self).here() == (DeploymentView {
                events: log::upsert(old(self).here().events, messages::event_views(events@)),
                ..old(self).here()
            }),
    {
        self.with_deployment_mut().upsert_events(events)
    }

    fn page_events_ledger(&self, start_ledger: u32, cutoff_ledger: u32, limit: u32) -> (r: Result<
        Vec<Event>,
        StorageError,
    >)
        ensures
            r matches Ok(page) && messages::event_views(page@) == log::ledger_page(
                self.here().events,
                start_ledger,
                cutoff_ledger,
                limit,
            ),
    {
        self.with_deployment().page_events_ledger(start_ledger, cutoff_ledger, limit)
    }

    fn page_events_cursor(&self, after_event_id: &str, cutoff_ledger: u32, limit: u32) -> (r:
        Result<(Option<u32>, Vec<Event>), StorageError>)
        ensures
            r matches Ok(found) && (found.0, messages::event_views(found.1@)) == log::cursor_page(
                self.here().events,
                after_event_id@,
                cutoff_ledger,
                limit,
            ),
    {
        self.with_deployment().page_events_cursor(after_event_id, cutoff_ledger, limit)
    }
}

impl<'a> Storage for Scope<'a> {
    open spec fn wf(&self) -> bool {
        self.backend.wf() && self.backend.has(self.id())
    }

    fn ping(&self) -> (r: Result<(), StorageError>)
        ensures
            r is Ok,
    {
        Ok(())
    }

    fn load_indexer_state(&self) -> (r: Result<IndexerState, StorageError>)
        ensures
            r matches Ok(s) && text::text_of(s.last_upstream_cursor)
                == self.here().last_upstream_cursor && s.ledger_tip == self.here().ledger_tip
                && s.oldest_ledger == self.here().oldest_ledger && s.archive_ready
                == self.here().archive_ready,
    {
        self.with_deployment().load_indexer_state()
    }

    fn set_last_upstream_cursor(&mut self, cursor: &str) -> (r: Result<(), StorageError>)
        ensures
            r is Ok,
            final(self).id() == old(self).id(),
            old(self).backend.differs_at(old(self).id(), *final(self).backend),
            *final(final(self).backend) == *final(old(self).backend),
            final(self).here() == (DeploymentView {
                last_upstream_cursor: Some(cursor@),
                ..old(self).here()
            }),
    {
        self.with_deployment_mut().set_last_upstream_cursor(cursor)
    }

    fn set_ledger_tip(&mut self, ledger_tip: u32) -> (r: Result<(), StorageError>)
        ensures
            r is Ok,
            final(self).id() == old(self).id(),
            old(self).backend.differs_at(old(self).id(), *final(self).backend),
            *final(final(self).backend) == *final(old(self).backend),
            final(self).here() == (DeploymentView { ledger_tip, ..old(self).here() }),
    {
        self.with_deployment_mut().set_ledger_tip(ledger_tip)
    }

    fn set_oldest_ledger(&mut self, oldest_ledger: u32) -> (r: Result<(), StorageError>)
        ensures
            r is Ok,
            final(self).id() == old(self).id(),
            old(self).backend.differs_at(old(self).id(), *final(self).backend),
            *final(final(self).backend) == *final(old(self).backend),
            final(self).here() == (DeploymentView { oldest_ledger, ..old(self).here() }),
    {
        self.with_deployment_mut().set_oldest_ledger(oldest_ledger)
    }

    fn set_archive_ready(&mut self) -> (r: Result<(), StorageError>)
        ensures
            r is Ok,
            final(self).id() == old(self).id(),
            old(self).backend.differs_at(old(self).id(), *final(self).backend),
            *final(final(self).backend) == *final(old(self).backend),
            final(self).here() == (DeploymentView { archive_ready: true, ..old(self).here() }),
    {
        self.with_deployment_mut().set_archive_ready()
    }

    fn upsert_events(&mut self, events: &[Event]) -> (r: Result<(), StorageError>)
        ensures
            r is Ok,
            final(self).id() == old(self).id(),
            old(self).backend.differs_at(old(self).id(), *final(self).backend),
            *final(final(self).backend) == *final(old(self).backend),
            final(self).here() == (DeploymentView {
                events: log::upsert(old(self).here().events, messages::event_views(events@)),
                ..old(self).here()
            }),
    {
        self.with_deployment_mut().upsert_events(events)
    }

    fn page_events_ledger(&self, start_ledger: u32, cutoff_ledger: u32, limit: u32) -> (r: Result<
        Vec<Event>,
        StorageError,
    >)
        ensures
            r matches Ok(page) && messages::event_views(page@) == log::ledger_page(
                self.here().events,
                start_ledger,
                cutoff_ledger,
                limit,
            ),
    {
        self.with_deployment().page_events_ledger(start_ledger, cutoff_ledger, limit)
    }

    fn page_events_cursor(&self, after_event_id: &str, cutoff_ledger: u32, limit: u32) -> (r:
        Result<(Option<u32>, Vec<Event>), StorageError>)
        ensures
            r matches Ok(found) && (found.0, messages::event_views(found.1@)) == log::cursor_page(
                self.here().events,
                after_event_id@,
                cutoff_ledger,
                limit,
            ),
    {
        self.with_deployment().page_events_cursor(after_event_id, cutoff_ledger, limit)
    }
}

} // verus!
