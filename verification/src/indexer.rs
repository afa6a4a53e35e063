//! The indexer: rounds that copy upstream events into the storage.
//!
//! A round is a state machine. It says what to do next, gets told how that
//! went, and goes on; fetching and storing are left to its driver.
use crate::config;
use crate::config::Config;
use crate::deployment::DeploymentSpec;
use crate::messages;
use crate::messages::{Event, EventView, GetEventsResponse};
use crate::node::{AppState, Bootnode, Published};
use crate::storage::in_memory::Namespace;
use crate::storage::log;
use crate::storage::{DeploymentView, IndexerState, Storage, StorageError};
use crate::text;
use crate::text::copy_of;
use vstd::prelude::*;

verus! {

/// What bounds a round.
#[derive(Debug, Clone, Copy, PartialEq, Eq, Structural)]
pub struct RoundLimits {
    /// Where indexing starts when no cursor is stored.
    pub min_deployment_ledger: u32,
    /// How many events are asked for at a time.
    pub page_size: u32,
    /// How many pages a round fetches at most.
    pub max_pages_per_round: u32,
    /// Redirect-window size in ledgers.
    pub cutoff_ledgers: u32,
}

impl RoundLimits {
    /// Takes the limits from the configuration.
    pub fn new(cfg: &Config, min_deployment_ledger: u32) -> (r: Self)
        ensures
            r.min_deployment_ledger == min_deployment_ledger,
            r.page_size == cfg.page_size,
            r.max_pages_per_round == cfg.max_pages_per_round,
            r.cutoff_ledgers == config::window_ledgers(cfg.redirect_days, cfg.ledger_seconds),
    {
        RoundLimits {
            min_deployment_ledger,
            page_size: cfg.page_size,
            max_pages_per_round: cfg.max_pages_per_round,
            cutoff_ledgers: cfg.cutoff_ledgers(),
        }
    }
}

/// What a round asks upstream for.
#[derive(Debug)]
pub struct PageQuery<'a> {
    /// The contracts whose events are asked for.
    pub contract_ids: &'a Vec<String>,
    pub start_ledger: Option<u32>,
    pub cursor: Option<String>,
    pub limit: u32,
}

/// What is to be done next in a round.
#[derive(Debug)]
pub enum Action<'a> {
    /// Ask upstream for the latest ledger.
    FetchLatestLedger,
    /// Store the ledger tip.
    StoreLedgerTip(u32),
    /// Load the progress of the indexer from the storage.
    LoadIndexerState,
    /// Ask upstream for a page of events.
    FetchEvents(PageQuery<'a>),
    /// Store the events of a page.
    UpsertEvents(Vec<Event>),
    /// Store the oldest ledger of upstream.
    StoreOldestLedger(u32),
    /// Store the cursor of the next page.
    StoreUpstreamCursor(String),
    /// Store that the archive is ready.
    StoreArchiveReady,
    /// The round is over: whether there may be more to index, or why it failed.
    Finish(Result<bool, String>),
}

/// How the last action went.
#[derive(Debug)]
pub enum RoundEvent {
    /// Upstream's latest ledger.
    LatestLedger(u32),
    /// The storage has stored it.
    Stored,
    /// The progress of the indexer.
    State(IndexerState),
    /// A page of events.
    Page(GetEventsResponse),
    /// The action failed, with this message.
    Failure(String),
}

/// What a round keeps of a page while it is stored.
#[derive(Debug)]
pub struct PageSummary {
    /// Where the next page starts.
    pub cursor: String,
    pub oldest_ledger: u32,
    /// Whether the page has left the cursor where it was: nothing newer is upstream.
    pub at_tail: bool,
    /// How far indexing has come with the page.
    pub progress_ledger: u32,
}

/// What a round waits for.
#[derive(Debug)]
pub enum Phase {
    LatestLedger,
    TipStored,
    StateLoaded,
    Page,
    EventsStored(PageSummary),
    OldestStored(PageSummary),
    CursorStored(PageSummary),
    ReadyStored(PageSummary),
    Over,
}

/// A round of indexing.
#[derive(Debug)]
pub struct Round<'a> {
    pub limits: RoundLimits,
    /// The contracts of the deployment.
    pub contract_ids: &'a Vec<String>,
    /// What request handlers are to see from now on.
    pub published: Published,
    pub phase: Phase,
    /// The retention cutoff of the round.
    pub cutoff: u32,
    pub cursor: Option<String>,
    pub start_ledger: Option<u32>,
    /// How many pages are done.
    pub pages: u32,
    pub may_have_more: bool,
}

/// What a round keeps of a page that it got for a cursor: it is the tail if
/// the cursor has not moved, and takes indexing to the ledger of its last
/// event, or to the latest ledger of upstream where it has none.
pub open spec fn summary(cursor: Option<String>, page: GetEventsResponse) -> PageSummary {
    PageSummary {
        cursor: page.cursor,
        oldest_ledger: page.oldest_ledger,
        at_tail: cursor is Some && cursor->0@ == page.cursor@,
        progress_ledger: if page.events@.len() == 0 {
            page.latest_ledger
        } else {
            page.events@.last().ledger
        },
    }
}

impl<'a> Round<'a> {
    /// Whether this can be how the last action went.
    pub open spec fn accepts(self, event: RoundEvent) -> bool {
        match self.phase {
            Phase::LatestLedger => event is LatestLedger || event is Failure,
            Phase::TipStored => event is Stored || event is Failure,
            Phase::StateLoaded => event is State || event is Failure,
            Phase::Page => event is Page || event is Failure,
            Phase::EventsStored(_) => event is Stored || event is Failure,
            Phase::OldestStored(_) => event is Stored || event is Failure,
            Phase::CursorStored(_) => event is Stored || event is Failure,
            Phase::ReadyStored(_) => event is Stored || event is Failure,
            Phase::Over => false,
        }
    }

    /// The beginning of a round.
    pub open spec fn first(
        limits: RoundLimits,
        contract_ids: &'a Vec<String>,
        published: Published,
    ) -> Round<'a> {
        Round {
            limits,
            contract_ids,
            published,
            phase: Phase::LatestLedger,
            cutoff: 0,
            cursor: None,
            start_ledger: None,
            pages: 0,
            may_have_more: false,
        }
    }

    /// Ends the round.
    pub open spec fn over(self, result: Result<bool, String>) -> (Round<'a>, Action<'a>) {
        (Round { phase: Phase::Over, ..self }, Action::Finish(result))
    }

    /// Fetches a page, if the round may fetch one more.
    pub open spec fn fetch(self) -> (Round<'a>, Action<'a>) {
        if self.pages < self.limits.max_pages_per_round {
            (
                Round { phase: Phase::Page, ..self },
                Action::FetchEvents(
                    PageQuery {
                        contract_ids: self.contract_ids,
                        start_ledger: self.start_ledger,
                        cursor: self.cursor,
                        limit: self.limits.page_size,
                    },
                ),
            )
        } else {
            self.over(Ok(self.may_have_more))
        }
    }

    /// Goes on from a page that is stored: ends at the tail, else fetches more.
    pub open spec fn page_done(self, page: PageSummary) -> (Round<'a>, Action<'a>) {
        if page.at_tail {
            Round { may_have_more: false, ..self }.over(Ok(false))
        } else {
            Round { may_have_more: true, pages: (self.pages + 1) as u32, ..self }.fetch()
        }
    }

    /// Stores the cursor of a page whose events are stored.
    pub open spec fn store_cursor(self, page: PageSummary) -> (Round<'a>, Action<'a>) {
        (
            Round { phase: Phase::CursorStored(page), ..self },
            Action::StoreUpstreamCursor(page.cursor),
        )
    }

    /// Whether the archive becomes ready with the page: indexing is at the tail
    /// of upstream, and past the cutoff, for the first time.
    pub open spec fn earns_ready(self, page: PageSummary) -> bool {
        !self.published.archive_ready && page.at_tail && page.progress_ledger >= self.cutoff
    }

    /// Goes on from a stored cursor.
    pub open spec fn cursor_stored(self, page: PageSummary) -> (Round<'a>, Action<'a>) {
        let next = Round { cursor: Some(page.cursor), start_ledger: None, ..self };
        if next.earns_ready(page) {
            (Round { phase: Phase::ReadyStored(page), ..next }, Action::StoreArchiveReady)
        } else {
            next.page_done(page)
        }
    }

    /// The round after the event, and what to do then.
    pub open spec fn next(self, event: RoundEvent) -> (Round<'a>, Action<'a>) {
        match (self.phase, event) {
            (_, RoundEvent::Failure(message)) => self.over(Err(message)),
            (Phase::LatestLedger, RoundEvent::LatestLedger(tip)) => (
                Round {
                    phase: Phase::TipStored,
                    published: Published { ledger_tip: tip, ..self.published },
                    cutoff: config::cutoff_of(tip, self.limits.cutoff_ledgers),
                    ..self
                },
                Action::StoreLedgerTip(tip),
            ),
            (Phase::TipStored, _) => (
                Round { phase: Phase::StateLoaded, ..self },
                Action::LoadIndexerState,
            ),
            (Phase::StateLoaded, RoundEvent::State(state)) => Round {
                cursor: state.last_upstream_cursor,
                start_ledger: if state.last_upstream_cursor is None {
                    Some(self.limits.min_deployment_ledger)
                } else {
                    None
                },
                ..self
            }.fetch(),
            (Phase::Page, RoundEvent::Page(page)) => (
                Round { phase: Phase::EventsStored(summary(self.cursor, page)), ..self },
                Action::UpsertEvents(page.events),
            ),
            (Phase::EventsStored(page), _) => if page.oldest_ledger > 0 {
                (
                    Round { phase: Phase::OldestStored(page), ..self },
                    Action::StoreOldestLedger(page.oldest_ledger),
                )
            } else {
                self.store_cursor(page)
            },
            (Phase::OldestStored(page), _) => Round {
                published: Published { oldest_ledger: page.oldest_ledger, ..self.published },
                ..self
            }.store_cursor(page),
            (Phase::CursorStored(page), _) => self.cursor_stored(page),
            (Phase::ReadyStored(page), _) => Round {
                published: Published { archive_ready: true, ..self.published },
                ..self
            }.page_done(page),
            _ => self.over(Ok(self.may_have_more)),
        }
    }

    /// What holds of a round throughout: it counts its pages within its
    /// limits, asks upstream either from a ledger or from a cursor, and is about
    /// to call the archive ready only where that is earned.
    pub open spec fn wf(self) -> bool {
        &&& self.pages <= self.limits.max_pages_per_round
        &&& match self.phase {
            Phase::LatestLedger => self.pages == 0 && !self.may_have_more,
            Phase::TipStored => self.pages == 0 && !self.may_have_more,
            Phase::StateLoaded => self.pages == 0 && !self.may_have_more,
            Phase::Page => self.in_page() && (self.start_ledger is Some <==> self.cursor is None),
            Phase::EventsStored(_) => self.in_page(),
            Phase::OldestStored(_) => self.in_page(),
            Phase::CursorStored(_) => self.in_page(),
            Phase::ReadyStored(page) => self.in_page() && self.earns_ready(page) && self.cursor
                == Some(page.cursor),
            Phase::Over => true,
        }
        &&& !(self.phase is LatestLedger) && !(self.phase is Over) ==> self.cutoff
            == config::cutoff_of(self.published.ledger_tip, self.limits.cutoff_ledgers)
    }

    /// Whether the round may be busy with a page.
    pub open spec fn in_page(self) -> bool {
        &&& self.pages < self.limits.max_pages_per_round
        &&& self.may_have_more <==> self.pages > 0
    }

    /// Begins a round.
    pub fn begin(limits: RoundLimits, contract_ids: &'a Vec<String>, published: Published) -> (r: (
        Round<'a>,
        Action<'a>,
    ))
        ensures
            r.0 == Self::first(limits, contract_ids, published),
            r.1 is FetchLatestLedger,
            r.0.wf(),
    {
        (
            Round {
                limits,
                contract_ids,
                published,
                phase: Phase::LatestLedger,
                cutoff: 0,
                cursor: None,
                start_ledger: None,
                pages: 0,
                may_have_more: false,
            },
            Action::FetchLatestLedger,
        )
    }

    fn into_over(self, result: Result<bool, String>) -> (r: (Round<'a>, Action<'a>))
        ensures
            r == self.over(result),
    {
        (Round { phase: Phase::Over, ..self }, Action::Finish(result))
    }

    fn into_fetch(self) -> (r: (Round<'a>, Action<'a>))
        ensures
            r == self.fetch(),
    {
        if self.pages < self.limits.max_pages_per_round {
            let query = PageQuery {
                contract_ids: self.contract_ids,
                start_ledger: self.start_ledger,
                cursor: copy_of(&self.cursor),
                limit: self.limits.page_size,
            };
            (Round { phase: Phase::Page, ..self }, Action::FetchEvents(query))
        } else {
            let more: bool = self.may_have_more;
            self.into_over(Ok(more))
        }
    }

    fn into_page_done(self, page: PageSummary) -> (r: (Round<'a>, Action<'a>))
        requires
            self.pages < self.limits.max_pages_per_round,
        ensures
            r == self.page_done(page),
    {
        if page.at_tail {
            Round { may_have_more: false, ..self }.into_over(Ok(false))
        } else {
            let pages: u32 = self.pages + 1;
            Round { may_have_more: true, pages, ..self }.into_fetch()
        }
    }

    fn into_store_cursor(self, page: PageSummary) -> (r: (Round<'a>, Action<'a>))
        ensures
            r == self.store_cursor(page),
    {
        let cursor = page.cursor.clone();
        (
            Round { phase: Phase::CursorStored(page), ..self },
            Action::StoreUpstreamCursor(cursor),
        )
    }

    fn into_cursor_stored(self, page: PageSummary) -> (r: (Round<'a>, Action<'a>))
        requires
            self.pages < self.limits.max_pages_per_round,
        ensures
            r == self.cursor_stored(page),
    {
        let next = Round { cursor: Some(page.cursor.clone()), start_ledger: None, ..self };
        if !next.published.archive_ready && page.at_tail && page.progress_ledger >= next.cutoff {
            (Round { phase: Phase::ReadyStored(page), ..next }, Action::StoreArchiveReady)
        } else {
            next.into_page_done(page)
        }
    }

    /// Goes on with the round, told how the last action went.
    pub fn step(self, event: RoundEvent) -> (r: (Round<'a>, Action<'a>))
        requires
            self.wf(),
            self.accepts(event),
        ensures
            r == self.next(event),
            r.0.wf(),
    {
        let Round {
            limits,
            contract_ids,
            published,
            phase,
            cutoff,
            cursor,
            start_ledger,
            pages,
            may_have_more,
        } = self;
        let rest = Round {
            limits,
            contract_ids,
            published,
            phase: Phase::Over,
            cutoff,
            cursor,
            start_ledger,
            pages,
            may_have_more,
        };
        match (phase, event) {
            (_, RoundEvent::Failure(message)) => rest.into_over(Err(message)),
            (Phase::LatestLedger, RoundEvent::LatestLedger(tip)) => (
                Round {
                    phase: Phase::TipStored,
                    published: Published { ledger_tip: tip, ..published },
                    cutoff: tip.saturating_sub(limits.cutoff_ledgers),
                    ..rest
                },
                Action::StoreLedgerTip(tip),
            ),
            (Phase::TipStored, _) => (
                Round { phase: Phase::StateLoaded, ..rest },
                Action::LoadIndexerState,
            ),
            (Phase::StateLoaded, RoundEvent::State(state)) => {
                let start_ledger: Option<u32> = if state.last_upstream_cursor.is_none() {
                    Some(limits.min_deployment_ledger)
                } else {
                    None
                };
                Round { cursor: state.last_upstream_cursor, start_ledger, ..rest }.into_fetch()
            },
            (Phase::Page, RoundEvent::Page(page)) => {
                let at_tail: bool = match &rest.cursor {
                    Some(previous) => *previous == page.cursor,
                    None => false,
                };
                let progress_ledger: u32 = if page.events.len() == 0 {
                    page.latest_ledger
                } else {
                    page.events[page.events.len() - 1].ledger
                };
                let summary = PageSummary {
                    cursor: page.cursor,
                    oldest_ledger: page.oldest_ledger,
                    at_tail,
                    progress_ledger,
                };
                (
                    Round { phase: Phase::EventsStored(summary), ..rest },
                    Action::UpsertEvents(page.events),
                )
            },
            (Phase::EventsStored(page), _) => {
                if page.oldest_ledger > 0 {
                    let oldest_ledger: u32 = page.oldest_ledger;
                    (
                        Round { phase: Phase::OldestStored(page), ..rest },
                        Action::StoreOldestLedger(oldest_ledger),
                    )
                } else {
                    rest.into_store_cursor(page)
                }
            },
            (Phase::OldestStored(page), _) => Round {
                published: Published { oldest_ledger: page.oldest_ledger, ..published },
                ..rest
            }.into_store_cursor(page),
            (Phase::CursorStored(page), _) => rest.into_cursor_stored(page),
            (Phase::ReadyStored(page), _) => Round {
                published: Published { archive_ready: true, ..published },
                ..rest
            }.into_page_done(page),
            _ => rest.into_over(Ok(may_have_more)),
        }
    }
}

/// How long the indexer rests after a round, and whether the round is counted
/// as failed.
#[derive(Debug, Clone, Copy, PartialEq, Eq, Structural)]
pub struct Pause {
    /// The milliseconds of the rest, none where there is no rest.
    pub millis: Option<u64>,
    pub failed: bool,
}

/// How long the indexer rests after a failed round, in milliseconds.
pub const FAILURE_PAUSE_MS: u64 = 2_000;

/// What follows a round: the next one at once where there may be more to
/// index, else after the configured rest, and after a failure after two seconds.
pub fn pause_after(result: &Result<bool, String>, indexer_sleep_ms: u64) -> (r: Pause)
    ensures
        r == rest(*result, indexer_sleep_ms),
        *result == Ok::<bool, String>(true) ==> r.millis is None,
        *result == Ok::<bool, String>(false) ==> r.millis == Some(indexer_sleep_ms),
        *result is Err ==> r.millis == Some(2_000u64),
        r.failed <==> *result is Err,
{
    match result {
        Ok(may_have_more) => {
            if *may_have_more {
                Pause { millis: None, failed: false }
            } else {
                Pause { millis: Some(indexer_sleep_ms), failed: false }
            }
        },
        Err(_) => Pause { millis: Some(FAILURE_PAUSE_MS), failed: true },
    }
}

/// The background indexer: round after round.
#[derive(Debug, Clone, Copy)]
pub struct Indexer<'a> {
    pub limits: RoundLimits,
    /// The contracts of the deployment.
    pub contract_ids: &'a Vec<String>,
    /// How long the indexer rests when it has caught up, in milliseconds.
    pub indexer_sleep_ms: u64,
}

/// How long the indexer rests after a round that ended like this.
pub open spec fn rest(result: Result<bool, String>, indexer_sleep_ms: u64) -> Pause {
    match result {
        Ok(true) => Pause { millis: None, failed: false },
        Ok(false) => Pause { millis: Some(indexer_sleep_ms), failed: false },
        Err(_) => Pause { millis: Some(FAILURE_PAUSE_MS), failed: true },
    }
}

impl<'a> Indexer<'a> {
    /// The indexer of a node.
    pub fn new(state: &'a AppState) -> (r: Self)
        ensures
            r.contract_ids == &state.contract_ids,
            r.indexer_sleep_ms == state.cfg.indexer_sleep_ms,
            r.limits.min_deployment_ledger == state.min_deployment_ledger,
            r.limits.page_size == state.cfg.page_size,
            r.limits.max_pages_per_round == state.cfg.max_pages_per_round,
            r.limits.cutoff_ledgers == config::window_ledgers(
                state.cfg.redirect_days,
                state.cfg.ledger_seconds,
            ),
    {
        Indexer {
            limits: RoundLimits::new(&state.cfg, state.min_deployment_ledger),
            contract_ids: &state.contract_ids,
            indexer_sleep_ms: state.cfg.indexer_sleep_ms,
        }
    }

    /// The first round.
    pub fn begin(&self, published: Published) -> (r: (Round<'a>, Action<'a>))
        ensures
            r.0 == Round::first(self.limits, self.contract_ids, published),
            r.1 is FetchLatestLedger,
            r.0.wf(),
    {
        Round::begin(self.limits, self.contract_ids, published)
    }

    /// What follows a round, however it ended: a rest, then another round.
    pub open spec fn following(
        self,
        result: Result<bool, String>,
        published: Published,
    ) -> (Pause, Round<'a>) {
        (
            rest(result, self.indexer_sleep_ms),
            Round::first(self.limits, self.contract_ids, published),
        )
    }

    /// Goes on from a round that is over: says how long to rest, and begins
    /// another round.
    pub fn run(&self, result: &Result<bool, String>, published: Published) -> (r: (
        Pause,
        Round<'a>,
        Action<'a>,
    ))
        ensures
            (r.0, r.1) == self.following(*result, published),
            r.2 is FetchLatestLedger,
            r.1.wf(),
    {
        let pause = pause_after(result, self.indexer_sleep_ms);
        let (round, action) = self.begin(published);
        (pause, round, action)
    }

    /// The round that the indexer is in after rounds that ended like this, one
    /// after the other, with what each left published.
    pub open spec fn round_after(
        self,
        published: Published,
        ended: Seq<(Result<bool, String>, Published)>,
    ) -> Round<'a> {
        if ended.len() == 0 {
            Round::first(self.limits, self.contract_ids, published)
        } else {
            let (result, left) = ended.last();
            self.following(result, left).1
        }
    }

    /// The indexer never stops by itself: however many rounds have ended, and
    /// however each did, another one is under way, over the same contracts and
    /// limits; the rest before it is none where there may be more, the configured
    /// one where indexing has caught up, and two seconds after a failure.
    pub proof fn another_round_follows(
        self,
        published: Published,
        ended: Seq<(Result<bool, String>, Published)>,
        message: String,
    )
        ensures
            ({
                let round = self.round_after(published, ended);
                &&& round.wf()
                &&& round.phase is LatestLedger
                &&& round.accepts(RoundEvent::Failure(message))
                &&& round.limits == self.limits
                &&& round.contract_ids == self.contract_ids
                &&& round.published == if ended.len() == 0 {
                    published
                } else {
                    ended.last().1
                }
            }),
            forall|result: Result<bool, String>, left: Published|
                (#[trigger] self.following(result, left)).0.millis == (match result {
                    Ok(true) => None::<u64>,
                    Ok(false) => Some(self.indexer_sleep_ms),
                    Err(_) => Some(2_000u64),
                }),
            forall|result: Result<bool, String>, left: Published|
                (#[trigger] self.following(result, left)).0.failed <==> result is Err,
    {
    }
}

impl<'a> Round<'a> {
    /// The archive becomes ready only when indexing is at the tail of upstream
    /// and past the cutoff, and after the storage has recorded it; once ready,
    /// it stays so.
    pub proof fn readiness_is_earned_and_kept(self, event: RoundEvent)
        requires
            self.wf(),
            self.accepts(event),
        ensures
            self.published.archive_ready ==> self.next(event).0.published.archive_ready,
            !self.published.archive_ready && self.next(event).0.published.archive_ready ==> {
                &&& event is Stored
                &&& self.phase matches Phase::ReadyStored(page)
                &&& page.at_tail
                &&& page.progress_ledger >= config::cutoff_of(
                    self.published.ledger_tip,
                    self.limits.cutoff_ledgers,
                )
            },
    {
    }

    /// Whatever fails, the round ends with that failure and publishes nothing more.
    pub proof fn failure_ends_the_round(self, message: String)
        ensures
            self.next(RoundEvent::Failure(message)).1 == Action::Finish(Err(message)),
            self.next(RoundEvent::Failure(message)).0.published == self.published,
            self.next(RoundEvent::Failure(message)).0.phase is Over,
    {
    }

    /// Upstream is asked for events of the deployment's contracts, in pages of
    /// the configured size, from a cursor or, where there is none, from the first
    /// ledger of the deployment.
    pub proof fn asks_from_one_place(self, event: RoundEvent)
        requires
            self.wf(),
            self.accepts(event),
        ensures
            self.next(event).1 matches Action::FetchEvents(query) ==> {
                &&& query.contract_ids == self.contract_ids
                &&& query.limit == self.limits.page_size
                &&& query.cursor is None ==> query.start_ledger == Some(
                    self.limits.min_deployment_ledger,
                )
                &&& query.cursor is Some ==> query.start_ledger is None
            },
    {
    }

    /// A round says that there may be more exactly when it has used up its
    /// pages without coming to the tail of upstream.
    pub proof fn more_is_said_when_pages_run_out(self, event: RoundEvent)
        requires
            self.wf(),
            self.accepts(event),
        ensures
            self.next(event).1 matches Action::Finish(Ok(more)) ==> {
                let page = match self.phase {
                    Phase::CursorStored(page) => Some(page),
                    Phase::ReadyStored(page) => Some(page),
                    _ => None,
                };
                &&& more <==> page is Some && !page->0.at_tail
                &&& more ==> self.next(event).0.pages == self.limits.max_pages_per_round
                &&& !more ==> (page is Some && page->0.at_tail)
                    || self.limits.max_pages_per_round == 0
            },
    {
    }

    /// The round after a run of events.
    pub open spec fn after(self, events: Seq<RoundEvent>) -> Round<'a>
        decreases events.len(),
    {
        if events.len() == 0 {
            self
        } else {
            self.after(events.drop_last()).next(events.last()).0
        }
    }

    /// Whether each of the events can follow those before it.
    pub open spec fn accepts_all(self, events: Seq<RoundEvent>) -> bool
        decreases events.len(),
    {
        events.len() == 0 || (self.accepts_all(events.drop_last()) && self.after(
            events.drop_last(),
        ).accepts(events.last()))
    }

    /// How many pages the round asks for in a run of events.
    pub open spec fn fetches(self, events: Seq<RoundEvent>) -> nat
        decreases events.len(),
    {
        if events.len() == 0 {
            0
        } else {
            self.fetches(events.drop_last()) + if self.after(events.drop_last()).next(
                events.last(),
            ).1 is FetchEvents {
                1nat
            } else {
                0
            }
        }
    }

    /// Each step keeps what holds of a round throughout.
    pub proof fn step_keeps_wf(self, event: RoundEvent)
        requires
            self.wf(),
            self.accepts(event),
        ensures
            self.next(event).0.wf(),
            self.next(event).0.limits == self.limits,
            self.next(event).0.contract_ids == self.contract_ids,
    {
    }

    spec fn fetched_at_most(self) -> nat {
        match self.phase {
            Phase::LatestLedger | Phase::TipStored | Phase::StateLoaded => 0,
            Phase::Over => self.limits.max_pages_per_round as nat,
            _ => (self.pages + 1) as nat,
        }
    }

    proof fn fetches_counted(self, events: Seq<RoundEvent>)
        requires
            self.wf(),
            self.phase is LatestLedger,
            self.accepts_all(events),
        ensures
            self.after(events).wf(),
            self.after(events).limits == self.limits,
            self.fetches(events) <= self.after(events).fetched_at_most(),
            self.after(events).fetched_at_most() <= self.limits.max_pages_per_round,
        decreases events.len(),
    {
        if events.len() > 0 {
            let before = self.after(events.drop_last());
            self.fetches_counted(events.drop_last());
            before.step_keeps_wf(events.last());
        }
    }

    spec fn events_left(self) -> int {
        let pages = 5 * (self.limits.max_pages_per_round - self.pages);
        match self.phase {
            Phase::LatestLedger => pages + 3,
            Phase::TipStored => pages + 2,
            Phase::StateLoaded => pages + 1,
            Phase::Page => pages,
            Phase::EventsStored(_) => pages - 1,
            Phase::OldestStored(_) => pages - 2,
            Phase::CursorStored(_) => pages - 3,
            Phase::ReadyStored(_) => pages - 4,
            Phase::Over => 0,
        }
    }

    proof fn events_counted(self, events: Seq<RoundEvent>)
        requires
            self.wf(),
            self.phase is LatestLedger,
            self.accepts_all(events),
        ensures
            self.after(events).wf(),
            self.after(events).limits == self.limits,
            events.len() + self.after(events).events_left() <= self.events_left(),
        decreases events.len(),
    {
        if events.len() > 0 {
            let before = self.after(events.drop_last());
            self.events_counted(events.drop_last());
            before.step_keeps_wf(events.last());
        }
    }

    /// A round comes to an end: it takes three events and five for each page at
    /// most, and until it is over it waits for one that can come.
    pub proof fn round_ends(self, events: Seq<RoundEvent>, message: String)
        requires
            self.wf(),
            self.phase is LatestLedger,
            self.accepts_all(events),
        ensures
            events.len() <= 3 + 5 * self.limits.max_pages_per_round,
            self.after(events).phase is Over || self.after(events).accepts(
                RoundEvent::Failure(message),
            ),
    {
        self.events_counted(events);
    }

    /// However a round goes, it asks for no more pages than it may.
    pub proof fn pages_are_bounded(self, events: Seq<RoundEvent>)
        requires
            self.wf(),
            self.phase is LatestLedger,
            self.accepts_all(events),
        ensures
            self.after(events).wf(),
            self.fetches(events) <= self.limits.max_pages_per_round,
    {
        self.fetches_counted(events);
    }
}

impl<'a> Round<'a> {
    /// A round begins with nothing done and what is published as it was.
    pub proof fn round_starts_afresh(
        limits: RoundLimits,
        contract_ids: &'a Vec<String>,
        published: Published,
    )
        ensures
            ({
                let r = Self::first(limits, contract_ids, published);
                &&& r.limits == limits
                &&& r.contract_ids == contract_ids
                &&& r.published == published
                &&& r.phase is LatestLedger
                &&& r.pages == 0
                &&& !r.may_have_more
            }),
    {
    }

    /// A round takes a failure at any time until it is over, and otherwise the
    /// answer to what it asked for.
    pub proof fn answers_are_accepted(self, event: RoundEvent)
        ensures
            self.accepts(event) <==> !(self.phase is Over) && (event is Failure || (event
                is LatestLedger && self.phase is LatestLedger) || (event is State && self.phase
                is StateLoaded) || (event is Page && self.phase is Page) || (event is Stored && (
            self.phase is TipStored || self.phase is EventsStored || self.phase is OldestStored
                || self.phase is CursorStored || self.phase is ReadyStored))),
    {
    }

    /// A round opens by publishing and storing the latest ledger; then it loads
    /// the stored progress and asks upstream from the stored cursor, or from the
    /// first ledger of the deployment where there is none. With no page to fetch
    /// it ends there.
    pub proof fn round_opens(self, tip: u32, state: IndexerState)
        requires
            self.wf(),
            self.phase is LatestLedger,
        ensures
            ({
                let a = self.next(RoundEvent::LatestLedger(tip));
                let b = a.0.next(RoundEvent::Stored);
                let c = b.0.next(RoundEvent::State(state));
                &&& a.1 == Action::<'a>::StoreLedgerTip(tip)
                &&& a.0.published.ledger_tip == tip
                &&& a.0.published.oldest_ledger == self.published.oldest_ledger
                &&& a.0.published.archive_ready == self.published.archive_ready
                &&& b.1 is LoadIndexerState
                &&& b.0.published == a.0.published
                &&& c.0.published == a.0.published
                &&& self.limits.max_pages_per_round == 0 ==> c.1 == Action::<'a>::Finish(Ok(false))
                &&& self.limits.max_pages_per_round > 0 ==> {
                    &&& c.0.phase is Page
                    &&& c.0.cursor == state.last_upstream_cursor
                    &&& c.0.pages == 0
                    &&& c.1 matches Action::FetchEvents(q)
                    &&& q.contract_ids == self.contract_ids
                    &&& q.limit == self.limits.page_size
                    &&& q.cursor == state.last_upstream_cursor
                    &&& state.last_upstream_cursor is Some ==> q.start_ledger is None
                    &&& state.last_upstream_cursor is None ==> q.start_ledger == Some(
                        self.limits.min_deployment_ledger,
                    )
                }
            }),
    {
    }

    /// The events of a page are stored whole, before anything else is done.
    pub proof fn page_is_handed_to_the_storage(self, page: GetEventsResponse)
        requires
            self.wf(),
            self.phase is Page,
        ensures
            ({
                let a = self.next(RoundEvent::Page(page));
                &&& a.1 == Action::<'a>::UpsertEvents(page.events)
                &&& a.0.published == self.published
                &&& a.0.phase matches Phase::EventsStored(kept)
                &&& kept.cursor == page.cursor
                &&& kept.oldest_ledger == page.oldest_ledger
                &&& kept.at_tail <==> self.cursor is Some && self.cursor->0@ == page.cursor@
                &&& page.events@.len() == 0 ==> kept.progress_ledger == page.latest_ledger
                &&& page.events@.len() > 0 ==> kept.progress_ledger
                    == page.events@[page.events@.len() - 1].ledger
            }),
    {
    }

    /// A page whose cursor is not the one that was asked from, or that was asked
    /// for without a cursor, is not the tail, be it empty: its oldest ledger, if
    /// it says one, and its cursor are stored, the archive is not called ready,
    /// and the round goes on from that cursor, or, out of pages, says that there
    /// may be more.
    pub proof fn moved_cursor_goes_on(self, page: GetEventsResponse)
        requires
            self.wf(),
            self.phase is Page,
            self.cursor is None || self.cursor->0@ != page.cursor@,
        ensures
            ({
                let a = self.next(RoundEvent::Page(page)).0.next(RoundEvent::Stored);
                let b = if page.oldest_ledger > 0 {
                    a.0.next(RoundEvent::Stored)
                } else {
                    a
                };
                let c = b.0.next(RoundEvent::Stored);
                &&& page.oldest_ledger > 0 ==> a.1 == Action::<'a>::StoreOldestLedger(
                    page.oldest_ledger,
                )
                &&& b.1 == Action::<'a>::StoreUpstreamCursor(page.cursor)
                &&& c.0.published.ledger_tip == self.published.ledger_tip
                &&& c.0.published.oldest_ledger == (if page.oldest_ledger > 0 {
                    page.oldest_ledger
                } else {
                    self.published.oldest_ledger
                })
                &&& c.0.published.archive_ready == self.published.archive_ready
                &&& self.pages + 1 < self.limits.max_pages_per_round ==> {
                    &&& c.1 matches Action::FetchEvents(q)
                    &&& q.cursor == Some(page.cursor)
                    &&& q.start_ledger is None
                    &&& q.limit == self.limits.page_size
                    &&& q.contract_ids == self.contract_ids
                    &&& c.0.phase is Page
                    &&& c.0.cursor == Some(page.cursor)
                    &&& c.0.pages == self.pages + 1
                }
                &&& self.pages + 1 >= self.limits.max_pages_per_round ==> c.1
                    == Action::<'a>::Finish(Ok(true))
            }),
    {
    }

    /// A page whose cursor is the one that was asked from is the tail, be it full
    /// of events: its oldest ledger, if it says one, and its cursor are stored,
    /// and the round ends with nothing more to index. Where the archive is not
    /// ready, and the window reaches from the last event of the page, or from the
    /// latest ledger of an empty one, to the tip, it is first stored and then
    /// published as ready; otherwise that stays as it is.
    pub proof fn unmoved_cursor_is_the_tail(self, page: GetEventsResponse)
        requires
            self.wf(),
            self.phase is Page,
            self.cursor is Some,
            self.cursor->0@ == page.cursor@,
        ensures
            ({
                let a = self.next(RoundEvent::Page(page)).0.next(RoundEvent::Stored);
                let b = if page.oldest_ledger > 0 {
                    a.0.next(RoundEvent::Stored)
                } else {
                    a
                };
                let c = b.0.next(RoundEvent::Stored);
                let d = c.0.next(RoundEvent::Stored);
                let reached = if page.events@.len() == 0 {
                    page.latest_ledger
                } else {
                    page.events@[page.events@.len() - 1].ledger
                };
                let earned = !self.published.archive_ready && reached + self.limits.cutoff_ledgers
                    >= self.published.ledger_tip;
                &&& page.oldest_ledger > 0 ==> a.1 == Action::<'a>::StoreOldestLedger(
                    page.oldest_ledger,
                )
                &&& b.1 == Action::<'a>::StoreUpstreamCursor(page.cursor)
                &&& b.0.published.oldest_ledger == (if page.oldest_ledger > 0 {
                    page.oldest_ledger
                } else {
                    self.published.oldest_ledger
                })
                &&& c.0.published == b.0.published
                &&& c.0.published.ledger_tip == self.published.ledger_tip
                &&& c.0.published.archive_ready == self.published.archive_ready
                &&& !earned ==> c.1 == Action::<'a>::Finish(Ok(false))
                &&& earned ==> c.1 is StoreArchiveReady && d.1 == Action::<'a>::Finish(Ok(false))
                    && d.0.published.archive_ready && d.0.published.ledger_tip
                    == self.published.ledger_tip && d.0.published.oldest_ledger
                    == b.0.published.oldest_ledger
            }),
    {
    }

    /// What is published changes only when it is due: the tip when upstream says
    /// it, the oldest ledger and the readiness once they are stored.
    pub proof fn publishes_when_due(self, event: RoundEvent)
        requires
            self.wf(),
            self.accepts(event),
        ensures
            ({
                let p = self.next(event).0.published;
                &&& p.ledger_tip == match event {
                    RoundEvent::LatestLedger(tip) => tip,
                    _ => self.published.ledger_tip,
                }
                &&& p.oldest_ledger == match (self.phase, event) {
                    (Phase::OldestStored(page), RoundEvent::Stored) => page.oldest_ledger,
                    _ => self.published.oldest_ledger,
                }
                &&& p.archive_ready <==> self.published.archive_ready || (self.phase is ReadyStored
                    && event is Stored)
            }),
    {
    }
}

/// What storing does to what is kept for the deployment, in a storage that
/// knows events again by this key.
pub open spec fn stored(key: log::Key, store: DeploymentView, action: Action) -> DeploymentView {
    match action {
        Action::StoreLedgerTip(ledger_tip) => DeploymentView { ledger_tip, ..store },
        Action::UpsertEvents(events) => DeploymentView {
            events: key.upsert(store.events, messages::event_views(events@)),
            ..store
        },
        Action::StoreOldestLedger(oldest_ledger) => DeploymentView { oldest_ledger, ..store },
        Action::StoreUpstreamCursor(cursor) => DeploymentView {
            last_upstream_cursor: Some(cursor@),
            ..store
        },
        Action::StoreArchiveReady => DeploymentView { archive_ready: true, ..store },
        _ => store,
    }
}

/// Each thing that is stored is read back as it was given, and changes nothing
/// else; events go into the log; what is not for the storage changes nothing.
pub proof fn storing_changes_one_thing(
    store: DeploymentView,
    ledger: u32,
    cursor: String,
    events: Vec<Event>,
)
    ensures
        ({
            let key = log::Key::LedgerAndId;
            let tip = stored(key, store, Action::StoreLedgerTip(ledger));
            let oldest = stored(key, store, Action::StoreOldestLedger(ledger));
            let upstream = stored(key, store, Action::StoreUpstreamCursor(cursor));
            let ready = stored(key, store, Action::StoreArchiveReady);
            let log = stored(key, store, Action::UpsertEvents(events));
            &&& tip.ledger_tip == ledger
            &&& tip.oldest_ledger == store.oldest_ledger
            &&& tip.last_upstream_cursor == store.last_upstream_cursor
            &&& tip.archive_ready == store.archive_ready
            &&& tip.events == store.events
            &&& oldest.oldest_ledger == ledger
            &&& oldest.ledger_tip == store.ledger_tip
            &&& oldest.last_upstream_cursor == store.last_upstream_cursor
            &&& oldest.archive_ready == store.archive_ready
            &&& oldest.events == store.events
            &&& upstream.last_upstream_cursor == Some(cursor@)
            &&& upstream.ledger_tip == store.ledger_tip
            &&& upstream.oldest_ledger == store.oldest_ledger
            &&& upstream.archive_ready == store.archive_ready
            &&& upstream.events == store.events
            &&& ready.archive_ready
            &&& ready.ledger_tip == store.ledger_tip
            &&& ready.oldest_ledger == store.oldest_ledger
            &&& ready.last_upstream_cursor == store.last_upstream_cursor
            &&& ready.events == store.events
            &&& log.events == log::upsert(store.events, messages::event_views(events@))
            &&& log.ledger_tip == store.ledger_tip
            &&& log.oldest_ledger == store.oldest_ledger
            &&& log.last_upstream_cursor == store.last_upstream_cursor
            &&& log.archive_ready == store.archive_ready
            &&& stored(key, store, Action::LoadIndexerState) == store
        }),
{
}

/// How a storage says that it has stored, or why it has not.
fn said(result: Result<(), StorageError>) -> (r: RoundEvent)
    ensures
        match result {
            Ok(()) => r is Stored,
            Err(e) => r matches RoundEvent::Failure(message) && message@ == e.text(),
        },
{
    match result {
        Ok(()) => RoundEvent::Stored,
        Err(e) => RoundEvent::Failure(e.message()),
    }
}

impl<'a> Action<'a> {
    /// Whether the action is one for the storage.
    pub open spec fn is_for_storage(self) -> bool {
        match self {
            Action::FetchLatestLedger => false,
            Action::FetchEvents(_) => false,
            Action::Finish(_) => false,
            _ => true,
        }
    }

    /// All but asking upstream and finishing is for the storage.
    pub proof fn upstream_is_not_the_storage(self)
        ensures
            self.is_for_storage() <==> !(self is FetchLatestLedger || self is FetchEvents || self
                is Finish),
    {
    }

    /// Performs the action on a namespace in memory, where it is one for the
    /// storage, and says how that went.
    pub fn perform_in_memory(&self, storage: &mut Namespace) -> (r: Option<RoundEvent>)
        requires
            old(storage).wf(),
        ensures
            final(storage).wf(),
            final(storage).id() == old(storage).id(),
            final(storage).kept() == stored(log::Key::LedgerAndId, old(storage).kept(), *self),
            r is Some <==> self.is_for_storage(),
            r matches Some(event) ==> if self is LoadIndexerState {
                event matches RoundEvent::State(state) && text::text_of(state.last_upstream_cursor)
                    == old(storage).kept().last_upstream_cursor && state.ledger_tip == old(
                    storage,
                ).kept().ledger_tip && state.oldest_ledger == old(storage).kept().oldest_ledger
                    && state.archive_ready == old(storage).kept().archive_ready
            } else {
                event is Stored
            },
    {
        match self {
            Action::StoreLedgerTip(ledger_tip) => Some(said(storage.set_ledger_tip(*ledger_tip))),
            Action::LoadIndexerState => Some(
                match storage.load_indexer_state() {
                    Ok(state) => RoundEvent::State(state),
                    Err(e) => RoundEvent::Failure(e.message()),
                },
            ),
            Action::UpsertEvents(events) => Some(said(storage.upsert_events(events.as_slice()))),
            Action::StoreOldestLedger(oldest_ledger) => Some(
                said(storage.set_oldest_ledger(*oldest_ledger)),
            ),
            Action::StoreUpstreamCursor(cursor) => Some(
                said(storage.set_last_upstream_cursor(cursor.as_str())),
            ),
            Action::StoreArchiveReady => Some(said(storage.set_archive_ready())),
            _ => None,
        }
    }
}

/// What a write that failed may have left: nothing of it, all of it where only
/// the reply was lost, or a beginning of a batch of events.
pub open spec fn may_remain(
    key: log::Key,
    store: DeploymentView,
    action: Action,
    left: DeploymentView,
) -> bool {
    ||| left == store
    ||| left == stored(key, store, action)
    ||| action matches Action::UpsertEvents(events) && exists|n: int|
        0 <= n <= events@.len() && left == #[trigger] partly_stored(key, store, events, n)
}

/// What is kept when the first `n` of the events are stored and no more.
pub open spec fn partly_stored(
    key: log::Key,
    store: DeploymentView,
    events: Vec<Event>,
    n: int,
) -> DeploymentView {
    DeploymentView {
        events: key.upsert(store.events, messages::event_views(events@).take(n)),
        ..store
    }
}

/// A round together with the storage that it writes to, its action under way,
/// and the last page it got.
pub struct Indexing<'a> {
    /// By what the storage knows events again.
    pub key: log::Key,
    pub round: Round<'a>,
    pub store: DeploymentView,
    pub pending: Action<'a>,
    pub page: Option<GetEventsResponse>,
    /// Whether the last write of the oldest ledger failed, so that it may or may
    /// not have been stored.
    pub oldest_in_doubt: bool,
}

/// Whether the storage has every event of the page, or one that it takes for it.
pub open spec fn page_is_stored(
    key: log::Key,
    store: DeploymentView,
    page: GetEventsResponse,
) -> bool {
    forall|i: int|
        0 <= i < page.events@.len() ==> key.known(store.events, (#[trigger] page.events@[i])@)
}

impl<'a> Indexing<'a> {
    /// A round that begins over a storage.
    pub open spec fn first(
        key: log::Key,
        limits: RoundLimits,
        contract_ids: &'a Vec<String>,
        published: Published,
        store: DeploymentView,
        oldest_in_doubt: bool,
    ) -> Indexing<'a> {
        Indexing {
            key,
            round: Round::first(limits, contract_ids, published),
            store,
            pending: Action::FetchLatestLedger,
            page: None,
            oldest_in_doubt,
        }
    }

    /// The storage and the round after an event that leaves the storage like this.
    pub open spec fn next(self, event: RoundEvent, left: DeploymentView) -> Indexing<'a> {
        Indexing {
            key: self.key,
            round: self.round.next(event).0,
            pending: self.round.next(event).1,
            store: left,
            page: match event {
                RoundEvent::Page(page) => Some(page),
                _ => self.page,
            },
            oldest_in_doubt: if self.pending is StoreOldestLedger {
                event is Failure
            } else {
                self.oldest_in_doubt
            },
        }
    }

    /// Whether the event can come and leave the storage like this: what is
    /// loaded is what is stored; a storage has stored what it says it has; where
    /// it failed, it may have stored all, nothing, or a beginning. An event that
    /// the storage takes for one that it has counts as stored and changes
    /// nothing: a storage that knows events by their identifiers alone keeps the
    /// old event where an identifier comes again at another ledger.
    pub open spec fn can_come(self, event: RoundEvent, left: DeploymentView) -> bool {
        &&& self.round.accepts(event)
        &&& match event {
            RoundEvent::Stored => left == stored(self.key, self.store, self.pending),
            RoundEvent::Failure(_) => may_remain(self.key, self.store, self.pending, left),
            RoundEvent::State(state) => left == self.store && text::text_of(
                state.last_upstream_cursor,
            ) == self.store.last_upstream_cursor,
            _ => left == self.store,
        }
    }

    /// What holds of a round and its storage throughout. The storage is never
    /// behind what is published, but for a tip that is just being stored or an
    /// oldest ledger whose write failed; the round goes on from the stored
    /// cursor; and a cursor is stored only after the events before it.
    pub open spec fn in_step(self) -> bool {
        let cursor_kept = text::text_of(self.round.cursor) == self.store.last_upstream_cursor;
        let tip_kept = self.round.published.ledger_tip == self.store.ledger_tip;
        &&& self.round.wf()
        &&& log::ordered(self.store.events)
        &&& self.round.published.archive_ready ==> self.store.archive_ready
        &&& !self.oldest_in_doubt ==> self.round.published.oldest_ledger == self.store.oldest_ledger
        &&& match self.round.phase {
            Phase::LatestLedger => self.pending is FetchLatestLedger,
            Phase::TipStored => self.pending == Action::StoreLedgerTip(
                self.round.published.ledger_tip,
            ),
            Phase::StateLoaded => self.pending is LoadIndexerState && tip_kept,
            Phase::Page => self.pending is FetchEvents && tip_kept && cursor_kept,
            Phase::EventsStored(page) => tip_kept && cursor_kept && self.page is Some && page
                == summary(self.round.cursor, self.page->0) && self.pending
                == Action::UpsertEvents(self.page->0.events),
            Phase::OldestStored(page) => tip_kept && cursor_kept && self.page is Some && page.cursor
                == self.page->0.cursor && page_is_stored(self.key, self.store, self.page->0) && self.pending
                == Action::StoreOldestLedger(page.oldest_ledger),
            Phase::CursorStored(page) => tip_kept && cursor_kept && self.page is Some && page.cursor
                == self.page->0.cursor && page_is_stored(self.key, self.store, self.page->0) && self.pending
                == Action::StoreUpstreamCursor(page.cursor),
            Phase::ReadyStored(page) => tip_kept && cursor_kept && self.pending
                is StoreArchiveReady,
            Phase::Over => self.pending is Finish,
        }
    }

    /// A round over a storage begins in step with it, where what is published
    /// is what it kept.
    pub proof fn begins_in_step(
        key: log::Key,
        limits: RoundLimits,
        contract_ids: &'a Vec<String>,
        published: Published,
        store: DeploymentView,
        oldest_in_doubt: bool,
    )
        requires
            log::ordered(store.events),
            published.archive_ready ==> store.archive_ready,
            !oldest_in_doubt ==> published.oldest_ledger == store.oldest_ledger,
        ensures
            Self::first(key, limits, contract_ids, published, store, oldest_in_doubt).in_step(),
    {
    }

    /// A node that was set up from what its storage kept begins its first round
    /// in step with the storage.
    pub proof fn node_begins_in_step(
        cfg: Config,
        state: IndexerState,
        deployment: DeploymentSpec,
        key: log::Key,
        limits: RoundLimits,
        contract_ids: &'a Vec<String>,
        store: DeploymentView,
    )
        requires
            log::ordered(store.events),
            state.oldest_ledger == store.oldest_ledger,
            state.archive_ready == store.archive_ready,
        ensures
            Self::first(
                key,
                limits,
                contract_ids,
                Bootnode::over(cfg, state, deployment).state.published,
                store,
                false,
            ).in_step(),
    {
    }

    /// However far a round has come when it is left, the next one begins in
    /// step with the storage.
    pub proof fn next_round_begins_in_step(
        self,
        limits: RoundLimits,
        contract_ids: &'a Vec<String>,
    )
        requires
            self.in_step(),
        ensures
            Self::first(
                self.key,
                limits,
                contract_ids,
                self.round.published,
                self.store,
                self.oldest_in_doubt,
            ).in_step(),
    {
    }

    /// A round stays in step with its storage, however it goes, and whatever a
    /// write that failed has left behind. So at any moment the storage can be
    /// left as it is, and the next round goes on from it without missing an
    /// event.
    pub proof fn stays_in_step(self, event: RoundEvent, left: DeploymentView)
        requires
            self.in_step(),
            self.can_come(event, left),
        ensures
            self.next(event, left).in_step(),
            self.next(event, left).pending matches Action::StoreUpstreamCursor(cursor) ==> {
                &&& self.next(event, left).page is Some
                &&& cursor == self.next(event, left).page->0.cursor
                &&& page_is_stored(self.key, left, self.next(event, left).page->0)
            },
    {
        self.round.step_keeps_wf(event);
        if self.round.phase is EventsStored {
            let page = self.page->0;
            let batch = messages::event_views(page.events@);
            self.key.upsert_keeps_and_adds(self.store.events, batch);
            if event is Stored {
                assert forall|i: int| 0 <= i < page.events@.len() implies self.key.known(
                    left.events,
                    (#[trigger] page.events@[i])@,
                ) by {
                    assert(batch[i] == page.events@[i]@);
                }
            } else if left != self.store && left != stored(self.key, self.store, self.pending) {
                let n = choose|n: int|
                    0 <= n <= page.events@.len() && left == #[trigger] partly_stored(
                        self.key,
                        self.store,
                        page.events,
                        n,
                    );
                self.key.upsert_keeps_and_adds(self.store.events, batch.take(n));
            }
        }
    }

    /// Nothing that was stored is ever lost or changed by a round, whatever fails.
    pub proof fn stored_events_stay(self, event: RoundEvent, left: DeploymentView, x: EventView)
        requires
            self.in_step(),
            self.can_come(event, left),
            self.store.events.contains(x),
        ensures
            self.next(event, left).store.events.contains(x),
    {
        if self.round.phase is EventsStored {
            let page = self.page->0;
            let batch = messages::event_views(page.events@);
            self.key.upsert_keeps_and_adds(self.store.events, batch);
            if left != self.store && left != stored(self.key, self.store, self.pending) {
                let n = choose|n: int|
                    0 <= n <= page.events@.len() && left == #[trigger] partly_stored(
                        self.key,
                        self.store,
                        page.events,
                        n,
                    );
                self.key.upsert_keeps_and_adds(self.store.events, batch.take(n));
            }
        }
    }

    /// Where storing a page breaks off after any number of its events, the round
    /// ends in step with the storage, the next one begins in step with it, from
    /// the cursor before the page, and nothing that was stored is lost.
    pub proof fn broken_upsert_loses_nothing(self, message: String, n: int)
        requires
            self.in_step(),
            self.round.phase is EventsStored,
            0 <= n <= self.page->0.events@.len(),
        ensures
            ({
                let left = partly_stored(self.key, self.store, self.page->0.events, n);
                let after = self.next(RoundEvent::Failure(message), left);
                &&& after.in_step()
                &&& after.pending == Action::<'a>::Finish(Err(message))
                &&& left.last_upstream_cursor == self.store.last_upstream_cursor
                &&& Self::first(
                    self.key,
                    self.round.limits,
                    self.round.contract_ids,
                    after.round.published,
                    left,
                    after.oldest_in_doubt,
                ).in_step()
                &&& forall|x: EventView|
                    self.store.events.contains(x) ==> #[trigger] left.events.contains(x)
            }),
    {
        let left = partly_stored(self.key, self.store, self.page->0.events, n);
        assert(may_remain(self.key, self.store, self.pending, left));
        self.stays_in_step(RoundEvent::Failure(message), left);
        self.key.upsert_keeps_and_adds(
            self.store.events,
            messages::event_views(self.page->0.events@).take(n),
        );
    }
}

} // verus!
