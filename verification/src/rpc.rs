//! What requests are answered.
use crate::config;
use crate::messages;
use crate::messages::{Event, EventView, GetLatestLedgerResponse};
use crate::node::{AppState, Published};
use crate::storage::in_memory::Namespace;
use crate::storage::log;
use crate::storage::Storage;
use crate::text;
use vstd::prelude::*;

verus! {

/// `-32004`: bootnode warming up (unknown tip or pre-cutoff archive not ready).
pub const WARMING_UP_CODE: i32 = -32_004;

/// `-32002`: resume `getEvents` on the wallet RPC from `fromLedger`.
pub const RETENTION_HANDOFF_CODE: i32 = -32_002;

/// `-32602`: the parameters of a request are not served.
pub const INVALID_PARAMS_CODE: i32 = -32_602;

/// `-32603`: the node failed.
pub const INTERNAL_ERROR_CODE: i32 = -32_603;

/// [`serde_json::Value`], carried and never looked into.
#[verifier::external_type_specification]
#[verifier::external_body]
pub struct ExValue(serde_json::Value);

/// [`jsonrpsee::types::ErrorObject`], carried and never looked into.
#[verifier::external_type_specification]
#[verifier::external_body]
pub struct ExErrorObject<'a>(jsonrpsee::types::ErrorObject<'a>);

/// [`serde_json::Map`], of which [`members`] says what is in it.
#[verifier::external_type_specification]
#[verifier::external_body]
#[verifier::reject_recursive_types(K)]
#[verifier::reject_recursive_types(V)]
pub struct ExJsonMap<K, V>(serde_json::Map<K, V>);

/// The members of a JSON object.
pub uninterp spec fn members(object: serde_json::Map<String, serde_json::Value>) -> Map<
    Seq<char>,
    serde_json::Value,
>;

/// The [`serde_json::Value`] that is this string.
pub uninterp spec fn json_string(text: Seq<char>) -> serde_json::Value;

/// The [`serde_json::Value`] that is this number.
pub uninterp spec fn json_number(number: u32) -> serde_json::Value;

/// The [`serde_json::Value`] that is an object with these members.
pub uninterp spec fn json_object(members: Map<Seq<char>, serde_json::Value>) -> serde_json::Value;

/// Makes an empty JSON object by `serde_json::Map::new`. Taken on trust: it
/// has no members.
#[verifier::external_body]
fn new_object() -> (r: serde_json::Map<String, serde_json::Value>)
    ensures
        (members(r) == Map::<Seq<char>, serde_json::Value>::empty()),
{
    serde_json::Map::new()
}

/// Sets a member of a JSON object by `serde_json::Map::insert`. Taken on
/// trust: the member gets the value, the others stay, and what the member was
/// before is handed back.
#[verifier::external_body]
fn insert_member(
    object: &mut serde_json::Map<String, serde_json::Value>,
    key: String,
    value: serde_json::Value,
) -> (r: Option<serde_json::Value>)
    ensures
        members(*final(object)) == members(*old(object)).insert(key@, value),
        r == (if members(*old(object)).contains_key(key@) {
            Some(members(*old(object))[key@])
        } else {
            None
        }),
{
    object.insert(key, value)
}

/// Makes a JSON string by `serde_json::Value::from`. Taken on trust: the value
/// depends on the text alone.
#[verifier::external_body]
fn string_value(text: &str) -> (r: serde_json::Value)
    ensures
        r == json_string(text@),
{
    serde_json::Value::from(text)
}

/// Makes a JSON number by `serde_json::Value::from`. Taken on trust: the value
/// depends on the number alone.
#[verifier::external_body]
fn number_value(number: u32) -> (r: serde_json::Value)
    ensures
        r == json_number(number),
{
    serde_json::Value::from(number)
}

/// Makes a value out of a JSON object by `serde_json::Value::from`. Taken on
/// trust: the value depends on the members of the object alone.
#[verifier::external_body]
fn object_value(object: serde_json::Map<String, serde_json::Value>) -> (r: serde_json::Value)
    ensures
        r == json_object(members(object)),
{
    serde_json::Value::from(object)
}

/// The [`jsonrpsee::types::ErrorObject`] with this code, message and data.
pub uninterp spec fn owned_error_object(
    code: i32,
    message: Seq<char>,
    data: Option<serde_json::Value>,
) -> jsonrpsee::types::ErrorObject<'static>;

/// Builds an error object by `jsonrpsee::types::ErrorObject::owned`. Taken on
/// trust: the object depends on the code, the message and the data alone.
#[verifier::external_body]
fn build_error_object(code: i32, message: &str, data: Option<serde_json::Value>) -> (r:
    jsonrpsee::types::ErrorObject<'static>)
    ensures
        r == owned_error_object(code, message@, data),
{
    jsonrpsee::types::ErrorObject::owned(code, message, data)
}

/// Why and from where a client is to go on elsewhere.
#[derive(Debug)]
pub struct HandoffData {
    pub reason: String,
    pub from_ledger: u32,
}

/// The error that a request is answered with.
#[derive(Debug)]
pub struct RpcError {
    pub code: i32,
    pub message: String,
    pub data: Option<HandoffData>,
}

/// The content of an [`RpcError`].
#[verifier::ext_equal]
pub struct RpcErrorView {
    pub code: i32,
    pub message: Seq<char>,
    /// Reason and ledger of a handoff.
    pub data: Option<(Seq<char>, u32)>,
}

impl View for RpcError {
    type V = RpcErrorView;

    open spec fn view(&self) -> RpcErrorView {
        RpcErrorView {
            code: self.code,
            message: self.message@,
            data: match self.data {
                Some(d) => Some((d.reason@, d.from_ledger)),
                None => None,
            },
        }
    }
}

impl RpcErrorView {
    /// The error object that goes out for the error: a handoff has its reason
    /// and its ledger as data, other errors have none.
    pub open spec fn object(self) -> jsonrpsee::types::ErrorObject<'static> {
        owned_error_object(
            self.code,
            self.message,
            match self.data {
                Some((reason, from_ledger)) => Some(
                    json_object(
                        map![
                            "reason"@ => json_string(reason),
                            "fromLedger"@ => json_number(from_ledger),
                        ],
                    ),
                ),
                None => None,
            },
        )
    }
}

impl RpcError {
    /// Turns the error into the object that goes out.
    pub fn to_error_object(&self) -> (r: jsonrpsee::types::ErrorObject<'static>)
        ensures
            r == self@.object(),
            r == owned_error_object(
                self.code,
                self.message@,
                match self.data {
                    Some(d) => Some(
                        json_object(
                            map![
                                "reason"@ => json_string(d.reason@),
                                "fromLedger"@ => json_number(d.from_ledger),
                            ],
                        ),
                    ),
                    None => None,
                },
            ),
    {
        let data = match &self.data {
            Some(d) => {
                let mut object = new_object();
                let reason = string_value(d.reason.as_str());
                let _ = insert_member(&mut object, "reason".to_owned(), reason);
                let from_ledger = number_value(d.from_ledger);
                let _ = insert_member(&mut object, "fromLedger".to_owned(), from_ledger);
                Some(object_value(object))
            },
            None => None,
        };
        build_error_object(self.code, self.message.as_str(), data)
    }
}

/// The error for parameters that are not served.
pub open spec fn invalid_params_error(message: Seq<char>) -> RpcErrorView {
    RpcErrorView { code: INVALID_PARAMS_CODE, message, data: None }
}

/// The error for a failure of the node.
pub open spec fn internal_failure(message: Seq<char>) -> RpcErrorView {
    RpcErrorView { code: INTERNAL_ERROR_CODE, message, data: None }
}

/// The error while the node warms up.
pub open spec fn warming_up_error() -> RpcErrorView {
    RpcErrorView {
        code: WARMING_UP_CODE,
        message: "bootnode warming up; retry later"@,
        data: None,
    }
}

/// The error that sends a client to its own endpoint, from the ledger on.
pub open spec fn handoff_error(from_ledger: u32) -> RpcErrorView {
    RpcErrorView {
        code: RETENTION_HANDOFF_CODE,
        message: "Continue syncing on your RPC endpoint"@,
        data: Some(("retention_threshold"@, from_ledger)),
    }
}

/// Makes the error for parameters that are not served.
pub fn invalid_params(message: String) -> (r: RpcError)
    ensures
        r@ == invalid_params_error(message@),
        r.code == -32_602,
        r.message == message,
        r.data is None,
{
    RpcError { code: INVALID_PARAMS_CODE, message, data: None }
}

/// Makes the error for a failure of the node.
pub fn internal_error(message: String) -> (r: RpcError)
    ensures
        r@ == internal_failure(message@),
        r.code == -32_603,
        r.message == message,
        r.data is None,
{
    RpcError { code: INTERNAL_ERROR_CODE, message, data: None }
}

/// Makes the error while the node warms up.
pub fn warming_up() -> (r: RpcError)
    ensures
        r@ == warming_up_error(),
        r.code == -32_004,
        r.message@ == "bootnode warming up; retry later"@,
        r.data is None,
{
    RpcError {
        code: WARMING_UP_CODE,
        message: "bootnode warming up; retry later".to_owned(),
        data: None,
    }
}

/// Makes the error that sends a client to its own endpoint, from the ledger on.
pub fn retention_handoff(from_ledger: u32) -> (r: RpcError)
    ensures
        r@ == handoff_error(from_ledger),
        r.code == -32_002,
        r.message@ == "Continue syncing on your RPC endpoint"@,
        r.data matches Some(data) && data.from_ledger == from_ledger && data.reason@
            == "retention_threshold"@,
{
    RpcError {
        code: RETENTION_HANDOFF_CODE,
        message: "Continue syncing on your RPC endpoint".to_owned(),
        data: Some(HandoffData { reason: "retention_threshold".to_owned(), from_ledger }),
    }
}

/// The errors by their codes, messages and data.
pub proof fn errors_by_code(message: Seq<char>, from_ledger: u32)
    ensures
        invalid_params_error(message).code == -32_602,
        invalid_params_error(message).message == message,
        invalid_params_error(message).data is None,
        internal_failure(message).code == -32_603,
        internal_failure(message).message == message,
        internal_failure(message).data is None,
        warming_up_error().code == -32_004,
        warming_up_error().message == "bootnode warming up; retry later"@,
        warming_up_error().data is None,
        handoff_error(from_ledger).code == -32_002,
        handoff_error(from_ledger).message == "Continue syncing on your RPC endpoint"@,
        handoff_error(from_ledger).data is Some,
        (handoff_error(from_ledger).data->0).0 == "retention_threshold"@,
        (handoff_error(from_ledger).data->0).1 == from_ledger,
{
}

/// The content of an error is its code, its message and its data, all of it.
pub proof fn error_content(e: RpcError)
    ensures
        e@.code == e.code,
        e@.message == e.message@,
        e@.data is Some <==> e.data is Some,
        e.data is Some ==> (e@.data->0).0 == (e.data->0).reason@ && (e@.data->0).1 == (
        e.data->0).from_ledger,
{
}

/// What happened to a request, to be counted.
#[derive(Debug, Clone, Copy, PartialEq, Eq, Structural)]
pub enum Counter {
    WarmingUp,
    Handoff,
    CacheHit,
    EmptyPage,
    HandlerError,
}

impl Counter {
    /// The name of the metric.
    pub fn metric(&self) -> (r: &'static str)
        ensures
            r@ == match self {
                Counter::WarmingUp => "bootnode_warming_up_total"@,
                Counter::Handoff => "bootnode_handoffs_total"@,
                Counter::CacheHit => "bootnode_cache_hits_total"@,
                Counter::EmptyPage => "bootnode_empty_pages_total"@,
                Counter::HandlerError => "bootnode_handler_errors_total"@,
            },
    {
        match self {
            Counter::WarmingUp => "bootnode_warming_up_total",
            Counter::Handoff => "bootnode_handoffs_total",
            Counter::CacheHit => "bootnode_cache_hits_total",
            Counter::EmptyPage => "bootnode_empty_pages_total",
            Counter::HandlerError => "bootnode_handler_errors_total",
        }
    }
}

/// The paging parameters of a request.
#[derive(Debug)]
pub struct ParsedParams {
    pub start_ledger: Option<u32>,
    pub cursor: Option<String>,
    /// How many events a page holds at most.
    pub limit: u32,
    /// Whether the cursor stands for a start ledger, not for an event.
    pub genesis_cursor: bool,
}

/// A request for events.
#[derive(Debug)]
pub struct EventsRequest {
    pub end_ledger: Option<u32>,
    pub xdr_format: Option<String>,
    /// The paging parameters, or what is wrong with them.
    pub parsed: Result<ParsedParams, String>,
    /// Whether the filters of the request are those of the deployment.
    pub filters_allowed: bool,
}

/// A page of events, and what its response is built from.
#[derive(Debug)]
pub struct PageReply {
    pub events: Vec<Event>,
    /// The start ledger of the request, where the page is empty.
    pub start_ledger: Option<u32>,
    /// The cursor of the request.
    pub cursor: Option<String>,
    pub latest_ledger: u32,
    pub oldest_ledger: u32,
}

/// The content of a [`PageReply`].
#[verifier::ext_equal]
pub struct PageView {
    pub events: Seq<EventView>,
    pub start_ledger: Option<u32>,
    pub cursor: Option<Seq<char>>,
    pub latest_ledger: u32,
    pub oldest_ledger: u32,
}

impl View for PageReply {
    type V = PageView;

    open spec fn view(&self) -> PageView {
        PageView {
            events: messages::event_views(self.events@),
            start_ledger: self.start_ledger,
            cursor: text::text_of(self.cursor),
            latest_ledger: self.latest_ledger,
            oldest_ledger: self.oldest_ledger,
        }
    }
}

/// The answer to a request, and what is counted of it.
#[derive(Debug)]
pub struct Outcome {
    pub counter: Option<Counter>,
    pub reply: Result<PageReply, RpcError>,
}

/// The content of an [`Outcome`].
#[verifier::ext_equal]
pub struct OutcomeView {
    pub counter: Option<Counter>,
    pub reply: Result<PageView, RpcErrorView>,
}

impl View for Outcome {
    type V = OutcomeView;

    open spec fn view(&self) -> OutcomeView {
        OutcomeView {
            counter: self.counter,
            reply: match self.reply {
                Ok(page) => Ok(page@),
                Err(error) => Err(error@),
            },
        }
    }
}

/// The content of an answer is its counter, and its page or its error, all of it.
pub proof fn outcome_content(o: Outcome)
    ensures
        o@.counter == o.counter,
        o@.reply is Ok <==> o.reply is Ok,
        o.reply matches Err(e) ==> o@.reply->Err_0.code == e.code && o@.reply->Err_0.message
            == e.message@,
        o.reply matches Ok(page) ==> {
            let p = o@.reply->Ok_0;
            &&& p.events.len() == page.events@.len()
            &&& forall|i: int|
                0 <= i < page.events@.len() ==> #[trigger] p.events[i] == page.events@[i]@
            &&& p.start_ledger == page.start_ledger
            &&& p.cursor is Some <==> page.cursor is Some
            &&& page.cursor is Some ==> p.cursor->0 == page.cursor->0@
            &&& p.latest_ledger == page.latest_ledger
            &&& p.oldest_ledger == page.oldest_ledger
        },
{
}

/// An answer that is an error.
pub open spec fn refused(counter: Option<Counter>, error: RpcErrorView) -> OutcomeView {
    OutcomeView { counter, reply: Err(error) }
}

fn refuse(counter: Option<Counter>, error: RpcError) -> (r: Outcome)
    ensures
        r@ == refused(counter, error@),
        r.counter == counter,
        r.reply == Err::<PageReply, RpcError>(error),
{
    Outcome { counter, reply: Err(error) }
}

/// A request that needs the events after a cursor.
#[derive(Debug)]
pub struct CursorQuery {
    pub cursor: String,
    pub cutoff_ledger: u32,
    pub limit: u32,
    pub latest_ledger: u32,
    pub oldest_ledger: u32,
}

/// A request that needs the events from a ledger on.
#[derive(Debug)]
pub struct LedgerQuery {
    pub start_ledger: u32,
    /// The start ledger as the request has it.
    pub requested: Option<u32>,
    pub cutoff_ledger: u32,
    pub limit: u32,
    pub latest_ledger: u32,
    pub oldest_ledger: u32,
}

/// What is to be done for a request.
#[derive(Debug)]
pub enum Step {
    /// Answer it.
    Reply(Outcome),
    /// Read the events after a cursor, then go on with [`CursorQuery::finish`].
    ReadAfterCursor(CursorQuery),
    /// Read the events from a ledger on, then go on with [`LedgerQuery::finish`].
    ReadFromLedger(LedgerQuery),
}

impl CursorQuery {
    /// The answer, given what the storage found: the ledger of the cursor and
    /// the events after it, or why it failed.
    pub open spec fn answer(
        self,
        found: Result<(Option<u32>, Seq<EventView>), Seq<char>>,
    ) -> OutcomeView {
        match found {
            Err(message) => refused(None, internal_failure(message)),
            Ok((None, _)) => refused(None, invalid_params_error("invalid cursor"@)),
            Ok((Some(ledger), events)) => if ledger >= self.cutoff_ledger || events.len() == 0 {
                refused(Some(Counter::Handoff), handoff_error(self.cutoff_ledger))
            } else {
                OutcomeView {
                    counter: Some(Counter::CacheHit),
                    reply: Ok(
                        PageView {
                            events,
                            start_ledger: None,
                            cursor: Some(self.cursor@),
                            latest_ledger: self.latest_ledger,
                            oldest_ledger: self.oldest_ledger,
                        },
                    ),
                }
            },
        }
    }

    /// Answers the request with what the storage found.
    pub fn finish(self, found: Result<(Option<u32>, Vec<Event>), String>) -> (r: Outcome)
        ensures
            r@ == self.answer(
                match found {
                    Ok((ledger, events)) => Ok((ledger, messages::event_views(events@))),
                    Err(message) => Err(message@),
                },
            ),
            found matches Err(message) ==> r.counter is None && (r.reply matches Err(e) && e.code
                == -32_603 && e.message == message && e.data is None),
            found matches Ok((None, _)) ==> r.counter is None && (r.reply matches Err(e) && e.code
                == -32_602 && e.message@ == "invalid cursor"@ && e.data is None),
            found matches Ok((Some(ledger), events)) ==> (ledger >= self.cutoff_ledger
                || events@.len() == 0 ==> r.counter == Some(Counter::Handoff) && (
            r.reply matches Err(e) && e.code == -32_002 && e.message@
                == "Continue syncing on your RPC endpoint"@ && e.data is Some
                && e.data->0.from_ledger == self.cutoff_ledger && e.data->0.reason@
                == "retention_threshold"@)),
            found matches Ok((Some(ledger), events)) ==> (ledger < self.cutoff_ledger
                && events@.len() > 0 ==> r.counter == Some(Counter::CacheHit) && (
            r.reply matches Ok(page) && page.events == events && page.start_ledger is None
                && page.cursor == Some(self.cursor) && page.latest_ledger == self.latest_ledger
                && page.oldest_ledger == self.oldest_ledger)),
    {
        match found {
            Err(message) => refuse(None, internal_error(message)),
            Ok((None, _)) => refuse(None, invalid_params("invalid cursor".to_owned())),
            Ok((Some(ledger), events)) => {
                if ledger >= self.cutoff_ledger || events.len() == 0 {
                    refuse(Some(Counter::Handoff), retention_handoff(self.cutoff_ledger))
                } else {
                    Outcome {
                        counter: Some(Counter::CacheHit),
                        reply: Ok(
                            PageReply {
                                events,
                                start_ledger: None,
                                cursor: Some(self.cursor),
                                latest_ledger: self.latest_ledger,
                                oldest_ledger: self.oldest_ledger,
                            },
                        ),
                    }
                }
            },
        }
    }
}

impl LedgerQuery {
    /// The answer, given the events that the storage found, or why it failed.
    pub open spec fn answer(self, found: Result<Seq<EventView>, Seq<char>>) -> OutcomeView {
        match found {
            Err(message) => refused(None, internal_failure(message)),
            Ok(events) => OutcomeView {
                counter: Some(
                    if events.len() == 0 {
                        Counter::EmptyPage
                    } else {
                        Counter::CacheHit
                    },
                ),
                reply: Ok(
                    PageView {
                        events,
                        start_ledger: if events.len() == 0 {
                            self.requested
                        } else {
                            None
                        },
                        cursor: None,
                        latest_ledger: self.latest_ledger,
                        oldest_ledger: self.oldest_ledger,
                    },
                ),
            },
        }
    }

    /// Answers the request with what the storage found.
    pub fn finish(self, found: Result<Vec<Event>, String>) -> (r: Outcome)
        ensures
            r@ == self.answer(
                match found {
                    Ok(events) => Ok(messages::event_views(events@)),
                    Err(message) => Err(message@),
                },
            ),
            found matches Err(message) ==> r.counter is None && (r.reply matches Err(e) && e.code
                == -32_603 && e.message == message && e.data is None),
            found matches Ok(events) ==> (r.reply matches Ok(page) && page.events == events
                && page.cursor is None && page.latest_ledger == self.latest_ledger
                && page.oldest_ledger == self.oldest_ledger && page.start_ledger == (
            if events@.len() == 0 {
                self.requested
            } else {
                None
            })),
            found matches Ok(events) ==> r.counter == Some(
                if events@.len() == 0 {
                    Counter::EmptyPage
                } else {
                    Counter::CacheHit
                },
            ),
    {
        match found {
            Err(message) => refuse(None, internal_error(message)),
            Ok(events) => {
                let empty: bool = events.len() == 0;
                Outcome {
                    counter: Some(
                        if empty {
                            Counter::EmptyPage
                        } else {
                            Counter::CacheHit
                        },
                    ),
                    reply: Ok(
                        PageReply {
                            events,
                            start_ledger: if empty {
                                self.requested
                            } else {
                                None
                            },
                            cursor: None,
                            latest_ledger: self.latest_ledger,
                            oldest_ledger: self.oldest_ledger,
                        },
                    ),
                }
            },
        }
    }
}

/// What requests are answered from, as it stands when a request comes in.
#[derive(Debug, Clone, Copy)]
pub struct BootnodeRpc {
    /// Redirect-window size in ledgers.
    pub cutoff_ledgers: u32,
    pub min_deployment_ledger: u32,
    pub published: Published,
}

impl BootnodeRpc {
    /// Takes from the state of the node what requests are answered from.
    pub fn new(state: &AppState, published: Published) -> (r: Self)
        ensures
            r.cutoff_ledgers == config::window_ledgers(
                state.cfg.redirect_days,
                state.cfg.ledger_seconds,
            ),
            r.min_deployment_ledger == state.min_deployment_ledger,
            r.published == published,
    {
        BootnodeRpc {
            cutoff_ledgers: state.cfg.cutoff_ledgers(),
            min_deployment_ledger: state.min_deployment_ledger,
            published,
        }
    }

    /// The first ledger that clients are sent elsewhere for.
    pub open spec fn cutoff(self) -> u32 {
        config::cutoff_of(self.published.ledger_tip, self.cutoff_ledgers)
    }

    /// The oldest ledger that responses name: that of the upstream, or the
    /// first of the deployment while that is unknown.
    pub open spec fn oldest(self) -> u32 {
        if self.published.oldest_ledger > 0 {
            self.published.oldest_ledger
        } else {
            self.min_deployment_ledger
        }
    }

    /// Whether the node is still warming up.
    pub open spec fn is_warming_up(self) -> bool {
        self.published.ledger_tip == 0 || !self.published.archive_ready
    }

    /// The error that parameters are answered with before any event is read, none
    /// where events must be read.
    pub open spec fn handler_refusal(
        self,
        parsed: Result<ParsedParams, String>,
        filters_allowed: bool,
    ) -> Option<OutcomeView> {
        match parsed {
            Err(message) => Some(refused(None, invalid_params_error(message@))),
            Ok(params) => if !filters_allowed {
                Some(refused(None, invalid_params_error("unsupported filters"@)))
            } else if self.is_warming_up() {
                Some(refused(Some(Counter::WarmingUp), warming_up_error()))
            } else if (params.start_ledger is Some && params.start_ledger->0 >= self.cutoff()) || (
            params.cursor is Some && params.genesis_cursor) {
                Some(refused(Some(Counter::Handoff), handoff_error(self.cutoff())))
            } else {
                None
            },
        }
    }

    /// What must be read for parameters that are not answered with an error at once.
    pub open spec fn read_for(self, params: ParsedParams) -> Step {
        match params.cursor {
            Some(cursor) => Step::ReadAfterCursor(
                CursorQuery {
                    cursor,
                    cutoff_ledger: self.cutoff(),
                    limit: params.limit,
                    latest_ledger: self.published.ledger_tip,
                    oldest_ledger: self.oldest(),
                },
            ),
            None => Step::ReadFromLedger(
                LedgerQuery {
                    start_ledger: match params.start_ledger {
                        Some(start_ledger) => start_ledger,
                        None => self.min_deployment_ledger,
                    },
                    requested: params.start_ledger,
                    cutoff_ledger: self.cutoff(),
                    limit: params.limit,
                    latest_ledger: self.published.ledger_tip,
                    oldest_ledger: self.oldest(),
                },
            ),
        }
    }

    /// Main events provider.
    ///
    /// Answers with a handoff where the start ledger or the ledger of the
    /// cursor is not below the cutoff, and with warm-up while the tip is
    /// unknown or the pre-cutoff archive is not ready.
    pub fn get_events_handler(
        &self,
        parsed: Result<ParsedParams, String>,
        filters_allowed: bool,
    ) -> (r: Step)
        ensures
            match self.handler_refusal(parsed, filters_allowed) {
                Some(outcome) => r matches Step::Reply(o) && o@ == outcome,
                None => r == self.read_for(parsed->Ok_0),
            },
            parsed matches Err(message) ==> (r matches Step::Reply(o) && o.counter is None && (
            o.reply matches Err(e) && e.code == -32_602 && e.message == message)),
            parsed is Ok && !filters_allowed ==> (r matches Step::Reply(o) && o.counter is None && (
            o.reply matches Err(e) && e.code == -32_602 && e.message@ == "unsupported filters"@)),
            parsed is Ok && filters_allowed && (self.published.ledger_tip == 0
                || !self.published.archive_ready) ==> (r matches Step::Reply(o) && o.counter
                == Some(Counter::WarmingUp) && (o.reply matches Err(e) && e.code == -32_004)),
            parsed is Ok && filters_allowed && self.published.ledger_tip != 0
                && self.published.archive_ready ==> {
                let params = parsed->Ok_0;
                if (params.start_ledger is Some && params.start_ledger->0 + self.cutoff_ledgers
                    >= self.published.ledger_tip) || (params.cursor is Some
                    && params.genesis_cursor) {
                    &&& r matches Step::Reply(o)
                    &&& o.counter == Some(Counter::Handoff)
                    &&& o.reply matches Err(e)
                    &&& e.code == -32_002
                    &&& e.data is Some
                } else if params.cursor is Some {
                    &&& r matches Step::ReadAfterCursor(q)
                    &&& params.cursor == Some(q.cursor)
                    &&& q.limit == params.limit
                    &&& q.latest_ledger == self.published.ledger_tip
                } else {
                    &&& r matches Step::ReadFromLedger(q)
                    &&& q.requested == params.start_ledger
                    &&& q.limit == params.limit
                    &&& q.latest_ledger == self.published.ledger_tip
                }
            },
    {
        let params = match parsed {
            Ok(params) => params,
            Err(message) => {
                return Step::Reply(refuse(None, invalid_params(message)));
            },
        };
        if !filters_allowed {
            return Step::Reply(refuse(None, invalid_params("unsupported filters".to_owned())));
        }
        let tip: u32 = self.published.ledger_tip;
        if tip == 0 || !self.published.archive_ready {
            return Step::Reply(refuse(Some(Counter::WarmingUp), warming_up()));
        }
        let cutoff_ledger: u32 = tip.saturating_sub(self.cutoff_ledgers);
        if let Some(start_ledger) = params.start_ledger {
            if start_ledger >= cutoff_ledger {
                return Step::Reply(
                    refuse(Some(Counter::Handoff), retention_handoff(cutoff_ledger)),
                );
            }
        }
        let oldest_ledger: u32 = if self.published.oldest_ledger > 0 {
            self.published.oldest_ledger
        } else {
            self.min_deployment_ledger
        };
        match params.cursor {
            Some(cursor) => {
                if params.genesis_cursor {
                    return Step::Reply(
                        refuse(Some(Counter::Handoff), retention_handoff(cutoff_ledger)),
                    );
                }
                Step::ReadAfterCursor(
                    CursorQuery {
                        cursor,
                        cutoff_ledger,
                        limit: params.limit,
                        latest_ledger: tip,
                        oldest_ledger,
                    },
                )
            },
            None => {
                let start_ledger: u32 = match params.start_ledger {
                    Some(start_ledger) => start_ledger,
                    None => self.min_deployment_ledger,
                };
                Step::ReadFromLedger(
                    LedgerQuery {
                        start_ledger,
                        requested: params.start_ledger,
                        cutoff_ledger,
                        limit: params.limit,
                        latest_ledger: tip,
                        oldest_ledger,
                    },
                )
            },
        }
    }

    /// The error that a request is answered with before any event is read, none
    /// where events must be read.
    pub open spec fn refusal(self, request: EventsRequest) -> Option<OutcomeView> {
        if request.end_ledger is Some {
            Some(refused(None, invalid_params_error("endLedger is not supported by bootnode"@)))
        } else if request.xdr_format is Some {
            Some(refused(None, invalid_params_error("xdrFormat is not supported by bootnode"@)))
        } else {
            self.handler_refusal(request.parsed, request.filters_allowed)
        }
    }

    /// Answers a request for events, or says what must be read for it.
    pub fn get_events(&self, request: EventsRequest) -> (r: Step)
        ensures
            match self.refusal(request) {
                Some(outcome) => r matches Step::Reply(o) && o@ == outcome,
                None => r == self.read_for(request.parsed->Ok_0),
            },
    {
        if request.end_ledger.is_some() {
            return Step::Reply(
                refuse(None, invalid_params("endLedger is not supported by bootnode".to_owned())),
            );
        }
        if request.xdr_format.is_some() {
            return Step::Reply(
                refuse(None, invalid_params("xdrFormat is not supported by bootnode".to_owned())),
            );
        }
        self.get_events_handler(request.parsed, request.filters_allowed)
    }

    /// The answer to a request over an event log.
    pub open spec fn answer(self, log: Seq<EventView>, request: EventsRequest) -> OutcomeView {
        match self.refusal(request) {
            Some(outcome) => outcome,
            None => match self.read_for(request.parsed->Ok_0) {
                Step::ReadAfterCursor(q) => q.answer(
                    Ok(log::cursor_page(log, q.cursor@, q.cutoff_ledger, q.limit)),
                ),
                Step::ReadFromLedger(q) => q.answer(
                    Ok(log::ledger_page(log, q.start_ledger, q.cutoff_ledger, q.limit)),
                ),
                Step::Reply(o) => o@,
            },
        }
    }

    /// Answers a request for events out of a namespace in memory.
    pub fn get_events_in_memory(&self, storage: &Namespace, request: EventsRequest) -> (r: Outcome)
        requires
            storage.wf(),
        ensures
            r@ == self.answer(storage.kept().events, request),
    {
        match self.get_events(request) {
            Step::Reply(outcome) => outcome,
            Step::ReadAfterCursor(query) => {
                let found = storage.page_events_cursor(
                    query.cursor.as_str(),
                    query.cutoff_ledger,
                    query.limit,
                );
                match found {
                    Ok(page) => query.finish(Ok(page)),
                    Err(e) => query.finish(Err(e.message())),
                }
            },
            Step::ReadFromLedger(query) => {
                let found = storage.page_events_ledger(
                    query.start_ledger,
                    query.cutoff_ledger,
                    query.limit,
                );
                match found {
                    Ok(page) => query.finish(Ok(page)),
                    Err(e) => query.finish(Err(e.message())),
                }
            },
        }
    }

    /// Answers a request for the latest ledger with what upstream said, or with
    /// its failure, which is counted.
    pub fn get_latest_ledger(latest: Result<GetLatestLedgerResponse, String>) -> (r: (
        Option<Counter>,
        Result<GetLatestLedgerResponse, RpcError>,
    ))
        ensures
            match latest {
                Ok(response) => r == (
                    None::<Counter>,
                    Ok::<GetLatestLedgerResponse, RpcError>(response),
                ),
                Err(message) => r.0 == Some(Counter::HandlerError) && (r.1 matches Err(e) && e@
                    == internal_failure(message@) && e.code == -32_603 && e.message == message
                    && e.data is None),
            },
    {
        match latest {
            Ok(response) => (None, Ok(response)),
            Err(message) => (Some(Counter::HandlerError), Err(internal_error(message))),
        }
    }
}

/// Whether a request asks for something that the node serves at all.
pub open spec fn is_served(request: EventsRequest) -> bool {
    request.end_ledger is None && request.xdr_format is None && request.parsed is Ok
        && request.filters_allowed
}

impl BootnodeRpc {
    /// While the tip is unknown or the archive is not ready, every request that
    /// is served at all is answered with warm-up, and no event goes out.
    pub proof fn warm_up_comes_first(self, log: Seq<EventView>, request: EventsRequest)
        requires
            self.published.ledger_tip == 0 || !self.published.archive_ready,
        ensures
            is_served(request) ==> self.answer(log, request) == refused(
                Some(Counter::WarmingUp),
                warming_up_error(),
            ),
            request.end_ledger is None && request.xdr_format is None && request.parsed is Ok
                && request.filters_allowed ==> self.answer(log, request).counter == Some(
                Counter::WarmingUp,
            ) && (self.answer(log, request).reply matches Err(e) && e.code == -32_004 && e.message
                == "bootnode warming up; retry later"@ && e.data is None),
            self.answer(log, request).reply is Err,
    {
    }

    /// A start ledger at or above the cutoff is answered with a handoff to the cutoff.
    pub proof fn late_start_is_handed_off(self, log: Seq<EventView>, request: EventsRequest)
        requires
            is_served(request),
            !self.is_warming_up(),
            request.parsed->Ok_0.start_ledger is Some,
            request.parsed->Ok_0.start_ledger->0 >= self.cutoff(),
        ensures
            self.answer(log, request) == refused(
                Some(Counter::Handoff),
                handoff_error(self.cutoff()),
            ),
    {
    }

    /// A cursor whose event lies at or above the cutoff is answered with a
    /// handoff to the cutoff; one that names no stored event and no start
    /// ledger is refused.
    pub proof fn late_cursor_is_handed_off(self, log: Seq<EventView>, request: EventsRequest)
        requires
            is_served(request),
            !self.is_warming_up(),
            request.parsed->Ok_0.cursor is Some,
        ensures
            ({
                let cursor = request.parsed->Ok_0.cursor->0@;
                let place = log::cursor_ledger(log, cursor);
                &&& place is Some && place->0 >= self.cutoff() ==> self.answer(log, request)
                    == refused(Some(Counter::Handoff), handoff_error(self.cutoff()))
                &&& place is None && !request.parsed->Ok_0.genesis_cursor
                    && request.parsed->Ok_0.start_ledger is None ==> self.answer(log, request)
                    == refused(None, invalid_params_error("invalid cursor"@))
            }),
    {
    }

    /// No event at or above the cutoff is ever served, nor one that is not
    /// stored; a page is in log order and holds no more than the limit, and its
    /// response names the tip that the cutoff was taken from.
    pub proof fn served_pages_lie_below_cutoff(self, log: Seq<EventView>, request: EventsRequest)
        requires
            log::ordered(log),
        ensures
            self.answer(log, request).reply matches Ok(page) ==> {
                &&& log::ordered(page.events)
                &&& page.events.len() <= request.parsed->Ok_0.limit
                &&& page.latest_ledger == self.published.ledger_tip
                &&& page.oldest_ledger == self.oldest()
                &&& forall|i: int|
                    0 <= i < page.events.len() ==> (#[trigger] page.events[i]).ledger
                        < self.cutoff() && log.contains(page.events[i])
            },
    {
        if self.refusal(request) is None {
            match self.read_for(request.parsed->Ok_0) {
                Step::ReadAfterCursor(q) => {
                    log::cursor_page_bounds(log, q.cursor@, q.cutoff_ledger, q.limit);
                },
                Step::ReadFromLedger(q) => {
                    log::ledger_page_bounds(log, q.start_ledger, q.cutoff_ledger, q.limit);
                },
                Step::Reply(_) => {},
            }
        }
    }

    /// A client that goes on from an event, by an identifier that no other
    /// event below the cutoff has, gets exactly the events that follow it below
    /// the cutoff, a page of them; and once there is none left it is handed off
    /// to the cutoff, so that nothing between is missed.
    pub proof fn following_a_cursor_misses_nothing(
        self,
        log: Seq<EventView>,
        request: EventsRequest,
        start_ledger: u32,
        k: int,
    )
        requires
            log::ordered(log),
            is_served(request),
            !self.is_warming_up(),
            request.parsed->Ok_0.start_ledger is None,
            request.parsed->Ok_0.cursor is Some,
            !request.parsed->Ok_0.genesis_cursor,
            request.parsed->Ok_0.limit > 0,
            0 <= k < log::window(log, start_ledger, self.cutoff()).len(),
            request.parsed->Ok_0.cursor->0@ == log::window(log, start_ledger, self.cutoff())[k].id,
            log::unique_below(log, request.parsed->Ok_0.cursor->0@, self.cutoff()),
        ensures
            ({
                let w = log::window(log, start_ledger, self.cutoff());
                if k == w.len() - 1 {
                    self.answer(log, request) == refused(
                        Some(Counter::Handoff),
                        handoff_error(self.cutoff()),
                    )
                } else {
                    self.answer(log, request).reply matches Ok(page) && page.events
                        == log::first_n(w.skip(k + 1), request.parsed->Ok_0.limit as int)
                }
            }),
    {
        let w = log::window(log, start_ledger, self.cutoff());
        let params = request.parsed->Ok_0;
        log::cursor_continues(log, start_ledger, self.cutoff(), params.limit, k);
        assert(w[k].ledger < self.cutoff()) by {
            log::window_bounds(log, start_ledger, self.cutoff());
        }
        assert(w.skip(k + 1).len() == w.len() - k - 1);
    }

    /// The first page of a request by ledger is the beginning of the events
    /// from that ledger, or from the first of the deployment, to the cutoff.
    pub proof fn first_page_starts_the_window(self, log: Seq<EventView>, request: EventsRequest)
        requires
            is_served(request),
            !self.is_warming_up(),
            request.parsed->Ok_0.cursor is None,
            request.parsed->Ok_0.start_ledger matches Some(s) ==> s < self.cutoff(),
        ensures
            ({
                let params = request.parsed->Ok_0;
                let start = match params.start_ledger {
                    Some(s) => s,
                    None => self.min_deployment_ledger,
                };
                self.answer(log, request).reply matches Ok(page) && page.events == log::first_n(
                    log::window(log, start, self.cutoff()),
                    params.limit as int,
                )
            }),
    {
    }

    /// The cutoff lies a window below the tip, or at zero where the window
    /// reaches further; the oldest ledger is the one upstream reported, or the
    /// first of the deployment before it did; and the node warms up while it
    /// knows no tip or its archive is not ready.
    pub proof fn published_state_decides(self, ledger: u32)
        ensures
            self.cutoff_ledgers <= self.published.ledger_tip ==> self.cutoff()
                + self.cutoff_ledgers == self.published.ledger_tip,
            self.cutoff_ledgers >= self.published.ledger_tip ==> self.cutoff() == 0,
            ledger >= self.cutoff() <==> ledger + self.cutoff_ledgers >= self.published.ledger_tip,
            self.published.oldest_ledger != 0 ==> self.oldest() == self.published.oldest_ledger,
            self.published.oldest_ledger == 0 ==> self.oldest() == self.min_deployment_ledger,
            self.is_warming_up() <==> self.published.ledger_tip == 0
                || !self.published.archive_ready,
    {
    }

    /// Whatever asks for an end ledger or an encoding, does not parse, or asks for
    /// other contracts is refused as invalid, for the first of these; then comes
    /// warm-up, then a handoff to the cutoff for a start ledger from which the
    /// window reaches the tip and for a cursor that stands for a start ledger.
    /// Nothing else is refused unread.
    pub proof fn refusals_come_in_order(self, request: EventsRequest)
        ensures
            ({
                let r = self.refusal(request);
                let o = r->0;
                let e = o.reply->Err_0;
                let params = request.parsed->Ok_0;
                let invalid = r is Some && o.counter is None && o.reply is Err && e.code == -32_602
                    && e.data is None;
                let late = (params.start_ledger is Some && params.start_ledger->0
                    + self.cutoff_ledgers >= self.published.ledger_tip) || (params.cursor is Some
                    && params.genesis_cursor);
                if request.end_ledger is Some {
                    invalid && e.message == "endLedger is not supported by bootnode"@
                } else if request.xdr_format is Some {
                    invalid && e.message == "xdrFormat is not supported by bootnode"@
                } else if request.parsed is Err {
                    invalid && e.message == request.parsed->Err_0@
                } else if !request.filters_allowed {
                    invalid && e.message == "unsupported filters"@
                } else if self.published.ledger_tip == 0 || !self.published.archive_ready {
                    r is Some && o.counter == Some(Counter::WarmingUp) && o.reply is Err && e.code
                        == -32_004 && e.message == "bootnode warming up; retry later"@ && e.data
                        is None
                } else if late {
                    r is Some && o.counter == Some(Counter::Handoff) && o.reply is Err && e.code
                        == -32_002 && e.message == "Continue syncing on your RPC endpoint"@
                        && e.data is Some && (e.data->0).0 == "retention_threshold"@ && (
                    if self.cutoff_ledgers <= self.published.ledger_tip {
                        (e.data->0).1 + self.cutoff_ledgers == self.published.ledger_tip
                    } else {
                        (e.data->0).1 == 0
                    })
                } else {
                    r is None
                }
            }),
    {
    }

    /// With a cursor, the events after it are read; without one, those from the
    /// requested ledger, or from the first of the deployment. Either way below the
    /// cutoff, up to the limit of the request, and with the tip and the oldest
    /// ledger as they are published.
    pub proof fn reads_are_as_requested(self, params: ParsedParams)
        ensures
            params.cursor is Some ==> {
                &&& self.read_for(params) matches Step::ReadAfterCursor(q)
                &&& q.cursor@ == params.cursor->0@
                &&& q.limit == params.limit
                &&& q.latest_ledger == self.published.ledger_tip
                &&& q.oldest_ledger == (if self.published.oldest_ledger > 0 {
                    self.published.oldest_ledger
                } else {
                    self.min_deployment_ledger
                })
                &&& self.cutoff_ledgers <= self.published.ledger_tip ==> q.cutoff_ledger
                    + self.cutoff_ledgers == self.published.ledger_tip
                &&& self.cutoff_ledgers >= self.published.ledger_tip ==> q.cutoff_ledger == 0
            },
            params.cursor is None ==> {
                &&& self.read_for(params) matches Step::ReadFromLedger(q)
                &&& q.requested == params.start_ledger
                &&& params.start_ledger is Some ==> q.start_ledger == params.start_ledger->0
                &&& params.start_ledger is None ==> q.start_ledger == self.min_deployment_ledger
                &&& q.limit == params.limit
                &&& q.latest_ledger == self.published.ledger_tip
                &&& q.oldest_ledger == (if self.published.oldest_ledger > 0 {
                    self.published.oldest_ledger
                } else {
                    self.min_deployment_ledger
                })
                &&& self.cutoff_ledgers <= self.published.ledger_tip ==> q.cutoff_ledger
                    + self.cutoff_ledgers == self.published.ledger_tip
                &&& self.cutoff_ledgers >= self.published.ledger_tip ==> q.cutoff_ledger == 0
            },
    {
    }

    /// What is not refused unread is answered from the log: by its page after the
    /// cursor, or by its page from the start ledger.
    pub proof fn answers_come_from_the_log(self, log: Seq<EventView>, request: EventsRequest)
        requires
            request.end_ledger is None,
            request.xdr_format is None,
            request.parsed is Ok,
            request.filters_allowed,
            self.published.ledger_tip != 0,
            self.published.archive_ready,
            request.parsed->Ok_0.start_ledger matches Some(start) ==> start + self.cutoff_ledgers
                < self.published.ledger_tip,
            request.parsed->Ok_0.cursor is Some ==> !request.parsed->Ok_0.genesis_cursor,
        ensures
            ({
                let params = request.parsed->Ok_0;
                let r = self.answer(log, request);
                let (place, after) = log::cursor_page(
                    log,
                    params.cursor->0@,
                    self.cutoff(),
                    params.limit,
                );
                let start = match params.start_ledger {
                    Some(start) => start,
                    None => self.min_deployment_ledger,
                };
                let from = log::ledger_page(log, start, self.cutoff(), params.limit);
                if params.cursor is None {
                    &&& r.reply matches Ok(page)
                    &&& page.events == from
                    &&& page.cursor is None
                    &&& page.latest_ledger == self.published.ledger_tip
                    &&& self.published.oldest_ledger > 0 ==> page.oldest_ledger
                        == self.published.oldest_ledger
                    &&& self.published.oldest_ledger == 0 ==> page.oldest_ledger
                        == self.min_deployment_ledger
                    &&& from.len() == 0 ==> page.start_ledger == params.start_ledger && r.counter
                        == Some(Counter::EmptyPage)
                    &&& from.len() > 0 ==> page.start_ledger is None && r.counter == Some(
                        Counter::CacheHit,
                    )
                } else if place is None {
                    &&& r.counter is None
                    &&& r.reply matches Err(e)
                    &&& e.code == -32_602
                    &&& e.message == "invalid cursor"@
                    &&& e.data is None
                } else if place->0 + self.cutoff_ledgers >= self.published.ledger_tip
                    || after.len() == 0 {
                    &&& r.counter == Some(Counter::Handoff)
                    &&& r.reply matches Err(e)
                    &&& e.code == -32_002
                    &&& e.message == "Continue syncing on your RPC endpoint"@
                    &&& e.data is Some
                    &&& (e.data->0).0 == "retention_threshold"@
                    &&& (e.data->0).1 == self.cutoff()
                } else {
                    &&& r.counter == Some(Counter::CacheHit)
                    &&& r.reply matches Ok(page)
                    &&& page.events == after
                    &&& page.cursor == Some(params.cursor->0@)
                    &&& page.start_ledger is None
                    &&& page.latest_ledger == self.published.ledger_tip
                    &&& self.published.oldest_ledger > 0 ==> page.oldest_ledger
                        == self.published.oldest_ledger
                    &&& self.published.oldest_ledger == 0 ==> page.oldest_ledger
                        == self.min_deployment_ledger
                }
            }),
    {
    }

    /// Every event of a page is stored, and the window does not reach from it to
    /// the tip; no page is served while the node knows no tip or its archive is
    /// not ready.
    pub proof fn nothing_recent_is_served(self, log: Seq<EventView>, request: EventsRequest, i: int)
        requires
            log::ordered(log),
            self.answer(log, request).reply is Ok,
            0 <= i < self.answer(log, request).reply->Ok_0.events.len(),
        ensures
            ({
                let x = self.answer(log, request).reply->Ok_0.events[i];
                &&& x.ledger + self.cutoff_ledgers < self.published.ledger_tip
                &&& log.contains(x)
            }),
            self.published.ledger_tip != 0,
            self.published.archive_ready,
            self.answer(log, request).reply->Ok_0.latest_ledger == self.published.ledger_tip,
    {
        self.served_pages_lie_below_cutoff(log, request);
    }
}

} // verus!
