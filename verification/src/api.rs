//! The HTTP API: queries and their limits, who may call what, and how answers
//! are put together.

use vstd::prelude::*;
use vstd::string::*;

use crate::diagnostics::AccessEvent;
use crate::discovery::ExchangeSymbols;
use crate::json::{append_item, quote, to_text_array};
use crate::market::{Exchange, MarketKind, Ticker, Trade, Venue};
use crate::storage::PairInfo;
use crate::text::{clone_strings, text_before, text_eq, to_lowercase};

verus! {

/// Rows that an Arrow export returns when the request names no limit.
pub const DEFAULT_ARROW_LIMIT: usize = 50_000;

/// Upper bound on the rows of any Arrow export.
pub const MAX_ARROW_LIMIT: usize = 1_000_000;

/// Lower bound on the row cap that a memory budget can yield.
pub const MIN_ARROW_LIMIT: usize = 50_000;

/// Exported rows granted per megabyte of database memory.
pub const ROWS_PER_MEMORY_MB: u64 = 2_500;

/// Database memory that one concurrent query is budgeted.
pub const MEMORY_MB_PER_QUERY: u64 = 512;

/// Concurrent queries when no memory budget is configured.
pub const DEFAULT_QUERY_CONCURRENCY: usize = 4;

/// Upper bound on concurrent queries.
pub const MAX_QUERY_CONCURRENCY: usize = 4;

/// Limits that the database memory budget puts on HTTP queries.
#[derive(Debug, Clone, Copy, PartialEq, Eq, Structural)]
pub struct QueryBudget {
    pub max_arrow_rows: usize,
    pub concurrency: usize,
}

/// `x` pulled into `[lo, hi]`.
pub open spec fn clamp_int(x: int, lo: int, hi: int) -> int {
    if x < lo {
        lo
    } else if x > hi {
        hi
    } else {
        x
    }
}

/// Rows that a memory budget grants an export.
pub open spec fn budget_rows(memory_limit_mb: u64) -> int {
    clamp_int(
        memory_limit_mb * ROWS_PER_MEMORY_MB,
        MIN_ARROW_LIMIT as int,
        MAX_ARROW_LIMIT as int,
    )
}

/// Concurrent queries that a memory budget grants.
pub open spec fn budget_queries(memory_limit_mb: u64) -> int {
    clamp_int(
        memory_limit_mb as int / MEMORY_MB_PER_QUERY as int,
        1,
        MAX_QUERY_CONCURRENCY as int,
    )
}

/// Derive response and concurrency limits from the configured database
/// memory. An unset budget (`0`) keeps the high-memory defaults.
pub fn query_budget(memory_limit_mb: u64) -> (budget: QueryBudget)
    ensures
        memory_limit_mb == 0 ==> {
            &&& budget.max_arrow_rows == MAX_ARROW_LIMIT
            &&& budget.concurrency == DEFAULT_QUERY_CONCURRENCY
        },
        memory_limit_mb > 0 ==> {
            &&& budget.max_arrow_rows == budget_rows(memory_limit_mb)
            &&& budget.concurrency == budget_queries(memory_limit_mb)
        },
{
    if memory_limit_mb == 0 {
        return QueryBudget {
            max_arrow_rows: MAX_ARROW_LIMIT,
            concurrency: DEFAULT_QUERY_CONCURRENCY,
        };
    }
    let max_arrow_rows: usize = if memory_limit_mb >= 400 {
        MAX_ARROW_LIMIT
    } else {
        let rows: u64 = memory_limit_mb * ROWS_PER_MEMORY_MB;
        if rows < MIN_ARROW_LIMIT as u64 {
            MIN_ARROW_LIMIT
        } else {
            rows as usize
        }
    };
    let share: u64 = memory_limit_mb / MEMORY_MB_PER_QUERY;
    let concurrency: usize = if share < 1 {
        1
    } else if share > MAX_QUERY_CONCURRENCY as u64 {
        MAX_QUERY_CONCURRENCY
    } else {
        share as usize
    };
    QueryBudget { max_arrow_rows, concurrency }
}

/// A bigger budget never grants less, and every budget stays within the bounds.
pub proof fn law_budget_is_monotone_and_bounded(a: u64, b: u64)
    requires
        0 < a <= b,
    ensures
        budget_rows(a) <= budget_rows(b),
        budget_queries(a) <= budget_queries(b),
        MIN_ARROW_LIMIT <= budget_rows(a) <= MAX_ARROW_LIMIT,
        1 <= budget_queries(a) <= MAX_QUERY_CONCURRENCY,
{
    assert(a as int / 512 <= b as int / 512);
}

/// A trade and the instrument that was traded.
#[derive(Debug)]
pub struct AnnotatedTrade {
    pub ticker: Ticker,
    pub trade: Trade,
}

/// The mathematical value of an [`AnnotatedTrade`].
#[verifier::ext_equal]
pub struct AnnotatedTradeView {
    pub ticker: crate::market::TickerView,
    pub trade: Trade,
}

impl View for AnnotatedTrade {
    type V = AnnotatedTradeView;

    open spec fn view(&self) -> AnnotatedTradeView {
        AnnotatedTradeView { ticker: self.ticker@, trade: self.trade }
    }
}

impl Clone for AnnotatedTrade {
    fn clone(&self) -> (copy: AnnotatedTrade)
        ensures
            copy@ == self@,
    {
        AnnotatedTrade { ticker: self.ticker.clone(), trade: self.trade }
    }
}

impl AnnotatedTrade {
    /// Put a trade and its instrument together.
    pub fn new(ticker: Ticker, trade: Trade) -> (annotated: AnnotatedTrade)
        ensures
            annotated@ == (AnnotatedTradeView { ticker: ticker@, trade }),
    {
        AnnotatedTrade { ticker, trade }
    }
}

/// Query parameters shared by `/trades` and `/trades.arrow`.
#[derive(Debug)]
pub struct TradeQuery {
    /// Venue, such as "binance".
    pub venue: String,
    /// Symbol.
    pub symbol: String,
    /// Market: "spot", "linear", or "inverse".
    pub market: String,
    /// Inclusive lower bound in Unix milliseconds.
    pub from: Option<i64>,
    /// Inclusive upper bound in Unix milliseconds.
    pub to: Option<i64>,
    /// Maximum number of records to return.
    pub limit: Option<usize>,
}

/// The message for a venue that is not known.
pub open spec fn unknown_venue(venue: Seq<char>) -> Seq<char> {
    "unknown venue: '"@ + venue + "'"@
}

/// The message for a market kind that is not known.
pub open spec fn unknown_market(market: Seq<char>) -> Seq<char> {
    "unknown market kind: '"@ + market + "' (expected spot, linear, or inverse)"@
}

/// What is wrong with a query, if anything: the venue is looked at first.
pub open spec fn query_error(venue: Seq<char>, market: Seq<char>) -> Option<Seq<char>> {
    if Venue::spec_parse(venue) is None {
        Some(unknown_venue(venue))
    } else if MarketKind::spec_parse(market) is None {
        Some(unknown_market(market))
    } else {
        None
    }
}

/// The name of the exchange that venue and market stand for, if there is one.
pub open spec fn exchange_named(venue: Seq<char>, market: Seq<char>) -> Option<Seq<char>> {
    match (Venue::spec_parse(venue), MarketKind::spec_parse(market)) {
        (Some(v), Some(m)) => match Exchange::spec_listed(v, m) {
            Some(exchange) => Some(exchange.spec_name()),
            None => None,
        },
        _ => None,
    }
}

/// What the exchange column is compared with. A pair without an exchange yields
/// a text that no exchange is named by.
pub open spec fn filter_text(venue: Seq<char>, market: Seq<char>) -> Seq<char> {
    match exchange_named(venue, market) {
        Some(name) => name,
        None => venue + "/"@ + market,
    }
}

/// The canonical exchange name for raw venue and market texts.
pub fn exchange_from_venue_market(venue: &str, market: &str) -> (name: Option<String>)
    ensures
        crate::text::option_view(name) == exchange_named(venue@, market@),
{
    let venue = match Venue::parse(venue) {
        Some(venue) => venue,
        None => return None,
    };
    let market = match MarketKind::parse(market) {
        Some(market) => market,
        None => return None,
    };
    match Exchange::from_venue_and_market(venue, market) {
        Some(exchange) => Some(exchange.name()),
        None => None,
    }
}

impl TradeQuery {
    /// Check that venue and market are known. The error is for people to read.
    pub fn validate(&self) -> (result: Result<(), String>)
        ensures
            match result {
                Ok(_) => query_error(self.venue@, self.market@) is None,
                Err(message) => query_error(self.venue@, self.market@) == Some(message@),
            },
    {
        if Venue::parse(self.venue.as_str()).is_none() {
            let mut message = "unknown venue: '".to_owned();
            message.append(self.venue.as_str());
            message.append("'");
            return Err(message);
        }
        if MarketKind::parse(self.market.as_str()).is_none() {
            let mut message = "unknown market kind: '".to_owned();
            message.append(self.market.as_str());
            message.append("' (expected spot, linear, or inverse)");
            return Err(message);
        }
        Ok(())
    }

    /// What the exchange column is compared with.
    pub fn exchange_filter(&self) -> (filter: String)
        ensures
            filter@ == filter_text(self.venue@, self.market@),
    {
        match exchange_from_venue_market(self.venue.as_str(), self.market.as_str()) {
            Some(name) => name,
            None => {
                let mut filter = self.venue.clone();
                filter.append("/");
                filter.append(self.market.as_str());
                filter
            },
        }
    }
}

/// Rows that an Arrow export is bounded to.
pub open spec fn arrow_rows(limit: Option<usize>, budget: QueryBudget) -> usize {
    let wanted = match limit {
        Some(limit) => limit,
        None => DEFAULT_ARROW_LIMIT,
    };
    if wanted < budget.max_arrow_rows {
        wanted
    } else {
        budget.max_arrow_rows
    }
}

impl QueryBudget {
    /// Rows that an Arrow export is bounded to: what the request asks for, or the
    /// default, but no more than the budget grants.
    pub fn bounded_limit(&self, limit: Option<usize>) -> (rows: usize)
        ensures
            rows == arrow_rows(limit, *self),
    {
        let wanted: usize = match limit {
            Some(limit) => limit,
            None => DEFAULT_ARROW_LIMIT,
        };
        if wanted < self.max_arrow_rows {
            wanted
        } else {
            self.max_arrow_rows
        }
    }
}

/// An error answer: its HTTP status and its JSON body.
#[derive(Debug)]
pub struct ErrorReply {
    pub status: u16,
    pub body: String,
}

/// The JSON body that carries an error message: an object whose only member, `error`,
/// is the message.
pub open spec fn error_body(message: Seq<char>) -> Seq<char> {
    "{\"error\":"@ + crate::json::quoted(message) + "}"@
}

/// An error answer with a message.
pub fn json_err(status: u16, message: &str) -> (reply: ErrorReply)
    ensures
        reply.status == status,
        reply.body@ == error_body(message@),
{
    let text = quote(message);
    let mut body = "{\"error\":".to_owned();
    body.append(text.as_str());
    body.append("}");
    ErrorReply { status, body }
}

/// An error body is JSON whatever its message holds: the member is a string that is read
/// as the message.
pub proof fn law_error_body_reads_back(message: Seq<char>)
    ensures
        error_body(message) == "{\"error\":\""@ + crate::json::escaped(message) + "\"}"@,
        crate::json::unescaped(crate::json::escaped(message)) == Some(message),
{
    reveal_strlit("{\"error\":");
    reveal_strlit("{\"error\":\"");
    reveal_strlit("\"}");
    reveal_strlit("}");
    crate::json::law_quoted_reads_back(message);
    let escaped = crate::json::escaped(message);
    assert("{\"error\":\""@ =~= "{\"error\":"@ + seq!['"']);
    assert("\"}"@ =~= seq!['"'] + "}"@);
    assert(error_body(message) =~= "{\"error\":\""@ + escaped + "\"}"@);
}

/// What goes wrong with a request on its way to a result.
#[derive(Debug, Clone, Copy, PartialEq, Eq, Structural)]
pub enum Refusal {
    /// The admission gate has no budget left.
    GateExhausted,
    /// The authorization header is missing or wrong.
    Unauthorized,
    /// The address is over its rate limit.
    RateLimited,
    /// Too many queries run already.
    QueryBusy,
    /// The query failed.
    Internal,
    /// The query took too long.
    TimedOut,
}

impl Refusal {
    /// The HTTP status of the answer.
    pub open spec fn spec_status(self) -> u16 {
        match self {
            Refusal::GateExhausted => 503,
            Refusal::Unauthorized => 401,
            Refusal::RateLimited => 429,
            Refusal::QueryBusy => 503,
            Refusal::Internal => 500,
            Refusal::TimedOut => 503,
        }
    }

    /// The message of the answer.
    pub open spec fn spec_message(self) -> Seq<char> {
        match self {
            Refusal::GateExhausted => "server busy, try again later"@,
            Refusal::Unauthorized => "missing or invalid auth token"@,
            Refusal::RateLimited => "rate limit exceeded, slow down"@,
            Refusal::QueryBusy => "server busy, too many concurrent requests"@,
            Refusal::Internal => "internal error"@,
            Refusal::TimedOut => "query timed out"@,
        }
    }

    /// The answer.
    pub fn reply(self) -> (reply: ErrorReply)
        ensures
            reply.status == self.spec_status(),
            reply.body@ == error_body(self.spec_message()),
    {
        match self {
            Refusal::GateExhausted => json_err(503, "server busy, try again later"),
            Refusal::Unauthorized => json_err(401, "missing or invalid auth token"),
            Refusal::RateLimited => json_err(429, "rate limit exceeded, slow down"),
            Refusal::QueryBusy => json_err(503, "server busy, too many concurrent requests"),
            Refusal::Internal => json_err(500, "internal error"),
            Refusal::TimedOut => json_err(503, "query timed out"),
        }
    }

    /// The access counter that the refusal belongs to, if any.
    pub fn access_event(self) -> (event: Option<AccessEvent>)
        ensures
            event == match self {
                Refusal::GateExhausted => Some(AccessEvent::AdmissionBlocked),
                Refusal::Unauthorized => Some(AccessEvent::AuthFailure),
                Refusal::RateLimited => Some(AccessEvent::RateLimited),
                _ => None,
            },
    {
        match self {
            Refusal::GateExhausted => Some(AccessEvent::AdmissionBlocked),
            Refusal::Unauthorized => Some(AccessEvent::AuthFailure),
            Refusal::RateLimited => Some(AccessEvent::RateLimited),
            _ => None,
        }
    }
}

/// How a query on the database ended.
#[derive(Debug, Clone, Copy, PartialEq, Eq, Structural)]
pub enum QueryOutcome {
    Succeeded,
    /// The query returned an error.
    Failed,
    /// The task that ran the query died.
    Panicked,
    /// The deadline passed.
    TimedOut,
}

/// What a request is answered whose query did not succeed.
pub fn query_refusal(outcome: QueryOutcome) -> (refusal: Option<Refusal>)
    ensures
        refusal == match outcome {
            QueryOutcome::Succeeded => None,
            QueryOutcome::Failed => Some(Refusal::Internal),
            QueryOutcome::Panicked => Some(Refusal::Internal),
            QueryOutcome::TimedOut => Some(Refusal::TimedOut),
        },
{
    match outcome {
        QueryOutcome::Succeeded => None,
        QueryOutcome::Failed => Some(Refusal::Internal),
        QueryOutcome::Panicked => Some(Refusal::Internal),
        QueryOutcome::TimedOut => Some(Refusal::TimedOut),
    }
}

/// What comes first out of an Arrow export.
#[derive(Debug, Clone, Copy, PartialEq, Eq, Structural)]
pub enum FirstChunk {
    Received,
    /// The export failed before it had produced anything.
    Failed,
    /// The export ended without a chunk.
    Ended,
    /// Nothing came within the start timeout.
    TimedOut,
}

/// What a request is answered whose Arrow export did not start.
pub fn arrow_refusal(first: FirstChunk) -> (refusal: Option<Refusal>)
    ensures
        refusal == match first {
            FirstChunk::Received => None,
            FirstChunk::Failed => Some(Refusal::Internal),
            FirstChunk::Ended => Some(Refusal::Internal),
            FirstChunk::TimedOut => Some(Refusal::TimedOut),
        },
{
    match first {
        FirstChunk::Received => None,
        FirstChunk::Failed => Some(Refusal::Internal),
        FirstChunk::Ended => Some(Refusal::Internal),
        FirstChunk::TimedOut => Some(Refusal::TimedOut),
    }
}

/// How the task of an Arrow export ended.
#[derive(Debug, Clone, Copy, PartialEq, Eq, Structural)]
pub enum ExportEnd {
    Finished,
    Failed,
    Panicked,
}

/// What is put into the body of an Arrow export that broke off. A client that has
/// gone away is told nothing.
pub fn export_error(end: ExportEnd, cancelled: bool) -> (message: Option<&'static str>)
    ensures
        match message {
            Some(text) => !cancelled && ((end == ExportEnd::Failed && text@
                == "Arrow export failed"@) || (end == ExportEnd::Panicked && text@
                == "Arrow export task failed"@)),
            None => cancelled || end == ExportEnd::Finished,
        },
{
    if cancelled {
        return None;
    }
    match end {
        ExportEnd::Finished => None,
        ExportEnd::Failed => Some("Arrow export failed"),
        ExportEnd::Panicked => Some("Arrow export task failed"),
    }
}

/// The key under which a configured ticker and its stored trades meet.
pub open spec fn pair_key(exchange: Exchange, symbol: Seq<char>) -> Seq<char> {
    exchange.spec_name() + ":"@ + crate::text::lowercase(symbol)
}

/// The last of `stored` whose key is `key`.
pub open spec fn stored_pair(
    stored: Seq<crate::storage::PairInfoView>,
    key: Seq<char>,
) -> Option<crate::storage::PairInfoView>
    decreases stored.len(),
{
    if stored.len() == 0 {
        None
    } else if pair_key(stored.last().ticker.exchange, stored.last().ticker.symbol) == key {
        Some(stored.last())
    } else {
        stored_pair(stored.drop_last(), key)
    }
}

/// What is reported of a configured ticker: what is stored under its key, or the
/// ticker without bounds.
pub open spec fn merged_pair(
    ticker: crate::market::TickerView,
    stored: Seq<crate::storage::PairInfoView>,
) -> crate::storage::PairInfoView {
    match stored_pair(stored, pair_key(ticker.exchange, ticker.shown())) {
        Some(pair) => pair,
        None => crate::storage::PairInfoView { ticker, earliest: None, latest: None },
    }
}

fn key_text(exchange: Exchange, symbol: &str) -> (key: String)
    ensures
        key@ == pair_key(exchange, symbol@),
{
    let mut key = exchange.name();
    key.append(":");
    let lower = to_lowercase(symbol);
    key.append(lower.as_str());
    key
}

/// Enrich the configured tickers with the time bounds of their stored trades.
/// Every configured ticker is reported once, in order.
pub fn merge_pairs(configured: &Vec<Ticker>, stored: &Vec<PairInfo>) -> (merged: Vec<PairInfo>)
    ensures
        crate::text::views(merged@) == Seq::new(
            configured@.len(),
            |i: int| merged_pair(configured@[i]@, crate::text::views(stored@)),
        ),
{
    let ghost rows = crate::text::views(stored@);
    let mut merged: Vec<PairInfo> = Vec::new();
    let mut i: usize = 0;
    while i < configured.len()
        invariant
            i <= configured@.len(),
            rows == crate::text::views(stored@),
            merged@.len() == i,
            forall|j: int|
                0 <= j < i ==> (#[trigger] merged@[j])@ == merged_pair(configured@[j]@, rows),
        decreases configured@.len() - i,
    {
        let ticker = &configured[i];
        let shown = ticker.shown();
        let key = key_text(ticker.exchange, shown.as_str());
        let mut found: Option<usize> = None;
        let mut j: usize = 0;
        assert(rows.take(0) =~= Seq::<crate::storage::PairInfoView>::empty());
        while j < stored.len()
            invariant
                j <= stored@.len(),
                rows == crate::text::views(stored@),
                match found {
                    Some(k) => k < j && stored_pair(rows.take(j as int), key@) == Some(
                        rows[k as int],
                    ),
                    None => stored_pair(rows.take(j as int), key@) is None,
                },
            decreases stored@.len() - j,
        {
            let ghost head = rows.take(j as int + 1);
            assert(head.drop_last() =~= rows.take(j as int));
            assert(head.last() == stored@[j as int]@);
            let stored_key = key_text(
                stored[j].ticker.exchange,
                stored[j].ticker.symbol.as_str(),
            );
            if text_eq(stored_key.as_str(), key.as_str()) {
                found = Some(j);
            }
            j += 1;
        }
        assert(rows.take(j as int) =~= rows);
        match found {
            Some(k) => merged.push(stored[k].clone()),
            None => merged.push(
                PairInfo { ticker: ticker.clone(), earliest: None, latest: None },
            ),
        }
        i += 1;
    }
    assert(crate::text::views(merged@) =~= Seq::new(
        configured@.len(),
        |i: int| merged_pair(configured@[i]@, crate::text::views(stored@)),
    ));
    merged
}

/// A configured ticker without stored trades is still reported, without bounds.
pub proof fn law_configured_pairs_are_always_reported(
    ticker: crate::market::TickerView,
    stored: Seq<crate::storage::PairInfoView>,
)
    requires
        forall|i: int|
            0 <= i < stored.len() ==> pair_key(
                (#[trigger] stored[i]).ticker.exchange,
                stored[i].ticker.symbol,
            ) != pair_key(ticker.exchange, ticker.shown()),
    ensures
        merged_pair(ticker, stored) == (crate::storage::PairInfoView {
            ticker,
            earliest: None,
            latest: None,
        }),
    decreases stored.len(),
{
    if stored.len() > 0 {
        let shorter = stored.drop_last();
        assert forall|i: int| 0 <= i < shorter.len() implies pair_key(
            (#[trigger] shorter[i]).ticker.exchange,
            shorter[i].ticker.symbol,
        ) != pair_key(ticker.exchange, ticker.shown()) by {
            assert(shorter[i] == stored[i]);
        }
        let last = stored[stored.len() - 1];
        assert(pair_key(last.ticker.exchange, last.ticker.symbol) != pair_key(
            ticker.exchange,
            ticker.shown(),
        ));
        law_configured_pairs_are_always_reported(ticker, shorter);
    }
}

/// Exchanges in ascending order of their names once `entry` is among them. An entry of
/// the same name gives way.
pub open spec fn with_exchange(
    listed: Seq<(Seq<char>, Seq<Seq<char>>)>,
    entry: (Seq<char>, Seq<Seq<char>>),
) -> Seq<(Seq<char>, Seq<Seq<char>>)>
    decreases listed.len(),
{
    if listed.len() == 0 {
        seq![entry]
    } else if listed.last().0 == entry.0 {
        listed.drop_last().push(entry)
    } else if crate::text::text_less(listed.last().0, entry.0) {
        listed.push(entry)
    } else {
        with_exchange(listed.drop_last(), entry).push(listed.last())
    }
}

/// Exchanges in ascending order of their names, each with the symbols of its last entry.
pub open spec fn exchanges_by_name(tickers: Seq<(Seq<char>, Seq<Seq<char>>)>) -> Seq<
    (Seq<char>, Seq<Seq<char>>),
>
    decreases tickers.len(),
{
    if tickers.len() == 0 {
        Seq::empty()
    } else {
        with_exchange(exchanges_by_name(tickers.drop_last()), tickers.last())
    }
}

/// The member of an exchange: its name, and its symbols in an array.
pub open spec fn exchange_member(entry: (Seq<char>, Seq<Seq<char>>)) -> Seq<char> {
    crate::json::quoted(entry.0) + ":"@ + crate::json::text_array(entry.1)
}

/// The body of the reply to `/exchanges`: an object whose only member, `exchanges`, is an
/// object that maps the name of each exchange to the array of its symbols.
pub open spec fn exchanges_body(tickers: Seq<(Seq<char>, Seq<Seq<char>>)>) -> Seq<char> {
    "{\"exchanges\":{"@ + crate::json::comma_separated(
        exchanges_by_name(tickers).map_values(
            |entry: (Seq<char>, Seq<Seq<char>>)| exchange_member(entry),
        ),
    ) + "}}"@
}

/// Put `entry` among exchanges that are in ascending order of their names.
fn insert_exchange(listed: &mut Vec<ExchangeSymbols>, entry: ExchangeSymbols)
    ensures
        crate::text::views(final(listed)@) == with_exchange(
            crate::text::views(old(listed)@),
            entry@,
        ),
{
    let ghost before = crate::text::views(listed@);
    let ghost added = entry@;
    let mut at: usize = listed.len();
    assert(before.take(at as int) =~= before);
    assert(before.skip(at as int) =~= Seq::<(Seq<char>, Seq<Seq<char>>)>::empty());
    while at > 0 && !text_eq(listed[at - 1].exchange.as_str(), entry.exchange.as_str())
        && !text_before(listed[at - 1].exchange.as_str(), entry.exchange.as_str())
        invariant
            at <= listed@.len(),
            entry@ == added,
            before == crate::text::views(listed@),
            with_exchange(before, added) == with_exchange(before.take(at as int), added)
                + before.skip(at as int),
        ensures
            at <= listed@.len(),
            entry@ == added,
            before == crate::text::views(listed@),
            with_exchange(before, added) == with_exchange(before.take(at as int), added)
                + before.skip(at as int),
            at > 0 ==> before[at - 1].0 == added.0 || crate::text::text_less(
                before[at - 1].0,
                added.0,
            ),
        decreases at,
    {
        proof {
            let head = before.take(at as int);
            assert(head.last() == listed@[at - 1]@);
            assert(head.drop_last() =~= before.take(at as int - 1));
            let inner = with_exchange(head.drop_last(), added);
            assert(inner.push(head.last()) + before.skip(at as int) =~= inner + before.skip(
                at as int - 1,
            ));
        }
        at -= 1;
    }
    let ghost head = before.take(at as int);
    proof {
        if at > 0 {
            assert(head.last() == before[at - 1]);
        }
    }
    if at > 0 && text_eq(listed[at - 1].exchange.as_str(), entry.exchange.as_str()) {
        listed.set(at - 1, entry);
        assert(crate::text::views(listed@) =~= head.drop_last().push(added) + before.skip(
            at as int,
        ));
    } else {
        listed.insert(at, entry);
        assert(crate::text::views(listed@) =~= head.push(added) + before.skip(at as int));
        if at == 0 {
            assert(head.push(added) =~= seq![added]);
        }
    }
}

/// The body of the reply to `/exchanges`.
pub fn exchanges_reply(tickers: Vec<ExchangeSymbols>) -> (body: String)
    ensures
        body@ == exchanges_body(crate::text::views(tickers@)),
{
    let ghost all = crate::text::views(tickers@);
    let mut listed: Vec<ExchangeSymbols> = Vec::new();
    let mut i: usize = 0;
    assert(all.take(0) =~= Seq::<(Seq<char>, Seq<Seq<char>>)>::empty());
    assert(crate::text::views(listed@) =~= Seq::<(Seq<char>, Seq<Seq<char>>)>::empty());
    while i < tickers.len()
        invariant
            i <= tickers@.len(),
            all == crate::text::views(tickers@),
            crate::text::views(listed@) == exchanges_by_name(all.take(i as int)),
        decreases tickers@.len() - i,
    {
        let ghost head = all.take(i as int + 1);
        assert(head.drop_last() =~= all.take(i as int));
        assert(head.last() == tickers@[i as int]@);
        let entry = ExchangeSymbols {
            exchange: tickers[i].exchange.clone(),
            symbols: clone_strings(&tickers[i].symbols),
        };
        insert_exchange(&mut listed, entry);
        i += 1;
    }
    assert(all.take(i as int) =~= all);
    let ghost entries = exchanges_by_name(all);
    let ghost members = entries.map_values(
        |entry: (Seq<char>, Seq<Seq<char>>)| exchange_member(entry),
    );
    let mut inner = String::new();
    let mut j: usize = 0;
    assert(members.take(0) =~= Seq::<Seq<char>>::empty());
    while j < listed.len()
        invariant
            j <= listed@.len(),
            entries == crate::text::views(listed@),
            members == entries.map_values(
                |entry: (Seq<char>, Seq<Seq<char>>)| exchange_member(entry),
            ),
            inner@ == crate::json::comma_separated(members.take(j as int)),
        decreases listed@.len() - j,
    {
        let symbols = to_text_array(&listed[j].symbols);
        let mut member = quote(listed[j].exchange.as_str());
        member.append(":");
        member.append(symbols.as_str());
        assert(entries[j as int] == listed@[j as int]@);
        append_item(&mut inner, j, member.as_str(), Ghost(members));
        j += 1;
    }
    assert(members.take(j as int) =~= members);
    let mut body = "{\"exchanges\":{".to_owned();
    body.append(inner.as_str());
    body.append("}}");
    body
}

/// Exchanges whose names ascend, so that none occurs twice.
pub open spec fn names_ascend(listed: Seq<(Seq<char>, Seq<Seq<char>>)>) -> bool {
    forall|i: int, j: int|
        #![trigger listed[i], listed[j]]
        0 <= i < j < listed.len() ==> crate::text::text_less(listed[i].0, listed[j].0)
}

proof fn lemma_with_exchange(
    listed: Seq<(Seq<char>, Seq<Seq<char>>)>,
    entry: (Seq<char>, Seq<Seq<char>>),
)
    requires
        names_ascend(listed),
    ensures
        names_ascend(with_exchange(listed, entry)),
        with_exchange(listed, entry).contains(entry),
        forall|other: (Seq<char>, Seq<Seq<char>>)|
            other != entry ==> (#[trigger] with_exchange(listed, entry).contains(other) <==> (
            listed.contains(other) && other.0 != entry.0)),
    decreases listed.len(),
{
    let after = with_exchange(listed, entry);
    if listed.len() == 0 {
        assert(after[0] == entry);
    } else {
        let last = listed.last();
        let rest = listed.drop_last();
        assert forall|i: int, j: int|
            #![trigger rest[i], rest[j]]
            0 <= i < j < rest.len() implies crate::text::text_less(rest[i].0, rest[j].0) by {
            assert(listed[i] == rest[i] && listed[j] == rest[j]);
        }
        crate::text::lemma_text_less_total(last.0, entry.0);
        assert(listed[listed.len() - 1] == last);
        assert forall|i: int| 0 <= i < rest.len() implies crate::text::text_less(
            (#[trigger] rest[i]).0,
            last.0,
        ) by {
            assert(listed[i] == rest[i]);
        }
        let inner = if last.0 == entry.0 {
            rest
        } else if crate::text::text_less(last.0, entry.0) {
            listed
        } else {
            with_exchange(rest, entry)
        };
        let end = if last.0 == entry.0 || crate::text::text_less(last.0, entry.0) {
            entry
        } else {
            last
        };
        assert(after == inner.push(end));
        if last.0 != entry.0 && !crate::text::text_less(last.0, entry.0) {
            lemma_with_exchange(rest, entry);
        }
        assert forall|i: int| 0 <= i < inner.len() implies crate::text::text_less(
            (#[trigger] inner[i]).0,
            end.0,
        ) by {
            if last.0 == entry.0 {
                assert(inner[i] == rest[i]);
            } else if crate::text::text_less(last.0, entry.0) {
                if i < rest.len() {
                    assert(inner[i] == rest[i]);
                    crate::text::lemma_text_less_transitive(inner[i].0, last.0, entry.0);
                }
            } else if inner[i] != entry {
                assert(inner.contains(inner[i]));
                assert(rest.contains(inner[i]));
                let k = choose|k: int| 0 <= k < rest.len() && rest[k] == inner[i];
                assert(crate::text::text_less(rest[k].0, last.0));
            }
        }
        assert(names_ascend(after)) by {
            assert forall|i: int, j: int|
                #![trigger after[i], after[j]]
                0 <= i < j < after.len() implies crate::text::text_less(
                after[i].0,
                after[j].0,
            ) by {
                assert(after[i] == inner[i]);
                if j < inner.len() {
                    assert(after[j] == inner[j]);
                }
            }
        }
        assert(after[inner.len() as int] == end);
        assert(after.contains(entry)) by {
            if end != entry {
                let k = choose|k: int| 0 <= k < inner.len() && inner[k] == entry;
                assert(after[k] == entry);
            }
        }
        assert forall|other: (Seq<char>, Seq<Seq<char>>)| other != entry implies (
        #[trigger] after.contains(other) <==> (listed.contains(other) && other.0 != entry.0)) by {
            assert(listed =~= rest.push(last));
            assert(after.contains(other) <==> inner.contains(other) || other == end) by {
                if inner.contains(other) {
                    let k = choose|k: int| 0 <= k < inner.len() && inner[k] == other;
                    assert(after[k] == other);
                }
                if after.contains(other) {
                    let k = choose|k: int| 0 <= k < after.len() && after[k] == other;
                    if k < inner.len() {
                        assert(inner[k] == other);
                    }
                }
            }
            assert(listed.contains(other) <==> rest.contains(other) || other == last) by {
                if rest.contains(other) {
                    let k = choose|k: int| 0 <= k < rest.len() && rest[k] == other;
                    assert(listed[k] == other);
                }
                if listed.contains(other) {
                    let k = choose|k: int| 0 <= k < listed.len() && listed[k] == other;
                    if k < rest.len() {
                        assert(rest[k] == other);
                    }
                }
            }
            if inner == rest || inner == listed {
                if inner.contains(other) && other.0 == entry.0 {
                    let k = choose|k: int| 0 <= k < inner.len() && inner[k] == other;
                    assert(crate::text::text_less(inner[k].0, end.0));
                    crate::text::lemma_text_less_total(other.0, entry.0);
                }
            }
        }
    }
}

/// The reply to `/exchanges` lists each exchange once, in ascending order of the names,
/// with the symbols of the last entry that has its name, and no other.
pub proof fn law_exchanges_are_listed_by_name(tickers: Seq<(Seq<char>, Seq<Seq<char>>)>, i: int)
    requires
        0 <= i < tickers.len(),
    ensures
        names_ascend(exchanges_by_name(tickers)),
        exchanges_by_name(tickers).contains(tickers[i]) || exists|k: int|
            i < k < tickers.len() && (#[trigger] tickers[k]).0 == tickers[i].0,
        forall|entry: (Seq<char>, Seq<Seq<char>>)| #[trigger]
            exchanges_by_name(tickers).contains(entry) ==> tickers.contains(entry),
    decreases tickers.len(),
{
    let shorter = tickers.drop_last();
    let last = tickers.last();
    assert(tickers[tickers.len() - 1] == last);
    if shorter.len() > 0 {
        let at = if i < shorter.len() {
            i
        } else {
            0
        };
        law_exchanges_are_listed_by_name(shorter, at);
    }
    lemma_with_exchange(exchanges_by_name(shorter), last);
    if i < shorter.len() {
        assert(shorter[i] == tickers[i]);
        if exchanges_by_name(shorter).contains(tickers[i]) {
            if tickers[i] != last {
                assert(exchanges_by_name(tickers).contains(tickers[i]) || tickers[i].0 == last.0);
            }
        } else {
            let k = choose|k: int|
                i < k < shorter.len() && (#[trigger] shorter[k]).0 == shorter[i].0;
            assert(tickers[k] == shorter[k]);
        }
    }
    assert forall|entry: (Seq<char>, Seq<Seq<char>>)| #[trigger]
        exchanges_by_name(tickers).contains(entry) implies tickers.contains(entry) by {
        if entry != last {
            assert(exchanges_by_name(shorter).contains(entry));
            if shorter.len() > 0 {
                assert(shorter.contains(entry));
                let k = choose|k: int| 0 <= k < shorter.len() && shorter[k] == entry;
                assert(tickers[k] == entry);
            }
        }
    }
}

/// Bodies of replies that never change once the server runs.
pub struct CachedResponses {
    exchanges: String,
}

impl CachedResponses {
    /// The body of the reply to `/exchanges`.
    pub closed spec fn spec_exchanges(&self) -> Seq<char> {
        self.exchanges@
    }

    /// Write the bodies once, so that no request has to.
    pub fn new(tickers: Vec<ExchangeSymbols>) -> (cached: CachedResponses)
        ensures
            cached.spec_exchanges() == exchanges_body(crate::text::views(tickers@)),
    {
        CachedResponses { exchanges: exchanges_reply(tickers) }
    }

    /// The body of the reply to `/exchanges`.
    pub fn exchanges(&self) -> (body: &str)
        ensures
            body@ == self.spec_exchanges(),
    {
        self.exchanges.as_str()
    }
}

/// A memory budget grants twenty-five hundred rows and a five-hundred-twelfth of a query
/// for each megabyte, within bounds; without a budget the bounds themselves hold.
pub proof fn law_budget_follows_the_memory(memory_limit_mb: u64, budget: QueryBudget)
    requires
        call_ensures(query_budget, (memory_limit_mb,), budget),
    ensures
        50_000 <= budget.max_arrow_rows <= 1_000_000,
        1 <= budget.concurrency <= 4,
        memory_limit_mb == 0 ==> budget.max_arrow_rows == 1_000_000 && budget.concurrency == 4,
        memory_limit_mb >= 400 ==> budget.max_arrow_rows == 1_000_000,
        20 <= memory_limit_mb <= 400 ==> budget.max_arrow_rows == 2_500 * memory_limit_mb,
        0 < memory_limit_mb <= 20 ==> budget.max_arrow_rows == 50_000,
        memory_limit_mb >= 2_048 ==> budget.concurrency == 4,
        512 <= memory_limit_mb < 2_048 ==> 512 * budget.concurrency <= memory_limit_mb < 512 * (
        budget.concurrency + 1),
        0 < memory_limit_mb < 1_024 ==> budget.concurrency == 1,
{
}

/// An export is as long as asked for, or fifty thousand rows, unless the budget grants
/// less.
pub proof fn law_exports_stay_within_the_budget(
    budget: QueryBudget,
    limit: Option<usize>,
    rows: usize,
)
    requires
        call_ensures(QueryBudget::bounded_limit, (&budget, limit), rows),
    ensures
        rows <= budget.max_arrow_rows,
        limit matches Some(wanted) ==> rows <= wanted && (rows == wanted || rows
            == budget.max_arrow_rows),
        limit is None ==> rows <= 50_000 && (rows == 50_000 || rows == budget.max_arrow_rows),
{
}

/// A query is in order if and only if its venue and its market are known.
pub proof fn law_queries_name_venue_and_market(query: TradeQuery, result: Result<(), String>)
    requires
        call_ensures(TradeQuery::validate, (&query,), result),
    ensures
        result is Ok <==> Venue::spec_parse(query.venue@) is Some && MarketKind::spec_parse(
            query.market@,
        ) is Some,
        result matches Err(message) ==> Venue::spec_parse(query.venue@) is None
            ==> crate::text::occurs_in(query.venue@, message@),
        result matches Err(message) ==> Venue::spec_parse(query.venue@) is Some
            ==> crate::text::occurs_in(query.market@, message@),
{
    if let Err(message) = result {
        if Venue::spec_parse(query.venue@) is None {
            let n = "unknown venue: '"@.len() as int;
            assert(message@.subrange(n, n + query.venue@.len()) =~= query.venue@);
        } else {
            let n = "unknown market kind: '"@.len() as int;
            assert(message@.subrange(n, n + query.market@.len()) =~= query.market@);
        }
    }
}

/// The trades of an exchange are looked up by its name: venue and market of an exchange
/// give the name under which its trades are stored.
pub proof fn law_queries_go_to_the_exchange(query: TradeQuery, exchange: Exchange, filter: String)
    requires
        call_ensures(TradeQuery::exchange_filter, (&query,), filter),
        Venue::spec_parse(query.venue@) is Some,
        MarketKind::spec_parse(query.market@) is Some,
        Exchange::spec_listed(
            Venue::spec_parse(query.venue@)->0,
            MarketKind::spec_parse(query.market@)->0,
        ) == Some(exchange),
    ensures
        filter@ == exchange.spec_name(),
{
}

/// The name that venue and market stand for is that of the exchange which the venue runs
/// for the market; without such an exchange there is none.
pub proof fn law_exchange_is_named_by_venue_and_market(
    venue: &str,
    market: &str,
    name: Option<String>,
)
    requires
        call_ensures(exchange_from_venue_market, (venue, market), name),
    ensures
        name matches Some(text) ==> exists|exchange: Exchange|
            #![trigger exchange.spec_name()]
            Venue::spec_parse(venue@) is Some && MarketKind::spec_parse(market@) is Some
                && Exchange::spec_listed(
                Venue::spec_parse(venue@)->0,
                MarketKind::spec_parse(market@)->0,
            ) == Some(exchange) && text@ == exchange.spec_name(),
        Venue::spec_parse(venue@) is Some && MarketKind::spec_parse(market@) is Some
            && Exchange::spec_listed(
            Venue::spec_parse(venue@)->0,
            MarketKind::spec_parse(market@)->0,
        ) is Some ==> name is Some,
{
}

/// An error answer has the status that was asked for, and its body is an object with the
/// message as its only member.
pub proof fn law_error_answers_carry_their_message(
    status: u16,
    message: &str,
    reply: ErrorReply,
)
    requires
        call_ensures(json_err, (status, message), reply),
    ensures
        reply.status == status,
        reply.body@ == "{\"error\":\""@ + crate::json::escaped(message@) + "\"}"@,
        crate::json::unescaped(crate::json::escaped(message@)) == Some(message@),
{
    law_error_body_reads_back(message@);
}

/// Who must authenticate is told so, who is too fast is told so, a server that is busy or
/// too slow asks to come back, and all else is its own fault.
pub proof fn law_refusals_tell_the_status(refusal: Refusal, reply: ErrorReply)
    requires
        call_ensures(Refusal::reply, (refusal,), reply),
    ensures
        reply.status == 401 <==> refusal is Unauthorized,
        reply.status == 429 <==> refusal is RateLimited,
        reply.status == 500 <==> refusal is Internal,
        reply.status == 503 <==> refusal is GateExhausted || refusal is QueryBusy || refusal
            is TimedOut,
{
}

/// Each refusal on the way in is counted under its kind, and no other is.
pub proof fn law_refusals_are_counted_by_kind(refusal: Refusal, event: Option<AccessEvent>)
    requires
        call_ensures(Refusal::access_event, (refusal,), event),
    ensures
        refusal is GateExhausted <==> event == Some(AccessEvent::AdmissionBlocked),
        refusal is Unauthorized <==> event == Some(AccessEvent::AuthFailure),
        refusal is RateLimited <==> event == Some(AccessEvent::RateLimited),
        refusal is QueryBusy || refusal is Internal || refusal is TimedOut ==> event is None,
{
}

/// A query that succeeded is answered, one that ran out of time is told so, and one that
/// failed in any other way is an internal error.
pub proof fn law_query_ends_are_told_apart(outcome: QueryOutcome, refusal: Option<Refusal>)
    requires
        call_ensures(query_refusal, (outcome,), refusal),
    ensures
        refusal is None <==> outcome is Succeeded,
        refusal == Some(Refusal::TimedOut) <==> outcome is TimedOut,
        refusal == Some(Refusal::Internal) <==> outcome is Failed || outcome is Panicked,
{
}

/// An export is answered once its first chunk is there; before that a failure can still be
/// told.
pub proof fn law_export_starts_are_told_apart(first: FirstChunk, refusal: Option<Refusal>)
    requires
        call_ensures(arrow_refusal, (first,), refusal),
    ensures
        refusal is None <==> first is Received,
        refusal == Some(Refusal::TimedOut) <==> first is TimedOut,
        refusal == Some(Refusal::Internal) <==> first is Failed || first is Ended,
{
}

/// A broken export is told to a client that is still there, and only to such a one.
pub proof fn law_broken_exports_are_told(
    end: ExportEnd,
    cancelled: bool,
    message: Option<&'static str>,
)
    requires
        call_ensures(export_error, (end, cancelled), message),
    ensures
        message is Some <==> !cancelled && !(end is Finished),
{
}

proof fn lemma_stored_pair(stored: Seq<crate::storage::PairInfoView>, key: Seq<char>, k: int)
    requires
        0 <= k < stored.len(),
        pair_key(stored[k].ticker.exchange, stored[k].ticker.symbol) == key,
        forall|j: int|
            k < j < stored.len() ==> pair_key(
                (#[trigger] stored[j]).ticker.exchange,
                stored[j].ticker.symbol,
            ) != key,
    ensures
        stored_pair(stored, key) == Some(stored[k]),
    decreases stored.len(),
{
    if k < stored.len() - 1 {
        let shorter = stored.drop_last();
        assert(pair_key(
            stored[stored.len() - 1].ticker.exchange,
            stored[stored.len() - 1].ticker.symbol,
        ) != key);
        assert(shorter[k] == stored[k]);
        assert forall|j: int| k < j < shorter.len() implies pair_key(
            (#[trigger] shorter[j]).ticker.exchange,
            shorter[j].ticker.symbol,
        ) != key by {
            assert(shorter[j] == stored[j]);
        }
        lemma_stored_pair(shorter, key, k);
    }
}

/// Every configured ticker is reported, in order: with the bounds that are stored for its
/// exchange and its shown symbol, up to case, or without bounds where nothing is stored.
pub proof fn law_pairs_report_their_bounds(
    configured: Vec<Ticker>,
    stored: Vec<PairInfo>,
    merged: Vec<PairInfo>,
    i: int,
    k: int,
)
    requires
        call_ensures(merge_pairs, (&configured, &stored), merged),
        0 <= i < configured@.len(),
    ensures
        merged@.len() == configured@.len(),
        ({
            let ticker = configured@[i];
            let shown = match ticker.display {
                Some(display) => display@,
                None => ticker.symbol@,
            };
            let own = ticker.exchange.spec_name() + ":"@ + crate::text::lowercase(shown);
            &&& (forall|j: int|
                0 <= j < stored@.len() ==> (#[trigger] stored@[j]).ticker.exchange.spec_name()
                    + ":"@ + crate::text::lowercase(stored@[j].ticker.symbol@) != own)
                ==> merged@[i]@.ticker == ticker@ && merged@[i].earliest is None
                && merged@[i].latest is None
            &&& 0 <= k < stored@.len() && stored@[k].ticker.exchange.spec_name() + ":"@
                + crate::text::lowercase(stored@[k].ticker.symbol@) == own && (forall|j: int|
                k < j < stored@.len() ==> (#[trigger] stored@[j]).ticker.exchange.spec_name()
                    + ":"@ + crate::text::lowercase(stored@[j].ticker.symbol@) != own)
                ==> merged@[i].earliest == stored@[k].earliest && merged@[i].latest
                == stored@[k].latest && merged@[i]@.ticker == stored@[k].ticker@
        }),
{
    let rows = crate::text::views(stored@);
    let ticker = configured@[i]@;
    let key = pair_key(ticker.exchange, ticker.shown());
    let seen = crate::text::views(merged@);
    assert(seen.len() == configured@.len());
    assert(seen[i] == merged@[i]@);
    assert forall|j: int| 0 <= j < rows.len() implies (#[trigger] rows[j])
        == stored@[j]@ by {}
    if forall|j: int|
        0 <= j < stored@.len() ==> (#[trigger] stored@[j]).ticker.exchange.spec_name() + ":"@
            + crate::text::lowercase(stored@[j].ticker.symbol@) != key {
        assert forall|j: int| 0 <= j < rows.len() implies pair_key(
            (#[trigger] rows[j]).ticker.exchange,
            rows[j].ticker.symbol,
        ) != key by {
            assert(rows[j] == stored@[j]@);
        }
        law_configured_pairs_are_always_reported(ticker, rows);
    }
    if 0 <= k < stored@.len() && stored@[k].ticker.exchange.spec_name() + ":"@
        + crate::text::lowercase(stored@[k].ticker.symbol@) == key && (forall|j: int|
        k < j < stored@.len() ==> (#[trigger] stored@[j]).ticker.exchange.spec_name() + ":"@
            + crate::text::lowercase(stored@[j].ticker.symbol@) != key) {
        assert(rows[k] == stored@[k]@);
        assert forall|j: int| k < j < rows.len() implies pair_key(
            (#[trigger] rows[j]).ticker.exchange,
            rows[j].ticker.symbol,
        ) != key by {
            assert(rows[j] == stored@[j]@);
        }
        lemma_stored_pair(rows, key, k);
    }
}

/// The reply to `/exchanges` is an object whose only member maps the exchanges, in
/// ascending order of their names, to the arrays of their symbols: each that is given is
/// there, unless a later one has its name, and no other is.
pub proof fn law_exchanges_reply_maps_names_to_symbols(
    tickers: Vec<ExchangeSymbols>,
    body: String,
    i: int,
)
    requires
        call_ensures(exchanges_reply, (tickers,), body),
        0 <= i < tickers@.len(),
    ensures
        exists|listed: Seq<(Seq<char>, Seq<Seq<char>>)>|
            {
                &&& #[trigger] names_ascend(listed)
                &&& body@ == "{\"exchanges\":{"@ + crate::json::comma_separated(
                    Seq::new(
                        listed.len(),
                        |k: int|
                            crate::json::quoted(listed[k].0) + ":"@ + crate::json::text_array(
                                listed[k].1,
                            ),
                    ),
                ) + "}}"@
                &&& (forall|k: int|
                    i < k < tickers@.len() ==> (#[trigger] tickers@[k]).exchange@
                        != tickers@[i].exchange@) ==> listed.contains(
                    (tickers@[i].exchange@, crate::text::views(tickers@[i].symbols@)),
                )
                &&& forall|k: int|
                    0 <= k < listed.len() ==> exists|j: int|
                        0 <= j < tickers@.len() && (#[trigger] tickers@[j]).exchange@ == (
                        #[trigger] listed[k]).0 && crate::text::views(tickers@[j].symbols@)
                            == listed[k].1
            },
{
    let all = crate::text::views(tickers@);
    let listed = exchanges_by_name(all);
    law_exchanges_are_listed_by_name(all, i);
    let members = Seq::new(
        listed.len(),
        |k: int|
            crate::json::quoted(listed[k].0) + ":"@ + crate::json::text_array(listed[k].1),
    );
    assert(listed.map_values(|entry: (Seq<char>, Seq<Seq<char>>)| exchange_member(entry))
        =~= members);
    assert(all[i] == tickers@[i]@);
    if forall|k: int|
        i < k < tickers@.len() ==> (#[trigger] tickers@[k]).exchange@ != tickers@[i].exchange@ {
        assert forall|k: int| i < k < all.len() implies (#[trigger] all[k]).0 != all[i].0 by {
            assert(tickers@[k].exchange@ != tickers@[i].exchange@);
        }
        assert(listed.contains(all[i]));
    }
    assert forall|k: int| 0 <= k < listed.len() implies exists|j: int|
        0 <= j < tickers@.len() && (#[trigger] tickers@[j]).exchange@ == (#[trigger] listed[k]).0
            && crate::text::views(tickers@[j].symbols@) == listed[k].1 by {
        assert(listed.contains(listed[k]));
        assert(all.contains(listed[k]));
        let j = choose|j: int| 0 <= j < all.len() && all[j] == listed[k];
        assert(tickers@[j]@ == listed[k]);
    }
    assert(names_ascend(listed));
}

/// Without exchanges the reply is an empty object.
pub proof fn law_no_exchanges_make_an_empty_reply(tickers: Vec<ExchangeSymbols>, body: String)
    requires
        call_ensures(exchanges_reply, (tickers,), body),
        tickers@.len() == 0,
    ensures
        body@ == "{\"exchanges\":{}}"@,
{
    reveal_strlit("{\"exchanges\":{}}");
    reveal_strlit("{\"exchanges\":{");
    reveal_strlit("}}");
    let all = crate::text::views(tickers@);
    assert(exchanges_by_name(all).len() == 0);
    assert(body@ =~= "{\"exchanges\":{}}"@);
}

/// The cached reply is the one for the listed tickers.
pub proof fn law_cached_reply_is_the_reply(
    tickers: Vec<ExchangeSymbols>,
    cached: CachedResponses,
    served: &str,
    body: String,
)
    requires
        call_ensures(CachedResponses::new, (tickers,), cached),
        call_ensures(CachedResponses::exchanges, (&cached,), served),
        call_ensures(exchanges_reply, (tickers,), body),
    ensures
        served@ == body@,
{
}

/// A trade is kept with its instrument, both as they are.
pub proof fn law_annotated_trades_are_kept_whole(
    ticker: Ticker,
    trade: Trade,
    annotated: AnnotatedTrade,
)
    requires
        call_ensures(AnnotatedTrade::new, (ticker, trade), annotated),
    ensures
        annotated.ticker.symbol@ == ticker.symbol@,
        annotated.ticker.exchange == ticker.exchange,
        annotated.ticker.display is Some <==> ticker.display is Some,
        annotated.ticker.display is Some ==> annotated.ticker.display->0@ == ticker.display->0@,
        annotated.trade.time == trade.time,
        annotated.trade.is_sell == trade.is_sell,
        annotated.trade.price_units == trade.price_units,
        annotated.trade.qty_units == trade.qty_units,
{
    assert(annotated@.ticker == ticker@);
}

/// Each refusal says what it is about, as an error answer.
pub proof fn law_refusals_tell_their_reason(refusal: Refusal, reply: ErrorReply, message: &str)
    requires
        call_ensures(Refusal::reply, (refusal,), reply),
        refusal is GateExhausted ==> message@ == "server busy, try again later"@,
        refusal is Unauthorized ==> message@ == "missing or invalid auth token"@,
        refusal is RateLimited ==> message@ == "rate limit exceeded, slow down"@,
        refusal is QueryBusy ==> message@ == "server busy, too many concurrent requests"@,
        refusal is Internal ==> message@ == "internal error"@,
        refusal is TimedOut ==> message@ == "query timed out"@,
    ensures
        reply.body@ == "{\"error\":\""@ + crate::json::escaped(message@) + "\"}"@,
{
    law_error_body_reads_back(message@);
}

/// A query of a venue or a market kind that is not known is told which one, the venue
/// first.
pub proof fn law_queries_tell_what_is_unknown(
    query: TradeQuery,
    venue: Option<Venue>,
    market: Option<MarketKind>,
    venue_text: &str,
    market_text: &str,
    result: Result<(), String>,
)
    requires
        venue_text@ == query.venue@,
        market_text@ == query.market@,
        call_ensures(Venue::parse, (venue_text,), venue),
        call_ensures(MarketKind::parse, (market_text,), market),
        call_ensures(TradeQuery::validate, (&query,), result),
    ensures
        result is Ok <==> venue is Some && market is Some,
        venue is None ==> (result matches Err(message) && message@ == "unknown venue: '"@
            + query.venue@ + "'"@),
        venue is Some && market is None ==> (result matches Err(message) && message@
            == "unknown market kind: '"@ + query.market@
            + "' (expected spot, linear, or inverse)"@),
{
}

/// A query is for the exchange of its venue and market, by name; where there is none it is
/// for the two texts with a slash between them, which no exchange is named by.
pub proof fn law_queries_filter_by_the_exchange(
    query: TradeQuery,
    venue_text: &str,
    market_text: &str,
    name: Option<String>,
    filter: String,
)
    requires
        venue_text@ == query.venue@,
        market_text@ == query.market@,
        call_ensures(exchange_from_venue_market, (venue_text, market_text), name),
        call_ensures(TradeQuery::exchange_filter, (&query,), filter),
    ensures
        name matches Some(n) ==> filter@ == n@,
        name is None ==> filter@ == query.venue@ + seq!['/'] + query.market@,
{
    reveal_strlit("/");
    assert("/"@ =~= seq!['/']);
}

/// An export that broke off says so in its body, unless the client has gone, and tells a
/// failure from a crash.
pub proof fn law_broken_exports_say_why(
    end: ExportEnd,
    cancelled: bool,
    message: Option<&'static str>,
)
    requires
        call_ensures(export_error, (end, cancelled), message),
    ensures
        message matches Some(text) ==> end is Failed ==> text@ == "Arrow export failed"@,
        message matches Some(text) ==> end is Panicked ==> text@ == "Arrow export task failed"@,
{
}

} // verus!
