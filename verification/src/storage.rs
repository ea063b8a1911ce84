//! What is stored and how it is asked for.
//!
//! The database itself is driven from outside: this module makes its statements,
//! rows and decisions.

use vstd::prelude::*;
use vstd::string::*;

use crate::api::{AnnotatedTrade, TradeQuery};
use crate::config::{RetentionHours, StorageBytes};
use crate::market::{Exchange, Ticker, TickerInfo};
use crate::stream::Event;
use crate::text::{to_decimal, to_lowercase};

verus! {

/// A tracked pair with the range of its stored trades, in Unix milliseconds.
#[derive(Debug)]
pub struct PairInfo {
    pub ticker: Ticker,
    pub earliest: Option<u64>,
    pub latest: Option<u64>,
}

/// The mathematical value of a [`PairInfo`].
#[verifier::ext_equal]
pub struct PairInfoView {
    pub ticker: crate::market::TickerView,
    pub earliest: Option<u64>,
    pub latest: Option<u64>,
}

impl View for PairInfo {
    type V = PairInfoView;

    open spec fn view(&self) -> PairInfoView {
        PairInfoView { ticker: self.ticker@, earliest: self.earliest, latest: self.latest }
    }
}

impl Clone for PairInfo {
    fn clone(&self) -> (copy: PairInfo)
        ensures
            copy@ == self@,
    {
        PairInfo { ticker: self.ticker.clone(), earliest: self.earliest, latest: self.latest }
    }
}

/// The tables and the index, created where they are missing.
pub const SCHEMA_SQL: &'static str = "CREATE TABLE IF NOT EXISTS trades (exchange VARCHAR NOT NULL, symbol VARCHAR NOT NULL, ts BIGINT NOT NULL, price DOUBLE NOT NULL, qty DOUBLE NOT NULL, is_sell BOOLEAN NOT NULL); CREATE INDEX IF NOT EXISTS idx_trades_ex_sym_t ON trades (exchange, symbol, ts); CREATE TABLE IF NOT EXISTS ticker_info (exchange VARCHAR NOT NULL, symbol VARCHAR NOT NULL, min_ticksize INTEGER NOT NULL, min_qty INTEGER NOT NULL, contract_size INTEGER, PRIMARY KEY (exchange, symbol)); CREATE TABLE IF NOT EXISTS metadata (key VARCHAR NOT NULL PRIMARY KEY, value VARCHAR NOT NULL);";

/// Counts the trades.
pub const COUNT_TRADES_SQL: &'static str = "SELECT COUNT(*) FROM trades";

/// Deletes the oldest trades, as many as its parameter says.
pub const DELETE_OLDEST_SQL: &'static str = "DELETE FROM trades WHERE rowid IN (SELECT rowid FROM trades ORDER BY ts ASC LIMIT ?)";

/// Deletes the trades before a time.
pub const PURGE_OLD_SQL: &'static str = "DELETE FROM trades WHERE ts < ?1";

/// Stores what is known of a ticker.
pub const STORE_TICKER_SQL: &'static str = "INSERT OR REPLACE INTO ticker_info (exchange, symbol, min_ticksize, min_qty, contract_size) VALUES (?1, ?2, ?3, ?4, ?5)";

/// Every pair that has a stored trade, with its bounds.
pub const PAIRS_SQL: &'static str = "SELECT exchange, symbol, MIN(ts) AS earliest, MAX(ts) AS latest FROM trades GROUP BY exchange, symbol ORDER BY exchange, symbol";

/// Counts the pairs that have a stored trade.
pub const PAIR_COUNT_SQL: &'static str = "SELECT COUNT(DISTINCT exchange || ':' || symbol) FROM trades";

/// Stores a metadata value.
pub const SET_METADATA_SQL: &'static str = "INSERT OR REPLACE INTO metadata (key, value) VALUES (?1, ?2)";

/// Reads a metadata value.
pub const GET_METADATA_SQL: &'static str = "SELECT value FROM metadata WHERE key = ?1";

/// Metadata key of the time of the last cleanup.
pub const LAST_CLEANUP_KEY: &'static str = "last_cleanup";

/// Trades returned as JSON when the request names no limit.
pub const DEFAULT_TRADES_LIMIT: usize = 1000;

/// Upper bound on the trades returned as JSON.
pub const MAX_TRADES_LIMIT: usize = 10_000;

/// A value bound to a statement.
#[derive(Debug)]
pub enum SqlParam {
    Text(String),
    Int(i64),
}

/// The mathematical value of a [`SqlParam`].
#[verifier::ext_equal]
pub enum SqlParamView {
    Text(Seq<char>),
    Int(i64),
}

impl View for SqlParam {
    type V = SqlParamView;

    open spec fn view(&self) -> SqlParamView {
        match *self {
            SqlParam::Text(text) => SqlParamView::Text(text@),
            SqlParam::Int(n) => SqlParamView::Int(n),
        }
    }
}

/// A statement with the values bound to it, in order.
#[derive(Debug)]
pub struct Statement {
    pub sql: String,
    pub params: Vec<SqlParam>,
}

/// What is selected of a trade.
#[derive(Debug, Clone, Copy, PartialEq, Eq, Structural)]
pub enum TradeColumns {
    /// Exchange, symbol, time, price, quantity and side.
    All,
    /// Time, price, quantity and side.
    Arrow,
}

/// The start of a trade query.
pub open spec fn select_text(columns: TradeColumns) -> Seq<char> {
    match columns {
        TradeColumns::All => "SELECT exchange, symbol, ts, price, qty, is_sell FROM trades WHERE symbol = ? AND exchange = ?"@,
        TradeColumns::Arrow => "SELECT ts, price, qty, is_sell FROM trades WHERE symbol = ? AND exchange = ?"@,
    }
}

/// The lower bound of a trade query.
pub open spec fn from_text(bounded: bool) -> Seq<char> {
    if bounded {
        " AND ts >= ?"@
    } else {
        ""@
    }
}

/// The upper bound of a trade query.
pub open spec fn to_text(bounded: bool) -> Seq<char> {
    if bounded {
        " AND ts <= ?"@
    } else {
        ""@
    }
}

/// The order of a trade query: oldest first from a lower bound on, and newest first
/// without one.
pub open spec fn order_text(from_bounded: bool) -> Seq<char> {
    if from_bounded {
        " ORDER BY ts ASC"@
    } else {
        " ORDER BY ts DESC"@
    }
}

/// The text of a trade query.
pub open spec fn trade_sql(
    columns: TradeColumns,
    from_bounded: bool,
    to_bounded: bool,
    limit: nat,
) -> Seq<char> {
    select_text(columns) + from_text(from_bounded) + to_text(to_bounded) + order_text(from_bounded)
        + " LIMIT "@ + crate::text::decimal(limit)
}

/// The values bound to a trade query: symbol and exchange, then its bounds.
pub open spec fn trade_params(query: TradeQuery) -> Seq<SqlParamView> {
    let head = seq![
        SqlParamView::Text(crate::text::lowercase(query.symbol@)),
        SqlParamView::Text(crate::api::filter_text(query.venue@, query.market@)),
    ];
    let lower = match query.from {
        Some(from) => seq![SqlParamView::Int(from)],
        None => Seq::empty(),
    };
    let upper = match query.to {
        Some(to) => seq![SqlParamView::Int(to)],
        None => Seq::empty(),
    };
    head + lower + upper
}

/// Rows of a JSON query.
pub open spec fn json_rows(limit: Option<usize>) -> nat {
    match limit {
        Some(limit) => if limit < MAX_TRADES_LIMIT {
            limit as nat
        } else {
            MAX_TRADES_LIMIT as nat
        },
        None => DEFAULT_TRADES_LIMIT as nat,
    }
}

/// Rows of an Arrow query.
pub open spec fn arrow_query_rows(limit: Option<usize>) -> nat {
    match limit {
        Some(limit) => if limit < crate::api::MAX_ARROW_LIMIT {
            limit as nat
        } else {
            crate::api::MAX_ARROW_LIMIT as nat
        },
        None => crate::api::DEFAULT_ARROW_LIMIT as nat,
    }
}

/// A trade query of at most `limit` rows.
fn build_query(query: &TradeQuery, columns: TradeColumns, limit: usize) -> (statement: Statement)
    ensures
        statement.sql@ == trade_sql(
            columns,
            query.from is Some,
            query.to is Some,
            limit as nat,
        ),
        crate::text::views(statement.params@) == trade_params(*query),
{
    let mut sql = match columns {
        TradeColumns::All => "SELECT exchange, symbol, ts, price, qty, is_sell FROM trades WHERE symbol = ? AND exchange = ?".to_owned(),
        TradeColumns::Arrow => "SELECT ts, price, qty, is_sell FROM trades WHERE symbol = ? AND exchange = ?".to_owned(),
    };
    let mut params: Vec<SqlParam> = Vec::new();
    params.push(SqlParam::Text(to_lowercase(query.symbol.as_str())));
    params.push(SqlParam::Text(query.exchange_filter()));
    sql.append(if query.from.is_some() {
        " AND ts >= ?"
    } else {
        ""
    });
    sql.append(if query.to.is_some() {
        " AND ts <= ?"
    } else {
        ""
    });
    sql.append(if query.from.is_some() {
        " ORDER BY ts ASC"
    } else {
        " ORDER BY ts DESC"
    });
    sql.append(" LIMIT ");
    sql.append(to_decimal(limit as u64).as_str());
    if let Some(from) = query.from {
        params.push(SqlParam::Int(from));
    }
    if let Some(to) = query.to {
        params.push(SqlParam::Int(to));
    }
    assert(crate::text::views(params@) =~= trade_params(*query));
    Statement { sql, params }
}

/// The query behind `/trades`.
pub fn query_trades(query: &TradeQuery) -> (statement: Statement)
    ensures
        statement.sql@ == trade_sql(
            TradeColumns::All,
            query.from is Some,
            query.to is Some,
            json_rows(query.limit),
        ),
        crate::text::views(statement.params@) == trade_params(*query),
{
    let limit: usize = match query.limit {
        Some(limit) => if limit < MAX_TRADES_LIMIT {
            limit
        } else {
            MAX_TRADES_LIMIT
        },
        None => DEFAULT_TRADES_LIMIT,
    };
    build_query(query, TradeColumns::All, limit)
}

/// The query behind `/trades.arrow`.
pub fn query_trades_arrow_ipc(query: &TradeQuery) -> (statement: Statement)
    ensures
        statement.sql@ == trade_sql(
            TradeColumns::Arrow,
            query.from is Some,
            query.to is Some,
            arrow_query_rows(query.limit),
        ),
        crate::text::views(statement.params@) == trade_params(*query),
{
    let limit: usize = match query.limit {
        Some(limit) => if limit < crate::api::MAX_ARROW_LIMIT {
            limit
        } else {
            crate::api::MAX_ARROW_LIMIT
        },
        None => crate::api::DEFAULT_ARROW_LIMIT,
    };
    build_query(query, TradeColumns::Arrow, limit)
}

/// Places for values in a statement.
pub open spec fn placeholders(sql: Seq<char>) -> nat
    decreases sql.len(),
{
    if sql.len() == 0 {
        0
    } else {
        placeholders(sql.drop_last()) + if sql.last() == '?' {
            1nat
        } else {
            0nat
        }
    }
}

proof fn lemma_placeholders_concat(a: Seq<char>, b: Seq<char>)
    ensures
        placeholders(a + b) == placeholders(a) + placeholders(b),
    decreases b.len(),
{
    if b.len() == 0 {
        assert(a + b =~= a);
    } else {
        assert((a + b).drop_last() =~= a + b.drop_last());
        lemma_placeholders_concat(a, b.drop_last());
    }
}

proof fn lemma_no_placeholders(s: Seq<char>)
    requires
        forall|i: int| 0 <= i < s.len() ==> s[i] != '?',
    ensures
        placeholders(s) == 0,
    decreases s.len(),
{
    if s.len() > 0 {
        lemma_no_placeholders(s.drop_last());
    }
}

/// Only the last character of a text is a place for a value.
proof fn lemma_one_placeholder(s: Seq<char>)
    requires
        s.len() > 0,
        s.last() == '?',
        forall|i: int| 0 <= i < s.len() - 1 ==> s[i] != '?',
    ensures
        placeholders(s) == 1,
{
    lemma_no_placeholders(s.drop_last());
}

proof fn lemma_select_placeholders(columns: TradeColumns)
    ensures
        placeholders(select_text(columns)) == 2,
{
    reveal_strlit("SELECT exchange, symbol, ts, price, qty, is_sell FROM trades WHERE symbol = ? AND exchange = ?");
    reveal_strlit("SELECT ts, price, qty, is_sell FROM trades WHERE symbol = ? AND exchange = ?");
    let s = select_text(columns);
    let n = s.len() as int;
    let cut = n - 17;
    let head = s.take(cut);
    let tail = s.skip(cut);
    assert(s =~= head + tail);
    lemma_placeholders_concat(head, tail);
    lemma_one_placeholder(head);
    lemma_one_placeholder(tail);
}

proof fn lemma_decimal_placeholders(n: nat)
    ensures
        placeholders(crate::text::decimal(n)) == 0,
{
    crate::text::lemma_decimal_round_trip(n);
    let s = crate::text::decimal(n);
    assert forall|i: int| 0 <= i < s.len() implies s[i] != '?' by {
        assert(crate::text::is_digit(s[i]));
    }
    lemma_no_placeholders(s);
}

/// Every value that a trade query binds has its place in the text, and there is
/// no place without a value.
pub proof fn law_query_binds_all_values(query: TradeQuery, columns: TradeColumns, limit: nat)
    ensures
        placeholders(trade_sql(columns, query.from is Some, query.to is Some, limit))
            == trade_params(query).len(),
{
    reveal_strlit(" AND ts >= ?");
    reveal_strlit(" AND ts <= ?");
    reveal_strlit("");
    reveal_strlit(" ORDER BY ts ASC");
    reveal_strlit(" ORDER BY ts DESC");
    reveal_strlit(" LIMIT ");
    let f = query.from is Some;
    let t = query.to is Some;
    let a = select_text(columns);
    lemma_select_placeholders(columns);
    lemma_decimal_placeholders(limit);
    if f {
        lemma_one_placeholder(from_text(f));
    } else {
        lemma_no_placeholders(from_text(f));
    }
    if t {
        lemma_one_placeholder(to_text(t));
    } else {
        lemma_no_placeholders(to_text(t));
    }
    lemma_no_placeholders(order_text(f));
    lemma_no_placeholders(" LIMIT "@);
    let b = a + from_text(f);
    let c = b + to_text(t);
    let d = c + order_text(f);
    let e = d + " LIMIT "@;
    lemma_placeholders_concat(a, from_text(f));
    lemma_placeholders_concat(b, to_text(t));
    lemma_placeholders_concat(c, order_text(f));
    lemma_placeholders_concat(d, " LIMIT "@);
    lemma_placeholders_concat(e, crate::text::decimal(limit));
}

/// No query returns more rows than its endpoint allows, and one without a limit
/// returns the default.
pub proof fn law_limits_are_capped(limit: Option<usize>)
    ensures
        json_rows(limit) <= 10_000,
        arrow_query_rows(limit) <= 1_000_000,
        limit is None ==> json_rows(limit) == 1000 && arrow_query_rows(limit) == 50_000,
        limit matches Some(n) ==> json_rows(limit) <= n && arrow_query_rows(limit) <= n,
{
}

/// The ticker of a stored row. The name of the exchange may not be known.
///
/// The symbol must be one that a ticker can have.
pub fn row_ticker(exchange: &str, symbol: &str) -> (ticker: Result<Ticker, String>)
    requires
        crate::market::fits_ticker(symbol@),
    ensures
        match Exchange::spec_parse(exchange@) {
            Some(found) => ticker matches Ok(t) && t@ == (crate::market::TickerView {
                symbol: crate::market::until_nul(symbol@),
                display: None,
                exchange: found,
            }),
            None => ticker matches Err(message) && message@ == unknown_exchange(exchange@),
        },
{
    match Exchange::parse(exchange) {
        Some(found) => Ok(Ticker::new(symbol, found)),
        None => {
            let mut message = "cannot parse exchange '".to_owned();
            message.append(exchange);
            message.append("': Invalid exchange: ");
            message.append(exchange);
            Err(message)
        },
    }
}

/// The message for a stored exchange name that is not known.
pub open spec fn unknown_exchange(exchange: Seq<char>) -> Seq<char> {
    "cannot parse exchange '"@ + exchange + "': Invalid exchange: "@ + exchange
}

/// A time as the database keeps it: what does not fit a signed value wraps around.
pub open spec fn stored_time(time: u64) -> int {
    if time <= i64::MAX {
        time as int
    } else {
        time - 0x1_0000_0000_0000_0000
    }
}

/// A time as the database keeps it.
pub fn to_stored_time(time: u64) -> (ts: i64)
    ensures
        ts == stored_time(time),
{
    assert(time > 0x7fff_ffff_ffff_ffffu64 ==> (time as i64) == time - 0x1_0000_0000_0000_0000)
        by (bit_vector);
    time as i64
}

/// A time as it was before the database kept it.
pub open spec fn loaded_time(ts: i64) -> int {
    if ts >= 0 {
        ts as int
    } else {
        ts + 0x1_0000_0000_0000_0000
    }
}

/// A time as it was before the database kept it.
pub fn from_stored_time(ts: i64) -> (time: u64)
    ensures
        time == loaded_time(ts),
{
    assert(ts < 0 ==> (ts as u64) == ts + 0x1_0000_0000_0000_0000) by (bit_vector);
    ts as u64
}

/// A time that is stored and loaded is the same.
pub proof fn law_times_survive_storage(time: u64)
    ensures
        i64::MIN <= stored_time(time) <= i64::MAX,
        loaded_time(stored_time(time) as i64) == time,
{
}

/// A trade as a row of its table. Price and quantity are still in fixed fractions.
#[derive(Debug)]
pub struct TradeRow {
    pub exchange: String,
    pub symbol: String,
    pub ts: i64,
    pub price_units: i64,
    pub qty_units: i64,
    pub is_sell: bool,
}

/// Whether `row` is how `trade` is stored: under the name of its exchange and its
/// shown symbol in small letters.
pub open spec fn stores(row: TradeRow, trade: crate::api::AnnotatedTradeView) -> bool {
    &&& row.exchange@ == trade.ticker.exchange.spec_name()
    &&& row.symbol@ == crate::text::lowercase(trade.ticker.shown())
    &&& row.ts == stored_time(trade.trade.time)
    &&& row.price_units == trade.trade.price_units
    &&& row.qty_units == trade.trade.qty_units
    &&& row.is_sell == trade.trade.is_sell
}

/// A trade as a row of its table.
pub fn trade_row(trade: &AnnotatedTrade) -> (row: TradeRow)
    ensures
        stores(row, trade@),
{
    let shown = trade.ticker.shown();
    TradeRow {
        exchange: trade.ticker.exchange.name(),
        symbol: to_lowercase(shown.as_str()),
        ts: to_stored_time(trade.trade.time),
        price_units: trade.trade.price_units,
        qty_units: trade.trade.qty_units,
        is_sell: trade.trade.is_sell,
    }
}

/// A ticker as a row of its table.
#[derive(Debug)]
pub struct TickerRow {
    pub exchange: String,
    pub symbol: String,
    pub min_ticksize: i8,
    pub min_qty: i8,
    pub contract_size: Option<i8>,
}

/// A ticker as a row of its table, under the name of its exchange and its shown
/// symbol in small letters.
pub fn ticker_row(info: &TickerInfo) -> (row: TickerRow)
    ensures
        row.exchange@ == info@.ticker.exchange.spec_name(),
        row.symbol@ == crate::text::lowercase(info@.ticker.shown()),
        row.min_ticksize == info@.min_ticksize,
        row.min_qty == info@.min_qty,
        row.contract_size == info@.contract_size,
{
    let shown = info.ticker.shown();
    TickerRow {
        exchange: info.ticker.exchange.name(),
        symbol: to_lowercase(shown.as_str()),
        min_ticksize: info.min_ticksize,
        min_qty: info.min_qty,
        contract_size: info.contract_size,
    }
}

/// A stored trade is found again by a query for its exchange and symbol: what the
/// row holds is what the query compares with.
pub proof fn law_stored_trades_are_found(
    row: TradeRow,
    trade: crate::api::AnnotatedTradeView,
    query: TradeQuery,
)
    requires
        stores(row, trade),
        query.symbol@ == trade.ticker.shown(),
        crate::api::exchange_named(query.venue@, query.market@) == Some(
            trade.ticker.exchange.spec_name(),
        ),
    ensures
        trade_params(query)[0] == SqlParamView::Text(row.symbol@),
        trade_params(query)[1] == SqlParamView::Text(row.exchange@),
{
}

/// What is known of the size of a file.
#[derive(Debug)]
pub enum FileSize {
    Bytes(u64),
    /// There is no such file.
    Missing,
    /// The size could not be read, and why.
    Unreadable(String),
}

/// Bytes that a file counts for, none if it does not exist, or why that is not known.
pub open spec fn counted(size: FileSize) -> Result<int, Seq<char>> {
    match size {
        FileSize::Bytes(n) => Ok(n as int),
        FileSize::Missing => Ok(0),
        FileSize::Unreadable(cause) => Err(cause@),
    }
}

/// The size of the database: its main file and its write-ahead log. If one of them
/// could not be read, the error says why.
pub fn current_storage_bytes(database: FileSize, log: FileSize) -> (size: Result<
    StorageBytes,
    String,
>)
    ensures
        match (counted(database), counted(log)) {
            (Ok(main), Ok(ahead)) => size matches Ok(total) && total@
                == crate::config::clamp_u64(main + ahead),
            (Err(cause), _) => size matches Err(error) && error@ == cause,
            (Ok(main), Err(cause)) => size matches Err(error) && error@ == cause,
        },
{
    let database: u64 = match database {
        FileSize::Bytes(n) => n,
        FileSize::Missing => 0,
        FileSize::Unreadable(cause) => return Err(cause),
    };
    let log: u64 = match log {
        FileSize::Bytes(n) => n,
        FileSize::Missing => 0,
        FileSize::Unreadable(cause) => return Err(cause),
    };
    Ok(StorageBytes::from_bytes(database.saturating_add(log)))
}

/// The time before which trades are too old, or `None` if all are kept: where the
/// retention is unlimited, and where it reaches back beyond all times. Times are Unix
/// milliseconds.
pub open spec fn cutoff_time(retention_hours: u64, now: i64) -> Option<i64> {
    let oldest = now - retention_hours * 3_600_000;
    if retention_hours == 0 || oldest < i64::MIN {
        None
    } else {
        Some(oldest as i64)
    }
}

/// The time before which trades are too old, or `None` if all are kept.
pub fn purge_cutoff(retention: RetentionHours, now: i64) -> (cutoff: Option<i64>)
    ensures
        cutoff == cutoff_time(retention@, now),
{
    let hours: u64 = retention.as_hours();
    let oldest: i128 = now as i128 - hours as i128 * 3_600_000;
    if hours == 0 || oldest < i64::MIN as i128 {
        None
    } else {
        Some(oldest as i64)
    }
}

/// Only trades older than the retention period are purged, and all of them: those of
/// before the cutoff are more than that many hours old, and no others are.
pub proof fn law_only_old_trades_are_purged(retention_hours: u64, now: i64, time: i64)
    requires
        retention_hours > 0,
    ensures
        (cutoff_time(retention_hours, now) matches Some(cutoff) && time < cutoff) <==> now - time
            > retention_hours * 3_600_000,
{
}

/// A whole number in decimal, with a minus sign where it is negative.
pub open spec fn signed_decimal(n: int) -> Seq<char> {
    if n < 0 {
        "-"@ + crate::text::decimal((-n) as nat)
    } else {
        crate::text::decimal(n as nat)
    }
}

/// The text that records the time of a cleanup, in Unix milliseconds.
pub fn cleanup_record(now: i64) -> (text: String)
    ensures
        text@ == signed_decimal(now as int),
{
    if now < 0 {
        let mut text = "-".to_owned();
        text.append(to_decimal((-(now as i128)) as u64).as_str());
        text
    } else {
        to_decimal(now as u64)
    }
}

/// Attempts to rewrite the database file before giving up.
pub const VACUUM_ATTEMPTS: u32 = 3;

/// Pause between two attempts, in milliseconds.
pub const VACUUM_RETRY_DELAY_MS: u64 = 1000;

/// What follows an attempt to rewrite the database file.
#[derive(Debug, Clone, Copy, PartialEq, Eq, Structural)]
pub enum VacuumStep {
    Succeeded,
    /// Try again after a pause.
    Retry { delay_ms: u64 },
    GiveUp,
}

/// What follows an attempt, the first of which is number zero: the writer holds the
/// table only briefly, so a failed attempt is repeated after a pause.
pub fn vacuum_step(attempt: u32, succeeded: bool) -> (step: VacuumStep)
    ensures
        step == if succeeded {
            VacuumStep::Succeeded
        } else if attempt + 1 < VACUUM_ATTEMPTS {
            (VacuumStep::Retry { delay_ms: VACUUM_RETRY_DELAY_MS })
        } else {
            VacuumStep::GiveUp
        },
{
    if succeeded {
        VacuumStep::Succeeded
    } else if attempt < VACUUM_ATTEMPTS - 1 {
        VacuumStep::Retry { delay_ms: VACUUM_RETRY_DELAY_MS }
    } else {
        VacuumStep::GiveUp
    }
}

/// What a [`DataBuffer`] holds.
#[verifier::ext_equal]
pub struct BufferState {
    /// Trades that wait to be written, oldest first.
    pub items: Seq<crate::api::AnnotatedTradeView>,
    pub max: usize,
    /// Whether it was already said that trades are dropped.
    pub warned: bool,
}

/// What became of a trade.
#[derive(Debug, Clone, Copy, PartialEq, Eq, Structural)]
pub enum PushOutcome {
    Stored,
    /// There was no room, and this is to be said.
    DroppedFirst,
    /// There was no room, which was said before.
    Dropped,
}

/// The buffer once a trade has been offered to it.
pub open spec fn offered(
    state: BufferState,
    item: crate::api::AnnotatedTradeView,
) -> BufferState {
    if state.items.len() < state.max {
        BufferState { items: state.items.push(item), ..state }
    } else {
        BufferState { warned: true, ..state }
    }
}

/// A buffer of trades that holds no more than its maximum: what does not fit is
/// dropped, so that memory stays bounded.
pub struct DataBuffer {
    items: Vec<AnnotatedTrade>,
    max: usize,
    warned: bool,
}

impl View for DataBuffer {
    type V = BufferState;

    closed spec fn view(&self) -> BufferState {
        BufferState {
            items: crate::text::views(self.items@),
            max: self.max,
            warned: self.warned,
        }
    }
}

impl DataBuffer {
    /// The maximum is kept.
    pub open spec fn wf(&self) -> bool {
        self@.items.len() <= self@.max
    }

    /// An empty buffer.
    pub fn new(max: usize) -> (buffer: DataBuffer)
        ensures
            buffer.wf(),
            buffer@ == (BufferState { items: Seq::empty(), max, warned: false }),
    {
        let buffer = DataBuffer { items: Vec::new(), max, warned: false };
        assert(buffer@.items =~= Seq::<crate::api::AnnotatedTradeView>::empty());
        buffer
    }

    /// Offer a trade.
    pub fn push(&mut self, item: AnnotatedTrade) -> (outcome: PushOutcome)
        requires
            old(self).wf(),
        ensures
            final(self).wf(),
            final(self)@ == offered(old(self)@, item@),
            outcome == if old(self)@.items.len() < old(self)@.max {
                PushOutcome::Stored
            } else if old(self)@.warned {
                PushOutcome::Dropped
            } else {
                PushOutcome::DroppedFirst
            },
    {
        let ghost before = self@.items;
        let ghost value = item@;
        if self.items.len() < self.max {
            self.items.push(item);
            assert(self@.items =~= before.push(value));
            PushOutcome::Stored
        } else if !self.warned {
            self.warned = true;
            PushOutcome::DroppedFirst
        } else {
            PushOutcome::Dropped
        }
    }

    /// Note that a batch was written. Returns whether it is to be said that the buffer
    /// is within its capacity again.
    pub fn flush_succeeded(&mut self) -> (recovered: bool)
        requires
            old(self).wf(),
        ensures
            final(self).wf(),
            final(self)@ == (BufferState { warned: false, ..old(self)@ }),
            recovered == old(self)@.warned,
    {
        let recovered = self.warned;
        self.warned = false;
        recovered
    }

    /// Trades that wait.
    pub fn len(&self) -> (n: usize)
        ensures
            n == self@.items.len(),
    {
        self.items.len()
    }

    /// Whether no trade waits.
    pub fn is_empty(&self) -> (empty: bool)
        ensures
            empty == (self@.items.len() == 0),
    {
        self.items.len() == 0
    }

    /// Hand out all trades that wait.
    pub fn take(&mut self) -> (items: Vec<AnnotatedTrade>)
        requires
            old(self).wf(),
        ensures
            final(self).wf(),
            crate::text::views(items@) == old(self)@.items,
            final(self)@ == (BufferState { items: Seq::empty(), ..old(self)@ }),
    {
        let mut items: Vec<AnnotatedTrade> = Vec::new();
        std::mem::swap(&mut items, &mut self.items);
        assert(self@.items =~= Seq::<crate::api::AnnotatedTradeView>::empty());
        items
    }
}

/// The trades of an event, each with its ticker; other events carry none.
pub open spec fn annotated(event: Event) -> Seq<crate::api::AnnotatedTradeView> {
    match event {
        Event::TradesReceived(stream, trades) => Seq::new(
            trades@.len(),
            |i: int| crate::api::AnnotatedTradeView {
                ticker: stream@.info().ticker,
                trade: trades@[i],
            },
        ),
        _ => Seq::empty(),
    }
}

/// The buffer once trades have been offered to it, in order: as many as fit are
/// taken, and the rest is dropped.
pub open spec fn ingested(
    state: BufferState,
    trades: Seq<crate::api::AnnotatedTradeView>,
) -> BufferState {
    let room = state.max - state.items.len();
    if trades.len() <= room {
        BufferState { items: state.items + trades, ..state }
    } else {
        BufferState { items: state.items + trades.take(room), warned: true, ..state }
    }
}

/// The buffer once events have been taken in, in order.
pub open spec fn ingested_all(state: BufferState, events: Seq<Event>) -> BufferState
    decreases events.len(),
{
    if events.len() == 0 {
        state
    } else {
        ingested(ingested_all(state, events.drop_last()), annotated(events.last()))
    }
}

/// Takes the trades out of events and buffers them. Other events are not
/// persisted.
pub struct BatchFlusher {
    buffer: DataBuffer,
}

impl View for BatchFlusher {
    type V = BufferState;

    closed spec fn view(&self) -> BufferState {
        self.buffer@
    }
}

impl BatchFlusher {
    /// The maximum is kept.
    pub open spec fn wf(&self) -> bool {
        self@.items.len() <= self@.max
    }

    /// A flusher that buffers `max_items` trades at most.
    pub fn new(max_items: usize) -> (flusher: BatchFlusher)
        ensures
            flusher.wf(),
            flusher@ == (BufferState { items: Seq::empty(), max: max_items, warned: false }),
    {
        BatchFlusher { buffer: DataBuffer::new(max_items) }
    }

    /// Take in an event. Returns how many of its trades were dropped for want of
    /// room.
    pub fn ingest(&mut self, event: &Event) -> (dropped: usize)
        requires
            old(self).wf(),
        ensures
            final(self).wf(),
            final(self)@ == ingested(old(self)@, annotated(*event)),
            dropped == annotated(*event).len() - (final(self)@.items.len()
                - old(self)@.items.len()),
    {
        let ghost before = self@;
        let ghost all = annotated(*event);
        let mut dropped: usize = 0;
        if let Event::TradesReceived(stream, trades) = event {
            let mut i: usize = 0;
            assert(before.items + all.take(0) =~= before.items);
            while i < trades.len()
                invariant
                    self.wf(),
                    i <= trades@.len(),
                    *event == Event::TradesReceived(*stream, *trades),
                    all == annotated(*event),
                    before.items.len() <= before.max,
                    self@ == ingested(before, all.take(i as int)),
                    dropped == i - (self@.items.len() - before.items.len()),
                decreases trades@.len() - i,
            {
                let ghost prior = self@;
                let ghost head = all.take(i as int);
                let ghost next = all.take(i as int + 1);
                let ticker = stream.ticker_info().ticker.clone();
                let item = AnnotatedTrade::new(ticker, trades[i]);
                proof {
                    assert(item@ == all[i as int]);
                    assert(next =~= head.push(all[i as int]));
                    let room = before.max - before.items.len();
                    if i < room {
                        assert(before.items + next =~= (before.items + head).push(all[i as int]));
                    } else if i == room {
                        assert(next.take(room) =~= head);
                    } else {
                        assert(next.take(room) =~= head.take(room));
                    }
                }
                let outcome = self.buffer.push(item);
                if outcome != PushOutcome::Stored {
                    dropped = dropped + 1;
                }
                i += 1;
            }
            assert(all.take(i as int) =~= all);
        } else {
            assert(before.items + all =~= before.items);
        }
        dropped
    }

    /// Whether trades wait to be written.
    pub fn has_pending(&self) -> (pending: bool)
        ensures
            pending == (self@.items.len() > 0),
    {
        !self.buffer.is_empty()
    }

    /// Trades that wait to be written.
    pub fn pending_count(&self) -> (n: usize)
        ensures
            n == self@.items.len(),
    {
        self.buffer.len()
    }

    /// Hand out all trades that wait.
    pub fn take_all(&mut self) -> (items: Vec<AnnotatedTrade>)
        requires
            old(self).wf(),
        ensures
            final(self).wf(),
            crate::text::views(items@) == old(self)@.items,
            final(self)@ == (BufferState { items: Seq::empty(), ..old(self)@ }),
    {
        self.buffer.take()
    }

    /// Note that a batch was written. Returns whether the buffer had overflowed
    /// before.
    pub fn flush_succeeded(&mut self) -> (recovered: bool)
        requires
            old(self).wf(),
        ensures
            final(self).wf(),
            final(self)@ == (BufferState { warned: false, ..old(self)@ }),
            recovered == old(self)@.warned,
    {
        self.buffer.flush_succeeded()
    }
}

/// What a [`FlushLoop`] remembers.
#[verifier::ext_equal]
pub struct FlushState {
    pub buffer: BufferState,
    /// Whether a batch is being written.
    pub in_flight: bool,
    /// Whether that batch had failed before.
    pub retrying: bool,
    /// The batch that failed and is to be written again.
    pub retry: Option<Seq<crate::api::AnnotatedTradeView>>,
}

/// How the writing of a batch ended.
#[derive(Debug)]
pub enum BatchEnd {
    Written,
    /// It failed. The batch is given back.
    Failed(Vec<AnnotatedTrade>),
    /// It was cut short, and the batch is lost.
    Lost,
}

/// What the end of a batch means.
#[derive(Debug, Clone, Copy, PartialEq, Eq, Structural)]
pub struct BatchReport {
    /// The buffer had overflowed before and is within its capacity again.
    pub recovered: bool,
    /// A batch that had failed was written.
    pub retry_committed: bool,
}

/// A tick of the loop: unless a batch is being written one is started, first of all the
/// one that failed.
pub open spec fn tick(state: FlushState) -> (
    FlushState,
    Option<Seq<crate::api::AnnotatedTradeView>>,
) {
    if state.in_flight {
        (state, None)
    } else if state.retry is Some {
        (FlushState { in_flight: true, retrying: true, retry: None, ..state }, state.retry)
    } else if state.buffer.items.len() > 0 {
        (
            FlushState {
                buffer: BufferState { items: Seq::empty(), ..state.buffer },
                in_flight: true,
                retrying: false,
                ..state
            },
            Some(state.buffer.items),
        )
    } else {
        (state, None)
    }
}

/// The loop once events were taken in, one after the other.
pub open spec fn after_events(state: FlushState, events: Seq<Event>) -> FlushState {
    FlushState { buffer: ingested_all(state.buffer, events), ..state }
}

/// The loop once the batch being written has ended.
pub open spec fn after_batch(state: FlushState, end: BatchEnd) -> FlushState {
    let idle = FlushState { in_flight: false, retrying: false, ..state };
    match end {
        BatchEnd::Written => FlushState {
            buffer: BufferState { warned: false, ..state.buffer },
            ..idle
        },
        BatchEnd::Failed(batch) => FlushState { retry: Some(crate::text::views(batch@)), ..idle },
        BatchEnd::Lost => idle,
    }
}

/// The exchanges of trades, each once.
pub fn exchanges_of(trades: &Vec<AnnotatedTrade>) -> (found: Vec<Exchange>)
    ensures
        found@.no_duplicates(),
        forall|exchange: Exchange| #[trigger]
            found@.contains(exchange) <==> exists|i: int|
                0 <= i < trades@.len() && (#[trigger] trades@[i]).ticker.exchange == exchange,
{
    let mut found: Vec<Exchange> = Vec::new();
    let mut i: usize = 0;
    while i < trades.len()
        invariant
            i <= trades@.len(),
            found@.no_duplicates(),
            forall|k: int|
                0 <= k < found@.len() ==> exists|j: int|
                    0 <= j < i && (#[trigger] trades@[j]).ticker.exchange == #[trigger] found@[k],
            forall|j: int|
                0 <= j < i ==> found@.contains((#[trigger] trades@[j]).ticker.exchange),
        decreases trades@.len() - i,
    {
        let exchange = trades[i].ticker.exchange;
        let mut known = false;
        let mut k: usize = 0;
        while k < found.len()
            invariant
                k <= found@.len(),
                known == exists|m: int| 0 <= m < k && #[trigger] found@[m] == exchange,
            decreases found@.len() - k,
        {
            if found[k] == exchange {
                known = true;
            }
            k += 1;
        }
        let ghost before = found@;
        if !known {
            found.push(exchange);
        }
        proof {
            assert(found@.contains(exchange)) by {
                if known {
                    let m = choose|m: int| 0 <= m < k && #[trigger] before[m] == exchange;
                    assert(found@[m] == exchange);
                } else {
                    assert(found@[before.len() as int] == exchange);
                }
            }
            assert forall|k: int| 0 <= k < found@.len() implies exists|j: int|
                0 <= j < i + 1 && (#[trigger] trades@[j]).ticker.exchange == #[trigger] found@[k] by {
                if k < before.len() {
                    assert(found@[k] == before[k]);
                    let j = choose|j: int|
                        0 <= j < i && (#[trigger] trades@[j]).ticker.exchange == before[k];
                    assert(trades@[j].ticker.exchange == found@[k]);
                } else {
                    assert(trades@[i as int].ticker.exchange == found@[k]);
                }
            }
            assert forall|j: int| 0 <= j < i + 1 implies found@.contains(
                (#[trigger] trades@[j]).ticker.exchange,
            ) by {
                if j < i {
                    let m = choose|m: int|
                        0 <= m < before.len() && before[m] == trades@[j].ticker.exchange;
                    assert(found@[m] == before[m]);
                }
            }
        }
        i += 1;
    }
    found
}

/// The flush loop: trades are collected as they come, and at each tick a batch is
/// written if none is being written. A batch that failed is written again before
/// anything newer.
pub struct FlushLoop {
    flusher: BatchFlusher,
    in_flight: bool,
    retrying: bool,
    retry: Option<Vec<AnnotatedTrade>>,
}

/// The trades of a batch, if there is one.
pub open spec fn batch_view(batch: Option<Vec<AnnotatedTrade>>) -> Option<
    Seq<crate::api::AnnotatedTradeView>,
> {
    match batch {
        Some(items) => Some(crate::text::views(items@)),
        None => None,
    }
}

impl View for FlushLoop {
    type V = FlushState;

    closed spec fn view(&self) -> FlushState {
        FlushState {
            buffer: self.flusher@,
            in_flight: self.in_flight,
            retrying: self.retrying,
            retry: batch_view(self.retry),
        }
    }
}

/// What is left to do when no more events come.
#[derive(Debug)]
pub struct FinalFlush {
    /// Whether a batch is being written that has to be waited for first.
    pub wait_for_batch: bool,
    /// The batch that failed and is to be written again, if any.
    pub retry: Option<Vec<AnnotatedTrade>>,
    /// The trades that are still to be written, if any.
    pub batch: Option<Vec<AnnotatedTrade>>,
}

impl FlushLoop {
    /// The maximum is kept.
    pub open spec fn wf(&self) -> bool {
        self@.buffer.items.len() <= self@.buffer.max
    }

    /// A loop that buffers `max_items` trades at most.
    pub fn new(max_items: usize) -> (flush_loop: FlushLoop)
        ensures
            flush_loop.wf(),
            flush_loop@ == (FlushState {
                buffer: BufferState { items: Seq::empty(), max: max_items, warned: false },
                in_flight: false,
                retrying: false,
                retry: None,
            }),
    {
        FlushLoop {
            flusher: BatchFlusher::new(max_items),
            in_flight: false,
            retrying: false,
            retry: None,
        }
    }

    /// Take in an event. Returns how many of its trades were dropped.
    pub fn on_event(&mut self, event: &Event) -> (dropped: usize)
        requires
            old(self).wf(),
        ensures
            final(self).wf(),
            final(self)@ == (FlushState {
                buffer: ingested(old(self)@.buffer, annotated(*event)),
                ..old(self)@
            }),
            dropped == annotated(*event).len() - (final(self)@.buffer.items.len()
                - old(self)@.buffer.items.len()),
    {
        self.flusher.ingest(event)
    }

    /// Start a batch if there is anything to write and none is being written. What has
    /// come since the last tick is taken in before, event by event.
    pub fn on_tick(&mut self) -> (batch: Option<Vec<AnnotatedTrade>>)
        requires
            old(self).wf(),
        ensures
            final(self).wf(),
            (final(self)@, batch_view(batch)) == tick(old(self)@),
    {
        if self.in_flight {
            return None;
        }
        if self.retry.is_some() {
            self.in_flight = true;
            self.retrying = true;
            let mut batch: Option<Vec<AnnotatedTrade>> = None;
            std::mem::swap(&mut batch, &mut self.retry);
            return batch;
        }
        if self.flusher.has_pending() {
            self.in_flight = true;
            self.retrying = false;
            Some(self.flusher.take_all())
        } else {
            None
        }
    }

    /// Note that the batch being written has ended.
    pub fn on_batch_ended(&mut self, end: BatchEnd) -> (report: BatchReport)
        requires
            old(self).wf(),
        ensures
            final(self).wf(),
            final(self)@ == after_batch(old(self)@, end),
            report.recovered == (end is Written && old(self)@.buffer.warned),
            report.retry_committed == (end is Written && old(self)@.retrying),
    {
        let retried = self.retrying;
        self.in_flight = false;
        self.retrying = false;
        match end {
            BatchEnd::Written => {
                let recovered = self.flusher.flush_succeeded();
                BatchReport { recovered, retry_committed: retried }
            },
            BatchEnd::Failed(batch) => {
                self.retry = Some(batch);
                BatchReport { recovered: false, retry_committed: false }
            },
            BatchEnd::Lost => BatchReport { recovered: false, retry_committed: false },
        }
    }

    /// Note that no more events come. Wait for the batch being written, if there is
    /// one, and ask again; then write the batch that failed and what remains.
    pub fn on_closed(&mut self) -> (last: FinalFlush)
        requires
            old(self).wf(),
        ensures
            final(self).wf(),
            last.wait_for_batch == old(self)@.in_flight,
            old(self)@.in_flight ==> last.retry is None && last.batch is None && final(self)@
                == old(self)@,
            !old(self)@.in_flight ==> {
                &&& batch_view(last.retry) == old(self)@.retry
                &&& batch_view(last.batch) == if old(self)@.buffer.items.len() > 0 {
                    Some(old(self)@.buffer.items)
                } else {
                    None
                }
                &&& final(self)@ == (FlushState {
                    buffer: BufferState { items: Seq::empty(), ..old(self)@.buffer },
                    retry: None,
                    ..old(self)@
                })
            },
    {
        if self.in_flight {
            return FinalFlush { wait_for_batch: true, retry: None, batch: None };
        }
        let mut retry: Option<Vec<AnnotatedTrade>> = None;
        std::mem::swap(&mut retry, &mut self.retry);
        let batch = if self.flusher.has_pending() {
            Some(self.flusher.take_all())
        } else {
            assert(self@.buffer.items =~= Seq::<crate::api::AnnotatedTradeView>::empty());
            None
        };
        FinalFlush { wait_for_batch: false, retry, batch }
    }
}

/// A batch that failed is written again, whole and before anything newer, and the
/// trades that came meanwhile stay in the buffer.
pub proof fn law_failed_batch_is_retried(
    state: FlushState,
    batch: Vec<AnnotatedTrade>,
    events: Seq<Event>,
)
    ensures
        tick(after_events(after_batch(state, BatchEnd::Failed(batch)), events)).1 == Some(
            crate::text::views(batch@),
        ),
        tick(after_events(after_batch(state, BatchEnd::Failed(batch)), events)).0.buffer
            == ingested_all(state.buffer, events),
{
}

/// At most one batch is being written at a time.
pub proof fn law_one_batch_in_flight(state: FlushState, events: Seq<Event>)
    ensures
        state.in_flight ==> tick(after_events(state, events)).1 is None,
        tick(state).1 is Some ==> tick(state).0.in_flight,
{
}

/// Offering trades one after the other and taking them in together is the same.
pub proof fn law_ingestion_is_offering_in_order(
    state: BufferState,
    trades: Seq<crate::api::AnnotatedTradeView>,
    trade: crate::api::AnnotatedTradeView,
)
    requires
        state.items.len() <= state.max,
    ensures
        ingested(state, trades.push(trade)) == offered(ingested(state, trades), trade),
{
    let room = state.max - state.items.len();
    let more = trades.push(trade);
    if trades.len() < room {
        assert(state.items + more =~= (state.items + trades).push(trade));
    } else if trades.len() == room {
        assert(more.take(room) =~= trades);
    } else {
        assert(more.take(room) =~= trades.take(room));
    }
}

/// The buffer never holds more than its maximum, keeps what it holds in order, and
/// drops nothing while there is room.
pub proof fn law_buffer_is_bounded_and_lossless_below_capacity(
    state: BufferState,
    trades: Seq<crate::api::AnnotatedTradeView>,
)
    requires
        state.items.len() <= state.max,
    ensures
        ingested(state, trades).items.len() <= state.max,
        state.items.is_prefix_of(ingested(state, trades).items),
        state.items.len() + trades.len() <= state.max ==> ingested(state, trades).items
            == state.items + trades,
        state.items.len() + trades.len() > state.max ==> ingested(state, trades).items.len()
            == state.max,
{
    assert(state.items =~= ingested(state, trades).items.take(state.items.len() as int));
}

/// What follows `start` in a text that begins with it.
pub open spec fn behind(text: Seq<char>, start: Seq<char>) -> Option<Seq<char>> {
    if start.is_prefix_of(text) {
        Some(text.skip(start.len() as int))
    } else {
        None
    }
}

/// What a trade query asks the database for, by its text and its values.
#[verifier::ext_equal]
pub struct QueryReading {
    /// Whether exchange and symbol are selected, before time, price, quantity and side.
    pub all_columns: bool,
    pub symbol: SqlParamView,
    pub exchange: SqlParamView,
    /// The time that no selected trade is before.
    pub lower: Option<SqlParamView>,
    /// The time that no selected trade is after.
    pub upper: Option<SqlParamView>,
    pub oldest_first: bool,
    pub limit: nat,
}

/// Reads what follows the columns of a trade query.
pub open spec fn read_bounds(
    all_columns: bool,
    bounds: Seq<char>,
    params: Seq<SqlParamView>,
) -> Option<
    QueryReading,
> {
    let from = behind(bounds, " AND ts >= ?"@);
    let tail = if from is Some {
        from->0
    } else {
        bounds
    };
    let used: int = if from is Some {
        3
    } else {
        2
    };
    let to = behind(tail, " AND ts <= ?"@);
    let order = if to is Some {
        to->0
    } else {
        tail
    };
    let places: int = if to is Some {
        used + 1
    } else {
        used
    };
    let rising = behind(order, " ORDER BY ts ASC LIMIT "@);
    let falling = behind(order, " ORDER BY ts DESC LIMIT "@);
    let digits = if rising is Some {
        rising
    } else {
        falling
    };
    if digits is None || !crate::text::all_digits(digits->0) || params.len() != places {
        None
    } else {
        Some(
            QueryReading {
                all_columns,
                symbol: params[0],
                exchange: params[1],
                lower: if from is Some {
                    Some(params[2])
                } else {
                    None
                },
                upper: if to is Some {
                    Some(params[used])
                } else {
                    None
                },
                oldest_first: rising is Some,
                limit: crate::text::digits_value(digits->0),
            },
        )
    }
}

/// Reads the text of a trade query from left to right and gives each place for a value
/// the next of the values.
pub open spec fn read_query(sql: Seq<char>, params: Seq<SqlParamView>) -> Option<QueryReading> {
    let all = behind(
        sql,
        "SELECT exchange, symbol, ts, price, qty, is_sell FROM trades WHERE symbol = ? AND exchange = ?"@,
    );
    let some = behind(
        sql,
        "SELECT ts, price, qty, is_sell FROM trades WHERE symbol = ? AND exchange = ?"@,
    );
    if all is Some {
        read_bounds(true, all->0, params)
    } else if some is Some {
        read_bounds(false, some->0, params)
    } else {
        None
    }
}

proof fn lemma_params(query: TradeQuery)
    ensures
        trade_params(query).len() == 2 + (if query.from is Some {
            1int
        } else {
            0
        }) + (if query.to is Some {
            1int
        } else {
            0
        }),
        trade_params(query)[0] == SqlParamView::Text(crate::text::lowercase(query.symbol@)),
        trade_params(query)[1] == SqlParamView::Text(
            crate::api::filter_text(query.venue@, query.market@),
        ),
        query.from matches Some(from) ==> trade_params(query)[2] == SqlParamView::Int(from),
        query.to matches Some(to) ==> trade_params(query)[if query.from is Some {
            3int
        } else {
            2
        }] == SqlParamView::Int(to),
{
}

proof fn lemma_behind(start: Seq<char>, rest: Seq<char>)
    ensures
        behind(start + rest, start) == Some(rest),
{
    assert(start =~= (start + rest).take(start.len() as int));
    assert((start + rest).skip(start.len() as int) =~= rest);
}

proof fn lemma_query_reads_back(query: TradeQuery, columns: TradeColumns, limit: nat)
    ensures
        read_query(
            trade_sql(columns, query.from is Some, query.to is Some, limit),
            trade_params(query),
        ) == Some(
            (QueryReading {
                all_columns: columns is All,
                symbol: SqlParamView::Text(crate::text::lowercase(query.symbol@)),
                exchange: SqlParamView::Text(
                    crate::api::filter_text(query.venue@, query.market@),
                ),
                lower: match query.from {
                    Some(from) => Some(SqlParamView::Int(from)),
                    None => None,
                },
                upper: match query.to {
                    Some(to) => Some(SqlParamView::Int(to)),
                    None => None,
                },
                oldest_first: query.from is Some,
                limit,
            }),
        ),
{
    let sql = trade_sql(columns, query.from is Some, query.to is Some, limit);
    let params = trade_params(query);
    let digits = crate::text::decimal(limit);
    crate::text::lemma_decimal_round_trip(limit);
    let (bounds, tail, order) = lemma_query_parts(
        columns,
        query.from is Some,
        query.to is Some,
        limit,
    );
    lemma_params(query);
    lemma_read_columns(columns, bounds);
    assert(read_query(sql, params) == read_bounds(columns is All, bounds, params));
    lemma_bounds_read_back(
        columns is All,
        query.from is Some,
        query.to is Some,
        bounds,
        tail,
        order,
        digits,
        params,
    );
}

proof fn lemma_bounds_read_back(
    all_columns: bool,
    from: bool,
    to: bool,
    bounds: Seq<char>,
    tail: Seq<char>,
    order: Seq<char>,
    digits: Seq<char>,
    params: Seq<SqlParamView>,
)
    requires
        bounds == if from {
            " AND ts >= ?"@ + tail
        } else {
            tail
        },
        tail == if to {
            " AND ts <= ?"@ + order
        } else {
            order
        },
        order == (if from {
            " ORDER BY ts ASC LIMIT "@
        } else {
            " ORDER BY ts DESC LIMIT "@
        }) + digits,
        tail.len() > 13,
        tail[8] == '<' || tail[1] == 'O',
        order.len() > 13,
        order[1] == 'O',
        order[13] == if from {
            'A'
        } else {
            'D'
        },
        crate::text::all_digits(digits),
        params.len() == 2 + (if from {
            1int
        } else {
            0
        }) + (if to {
            1int
        } else {
            0
        }),
    ensures
        read_bounds(all_columns, bounds, params) == Some(
            (QueryReading {
                all_columns,
                symbol: params[0],
                exchange: params[1],
                lower: if from {
                    Some(params[2])
                } else {
                    None
                },
                upper: if to {
                    Some(
                        params[if from {
                            3int
                        } else {
                            2
                        }],
                    )
                } else {
                    None
                },
                oldest_first: from,
                limit: crate::text::digits_value(digits),
            }),
        ),
{
    lemma_read_lower(from, bounds, tail);
    lemma_read_upper(to, tail, order);
    lemma_read_order(from, order, digits);
}

/// The parts of a trade query: behind its columns, behind its lower bound, and behind its
/// upper bound.
#[verifier::rlimit(50)]
#[verifier::spinoff_prover]
proof fn lemma_query_parts(columns: TradeColumns, from: bool, to: bool, limit: nat) -> (parts: (
    Seq<char>,
    Seq<char>,
    Seq<char>,
))
    ensures
        trade_sql(columns, from, to, limit) == select_text(columns) + parts.0,
        parts.0 == if from {
            " AND ts >= ?"@ + parts.1
        } else {
            parts.1
        },
        parts.1 == if to {
            " AND ts <= ?"@ + parts.2
        } else {
            parts.2
        },
        parts.2 == (if from {
            " ORDER BY ts ASC LIMIT "@
        } else {
            " ORDER BY ts DESC LIMIT "@
        }) + crate::text::decimal(limit),
        parts.1.len() > 13,
        parts.1[1] == if to {
            'A'
        } else {
            'O'
        },
        parts.1[8] == if to {
            '<'
        } else {
            'Y'
        },
        parts.2.len() > 13,
        parts.2[1] == 'O',
        parts.2[13] == if from {
            'A'
        } else {
            'D'
        },
{
    reveal_strlit(" AND ts >= ?");
    reveal_strlit(" AND ts <= ?");
    reveal_strlit("");
    reveal_strlit(" ORDER BY ts ASC");
    reveal_strlit(" ORDER BY ts DESC");
    reveal_strlit(" LIMIT ");
    reveal_strlit(" ORDER BY ts ASC LIMIT ");
    reveal_strlit(" ORDER BY ts DESC LIMIT ");
    let digits = crate::text::decimal(limit);
    let ordered = if from {
        " ORDER BY ts ASC LIMIT "@
    } else {
        " ORDER BY ts DESC LIMIT "@
    };
    assert(order_text(from) + " LIMIT "@ =~= ordered);
    let order = ordered + digits;
    let tail = if to {
        " AND ts <= ?"@ + order
    } else {
        order
    };
    let bounds = if from {
        " AND ts >= ?"@ + tail
    } else {
        tail
    };
    let head = select_text(columns);
    assert(to_text(to) + order =~= tail);
    assert(from_text(from) + tail =~= bounds);
    assert(trade_sql(columns, from, to, limit) =~= head + (from_text(from) + (to_text(to) + ((
    order_text(from) + " LIMIT "@) + digits))));
    (bounds, tail, order)
}

proof fn lemma_read_columns(columns: TradeColumns, bounds: Seq<char>)
    ensures
        columns is All ==> behind(
            select_text(columns) + bounds,
            "SELECT exchange, symbol, ts, price, qty, is_sell FROM trades WHERE symbol = ? AND exchange = ?"@,
        ) == Some(bounds),
        columns is Arrow ==> behind(
            select_text(columns) + bounds,
            "SELECT exchange, symbol, ts, price, qty, is_sell FROM trades WHERE symbol = ? AND exchange = ?"@,
        ) is None,
        columns is Arrow ==> behind(
            select_text(columns) + bounds,
            "SELECT ts, price, qty, is_sell FROM trades WHERE symbol = ? AND exchange = ?"@,
        ) == Some(bounds),
{
    let start = select_text(columns);
    let sql = start + bounds;
    lemma_behind(start, bounds);
    if columns is Arrow {
        reveal_strlit(
            "SELECT exchange, symbol, ts, price, qty, is_sell FROM trades WHERE symbol = ? AND exchange = ?",
        );
        reveal_strlit(
            "SELECT ts, price, qty, is_sell FROM trades WHERE symbol = ? AND exchange = ?",
        );
        let all =
            "SELECT exchange, symbol, ts, price, qty, is_sell FROM trades WHERE symbol = ? AND exchange = ?"@;
        assert(sql[7] == 't');
        if all.is_prefix_of(sql) {
            assert(all[7] == sql[7]);
        }
    }
}

proof fn lemma_read_lower(from: bool, bounds: Seq<char>, tail: Seq<char>)
    requires
        bounds == if from {
            " AND ts >= ?"@ + tail
        } else {
            tail
        },
        tail.len() > 13,
        tail[8] == '<' || tail[1] == 'O',
    ensures
        behind(bounds, " AND ts >= ?"@) == if from {
            Some(tail)
        } else {
            None::<Seq<char>>
        },
{
    if from {
        lemma_behind(" AND ts >= ?"@, tail);
    } else {
        reveal_strlit(" AND ts >= ?");
        if " AND ts >= ?"@.is_prefix_of(bounds) {
            assert(" AND ts >= ?"@[8] == bounds[8]);
            assert(" AND ts >= ?"@[1] == bounds[1]);
        }
    }
}

proof fn lemma_read_upper(to: bool, tail: Seq<char>, order: Seq<char>)
    requires
        tail == if to {
            " AND ts <= ?"@ + order
        } else {
            order
        },
        order.len() > 13,
        order[1] == 'O',
    ensures
        behind(tail, " AND ts <= ?"@) == if to {
            Some(order)
        } else {
            None::<Seq<char>>
        },
{
    if to {
        lemma_behind(" AND ts <= ?"@, order);
    } else {
        reveal_strlit(" AND ts <= ?");
        if " AND ts <= ?"@.is_prefix_of(tail) {
            assert(" AND ts <= ?"@[1] == tail[1]);
        }
    }
}

proof fn lemma_read_order(from: bool, order: Seq<char>, digits: Seq<char>)
    requires
        order == (if from {
            " ORDER BY ts ASC LIMIT "@
        } else {
            " ORDER BY ts DESC LIMIT "@
        }) + digits,
        order.len() > 13,
        order[13] == if from {
            'A'
        } else {
            'D'
        },
    ensures
        behind(order, " ORDER BY ts ASC LIMIT "@) == if from {
            Some(digits)
        } else {
            None::<Seq<char>>
        },
        !from ==> behind(order, " ORDER BY ts DESC LIMIT "@) == Some(digits),
{
    if from {
        lemma_behind(" ORDER BY ts ASC LIMIT "@, digits);
    } else {
        lemma_behind(" ORDER BY ts DESC LIMIT "@, digits);
        reveal_strlit(" ORDER BY ts ASC LIMIT ");
        if " ORDER BY ts ASC LIMIT "@.is_prefix_of(order) {
            assert(" ORDER BY ts ASC LIMIT "@[13] == order[13]);
        }
    }
}

/// The JSON query, read as the database reads it, asks for what the request asks for:
/// the trades of its symbol and exchange from its lower bound up to its upper bound, both
/// included, as many as it wants but no more than ten thousand; the oldest of them first
/// where there is a lower bound, and else the newest.
pub proof fn law_json_query_asks_for_the_request(query: TradeQuery, statement: Statement)
    requires
        call_ensures(query_trades, (&query,), statement),
    ensures
        read_query(statement.sql@, crate::text::views(statement.params@)) == Some(
            (QueryReading {
                all_columns: true,
                symbol: SqlParamView::Text(crate::text::lowercase(query.symbol@)),
                exchange: SqlParamView::Text(
                    crate::api::filter_text(query.venue@, query.market@),
                ),
                lower: match query.from {
                    Some(from) => Some(SqlParamView::Int(from)),
                    None => None,
                },
                upper: match query.to {
                    Some(to) => Some(SqlParamView::Int(to)),
                    None => None,
                },
                oldest_first: query.from is Some,
                limit: match query.limit {
                    Some(limit) => if limit <= 10_000 {
                        limit as nat
                    } else {
                        10_000
                    },
                    None => 1000,
                },
            }),
        ),
{
    lemma_query_reads_back(query, TradeColumns::All, json_rows(query.limit));
}

/// The Arrow query, read as the database reads it, asks for what the request asks for, as
/// many trades as it wants but no more than a million.
pub proof fn law_arrow_query_asks_for_the_request(query: TradeQuery, statement: Statement)
    requires
        call_ensures(query_trades_arrow_ipc, (&query,), statement),
    ensures
        read_query(statement.sql@, crate::text::views(statement.params@)) == Some(
            (QueryReading {
                all_columns: false,
                symbol: SqlParamView::Text(crate::text::lowercase(query.symbol@)),
                exchange: SqlParamView::Text(
                    crate::api::filter_text(query.venue@, query.market@),
                ),
                lower: match query.from {
                    Some(from) => Some(SqlParamView::Int(from)),
                    None => None,
                },
                upper: match query.to {
                    Some(to) => Some(SqlParamView::Int(to)),
                    None => None,
                },
                oldest_first: query.from is Some,
                limit: match query.limit {
                    Some(limit) => if limit <= 1_000_000 {
                        limit as nat
                    } else {
                        1_000_000
                    },
                    None => 50_000,
                },
            }),
        ),
{
    lemma_query_reads_back(query, TradeColumns::Arrow, arrow_query_rows(query.limit));
}

/// The bounds of a request are bound where they belong: behind symbol and exchange first
/// the lower bound and last the upper one.
pub proof fn law_bounds_are_bound(query: TradeQuery, statement: Statement)
    requires
        call_ensures(query_trades, (&query,), statement) || call_ensures(
            query_trades_arrow_ipc,
            (&query,),
            statement,
        ),
    ensures
        statement.params@[0] matches SqlParam::Text(symbol) && symbol@
            == crate::text::lowercase(query.symbol@),
        query.from matches Some(from) ==> (statement.params@[2] matches SqlParam::Int(n) && n
            == from),
        query.to matches Some(to) ==> (statement.params@.last() matches SqlParam::Int(n) && n
            == to),
        statement.params@.len() == 2 + (if query.from is Some {
            1int
        } else {
            0
        }) + (if query.to is Some {
            1int
        } else {
            0
        }),
{
    let seen = crate::text::views(statement.params@);
    assert(seen.len() == statement.params@.len());
    assert(seen[0] == statement.params@[0]@);
    assert(seen[1] == statement.params@[1]@);
    if query.from is Some {
        assert(seen[2] == statement.params@[2]@);
    }
    if query.to is Some {
        assert(seen.last() == statement.params@.last()@);
    }
}

/// A stored trade is what was traded: its side, its price, its quantity and its time are
/// those of the trade, under the name of its exchange and its shown symbol.
pub proof fn law_rows_hold_the_trade(trade: AnnotatedTrade, row: TradeRow)
    requires
        call_ensures(trade_row, (&trade,), row),
    ensures
        row.is_sell <==> trade.trade.is_sell,
        row.price_units == trade.trade.price_units,
        row.qty_units == trade.trade.qty_units,
        trade.trade.time <= i64::MAX ==> row.ts == trade.trade.time,
        trade.trade.time > i64::MAX ==> row.ts == trade.trade.time - 0x1_0000_0000_0000_0000,
        row.exchange@ == trade.ticker.exchange.spec_name(),
        row.symbol@ == crate::text::lowercase(
            match trade.ticker.display {
                Some(display) => display@,
                None => trade.ticker.symbol@,
            },
        ),
{
}

/// The side of a trade survives storage: two trades that differ in nothing but their
/// side have rows that differ in nothing but `is_sell`.
pub proof fn law_sides_are_told_apart(
    bought: AnnotatedTrade,
    sold: AnnotatedTrade,
    first: TradeRow,
    second: TradeRow,
)
    requires
        call_ensures(trade_row, (&bought,), first),
        call_ensures(trade_row, (&sold,), second),
        !bought.trade.is_sell,
        sold.trade.is_sell,
        bought.ticker@ == sold.ticker@,
        bought.trade.time == sold.trade.time,
        bought.trade.price_units == sold.trade.price_units,
        bought.trade.qty_units == sold.trade.qty_units,
    ensures
        !first.is_sell,
        second.is_sell,
        first.exchange@ == second.exchange@,
        first.symbol@ == second.symbol@,
        first.ts == second.ts,
        first.price_units == second.price_units,
        first.qty_units == second.qty_units,
{
}

/// Different trades are stored differently: from the row the time, the price, the
/// quantity and the side of the trade can be told.
pub proof fn law_rows_tell_trades_apart(
    a: AnnotatedTrade,
    b: AnnotatedTrade,
    first: TradeRow,
    second: TradeRow,
)
    requires
        call_ensures(trade_row, (&a,), first),
        call_ensures(trade_row, (&b,), second),
        first.ts == second.ts,
        first.price_units == second.price_units,
        first.qty_units == second.qty_units,
        first.is_sell == second.is_sell,
    ensures
        a.trade == b.trade,
{
}

/// What is stored of a ticker is what is known of it.
pub proof fn law_ticker_rows_hold_the_ticker(info: TickerInfo, row: TickerRow)
    requires
        call_ensures(ticker_row, (&info,), row),
    ensures
        row.exchange@ == info.ticker.exchange.spec_name(),
        row.symbol@ == crate::text::lowercase(
            match info.ticker.display {
                Some(display) => display@,
                None => info.ticker.symbol@,
            },
        ),
        row.min_ticksize == info.min_ticksize,
        row.min_qty == info.min_qty,
        row.contract_size == info.contract_size,
{
}

/// What was stored under the name of an exchange is loaded as a ticker of that exchange
/// with the stored symbol.
pub proof fn law_loaded_tickers_are_those_stored(
    exchange: Exchange,
    name: &str,
    symbol: &str,
    ticker: Result<Ticker, String>,
)
    requires
        call_ensures(row_ticker, (name, symbol), ticker),
        crate::market::fits_ticker(symbol@),
        Exchange::spec_parse(name@) == Some(exchange),
        forall|i: int| 0 <= i < symbol@.len() ==> symbol@[i] != '\0',
    ensures
        ticker matches Ok(t) && t.exchange == exchange && t.symbol@ == symbol@ && t.display is None,
{
    lemma_until_no_nul(symbol@);
}

proof fn lemma_until_no_nul(s: Seq<char>)
    requires
        forall|i: int| 0 <= i < s.len() ==> s[i] != '\0',
    ensures
        crate::market::until_nul(s) == s,
    decreases s.len(),
{
    if s.len() > 0 {
        assert(s[0] != '\0');
        lemma_until_no_nul(s.drop_first());
        assert(seq![s[0]] + s.drop_first() =~= s);
    }
    assert(crate::market::until_nul(s) =~= s);
}

/// Times of before the year 292 million are kept as they are, and loading undoes storing.
pub proof fn law_times_are_kept(time: u64, ts: i64, loaded: u64)
    requires
        call_ensures(to_stored_time, (time,), ts),
        call_ensures(from_stored_time, (ts,), loaded),
    ensures
        loaded == time,
        time <= i64::MAX ==> ts == time,
{
}

/// The size of the database is that of its file and its log together, where a file that
/// is missing counts for nothing; no size is given where one of them cannot be read.
pub proof fn law_size_is_of_file_and_log(
    database: FileSize,
    log: FileSize,
    size: Result<StorageBytes, String>,
)
    requires
        call_ensures(current_storage_bytes, (database, log), size),
    ensures
        size is Err <==> database is Unreadable || log is Unreadable,
        database matches FileSize::Bytes(a) ==> log matches FileSize::Bytes(b) ==> a + b
            <= u64::MAX ==> (size matches Ok(total) && total@ == a + b),
        database matches FileSize::Bytes(a) ==> log is Missing ==> (size matches Ok(total)
            && total@ == a),
        log matches FileSize::Bytes(b) ==> database is Missing ==> (size matches Ok(total)
            && total@ == b),
        database is Missing && log is Missing ==> (size matches Ok(total) && total@ == 0),
        database matches FileSize::Bytes(a) ==> log matches FileSize::Bytes(b) ==> a + b
            > u64::MAX ==> (size matches Ok(total) && total@ == u64::MAX),
{
}

/// Nothing is purged without a retention period, and with one exactly what is older: a
/// trade at `time` is before the cutoff if and only if more hours than that have passed.
pub proof fn law_purge_goes_by_age(
    retention: RetentionHours,
    now: i64,
    cutoff: Option<i64>,
    time: i64,
)
    requires
        call_ensures(purge_cutoff, (retention, now), cutoff),
    ensures
        retention@ == 0 ==> cutoff is None,
        retention@ > 0 ==> ((cutoff matches Some(oldest) && time < oldest) <==> now - time
            > retention@ * 3_600_000),
{
}

/// The record of a cleanup reads back as its time.
pub proof fn law_cleanup_record_reads_back(now: i64, text: String)
    requires
        call_ensures(cleanup_record, (now,), text),
    ensures
        now >= 0 ==> crate::text::all_digits(text@) && crate::text::digits_value(text@) == now,
        now < 0 ==> text@[0] == '-' && crate::text::all_digits(text@.skip(1))
            && crate::text::digits_value(text@.skip(1)) == -now,
{
    if now >= 0 {
        crate::text::lemma_decimal_round_trip(now as nat);
    } else {
        reveal_strlit("-");
        crate::text::lemma_decimal_round_trip((-now) as nat);
        assert(text@.skip(1) =~= crate::text::decimal((-now) as nat));
    }
}

/// A rewrite of the database file is tried three times, a second apart, and given up only
/// then; one that succeeds is not repeated.
pub proof fn law_vacuum_is_tried_three_times(attempt: u32, succeeded: bool, step: VacuumStep)
    requires
        call_ensures(vacuum_step, (attempt, succeeded), step),
    ensures
        step is Succeeded <==> succeeded,
        !succeeded && attempt < 2 ==> (step matches VacuumStep::Retry { delay_ms } && delay_ms
            == 1000),
        !succeeded && attempt >= 2 ==> step is GiveUp,
{
}

/// Every trade of an event is taken out of it, in order, with the instrument that its
/// stream is about. Other events hold no trades.
pub proof fn law_events_give_up_their_trades(event: Event, i: int)
    ensures
        event matches Event::TradesReceived(stream, trades) ==> {
            &&& annotated(event).len() == trades@.len()
            &&& 0 <= i < trades@.len() ==> annotated(event)[i].trade == trades@[i]
                && annotated(event)[i].ticker == (match stream {
                crate::stream::StreamKind::Trades { ticker_info } => ticker_info.ticker@,
                crate::stream::StreamKind::Depth { ticker_info, .. } => ticker_info.ticker@,
                crate::stream::StreamKind::Kline { ticker_info, .. } => ticker_info.ticker@,
            })
        },
        !(event is TradesReceived) ==> annotated(event).len() == 0,
{
}

/// The trades of events, one after the other.
pub open spec fn trades_of(events: Seq<Event>) -> Seq<crate::api::AnnotatedTradeView>
    decreases events.len(),
{
    if events.len() == 0 {
        Seq::empty()
    } else {
        trades_of(events.drop_last()) + annotated(events.last())
    }
}

/// The buffer keeps the first trades that come, in order, up to its maximum: what it
/// holds after events is what it held and the trades of the events, cut off where there
/// is no more room. It says so if and only if anything was cut off.
pub proof fn law_buffer_keeps_the_first_that_fit(state: BufferState, events: Seq<Event>)
    requires
        state.items.len() <= state.max,
    ensures
        ({
            let offered = state.items + trades_of(events);
            let after = ingested_all(state, events);
            &&& after.max == state.max
            &&& offered.len() <= state.max ==> after.items == offered && after.warned
                == state.warned
            &&& offered.len() > state.max ==> after.items == offered.take(state.max as int)
                && after.warned
        }),
    decreases events.len(),
{
    if events.len() == 0 {
        assert(state.items + trades_of(events) =~= state.items);
    } else {
        let before = events.drop_last();
        law_buffer_keeps_the_first_that_fit(state, before);
        let earlier = state.items + trades_of(before);
        let more = annotated(events.last());
        let offered = state.items + trades_of(events);
        let held = ingested_all(state, before);
        assert(offered =~= earlier + more);
        let room = held.max - held.items.len();
        if earlier.len() <= state.max {
            if more.len() <= room {
            } else {
                assert(held.items + more.take(room) =~= offered.take(state.max as int));
            }
        } else {
            assert(room == 0);
            if more.len() == 0 {
                assert(held.items + more =~= held.items);
            }
            assert(held.items + more.take(0) =~= held.items);
            assert(earlier.take(state.max as int) =~= offered.take(state.max as int));
        }
    }
}

/// A trade that finds room is kept at the end, one that finds none changes nothing that
/// is held.
pub proof fn law_offered_trade_is_kept_or_dropped(
    state: BufferState,
    item: crate::api::AnnotatedTradeView,
)
    requires
        state.items.len() <= state.max,
    ensures
        state.items.len() < state.max ==> offered(state, item).items == state.items.push(item)
            && offered(state, item).warned == state.warned,
        state.items.len() == state.max ==> offered(state, item).items == state.items && offered(
            state,
            item,
        ).warned,
        offered(state, item).max == state.max,
{
}

/// The trades that a flush loop holds: the batch to write again and the buffer.
pub open spec fn held_trades(state: FlushState) -> Seq<crate::api::AnnotatedTradeView> {
    (match state.retry {
        Some(batch) => batch,
        None => Seq::empty(),
    }) + state.buffer.items
}

/// A tick hands out trades or keeps them, but loses none: what is handed out and what is
/// still held are, in this order, what was held. It hands out something whenever there is
/// anything and no batch is being written, and then all of the buffer or all of the batch
/// that failed, which comes first.
pub proof fn law_tick_loses_nothing(state: FlushState)
    ensures
        ({
            let (after, batch) = tick(state);
            let out = match batch {
                Some(trades) => trades,
                None => Seq::empty(),
            };
            &&& out + held_trades(after) == held_trades(state)
            &&& state.in_flight ==> batch is None && after == state
            &&& !state.in_flight && state.retry is Some ==> batch == state.retry
                && after.retrying && after.retry is None && after.buffer == state.buffer
            &&& !state.in_flight && state.retry is None && state.buffer.items.len() > 0
                ==> batch == Some(state.buffer.items) && !after.retrying
                && after.buffer.items.len() == 0
            &&& !state.in_flight && state.retry is None && state.buffer.items.len() == 0
                ==> batch is None
            &&& batch is Some ==> after.in_flight
            &&& batch is None ==> after.in_flight == state.in_flight
            &&& after.buffer.max == state.buffer.max && after.buffer.warned
                == state.buffer.warned
        }),
{
    let (after, batch) = tick(state);
    let out = match batch {
        Some(trades) => trades,
        None => Seq::empty(),
    };
    assert(out + held_trades(after) =~= held_trades(state));
}

/// Once a batch has ended the next can start. A batch that was written is gone, one that
/// failed is held again before all that came since, and what waits in the buffer is left
/// alone. Only a batch that was written clears the mark of an overflow.
pub proof fn law_failed_batches_are_held_again(state: FlushState, end: BatchEnd)
    requires
        state.retry is None,
    ensures
        ({
            let after = after_batch(state, end);
            &&& !after.in_flight && !after.retrying
            &&& after.buffer.items == state.buffer.items && after.buffer.max == state.buffer.max
            &&& end is Written ==> held_trades(after) == held_trades(state)
                && !after.buffer.warned
            &&& end is Lost ==> held_trades(after) == held_trades(state) && after.buffer.warned
                == state.buffer.warned
            &&& end matches BatchEnd::Failed(batch) ==> held_trades(after)
                == crate::text::views(batch@) + held_trades(state) && after.buffer.warned
                == state.buffer.warned
        }),
{
    let after = after_batch(state, end);
    if let BatchEnd::Failed(batch) = end {
        assert(held_trades(after) =~= crate::text::views(batch@) + held_trades(state));
    }
}

/// The exchanges of a batch are those of its trades, each once.
pub proof fn law_batch_touches_the_exchanges_of_its_trades(
    trades: Vec<AnnotatedTrade>,
    found: Vec<Exchange>,
)
    requires
        call_ensures(exchanges_of, (&trades,), found),
    ensures
        found@.no_duplicates(),
        forall|i: int|
            0 <= i < trades@.len() ==> found@.contains((#[trigger] trades@[i]).ticker.exchange),
        forall|k: int|
            0 <= k < found@.len() ==> exists|i: int|
                0 <= i < trades@.len() && (#[trigger] trades@[i]).ticker.exchange
                    == #[trigger] found@[k],
{
    assert forall|k: int| 0 <= k < found@.len() implies exists|i: int|
        0 <= i < trades@.len() && (#[trigger] trades@[i]).ticker.exchange
            == #[trigger] found@[k] by {
        let exchange = found@[k];
        assert(found@.contains(exchange));
        let i = choose|i: int|
            0 <= i < trades@.len() && (#[trigger] trades@[i]).ticker.exchange == exchange;
        assert(trades@[i].ticker.exchange == found@[k]);
    }
    assert forall|i: int| 0 <= i < trades@.len() implies found@.contains(
        (#[trigger] trades@[i]).ticker.exchange,
    ) by {
        let exchange = trades@[i].ticker.exchange;
        assert(found@.contains(exchange));
    }
}

/// A trade that was pushed is at the end of the buffer or was dropped for want of room,
/// and what was held before is still held. The first drop since the last batch is told.
pub proof fn law_pushing_keeps_or_drops(
    buffer: &mut DataBuffer,
    item: AnnotatedTrade,
    outcome: PushOutcome,
)
    requires
        old(buffer).wf(),
        call_ensures(DataBuffer::push, (buffer, item), outcome),
    ensures
        final(buffer)@.max == old(buffer)@.max,
        outcome is Stored <==> old(buffer)@.items.len() < old(buffer)@.max,
        outcome is Stored ==> final(buffer)@.items == old(buffer)@.items.push(item@)
            && final(buffer)@.warned == old(buffer)@.warned,
        !(outcome is Stored) ==> final(buffer)@.items == old(buffer)@.items
            && final(buffer)@.warned,
        outcome is DroppedFirst <==> old(buffer)@.items.len() == old(buffer)@.max
            && !old(buffer)@.warned,
{
}

/// The trades of an event are appended to the buffer in order until it is full; the rest
/// is dropped and counted.
pub proof fn law_events_are_taken_in_order(
    flush: &mut FlushLoop,
    event: Event,
    dropped: usize,
)
    requires
        old(flush).wf(),
        call_ensures(FlushLoop::on_event, (flush, &event), dropped),
    ensures
        final(flush)@.in_flight == old(flush)@.in_flight,
        final(flush)@.retrying == old(flush)@.retrying,
        final(flush)@.retry == old(flush)@.retry,
        final(flush)@.buffer.max == old(flush)@.buffer.max,
        final(flush)@.buffer.items.len() <= old(flush)@.buffer.max,
        final(flush)@.buffer.items.is_prefix_of(old(flush)@.buffer.items + annotated(event)),
        final(flush)@.buffer.items.len() + dropped == old(flush)@.buffer.items.len() + annotated(
            event,
        ).len(),
        dropped > 0 ==> final(flush)@.buffer.items.len() == old(flush)@.buffer.max
            && final(flush)@.buffer.warned,
        dropped == 0 ==> final(flush)@.buffer.warned == old(flush)@.buffer.warned,
{
    let before = old(flush)@.buffer;
    let all = before.items + annotated(event);
    let after = final(flush)@.buffer;
    let room = before.max - before.items.len();
    if annotated(event).len() <= room {
        assert(after.items =~= all.take(after.items.len() as int));
    } else {
        assert(after.items =~= all.take(after.items.len() as int));
    }
}

/// A tick of the loop hands out or keeps what is held, and loses nothing.
pub proof fn law_ticks_hand_out_or_keep(
    flush: &mut FlushLoop,
    batch: Option<Vec<AnnotatedTrade>>,
)
    requires
        old(flush).wf(),
        call_ensures(FlushLoop::on_tick, (flush,), batch),
    ensures
        old(flush)@.in_flight ==> batch is None && final(flush)@ == old(flush)@,
        !old(flush)@.in_flight ==> (batch is Some <==> old(flush)@.retry is Some
            || old(flush)@.buffer.items.len() > 0),
        batch matches Some(trades) ==> {
            &&& final(flush)@.in_flight
            &&& crate::text::views(trades@) == match old(flush)@.retry {
                Some(failed) => failed,
                None => old(flush)@.buffer.items,
            }
            &&& final(flush)@.retrying == old(flush)@.retry is Some
            &&& final(flush)@.retry is None
            &&& old(flush)@.retry is Some ==> final(flush)@.buffer.items
                == old(flush)@.buffer.items
            &&& old(flush)@.retry is None ==> final(flush)@.buffer.items.len() == 0
        },
        batch is None ==> final(flush)@.buffer.items == old(flush)@.buffer.items
            && final(flush)@.retry == old(flush)@.retry,
{
    law_tick_loses_nothing(old(flush)@);
}

/// The end of a batch frees the loop for the next one. A batch that failed is held to be
/// written again; one that was written after it had failed is reported, and so is the
/// first one written after an overflow.
pub proof fn law_ends_of_batches_are_reported(
    flush: &mut FlushLoop,
    end: BatchEnd,
    report: BatchReport,
)
    requires
        old(flush).wf(),
        call_ensures(FlushLoop::on_batch_ended, (flush, end), report),
    ensures
        !final(flush)@.in_flight,
        final(flush)@.buffer.items == old(flush)@.buffer.items,
        final(flush)@.retry == match end {
            BatchEnd::Failed(batch) => Some(crate::text::views(batch@)),
            _ => old(flush)@.retry,
        },
        report.retry_committed <==> end is Written && old(flush)@.retrying,
        report.recovered <==> end is Written && old(flush)@.buffer.warned,
        end is Written ==> !final(flush)@.buffer.warned,
        !(end is Written) ==> final(flush)@.buffer.warned == old(flush)@.buffer.warned,
{
}

/// When no more events come everything that is held is handed out, the batch that failed
/// first, once no batch is being written any more.
pub proof fn law_closing_hands_out_everything(flush: &mut FlushLoop, last: FinalFlush)
    requires
        old(flush).wf(),
        call_ensures(FlushLoop::on_closed, (flush,), last),
    ensures
        last.wait_for_batch <==> old(flush)@.in_flight,
        last.wait_for_batch ==> last.retry is None && last.batch is None && final(flush)@
            == old(flush)@,
        !last.wait_for_batch ==> {
            &&& last.retry is Some <==> old(flush)@.retry is Some
            &&& last.retry matches Some(trades) ==> Some(crate::text::views(trades@))
                == old(flush)@.retry
            &&& last.batch is Some <==> old(flush)@.buffer.items.len() > 0
            &&& last.batch matches Some(trades) ==> crate::text::views(trades@)
                == old(flush)@.buffer.items
            &&& final(flush)@.retry is None
            &&& final(flush)@.buffer.items.len() == 0
        },
{
}

/// A new buffer, flusher and loop hold nothing and have the room that they were given.
pub proof fn law_buffers_start_empty(
    max: usize,
    buffer: DataBuffer,
    flusher: BatchFlusher,
    flush: FlushLoop,
)
    requires
        call_ensures(DataBuffer::new, (max,), buffer),
        call_ensures(BatchFlusher::new, (max,), flusher),
        call_ensures(FlushLoop::new, (max,), flush),
    ensures
        buffer@.items.len() == 0 && buffer@.max == max && !buffer@.warned,
        flusher@.items.len() == 0 && flusher@.max == max && !flusher@.warned,
        flush@.buffer.items.len() == 0 && flush@.buffer.max == max && !flush@.buffer.warned,
        !flush@.in_flight && !flush@.retrying && flush@.retry is None,
{
}

/// What waits is counted, and taking it hands out all of it, in order, and leaves nothing.
pub proof fn law_taking_empties_the_buffer(
    buffer: &mut DataBuffer,
    count: usize,
    empty: bool,
    items: Vec<AnnotatedTrade>,
    i: int,
)
    requires
        old(buffer).wf(),
        call_ensures(DataBuffer::len, (&*old(buffer),), count),
        call_ensures(DataBuffer::is_empty, (&*old(buffer),), empty),
        call_ensures(DataBuffer::take, (buffer,), items),
    ensures
        count == old(buffer)@.items.len(),
        empty <==> count == 0,
        items@.len() == count,
        0 <= i < items@.len() ==> items@[i]@ == old(buffer)@.items[i],
        final(buffer)@.items.len() == 0,
        final(buffer)@.max == old(buffer)@.max,
        final(buffer)@.warned == old(buffer)@.warned,
{
    assert(crate::text::views(items@).len() == items@.len());
    if 0 <= i < items@.len() {
        assert(crate::text::views(items@)[i] == items@[i]@);
    }
}

/// The flusher takes the trades of an event as far as there is room, counts those that it
/// drops, and hands out all that wait at once.
pub proof fn law_flusher_takes_and_hands_out(
    flusher: &mut BatchFlusher,
    event: Event,
    dropped: usize,
    full: &mut BatchFlusher,
    pending: bool,
    count: usize,
    items: Vec<AnnotatedTrade>,
)
    requires
        old(flusher).wf(),
        call_ensures(BatchFlusher::ingest, (flusher, &event), dropped),
        old(full).wf(),
        call_ensures(BatchFlusher::has_pending, (&*old(full),), pending),
        call_ensures(BatchFlusher::pending_count, (&*old(full),), count),
        call_ensures(BatchFlusher::take_all, (full,), items),
    ensures
        final(flusher)@.items.len() + dropped == old(flusher)@.items.len() + annotated(event).len(),
        final(flusher)@.items.is_prefix_of(old(flusher)@.items + annotated(event)),
        dropped > 0 ==> final(flusher)@.items.len() == old(flusher)@.max,
        final(flusher)@.max == old(flusher)@.max,
        pending <==> old(full)@.items.len() > 0,
        count == old(full)@.items.len(),
        crate::text::views(items@) == old(full)@.items,
        final(full)@.items.len() == 0,
{
    let before = old(flusher)@;
    let all = before.items + annotated(event);
    let after = final(flusher)@;
    assert(after.items =~= all.take(after.items.len() as int));
}

/// A batch that was written tells of an earlier overflow, once.
pub proof fn law_recovery_is_told_once(
    buffer: &mut DataBuffer,
    recovered: bool,
    flusher: &mut BatchFlusher,
    flusher_recovered: bool,
)
    requires
        old(buffer).wf(),
        old(flusher).wf(),
        call_ensures(DataBuffer::flush_succeeded, (buffer,), recovered),
        call_ensures(BatchFlusher::flush_succeeded, (flusher,), flusher_recovered),
    ensures
        recovered <==> old(buffer)@.warned,
        !final(buffer)@.warned,
        final(buffer)@.items == old(buffer)@.items,
        flusher_recovered <==> old(flusher)@.warned,
        !final(flusher)@.warned,
        final(flusher)@.items == old(flusher)@.items,
{
}

/// A stored row of an exchange that is not known is told so, with its name.
pub proof fn law_unknown_exchanges_are_told(
    exchange: &str,
    symbol: &str,
    found: Option<Exchange>,
    ticker: Result<Ticker, String>,
)
    requires
        call_ensures(Exchange::parse, (exchange,), found),
        call_ensures(row_ticker, (exchange, symbol), ticker),
    ensures
        ticker is Ok <==> found is Some,
        ticker matches Ok(t) ==> found == Some(t.exchange) && t.display is None,
        ticker matches Err(message) ==> message@ == "cannot parse exchange '"@ + exchange@
            + "': Invalid exchange: "@ + exchange@,
{
}

/// Trades are purged from before a time, or the oldest of them up to a number. They are
/// counted, and their pairs with the bounds of their times are listed by exchange and
/// symbol.
pub proof fn law_trades_are_purged_from_the_oldest()
    ensures
        PURGE_OLD_SQL@ == "DELETE FROM trades WHERE ts < ?1"@,
        DELETE_OLDEST_SQL@
            == "DELETE FROM trades WHERE rowid IN (SELECT rowid FROM trades ORDER BY ts ASC LIMIT ?)"@,
        COUNT_TRADES_SQL@ == "SELECT COUNT(*) FROM trades"@,
        PAIRS_SQL@
            == "SELECT exchange, symbol, MIN(ts) AS earliest, MAX(ts) AS latest FROM trades GROUP BY exchange, symbol ORDER BY exchange, symbol"@,
        PAIR_COUNT_SQL@ == "SELECT COUNT(DISTINCT exchange || ':' || symbol) FROM trades"@,
{
}

/// Tickers and metadata have a row for each key, which a later value replaces.
pub proof fn law_later_values_replace_earlier_ones()
    ensures
        STORE_TICKER_SQL@
            == "INSERT OR REPLACE INTO ticker_info (exchange, symbol, min_ticksize, min_qty, contract_size) VALUES (?1, ?2, ?3, ?4, ?5)"@,
        SET_METADATA_SQL@ == "INSERT OR REPLACE INTO metadata (key, value) VALUES (?1, ?2)"@,
        GET_METADATA_SQL@ == "SELECT value FROM metadata WHERE key = ?1"@,
        LAST_CLEANUP_KEY@ == "last_cleanup"@,
{
}

/// Pairs and bound values are seen as they are.
pub proof fn law_pairs_and_values_are_seen_whole(pair: PairInfo, param: SqlParam)
    ensures
        pair@.ticker == pair.ticker@,
        pair@.earliest == pair.earliest,
        pair@.latest == pair.latest,
        param matches SqlParam::Text(text) ==> param@ == SqlParamView::Text(text@),
        param matches SqlParam::Int(n) ==> param@ == SqlParamView::Int(n),
{
}

} // verus!
