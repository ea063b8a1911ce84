//! Market-data streams: what is subscribed to, and where events go.

use vstd::prelude::*;
use vstd::string::*;

use crate::market::{Exchange, TickerInfo, Trade, EXCHANGES};
use crate::text::to_lowercase;

verus! {

/// How many events are buffered for best-effort consumers before the slowest
/// one starts to lose them.
pub const BROADCAST_CAPACITY: usize = 1024;

/// Candle streams that one connection can carry.
pub const MAX_KLINE_STREAMS_PER_STREAM: usize = 100;

/// Something that can be subscribed to. Time frames are in milliseconds.
#[derive(Debug)]
pub enum StreamKind {
    Kline { ticker_info: TickerInfo, timeframe: u64 },
    Depth {
        ticker_info: TickerInfo,
        /// The multiplier of a server-side aggregation; `None` leaves it to the
        /// client.
        tick_multiplier: Option<u16>,
        /// A time frame for updates; `None` leaves it to the server.
        push_frequency: Option<u64>,
    },
    Trades { ticker_info: TickerInfo },
}

/// The mathematical value of a [`StreamKind`].
#[verifier::ext_equal]
pub enum StreamKindView {
    Kline { ticker_info: crate::market::TickerInfoView, timeframe: u64 },
    Depth {
        ticker_info: crate::market::TickerInfoView,
        tick_multiplier: Option<u16>,
        push_frequency: Option<u64>,
    },
    Trades { ticker_info: crate::market::TickerInfoView },
}

impl View for StreamKind {
    type V = StreamKindView;

    open spec fn view(&self) -> StreamKindView {
        match *self {
            StreamKind::Kline { ticker_info, timeframe } => StreamKindView::Kline {
                ticker_info: ticker_info@,
                timeframe,
            },
            StreamKind::Depth { ticker_info, tick_multiplier, push_frequency } =>
                StreamKindView::Depth { ticker_info: ticker_info@, tick_multiplier, push_frequency },
            StreamKind::Trades { ticker_info } => StreamKindView::Trades {
                ticker_info: ticker_info@,
            },
        }
    }
}

impl StreamKindView {
    /// The instrument that the stream is about.
    pub open spec fn info(self) -> crate::market::TickerInfoView {
        match self {
            StreamKindView::Kline { ticker_info, .. } => ticker_info,
            StreamKindView::Depth { ticker_info, .. } => ticker_info,
            StreamKindView::Trades { ticker_info } => ticker_info,
        }
    }

    /// The exchange that the stream comes from.
    pub open spec fn exchange(self) -> Exchange {
        self.info().ticker.exchange
    }
}

impl Clone for StreamKind {
    fn clone(&self) -> (copy: StreamKind)
        ensures
            copy@ == self@,
    {
        match self {
            StreamKind::Kline { ticker_info, timeframe } => StreamKind::Kline {
                ticker_info: ticker_info.clone(),
                timeframe: *timeframe,
            },
            StreamKind::Depth { ticker_info, tick_multiplier, push_frequency } =>
                StreamKind::Depth {
                    ticker_info: ticker_info.clone(),
                    tick_multiplier: *tick_multiplier,
                    push_frequency: *push_frequency,
                },
            StreamKind::Trades { ticker_info } => StreamKind::Trades {
                ticker_info: ticker_info.clone(),
            },
        }
    }
}

impl StreamKind {
    /// The instrument that the stream is about.
    pub fn ticker_info(&self) -> (info: &TickerInfo)
        ensures
            info@ == self@.info(),
    {
        match self {
            StreamKind::Kline { ticker_info, .. } => ticker_info,
            StreamKind::Depth { ticker_info, .. } => ticker_info,
            StreamKind::Trades { ticker_info } => ticker_info,
        }
    }

    /// The exchange that the stream comes from.
    pub fn exchange(&self) -> (exchange: Exchange)
        ensures
            exchange == self@.exchange(),
    {
        self.ticker_info().ticker.exchange
    }
}

/// What a stream delivers. Books and candles are not looked into.
#[derive(Debug)]
pub enum Event {
    Connected(Vec<StreamKind>),
    Disconnected(Vec<StreamKind>, String),
    DepthReceived(StreamKind),
    TradesReceived(StreamKind, Vec<Trade>),
    KlineReceived(StreamKind),
}

/// One trade stream for each pair, in order.
pub fn trade_streams(pairs: &Vec<TickerInfo>) -> (streams: Vec<StreamKind>)
    ensures
        crate::text::views(streams@) == Seq::new(
            pairs@.len(),
            |i: int| StreamKindView::Trades { ticker_info: pairs@[i]@ },
        ),
{
    let mut streams: Vec<StreamKind> = Vec::new();
    let mut i: usize = 0;
    while i < pairs.len()
        invariant
            i <= pairs@.len(),
            streams@.len() == i,
            forall|j: int|
                0 <= j < i ==> (#[trigger] streams@[j])@ == (StreamKindView::Trades {
                    ticker_info: pairs@[j]@,
                }),
        decreases pairs@.len() - i,
    {
        streams.push(StreamKind::Trades { ticker_info: pairs[i].clone() });
        i += 1;
    }
    assert(crate::text::views(streams@) =~= Seq::new(
        pairs@.len(),
        |i: int| StreamKindView::Trades { ticker_info: pairs@[i]@ },
    ));
    streams
}

/// The streams of one exchange, in order.
pub open spec fn of_exchange(streams: Seq<StreamKindView>, exchange: Exchange) -> Seq<
    StreamKindView,
>
    decreases streams.len(),
{
    if streams.len() == 0 {
        Seq::empty()
    } else {
        let earlier = of_exchange(streams.drop_last(), exchange);
        if streams.last().exchange() == exchange {
            earlier.push(streams.last())
        } else {
            earlier
        }
    }
}

/// The streams that one task subscribes to.
#[derive(Debug)]
pub struct ExchangeStreams {
    pub exchange: Exchange,
    pub streams: Vec<StreamKind>,
}

/// Whether `groups` splits `streams` by exchange: each group holds all streams
/// of its exchange in order, no exchange has two groups or an empty one, and
/// every stream is in some group.
pub open spec fn splits_by_exchange(
    groups: Seq<ExchangeStreams>,
    streams: Seq<StreamKindView>,
) -> bool {
    &&& forall|i: int|
        #![trigger groups[i]]
        0 <= i < groups.len() ==> crate::text::views(groups[i].streams@) == of_exchange(
            streams,
            groups[i].exchange,
        ) && groups[i].streams@.len() > 0
    &&& forall|i: int, j: int|
        #![trigger groups[i], groups[j]]
        0 <= i < j < groups.len() ==> groups[i].exchange != groups[j].exchange
    &&& forall|i: int|
        #![trigger streams[i]]
        0 <= i < streams.len() ==> exists|j: int|
            0 <= j < groups.len() && (#[trigger] groups[j]).exchange == streams[i].exchange()
}

/// The streams of one exchange, in order.
fn streams_of(streams: &Vec<StreamKind>, exchange: Exchange) -> (found: Vec<StreamKind>)
    ensures
        crate::text::views(found@) == of_exchange(crate::text::views(streams@), exchange),
{
    let ghost all = crate::text::views(streams@);
    let mut found: Vec<StreamKind> = Vec::new();
    let mut i: usize = 0;
    assert(crate::text::views(found@) =~= of_exchange(all.take(0), exchange));
    while i < streams.len()
        invariant
            i <= streams@.len(),
            all == crate::text::views(streams@),
            crate::text::views(found@) == of_exchange(all.take(i as int), exchange),
        decreases streams@.len() - i,
    {
        let ghost head = all.take(i as int + 1);
        let ghost earlier = crate::text::views(found@);
        assert(head.drop_last() =~= all.take(i as int));
        assert(head.last() == streams@[i as int]@);
        if streams[i].exchange() == exchange {
            found.push(streams[i].clone());
            assert(crate::text::views(found@) =~= earlier.push(streams@[i as int]@));
        }
        i += 1;
    }
    assert(all.take(i as int) =~= all);
    found
}

proof fn lemma_member_of_exchange(streams: Seq<StreamKindView>, i: int)
    requires
        0 <= i < streams.len(),
    ensures
        of_exchange(streams, streams[i].exchange()).len() > 0,
    decreases streams.len(),
{
    if i < streams.len() - 1 {
        assert(streams.drop_last()[i] == streams[i]);
        lemma_member_of_exchange(streams.drop_last(), i);
    }
}

/// Split streams by exchange: each exchange gets one task that subscribes to
/// all its streams.
pub fn group_by_exchange(streams: &Vec<StreamKind>) -> (groups: Vec<ExchangeStreams>)
    ensures
        splits_by_exchange(groups@, crate::text::views(streams@)),
{
    let ghost all = crate::text::views(streams@);
    let mut groups: Vec<ExchangeStreams> = Vec::new();
    let mut i: usize = 0;
    while i < EXCHANGES
        invariant
            i <= EXCHANGES,
            all == crate::text::views(streams@),
            forall|k: int|
                #![trigger groups@[k]]
                0 <= k < groups@.len() ==> crate::text::views(groups@[k].streams@) == of_exchange(
                    all,
                    groups@[k].exchange,
                ) && groups@[k].streams@.len() > 0 && groups@[k].exchange.spec_index() < i,
            forall|a: int, b: int|
                #![trigger groups@[a], groups@[b]]
                0 <= a < b < groups@.len() ==> groups@[a].exchange != groups@[b].exchange,
            forall|k: int|
                #![trigger all[k]]
                0 <= k < all.len() && all[k].exchange().spec_index() < i ==> exists|j: int|
                    0 <= j < groups@.len() && (#[trigger] groups@[j]).exchange
                        == all[k].exchange(),
        decreases EXCHANGES - i,
    {
        let exchange = Exchange::from_index(i);
        let found = streams_of(streams, exchange);
        let ghost before = groups@;
        let ghost size = found@.len();
        assert(size == of_exchange(all, exchange).len()) by {
            assert(crate::text::views(found@).len() == size);
        }
        if found.len() > 0 {
            groups.push(ExchangeStreams { exchange, streams: found });
            assert(forall|j: int| 0 <= j < before.len() ==> #[trigger] groups@[j] == before[j]);
            assert(groups@[before.len() as int].exchange == exchange);
        }
        proof {
            assert forall|k: int|
                #![trigger all[k]]
                0 <= k < all.len() && all[k].exchange().spec_index() < i + 1 implies exists|j: int|
                0 <= j < groups@.len() && (#[trigger] groups@[j]).exchange
                    == all[k].exchange() by {
                if all[k].exchange().spec_index() < i {
                    let j = choose|j: int|
                        0 <= j < before.len() && (#[trigger] before[j]).exchange
                            == all[k].exchange();
                    assert(groups@[j].exchange == all[k].exchange());
                } else {
                    lemma_member_of_exchange(all, k);
                    assert(all[k].exchange() == exchange);
                    assert(groups@[before.len() as int].exchange == all[k].exchange());
                }
            }
        }
        i += 1;
    }
    assert forall|k: int| 0 <= k < all.len() implies (#[trigger] all[k]).exchange().spec_index()
        < EXCHANGES by {}
    groups
}

/// One order book to subscribe to.
#[derive(Debug)]
pub struct DepthSpec {
    pub ticker_info: TickerInfo,
    pub tick_multiplier: Option<u16>,
    pub push_frequency: Option<u64>,
}

/// The mathematical value of a [`DepthSpec`].
#[verifier::ext_equal]
pub struct DepthSpecView {
    pub ticker_info: crate::market::TickerInfoView,
    pub tick_multiplier: Option<u16>,
    pub push_frequency: Option<u64>,
}

impl View for DepthSpec {
    type V = DepthSpecView;

    open spec fn view(&self) -> DepthSpecView {
        DepthSpecView {
            ticker_info: self.ticker_info@,
            tick_multiplier: self.tick_multiplier,
            push_frequency: self.push_frequency,
        }
    }
}

/// One series of candles to subscribe to.
#[derive(Debug)]
pub struct KlineSpec {
    pub ticker_info: TickerInfo,
    pub timeframe: u64,
}

/// The mathematical value of a [`KlineSpec`].
#[verifier::ext_equal]
pub struct KlineSpecView {
    pub ticker_info: crate::market::TickerInfoView,
    pub timeframe: u64,
}

impl View for KlineSpec {
    type V = KlineSpecView;

    open spec fn view(&self) -> KlineSpecView {
        KlineSpecView { ticker_info: self.ticker_info@, timeframe: self.timeframe }
    }
}

impl Clone for KlineSpec {
    fn clone(&self) -> (copy: KlineSpec)
        ensures
            copy@ == self@,
    {
        KlineSpec { ticker_info: self.ticker_info.clone(), timeframe: self.timeframe }
    }
}

/// The instruments whose trades are wanted, in order.
pub open spec fn trade_part(streams: Seq<StreamKindView>) -> Seq<crate::market::TickerInfoView>
    decreases streams.len(),
{
    if streams.len() == 0 {
        Seq::empty()
    } else {
        let earlier = trade_part(streams.drop_last());
        match streams.last() {
            StreamKindView::Trades { ticker_info } => earlier.push(ticker_info),
            _ => earlier,
        }
    }
}

/// The order books that are wanted, in order.
pub open spec fn depth_part(streams: Seq<StreamKindView>) -> Seq<DepthSpecView>
    decreases streams.len(),
{
    if streams.len() == 0 {
        Seq::empty()
    } else {
        let earlier = depth_part(streams.drop_last());
        match streams.last() {
            StreamKindView::Depth { ticker_info, tick_multiplier, push_frequency } => earlier.push(
                DepthSpecView { ticker_info, tick_multiplier, push_frequency },
            ),
            _ => earlier,
        }
    }
}

/// The candles that are wanted, in order.
pub open spec fn kline_part(streams: Seq<StreamKindView>) -> Seq<KlineSpecView>
    decreases streams.len(),
{
    if streams.len() == 0 {
        Seq::empty()
    } else {
        let earlier = kline_part(streams.drop_last());
        match streams.last() {
            StreamKindView::Kline { ticker_info, timeframe } => earlier.push(
                KlineSpecView { ticker_info, timeframe },
            ),
            _ => earlier,
        }
    }
}

/// The connections that one exchange's streams take: one for all trades, one
/// for each order book, and one for each chunk of candles.
#[derive(Debug)]
pub struct SubscriptionPlan {
    pub trades: Vec<TickerInfo>,
    pub depths: Vec<DepthSpec>,
    pub kline_chunks: Vec<Vec<KlineSpec>>,
}

/// Whether `chunks` cuts `items` into runs of `size`, the last one perhaps
/// shorter.
pub open spec fn cut_into(
    chunks: Seq<Seq<KlineSpecView>>,
    items: Seq<KlineSpecView>,
    size: int,
) -> bool {
    &&& items.len() <= chunks.len() * size < items.len() + size
    &&& forall|i: int|
        #![trigger chunks[i]]
        0 <= i < chunks.len() ==> chunks[i] == items.subrange(
            i * size,
            if (i + 1) * size < items.len() {
                (i + 1) * size
            } else {
                items.len() as int
            },
        )
}

/// The values of chunks of candles.
pub open spec fn chunk_views(chunks: Seq<Vec<KlineSpec>>) -> Seq<Seq<KlineSpecView>> {
    Seq::new(chunks.len(), |i: int| crate::text::views(chunks[i]@))
}

/// Cut candles into chunks so that each connection stays within its limit.
fn chunk_klines(items: &Vec<KlineSpec>) -> (chunks: Vec<Vec<KlineSpec>>)
    ensures
        cut_into(
            chunk_views(chunks@),
            crate::text::views(items@),
            MAX_KLINE_STREAMS_PER_STREAM as int,
        ),
{
    let ghost all = crate::text::views(items@);
    let total: usize = items.len();
    let mut chunks: Vec<Vec<KlineSpec>> = Vec::new();
    let mut start: usize = 0;
    while start < total
        invariant
            total == items@.len(),
            all == crate::text::views(items@),
            start <= total,
            start < total ==> start == chunks@.len() * 100,
            start == total ==> total <= chunks@.len() * 100 < total + 100,
            forall|i: int|
                #![trigger chunks@[i]]
                0 <= i < chunks@.len() ==> crate::text::views(chunks@[i]@) == all.subrange(
                    i * 100,
                    if (i + 1) * 100 < all.len() {
                        (i + 1) * 100
                    } else {
                        all.len() as int
                    },
                ),
        decreases total - start,
    {
        let end: usize = if total - start > MAX_KLINE_STREAMS_PER_STREAM {
            start + MAX_KLINE_STREAMS_PER_STREAM
        } else {
            total
        };
        let mut chunk: Vec<KlineSpec> = Vec::new();
        let mut i: usize = start;
        while i < end
            invariant
                start <= i <= end,
                end <= items@.len(),
                chunk@.len() == i - start,
                forall|j: int| 0 <= j < chunk@.len() ==> (#[trigger] chunk@[j])@ == items@[start + j]@,
            decreases end - i,
        {
            chunk.push(items[i].clone());
            i += 1;
        }
        assert(crate::text::views(chunk@) =~= all.subrange(start as int, end as int));
        let ghost before = chunks@;
        chunks.push(chunk);
        assert(forall|k: int| 0 <= k < before.len() ==> #[trigger] chunks@[k] == before[k]);
        start = end;
    }
    assert forall|i: int|
        #![trigger chunk_views(chunks@)[i]]
        0 <= i < chunks@.len() implies chunk_views(chunks@)[i] == all.subrange(
        i * 100,
        if (i + 1) * 100 < all.len() {
            (i + 1) * 100
        } else {
            all.len() as int
        },
    ) by {
        assert(chunk_views(chunks@)[i] == crate::text::views(chunks@[i]@));
    }
    chunks
}

/// Separate streams by kind and plan the connections.
pub fn plan_subscriptions(streams: &Vec<StreamKind>) -> (plan: SubscriptionPlan)
    ensures
        crate::text::views(plan.trades@) == trade_part(crate::text::views(streams@)),
        crate::text::views(plan.depths@) == depth_part(crate::text::views(streams@)),
        cut_into(
            chunk_views(plan.kline_chunks@),
            kline_part(crate::text::views(streams@)),
            MAX_KLINE_STREAMS_PER_STREAM as int,
        ),
{
    let ghost all = crate::text::views(streams@);
    let mut trades: Vec<TickerInfo> = Vec::new();
    let mut depths: Vec<DepthSpec> = Vec::new();
    let mut klines: Vec<KlineSpec> = Vec::new();
    let mut i: usize = 0;
    assert(crate::text::views(trades@) =~= trade_part(all.take(0)));
    assert(crate::text::views(depths@) =~= depth_part(all.take(0)));
    assert(crate::text::views(klines@) =~= kline_part(all.take(0)));
    while i < streams.len()
        invariant
            i <= streams@.len(),
            all == crate::text::views(streams@),
            crate::text::views(trades@) == trade_part(all.take(i as int)),
            crate::text::views(depths@) == depth_part(all.take(i as int)),
            crate::text::views(klines@) == kline_part(all.take(i as int)),
        decreases streams@.len() - i,
    {
        let ghost head = all.take(i as int + 1);
        let ghost before = (
            crate::text::views(trades@),
            crate::text::views(depths@),
            crate::text::views(klines@),
        );
        assert(head.drop_last() =~= all.take(i as int));
        assert(head.last() == streams@[i as int]@);
        match &streams[i] {
            StreamKind::Trades { ticker_info } => {
                trades.push(ticker_info.clone());
                assert(crate::text::views(trades@) =~= before.0.push(ticker_info@));
            },
            StreamKind::Depth { ticker_info, tick_multiplier, push_frequency } => {
                let spec_item = DepthSpec {
                    ticker_info: ticker_info.clone(),
                    tick_multiplier: *tick_multiplier,
                    push_frequency: *push_frequency,
                };
                let ghost added = spec_item@;
                depths.push(spec_item);
                assert(crate::text::views(depths@) =~= before.1.push(added));
            },
            StreamKind::Kline { ticker_info, timeframe } => {
                let spec_item = KlineSpec {
                    ticker_info: ticker_info.clone(),
                    timeframe: *timeframe,
                };
                let ghost added = spec_item@;
                klines.push(spec_item);
                assert(crate::text::views(klines@) =~= before.2.push(added));
            },
        }
        i += 1;
    }
    assert(all.take(i as int) =~= all);
    let kline_chunks = chunk_klines(&klines);
    SubscriptionPlan { trades, depths, kline_chunks }
}

/// The symbols of tickers in small letters.
pub fn lower_symbols(tickers: &Vec<TickerInfo>) -> (symbols: Vec<String>)
    ensures
        crate::text::views(symbols@) == Seq::new(
            tickers@.len(),
            |i: int| crate::text::lowercase(tickers@[i].ticker.symbol@),
        ),
{
    let mut symbols: Vec<String> = Vec::new();
    let mut i: usize = 0;
    while i < tickers.len()
        invariant
            i <= tickers@.len(),
            symbols@.len() == i,
            forall|j: int|
                0 <= j < i ==> (#[trigger] symbols@[j])@ == crate::text::lowercase(
                    tickers@[j].ticker.symbol@,
                ),
        decreases tickers@.len() - i,
    {
        symbols.push(to_lowercase(tickers[i].ticker.symbol.as_str()));
        i += 1;
    }
    assert(crate::text::views(symbols@) =~= Seq::new(
        tickers@.len(),
        |i: int| crate::text::lowercase(tickers@[i].ticker.symbol@),
    ));
    symbols
}

/// What a stream task sees next.
#[derive(Debug, Clone, Copy, PartialEq, Eq, Structural)]
pub enum EngineInput {
    /// Shutdown was requested.
    Cancelled,
    /// An event arrived and was handed on.
    Forwarded,
    /// An event arrived but nobody takes it any more.
    ReceiverGone,
    /// All streams ended.
    Ended,
}

/// Whether a stream task goes on.
#[derive(Debug, Clone, Copy, PartialEq, Eq, Structural)]
pub enum EngineStep {
    Continue,
    Stop,
}

/// A stream task forwards events until it is cancelled, nobody takes them, or
/// its streams end.
pub fn engine_step(input: EngineInput) -> (step: EngineStep)
    ensures
        step == EngineStep::Continue <==> input == EngineInput::Forwarded,
{
    match input {
        EngineInput::Forwarded => EngineStep::Continue,
        _ => EngineStep::Stop,
    }
}

/// What became of an event that was offered to a bounded channel.
#[derive(Debug, Clone, Copy, PartialEq, Eq, Structural)]
pub enum SendOutcome {
    Sent,
    /// The channel was full; the event is dropped.
    Full,
    /// Nobody receives any more.
    Closed,
}

/// What is noted of a bounded channel.
#[derive(Debug, Clone, Copy, PartialEq, Eq, Structural)]
pub enum ChannelNote {
    Nothing,
    /// An event was dropped.
    Dropped,
    /// Events pass again.
    Recovered,
}

/// A bounded channel after an event was offered to it.
#[derive(Debug, Clone, Copy, PartialEq, Eq, Structural)]
pub struct ChannelStep {
    /// Whether the last event was dropped because the channel was full.
    pub saturated: bool,
    pub note: ChannelNote,
    /// Whether the sender goes on.
    pub open: bool,
}

/// Take in what became of an event. A full channel drops it rather than wait, and the
/// first event that passes again is noted as a recovery.
pub fn channel_step(saturated: bool, outcome: SendOutcome) -> (step: ChannelStep)
    ensures
        step == match outcome {
            SendOutcome::Sent => ChannelStep {
                saturated: false,
                note: if saturated {
                    ChannelNote::Recovered
                } else {
                    ChannelNote::Nothing
                },
                open: true,
            },
            SendOutcome::Full => ChannelStep {
                saturated: true,
                note: ChannelNote::Dropped,
                open: true,
            },
            SendOutcome::Closed => ChannelStep {
                saturated,
                note: ChannelNote::Nothing,
                open: false,
            },
        },
{
    match outcome {
        SendOutcome::Sent => ChannelStep {
            saturated: false,
            note: if saturated {
                ChannelNote::Recovered
            } else {
                ChannelNote::Nothing
            },
            open: true,
        },
        SendOutcome::Full => ChannelStep {
            saturated: true,
            note: ChannelNote::Dropped,
            open: true,
        },
        SendOutcome::Closed => ChannelStep { saturated, note: ChannelNote::Nothing, open: false },
    }
}

/// Where an event is sent.
#[derive(Debug, Clone, Copy, PartialEq, Eq, Structural)]
pub struct Routing {
    pub broadcast: bool,
    pub persist: bool,
}

/// Route an event: to the broadcast outlet if it is configured and somebody
/// listens, and to the persist outlet if it is configured.
pub fn route(
    broadcast_configured: bool,
    broadcast_receivers: usize,
    persist_configured: bool,
) -> (routing: Routing)
    ensures
        routing.broadcast == (broadcast_configured && broadcast_receivers > 0),
        routing.persist == persist_configured,
{
    Routing {
        broadcast: broadcast_configured && broadcast_receivers > 0,
        persist: persist_configured,
    }
}

/// No stream is lost or doubled by grouping: each is in one group, that of its
/// exchange, and no other group is for that exchange.
pub proof fn law_each_stream_has_one_group(
    groups: Seq<ExchangeStreams>,
    streams: Seq<StreamKindView>,
    i: int,
) -> (j: int)
    requires
        splits_by_exchange(groups, streams),
        0 <= i < streams.len(),
    ensures
        0 <= j < groups.len(),
        groups[j].exchange == streams[i].exchange(),
        crate::text::views(groups[j].streams@).contains(streams[i]),
        forall|k: int|
            0 <= k < groups.len() && k != j ==> (#[trigger] groups[k]).exchange
                != streams[i].exchange(),
{
    let stream = streams[i];
    let j = choose|j: int|
        0 <= j < groups.len() && (#[trigger] groups[j]).exchange == stream.exchange();
    lemma_of_exchange_contains(streams, i);
    j
}

proof fn lemma_of_exchange_contains(streams: Seq<StreamKindView>, i: int)
    requires
        0 <= i < streams.len(),
    ensures
        of_exchange(streams, streams[i].exchange()).contains(streams[i]),
    decreases streams.len(),
{
    let exchange = streams[i].exchange();
    let shorter = streams.drop_last();
    let earlier = of_exchange(shorter, exchange);
    let all = of_exchange(streams, exchange);
    if i < shorter.len() {
        assert(shorter[i] == streams[i]);
        lemma_of_exchange_contains(shorter, i);
        let k = choose|k: int| 0 <= k < earlier.len() && earlier[k] == streams[i];
        assert(all[k] == streams[i]);
    } else {
        assert(all[earlier.len() as int] == streams[i]);
    }
}

/// No connection carries more candle streams than it can.
pub proof fn law_kline_chunks_stay_within_limit(
    chunks: Seq<Seq<KlineSpecView>>,
    items: Seq<KlineSpecView>,
    i: int,
)
    requires
        cut_into(chunks, items, MAX_KLINE_STREAMS_PER_STREAM as int),
        0 <= i < chunks.len(),
    ensures
        0 < chunks[i].len() <= MAX_KLINE_STREAMS_PER_STREAM,
        forall|k: int|
            0 <= k < chunks[i].len() ==> #[trigger] chunks[i][k] == items[100 * i + k],
{
}

/// A stream is seen with everything it holds: its kind, its instrument and its settings.
/// It comes from the exchange of its instrument.
pub proof fn law_streams_are_seen_whole(stream: StreamKind)
    ensures
        match stream {
            StreamKind::Trades { ticker_info } => stream@ == (StreamKindView::Trades {
                ticker_info: ticker_info@,
            }) && stream@.info() == ticker_info@ && stream@.exchange()
                == ticker_info.ticker.exchange,
            StreamKind::Depth { ticker_info, tick_multiplier, push_frequency } => stream@ == (
            StreamKindView::Depth {
                ticker_info: ticker_info@,
                tick_multiplier,
                push_frequency,
            }) && stream@.info() == ticker_info@ && stream@.exchange()
                == ticker_info.ticker.exchange,
            StreamKind::Kline { ticker_info, timeframe } => stream@ == (StreamKindView::Kline {
                ticker_info: ticker_info@,
                timeframe,
            }) && stream@.info() == ticker_info@ && stream@.exchange()
                == ticker_info.ticker.exchange,
        },
{
}

/// Every pair is followed by one trade stream, and nothing else is.
pub proof fn law_each_pair_has_its_trade_stream(
    pairs: Vec<TickerInfo>,
    streams: Vec<StreamKind>,
)
    requires
        call_ensures(trade_streams, (&pairs,), streams),
    ensures
        streams@.len() == pairs@.len(),
        forall|i: int|
            0 <= i < pairs@.len() ==> ((#[trigger] streams@[i]) matches StreamKind::Trades {
                ticker_info,
            } && ticker_info@ == pairs@[i]@),
{
    let seen = crate::text::views(streams@);
    assert(seen.len() == pairs@.len());
    assert forall|i: int| 0 <= i < pairs@.len() implies ((
    #[trigger] streams@[i]) matches StreamKind::Trades { ticker_info } && ticker_info@
        == pairs@[i]@) by {
        assert(seen[i] == streams@[i]@);
    }
}

proof fn lemma_of_exchange_is_filter(streams: Seq<StreamKindView>, exchange: Exchange)
    ensures
        of_exchange(streams, exchange) == streams.filter(
            |s: StreamKindView| s.info().ticker.exchange == exchange,
        ),
    decreases streams.len(),
{
    reveal(Seq::filter);
    if streams.len() > 0 {
        lemma_of_exchange_is_filter(streams.drop_last(), exchange);
    }
}

/// Grouping keeps each exchange's streams together and in order, and each stream in one
/// group: a group holds the streams of its exchange and no others.
pub proof fn law_groups_hold_the_streams_of_their_exchange(
    streams: Vec<StreamKind>,
    groups: Vec<ExchangeStreams>,
)
    requires
        call_ensures(group_by_exchange, (&streams,), groups),
    ensures
        forall|i: int|
            0 <= i < groups@.len() ==> crate::text::views((#[trigger] groups@[i]).streams@)
                == crate::text::views(streams@).filter(
                |s: StreamKindView| s.info().ticker.exchange == groups@[i].exchange,
            ) && groups@[i].streams@.len() > 0,
        forall|i: int, j: int|
            #![trigger groups@[i], groups@[j]]
            0 <= i < j < groups@.len() ==> groups@[i].exchange != groups@[j].exchange,
        forall|k: int|
            0 <= k < streams@.len() ==> exists|j: int|
                0 <= j < groups@.len() && (#[trigger] groups@[j]).exchange == (
                #[trigger] streams@[k])@.info().ticker.exchange,
{
    let all = crate::text::views(streams@);
    assert forall|i: int| 0 <= i < groups@.len() implies crate::text::views(
        (#[trigger] groups@[i]).streams@,
    ) == all.filter(|s: StreamKindView| s.info().ticker.exchange == groups@[i].exchange)
        && groups@[i].streams@.len() > 0 by {
        lemma_of_exchange_is_filter(all, groups@[i].exchange);
    }
    assert forall|k: int| 0 <= k < streams@.len() implies exists|j: int|
        0 <= j < groups@.len() && (#[trigger] groups@[j]).exchange == (
        #[trigger] streams@[k])@.info().ticker.exchange by {
        assert(all[k] == streams@[k]@);
    }
}

proof fn lemma_parts_are_filters(streams: Seq<StreamKindView>)
    ensures
        trade_part(streams) == streams.filter(|s: StreamKindView| s is Trades).map_values(
            |s: StreamKindView| s->Trades_ticker_info,
        ),
        depth_part(streams) == streams.filter(|s: StreamKindView| s is Depth).map_values(
            |s: StreamKindView|
                DepthSpecView {
                    ticker_info: s->Depth_ticker_info,
                    tick_multiplier: s->tick_multiplier,
                    push_frequency: s->push_frequency,
                },
        ),
        kline_part(streams) == streams.filter(|s: StreamKindView| s is Kline).map_values(
            |s: StreamKindView|
                KlineSpecView { ticker_info: s->Kline_ticker_info, timeframe: s->timeframe },
        ),
    decreases streams.len(),
{
    reveal(Seq::filter);
    if streams.len() > 0 {
        lemma_parts_are_filters(streams.drop_last());
    }
    assert(trade_part(streams) =~= streams.filter(|s: StreamKindView| s is Trades).map_values(
        |s: StreamKindView| s->Trades_ticker_info,
    ));
    assert(depth_part(streams) =~= streams.filter(|s: StreamKindView| s is Depth).map_values(
        |s: StreamKindView|
            DepthSpecView {
                ticker_info: s->Depth_ticker_info,
                tick_multiplier: s->tick_multiplier,
                push_frequency: s->push_frequency,
            },
    ));
    assert(kline_part(streams) =~= streams.filter(|s: StreamKindView| s is Kline).map_values(
        |s: StreamKindView|
            KlineSpecView { ticker_info: s->Kline_ticker_info, timeframe: s->timeframe },
    ));
}

proof fn lemma_filter_keeps(
    streams: Seq<StreamKindView>,
    kept: spec_fn(StreamKindView) -> bool,
    i: int,
)
    requires
        0 <= i < streams.len(),
        kept(streams[i]),
    ensures
        streams.filter(kept).contains(streams[i]),
    decreases streams.len(),
{
    reveal(Seq::filter);
    let shorter = streams.drop_last();
    if i < shorter.len() {
        assert(shorter[i] == streams[i]);
        lemma_filter_keeps(shorter, kept, i);
        let found = shorter.filter(kept);
        let k = choose|k: int| 0 <= k < found.len() && found[k] == streams[i];
        assert(streams.filter(kept)[k] == streams[i]);
    } else {
        assert(streams.filter(kept).last() == streams[i]);
    }
}

/// The planned connections, put end to end, are the streams in order: the trade streams
/// all share one connection, each order book has its own, and the candles fill one
/// connection after the other. Nothing is lost, doubled or changed.
pub proof fn law_plan_is_the_streams_by_kind(streams: Vec<StreamKind>, plan: SubscriptionPlan)
    requires
        call_ensures(plan_subscriptions, (&streams,), plan),
    ensures
        crate::text::views(plan.trades@) == crate::text::views(streams@).filter(
            |s: StreamKindView| s is Trades,
        ).map_values(|s: StreamKindView| s->Trades_ticker_info),
        crate::text::views(plan.depths@) == crate::text::views(streams@).filter(
            |s: StreamKindView| s is Depth,
        ).map_values(
            |s: StreamKindView|
                DepthSpecView {
                    ticker_info: s->Depth_ticker_info,
                    tick_multiplier: s->tick_multiplier,
                    push_frequency: s->push_frequency,
                },
        ),
        chunk_views(plan.kline_chunks@).flatten() == crate::text::views(streams@).filter(
            |s: StreamKindView| s is Kline,
        ).map_values(
            |s: StreamKindView|
                KlineSpecView { ticker_info: s->Kline_ticker_info, timeframe: s->timeframe },
        ),
        forall|i: int|
            0 <= i < plan.kline_chunks@.len() ==> 0 < (
            #[trigger] plan.kline_chunks@[i])@.len() <= 100,
        forall|i: int|
            0 <= i < plan.kline_chunks@.len() - 1 ==> (
            #[trigger] plan.kline_chunks@[i])@.len() == 100,
{
    let all = crate::text::views(streams@);
    lemma_parts_are_filters(all);
    let chunks = chunk_views(plan.kline_chunks@);
    let items = kline_part(all);
    lemma_chunks_flatten(chunks, items);
    assert forall|i: int| 0 <= i < plan.kline_chunks@.len() implies 0 < (
    #[trigger] plan.kline_chunks@[i])@.len() <= 100 && (i < plan.kline_chunks@.len() - 1
        ==> plan.kline_chunks@[i]@.len() == 100) by {
        assert(chunks[i] == crate::text::views(plan.kline_chunks@[i]@));
        assert(chunks[i].len() == plan.kline_chunks@[i]@.len());
    }
}

proof fn lemma_chunks_flatten(chunks: Seq<Seq<KlineSpecView>>, items: Seq<KlineSpecView>)
    requires
        cut_into(chunks, items, 100),
    ensures
        chunks.flatten() == items,
    decreases chunks.len(),
{
    chunks.lemma_flatten_and_flatten_alt_are_equivalent();
    if chunks.len() == 0 {
        assert(items =~= Seq::<KlineSpecView>::empty());
        assert(chunks.flatten() =~= Seq::<KlineSpecView>::empty());
    } else {
        let n = chunks.len() - 1;
        let head = chunks.drop_last();
        let rest = items.take(n * 100);
        assert forall|i: int|
            #![trigger head[i]]
            0 <= i < head.len() implies head[i] == rest.subrange(
            i * 100,
            if (i + 1) * 100 < rest.len() {
                (i + 1) * 100
            } else {
                rest.len() as int
            },
        ) by {
            assert(head[i] == chunks[i]);
            assert(chunks[i] =~= rest.subrange(i * 100, (i + 1) * 100));
        }
        lemma_chunks_flatten(head, rest);
        head.lemma_flatten_and_flatten_alt_are_equivalent();
        assert(chunks[n] == items.subrange(n * 100, items.len() as int));
        assert(chunks.last() == chunks[n]);
        assert(chunks.flatten() =~= head.flatten() + chunks.last());
        assert(items =~= rest + chunks.last());
    }
}

/// No stream is lost by planning: the ticker of each trade stream, each order book with
/// its settings, and each series of candles with its time frame is planned for, and as
/// many of each kind are planned for as there are streams of it.
pub proof fn law_no_stream_is_lost_by_planning(
    streams: Vec<StreamKind>,
    plan: SubscriptionPlan,
    i: int,
)
    requires
        call_ensures(plan_subscriptions, (&streams,), plan),
        0 <= i < streams@.len(),
    ensures
        match streams@[i] {
            StreamKind::Trades { ticker_info } => crate::text::views(plan.trades@).contains(
                ticker_info@,
            ),
            StreamKind::Depth { ticker_info, tick_multiplier, push_frequency } =>
                crate::text::views(plan.depths@).contains(
                DepthSpecView { ticker_info: ticker_info@, tick_multiplier, push_frequency },
            ),
            StreamKind::Kline { ticker_info, timeframe } => chunk_views(
                plan.kline_chunks@,
            ).flatten().contains(KlineSpecView { ticker_info: ticker_info@, timeframe }),
        },
        plan.trades@.len() == crate::text::views(streams@).filter(
            |s: StreamKindView| s is Trades,
        ).len(),
        plan.depths@.len() == crate::text::views(streams@).filter(
            |s: StreamKindView| s is Depth,
        ).len(),
        chunk_views(plan.kline_chunks@).flatten().len() == crate::text::views(streams@).filter(
            |s: StreamKindView| s is Kline,
        ).len(),
{
    law_plan_is_the_streams_by_kind(streams, plan);
    let all = crate::text::views(streams@);
    assert(all[i] == streams@[i]@);
    assert(crate::text::views(plan.trades@).len() == plan.trades@.len());
    assert(crate::text::views(plan.depths@).len() == plan.depths@.len());
    match streams@[i] {
        StreamKind::Trades { ticker_info } => {
            let kept = |s: StreamKindView| s is Trades;
            lemma_filter_keeps(all, kept, i);
            let found = all.filter(kept);
            let k = choose|k: int| 0 <= k < found.len() && found[k] == all[i];
            assert(crate::text::views(plan.trades@)[k] == ticker_info@);
        },
        StreamKind::Depth { ticker_info, tick_multiplier, push_frequency } => {
            let kept = |s: StreamKindView| s is Depth;
            lemma_filter_keeps(all, kept, i);
            let found = all.filter(kept);
            let k = choose|k: int| 0 <= k < found.len() && found[k] == all[i];
            assert(crate::text::views(plan.depths@)[k] == (DepthSpecView {
                ticker_info: ticker_info@,
                tick_multiplier,
                push_frequency,
            }));
        },
        StreamKind::Kline { ticker_info, timeframe } => {
            let kept = |s: StreamKindView| s is Kline;
            lemma_filter_keeps(all, kept, i);
            let found = all.filter(kept);
            let k = choose|k: int| 0 <= k < found.len() && found[k] == all[i];
            assert(chunk_views(plan.kline_chunks@).flatten()[k] == (KlineSpecView {
                ticker_info: ticker_info@,
                timeframe,
            }));
        },
    }
}

/// The symbols that are subscribed to are those of the tickers, in order and in small
/// letters.
pub proof fn law_symbols_are_those_of_the_tickers(tickers: Vec<TickerInfo>, symbols: Vec<String>)
    requires
        call_ensures(lower_symbols, (&tickers,), symbols),
    ensures
        symbols@.len() == tickers@.len(),
        forall|i: int|
            0 <= i < tickers@.len() ==> (#[trigger] symbols@[i])@ == crate::text::lowercase(
                tickers@[i].ticker.symbol@,
            ),
{
    let seen = crate::text::views(symbols@);
    assert(seen.len() == tickers@.len());
    assert forall|i: int| 0 <= i < tickers@.len() implies (#[trigger] symbols@[i])@
        == crate::text::lowercase(tickers@[i].ticker.symbol@) by {
        assert(seen[i] == symbols@[i]@);
    }
}

/// A stream task goes on after an event that was handed on, and after nothing else.
pub proof fn law_stream_task_stops_unless_forwarding(input: EngineInput, step: EngineStep)
    requires
        call_ensures(engine_step, (input,), step),
    ensures
        input is Forwarded ==> step is Continue,
        input is Cancelled || input is ReceiverGone || input is Ended ==> step is Stop,
{
}

/// A channel is saturated from an event that finds it full until one passes: each event
/// that finds it full is noted as dropped, the first that passes again as a recovery, and
/// only a channel that nobody receives from is given up.
pub proof fn law_saturation_ends_with_the_next_event_sent(
    saturated: bool,
    outcome: SendOutcome,
    step: ChannelStep,
)
    requires
        call_ensures(channel_step, (saturated, outcome), step),
    ensures
        step.open <==> !(outcome is Closed),
        step.note is Dropped <==> outcome is Full,
        step.note is Recovered <==> outcome is Sent && saturated,
        outcome is Full ==> step.saturated,
        outcome is Sent ==> !step.saturated,
        outcome is Closed ==> step.saturated == saturated,
{
}

/// An event reaches the database whenever that is configured, whoever else listens, and
/// listeners whenever there are any.
pub proof fn law_persistence_does_not_depend_on_listeners(
    broadcast: bool,
    receivers: usize,
    persist: bool,
    routing: Routing,
)
    requires
        call_ensures(route, (broadcast, receivers, persist), routing),
    ensures
        persist ==> routing.persist,
        !persist ==> !routing.persist,
        routing.broadcast <==> broadcast && receivers > 0,
{
}

/// A stream is of the ticker that it was opened for, and of the exchange of that ticker.
pub proof fn law_streams_are_of_their_ticker(
    stream: StreamKind,
    info: &TickerInfo,
    exchange: Exchange,
)
    requires
        call_ensures(StreamKind::ticker_info, (&stream,), info),
        call_ensures(StreamKind::exchange, (&stream,), exchange),
    ensures
        info@ == match stream {
            StreamKind::Kline { ticker_info, .. } => ticker_info@,
            StreamKind::Depth { ticker_info, .. } => ticker_info@,
            StreamKind::Trades { ticker_info } => ticker_info@,
        },
        exchange == info.ticker.exchange,
{
}

/// A listener may fall behind by 1024 events.
pub proof fn law_listeners_may_fall_behind()
    ensures
        BROADCAST_CAPACITY == 1024,
{
}

/// What is subscribed to is seen with all its settings.
pub proof fn law_subscriptions_are_seen_whole(depth: DepthSpec, kline: KlineSpec)
    ensures
        depth@.ticker_info == depth.ticker_info@,
        depth@.tick_multiplier == depth.tick_multiplier,
        depth@.push_frequency == depth.push_frequency,
        kline@.ticker_info == kline.ticker_info@,
        kline@.timeframe == kline.timeframe,
{
}

} // verus!
