//! From market-data events to annotated trades, exchange by exchange.

use vstd::prelude::*;

use crate::api::AnnotatedTrade;
use crate::market::{Exchange, TickerInfo, EXCHANGES};
use crate::stream::Event;

verus! {

/// The pairs of one exchange, in order.
pub open spec fn pairs_of(
    pairs: Seq<crate::market::TickerInfoView>,
    exchange: Exchange,
) -> Seq<crate::market::TickerInfoView>
    decreases pairs.len(),
{
    if pairs.len() == 0 {
        Seq::empty()
    } else {
        let earlier = pairs_of(pairs.drop_last(), exchange);
        if pairs.last().ticker.exchange == exchange {
            earlier.push(pairs.last())
        } else {
            earlier
        }
    }
}

/// The pairs that one task subscribes to.
#[derive(Debug)]
pub struct ExchangePairs {
    pub exchange: Exchange,
    pub pairs: Vec<TickerInfo>,
}

/// Whether `groups` splits `pairs` by exchange: each group holds all pairs of its
/// exchange in order, no exchange has two groups or an empty one, and every pair
/// is in some group.
pub open spec fn splits_pairs(
    groups: Seq<ExchangePairs>,
    pairs: Seq<crate::market::TickerInfoView>,
) -> bool {
    &&& forall|i: int|
        #![trigger groups[i]]
        0 <= i < groups.len() ==> crate::text::views(groups[i].pairs@) == pairs_of(
            pairs,
            groups[i].exchange,
        ) && groups[i].pairs@.len() > 0
    &&& forall|i: int, j: int|
        #![trigger groups[i], groups[j]]
        0 <= i < j < groups.len() ==> groups[i].exchange != groups[j].exchange
    &&& forall|i: int|
        #![trigger pairs[i]]
        0 <= i < pairs.len() ==> exists|j: int|
            0 <= j < groups.len() && (#[trigger] groups[j]).exchange == pairs[i].ticker.exchange
}

/// The pairs of one exchange, in order.
fn select_pairs(pairs: &Vec<TickerInfo>, exchange: Exchange) -> (found: Vec<TickerInfo>)
    ensures
        crate::text::views(found@) == pairs_of(crate::text::views(pairs@), exchange),
{
    let ghost all = crate::text::views(pairs@);
    let mut found: Vec<TickerInfo> = Vec::new();
    let mut i: usize = 0;
    assert(crate::text::views(found@) =~= pairs_of(all.take(0), exchange));
    while i < pairs.len()
        invariant
            i <= pairs@.len(),
            all == crate::text::views(pairs@),
            crate::text::views(found@) == pairs_of(all.take(i as int), exchange),
        decreases pairs@.len() - i,
    {
        let ghost head = all.take(i as int + 1);
        let ghost earlier = crate::text::views(found@);
        assert(head.drop_last() =~= all.take(i as int));
        assert(head.last() == pairs@[i as int]@);
        if pairs[i].ticker.exchange == exchange {
            found.push(pairs[i].clone());
            assert(crate::text::views(found@) =~= earlier.push(pairs@[i as int]@));
        }
        i += 1;
    }
    assert(all.take(i as int) =~= all);
    found
}

proof fn lemma_member_of_pairs(pairs: Seq<crate::market::TickerInfoView>, i: int)
    requires
        0 <= i < pairs.len(),
    ensures
        pairs_of(pairs, pairs[i].ticker.exchange).len() > 0,
    decreases pairs.len(),
{
    if i < pairs.len() - 1 {
        assert(pairs.drop_last()[i] == pairs[i]);
        lemma_member_of_pairs(pairs.drop_last(), i);
    }
}

/// Split pairs by exchange: each exchange gets one task that subscribes a single
/// trade stream for all its tickers.
pub fn group_pairs(pairs: &Vec<TickerInfo>) -> (groups: Vec<ExchangePairs>)
    ensures
        splits_pairs(groups@, crate::text::views(pairs@)),
{
    let ghost all = crate::text::views(pairs@);
    let mut groups: Vec<ExchangePairs> = Vec::new();
    let mut i: usize = 0;
    while i < EXCHANGES
        invariant
            i <= EXCHANGES,
            all == crate::text::views(pairs@),
            forall|k: int|
                #![trigger groups@[k]]
                0 <= k < groups@.len() ==> crate::text::views(groups@[k].pairs@) == pairs_of(
                    all,
                    groups@[k].exchange,
                ) && groups@[k].pairs@.len() > 0 && groups@[k].exchange.spec_index() < i,
            forall|a: int, b: int|
                #![trigger groups@[a], groups@[b]]
                0 <= a < b < groups@.len() ==> groups@[a].exchange != groups@[b].exchange,
            forall|k: int|
                #![trigger all[k]]
                0 <= k < all.len() && all[k].ticker.exchange.spec_index() < i ==> exists|j: int|
                    0 <= j < groups@.len() && (#[trigger] groups@[j]).exchange
                        == all[k].ticker.exchange,
        decreases EXCHANGES - i,
    {
        let exchange = Exchange::from_index(i);
        let found = select_pairs(pairs, exchange);
        let ghost before = groups@;
        let ghost size = found@.len();
        assert(size == pairs_of(all, exchange).len()) by {
            assert(crate::text::views(found@).len() == size);
        }
        if found.len() > 0 {
            groups.push(ExchangePairs { exchange, pairs: found });
            assert(forall|j: int| 0 <= j < before.len() ==> #[trigger] groups@[j] == before[j]);
            assert(groups@[before.len() as int].exchange == exchange);
        }
        proof {
            assert forall|k: int|
                #![trigger all[k]]
                0 <= k < all.len() && all[k].ticker.exchange.spec_index() < i
                    + 1 implies exists|j: int|
                0 <= j < groups@.len() && (#[trigger] groups@[j]).exchange
                    == all[k].ticker.exchange by {
                if all[k].ticker.exchange.spec_index() < i {
                    let j = choose|j: int|
                        0 <= j < before.len() && (#[trigger] before[j]).exchange
                            == all[k].ticker.exchange;
                    assert(groups@[j].exchange == all[k].ticker.exchange);
                } else {
                    lemma_member_of_pairs(all, k);
                    assert(all[k].ticker.exchange == exchange);
                    assert(groups@[before.len() as int].exchange == all[k].ticker.exchange);
                }
            }
        }
        i += 1;
    }
    assert forall|k: int| 0 <= k < all.len() implies (
    #[trigger] all[k]).ticker.exchange.spec_index() < EXCHANGES by {}
    groups
}

/// The trades of an event, each with its ticker and in order. Other events carry
/// none.
pub fn annotate_trades(event: &Event) -> (trades: Vec<AnnotatedTrade>)
    ensures
        crate::text::views(trades@) == crate::storage::annotated(*event),
{
    let ghost all = crate::storage::annotated(*event);
    let mut annotated: Vec<AnnotatedTrade> = Vec::new();
    if let Event::TradesReceived(stream, trades) = event {
        let mut i: usize = 0;
        while i < trades.len()
            invariant
                i <= trades@.len(),
                *event == Event::TradesReceived(*stream, *trades),
                all == crate::storage::annotated(*event),
                annotated@.len() == i,
                forall|j: int| 0 <= j < i ==> (#[trigger] annotated@[j])@ == all[j],
            decreases trades@.len() - i,
        {
            let ticker = stream.ticker_info().ticker.clone();
            annotated.push(AnnotatedTrade::new(ticker, trades[i]));
            i += 1;
        }
    }
    assert(crate::text::views(annotated@) =~= all);
    annotated
}

proof fn lemma_pairs_of_is_filter(
    pairs: Seq<crate::market::TickerInfoView>,
    exchange: Exchange,
)
    ensures
        pairs_of(pairs, exchange) == pairs.filter(
            |p: crate::market::TickerInfoView| p.ticker.exchange == exchange,
        ),
    decreases pairs.len(),
{
    reveal(Seq::filter);
    if pairs.len() > 0 {
        lemma_pairs_of_is_filter(pairs.drop_last(), exchange);
    }
}

/// Grouping loses no pair: each group holds the pairs of its exchange, in order, no
/// exchange has two groups, and the exchange of each pair has one.
pub proof fn law_groups_hold_the_pairs_of_their_exchange(
    pairs: Vec<TickerInfo>,
    groups: Vec<ExchangePairs>,
)
    requires
        call_ensures(group_pairs, (&pairs,), groups),
    ensures
        forall|i: int|
            0 <= i < groups@.len() ==> crate::text::views((#[trigger] groups@[i]).pairs@)
                == crate::text::views(pairs@).filter(
                |p: crate::market::TickerInfoView| p.ticker.exchange == groups@[i].exchange,
            ) && groups@[i].pairs@.len() > 0,
        forall|i: int, j: int|
            #![trigger groups@[i], groups@[j]]
            0 <= i < j < groups@.len() ==> groups@[i].exchange != groups@[j].exchange,
        forall|k: int|
            0 <= k < pairs@.len() ==> exists|j: int|
                0 <= j < groups@.len() && (#[trigger] groups@[j]).exchange == (
                #[trigger] pairs@[k]).ticker.exchange,
{
    let all = crate::text::views(pairs@);
    assert forall|i: int| 0 <= i < groups@.len() implies crate::text::views(
        (#[trigger] groups@[i]).pairs@,
    ) == all.filter(
        |p: crate::market::TickerInfoView| p.ticker.exchange == groups@[i].exchange,
    ) && groups@[i].pairs@.len() > 0 by {
        lemma_pairs_of_is_filter(all, groups@[i].exchange);
    }
    assert forall|k: int| 0 <= k < pairs@.len() implies exists|j: int|
        0 <= j < groups@.len() && (#[trigger] groups@[j]).exchange == (
        #[trigger] pairs@[k]).ticker.exchange by {
        assert(all[k] == pairs@[k]@);
    }
}

/// Each trade of an event is handed on once, in order, with the instrument of its stream;
/// events of other kinds hand on nothing.
pub proof fn law_each_trade_is_handed_on(
    event: Event,
    trades: Vec<AnnotatedTrade>,
    i: int,
)
    requires
        call_ensures(annotate_trades, (&event,), trades),
    ensures
        event matches Event::TradesReceived(stream, received) ==> {
            &&& trades@.len() == received@.len()
            &&& 0 <= i < received@.len() ==> trades@[i].trade == received@[i]
                && trades@[i].ticker@ == (match stream {
                crate::stream::StreamKind::Trades { ticker_info } => ticker_info.ticker@,
                crate::stream::StreamKind::Depth { ticker_info, .. } => ticker_info.ticker@,
                crate::stream::StreamKind::Kline { ticker_info, .. } => ticker_info.ticker@,
            })
        },
        !(event is TradesReceived) ==> trades@.len() == 0,
{
    let seen = crate::text::views(trades@);
    assert(seen.len() == trades@.len());
    if 0 <= i < trades@.len() {
        assert(seen[i] == trades@[i]@);
    }
    crate::storage::law_events_give_up_their_trades(event, i);
}

} // verus!
