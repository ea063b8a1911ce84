use flowsurface_server::api::{
    arrow_refusal, exchange_from_venue_market, export_error, json_err, merge_pairs, query_budget,
    query_refusal, AnnotatedTrade, CachedResponses, ExportEnd, FirstChunk, QueryBudget,
    QueryOutcome, Refusal, TradeQuery, DEFAULT_ARROW_LIMIT, MAX_ARROW_LIMIT,
    MAX_QUERY_CONCURRENCY, MIN_ARROW_LIMIT,
};
use flowsurface_server::diagnostics::AccessEvent;
use flowsurface_server::discovery::ExchangeSymbols;
use flowsurface_server::market::{Exchange, Ticker, Trade};
use flowsurface_server::storage::PairInfo;

fn query(venue: &str, market: &str) -> TradeQuery {
    TradeQuery {
        venue: venue.to_string(),
        symbol: "btcusdt".to_string(),
        market: market.to_string(),
        from: None,
        to: None,
        limit: None,
    }
}

#[test]
fn query_budget_preserves_unset_defaults() {
    assert_eq!(
        query_budget(0),
        QueryBudget {
            max_arrow_rows: 1_000_000,
            concurrency: 4,
        }
    );
}

#[test]
fn query_budget_scales_arrow_limit_and_concurrency() {
    assert_eq!(query_budget(256).max_arrow_rows, 640_000);
    assert_eq!(
        query_budget(400),
        QueryBudget {
            max_arrow_rows: 1_000_000,
            concurrency: 1,
        }
    );
    assert_eq!(
        query_budget(1024),
        QueryBudget {
            max_arrow_rows: 1_000_000,
            concurrency: 2,
        }
    );
    assert_eq!(
        query_budget(2048),
        QueryBudget {
            max_arrow_rows: 1_000_000,
            concurrency: 4,
        }
    );
}

#[test]
fn query_budget_clamps_small_and_large_limits() {
    assert_eq!(query_budget(1).max_arrow_rows, MIN_ARROW_LIMIT);
    assert_eq!(query_budget(u64::MAX).max_arrow_rows, MAX_ARROW_LIMIT);
    assert_eq!(query_budget(1).concurrency, 1);
    assert_eq!(query_budget(u64::MAX).concurrency, MAX_QUERY_CONCURRENCY);
}

#[test]
fn query_budget_grows_with_memory() {
    let mut previous = query_budget(1);
    for memory in [2, 64, 100, 256, 511, 512, 1023, 1024, 4096, 1 << 40] {
        let next = query_budget(memory);
        assert!(next.max_arrow_rows >= previous.max_arrow_rows);
        assert!(next.concurrency >= previous.concurrency);
        previous = next;
    }
}

#[test]
fn bounded_limit_uses_default_and_budget() {
    let budget = query_budget(100);
    assert_eq!(budget.max_arrow_rows, 250_000);
    assert_eq!(budget.bounded_limit(None), DEFAULT_ARROW_LIMIT);
    assert_eq!(budget.bounded_limit(Some(10)), 10);
    assert_eq!(budget.bounded_limit(Some(2_000_000)), 250_000);
}

#[test]
fn trade_query_validates_venue_and_market() {
    assert_eq!(query("binance", "spot").validate(), Ok(()));
    assert_eq!(query("BINANCE", "Linear").validate(), Ok(()));
    assert_eq!(
        query("nowhere", "spot").validate(),
        Err("unknown venue: 'nowhere'".to_string())
    );
    assert_eq!(
        query("binance", "futures").validate(),
        Err(
            "unknown market kind: 'futures' (expected spot, linear, or inverse)".to_string()
        )
    );
}

#[test]
fn exchange_filter_is_the_exchange_name_or_the_raw_pair() {
    assert_eq!(
        exchange_from_venue_market("binance", "spot"),
        Some("Binance Spot".to_string())
    );
    assert_eq!(exchange_from_venue_market("hyperliquid", "inverse"), None);
    assert_eq!(exchange_from_venue_market("nowhere", "spot"), None);
    assert_eq!(query("okex", "inverse").exchange_filter(), "OKX Inverse");
    assert_eq!(
        query("hyperliquid", "inverse").exchange_filter(),
        "hyperliquid/inverse"
    );
}

#[test]
fn refusals_have_their_replies_and_counters() {
    let replies = [
        (Refusal::GateExhausted, 503, "server busy, try again later"),
        (Refusal::Unauthorized, 401, "missing or invalid auth token"),
        (Refusal::RateLimited, 429, "rate limit exceeded, slow down"),
        (
            Refusal::QueryBusy,
            503,
            "server busy, too many concurrent requests",
        ),
        (Refusal::Internal, 500, "internal error"),
        (Refusal::TimedOut, 503, "query timed out"),
    ];
    for (refusal, status, message) in replies {
        let reply = refusal.reply();
        assert_eq!(reply.status, status);
        assert_eq!(reply.body, format!("{{\"error\":\"{message}\"}}"));
    }
    assert_eq!(
        Refusal::GateExhausted.access_event(),
        Some(AccessEvent::AdmissionBlocked)
    );
    assert_eq!(
        Refusal::Unauthorized.access_event(),
        Some(AccessEvent::AuthFailure)
    );
    assert_eq!(
        Refusal::RateLimited.access_event(),
        Some(AccessEvent::RateLimited)
    );
    assert_eq!(Refusal::QueryBusy.access_event(), None);
    assert_eq!(json_err(418, "teapot").body, "{\"error\":\"teapot\"}");
    assert_eq!(
        json_err(400, "unknown venue: 'a\"b'").body,
        "{\"error\":\"unknown venue: 'a\\\"b'\"}"
    );
    assert_eq!(
        json_err(400, "\\ \u{8}\t\n\u{c}\r \u{0} \u{1f} \u{7f} \u{e9}/").body,
        "{\"error\":\"\\\\ \\b\\t\\n\\f\\r \\u0000 \\u001f \u{7f} \u{e9}/\"}"
    );
}

#[test]
fn outcomes_of_queries_and_exports() {
    assert_eq!(query_refusal(QueryOutcome::Succeeded), None);
    assert_eq!(query_refusal(QueryOutcome::Failed), Some(Refusal::Internal));
    assert_eq!(
        query_refusal(QueryOutcome::Panicked),
        Some(Refusal::Internal)
    );
    assert_eq!(
        query_refusal(QueryOutcome::TimedOut),
        Some(Refusal::TimedOut)
    );
    assert_eq!(arrow_refusal(FirstChunk::Received), None);
    assert_eq!(arrow_refusal(FirstChunk::Failed), Some(Refusal::Internal));
    assert_eq!(arrow_refusal(FirstChunk::Ended), Some(Refusal::Internal));
    assert_eq!(arrow_refusal(FirstChunk::TimedOut), Some(Refusal::TimedOut));
    assert_eq!(export_error(ExportEnd::Finished, false), None);
    assert_eq!(export_error(ExportEnd::Failed, true), None);
    assert!(export_error(ExportEnd::Failed, false).is_some());
    assert!(export_error(ExportEnd::Panicked, false).is_some());
}

#[test]
fn configured_pairs_without_trades_are_reported() {
    let btc = Ticker::new("BTCUSDT", Exchange::BinanceSpot);
    let eth = Ticker::new("ETHUSDT", Exchange::BinanceSpot);
    let stored = vec![PairInfo {
        ticker: btc.clone(),
        earliest: Some(1),
        latest: Some(9),
    }];
    let merged = merge_pairs(&vec![btc.clone(), eth.clone()], &stored);
    assert_eq!(merged.len(), 2);
    assert!(merged
        .iter()
        .any(|pair| pair.ticker.same_as(&btc) && pair.latest == Some(9)));
    assert!(merged
        .iter()
        .any(|pair| pair.ticker.same_as(&eth) && pair.latest.is_none()));
}

#[test]
fn exchanges_are_cached_as_json() {
    let cached = CachedResponses::new(vec![
        ExchangeSymbols {
            exchange: "Bybit Spot".to_string(),
            symbols: vec!["BTC\"USDT".to_string()],
        },
        ExchangeSymbols {
            exchange: "Binance Spot".to_string(),
            symbols: vec!["BTCUSDT".to_string(), "ETHUSDT".to_string()],
        },
    ]);
    assert_eq!(
        cached.exchanges(),
        "{\"exchanges\":{\"Binance Spot\":[\"BTCUSDT\",\"ETHUSDT\"],\"Bybit Spot\":[\"BTC\\\"USDT\"]}}"
    );
    let entry = |exchange: &str, symbol: &str| ExchangeSymbols {
        exchange: exchange.to_string(),
        symbols: vec![symbol.to_string()],
    };
    let repeated = vec![entry("B", "1"), entry("A", "2"), entry("C", "3"), entry("B", "4")];
    assert_eq!(
        CachedResponses::new(repeated).exchanges(),
        "{\"exchanges\":{\"A\":[\"2\"],\"B\":[\"4\"],\"C\":[\"3\"]}}"
    );
    assert_eq!(
        CachedResponses::new(vec![ExchangeSymbols {
            exchange: "A".to_string(),
            symbols: Vec::new(),
        }])
        .exchanges(),
        "{\"exchanges\":{\"A\":[]}}"
    );
    assert_eq!(
        CachedResponses::new(Vec::new()).exchanges(),
        "{\"exchanges\":{}}"
    );
}

#[test]
fn annotated_trade_keeps_both_parts() {
    let trade = Trade {
        time: 5,
        is_sell: true,
        price_units: 7,
        qty_units: 9,
    };
    let annotated = AnnotatedTrade::new(Ticker::new("BTCUSDT", Exchange::OkexSpot), trade);
    assert_eq!(annotated.trade, trade);
    assert_eq!(annotated.ticker.symbol, "BTCUSDT");
}
