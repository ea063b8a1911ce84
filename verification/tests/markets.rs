use flowsurface_server::config::{ConfigMarketKind, MarketTemplate, VenueTemplate};
use flowsurface_server::discovery::{
    display_shows_base, format_ticker, group_by_venue, is_quote_asset, is_ticker_text,
    symbol_names_base, DiscoveryMode, DiscoveryPlan, MetadataCatalog, TickerEntry,
};
use flowsurface_server::ingestion::{annotate_trades, group_pairs};
use flowsurface_server::market::{Exchange, MarketKind, Ticker, TickerInfo, Trade, Venue, EXCHANGES};
use flowsurface_server::stream::{
    channel_step, engine_step, group_by_exchange, lower_symbols, plan_subscriptions, route, trade_streams,
    ChannelNote, EngineInput, EngineStep, Event, SendOutcome, StreamKind, MAX_KLINE_STREAMS_PER_STREAM,
};
use flowsurface_server::text::{is_whitespace, trim};

fn info(symbol: &str, exchange: Exchange) -> TickerInfo {
    TickerInfo {
        ticker: Ticker::new(symbol, exchange),
        min_ticksize: -2,
        min_qty: -3,
        contract_size: None,
    }
}

fn listed(symbol: &str, exchange: Exchange) -> TickerEntry {
    TickerEntry {
        ticker: Ticker::new(symbol, exchange),
        info: Some(info(symbol, exchange)),
    }
}

fn template(venue: &str, market: ConfigMarketKind, quotes: &[&str]) -> VenueTemplate {
    VenueTemplate {
        venue: venue.to_string(),
        markets: vec![MarketTemplate {
            market,
            quotes: quotes.iter().map(|q| q.to_string()).collect(),
        }],
    }
}

fn trade(time: u64) -> Trade {
    Trade {
        time,
        is_sell: false,
        price_units: 1,
        qty_units: 2,
    }
}

#[test]
fn exchanges_have_venue_market_and_name() {
    assert_eq!(Exchange::BinanceLinear.name(), "Binance Linear");
    assert_eq!(Exchange::HyperliquidSpot.name(), "Hyperliquid Spot");
    assert_eq!(Exchange::OkexInverse.name(), "OKX Inverse");
    assert_eq!(Venue::Bybit.name(), "Bybit");
    for index in 0..EXCHANGES {
        let exchange = Exchange::from_index(index);
        assert_eq!(exchange.index(), index);
        assert_eq!(
            Exchange::from_venue_and_market(exchange.venue(), exchange.market_type()),
            Some(exchange)
        );
        assert_eq!(Exchange::parse(&exchange.name()), Some(exchange));
    }
    assert_eq!(
        Exchange::from_venue_and_market(Venue::Hyperliquid, MarketKind::InversePerps),
        None
    );
}

#[test]
fn venues_and_markets_are_parsed_up_to_case() {
    assert_eq!(Venue::parse("BiNaNcE"), Some(Venue::Binance));
    assert_eq!(Venue::parse("kraken"), None);
    assert_eq!(MarketKind::parse("Linear"), Some(MarketKind::LinearPerps));
    assert_eq!(MarketKind::parse("option"), None);
    assert_eq!(
        Exchange::parse("bybit inverse"),
        Some(Exchange::BybitInverse)
    );
    assert_eq!(Exchange::parse("bybit"), None);
    assert_eq!(Exchange::parse("hyperliquid inverse"), None);
}

#[test]
fn tickers_end_at_nul_and_compare_whole() {
    assert_eq!(Ticker::new("BTC\0USDT", Exchange::BybitSpot).symbol, "BTC");
    let mut shown = Ticker::new("@107", Exchange::HyperliquidSpot);
    assert_eq!(shown.shown(), "@107");
    shown.display = Some("HYPEUSDC".to_string());
    assert_eq!(shown.shown(), "HYPEUSDC");
    assert!(shown.same_as(&shown.clone()));
    assert!(!shown.same_as(&Ticker::new("@107", Exchange::HyperliquidSpot)));
    assert!(is_ticker_text("ABCDEFGHIJKLMNOPQRSTUVWXYZ12"));
    assert!(!is_ticker_text("ABCDEFGHIJKLMNOPQRSTUVWXYZ123"));
    assert!(!is_ticker_text("A|B"));
}

#[test]
fn tickers_are_written_as_the_exchange_does() {
    let expected = [
        (Exchange::BinanceSpot, "BTCUSDT"),
        (Exchange::BinanceLinear, "BTCUSDT"),
        (Exchange::BinanceInverse, "BTCUSDT_PERP"),
        (Exchange::BybitInverse, "BTCUSDT"),
        (Exchange::MexcLinear, "BTC_USDT"),
        (Exchange::MexcSpot, "BTCUSDT"),
        (Exchange::HyperliquidLinear, "BTC"),
        (Exchange::OkexSpot, "BTC-USDT"),
        (Exchange::OkexLinear, "BTC-USDT-SWAP"),
    ];
    for (exchange, text) in expected {
        assert_eq!(format_ticker("btc", "usdt", exchange), text);
    }
}

#[test]
fn pairs_need_whitelist_and_listing() {
    let mut catalog = MetadataCatalog::new();
    catalog.record(
        Exchange::BinanceSpot,
        Some(vec![
            listed("BTCUSDT", Exchange::BinanceSpot),
            listed("ETHUSDT", Exchange::BinanceSpot),
            TickerEntry {
                ticker: Ticker::new("BTCEUR", Exchange::BinanceSpot),
                info: None,
            },
        ]),
    );
    catalog.record(Exchange::BybitSpot, None);
    let assets = vec!["btc".to_string(), "BTC".to_string()];
    let whitelist = vec![
        template("binance", ConfigMarketKind::Spot, &["usdt", "EUR", "USDC"]),
        template("bybit", ConfigMarketKind::Spot, &["USDT"]),
    ];
    let plan = DiscoveryPlan::new(&assets, DiscoveryMode::WhitelistOnly, &whitelist);
    assert!(plan.fits(&catalog));
    let pairs = plan.resolve_pairs(&catalog);
    assert_eq!(pairs.len(), 1);
    assert_eq!(pairs[0].ticker.symbol, "BTCUSDT");
    assert_eq!(plan.venues(), vec![Venue::Binance, Venue::Bybit]);
    assert_eq!(
        plan.exchanges_to_fetch(),
        vec![Exchange::BinanceSpot, Exchange::BybitSpot]
    );
    assert_eq!(plan.exchange_groups().len(), 2);
    assert!(catalog.for_exchange(Exchange::BybitSpot).is_none());
}

#[test]
fn wildcards_take_every_ticker_of_the_base_and_no_other() {
    let mut catalog = MetadataCatalog::new();
    catalog.record(
        Exchange::BinanceSpot,
        Some(vec![
            listed("ETHUSDT", Exchange::BinanceSpot),
            listed("ETHBTC", Exchange::BinanceSpot),
            listed("ETHFIUSDT", Exchange::BinanceSpot),
            TickerEntry {
                ticker: Ticker::new("ETHEUR", Exchange::BinanceSpot),
                info: None,
            },
        ]),
    );
    let mut shown = listed("@107", Exchange::HyperliquidSpot);
    shown.ticker.display = Some("ETHUSDC".to_string());
    let mut parted = listed("@108", Exchange::HyperliquidSpot);
    parted.ticker.display = Some("ETH/FEUSD".to_string());
    let mut other = listed("@109", Exchange::HyperliquidSpot);
    other.ticker.display = Some("ETHFIUSDC".to_string());
    let mut stable = listed("@110", Exchange::HyperliquidSpot);
    stable.ticker.display = Some("ETHFEUSD".to_string());
    let mut unknown = listed("@111", Exchange::HyperliquidSpot);
    unknown.ticker.display = Some("ETHQQQ".to_string());
    catalog.record(
        Exchange::HyperliquidSpot,
        Some(vec![shown, parted, other, stable, unknown]),
    );
    let assets = vec!["eth".to_string()];
    let whitelist = vec![
        template("binance", ConfigMarketKind::Spot, &[""]),
        template("hyperliquid", ConfigMarketKind::Spot, &["", ""]),
    ];
    let plan = DiscoveryPlan::new(&assets, DiscoveryMode::WhitelistOnly, &whitelist);
    assert!(plan.fits(&catalog));
    let mut symbols: Vec<String> = plan
        .resolve_pairs(&catalog)
        .into_iter()
        .map(|pair| pair.ticker.symbol)
        .collect();
    symbols.sort();
    assert_eq!(
        symbols,
        vec!["@107", "@108", "@110", "@111", "ETHBTC", "ETHUSDT"]
    );
}

#[test]
fn symbols_name_their_base() {
    let named = [
        (Exchange::BinanceLinear, "ETHUSDC"),
        (Exchange::BinanceLinear, "ETHUSDT_260327"),
        (Exchange::BinanceInverse, "ETHUSD_PERP"),
        (Exchange::BinanceInverse, "ETHUSD_260327"),
        (Exchange::BybitLinear, "ETHPERP"),
        (Exchange::BybitLinear, "ETHUSDT"),
        (Exchange::BybitLinear, "ETHUSDT-26MAR27"),
        (Exchange::BybitInverse, "ETHUSD"),
        (Exchange::MexcSpot, "ETHFDUSD"),
        (Exchange::BinanceSpot, "ETHTUSD"),
        (Exchange::MexcLinear, "ETH_USDT"),
        (Exchange::OkexSpot, "ETH-ANYTHING"),
        (Exchange::OkexInverse, "ETH-USD-SWAP"),
        (Exchange::HyperliquidLinear, "ETH"),
        (Exchange::HyperliquidSpot, "ETH/USDC"),
    ];
    for (exchange, text) in named {
        assert!(symbol_names_base(text, "ETH", exchange), "{text}");
        assert!(!symbol_names_base(text, "ET", exchange), "{text}");
        assert!(!symbol_names_base(text, "ETHF", exchange), "{text}");
    }
    let others = [
        (Exchange::BinanceSpot, "ETHFIUSDT"),
        (Exchange::BinanceInverse, "ETHFIUSD_PERP"),
        (Exchange::BinanceLinear, "ETHFIUSDT_260327"),
        (Exchange::BybitLinear, "ETHFIPERP"),
        (Exchange::MexcLinear, "ETHFI_USDT"),
        (Exchange::OkexSpot, "ETHFI-USDT"),
        (Exchange::OkexSpot, "ETHFIUSDT"),
        (Exchange::HyperliquidSpot, "ETHFI/USDC"),
        (Exchange::HyperliquidLinear, "ETHFI"),
    ];
    for (exchange, text) in others {
        assert!(!symbol_names_base(text, "ETH", exchange), "{text}");
    }
    assert!(!symbol_names_base("ETH-USD-SWAP", "ETH-USD", Exchange::OkexInverse));
    assert!(symbol_names_base("AVAXUSD_PERP", "AVAX", Exchange::BinanceInverse));
    assert!(!symbol_names_base("AVAXUSD_PERP", "AVA", Exchange::BinanceInverse));
    // A quote that is not known keeps nothing out.
    assert!(symbol_names_base("ETHQQQ", "ETH", Exchange::BinanceSpot));
    assert!(display_shows_base("HYPEFEUSD", "HYPE", Exchange::HyperliquidSpot));
    assert!(display_shows_base("HYPEQQQ", "HYPE", Exchange::HyperliquidSpot));
    assert!(!display_shows_base("HYPERUSDC", "HYPE", Exchange::HyperliquidSpot));
    assert!(display_shows_base("PURRUSDC", "PURR", Exchange::HyperliquidSpot));
    assert!(display_shows_base("PURR/USDC", "PURR", Exchange::HyperliquidSpot));
    assert!(!display_shows_base("PURRUSDC", "PURR", Exchange::HyperliquidLinear));
    assert!(is_quote_asset("USDT0") && !is_quote_asset("FIUSDT"));
}

#[test]
fn long_quotes_do_not_resolve() {
    let mut catalog = MetadataCatalog::new();
    catalog.record(
        Exchange::BinanceSpot,
        Some(vec![listed("BTCUSDT", Exchange::BinanceSpot)]),
    );
    let assets = vec!["BTC".to_string()];
    let whitelist = vec![template(
        "binance",
        ConfigMarketKind::Spot,
        &["ABCDEFGHIJKLMNOPQRSTUVWXYZ"],
    )];
    let plan = DiscoveryPlan::new(&assets, DiscoveryMode::AllExchanges, &whitelist);
    assert!(!plan.fits(&catalog));
    assert!(plan.try_resolve_pairs(&catalog).is_none());
    assert_eq!(plan.venues().len(), 5);
    assert_eq!(plan.exchanges_to_fetch().len(), EXCHANGES);
}

#[test]
fn symbols_are_listed_in_order() {
    let mut catalog = MetadataCatalog::new();
    catalog.record(
        Exchange::BinanceSpot,
        Some(vec![
            listed("ETHUSDT", Exchange::BinanceSpot),
            listed("btcusdt", Exchange::BinanceSpot),
        ]),
    );
    let all = catalog.tickers_per_exchange();
    assert_eq!(all.len(), 1);
    assert_eq!(all[0].exchange, "Binance Spot");
    assert_eq!(all[0].symbols, vec!["BTCUSDT", "ETHUSDT"]);
}

#[test]
fn exchanges_are_grouped_by_venue() {
    let groups = group_by_venue(&vec![
        Exchange::BybitSpot,
        Exchange::BinanceSpot,
        Exchange::BybitLinear,
    ]);
    assert_eq!(groups.len(), 2);
    assert_eq!(groups[0].venue, Venue::Bybit);
    assert_eq!(
        groups[0].exchanges,
        vec![Exchange::BybitSpot, Exchange::BybitLinear]
    );
}

#[test]
fn pairs_and_streams_are_grouped_by_exchange() {
    let pairs = vec![
        info("BTCUSDT", Exchange::BinanceSpot),
        info("BTCUSDT", Exchange::BybitSpot),
        info("ETHUSDT", Exchange::BinanceSpot),
    ];
    let groups = group_pairs(&pairs);
    assert_eq!(groups.len(), 2);
    assert_eq!(groups[0].pairs.len(), 2);
    let streams = trade_streams(&pairs);
    assert_eq!(streams.len(), 3);
    assert_eq!(streams[1].exchange(), Exchange::BybitSpot);
    let grouped = group_by_exchange(&streams);
    assert_eq!(grouped.len(), 2);
    assert_eq!(grouped[0].streams.len(), 2);
    assert_eq!(
        grouped[0].streams[1].ticker_info().ticker.symbol,
        "ETHUSDT"
    );
    assert_eq!(lower_symbols(&pairs)[0], "btcusdt");
}

#[test]
fn kline_streams_are_subscribed_in_chunks() {
    let mut streams = vec![StreamKind::Trades {
        ticker_info: info("BTCUSDT", Exchange::BinanceSpot),
    }];
    for n in 0..(MAX_KLINE_STREAMS_PER_STREAM as u64 + 1) {
        streams.push(StreamKind::Kline {
            ticker_info: info("BTCUSDT", Exchange::BinanceSpot),
            timeframe: n,
        });
    }
    streams.push(StreamKind::Depth {
        ticker_info: info("BTCUSDT", Exchange::BinanceSpot),
        tick_multiplier: Some(5),
        push_frequency: None,
    });
    let plan = plan_subscriptions(&streams);
    assert_eq!(plan.trades.len(), 1);
    assert_eq!(plan.depths.len(), 1);
    assert_eq!(plan.depths[0].tick_multiplier, Some(5));
    assert_eq!(plan.kline_chunks.len(), 2);
    assert_eq!(plan.kline_chunks[0].len(), MAX_KLINE_STREAMS_PER_STREAM);
    assert_eq!(plan.kline_chunks[1][0].timeframe, 100);
}

#[test]
fn engines_stop_and_events_are_routed() {
    assert_eq!(engine_step(EngineInput::Forwarded), EngineStep::Continue);
    assert_eq!(engine_step(EngineInput::Cancelled), EngineStep::Stop);
    assert_eq!(engine_step(EngineInput::ReceiverGone), EngineStep::Stop);
    assert_eq!(engine_step(EngineInput::Ended), EngineStep::Stop);
    assert!(!route(true, 0, true).broadcast);
    assert!(route(true, 1, false).broadcast);
    assert!(!route(true, 1, false).persist);
    assert!(route(false, 3, true).persist && !route(false, 3, true).broadcast);
}

#[test]
fn full_channels_drop_and_recover() {
    let full = channel_step(false, SendOutcome::Full);
    assert!(full.saturated && full.open);
    assert_eq!(full.note, ChannelNote::Dropped);
    let sent = channel_step(full.saturated, SendOutcome::Sent);
    assert_eq!(sent.note, ChannelNote::Recovered);
    assert!(!sent.saturated);
    assert_eq!(channel_step(false, SendOutcome::Sent).note, ChannelNote::Nothing);
    assert!(!channel_step(true, SendOutcome::Closed).open);
}

#[test]
fn trades_are_annotated_with_their_ticker() {
    let kind = StreamKind::Trades {
        ticker_info: info("BTCUSDT", Exchange::BinanceSpot),
    };
    let trades = annotate_trades(&Event::TradesReceived(
        kind.clone(),
        vec![trade(1), trade(2)],
    ));
    assert_eq!(trades.len(), 2);
    assert_eq!(trades[1].trade.time, 2);
    assert_eq!(trades[1].ticker.symbol, "BTCUSDT");
    assert!(annotate_trades(&Event::KlineReceived(kind)).is_empty());
}

#[test]
fn letters_and_white_space_follow_unicode() {
    assert_eq!(
        format_ticker("stra\u{df}e", "x", Exchange::BinanceSpot),
        "STRASSEX"
    );
    assert_eq!(trim("\u{a0}\t a b \u{2003}\n"), "a b");
    assert_eq!(trim(" \n"), "");
    for c in '\0'..=char::MAX {
        assert_eq!(is_whitespace(c), c.is_whitespace());
    }
}
