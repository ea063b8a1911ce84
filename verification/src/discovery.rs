//! From base assets and whitelist templates to the tickers that are followed.

use vstd::prelude::*;
use vstd::string::*;
use vstd::utf8::*;

use crate::config::{MarketTemplate, VenueTemplate, WhitelistTemplates};
use crate::market::{Exchange, MarketKind, Ticker, TickerInfo, Venue, EXCHANGES, MAX_TICKER_LEN,
    VENUES};
use crate::text::{chars_of, eq_ignore_ascii_case, starts_with, text_before, text_eq,
    to_uppercase};

verus! {

/// Bound on concurrent metadata fetches during startup discovery.
pub const METADATA_FETCH_CONCURRENCY: usize = 8;

/// Which exchanges are asked for metadata.
#[derive(Debug, Clone, Copy, PartialEq, Eq, Structural)]
pub enum DiscoveryMode {
    AllExchanges,
    WhitelistOnly,
}

/// A ticker that an exchange lists, with what is known about it.
#[derive(Debug)]
pub struct TickerEntry {
    pub ticker: Ticker,
    pub info: Option<TickerInfo>,
}

/// The mathematical value of a [`TickerEntry`].
#[verifier::ext_equal]
pub struct TickerEntryView {
    pub ticker: crate::market::TickerView,
    pub info: Option<crate::market::TickerInfoView>,
}

impl View for TickerEntry {
    type V = TickerEntryView;

    open spec fn view(&self) -> TickerEntryView {
        TickerEntryView { ticker: self.ticker@, info: crate::text::option_view(self.info) }
    }
}

/// What one exchange lists.
#[derive(Debug)]
pub struct ExchangeMetadata {
    pub exchange: Exchange,
    pub tickers: Vec<TickerEntry>,
}

/// The mathematical value of an [`ExchangeMetadata`].
#[verifier::ext_equal]
pub struct ExchangeMetadataView {
    pub exchange: Exchange,
    pub tickers: Seq<TickerEntryView>,
}

impl View for ExchangeMetadata {
    type V = ExchangeMetadataView;

    open spec fn view(&self) -> ExchangeMetadataView {
        ExchangeMetadataView { exchange: self.exchange, tickers: crate::text::views(self.tickers@) }
    }
}

/// What is known of the listings of each exchange. Each exchange occurs once.
pub struct MetadataCatalog {
    exchanges: Vec<ExchangeMetadata>,
}

impl View for MetadataCatalog {
    type V = Seq<ExchangeMetadataView>;

    closed spec fn view(&self) -> Seq<ExchangeMetadataView> {
        crate::text::views(self.exchanges@)
    }
}

/// The listings of `exchange`, if they were recorded.
pub open spec fn listings_of(
    catalog: Seq<ExchangeMetadataView>,
    exchange: Exchange,
) -> Option<Seq<TickerEntryView>>
    decreases catalog.len(),
{
    if catalog.len() == 0 {
        None
    } else if catalog.last().exchange == exchange {
        Some(catalog.last().tickers)
    } else {
        listings_of(catalog.drop_last(), exchange)
    }
}

/// No exchange occurs twice.
pub open spec fn distinct_exchanges(catalog: Seq<ExchangeMetadataView>) -> bool {
    forall|i: int, j: int|
        #![trigger catalog[i], catalog[j]]
        0 <= i < j < catalog.len() ==> catalog[i].exchange != catalog[j].exchange
}

/// The position of an exchange determines what is found for it.
proof fn lemma_listing_at(catalog: Seq<ExchangeMetadataView>, i: int)
    requires
        distinct_exchanges(catalog),
        0 <= i < catalog.len(),
    ensures
        listings_of(catalog, catalog[i].exchange) == Some(catalog[i].tickers),
    decreases catalog.len(),
{
    if i < catalog.len() - 1 {
        let shorter = catalog.drop_last();
        assert(shorter[i] == catalog[i]);
        assert forall|a: int, b: int|
            #![trigger shorter[a], shorter[b]]
            0 <= a < b < shorter.len() implies shorter[a].exchange != shorter[b].exchange by {
            assert(catalog[a].exchange != catalog[b].exchange);
        }
        assert(catalog[i].exchange != catalog[catalog.len() - 1].exchange);
        lemma_listing_at(shorter, i);
    }
}

/// An exchange that occurs nowhere has no listings.
proof fn lemma_no_listing(catalog: Seq<ExchangeMetadataView>, exchange: Exchange)
    requires
        forall|i: int| 0 <= i < catalog.len() ==> (#[trigger] catalog[i]).exchange != exchange,
    ensures
        listings_of(catalog, exchange) is None,
    decreases catalog.len(),
{
    if catalog.len() > 0 {
        let shorter = catalog.drop_last();
        assert forall|i: int| 0 <= i < shorter.len() implies (#[trigger] shorter[i]).exchange
            != exchange by {
            assert(shorter[i] == catalog[i]);
        }
        assert(catalog[catalog.len() - 1].exchange != exchange);
        lemma_no_listing(shorter, exchange);
    }
}

/// Replacing the listings of one exchange leaves those of the others alone.
proof fn lemma_update_listing(
    catalog: Seq<ExchangeMetadataView>,
    at: int,
    entry: ExchangeMetadataView,
    other: Exchange,
)
    requires
        0 <= at < catalog.len(),
        catalog[at].exchange == entry.exchange,
        other != entry.exchange,
    ensures
        listings_of(catalog.update(at, entry), other) == listings_of(catalog, other),
    decreases catalog.len(),
{
    let updated = catalog.update(at, entry);
    if at < catalog.len() - 1 {
        assert(updated.drop_last() =~= catalog.drop_last().update(at, entry));
        lemma_update_listing(catalog.drop_last(), at, entry, other);
    } else {
        assert(updated.drop_last() =~= catalog.drop_last());
    }
}

impl MetadataCatalog {
    /// No exchange occurs twice.
    pub open spec fn wf(&self) -> bool {
        distinct_exchanges(self@)
    }

    /// A catalog without listings.
    pub fn new() -> (catalog: MetadataCatalog)
        ensures
            catalog.wf(),
            catalog@ == Seq::<ExchangeMetadataView>::empty(),
    {
        let catalog = MetadataCatalog { exchanges: Vec::new() };
        assert(catalog@ =~= Seq::<ExchangeMetadataView>::empty());
        catalog
    }

    fn find(&self, exchange: Exchange) -> (index: Option<usize>)
        ensures
            match index {
                Some(i) => i < self@.len() && self@[i as int].exchange == exchange,
                None => forall|i: int|
                    0 <= i < self@.len() ==> (#[trigger] self@[i]).exchange != exchange,
            },
    {
        let mut i: usize = 0;
        while i < self.exchanges.len()
            invariant
                i <= self.exchanges@.len(),
                forall|j: int| 0 <= j < i ==> (#[trigger] self@[j]).exchange != exchange,
            decreases self.exchanges@.len() - i,
        {
            if self.exchanges[i].exchange == exchange {
                return Some(i);
            }
            i += 1;
        }
        None
    }

    /// Take the answer to a metadata request: the listings replace what was known
    /// of the exchange, and a failed request (`None`) changes nothing.
    pub fn record(&mut self, exchange: Exchange, fetched: Option<Vec<TickerEntry>>)
        requires
            old(self).wf(),
        ensures
            final(self).wf(),
            forall|other: Exchange| #[trigger]
                listings_of(final(self)@, other) == match fetched {
                    Some(tickers) => if other == exchange {
                        Some(crate::text::views(tickers@))
                    } else {
                        listings_of(old(self)@, other)
                    },
                    None => listings_of(old(self)@, other),
                },
    {
        if let Some(tickers) = fetched {
            let ghost before = self@;
            let ghost listed = crate::text::views(tickers@);
            let entry = ExchangeMetadata { exchange, tickers };
            let ghost added = entry@;
            match self.find(exchange) {
                Some(i) => {
                    self.exchanges.set(i, entry);
                    proof {
                        assert(self@ =~= before.update(i as int, added));
                        assert forall|a: int, b: int|
                            #![trigger self@[a], self@[b]]
                            0 <= a < b < self@.len() implies self@[a].exchange
                            != self@[b].exchange by {
                            assert(before[a].exchange != before[b].exchange);
                        }
                        lemma_listing_at(self@, i as int);
                        assert forall|other: Exchange| other != exchange implies #[trigger]
                            listings_of(self@, other) == listings_of(before, other) by {
                            lemma_update_listing(before, i as int, added, other);
                        }
                    }
                },
                None => {
                    self.exchanges.push(entry);
                    proof {
                        assert(self@ =~= before.push(added));
                        assert forall|a: int, b: int|
                            #![trigger self@[a], self@[b]]
                            0 <= a < b < self@.len() implies self@[a].exchange
                            != self@[b].exchange by {
                            if b < before.len() {
                                assert(before[a].exchange != before[b].exchange);
                            } else {
                                assert(before[a].exchange != exchange);
                            }
                        }
                        assert(self@.drop_last() =~= before);
                    }
                },
            }
        }
    }

    /// The listings of `exchange`, if they were recorded.
    pub fn for_exchange(&self, exchange: Exchange) -> (tickers: Option<&Vec<TickerEntry>>)
        requires
            self.wf(),
        ensures
            match tickers {
                Some(entries) => listings_of(self@, exchange) == Some(
                    crate::text::views(entries@),
                ),
                None => listings_of(self@, exchange) is None,
            },
    {
        match self.find(exchange) {
            Some(i) => {
                proof {
                    lemma_listing_at(self@, i as int);
                }
                Some(&self.exchanges[i].tickers)
            },
            None => {
                proof {
                    lemma_no_listing(self@, exchange);
                }
                None
            },
        }
    }
}

/// The ticker of a base and a quote asset, both in capital letters, as the
/// exchange writes it.
pub open spec fn ticker_text(base: Seq<char>, quote: Seq<char>, exchange: Exchange) -> Seq<char> {
    match exchange {
        Exchange::BinanceSpot
        | Exchange::BinanceLinear
        | Exchange::BybitSpot
        | Exchange::BybitLinear
        | Exchange::BybitInverse
        | Exchange::MexcSpot => base + quote,
        Exchange::BinanceInverse => base + quote + "_PERP"@,
        Exchange::MexcLinear | Exchange::MexcInverse => base + "_"@ + quote,
        Exchange::HyperliquidLinear | Exchange::HyperliquidSpot => base,
        Exchange::OkexSpot => base + "-"@ + quote,
        Exchange::OkexLinear | Exchange::OkexInverse => base + "-"@ + quote + "-SWAP"@,
    }
}

/// The ticker of a base and a quote asset as the exchange writes it: its
/// separators, perpetual suffixes and other quirks.
///
/// Hyperliquid's quote is implicit. Its spot market uses opaque symbols, which
/// only a wildcard finds.
pub fn format_ticker(base: &str, quote: &str, exchange: Exchange) -> (ticker: String)
    ensures
        ticker@ == ticker_text(
            crate::text::uppercase(base@),
            crate::text::uppercase(quote@),
            exchange,
        ),
{
    let mut ticker = to_uppercase(base);
    let quote = to_uppercase(quote);
    match exchange {
        Exchange::BinanceSpot
        | Exchange::BinanceLinear
        | Exchange::BybitSpot
        | Exchange::BybitLinear
        | Exchange::BybitInverse
        | Exchange::MexcSpot => {
            ticker.append(quote.as_str());
        },
        Exchange::BinanceInverse => {
            ticker.append(quote.as_str());
            ticker.append("_PERP");
        },
        Exchange::MexcLinear | Exchange::MexcInverse => {
            ticker.append("_");
            ticker.append(quote.as_str());
        },
        Exchange::HyperliquidLinear | Exchange::HyperliquidSpot => {},
        Exchange::OkexSpot => {
            ticker.append("-");
            ticker.append(quote.as_str());
        },
        Exchange::OkexLinear | Exchange::OkexInverse => {
            ticker.append("-");
            ticker.append(quote.as_str());
            ticker.append("-SWAP");
        },
    }
    ticker
}

/// A ticker that was found for some base asset.
#[derive(Debug)]
pub struct Pick {
    pub exchange: Exchange,
    pub ticker: Ticker,
    pub info: TickerInfo,
}

/// The mathematical value of a [`Pick`].
#[verifier::ext_equal]
pub struct PickView {
    pub exchange: Exchange,
    pub ticker: crate::market::TickerView,
    pub info: crate::market::TickerInfoView,
}

impl View for Pick {
    type V = PickView;

    open spec fn view(&self) -> PickView {
        PickView { exchange: self.exchange, ticker: self.ticker@, info: self.info@ }
    }
}

/// The quote assets that are told from the base where nothing parts the two: the dollar
/// and its stablecoins, other currencies, and the coins that others are traded against.
pub open spec fn quote_asset(text: Seq<char>) -> bool {
    ||| text == "USDT"@
    ||| text == "USDC"@
    ||| text == "USD"@
    ||| text == "USDE"@
    ||| text == "USDH"@
    ||| text == "USDP"@
    ||| text == "USDS"@
    ||| text == "USDD"@
    ||| text == "USD1"@
    ||| text == "USDT0"@
    ||| text == "USDHL"@
    ||| text == "USDXL"@
    ||| text == "FDUSD"@
    ||| text == "TUSD"@
    ||| text == "BUSD"@
    ||| text == "FEUSD"@
    ||| text == "RLUSD"@
    ||| text == "DAI"@
    ||| text == "EUR"@
    ||| text == "EURI"@
    ||| text == "EURC"@
    ||| text == "GBP"@
    ||| text == "TRY"@
    ||| text == "BRL"@
    ||| text == "JPY"@
    ||| text == "AUD"@
    ||| text == "CAD"@
    ||| text == "PLN"@
    ||| text == "ARS"@
    ||| text == "MXN"@
    ||| text == "ZAR"@
    ||| text == "UAH"@
    ||| text == "RON"@
    ||| text == "CZK"@
    ||| text == "COP"@
    ||| text == "IDR"@
    ||| text == "RUB"@
    ||| text == "NGN"@
    ||| text == "BTC"@
    ||| text == "ETH"@
    ||| text == "BNB"@
    ||| text == "SOL"@
    ||| text == "XRP"@
    ||| text == "TRX"@
    ||| text == "DOGE"@
    ||| text == "DOT"@
    ||| text == "MNT"@
    ||| text == "HYPE"@
}

/// What can stand behind the base in a symbol of an exchange that parts the two by
/// nothing. Inverse contracts are quoted in dollars, and Bybit leaves the quote of a
/// perpetual out where that is USDC.
pub open spec fn closes_symbol(text: Seq<char>, exchange: Exchange) -> bool {
    match exchange {
        Exchange::BinanceInverse | Exchange::BybitInverse => text == "USD"@,
        Exchange::BybitLinear => text == "PERP"@ || quote_asset(text),
        _ => quote_asset(text),
    }
}

/// Whether a symbol ends in something that can stand behind a base.
pub open spec fn readable(text: Seq<char>, exchange: Exchange) -> bool {
    exists|k: int| 0 < k <= text.len() && closes_symbol(#[trigger] text.skip(k), exchange)
}

/// Whether a symbol in capital letters is `base` and right behind it a quote. Where no
/// quote can be told, what begins with the base counts as one of it, so that a quote
/// that is not known keeps no ticker out.
pub open spec fn joined_to(text: Seq<char>, base: Seq<char>, exchange: Exchange) -> bool {
    base.is_prefix_of(text) && (closes_symbol(text.skip(base.len() as int), exchange)
        || !readable(text, exchange))
}

/// Whether a symbol is `base` up to where the separator first occurs. Whatever quote
/// follows is fine.
pub open spec fn parted_from(text: Seq<char>, base: Seq<char>, separator: char) -> bool {
    &&& base.is_prefix_of(text)
    &&& base.len() < text.len()
    &&& text[base.len() as int] == separator
    &&& !base.contains(separator)
}

/// What parts base and quote in the symbols of an exchange, if anything does.
pub open spec fn separator_of(exchange: Exchange) -> Option<char> {
    match exchange {
        Exchange::MexcLinear | Exchange::MexcInverse => Some('_'),
        Exchange::OkexSpot | Exchange::OkexLinear | Exchange::OkexInverse => Some('-'),
        Exchange::HyperliquidSpot => Some('/'),
        _ => None,
    }
}

/// The length of a symbol without what tells the contract: its kind or its date, which
/// stands behind a `_` or a `-`.
pub open spec fn pair_len(text: Seq<char>) -> nat
    decreases text.len(),
{
    if text.len() == 0 || text[0] == '_' || text[0] == '-' {
        0
    } else {
        1 + pair_len(text.drop_first())
    }
}

/// The part of a symbol that holds base and quote with nothing between them.
pub open spec fn joined_part(text: Seq<char>, exchange: Exchange) -> Seq<char> {
    match separator_of(exchange) {
        Some(_) => text,
        None => text.take(pair_len(text) as int),
    }
}

/// Whether a separator parts the base of a symbol from the rest.
pub open spec fn is_parted(text: Seq<char>, exchange: Exchange) -> bool {
    match separator_of(exchange) {
        Some(separator) => text.contains(separator),
        None => false,
    }
}

/// Whether a symbol of an exchange, in capital letters, is one of `base`, by the way in
/// which the exchange writes symbols. Hyperliquid names perpetuals by their base alone.
pub open spec fn names_base(text: Seq<char>, base: Seq<char>, exchange: Exchange) -> bool {
    if exchange == Exchange::HyperliquidLinear {
        text == base
    } else if is_parted(text, exchange) {
        parted_from(text, base, separator_of(exchange)->0)
    } else {
        joined_to(joined_part(text, exchange), base, exchange)
    }
}

/// Whether a display symbol, in capital letters, is one of `base`. Of a perpetual of
/// Hyperliquid the symbol says all, so that its display symbol does not count.
pub open spec fn shows_base(text: Seq<char>, base: Seq<char>, exchange: Exchange) -> bool {
    exchange != Exchange::HyperliquidLinear && if text.contains('/') {
        parted_from(text, base, '/')
    } else {
        joined_to(text, base, exchange)
    }
}

/// Whether a ticker belongs to a base asset in capital letters: by the symbol
/// of the exchange or, where that is opaque, by the display symbol.
pub open spec fn has_base(
    ticker: crate::market::TickerView,
    base: Seq<char>,
    exchange: Exchange,
) -> bool {
    names_base(crate::text::uppercase(ticker.symbol), base, exchange) || match ticker.display {
        Some(display) => shows_base(crate::text::uppercase(display), base, exchange),
        None => false,
    }
}

/// Every listed ticker of a base asset, in the order of the listings. Tickers
/// without further information are passed over.
pub open spec fn wildcard_picks(
    base: Seq<char>,
    exchange: Exchange,
    listed: Seq<TickerEntryView>,
) -> Seq<PickView>
    decreases listed.len(),
{
    if listed.len() == 0 {
        Seq::empty()
    } else {
        let earlier = wildcard_picks(base, exchange, listed.drop_last());
        let entry = listed.last();
        match entry.info {
            Some(info) => if has_base(entry.ticker, base, exchange) {
                earlier.push(PickView { exchange, ticker: entry.ticker, info })
            } else {
                earlier
            },
            None => earlier,
        }
    }
}

/// What is known of the first listing that is exactly `ticker`.
pub open spec fn exact_info(
    listed: Seq<TickerEntryView>,
    ticker: crate::market::TickerView,
) -> Option<crate::market::TickerInfoView>
    decreases listed.len(),
{
    if listed.len() == 0 {
        None
    } else if listed[0].ticker == ticker {
        listed[0].info
    } else {
        exact_info(listed.drop_first(), ticker)
    }
}

/// Whether a ticker goes by `name`, ignoring the case of ASCII letters.
pub open spec fn goes_by(ticker: crate::market::TickerView, name: Seq<char>) -> bool {
    crate::text::ascii_folded(ticker.symbol) == crate::text::ascii_folded(name)
        || match ticker.display {
        Some(display) => crate::text::ascii_folded(display) == crate::text::ascii_folded(name),
        None => false,
    }
}

/// What is known of the first listing that goes by `name` and of which
/// anything is known.
pub open spec fn folded_info(
    listed: Seq<TickerEntryView>,
    name: Seq<char>,
) -> Option<crate::market::TickerInfoView>
    decreases listed.len(),
{
    if listed.len() == 0 {
        None
    } else if listed[0].info is Some && goes_by(listed[0].ticker, name) {
        listed[0].info
    } else {
        folded_info(listed.drop_first(), name)
    }
}

/// Whether nothing but NUL follows the first NUL of `s`.
pub open spec fn only_padded(s: Seq<char>) -> bool {
    forall|i: int| crate::market::until_nul(s).len() <= i < s.len() ==> s[i] == '\0'
}

/// What is known of the ticker `name` of an exchange: of the listing that is
/// exactly this ticker or else of one that goes by the name.
pub open spec fn found_info(
    listed: Seq<TickerEntryView>,
    name: Seq<char>,
    exchange: Exchange,
) -> Option<crate::market::TickerInfoView> {
    let ticker = crate::market::TickerView {
        symbol: crate::market::until_nul(name),
        display: None,
        exchange,
    };
    let exact = if only_padded(name) {
        exact_info(listed, ticker)
    } else {
        None
    };
    if exact is Some {
        exact
    } else {
        folded_info(listed, name)
    }
}

/// The ticker looked for, for a base asset in capital letters and a quote.
pub open spec fn candidate(base: Seq<char>, quote: Seq<char>, exchange: Exchange) -> Seq<char> {
    ticker_text(crate::text::uppercase(base), crate::text::uppercase(quote), exchange)
}

/// What one quote asset yields. An empty quote matches every ticker of the
/// base asset, regardless of the quote currency.
pub open spec fn quote_picks(
    base: Seq<char>,
    quote: Seq<char>,
    exchange: Exchange,
    listed: Seq<TickerEntryView>,
) -> Seq<PickView> {
    if quote.len() == 0 {
        wildcard_picks(base, exchange, listed)
    } else {
        match found_info(listed, candidate(base, quote, exchange), exchange) {
            Some(info) => seq![PickView { exchange, ticker: info.ticker, info }],
            None => Seq::empty(),
        }
    }
}

/// What the quote assets of one market yield, one after the other.
pub open spec fn quotes_picks(
    base: Seq<char>,
    quotes: Seq<Seq<char>>,
    exchange: Exchange,
    listed: Seq<TickerEntryView>,
) -> Seq<PickView>
    decreases quotes.len(),
{
    if quotes.len() == 0 {
        Seq::empty()
    } else {
        quotes_picks(base, quotes.drop_last(), exchange, listed) + quote_picks(
            base,
            quotes.last(),
            exchange,
            listed,
        )
    }
}

/// The exchange that a venue and a market kind of the whitelist stand for.
pub open spec fn target_exchange(
    venue: Seq<char>,
    market: crate::config::ConfigMarketKind,
) -> Option<Exchange> {
    match Venue::spec_parse(venue) {
        Some(v) => Exchange::spec_listed(v, market.kind()),
        None => None,
    }
}

/// What one market of the whitelist yields. Unknown venues, markets that the
/// venue does not run, and exchanges without metadata yield nothing.
pub open spec fn market_picks(
    base: Seq<char>,
    venue: Seq<char>,
    market: crate::config::MarketTemplateView,
    catalog: Seq<ExchangeMetadataView>,
) -> Seq<PickView> {
    match target_exchange(venue, market.market) {
        Some(exchange) => match listings_of(catalog, exchange) {
            Some(listed) => quotes_picks(base, market.quotes, exchange, listed),
            None => Seq::empty(),
        },
        None => Seq::empty(),
    }
}

/// What the markets of one venue yield, one after the other.
pub open spec fn markets_picks(
    base: Seq<char>,
    venue: Seq<char>,
    markets: Seq<crate::config::MarketTemplateView>,
    catalog: Seq<ExchangeMetadataView>,
) -> Seq<PickView>
    decreases markets.len(),
{
    if markets.len() == 0 {
        Seq::empty()
    } else {
        markets_picks(base, venue, markets.drop_last(), catalog) + market_picks(
            base,
            venue,
            markets.last(),
            catalog,
        )
    }
}

/// What the whole whitelist yields for one base asset in capital letters.
pub open spec fn base_picks(
    base: Seq<char>,
    whitelist: Seq<crate::config::VenueTemplateView>,
    catalog: Seq<ExchangeMetadataView>,
) -> Seq<PickView>
    decreases whitelist.len(),
{
    if whitelist.len() == 0 {
        Seq::empty()
    } else {
        base_picks(base, whitelist.drop_last(), catalog) + markets_picks(
            base,
            whitelist.last().venue,
            whitelist.last().markets,
            catalog,
        )
    }
}

/// What the whitelist yields for all base assets, one after the other.
pub open spec fn all_picks(
    bases: Seq<Seq<char>>,
    whitelist: Seq<crate::config::VenueTemplateView>,
    catalog: Seq<ExchangeMetadataView>,
) -> Seq<PickView>
    decreases bases.len(),
{
    if bases.len() == 0 {
        Seq::empty()
    } else {
        all_picks(bases.drop_last(), whitelist, catalog) + base_picks(
            crate::text::uppercase(bases.last()),
            whitelist,
            catalog,
        )
    }
}

/// Whether two picks stand for the same ticker of the same exchange.
pub open spec fn same_pick(a: PickView, b: PickView) -> bool {
    a.exchange == b.exchange && a.ticker == b.ticker
}

/// Whether a pick is among those already made.
pub open spec fn already_picked(picks: Seq<PickView>, pick: PickView) -> bool {
    exists|i: int| 0 <= i < picks.len() && #[trigger] same_pick(picks[i], pick)
}

/// Each ticker of each exchange where it first occurs.
pub open spec fn first_picks(picks: Seq<PickView>) -> Seq<PickView>
    decreases picks.len(),
{
    if picks.len() == 0 {
        Seq::empty()
    } else {
        let earlier = first_picks(picks.drop_last());
        if already_picked(earlier, picks.last()) {
            earlier
        } else {
            earlier.push(picks.last())
        }
    }
}

/// The pairs to follow: what base assets and whitelist yield, each once.
pub open spec fn resolved_pairs(
    bases: Seq<Seq<char>>,
    whitelist: Seq<crate::config::VenueTemplateView>,
    catalog: Seq<ExchangeMetadataView>,
) -> Seq<crate::market::TickerInfoView> {
    first_picks(all_picks(bases, whitelist, catalog)).map_values(|pick: PickView| pick.info)
}

/// Whether the ticker looked for can be a ticker at all.
pub open spec fn quote_fits(base: Seq<char>, quote: Seq<char>, exchange: Exchange) -> bool {
    quote.len() == 0 || crate::market::fits_ticker(candidate(base, quote, exchange))
}

/// Whether every ticker looked for in one market can be a ticker at all.
pub open spec fn market_fits(
    base: Seq<char>,
    venue: Seq<char>,
    market: crate::config::MarketTemplateView,
    catalog: Seq<ExchangeMetadataView>,
) -> bool {
    match target_exchange(venue, market.market) {
        Some(exchange) => listings_of(catalog, exchange) is Some ==> forall|i: int|
            0 <= i < market.quotes.len() ==> quote_fits(
                base,
                #[trigger] market.quotes[i],
                exchange,
            ),
        None => true,
    }
}

/// Whether every ticker looked for at one venue can be a ticker at all.
pub open spec fn venue_fits(
    base: Seq<char>,
    venue: crate::config::VenueTemplateView,
    catalog: Seq<ExchangeMetadataView>,
) -> bool {
    forall|i: int|
        0 <= i < venue.markets.len() ==> market_fits(
            base,
            venue.venue,
            #[trigger] venue.markets[i],
            catalog,
        )
}

/// Whether every ticker looked for, for one base asset in capital letters, can
/// be a ticker at all.
pub open spec fn base_fits(
    base: Seq<char>,
    whitelist: Seq<crate::config::VenueTemplateView>,
    catalog: Seq<ExchangeMetadataView>,
) -> bool {
    forall|i: int|
        0 <= i < whitelist.len() ==> venue_fits(base, #[trigger] whitelist[i], catalog)
}

/// Whether every ticker looked for can be a ticker at all: short enough, and
/// without a `|`.
pub open spec fn plan_fits(
    bases: Seq<Seq<char>>,
    whitelist: Seq<crate::config::VenueTemplateView>,
    catalog: Seq<ExchangeMetadataView>,
) -> bool {
    forall|i: int|
        0 <= i < bases.len() ==> base_fits(
            crate::text::uppercase(#[trigger] bases[i]),
            whitelist,
            catalog,
        )
}

/// The exchange that a venue and a market kind of the whitelist stand for.
fn resolve_target(venue: &str, market: crate::config::ConfigMarketKind) -> (exchange: Option<
    Exchange,
>)
    ensures
        exchange == target_exchange(venue@, market),
{
    match Venue::parse(venue) {
        Some(v) => {
            let kind: MarketKind = MarketKind::from(market);
            Exchange::from_venue_and_market(v, kind)
        },
        None => None,
    }
}

/// Whether a text is a quote asset.
pub fn is_quote_asset(text: &str) -> (known: bool)
    ensures
        known == quote_asset(text@),
{
    text_eq(text, "USDT")
        || text_eq(text, "USDC")
        || text_eq(text, "USD")
        || text_eq(text, "USDE")
        || text_eq(text, "USDH")
        || text_eq(text, "USDP")
        || text_eq(text, "USDS")
        || text_eq(text, "USDD")
        || text_eq(text, "USD1")
        || text_eq(text, "USDT0")
        || text_eq(text, "USDHL")
        || text_eq(text, "USDXL")
        || text_eq(text, "FDUSD")
        || text_eq(text, "TUSD")
        || text_eq(text, "BUSD")
        || text_eq(text, "FEUSD")
        || text_eq(text, "RLUSD")
        || text_eq(text, "DAI")
        || text_eq(text, "EUR")
        || text_eq(text, "EURI")
        || text_eq(text, "EURC")
        || text_eq(text, "GBP")
        || text_eq(text, "TRY")
        || text_eq(text, "BRL")
        || text_eq(text, "JPY")
        || text_eq(text, "AUD")
        || text_eq(text, "CAD")
        || text_eq(text, "PLN")
        || text_eq(text, "ARS")
        || text_eq(text, "MXN")
        || text_eq(text, "ZAR")
        || text_eq(text, "UAH")
        || text_eq(text, "RON")
        || text_eq(text, "CZK")
        || text_eq(text, "COP")
        || text_eq(text, "IDR")
        || text_eq(text, "RUB")
        || text_eq(text, "NGN")
        || text_eq(text, "BTC")
        || text_eq(text, "ETH")
        || text_eq(text, "BNB")
        || text_eq(text, "SOL")
        || text_eq(text, "XRP")
        || text_eq(text, "TRX")
        || text_eq(text, "DOGE")
        || text_eq(text, "DOT")
        || text_eq(text, "MNT")
        || text_eq(text, "HYPE")
}

/// Whether a text can stand behind the base in a symbol of an exchange.
fn can_close_symbol(text: &str, exchange: Exchange) -> (closes: bool)
    ensures
        closes == closes_symbol(text@, exchange),
{
    match exchange {
        Exchange::BinanceInverse | Exchange::BybitInverse => text_eq(text, "USD"),
        Exchange::BybitLinear => text_eq(text, "PERP") || is_quote_asset(text),
        _ => is_quote_asset(text),
    }
}

/// The characters of `chars` from `from` up to `to`.
fn part_of(chars: &[char], from: usize, to: usize) -> (part: String)
    requires
        from <= to <= chars@.len(),
    ensures
        part@ == chars@.subrange(from as int, to as int),
{
    let mut part = String::new();
    let mut i: usize = from;
    while i < to
        invariant
            from <= i <= to <= chars@.len(),
            part@ == chars@.subrange(from as int, i as int),
        decreases to - i,
    {
        part.push(chars[i]);
        assert(part@ =~= chars@.subrange(from as int, i as int + 1));
        i += 1;
    }
    part
}

/// Whether a symbol ends in something that can stand behind a base.
fn is_readable(text: &str, exchange: Exchange) -> (found: bool)
    ensures
        found == readable(text@, exchange),
{
    let chars = chars_of(text);
    let len: usize = chars.len();
    let mut k: usize = 0;
    while k < len
        invariant
            chars@ == text@,
            len == text@.len(),
            k <= len,
            forall|j: int| 0 < j <= k ==> !closes_symbol(#[trigger] text@.skip(j), exchange),
        decreases len - k,
    {
        k += 1;
        let tail = part_of(chars.as_slice(), k, len);
        assert(tail@ =~= text@.skip(k as int));
        if can_close_symbol(tail.as_str(), exchange) {
            return true;
        }
    }
    false
}

/// Whether a symbol is `base` and right behind it a quote, as far as one can be told.
fn is_joined_to(text: &str, base: &str, exchange: Exchange) -> (found: bool)
    ensures
        found == joined_to(text@, base@, exchange),
{
    if !starts_with(text, base) {
        return false;
    }
    let chars = chars_of(text);
    let at: usize = chars_of(base).len();
    let rest = part_of(chars.as_slice(), at, chars.len());
    assert(rest@ =~= text@.skip(at as int));
    can_close_symbol(rest.as_str(), exchange) || !is_readable(text, exchange)
}

/// Whether a character occurs among others.
fn occurs(c: char, chars: &Vec<char>) -> (found: bool)
    ensures
        found == chars@.contains(c),
{
    let mut i: usize = 0;
    while i < chars.len()
        invariant
            i <= chars@.len(),
            forall|j: int| 0 <= j < i ==> chars@[j] != c,
        decreases chars@.len() - i,
    {
        if chars[i] == c {
            return true;
        }
        i += 1;
    }
    false
}

/// Whether a symbol is `base` up to where the separator first occurs.
fn is_parted_from(text: &str, base: &str, separator: char) -> (found: bool)
    ensures
        found == parted_from(text@, base@, separator),
{
    if !starts_with(text, base) {
        return false;
    }
    let chars = chars_of(text);
    let letters = chars_of(base);
    letters.len() < chars.len() && chars[letters.len()] == separator && !occurs(
        separator,
        &letters,
    )
}

/// A symbol without what tells the contract.
fn pair_part(text: &str) -> (part: String)
    ensures
        part@ == text@.take(pair_len(text@) as int),
{
    let chars = chars_of(text);
    let mut i: usize = 0;
    assert(text@.skip(0) =~= text@);
    while i < chars.len() && chars[i] != '_' && chars[i] != '-'
        invariant
            chars@ == text@,
            i <= chars@.len(),
            pair_len(text@) == i + pair_len(text@.skip(i as int)),
        ensures
            chars@ == text@,
            i <= chars@.len(),
            pair_len(text@) == i,
        decreases chars@.len() - i,
    {
        assert(text@.skip(i as int).drop_first() =~= text@.skip(i as int + 1));
        i += 1;
    }
    let part = part_of(chars.as_slice(), 0, i);
    assert(part@ =~= text@.take(i as int));
    part
}

/// What parts base and quote in the symbols of an exchange, if anything does.
fn find_separator(exchange: Exchange) -> (separator: Option<char>)
    ensures
        separator == separator_of(exchange),
{
    match exchange {
        Exchange::MexcLinear | Exchange::MexcInverse => Some('_'),
        Exchange::OkexSpot | Exchange::OkexLinear | Exchange::OkexInverse => Some('-'),
        Exchange::HyperliquidSpot => Some('/'),
        _ => None,
    }
}

/// Whether a symbol of an exchange, in capital letters, is one of a base asset in
/// capital letters.
pub fn symbol_names_base(text: &str, base: &str, exchange: Exchange) -> (found: bool)
    ensures
        found == names_base(text@, base@, exchange),
{
    if exchange == Exchange::HyperliquidLinear {
        return text_eq(text, base);
    }
    match find_separator(exchange) {
        Some(separator) => {
            let chars = chars_of(text);
            if occurs(separator, &chars) {
                is_parted_from(text, base, separator)
            } else {
                is_joined_to(text, base, exchange)
            }
        },
        None => {
            let pair = pair_part(text);
            is_joined_to(pair.as_str(), base, exchange)
        },
    }
}

/// Whether a display symbol, in capital letters, is one of a base asset in capital
/// letters.
pub fn display_shows_base(text: &str, base: &str, exchange: Exchange) -> (found: bool)
    ensures
        found == shows_base(text@, base@, exchange),
{
    if exchange == Exchange::HyperliquidLinear {
        return false;
    }
    let chars = chars_of(text);
    if occurs('/', &chars) {
        is_parted_from(text, base, '/')
    } else {
        is_joined_to(text, base, exchange)
    }
}

/// Whether a ticker belongs to a base asset in capital letters.
fn ticker_has_base(ticker: &Ticker, base: &str, exchange: Exchange) -> (found: bool)
    ensures
        found == has_base(ticker@, base@, exchange),
{
    let raw = to_uppercase(ticker.symbol.as_str());
    if symbol_names_base(raw.as_str(), base, exchange) {
        return true;
    }
    match &ticker.display {
        Some(display) => {
            let display = to_uppercase(display.as_str());
            display_shows_base(display.as_str(), base, exchange)
        },
        None => false,
    }
}

/// Append what a wildcard yields.
fn push_wildcard(
    picks: &mut Vec<Pick>,
    base: &str,
    exchange: Exchange,
    listed: &Vec<TickerEntry>,
)
    ensures
        crate::text::views(final(picks)@) == crate::text::views(old(picks)@) + wildcard_picks(
            base@,
            exchange,
            crate::text::views(listed@),
        ),
{
    let ghost before = crate::text::views(picks@);
    let ghost entries = crate::text::views(listed@);
    let mut i: usize = 0;
    assert(before + wildcard_picks(base@, exchange, entries.take(0)) =~= before);
    while i < listed.len()
        invariant
            i <= listed@.len(),
            entries == crate::text::views(listed@),
            crate::text::views(picks@) == before + wildcard_picks(
                base@,
                exchange,
                entries.take(i as int),
            ),
        decreases listed@.len() - i,
    {
        let ghost earlier = crate::text::views(picks@);
        let ghost head = entries.take(i as int + 1);
        assert(head.drop_last() =~= entries.take(i as int));
        assert(head.last() == listed@[i as int]@);
        if let Some(info) = &listed[i].info {
            if ticker_has_base(&listed[i].ticker, base, exchange) {
                let pick = Pick {
                    exchange,
                    ticker: listed[i].ticker.clone(),
                    info: info.clone(),
                };
                let ghost added = pick@;
                picks.push(pick);
                assert(crate::text::views(picks@) =~= earlier.push(added));
                assert(earlier.push(added) =~= before + wildcard_picks(
                    base@,
                    exchange,
                    entries.take(i as int),
                ).push(added));
            }
        }
        i += 1;
    }
    assert(entries.take(i as int) =~= entries);
}

/// `s` up to its first NUL, and whether nothing but NUL follows.
fn is_only_padded(s: &str) -> (padded: bool)
    ensures
        padded == only_padded(s@),
{
    let chars = chars_of(s);
    let mut i: usize = 0;
    assert(s@.skip(0) =~= s@);
    while i < chars.len() && chars[i] != '\0'
        invariant
            chars@ == s@,
            i <= chars@.len(),
            crate::market::until_nul(s@).len() == i + crate::market::until_nul(
                s@.skip(i as int),
            ).len(),
        ensures
            chars@ == s@,
            i <= chars@.len(),
            crate::market::until_nul(s@).len() == i,
        decreases chars@.len() - i,
    {
        assert(s@.skip(i as int).drop_first() =~= s@.skip(i as int + 1));
        i += 1;
    }
    let ghost start = i as int;
    while i < chars.len()
        invariant
            chars@ == s@,
            start <= i <= chars@.len(),
            crate::market::until_nul(s@).len() == start,
            forall|j: int| start <= j < i ==> s@[j] == '\0',
        decreases chars@.len() - i,
    {
        if chars[i] != '\0' {
            return false;
        }
        i += 1;
    }
    true
}

/// What is known of the first listing that is exactly `ticker`.
fn find_exact(listed: &Vec<TickerEntry>, ticker: &Ticker) -> (info: Option<TickerInfo>)
    ensures
        crate::text::option_view(info) == exact_info(crate::text::views(listed@), ticker@),
{
    let ghost entries = crate::text::views(listed@);
    let mut i: usize = 0;
    assert(entries.skip(0) =~= entries);
    while i < listed.len()
        invariant
            i <= listed@.len(),
            entries == crate::text::views(listed@),
            exact_info(entries, ticker@) == exact_info(entries.skip(i as int), ticker@),
        decreases listed@.len() - i,
    {
        assert(entries.skip(i as int)[0] == listed@[i as int]@);
        if listed[i].ticker.same_as(ticker) {
            return match &listed[i].info {
                Some(info) => Some(info.clone()),
                None => None,
            };
        }
        assert(entries.skip(i as int).drop_first() =~= entries.skip(i as int + 1));
        i += 1;
    }
    None
}

/// Whether a ticker goes by `name`, ignoring the case of ASCII letters.
fn ticker_goes_by(ticker: &Ticker, name: &str) -> (found: bool)
    ensures
        found == goes_by(ticker@, name@),
{
    if eq_ignore_ascii_case(ticker.symbol.as_str(), name) {
        return true;
    }
    match &ticker.display {
        Some(display) => eq_ignore_ascii_case(display.as_str(), name),
        None => false,
    }
}

/// What is known of the first listing that goes by `name`.
fn find_folded(listed: &Vec<TickerEntry>, name: &str) -> (info: Option<TickerInfo>)
    ensures
        crate::text::option_view(info) == folded_info(crate::text::views(listed@), name@),
{
    let ghost entries = crate::text::views(listed@);
    let mut i: usize = 0;
    assert(entries.skip(0) =~= entries);
    while i < listed.len()
        invariant
            i <= listed@.len(),
            entries == crate::text::views(listed@),
            folded_info(entries, name@) == folded_info(entries.skip(i as int), name@),
        decreases listed@.len() - i,
    {
        assert(entries.skip(i as int)[0] == listed@[i as int]@);
        if let Some(info) = &listed[i].info {
            if ticker_goes_by(&listed[i].ticker, name) {
                return Some(info.clone());
            }
        }
        assert(entries.skip(i as int).drop_first() =~= entries.skip(i as int + 1));
        i += 1;
    }
    None
}

/// What is known of the ticker `name` of an exchange.
fn find_ticker(listed: &Vec<TickerEntry>, name: &str, exchange: Exchange) -> (info: Option<
    TickerInfo,
>)
    requires
        crate::market::fits_ticker(name@),
    ensures
        crate::text::option_view(info) == found_info(
            crate::text::views(listed@),
            name@,
            exchange,
        ),
{
    let ticker = Ticker::new(name, exchange);
    if is_only_padded(name) {
        let exact = find_exact(listed, &ticker);
        if exact.is_some() {
            return exact;
        }
    }
    find_folded(listed, name)
}

/// Append what the quote assets of one market yield.
fn push_quotes(
    picks: &mut Vec<Pick>,
    base: &str,
    quotes: &Vec<String>,
    exchange: Exchange,
    listed: &Vec<TickerEntry>,
)
    requires
        forall|i: int|
            0 <= i < quotes@.len() ==> quote_fits(
                base@,
                #[trigger] crate::text::views(quotes@)[i],
                exchange,
            ),
    ensures
        crate::text::views(final(picks)@) == crate::text::views(old(picks)@) + quotes_picks(
            base@,
            crate::text::views(quotes@),
            exchange,
            crate::text::views(listed@),
        ),
{
    let ghost before = crate::text::views(picks@);
    let ghost entries = crate::text::views(listed@);
    let ghost texts = crate::text::views(quotes@);
    let mut i: usize = 0;
    assert(before + quotes_picks(base@, texts.take(0), exchange, entries) =~= before);
    while i < quotes.len()
        invariant
            i <= quotes@.len(),
            texts == crate::text::views(quotes@),
            entries == crate::text::views(listed@),
            forall|j: int|
                0 <= j < quotes@.len() ==> quote_fits(base@, #[trigger] texts[j], exchange),
            crate::text::views(picks@) == before + quotes_picks(
                base@,
                texts.take(i as int),
                exchange,
                entries,
            ),
        decreases quotes@.len() - i,
    {
        let ghost earlier = crate::text::views(picks@);
        let ghost head = texts.take(i as int + 1);
        let ghost quote = texts[i as int];
        assert(head.drop_last() =~= texts.take(i as int));
        assert(head.last() == quote);
        assert(quote_fits(base@, quote, exchange));
        if quotes[i].as_str().is_empty() {
            push_wildcard(picks, base, exchange, listed);
        } else {
            let name = format_ticker(base, quotes[i].as_str(), exchange);
            match find_ticker(listed, name.as_str(), exchange) {
                Some(info) => {
                    let pick = Pick { exchange, ticker: info.ticker.clone(), info };
                    let ghost added = pick@;
                    picks.push(pick);
                    assert(crate::text::views(picks@) =~= earlier + seq![added]);
                },
                None => {
                    assert(earlier + Seq::<PickView>::empty() =~= earlier);
                },
            }
        }
        assert(crate::text::views(picks@) =~= earlier + quote_picks(
            base@,
            quote,
            exchange,
            entries,
        ));
        assert(crate::text::views(picks@) =~= before + quotes_picks(
            base@,
            head,
            exchange,
            entries,
        ));
        i += 1;
    }
    assert(texts.take(i as int) =~= texts);
}

/// Append what the markets of one venue yield.
fn push_markets(
    picks: &mut Vec<Pick>,
    base: &str,
    venue: &VenueTemplate,
    catalog: &MetadataCatalog,
)
    requires
        catalog.wf(),
        venue_fits(base@, venue@, catalog@),
    ensures
        crate::text::views(final(picks)@) == crate::text::views(old(picks)@) + markets_picks(
            base@,
            venue@.venue,
            venue@.markets,
            catalog@,
        ),
{
    let ghost before = crate::text::views(picks@);
    let ghost markets = venue@.markets;
    let mut i: usize = 0;
    assert(before + markets_picks(base@, venue@.venue, markets.take(0), catalog@) =~= before);
    while i < venue.markets.len()
        invariant
            i <= venue.markets@.len(),
            catalog.wf(),
            venue_fits(base@, venue@, catalog@),
            markets == venue@.markets,
            crate::text::views(picks@) == before + markets_picks(
                base@,
                venue@.venue,
                markets.take(i as int),
                catalog@,
            ),
        decreases venue.markets@.len() - i,
    {
        let ghost earlier = crate::text::views(picks@);
        let ghost head = markets.take(i as int + 1);
        let ghost market = markets[i as int];
        assert(head.drop_last() =~= markets.take(i as int));
        assert(head.last() == market);
        assert(market_fits(base@, venue@.venue, venue@.markets[i as int], catalog@));
        let template = &venue.markets[i];
        assert(earlier + Seq::<PickView>::empty() =~= earlier);
        if let Some(exchange) = resolve_target(venue.venue.as_str(), template.market) {
            if let Some(listed) = catalog.for_exchange(exchange) {
                assert(market.quotes == crate::text::views(template.quotes@));
                assert(listings_of(catalog@, exchange) is Some);
                push_quotes(picks, base, &template.quotes, exchange, listed);
            }
        }
        assert(crate::text::views(picks@) =~= earlier + market_picks(
            base@,
            venue@.venue,
            market,
            catalog@,
        ));
        assert(crate::text::views(picks@) =~= before + markets_picks(
            base@,
            venue@.venue,
            head,
            catalog@,
        ));
        i += 1;
    }
    assert(markets.take(i as int) =~= markets);
}

/// Append what the whitelist yields for one base asset in capital letters.
fn push_base(
    picks: &mut Vec<Pick>,
    base: &str,
    whitelist: &WhitelistTemplates,
    catalog: &MetadataCatalog,
)
    requires
        catalog.wf(),
        base_fits(base@, crate::text::views(whitelist@), catalog@),
    ensures
        crate::text::views(final(picks)@) == crate::text::views(old(picks)@) + base_picks(
            base@,
            crate::text::views(whitelist@),
            catalog@,
        ),
{
    let ghost before = crate::text::views(picks@);
    let ghost venues = crate::text::views(whitelist@);
    let mut i: usize = 0;
    assert(before + base_picks(base@, venues.take(0), catalog@) =~= before);
    while i < whitelist.len()
        invariant
            i <= whitelist@.len(),
            catalog.wf(),
            venues == crate::text::views(whitelist@),
            base_fits(base@, venues, catalog@),
            crate::text::views(picks@) == before + base_picks(
                base@,
                venues.take(i as int),
                catalog@,
            ),
        decreases whitelist@.len() - i,
    {
        let ghost head = venues.take(i as int + 1);
        assert(head.drop_last() =~= venues.take(i as int));
        assert(head.last() == whitelist@[i as int]@);
        assert(venue_fits(base@, venues[i as int], catalog@));
        push_markets(picks, base, &whitelist[i], catalog);
        assert(crate::text::views(picks@) =~= before + base_picks(base@, head, catalog@));
        i += 1;
    }
    assert(venues.take(i as int) =~= venues);
}

/// Whether two picks stand for the same ticker of the same exchange.
fn picks_same(a: &Pick, b: &Pick) -> (same: bool)
    ensures
        same == same_pick(a@, b@),
{
    a.exchange == b.exchange && a.ticker.same_as(&b.ticker)
}

/// Each ticker of each exchange where it first occurs.
fn keep_first(picks: &Vec<Pick>) -> (kept: Vec<Pick>)
    ensures
        crate::text::views(kept@) == first_picks(crate::text::views(picks@)),
{
    let ghost all = crate::text::views(picks@);
    let mut kept: Vec<Pick> = Vec::new();
    let mut i: usize = 0;
    assert(crate::text::views(kept@) =~= first_picks(all.take(0)));
    while i < picks.len()
        invariant
            i <= picks@.len(),
            all == crate::text::views(picks@),
            crate::text::views(kept@) == first_picks(all.take(i as int)),
        decreases picks@.len() - i,
    {
        let ghost head = all.take(i as int + 1);
        assert(head.drop_last() =~= all.take(i as int));
        assert(head.last() == picks@[i as int]@);
        let ghost earlier = crate::text::views(kept@);
        let mut seen = false;
        let mut j: usize = 0;
        while j < kept.len()
            invariant
                i < picks@.len(),
                all == crate::text::views(picks@),
                j <= kept@.len(),
                earlier == crate::text::views(kept@),
                seen == exists|k: int|
                    0 <= k < j && #[trigger] same_pick(earlier[k], all[i as int]),
            decreases kept@.len() - j,
        {
            if picks_same(&kept[j], &picks[i]) {
                assert(same_pick(earlier[j as int], all[i as int]));
                seen = true;
            }
            j += 1;
        }
        if !seen {
            let pick = Pick {
                exchange: picks[i].exchange,
                ticker: picks[i].ticker.clone(),
                info: picks[i].info.clone(),
            };
            kept.push(pick);
            assert(crate::text::views(kept@) =~= earlier.push(all[i as int]));
        }
        i += 1;
    }
    assert(all.take(i as int) =~= all);
    kept
}

/// What to discover, and for which base assets.
pub struct DiscoveryPlan<'a> {
    pub base_assets: &'a Vec<String>,
    pub mode: DiscoveryMode,
    pub whitelist: &'a WhitelistTemplates,
}

impl<'a> DiscoveryPlan<'a> {
    /// A plan for `base_assets`.
    pub fn new(
        base_assets: &'a Vec<String>,
        mode: DiscoveryMode,
        whitelist: &'a WhitelistTemplates,
    ) -> (plan: DiscoveryPlan<'a>)
        ensures
            plan.base_assets == base_assets,
            plan.mode == mode,
            plan.whitelist == whitelist,
    {
        DiscoveryPlan { base_assets, mode, whitelist }
    }

    /// Resolve base assets against whitelist templates and metadata into
    /// concrete tickers, each of them once.
    pub fn resolve_pairs(&self, metadata: &MetadataCatalog) -> (pairs: Vec<TickerInfo>)
        requires
            metadata.wf(),
            plan_fits(
                crate::text::views(self.base_assets@),
                crate::text::views(self.whitelist@),
                metadata@,
            ),
        ensures
            crate::text::views(pairs@) == resolved_pairs(
                crate::text::views(self.base_assets@),
                crate::text::views(self.whitelist@),
                metadata@,
            ),
    {
        let ghost bases = crate::text::views(self.base_assets@);
        let ghost whitelist = crate::text::views(self.whitelist@);
        let mut picks: Vec<Pick> = Vec::new();
        let mut i: usize = 0;
        assert(crate::text::views(picks@) =~= all_picks(bases.take(0), whitelist, metadata@));
        while i < self.base_assets.len()
            invariant
                i <= self.base_assets@.len(),
                metadata.wf(),
                bases == crate::text::views(self.base_assets@),
                whitelist == crate::text::views(self.whitelist@),
                plan_fits(bases, whitelist, metadata@),
                crate::text::views(picks@) == all_picks(
                    bases.take(i as int),
                    whitelist,
                    metadata@,
                ),
            decreases self.base_assets@.len() - i,
        {
            let ghost head = bases.take(i as int + 1);
            assert(head.drop_last() =~= bases.take(i as int));
            assert(head.last() == bases[i as int]);
            let base = to_uppercase(self.base_assets[i].as_str());
            assert(base_fits(crate::text::uppercase(bases[i as int]), whitelist, metadata@));
            push_base(&mut picks, base.as_str(), self.whitelist, metadata);
            i += 1;
        }
        assert(bases.take(i as int) =~= bases);
        let kept = keep_first(&picks);
        let mut pairs: Vec<TickerInfo> = Vec::new();
        let ghost firsts = crate::text::views(kept@);
        let mut k: usize = 0;
        while k < kept.len()
            invariant
                k <= kept@.len(),
                firsts == crate::text::views(kept@),
                pairs@.len() == k,
                forall|j: int| 0 <= j < k ==> (#[trigger] pairs@[j])@ == firsts[j].info,
            decreases kept@.len() - k,
        {
            pairs.push(kept[k].info.clone());
            k += 1;
        }
        assert(crate::text::views(pairs@) =~= firsts.map_values(|pick: PickView| pick.info));
        pairs
    }
}

/// Whether a text can be the symbol of a ticker.
pub fn is_ticker_text(symbol: &str) -> (fits: bool)
    ensures
        fits == crate::market::fits_ticker(symbol@),
{
    if symbol.as_bytes().len() > MAX_TICKER_LEN {
        return false;
    }
    let chars = chars_of(symbol);
    let mut i: usize = 0;
    while i < chars.len()
        invariant
            chars@ == symbol@,
            i <= chars@.len(),
            encode_utf8(symbol@).len() <= MAX_TICKER_LEN,
            forall|j: int| 0 <= j < i ==> chars@[j] != '|',
        decreases chars@.len() - i,
    {
        if chars[i] == '|' {
            assert(symbol@.contains(chars@[i as int]));
            return false;
        }
        i += 1;
    }
    true
}

/// Whether every ticker looked for in one market can be a ticker at all.
fn check_market(
    base: &str,
    venue: &str,
    market: &MarketTemplate,
    catalog: &MetadataCatalog,
) -> (fits: bool)
    requires
        catalog.wf(),
    ensures
        fits == market_fits(base@, venue@, market@, catalog@),
{
    let exchange = match resolve_target(venue, market.market) {
        Some(exchange) => exchange,
        None => return true,
    };
    if catalog.for_exchange(exchange).is_none() {
        return true;
    }
    let ghost quotes = market@.quotes;
    let mut i: usize = 0;
    while i < market.quotes.len()
        invariant
            i <= market.quotes@.len(),
            quotes == market@.quotes,
            target_exchange(venue@, market@.market) == Some(exchange),
            listings_of(catalog@, exchange) is Some,
            forall|j: int| 0 <= j < i ==> quote_fits(base@, #[trigger] quotes[j], exchange),
        decreases market.quotes@.len() - i,
    {
        if !market.quotes[i].as_str().is_empty() {
            let name = format_ticker(base, market.quotes[i].as_str(), exchange);
            if !is_ticker_text(name.as_str()) {
                assert(!quote_fits(base@, quotes[i as int], exchange));
                return false;
            }
        }
        i += 1;
    }
    true
}

impl<'a> DiscoveryPlan<'a> {
    /// Whether every ticker looked for, for one base asset in capital letters,
    /// can be a ticker at all.
    fn check_base(&self, base: &str, metadata: &MetadataCatalog) -> (fits: bool)
        requires
            metadata.wf(),
        ensures
            fits == base_fits(base@, crate::text::views(self.whitelist@), metadata@),
    {
        let ghost venues = crate::text::views(self.whitelist@);
        let mut i: usize = 0;
        while i < self.whitelist.len()
            invariant
                i <= self.whitelist@.len(),
                metadata.wf(),
                venues == crate::text::views(self.whitelist@),
                forall|k: int| 0 <= k < i ==> venue_fits(base@, #[trigger] venues[k], metadata@),
            decreases self.whitelist@.len() - i,
        {
            let venue = &self.whitelist[i];
            let ghost markets = venue@.markets;
            assert(venues[i as int] == venue@);
            let mut j: usize = 0;
            while j < venue.markets.len()
                invariant
                    i < self.whitelist@.len(),
                    venues == crate::text::views(self.whitelist@),
                    venues[i as int] == venue@,
                    j <= venue.markets@.len(),
                    metadata.wf(),
                    markets == venue@.markets,
                    forall|k: int|
                        0 <= k < j ==> market_fits(
                            base@,
                            venue@.venue,
                            #[trigger] markets[k],
                            metadata@,
                        ),
                decreases venue.markets@.len() - j,
            {
                if !check_market(base, venue.venue.as_str(), &venue.markets[j], metadata) {
                    assert(!market_fits(base@, venue@.venue, markets[j as int], metadata@));
                    assert(!venue_fits(base@, venues[i as int], metadata@));
                    return false;
                }
                j += 1;
            }
            i += 1;
        }
        true
    }

    /// Whether every ticker that the plan looks for can be a ticker at all.
    pub fn fits(&self, metadata: &MetadataCatalog) -> (fits: bool)
        requires
            metadata.wf(),
        ensures
            fits == plan_fits(
                crate::text::views(self.base_assets@),
                crate::text::views(self.whitelist@),
                metadata@,
            ),
    {
        let ghost bases = crate::text::views(self.base_assets@);
        let mut i: usize = 0;
        while i < self.base_assets.len()
            invariant
                i <= self.base_assets@.len(),
                metadata.wf(),
                bases == crate::text::views(self.base_assets@),
                forall|k: int|
                    0 <= k < i ==> base_fits(
                        crate::text::uppercase(#[trigger] bases[k]),
                        crate::text::views(self.whitelist@),
                        metadata@,
                    ),
            decreases self.base_assets@.len() - i,
        {
            let base = to_uppercase(self.base_assets[i].as_str());
            if !self.check_base(base.as_str(), metadata) {
                assert(!base_fits(
                    crate::text::uppercase(bases[i as int]),
                    crate::text::views(self.whitelist@),
                    metadata@,
                ));
                return false;
            }
            i += 1;
        }
        true
    }

    /// [`DiscoveryPlan::resolve_pairs`], or `None` if some ticker that the plan
    /// looks for is too long or holds a `|`.
    pub fn try_resolve_pairs(&self, metadata: &MetadataCatalog) -> (pairs: Option<
        Vec<TickerInfo>,
    >)
        requires
            metadata.wf(),
        ensures
            pairs is Some == plan_fits(
                crate::text::views(self.base_assets@),
                crate::text::views(self.whitelist@),
                metadata@,
            ),
            pairs matches Some(found) ==> crate::text::views(found@) == resolved_pairs(
                crate::text::views(self.base_assets@),
                crate::text::views(self.whitelist@),
                metadata@,
            ),
    {
        if self.fits(metadata) {
            Some(self.resolve_pairs(metadata))
        } else {
            None
        }
    }
}

/// The exchanges that the whitelist of one venue asks for.
pub open spec fn venue_targets(venue: crate::config::VenueTemplateView, n: nat) -> Seq<Exchange>
    decreases n,
{
    if n == 0 {
        Seq::empty()
    } else {
        let earlier = venue_targets(venue, (n - 1) as nat);
        match target_exchange(venue.venue, venue.markets[n - 1].market) {
            Some(exchange) => earlier.push(exchange),
            None => earlier,
        }
    }
}

/// The exchanges that the first `n` venues of the whitelist ask for, in order,
/// some perhaps more than once.
pub open spec fn whitelist_targets(
    whitelist: Seq<crate::config::VenueTemplateView>,
    n: nat,
) -> Seq<Exchange>
    decreases n,
{
    if n == 0 {
        Seq::empty()
    } else {
        whitelist_targets(whitelist, (n - 1) as nat) + venue_targets(
            whitelist[n - 1],
            whitelist[n - 1].markets.len(),
        )
    }
}

/// Each exchange where it first occurs.
pub open spec fn first_exchanges(targets: Seq<Exchange>) -> Seq<Exchange>
    decreases targets.len(),
{
    if targets.len() == 0 {
        Seq::empty()
    } else {
        let earlier = first_exchanges(targets.drop_last());
        if earlier.contains(targets.last()) {
            earlier
        } else {
            earlier.push(targets.last())
        }
    }
}

/// The venues that the first `n` keys of the whitelist name.
pub open spec fn whitelist_venues(
    whitelist: Seq<crate::config::VenueTemplateView>,
    n: nat,
) -> Seq<Venue>
    decreases n,
{
    if n == 0 {
        Seq::empty()
    } else {
        let earlier = whitelist_venues(whitelist, (n - 1) as nat);
        match Venue::spec_parse(whitelist[n - 1].venue) {
            Some(venue) => earlier.push(venue),
            None => earlier,
        }
    }
}

/// The exchanges of `exchanges` that `venue` runs.
pub open spec fn run_by(exchanges: Seq<Exchange>, venue: Venue) -> Seq<Exchange>
    decreases exchanges.len(),
{
    if exchanges.len() == 0 {
        Seq::empty()
    } else {
        let earlier = run_by(exchanges.drop_last(), venue);
        if exchanges.last().spec_venue() == venue {
            earlier.push(exchanges.last())
        } else {
            earlier
        }
    }
}

/// The exchanges of one venue, which are asked one after the other.
#[derive(Debug)]
pub struct VenueGroup {
    pub venue: Venue,
    pub exchanges: Vec<Exchange>,
}

/// Whether `groups` splits `exchanges` by venue: each group holds all exchanges
/// of its venue in order, no venue has two groups or an empty one, and every
/// exchange is in some group.
pub open spec fn splits_by_venue(groups: Seq<VenueGroup>, exchanges: Seq<Exchange>) -> bool {
    &&& forall|i: int|
        #![trigger groups[i]]
        0 <= i < groups.len() ==> groups[i].exchanges@ == run_by(exchanges, groups[i].venue)
            && groups[i].exchanges@.len() > 0
    &&& forall|i: int, j: int|
        #![trigger groups[i], groups[j]]
        0 <= i < j < groups.len() ==> groups[i].venue != groups[j].venue
    &&& forall|i: int|
        #![trigger exchanges[i]]
        0 <= i < exchanges.len() ==> exists|j: int|
            0 <= j < groups.len() && (#[trigger] groups[j]).venue == exchanges[i].spec_venue()
}

/// All exchanges, in the order of their table.
fn all_exchanges() -> (exchanges: Vec<Exchange>)
    ensures
        exchanges@.len() == EXCHANGES,
        forall|i: int| 0 <= i < EXCHANGES ==> (#[trigger] exchanges@[i]).spec_index() == i,
{
    let mut exchanges: Vec<Exchange> = Vec::new();
    let mut i: usize = 0;
    while i < EXCHANGES
        invariant
            i <= EXCHANGES,
            exchanges@.len() == i,
            forall|j: int| 0 <= j < i ==> (#[trigger] exchanges@[j]).spec_index() == j,
        decreases EXCHANGES - i,
    {
        exchanges.push(Exchange::from_index(i));
        i += 1;
    }
    exchanges
}

/// Whether `exchange` is in `exchanges`.
fn has_exchange(exchanges: &Vec<Exchange>, exchange: Exchange) -> (found: bool)
    ensures
        found == exchanges@.contains(exchange),
{
    let mut i: usize = 0;
    while i < exchanges.len()
        invariant
            i <= exchanges@.len(),
            forall|j: int| 0 <= j < i ==> exchanges@[j] != exchange,
        decreases exchanges@.len() - i,
    {
        if exchanges[i] == exchange {
            return true;
        }
        i += 1;
    }
    false
}

impl<'a> DiscoveryPlan<'a> {
    /// The venues whose adapters are needed.
    pub fn venues(&self) -> (venues: Vec<Venue>)
        ensures
            match self.mode {
                DiscoveryMode::AllExchanges => {
                    &&& venues@.len() == VENUES
                    &&& forall|i: int| 0 <= i < VENUES ==> (#[trigger] venues@[i]).spec_index() == i
                },
                DiscoveryMode::WhitelistOnly => venues@ == whitelist_venues(
                    crate::text::views(self.whitelist@),
                    self.whitelist@.len(),
                ),
            },
    {
        let mut venues: Vec<Venue> = Vec::new();
        let mut i: usize = 0;
        match self.mode {
            DiscoveryMode::AllExchanges => {
                while i < VENUES
                    invariant
                        i <= VENUES,
                        venues@.len() == i,
                        forall|j: int| 0 <= j < i ==> (#[trigger] venues@[j]).spec_index() == j,
                    decreases VENUES - i,
                {
                    venues.push(Venue::from_index(i));
                    i += 1;
                }
            },
            DiscoveryMode::WhitelistOnly => {
                let ghost templates = crate::text::views(self.whitelist@);
                while i < self.whitelist.len()
                    invariant
                        i <= self.whitelist@.len(),
                        templates == crate::text::views(self.whitelist@),
                        venues@ == whitelist_venues(templates, i as nat),
                    decreases self.whitelist@.len() - i,
                {
                    assert(templates[i as int].venue == self.whitelist@[i as int].venue@);
                    if let Some(venue) = Venue::parse(self.whitelist[i].venue.as_str()) {
                        venues.push(venue);
                    }
                    i += 1;
                }
            },
        }
        venues
    }

    /// The exchanges that are asked for metadata, each once.
    pub fn exchanges_to_fetch(&self) -> (exchanges: Vec<Exchange>)
        ensures
            match self.mode {
                DiscoveryMode::AllExchanges => {
                    &&& exchanges@.len() == EXCHANGES
                    &&& forall|i: int|
                        0 <= i < EXCHANGES ==> (#[trigger] exchanges@[i]).spec_index() == i
                },
                DiscoveryMode::WhitelistOnly => exchanges@ == first_exchanges(
                    whitelist_targets(
                        crate::text::views(self.whitelist@),
                        self.whitelist@.len(),
                    ),
                ),
            },
    {
        if self.mode == DiscoveryMode::AllExchanges {
            return all_exchanges();
        }
        let ghost templates = crate::text::views(self.whitelist@);
        let mut exchanges: Vec<Exchange> = Vec::new();
        let mut i: usize = 0;
        while i < self.whitelist.len()
            invariant
                i <= self.whitelist@.len(),
                templates == crate::text::views(self.whitelist@),
                exchanges@ == first_exchanges(whitelist_targets(templates, i as nat)),
            decreases self.whitelist@.len() - i,
        {
            let venue = &self.whitelist[i];
            let ghost earlier = whitelist_targets(templates, i as nat);
            assert(templates[i as int] == venue@);
            assert(earlier + venue_targets(venue@, 0) =~= earlier);
            let mut j: usize = 0;
            while j < venue.markets.len()
                invariant
                    j <= venue.markets@.len(),
                    exchanges@ == first_exchanges(earlier + venue_targets(venue@, j as nat)),
                decreases venue.markets@.len() - j,
            {
                let ghost so_far = earlier + venue_targets(venue@, j as nat);
                assert(venue@.markets[j as int].market == venue.markets@[j as int].market);
                let target = resolve_target(venue.venue.as_str(), venue.markets[j].market);
                if let Some(exchange) = target {
                    assert(earlier + venue_targets(venue@, j as nat).push(exchange)
                        =~= so_far.push(exchange));
                    assert(so_far.push(exchange).drop_last() =~= so_far);
                    if !has_exchange(&exchanges, exchange) {
                        exchanges.push(exchange);
                    }
                }
                j += 1;
            }
            i += 1;
        }
        exchanges
    }

    /// The exchanges that are asked for metadata, grouped by venue.
    pub fn exchange_groups(&self) -> (groups: Vec<VenueGroup>)
        ensures
            match self.mode {
                DiscoveryMode::AllExchanges => exists|exchanges: Seq<Exchange>|
                    {
                        &&& #[trigger] splits_by_venue(groups@, exchanges)
                        &&& exchanges.len() == EXCHANGES
                        &&& forall|i: int|
                            0 <= i < EXCHANGES ==> (#[trigger] exchanges[i]).spec_index() == i
                    },
                DiscoveryMode::WhitelistOnly => splits_by_venue(
                    groups@,
                    first_exchanges(
                        whitelist_targets(
                            crate::text::views(self.whitelist@),
                            self.whitelist@.len(),
                        ),
                    ),
                ),
            },
    {
        let exchanges = self.exchanges_to_fetch();
        group_by_venue(&exchanges)
    }
}

/// Split exchanges by venue.
pub fn group_by_venue(exchanges: &Vec<Exchange>) -> (groups: Vec<VenueGroup>)
    ensures
        splits_by_venue(groups@, exchanges@),
{
    let ghost all = exchanges@;
    let mut groups: Vec<VenueGroup> = Vec::new();
    let mut i: usize = 0;
    while i < exchanges.len()
        invariant
            i <= exchanges@.len(),
            all == exchanges@,
            splits_by_venue(groups@, all.take(i as int)),
        decreases exchanges@.len() - i,
    {
        let exchange = exchanges[i];
        let venue = exchange.venue();
        let ghost head = all.take(i as int);
        let ghost next = all.take(i as int + 1);
        assert(next.drop_last() =~= head);
        assert(next.last() == exchange);
        let ghost before = groups@;
        let mut at: usize = 0;
        while at < groups.len() && groups[at].venue != venue
            invariant
                at <= groups@.len(),
                groups@ == before,
                forall|j: int| 0 <= j < at ==> (#[trigger] before[j]).venue != venue,
            decreases groups@.len() - at,
        {
            at += 1;
        }
        if at < groups.len() {
            let mut members: Vec<Exchange> = Vec::new();
            std::mem::swap(&mut members, &mut groups[at].exchanges);
            members.push(exchange);
            groups[at].exchanges = members;
            assert(groups@[at as int].exchanges@ == run_by(next, venue));
            assert(groups@.len() == before.len());
            assert(forall|j: int|
                0 <= j < groups@.len() && j != at ==> #[trigger] groups@[j] == before[j]);
            assert(groups@[at as int].venue == venue);
        } else {
            assert(run_by(head, venue).len() == 0) by {
                lemma_nothing_run_by(head, before, venue);
            }
            let mut members: Vec<Exchange> = Vec::new();
            members.push(exchange);
            assert(members@ =~= run_by(next, venue));
            groups.push(VenueGroup { venue, exchanges: members });
            assert(groups@[at as int].venue == venue);
            assert(forall|j: int| 0 <= j < before.len() ==> #[trigger] groups@[j] == before[j]);
        }
        proof {
            assert forall|k: int|
                #![trigger next[k]]
                0 <= k < next.len() implies exists|j: int|
                0 <= j < groups@.len() && (#[trigger] groups@[j]).venue
                    == next[k].spec_venue() by {
                if k < i {
                    assert(head[k] == next[k]);
                    let j = choose|j: int|
                        0 <= j < before.len() && (#[trigger] before[j]).venue
                            == head[k].spec_venue();
                    assert(groups@[j].venue == next[k].spec_venue());
                } else {
                    assert(groups@[at as int].venue == next[k].spec_venue());
                }
            }
        }
        i += 1;
    }
    assert(all.take(i as int) =~= all);
    groups
}

/// A venue without a group runs none of the exchanges.
proof fn lemma_nothing_run_by(exchanges: Seq<Exchange>, groups: Seq<VenueGroup>, venue: Venue)
    requires
        forall|j: int| 0 <= j < groups.len() ==> (#[trigger] groups[j]).venue != venue,
        forall|i: int|
            #![trigger exchanges[i]]
            0 <= i < exchanges.len() ==> exists|j: int|
                0 <= j < groups.len() && (#[trigger] groups[j]).venue == exchanges[i].spec_venue(),
    ensures
        run_by(exchanges, venue).len() == 0,
    decreases exchanges.len(),
{
    if exchanges.len() > 0 {
        let shorter = exchanges.drop_last();
        assert forall|i: int|
            #![trigger shorter[i]]
            0 <= i < shorter.len() implies exists|j: int|
            0 <= j < groups.len() && (#[trigger] groups[j]).venue == shorter[i].spec_venue() by {
            assert(exchanges[i] == shorter[i]);
        }
        let last = exchanges[exchanges.len() - 1];
        assert(last.spec_venue() != venue);
        lemma_nothing_run_by(shorter, groups, venue);
    }
}

/// The symbols that one exchange lists.
#[derive(Debug)]
pub struct ExchangeSymbols {
    pub exchange: String,
    pub symbols: Vec<String>,
}

impl View for ExchangeSymbols {
    type V = (Seq<char>, Seq<Seq<char>>);

    open spec fn view(&self) -> (Seq<char>, Seq<Seq<char>>) {
        (self.exchange@, crate::text::views(self.symbols@))
    }
}

/// The shown symbol of each listing, in capital letters.
pub open spec fn shown_symbols(listed: Seq<TickerEntryView>) -> Seq<Seq<char>> {
    Seq::new(listed.len(), |i: int| crate::text::uppercase(listed[i].ticker.shown()))
}

impl MetadataCatalog {
    /// For each exchange its name and the symbols that it lists, in ascending
    /// order.
    pub fn tickers_per_exchange(&self) -> (all: Vec<ExchangeSymbols>)
        requires
            self.wf(),
        ensures
            all@.len() == self@.len(),
            forall|i: int|
                #![trigger all@[i]]
                0 <= i < all@.len() ==> {
                    &&& all@[i].exchange@ == self@[i].exchange.spec_name()
                    &&& crate::text::ascending(crate::text::views(all@[i].symbols@))
                    &&& crate::text::views(all@[i].symbols@).to_multiset() == shown_symbols(
                        self@[i].tickers,
                    ).to_multiset()
                },
    {
        let mut all: Vec<ExchangeSymbols> = Vec::new();
        let mut i: usize = 0;
        while i < self.exchanges.len()
            invariant
                i <= self.exchanges@.len(),
                self@.len() == self.exchanges@.len(),
                all@.len() == i,
                forall|k: int|
                    #![trigger all@[k]]
                    0 <= k < i ==> {
                        &&& all@[k].exchange@ == self@[k].exchange.spec_name()
                        &&& crate::text::ascending(crate::text::views(all@[k].symbols@))
                        &&& crate::text::views(all@[k].symbols@).to_multiset() == shown_symbols(
                            self@[k].tickers,
                        ).to_multiset()
                    },
            decreases self.exchanges@.len() - i,
        {
            let metadata = &self.exchanges[i];
            assert(self@[i as int] == metadata@);
            let mut symbols: Vec<String> = Vec::new();
            let mut j: usize = 0;
            while j < metadata.tickers.len()
                invariant
                    j <= metadata.tickers@.len(),
                    symbols@.len() == j,
                    forall|k: int|
                        0 <= k < j ==> (#[trigger] symbols@[k])@ == shown_symbols(
                            metadata@.tickers,
                        )[k],
                decreases metadata.tickers@.len() - j,
            {
                let shown = metadata.tickers[j].ticker.shown();
                symbols.push(to_uppercase(shown.as_str()));
                j += 1;
            }
            assert(crate::text::views(symbols@) =~= shown_symbols(metadata@.tickers));
            let sorted = crate::text::sorted_texts(symbols);
            all.push(ExchangeSymbols { exchange: metadata.exchange.name(), symbols: sorted });
            i += 1;
        }
        all
    }
}

/// No ticker of an exchange is followed twice.
pub proof fn law_pairs_are_distinct(picks: Seq<PickView>, i: int, j: int)
    requires
        0 <= i < j < first_picks(picks).len(),
    ensures
        !same_pick(first_picks(picks)[i], first_picks(picks)[j]),
    decreases picks.len(),
{
    let kept = first_picks(picks);
    if picks.len() > 0 {
        let earlier = first_picks(picks.drop_last());
        if already_picked(earlier, picks.last()) {
            law_pairs_are_distinct(picks.drop_last(), i, j);
        } else if j < earlier.len() {
            law_pairs_are_distinct(picks.drop_last(), i, j);
            assert(kept[i] == earlier[i] && kept[j] == earlier[j]);
        } else {
            assert(kept[i] == earlier[i] && kept[j] == picks.last());
        }
    }
}

/// Nothing that the templates yield is lost: every pick, or one for the same
/// ticker of the same exchange, is kept; and nothing else is.
pub proof fn law_no_pick_is_lost(picks: Seq<PickView>)
    ensures
        forall|i: int|
            0 <= i < picks.len() ==> already_picked(first_picks(picks), #[trigger] picks[i]),
        forall|i: int|
            0 <= i < first_picks(picks).len() ==> picks.contains(#[trigger] first_picks(picks)[i]),
    decreases picks.len(),
{
    if picks.len() > 0 {
        let shorter = picks.drop_last();
        let earlier = first_picks(shorter);
        let kept = first_picks(picks);
        law_no_pick_is_lost(shorter);
        assert forall|i: int| 0 <= i < picks.len() implies already_picked(
            kept,
            #[trigger] picks[i],
        ) by {
            if i < shorter.len() {
                assert(shorter[i] == picks[i]);
                let k = choose|k: int|
                    0 <= k < earlier.len() && #[trigger] same_pick(earlier[k], picks[i]);
                assert(kept[k] == earlier[k]);
                assert(same_pick(kept[k], picks[i]));
            } else if !already_picked(earlier, picks.last()) {
                assert(same_pick(kept[earlier.len() as int], picks[i]));
            }
        }
        assert forall|i: int| 0 <= i < kept.len() implies picks.contains(#[trigger] kept[i]) by {
            if i < earlier.len() {
                let k = choose|k: int| 0 <= k < shorter.len() && shorter[k] == earlier[i];
                assert(picks[k] == kept[i]);
            } else {
                assert(picks[picks.len() - 1] == kept[i]);
            }
        }
    }
}

proof fn lemma_wildcard_listed(
    base: Seq<char>,
    exchange: Exchange,
    listed: Seq<TickerEntryView>,
    i: int,
)
    requires
        0 <= i < wildcard_picks(base, exchange, listed).len(),
    ensures
        wildcard_picks(base, exchange, listed)[i].exchange == exchange,
        exists|k: int|
            0 <= k < listed.len() && (#[trigger] listed[k]).info == Some(
                wildcard_picks(base, exchange, listed)[i].info,
            ),
    decreases listed.len(),
{
    let shorter = listed.drop_last();
    let earlier = wildcard_picks(base, exchange, shorter);
    if i < earlier.len() {
        lemma_wildcard_listed(base, exchange, shorter, i);
        let k = choose|k: int|
            0 <= k < shorter.len() && (#[trigger] shorter[k]).info == Some(earlier[i].info);
        assert(listed[k] == shorter[k]);
    } else {
        assert(listed[listed.len() - 1].info is Some);
    }
}

proof fn lemma_exact_listed(listed: Seq<TickerEntryView>, ticker: crate::market::TickerView)
    requires
        exact_info(listed, ticker) is Some,
    ensures
        exists|k: int|
            0 <= k < listed.len() && (#[trigger] listed[k]).info == exact_info(listed, ticker),
    decreases listed.len(),
{
    if listed[0].ticker != ticker {
        let rest = listed.drop_first();
        lemma_exact_listed(rest, ticker);
        let k = choose|k: int|
            0 <= k < rest.len() && (#[trigger] rest[k]).info == exact_info(rest, ticker);
        assert(listed[k + 1] == rest[k]);
    }
}

proof fn lemma_folded_listed(listed: Seq<TickerEntryView>, name: Seq<char>)
    requires
        folded_info(listed, name) is Some,
    ensures
        exists|k: int|
            0 <= k < listed.len() && (#[trigger] listed[k]).info == folded_info(listed, name),
    decreases listed.len(),
{
    if !(listed[0].info is Some && goes_by(listed[0].ticker, name)) {
        let rest = listed.drop_first();
        lemma_folded_listed(rest, name);
        let k = choose|k: int|
            0 <= k < rest.len() && (#[trigger] rest[k]).info == folded_info(rest, name);
        assert(listed[k + 1] == rest[k]);
    }
}

/// Whether a pick is one of the listings of its exchange.
pub open spec fn pick_listed(pick: PickView, catalog: Seq<ExchangeMetadataView>) -> bool {
    match listings_of(catalog, pick.exchange) {
        Some(listed) => exists|k: int|
            0 <= k < listed.len() && (#[trigger] listed[k]).info == Some(pick.info),
        None => false,
    }
}

proof fn lemma_quotes_listed(
    base: Seq<char>,
    quotes: Seq<Seq<char>>,
    exchange: Exchange,
    catalog: Seq<ExchangeMetadataView>,
    i: int,
)
    requires
        listings_of(catalog, exchange) is Some,
        0 <= i < quotes_picks(base, quotes, exchange, listings_of(catalog, exchange)->0).len(),
    ensures
        pick_listed(
            quotes_picks(base, quotes, exchange, listings_of(catalog, exchange)->0)[i],
            catalog,
        ),
        quotes_picks(base, quotes, exchange, listings_of(catalog, exchange)->0)[i].exchange
            == exchange,
    decreases quotes.len(),
{
    let listed = listings_of(catalog, exchange)->0;
    let earlier = quotes_picks(base, quotes.drop_last(), exchange, listed);
    if i < earlier.len() {
        lemma_quotes_listed(base, quotes.drop_last(), exchange, catalog, i);
    } else {
        let quote = quotes.last();
        if quote.len() == 0 {
            lemma_wildcard_listed(base, exchange, listed, i - earlier.len());
        } else {
            let name = candidate(base, quote, exchange);
            let ticker = crate::market::TickerView {
                symbol: crate::market::until_nul(name),
                display: None,
                exchange,
            };
            if only_padded(name) && exact_info(listed, ticker) is Some {
                lemma_exact_listed(listed, ticker);
            } else {
                lemma_folded_listed(listed, name);
            }
        }
    }
}

proof fn lemma_markets_listed(
    base: Seq<char>,
    venue: Seq<char>,
    markets: Seq<crate::config::MarketTemplateView>,
    catalog: Seq<ExchangeMetadataView>,
    i: int,
)
    requires
        0 <= i < markets_picks(base, venue, markets, catalog).len(),
    ensures
        pick_listed(markets_picks(base, venue, markets, catalog)[i], catalog),
        exists|m: int|
            0 <= m < markets.len() && target_exchange(venue, (#[trigger] markets[m]).market)
                == Some(markets_picks(base, venue, markets, catalog)[i].exchange),
    decreases markets.len(),
{
    let shorter = markets.drop_last();
    let earlier = markets_picks(base, venue, shorter, catalog);
    if i < earlier.len() {
        lemma_markets_listed(base, venue, shorter, catalog, i);
        let m = choose|m: int|
            0 <= m < shorter.len() && target_exchange(venue, (#[trigger] shorter[m]).market)
                == Some(earlier[i].exchange);
        assert(markets[m] == shorter[m]);
    } else {
        let market = markets[markets.len() - 1];
        let exchange = target_exchange(venue, market.market)->0;
        lemma_quotes_listed(base, market.quotes, exchange, catalog, i - earlier.len());
        assert(target_exchange(venue, markets[markets.len() - 1].market) == Some(exchange));
    }
}

/// Whether some venue and market of the whitelist stand for `exchange`.
pub open spec fn whitelisted(
    whitelist: Seq<crate::config::VenueTemplateView>,
    exchange: Exchange,
) -> bool {
    exists|v: int, m: int|
        #![trigger whitelist[v].markets[m]]
        0 <= v < whitelist.len() && 0 <= m < whitelist[v].markets.len() && target_exchange(
            whitelist[v].venue,
            whitelist[v].markets[m].market,
        ) == Some(exchange)
}

proof fn lemma_base_listed(
    base: Seq<char>,
    whitelist: Seq<crate::config::VenueTemplateView>,
    catalog: Seq<ExchangeMetadataView>,
    i: int,
)
    requires
        0 <= i < base_picks(base, whitelist, catalog).len(),
    ensures
        pick_listed(base_picks(base, whitelist, catalog)[i], catalog),
        whitelisted(whitelist, base_picks(base, whitelist, catalog)[i].exchange),
    decreases whitelist.len(),
{
    let shorter = whitelist.drop_last();
    let earlier = base_picks(base, shorter, catalog);
    if i < earlier.len() {
        lemma_base_listed(base, shorter, catalog, i);
        let (v, m) = choose|v: int, m: int|
            #![trigger shorter[v].markets[m]]
            0 <= v < shorter.len() && 0 <= m < shorter[v].markets.len() && target_exchange(
                shorter[v].venue,
                shorter[v].markets[m].market,
            ) == Some(earlier[i].exchange);
        assert(whitelist[v] == shorter[v]);
        assert(whitelist[v].markets[m] == shorter[v].markets[m]);
    } else {
        let last = whitelist.len() - 1;
        let venue = whitelist[last];
        lemma_markets_listed(base, venue.venue, venue.markets, catalog, i - earlier.len());
        let pick = base_picks(base, whitelist, catalog)[i];
        let m = choose|m: int|
            0 <= m < venue.markets.len() && target_exchange(
                venue.venue,
                (#[trigger] venue.markets[m]).market,
            ) == Some(pick.exchange);
        assert(whitelist[last].markets[m] == venue.markets[m]);
    }
}

/// A pair is followed only if the whitelist names its exchange and that exchange
/// lists it.
pub proof fn law_pairs_are_whitelisted_and_listed(
    bases: Seq<Seq<char>>,
    whitelist: Seq<crate::config::VenueTemplateView>,
    catalog: Seq<ExchangeMetadataView>,
    i: int,
)
    requires
        0 <= i < all_picks(bases, whitelist, catalog).len(),
    ensures
        pick_listed(all_picks(bases, whitelist, catalog)[i], catalog),
        whitelisted(whitelist, all_picks(bases, whitelist, catalog)[i].exchange),
    decreases bases.len(),
{
    let earlier = all_picks(bases.drop_last(), whitelist, catalog);
    if i < earlier.len() {
        law_pairs_are_whitelisted_and_listed(bases.drop_last(), whitelist, catalog, i);
    } else {
        lemma_base_listed(
            crate::text::uppercase(bases.last()),
            whitelist,
            catalog,
            i - earlier.len(),
        );
    }
}

/// Without base assets, or without whitelist entries, no pair is followed.
pub proof fn law_both_sides_are_needed(
    bases: Seq<Seq<char>>,
    whitelist: Seq<crate::config::VenueTemplateView>,
    catalog: Seq<ExchangeMetadataView>,
)
    requires
        bases.len() == 0 || whitelist.len() == 0,
    ensures
        resolved_pairs(bases, whitelist, catalog).len() == 0,
    decreases bases.len(),
{
    if bases.len() > 0 {
        law_both_sides_are_needed(bases.drop_last(), whitelist, catalog);
        let empty = all_picks(bases.drop_last(), whitelist, catalog);
        law_no_pick_is_lost(empty);
        if empty.len() > 0 {
            assert(already_picked(first_picks(empty), empty[0]));
        }
        assert(all_picks(bases, whitelist, catalog) =~= Seq::<PickView>::empty());
    }
}

/// A wildcard takes in every listing of its base asset of which anything is
/// known.
pub proof fn law_wildcard_is_complete(
    base: Seq<char>,
    exchange: Exchange,
    listed: Seq<TickerEntryView>,
    i: int,
)
    requires
        0 <= i < listed.len(),
        listed[i].info is Some,
        has_base(listed[i].ticker, base, exchange),
    ensures
        wildcard_picks(base, exchange, listed).contains(
            PickView { exchange, ticker: listed[i].ticker, info: listed[i].info->0 },
        ),
    decreases listed.len(),
{
    let pick = PickView { exchange, ticker: listed[i].ticker, info: listed[i].info->0 };
    let shorter = listed.drop_last();
    let earlier = wildcard_picks(base, exchange, shorter);
    let all = wildcard_picks(base, exchange, listed);
    if i < shorter.len() {
        assert(shorter[i] == listed[i]);
        law_wildcard_is_complete(base, exchange, shorter, i);
        let k = choose|k: int| 0 <= k < earlier.len() && earlier[k] == pick;
        assert(all[k] == pick);
    } else {
        assert(all[earlier.len() as int] == pick);
    }
}

/// A wildcard takes in nothing but listings of its base asset.
pub proof fn law_wildcard_takes_no_other(
    base: Seq<char>,
    exchange: Exchange,
    listed: Seq<TickerEntryView>,
    i: int,
)
    requires
        0 <= i < wildcard_picks(base, exchange, listed).len(),
    ensures
        has_base(wildcard_picks(base, exchange, listed)[i].ticker, base, exchange),
        exists|k: int|
            0 <= k < listed.len() && (#[trigger] listed[k]).ticker == wildcard_picks(
                base,
                exchange,
                listed,
            )[i].ticker && listed[k].info == Some(wildcard_picks(base, exchange, listed)[i].info),
    decreases listed.len(),
{
    let shorter = listed.drop_last();
    let earlier = wildcard_picks(base, exchange, shorter);
    if i < earlier.len() {
        law_wildcard_takes_no_other(base, exchange, shorter, i);
        let k = choose|k: int|
            0 <= k < shorter.len() && (#[trigger] shorter[k]).ticker == earlier[i].ticker
                && shorter[k].info == Some(earlier[i].info);
        assert(listed[k] == shorter[k]);
    } else {
        assert(listed[listed.len() - 1].info is Some);
    }
}

/// Whether base and quote of a symbol can be told apart in one way only.
pub open spec fn read_one_way(text: Seq<char>, exchange: Exchange) -> bool {
    ||| exchange == Exchange::HyperliquidLinear
    ||| is_parted(text, exchange)
    ||| {
        let part = joined_part(text, exchange);
        &&& readable(part, exchange)
        &&& forall|j: int, k: int|
            #![trigger part.skip(j), part.skip(k)]
            0 < j <= part.len() && 0 < k <= part.len() && closes_symbol(part.skip(j), exchange)
                && closes_symbol(part.skip(k), exchange) ==> j == k
    }
}

/// A symbol that is read in one way is one of a single base asset: no other takes it in.
pub proof fn law_symbol_names_one_base(
    text: Seq<char>,
    a: Seq<char>,
    b: Seq<char>,
    exchange: Exchange,
)
    requires
        names_base(text, a, exchange),
        names_base(text, b, exchange),
        read_one_way(text, exchange),
        a.len() > 0,
        b.len() > 0,
    ensures
        a == b,
{
    if exchange == Exchange::HyperliquidLinear {
    } else if is_parted(text, exchange) {
        if a.len() < b.len() {
            assert(b[a.len() as int] == text[a.len() as int]);
        }
        if b.len() < a.len() {
            assert(a[b.len() as int] == text[b.len() as int]);
        }
        assert(a =~= b);
    } else {
        let part = joined_part(text, exchange);
        assert(closes_symbol(part.skip(a.len() as int), exchange));
        assert(closes_symbol(part.skip(b.len() as int), exchange));
        assert(a.len() == b.len());
        assert(a =~= b);
    }
}

/// Nothing that begins with the base is passed over but what is read as a symbol of
/// other bases: where no separator tells, it ends in a quote behind another base.
pub proof fn law_passed_over_has_another_base(
    text: Seq<char>,
    base: Seq<char>,
    exchange: Exchange,
) -> (other: Seq<char>)
    requires
        exchange != Exchange::HyperliquidLinear,
        !is_parted(text, exchange),
        base.is_prefix_of(joined_part(text, exchange)),
        !names_base(text, base, exchange),
    ensures
        other != base,
        other.len() > 0,
        names_base(text, other, exchange),
        closes_symbol(joined_part(text, exchange).skip(other.len() as int), exchange),
{
    let part = joined_part(text, exchange);
    let k = choose|k: int|
        0 < k <= part.len() && closes_symbol(#[trigger] part.skip(k), exchange);
    let other = part.take(k);
    assert(other.is_prefix_of(part)) by {
        assert(other =~= part.take(other.len() as int));
    }
    assert(part.skip(other.len() as int) == part.skip(k));
    other
}

proof fn lemma_pair_len(pair: Seq<char>, rest: Seq<char>)
    requires
        !pair.contains('_') && !pair.contains('-'),
        rest.len() == 0 || rest[0] == '_' || rest[0] == '-',
    ensures
        pair_len(pair + rest) == pair.len(),
        (pair + rest).take(pair.len() as int) == pair,
    decreases pair.len(),
{
    let text = pair + rest;
    if pair.len() > 0 {
        assert(pair[0] != '_' && pair[0] != '-');
        let shorter = pair.drop_first();
        assert forall|c: char| shorter.contains(c) implies pair.contains(c) by {
            let i = choose|i: int| 0 <= i < shorter.len() && shorter[i] == c;
            assert(pair[i + 1] == c);
        }
        lemma_pair_len(shorter, rest);
        assert(text.drop_first() =~= shorter + rest);
    }
    assert(text.take(pair.len() as int) =~= pair);
}

/// A wildcard finds what a quote would: the symbol that an exchange gives a base and a
/// quote is one of the base, regardless of the quote. Hyperliquid's spot symbols are
/// opaque and are found by what they show.
///
/// The base holds nothing that parts symbols. Where nothing parts base and quote, the
/// quote is a known one, or nothing at the end of the symbol is.
pub proof fn law_wildcard_covers_quotes(base: Seq<char>, quote: Seq<char>, exchange: Exchange)
    requires
        exchange != Exchange::HyperliquidSpot,
        separator_of(exchange) matches Some(separator) ==> !base.contains(separator),
        separator_of(exchange) is None && exchange != Exchange::HyperliquidLinear ==> {
            &&& !(base + quote).contains('_') && !(base + quote).contains('-')
            &&& closes_symbol(quote, exchange) || !readable(base + quote, exchange)
        },
    ensures
        names_base(ticker_text(base, quote, exchange), base, exchange),
{
    reveal_strlit("_PERP");
    reveal_strlit("_");
    reveal_strlit("-");
    reveal_strlit("-SWAP");
    let text = ticker_text(base, quote, exchange);
    let pair = base + quote;
    assert(base =~= text.take(base.len() as int));
    assert(base =~= pair.take(base.len() as int));
    assert(pair.skip(base.len() as int) =~= quote);
    if exchange != Exchange::HyperliquidLinear {
        match separator_of(exchange) {
            Some(separator) => {
                assert(text[base.len() as int] == separator);
            },
            None => {
                let rest = text.skip(pair.len() as int);
                assert(text =~= pair + rest);
                lemma_pair_len(pair, rest);
            },
        }
    }
}

/// A wildcard finds a ticker of Hyperliquid's spot market by what it shows: base and
/// quote parted by a `/`, whatever the quote, or with nothing between them, where the
/// quote is a known one or nothing at the end is.
pub proof fn law_wildcard_covers_shown_quotes(base: Seq<char>, quote: Seq<char>)
    requires
        !base.contains('/'),
    ensures
        shows_base(base + seq!['/'] + quote, base, Exchange::HyperliquidSpot),
        !quote.contains('/') && (quote_asset(quote) || !readable(
            base + quote,
            Exchange::HyperliquidSpot,
        )) ==> shows_base(base + quote, base, Exchange::HyperliquidSpot),
{
    let parted = base + seq!['/'] + quote;
    assert(parted[base.len() as int] == '/');
    assert(base =~= parted.take(base.len() as int));
    let joined = base + quote;
    assert(base =~= joined.take(base.len() as int));
    assert(joined.skip(base.len() as int) =~= quote);
    if joined.contains('/') {
        let i = choose|i: int| 0 <= i < joined.len() && joined[i] == '/';
        if i < base.len() {
            assert(base[i] == '/');
        } else {
            assert(quote[i - base.len()] == '/');
        }
    }
}

proof fn lemma_in_either(a: Seq<PickView>, b: Seq<PickView>, p: PickView)
    ensures
        (a + b).contains(p) <==> a.contains(p) || b.contains(p),
{
    let both = a + b;
    if a.contains(p) {
        let i = choose|i: int| 0 <= i < a.len() && a[i] == p;
        assert(both[i] == p);
    }
    if b.contains(p) {
        let i = choose|i: int| 0 <= i < b.len() && b[i] == p;
        assert(both[a.len() + i] == p);
    }
    if both.contains(p) {
        let i = choose|i: int| 0 <= i < both.len() && both[i] == p;
        if i < a.len() {
            assert(a[i] == p);
        } else {
            assert(b[i - a.len()] == p);
        }
    }
}

spec fn quote_yields(
    base: Seq<char>,
    quotes: Seq<Seq<char>>,
    exchange: Exchange,
    listed: Seq<TickerEntryView>,
    q: int,
    p: PickView,
) -> bool {
    0 <= q < quotes.len() && quote_picks(base, quotes[q], exchange, listed).contains(p)
}

proof fn lemma_quotes_yield(
    base: Seq<char>,
    quotes: Seq<Seq<char>>,
    exchange: Exchange,
    listed: Seq<TickerEntryView>,
    p: PickView,
)
    ensures
        quotes_picks(base, quotes, exchange, listed).contains(p) <==> exists|q: int|
            quote_yields(base, quotes, exchange, listed, q, p),
    decreases quotes.len(),
{
    if quotes.len() > 0 {
        let shorter = quotes.drop_last();
        let n = quotes.len() - 1;
        lemma_quotes_yield(base, shorter, exchange, listed, p);
        lemma_in_either(
            quotes_picks(base, shorter, exchange, listed),
            quote_picks(base, quotes.last(), exchange, listed),
            p,
        );
        if quote_picks(base, quotes.last(), exchange, listed).contains(p) {
            assert(quote_yields(base, quotes, exchange, listed, n, p));
        }
        if exists|q: int| quote_yields(base, shorter, exchange, listed, q, p) {
            let q = choose|q: int| quote_yields(base, shorter, exchange, listed, q, p);
            assert(quote_yields(base, quotes, exchange, listed, q, p));
        }
        if exists|q: int| quote_yields(base, quotes, exchange, listed, q, p) {
            let q = choose|q: int| quote_yields(base, quotes, exchange, listed, q, p);
            if q < n {
                assert(quote_yields(base, shorter, exchange, listed, q, p));
            }
        }
    }
}

spec fn market_yields(
    base: Seq<char>,
    venue: Seq<char>,
    markets: Seq<crate::config::MarketTemplateView>,
    catalog: Seq<ExchangeMetadataView>,
    m: int,
    p: PickView,
) -> bool {
    0 <= m < markets.len() && market_picks(base, venue, markets[m], catalog).contains(p)
}

proof fn lemma_markets_yield(
    base: Seq<char>,
    venue: Seq<char>,
    markets: Seq<crate::config::MarketTemplateView>,
    catalog: Seq<ExchangeMetadataView>,
    p: PickView,
)
    ensures
        markets_picks(base, venue, markets, catalog).contains(p) <==> exists|m: int|
            market_yields(base, venue, markets, catalog, m, p),
    decreases markets.len(),
{
    if markets.len() > 0 {
        let shorter = markets.drop_last();
        let n = markets.len() - 1;
        lemma_markets_yield(base, venue, shorter, catalog, p);
        lemma_in_either(
            markets_picks(base, venue, shorter, catalog),
            market_picks(base, venue, markets.last(), catalog),
            p,
        );
        if market_picks(base, venue, markets.last(), catalog).contains(p) {
            assert(market_yields(base, venue, markets, catalog, n, p));
        }
        if exists|m: int| market_yields(base, venue, shorter, catalog, m, p) {
            let m = choose|m: int| market_yields(base, venue, shorter, catalog, m, p);
            assert(market_yields(base, venue, markets, catalog, m, p));
        }
        if exists|m: int| market_yields(base, venue, markets, catalog, m, p) {
            let m = choose|m: int| market_yields(base, venue, markets, catalog, m, p);
            if m < n {
                assert(market_yields(base, venue, shorter, catalog, m, p));
            }
        }
    }
}

spec fn venue_yields(
    base: Seq<char>,
    whitelist: Seq<crate::config::VenueTemplateView>,
    catalog: Seq<ExchangeMetadataView>,
    v: int,
    p: PickView,
) -> bool {
    0 <= v < whitelist.len() && markets_picks(
        base,
        whitelist[v].venue,
        whitelist[v].markets,
        catalog,
    ).contains(p)
}

proof fn lemma_venues_yield(
    base: Seq<char>,
    whitelist: Seq<crate::config::VenueTemplateView>,
    catalog: Seq<ExchangeMetadataView>,
    p: PickView,
)
    ensures
        base_picks(base, whitelist, catalog).contains(p) <==> exists|v: int|
            venue_yields(base, whitelist, catalog, v, p),
    decreases whitelist.len(),
{
    if whitelist.len() > 0 {
        let shorter = whitelist.drop_last();
        let n = whitelist.len() - 1;
        lemma_venues_yield(base, shorter, catalog, p);
        lemma_in_either(
            base_picks(base, shorter, catalog),
            markets_picks(base, whitelist.last().venue, whitelist.last().markets, catalog),
            p,
        );
        if markets_picks(base, whitelist.last().venue, whitelist.last().markets, catalog).contains(
            p,
        ) {
            assert(venue_yields(base, whitelist, catalog, n, p));
        }
        if exists|v: int| venue_yields(base, shorter, catalog, v, p) {
            let v = choose|v: int| venue_yields(base, shorter, catalog, v, p);
            assert(venue_yields(base, whitelist, catalog, v, p));
        }
        if exists|v: int| venue_yields(base, whitelist, catalog, v, p) {
            let v = choose|v: int| venue_yields(base, whitelist, catalog, v, p);
            if v < n {
                assert(venue_yields(base, shorter, catalog, v, p));
            }
        }
    }
}

spec fn base_yields(
    bases: Seq<Seq<char>>,
    whitelist: Seq<crate::config::VenueTemplateView>,
    catalog: Seq<ExchangeMetadataView>,
    b: int,
    p: PickView,
) -> bool {
    0 <= b < bases.len() && base_picks(
        crate::text::uppercase(bases[b]),
        whitelist,
        catalog,
    ).contains(p)
}

proof fn lemma_bases_yield(
    bases: Seq<Seq<char>>,
    whitelist: Seq<crate::config::VenueTemplateView>,
    catalog: Seq<ExchangeMetadataView>,
    p: PickView,
)
    ensures
        all_picks(bases, whitelist, catalog).contains(p) <==> exists|b: int|
            base_yields(bases, whitelist, catalog, b, p),
    decreases bases.len(),
{
    if bases.len() > 0 {
        let shorter = bases.drop_last();
        let n = bases.len() - 1;
        lemma_bases_yield(shorter, whitelist, catalog, p);
        lemma_in_either(
            all_picks(shorter, whitelist, catalog),
            base_picks(crate::text::uppercase(bases.last()), whitelist, catalog),
            p,
        );
        if base_picks(crate::text::uppercase(bases.last()), whitelist, catalog).contains(p) {
            assert(base_yields(bases, whitelist, catalog, n, p));
        }
        if exists|b: int| base_yields(shorter, whitelist, catalog, b, p) {
            let b = choose|b: int| base_yields(shorter, whitelist, catalog, b, p);
            assert(base_yields(bases, whitelist, catalog, b, p));
        }
        if exists|b: int| base_yields(bases, whitelist, catalog, b, p) {
            let b = choose|b: int| base_yields(bases, whitelist, catalog, b, p);
            if b < n {
                assert(base_yields(shorter, whitelist, catalog, b, p));
            }
        }
    }
}

/// Whether base asset, venue, market and quote at these places ask for listing `k` of the
/// `x`-th exchange of the catalog: the whitelist names that exchange, and the listing is
/// the one that base and quote go by there or, for an empty quote, one of the base.
pub open spec fn asked_for(
    bases: Seq<Seq<char>>,
    whitelist: Seq<crate::config::VenueTemplateView>,
    catalog: Seq<ExchangeMetadataView>,
    b: int,
    v: int,
    m: int,
    q: int,
    x: int,
    k: int,
) -> bool {
    &&& 0 <= b < bases.len()
    &&& 0 <= v < whitelist.len()
    &&& 0 <= m < whitelist[v].markets.len()
    &&& 0 <= q < whitelist[v].markets[m].quotes.len()
    &&& 0 <= x < catalog.len()
    &&& 0 <= k < catalog[x].tickers.len()
    &&& Venue::spec_parse(whitelist[v].venue) matches Some(venue) && Exchange::spec_listed(
        venue,
        whitelist[v].markets[m].market.kind(),
    ) == Some(catalog[x].exchange)
    &&& catalog[x].tickers[k].info is Some
    &&& {
        let listed = catalog[x].tickers;
        let base = crate::text::uppercase(bases[b]);
        let quote = whitelist[v].markets[m].quotes[q];
        let name = ticker_text(
            crate::text::uppercase(base),
            crate::text::uppercase(quote),
            catalog[x].exchange,
        );
        if quote.len() == 0 {
            has_base(listed[k].ticker, base, catalog[x].exchange)
        } else {
            ||| is_ticker_named(listed[k].ticker, name, catalog[x].exchange)
            ||| goes_by(listed[k].ticker, name) && forall|j: int|
                0 <= j < listed.len() && j != k ==> !is_ticker_named(
                    (#[trigger] listed[j]).ticker,
                    name,
                    catalog[x].exchange,
                ) && !(j < k && listed[j].info is Some && goes_by(listed[j].ticker, name))
        }
    }
}

/// Whether a ticker is the one that `name` stands for on an exchange.
pub open spec fn is_ticker_named(
    ticker: crate::market::TickerView,
    name: Seq<char>,
    exchange: Exchange,
) -> bool {
    ticker.exchange == exchange && ticker.display is None && ticker.symbol == name
        && !name.contains('\0')
}

/// A catalog as exchanges give it: each exchange once, each ticker of an exchange once,
/// and what is known of a ticker is about that ticker.
pub open spec fn sound_catalog(catalog: Seq<ExchangeMetadataView>) -> bool {
    &&& distinct_exchanges(catalog)
    &&& forall|x: int, j: int, k: int|
        #![trigger catalog[x].tickers[j], catalog[x].tickers[k]]
        0 <= x < catalog.len() && 0 <= j < k < catalog[x].tickers.len()
            ==> catalog[x].tickers[j].ticker != catalog[x].tickers[k].ticker
    &&& forall|x: int, k: int|
        #![trigger catalog[x].tickers[k]]
        0 <= x < catalog.len() && 0 <= k < catalog[x].tickers.len() ==> (
        catalog[x].tickers[k].info matches Some(info) ==> info.ticker
            == catalog[x].tickers[k].ticker)
}

proof fn lemma_whole_name(name: Seq<char>)
    requires
        !name.contains('\0'),
    ensures
        crate::market::until_nul(name) == name,
        only_padded(name),
    decreases name.len(),
{
    if name.len() > 0 {
        assert(name[0] != '\0');
        let rest = name.drop_first();
        assert(!rest.contains('\0')) by {
            if rest.contains('\0') {
                let i = choose|i: int| 0 <= i < rest.len() && rest[i] == '\0';
                assert(name[i + 1] == '\0');
            }
        }
        lemma_whole_name(rest);
        assert(seq![name[0]] + rest =~= name);
    }
    assert(crate::market::until_nul(name) =~= name);
}

proof fn lemma_exact_at(
    listed: Seq<TickerEntryView>,
    ticker: crate::market::TickerView,
    k: int,
)
    requires
        0 <= k < listed.len(),
        listed[k].ticker == ticker,
        forall|j: int| 0 <= j < k ==> (#[trigger] listed[j]).ticker != ticker,
    ensures
        exact_info(listed, ticker) == listed[k].info,
    decreases listed.len(),
{
    if k > 0 {
        let rest = listed.drop_first();
        assert(rest[k - 1] == listed[k]);
        assert(listed[0].ticker != ticker);
        assert forall|j: int| 0 <= j < k - 1 implies (#[trigger] rest[j]).ticker != ticker by {
            assert(rest[j] == listed[j + 1]);
        }
        lemma_exact_at(rest, ticker, k - 1);
    }
}

proof fn lemma_exact_nowhere(listed: Seq<TickerEntryView>, ticker: crate::market::TickerView)
    requires
        forall|j: int| 0 <= j < listed.len() ==> (#[trigger] listed[j]).ticker != ticker,
    ensures
        exact_info(listed, ticker) is None,
    decreases listed.len(),
{
    if listed.len() > 0 {
        let rest = listed.drop_first();
        assert(listed[0].ticker != ticker);
        assert forall|j: int| 0 <= j < rest.len() implies (#[trigger] rest[j]).ticker
            != ticker by {
            assert(rest[j] == listed[j + 1]);
        }
        lemma_exact_nowhere(rest, ticker);
    }
}

proof fn lemma_folded_at(listed: Seq<TickerEntryView>, name: Seq<char>, k: int)
    requires
        0 <= k < listed.len(),
        listed[k].info is Some,
        goes_by(listed[k].ticker, name),
        forall|j: int|
            0 <= j < k ==> !((#[trigger] listed[j]).info is Some && goes_by(
                listed[j].ticker,
                name,
            )),
    ensures
        folded_info(listed, name) == listed[k].info,
    decreases listed.len(),
{
    if k > 0 {
        let rest = listed.drop_first();
        assert(rest[k - 1] == listed[k]);
        assert(!(listed[0].info is Some && goes_by(listed[0].ticker, name)));
        assert forall|j: int| 0 <= j < k - 1 implies !((#[trigger] rest[j]).info is Some
            && goes_by(rest[j].ticker, name)) by {
            assert(rest[j] == listed[j + 1]);
        }
        lemma_folded_at(rest, name, k - 1);
    }
}

proof fn lemma_named_is_ticker(
    ticker: crate::market::TickerView,
    name: Seq<char>,
    exchange: Exchange,
)
    requires
        !name.contains('\0'),
    ensures
        is_ticker_named(ticker, name, exchange) <==> ticker == (crate::market::TickerView {
            symbol: crate::market::until_nul(name),
            display: None,
            exchange,
        }),
{
    lemma_whole_name(name);
}

/// Nothing that is asked for is left out: whatever base asset, venue, market and quote
/// ask for a listing, what is known of it is among the pairs. So each base asset is
/// resolved, each venue, each market and each quote.
pub proof fn law_everything_asked_for_is_followed(
    plan: DiscoveryPlan,
    metadata: MetadataCatalog,
    pairs: Vec<TickerInfo>,
    b: int,
    v: int,
    m: int,
    q: int,
    x: int,
    k: int,
)
    requires
        metadata.wf(),
        plan_fits(
            crate::text::views(plan.base_assets@),
            crate::text::views(plan.whitelist@),
            metadata@,
        ),
        call_ensures(DiscoveryPlan::resolve_pairs, (&plan, &metadata), pairs),
        sound_catalog(metadata@),
        asked_for(
            crate::text::views(plan.base_assets@),
            crate::text::views(plan.whitelist@),
            metadata@,
            b,
            v,
            m,
            q,
            x,
            k,
        ),
        plan.whitelist@[v]@.markets[m].quotes[q].len() > 0 ==> !ticker_text(
            crate::text::uppercase(crate::text::uppercase(plan.base_assets@[b]@)),
            crate::text::uppercase(plan.whitelist@[v]@.markets[m].quotes[q]),
            metadata@[x].exchange,
        ).contains('\0'),
    ensures
        crate::text::views(pairs@).contains(metadata@[x].tickers[k].info->0),
{
    let bases = crate::text::views(plan.base_assets@);
    let whitelist = crate::text::views(plan.whitelist@);
    let catalog = metadata@;
    let listed = catalog[x].tickers;
    let exchange = catalog[x].exchange;
    let base = crate::text::uppercase(bases[b]);
    let market = whitelist[v].markets[m];
    let quote = market.quotes[q];
    let info = listed[k].info->0;
    let pick = PickView { exchange, ticker: listed[k].ticker, info };
    assert(catalog[x].tickers[k] == listed[k]);
    assert(info.ticker == listed[k].ticker);
    lemma_listing_at(catalog, x);
    assert(quote_picks(base, quote, exchange, listed).contains(pick)) by {
        if quote.len() == 0 {
            law_wildcard_is_complete(base, exchange, listed, k);
        } else {
            let name = candidate(base, quote, exchange);
            let ticker = crate::market::TickerView {
                symbol: crate::market::until_nul(name),
                display: None,
                exchange,
            };
            lemma_whole_name(name);
            lemma_named_is_ticker(listed[k].ticker, name, exchange);
            if is_ticker_named(listed[k].ticker, name, exchange) {
                assert forall|j: int| 0 <= j < k implies (#[trigger] listed[j]).ticker
                    != ticker by {
                    assert(catalog[x].tickers[j].ticker != catalog[x].tickers[k].ticker);
                }
                lemma_exact_at(listed, ticker, k);
            } else {
                assert forall|j: int| 0 <= j < listed.len() implies (#[trigger] listed[j]).ticker
                    != ticker by {
                    lemma_named_is_ticker(listed[j].ticker, name, exchange);
                }
                lemma_exact_nowhere(listed, ticker);
                lemma_folded_at(listed, name, k);
            }
            assert(quote_picks(base, quote, exchange, listed)[0] == pick);
        }
    }
    assert(quote_yields(base, market.quotes, exchange, listed, q, pick));
    lemma_quotes_yield(base, market.quotes, exchange, listed, pick);
    assert(market_yields(base, whitelist[v].venue, whitelist[v].markets, catalog, m, pick));
    lemma_markets_yield(base, whitelist[v].venue, whitelist[v].markets, catalog, pick);
    assert(venue_yields(base, whitelist, catalog, v, pick));
    lemma_venues_yield(base, whitelist, catalog, pick);
    assert(base_yields(bases, whitelist, catalog, b, pick));
    lemma_bases_yield(bases, whitelist, catalog, pick);
    lemma_picked_is_followed(bases, whitelist, catalog, pick, x, k);
}

/// The position of an exchange that has listings.
proof fn lemma_listing_place(catalog: Seq<ExchangeMetadataView>, exchange: Exchange) -> (x: int)
    requires
        listings_of(catalog, exchange) is Some,
    ensures
        0 <= x < catalog.len(),
        catalog[x].exchange == exchange,
        listings_of(catalog, exchange) == Some(catalog[x].tickers),
    decreases catalog.len(),
{
    if catalog.last().exchange == exchange {
        catalog.len() - 1
    } else {
        lemma_listing_place(catalog.drop_last(), exchange)
    }
}

/// Where a pick comes from.
proof fn lemma_pick_origin(
    bases: Seq<Seq<char>>,
    whitelist: Seq<crate::config::VenueTemplateView>,
    catalog: Seq<ExchangeMetadataView>,
    p: PickView,
) -> (at: (int, int, int, int, int, int))
    requires
        sound_catalog(catalog),
        all_picks(bases, whitelist, catalog).contains(p),
    ensures
        ({
            let (b, v, m, q, x, k) = at;
            &&& 0 <= b < bases.len()
            &&& 0 <= v < whitelist.len()
            &&& 0 <= m < whitelist[v].markets.len()
            &&& 0 <= q < whitelist[v].markets[m].quotes.len()
            &&& 0 <= x < catalog.len()
            &&& 0 <= k < catalog[x].tickers.len()
            &&& catalog[x].exchange == p.exchange
            &&& catalog[x].tickers[k].ticker == p.ticker
            &&& catalog[x].tickers[k].info == Some(p.info)
            &&& target_exchange(whitelist[v].venue, whitelist[v].markets[m].market) == Some(
                p.exchange,
            )
            &&& whitelist[v].markets[m].quotes[q].len() == 0 ==> has_base(
                p.ticker,
                crate::text::uppercase(bases[b]),
                p.exchange,
            )
            &&& whitelist[v].markets[m].quotes[q].len() > 0 ==> named_or_goes_by(
                p.ticker,
                candidate(
                    crate::text::uppercase(bases[b]),
                    whitelist[v].markets[m].quotes[q],
                    p.exchange,
                ),
                p.exchange,
            )
        }),
{
    lemma_bases_yield(bases, whitelist, catalog, p);
    let b = choose|b: int| base_yields(bases, whitelist, catalog, b, p);
    let base = crate::text::uppercase(bases[b]);
    lemma_venues_yield(base, whitelist, catalog, p);
    let v = choose|v: int| venue_yields(base, whitelist, catalog, v, p);
    let venue = whitelist[v].venue;
    let markets = whitelist[v].markets;
    lemma_markets_yield(base, venue, markets, catalog, p);
    let m = choose|m: int| market_yields(base, venue, markets, catalog, m, p);
    let market = markets[m];
    let exchange = target_exchange(venue, market.market)->0;
    let listed = listings_of(catalog, exchange)->0;
    let x = lemma_listing_place(catalog, exchange);
    lemma_quotes_yield(base, market.quotes, exchange, listed, p);
    let q = choose|q: int| quote_yields(base, market.quotes, exchange, listed, q, p);
    let quote = market.quotes[q];
    let found = quote_picks(base, quote, exchange, listed);
    let i = choose|i: int| 0 <= i < found.len() && found[i] == p;
    if quote.len() == 0 {
        law_wildcard_takes_no_other(base, exchange, listed, i);
        lemma_wildcard_listed(base, exchange, listed, i);
        let k = choose|k: int|
            0 <= k < listed.len() && (#[trigger] listed[k]).ticker == found[i].ticker
                && listed[k].info == Some(found[i].info);
        assert(catalog[x].tickers[k] == listed[k]);
        (b, v, m, q, x, k)
    } else {
        let name = candidate(base, quote, exchange);
        let ticker = crate::market::TickerView {
            symbol: crate::market::until_nul(name),
            display: None,
            exchange,
        };
        if only_padded(name) && exact_info(listed, ticker) is Some {
            let k = lemma_exact_place(listed, ticker);
            assert(catalog[x].tickers[k] == listed[k]);
            (b, v, m, q, x, k)
        } else {
            let k = lemma_folded_place(listed, name);
            assert(catalog[x].tickers[k] == listed[k]);
            (b, v, m, q, x, k)
        }
    }
}

proof fn lemma_exact_place(listed: Seq<TickerEntryView>, ticker: crate::market::TickerView) -> (k:
    int)
    requires
        exact_info(listed, ticker) is Some,
    ensures
        0 <= k < listed.len(),
        listed[k].ticker == ticker,
        listed[k].info == exact_info(listed, ticker),
    decreases listed.len(),
{
    if listed[0].ticker == ticker {
        0
    } else {
        let rest = listed.drop_first();
        let k = lemma_exact_place(rest, ticker);
        assert(listed[k + 1] == rest[k]);
        k + 1
    }
}

proof fn lemma_folded_place(listed: Seq<TickerEntryView>, name: Seq<char>) -> (k: int)
    requires
        folded_info(listed, name) is Some,
    ensures
        0 <= k < listed.len(),
        goes_by(listed[k].ticker, name),
        listed[k].info == folded_info(listed, name),
    decreases listed.len(),
{
    if listed[0].info is Some && goes_by(listed[0].ticker, name) {
        0
    } else {
        let rest = listed.drop_first();
        let k = lemma_folded_place(rest, name);
        assert(listed[k + 1] == rest[k]);
        k + 1
    }
}

/// Whether a ticker is the one that `name` stands for, up to its padding, or goes by it.
pub open spec fn named_or_goes_by(
    ticker: crate::market::TickerView,
    name: Seq<char>,
    exchange: Exchange,
) -> bool {
    ||| ticker.exchange == exchange && ticker.display is None && ticker.symbol
        == crate::market::until_nul(name)
    ||| goes_by(ticker, name)
}

proof fn lemma_picked_is_followed(
    bases: Seq<Seq<char>>,
    whitelist: Seq<crate::config::VenueTemplateView>,
    catalog: Seq<ExchangeMetadataView>,
    pick: PickView,
    x: int,
    k: int,
)
    requires
        sound_catalog(catalog),
        all_picks(bases, whitelist, catalog).contains(pick),
        0 <= x < catalog.len(),
        0 <= k < catalog[x].tickers.len(),
        catalog[x].exchange == pick.exchange,
        catalog[x].tickers[k].ticker == pick.ticker,
        catalog[x].tickers[k].info == Some(pick.info),
    ensures
        resolved_pairs(bases, whitelist, catalog).contains(pick.info),
{
    let picks = all_picks(bases, whitelist, catalog);
    let kept = first_picks(picks);
    law_no_pick_is_lost(picks);
    let n = choose|n: int| 0 <= n < picks.len() && picks[n] == pick;
    assert(already_picked(kept, picks[n]));
    let i = choose|i: int| 0 <= i < kept.len() && #[trigger] same_pick(kept[i], pick);
    assert(picks.contains(kept[i]));
    let (b, v, m, q, y, j) = lemma_pick_origin(bases, whitelist, catalog, kept[i]);
    assert(y == x) by {
        if y < x {
            assert(catalog[y].exchange != catalog[x].exchange);
        }
        if x < y {
            assert(catalog[x].exchange != catalog[y].exchange);
        }
    }
    assert(j == k) by {
        if j < k {
            assert(catalog[x].tickers[j].ticker != catalog[x].tickers[k].ticker);
        }
        if k < j {
            assert(catalog[x].tickers[k].ticker != catalog[x].tickers[j].ticker);
        }
    }
    assert(resolved_pairs(bases, whitelist, catalog)[i] == pick.info);
}

/// Nothing is followed that is not asked for: each pair is a listing of an exchange that
/// some venue and market of the whitelist name, and it goes by the name of some base asset
/// and a quote of that market there, or is one of the base asset where the quote is empty.
pub proof fn law_only_what_is_asked_for_is_followed(
    plan: DiscoveryPlan,
    metadata: MetadataCatalog,
    pairs: Vec<TickerInfo>,
    i: int,
) -> (at: (int, int, int, int, int, int))
    requires
        metadata.wf(),
        plan_fits(
            crate::text::views(plan.base_assets@),
            crate::text::views(plan.whitelist@),
            metadata@,
        ),
        call_ensures(DiscoveryPlan::resolve_pairs, (&plan, &metadata), pairs),
        sound_catalog(metadata@),
        0 <= i < pairs@.len(),
    ensures
        ({
            let (b, v, m, q, x, k) = at;
            let whitelist = crate::text::views(plan.whitelist@);
            let entry = metadata@[x].tickers[k];
            let quote = whitelist[v].markets[m].quotes[q];
            let base = crate::text::uppercase(plan.base_assets@[b]@);
            &&& 0 <= b < plan.base_assets@.len()
            &&& 0 <= v < whitelist.len()
            &&& 0 <= m < whitelist[v].markets.len()
            &&& 0 <= q < whitelist[v].markets[m].quotes.len()
            &&& 0 <= x < metadata@.len()
            &&& 0 <= k < metadata@[x].tickers.len()
            &&& entry.info == Some(pairs@[i]@)
            &&& Venue::spec_parse(whitelist[v].venue) matches Some(venue)
                && Exchange::spec_listed(venue, whitelist[v].markets[m].market.kind()) == Some(
                metadata@[x].exchange,
            )
            &&& quote.len() == 0 ==> has_base(entry.ticker, base, metadata@[x].exchange)
            &&& quote.len() > 0 ==> named_or_goes_by(
                entry.ticker,
                ticker_text(
                    crate::text::uppercase(base),
                    crate::text::uppercase(quote),
                    metadata@[x].exchange,
                ),
                metadata@[x].exchange,
            )
        }),
{
    let bases = crate::text::views(plan.base_assets@);
    let whitelist = crate::text::views(plan.whitelist@);
    let picks = all_picks(bases, whitelist, metadata@);
    let kept = first_picks(picks);
    law_no_pick_is_lost(picks);
    assert(crate::text::views(pairs@) == resolved_pairs(bases, whitelist, metadata@));
    assert(crate::text::views(pairs@).len() == kept.len());
    assert(crate::text::views(pairs@)[i] == pairs@[i]@);
    assert(resolved_pairs(bases, whitelist, metadata@)[i] == kept[i].info);
    assert(picks.contains(kept[i]));
    let at = lemma_pick_origin(bases, whitelist, metadata@, kept[i]);
    assert(bases[at.0] == plan.base_assets@[at.0]@);
    at
}

/// No pair is followed twice.
pub proof fn law_no_pair_is_followed_twice(
    plan: DiscoveryPlan,
    metadata: MetadataCatalog,
    pairs: Vec<TickerInfo>,
    i: int,
    j: int,
)
    requires
        metadata.wf(),
        plan_fits(
            crate::text::views(plan.base_assets@),
            crate::text::views(plan.whitelist@),
            metadata@,
        ),
        call_ensures(DiscoveryPlan::resolve_pairs, (&plan, &metadata), pairs),
        sound_catalog(metadata@),
        forall|x: int, k: int|
            #![trigger metadata@[x].tickers[k]]
            0 <= x < metadata@.len() && 0 <= k < metadata@[x].tickers.len()
                ==> metadata@[x].tickers[k].ticker.exchange == metadata@[x].exchange,
        0 <= i < j < pairs@.len(),
    ensures
        pairs@[i]@.ticker != pairs@[j]@.ticker,
{
    let bases = crate::text::views(plan.base_assets@);
    let whitelist = crate::text::views(plan.whitelist@);
    let picks = all_picks(bases, whitelist, metadata@);
    let kept = first_picks(picks);
    law_no_pick_is_lost(picks);
    assert(crate::text::views(pairs@) == resolved_pairs(bases, whitelist, metadata@));
    assert(crate::text::views(pairs@).len() == kept.len());
    law_pairs_are_distinct(picks, i, j);
    assert(crate::text::views(pairs@)[i] == pairs@[i]@);
    assert(crate::text::views(pairs@)[j] == pairs@[j]@);
    assert(resolved_pairs(bases, whitelist, metadata@)[i] == kept[i].info);
    assert(resolved_pairs(bases, whitelist, metadata@)[j] == kept[j].info);
    assert(picks.contains(kept[i]) && picks.contains(kept[j]));
    let a = lemma_pick_origin(bases, whitelist, metadata@, kept[i]);
    let c = lemma_pick_origin(bases, whitelist, metadata@, kept[j]);
    assert(metadata@[a.4].tickers[a.5].info is Some);
    assert(metadata@[c.4].tickers[c.5].info is Some);
    assert(!same_pick(kept[i], kept[j]));
}

/// A longer list of base assets is resolved into no less: what each base asset yields on
/// its own is among what the list yields.
pub proof fn law_each_base_asset_counts(
    one: DiscoveryPlan,
    all: DiscoveryPlan,
    metadata: MetadataCatalog,
    few: Vec<TickerInfo>,
    many: Vec<TickerInfo>,
    b: int,
    i: int,
)
    requires
        metadata.wf(),
        sound_catalog(metadata@),
        plan_fits(
            crate::text::views(all.base_assets@),
            crate::text::views(all.whitelist@),
            metadata@,
        ),
        plan_fits(
            crate::text::views(one.base_assets@),
            crate::text::views(one.whitelist@),
            metadata@,
        ),
        call_ensures(DiscoveryPlan::resolve_pairs, (&one, &metadata), few),
        call_ensures(DiscoveryPlan::resolve_pairs, (&all, &metadata), many),
        crate::text::views(one.whitelist@) == crate::text::views(all.whitelist@),
        0 <= b < all.base_assets@.len(),
        one.base_assets@.len() == 1,
        one.base_assets@[0]@ == all.base_assets@[b]@,
        0 <= i < few@.len(),
    ensures
        crate::text::views(many@).contains(few@[i]@),
{
    let whitelist = crate::text::views(all.whitelist@);
    let single = crate::text::views(one.base_assets@);
    let bases = crate::text::views(all.base_assets@);
    let picks = all_picks(single, whitelist, metadata@);
    let kept = first_picks(picks);
    law_no_pick_is_lost(picks);
    let p = kept[i];
    assert(crate::text::views(few@) == resolved_pairs(single, whitelist, metadata@));
    assert(crate::text::views(few@).len() == kept.len());
    assert(crate::text::views(few@)[i] == few@[i]@);
    assert(resolved_pairs(single, whitelist, metadata@)[i] == p.info);
    assert(picks.contains(p));
    let at = lemma_pick_origin(single, whitelist, metadata@, p);
    lemma_bases_yield(single, whitelist, metadata@, p);
    let c = choose|c: int| base_yields(single, whitelist, metadata@, c, p);
    assert(single[c] == bases[b]);
    assert(base_yields(bases, whitelist, metadata@, b, p));
    lemma_bases_yield(bases, whitelist, metadata@, p);
    lemma_picked_is_followed(bases, whitelist, metadata@, p, at.4, at.5);
}

/// A ticker is one of a base if its symbol says so or what it shows does.
pub proof fn law_symbol_or_display_names_the_base(
    ticker: Ticker,
    base: Seq<char>,
    exchange: Exchange,
)
    ensures
        names_base(crate::text::uppercase(ticker.symbol@), base, exchange) ==> has_base(
            ticker@,
            base,
            exchange,
        ),
        ticker.display matches Some(display) ==> shows_base(
            crate::text::uppercase(display@),
            base,
            exchange,
        ) ==> has_base(ticker@, base, exchange),
        has_base(ticker@, base, exchange) ==> names_base(
            crate::text::uppercase(ticker.symbol@),
            base,
            exchange,
        ) || ticker.display is Some,
{
}

/// The symbol of a base and a quote is the base, what the exchange puts between, the
/// quote, and what the exchange puts behind; Hyperliquid writes the base alone.
pub proof fn law_symbols_hold_base_and_quote(
    base: &str,
    quote: &str,
    exchange: Exchange,
    ticker: String,
)
    requires
        call_ensures(format_ticker, (base, quote, exchange), ticker),
    ensures
        ({
            let b = crate::text::uppercase(base@);
            let q = crate::text::uppercase(quote@);
            match exchange {
                Exchange::BinanceSpot
                | Exchange::BinanceLinear
                | Exchange::BybitSpot
                | Exchange::BybitLinear
                | Exchange::BybitInverse
                | Exchange::MexcSpot => ticker@ == b + q,
                Exchange::BinanceInverse => ticker@ == b + q + seq!['_', 'P', 'E', 'R', 'P'],
                Exchange::MexcLinear | Exchange::MexcInverse => ticker@ == b + seq!['_'] + q,
                Exchange::HyperliquidLinear | Exchange::HyperliquidSpot => ticker@ == b,
                Exchange::OkexSpot => ticker@ == b + seq!['-'] + q,
                Exchange::OkexLinear | Exchange::OkexInverse => ticker@ == b + seq!['-'] + q
                    + seq!['-', 'S', 'W', 'A', 'P'],
            }
        }),
{
    reveal_strlit("_PERP");
    reveal_strlit("_");
    reveal_strlit("-");
    reveal_strlit("-SWAP");
    assert("_PERP"@ =~= seq!['_', 'P', 'E', 'R', 'P']);
    assert("_"@ =~= seq!['_']);
    assert("-"@ =~= seq!['-']);
    assert("-SWAP"@ =~= seq!['-', 'S', 'W', 'A', 'P']);
}

/// What was recorded of an exchange is found for it, and what was known of the others is
/// still known. A request that failed forgets nothing.
pub proof fn law_recorded_listings_are_found(
    catalog: &mut MetadataCatalog,
    exchange: Exchange,
    fetched: Option<Vec<TickerEntry>>,
    other: Exchange,
)
    requires
        old(catalog).wf(),
        call_ensures(MetadataCatalog::record, (catalog, exchange, fetched), ()),
    ensures
        final(catalog).wf(),
        fetched matches Some(tickers) ==> listings_of(final(catalog)@, exchange) == Some(
            crate::text::views(tickers@),
        ),
        fetched is None || other != exchange ==> listings_of(final(catalog)@, other)
            == listings_of(old(catalog)@, other),
{
}

/// What is found for an exchange is what the catalog holds for it, and nothing is found
/// for an exchange that the catalog does not hold.
pub proof fn law_listings_are_looked_up(
    catalog: MetadataCatalog,
    exchange: Exchange,
    tickers: Option<&Vec<TickerEntry>>,
    x: int,
)
    requires
        catalog.wf(),
        call_ensures(MetadataCatalog::for_exchange, (&catalog, exchange), tickers),
    ensures
        0 <= x < catalog@.len() && catalog@[x].exchange == exchange ==> (tickers matches Some(
            entries,
        ) && crate::text::views(entries@) == catalog@[x].tickers),
        (forall|y: int| 0 <= y < catalog@.len() ==> (#[trigger] catalog@[y]).exchange != exchange)
            ==> tickers is None,
{
    if 0 <= x < catalog@.len() && catalog@[x].exchange == exchange {
        lemma_listing_at(catalog@, x);
    }
    if forall|y: int|
        0 <= y < catalog@.len() ==> (#[trigger] catalog@[y]).exchange != exchange {
        lemma_no_listing(catalog@, exchange);
    }
}

proof fn lemma_whitelist_venues(
    whitelist: Seq<crate::config::VenueTemplateView>,
    n: nat,
    venue: Venue,
)
    requires
        n <= whitelist.len(),
    ensures
        whitelist_venues(whitelist, n).contains(venue) <==> exists|v: int|
            0 <= v < n && Venue::spec_parse((#[trigger] whitelist[v]).venue) == Some(venue),
    decreases n,
{
    if n > 0 {
        let i = n - 1;
        let earlier = whitelist_venues(whitelist, i as nat);
        let all = whitelist_venues(whitelist, n);
        lemma_whitelist_venues(whitelist, i as nat, venue);
        if earlier.contains(venue) {
            let k = choose|k: int| 0 <= k < earlier.len() && earlier[k] == venue;
            assert(all[k] == venue);
        }
        if Venue::spec_parse(whitelist[i].venue) == Some(venue) {
            assert(all[earlier.len() as int] == venue);
        }
        if all.contains(venue) {
            let k = choose|k: int| 0 <= k < all.len() && all[k] == venue;
            if k < earlier.len() {
                assert(earlier[k] == venue);
            } else {
                assert(Venue::spec_parse(whitelist[i].venue) == Some(venue));
            }
        }
    }
}

/// Adapters are made for every venue where all exchanges are wanted, and else for the
/// venues that the whitelist names, and for no others.
pub proof fn law_adapters_cover_the_whitelist(
    plan: DiscoveryPlan,
    venues: Vec<Venue>,
    venue: Venue,
)
    requires
        call_ensures(DiscoveryPlan::venues, (&plan,), venues),
    ensures
        plan.mode is AllExchanges ==> venues@.contains(venue),
        plan.mode is WhitelistOnly ==> (venues@.contains(venue) <==> exists|v: int|
            0 <= v < plan.whitelist@.len() && Venue::spec_parse(
                (#[trigger] plan.whitelist@[v]).venue@,
            ) == Some(venue)),
{
    if plan.mode is AllExchanges {
        let i = venue.spec_index();
        assert(0 <= i < VENUES);
        assert(venues@[i as int].spec_index() == i);
        assert(venues@[i as int] == venue);
    } else {
        let whitelist = crate::text::views(plan.whitelist@);
        lemma_whitelist_venues(whitelist, whitelist.len(), venue);
        if exists|v: int|
            0 <= v < plan.whitelist@.len() && Venue::spec_parse(
                (#[trigger] plan.whitelist@[v]).venue@,
            ) == Some(venue) {
            let v = choose|v: int|
                0 <= v < plan.whitelist@.len() && Venue::spec_parse(
                    (#[trigger] plan.whitelist@[v]).venue@,
                ) == Some(venue);
            assert(whitelist[v].venue == plan.whitelist@[v].venue@);
        }
        if exists|v: int|
            0 <= v < whitelist.len() && Venue::spec_parse((#[trigger] whitelist[v]).venue)
                == Some(venue) {
            let v = choose|v: int|
                0 <= v < whitelist.len() && Venue::spec_parse((#[trigger] whitelist[v]).venue)
                    == Some(venue);
            assert(whitelist[v].venue == plan.whitelist@[v].venue@);
        }
    }
}

proof fn lemma_first_exchanges(targets: Seq<Exchange>)
    ensures
        first_exchanges(targets).no_duplicates(),
        forall|e: Exchange| #[trigger]
            first_exchanges(targets).contains(e) <==> targets.contains(e),
    decreases targets.len(),
{
    if targets.len() > 0 {
        let shorter = targets.drop_last();
        let earlier = first_exchanges(shorter);
        let all = first_exchanges(targets);
        lemma_first_exchanges(shorter);
        assert(targets =~= shorter.push(targets.last()));
        assert forall|e: Exchange| #[trigger] all.contains(e) <==> targets.contains(e) by {
            if targets.contains(e) {
                let i = choose|i: int| 0 <= i < targets.len() && targets[i] == e;
                if i < shorter.len() {
                    assert(shorter[i] == e);
                    assert(earlier.contains(e));
                    let k = choose|k: int| 0 <= k < earlier.len() && earlier[k] == e;
                    assert(all[k] == e);
                } else if earlier.contains(e) {
                    let k = choose|k: int| 0 <= k < earlier.len() && earlier[k] == e;
                    assert(all[k] == e);
                } else {
                    assert(all[earlier.len() as int] == e);
                }
            }
            if all.contains(e) {
                let k = choose|k: int| 0 <= k < all.len() && all[k] == e;
                if k < earlier.len() {
                    assert(earlier[k] == e);
                    assert(earlier.contains(e));
                    let i = choose|i: int| 0 <= i < shorter.len() && shorter[i] == e;
                    assert(targets[i] == e);
                } else {
                    assert(targets[targets.len() - 1] == e);
                }
            }
        }
    }
}

proof fn lemma_venue_targets(venue: crate::config::VenueTemplateView, n: nat, e: Exchange)
    requires
        n <= venue.markets.len(),
    ensures
        venue_targets(venue, n).contains(e) <==> exists|m: int|
            0 <= m < n && target_exchange(venue.venue, (#[trigger] venue.markets[m]).market)
                == Some(e),
    decreases n,
{
    if n > 0 {
        let i = n - 1;
        let earlier = venue_targets(venue, i as nat);
        let all = venue_targets(venue, n);
        lemma_venue_targets(venue, i as nat, e);
        if earlier.contains(e) {
            let k = choose|k: int| 0 <= k < earlier.len() && earlier[k] == e;
            assert(all[k] == e);
        }
        if target_exchange(venue.venue, venue.markets[i].market) == Some(e) {
            assert(all[earlier.len() as int] == e);
        }
        if all.contains(e) {
            let k = choose|k: int| 0 <= k < all.len() && all[k] == e;
            if k < earlier.len() {
                assert(earlier[k] == e);
            } else {
                assert(target_exchange(venue.venue, venue.markets[i].market) == Some(e));
            }
        }
    }
}

spec fn venue_asks(
    whitelist: Seq<crate::config::VenueTemplateView>,
    v: int,
    e: Exchange,
) -> bool {
    venue_targets(whitelist[v], whitelist[v].markets.len()).contains(e)
}

proof fn lemma_whitelist_targets(
    whitelist: Seq<crate::config::VenueTemplateView>,
    n: nat,
    e: Exchange,
)
    requires
        n <= whitelist.len(),
    ensures
        whitelist_targets(whitelist, n).contains(e) <==> exists|v: int|
            0 <= v < n && venue_asks(whitelist, v, e),
    decreases n,
{
    if n > 0 {
        let i = n - 1;
        let earlier = whitelist_targets(whitelist, i as nat);
        let last = venue_targets(whitelist[i], whitelist[i].markets.len());
        let all = whitelist_targets(whitelist, n);
        lemma_whitelist_targets(whitelist, i as nat, e);
        assert(all == earlier + last);
        if earlier.contains(e) {
            let k = choose|k: int| 0 <= k < earlier.len() && earlier[k] == e;
            assert(all[k] == e);
        }
        if last.contains(e) {
            let k = choose|k: int| 0 <= k < last.len() && last[k] == e;
            assert(all[earlier.len() + k] == e);
            assert(venue_asks(whitelist, i, e));
        }
        if all.contains(e) {
            let k = choose|k: int| 0 <= k < all.len() && all[k] == e;
            if k < earlier.len() {
                assert(earlier[k] == e);
            } else {
                assert(last[k - earlier.len()] == e);
                assert(venue_asks(whitelist, i, e));
            }
        }
    }
}

/// Metadata is asked of every exchange where all are wanted, and else of those that the
/// whitelist names, and of no others; of each once.
pub proof fn law_metadata_is_asked_of_the_whitelist(
    plan: DiscoveryPlan,
    exchanges: Vec<Exchange>,
    exchange: Exchange,
)
    requires
        call_ensures(DiscoveryPlan::exchanges_to_fetch, (&plan,), exchanges),
    ensures
        exchanges@.no_duplicates(),
        plan.mode is AllExchanges ==> exchanges@.contains(exchange),
        plan.mode is WhitelistOnly ==> (exchanges@.contains(exchange) <==> exists|v: int, m: int|
            #![trigger crate::text::views(plan.whitelist@)[v].markets[m]]
            0 <= v < plan.whitelist@.len() && 0 <= m < crate::text::views(
                plan.whitelist@,
            )[v].markets.len() && (Venue::spec_parse(plan.whitelist@[v].venue@) matches Some(
                venue,
            ) && Exchange::spec_listed(
                venue,
                crate::text::views(plan.whitelist@)[v].markets[m].market.kind(),
            ) == Some(exchange))),
{
    if plan.mode is AllExchanges {
        let i = exchange.spec_index();
        assert(0 <= i < EXCHANGES);
        assert(exchanges@[i as int].spec_index() == i);
        assert(exchanges@[i as int] == exchange);
        assert forall|a: int, b: int|
            0 <= a < b < exchanges@.len() implies exchanges@[a] != exchanges@[b] by {
            assert(exchanges@[a].spec_index() == a && exchanges@[b].spec_index() == b);
        }
    } else {
        let whitelist = crate::text::views(plan.whitelist@);
        let targets = whitelist_targets(whitelist, whitelist.len());
        lemma_first_exchanges(targets);
        lemma_whitelist_targets(whitelist, whitelist.len(), exchange);
        if exchanges@.contains(exchange) {
            let v = choose|v: int|
                0 <= v < whitelist.len() && venue_asks(whitelist, v, exchange);
            lemma_venue_targets(whitelist[v], whitelist[v].markets.len(), exchange);
            let m = choose|m: int|
                0 <= m < whitelist[v].markets.len() && target_exchange(
                    whitelist[v].venue,
                    (#[trigger] whitelist[v].markets[m]).market,
                ) == Some(exchange);
            assert(whitelist[v].venue == plan.whitelist@[v].venue@);
            assert(whitelist[v].markets[m] == whitelist[v].markets[m]);
        }
        assert forall|v: int, m: int|
            #![trigger whitelist[v].markets[m]]
            0 <= v < whitelist.len() && 0 <= m < whitelist[v].markets.len() && (
            Venue::spec_parse(plan.whitelist@[v].venue@) matches Some(venue)
                && Exchange::spec_listed(venue, whitelist[v].markets[m].market.kind()) == Some(
                exchange,
            )) implies exchanges@.contains(exchange) by {
            assert(whitelist[v].venue == plan.whitelist@[v].venue@);
            lemma_venue_targets(whitelist[v], whitelist[v].markets.len(), exchange);
            assert(target_exchange(whitelist[v].venue, whitelist[v].markets[m].market) == Some(
                exchange,
            ));
            assert(venue_asks(whitelist, v, exchange));
        }
    }
}

proof fn lemma_run_by_is_filter(exchanges: Seq<Exchange>, venue: Venue)
    ensures
        run_by(exchanges, venue) == exchanges.filter(|e: Exchange| e.spec_venue() == venue),
    decreases exchanges.len(),
{
    reveal(Seq::filter);
    if exchanges.len() > 0 {
        lemma_run_by_is_filter(exchanges.drop_last(), venue);
    }
}

/// Grouping by venue loses no exchange: each group holds the exchanges of its venue, in
/// order, no venue has two groups, and the venue of each exchange has one.
pub proof fn law_groups_hold_the_exchanges_of_their_venue(
    exchanges: Vec<Exchange>,
    groups: Vec<VenueGroup>,
)
    requires
        call_ensures(group_by_venue, (&exchanges,), groups),
    ensures
        forall|i: int|
            0 <= i < groups@.len() ==> (#[trigger] groups@[i]).exchanges@
                == exchanges@.filter(|e: Exchange| e.spec_venue() == groups@[i].venue)
                && groups@[i].exchanges@.len() > 0,
        forall|i: int, j: int|
            #![trigger groups@[i], groups@[j]]
            0 <= i < j < groups@.len() ==> groups@[i].venue != groups@[j].venue,
        forall|k: int|
            0 <= k < exchanges@.len() ==> exists|j: int|
                0 <= j < groups@.len() && (#[trigger] groups@[j]).venue == (
                #[trigger] exchanges@[k]).spec_venue(),
{
    assert forall|i: int| 0 <= i < groups@.len() implies (#[trigger] groups@[i]).exchanges@
        == exchanges@.filter(|e: Exchange| e.spec_venue() == groups@[i].venue)
        && groups@[i].exchanges@.len() > 0 by {
        lemma_run_by_is_filter(exchanges@, groups@[i].venue);
    }
}

/// The reply to `/exchanges` is made of the names of the exchanges and, for each, of the
/// symbols that its listings show, in capital letters and ascending order: as many as
/// there are listings, and each of them.
pub proof fn law_exchanges_list_what_they_show(
    catalog: MetadataCatalog,
    all: Vec<ExchangeSymbols>,
    x: int,
    k: int,
)
    requires
        catalog.wf(),
        call_ensures(MetadataCatalog::tickers_per_exchange, (&catalog,), all),
        0 <= x < catalog@.len(),
    ensures
        all@.len() == catalog@.len(),
        all@[x].exchange@ == catalog@[x].exchange.spec_name(),
        all@[x].symbols@.len() == catalog@[x].tickers.len(),
        crate::text::ascending(crate::text::views(all@[x].symbols@)),
        0 <= k < catalog@[x].tickers.len() ==> crate::text::views(
            all@[x].symbols@,
        ).to_multiset().count(
            crate::text::uppercase(
                match catalog@[x].tickers[k].ticker.display {
                    Some(display) => display,
                    None => catalog@[x].tickers[k].ticker.symbol,
                },
            ),
        ) > 0,
{
    let symbols = crate::text::views(all@[x].symbols@);
    let shown = shown_symbols(catalog@[x].tickers);
    assert(symbols.to_multiset() == shown.to_multiset());
    symbols.to_multiset_ensures();
    shown.to_multiset_ensures();
    assert(symbols.len() == shown.len());
    if 0 <= k < catalog@[x].tickers.len() {
        assert(shown.contains(shown[k]));
        assert(shown.to_multiset().count(shown[k]) > 0);
    }
}

/// A ticker goes by a name if its symbol or what it shows is that name, but for the case
/// of ASCII letters, and by no other.
pub proof fn law_names_ignore_only_case(ticker: Ticker, name: Seq<char>)
    ensures
        goes_by(ticker@, name) <==> same_name(ticker.symbol@, name) || (
        ticker.display matches Some(display) && same_name(display@, name)),
{
    lemma_same_name(ticker.symbol@, name);
    if let Some(display) = ticker.display {
        lemma_same_name(display@, name);
    }
}

/// Whether two names are the same but for the case of ASCII letters.
pub open spec fn same_name(a: Seq<char>, b: Seq<char>) -> bool {
    a.len() == b.len() && forall|i: int|
        0 <= i < a.len() ==> crate::text::same_letter(#[trigger] a[i], b[i])
}

proof fn lemma_same_name(a: Seq<char>, b: Seq<char>)
    ensures
        same_name(a, b) <==> crate::text::ascii_folded(a) == crate::text::ascii_folded(b),
{
    let left = crate::text::ascii_folded(a);
    let right = crate::text::ascii_folded(b);
    assert(left.len() == a.len() && right.len() == b.len());
    if left == right {
        assert forall|i: int| 0 <= i < a.len() implies crate::text::same_letter(
            #[trigger] a[i],
            b[i],
        ) by {
            assert(left[i] == right[i]);
            crate::text::lemma_same_letter(a[i], b[i]);
        }
    }
    if same_name(a, b) {
        assert forall|i: int| 0 <= i < left.len() implies left[i] == right[i] by {
            assert(crate::text::same_letter(a[i], b[i]));
            crate::text::lemma_same_letter(a[i], b[i]);
        }
        assert(left =~= right);
    }
}

/// A text can be a ticker if and only if it takes twenty-eight bytes at most and holds no
/// `|`.
pub proof fn law_tickers_fit_their_bytes(symbol: &str, fits: bool)
    requires
        call_ensures(is_ticker_text, (symbol,), fits),
    ensures
        fits <==> encode_utf8(symbol@).len() <= 28 && forall|i: int|
            0 <= i < symbol@.len() ==> #[trigger] symbol@[i] != '|',
{
    if symbol@.contains('|') {
        let i = choose|i: int| 0 <= i < symbol@.len() && symbol@[i] == '|';
        assert(symbol@[i] == '|');
    }
}

/// Whether base asset, venue, market and quote at these places look for a ticker on an
/// exchange of the catalog that cannot be one.
pub open spec fn looks_for_no_ticker(
    bases: Seq<Seq<char>>,
    whitelist: Seq<crate::config::VenueTemplateView>,
    catalog: Seq<ExchangeMetadataView>,
    b: int,
    v: int,
    m: int,
    q: int,
    x: int,
) -> bool {
    &&& 0 <= b < bases.len()
    &&& 0 <= v < whitelist.len()
    &&& 0 <= m < whitelist[v].markets.len()
    &&& 0 <= q < whitelist[v].markets[m].quotes.len()
    &&& 0 <= x < catalog.len()
    &&& Venue::spec_parse(whitelist[v].venue) matches Some(venue) && Exchange::spec_listed(
        venue,
        whitelist[v].markets[m].market.kind(),
    ) == Some(catalog[x].exchange)
    &&& whitelist[v].markets[m].quotes[q].len() > 0
    &&& {
        let name = ticker_text(
            crate::text::uppercase(crate::text::uppercase(bases[b])),
            crate::text::uppercase(whitelist[v].markets[m].quotes[q]),
            catalog[x].exchange,
        );
        encode_utf8(name).len() > 28 || name.contains('|')
    }
}

/// A plan can be resolved as long as it looks for no ticker that cannot be one, and cannot
/// where it does. What is resolved is then the same, however it is asked for.
pub proof fn law_plans_resolve_unless_a_ticker_cannot_be(
    plan: DiscoveryPlan,
    metadata: MetadataCatalog,
    fits: bool,
    tried: Option<Vec<TickerInfo>>,
    pairs: Vec<TickerInfo>,
)
    requires
        metadata.wf(),
        call_ensures(DiscoveryPlan::fits, (&plan, &metadata), fits),
        call_ensures(DiscoveryPlan::try_resolve_pairs, (&plan, &metadata), tried),
        call_ensures(DiscoveryPlan::resolve_pairs, (&plan, &metadata), pairs),
    ensures
        tried is Some <==> fits,
        !fits <==> exists|b: int, v: int, m: int, q: int, x: int|
            looks_for_no_ticker(
                crate::text::views(plan.base_assets@),
                crate::text::views(plan.whitelist@),
                metadata@,
                b,
                v,
                m,
                q,
                x,
            ),
        tried matches Some(found) ==> crate::text::views(found@) == crate::text::views(pairs@),
{
    let bases = crate::text::views(plan.base_assets@);
    let whitelist = crate::text::views(plan.whitelist@);
    let catalog = metadata@;
    if !fits {
        let b = choose|b: int|
            0 <= b < bases.len() && !base_fits(
                crate::text::uppercase(#[trigger] bases[b]),
                whitelist,
                catalog,
            );
        let base = crate::text::uppercase(bases[b]);
        let v = choose|v: int|
            0 <= v < whitelist.len() && !venue_fits(base, #[trigger] whitelist[v], catalog);
        let m = choose|m: int|
            0 <= m < whitelist[v].markets.len() && !market_fits(
                base,
                whitelist[v].venue,
                #[trigger] whitelist[v].markets[m],
                catalog,
            );
        let market = whitelist[v].markets[m];
        let exchange = target_exchange(whitelist[v].venue, market.market)->0;
        let q = choose|q: int|
            0 <= q < market.quotes.len() && !quote_fits(
                base,
                #[trigger] market.quotes[q],
                exchange,
            );
        if forall|x: int| 0 <= x < catalog.len() ==> (#[trigger] catalog[x]).exchange != exchange {
            lemma_no_listing(catalog, exchange);
        }
        let x = choose|x: int|
            0 <= x < catalog.len() && (#[trigger] catalog[x]).exchange == exchange;
        assert(looks_for_no_ticker(bases, whitelist, catalog, b, v, m, q, x));
    }
    if exists|b: int, v: int, m: int, q: int, x: int|
        looks_for_no_ticker(bases, whitelist, catalog, b, v, m, q, x) {
        let (b, v, m, q, x) = choose|b: int, v: int, m: int, q: int, x: int|
            looks_for_no_ticker(bases, whitelist, catalog, b, v, m, q, x);
        let base = crate::text::uppercase(bases[b]);
        lemma_listing_at(catalog, x);
        assert(!quote_fits(base, whitelist[v].markets[m].quotes[q], catalog[x].exchange));
        assert(!market_fits(base, whitelist[v].venue, whitelist[v].markets[m], catalog));
        assert(!venue_fits(base, whitelist[v], catalog));
        assert(!base_fits(base, whitelist, catalog));
    }
}

/// Where a separator parts base and quote, a symbol is one of what stands before the
/// first: `_` in the perpetuals of MEXC, `-` on OKX and `/` in what Hyperliquid shows of
/// its spot market. A perpetual of Hyperliquid is one of the base that it is named by.
pub proof fn law_separators_end_the_base(
    symbol: &str,
    base: &str,
    owner: Seq<char>,
    rest: Seq<char>,
    exchange: Exchange,
    named: bool,
    shown: bool,
)
    requires
        call_ensures(symbol_names_base, (symbol, base, exchange), named),
        call_ensures(display_shows_base, (symbol, base, exchange), shown),
    ensures
        (exchange is MexcLinear || exchange is MexcInverse) && symbol@ == owner + seq!['_'] + rest
            && !owner.contains('_') ==> (named <==> base@ == owner),
        (exchange is OkexSpot || exchange is OkexLinear || exchange is OkexInverse) && symbol@
            == owner + seq!['-'] + rest && !owner.contains('-') ==> (named <==> base@ == owner),
        exchange is HyperliquidSpot && symbol@ == owner + seq!['/'] + rest && !owner.contains('/')
            ==> (named <==> base@ == owner),
        exchange is HyperliquidLinear ==> (named <==> symbol@ == base@) && !shown,
        !(exchange is HyperliquidLinear) && symbol@ == owner + seq!['/'] + rest && !owner.contains(
            '/',
        ) ==> (shown <==> base@ == owner),
{
    lemma_parted(symbol@, base@, owner, rest, '_');
    lemma_parted(symbol@, base@, owner, rest, '-');
    lemma_parted(symbol@, base@, owner, rest, '/');
}

proof fn lemma_parted(
    text: Seq<char>,
    base: Seq<char>,
    owner: Seq<char>,
    rest: Seq<char>,
    separator: char,
)
    ensures
        text == owner + seq![separator] + rest && !owner.contains(separator) ==> text.contains(
            separator,
        ) && (parted_from(text, base, separator) <==> base == owner),
{
    if text == owner + seq![separator] + rest && !owner.contains(separator) {
        assert(text[owner.len() as int] == separator);
        if parted_from(text, base, separator) {
            if base.len() < owner.len() {
                assert(text[base.len() as int] == owner[base.len() as int]);
                assert(owner.contains(separator));
            }
            if owner.len() < base.len() {
                assert(base[owner.len() as int] == text[owner.len() as int]);
                assert(base.contains(separator));
            }
            assert(base =~= owner) by {
                assert(text.subrange(0, base.len() as int) == base);
                assert(text.subrange(0, owner.len() as int) =~= owner);
            }
        }
        if base == owner {
            assert(text.subrange(0, base.len() as int) =~= base);
        }
    }
}

/// Where nothing parts base and quote, what is followed by a dollar, a stablecoin or
/// another coin that is traded against is found for its base, whatever the base.
pub proof fn law_common_quotes_are_known(
    symbol: &str,
    base: &str,
    quote: Seq<char>,
    exchange: Exchange,
    named: bool,
)
    requires
        call_ensures(symbol_names_base, (symbol, base, exchange), named),
        exchange is BinanceSpot || exchange is BinanceLinear || exchange is BybitSpot
            || exchange is BybitLinear || exchange is MexcSpot,
        symbol@ == base@ + quote,
        !base@.contains('_') && !base@.contains('-'),
        quote == "USDT"@ || quote == "USDC"@ || quote == "USD"@ || quote == "FDUSD"@ || quote
            == "DAI"@ || quote == "EUR"@ || quote == "BTC"@ || quote == "ETH"@ || quote == "BNB"@,
    ensures
        named,
{
    reveal_strlit("USDT");
    reveal_strlit("USDC");
    reveal_strlit("USD");
    reveal_strlit("FDUSD");
    reveal_strlit("DAI");
    reveal_strlit("EUR");
    reveal_strlit("BTC");
    reveal_strlit("ETH");
    reveal_strlit("BNB");
    let pair = base@ + quote;
    assert forall|c: char| c == '_' || c == '-' implies !pair.contains(c) by {
        if pair.contains(c) {
            let i = choose|i: int| 0 <= i < pair.len() && pair[i] == c;
            if i < base@.len() {
                assert(base@[i] == c);
                assert(base@.contains(c));
            } else {
                assert(quote[i - base@.len()] == c);
            }
        }
    }
    let none = Seq::<char>::empty();
    lemma_pair_len(pair, none);
    assert(pair + none =~= pair);
    let text = symbol@;
    assert(text =~= pair);
    assert(joined_part(text, exchange) =~= pair);
    assert(pair.skip(base@.len() as int) =~= quote);
    assert(pair.subrange(0, base@.len() as int) =~= base@);
}

/// Every exchange that there is is asked for metadata in one mode, and each that the
/// whitelist names in the other: it stands in the group of its venue.
pub proof fn law_all_exchanges_are_asked_for(
    plan: DiscoveryPlan,
    groups: Vec<VenueGroup>,
    exchange: Exchange,
)
    requires
        call_ensures(DiscoveryPlan::exchange_groups, (&plan,), groups),
        plan.mode is AllExchanges,
    ensures
        exists|g: int|
            0 <= g < groups@.len() && (#[trigger] groups@[g]).venue == exchange.spec_venue()
                && groups@[g].exchanges@.contains(exchange),
{
    let all = choose|exchanges: Seq<Exchange>|
        {
            &&& #[trigger] splits_by_venue(groups@, exchanges)
            &&& exchanges.len() == EXCHANGES
            &&& forall|i: int|
                0 <= i < EXCHANGES ==> (#[trigger] exchanges[i]).spec_index() == i
        };
    let k = exchange.spec_index();
    assert(all[k].spec_index() == k);
    assert(all[k] == exchange);
    let g = choose|g: int|
        0 <= g < groups@.len() && (#[trigger] groups@[g]).venue == all[k].spec_venue();
    lemma_run_by_is_filter(all, groups@[g].venue);
    all.lemma_filter_contains(|e: Exchange| e.spec_venue() == groups@[g].venue, k);
    assert(groups@[g].exchanges@.contains(exchange));
}

/// A plan is made of what it was given, and a new catalog knows of no exchange.
pub proof fn law_plans_hold_what_they_were_given<'a>(
    base_assets: &'a Vec<String>,
    mode: DiscoveryMode,
    whitelist: &'a WhitelistTemplates,
    plan: DiscoveryPlan<'a>,
    catalog: MetadataCatalog,
)
    requires
        call_ensures(DiscoveryPlan::new, (base_assets, mode, whitelist), plan),
        call_ensures(MetadataCatalog::new, (), catalog),
    ensures
        plan.base_assets == base_assets,
        plan.mode == mode,
        plan.whitelist == whitelist,
        catalog@.len() == 0,
{
}

proof fn lemma_first_picks_extend(a: Seq<PickView>, b: Seq<PickView>)
    ensures
        first_picks(a).len() <= first_picks(a + b).len(),
        first_picks(a + b).take(first_picks(a).len() as int) == first_picks(a),
    decreases b.len(),
{
    if b.len() == 0 {
        assert(a + b =~= a);
        assert(first_picks(a).take(first_picks(a).len() as int) =~= first_picks(a));
    } else {
        let shorter = a + b.drop_last();
        assert((a + b).drop_last() =~= shorter);
        lemma_first_picks_extend(a, b.drop_last());
        let n = first_picks(a).len() as int;
        let more = first_picks(a + b);
        assert(more.take(n) =~= first_picks(shorter).take(n));
    }
}

proof fn lemma_all_picks_extend(
    bases: Seq<Seq<char>>,
    whitelist: Seq<crate::config::VenueTemplateView>,
    catalog: Seq<ExchangeMetadataView>,
    n: int,
)
    requires
        0 <= n <= bases.len(),
    ensures
        ({
            let some = all_picks(bases.take(n), whitelist, catalog);
            let all = all_picks(bases, whitelist, catalog);
            some.len() <= all.len() && all == some + all.skip(some.len() as int)
        }),
    decreases bases.len(),
{
    let some = all_picks(bases.take(n), whitelist, catalog);
    let all = all_picks(bases, whitelist, catalog);
    if n == bases.len() {
        assert(bases.take(n) =~= bases);
        assert(all =~= some + all.skip(some.len() as int));
    } else {
        let shorter = bases.drop_last();
        lemma_all_picks_extend(shorter, whitelist, catalog, n);
        assert(shorter.take(n) =~= bases.take(n));
        assert(all =~= some + all.skip(some.len() as int));
    }
}

/// Base assets are resolved one after the other, in their order: those that come first
/// yield the first pairs, and more base assets only add pairs behind them.
pub proof fn law_base_assets_are_resolved_in_order(
    fewer: DiscoveryPlan,
    more: DiscoveryPlan,
    metadata: MetadataCatalog,
    first: Vec<TickerInfo>,
    pairs: Vec<TickerInfo>,
    i: int,
)
    requires
        metadata.wf(),
        call_ensures(DiscoveryPlan::resolve_pairs, (&fewer, &metadata), first),
        call_ensures(DiscoveryPlan::resolve_pairs, (&more, &metadata), pairs),
        crate::text::views(fewer.whitelist@) == crate::text::views(more.whitelist@),
        crate::text::views(fewer.base_assets@).is_prefix_of(
            crate::text::views(more.base_assets@),
        ),
    ensures
        first@.len() <= pairs@.len(),
        0 <= i < first@.len() ==> first@[i]@ == pairs@[i]@,
{
    let bases = crate::text::views(more.base_assets@);
    let whitelist = crate::text::views(more.whitelist@);
    let n = crate::text::views(fewer.base_assets@).len() as int;
    assert(bases.take(n) =~= crate::text::views(fewer.base_assets@));
    lemma_all_picks_extend(bases, whitelist, metadata@, n);
    let some = all_picks(bases.take(n), whitelist, metadata@);
    let all = all_picks(bases, whitelist, metadata@);
    lemma_first_picks_extend(some, all.skip(some.len() as int));
    let kept = first_picks(some);
    let kept_all = first_picks(all);
    assert(crate::text::views(first@) == resolved_pairs(bases.take(n), whitelist, metadata@));
    assert(crate::text::views(pairs@) == resolved_pairs(bases, whitelist, metadata@));
    assert(crate::text::views(first@).len() == kept.len());
    assert(crate::text::views(pairs@).len() == kept_all.len());
    if 0 <= i < first@.len() {
        assert(kept_all.take(kept.len() as int)[i] == kept_all[i]);
        assert(crate::text::views(first@)[i] == kept[i].info);
        assert(crate::text::views(pairs@)[i] == kept_all[i].info);
        assert(crate::text::views(first@)[i] == first@[i]@);
        assert(crate::text::views(pairs@)[i] == pairs@[i]@);
    }
}

/// Eight venues are asked for metadata at a time, so that all of them are asked at once.
pub proof fn law_all_venues_are_asked_at_once()
    ensures
        METADATA_FETCH_CONCURRENCY == 8,
        METADATA_FETCH_CONCURRENCY >= VENUES,
{
}

/// Listings are seen with all that they hold.
pub proof fn law_listings_are_seen_whole(
    entry: TickerEntry,
    metadata: ExchangeMetadata,
    symbols: ExchangeSymbols,
    i: int,
)
    ensures
        entry@.ticker == entry.ticker@,
        entry@.info is Some <==> entry.info is Some,
        entry@.info is Some ==> entry@.info->0 == entry.info->0@,
        metadata@.exchange == metadata.exchange,
        metadata@.tickers.len() == metadata.tickers@.len(),
        0 <= i < metadata.tickers@.len() ==> metadata@.tickers[i] == metadata.tickers@[i]@,
        symbols@.0 == symbols.exchange@,
        symbols@.1.len() == symbols.symbols@.len(),
        0 <= i < symbols.symbols@.len() ==> symbols@.1[i] == symbols.symbols@[i]@,
{
}

} // verus!
