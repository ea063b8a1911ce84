//! Exchanges, tickers and trades as plain values.
//!
//! Names and listings come from `flowsurface_exchange`. Its enums cross the
//! boundary by their position in its `ALL` tables.

use vstd::prelude::*;
use vstd::string::*;
use vstd::utf8::*;

use crate::text::{chars_of, clone_option, text_eq};

verus! {

/// A company that runs markets.
#[derive(Debug, Clone, Copy, PartialEq, Eq, Hash, Structural)]
pub enum Venue {
    Bybit,
    Binance,
    Hyperliquid,
    Okex,
    Mexc,
}

/// The kind of a market.
#[derive(Debug, Clone, Copy, PartialEq, Eq, Hash, Structural)]
pub enum MarketKind {
    Spot,
    LinearPerps,
    InversePerps,
}

/// A market of a venue.
#[derive(Debug, Clone, Copy, PartialEq, Eq, Hash, Structural)]
pub enum Exchange {
    BinanceLinear,
    BinanceInverse,
    BinanceSpot,
    BybitLinear,
    BybitInverse,
    BybitSpot,
    HyperliquidLinear,
    HyperliquidSpot,
    OkexLinear,
    OkexInverse,
    OkexSpot,
    MexcLinear,
    MexcInverse,
    MexcSpot,
}

/// Number of venues.
pub const VENUES: usize = 5;

/// Number of market kinds.
pub const MARKETS: usize = 3;

/// Number of exchanges.
pub const EXCHANGES: usize = 14;

/// The name of the venue at a position of the venue table.
pub open spec fn venue_name_at(index: int) -> Seq<char> {
    if index == 0 {
        "Bybit"@
    } else if index == 1 {
        "Binance"@
    } else if index == 2 {
        "Hyperliquid"@
    } else if index == 3 {
        "OKX"@
    } else {
        "MEXC"@
    }
}

/// The name of the market kind at a position of the market table.
pub open spec fn market_name_at(index: int) -> Seq<char> {
    if index == 0 {
        "Spot"@
    } else if index == 1 {
        "Linear"@
    } else {
        "Inverse"@
    }
}

/// The venue, by position, of the exchange at a position.
pub open spec fn venue_of_at(exchange: int) -> int {
    if exchange <= 2 {
        1
    } else if exchange <= 5 {
        0
    } else if exchange <= 7 {
        2
    } else if exchange <= 10 {
        3
    } else {
        4
    }
}

/// The market kind, by position, of the exchange at a position.
pub open spec fn market_of_at(exchange: int) -> int {
    if exchange == 2 || exchange == 5 || exchange == 7 || exchange == 10 || exchange == 13 {
        0
    } else if exchange == 1 || exchange == 4 || exchange == 9 || exchange == 12 {
        2
    } else {
        1
    }
}

/// The position of the venue that `s` names, whatever the case of its ASCII
/// letters. OKX also goes by its former name.
pub open spec fn venue_position(s: Seq<char>) -> Option<int> {
    let folded = crate::text::ascii_folded(s);
    if folded == crate::text::ascii_folded("bybit"@) {
        Some(0)
    } else if folded == crate::text::ascii_folded("binance"@) {
        Some(1)
    } else if folded == crate::text::ascii_folded("hyperliquid"@) {
        Some(2)
    } else if folded == crate::text::ascii_folded("okx"@) || folded == crate::text::ascii_folded("okex"@) {
        Some(3)
    } else if folded == crate::text::ascii_folded("mexc"@) {
        Some(4)
    } else {
        None
    }
}

/// The position of the market kind that `s` names, whatever the case of its
/// ASCII letters.
pub open spec fn market_position(s: Seq<char>) -> Option<int> {
    let folded = crate::text::ascii_folded(s);
    if folded == crate::text::ascii_folded("spot"@) {
        Some(0)
    } else if folded == crate::text::ascii_folded("linear"@) {
        Some(1)
    } else if folded == crate::text::ascii_folded("inverse"@) {
        Some(2)
    } else {
        None
    }
}

/// Calls `Exchange::venue` of `flowsurface_exchange`, which looks the exchange
/// up in a fixed table: three Binance markets come first, then three of Bybit,
/// two of Hyperliquid, three of OKX and three of MEXC.
#[verifier::external_body]
fn adapter_venue(exchange: usize) -> (venue: usize)
    requires
        exchange < EXCHANGES,
    ensures
        venue == venue_of_at(exchange as int),
{
    flowsurface_exchange::adapter::Exchange::ALL[exchange].venue() as usize
}

/// Calls `Exchange::market_type` of `flowsurface_exchange`, which looks the
/// exchange up in a fixed table.
#[verifier::external_body]
fn adapter_market(exchange: usize) -> (market: usize)
    requires
        exchange < EXCHANGES,
    ensures
        market == market_of_at(exchange as int),
{
    flowsurface_exchange::adapter::Exchange::ALL[exchange].market_type() as usize
}

/// Calls `Exchange::from_venue_and_market` of `flowsurface_exchange`, which
/// finds the exchange of that venue and market, if the venue has that market.
#[verifier::external_body]
fn adapter_listing(venue: usize, market: usize) -> (exchange: Option<usize>)
    requires
        venue < VENUES,
        market < MARKETS,
    ensures
        match exchange {
            Some(i) => i < EXCHANGES && venue_of_at(i as int) == venue && market_of_at(i as int)
                == market,
            None => forall|i: int|
                0 <= i < EXCHANGES ==> !(#[trigger] venue_of_at(i) == venue && market_of_at(i)
                    == market),
        },
{
    flowsurface_exchange::adapter::Exchange::from_venue_and_market(
        flowsurface_exchange::adapter::Venue::ALL[venue],
        flowsurface_exchange::adapter::MarketKind::ALL[market],
    )
    .map(|exchange| exchange as usize)
}

/// Calls the `Display` of `flowsurface_exchange`'s `Exchange`: the name of the
/// venue, a blank, and the name of the market kind.
#[verifier::external_body]
fn adapter_exchange_name(exchange: usize) -> (name: String)
    requires
        exchange < EXCHANGES,
    ensures
        name@ == venue_name_at(venue_of_at(exchange as int)) + " "@ + market_name_at(
            market_of_at(exchange as int),
        ),
{
    flowsurface_exchange::adapter::Exchange::ALL[exchange].to_string()
}

/// Calls the `Display` of `flowsurface_exchange`'s `Venue`.
#[verifier::external_body]
fn adapter_venue_name(venue: usize) -> (name: String)
    requires
        venue < VENUES,
    ensures
        name@ == venue_name_at(venue as int),
{
    flowsurface_exchange::adapter::Venue::ALL[venue].to_string()
}

/// Calls the `FromStr` of `flowsurface_exchange`'s `Venue`, which compares with
/// the known names, ignoring ASCII case.
#[verifier::external_body]
fn adapter_parse_venue(s: &str) -> (venue: Option<usize>)
    ensures
        match venue {
            Some(i) => i < VENUES && venue_position(s@) == Some(i as int),
            None => venue_position(s@) is None,
        },
{
    s.parse::<flowsurface_exchange::adapter::Venue>().ok().map(|venue| venue as usize)
}

/// Calls the `FromStr` of `flowsurface_exchange`'s `MarketKind`, which compares
/// with the known names, ignoring ASCII case.
#[verifier::external_body]
fn adapter_parse_market(s: &str) -> (market: Option<usize>)
    ensures
        match market {
            Some(i) => i < MARKETS && market_position(s@) == Some(i as int),
            None => market_position(s@) is None,
        },
{
    s.parse::<flowsurface_exchange::adapter::MarketKind>().ok().map(|market| market as usize)
}

/// The positions of the venue and market kind that `s` names: two words.
pub open spec fn exchange_words(s: Seq<char>) -> Option<(int, int)> {
    let parts = crate::text::words(s);
    if parts.len() == 2 {
        match (venue_position(parts[0]), market_position(parts[1])) {
            (Some(venue), Some(market)) => Some((venue, market)),
            _ => None,
        }
    } else {
        None
    }
}

/// Calls the `FromStr` of `flowsurface_exchange`'s `Exchange`, which splits the
/// text at white space, takes the first word for a venue and the second for a
/// market kind, and refuses a third.
#[verifier::external_body]
fn adapter_parse_exchange(s: &str) -> (exchange: Option<usize>)
    ensures
        match exchange {
            Some(i) => i < EXCHANGES && exchange_words(s@) == Some(
                (venue_of_at(i as int), market_of_at(i as int)),
            ),
            None => match exchange_words(s@) {
                Some((venue, market)) => forall|i: int|
                    0 <= i < EXCHANGES ==> !(#[trigger] venue_of_at(i) == venue && market_of_at(i)
                        == market),
                None => true,
            },
        },
{
    s.parse::<flowsurface_exchange::adapter::Exchange>().ok().map(|exchange| exchange as usize)
}

impl Venue {
    /// Position in the table of all.
    pub open spec fn spec_index(self) -> int {
        match self {
            Venue::Bybit => 0,
            Venue::Binance => 1,
            Venue::Hyperliquid => 2,
            Venue::Okex => 3,
            Venue::Mexc => 4,
        }
    }

    /// Position in the table of all.
    pub fn index(self) -> (index: usize)
        ensures
            index == self.spec_index(),
            index < VENUES,
    {
        match self {
            Venue::Bybit => 0,
            Venue::Binance => 1,
            Venue::Hyperliquid => 2,
            Venue::Okex => 3,
            Venue::Mexc => 4,
        }
    }

    /// The one at a position of the table of all.
    pub fn from_index(index: usize) -> (item: Venue)
        requires
            index < VENUES,
        ensures
            item.spec_index() == index,
    {
        match index {
            0 => Venue::Bybit,
            1 => Venue::Binance,
            2 => Venue::Hyperliquid,
            3 => Venue::Okex,
            _ => Venue::Mexc,
        }
    }

    /// The name shown to people.
    pub open spec fn spec_name(self) -> Seq<char> {
        venue_name_at(self.spec_index())
    }

    /// The venue that `s` names, whatever the case of its ASCII letters.
    pub open spec fn spec_parse(s: Seq<char>) -> Option<Venue> {
        match venue_position(s) {
            None => None,
            Some(i) => Some(if i == 0 {
                Venue::Bybit
            } else if i == 1 {
                Venue::Binance
            } else if i == 2 {
                Venue::Hyperliquid
            } else if i == 3 {
                Venue::Okex
            } else {
                Venue::Mexc
            }),
        }
    }

    /// The name shown to people.
    pub fn name(self) -> (name: String)
        ensures
            name@ == self.spec_name(),
    {
        adapter_venue_name(self.index())
    }

    /// The venue that `s` names, if any.
    pub fn parse(s: &str) -> (venue: Option<Venue>)
        ensures
            venue == Venue::spec_parse(s@),
    {
        match adapter_parse_venue(s) {
            Some(i) => Some(Venue::from_index(i)),
            None => None,
        }
    }
}

impl MarketKind {
    /// Position in the table of all.
    pub open spec fn spec_index(self) -> int {
        match self {
            MarketKind::Spot => 0,
            MarketKind::LinearPerps => 1,
            MarketKind::InversePerps => 2,
        }
    }

    /// Position in the table of all.
    pub fn index(self) -> (index: usize)
        ensures
            index == self.spec_index(),
            index < MARKETS,
    {
        match self {
            MarketKind::Spot => 0,
            MarketKind::LinearPerps => 1,
            MarketKind::InversePerps => 2,
        }
    }

    /// The one at a position of the table of all.
    pub fn from_index(index: usize) -> (item: MarketKind)
        requires
            index < MARKETS,
        ensures
            item.spec_index() == index,
    {
        match index {
            0 => MarketKind::Spot,
            1 => MarketKind::LinearPerps,
            _ => MarketKind::InversePerps,
        }
    }

    /// The name shown to people.
    pub open spec fn spec_name(self) -> Seq<char> {
        market_name_at(self.spec_index())
    }

    /// The market kind that `s` names, whatever the case of its ASCII letters.
    pub open spec fn spec_parse(s: Seq<char>) -> Option<MarketKind> {
        match market_position(s) {
            None => None,
            Some(i) => Some(if i == 0 {
                MarketKind::Spot
            } else if i == 1 {
                MarketKind::LinearPerps
            } else {
                MarketKind::InversePerps
            }),
        }
    }

    /// The market kind that `s` names, if any.
    pub fn parse(s: &str) -> (market: Option<MarketKind>)
        ensures
            market == MarketKind::spec_parse(s@),
    {
        match adapter_parse_market(s) {
            Some(i) => Some(MarketKind::from_index(i)),
            None => None,
        }
    }
}

impl Exchange {
    /// Position in the table of all.
    pub open spec fn spec_index(self) -> int {
        match self {
            Exchange::BinanceLinear => 0,
            Exchange::BinanceInverse => 1,
            Exchange::BinanceSpot => 2,
            Exchange::BybitLinear => 3,
            Exchange::BybitInverse => 4,
            Exchange::BybitSpot => 5,
            Exchange::HyperliquidLinear => 6,
            Exchange::HyperliquidSpot => 7,
            Exchange::OkexLinear => 8,
            Exchange::OkexInverse => 9,
            Exchange::OkexSpot => 10,
            Exchange::MexcLinear => 11,
            Exchange::MexcInverse => 12,
            Exchange::MexcSpot => 13,
        }
    }

    /// Position in the table of all.
    pub fn index(self) -> (index: usize)
        ensures
            index == self.spec_index(),
            index < EXCHANGES,
    {
        match self {
            Exchange::BinanceLinear => 0,
            Exchange::BinanceInverse => 1,
            Exchange::BinanceSpot => 2,
            Exchange::BybitLinear => 3,
            Exchange::BybitInverse => 4,
            Exchange::BybitSpot => 5,
            Exchange::HyperliquidLinear => 6,
            Exchange::HyperliquidSpot => 7,
            Exchange::OkexLinear => 8,
            Exchange::OkexInverse => 9,
            Exchange::OkexSpot => 10,
            Exchange::MexcLinear => 11,
            Exchange::MexcInverse => 12,
            Exchange::MexcSpot => 13,
        }
    }

    /// The one at a position of the table of all.
    pub fn from_index(index: usize) -> (item: Exchange)
        requires
            index < EXCHANGES,
        ensures
            item.spec_index() == index,
    {
        match index {
            0 => Exchange::BinanceLinear,
            1 => Exchange::BinanceInverse,
            2 => Exchange::BinanceSpot,
            3 => Exchange::BybitLinear,
            4 => Exchange::BybitInverse,
            5 => Exchange::BybitSpot,
            6 => Exchange::HyperliquidLinear,
            7 => Exchange::HyperliquidSpot,
            8 => Exchange::OkexLinear,
            9 => Exchange::OkexInverse,
            10 => Exchange::OkexSpot,
            11 => Exchange::MexcLinear,
            12 => Exchange::MexcInverse,
            _ => Exchange::MexcSpot,
        }
    }

    /// The one at a position of the table of all.
    pub open spec fn spec_from_index(index: int) -> Exchange {
        if index == 0 {
            Exchange::BinanceLinear
        } else if index == 1 {
            Exchange::BinanceInverse
        } else if index == 2 {
            Exchange::BinanceSpot
        } else if index == 3 {
            Exchange::BybitLinear
        } else if index == 4 {
            Exchange::BybitInverse
        } else if index == 5 {
            Exchange::BybitSpot
        } else if index == 6 {
            Exchange::HyperliquidLinear
        } else if index == 7 {
            Exchange::HyperliquidSpot
        } else if index == 8 {
            Exchange::OkexLinear
        } else if index == 9 {
            Exchange::OkexInverse
        } else if index == 10 {
            Exchange::OkexSpot
        } else if index == 11 {
            Exchange::MexcLinear
        } else if index == 12 {
            Exchange::MexcInverse
        } else {
            Exchange::MexcSpot
        }
    }

    /// The venue that runs the exchange.
    pub open spec fn spec_venue(self) -> Venue {
        match self {
            Exchange::BybitLinear | Exchange::BybitInverse | Exchange::BybitSpot => Venue::Bybit,
            Exchange::BinanceLinear | Exchange::BinanceInverse | Exchange::BinanceSpot => Venue::Binance,
            Exchange::HyperliquidLinear | Exchange::HyperliquidSpot => Venue::Hyperliquid,
            Exchange::OkexLinear | Exchange::OkexInverse | Exchange::OkexSpot => Venue::Okex,
            Exchange::MexcLinear | Exchange::MexcInverse | Exchange::MexcSpot => Venue::Mexc,
        }
    }

    /// The kind of market that is traded.
    pub open spec fn spec_market_type(self) -> MarketKind {
        match self {
            Exchange::BinanceSpot
            | Exchange::BybitSpot
            | Exchange::HyperliquidSpot
            | Exchange::OkexSpot
            | Exchange::MexcSpot => MarketKind::Spot,
            Exchange::BinanceLinear
            | Exchange::BybitLinear
            | Exchange::HyperliquidLinear
            | Exchange::OkexLinear
            | Exchange::MexcLinear => MarketKind::LinearPerps,
            Exchange::BinanceInverse
            | Exchange::BybitInverse
            | Exchange::OkexInverse
            | Exchange::MexcInverse => MarketKind::InversePerps,
        }
    }

    /// The market of that kind that the venue runs, if it runs one.
    pub open spec fn spec_listed(venue: Venue, market: MarketKind) -> Option<Exchange> {
        match (venue, market) {
            (Venue::Binance, MarketKind::LinearPerps) => Some(Exchange::BinanceLinear),
            (Venue::Binance, MarketKind::InversePerps) => Some(Exchange::BinanceInverse),
            (Venue::Binance, MarketKind::Spot) => Some(Exchange::BinanceSpot),
            (Venue::Bybit, MarketKind::LinearPerps) => Some(Exchange::BybitLinear),
            (Venue::Bybit, MarketKind::InversePerps) => Some(Exchange::BybitInverse),
            (Venue::Bybit, MarketKind::Spot) => Some(Exchange::BybitSpot),
            (Venue::Hyperliquid, MarketKind::LinearPerps) => Some(Exchange::HyperliquidLinear),
            (Venue::Hyperliquid, MarketKind::Spot) => Some(Exchange::HyperliquidSpot),
            (Venue::Okex, MarketKind::LinearPerps) => Some(Exchange::OkexLinear),
            (Venue::Okex, MarketKind::InversePerps) => Some(Exchange::OkexInverse),
            (Venue::Okex, MarketKind::Spot) => Some(Exchange::OkexSpot),
            (Venue::Mexc, MarketKind::LinearPerps) => Some(Exchange::MexcLinear),
            (Venue::Mexc, MarketKind::InversePerps) => Some(Exchange::MexcInverse),
            (Venue::Mexc, MarketKind::Spot) => Some(Exchange::MexcSpot),
            (Venue::Hyperliquid, MarketKind::InversePerps) => None,
        }
    }

    /// The name shown to people and stored with every trade.
    pub open spec fn spec_name(self) -> Seq<char> {
        self.spec_venue().spec_name() + " "@ + self.spec_market_type().spec_name()
    }

    /// The venue that runs the exchange.
    pub fn venue(self) -> (venue: Venue)
        ensures
            venue == self.spec_venue(),
    {
        Venue::from_index(adapter_venue(self.index()))
    }

    /// The kind of market that is traded.
    pub fn market_type(self) -> (market: MarketKind)
        ensures
            market == self.spec_market_type(),
    {
        MarketKind::from_index(adapter_market(self.index()))
    }

    /// The market of that kind that the venue runs, if it runs one.
    pub fn from_venue_and_market(venue: Venue, market: MarketKind) -> (exchange: Option<Exchange>)
        ensures
            exchange == Exchange::spec_listed(venue, market),
    {
        match adapter_listing(venue.index(), market.index()) {
            Some(i) => Some(Exchange::from_index(i)),
            None => {
                proof {
                    lemma_listing_table(venue, market);
                }
                None
            },
        }
    }

    /// The name shown to people and stored with every trade.
    pub fn name(self) -> (name: String)
        ensures
            name@ == self.spec_name(),
    {
        adapter_exchange_name(self.index())
    }

    /// The exchange that `s` names: a venue and a market kind, whatever the case of
    /// their ASCII letters.
    pub open spec fn spec_parse(s: Seq<char>) -> Option<Exchange> {
        let parts = crate::text::words(s);
        if parts.len() == 2 {
            match (Venue::spec_parse(parts[0]), MarketKind::spec_parse(parts[1])) {
                (Some(venue), Some(market)) => Exchange::spec_listed(venue, market),
                _ => None,
            }
        } else {
            None
        }
    }

    /// The exchange that `s` names, if any.
    pub fn parse(s: &str) -> (exchange: Option<Exchange>)
        ensures
            exchange == Exchange::spec_parse(s@),
    {
        let ghost parts = crate::text::words(s@);
        match adapter_parse_exchange(s) {
            Some(i) => Some(Exchange::from_index(i)),
            None => {
                proof {
                    if parts.len() == 2 && Venue::spec_parse(parts[0]) is Some
                        && MarketKind::spec_parse(parts[1]) is Some {
                        let venue = Venue::spec_parse(parts[0])->0;
                        let market = MarketKind::spec_parse(parts[1])->0;
                        lemma_listing_table(venue, market);
                    }
                }
                None
            },
        }
    }
}

/// Every listed pair of venue and market has its position in the table.
proof fn lemma_listing_table(venue: Venue, market: MarketKind)
    ensures
        Exchange::spec_listed(venue, market) matches Some(exchange) ==> {
            &&& 0 <= exchange.spec_index() < EXCHANGES
            &&& venue_of_at(exchange.spec_index()) == venue.spec_index()
            &&& market_of_at(exchange.spec_index()) == market.spec_index()
        },
{
}

/// Venue and market kind identify an exchange.
pub proof fn law_listing_is_exact(exchange: Exchange, venue: Venue, market: MarketKind)
    ensures
        Exchange::spec_listed(venue, market) == Some(exchange) <==> exchange.spec_venue() == venue
            && exchange.spec_market_type() == market,
{
}

/// Longest symbol of a ticker, in bytes.
pub const MAX_TICKER_LEN: usize = 28;

/// Whether a text can be the symbol of a ticker.
pub open spec fn fits_ticker(symbol: Seq<char>) -> bool {
    encode_utf8(symbol).len() <= MAX_TICKER_LEN && !symbol.contains('|')
}

/// `s` up to its first NUL character, if it has one.
pub open spec fn until_nul(s: Seq<char>) -> Seq<char>
    decreases s.len(),
{
    if s.len() == 0 || s[0] == '\0' {
        Seq::empty()
    } else {
        seq![s[0]] + until_nul(s.drop_first())
    }
}

/// Calls `Ticker::new` of `flowsurface_exchange` and reads the ticker back by
/// its `Display`. The symbol is kept in a fixed number of bytes that NUL fills
/// up, so what follows a NUL is not read back. A symbol that is too long or
/// holds a `|` makes the call panic.
#[verifier::external_body]
fn adapter_ticker(symbol: &str, exchange: usize) -> (text: String)
    requires
        exchange < EXCHANGES,
        fits_ticker(symbol@),
    ensures
        text@ == until_nul(symbol@),
{
    flowsurface_exchange::Ticker::new(
        symbol,
        flowsurface_exchange::adapter::Exchange::ALL[exchange],
    )
    .to_string()
}

/// A traded instrument.
#[derive(Debug)]
pub struct Ticker {
    /// The symbol that the exchange uses.
    pub symbol: String,
    /// The symbol shown to people where the exchange's own is opaque.
    pub display: Option<String>,
    pub exchange: Exchange,
}

/// The mathematical value of a [`Ticker`].
#[verifier::ext_equal]
pub struct TickerView {
    pub symbol: Seq<char>,
    pub display: Option<Seq<char>>,
    pub exchange: Exchange,
}

impl View for Ticker {
    type V = TickerView;

    open spec fn view(&self) -> TickerView {
        TickerView {
            symbol: self.symbol@,
            display: crate::text::option_view(self.display),
            exchange: self.exchange,
        }
    }
}

impl TickerView {
    /// The display symbol, or the exchange's own where there is none.
    pub open spec fn shown(self) -> Seq<char> {
        match self.display {
            Some(display) => display,
            None => self.symbol,
        }
    }
}

impl Clone for Ticker {
    fn clone(&self) -> (copy: Ticker)
        ensures
            copy@ == self@,
    {
        Ticker {
            symbol: self.symbol.clone(),
            display: clone_option(&self.display),
            exchange: self.exchange,
        }
    }
}

impl Ticker {
    /// A ticker without a display symbol.
    pub fn new(symbol: &str, exchange: Exchange) -> (ticker: Ticker)
        requires
            fits_ticker(symbol@),
        ensures
            ticker@ == (TickerView { symbol: until_nul(symbol@), display: None, exchange }),
    {
        Ticker { symbol: adapter_ticker(symbol, exchange.index()), display: None, exchange }
    }

    /// The symbol shown to people.
    pub fn shown(&self) -> (symbol: String)
        ensures
            symbol@ == self@.shown(),
    {
        match &self.display {
            Some(display) => display.clone(),
            None => self.symbol.clone(),
        }
    }

    /// Whether two tickers are the same.
    pub fn same_as(&self, other: &Ticker) -> (same: bool)
        ensures
            same == (self@ == other@),
    {
        let same_display = match (&self.display, &other.display) {
            (Some(a), Some(b)) => text_eq(a.as_str(), b.as_str()),
            (None, None) => true,
            _ => false,
        };
        self.exchange == other.exchange && same_display && text_eq(
            self.symbol.as_str(),
            other.symbol.as_str(),
        )
    }
}

/// A ticker with its tick size, lot size and contract size, each as a power of
/// ten.
#[derive(Debug)]
pub struct TickerInfo {
    pub ticker: Ticker,
    pub min_ticksize: i8,
    pub min_qty: i8,
    pub contract_size: Option<i8>,
}

/// The mathematical value of a [`TickerInfo`].
#[verifier::ext_equal]
pub struct TickerInfoView {
    pub ticker: TickerView,
    pub min_ticksize: i8,
    pub min_qty: i8,
    pub contract_size: Option<i8>,
}

impl View for TickerInfo {
    type V = TickerInfoView;

    open spec fn view(&self) -> TickerInfoView {
        TickerInfoView {
            ticker: self.ticker@,
            min_ticksize: self.min_ticksize,
            min_qty: self.min_qty,
            contract_size: self.contract_size,
        }
    }
}

impl Clone for TickerInfo {
    fn clone(&self) -> (copy: TickerInfo)
        ensures
            copy@ == self@,
    {
        TickerInfo {
            ticker: self.ticker.clone(),
            min_ticksize: self.min_ticksize,
            min_qty: self.min_qty,
            contract_size: self.contract_size,
        }
    }
}

/// A trade. Prices and quantities are counted in fixed fractions of a unit.
#[derive(Debug, Clone, Copy, PartialEq, Eq, Structural)]
pub struct Trade {
    /// Unix time in milliseconds.
    pub time: u64,
    pub is_sell: bool,
    pub price_units: i64,
    pub qty_units: i64,
}

/// Venue, kind of market and exchange go together: the exchange of a venue and a kind is
/// run by that venue and is of that kind, and each exchange is the one of its own.
pub proof fn law_exchanges_are_told_by_venue_and_market(
    exchange: Exchange,
    venue: Venue,
    market: MarketKind,
    found: Option<Exchange>,
    asked_venue: Venue,
    asked_market: MarketKind,
    listed: Option<Exchange>,
)
    requires
        call_ensures(Exchange::venue, (exchange,), venue),
        call_ensures(Exchange::market_type, (exchange,), market),
        call_ensures(Exchange::from_venue_and_market, (venue, market), found),
        call_ensures(Exchange::from_venue_and_market, (asked_venue, asked_market), listed),
    ensures
        found == Some(exchange),
        listed is None <==> asked_venue is Hyperliquid && asked_market is InversePerps,
        listed == Some(exchange) ==> asked_venue == venue && asked_market == market,
        market is Spot <==> exchange is BinanceSpot || exchange is BybitSpot
            || exchange is HyperliquidSpot || exchange is OkexSpot || exchange is MexcSpot,
        market is InversePerps <==> exchange is BinanceInverse || exchange is BybitInverse
            || exchange is OkexInverse || exchange is MexcInverse,
        venue is Hyperliquid <==> exchange is HyperliquidLinear || exchange is HyperliquidSpot,
        venue is Bybit <==> exchange is BybitLinear || exchange is BybitInverse
            || exchange is BybitSpot,
        venue is Okex <==> exchange is OkexLinear || exchange is OkexInverse
            || exchange is OkexSpot,
        venue is Mexc <==> exchange is MexcLinear || exchange is MexcInverse
            || exchange is MexcSpot,
{
}

/// Positions and values stand for each other.
pub proof fn law_positions_read_back(
    venue: Venue,
    market: MarketKind,
    exchange: Exchange,
    at_venue: usize,
    at_market: usize,
    at_exchange: usize,
    venue_there: Venue,
    market_there: MarketKind,
    exchange_there: Exchange,
)
    requires
        call_ensures(Venue::index, (venue,), at_venue),
        call_ensures(MarketKind::index, (market,), at_market),
        call_ensures(Exchange::index, (exchange,), at_exchange),
        call_ensures(Venue::from_index, (at_venue,), venue_there),
        call_ensures(MarketKind::from_index, (at_market,), market_there),
        call_ensures(Exchange::from_index, (at_exchange,), exchange_there),
    ensures
        at_venue < 5 && venue_there == venue,
        at_market < 3 && market_there == market,
        at_exchange < 14 && exchange_there == exchange,
        Exchange::spec_from_index(at_exchange as int) == exchange,
{
}

proof fn lemma_lowered(name: Seq<char>, lower: Seq<char>)
    requires
        name.len() == lower.len(),
        forall|i: int|
            0 <= i < name.len() ==> crate::text::same_letter(#[trigger] name[i], lower[i]),
    ensures
        crate::text::ascii_folded(name) == crate::text::ascii_folded(lower),
{
    let left = crate::text::ascii_folded(name);
    let right = crate::text::ascii_folded(lower);
    assert forall|i: int| 0 <= i < left.len() implies left[i] == right[i] by {
        assert(crate::text::same_letter(name[i], lower[i]));
        crate::text::lemma_same_letter(name[i], lower[i]);
    }
    assert(left =~= right);
}

proof fn lemma_folded_len(a: Seq<char>, b: Seq<char>)
    requires
        crate::text::ascii_folded(a) == crate::text::ascii_folded(b),
    ensures
        a.len() == b.len(),
        a.len() > 0 ==> crate::text::same_letter(a[0], b[0]),
        a.len() > 1 ==> crate::text::same_letter(a[1], b[1]),
{
    let left = crate::text::ascii_folded(a);
    let right = crate::text::ascii_folded(b);
    assert(left.len() == a.len() && right.len() == b.len());
    if a.len() > 0 {
        assert(left[0] == right[0]);
        crate::text::lemma_same_letter(a[0], b[0]);
    }
    if a.len() > 1 {
        assert(left[1] == right[1]);
        crate::text::lemma_same_letter(a[1], b[1]);
    }
}

/// A venue goes by the name that it shows, however its ASCII letters are written.
pub proof fn law_venues_go_by_their_names(
    venue: Venue,
    name: String,
    s: &str,
    parsed: Option<Venue>,
)
    requires
        call_ensures(Venue::name, (venue,), name),
        call_ensures(Venue::parse, (s,), parsed),
        s@.len() == name@.len(),
        forall|i: int|
            0 <= i < name@.len() ==> crate::text::same_letter(#[trigger] s@[i], name@[i]),
    ensures
        parsed == Some(venue),
{
    reveal_strlit("Bybit");
    reveal_strlit("Binance");
    reveal_strlit("Hyperliquid");
    reveal_strlit("OKX");
    reveal_strlit("MEXC");
    reveal_strlit("bybit");
    reveal_strlit("binance");
    reveal_strlit("hyperliquid");
    reveal_strlit("okx");
    reveal_strlit("okex");
    reveal_strlit("mexc");
    lemma_lowered(s@, name@);
    match venue {
        Venue::Bybit => lemma_lowered(name@, "bybit"@),
        Venue::Binance => lemma_lowered(name@, "binance"@),
        Venue::Hyperliquid => lemma_lowered(name@, "hyperliquid"@),
        Venue::Okex => lemma_lowered(name@, "okx"@),
        Venue::Mexc => lemma_lowered(name@, "mexc"@),
    }
    if crate::text::ascii_folded(s@) == crate::text::ascii_folded("bybit"@) {
        lemma_folded_len(name@, "bybit"@);
    }
    if crate::text::ascii_folded(s@) == crate::text::ascii_folded("binance"@) {
        lemma_folded_len(name@, "binance"@);
    }
    if crate::text::ascii_folded(s@) == crate::text::ascii_folded("hyperliquid"@) {
        lemma_folded_len(name@, "hyperliquid"@);
    }
    if crate::text::ascii_folded(s@) == crate::text::ascii_folded("okx"@) {
        lemma_folded_len(name@, "okx"@);
    }
    if crate::text::ascii_folded(s@) == crate::text::ascii_folded("okex"@) {
        lemma_folded_len(name@, "okex"@);
    }
    if crate::text::ascii_folded(s@) == crate::text::ascii_folded("mexc"@) {
        lemma_folded_len(name@, "mexc"@);
    }
}

/// The name of an exchange is that of its venue, a blank and the kind of its market.
pub proof fn law_exchanges_are_named_after_both(
    exchange: Exchange,
    venue: Venue,
    name: String,
    venue_name: String,
)
    requires
        call_ensures(Exchange::venue, (exchange,), venue),
        call_ensures(Exchange::name, (exchange,), name),
        call_ensures(Venue::name, (venue,), venue_name),
    ensures
        exists|kind: Seq<char>|
            {
                &&& name@ == #[trigger] (venue_name@ + seq![' '] + kind)
                &&& exchange.spec_market_type() is Spot ==> kind == seq!['S', 'p', 'o', 't']
                &&& exchange.spec_market_type() is LinearPerps ==> kind == seq![
                    'L',
                    'i',
                    'n',
                    'e',
                    'a',
                    'r',
                ]
                &&& exchange.spec_market_type() is InversePerps ==> kind == seq![
                    'I',
                    'n',
                    'v',
                    'e',
                    'r',
                    's',
                    'e',
                ]
            },
{
    reveal_strlit(" ");
    reveal_strlit("Spot");
    reveal_strlit("Linear");
    reveal_strlit("Inverse");
    let kind = exchange.spec_market_type().spec_name();
    assert(" "@ =~= seq![' ']);
    assert("Spot"@ =~= seq!['S', 'p', 'o', 't']);
    assert("Linear"@ =~= seq!['L', 'i', 'n', 'e', 'a', 'r']);
    assert("Inverse"@ =~= seq!['I', 'n', 'v', 'e', 'r', 's', 'e']);
    assert(name@ =~= venue_name@ + seq![' '] + kind);
}

/// A text names an exchange if it is a venue and a kind of market with white space
/// between them, each as it is read alone, and the venue has such a market.
pub proof fn law_exchanges_are_read_word_by_word(
    first: &str,
    second: &str,
    blank: char,
    s: &str,
    venue: Option<Venue>,
    market: Option<MarketKind>,
    parsed: Option<Exchange>,
)
    requires
        first@.len() > 0,
        second@.len() > 0,
        forall|i: int| 0 <= i < first@.len() ==> !crate::text::whitespace(#[trigger] first@[i]),
        forall|i: int| 0 <= i < second@.len() ==> !crate::text::whitespace(#[trigger] second@[i]),
        crate::text::whitespace(blank),
        s@ == first@ + (seq![blank] + second@),
        call_ensures(Venue::parse, (first,), venue),
        call_ensures(MarketKind::parse, (second,), market),
        call_ensures(Exchange::parse, (s,), parsed),
    ensures
        venue is None || market is None ==> parsed is None,
        parsed matches Some(exchange) ==> venue == Some(exchange.spec_venue()) && market == Some(
            exchange.spec_market_type(),
        ),
        parsed is None && venue is Some && market is Some ==> venue->0 is Hyperliquid
            && market->0 is InversePerps,
{
    crate::text::law_words_are_separated_by_white_space(first@, second@, blank);
    crate::text::law_words_are_separated_by_white_space(second@, second@, blank);
    let parts = crate::text::words(s@);
    assert(parts =~= seq![first@, second@]);
    assert(parts[0] == first@ && parts[1] == second@);
}

/// A ticker and what is known of it are seen whole.
pub proof fn law_tickers_are_seen_whole(info: TickerInfo)
    ensures
        info@.ticker.symbol == info.ticker.symbol@,
        info@.ticker.exchange == info.ticker.exchange,
        info@.ticker.display is Some <==> info.ticker.display is Some,
        info@.ticker.display is Some ==> info@.ticker.display->0 == info.ticker.display->0@,
        info@.min_ticksize == info.min_ticksize,
        info@.min_qty == info.min_qty,
        info@.contract_size == info.contract_size,
{
}

proof fn lemma_until_nul(s: Seq<char>, n: int)
    requires
        0 <= n <= s.len(),
        forall|i: int| 0 <= i < n ==> #[trigger] s[i] != '\0',
        n < s.len() ==> s[n] == '\0',
    ensures
        until_nul(s) == s.take(n),
    decreases s.len(),
{
    if n > 0 {
        assert(s[0] != '\0');
        let rest = s.drop_first();
        assert forall|i: int| 0 <= i < n - 1 implies #[trigger] rest[i] != '\0' by {
            assert(s[i + 1] != '\0');
        }
        lemma_until_nul(rest, n - 1);
        assert(s.take(n) =~= seq![s[0]] + rest.take(n - 1));
    } else {
        assert(s.take(0) =~= Seq::<char>::empty());
    }
}

/// A new ticker has the symbol and the exchange that it was made of, the symbol up to its
/// first NUL if it holds one, and is shown by that symbol.
pub proof fn law_new_tickers_keep_their_symbol(
    symbol: &str,
    exchange: Exchange,
    ticker: Ticker,
    shown: String,
    n: int,
)
    requires
        call_ensures(Ticker::new, (symbol, exchange), ticker),
        call_ensures(Ticker::shown, (&ticker,), shown),
        0 <= n <= symbol@.len(),
        forall|i: int| 0 <= i < n ==> #[trigger] symbol@[i] != '\0',
        n < symbol@.len() ==> symbol@[n] == '\0',
    ensures
        ticker.symbol@ == symbol@.take(n),
        ticker.exchange == exchange,
        ticker.display is None,
        shown@ == symbol@.take(n),
{
    lemma_until_nul(symbol@, n);
}

/// A ticker is shown by its display symbol if it has one.
pub proof fn law_display_symbols_are_shown(ticker: Ticker, shown: String)
    requires
        call_ensures(Ticker::shown, (&ticker,), shown),
    ensures
        ticker.display matches Some(display) ==> shown@ == display@,
        ticker.display is None ==> shown@ == ticker.symbol@,
{
}

/// Tickers are the same if and only if symbol, display symbol and exchange are.
pub proof fn law_tickers_are_compared_whole(a: Ticker, b: Ticker, same: bool)
    requires
        call_ensures(Ticker::same_as, (&a, &b), same),
    ensures
        same ==> a.symbol@ == b.symbol@ && a.exchange == b.exchange && (a.display is Some
            <==> b.display is Some) && (a.display is Some ==> a.display->0@ == b.display->0@),
        a.symbol@ == b.symbol@ && a.exchange == b.exchange && a.display is None && b.display is None
            ==> same,
        a.symbol@ == b.symbol@ && a.exchange == b.exchange && a.display is Some && b.display is Some
            && a.display->0@ == b.display->0@ ==> same,
{
}

} // verus!
