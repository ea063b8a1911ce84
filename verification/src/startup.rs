//! Decisions taken once, when the server starts.

use vstd::prelude::*;
use vstd::string::*;

use crate::clock::NANOS_PER_SEC;
use crate::config::{NetworkConfig, WhitelistTemplates};
use crate::limiter::{ADMISSION_GLOBAL_CAP, ADMISSION_PER_IP_BUDGET, AdmissionGate, RateLimiter};
use crate::market::{Exchange, TickerInfo};

verus! {

/// The window of the request limit, in seconds.
pub const RATE_LIMIT_WINDOW_SECS: u64 = 10;

/// Why the server does not start.
#[derive(Debug, Clone, Copy, PartialEq, Eq, Structural)]
pub enum StartupError {
    /// The configuration names no pairs.
    NoPairsConfigured,
    /// No exchange lists any of the configured pairs.
    NoMatchingPairs,
}

/// Check that pairs are configured. In discovery mode none need be.
pub fn check_configured(
    discovery_mode: bool,
    whitelist: &WhitelistTemplates,
    base_assets: &Vec<String>,
) -> (result: Result<(), StartupError>)
    ensures
        result == if !discovery_mode && (whitelist@.len() == 0 || base_assets@.len() == 0) {
            Err(StartupError::NoPairsConfigured)
        } else {
            Ok(())
        },
{
    if !discovery_mode && (whitelist.len() == 0 || base_assets.len() == 0) {
        Err(StartupError::NoPairsConfigured)
    } else {
        Ok(())
    }
}

/// Whether there is anything to collect.
#[derive(Debug, Clone, Copy, PartialEq, Eq, Structural)]
pub enum Collection {
    /// Trades of the resolved pairs are collected.
    Pairs,
    /// No pair matched, but what the exchanges list is still offered.
    DiscoveryOnly,
}

/// Decide what to do with the pairs that were resolved.
pub fn check_resolved(discovery_mode: bool, pairs: &Vec<TickerInfo>) -> (result: Result<
    Collection,
    StartupError,
>)
    ensures
        result == if pairs@.len() > 0 {
            Ok(Collection::Pairs)
        } else if discovery_mode {
            Ok(Collection::DiscoveryOnly)
        } else {
            Err(StartupError::NoMatchingPairs)
        },
{
    if pairs.len() > 0 {
        Ok(Collection::Pairs)
    } else if discovery_mode {
        Ok(Collection::DiscoveryOnly)
    } else {
        Err(StartupError::NoMatchingPairs)
    }
}

/// The exchanges of the first `n` pairs.
pub open spec fn exchanges_of(pairs: Seq<TickerInfo>, n: int) -> Set<Exchange> {
    pairs.take(n).map_values(|pair: TickerInfo| pair.ticker.exchange).to_set()
}

/// How many exchanges the pairs are spread over.
pub fn count_exchanges(pairs: &Vec<TickerInfo>) -> (count: usize)
    ensures
        count == exchanges_of(pairs@, pairs@.len() as int).len(),
{
    let mut seen: Vec<Exchange> = Vec::new();
    let mut i: usize = 0;
    proof {
        assert(exchanges_of(pairs@, 0) =~= Set::<Exchange>::empty());
        assert(seen@.to_set() =~= Set::<Exchange>::empty());
    }
    while i < pairs.len()
        invariant
            i <= pairs@.len(),
            seen@.no_duplicates(),
            seen@.to_set() == exchanges_of(pairs@, i as int),
        decreases pairs@.len() - i,
    {
        let exchange = pairs[i].ticker.exchange;
        let ghost before = seen@;
        let known = is_listed(&seen, exchange);
        if !known {
            seen.push(exchange);
        }
        proof {
            lemma_one_more_exchange(pairs@, i as int);
            if known {
                assert(exchanges_of(pairs@, i as int).insert(exchange) =~= exchanges_of(
                    pairs@,
                    i as int,
                ));
            } else {
                assert(seen@.to_set() =~= before.to_set().insert(exchange)) by {
                    assert forall|e: Exchange| seen@.contains(e) == (before.contains(e) || e
                        == exchange) by {
                        if before.contains(e) {
                            let j = before.index_of(e);
                            assert(seen@[j] == e);
                        }
                        assert(seen@[before.len() as int] == exchange);
                    }
                }
            }
        }
        i += 1;
    }
    proof {
        seen@.unique_seq_to_set();
    }
    seen.len()
}

proof fn lemma_one_more_exchange(pairs: Seq<TickerInfo>, i: int)
    requires
        0 <= i < pairs.len(),
    ensures
        exchanges_of(pairs, i + 1) == exchanges_of(pairs, i).insert(pairs[i].ticker.exchange),
{
    let f = |pair: TickerInfo| pair.ticker.exchange;
    let short = pairs.take(i).map_values(f);
    let long = pairs.take(i + 1).map_values(f);
    assert(long =~= short.push(pairs[i].ticker.exchange));
    assert forall|e: Exchange| long.contains(e) == (short.contains(e) || e
        == pairs[i].ticker.exchange) by {
        if short.contains(e) {
            let j = short.index_of(e);
            assert(long[j] == e);
        }
        assert(long[i] == pairs[i].ticker.exchange);
    }
    assert(long.to_set() =~= short.to_set().insert(pairs[i].ticker.exchange));
}

fn is_listed(exchanges: &Vec<Exchange>, exchange: Exchange) -> (listed: bool)
    ensures
        listed == exchanges@.contains(exchange),
{
    let mut i: usize = 0;
    while i < exchanges.len()
        invariant
            i <= exchanges@.len(),
            forall|j: int| 0 <= j < i ==> exchanges@[j] != exchange,
        decreases exchanges@.len() - i,
    {
        if exchanges[i] == exchange {
            return true;
        }
        i += 1;
    }
    false
}

/// The request limiter that the configuration asks for, if any.
pub fn rate_limiter(network: &NetworkConfig) -> (limiter: Option<RateLimiter>)
    ensures
        limiter is Some <==> network.max_requests != 0,
        limiter matches Some(l) ==> l.wf() && l@ == (crate::limiter::RateLimiterState {
            buckets: Map::empty(),
            next_cleanup: RATE_LIMIT_WINDOW_SECS * NANOS_PER_SEC,
            capacity: network.max_requests,
            window: (RATE_LIMIT_WINDOW_SECS * NANOS_PER_SEC) as u64,
        }),
{
    match network.rate_limit_max() {
        Some(max) => Some(RateLimiter::new(max, RATE_LIMIT_WINDOW_SECS * NANOS_PER_SEC)),
        None => None,
    }
}

/// The admission gate, with its default budgets.
pub fn admission_gate() -> (gate: AdmissionGate)
    ensures
        gate.wf(),
        gate@.per_ip_budget == ADMISSION_PER_IP_BUDGET,
        gate@.global_cap == ADMISSION_GLOBAL_CAP,
        gate@.trusted.len() == 0,
        gate@.per_ip == Map::<crate::net::IpAddress, crate::limiter::Bucket>::empty(),
{
    AdmissionGate::new(ADMISSION_PER_IP_BUDGET, ADMISSION_GLOBAL_CAP)
}

/// Outside discovery mode the server needs base assets and a whitelist; in discovery mode
/// it needs neither.
pub proof fn law_configuration_names_pairs(
    discovery_mode: bool,
    whitelist: WhitelistTemplates,
    base_assets: Vec<String>,
    result: Result<(), StartupError>,
)
    requires
        call_ensures(check_configured, (discovery_mode, &whitelist, &base_assets), result),
    ensures
        discovery_mode ==> result is Ok,
        whitelist@.len() > 0 && base_assets@.len() > 0 ==> result is Ok,
        !discovery_mode && (whitelist@.len() == 0 || base_assets@.len() == 0) ==> result == Err::<
            (),
            StartupError,
        >(StartupError::NoPairsConfigured),
{
}

/// Pairs that were found are collected; without any the server starts only in discovery
/// mode.
pub proof fn law_resolved_pairs_are_collected(
    discovery_mode: bool,
    pairs: Vec<TickerInfo>,
    result: Result<Collection, StartupError>,
)
    requires
        call_ensures(check_resolved, (discovery_mode, &pairs), result),
    ensures
        result == Ok::<Collection, StartupError>(Collection::Pairs) <==> pairs@.len() > 0,
        pairs@.len() == 0 && discovery_mode ==> result == Ok::<Collection, StartupError>(
            Collection::DiscoveryOnly,
        ),
        pairs@.len() == 0 && !discovery_mode ==> result is Err,
{
}

/// Each exchange is counted once, however many of its pairs are followed.
pub proof fn law_exchanges_are_counted_once(pairs: Vec<TickerInfo>, count: usize, i: int)
    requires
        call_ensures(count_exchanges, (&pairs,), count),
    ensures
        count == pairs@.map_values(|pair: TickerInfo| pair.ticker.exchange).to_set().len(),
        count <= pairs@.len(),
        pairs@.len() > 0 ==> count > 0,
{
    let exchanges = pairs@.map_values(|pair: TickerInfo| pair.ticker.exchange);
    assert(pairs@.take(pairs@.len() as int) =~= pairs@);
    exchanges.lemma_cardinality_of_set();
    if pairs@.len() > 0 {
        assert(exchanges.contains(exchanges[0]));
        assert(exchanges.to_set().contains(exchanges[0]));
        if exchanges.to_set().len() == 0 {
            exchanges.to_set().lemma_len0_is_empty();
        }
    }
}

/// Requests are limited as configured, over ten seconds; zero switches the limit off.
pub proof fn law_request_limit_is_as_configured(
    network: NetworkConfig,
    limiter: Option<RateLimiter>,
)
    requires
        call_ensures(rate_limiter, (&network,), limiter),
    ensures
        limiter is None <==> network.max_requests == 0,
        limiter matches Some(l) ==> l@.capacity == network.max_requests && l@.window
            == 10_000_000_000 && l@.buckets.dom() =~= Set::empty(),
{
}

/// The server starts without trusted addresses and grants unknown ones their default
/// budgets.
pub proof fn law_nobody_is_trusted_at_first(gate: AdmissionGate, ip: crate::net::IpAddress)
    requires
        call_ensures(admission_gate, (), gate),
    ensures
        !gate@.trusted.contains(ip),
        !gate@.per_ip.dom().contains(ip),
        gate@.per_ip_budget == 2,
        gate@.global_cap == 20,
{
}

} // verus!
