use flowsurface_server::clock::{
    clamp_nanos, nanos_since_epoch, nanos_to_millis, nanos_to_secs, steady_millis,
    unix_time_millis, unix_time_secs, whole_seconds, Clock, SteadyClock,
};
use flowsurface_server::diagnostics::AccessEvent;
use flowsurface_server::limiter::{
    acceptance, Acceptance, AdmissionGate, ConnectionLimiter, ConnectionRefusal, Handshake,
    RateLimiter, ADMISSION_GLOBAL_CAP, ADMISSION_MAX_TRUSTED_IPS, ADMISSION_PER_IP_BUDGET,
    MAX_CONCURRENT_CONNECTIONS,
};
use flowsurface_server::net::IpAddress;

const SECOND: u64 = 1_000_000_000;

fn ip(last: u32) -> IpAddress {
    IpAddress::V4(0x0a00_0000 + last)
}

#[test]
fn addresses_are_classified() {
    assert!(IpAddress::V4(0x7f00_0001).is_loopback());
    assert!(IpAddress::V4(0x7fff_ffff).is_loopback());
    assert!(!IpAddress::V4(0x8000_0000).is_loopback());
    assert!(IpAddress::V6(1).is_loopback());
    assert!(!IpAddress::V6(0xffff_7f00_0001).is_loopback());
    assert!(IpAddress::V4(0).is_unspecified());
    assert!(IpAddress::V6(0).is_unspecified());
    assert!(!ip(1).is_unspecified());
}

#[test]
fn burst_is_exactly_the_capacity() {
    let mut limiter = RateLimiter::new(3, 10 * SECOND);
    for _ in 0..3 {
        assert!(limiter.check_at(ip(1), 5));
    }
    assert!(!limiter.check_at(ip(1), 5));
    assert!(limiter.check_at(ip(2), 5));
}

#[test]
fn tokens_come_back_one_by_one() {
    let mut limiter = RateLimiter::new(2, 10 * SECOND);
    assert!(limiter.check_at(ip(1), 0));
    assert!(limiter.check_at(ip(1), 0));
    assert!(!limiter.check_at(ip(1), 5 * SECOND - 1));
    assert!(limiter.check_at(ip(1), 5 * SECOND));
    assert!(!limiter.check_at(ip(1), 5 * SECOND));
}

#[test]
fn sustained_rate_is_bounded_across_addresses_and_cleanups() {
    let mut limiter = RateLimiter::new(5, SECOND);
    let mut allowed = 0u64;
    let end = 100 * SECOND;
    let mut now = 0;
    while now <= end {
        if limiter.check_at(ip(1), now) {
            allowed += 1;
        }
        limiter.check_at(ip((now % 97) as u32 + 2), now);
        now += 50_000_000;
    }
    assert!(allowed * SECOND <= 5 * SECOND + end * 5);
    assert!(allowed >= 500);
}

#[test]
fn idle_window_restores_the_burst() {
    let mut limiter = RateLimiter::new(4, SECOND);
    for _ in 0..4 {
        assert!(limiter.check_at(ip(1), 0));
    }
    for _ in 0..4 {
        assert!(limiter.check_at(ip(1), 3 * SECOND));
    }
    assert!(!limiter.check_at(ip(1), 3 * SECOND));
}

#[test]
fn limiter_without_capacity_refuses() {
    let mut limiter = RateLimiter::new(0, SECOND);
    assert!(!limiter.check_at(ip(1), 0));
    assert!(!limiter.check_at(ip(1), 100 * SECOND));
}

#[test]
fn limiter_reads_its_own_clock() {
    let mut limiter = RateLimiter::new(1, 3600 * SECOND);
    assert!(limiter.check(ip(1)));
    assert!(!limiter.check(ip(1)));
    assert!(limiter.now() < 3600 * SECOND);
}

#[test]
fn unknown_address_has_its_own_budget() {
    let mut gate = AdmissionGate::new(2, 100);
    assert!(gate.try_admit_at(ip(1), 0));
    assert!(gate.try_admit_at(ip(1), 0));
    assert!(!gate.try_admit_at(ip(1), 0));
    assert!(gate.try_admit_at(ip(2), 0));
    assert!(gate.try_admit_at(ip(1), SECOND / 2));
}

#[test]
fn unknown_traffic_shares_a_ceiling() {
    let mut gate = AdmissionGate::new(2, 3);
    assert!(gate.try_admit_at(ip(1), 0));
    assert!(gate.try_admit_at(ip(2), 0));
    assert!(gate.try_admit_at(ip(3), 0));
    assert!(!gate.try_admit_at(ip(4), 0));
    // The refusal cost address 1 nothing of its own budget.
    assert!(!gate.try_admit_at(ip(1), 0));
    assert!(gate.try_admit_at(ip(1), SECOND / 3 + 1));
}

#[test]
fn trusted_addresses_bypass_the_gate() {
    let mut gate = AdmissionGate::new(1, 1);
    assert!(gate.try_admit_at(ip(1), 0));
    assert!(!gate.try_admit_at(ip(2), 0));
    gate.mark_trusted(ip(2));
    for _ in 0..50 {
        assert!(gate.try_admit_at(ip(2), 0));
    }
}

#[test]
fn oldest_trust_lapses_at_capacity() {
    let mut closed = AdmissionGate::new(0, 20);
    assert!(!closed.try_admit_at(ip(7), 0));
    assert!(!closed.try_admit_at(ip(7), 5 * SECOND));
    closed.mark_trusted(ip(7));
    assert!(closed.try_admit_at(ip(7), 5 * SECOND));
    let mut gate = AdmissionGate::new(1, 0);
    gate.mark_trusted(ip(0));
    gate.mark_trusted(ip(1));
    for n in 2..=ADMISSION_MAX_TRUSTED_IPS as u32 {
        gate.mark_trusted(ip(n));
    }
    assert!(!gate.try_admit_at(ip(0), 0));
    assert!(gate.try_admit_at(ip(1), 0));
    assert!(gate.try_admit_at(ip(ADMISSION_MAX_TRUSTED_IPS as u32), 0));
}

#[test]
fn gate_defaults() {
    let mut gate = AdmissionGate::new(ADMISSION_PER_IP_BUDGET, ADMISSION_GLOBAL_CAP);
    let admitted = (0..100).filter(|n| gate.try_admit_at(ip(*n), 0)).count();
    assert_eq!(admitted, 20);
    let mut own = AdmissionGate::new(ADMISSION_PER_IP_BUDGET, ADMISSION_GLOBAL_CAP);
    assert!(own.try_admit(ip(1)));
    assert!(own.now() < u64::MAX);
}

#[test]
fn connections_are_capped_and_released() {
    let limiter = ConnectionLimiter::new(2);
    let first = limiter.try_acquire();
    let second = limiter.clone().try_acquire();
    assert!(first.is_some() && second.is_some());
    assert!(limiter.try_acquire().is_none());
    drop(first);
    assert!(limiter.try_acquire().is_some());
    assert!(ConnectionLimiter::new(0).try_acquire().is_none());
    assert_eq!(MAX_CONCURRENT_CONNECTIONS, 512);
}

#[test]
fn connections_are_accepted_or_refused() {
    assert_eq!(
        acceptance(false, Some(Handshake::Completed)),
        Some(Acceptance::Refuse(ConnectionRefusal::AtCapacity))
    );
    assert_eq!(acceptance(true, None), None);
    assert_eq!(
        acceptance(true, Some(Handshake::Completed)),
        Some(Acceptance::Serve)
    );
    assert_eq!(
        acceptance(true, Some(Handshake::Failed)),
        Some(Acceptance::HandshakeError)
    );
    assert_eq!(
        acceptance(true, Some(Handshake::TimedOut)),
        Some(Acceptance::Refuse(ConnectionRefusal::HandshakeTimedOut))
    );
    assert_eq!(
        ConnectionRefusal::AtCapacity.message(),
        "server at capacity"
    );
    assert_eq!(
        ConnectionRefusal::HandshakeTimedOut.message(),
        "handshake timed out"
    );
    assert_eq!(
        ConnectionRefusal::AtCapacity.access_event(),
        AccessEvent::ConnectionRejected
    );
    assert_eq!(
        ConnectionRefusal::HandshakeTimedOut.access_event(),
        AccessEvent::AcceptTimeout
    );
}

#[test]
fn clocks_run_forward() {
    let clock = Clock::start();
    let mut last = clock.now();
    for _ in 0..1000 {
        let next = clock.now();
        assert!(next >= last);
        last = next;
    }
    assert_eq!(clamp_nanos(5), 5);
    assert_eq!(clamp_nanos(u128::MAX), u64::MAX);
    assert_eq!(nanos_to_millis(1_999_999), 1);
    assert_eq!(nanos_to_secs(1_999_999_999), 1);
    assert_eq!(whole_seconds(2_999_999_999), 2);
    assert_eq!(nanos_to_secs(u128::MAX), u64::MAX);
    assert_eq!(nanos_since_epoch(Some(7)), 7);
    assert_eq!(nanos_since_epoch(None), 0);
    assert!(unix_time_secs() > 1_577_836_800);
    // Later than 2020, and in milliseconds.
    assert!(unix_time_millis() > 1_577_836_800_000);
    assert_eq!(steady_millis(100, 1_999_999), 101);
    assert_eq!(steady_millis(i64::MAX - 1, u64::MAX), i64::MAX);
    let steady = SteadyClock::start();
    let first = steady.now_ms();
    assert!(first > 1_577_836_800_000 && steady.now_ms() >= first);
}
