use flowsurface_server::config::{
    config_exit_code, config_location, constant_time_eq_ignore_ascii_case, generate_token,
    token_of_bytes, token_of_random, BearerToken, Config, ConfigLocation, ConfigMarketKind,
    MarketTemplate, NetworkConfig, PairsConfig, RetentionHours, StorageBytes, StorageConfig,
    TokenError, VenueTemplate,
};
use flowsurface_server::limiter::AdmissionGate;
use flowsurface_server::market::{Exchange, MarketKind, Ticker, TickerInfo};
use flowsurface_server::net::{IpAddress, SocketAddress};
use flowsurface_server::startup::{
    admission_gate, check_configured, check_resolved, count_exchanges, rate_limiter, Collection,
    StartupError,
};

fn config(ip: IpAddress, token: Option<&str>) -> Config {
    let mut network = NetworkConfig::default();
    network.bind_address = SocketAddress { ip, port: 8080 };
    Config {
        network,
        storage: StorageConfig::default(),
        pairs: PairsConfig::default(),
        whitelist: None,
        auth_token: token.map(|t| BearerToken::from_text(t).unwrap()),
    }
}

fn pair(symbol: &str, exchange: Exchange) -> TickerInfo {
    TickerInfo {
        ticker: Ticker::new(symbol, exchange),
        min_ticksize: -2,
        min_qty: -3,
        contract_size: None,
    }
}

#[test]
fn defaults_of_the_sections() {
    let storage = StorageConfig::default();
    assert_eq!(storage.data_dir, "data");
    assert_eq!(storage.flush_interval_ms, 2000);
    assert_eq!(storage.data_retention_hours, 168);
    assert_eq!(storage.max_buffered_trades, 200_000);
    assert_eq!(storage.max_storage_mb, 4096);
    assert_eq!(storage.memory_limit_mb, 0);
    let pairs = PairsConfig::default();
    assert!(pairs.base_assets.is_empty() && pairs.discovery_mode);
    let mut network = NetworkConfig::default();
    network.max_requests = 0;
    assert_eq!(network.rate_limit_max(), None);
    network.max_requests = 7;
    assert_eq!(network.rate_limit_max(), Some(7));
}

#[test]
fn bearer_tokens_authorize_up_to_case() {
    let token = BearerToken::new("AbC123".to_string()).unwrap();
    assert!(token.is_valid_authorization("Bearer AbC123"));
    assert!(token.is_valid_authorization("bEARER aBc123"));
    assert!(!token.is_valid_authorization("Bearer AbC124"));
    assert!(!token.is_valid_authorization("Bearer AbC1234"));
    assert!(!token.is_valid_authorization("Bearer"));
    assert!(!token.is_valid_authorization(""));
    assert!(!token.is_valid_authorization("Token  AbC123"));
    assert_eq!(token.as_str(), "AbC123");
    assert!(!token.redacted().contains("AbC123"));
    assert!(token.same_as(&BearerToken::from_text("AbC123").unwrap()));
    assert!(BearerToken::new(String::new()).is_none());
    assert!(matches!(BearerToken::from_text(""), Err(TokenError::Empty)));
    assert_eq!(
        TokenError::Empty.message(),
        "Bearer token must not be empty"
    );
    assert!(constant_time_eq_ignore_ascii_case(b"aZ-", b"Az-"));
    assert!(!constant_time_eq_ignore_ascii_case(b"a[", b"a{"));
}

#[test]
fn tokens_are_random_hexadecimal() {
    let first = generate_token().unwrap();
    let second = generate_token().unwrap();
    assert_eq!(first.as_str().len(), 64);
    assert!(first
        .as_str()
        .chars()
        .all(|c| c.is_ascii_digit() || ('a'..='f').contains(&c)));
    assert!(!first.same_as(&second));
    assert!(first.as_str().chars().any(|c| c != '0'));
    assert_eq!(token_of_bytes(&[0x0f, 0xa0]).as_str(), "0fa0");
    assert_eq!(
        token_of_random(Some(vec![1, 0xff])).unwrap().as_str(),
        "01ff"
    );
    assert!(token_of_random(None).is_err());
}

#[test]
fn token_resolution_prefers_environment_then_disk() {
    let public = IpAddress::V4(0);
    let mut loopback = config(IpAddress::V4(0x7f00_0001), None);
    assert_eq!(loopback.resolve_auth_token(Some("disk")).unwrap(), None);
    assert!(loopback.auth_token.is_none());

    let mut explicit = config(public, Some("env"));
    assert_eq!(
        explicit.resolve_auth_token(Some("disk")).unwrap(),
        Some("env".to_string())
    );
    let mut same = config(public, Some("disk"));
    assert_eq!(same.resolve_auth_token(Some(" disk \n")).unwrap(), None);
    let mut stored = config(public, None);
    assert_eq!(stored.resolve_auth_token(Some("disk\n")).unwrap(), None);
    assert_eq!(stored.auth_token.unwrap().as_str(), "disk");
    let mut minted = config(public, None);
    let written = minted.resolve_auth_token(Some(" \n")).unwrap().unwrap();
    assert_eq!(written.len(), 64);
    assert_eq!(minted.auth_token.unwrap().as_str(), written);
    let mut restarted = config(public, None);
    assert_eq!(restarted.resolve_auth_token(Some(&written)).unwrap(), None);
    assert_eq!(restarted.auth_token.unwrap().as_str(), written);
}

#[test]
fn environment_token_is_taken_unless_empty() {
    let mut settings = config(IpAddress::V4(0), Some("file"));
    settings.apply_env_token(None);
    settings.apply_env_token(Some(String::new()));
    assert_eq!(settings.auth_token.as_ref().unwrap().as_str(), "file");
    settings.apply_env_token(Some("env".to_string()));
    assert_eq!(settings.auth_token.unwrap().as_str(), "env");
}

#[test]
fn whitelist_is_copied_or_empty() {
    let mut settings = config(IpAddress::V4(0), None);
    assert!(settings.resolve_whitelist().is_empty());
    settings.whitelist = Some(vec![VenueTemplate {
        venue: "binance".to_string(),
        markets: vec![MarketTemplate {
            market: ConfigMarketKind::Spot,
            quotes: vec!["USDT".to_string()],
        }],
    }]);
    let whitelist = settings.resolve_whitelist();
    assert_eq!(whitelist.len(), 1);
    assert_eq!(whitelist[0].venue, "binance");
    assert_eq!(whitelist[0].markets[0].quotes, vec!["USDT".to_string()]);
}

#[test]
fn config_market_kinds_convert() {
    assert_eq!(
        MarketKind::from(ConfigMarketKind::Spot),
        MarketKind::Spot
    );
    assert_eq!(
        MarketKind::from(ConfigMarketKind::Linear),
        MarketKind::LinearPerps
    );
    assert_eq!(
        MarketKind::from(ConfigMarketKind::Inverse),
        MarketKind::InversePerps
    );
}

#[test]
fn retention_and_sizes() {
    assert_eq!(RetentionHours::new(0).unwrap().as_millis(), 0);
    assert_eq!(RetentionHours::new(u64::MAX).unwrap().as_millis(), i64::MAX);
    let week = RetentionHours::new(168).unwrap();
    assert_eq!(week.as_hours(), 168);
    assert_eq!(week.as_millis(), 604_800_000);
    let size = StorageBytes::from_mb(3);
    assert_eq!(size.as_bytes(), 3_145_728);
    assert_eq!(size.as_mb(), 3);
    assert_eq!(StorageBytes::from_bytes(3_145_727).as_mb(), 2);
    assert_eq!(StorageBytes::from_mb(u64::MAX).as_bytes(), u64::MAX);
    assert_eq!(size.saturating_mul(2).as_mb(), 6);
    assert_eq!(size.saturating_mul(u64::MAX).as_bytes(), u64::MAX);
}

#[test]
fn config_is_looked_for_in_order() {
    assert_eq!(
        config_location(true, true, None, false),
        ConfigLocation::Given
    );
    assert_eq!(
        config_location(false, true, None, false),
        ConfigLocation::ProjectRoot
    );
    assert_eq!(
        config_location(false, false, Some("/srv/bin/server"), true),
        ConfigLocation::BesideExecutable
    );
    assert_eq!(
        config_location(false, false, None, false),
        ConfigLocation::WorkingDirectory
    );
    assert_eq!(config_exit_code(true, false, true), None);
    assert_eq!(config_exit_code(true, false, false), Some(1));
}

#[test]
fn pairs_must_be_configured_unless_discovering() {
    let assets = vec!["BTC".to_string()];
    let whitelist = vec![VenueTemplate {
        venue: "binance".to_string(),
        markets: Vec::new(),
    }];
    assert_eq!(check_configured(false, &whitelist, &assets), Ok(()));
    assert_eq!(check_configured(true, &Vec::new(), &Vec::new()), Ok(()));
    assert_eq!(
        check_configured(false, &Vec::new(), &assets),
        Err(StartupError::NoPairsConfigured)
    );
    assert_eq!(
        check_configured(false, &whitelist, &Vec::new()),
        Err(StartupError::NoPairsConfigured)
    );
}

#[test]
fn resolved_pairs_decide_what_is_collected() {
    let pairs = vec![pair("BTCUSDT", Exchange::BinanceSpot)];
    assert_eq!(check_resolved(false, &pairs), Ok(Collection::Pairs));
    assert_eq!(
        check_resolved(true, &Vec::new()),
        Ok(Collection::DiscoveryOnly)
    );
    assert_eq!(
        check_resolved(false, &Vec::new()),
        Err(StartupError::NoMatchingPairs)
    );
}

#[test]
fn exchanges_are_counted_once() {
    let pairs = vec![
        pair("BTCUSDT", Exchange::BinanceSpot),
        pair("ETHUSDT", Exchange::BinanceSpot),
        pair("BTCUSDT", Exchange::BybitSpot),
    ];
    assert_eq!(count_exchanges(&pairs), 2);
    assert_eq!(count_exchanges(&Vec::new()), 0);
}

#[test]
fn limiters_follow_the_configuration() {
    let mut network = NetworkConfig::default();
    network.max_requests = 0;
    assert!(rate_limiter(&network).is_none());
    network.max_requests = 2;
    let mut limiter = rate_limiter(&network).unwrap();
    let ip = IpAddress::V4(9);
    assert!(limiter.check_at(ip, 0) && limiter.check_at(ip, 0));
    assert!(!limiter.check_at(ip, 4_999_999_999));
    assert!(limiter.check_at(ip, 5_000_000_000));
    let mut gate: AdmissionGate = admission_gate();
    assert!(gate.try_admit_at(ip, 0) && gate.try_admit_at(ip, 0));
    assert!(!gate.try_admit_at(ip, 0));
}
