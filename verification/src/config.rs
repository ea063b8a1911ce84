//! Configuration: sections with their defaults, the bearer token, and the
//! rules by which files and environment are put to use.

use vstd::prelude::*;
use vstd::string::*;
use vstd::utf8::*;

use crate::market::MarketKind;
use crate::net::{IpAddress, SocketAddress};
use crate::text::{
    clone_option, clone_strings, contains_text, text_eq, to_byte_lower, to_hex, trim,
};

verus! {

/// Market kind as it appears in the whitelist section.
#[derive(Debug, Clone, Copy, Hash, PartialEq, Eq, Structural)]
pub enum ConfigMarketKind {
    Spot,
    Linear,
    Inverse,
}

impl ConfigMarketKind {
    /// The market kind that the adapters know.
    pub open spec fn kind(self) -> MarketKind {
        match self {
            ConfigMarketKind::Spot => MarketKind::Spot,
            ConfigMarketKind::Linear => MarketKind::LinearPerps,
            ConfigMarketKind::Inverse => MarketKind::InversePerps,
        }
    }

    /// The name that the whitelist section uses.
    pub open spec fn spec_name(self) -> Seq<char> {
        match self {
            ConfigMarketKind::Spot => "spot"@,
            ConfigMarketKind::Linear => "linear"@,
            ConfigMarketKind::Inverse => "inverse"@,
        }
    }

    /// The name that the whitelist section uses.
    pub fn name(self) -> (name: String)
        ensures
            name@ == self.spec_name(),
    {
        match self {
            ConfigMarketKind::Spot => "spot".to_owned(),
            ConfigMarketKind::Linear => "linear".to_owned(),
            ConfigMarketKind::Inverse => "inverse".to_owned(),
        }
    }
}

impl From<ConfigMarketKind> for MarketKind {
    fn from(kind: ConfigMarketKind) -> (market: MarketKind) {
        match kind {
            ConfigMarketKind::Spot => MarketKind::Spot,
            ConfigMarketKind::Linear => MarketKind::LinearPerps,
            ConfigMarketKind::Inverse => MarketKind::InversePerps,
        }
    }
}

impl vstd::std_specs::convert::FromSpecImpl<ConfigMarketKind> for MarketKind {
    open spec fn obeys_from_spec() -> bool {
        true
    }

    open spec fn from_spec(kind: ConfigMarketKind) -> MarketKind {
        kind.kind()
    }
}

/// The quote assets to follow in one kind of market. An empty quote stands for
/// all of them.
#[derive(Debug)]
pub struct MarketTemplate {
    pub market: ConfigMarketKind,
    pub quotes: Vec<String>,
}

/// The mathematical value of a [`MarketTemplate`].
#[verifier::ext_equal]
pub struct MarketTemplateView {
    pub market: ConfigMarketKind,
    pub quotes: Seq<Seq<char>>,
}

impl View for MarketTemplate {
    type V = MarketTemplateView;

    open spec fn view(&self) -> MarketTemplateView {
        MarketTemplateView { market: self.market, quotes: crate::text::views(self.quotes@) }
    }
}

impl Clone for MarketTemplate {
    fn clone(&self) -> (copy: MarketTemplate)
        ensures
            copy@ == self@,
    {
        MarketTemplate { market: self.market, quotes: clone_strings(&self.quotes) }
    }
}

/// The markets to follow at one venue.
#[derive(Debug)]
pub struct VenueTemplate {
    pub venue: String,
    pub markets: Vec<MarketTemplate>,
}

/// The mathematical value of a [`VenueTemplate`].
#[verifier::ext_equal]
pub struct VenueTemplateView {
    pub venue: Seq<char>,
    pub markets: Seq<MarketTemplateView>,
}

impl View for VenueTemplate {
    type V = VenueTemplateView;

    open spec fn view(&self) -> VenueTemplateView {
        VenueTemplateView { venue: self.venue@, markets: crate::text::views(self.markets@) }
    }
}

impl Clone for VenueTemplate {
    fn clone(&self) -> (copy: VenueTemplate)
        ensures
            copy@ == self@,
    {
        let mut markets: Vec<MarketTemplate> = Vec::new();
        let mut i: usize = 0;
        while i < self.markets.len()
            invariant
                i <= self.markets@.len(),
                markets@.len() == i,
                forall|j: int| 0 <= j < i ==> (#[trigger] markets@[j])@ == self.markets@[j]@,
            decreases self.markets@.len() - i,
        {
            markets.push(self.markets[i].clone());
            i += 1;
        }
        let copy = VenueTemplate { venue: self.venue.clone(), markets };
        assert(copy@ =~~= self@);
        copy
    }
}

/// Whitelist templates: for each venue and kind of market, the quote assets.
/// The exchange-specific ticker (separators, `_PERP`, `-SWAP`) is derived from
/// them.
pub type WhitelistTemplates = Vec<VenueTemplate>;

/// Command-line arguments.
#[derive(Debug, Clone)]
pub struct Args {
    /// Path to the configuration file.
    pub config: Option<String>,
}

/// `[network]` section: bind address, rate limiting, and TLS domain.
#[derive(Debug, Clone)]
pub struct NetworkConfig {
    /// Socket address to bind the HTTP API.
    pub bind_address: SocketAddress,
    /// Per-address rate limit: max requests per 10-second window. `0` disables
    /// rate limiting.
    pub max_requests: u64,
    /// Domain name inserted into the self-signed TLS certificate.
    pub tls_domain: String,
}

/// `127.0.0.1:8080`.
pub open spec fn default_bind_address() -> SocketAddress {
    SocketAddress { ip: IpAddress::V4(0x7f00_0001), port: 8080 }
}

impl Default for NetworkConfig {
    fn default() -> (config: NetworkConfig)
        ensures
            config.bind_address == default_bind_address(),
            config.max_requests == 500,
            config.tls_domain@ == "flowsurface-server"@,
    {
        NetworkConfig {
            bind_address: SocketAddress { ip: IpAddress::V4(0x7f00_0001), port: 8080 },
            max_requests: 500,
            tls_domain: "flowsurface-server".to_owned(),
        }
    }
}

impl NetworkConfig {
    /// Returns the max requests per window, or `None` when disabled.
    pub fn rate_limit_max(&self) -> (max: Option<u64>)
        ensures
            self.max_requests == 0 ==> max is None,
            self.max_requests != 0 ==> max == Some(self.max_requests),
    {
        if self.max_requests == 0 {
            None
        } else {
            Some(self.max_requests)
        }
    }
}

/// `[storage]` section: data directory, flush interval, retention, and caps.
#[derive(Debug, Clone)]
pub struct StorageConfig {
    /// Directory of the database, the auth token, and the TLS files.
    pub data_dir: String,
    /// Trade batch-flush interval in milliseconds.
    pub flush_interval_ms: u64,
    /// Data retention period in hours; `0` keeps all.
    pub data_retention_hours: u64,
    /// Maximum number of trades to buffer in memory before dropping.
    pub max_buffered_trades: usize,
    /// Hard cap on total database storage in megabytes; `0` disables it.
    pub max_storage_mb: u64,
    /// Database memory cap in megabytes; `0` keeps the database's default.
    pub memory_limit_mb: u64,
}

impl Default for StorageConfig {
    fn default() -> (config: StorageConfig)
        ensures
            config.data_dir@ == "data"@,
            config.flush_interval_ms == 2000,
            config.data_retention_hours == 168,
            config.max_buffered_trades == 200_000,
            config.max_storage_mb == 4096,
            config.memory_limit_mb == 0,
    {
        StorageConfig {
            data_dir: "data".to_owned(),
            flush_interval_ms: 2000,
            data_retention_hours: 168,
            max_buffered_trades: 200_000,
            max_storage_mb: 4096,
            memory_limit_mb: 0,
        }
    }
}

/// `[pairs]` section: base assets and discovery mode.
#[derive(Debug, Clone)]
pub struct PairsConfig {
    /// Base assets to expand via the whitelist templates.
    pub base_assets: Vec<String>,
    /// Whether to fetch metadata for all exchanges on startup, regardless of
    /// the whitelist.
    pub discovery_mode: bool,
}

impl Default for PairsConfig {
    fn default() -> (config: PairsConfig)
        ensures
            config.base_assets@.len() == 0,
            config.discovery_mode,
    {
        PairsConfig { base_assets: Vec::new(), discovery_mode: true }
    }
}

/// A bearer token used to authenticate API requests. It is never empty.
pub struct BearerToken {
    text: String,
}

/// What comes before the token in an authorization header.
pub const BEARER_PREFIX: &'static str = "Bearer ";

impl View for BearerToken {
    type V = Seq<char>;

    closed spec fn view(&self) -> Seq<char> {
        self.text@
    }
}

impl Clone for BearerToken {
    fn clone(&self) -> (copy: BearerToken)
        ensures
            copy@ == self@,
    {
        BearerToken { text: self.text.clone() }
    }
}

/// Whether an authorization header carries the token, whatever the case of
/// ASCII letters.
pub open spec fn authorizes(header: Seq<char>, token: Seq<char>) -> bool {
    crate::text::ascii_folded(header) == crate::text::ascii_folded("Bearer "@ + token)
}

proof fn lemma_authorizes_bytes(header: Seq<char>, token: Seq<char>)
    ensures
        authorizes(header, token) <==> crate::text::folded_bytes(encode_utf8(header))
            == crate::text::folded_bytes(encode_utf8("Bearer "@)) + crate::text::folded_bytes(
            encode_utf8(token),
        ),
        encode_utf8("Bearer "@).len() == 7,
{
    let full = "Bearer "@ + token;
    reveal_strlit("Bearer ");
    assert(is_ascii_chars("Bearer "@));
    is_ascii_chars_encode_utf8("Bearer "@);
    crate::text::lemma_encode_concat("Bearer "@, token);
    crate::text::lemma_fold_encoding(header);
    crate::text::lemma_fold_encoding(full);
    let joined = crate::text::folded_bytes(encode_utf8("Bearer "@)) + crate::text::folded_bytes(
        encode_utf8(token),
    );
    assert(crate::text::folded_bytes(encode_utf8(full)) =~= joined);
    if crate::text::folded_bytes(encode_utf8(header)) == joined {
        crate::text::lemma_encoding_injective(
            crate::text::ascii_folded(header),
            crate::text::ascii_folded(full),
        );
    }
}

/// Why a text is no bearer token.
#[derive(Debug, Clone, Copy, PartialEq, Eq, Structural)]
pub enum TokenError {
    Empty,
}

impl TokenError {
    /// The message shown to people.
    pub fn message(self) -> (message: String)
        ensures
            message@ == "Bearer token must not be empty"@,
    {
        "Bearer token must not be empty".to_owned()
    }
}

impl BearerToken {
    /// Create a token, or `None` if `raw` is empty.
    pub fn new(raw: String) -> (token: Option<BearerToken>)
        ensures
            raw@.len() == 0 ==> token is None,
            raw@.len() > 0 ==> (token matches Some(t) && t@ == raw@),
    {
        if raw.as_str().is_empty() {
            None
        } else {
            Some(BearerToken { text: raw })
        }
    }

    /// Create a token from text, which must not be empty.
    pub fn from_text(s: &str) -> (token: Result<BearerToken, TokenError>)
        ensures
            s@.len() == 0 ==> token == Err::<BearerToken, TokenError>(TokenError::Empty),
            s@.len() > 0 ==> (token matches Ok(t) && t@ == s@),
    {
        if s.is_empty() {
            Err(TokenError::Empty)
        } else {
            Ok(BearerToken { text: s.to_owned() })
        }
    }

    /// Check whether `authorization_header` is `"Bearer {token}"`, ignoring the
    /// case of ASCII letters.
    pub fn is_valid_authorization(&self, authorization_header: &str) -> (valid: bool)
        ensures
            valid == authorizes(authorization_header@, self@),
    {
        let header = authorization_header.as_bytes();
        let prefix = BEARER_PREFIX.as_bytes();
        let token = self.text.as_str().as_bytes();
        let ghost folded = crate::text::folded_bytes(header@);
        let ghost folded_prefix = crate::text::folded_bytes(prefix@);
        let ghost folded_token = crate::text::folded_bytes(token@);
        proof {
            lemma_authorizes_bytes(authorization_header@, self@);
        }
        // The length is not a secret.
        if header.len() < prefix.len() || header.len() - prefix.len() != token.len() {
            assert(folded.len() != (folded_prefix + folded_token).len());
            return false;
        }
        let (head, tail) = header.split_at(prefix.len());
        proof {
            assert(folded =~= crate::text::folded_bytes(head@) + crate::text::folded_bytes(tail@));
        }
        // The prefix is public knowledge, so this comparison may stop early.
        if !eq_ignore_ascii_case(head, prefix) {
            proof {
                assert(folded.take(7) =~= crate::text::folded_bytes(head@));
                assert((folded_prefix + folded_token).take(7) =~= folded_prefix);
            }
            return false;
        }
        let same = constant_time_eq_ignore_ascii_case(tail, token);
        proof {
            assert(folded.skip(7) =~= crate::text::folded_bytes(tail@));
            assert((folded_prefix + folded_token).skip(7) =~= folded_token);
        }
        same
    }

    /// The raw token.
    pub fn as_str(&self) -> (text: &str)
        ensures
            text@ == self@,
    {
        self.text.as_str()
    }

    /// What is shown in place of the token.
    pub fn redacted(&self) -> (text: String)
        ensures
            text@ == "[REDACTED]"@,
    {
        "[REDACTED]".to_owned()
    }

    /// Whether two tokens are the same.
    pub fn same_as(&self, other: &BearerToken) -> (same: bool)
        ensures
            same == (self@ == other@),
    {
        text_eq(self.text.as_str(), other.text.as_str())
    }
}

/// Compare two byte slices, ignoring the case of ASCII letters.
fn eq_ignore_ascii_case(a: &[u8], b: &[u8]) -> (same: bool)
    ensures
        same == (crate::text::folded_bytes(a@) == crate::text::folded_bytes(b@)),
{
    let ghost fa = crate::text::folded_bytes(a@);
    let ghost fb = crate::text::folded_bytes(b@);
    if a.len() != b.len() {
        assert(fa.len() != fb.len());
        return false;
    }
    let mut i: usize = 0;
    while i < a.len()
        invariant
            i <= a@.len(),
            a@.len() == b@.len(),
            fa == crate::text::folded_bytes(a@),
            fb == crate::text::folded_bytes(b@),
            forall|j: int| 0 <= j < i ==> fa[j] == fb[j],
        decreases a@.len() - i,
    {
        if to_byte_lower(a[i]) != to_byte_lower(b[i]) {
            assert(fa[i as int] != fb[i as int]);
            return false;
        }
        i += 1;
    }
    assert(fa =~= fb);
    true
}

/// Compare two byte slices of one length in **constant time**, ignoring the
/// case of ASCII letters: every position is compared, without stopping at the
/// first difference.
pub fn constant_time_eq_ignore_ascii_case(a: &[u8], b: &[u8]) -> (same: bool)
    requires
        a@.len() == b@.len(),
    ensures
        same == (crate::text::folded_bytes(a@) == crate::text::folded_bytes(b@)),
{
    let ghost fa = crate::text::folded_bytes(a@);
    let ghost fb = crate::text::folded_bytes(b@);
    let mut result: u8 = 0;
    let mut i: usize = 0;
    while i < a.len()
        invariant
            i <= a@.len(),
            a@.len() == b@.len(),
            fa == crate::text::folded_bytes(a@),
            fb == crate::text::folded_bytes(b@),
            result == 0 <==> forall|j: int| 0 <= j < i ==> fa[j] == fb[j],
        decreases a@.len() - i,
    {
        let x: u8 = to_byte_lower(a[i]);
        let y: u8 = to_byte_lower(b[i]);
        assert((result | (x ^ y)) == 0 <==> result == 0 && x == y) by (bit_vector);
        assert(x == fa[i as int] && y == fb[i as int]);
        result = result | (x ^ y);
        i += 1;
    }
    proof {
        if result == 0 {
            assert(fa =~= fb);
        }
    }
    result == 0
}

/// A token's own header is valid, whatever the case of its ASCII letters, and
/// two headers that are both valid differ in nothing but case.
pub proof fn law_header_is_token_up_to_case(token: Seq<char>, header: Seq<char>, other: Seq<char>)
    ensures
        authorizes("Bearer "@ + token, token),
        authorizes(header, token) && authorizes(other, token) ==> crate::text::ascii_folded(header)
            == crate::text::ascii_folded(other),
        authorizes(header, token) && crate::text::ascii_folded(header)
            == crate::text::ascii_folded(other) ==> authorizes(other, token),
{
}

/// Number of random bytes in a generated token.
pub const TOKEN_BYTES: usize = 32;

/// The operating system gave no random bytes.
#[derive(Debug, Clone, Copy, PartialEq, Eq, Structural)]
pub struct RandomUnavailable;

/// Calls `getrandom::getrandom` on a buffer of `count` bytes. The bytes are chosen
/// by chance and the call can fail, so only their number is claimed.
#[verifier::external_body]
fn random_bytes(count: usize) -> (bytes: Option<Vec<u8>>)
    requires
        count <= isize::MAX,
    ensures
        bytes matches Some(v) ==> v@.len() == count,
{
    let mut buf = vec![0u8; count];
    match getrandom::getrandom(buf.as_mut_slice()) {
        Ok(()) => Some(buf),
        Err(_) => None,
    }
}

/// The token that stands for `bytes` in hexadecimal.
pub fn token_of_bytes(bytes: &[u8]) -> (token: BearerToken)
    requires
        bytes@.len() > 0,
    ensures
        token@ == crate::text::hex_text(bytes@),
{
    BearerToken { text: to_hex(bytes) }
}

/// Whether a token has the form of a generated one: 256 bits in hexadecimal.
pub open spec fn is_minted(token: Seq<char>) -> bool {
    &&& token.len() == 64
    &&& forall|i: int| 0 <= i < token.len() ==> crate::text::is_hex_char(#[trigger] token[i])
}

/// The token made of what the operating system gave: its bytes in hexadecimal, or an
/// error if it gave none.
pub fn token_of_random(bytes: Option<Vec<u8>>) -> (token: Result<BearerToken, RandomUnavailable>)
    requires
        bytes matches Some(given) ==> given@.len() > 0,
    ensures
        match bytes {
            Some(given) => token matches Ok(t) && t@ == crate::text::hex_text(given@),
            None => token == Err::<BearerToken, RandomUnavailable>(RandomUnavailable),
        },
{
    match bytes {
        Some(given) => Ok(token_of_bytes(given.as_slice())),
        None => Err(RandomUnavailable),
    }
}

/// Generate a random 256-bit token in hexadecimal: [`token_of_random`] of 32 random
/// bytes.
pub fn generate_token() -> (token: Result<BearerToken, RandomUnavailable>)
    ensures
        token matches Ok(t) ==> is_minted(t@),
{
    let bytes = random_bytes(TOKEN_BYTES);
    proof {
        if bytes is Some {
            crate::text::lemma_hex_text(bytes->0@);
        }
    }
    token_of_random(bytes)
}

/// Retention period in hours. `0` means unlimited: no time-based purges.
#[derive(Debug, Clone, Copy)]
pub struct RetentionHours {
    hours: u64,
}

impl View for RetentionHours {
    type V = u64;

    closed spec fn view(&self) -> u64 {
        self.hours
    }
}

/// A number of hours in milliseconds, as they fit a signed 64-bit value: the largest
/// one stands for everything beyond it.
pub open spec fn span_millis(hours: u64) -> int {
    if hours * 3_600_000 > i64::MAX {
        i64::MAX as int
    } else {
        hours * 3_600_000
    }
}

impl RetentionHours {
    /// Create a retention period; every value is accepted.
    pub fn new(hours: u64) -> (retention: Result<RetentionHours, String>)
        ensures
            retention matches Ok(r) && r@ == hours,
    {
        Ok(RetentionHours { hours })
    }

    /// The raw hour count.
    pub fn as_hours(self) -> (hours: u64)
        ensures
            hours == self@,
    {
        self.hours
    }

    /// The equivalent span in milliseconds (clamped to `i64::MAX` on overflow).
    pub fn as_millis(self) -> (millis: i64)
        ensures
            millis == span_millis(self@),
    {
        let millis: u128 = self.hours as u128 * 3_600_000;
        if millis > i64::MAX as u128 {
            i64::MAX
        } else {
            millis as i64
        }
    }
}

/// A storage size in bytes.
#[derive(Debug, Clone, Copy, PartialEq, Eq, PartialOrd, Ord)]
pub struct StorageBytes {
    bytes: u64,
}

impl View for StorageBytes {
    type V = u64;

    closed spec fn view(&self) -> u64 {
        self.bytes
    }
}

/// `n` as it fits 64 bits: the largest value stands for everything beyond it.
pub open spec fn clamp_u64(n: int) -> int {
    if n > u64::MAX {
        u64::MAX as int
    } else {
        n
    }
}

/// The product, or the largest value where it does not fit.
pub fn saturating_product(a: u64, b: u64) -> (product: u64)
    ensures
        product == clamp_u64(a * b),
{
    match a.checked_mul(b) {
        Some(product) => product,
        None => u64::MAX,
    }
}

impl StorageBytes {
    /// Construct from a byte count.
    pub fn from_bytes(bytes: u64) -> (size: StorageBytes)
        ensures
            size@ == bytes,
    {
        StorageBytes { bytes }
    }

    /// Construct from a megabyte count (clamped to `u64::MAX` on overflow).
    pub fn from_mb(mb: u64) -> (size: StorageBytes)
        ensures
            size@ == clamp_u64(mb * 1_048_576),
    {
        StorageBytes { bytes: saturating_product(mb, 1_048_576) }
    }

    /// The raw byte count.
    pub fn as_bytes(self) -> (bytes: u64)
        ensures
            bytes == self@,
    {
        self.bytes
    }

    /// The size in whole megabytes (truncated).
    pub fn as_mb(self) -> (mb: u64)
        ensures
            mb == self@ / 1_048_576,
    {
        self.bytes / 1_048_576
    }

    /// Saturating multiplication.
    pub fn saturating_mul(self, rhs: u64) -> (size: StorageBytes)
        ensures
            size@ == clamp_u64(self@ * rhs),
    {
        StorageBytes { bytes: saturating_product(self.bytes, rhs) }
    }
}

/// Whole megabytes survive the way through bytes, where the largest number of megabytes
/// whose bytes fit stands for all beyond it.
pub proof fn law_megabytes_round_trip(mb: u64)
    ensures
        clamp_u64(mb * 1_048_576) / 1_048_576 == if mb <= u64::MAX / 1_048_576 {
            mb as int
        } else {
            u64::MAX as int / 1_048_576
        },
{
}

/// Top-level application configuration.
pub struct Config {
    pub network: NetworkConfig,
    pub storage: StorageConfig,
    pub pairs: PairsConfig,
    pub whitelist: Option<WhitelistTemplates>,
    pub auth_token: Option<BearerToken>,
}

/// The text of a token that may be absent.
pub open spec fn token_view(token: Option<BearerToken>) -> Option<Seq<char>> {
    crate::text::option_view(token)
}

/// What a token file holds: its text without surrounding white space, unless
/// nothing is left of it.
pub open spec fn stored_token(content: Option<Seq<char>>) -> Option<Seq<char>> {
    match content {
        Some(text) => if crate::text::trimmed(text).len() > 0 {
            Some(crate::text::trimmed(text))
        } else {
            None
        },
        None => None,
    }
}

/// The stored token, read from the content of the token file.
fn read_stored_token(content: Option<&str>) -> (token: Option<String>)
    ensures
        crate::text::option_view(token) == stored_token(match content {
            Some(text) => Some(text@),
            None => None,
        }),
{
    match content {
        Some(text) => {
            let inner = trim(text);
            if inner.as_str().is_empty() {
                None
            } else {
                Some(inner)
            }
        },
        None => None,
    }
}

/// The content of the token file as characters.
pub open spec fn content_view(content: Option<&str>) -> Option<Seq<char>> {
    match content {
        Some(text) => Some(text@),
        None => None,
    }
}

impl Config {
    /// Take the value of the token variable of the environment, if it is set and
    /// not empty.
    pub fn apply_env_token(&mut self, variable: Option<String>)
        ensures
            final(self).network == old(self).network,
            final(self).storage == old(self).storage,
            final(self).pairs == old(self).pairs,
            final(self).whitelist == old(self).whitelist,
            token_view(final(self).auth_token) == match variable {
                Some(value) => if value@.len() > 0 {
                    Some(value@)
                } else {
                    token_view(old(self).auth_token)
                },
                None => token_view(old(self).auth_token),
            },
    {
        if let Some(value) = variable {
            if let Some(token) = BearerToken::new(value) {
                self.auth_token = Some(token);
            }
        }
    }

    /// The whitelist templates, or none at all if the section is missing.
    pub fn resolve_whitelist(&self) -> (whitelist: WhitelistTemplates)
        ensures
            match self.whitelist {
                Some(templates) => crate::text::views(whitelist@) == crate::text::views(
                    templates@,
                ),
                None => whitelist@.len() == 0,
            },
    {
        let mut whitelist: WhitelistTemplates = Vec::new();
        if let Some(templates) = &self.whitelist {
            let mut i: usize = 0;
            while i < templates.len()
                invariant
                    i <= templates@.len(),
                    whitelist@.len() == i,
                    forall|j: int| 0 <= j < i ==> (#[trigger] whitelist@[j])@ == templates@[j]@,
                decreases templates@.len() - i,
            {
                whitelist.push(templates[i].clone());
                i += 1;
            }
            assert(crate::text::views(whitelist@) =~= crate::text::views(templates@));
        }
        whitelist
    }

    /// Settle on the token that guards the API, given the content of the token
    /// file.
    ///
    /// A loopback bind needs none. Otherwise a token from the environment wins,
    /// then the one on disk, and where there is neither a fresh one is minted.
    /// Returns what has to be written to the token file, if that differs from
    /// what it holds.
    pub fn resolve_auth_token(&mut self, on_disk: Option<&str>) -> (write: Result<
        Option<String>,
        RandomUnavailable,
    >)
        ensures
            final(self).network == old(self).network,
            final(self).storage == old(self).storage,
            final(self).pairs == old(self).pairs,
            final(self).whitelist == old(self).whitelist,
            old(self).network.bind_address.ip.spec_is_loopback() ==> {
                &&& write matches Ok(None)
                &&& token_view(final(self).auth_token) == token_view(old(self).auth_token)
            },
            !old(self).network.bind_address.ip.spec_is_loopback() ==> {
                let stored = stored_token(content_view(on_disk));
                let explicit = token_view(old(self).auth_token);
                match write {
                    Ok(text) => {
                        &&& final(self).auth_token is Some
                        &&& explicit is Some ==> token_view(final(self).auth_token) == explicit
                        &&& explicit is None && stored is Some ==> token_view(
                            final(self).auth_token,
                        ) == stored
                        &&& explicit is None && stored is None ==> is_minted(
                            token_view(final(self).auth_token)->0,
                        )
                        &&& crate::text::option_view(text) == if stored == token_view(
                            final(self).auth_token,
                        ) {
                            None
                        } else {
                            token_view(final(self).auth_token)
                        }
                    },
                    Err(_) => {
                        &&& explicit is None
                        &&& stored is None
                        &&& token_view(final(self).auth_token) == explicit
                    },
                }
            },
    {
        if self.network.bind_address.ip.is_loopback() {
            return Ok(None);
        }
        let stored = read_stored_token(on_disk);
        let token = match &self.auth_token {
            Some(explicit) => explicit.clone(),
            None => match &stored {
                Some(text) => BearerToken { text: text.clone() },
                None => match generate_token() {
                    Ok(minted) => minted,
                    Err(error) => return Err(error),
                },
            },
        };
        let known = match &stored {
            Some(text) => text_eq(text.as_str(), token.as_str()),
            None => false,
        };
        let write = if known {
            None
        } else {
            Some(token.text.clone())
        };
        self.auth_token = Some(token);
        Ok(write)
    }
}

/// Where the configuration file is looked for.
#[derive(Debug, Clone, Copy, PartialEq, Eq, Structural)]
pub enum ConfigLocation {
    /// The path given on the command line.
    Given,
    /// Next to the manifest of the project.
    ProjectRoot,
    /// Next to the executable.
    BesideExecutable,
    /// In the working directory.
    WorkingDirectory,
}

/// Whether the process runs out of a build directory.
pub open spec fn runs_via_cargo(cargo_variable: bool, executable: Option<Seq<char>>) -> bool {
    cargo_variable || match executable {
        Some(path) => crate::text::occurs_in("/target/"@, path) || crate::text::occurs_in(
            "\\target\\"@,
            path,
        ),
        None => false,
    }
}

/// Decide where the configuration file is looked for.
///
/// A path given on the command line is always honoured. A process run out of a
/// build directory uses the project root, and a deployed one the directory of
/// its executable.
pub fn config_location(
    given: bool,
    cargo_variable: bool,
    executable: Option<&str>,
    executable_has_parent: bool,
) -> (location: ConfigLocation)
    ensures
        location == if given {
            ConfigLocation::Given
        } else if runs_via_cargo(cargo_variable, content_view(executable)) {
            ConfigLocation::ProjectRoot
        } else if executable_has_parent {
            ConfigLocation::BesideExecutable
        } else {
            ConfigLocation::WorkingDirectory
        },
{
    if given {
        return ConfigLocation::Given;
    }
    let built = match executable {
        Some(path) => contains_text(path, "/target/") || contains_text(path, "\\target\\"),
        None => false,
    };
    if cargo_variable || built {
        ConfigLocation::ProjectRoot
    } else if executable_has_parent {
        ConfigLocation::BesideExecutable
    } else {
        ConfigLocation::WorkingDirectory
    }
}

/// The exit code with which startup ends over the configuration file, if it
/// does.
///
/// A missing file is replaced by the template, and the process exits with code 2
/// so that a supervisor can tell "not yet configured" from a crash. A template
/// that cannot be written and a file that cannot be parsed end it with code 1; a
/// broken file is never overwritten.
pub fn config_exit_code(present: bool, template_written: bool, parsed: bool) -> (code: Option<i32>)
    ensures
        code == if !present {
            if template_written {
                Some(2i32)
            } else {
                Some(1i32)
            }
        } else if parsed {
            None
        } else {
            Some(1i32)
        },
{
    if !present {
        if template_written {
            Some(2)
        } else {
            Some(1)
        }
    } else if parsed {
        None
    } else {
        Some(1)
    }
}

/// A token that was written to the token file is read back unchanged, unless it begins
/// or ends with white space.
pub proof fn law_written_token_is_read_back(token: Seq<char>)
    requires
        token.len() > 0,
        !crate::text::whitespace(token[0]),
        !crate::text::whitespace(token.last()),
    ensures
        stored_token(Some(token)) == Some(token),
{
}

/// A generated token persists across restarts: what the first start writes is what the
/// next one finds.
pub proof fn law_minted_token_persists(token: Seq<char>)
    requires
        is_minted(token),
    ensures
        stored_token(Some(token)) == Some(token),
{
    assert(crate::text::is_hex_char(token[0]));
    assert(crate::text::is_hex_char(token[token.len() - 1]));
    law_written_token_is_read_back(token);
}

/// A header carries the token if and only if it is the word `Bearer`, a blank and the
/// token, where nothing but the case of ASCII letters may differ. So a header that is
/// longer, shorter or another in any other place is no valid one.
pub proof fn law_header_must_be_the_token(token: BearerToken, header: &str, valid: bool)
    requires
        call_ensures(BearerToken::is_valid_authorization, (&token, header), valid),
    ensures
        valid <==> header@.len() == 7 + token@.len() && forall|i: int|
            0 <= i < header@.len() ==> crate::text::same_letter(
                #[trigger] header@[i],
                (seq!['B', 'e', 'a', 'r', 'e', 'r', ' '] + token@)[i],
            ),
{
    reveal_strlit("Bearer ");
    let prefix = seq!['B', 'e', 'a', 'r', 'e', 'r', ' '];
    assert("Bearer "@ =~= prefix);
    let full = prefix + token@;
    let left = crate::text::ascii_folded(header@);
    let right = crate::text::ascii_folded(full);
    assert(left.len() == header@.len() && right.len() == full.len());
    if valid {
        assert forall|i: int| 0 <= i < header@.len() implies crate::text::same_letter(
            #[trigger] header@[i],
            full[i],
        ) by {
            assert(left[i] == right[i]);
            crate::text::lemma_same_letter(header@[i], full[i]);
        }
    }
    if header@.len() == full.len() && forall|i: int|
        0 <= i < header@.len() ==> crate::text::same_letter(#[trigger] header@[i], full[i]) {
        assert forall|i: int| 0 <= i < left.len() implies left[i] == right[i] by {
            assert(crate::text::same_letter(header@[i], full[i]));
            crate::text::lemma_same_letter(header@[i], full[i]);
        }
        assert(left =~= right);
    }
}

/// A token is the text that it was made of, and no token is empty.
pub proof fn law_tokens_are_their_text(
    s: &str,
    token: Result<BearerToken, TokenError>,
    text: &str,
)
    requires
        call_ensures(BearerToken::from_text, (s,), token),
        token matches Ok(t) ==> call_ensures(BearerToken::as_str, (&t,), text),
    ensures
        token is Err <==> s@.len() == 0,
        token is Ok ==> text@ == s@,
{
}

/// A token made of the environment's text is that text.
pub proof fn law_raw_tokens_are_their_text(raw: String, token: Option<BearerToken>)
    requires
        call_ensures(BearerToken::new, (raw,), token),
    ensures
        token is None <==> raw@.len() == 0,
        token matches Some(t) ==> t@ == raw@,
{
}

/// What is shown of a token does not depend on it.
pub proof fn law_shown_tokens_tell_nothing(
    a: BearerToken,
    b: BearerToken,
    first: String,
    second: String,
)
    requires
        call_ensures(BearerToken::redacted, (&a,), first),
        call_ensures(BearerToken::redacted, (&b,), second),
    ensures
        first@ == second@,
{
}

/// Two tokens are the same if and only if their texts are.
pub proof fn law_tokens_are_compared_whole(a: BearerToken, b: BearerToken, same: bool)
    requires
        call_ensures(BearerToken::same_as, (&a, &b), same),
    ensures
        same <==> a@ == b@,
{
}

/// A token made of random bytes spells them out in two hexadecimal digits each, so that
/// different bytes make different tokens.
pub proof fn law_random_tokens_spell_their_bytes(bytes: Vec<u8>, token: Result<
    BearerToken,
    RandomUnavailable,
>, i: int)
    requires
        bytes@.len() > 0,
        call_ensures(token_of_random, (Some(bytes),), token),
    ensures
        token matches Ok(t) && t@.len() == 2 * bytes@.len(),
        0 <= i < bytes@.len() ==> (token matches Ok(t) && crate::json::hex_value(t@[2 * i])
            == Some((bytes@[i] / 16) as nat) && crate::json::hex_value(t@[2 * i + 1]) == Some(
            (bytes@[i] % 16) as nat,
        )),
{
    if 0 <= i < bytes@.len() {
        crate::json::law_hex_digits_read_back(bytes@[i] as nat / 16);
        crate::json::law_hex_digits_read_back(bytes@[i] as nat % 16);
        assert((2 * i) / 2 == i && (2 * i) % 2 == 0);
        assert((2 * i + 1) / 2 == i && (2 * i + 1) % 2 == 1);
    }
}

/// Where the operating system gives no bytes there is no token.
pub proof fn law_no_bytes_no_token(token: Result<BearerToken, RandomUnavailable>)
    requires
        call_ensures(token_of_random, (None::<Vec<u8>>,), token),
    ensures
        token is Err,
{
}

/// A generated token has two hundred and fifty-six bits: sixty-four hexadecimal digits.
pub proof fn law_generated_tokens_have_256_bits(
    token: Result<BearerToken, RandomUnavailable>,
    i: int,
)
    requires
        call_ensures(generate_token, (), token),
    ensures
        token matches Ok(t) ==> t@.len() == 64 && (0 <= i < 64 ==> ('0' <= t@[i] <= '9') || (
        'a' <= t@[i] <= 'f')),
{
    if let Ok(t) = token {
        if 0 <= i < 64 {
            assert(crate::text::is_hex_char(t@[i]));
        }
    }
}

/// The environment's token replaces the configured one, unless it is missing or empty, and
/// nothing else changes.
pub proof fn law_environment_token_wins(config: &mut Config, variable: Option<String>)
    requires
        call_ensures(Config::apply_env_token, (config, variable), ()),
    ensures
        variable matches Some(value) ==> value@.len() > 0 ==> (
        final(config).auth_token matches Some(token) && token@ == value@),
        variable is None ==> token_view(final(config).auth_token) == token_view(
            old(config).auth_token,
        ),
        variable matches Some(value) ==> value@.len() == 0 ==> token_view(
            final(config).auth_token,
        ) == token_view(old(config).auth_token),
        final(config).network == old(config).network,
        final(config).storage == old(config).storage,
        final(config).pairs == old(config).pairs,
        final(config).whitelist == old(config).whitelist,
{
}

/// A server that others can reach always has a token, if it starts at all: the configured
/// one, else the one on disk, else a new one. What is not on disk yet is written there.
pub proof fn law_reachable_servers_have_a_token(
    config: &mut Config,
    on_disk: Option<&str>,
    write: Result<Option<String>, RandomUnavailable>,
)
    requires
        call_ensures(Config::resolve_auth_token, (config, on_disk), write),
        !old(config).network.bind_address.ip.spec_is_loopback(),
    ensures
        write is Ok ==> final(config).auth_token is Some,
        old(config).auth_token matches Some(token) ==> write is Ok && (
        final(config).auth_token matches Some(kept) && kept@ == token@),
        on_disk matches Some(text) ==> old(config).auth_token is None && crate::text::trimmed(
            text@,
        ).len() > 0 ==> write is Ok && (final(config).auth_token matches Some(kept) && kept@
            == crate::text::trimmed(text@)),
        old(config).auth_token is None && on_disk is None && write is Ok ==> (
        final(config).auth_token matches Some(minted) && minted@.len() == 64),
        write matches Ok(Some(text)) ==> (final(config).auth_token matches Some(kept) && text@
            == kept@),
        write matches Ok(None) ==> on_disk is Some && (final(config).auth_token matches Some(kept)
            && crate::text::trimmed(on_disk->0@) == kept@),
        write is Ok && on_disk is None ==> write->Ok_0 is Some,
{
}

/// A server that only this machine reaches is left as it is configured.
pub proof fn law_local_servers_need_no_token(
    config: &mut Config,
    on_disk: Option<&str>,
    write: Result<Option<String>, RandomUnavailable>,
)
    requires
        call_ensures(Config::resolve_auth_token, (config, on_disk), write),
        old(config).network.bind_address.ip.spec_is_loopback(),
    ensures
        write matches Ok(None),
        token_view(final(config).auth_token) == token_view(old(config).auth_token),
{
}

/// The whitelist is the configured one, entry by entry, and empty where there is none.
pub proof fn law_whitelist_is_as_configured(config: Config, whitelist: WhitelistTemplates, i: int)
    requires
        call_ensures(Config::resolve_whitelist, (&config,), whitelist),
    ensures
        config.whitelist is None ==> whitelist@.len() == 0,
        config.whitelist matches Some(templates) ==> whitelist@.len() == templates@.len() && (0
            <= i < templates@.len() ==> whitelist@[i]@ == templates@[i]@),
{
    if let Some(templates) = config.whitelist {
        assert(crate::text::views(whitelist@).len() == whitelist@.len());
        assert(crate::text::views(templates@).len() == templates@.len());
        if 0 <= i < templates@.len() {
            assert(crate::text::views(whitelist@)[i] == whitelist@[i]@);
            assert(crate::text::views(templates@)[i] == templates@[i]@);
        }
    }
}

/// An entry of the whitelist is seen with everything it holds.
pub proof fn law_templates_are_seen_whole(venue: VenueTemplate, m: int, q: int)
    ensures
        venue@.venue == venue.venue@,
        venue@.markets.len() == venue.markets@.len(),
        0 <= m < venue.markets@.len() ==> venue@.markets[m].market == venue.markets@[m].market
            && venue@.markets[m].quotes.len() == venue.markets@[m].quotes@.len() && (0 <= q
            < venue.markets@[m].quotes@.len() ==> venue@.markets[m].quotes[q]
            == venue.markets@[m].quotes@[q]@),
{
}

/// Spot markets are spot markets, linear ones linear and inverse ones inverse.
pub proof fn law_market_kinds_correspond(kind: ConfigMarketKind)
    ensures
        kind.kind() is Spot <==> kind is Spot,
        kind.kind() is LinearPerps <==> kind is Linear,
        kind.kind() is InversePerps <==> kind is Inverse,
{
}

/// Zero requests switch the limit off, and every other number is the limit.
pub proof fn law_zero_requests_mean_no_limit(network: NetworkConfig, max: Option<u64>)
    requires
        call_ensures(NetworkConfig::rate_limit_max, (&network,), max),
    ensures
        max is None <==> network.max_requests == 0,
        max matches Some(n) ==> n == network.max_requests,
{
}

/// What is not configured is as documented: the server listens on this machine only, at
/// port 8080, grants five hundred requests, keeps a week and four gigabytes of trades,
/// and writes them every two seconds.
pub proof fn law_defaults_are_as_documented(
    network: NetworkConfig,
    storage: StorageConfig,
    pairs: PairsConfig,
)
    requires
        call_ensures(NetworkConfig::default, (), network),
        call_ensures(StorageConfig::default, (), storage),
        call_ensures(PairsConfig::default, (), pairs),
    ensures
        network.bind_address.ip == IpAddress::V4(0x7f00_0001),
        network.bind_address.port == 8080,
        network.max_requests == 500,
        network.tls_domain@ == "flowsurface-server"@,
        storage.data_dir@ == "data"@,
        storage.flush_interval_ms == 2000,
        storage.data_retention_hours == 7 * 24,
        storage.max_buffered_trades == 200_000,
        storage.max_storage_mb == 4 * 1024,
        storage.memory_limit_mb == 0,
        pairs.base_assets@.len() == 0,
        pairs.discovery_mode,
{
}

/// A path that was given is used; else a program that runs from its build directory looks
/// beside its sources and a deployed one beside itself.
pub proof fn law_configuration_is_looked_for(
    given: bool,
    cargo_variable: bool,
    executable: Option<&str>,
    has_parent: bool,
    location: ConfigLocation,
)
    requires
        call_ensures(config_location, (given, cargo_variable, executable, has_parent), location),
    ensures
        location is Given <==> given,
        !given && cargo_variable ==> location is ProjectRoot,
        executable matches Some(path) ==> !given && (crate::text::occurs_in("/target/"@, path@)
            || crate::text::occurs_in("\\target\\"@, path@)) ==> location is ProjectRoot,
        location is ProjectRoot ==> cargo_variable || (executable matches Some(path) && (
        crate::text::occurs_in("/target/"@, path@) || crate::text::occurs_in(
            "\\target\\"@,
            path@,
        ))),
        location is BesideExecutable ==> has_parent,
        location is WorkingDirectory ==> !has_parent,
{
}

/// The server starts if and only if its configuration file is there and can be read; a
/// file that was just made is told from a failure.
pub proof fn law_start_needs_a_configuration(
    present: bool,
    template_written: bool,
    parsed: bool,
    code: Option<i32>,
)
    requires
        call_ensures(config_exit_code, (present, template_written, parsed), code),
    ensures
        code is None <==> present && parsed,
        code == Some(2i32) <==> !present && template_written,
        code is Some ==> code == Some(1i32) || code == Some(2i32),
{
}

/// An hour is sixty minutes: a retention in milliseconds is that many hours, as far as it
/// fits.
pub proof fn law_retention_is_in_hours(retention: RetentionHours, millis: i64, hours: u64)
    requires
        call_ensures(RetentionHours::as_millis, (retention,), millis),
        call_ensures(RetentionHours::as_hours, (retention,), hours),
    ensures
        hours == retention@,
        hours <= i64::MAX / 3_600_000 ==> millis == hours * 60 * 60 * 1000,
        hours > i64::MAX / 3_600_000 ==> millis == i64::MAX,
{
}

/// Sizes are what they were made of: bytes as they are, and megabytes of 1024 times 1024
/// bytes, as far as they fit.
pub proof fn law_sizes_are_in_bytes(n: u64, bytes: StorageBytes, megabytes: StorageBytes)
    requires
        call_ensures(StorageBytes::from_bytes, (n,), bytes),
        call_ensures(StorageBytes::from_mb, (n,), megabytes),
    ensures
        bytes@ == n,
        n <= u64::MAX / 1_048_576 ==> megabytes@ == n * (1024 * 1024),
        n > u64::MAX / 1_048_576 ==> megabytes@ == u64::MAX,
{
}

/// A size in whole megabytes is rounded down.
pub proof fn law_megabytes_are_rounded_down(size: StorageBytes, bytes: u64, mb: u64)
    requires
        call_ensures(StorageBytes::as_bytes, (size,), bytes),
        call_ensures(StorageBytes::as_mb, (size,), mb),
    ensures
        mb * 1_048_576 <= bytes < (mb + 1) * 1_048_576,
{
}

/// A product is exact where it fits and else the largest number.
pub proof fn law_products_are_exact_or_largest(a: u64, b: u64, product: u64)
    requires
        call_ensures(saturating_product, (a, b), product),
    ensures
        a * b <= u64::MAX ==> product == a * b,
        a * b > u64::MAX ==> product == u64::MAX,
{
}

/// Whether two bytes are the same but for the case of an ASCII letter.
pub open spec fn same_byte(a: u8, b: u8) -> bool {
    ||| a == b
    ||| 0x61 <= a <= 0x7a && a == b + 0x20
    ||| 0x61 <= b <= 0x7a && b == a + 0x20
}

/// Bytes are compared one by one, ASCII letters whatever their case.
pub proof fn law_bytes_are_compared_one_by_one(a: &[u8], b: &[u8], same: bool)
    requires
        a@.len() == b@.len(),
        call_ensures(constant_time_eq_ignore_ascii_case, (a, b), same),
    ensures
        same <==> forall|i: int| 0 <= i < a@.len() ==> same_byte(#[trigger] a@[i], b@[i]),
{
    let left = crate::text::folded_bytes(a@);
    let right = crate::text::folded_bytes(b@);
    if same {
        assert forall|i: int| 0 <= i < a@.len() implies same_byte(#[trigger] a@[i], b@[i]) by {
            assert(left[i] == right[i]);
        }
    }
    if forall|i: int| 0 <= i < a@.len() ==> same_byte(#[trigger] a@[i], b@[i]) {
        assert forall|i: int| 0 <= i < left.len() implies left[i] == right[i] by {
            assert(same_byte(a@[i], b@[i]));
        }
        assert(left =~= right);
    }
}

/// A retention period is the hours that it was made of, and a size grows by a factor as far
/// as it fits.
pub proof fn law_settings_are_what_they_were_made_of(
    hours: u64,
    retention: Result<RetentionHours, String>,
    size: StorageBytes,
    factor: u64,
    product: StorageBytes,
)
    requires
        call_ensures(RetentionHours::new, (hours,), retention),
        call_ensures(StorageBytes::saturating_mul, (size, factor), product),
    ensures
        retention matches Ok(r) && r@ == hours,
        size@ * factor <= u64::MAX ==> product@ == size@ * factor,
        size@ * factor > u64::MAX ==> product@ == u64::MAX,
{
}

/// A text that is no token is told why, and market kinds are named as the configuration
/// writes them.
pub proof fn law_tokens_and_kinds_are_named(
    error: TokenError,
    message: String,
    kind: ConfigMarketKind,
    name: String,
)
    requires
        call_ensures(TokenError::message, (error,), message),
        call_ensures(ConfigMarketKind::name, (kind,), name),
    ensures
        message@ == "Bearer token must not be empty"@,
        kind is Spot ==> name@ == "spot"@,
        kind is Linear ==> name@ == "linear"@,
        kind is Inverse ==> name@ == "inverse"@,
{
}

} // verus!
