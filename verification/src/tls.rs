//! TLS set-up: when a certificate is needed, what it certifies, and the fingerprint by
//! which clients pin it.

use base64::Engine;
use sha2::Digest;
use vstd::prelude::*;
use vstd::string::*;

use crate::net::{IpAddress, SocketAddress};
use crate::text::{chars_eq, chars_of, string_of, text_eq, to_hex, trim_chars};

verus! {

/// How a line outside the encoded part of a PEM text begins.
pub const PEM_BOUNDARY: &'static str = "-----";

/// How the server is to be reached.
#[derive(Debug, Clone, Copy, PartialEq, Eq, Structural)]
pub enum TlsPlan {
    /// Plain HTTP: only this machine can connect.
    Plain,
    /// HTTPS with the stored certificate, or a new one where none is stored.
    KeepCertificate,
    /// HTTPS; the stored certificate is for another domain and has to go first.
    DiscardCertificate,
}

/// How the server is to be reached, by the address it listens on, whether a
/// certificate and key are stored, and for which domain.
pub open spec fn tls_plan(
    ip: IpAddress,
    stored: bool,
    stored_domain: Option<Seq<char>>,
    domain: Seq<char>,
) -> TlsPlan {
    if ip.spec_is_loopback() {
        TlsPlan::Plain
    } else if stored && stored_domain != Some(domain) {
        TlsPlan::DiscardCertificate
    } else {
        TlsPlan::KeepCertificate
    }
}

/// Decide how the server is to be reached.
pub fn plan_tls(
    address: &SocketAddress,
    stored: bool,
    stored_domain: &Option<String>,
    domain: &str,
) -> (plan: TlsPlan)
    ensures
        plan == tls_plan(address.ip, stored, crate::text::option_view(*stored_domain), domain@),
{
    if address.ip.is_loopback() {
        return TlsPlan::Plain;
    }
    let same = match stored_domain {
        Some(d) => text_eq(d.as_str(), domain),
        None => false,
    };
    if stored && !same {
        TlsPlan::DiscardCertificate
    } else {
        TlsPlan::KeepCertificate
    }
}

/// The address that the certificate names: a specific one, not a wildcard.
pub open spec fn certified_ip(ip: IpAddress) -> Option<IpAddress> {
    if ip.spec_is_unspecified() {
        None
    } else {
        Some(ip)
    }
}

/// What a certificate is to certify.
pub struct CertificateRequest {
    /// Names under which the server is reached.
    pub subject_names: Vec<String>,
    /// Address under which the server is reached.
    pub subject_ip: Option<IpAddress>,
    pub common_name: String,
    /// The basic constraints mark the certificate as an authority, with no bound on
    /// the length of a path.
    pub authority: bool,
}

/// The mathematical value of a [`CertificateRequest`].
#[verifier::ext_equal]
pub struct RequestView {
    pub subject_names: Seq<Seq<char>>,
    pub subject_ip: Option<IpAddress>,
    pub common_name: Seq<char>,
    pub authority: bool,
}

impl View for CertificateRequest {
    type V = RequestView;

    open spec fn view(&self) -> RequestView {
        RequestView {
            subject_names: crate::text::views(self.subject_names@),
            subject_ip: self.subject_ip,
            common_name: self.common_name@,
            authority: self.authority,
        }
    }
}

/// The request for a certificate for `domain` on a server that listens on `ip`: the
/// domain is the only subject name and the common name, the address is added unless it
/// is a wildcard, and the certificate is its own authority.
pub open spec fn request_for(ip: IpAddress, domain: Seq<char>) -> RequestView {
    RequestView {
        subject_names: seq![domain],
        subject_ip: certified_ip(ip),
        common_name: domain,
        authority: true,
    }
}

/// The request for a certificate for `domain` on a server that listens on `address`.
pub fn certificate_request(address: &SocketAddress, domain: &str) -> (request: CertificateRequest)
    ensures
        request@ == request_for(address.ip, domain@),
{
    let mut subject_names: Vec<String> = Vec::new();
    subject_names.push(domain.to_owned());
    let request = CertificateRequest {
        subject_names,
        subject_ip: if address.ip.is_unspecified() {
            None
        } else {
            Some(address.ip)
        },
        common_name: domain.to_owned(),
        authority: true,
    };
    assert(crate::text::views(request.subject_names@) =~= seq![domain@]);
    request
}

/// `rcgen::KeyPair`.
#[verifier::external_type_specification]
#[verifier::external_body]
pub struct ExKeyPair(rcgen::KeyPair);

/// `rcgen::CertificateParams`.
#[verifier::external_type_specification]
#[verifier::external_body]
pub struct ExCertificateParams(rcgen::CertificateParams);

/// `rcgen::Error`.
#[verifier::external_type_specification]
#[verifier::external_body]
pub struct ExRcgenError(rcgen::Error);

/// Calls `rcgen::KeyPair::generate`. The key is random and the call can fail, so
/// nothing is claimed of the result.
#[verifier::external_body]
fn generate_key() -> (key: Result<rcgen::KeyPair, rcgen::Error>) {
    rcgen::KeyPair::generate()
}

/// The PEM text of a key pair.
pub uninterp spec fn key_pem(key: rcgen::KeyPair) -> Seq<char>;

/// Calls `rcgen::KeyPair::serialize_pem`. The text is named [`key_pem`].
#[verifier::external_body]
fn key_text(key: &rcgen::KeyPair) -> (pem: String)
    ensures
        pem@ == key_pem(*key),
{
    key.serialize_pem()
}

/// Whether parameters ask for a certificate as requested.
pub uninterp spec fn asks_for(params: rcgen::CertificateParams, request: RequestView) -> bool;

/// Calls `rcgen::CertificateParams::new`, which fails exactly where a subject name is
/// not ASCII, and fills in the rest of the request. The parameters then ask for what was
/// requested, which is named [`asks_for`].
#[verifier::external_body]
fn certificate_params(request: CertificateRequest) -> (params: Result<
    rcgen::CertificateParams,
    rcgen::Error,
>)
    ensures
        params is Ok <==> forall|i: int|
            0 <= i < request@.subject_names.len() ==> crate::text::ascii_only(
                #[trigger] request@.subject_names[i],
            ),
        params matches Ok(p) ==> asks_for(p, request@),
{
    let mut params = rcgen::CertificateParams::new(request.subject_names)?;
    params.is_ca = match request.authority {
        true => rcgen::IsCa::Ca(rcgen::BasicConstraints::Unconstrained),
        false => rcgen::IsCa::NoCa,
    };
    params.distinguished_name.push(rcgen::DnType::CommonName, request.common_name);
    params.subject_alt_names.extend(request.subject_ip.map(|ip| match ip {
        IpAddress::V4(bits) => rcgen::SanType::IpAddress(bits.to_be_bytes().into()),
        IpAddress::V6(bits) => rcgen::SanType::IpAddress(bits.to_be_bytes().into()),
    }));
    Ok(params)
}

/// Whether a PEM text holds a certificate as requested for a key, signed with it.
pub uninterp spec fn certifies(cert: Seq<char>, request: RequestView, key: Seq<char>) -> bool;

/// Calls `rcgen::CertificateParams::self_signed` and `rcgen::Certificate::pem`. The
/// call can fail, and the signature is random; a certificate that comes out is as the
/// parameters ask, and signed with the key, which is named [`certifies`].
#[verifier::external_body]
fn self_signed_text(params: &rcgen::CertificateParams, key: &rcgen::KeyPair) -> (pem: Result<
    String,
    rcgen::Error,
>)
    ensures
        pem matches Ok(text) ==> forall|request: RequestView| #[trigger]
            asks_for(*params, request) ==> certifies(text@, request, key_pem(*key)),
{
    params.self_signed(key).map(|cert| cert.pem())
}

/// What `base64` decodes `text` to with its standard alphabet and padding, if it can.
pub uninterp spec fn base64_decoded(text: Seq<char>) -> Option<Seq<u8>>;

/// Calls `base64::engine::general_purpose::STANDARD.decode`. The result is named
/// [`base64_decoded`].
#[verifier::external_body]
fn decode_base64(text: &str) -> (bytes: Option<Vec<u8>>)
    ensures
        crate::text::option_view(bytes) == base64_decoded(text@),
{
    base64::engine::general_purpose::STANDARD.decode(text).ok()
}

/// The SHA-256 digest of `data`.
pub uninterp spec fn sha256(data: Seq<u8>) -> Seq<u8>;

/// Calls `sha2::Sha256::digest`. The digest is named [`sha256`]; it has 32 bytes.
#[verifier::external_body]
fn digest_sha256(data: &[u8]) -> (digest: Vec<u8>)
    ensures
        digest@ == sha256(data@),
        digest@.len() == 32,
{
    sha2::Sha256::digest(data).to_vec()
}

/// The SHA-256 digest of `data` in hexadecimal.
pub fn sha256_hex(data: &[u8]) -> (text: String)
    ensures
        text@ == crate::text::hex_text(sha256(data@)),
        text@.len() == 64,
{
    let digest = digest_sha256(data);
    to_hex(digest.as_slice())
}

/// The length of the first line of `s`, without its line feed.
pub open spec fn line_len(s: Seq<char>) -> nat
    decreases s.len(),
{
    if s.len() == 0 || s[0] == '\n' {
        0
    } else {
        1 + line_len(s.drop_first())
    }
}

/// A line that ended in a line feed, without the carriage return before it.
pub open spec fn without_return(line: Seq<char>) -> Seq<char> {
    if line.len() > 0 && line.last() == '\r' {
        line.drop_last()
    } else {
        line
    }
}

/// The lines of `s`. Each ends at a line feed, with or without a carriage return
/// before it; what follows the last line feed is a line too, unless it is empty.
pub open spec fn lines(s: Seq<char>) -> Seq<Seq<char>>
    decreases s.len(),
{
    if s.len() == 0 {
        Seq::empty()
    } else if line_len(s) >= s.len() {
        seq![s]
    } else {
        seq![without_return(s.take(line_len(s) as int))] + lines(s.skip(line_len(s) as int + 1))
    }
}

proof fn lemma_line_len(s: Seq<char>)
    ensures
        line_len(s) <= s.len(),
        line_len(s) < s.len() ==> s[line_len(s) as int] == '\n',
        forall|i: int| 0 <= i < line_len(s) ==> s[i] != '\n',
    decreases s.len(),
{
    if s.len() > 0 && s[0] != '\n' {
        lemma_line_len(s.drop_first());
        assert forall|i: int| 0 <= i < line_len(s) implies s[i] != '\n' by {
            if i > 0 {
                assert(s[i] == s.drop_first()[i - 1]);
            }
        }
    }
}

proof fn lemma_line_len_unique(s: Seq<char>, n: nat)
    requires
        n <= s.len(),
        n < s.len() ==> s[n as int] == '\n',
        forall|i: int| 0 <= i < n ==> s[i] != '\n',
    ensures
        line_len(s) == n,
{
    lemma_line_len(s);
    if line_len(s) < n {
        assert(s[line_len(s) as int] != '\n');
    }
}

/// Take the first line off the front of `chars`: its end, and where the next begins.
fn first_line(chars: &[char], start: usize) -> (ends: (usize, usize))
    requires
        start < chars@.len(),
    ensures
        start <= ends.0 <= ends.1 <= chars@.len(),
        start < ends.1,
        lines(chars@.skip(start as int)) == seq![chars@.subrange(start as int, ends.0 as int)]
            + lines(chars@.skip(ends.1 as int)),
{
    let ghost rest = chars@.skip(start as int);
    let mut at: usize = start;
    while at < chars.len() && chars[at] != '\n'
        invariant
            start <= at <= chars@.len(),
            rest == chars@.skip(start as int),
            forall|i: int| 0 <= i < at - start ==> rest[i] != '\n',
        ensures
            at < chars@.len() ==> chars@[at as int] == '\n',
        decreases chars@.len() - at,
    {
        at += 1;
    }
    proof {
        lemma_line_len_unique(rest, (at - start) as nat);
    }
    if at == chars.len() {
        proof {
            assert(chars@.subrange(start as int, at as int) =~= rest);
            assert(chars@.skip(at as int) =~= Seq::<char>::empty());
            assert(seq![rest] + Seq::<Seq<char>>::empty() =~= seq![rest]);
        }
        return (at, at);
    }
    let end: usize = if at > start && chars[at - 1] == '\r' {
        at - 1
    } else {
        at
    };
    proof {
        let line = rest.take(at - start);
        assert(line =~= chars@.subrange(start as int, at as int));
        if at > start {
            assert(line.last() == chars@[at - 1]);
            assert(line.drop_last() =~= chars@.subrange(start as int, at - 1));
        }
        assert(rest.skip(at - start + 1) =~= chars@.skip(at + 1));
    }
    (end, at + 1)
}

/// Whether a line lies outside the encoded part of a PEM text.
pub open spec fn is_boundary(line: Seq<char>) -> bool {
    PEM_BOUNDARY@.is_prefix_of(line)
}

/// The lines up to the first boundary, without white space around them, as one text.
pub open spec fn joined_body(lines: Seq<Seq<char>>) -> Seq<char>
    decreases lines.len(),
{
    if lines.len() == 0 || is_boundary(lines[0]) {
        Seq::empty()
    } else {
        crate::text::trimmed(lines[0]) + joined_body(lines.drop_first())
    }
}

/// The encoded part of a PEM text: what stands between its first line, which is not
/// looked at, and the next boundary.
pub open spec fn body_text(pem: Seq<char>) -> Option<Seq<char>> {
    if pem.len() == 0 {
        None
    } else {
        Some(joined_body(lines(pem).drop_first()))
    }
}

/// The encoded part of a PEM text. `None` where the text has no line.
pub fn pem_body(pem: &str) -> (body: Option<String>)
    ensures
        crate::text::option_view(body) == body_text(pem@),
{
    let chars = chars_of(pem);
    let boundary = chars_of(PEM_BOUNDARY);
    if chars.len() == 0 {
        return None;
    }
    assert(chars@.skip(0) =~= chars@);
    let (_end, next) = first_line(chars.as_slice(), 0);
    let mut start: usize = next;
    let mut body: Vec<char> = Vec::new();
    let ghost all = joined_body(lines(chars@.skip(next as int)));
    proof {
        let rest = lines(chars@.skip(next as int));
        assert(lines(pem@).drop_first() =~= rest);
        assert(body@ + all =~= all);
    }
    let mut open = true;
    while open && start < chars.len()
        invariant
            start <= chars@.len(),
            boundary@ == PEM_BOUNDARY@,
            open ==> body@ + joined_body(lines(chars@.skip(start as int))) == all,
            !open ==> body@ == all,
        decreases chars@.len() - start, open as int,
    {
        let (end, after) = first_line(chars.as_slice(), start);
        let line = vstd::slice::slice_subrange(chars.as_slice(), start, end);
        let ghost rest = lines(chars@.skip(start as int));
        proof {
            assert(rest[0] == line@);
            assert(rest.drop_first() =~= lines(chars@.skip(after as int)));
        }
        if line.len() >= boundary.len() && chars_eq(
            vstd::slice::slice_subrange(line, 0, boundary.len()),
            boundary.as_slice(),
        ) {
            proof {
                assert(boundary@.is_prefix_of(line@));
                assert(body@ + Seq::<char>::empty() =~= body@);
            }
            open = false;
        } else {
            proof {
                if boundary@.is_prefix_of(line@) {
                    assert(line@.subrange(0, boundary@.len() as int) =~= boundary@);
                }
            }
            let inner = trim_chars(line);
            let ghost before = body@;
            body.extend_from_slice(inner.as_slice());
            proof {
                assert(body@ =~= before + inner@);
                let tail = joined_body(lines(chars@.skip(after as int)));
                assert((before + inner@) + tail =~= before + (inner@ + tail));
            }
            start = after;
        }
    }
    proof {
        if open {
            assert(chars@.skip(start as int) =~= Seq::<char>::empty());
            assert(body@ + Seq::<char>::empty() =~= body@);
        }
    }
    Some(string_of(body.as_slice()))
}

/// The certificate that a PEM text holds, if it can be decoded.
pub open spec fn der_of_pem(pem: Seq<char>) -> Option<Seq<u8>> {
    match body_text(pem) {
        Some(body) => base64_decoded(body),
        None => None,
    }
}

/// Extract the DER bytes of the first certificate in a PEM text.
pub fn pem_to_der(pem: &str) -> (der: Option<Vec<u8>>)
    ensures
        crate::text::option_view(der) == der_of_pem(pem@),
{
    match pem_body(pem) {
        Some(body) => decode_base64(body.as_str()),
        None => None,
    }
}

/// The fingerprint of the certificate in a PEM text, if it can be decoded.
pub open spec fn fingerprint(pem: Seq<char>) -> Option<Seq<char>> {
    match der_of_pem(pem) {
        Some(der) => Some(crate::text::hex_text(sha256(der))),
        None => None,
    }
}

/// The SHA-256 fingerprint of the first certificate in a PEM text, in hexadecimal.
pub fn fingerprint_from_pem(pem: &str) -> (text: Option<String>)
    ensures
        crate::text::option_view(text) == fingerprint(pem@),
{
    match pem_to_der(pem) {
        Some(der) => Some(sha256_hex(der.as_slice())),
        None => None,
    }
}

/// Why there is no certificate.
#[derive(Debug, Clone, Copy, PartialEq, Eq, Structural)]
pub enum TlsError {
    /// No key could be made.
    KeyGeneration,
    /// The domain cannot stand in a certificate.
    Parameters,
    /// The certificate could not be signed.
    Signing,
    /// The stored certificate cannot be read.
    LoadedFingerprint,
    /// The new certificate cannot be read.
    GeneratedFingerprint,
}

impl TlsError {
    /// The message for this error.
    pub open spec fn spec_message(self) -> Seq<char> {
        match self {
            TlsError::KeyGeneration => "generating ECDSA P-256 key pair"@,
            TlsError::Parameters => "creating certificate parameters"@,
            TlsError::Signing => "self-signing certificate"@,
            TlsError::LoadedFingerprint => "failed to compute fingerprint from loaded certificate"@,
            TlsError::GeneratedFingerprint =>
                "failed to compute fingerprint from generated certificate"@,
        }
    }

    /// The message for this error.
    pub fn message(&self) -> (text: &'static str)
        ensures
            text@ == self.spec_message(),
    {
        match self {
            TlsError::KeyGeneration => "generating ECDSA P-256 key pair",
            TlsError::Parameters => "creating certificate parameters",
            TlsError::Signing => "self-signing certificate",
            TlsError::LoadedFingerprint => "failed to compute fingerprint from loaded certificate",
            TlsError::GeneratedFingerprint =>
                "failed to compute fingerprint from generated certificate",
        }
    }
}

/// A self-signed certificate and its private key, both as PEM texts, and the
/// fingerprint by which clients pin it.
pub struct SelfSignedCert {
    pub cert_pem: String,
    pub key_pem: String,
    /// SHA-256 of the DER-encoded certificate, in hexadecimal.
    pub fingerprint: String,
}

impl SelfSignedCert {
    /// The fingerprint is that of the certificate.
    pub open spec fn wf(&self) -> bool {
        fingerprint(self.cert_pem@) == Some(self.fingerprint@)
    }

    /// A certificate and key that were stored earlier.
    pub fn from_stored(cert_pem: String, key_pem: String) -> (cert: Result<
        SelfSignedCert,
        TlsError,
    >)
        ensures
            match cert {
                Ok(c) => c.wf() && c.cert_pem@ == cert_pem@ && c.key_pem@ == key_pem@,
                Err(e) => e == TlsError::LoadedFingerprint && fingerprint(cert_pem@) is None,
            },
    {
        match fingerprint_from_pem(cert_pem.as_str()) {
            Some(fingerprint) => Ok(SelfSignedCert { cert_pem, key_pem, fingerprint }),
            None => Err(TlsError::LoadedFingerprint),
        }
    }

    /// A certificate and key that were just made.
    pub fn from_generated(cert_pem: String, key_pem: String) -> (cert: Result<
        SelfSignedCert,
        TlsError,
    >)
        ensures
            match cert {
                Ok(c) => c.wf() && c.cert_pem@ == cert_pem@ && c.key_pem@ == key_pem@,
                Err(e) => e == TlsError::GeneratedFingerprint && fingerprint(cert_pem@) is None,
            },
    {
        match fingerprint_from_pem(cert_pem.as_str()) {
            Some(fingerprint) => Ok(SelfSignedCert { cert_pem, key_pem, fingerprint }),
            None => Err(TlsError::GeneratedFingerprint),
        }
    }

    /// Make a key and a certificate for `domain` on a server that listens on
    /// `address`. The key and the signature are chosen by chance, and making them can
    /// fail. Parameters can be had for every domain in ASCII and for no other.
    pub fn generate(address: &SocketAddress, domain: &str) -> (cert: Result<
        SelfSignedCert,
        TlsError,
    >)
        ensures
            match cert {
                Ok(c) => crate::text::ascii_only(domain@) && c.wf() && certifies(
                    c.cert_pem@,
                    request_for(address.ip, domain@),
                    c.key_pem@,
                ),
                Err(TlsError::KeyGeneration) => true,
                Err(TlsError::Parameters) => !crate::text::ascii_only(domain@),
                Err(TlsError::Signing) => crate::text::ascii_only(domain@),
                Err(TlsError::GeneratedFingerprint) => crate::text::ascii_only(domain@),
                Err(TlsError::LoadedFingerprint) => false,
            },
    {
        let key = match generate_key() {
            Ok(key) => key,
            Err(_) => return Err(TlsError::KeyGeneration),
        };
        let request = certificate_request(address, domain);
        assert(request@.subject_names[0] == domain@);
        let params = match certificate_params(request) {
            Ok(params) => params,
            Err(_) => return Err(TlsError::Parameters),
        };
        match self_signed_text(&params, &key) {
            Ok(cert_pem) => SelfSignedCert::from_generated(cert_pem, key_text(&key)),
            Err(_) => Err(TlsError::Signing),
        }
    }

    /// How clients are told to pin the certificate.
    pub fn pin(&self) -> (text: String)
        ensures
            text@ == "sha256$"@ + self.fingerprint@,
    {
        let mut text = "sha256$".to_owned();
        text.append(self.fingerprint.as_str());
        text
    }
}

/// Loopback is served in the clear and every other address is not, whatever is stored.
pub proof fn law_only_loopback_is_plain(
    ip: IpAddress,
    stored: bool,
    stored_domain: Option<Seq<char>>,
    domain: Seq<char>,
)
    ensures
        tls_plan(ip, stored, stored_domain, domain) == TlsPlan::Plain <==> ip.spec_is_loopback(),
{
}

/// A stored certificate is kept exactly as long as the domain stays the same.
pub proof fn law_domain_change_discards_the_certificate(
    ip: IpAddress,
    stored_domain: Option<Seq<char>>,
    domain: Seq<char>,
)
    requires
        !ip.spec_is_loopback(),
    ensures
        tls_plan(ip, true, stored_domain, domain) == TlsPlan::KeepCertificate <==> stored_domain
            == Some(domain),
        tls_plan(ip, false, stored_domain, domain) == TlsPlan::KeepCertificate,
{
}

proof fn lemma_lines_concat(a: Seq<char>, b: Seq<char>)
    ensures
        lines(a.push('\n') + b) == lines(a.push('\n')) + lines(b),
    decreases a.len(),
{
    let left = a.push('\n');
    let whole = left + b;
    lemma_line_len(left);
    let n = line_len(left);
    assert(left[a.len() as int] == '\n');
    assert(n <= a.len());
    assert forall|i: int| 0 <= i < n implies whole[i] != '\n' by {
        assert(whole[i] == left[i]);
    }
    assert(whole[n as int] == left[n as int]);
    lemma_line_len_unique(whole, n);
    assert(whole.take(n as int) =~= left.take(n as int));
    let first = without_return(left.take(n as int));
    if n == a.len() {
        assert(left.skip(n as int + 1) =~= Seq::<char>::empty());
        assert(whole.skip(n as int + 1) =~= b);
        assert(lines(left) =~= seq![first] + lines(left.skip(n as int + 1)));
        assert(lines(Seq::<char>::empty()) =~= Seq::<Seq<char>>::empty());
    } else {
        let rest = a.skip(n as int + 1);
        assert(left.skip(n as int + 1) =~= rest.push('\n'));
        assert(whole.skip(n as int + 1) =~= rest.push('\n') + b);
        lemma_lines_concat(rest, b);
        assert(seq![first] + (lines(rest.push('\n')) + lines(b)) =~= (seq![first] + lines(
            rest.push('\n'),
        )) + lines(b));
    }
}

proof fn lemma_body_ends_at_boundary(before: Seq<Seq<char>>, rest: Seq<Seq<char>>)
    requires
        exists|i: int| 0 <= i < before.len() && is_boundary(#[trigger] before[i]),
    ensures
        joined_body(before + rest) == joined_body(before),
    decreases before.len(),
{
    let i = choose|i: int| 0 <= i < before.len() && is_boundary(#[trigger] before[i]);
    assert((before + rest)[0] == before[0]);
    if !is_boundary(before[0]) {
        assert(before.drop_first()[i - 1] == before[i]);
        assert((before + rest).drop_first() =~= before.drop_first() + rest);
        lemma_body_ends_at_boundary(before.drop_first(), rest);
    }
}

/// The fingerprint is that of the first certificate: once the boundary line behind it
/// has been reached, nothing that follows changes it.
pub proof fn law_fingerprint_is_of_the_first_certificate(first: Seq<char>, more: Seq<char>)
    requires
        exists|i: int|
            1 <= i < lines(first.push('\n')).len() && is_boundary(
                #[trigger] lines(first.push('\n'))[i],
            ),
    ensures
        fingerprint(first.push('\n') + more) == fingerprint(first.push('\n')),
{
    let head = lines(first.push('\n'));
    let i = choose|i: int| 1 <= i < head.len() && is_boundary(#[trigger] head[i]);
    lemma_lines_concat(first, more);
    assert(head.drop_first()[i - 1] == head[i]);
    lemma_body_ends_at_boundary(head.drop_first(), lines(more));
    assert((head + lines(more)).drop_first() =~= head.drop_first() + lines(more));
}

/// A server that only this machine reaches is served in the clear. Every other is served
/// over TLS, and its stored certificate goes if and only if there is one and it was not
/// made for the domain.
pub proof fn law_certificates_follow_the_domain(
    address: SocketAddress,
    stored: bool,
    stored_domain: Option<String>,
    domain: &str,
    local: bool,
    plan: TlsPlan,
)
    requires
        call_ensures(IpAddress::is_loopback, (&address.ip,), local),
        call_ensures(plan_tls, (&address, stored, &stored_domain, domain), plan),
    ensures
        plan is Plain <==> local,
        plan is DiscardCertificate ==> stored,
        plan is DiscardCertificate ==> (stored_domain matches Some(d) ==> d@ != domain@),
        stored_domain matches Some(d) ==> !local && stored && d@ != domain@
            ==> plan is DiscardCertificate,
        stored_domain is None && !local && stored ==> plan is DiscardCertificate,
{
}

/// A certificate is for the domain and for nothing else: the domain is its only name and
/// its common name, it is its own authority, and it names the address unless the server
/// listens on all of them.
pub proof fn law_certificates_name_the_server(
    address: SocketAddress,
    domain: &str,
    wildcard: bool,
    request: CertificateRequest,
)
    requires
        call_ensures(IpAddress::is_unspecified, (&address.ip,), wildcard),
        call_ensures(certificate_request, (&address, domain), request),
    ensures
        request.subject_names@.len() == 1,
        request.subject_names@[0]@ == domain@,
        request.common_name@ == domain@,
        request.authority,
        request.subject_ip is None <==> wildcard,
        request.subject_ip matches Some(ip) ==> ip == address.ip,
{
    assert(crate::text::views(request.subject_names@).len() == request.subject_names@.len());
    assert(crate::text::views(request.subject_names@)[0] == request.subject_names@[0]@);
}

/// Whether a line can stand in a text encoded in base 64: no line feed and no blank in it,
/// and not the start of a boundary.
pub open spec fn encoded_line(line: Seq<char>) -> bool {
    &&& line.len() > 0
    &&& line[0] != '-'
    &&& forall|i: int| 0 <= i < line.len() ==> !crate::text::whitespace(#[trigger] line[i])
}

proof fn lemma_first_line(line: Seq<char>, rest: Seq<char>)
    requires
        forall|i: int| 0 <= i < line.len() ==> #[trigger] line[i] != '\n' && line[i] != '\r',
    ensures
        lines(line.push('\n') + rest) == seq![line] + lines(rest),
{
    let whole = line.push('\n') + rest;
    let n = line.len();
    assert forall|i: int| 0 <= i < n implies whole[i] != '\n' by {
        assert(whole[i] == line[i]);
    }
    assert(whole[n as int] == '\n');
    lemma_line_len_unique(whole, n);
    assert(whole.take(n as int) =~= line);
    assert(whole.skip(n as int + 1) =~= rest);
    assert(without_return(line) == line) by {
        if line.len() > 0 {
            assert(line[line.len() - 1] != '\r');
        }
    }
}

proof fn lemma_encoded_line(line: Seq<char>)
    requires
        encoded_line(line),
    ensures
        !is_boundary(line),
        crate::text::trimmed(line) == line,
        forall|i: int| 0 <= i < line.len() ==> #[trigger] line[i] != '\n' && line[i] != '\r',
{
    reveal_strlit("-----");
    if is_boundary(line) {
        assert(line[0] == PEM_BOUNDARY@[0]);
    }
    assert forall|i: int| 0 <= i < line.len() implies #[trigger] line[i] != '\n' && line[i]
        != '\r' by {
        assert(!crate::text::whitespace(line[i]));
    }
    assert(!crate::text::whitespace(line[0]));
    assert(!crate::text::whitespace(line[line.len() - 1]));
    crate::text::law_text_without_blanks_stays(line);
}

/// The certificate in a PEM text is what its lines encode together: not the first line,
/// not the boundary behind them and nothing behind that.
pub proof fn law_pem_lines_are_joined(
    header: Seq<char>,
    first: Seq<char>,
    second: Seq<char>,
    behind: Seq<char>,
    pem: &str,
    body: Option<String>,
)
    requires
        forall|i: int| 0 <= i < header.len() ==> #[trigger] header[i] != '\n' && header[i] != '\r',
        encoded_line(first),
        encoded_line(second),
        pem@ == header.push('\n') + (first.push('\n') + (second.push('\n') + (seq![
            '-',
            '-',
            '-',
            '-',
            '-',
        ] + behind))),
        call_ensures(pem_body, (pem,), body),
    ensures
        body matches Some(text) && text@ == first + second,
{
    reveal_strlit("-----");
    let dashes = seq!['-', '-', '-', '-', '-'];
    assert(PEM_BOUNDARY@ =~= dashes);
    let end = dashes + behind;
    let tail = lines(end);
    lemma_encoded_line(first);
    lemma_encoded_line(second);
    lemma_first_line(header, first.push('\n') + (second.push('\n') + end));
    lemma_first_line(first, second.push('\n') + end);
    lemma_first_line(second, end);
    let inner = seq![first] + (seq![second] + tail);
    assert(lines(pem@).drop_first() =~= inner);
    assert(inner.drop_first() =~= seq![second] + tail);
    assert((seq![second] + tail).drop_first() =~= tail);
    assert(joined_body(tail).len() == 0) by {
        lemma_line_len(end);
        let n = line_len(end);
        if n < end.len() {
            if n < 5 {
                assert(end[n as int] == dashes[n as int]);
            }
            let taken = end.take(n as int);
            assert(tail[0] == without_return(taken));
            if taken.len() > 0 && taken.last() == '\r' {
                if n == 5 {
                    assert(taken[4] == dashes[4]);
                }
            }
            assert forall|i: int| 0 <= i < 5 implies dashes[i] == tail[0][i] by {
                assert(end[i] == dashes[i]);
            }
        } else {
            assert(tail =~= seq![end]);
            assert forall|i: int| 0 <= i < 5 implies dashes[i] == tail[0][i] by {}
        }
        assert(dashes.is_prefix_of(tail[0])) by {
            assert(tail[0].subrange(0, 5) =~= dashes);
        }
    }
    assert(joined_body(tail) =~= Seq::<char>::empty());
    assert(joined_body(seq![second] + tail) =~= second);
    assert(joined_body(inner) =~= first + second);
}

/// A text without a line has no certificate.
pub proof fn law_empty_text_has_no_certificate(pem: &str, body: Option<String>)
    requires
        call_ensures(pem_body, (pem,), body),
    ensures
        body is None <==> pem@.len() == 0,
{
}

/// The fingerprint is the SHA-256 of what the body of the PEM text decodes to, in sixty-four
/// hexadecimal digits, and there is one if and only if the body can be decoded.
pub proof fn law_fingerprint_is_the_digest(
    pem: &str,
    body: Option<String>,
    der: Option<Vec<u8>>,
    text: Option<String>,
    i: int,
)
    requires
        call_ensures(pem_body, (pem,), body),
        call_ensures(pem_to_der, (pem,), der),
        call_ensures(fingerprint_from_pem, (pem,), text),
    ensures
        body is None ==> der is None,
        body matches Some(b) ==> (der is Some <==> base64_decoded(b@) is Some),
        body matches Some(b) ==> (der matches Some(d) ==> base64_decoded(b@) == Some(d@)),
        text is Some <==> der is Some,
        der matches Some(d) ==> (text matches Some(t) ==> (0 <= i < sha256(d@).len() ==> t@.len()
            == 2 * sha256(d@).len() && crate::json::hex_value(t@[2 * i]) == Some(
            (sha256(d@)[i] / 16) as nat,
        ) && crate::json::hex_value(t@[2 * i + 1]) == Some((sha256(d@)[i] % 16) as nat))),
{
    if let Some(d) = der {
        let digest = sha256(d@);
        if 0 <= i < digest.len() {
            crate::json::law_hex_digits_read_back(digest[i] as nat / 16);
            crate::json::law_hex_digits_read_back(digest[i] as nat % 16);
            assert((2 * i) / 2 == i && (2 * i) % 2 == 0);
            assert((2 * i + 1) / 2 == i && (2 * i + 1) % 2 == 1);
        }
    }
}

/// A stored certificate and a new one are taken over with their keys, unless the
/// certificate cannot be read; the two failures are told apart.
pub proof fn law_certificates_are_taken_over(
    cert_pem: String,
    key_pem: String,
    pem: &str,
    text: Option<String>,
    stored: Result<SelfSignedCert, TlsError>,
    made: Result<SelfSignedCert, TlsError>,
)
    requires
        pem@ == cert_pem@,
        call_ensures(fingerprint_from_pem, (pem,), text),
        call_ensures(SelfSignedCert::from_stored, (cert_pem, key_pem), stored),
        call_ensures(SelfSignedCert::from_generated, (cert_pem, key_pem), made),
    ensures
        text is Some <==> stored is Ok,
        text is Some <==> made is Ok,
        stored matches Ok(c) ==> c.cert_pem@ == cert_pem@ && c.key_pem@ == key_pem@ && (
        text matches Some(t) && t@ == c.fingerprint@),
        made matches Ok(c) ==> c.cert_pem@ == cert_pem@ && c.key_pem@ == key_pem@ && (
        text matches Some(t) && t@ == c.fingerprint@),
        stored matches Err(e) ==> e is LoadedFingerprint,
        made matches Err(e) ==> e is GeneratedFingerprint,
{
}

/// Clients pin a certificate by its fingerprint, behind the name of the digest.
pub proof fn law_pin_is_the_fingerprint(cert: SelfSignedCert, text: String)
    requires
        call_ensures(SelfSignedCert::pin, (&cert,), text),
    ensures
        text@ == seq!['s', 'h', 'a', '2', '5', '6', '$'] + cert.fingerprint@,
{
    reveal_strlit("sha256$");
    assert("sha256$"@ =~= seq!['s', 'h', 'a', '2', '5', '6', '$']);
}

/// A certificate that was made is for an ASCII domain, has the fingerprint of its own text
/// and certifies the server with its key. A domain that is not ASCII gets none.
pub proof fn law_made_certificates_certify_the_server(
    address: SocketAddress,
    domain: &str,
    cert: Result<SelfSignedCert, TlsError>,
    pem: &str,
    text: Option<String>,
)
    requires
        call_ensures(SelfSignedCert::generate, (&address, domain), cert),
        call_ensures(fingerprint_from_pem, (pem,), text),
        cert matches Ok(c) ==> pem@ == c.cert_pem@,
    ensures
        cert is Ok ==> forall|i: int|
            0 <= i < domain@.len() ==> (#[trigger] domain@[i]) as int <= 127,
        cert matches Ok(c) ==> (text matches Some(t) && t@ == c.fingerprint@),
        cert matches Ok(c) ==> exists|request: RequestView| #[trigger]
            certifies(c.cert_pem@, request, c.key_pem@) && request.common_name == domain@
                && request.subject_names == seq![domain@] && request.authority,
        cert matches Err(e) ==> !(e is LoadedFingerprint),
{
    if let Ok(c) = cert {
        let request = request_for(address.ip, domain@);
        assert(certifies(c.cert_pem@, request, c.key_pem@));
    }
}

/// Each error has its message, and no two share one.
pub proof fn law_errors_are_told_apart(a: TlsError, b: TlsError, x: &'static str, y: &'static str)
    requires
        call_ensures(TlsError::message, (&a,), x),
        call_ensures(TlsError::message, (&b,), y),
    ensures
        x@ == y@ ==> a == b,
        x@.len() > 0,
{
    reveal_strlit("generating ECDSA P-256 key pair");
    reveal_strlit("creating certificate parameters");
    reveal_strlit("self-signing certificate");
    reveal_strlit("failed to compute fingerprint from loaded certificate");
    reveal_strlit("failed to compute fingerprint from generated certificate");
    assert("generating ECDSA P-256 key pair"@[0] == 'g');
    assert("creating certificate parameters"@[0] == 'c');
    assert("self-signing certificate"@[0] == 's');
    assert("failed to compute fingerprint from loaded certificate"@.len() == 53);
    assert("failed to compute fingerprint from generated certificate"@.len() == 56);
}

/// Each error says which step failed.
pub proof fn law_errors_say_which_step_failed(error: TlsError, text: &'static str)
    requires
        call_ensures(TlsError::message, (&error,), text),
    ensures
        error is KeyGeneration ==> text@ == "generating ECDSA P-256 key pair"@,
        error is Parameters ==> text@ == "creating certificate parameters"@,
        error is Signing ==> text@ == "self-signing certificate"@,
        error is LoadedFingerprint ==> text@
            == "failed to compute fingerprint from loaded certificate"@,
        error is GeneratedFingerprint ==> text@
            == "failed to compute fingerprint from generated certificate"@,
{
}

} // verus!
