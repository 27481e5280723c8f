//! Certificates for `.test` domains, signed by a local root CA.
//!
//! The manager keeps the certificates it has served in an in-memory cache
//! (a `DashMap`), so a domain's certificate is built or read once. The
//! cryptography is rcgen's and rustls's; reading and writing the PEM and DER
//! files happens outside the library, which says where they go.
use vstd::prelude::*;
use std::sync::Arc;
use dashmap::DashMap;
use rcgen::{CertificateParams, DnType, Issuer, KeyPair};
use rcgen::string::Ia5String;
use rustls::crypto::ring::sign::any_supported_type;
use rustls::pki_types::{CertificateDer, PrivateKeyDer, PrivatePkcs8KeyDer};
use rustls::sign::CertifiedKey;
use crate::text::{concat, copy_string, ends_with, join_path, path_join, str_ends_with, to_owned};

verus! {

// ── outside types ────────────────────────────────────────────────────────────

/// rustls's `CertifiedKey` (a certificate chain with its signing key),
/// carried through unopened.
#[verifier::external_type_specification]
#[verifier::external_body]
pub struct ExCertifiedKey(rustls::sign::CertifiedKey);

/// rcgen's `KeyPair`, carried through unopened.
#[verifier::external_type_specification]
#[verifier::external_body]
pub struct ExKeyPair(rcgen::KeyPair);

/// rcgen's `Ia5String` (an ASCII string for certificate fields), carried
/// through unopened.
#[verifier::external_type_specification]
#[verifier::external_body]
pub struct ExIa5String(rcgen::string::Ia5String);

/// rcgen's `CertificateParams`, carried through unopened; it is made from a
/// [`CertProfile`] by [`certificate_params`].
#[verifier::external_type_specification]
#[verifier::external_body]
pub struct ExCertificateParams(rcgen::CertificateParams);

/// rcgen's `Issuer` (a CA certificate's subject and key), carried through
/// unopened.
#[verifier::external_type_specification]
#[verifier::external_body]
#[verifier::reject_recursive_types(S)]
pub struct ExIssuer<'a, S>(rcgen::Issuer<'a, S>);

/// dashmap's concurrent `DashMap`; what it holds is named by
/// [`cached_chains`].
#[verifier::external_type_specification]
#[verifier::external_body]
#[verifier::reject_recursive_types(K)]
#[verifier::reject_recursive_types(V)]
#[verifier::reject_recursive_types(S)]
pub struct ExDashMap<K, V, S>(dashmap::DashMap<K, V, S>);

// ── names for what outside calls return ─────────────────────────────────────

/// What a certificate cache holds: for each domain, the DER certificates of
/// the chain its `CertifiedKey` presents.
pub uninterp spec fn cached_chains(m: DashMap<String, Arc<CertifiedKey>>) -> Map<Seq<char>, Seq<Seq<u8>>>;

/// The DER certificates a `CertifiedKey` presents (its public `cert`
/// field), in order.
pub uninterp spec fn key_chain(k: CertifiedKey) -> Seq<Seq<u8>>;

/// Whether the PKCS#8 DER `key_der` parses as a key type rustls can sign
/// with (the parse alone; drawing random numbers can still fail after it).
pub uninterp spec fn signing_key_supported(key_der: Seq<u8>) -> bool;

/// rcgen's reason for refusing `pem` as a PEM private key, if the text
/// itself is refused (not a PEM block, or no supported PKCS#8 key in it).
pub uninterp spec fn key_pem_error(pem: Seq<char>) -> Option<Seq<char>>;

/// rcgen's reason for refusing `pem` as a PEM CA certificate, if it does.
pub uninterp spec fn ca_pem_error(pem: Seq<char>) -> Option<Seq<char>>;

/// Every character is ASCII.
pub open spec fn is_ascii_text(s: Seq<char>) -> bool {
    forall|i: int| 0 <= i < s.len() ==> (s[i] as u32) < 128
}

// ── the certificate cache (dashmap) ─────────────────────────────────────────

/// `DashMap::new`: an empty map.
#[verifier::external_body]
fn cache_new() -> (m: DashMap<String, Arc<CertifiedKey>>)
    ensures
        cached_chains(m).dom() == Set::<Seq<char>>::empty(),
{
    DashMap::new()
}

/// `DashMap::get`, handing out a clone of the stored `Arc`: present exactly
/// when the key is in the map, and then presenting the stored chain.
#[verifier::external_body]
fn cache_get(m: &DashMap<String, Arc<CertifiedKey>>, domain: &str) -> (r: Option<Arc<CertifiedKey>>)
    ensures
        r is Some <==> cached_chains(*m).contains_key(domain@),
        r matches Some(k) ==> key_chain(*k) == cached_chains(*m)[domain@],
{
    match m.get(domain) {
        Some(entry) => Some(entry.value().clone()),
        None => None,
    }
}

/// `DashMap::contains_key`.
#[verifier::external_body]
fn cache_contains(m: &DashMap<String, Arc<CertifiedKey>>, domain: &str) -> (b: bool)
    ensures
        b == cached_chains(*m).contains_key(domain@),
{
    m.contains_key(domain)
}

/// `DashMap::insert`: afterwards the key maps to the inserted value, and no
/// other entry changed.
#[verifier::external_body]
fn cache_insert(m: &mut DashMap<String, Arc<CertifiedKey>>, domain: String, key: Arc<CertifiedKey>)
    ensures
        cached_chains(*final(m)) == cached_chains(*old(m)).insert(domain@, key_chain(*key)),
{
    m.insert(domain, key);
}


// ── key and certificate building (rcgen, rustls) ────────────────────────────

/// `rcgen::KeyPair::generate`: a fresh random ECDSA P-256 key pair, or
/// rcgen's error text. Nothing is stated of the key.
#[verifier::external_body]
fn generate_key_pair() -> (r: Result<KeyPair, String>)
{
    match KeyPair::generate() {
        Ok(k) => Ok(k),
        Err(e) => Err(e.to_string()),
    }
}

/// `rcgen::KeyPair::from_pem`: parses a PEM private key. A text that
/// [`key_pem_error`] refuses gives that error; a text it accepts may still
/// fail, since building an ECDSA key draws random numbers.
#[verifier::external_body]
fn key_pair_from_pem(pem: &str) -> (r: Result<KeyPair, String>)
    ensures
        r is Ok ==> key_pem_error(pem@) is None,
        r is Err || key_pem_error(pem@) is None,
        r matches Err(e) ==> (key_pem_error(pem@) is None || key_pem_error(pem@) == Some(e@)),
{
    match KeyPair::from_pem(pem) {
        Ok(k) => Ok(k),
        Err(e) => Err(e.to_string()),
    }
}

/// `rcgen::KeyPair::serialize_pem`: the key in PKCS#8 PEM. Nothing is
/// stated of the text.
#[verifier::external_body]
fn key_pair_pem(key: &KeyPair) -> (pem: String)
{
    key.serialize_pem()
}

/// `rcgen::KeyPair::serialize_der`: the key in PKCS#8 DER. Nothing is
/// stated of the bytes.
#[verifier::external_body]
fn key_pair_der(key: &KeyPair) -> (der: Vec<u8>)
{
    key.serialize_der()
}

/// Builds rcgen's `CertificateParams` from `p`, field by field: the CA kind,
/// the subject's name fields in order, and the DNS names as subject
/// alternative names; every other field keeps rcgen's default. Nothing is
/// stated of the result.
#[verifier::external_body]
fn certificate_params(p: CertProfile) -> (params: CertificateParams)
{
    let mut params = CertificateParams::default();
    params.is_ca = match p.ca {
        CaKind::NotCa => rcgen::IsCa::NoCa,
        CaKind::Unconstrained => rcgen::IsCa::Ca(rcgen::BasicConstraints::Unconstrained),
    };
    params.distinguished_name = rcgen::DistinguishedName::new();
    for (field, value) in p.subject {
        let ty = match field { NameField::CommonName => DnType::CommonName, NameField::OrganizationName => DnType::OrganizationName };
        params.distinguished_name.push(ty, value);
    }
    params.subject_alt_names = p.dns_names.into_iter().map(rcgen::SanType::DnsName).collect();
    params
}

/// `rcgen::CertificateParams::self_signed`, returning the certificate in
/// PEM, or rcgen's error text. Nothing is stated of the certificate.
#[verifier::external_body]
fn self_signed_pem(params: &CertificateParams, key: &KeyPair) -> (r: Result<String, String>)
{
    match params.self_signed(key) {
        Ok(cert) => Ok(cert.pem()),
        Err(e) => Err(e.to_string()),
    }
}

/// `rcgen::Issuer::from_ca_cert_pem`: an issuer made of the CA certificate
/// in PEM and its key; it fails exactly when [`ca_pem_error`] names a reason
/// (the key plays no part in that), and then with that text.
#[verifier::external_body]
fn issuer_from_ca_pem<'a>(pem: &str, key: &'a KeyPair) -> (r: Result<Issuer<'static, &'a KeyPair>, String>)
    ensures
        r is Ok <==> ca_pem_error(pem@) is None,
        r matches Err(e) ==> ca_pem_error(pem@) == Some(e@),
{
    match Issuer::from_ca_cert_pem(pem, key) {
        Ok(i) => Ok(i),
        Err(e) => Err(e.to_string()),
    }
}

/// `Ia5String::try_from(String)`: accepts exactly the ASCII strings; rcgen's
/// error for any other reads `Invalid IA5String: '<input>'`.
#[verifier::external_body]
fn ia5_string(s: String) -> (r: Result<Ia5String, String>)
    ensures
        r is Ok <==> is_ascii_text(s@),
        r matches Err(e) ==> e@ == "Invalid IA5String: '"@ + s@ + "'"@,
{
    match Ia5String::try_from(s) {
        Ok(v) => Ok(v),
        Err(e) => Err(e.to_string()),
    }
}

/// `rcgen::CertificateParams::signed_by` for `key`'s public key, returning
/// the certificate's DER, or rcgen's error text. Nothing is stated of the
/// certificate.
#[verifier::external_body]
fn signed_der(params: &CertificateParams, key: &KeyPair, issuer: &Issuer<'static, &KeyPair>) -> (r: Result<Vec<u8>, String>)
{
    match params.signed_by(key, issuer) {
        Ok(cert) => Ok(cert.der().to_vec()),
        Err(e) => Err(e.to_string()),
    }
}

/// `rustls::crypto::ring::sign::any_supported_type` on the PKCS#8 key, then
/// `CertifiedKey::new` with the one certificate: it succeeds only for a key
/// [`signing_key_supported`] accepts (building an ECDSA key draws random
/// numbers and may still fail), and the result presents exactly `cert_der`.
#[verifier::external_body]
fn certified_key(cert_der: Vec<u8>, key_der: Vec<u8>) -> (r: Result<Arc<CertifiedKey>, ()>)
    ensures
        r is Ok ==> signing_key_supported(key_der@),
        r matches Ok(k) ==> key_chain(*k) == seq![cert_der@],
{
    let key = PrivateKeyDer::Pkcs8(PrivatePkcs8KeyDer::from(key_der));
    match any_supported_type(&key) {
        Ok(signer) => Ok(Arc::new(CertifiedKey::new(vec![CertificateDer::from(cert_der)], signer))),
        Err(_) => Err(()),
    }
}

// ── errors ───────────────────────────────────────────────────────────────────

/// Why a certificate could not be served.
#[derive(Debug, Clone, PartialEq, Eq)]
pub enum CertError {
    /// Certificates are only issued for domains under `.test`.
    NotTestDomain { domain: String },
    /// The stored root CA key did not parse; `message` is rcgen's reason.
    RootKey { message: String },
    /// A fresh root CA could not be self-signed.
    RootCert { message: String },
    /// Key generation failed.
    KeyGeneration { message: String },
    /// The root CA certificate could not be used to sign.
    Issuer { message: String },
    /// The domain is not a valid DNS name for a certificate.
    DnsName { message: String },
    /// The domain certificate could not be signed.
    LeafCert { message: String },
    /// The private key is not in a format rustls can sign with.
    KeyFormat,
}

/// The message of a certificate error.
pub open spec fn cert_error_message(e: CertError) -> Seq<char> {
    match e {
        CertError::NotTestDomain { domain } => "Refusing to issue a certificate for a domain outside .test: "@
            + domain@,
        CertError::RootKey { message } => "Failed parsing root key: "@ + message@,
        CertError::RootCert { message } => "Failed generating root cert: "@ + message@,
        CertError::KeyGeneration { message } => message@,
        CertError::Issuer { message } => "Failed to create CA issuer: "@ + message@,
        CertError::DnsName { message } => "Invalid DNS name: "@ + message@,
        CertError::LeafCert { message } => "Failed to build child certificate: "@ + message@,
        CertError::KeyFormat => "Invalid key format"@,
    }
}

impl CertError {
    /// The human-readable message of this error.
    pub fn to_string(&self) -> (s: String)
        ensures
            s@ == cert_error_message(*self),
    {
        match self {
            CertError::NotTestDomain { domain } => concat(
                "Refusing to issue a certificate for a domain outside .test: ",
                domain.as_str(),
            ),
            CertError::RootKey { message } => concat("Failed parsing root key: ", message.as_str()),
            CertError::RootCert { message } => concat("Failed generating root cert: ", message.as_str()),
            CertError::KeyGeneration { message } => copy_string(message),
            CertError::Issuer { message } => concat("Failed to create CA issuer: ", message.as_str()),
            CertError::DnsName { message } => concat("Invalid DNS name: ", message.as_str()),
            CertError::LeafCert { message } => concat("Failed to build child certificate: ", message.as_str()),
            CertError::KeyFormat => to_owned("Invalid key format"),
        }
    }
}


/// The root CA: its key and its certificate in PEM.
pub struct RootCa {
    pub key: KeyPair,
    pub cert_pem: String,
}

/// A freshly generated root CA, with its key in PEM for storing.
pub struct NewRootCa {
    pub ca: RootCa,
    pub key_pem: String,
}

/// A domain certificate in DER and its private key in PKCS#8 DER.
pub struct LeafCert {
    pub cert_der: Vec<u8>,
    pub key_der: Vec<u8>,
}

/// What the caller of [`CertManager::get_or_generate_cert`] reports back:
/// the request itself, then the outcome of each action it was asked to
/// perform on the certificate files.
pub enum CertEvent {
    /// A TLS client asked for the domain's certificate.
    Requested,
    /// The domain's stored certificate and key, or `None` when they are not
    /// both on disk.
    LeafRead(Option<LeafCert>),
    /// The stored root CA key and certificate, both PEM, or `None` when they
    /// are not both on disk.
    RootRead(Option<(String, String)>),
    /// The new root CA was written to disk.
    RootWritten(RootCa),
    /// The new domain certificate was written to disk.
    LeafWritten(LeafCert),
}

/// What serving a certificate asks of the caller next.
pub enum CertAction {
    /// Hand this certificate to the TLS handshake.
    Serve(Arc<CertifiedKey>),
    /// Give up with this error.
    Fail(CertError),
    /// Read the domain's certificate and key if both files exist, and report
    /// [`CertEvent::LeafRead`].
    ReadLeaf { cert_path: String, key_path: String },
    /// Read the root CA's key and certificate if both files exist, and report
    /// [`CertEvent::RootRead`].
    ReadRoot { cert_path: String, key_path: String },
    /// Write the new root CA (the key readable by its owner only), then
    /// report [`CertEvent::RootWritten`] with `ca`.
    WriteRoot { cert_path: String, key_path: String, ca: RootCa, key_pem: String },
    /// Write the new domain certificate and key (the key readable by its
    /// owner only), then report [`CertEvent::LeafWritten`] with `leaf`.
    WriteLeaf { cert_path: String, key_path: String, leaf: LeafCert },
}

/// The outcome of issuing a certificate for `domain` with the CA whose
/// certificate is `ca_pem`, the files going under `dir`: refused when the CA
/// certificate does not parse or the domain is not ASCII; otherwise the new
/// certificate is to be written to `<dir>/<domain>.crt` and `.key`, unless key
/// generation or signing failed.
pub open spec fn issued_or_failed(a: CertAction, ca_pem: Seq<char>, domain: Seq<char>, dir: Seq<char>) -> bool {
    match ca_pem_error(ca_pem) {
        Some(m) => a matches CertAction::Fail(CertError::Issuer { message }) && message@ == m,
        None => if !is_ascii_text(domain) {
            a matches CertAction::Fail(CertError::DnsName { message }) && message@ == "Invalid IA5String: '"@
                + domain + "'"@
        } else {
            (a matches CertAction::WriteLeaf { cert_path, key_path, leaf } && cert_path@ == path_join(
                dir,
                domain + ".crt"@,
            ) && key_path@ == path_join(dir, domain + ".key"@)) || (a matches CertAction::Fail(e) && (
            e is KeyGeneration || e is LeafCert))
        },
    }
}

/// Whether a certificate may sign others.
#[derive(Debug, Clone, Copy, PartialEq, Eq)]
pub enum CaKind {
    /// An end-entity certificate.
    NotCa,
    /// A CA with no limit on the length of the chain below it.
    Unconstrained,
}

/// A field of a certificate subject's name.
#[derive(Debug, Clone, Copy, PartialEq, Eq)]
pub enum NameField {
    CommonName,
    OrganizationName,
}

/// What a certificate says: its CA kind, its subject's name fields in
/// order, and its DNS names.
pub struct CertProfile {
    pub ca: CaKind,
    pub subject: Vec<(NameField, String)>,
    pub dns_names: Vec<Ia5String>,
}

/// The root CA's profile: an unconstrained CA named `DevBind Root CA` of
/// the organisation `DevBind Proxy`, with no DNS name.
pub fn root_ca_profile() -> (p: CertProfile)
    ensures
        p.ca == CaKind::Unconstrained,
        p.subject@.len() == 2,
        p.subject@[0].0 == NameField::CommonName && p.subject@[0].1@ == "DevBind Root CA"@,
        p.subject@[1].0 == NameField::OrganizationName && p.subject@[1].1@ == "DevBind Proxy"@,
        p.dns_names@.len() == 0,
{
    let mut subject: Vec<(NameField, String)> = Vec::new();
    subject.push((NameField::CommonName, to_owned("DevBind Root CA")));
    subject.push((NameField::OrganizationName, to_owned("DevBind Proxy")));
    CertProfile { ca: CaKind::Unconstrained, subject, dns_names: Vec::new() }
}

/// A domain certificate's profile: not a CA, named after `domain`, with
/// `san` as its one DNS name.
pub fn leaf_profile(domain: &str, san: Ia5String) -> (p: CertProfile)
    ensures
        p.ca == CaKind::NotCa,
        p.subject@.len() == 1,
        p.subject@[0].0 == NameField::CommonName && p.subject@[0].1@ == domain@,
        p.dns_names@ == seq![san],
{
    let mut subject: Vec<(NameField, String)> = Vec::new();
    subject.push((NameField::CommonName, to_owned(domain)));
    let mut dns_names: Vec<Ia5String> = Vec::new();
    dns_names.push(san);
    CertProfile { ca: CaKind::NotCa, subject, dns_names }
}

/// The root CA from its stored key (PEM) and certificate (PEM).
pub fn load_root_ca(key_pem: &str, cert_pem: String) -> (r: Result<RootCa, CertError>)
    ensures
        r is Ok ==> key_pem_error(key_pem@) is None,
        key_pem_error(key_pem@) matches Some(m) ==> (r matches Err(CertError::RootKey { message })
            && message@ == m),
        r matches Ok(ca) ==> ca.cert_pem@ == cert_pem@,
        r matches Err(e) ==> e is RootKey,
{
    match key_pair_from_pem(key_pem) {
        Ok(key) => Ok(RootCa { key, cert_pem }),
        Err(message) => Err(CertError::RootKey { message }),
    }
}

/// A new root CA, `DevBind Root CA` of `DevBind Proxy`, self-signed with a
/// fresh key. Key generation or signing may fail, with rcgen's reason.
pub fn generate_root_ca() -> (r: Result<NewRootCa, CertError>)
    ensures
        r matches Err(e) ==> (e is KeyGeneration || e is RootCert),
{
    let key = match generate_key_pair() {
        Ok(k) => k,
        Err(message) => return Err(CertError::KeyGeneration { message }),
    };
    let params = certificate_params(root_ca_profile());
    let cert_pem = match self_signed_pem(&params, &key) {
        Ok(p) => p,
        Err(message) => return Err(CertError::RootCert { message }),
    };
    let key_pem = key_pair_pem(&key);
    Ok(NewRootCa { ca: RootCa { key, cert_pem }, key_pem })
}

/// A certificate for `domain` signed by the root CA, with a fresh key. The
/// CA certificate is checked first, then the domain as a DNS name; key
/// generation and signing may then still fail, with rcgen's reason.
pub fn issue_leaf_cert(domain: &str, ca: &RootCa) -> (r: Result<LeafCert, CertError>)
    ensures
        ca_pem_error(ca.cert_pem@) matches Some(m) ==> (r matches Err(CertError::Issuer { message })
            && message@ == m),
        ca_pem_error(ca.cert_pem@) is None && !is_ascii_text(domain@) ==> (r matches Err(
            CertError::DnsName { message },
        ) && message@ == "Invalid IA5String: '"@ + domain@ + "'"@),
        r is Ok ==> ca_pem_error(ca.cert_pem@) is None && is_ascii_text(domain@),
        r matches Err(e) ==> (e is Issuer || e is DnsName || e is KeyGeneration || e is LeafCert),
        r matches Err(e) ==> (e is Issuer ==> ca_pem_error(ca.cert_pem@) is Some),
        r matches Err(e) ==> (e is DnsName ==> ca_pem_error(ca.cert_pem@) is None && !is_ascii_text(domain@)),
{
    let issuer = match issuer_from_ca_pem(ca.cert_pem.as_str(), &ca.key) {
        Ok(i) => i,
        Err(message) => return Err(CertError::Issuer { message }),
    };
    let san = match ia5_string(to_owned(domain)) {
        Ok(n) => n,
        Err(message) => return Err(CertError::DnsName { message }),
    };
    let key = match generate_key_pair() {
        Ok(k) => k,
        Err(message) => return Err(CertError::KeyGeneration { message }),
    };
    let params = certificate_params(leaf_profile(domain, san));
    let cert_der = match signed_der(&params, &key, &issuer) {
        Ok(d) => d,
        Err(message) => return Err(CertError::LeafCert { message }),
    };
    Ok(LeafCert { cert_der, key_der: key_pair_der(&key) })
}

/// One step of serving `domain`'s certificate: with the cache holding
/// `before` and the files under `dir`, the caller reports `event`, the
/// manager answers `a` and its cache then holds `after`.
///
/// A name outside `.test` is refused. A request is served from the cache
/// when it holds the domain, with the chain cached for it; otherwise the
/// domain's files are to be read. A stored or newly written certificate is
/// served with exactly its bytes and cached, or refused when rustls cannot
/// build a signing key. Without stored files the root CA is read, or made
/// and written, and a certificate is issued and written.
pub open spec fn cert_step(
    before: Map<Seq<char>, Seq<Seq<u8>>>,
    dir: Seq<char>,
    domain: Seq<char>,
    event: CertEvent,
    a: CertAction,
    after: Map<Seq<char>, Seq<Seq<u8>>>,
) -> bool {
    if !is_cert_domain(domain) {
        a matches CertAction::Fail(CertError::NotTestDomain { domain: d }) && d@ == domain && after == before
    } else {
        match event {
            CertEvent::Requested => after == before && if before.contains_key(domain) {
                a matches CertAction::Serve(k) && key_chain(*k) == before[domain]
            } else {
                a matches CertAction::ReadLeaf { cert_path, key_path } && cert_path@ == path_join(
                    dir,
                    domain + ".crt"@,
                ) && key_path@ == path_join(dir, domain + ".key"@)
            },
            CertEvent::LeafRead(None) => after == before && (a matches CertAction::ReadRoot { cert_path, key_path }
                && cert_path@ == path_join(dir, "devbind-rootCA.crt"@) && key_path@ == path_join(
                dir,
                "devbind-rootCA.key"@,
            )),
            CertEvent::LeafRead(Some(leaf)) | CertEvent::LeafWritten(leaf) => (a matches CertAction::Serve(k)
                && signing_key_supported(leaf.key_der@) && key_chain(*k) == seq![leaf.cert_der@] && after
                == before.insert(domain, seq![leaf.cert_der@])) || (a matches CertAction::Fail(CertError::KeyFormat)
                && after == before),
            CertEvent::RootRead(Some((key_pem, cert_pem))) => after == before && match key_pem_error(key_pem@) {
                Some(m) => a matches CertAction::Fail(CertError::RootKey { message }) && message@ == m,
                None => issued_or_failed(a, cert_pem@, domain, dir) || (a matches CertAction::Fail(e) && e is RootKey),
            },
            CertEvent::RootRead(None) => after == before && ((a matches CertAction::WriteRoot {
                cert_path,
                key_path,
                ca,
                key_pem,
            } && cert_path@ == path_join(dir, "devbind-rootCA.crt"@) && key_path@ == path_join(
                dir,
                "devbind-rootCA.key"@,
            )) || (a matches CertAction::Fail(e) && (e is KeyGeneration || e is RootCert))),
            CertEvent::RootWritten(ca) => after == before && issued_or_failed(a, ca.cert_pem@, domain, dir),
        }
    }
}

/// Once a certificate has been served, the next request for the same domain
/// is served from the cache, with the same chain, asking for no file.
pub proof fn law_second_request_served_from_cache(
    before: Map<Seq<char>, Seq<Seq<u8>>>,
    dir: Seq<char>,
    domain: Seq<char>,
    first: CertEvent,
    k: Arc<CertifiedKey>,
    mid: Map<Seq<char>, Seq<Seq<u8>>>,
    a: CertAction,
    after: Map<Seq<char>, Seq<Seq<u8>>>,
)
    requires
        cert_step(before, dir, domain, first, CertAction::Serve(k), mid),
        cert_step(mid, dir, domain, CertEvent::Requested, a, after),
    ensures
        a matches CertAction::Serve(k2) && key_chain(*k2) == key_chain(*k),
        after == mid,
{
}

/// A manager whose cache lacks a domain asks for the domain's stored files;
/// given them, it serves exactly the stored certificate bytes and caches
/// them, or refuses a key rustls cannot sign with.
pub proof fn law_stored_certificate_served(
    dir: Seq<char>,
    domain: Seq<char>,
    a1: CertAction,
    m1: Map<Seq<char>, Seq<Seq<u8>>>,
    leaf: LeafCert,
    a2: CertAction,
    m2: Map<Seq<char>, Seq<Seq<u8>>>,
)
    requires
        is_cert_domain(domain),
        cert_step(Map::empty(), dir, domain, CertEvent::Requested, a1, m1),
        cert_step(m1, dir, domain, CertEvent::LeafRead(Some(leaf)), a2, m2),
    ensures
        a1 matches CertAction::ReadLeaf { cert_path, key_path } && cert_path@ == path_join(dir, domain + ".crt"@)
            && key_path@ == path_join(dir, domain + ".key"@),
        a2 is Serve || a2 == CertAction::Fail(CertError::KeyFormat),
        a2 matches CertAction::Serve(k) ==> key_chain(*k) == seq![leaf.cert_der@] && m2 == Map::<
            Seq<char>,
            Seq<Seq<u8>>,
        >::empty().insert(domain, seq![leaf.cert_der@]),
{
}

// ── the manager ─────────────────────────────────────────────────────────────

/// Certificates are issued only for names under `.test`.
pub open spec fn is_cert_domain(domain: Seq<char>) -> bool {
    ends_with(domain, ".test"@)
}

/// Serves a certificate per `.test` domain, caching each one in memory.
pub struct CertManager {
    certs_dir: String,
    cache: DashMap<String, Arc<CertifiedKey>>,
}

impl CertManager {
    /// The directory that holds the certificate files.
    pub closed spec fn dir(&self) -> Seq<char> {
        self.certs_dir@
    }

    /// For each cached domain, the certificate chain it is served with.
    pub closed spec fn chains(&self) -> Map<Seq<char>, Seq<Seq<u8>>> {
        cached_chains(self.cache)
    }

    /// The domains whose certificate is in the cache.
    pub open spec fn cached(&self) -> Set<Seq<char>> {
        self.chains().dom()
    }

    /// A manager for `<config_dir>/certs` with an empty cache (the directory
    /// itself is created by the caller).
    pub fn new(config_dir: &str) -> (m: Self)
        ensures
            m.dir() == path_join(config_dir@, "certs"@),
            m.chains() == Map::<Seq<char>, Seq<Seq<u8>>>::empty(),
            m.cached() == Set::<Seq<char>>::empty(),
    {
        let m = CertManager { certs_dir: join_path(config_dir, "certs"), cache: cache_new() };
        assert(m.chains() =~= Map::<Seq<char>, Seq<Seq<u8>>>::empty());
        m
    }

    /// The directory that holds the certificate files.
    pub fn certs_dir(&self) -> (d: &str)
        ensures
            d@ == self.dir(),
    {
        self.certs_dir.as_str()
    }

    /// Where the root CA's certificate and key are stored.
    pub fn root_ca_paths(&self) -> (p: (String, String))
        ensures
            p.0@ == path_join(self.dir(), "devbind-rootCA.crt"@),
            p.1@ == path_join(self.dir(), "devbind-rootCA.key"@),
    {
        (
            join_path(self.certs_dir.as_str(), "devbind-rootCA.crt"),
            join_path(self.certs_dir.as_str(), "devbind-rootCA.key"),
        )
    }

    /// Where `domain`'s certificate (DER) and key (PKCS#8 DER) are stored.
    pub fn domain_paths(&self, domain: &str) -> (p: (String, String))
        ensures
            p.0@ == path_join(self.dir(), domain@ + ".crt"@),
            p.1@ == path_join(self.dir(), domain@ + ".key"@),
    {
        let crt = concat(domain, ".crt");
        let key = concat(domain, ".key");
        (join_path(self.certs_dir.as_str(), crt.as_str()), join_path(self.certs_dir.as_str(), key.as_str()))
    }

    /// Whether `domain`'s certificate is in the cache.
    pub fn is_cached(&self, domain: &str) -> (b: bool)
        ensures
            b == self.cached().contains(domain@),
    {
        cache_contains(&self.cache, domain)
    }

    /// The first step of serving `domain`: refused outside `.test`; from the
    /// cache when it is there; otherwise `None`, and the certificate must be
    /// read or issued and then handed to [`CertManager::install`].
    pub fn lookup(&self, domain: &str) -> (r: Result<Option<Arc<CertifiedKey>>, CertError>)
        ensures
            !is_cert_domain(domain@) <==> r is Err,
            r matches Err(e) ==> e == (CertError::NotTestDomain { domain: e->domain }) && e->domain@
                == domain@,
            r matches Ok(found) ==> (found is Some <==> self.cached().contains(domain@)),
            r matches Ok(Some(k)) ==> key_chain(*k) == self.chains()[domain@],
    {
        if !str_ends_with(domain, ".test") {
            return Err(CertError::NotTestDomain { domain: to_owned(domain) });
        }
        Ok(cache_get(&self.cache, domain))
    }

    /// The last step of serving `domain`: pairs the certificate with a
    /// signing key built from its private key and caches the result, so the
    /// next [`CertManager::lookup`] of `domain` is served from memory, with
    /// the same chain. Fails, leaving the cache as it was, when rustls cannot
    /// build a signing key from the private key.
    pub fn install(&mut self, domain: String, leaf: LeafCert) -> (r: Result<Arc<CertifiedKey>, CertError>)
        ensures
            r is Ok ==> signing_key_supported(leaf.key_der@),
            r matches Ok(k) ==> key_chain(*k) == seq![leaf.cert_der@] && final(self).chains() == old(
                self,
            ).chains().insert(domain@, seq![leaf.cert_der@]),
            r is Err ==> r == Err::<Arc<CertifiedKey>, CertError>(CertError::KeyFormat) && final(self).chains()
                == old(self).chains(),
            final(self).dir() == old(self).dir(),
    {
        let LeafCert { cert_der, key_der } = leaf;
        match certified_key(cert_der, key_der) {
            Ok(key) => {
                cache_insert(&mut self.cache, domain, key.clone());
                Ok(key)
            },
            Err(()) => Err(CertError::KeyFormat),
        }
    }

    /// Where a freshly issued certificate for `domain` goes, or why issuing
    /// failed.
    fn issue_and_store(&self, domain: &str, ca: &RootCa) -> (a: CertAction)
        ensures
            issued_or_failed(a, ca.cert_pem@, domain@, self.dir()),
    {
        match issue_leaf_cert(domain, ca) {
            Ok(leaf) => {
                let (cert_path, key_path) = self.domain_paths(domain);
                CertAction::WriteLeaf { cert_path, key_path, leaf }
            },
            Err(e) => CertAction::Fail(e),
        }
    }

    /// One step of serving `domain`'s certificate, given what the caller
    /// reports (`event`); the caller performs the returned action and reports
    /// its outcome, until the answer is [`CertAction::Serve`] or
    /// [`CertAction::Fail`].
    ///
    /// Names outside `.test` are refused at every step. A request is served
    /// from the cache when it can be, with no file touched; otherwise the
    /// stored certificate is read, or, when there is none, one is issued by
    /// the stored root CA (or by a new one, written first) and written. A
    /// certificate read or written is paired with its key and cached, so the
    /// next request is served from memory.
    pub fn get_or_generate_cert(&mut self, domain: &str, event: CertEvent) -> (a: CertAction)
        ensures
            final(self).dir() == old(self).dir(),
            cert_step(old(self).chains(), old(self).dir(), domain@, event, a, final(self).chains()),
    {
        if !str_ends_with(domain, ".test") {
            return CertAction::Fail(CertError::NotTestDomain { domain: to_owned(domain) });
        }
        match event {
            CertEvent::Requested => match cache_get(&self.cache, domain) {
                Some(key) => CertAction::Serve(key),
                None => {
                    let (cert_path, key_path) = self.domain_paths(domain);
                    CertAction::ReadLeaf { cert_path, key_path }
                },
            },
            CertEvent::LeafRead(None) => {
                let (cert_path, key_path) = self.root_ca_paths();
                CertAction::ReadRoot { cert_path, key_path }
            },
            CertEvent::LeafRead(Some(leaf)) | CertEvent::LeafWritten(leaf) => match self.install(
                to_owned(domain),
                leaf,
            ) {
                Ok(key) => CertAction::Serve(key),
                Err(e) => CertAction::Fail(e),
            },
            CertEvent::RootRead(Some((key_pem, cert_pem))) => match load_root_ca(key_pem.as_str(), cert_pem) {
                Ok(ca) => self.issue_and_store(domain, &ca),
                Err(e) => CertAction::Fail(e),
            },
            CertEvent::RootRead(None) => match generate_root_ca() {
                Ok(new_ca) => {
                    let (cert_path, key_path) = self.root_ca_paths();
                    let NewRootCa { ca, key_pem } = new_ca;
                    CertAction::WriteRoot { cert_path, key_path, ca, key_pem }
                },
                Err(e) => CertAction::Fail(e),
            },
            CertEvent::RootWritten(ca) => self.issue_and_store(domain, &ca),
        }
    }
}

} // verus!
