//! X.509 certificates and certificate requests.
use rcgen::BasicConstraints::Unconstrained;
use rcgen::DnType::CommonName;
use rcgen::ExtendedKeyUsagePurpose::{ClientAuth, ServerAuth};
use rcgen::KeyUsagePurpose::{CrlSign, DigitalSignature, KeyCertSign};
use rcgen::{
    CertificateParams, CertificateSigningRequestParams, IsCa, Issuer, KeyPair,
    PublicKeyData, SubjectPublicKeyInfo,
};
use time::OffsetDateTime;
use vstd::prelude::*;
use x509_parser::extensions::GeneralName;
use x509_parser::oid_registry::OID_X509_EXT_AUTHORITY_KEY_IDENTIFIER;
use x509_parser::parse_x509_certificate;

use crate::digest;
use crate::digest::{hex_encode, sha256};
use crate::ip;
use crate::text;
use crate::text::bytes_of;

verus! {

/// Why a certificate, a request or a renewal is refused.
#[derive(Debug, Clone, Copy, PartialEq, Eq, Structural)]
pub enum IdentityError {
    /// The PEM text cannot be read.
    Pem,
    /// The PEM text holds no certificate.
    NoCertificate,
    /// The certificate cannot be parsed.
    Certificate,
    /// The certificate request is too long.
    RequestTooLong,
    /// The certificate request cannot be parsed or its signature is wrong.
    Request,
    /// The certificate authority ends too soon.
    AuthorityExpiring,
    /// The certificate could not be made.
    Issue,
    /// The device is not registered.
    NotRegistered,
    /// The certificate is neither the current one nor the one that waits to be installed.
    Replaced,
    /// The connection was made with another certificate than the current one.
    Reconnect,
    /// The certificate of the device has expired.
    Expired,
    /// The certificate of the device lasts long enough.
    TooEarly,
    /// The next try is not due yet.
    RetryLater,
    /// The new certificate is for another device or does not last long enough.
    Unsuitable,
}

impl IdentityError {
    /// The message for the user.
    pub open spec fn text(self) -> Seq<char> {
        match self {
            IdentityError::Pem => "证书 PEM 无法读取"@,
            IdentityError::NoCertificate => "证书 PEM 为空或格式无效"@,
            IdentityError::Certificate => "身份 X.509 证书无效"@,
            IdentityError::RequestTooLong => "设备 CSR 过长"@,
            IdentityError::Request => "设备 CSR 无效或签名校验失败"@,
            IdentityError::AuthorityExpiring => "内部 CA 即将到期，请管理员更换信任根"@,
            IdentityError::Issue => "无法签发证书"@,
            IdentityError::NotRegistered => "Agent 证书未注册或设备已被删除"@,
            IdentityError::Replaced => "Agent 证书已被替换或未注册"@,
            IdentityError::Reconnect => "续签连接的证书已被替换，请重新连接"@,
            IdentityError::Expired => "设备证书已过期，请联系管理员恢复设备身份"@,
            IdentityError::TooEarly => "设备证书尚未进入续签时间"@,
            IdentityError::RetryLater => "尚未到续签重试时间"@,
            IdentityError::Unsuitable => "续签证书的设备或有效期不符合要求"@,
        }
    }

    /// The message for the user.
    pub fn message(&self) -> (r: String)
        ensures
            r@ == self.text(),
    {
        match self {
            IdentityError::Pem => "证书 PEM 无法读取".to_owned(),
            IdentityError::NoCertificate => "证书 PEM 为空或格式无效".to_owned(),
            IdentityError::Certificate => "身份 X.509 证书无效".to_owned(),
            IdentityError::RequestTooLong => "设备 CSR 过长".to_owned(),
            IdentityError::Request => "设备 CSR 无效或签名校验失败".to_owned(),
            IdentityError::AuthorityExpiring => {
                "内部 CA 即将到期，请管理员更换信任根".to_owned()
            },
            IdentityError::Issue => "无法签发证书".to_owned(),
            IdentityError::NotRegistered => "Agent 证书未注册或设备已被删除".to_owned(),
            IdentityError::Replaced => "Agent 证书已被替换或未注册".to_owned(),
            IdentityError::Reconnect => "续签连接的证书已被替换，请重新连接".to_owned(),
            IdentityError::Expired => "设备证书已过期，请联系管理员恢复设备身份".to_owned(),
            IdentityError::TooEarly => "设备证书尚未进入续签时间".to_owned(),
            IdentityError::RetryLater => "尚未到续签重试时间".to_owned(),
            IdentityError::Unsuitable => "续签证书的设备或有效期不符合要求".to_owned(),
        }
    }
}

/// What the key of a certificate may sign.
#[derive(Debug, Clone, Copy, PartialEq, Eq, Structural)]
pub enum KeyUse {
    Data,
    Certificates,
    RevocationLists,
}

/// Which side of a connection a certificate is for.
#[derive(Debug, Clone, Copy, PartialEq, Eq, Structural)]
pub enum Purpose {
    Server,
    Client,
}

/// Whether others may be certified with a certificate.
#[derive(Debug, Clone, Copy, PartialEq, Eq, Structural)]
pub enum Standing {
    Authority,
    Subject,
}

/// What is read from a certificate: its common name, its validity in Unix seconds, and its public
/// key with the algorithm of it.
pub struct CertificateFacts {
    pub common_name: Option<String>,
    pub not_before: i64,
    pub not_after: i64,
    pub public_key: Vec<u8>,
}

/// What is read from a certificate.
pub ghost struct CertificateView {
    pub common_name: Option<Seq<char>>,
    pub not_before: i64,
    pub not_after: i64,
    pub public_key: Seq<u8>,
}

impl View for CertificateFacts {
    type V = CertificateView;

    open spec fn view(&self) -> CertificateView {
        CertificateView {
            common_name: text::opt(self.common_name),
            not_before: self.not_before,
            not_after: self.not_after,
            public_key: self.public_key@,
        }
    }
}

/// What a certificate may be used for: whether it is an authority, what its key may sign as the
/// bits of the key usage from the first on, the sides of a connection that it is for, and whether
/// it names the key of its issuer.
#[derive(Debug, Clone, Copy, PartialEq, Eq, Structural)]
pub struct Usage {
    pub authority: bool,
    pub key_uses: u16,
    pub server: bool,
    pub client: bool,
    pub names_issuer: bool,
}

/// The bits of a key usage.
pub open spec fn use_bits(uses: Seq<KeyUse>) -> u16 {
    ((if uses.contains(KeyUse::Data) {
        1int
    } else {
        0
    }) + (if uses.contains(KeyUse::Certificates) {
        32int
    } else {
        0
    }) + (if uses.contains(KeyUse::RevocationLists) {
        64int
    } else {
        0
    })) as u16
}

/// The byte strings of a list.
pub open spec fn blocks(list: Seq<Vec<u8>>) -> Seq<Seq<u8>> {
    Seq::new(list.len(), |i: int| list[i]@)
}

/// The certificates in a PEM text.
pub uninterp spec fn pem_blocks(pem: Seq<char>) -> Option<Seq<Seq<u8>>>;

/// What a certificate holds.
pub uninterp spec fn certificate_of(der: Seq<u8>) -> Option<CertificateView>;

/// The contents of the first block of a PEM file.
pub uninterp spec fn pem_contents(bytes: Seq<u8>) -> Option<Seq<u8>>;

/// What a certificate may be used for.
pub uninterp spec fn usage_of(der: Seq<u8>) -> Option<Usage>;

/// The alternative names of a certificate, `None` for one that is no DNS name.
pub uninterp spec fn names_of(der: Seq<u8>) -> Option<Seq<Option<Seq<char>>>>;

/// The public key of a certificate request that can be parsed and is signed with this key.
pub uninterp spec fn request_key(csr: Seq<char>) -> Option<Seq<u8>>;

/// The public part of a private key in PEM form, where it can be read.
pub uninterp spec fn key_public(pem: Seq<char>) -> Option<Seq<u8>>;

/// Whether the signature of a certificate is that of the key of another certificate.
pub uninterp spec fn signature_holds(der: Seq<u8>, issuer: Seq<u8>) -> bool;

/// Whether the first certificate in a PEM text carries the signature of the first in another.
pub open spec fn signed_by(pem: Seq<char>, ca_pem: Seq<char>) -> bool {
    match (first_of(pem), first_of(ca_pem)) {
        (Ok(der), Ok(issuer)) => signature_holds(der, issuer),
        _ => false,
    }
}

/// Whether a private key is the one of a certificate.
pub open spec fn key_belongs(pem: Seq<char>, key_pem: Seq<char>) -> bool {
    facts_of(pem) matches Some(facts) && key_public(key_pem) == Some(facts.public_key)
}

/// Whether a certificate request can be parsed and is signed with its own key.
pub open spec fn request_valid(csr: Seq<char>) -> bool {
    request_key(csr) is Some
}

/// What the first certificate in a PEM text holds.
pub open spec fn facts_of(pem: Seq<char>) -> Option<CertificateView> {
    match first_of(pem) {
        Ok(der) => certificate_of(der),
        Err(_) => None,
    }
}

/// Whether a certificate holds one alternative name. A name that is an address is kept as such.
pub open spec fn is_named(pem: Seq<char>, alternative: Seq<char>) -> bool {
    first_of(pem) matches Ok(der) && names_of(der) == Some(
        if ip::ip_of(alternative) is None {
            seq![Some(alternative)]
        } else {
            seq![None]
        },
    )
}

/// What a certificate for one side of a connection is made with.
pub ghost struct Issued {
    pub common_name: Seq<char>,
    pub alternative: Seq<char>,
    pub purpose: Purpose,
    pub key_use: KeyUse,
    pub names_issuer: bool,
    pub not_before: i64,
    pub not_after: i64,
}

/// Whether a certificate is what it was made with, for a key. It is no authority.
pub open spec fn issued_for(pem: Seq<char>, made: Issued, key: Seq<u8>) -> bool {
    &&& is_named(pem, made.alternative)
    &&& facts_of(pem) == Some(
        CertificateView {
            common_name: Some(made.common_name),
            not_before: made.not_before,
            not_after: made.not_after,
            public_key: key,
        },
    )
    &&& used_as(
        pem,
        Usage {
            authority: false,
            key_uses: use_bits(seq![made.key_use]),
            server: made.purpose == Purpose::Server,
            client: made.purpose == Purpose::Client,
            names_issuer: made.names_issuer,
        },
    )
}

/// Whether the first certificate in a PEM text may be used for something and no more.
pub open spec fn used_as(pem: Seq<char>, usage: Usage) -> bool {
    first_of(pem) matches Ok(der) && usage_of(der) == Some(usage)
}

/// Whether bytes are the public key of a request or of a private key.
pub open spec fn known_key(key: Seq<u8>) -> bool {
    (exists|csr: Seq<char>| #[trigger] request_key(csr) == Some(key)) || (exists|pem: Seq<char>|
        #[trigger] key_public(pem) == Some(key))
}

/// The first second of the year 0.
pub const FIRST_DATE: i64 = -62167219200;

/// The last second of the year 9999.
pub const LAST_DATE: i64 = 253402300799;

/// Whether a time lies in the years that a certificate can hold, 0 to 9999.
pub open spec fn datable(t: int) -> bool {
    FIRST_DATE <= t <= LAST_DATE
}

/// `rustls_pemfile::certs`: the certificates in a PEM text; `None` where a block cannot be read.
#[verifier::external_body]
pub(crate) fn read_pem_certificates(pem: &str) -> (r: Option<Vec<Vec<u8>>>)
    ensures
        match r {
            Some(list) => pem_blocks(pem@) == Some(blocks(list@)),
            None => pem_blocks(pem@) is None,
        },
{
    rustls_pemfile::certs(&mut pem.as_bytes())
        .map(|item| item.map(|der| der.as_ref().to_vec()))
        .collect::<Result<Vec<Vec<u8>>, _>>()
        .ok()
}

/// `x509_parser::parse_x509_certificate`: what a certificate holds. Its times are within ten
/// thousand years of 1970, the range of the `time` crate.
#[verifier::external_body]
pub(crate) fn parse_certificate(der: &Vec<u8>) -> (r: Option<CertificateFacts>)
    ensures
        match r {
            Some(facts) => certificate_of(der@) == Some(facts@),
            None => certificate_of(der@) is None,
        },
        r matches Some(facts) ==> -400000000000 <= facts.not_before <= 400000000000
            && -400000000000 <= facts.not_after <= 400000000000,
{
    let (_, cert) = parse_x509_certificate(der).ok()?;
    let first = cert.subject.iter_common_name().next().and_then(|name| name.as_str().ok());
    Some(CertificateFacts {
        common_name: first.map(str::to_owned),
        not_before: cert.validity.not_before.timestamp(),
        not_after: cert.validity.not_after.timestamp(),
        public_key: cert.subject_pki.raw.to_vec(),
    })
}

/// `X509Certificate::is_ca`, `key_usage` and `extended_key_usage` of `x509_parser`, and whether the
/// extension for the key of the issuer is there: what a certificate may be used for. An extension
/// that is not there, or cannot be read, allows nothing.
#[verifier::external_body]
pub(crate) fn parse_usage(der: &Vec<u8>) -> (r: Option<Usage>)
    ensures
        r == usage_of(der@),
        r is Some <==> certificate_of(der@) is Some,
{
    let (_, cert) = parse_x509_certificate(der).ok()?;
    let uses = cert.key_usage().ok().flatten().map(|found| found.value.flags);
    let sides = cert.extended_key_usage().ok().flatten().map(|found| found.value);
    let issuer = cert.get_extension_unique(&OID_X509_EXT_AUTHORITY_KEY_IDENTIFIER);
    Some(Usage {
        authority: cert.is_ca(),
        key_uses: uses.unwrap_or_default(),
        server: sides.is_some_and(|found| found.server_auth),
        client: sides.is_some_and(|found| found.client_auth),
        names_issuer: issuer.ok().flatten().is_some(),
    })
}

/// `X509Certificate::subject_alternative_name` of `x509_parser`: the alternative names of a
/// certificate in their order, none where there are none or they cannot be read.
#[verifier::external_body]
pub(crate) fn parse_names(der: &Vec<u8>) -> (r: Option<Vec<Option<String>>>)
    ensures
        match r {
            Some(names) => names_of(der@) == Some(
                Seq::new(names@.len(), |i: int| text::opt(names@[i])),
            ),
            None => names_of(der@) is None,
        },
        r is Some <==> certificate_of(der@) is Some,
{
    let (_, cert) = parse_x509_certificate(der).ok()?;
    Some(match cert.subject_alternative_name() {
        Ok(Some(list)) => list.value.general_names.iter().map(|name| match name {
            GeneralName::DNSName(value) => Some(value.to_string()),
            _ => None,
        }).collect(),
        _ => Vec::new(),
    })
}

/// `X509Certificate::verify_signature` of `x509_parser` with the key of another certificate.
#[verifier::external_body]
pub(crate) fn verify_signature(der: &Vec<u8>, issuer: &Vec<u8>) -> (r: bool)
    ensures
        r == signature_holds(der@, issuer@),
{
    match (parse_x509_certificate(der), parse_x509_certificate(issuer)) {
        (Ok((_, cert)), Ok((_, other))) => cert.verify_signature(Some(other.public_key())).is_ok(),
        _ => false,
    }
}

/// `rcgen::KeyPair::from_pem`: the public part of a private key, with its algorithm.
#[verifier::external_body]
pub(crate) fn read_key(pem: &str) -> (r: Option<Vec<u8>>)
    ensures
        match r {
            Some(key) => key_public(pem@) == Some(key@),
            None => key_public(pem@) is None,
        },
{
    KeyPair::from_pem(pem).ok().map(|key| PublicKeyData::subject_public_key_info(&key))
}

/// `rcgen::KeyPair::generate`: a new private key, which differs from call to call and can be read
/// back.
#[verifier::external_body]
pub(crate) fn new_key() -> (r: Option<String>)
    ensures
        r matches Some(pem) ==> key_public(pem@) is Some,
{
    KeyPair::generate().ok().map(|key| key.serialize_pem())
}

/// `x509_parser::pem::parse_x509_pem`: the contents of the first block of a PEM file.
#[verifier::external_body]
pub(crate) fn first_pem(bytes: &Vec<u8>) -> (r: Option<Vec<u8>>)
    ensures
        match r {
            Some(contents) => pem_contents(bytes@) == Some(contents@),
            None => pem_contents(bytes@) is None,
        },
{
    x509_parser::pem::parse_x509_pem(bytes).ok().map(|(_, pem)| pem.contents)
}

/// `rcgen::CertificateSigningRequestParams::from_pem`: the key of a request that can be parsed and
/// whose signature is that of this key, with its algorithm.
#[verifier::external_body]
pub(crate) fn parse_request(csr: &str) -> (r: Option<Vec<u8>>)
    ensures
        match r {
            Some(key) => request_key(csr@) == Some(key@),
            None => request_key(csr@) is None,
        },
{
    let request = CertificateSigningRequestParams::from_pem(csr).ok()?;
    Some(PublicKeyData::subject_public_key_info(&request.public_key))
}

/// The common name and the end of the first certificate in a PEM text, or why there is none.
pub open spec fn info_of(pem: Seq<char>) -> Result<(Seq<char>, i64), IdentityError> {
    match first_of(pem) {
        Err(e) => Err(e),
        Ok(der) => match certificate_of(der) {
            None => Err(IdentityError::Certificate),
            Some(facts) => Ok(
                (
                    match facts.common_name {
                        Some(name) => name,
                        None => Seq::empty(),
                    },
                    facts.not_after,
                ),
            ),
        },
    }
}

/// What a certificate that signs itself is made with.
pub ghost struct SelfSigned {
    pub common_name: Seq<char>,
    pub standing: Standing,
    pub key_uses: Seq<KeyUse>,
    pub not_before: i64,
    pub not_after: i64,
}

/// Whether a certificate that signs itself is what it was made with, for a key. It is for no side
/// of a connection and has no alternative names.
pub open spec fn self_signed_for(pem: Seq<char>, made: SelfSigned, key: Seq<u8>) -> bool {
    &&& first_of(pem) matches Ok(der) && names_of(der) == Some(Seq::<Option<Seq<char>>>::empty())
    &&& signed_by(pem, pem)
    &&& facts_of(pem) == Some(
        CertificateView {
            common_name: Some(made.common_name),
            not_before: made.not_before,
            not_after: made.not_after,
            public_key: key,
        },
    )
    &&& used_as(
        pem,
        Usage {
            authority: made.standing == Standing::Authority,
            key_uses: use_bits(made.key_uses),
            server: false,
            client: false,
            names_issuer: false,
        },
    )
}

/// The first certificate in a PEM text, or why there is none.
pub open spec fn first_of(pem: Seq<char>) -> Result<Seq<u8>, IdentityError> {
    match pem_blocks(pem) {
        None => Err(IdentityError::Pem),
        Some(list) => if list.len() == 0 {
            Err(IdentityError::NoCertificate)
        } else {
            Ok(list[0])
        },
    }
}

/// `rcgen::CertificateParams::signed_by` for a public key: a certificate that reads back as what it
/// is made with. Where the key of the authority belongs to its certificate, the signature holds.
#[verifier::external_body]
pub(crate) fn sign(
    ca_pem: &str,
    ca_key: &str,
    key: &Vec<u8>,
    common_name: &str,
    alternative: &str,
    purpose: Purpose,
    key_use: KeyUse,
    names_issuer: bool,
    not_before: i64,
    not_after: i64,
) -> (r: Option<String>)
    requires
        known_key(key@),
        datable(not_before as int),
        datable(not_after as int),
    ensures
        r matches Some(pem) ==> issued_for(
            pem@,
            (Issued {
                common_name: common_name@,
                alternative: alternative@,
                purpose,
                key_use,
                names_issuer,
                not_before,
                not_after,
            }),
            key@,
        ),
        r matches Some(pem) ==> key_belongs(ca_pem@, ca_key@) ==> signed_by(pem@, ca_pem@),
{
    let mut params = CertificateParams::new([alternative.to_owned()]).ok()?;
    params.use_authority_key_identifier_extension = names_issuer;
    params.distinguished_name.push(CommonName, common_name);
    params.extended_key_usages = vec![match purpose {
        Purpose::Server => ServerAuth, Purpose::Client => ClientAuth }];
    params.key_usages = vec![match key_use {
        KeyUse::Data => DigitalSignature,
        KeyUse::Certificates => KeyCertSign,
        KeyUse::RevocationLists => CrlSign }];
    params.not_before = OffsetDateTime::from_unix_timestamp(not_before).ok()?;
    params.not_after = OffsetDateTime::from_unix_timestamp(not_after).ok()?;
    Some(params.signed_by(&SubjectPublicKeyInfo::from_der(key).ok()?,
        &Issuer::from_ca_cert_pem(ca_pem, KeyPair::from_pem(ca_key).ok()?).ok()?).ok()?.pem())
}

/// `rcgen::CertificateParams::self_signed` with a private key: a certificate that reads back as what
/// it is made with and carries the signature of its own key.
#[verifier::external_body]
pub(crate) fn self_sign(
    key: &str,
    common_name: &str,
    standing: Standing,
    key_uses: &Vec<KeyUse>,
    not_before: i64,
    not_after: i64,
) -> (r: Option<String>)
    requires
        datable(not_before as int),
        datable(not_after as int),
    ensures
        r matches Some(pem) ==> self_signed_for(
            pem@,
            (SelfSigned {
                common_name: common_name@,
                standing,
                key_uses: key_uses@,
                not_before,
                not_after,
            }),
            key_public(key@)->0,
        ) && key_public(key@) is Some,
{
    let key = KeyPair::from_pem(key).ok()?;
    let mut params = CertificateParams::new(Vec::new()).ok()?;
    params.is_ca = match standing {
        Standing::Authority => IsCa::Ca(Unconstrained),
        Standing::Subject => IsCa::NoCa };
    params.distinguished_name.push(CommonName, common_name);
    params.key_usages = key_uses.iter().map(|one| match one {
        KeyUse::Data => DigitalSignature,
        KeyUse::Certificates => KeyCertSign,
        KeyUse::RevocationLists => CrlSign }).collect();
    params.not_before = OffsetDateTime::from_unix_timestamp(not_before).ok()?;
    params.not_after = OffsetDateTime::from_unix_timestamp(not_after).ok()?;
    Some(params.self_signed(&key).ok()?.pem())
}

/// `rcgen::CertificateParams::serialize_request` with a private key: a request that parses and is
/// signed with that key.
#[verifier::external_body]
pub(crate) fn make_request(key: &str, alternative: &str) -> (r: Option<String>)
    ensures
        r matches Some(csr) ==> request_valid(csr@) && request_key(csr@) == key_public(key@),
{
    let key = KeyPair::from_pem(key).ok()?;
    let params = CertificateParams::new([alternative.to_owned()]).ok()?;
    params.serialize_request(&key).ok()?.pem().ok()
}

/// A new private key and a request for a certificate for it: the request and the key.
pub(crate) fn new_request(alternative: &str) -> (r: Option<(String, String)>)
    ensures
        r matches Some(made) ==> request_valid(made.0@) && request_key(made.0@) == key_public(
            made.1@,
        ),
{
    let key: String = match new_key() {
        Some(key) => key,
        None => {
            return None;
        },
    };
    match make_request(key.as_str(), alternative) {
        Some(csr) => Some((csr, key)),
        None => None,
    }
}

/// The certificates in a PEM text; there is at least one.
pub fn certificates(pem: &str) -> (r: Result<Vec<Vec<u8>>, IdentityError>)
    ensures
        match r {
            Ok(list) => pem_blocks(pem@) == Some(blocks(list@)) && list@.len() > 0 && first_of(pem@)
                == Ok::<_, IdentityError>(list@[0]@),
            Err(e) => first_of(pem@) == Err::<Seq<u8>, _>(e),
        },
{
    match read_pem_certificates(pem) {
        None => Err(IdentityError::Pem),
        Some(list) => if list.len() == 0 {
            Err(IdentityError::NoCertificate)
        } else {
            Ok(list)
        },
    }
}

/// The common name and the end of the first certificate in a PEM text.
pub fn certificate_info(pem: &str) -> (r: Result<(String, i64), IdentityError>)
    ensures
        match r {
            Ok(info) => info_of(pem@) == Ok::<_, IdentityError>((info.0@, info.1)),
            Err(e) => info_of(pem@) == Err::<(Seq<char>, i64), _>(e),
        },
        r matches Ok(info) ==> -400000000000 <= info.1 <= 400000000000,
{
    let list: Vec<Vec<u8>> = match certificates(pem) {
        Ok(list) => list,
        Err(e) => {
            return Err(e);
        },
    };
    match parse_certificate(&list[0]) {
        None => Err(IdentityError::Certificate),
        Some(facts) => {
            let name: String = match facts.common_name {
                Some(name) => name,
                None => String::new(),
            };
            assert(name@ == (match certificate_of(list@[0]@)->0.common_name {
                Some(name) => name,
                None => Seq::empty(),
            }));
            Ok((name, facts.not_after))
        },
    }
}

/// What is stored of a certificate to recognise it: the digest of its bytes.
pub open spec fn fingerprint_of(pem: Seq<char>) -> Result<Seq<char>, IdentityError> {
    match first_of(pem) {
        Ok(der) => Ok(digest::hex_of(digest::sha256_of(der))),
        Err(e) => Err(e),
    }
}

/// What is stored of a certificate to recognise it.
pub fn fingerprint(pem: &str) -> (r: Result<String, IdentityError>)
    ensures
        match r {
            Ok(digest) => fingerprint_of(pem@) == Ok::<_, IdentityError>(digest@),
            Err(e) => fingerprint_of(pem@) == Err::<Seq<char>, _>(e),
        },
{
    match certificates(pem) {
        Ok(list) => Ok(fingerprint_der(&list[0])),
        Err(e) => Err(e),
    }
}

/// What is stored of a certificate given by its bytes.
pub fn fingerprint_der(der: &Vec<u8>) -> (r: String)
    ensures
        r@ == digest::hex_of(digest::sha256_of(der@)),
{
    hex_encode(&sha256(der.as_slice()))
}

/// Why a certificate request is refused, if it is.
pub open spec fn request_refusal(csr: Seq<char>) -> Option<IdentityError> {
    if text::byte_len(csr) > 16384 {
        Some(IdentityError::RequestTooLong)
    } else if !request_valid(csr) {
        Some(IdentityError::Request)
    } else {
        None
    }
}

/// Checks a certificate request.
pub fn validate_csr(csr: &str) -> (r: Result<(), IdentityError>)
    ensures
        match r {
            Ok(_) => request_refusal(csr@) is None,
            Err(e) => request_refusal(csr@) == Some(e),
        },
{
    if bytes_of(csr) > 16384 {
        return Err(IdentityError::RequestTooLong);
    }
    if parse_request(csr).is_none() {
        return Err(IdentityError::Request);
    }
    Ok(())
}

/// Whether a private key is the one of a certificate.
pub fn check_key(pem: &str, key_pem: &str) -> (r: bool)
    ensures
        r == key_belongs(pem@, key_pem@),
{
    match (read_facts(pem), read_key(key_pem)) {
        (Some(facts), Some(key)) => same_bytes(&facts.public_key, &key),
        _ => false,
    }
}

/// Whether a private key is the one of a certificate request.
pub fn check_request_key(csr: &str, key_pem: &str) -> (r: bool)
    ensures
        r == (request_valid(csr@) && request_key(csr@) == key_public(key_pem@)),
{
    match (parse_request(csr), read_key(key_pem)) {
        (Some(wanted), Some(key)) => same_bytes(&wanted, &key),
        _ => false,
    }
}

/// Whether a certificate carries the signature of another one.
pub fn check_signature(pem: &str, ca_pem: &str) -> (r: bool)
    ensures
        r == signed_by(pem@, ca_pem@),
{
    match (certificates(pem), certificates(ca_pem)) {
        (Ok(list), Ok(issuers)) => verify_signature(&list[0], &issuers[0]),
        _ => false,
    }
}

/// What the first certificate in a PEM text holds.
pub fn read_facts(pem: &str) -> (r: Option<CertificateFacts>)
    ensures
        match r {
            Some(facts) => facts_of(pem@) == Some(facts@),
            None => facts_of(pem@) is None,
        },
{
    match certificates(pem) {
        Ok(list) => parse_certificate(&list[0]),
        Err(_) => None,
    }
}

/// What the first certificate in a PEM text may be used for.
pub fn read_usage(pem: &str) -> (r: Option<Usage>)
    ensures
        match r {
            Some(usage) => used_as(pem@, usage),
            None => facts_of(pem@) is None,
        },
{
    match certificates(pem) {
        Ok(list) => parse_usage(&list[0]),
        Err(_) => None,
    }
}

pub(crate) fn same_bytes(a: &Vec<u8>, b: &Vec<u8>) -> (r: bool)
    ensures
        r == (a@ == b@),
{
    if a.len() != b.len() {
        return false;
    }
    let mut i: usize = 0;
    while i < a.len()
        invariant
            i <= a@.len(),
            a@.len() == b@.len(),
            forall|j: int| 0 <= j < i ==> a@[j] == b@[j],
        decreases a@.len() - i,
    {
        if a[i] != b[i] {
            return false;
        }
        i = i + 1;
    }
    assert(a@ =~= b@);
    true
}

/// What is known of a certificate is that of the first one in its text: its name, its end, its key and
/// its fingerprint.
pub proof fn the_first_certificate_counts(pem: Seq<char>, list: Seq<Seq<u8>>)
    requires
        pem_blocks(pem) == Some(list),
        list.len() > 0,
    ensures
        first_of(pem) == Ok::<Seq<u8>, IdentityError>(list[0]),
        facts_of(pem) == certificate_of(list[0]),
        fingerprint_of(pem) == Ok::<Seq<char>, IdentityError>(
            digest::hex_of(digest::sha256_of(list[0])),
        ),
        certificate_of(list[0]) is None ==> info_of(pem) is Err,
        certificate_of(list[0]) matches Some(facts) ==> info_of(pem) is Ok && info_of(pem)->Ok_0.1
            == facts.not_after && (facts.common_name is Some ==> info_of(pem)->Ok_0.0
            == facts.common_name->0) && (facts.common_name is None ==> info_of(pem)->Ok_0.0.len()
            == 0),
        forall|key_pem: Seq<char>| #[trigger]
            key_belongs(pem, key_pem) <==> certificate_of(list[0]) is Some && key_public(key_pem)
                == Some(certificate_of(list[0])->0.public_key),
{
}

/// A certificate is signed by an authority where the signature of the first one holds under the first
/// one of the authority.
pub proof fn signatures_hold_under_the_authority(
    pem: Seq<char>,
    ca_pem: Seq<char>,
    list: Seq<Seq<u8>>,
    authorities: Seq<Seq<u8>>,
)
    requires
        pem_blocks(pem) == Some(list),
        pem_blocks(ca_pem) == Some(authorities),
    ensures
        signed_by(pem, ca_pem) <==> list.len() > 0 && authorities.len() > 0 && signature_holds(
            list[0],
            authorities[0],
        ),
{
}

/// A text that holds no certificate has no name, no end and no fingerprint.
pub proof fn texts_without_a_certificate_say_nothing(pem: Seq<char>)
    requires
        pem_blocks(pem) is None || pem_blocks(pem)->0.len() == 0,
    ensures
        info_of(pem) is Err,
        fingerprint_of(pem) is Err,
        facts_of(pem) is None,
        forall|ca_pem: Seq<char>| !#[trigger] signed_by(pem, ca_pem),
        forall|key_pem: Seq<char>| !#[trigger] key_belongs(pem, key_pem),
{
}

/// A certificate that was issued says what it was made with.
pub proof fn issued_certificates_say_what_they_were_made_with(
    pem: Seq<char>,
    made: Issued,
    key: Seq<u8>,
)
    requires
        issued_for(pem, made, key),
    ensures
        info_of(pem) == Ok::<(Seq<char>, i64), IdentityError>((made.common_name, made.not_after)),
        facts_of(pem) matches Some(facts) && facts.public_key == key && facts.not_before
            == made.not_before && facts.not_after == made.not_after,
        first_of(pem) matches Ok(der) && usage_of(der) matches Some(usage) && !usage.authority && (
        usage.server <==> made.purpose is Server) && (usage.client <==> made.purpose is Client),
        ip::ip_of(made.alternative) is None ==> (first_of(pem) matches Ok(der) && names_of(der)
            == Some(seq![Some(made.alternative)])),
{
}

/// A request is accepted where it is valid and has 16384 bytes at most.
pub proof fn requests_are_valid_and_short(csr: Seq<char>)
    ensures
        request_refusal(csr) is None <==> text::byte_len(csr) <= 16384 && request_key(csr) is Some,
        text::byte_len(csr) > 16384 ==> request_refusal(csr) == Some(
            IdentityError::RequestTooLong,
        ),
{
}

/// Each use of a key is a bit of its own.
pub proof fn uses_are_bits_of_their_own()
    ensures
        use_bits(seq![KeyUse::Data]) == 1,
        use_bits(seq![KeyUse::Certificates]) == 32,
        use_bits(seq![KeyUse::RevocationLists]) == 64,
{
    assert(seq![KeyUse::Data][0] == KeyUse::Data);
    assert(seq![KeyUse::Certificates][0] == KeyUse::Certificates);
    assert(seq![KeyUse::RevocationLists][0] == KeyUse::RevocationLists);
}

} // verus!
