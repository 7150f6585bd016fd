//! The OpenID Connect provider for the built-in mesh: authorization codes and access tokens live in
//! bounded memory, each for a short time, and a code is redeemed once, by the client that can show
//! the verifier of its challenge.
use serde_json::Value;
use vstd::prelude::*;

use crate::auth;
use crate::auth::{find_user, User};
use crate::der;
use crate::der::{is_shallow, MAX_LEVELS};
use crate::digest;
use crate::digest::{base64_encode, random_token};
use crate::error;
use crate::error::{
    ApiError, BAD_REQUEST, FORBIDDEN, INTERNAL_SERVER_ERROR, SERVICE_UNAVAILABLE, UNAUTHORIZED,
};
use crate::json;
use crate::json::{json_number, json_object, json_text, Json};
use crate::picked;
use crate::text;
use crate::text::{
    bytes_of, chars_of, copy_opt, ends_with, is_white_space, join2, join3, same, starts_with,
    strip_prefix, text_between, trim, trim_end,
};
use crate::x509::same_bytes;

verus! {

/// The only client.
pub const CLIENT_ID: &'static str = "headscale";

/// The life of an authorization code in seconds.
pub const AUTHORIZATION_CODE_SECONDS: i64 = 60;

/// The life of an access token in seconds.
pub const ACCESS_TOKEN_SECONDS: i64 = 300;

/// The life of a login ticket in seconds.
pub const LOGIN_TICKET_SECONDS: i64 = 600;

pub const MAX_AUTHORIZATION_CODES: usize = 1024;

pub const MAX_ACCESS_TOKENS: usize = 2048;

pub const MAX_LOGIN_TICKETS: usize = 1024;

/// The signing key: the private part, and the public part as it is published.
#[derive(Debug, Clone)]
pub struct OidcKeyMaterial {
    pub private_key_pem: String,
    pub key_id: String,
    pub modulus: String,
    pub exponent: String,
}

/// What is stored of the provider.
#[derive(Debug, Clone)]
pub struct OidcSettings {
    pub private_key_pem: String,
    pub public_key_pem: String,
    pub key_id: String,
    pub issuer: Option<String>,
}

/// Something that is kept under a secret until its time ends.
#[derive(Debug)]
pub struct Kept<T> {
    pub key: String,
    pub value: T,
    pub expires_at: i64,
}

/// What an authorization code stands for.
#[derive(Debug)]
pub struct AuthorizationCode {
    pub user_id: String,
    pub client_id: String,
    pub redirect_uri: String,
    pub scope: String,
    pub nonce: String,
    pub pkce_method: String,
}

/// What an access token stands for.
#[derive(Debug)]
pub struct AccessToken {
    pub user_id: String,
    pub client_id: String,
}

/// What a client asks for when it sends a user.
#[derive(Debug)]
pub struct AuthorizeRequest {
    pub client_id: String,
    pub redirect_uri: String,
    pub scope: String,
    pub state: Option<String>,
    pub nonce: String,
    pub code_challenge: String,
    pub code_challenge_method: String,
}

/// The provider: its key, its issuer, and what it has handed out.
#[derive(Debug)]
pub struct OidcRuntime {
    pub key: OidcKeyMaterial,
    pub issuer: Option<String>,
    pub authorization_codes: Vec<Kept<AuthorizationCode>>,
    pub access_tokens: Vec<Kept<AccessToken>>,
    pub login_tickets: Vec<Kept<AuthorizeRequest>>,
}

/// What the provider says of itself.
#[derive(Debug, Clone)]
pub struct DiscoveryResponse {
    pub issuer: String,
    pub authorization_endpoint: String,
    pub token_endpoint: String,
    pub userinfo_endpoint: String,
    pub jwks_uri: String,
    pub response_types_supported: Vec<&'static str>,
    pub subject_types_supported: Vec<&'static str>,
    pub id_token_signing_alg_values_supported: Vec<&'static str>,
    pub scopes_supported: Vec<&'static str>,
    pub claims_supported: Vec<&'static str>,
    pub code_challenge_methods_supported: Vec<&'static str>,
    pub token_endpoint_auth_methods_supported: Vec<&'static str>,
}

/// A public key as it is published.
#[derive(Debug, Clone)]
pub struct JsonWebKey {
    pub kty: &'static str,
    pub use_: &'static str,
    pub alg: &'static str,
    pub kid: String,
    pub n: String,
    pub e: String,
}

/// The answer to a redeemed code.
#[derive(Debug, Clone)]
pub struct TokenResponse {
    pub access_token: String,
    pub token_type: &'static str,
    pub expires_in: i64,
    pub id_token: String,
    pub scope: String,
}

/// What a client learns of a user.
#[derive(Debug, Clone)]
pub struct UserInfoResponse {
    pub sub: String,
    pub preferred_username: String,
    pub name: String,
}

/// The modulus and the exponent of a public key in PEM form.
pub uninterp spec fn rsa_parts(pem: Seq<char>) -> Option<(Seq<u8>, Seq<u8>)>;

/// The modulus and the public exponent of a private key in PEM form.
pub uninterp spec fn private_parts(pem: Seq<char>) -> Option<(Seq<u8>, Seq<u8>)>;

/// Whether a private key and a public one belong together: what is signed with the one can be checked
/// with the other.
pub open spec fn key_pair(private_pem: Seq<char>, public_pem: Seq<char>) -> bool {
    private_parts(private_pem) is Some && private_parts(private_pem) == rsa_parts(public_pem)
}

/// The contents of a PEM text, where it is one.
pub uninterp spec fn pem_bytes(pem: Seq<char>) -> Option<Seq<u8>>;

/// Whether the structures of a key in PEM form stand inside one another no deeper than those of any
/// key in use.
pub open spec fn key_shallow(pem: Seq<char>) -> bool {
    pem_bytes(pem) matches Some(bytes) && der::shallow(
        bytes,
        0,
        bytes.len() as int,
        MAX_LEVELS as nat,
    )
}

/// Whether tokens can be signed with a private key: it is not nested too deep and can be read.
pub open spec fn signing_key_usable(pem: Seq<char>) -> bool {
    key_shallow(pem) && signing_key_readable(pem)
}

/// Whether a private key in PEM form can be read.
pub uninterp spec fn signing_key_readable(pem: Seq<char>) -> bool;

/// The token that signs some claims with a key.
pub uninterp spec fn signed_token(claims: Json, key_id: Seq<char>, pem: Seq<char>) -> Option<
    Seq<char>,
>;

/// `rsa::RsaPrivateKey::new` with 2048 bits from the generator of the operating system, its private
/// part by `to_pkcs8_pem` and its public part by `to_pkcs1_pem`. The keys differ from call to call.
/// The two parts belong together, and tokens can be signed with the private one. That a key comes is
/// left unsaid: it rests on numbers that are prime with overwhelming probability only.
#[verifier::external_body]
pub(crate) fn new_signing_key() -> (r: Option<(String, String)>)
    ensures
        r matches Some(pair) ==> key_pair(pair.0@, pair.1@) && signing_key_usable(pair.0@),
{
    let key = rsa::RsaPrivateKey::new(&mut rand::rngs::OsRng, 2048).ok()?;
    let private = rsa::pkcs8::EncodePrivateKey::to_pkcs8_pem(&key, rsa::pkcs8::LineEnding::LF).ok()?;
    let public = rsa::pkcs1::EncodeRsaPublicKey::to_pkcs1_pem(
        &key.to_public_key(),
        rsa::pkcs8::LineEnding::LF,
    ).ok()?;
    Some((private.to_string(), public))
}

/// `rsa::RsaPublicKey::from_pkcs1_pem`: the modulus and the exponent, each as bytes from the most
/// significant on.
#[verifier::external_body]
pub(crate) fn read_public_key(pem: &str) -> (r: Option<(Vec<u8>, Vec<u8>)>)
    ensures
        match r {
            Some(parts) => rsa_parts(pem@) == Some((parts.0@, parts.1@)),
            None => rsa_parts(pem@) is None,
        },
{
    let key = <rsa::RsaPublicKey as rsa::pkcs1::DecodeRsaPublicKey>::from_pkcs1_pem(pem).ok()?;
    let n = rsa::traits::PublicKeyParts::n(&key).to_bytes_be();
    let e = rsa::traits::PublicKeyParts::e(&key).to_bytes_be();
    Some((n, e))
}

/// `rsa::RsaPrivateKey::from_pkcs8_pem`: the modulus and the public exponent, each as bytes from the
/// most significant on.
#[verifier::external_body]
pub(crate) fn read_private_key(pem: &str) -> (r: Option<(Vec<u8>, Vec<u8>)>)
    ensures
        match r {
            Some(parts) => private_parts(pem@) == Some((parts.0@, parts.1@)),
            None => private_parts(pem@) is None,
        },
{
    let key = <rsa::RsaPrivateKey as rsa::pkcs8::DecodePrivateKey>::from_pkcs8_pem(pem).ok()?;
    let n = rsa::traits::PublicKeyParts::n(&key).to_bytes_be();
    let e = rsa::traits::PublicKeyParts::e(&key).to_bytes_be();
    Some((n, e))
}

/// Whether a private key and a public one belong together.
pub fn is_key_pair(private_pem: &str, public_pem: &str) -> (r: bool)
    ensures
        r == key_pair(private_pem@, public_pem@),
{
    match (read_private_key(private_pem), read_public_key(public_pem)) {
        (Some(own), Some(published)) => same_bytes(&own.0, &published.0) && same_bytes(
            &own.1,
            &published.1,
        ),
        _ => false,
    }
}

/// `pem::parse`: the contents of a PEM text.
#[verifier::external_body]
pub(crate) fn read_pem(pem: &str) -> (r: Option<Vec<u8>>)
    ensures
        match r {
            Some(bytes) => pem_bytes(pem@) == Some(bytes@),
            None => pem_bytes(pem@) is None,
        },
{
    pem::parse(pem).ok().map(pem::Pem::into_contents)
}

fn is_key_shallow(pem: &str) -> (r: bool)
    ensures
        r == key_shallow(pem@),
{
    match read_pem(pem) {
        Some(bytes) => is_shallow(&bytes, 0, bytes.len(), MAX_LEVELS),
        None => false,
    }
}

/// `jsonwebtoken::EncodingKey::from_rsa_pem`: whether the key can be read. The parser below it goes
/// one call deeper with each level of nesting, so a key that is nested too deep is left out.
#[verifier::external_body]
pub(crate) fn check_signing_key(pem: &str) -> (r: bool)
    requires
        key_shallow(pem@),
    ensures
        r == signing_key_readable(pem@),
{
    jsonwebtoken::EncodingKey::from_rsa_pem(pem.as_bytes()).is_ok()
}

/// `jsonwebtoken::encode` with RS256 and a key identifier. Such a signature takes no random part, so
/// the token depends on the arguments alone. The key is not nested too deep, as where it is
/// checked.
#[verifier::external_body]
pub(crate) fn sign_token(claims: &Value, key_id: &str, pem: &str) -> (r: Option<String>)
    requires
        key_shallow(pem@),
    ensures
        match r {
            Some(token) => signed_token(json::json_tree(*claims), key_id@, pem@) == Some(token@),
            None => signed_token(json::json_tree(*claims), key_id@, pem@) is None,
        },
{
    let mut header = jsonwebtoken::Header::new(jsonwebtoken::Algorithm::RS256);
    header.kid = Some(key_id.to_owned());
    let key = jsonwebtoken::EncodingKey::from_rsa_pem(pem.as_bytes()).ok()?;
    jsonwebtoken::encode(&header, claims, &key).ok()
}

/// `oxide_auth::code_grant::extensions::Pkce::challenge`, where a challenge is required and the plain
/// method is not allowed: the challenge with an `S` behind it for the method `S256`, a refusal for
/// any other method.
#[verifier::external_body]
pub(crate) fn pkce_challenge(method: &str, challenge: &str) -> (r: Option<String>)
    ensures
        match r {
            Some(stored) => method@ == "S256"@ && stored@ == challenge@.push('S'),
            None => method@ != "S256"@,
        },
{
    let method = Some(std::borrow::Cow::Borrowed(method));
    let challenge = Some(std::borrow::Cow::Borrowed(challenge));
    let value = oxide_auth::code_grant::extensions::Pkce::required().challenge(method, challenge);
    let value = value.ok().flatten()?;
    value.private_value().ok().flatten().map(str::to_owned)
}

/// Whether a verifier matches what `pkce_challenge` has stored, or a challenge of the plain method
/// that was stored with a `p` behind it.
pub open spec fn verifier_matches(stored: Seq<char>, verifier: Seq<char>) -> bool {
    stored.len() > 0 && (if stored.last() == 'S' {
        stored.drop_last() == digest::base64_of(
            digest::sha256_of(vstd::utf8::encode_utf8(verifier)),
        )
    } else {
        stored.last() == 'p' && stored.drop_last() == verifier
    })
}

/// `oxide_auth::code_grant::extensions::Pkce::verify`, where a challenge is required: for the method
/// `S256` the stored challenge is the URL-safe base64 text of the SHA-256 digest of the verifier.
#[verifier::external_body]
pub(crate) fn pkce_verify(stored: &str, verifier: &str) -> (r: bool)
    ensures
        r == verifier_matches(stored@, verifier@),
{
    let value = oxide_auth::primitives::grant::Value::private(Some(stored.to_owned()));
    let verifier = Some(std::borrow::Cow::Borrowed(verifier));
    oxide_auth::code_grant::extensions::Pkce::required().verify(Some(value), verifier).is_ok()
}

/// Whether a parameter stands at a position of a query and nowhere else.
pub open spec fn only_at(pairs: Seq<(String, String)>, name: Seq<char>, i: int) -> bool {
    0 <= i < pairs.len() && pairs[i].0@ == name && forall|j: int|
        0 <= j < pairs.len() && j != i ==> (#[trigger] pairs[j]).0@ != name
}

/// The value of a parameter that a query gives once.
pub open spec fn unique_in(pairs: Seq<(String, String)>, name: Seq<char>) -> Option<Seq<char>> {
    if exists|i: int| only_at(pairs, name, i) {
        Some(pairs[choose|i: int| only_at(pairs, name, i)].1@)
    } else {
        None
    }
}

/// `oxide_auth::endpoint::QueryParameter::unique_value` on a list of pairs: the value of a parameter
/// that is there once.
#[verifier::external_body]
pub(crate) fn unique_value(pairs: &Vec<(String, String)>, name: &str) -> (r: Option<String>)
    ensures
        text::opt(r) == unique_in(pairs@, name@),
{
    oxide_auth::endpoint::QueryParameter::unique_value(pairs, name).map(|value| value.into_owned())
}

/// A request: the parameters of its query and of its body.
#[derive(Debug, Clone)]
pub struct OAuthRequest {
    pub query: Vec<(String, String)>,
    pub body: Vec<(String, String)>,
}

/// A parameter of a request: the query comes first.
pub open spec fn parameter(request: OAuthRequest, name: Seq<char>) -> Option<Seq<char>> {
    match unique_in(request.query@, name) {
        Some(value) => Some(value),
        None => unique_in(request.body@, name),
    }
}

/// A parameter of a request.
pub fn oauth_value(request: &OAuthRequest, name: &str) -> (r: Option<String>)
    ensures
        text::opt(r) == parameter(*request, name@),
{
    match unique_value(&request.query, name) {
        Some(value) => Some(value),
        None => unique_value(&request.body, name),
    }
}

/// Whether a character needs no escape in an address.
pub open spec fn unreserved(c: char) -> bool {
    ('a' <= c && c <= 'z') || ('A' <= c && c <= 'Z') || ('0' <= c && c <= '9') || c == '-' || c
        == '.' || c == '_' || c == '~'
}

/// Whether a text can be a challenge or a verifier.
pub open spec fn pkce_text(s: Seq<char>) -> bool {
    43 <= s.len() <= 128 && forall|i: int| 0 <= i < s.len() ==> unreserved(#[trigger] s[i])
}

fn is_unreserved(c: char) -> (r: bool)
    ensures
        r == unreserved(c),
{
    ('a' <= c && c <= 'z') || ('A' <= c && c <= 'Z') || ('0' <= c && c <= '9') || c == '-' || c
        == '.' || c == '_' || c == '~'
}

/// Whether a text can be a challenge or a verifier.
pub fn valid_pkce_value(value: &str) -> (r: bool)
    ensures
        r == pkce_text(value@),
{
    let chars: Vec<char> = chars_of(value);
    if chars.len() < 43 || chars.len() > 128 {
        return false;
    }
    let mut i: usize = 0;
    while i < chars.len()
        invariant
            i <= chars@.len(),
            chars@ == value@,
            forall|j: int| 0 <= j < i ==> unreserved(#[trigger] chars@[j]),
        decreases chars@.len() - i,
    {
        if !is_unreserved(chars[i]) {
            return false;
        }
        i = i + 1;
    }
    true
}

/// Whether a text holds white space.
pub open spec fn has_space(s: Seq<char>) -> bool {
    exists|i: int| 0 <= i < s.len() && text::white_space(#[trigger] s[i])
}

fn check_space(value: &str) -> (r: bool)
    ensures
        r == has_space(value@),
{
    let chars: Vec<char> = chars_of(value);
    let mut i: usize = 0;
    while i < chars.len()
        invariant
            i <= chars@.len(),
            chars@ == value@,
            forall|j: int| 0 <= j < i ==> !text::white_space(#[trigger] chars@[j]),
        decreases chars@.len() - i,
    {
        if is_white_space(chars[i]) {
            assert(text::white_space(value@[i as int]));
            return true;
        }
        i = i + 1;
    }
    false
}

/// The end of the word that holds position `i`.
pub open spec fn word_end(s: Seq<char>, i: int) -> int
    decreases s.len() - i,
{
    if i < 0 || i >= s.len() || text::white_space(s[i]) {
        i
    } else {
        word_end(s, i + 1)
    }
}

/// Whether each word of a text, from position `i` on, is a scope that is known.
pub open spec fn known_scopes(s: Seq<char>, i: int) -> bool
    decreases s.len() - i,
{
    if i < 0 || i >= s.len() {
        true
    } else if text::white_space(s[i]) {
        known_scopes(s, i + 1)
    } else {
        let end = word_end(s, i);
        if end <= i || end > s.len() {
            false
        } else {
            let word = s.subrange(i, end);
            (word == "openid"@ || word == "profile"@) && known_scopes(s, end)
        }
    }
}

/// Whether a word of a text, from position `i` on, asks for an identity.
pub open spec fn asks_identity(s: Seq<char>, i: int) -> bool
    decreases s.len() - i,
{
    if i < 0 || i >= s.len() {
        false
    } else if text::white_space(s[i]) {
        asks_identity(s, i + 1)
    } else {
        let end = word_end(s, i);
        if end <= i || end > s.len() {
            false
        } else {
            s.subrange(i, end) == "openid"@ || asks_identity(s, end)
        }
    }
}

proof fn lemma_word_end(s: Seq<char>, i: int)
    requires
        0 <= i <= s.len(),
    ensures
        i <= word_end(s, i) <= s.len(),
        i < s.len() && !text::white_space(s[i]) ==> word_end(s, i) > i,
    decreases s.len() - i,
{
    if i < s.len() && !text::white_space(s[i]) {
        lemma_word_end(s, i + 1);
    }
}

/// Whether scopes ask for an identity and for nothing that is not known.
pub fn valid_scope(scope: &str) -> (r: bool)
    ensures
        r == (asks_identity(scope@, 0) && known_scopes(scope@, 0)),
{
    let chars: Vec<char> = chars_of(scope);
    let ghost s = scope@;
    let mut identity: bool = false;
    let mut i: usize = 0;
    while i < chars.len()
        invariant
            i <= chars@.len(),
            chars@ == s,
            s == scope@,
            known_scopes(s, 0) == known_scopes(s, i as int),
            asks_identity(s, 0) == (identity || asks_identity(s, i as int)),
        decreases chars@.len() - i,
    {
        if is_white_space(chars[i]) {
            i = i + 1;
        } else {
            let start: usize = i;
            let mut end: usize = i;
            while end < chars.len() && !is_white_space(chars[end])
                invariant
                    start <= end <= chars@.len(),
                    chars@ == s,
                    word_end(s, start as int) == word_end(s, end as int),
                decreases chars@.len() - end,
            {
                end = end + 1;
            }
            proof {
                lemma_word_end(s, start as int);
            }
            let word: String = text_between(&chars, start, end);
            if same(word.as_str(), "openid") {
                identity = true;
            } else if !same(word.as_str(), "profile") {
                return false;
            }
            i = end;
        }
    }
    identity
}

/// Whether an issuer is an HTTPS address without a slash at its end.
pub open spec fn issuer_valid(issuer: Seq<char>) -> bool {
    text::has_prefix(issuer, "https://"@) && text::byte_len(issuer) > 8 && !text::has_suffix(
        issuer,
        "/"@,
    ) && !has_space(issuer)
}

/// Checks an issuer.
pub fn validate_issuer(issuer: &str) -> (r: Result<(), ApiError>)
    ensures
        match r {
            Ok(_) => issuer_valid(issuer@),
            Err(e) => !issuer_valid(issuer@) && error::told(e) == error::refusal(
                BAD_REQUEST,
                "OIDC issuer 必须是无尾斜杠的 HTTPS 地址",
            ),
        },
{
    if !(starts_with(issuer, "https://") && bytes_of(issuer) > 8) || ends_with(issuer, "/")
        || check_space(issuer) {
        return Err(
            ApiError::new(
                BAD_REQUEST,
                "OIDC issuer 必须是无尾斜杠的 HTTPS 地址",
            ),
        );
    }
    Ok(())
}

/// The digit that writes a number below sixteen.
pub open spec fn upper_digit(n: u8) -> char {
    if n < 10 {
        (('0' as u8) + n) as char
    } else {
        (('A' as u8) + n - 10) as char
    }
}

/// A byte of an address: a percent sign and two digits, unless no escape is needed.
pub open spec fn escaped(b: u8) -> Seq<char> {
    if b < 128 && unreserved(b as char) {
        seq![b as char]
    } else {
        seq!['%', upper_digit(b / 16), upper_digit(b % 16)]
    }
}

/// The first `n` bytes, escaped for an address.
pub open spec fn escaped_bytes(bytes: Seq<u8>, n: int) -> Seq<char>
    decreases n,
{
    if n <= 0 {
        Seq::empty()
    } else {
        escaped_bytes(bytes, n - 1) + escaped(bytes[n - 1])
    }
}

/// A text, escaped for an address.
pub open spec fn escaped_text(value: Seq<char>) -> Seq<char> {
    let bytes = vstd::utf8::encode_utf8(value);
    escaped_bytes(bytes, bytes.len() as int)
}

fn write_digit(n: u8) -> (r: char)
    requires
        n < 16,
    ensures
        r == upper_digit(n),
{
    if n < 10 {
        (48 + n) as char
    } else {
        (65 + (n - 10)) as char
    }
}

/// A text, escaped for an address.
pub fn percent_encode(value: &str) -> (r: String)
    ensures
        r@ == escaped_text(value@),
{
    let bytes: &[u8] = value.as_bytes();
    let ghost all = vstd::utf8::encode_utf8(value@);
    let mut chars: Vec<char> = Vec::new();
    let mut i: usize = 0;
    while i < bytes.len()
        invariant
            i <= bytes@.len(),
            bytes@ == all,
            chars@ == escaped_bytes(all, i as int),
        decreases bytes@.len() - i,
    {
        let b: u8 = bytes[i];
        let ghost before = chars@;
        if b < 128 && is_unreserved(b as char) {
            chars.push(b as char);
            assert(chars@ =~= before + seq![b as char]);
        } else {
            chars.push('%');
            chars.push(write_digit(b / 16));
            chars.push(write_digit(b % 16));
            assert(chars@ =~= before + seq!['%', upper_digit(b / 16), upper_digit(b % 16)]);
        }
        i = i + 1;
    }
    text::text_of(&chars)
}

/// The issuer of a site.
pub open spec fn site_issuer(domain: Seq<char>) -> Seq<char> {
    "https://nexo."@ + text::trimmed_end(domain, '.')
}

/// The address to which the mesh of a site gets its users back.
pub open spec fn site_callback(domain: Seq<char>) -> Seq<char> {
    "https://mesh."@ + text::trimmed_end(domain, '.') + "/oidc/callback"@
}

/// Whether an address is the callback of one of some domains.
pub open spec fn callback_allowed(domains: Seq<Seq<char>>, address: Seq<char>) -> bool {
    exists|i: int| 0 <= i < domains.len() && site_callback(#[trigger] domains[i]) == address
}

fn check_callback(domains: &Vec<String>, address: &str) -> (r: bool)
    ensures
        r == callback_allowed(text::views(domains@), address@),
{
    let ghost all = text::views(domains@);
    let mut i: usize = 0;
    while i < domains.len()
        invariant
            i <= domains@.len(),
            all == text::views(domains@),
            forall|j: int| 0 <= j < i ==> site_callback(#[trigger] all[j]) != address@,
        decreases domains@.len() - i,
    {
        assert(all[i as int] == domains@[i as int]@);
        let domain: String = trim_end(domains[i].as_str(), '.');
        let callback: String = join3("https://mesh.", domain.as_str(), "/oidc/callback");
        if same(callback.as_str(), address) {
            assert(site_callback(all[i as int]) == address@);
            return true;
        }
        i = i + 1;
    }
    false
}

/// Those of the first `n` entries whose time has not ended.
pub open spec fn unexpired<T>(list: Seq<Kept<T>>, now: i64, n: int) -> Seq<Kept<T>>
    decreases n,
{
    if n <= 0 {
        Seq::empty()
    } else if list[n - 1].expires_at > now {
        unexpired(list, now, n - 1).push(list[n - 1])
    } else {
        unexpired(list, now, n - 1)
    }
}

/// The position of the first entry from position `i` on with a key.
pub open spec fn kept_from<T>(list: Seq<Kept<T>>, key: Seq<char>, i: int) -> Option<int>
    decreases list.len() - i,
{
    if i < 0 || i >= list.len() {
        None
    } else if list[i].key@ == key {
        Some(i)
    } else {
        kept_from(list, key, i + 1)
    }
}

/// The entries without the first one that has a key.
pub open spec fn without_key<T>(list: Seq<Kept<T>>, key: Seq<char>) -> Seq<Kept<T>> {
    match kept_from(list, key, 0) {
        Some(k) => list.remove(k),
        None => list,
    }
}

/// What is kept under a key, where its time has not ended.
pub open spec fn kept_value<T>(list: Seq<Kept<T>>, key: Seq<char>, now: i64) -> Option<T> {
    match kept_from(list, key, 0) {
        Some(k) => if list[k].expires_at > now {
            Some(list[k].value)
        } else {
            None
        },
        None => None,
    }
}

proof fn lemma_kept_from<T>(list: Seq<Kept<T>>, key: Seq<char>, i: int)
    requires
        0 <= i,
    ensures
        match kept_from(list, key, i) {
            Some(k) => i <= k < list.len() && list[k].key@ == key,
            None => forall|j: int| i <= j < list.len() ==> (#[trigger] list[j]).key@ != key,
        },
    decreases list.len() - i,
{
    if i < list.len() {
        lemma_kept_from(list, key, i + 1);
    }
}

fn find_kept<T>(list: &Vec<Kept<T>>, key: &str) -> (r: Option<usize>)
    ensures
        match r {
            Some(k) => k < list@.len() && kept_from(list@, key@, 0) == Some(k as int),
            None => kept_from(list@, key@, 0) is None,
        },
{
    let mut i: usize = 0;
    while i < list.len()
        invariant
            i <= list@.len(),
            kept_from(list@, key@, 0) == kept_from(list@, key@, i as int),
        decreases list@.len() - i,
    {
        if same(list[i].key.as_str(), key) {
            return Some(i);
        }
        i = i + 1;
    }
    None
}

proof fn lemma_unexpired_step<T>(all: Seq<Kept<T>>, now: i64, n: int)
    requires
        0 <= n < all.len(),
    ensures
        ({
            let kept = unexpired(all, now, n);
            let list = kept + all.skip(n);
            &&& list[kept.len() as int] == all[n]
            &&& all[n].expires_at > now ==> list == unexpired(all, now, n + 1) + all.skip(n + 1)
            &&& all[n].expires_at <= now ==> list.remove(kept.len() as int) == unexpired(
                all,
                now,
                n + 1,
            ) + all.skip(n + 1)
        }),
{
    let kept = unexpired(all, now, n);
    let list = kept + all.skip(n);
    if all[n].expires_at > now {
        assert(list =~= kept.push(all[n]) + all.skip(n + 1));
    } else {
        assert(list.remove(kept.len() as int) =~= kept + all.skip(n + 1));
    }
}

fn drop_expired<T>(list: &mut Vec<Kept<T>>, now: i64)
    ensures
        final(list)@ == unexpired(old(list)@, now, old(list)@.len() as int),
{
    let ghost all = list@;
    let ghost mut n: int = 0;
    let mut i: usize = 0;
    assert(list@ =~= unexpired(all, now, 0) + all.skip(0));
    while i < list.len()
        invariant
            all == old(list)@,
            0 <= n <= all.len(),
            i == unexpired(all, now, n).len(),
            list@ == unexpired(all, now, n) + all.skip(n),
        decreases all.len() - n,
    {
        proof {
            assert(n < all.len());
            lemma_unexpired_step(all, now, n);
            n = n + 1;
        }
        if list[i].expires_at > now {
            i = i + 1;
        } else {
            list.remove(i);
        }
    }
    proof {
        assert(all.skip(n).len() == all.len() - n);
        assert(list@ =~= unexpired(all, now, n));
    }
}

/// The entries after one was put in: those whose time has ended are gone.
pub open spec fn put<T>(list: Seq<Kept<T>>, now: i64, entry: Kept<T>) -> Seq<Kept<T>> {
    without_key(unexpired(list, now, list.len() as int), entry.key@).push(entry)
}

/// Whether there is room for another entry.
pub open spec fn has_room<T>(list: Seq<Kept<T>>, now: i64, limit: usize) -> bool {
    unexpired(list, now, list.len() as int).len() < limit
}

fn keep<T>(list: &mut Vec<Kept<T>>, limit: usize, entry: Kept<T>, now: i64) -> (r: bool)
    ensures
        r == has_room(old(list)@, now, limit),
        final(list)@ == (if r {
            put(old(list)@, now, entry)
        } else {
            unexpired(old(list)@, now, old(list)@.len() as int)
        }),
{
    drop_expired(list, now);
    if list.len() >= limit {
        return false;
    }
    if let Some(k) = find_kept(list, entry.key.as_str()) {
        list.remove(k);
    }
    list.push(entry);
    true
}

fn take<T>(list: &mut Vec<Kept<T>>, key: &str, now: i64) -> (r: Option<T>)
    ensures
        final(list)@ == without_key(old(list)@, key@),
        r == kept_value(old(list)@, key@, now),
{
    match find_kept(list, key) {
        Some(k) => {
            let entry: Kept<T> = list.remove(k);
            if entry.expires_at > now {
                Some(entry.value)
            } else {
                None
            }
        },
        None => None,
    }
}

/// Whether no two entries have one key.
pub open spec fn kept_once<T>(list: Seq<Kept<T>>) -> bool {
    forall|i: int, j: int|
        0 <= i < j < list.len() ==> (#[trigger] list[i]).key@ != (#[trigger] list[j]).key@
}

/// What was taken is gone: a code, once shown, is refused from then on, whether or not it was
/// redeemed.
pub proof fn codes_work_once<T>(list: Seq<Kept<T>>, key: Seq<char>, later: i64)
    requires
        kept_once(list),
    ensures
        kept_value(without_key(list, key), key, later) is None,
        kept_once(without_key(list, key)),
{
    lemma_kept_from(list, key, 0);
    let after = without_key(list, key);
    lemma_kept_from(after, key, 0);
    if let Some(k) = kept_from(list, key, 0) {
        assert forall|j: int| 0 <= j < after.len() implies (#[trigger] after[j]).key@ != key by {
            if j < k {
                assert(after[j] == list[j]);
                assert(list[j].key@ != list[k].key@);
            } else {
                assert(after[j] == list[j + 1]);
                assert(list[k].key@ != list[j + 1].key@);
            }
        }
        assert forall|i: int, j: int| 0 <= i < j < after.len() implies (#[trigger] after[i]).key@
            != (#[trigger] after[j]).key@ by {
            let p = if i < k {
                i
            } else {
                i + 1
            };
            let q = if j < k {
                j
            } else {
                j + 1
            };
            assert(after[i] == list[p] && after[j] == list[q]);
            assert(list[p].key@ != list[q].key@);
        }
    }
}

proof fn lemma_unexpired<T>(list: Seq<Kept<T>>, now: i64, n: int)
    requires
        0 <= n <= list.len(),
        kept_once(list),
    ensures
        kept_once(unexpired(list, now, n)),
        unexpired(list, now, n).len() <= n,
        forall|j: int|
            0 <= j < unexpired(list, now, n).len() ==> exists|i: int|
                0 <= i < n && list[i] == #[trigger] unexpired(list, now, n)[j],
    decreases n,
{
    if n > 0 {
        lemma_unexpired(list, now, n - 1);
        let before = unexpired(list, now, n - 1);
        let after = unexpired(list, now, n);
        assert forall|j: int| 0 <= j < after.len() implies exists|i: int|
            0 <= i < n && list[i] == #[trigger] after[j] by {
            if j < before.len() {
                let i = choose|i: int| 0 <= i < n - 1 && list[i] == before[j];
                assert(list[i] == after[j]);
            } else {
                assert(list[n - 1] == after[j]);
            }
        }
        assert forall|i: int, j: int| 0 <= i < j < after.len() implies (#[trigger] after[i]).key@
            != (#[trigger] after[j]).key@ by {
            assert(after[i] == before[i]);
            if j < before.len() {
                assert(after[j] == before[j]);
            } else {
                let p = choose|p: int| 0 <= p < n - 1 && list[p] == before[i];
                assert(list[p].key@ != list[n - 1].key@);
            }
        }
    }
}

/// What is handed out stays bounded in number, and no secret stands for two things.
pub proof fn memory_stays_bounded<T>(
    list: Seq<Kept<T>>,
    limit: usize,
    entry: Kept<T>,
    now: i64,
)
    requires
        kept_once(list),
        has_room(list, now, limit),
    ensures
        kept_once(put(list, now, entry)),
        put(list, now, entry).len() <= limit,
        entry.expires_at > now ==> kept_value(put(list, now, entry), entry.key@, now) == Some(
            entry.value,
        ),
{
    let live = unexpired(list, now, list.len() as int);
    lemma_unexpired(list, now, list.len() as int);
    codes_work_once(live, entry.key@, now);
    lemma_kept_from(live, entry.key@, 0);
    let rest = without_key(live, entry.key@);
    lemma_kept_from(rest, entry.key@, 0);
    let after = put(list, now, entry);
    lemma_kept_from(after, entry.key@, 0);
    assert(after[rest.len() as int] == entry);
    assert forall|j: int| 0 <= j < rest.len() implies (#[trigger] rest[j]).key@ != entry.key@ by {
        lemma_gone(live, entry.key@, j);
    }
    assert forall|i: int, j: int| 0 <= i < j < after.len() implies (#[trigger] after[i]).key@ != (
    #[trigger] after[j]).key@ by {
        assert(after[i] == rest[i]);
        if j < rest.len() {
            assert(after[j] == rest[j]);
        }
    }
    let k = kept_from(after, entry.key@, 0)->0;
    if k < rest.len() {
        assert(rest[k].key@ == entry.key@);
    }
}

proof fn lemma_gone<T>(list: Seq<Kept<T>>, key: Seq<char>, j: int)
    requires
        kept_once(list),
        0 <= j < without_key(list, key).len(),
    ensures
        without_key(list, key)[j].key@ != key,
{
    lemma_kept_from(list, key, 0);
    if let Some(k) = kept_from(list, key, 0) {
        if j < k {
            assert(list[j].key@ != list[k].key@);
        } else {
            assert(list[k].key@ != list[j + 1].key@);
        }
    }
}

/// A challenge that was accepted is met by the verifiers whose digest it is, and by no other.
pub proof fn challenges_bind_the_verifier(challenge: Seq<char>, verifier: Seq<char>)
    ensures
        verifier_matches(challenge.push('S'), verifier) <==> challenge == digest::base64_of(
            digest::sha256_of(vstd::utf8::encode_utf8(verifier)),
        ),
{
    assert(challenge.push('S').drop_last() =~= challenge);
}

/// Why the provider cannot start.
#[derive(Debug, Clone, Copy, PartialEq, Eq, Structural)]
pub enum OidcError {
    /// The stored public key cannot be read.
    PublicKey,
    /// No key could be made.
    NewKey,
}

impl OidcError {
    pub open spec fn text(self) -> Seq<char> {
        match self {
            OidcError::PublicKey => "OIDC 公钥格式无效"@,
            OidcError::NewKey => "无法生成 OIDC RSA 签名密钥"@,
        }
    }

    pub fn message(&self) -> (r: String)
        ensures
            r@ == self.text(),
    {
        match self {
            OidcError::PublicKey => "OIDC 公钥格式无效".to_owned(),
            OidcError::NewKey => "无法生成 OIDC RSA 签名密钥".to_owned(),
        }
    }
}

/// The address of a key: the first sixteen digits of the digest of its text.
pub open spec fn key_id_of(public_key_pem: Seq<char>) -> Seq<char> {
    digest::digest_of(public_key_pem).take(16)
}

/// Whether a key is the one of some settings.
pub open spec fn is_key_of(key: OidcKeyMaterial, settings: OidcSettings) -> bool {
    key.private_key_pem@ == settings.private_key_pem@ && key.key_id@ == settings.key_id@ && (
    rsa_parts(settings.public_key_pem@) matches Some(parts) && key.modulus@ == digest::base64_of(
        parts.0,
    ) && key.exponent@ == digest::base64_of(parts.1))
}

/// The key of some settings, given the parts of its public half.
pub fn key_material(settings: &OidcSettings, parts: Option<(Vec<u8>, Vec<u8>)>) -> (r: Result<
    OidcKeyMaterial,
    OidcError,
>)
    ensures
        match (r, parts) {
            (Ok(key), Some(parts)) => key.private_key_pem@ == settings.private_key_pem@
                && key.key_id@ == settings.key_id@ && key.modulus@ == digest::base64_of(parts.0@)
                && key.exponent@ == digest::base64_of(parts.1@),
            (Err(e), None) => e == OidcError::PublicKey,
            _ => false,
        },
{
    match parts {
        Some((modulus, exponent)) => Ok(
            OidcKeyMaterial {
                private_key_pem: settings.private_key_pem.clone(),
                key_id: settings.key_id.clone(),
                modulus: base64_encode(&modulus),
                exponent: base64_encode(&exponent),
            },
        ),
        None => Err(OidcError::PublicKey),
    }
}

/// What becomes of a user that a client has sent.
#[derive(Debug)]
pub enum Authorization {
    /// The user has to sign in first.
    SignIn {
        location: String,
    },
    /// The user is known; the code can be made.
    Proceed {
        request: AuthorizeRequest,
        user_id: String,
        account: OidcAccount,
    },
}

/// How a user is known to the mesh.
#[derive(Debug, Clone)]
pub struct OidcAccount {
    pub nexo_user_id: String,
    pub workspace_id: String,
    pub provider_id: String,
}

/// Whether an account is the one of a user.
pub open spec fn is_account(account: OidcAccount, issuer: Seq<char>, user: User) -> bool {
    account.nexo_user_id@ == user.id@ && account.workspace_id@ == user.tenant_id@
        && account.provider_id@ == issuer + "/"@ + user.id@
}

/// How far an account is synchronised after its user has signed in: one that was withdrawn starts
/// anew.
pub fn sync_status(previous: Option<&str>) -> (r: &str)
    ensures
        r@ == (match previous {
            Some(status) if status@ != "revoked"@ => status@,
            _ => "pending"@,
        }),
{
    match previous {
        Some(status) => if same(status, "revoked") {
            "pending"
        } else {
            status
        },
        None => "pending",
    }
}

/// The refusal for a parameter that is missing.
pub open spec fn missing(name: &str) -> Option<error::Refusal> {
    error::refusal_of(BAD_REQUEST, "缺少 OIDC 参数 "@ + name@)
}

/// Whether a parameter is there and not empty.
pub open spec fn given(request: OAuthRequest, name: &str) -> bool {
    parameter(request, name@) matches Some(value) && value.len() > 0
}

/// Why the parameters of a client are refused, if they are.
pub open spec fn parse_refusal(request: OAuthRequest) -> Option<error::Refusal> {
    if !given(request, "client_id") {
        missing("client_id")
    } else if !given(request, "redirect_uri") {
        missing("redirect_uri")
    } else if !given(request, "scope") {
        missing("scope")
    } else if !given(request, "nonce") {
        missing("nonce")
    } else if !given(request, "code_challenge") {
        missing("code_challenge")
    } else if !given(request, "code_challenge_method") {
        missing("code_challenge_method")
    } else {
        None
    }
}

/// Whether a request holds the parameters of a client.
pub open spec fn is_parsed(parsed: AuthorizeRequest, request: OAuthRequest) -> bool {
    &&& parameter(request, "client_id"@) == Some(parsed.client_id@)
    &&& parameter(request, "redirect_uri"@) == Some(parsed.redirect_uri@)
    &&& parameter(request, "scope"@) == Some(parsed.scope@)
    &&& parameter(request, "state"@) == text::opt(parsed.state)
    &&& parameter(request, "nonce"@) == Some(parsed.nonce@)
    &&& parameter(request, "code_challenge"@) == Some(parsed.code_challenge@)
    &&& parameter(request, "code_challenge_method"@) == Some(parsed.code_challenge_method@)
}

fn required(request: &OAuthRequest, name: &str) -> (r: Result<String, ApiError>)
    ensures
        match r {
            Ok(value) => given(*request, name) && parameter(*request, name@) == Some(value@),
            Err(e) => !given(*request, name) && error::told(e) == missing(name),
        },
{
    if let Some(value) = oauth_value(request, name) {
        if !value.as_str().is_empty() {
            return Ok(value);
        }
    }
    let message: String = join2("缺少 OIDC 参数 ", name);
    Err(ApiError::new(BAD_REQUEST, message.as_str()))
}

/// Reads the parameters of a client.
pub fn parse_authorize_request(request: &OAuthRequest) -> (r: Result<AuthorizeRequest, ApiError>)
    ensures
        match r {
            Ok(parsed) => parse_refusal(*request) is None && is_parsed(parsed, *request),
            Err(e) => parse_refusal(*request) == error::told(e),
        },
{
    let client_id: String = match required(request, "client_id") {
        Ok(value) => value,
        Err(e) => {
            return Err(e);
        },
    };
    let redirect_uri: String = match required(request, "redirect_uri") {
        Ok(value) => value,
        Err(e) => {
            return Err(e);
        },
    };
    let scope: String = match required(request, "scope") {
        Ok(value) => value,
        Err(e) => {
            return Err(e);
        },
    };
    let nonce: String = match required(request, "nonce") {
        Ok(value) => value,
        Err(e) => {
            return Err(e);
        },
    };
    let code_challenge: String = match required(request, "code_challenge") {
        Ok(value) => value,
        Err(e) => {
            return Err(e);
        },
    };
    let code_challenge_method: String = match required(request, "code_challenge_method") {
        Ok(value) => value,
        Err(e) => {
            return Err(e);
        },
    };
    let state: Option<String> = oauth_value(request, "state");
    Ok(
        AuthorizeRequest {
            client_id,
            redirect_uri,
            scope,
            state,
            nonce,
            code_challenge,
            code_challenge_method,
        },
    )
}

/// The refusal while the provider has no issuer.
pub open spec fn no_issuer() -> Option<error::Refusal> {
    error::refusal(
        SERVICE_UNAVAILABLE,
        "OIDC issuer 尚未就绪，请先配置并启用 HTTPS 主域名",
    )
}

/// Why what a client asks for is refused, if it is.
pub open spec fn request_refusal(
    issuer: Option<Seq<char>>,
    domains: Seq<Seq<char>>,
    request: AuthorizeRequest,
) -> Option<error::Refusal> {
    if request.client_id@ != CLIENT_ID@ {
        error::refusal(BAD_REQUEST, "OIDC client_id 无效")
    } else if request.code_challenge_method@ != "S256"@ || !pkce_text(request.code_challenge@) {
        error::refusal(BAD_REQUEST, "OIDC 只支持 PKCE S256")
    } else if !asks_identity(request.scope@, 0) || !known_scopes(request.scope@, 0) {
        error::refusal(
            BAD_REQUEST,
            "OIDC scope 必须包含 openid，且只支持 profile",
        )
    } else if text::byte_len(request.nonce@) > 512 || has_space(request.nonce@) {
        error::refusal(BAD_REQUEST, "OIDC nonce 无效")
    } else if !callback_allowed(domains, request.redirect_uri@) {
        error::refusal(BAD_REQUEST, "OIDC redirect_uri 不在允许列表中")
    } else if issuer is None {
        no_issuer()
    } else {
        None
    }
}

/// Why a user cannot be identified, if that is so.
pub open spec fn user_refusal(users: Seq<User>, id: Seq<char>, disabled: &str) -> Option<error::Refusal> {
    match auth::user_at(users, id) {
        None => error::refusal(UNAUTHORIZED, "Nexo 账号不存在"),
        Some(k) => if users[k].enabled {
            None
        } else {
            error::refusal(FORBIDDEN, disabled)
        },
    }
}

fn identify(users: &Vec<User>, id: &str, disabled: &str) -> (r: Result<usize, ApiError>)
    ensures
        match r {
            Ok(k) => user_refusal(users@, id@, disabled) is None && auth::user_at(users@, id@)
                == Some(k as int) && k < users@.len() && users@[k as int].id@ == id@,
            Err(e) => user_refusal(users@, id@, disabled) == error::told(e),
        },
{
    match find_user(users, id) {
        Some(k) => if users[k].enabled {
            Ok(k)
        } else {
            Err(ApiError::new(FORBIDDEN, disabled))
        },
        None => Err(ApiError::new(UNAUTHORIZED, "Nexo 账号不存在")),
    }
}

/// The refusal for a user who has not signed in.
pub open spec fn not_signed_in() -> Option<error::Refusal> {
    error::no_session()
}

/// Why a user who comes back with a known request is refused, if that is so.
pub open spec fn known_refusal(
    issuer: Option<Seq<char>>,
    domains: Seq<Seq<char>>,
    users: Seq<User>,
    user: Option<Seq<char>>,
    request: AuthorizeRequest,
) -> Option<error::Refusal> {
    if request_refusal(issuer, domains, request) is Some {
        request_refusal(issuer, domains, request)
    } else {
        match user {
            None => not_signed_in(),
            Some(id) => user_refusal(
                users,
                id,
                "当前账号已停用，不能使用组网登录",
            ),
        }
    }
}

/// Every start from the same settings publishes the same key and signs with the same one. Settings
/// whose two parts belong together, as those of the first start do, can always be started from.
pub proof fn starts_from_the_same_settings_share_the_key(
    settings: OidcSettings,
    first: OidcKeyMaterial,
    second: OidcKeyMaterial,
)
    requires
        is_key_of(first, settings),
        is_key_of(second, settings),
    ensures
        first.private_key_pem@ == second.private_key_pem@,
        first.key_id@ == second.key_id@,
        first.modulus@ == second.modulus@,
        first.exponent@ == second.exponent@,
        key_pair(settings.private_key_pem@, settings.public_key_pem@) ==> rsa_parts(
            settings.public_key_pem@,
        ) is Some,
{
}

/// What is stored at the first start, given the private and the public part of the key that was made
/// for it.
pub fn first_settings(pair: Option<(String, String)>) -> (r: Result<OidcSettings, OidcError>)
    ensures
        match (pair, r) {
            (Some(made), Ok(settings)) => settings.private_key_pem@ == made.0@
                && settings.public_key_pem@ == made.1@ && settings.key_id@ == key_id_of(made.1@)
                && settings.issuer is None,
            (None, Err(e)) => e == OidcError::NewKey,
            _ => false,
        },
{
    match pair {
        Some((private_key_pem, public_key_pem)) => {
            let whole: String = digest::digest(public_key_pem.as_str());
            let chars: Vec<char> = chars_of(whole.as_str());
            let key_id: String = text_between(&chars, 0, 16);
            assert(key_id@ =~= key_id_of(public_key_pem@));
            Ok(OidcSettings { private_key_pem, public_key_pem, key_id, issuer: None })
        },
        None => Err(OidcError::NewKey),
    }
}

impl OidcRuntime {
    /// Starts the provider with its stored key; the first start makes the key, and later ones never
    /// replace it. Gives what has to be stored.
    pub fn initialize(stored: Option<OidcSettings>) -> (r: Result<
        (OidcRuntime, Option<OidcSettings>),
        OidcError,
    >)
        ensures
            match (r, stored) {
                (Ok((runtime, new)), Some(settings)) => new is None && is_key_of(
                    runtime.key,
                    settings,
                ) && text::opt(runtime.issuer) == text::opt(settings.issuer),
                (Ok((runtime, new)), None) => (new matches Some(settings) && is_key_of(
                    runtime.key,
                    settings,
                ) && settings.key_id@ == key_id_of(settings.public_key_pem@) && key_pair(
                    settings.private_key_pem@,
                    settings.public_key_pem@,
                ) && signing_key_usable(settings.private_key_pem@) && settings.issuer is None)
                    && runtime.issuer is None,
                (Err(e), Some(settings)) => e == OidcError::PublicKey && rsa_parts(
                    settings.public_key_pem@,
                ) is None,
                (Err(e), None) => e == OidcError::NewKey,
            },
            r matches Ok((runtime, _)) ==> runtime.authorization_codes@.len() == 0
                && runtime.access_tokens@.len() == 0 && runtime.login_tickets@.len() == 0,
    {
        let (settings, new): (OidcSettings, bool) = match stored {
            Some(settings) => (settings, false),
            None => match first_settings(new_signing_key()) {
                Ok(settings) => (settings, true),
                Err(e) => {
                    return Err(e);
                },
            },
        };
        let parts: Option<(Vec<u8>, Vec<u8>)> = read_public_key(settings.public_key_pem.as_str());
        let key: OidcKeyMaterial = match key_material(&settings, parts) {
            Ok(key) => key,
            Err(e) => {
                return Err(e);
            },
        };
        let runtime = OidcRuntime {
            key,
            issuer: copy_opt(&settings.issuer),
            authorization_codes: Vec::new(),
            access_tokens: Vec::new(),
            login_tickets: Vec::new(),
        };
        Ok(
            (
                runtime,
                if new {
                    Some(settings)
                } else {
                    None
                },
            ),
        )
    }

    /// The issuer, where it is settled.
    pub fn issuer(&self) -> (r: Option<String>)
        ensures
            text::opt(r) == text::opt(self.issuer),
    {
        copy_opt(&self.issuer)
    }

    /// Settles the issuer: the stored one, or the one of the primary domain. Once stored it never
    /// changes, whatever becomes of the domain. Gives the issuer, and whether it has to be stored.
    pub fn sync_issuer(&mut self, stored: Option<String>, domain: Option<String>) -> (r: Result<
        Option<(String, bool)>,
        ApiError,
    >)
        ensures
            final(self).key == old(self).key,
            final(self).authorization_codes == old(self).authorization_codes,
            final(self).access_tokens == old(self).access_tokens,
            final(self).login_tickets == old(self).login_tickets,
            match (stored, r) {
                (Some(issuer), Ok(Some((given, new)))) => given@ == issuer@ && !new && text::opt(
                    final(self).issuer,
                ) == Some(issuer@),
                (Some(_), _) => false,
                (None, Ok(None)) => !(domain matches Some(name) && text::trimmed(name@).len() > 0)
                    && final(self).issuer == old(self).issuer,
                (None, Ok(Some((given, new)))) => (domain matches Some(name) && text::trimmed(
                    name@,
                ).len() > 0 && given@ == site_issuer(name@) && issuer_valid(given@)) && new
                    && text::opt(final(self).issuer) == Some(given@),
                (None, Err(e)) => (domain matches Some(name) && text::trimmed(name@).len() > 0
                    && !issuer_valid(site_issuer(name@))) && error::told(e) == error::refusal(
                    BAD_REQUEST,
                    "OIDC issuer 必须是无尾斜杠的 HTTPS 地址",
                ) && final(self).issuer == old(self).issuer,
            },
    {
        if let Some(issuer) = stored {
            self.issuer = Some(issuer.clone());
            return Ok(Some((issuer, false)));
        }
        let name: String = match domain {
            Some(name) => name,
            None => {
                return Ok(None);
            },
        };
        if trim(name.as_str()).as_str().is_empty() {
            return Ok(None);
        }
        let site: String = trim_end(name.as_str(), '.');
        let issuer: String = join2("https://nexo.", site.as_str());
        if let Err(e) = validate_issuer(issuer.as_str()) {
            return Err(e);
        }
        self.issuer = Some(issuer.clone());
        Ok(Some((issuer, true)))
    }

    /// The issuer, or the refusal while it is not settled.
    pub fn current_issuer(&self) -> (r: Result<String, ApiError>)
        ensures
            match r {
                Ok(issuer) => text::opt(self.issuer) == Some(issuer@),
                Err(e) => self.issuer is None && error::told(e) == no_issuer(),
            },
    {
        match &self.issuer {
            Some(issuer) => Ok(issuer.clone()),
            None => Err(
                ApiError::new(
                    SERVICE_UNAVAILABLE,
                    "OIDC issuer 尚未就绪，请先配置并启用 HTTPS 主域名",
                ),
            ),
        }
    }

    /// What the provider says of itself.
    pub fn discovery(&self) -> (r: Result<DiscoveryResponse, ApiError>)
        ensures
            match r {
                Err(e) => self.issuer is None && error::told(e) == no_issuer(),
                Ok(reply) => text::opt(self.issuer) == Some(reply.issuer@)
                    && reply.authorization_endpoint@ == reply.issuer@ + "/oidc/authorize"@
                    && reply.token_endpoint@ == reply.issuer@ + "/oidc/token"@
                    && reply.userinfo_endpoint@ == reply.issuer@ + "/oidc/userinfo"@
                    && reply.jwks_uri@ == reply.issuer@ + "/oidc/jwks.json"@
                    && reply.response_types_supported@ == seq!["code"]
                    && reply.subject_types_supported@ == seq!["public"]
                    && reply.id_token_signing_alg_values_supported@ == seq!["RS256"]
                    && reply.scopes_supported@ == seq!["openid", "profile"]
                    && reply.claims_supported@ == seq!["sub", "preferred_username", "name"]
                    && reply.code_challenge_methods_supported@ == seq!["S256"]
                    && reply.token_endpoint_auth_methods_supported@ == seq!["none"],
            },
    {
        let issuer: String = match self.current_issuer() {
            Ok(issuer) => issuer,
            Err(e) => {
                return Err(e);
            },
        };
        Ok(
            DiscoveryResponse {
                authorization_endpoint: join2(issuer.as_str(), "/oidc/authorize"),
                token_endpoint: join2(issuer.as_str(), "/oidc/token"),
                userinfo_endpoint: join2(issuer.as_str(), "/oidc/userinfo"),
                jwks_uri: join2(issuer.as_str(), "/oidc/jwks.json"),
                issuer,
                response_types_supported: vec!["code"],
                subject_types_supported: vec!["public"],
                id_token_signing_alg_values_supported: vec!["RS256"],
                scopes_supported: vec!["openid", "profile"],
                claims_supported: vec!["sub", "preferred_username", "name"],
                code_challenge_methods_supported: vec!["S256"],
                token_endpoint_auth_methods_supported: vec!["none"],
            },
        )
    }

    /// The public key. The private half is never shown.
    pub fn jwks(&self) -> (r: JsonWebKey)
        ensures
            r.kty@ == "RSA"@,
            r.use_@ == "sig"@,
            r.alg@ == "RS256"@,
            r.kid@ == self.key.key_id@,
            r.n@ == self.key.modulus@,
            r.e@ == self.key.exponent@,
    {
        JsonWebKey {
            kty: "RSA",
            use_: "sig",
            alg: "RS256",
            kid: self.key.key_id.clone(),
            n: self.key.modulus.clone(),
            e: self.key.exponent.clone(),
        }
    }

    /// Keeps a request while its user signs in, and gives the ticket for it.
    pub fn issue_login_ticket(&mut self, request: AuthorizeRequest, now: i64) -> (r: Result<
        String,
        ApiError,
    >)
        requires
            now + LOGIN_TICKET_SECONDS <= i64::MAX,
        ensures
            final(self).key == old(self).key,
            final(self).issuer == old(self).issuer,
            final(self).authorization_codes == old(self).authorization_codes,
            final(self).access_tokens == old(self).access_tokens,
            match r {
                Ok(ticket) => has_room(old(self).login_tickets@, now, MAX_LOGIN_TICKETS)
                    && digest::secret_token(ticket@) && ({
                    let entry = final(self).login_tickets@.last();
                    &&& entry.key@ == ticket@ && entry.value == request && entry.expires_at == now
                        + LOGIN_TICKET_SECONDS
                    &&& final(self).login_tickets@ == put(old(self).login_tickets@, now, entry)
                }),
                Err(e) => !has_room(old(self).login_tickets@, now, MAX_LOGIN_TICKETS)
                    && error::told(e) == error::refusal(
                    SERVICE_UNAVAILABLE,
                    "OIDC 登录请求过多，请稍后重试",
                ) && final(self).login_tickets@ == unexpired(
                    old(self).login_tickets@,
                    now,
                    old(self).login_tickets@.len() as int,
                ),
            },
    {
        let ticket: String = random_token();
        let entry = Kept {
            key: ticket.clone(),
            value: request,
            expires_at: now + LOGIN_TICKET_SECONDS,
        };
        if keep(&mut self.login_tickets, MAX_LOGIN_TICKETS, entry, now) {
            Ok(ticket)
        } else {
            Err(
                ApiError::new(
                    SERVICE_UNAVAILABLE,
                    "OIDC 登录请求过多，请稍后重试",
                ),
            )
        }
    }

    /// Decides on a user that a client has sent. One who has not signed in is sent to do so, with a
    /// ticket for the request; the ticket serves once.
    pub fn begin_authorize(
        &mut self,
        request: &OAuthRequest,
        domains: &Vec<String>,
        users: &Vec<User>,
        user: Option<&str>,
        now: i64,
    ) -> (r: Result<Authorization, ApiError>)
        requires
            now + LOGIN_TICKET_SECONDS <= i64::MAX,
        ensures
            final(self).key == old(self).key,
            final(self).issuer == old(self).issuer,
            final(self).authorization_codes == old(self).authorization_codes,
            final(self).access_tokens == old(self).access_tokens,
            match parameter(*request, "nexo_login_ticket"@) {
                Some(ticket) => final(self).login_tickets@ == without_key(
                    old(self).login_tickets@,
                    ticket,
                ) && (match kept_value(old(self).login_tickets@, ticket, now) {
                    None => r matches Err(e) && error::told(e) == error::refusal(
                        BAD_REQUEST,
                        "OIDC 登录请求已失效，请重新连接",
                    ),
                    Some(known) => ({
                        let refusal = known_refusal(
                            text::opt(old(self).issuer),
                            text::views(domains@),
                            users@,
                            text::opt_str(user),
                            known,
                        );
                        match r {
                            Err(e) => refusal == error::told(e),
                            Ok(Authorization::Proceed { request: asked, user_id, account }) => {
                                &&& refusal is None
                                &&& asked == known
                                &&& Some(user_id@) == text::opt_str(user)
                                &&& auth::user_at(users@, user_id@) matches Some(k)
                                &&& is_account(account, old(self).issuer->0@, users@[k])
                            },
                            Ok(_) => false,
                        }
                    }),
                }),
                None => ({
                    let refusal = parse_refusal(*request);
                    match r {
                        Err(e) => if refusal is Some {
                            refusal == error::told(e) && final(self).login_tickets
                                == old(self).login_tickets
                        } else {
                            exists|parsed: AuthorizeRequest| #[trigger]
                                is_parsed(parsed, *request) && direct_refusal(
                                    text::opt(old(self).issuer),
                                    text::views(domains@),
                                    users@,
                                    text::opt_str(user),
                                    parsed,
                                    has_room(old(self).login_tickets@, now, MAX_LOGIN_TICKETS),
                                ) == error::told(e) && final(self).login_tickets@ == (if user
                                    is None && request_refusal(
                                    text::opt(old(self).issuer),
                                    text::views(domains@),
                                    parsed,
                                ) is None {
                                    unexpired(
                                        old(self).login_tickets@,
                                        now,
                                        old(self).login_tickets@.len() as int,
                                    )
                                } else {
                                    old(self).login_tickets@
                                })
                        },
                        Ok(Authorization::Proceed { request: asked, user_id, account }) => {
                            &&& refusal is None
                            &&& is_parsed(asked, *request)
                            &&& request_refusal(
                                text::opt(old(self).issuer),
                                text::views(domains@),
                                asked,
                            ) is None
                            &&& Some(user_id@) == text::opt_str(user)
                            &&& user_refusal(
                                users@,
                                user_id@,
                                "当前账号已停用，不能使用组网登录",
                            ) is None
                            &&& auth::user_at(users@, user_id@) matches Some(k)
                            &&& is_account(account, old(self).issuer->0@, users@[k])
                            &&& final(self).login_tickets == old(self).login_tickets
                        },
                        Ok(Authorization::SignIn { location }) => {
                            let entry = final(self).login_tickets@.last();
                            &&& refusal is None
                            &&& user is None
                            &&& is_parsed(entry.value, *request)
                            &&& request_refusal(
                                text::opt(old(self).issuer),
                                text::views(domains@),
                                entry.value,
                            ) is None
                            &&& has_room(old(self).login_tickets@, now, MAX_LOGIN_TICKETS)
                            &&& entry.expires_at == now + LOGIN_TICKET_SECONDS
                            &&& digest::secret_token(entry.key@)
                            &&& final(self).login_tickets@ == put(
                                old(self).login_tickets@,
                                now,
                                entry,
                            )
                            &&& location@ == "/?oidc_ticket="@ + escaped_text(entry.key@)
                        },
                    }
                }),
            },
    {
        match oauth_value(request, "nexo_login_ticket") {
            Some(ticket) => {
                let known: AuthorizeRequest = match take(
                    &mut self.login_tickets,
                    ticket.as_str(),
                    now,
                ) {
                    Some(known) => known,
                    None => {
                        return Err(
                            ApiError::new(
                                BAD_REQUEST,
                                "OIDC 登录请求已失效，请重新连接",
                            ),
                        );
                    },
                };
                self.let_in(known, domains, users, user)
            },
            None => {
                let parsed: AuthorizeRequest = match parse_authorize_request(request) {
                    Ok(parsed) => parsed,
                    Err(e) => {
                        return Err(e);
                    },
                };
                if let Err(e) = self.validate_authorize_request(&parsed, domains) {
                    assert(is_parsed(parsed, *request));
                    return Err(e);
                }
                if user.is_none() {
                    let ghost asked = parsed;
                    return match self.issue_login_ticket(parsed, now) {
                        Ok(ticket) => {
                            let shown: String = percent_encode(ticket.as_str());
                            Ok(
                                Authorization::SignIn {
                                    location: join2("/?oidc_ticket=", shown.as_str()),
                                },
                            )
                        },
                        Err(e) => {
                            assert(is_parsed(asked, *request));
                            Err(e)
                        },
                    };
                }
                assert(is_parsed(parsed, *request));
                self.let_in(parsed, domains, users, user)
            },
        }
    }

    fn let_in(
        &self,
        request: AuthorizeRequest,
        domains: &Vec<String>,
        users: &Vec<User>,
        user: Option<&str>,
    ) -> (r: Result<Authorization, ApiError>)
        ensures
            ({
                let refusal = known_refusal(
                    text::opt(self.issuer),
                    text::views(domains@),
                    users@,
                    text::opt_str(user),
                    request,
                );
                match r {
                    Err(e) => refusal == error::told(e),
                    Ok(Authorization::Proceed { request: asked, user_id, account }) => {
                        &&& refusal is None
                        &&& asked == request
                        &&& Some(user_id@) == text::opt_str(user)
                        &&& auth::user_at(users@, user_id@) matches Some(k)
                        &&& is_account(account, self.issuer->0@, users@[k])
                    },
                    Ok(_) => false,
                }
            }),
    {
        if let Err(e) = self.validate_authorize_request(&request, domains) {
            return Err(e);
        }
        let id: &str = match user {
            Some(id) => id,
            None => {
                return Err(ApiError::session_expired());
            },
        };
        let k: usize = match identify(
            users,
            id,
            "当前账号已停用，不能使用组网登录",
        ) {
            Ok(k) => k,
            Err(e) => {
                return Err(e);
            },
        };
        let account: OidcAccount = match self.account_of(&users[k]) {
            Ok(account) => account,
            Err(e) => {
                return Err(e);
            },
        };
        Ok(Authorization::Proceed { request, user_id: id.to_owned(), account })
    }

    fn account_of(&self, user: &User) -> (r: Result<OidcAccount, ApiError>)
        ensures
            match r {
                Ok(account) => self.issuer is Some && is_account(account, self.issuer->0@, *user),
                Err(e) => self.issuer is None && error::told(e) == no_issuer(),
            },
    {
        match self.current_issuer() {
            Ok(issuer) => Ok(
                OidcAccount {
                    nexo_user_id: user.id.clone(),
                    workspace_id: user.tenant_id.clone(),
                    provider_id: join3(issuer.as_str(), "/", user.id.as_str()),
                },
            ),
            Err(e) => Err(e),
        }
    }

    /// Checks what a client asks for.
    pub fn validate_authorize_request(&self, request: &AuthorizeRequest, domains: &Vec<String>) -> (r:
        Result<(), ApiError>)
        ensures
            match r {
                Ok(_) => request_refusal(
                    text::opt(self.issuer),
                    text::views(domains@),
                    *request,
                ) is None,
                Err(e) => request_refusal(
                    text::opt(self.issuer),
                    text::views(domains@),
                    *request,
                ) == error::told(e),
            },
    {
        if !same(request.client_id.as_str(), CLIENT_ID) {
            return Err(ApiError::new(BAD_REQUEST, "OIDC client_id 无效"));
        }
        if !same(request.code_challenge_method.as_str(), "S256") || !valid_pkce_value(
            request.code_challenge.as_str(),
        ) {
            return Err(ApiError::new(BAD_REQUEST, "OIDC 只支持 PKCE S256"));
        }
        if !valid_scope(request.scope.as_str()) {
            return Err(
                ApiError::new(
                    BAD_REQUEST,
                    "OIDC scope 必须包含 openid，且只支持 profile",
                ),
            );
        }
        if bytes_of(request.nonce.as_str()) > 512 || check_space(request.nonce.as_str()) {
            return Err(ApiError::new(BAD_REQUEST, "OIDC nonce 无效"));
        }
        if !check_callback(domains, request.redirect_uri.as_str()) {
            return Err(
                ApiError::new(BAD_REQUEST, "OIDC redirect_uri 不在允许列表中"),
            );
        }
        match self.current_issuer() {
            Ok(_) => Ok(()),
            Err(e) => Err(e),
        }
    }

    /// Makes the code for a user and the address that takes it to the client.
    pub fn finish_authorize(&mut self, request: AuthorizeRequest, user_id: String, now: i64) -> (r:
        Result<String, ApiError>)
        requires
            now + AUTHORIZATION_CODE_SECONDS <= i64::MAX,
        ensures
            final(self).key == old(self).key,
            final(self).issuer == old(self).issuer,
            final(self).access_tokens == old(self).access_tokens,
            final(self).login_tickets == old(self).login_tickets,
            match r {
                Ok(location) => ({
                    let entry = final(self).authorization_codes@.last();
                    &&& request.code_challenge_method@ == "S256"@
                    &&& has_room(old(self).authorization_codes@, now, MAX_AUTHORIZATION_CODES)
                    &&& final(self).authorization_codes@ == put(
                        old(self).authorization_codes@,
                        now,
                        entry,
                    )
                    &&& digest::secret_token(entry.key@)
                    &&& entry.expires_at == now + AUTHORIZATION_CODE_SECONDS
                    &&& entry.value.user_id@ == user_id@
                    &&& entry.value.client_id@ == request.client_id@
                    &&& entry.value.redirect_uri@ == request.redirect_uri@
                    &&& entry.value.scope@ == request.scope@
                    &&& entry.value.nonce@ == request.nonce@
                    &&& entry.value.pkce_method@ == request.code_challenge@.push('S')
                    &&& location@ == request.redirect_uri@ + "?code="@ + escaped_text(entry.key@) + (
                    match request.state {
                        Some(state) => "&state="@ + escaped_text(state@),
                        None => Seq::empty(),
                    })
                }),
                Err(e) => if request.code_challenge_method@ != "S256"@ {
                    error::told(e) == error::refusal(BAD_REQUEST, "PKCE S256 参数无效")
                        && final(self).authorization_codes == old(self).authorization_codes
                } else {
                    !has_room(old(self).authorization_codes@, now, MAX_AUTHORIZATION_CODES)
                        && error::told(e) == error::refusal(
                        SERVICE_UNAVAILABLE,
                        "OIDC 授权请求过多，请稍后重试",
                    ) && final(self).authorization_codes@ == unexpired(
                        old(self).authorization_codes@,
                        now,
                        old(self).authorization_codes@.len() as int,
                    )
                },
            },
    {
        let code: String = random_token();
        let pkce_method: String = match pkce_challenge(
            request.code_challenge_method.as_str(),
            request.code_challenge.as_str(),
        ) {
            Some(stored) => stored,
            None => {
                return Err(ApiError::new(BAD_REQUEST, "PKCE S256 参数无效"));
            },
        };
        let entry = Kept {
            key: code.clone(),
            value: AuthorizationCode {
                user_id,
                client_id: request.client_id,
                redirect_uri: request.redirect_uri.clone(),
                scope: request.scope,
                nonce: request.nonce,
                pkce_method,
            },
            expires_at: now + AUTHORIZATION_CODE_SECONDS,
        };
        if !keep(&mut self.authorization_codes, MAX_AUTHORIZATION_CODES, entry, now) {
            return Err(
                ApiError::new(
                    SERVICE_UNAVAILABLE,
                    "OIDC 授权请求过多，请稍后重试",
                ),
            );
        }
        let shown: String = percent_encode(code.as_str());
        let location: String = join3(request.redirect_uri.as_str(), "?code=", shown.as_str());
        match &request.state {
            Some(state) => {
                let shown_state: String = percent_encode(state.as_str());
                let tail: String = join2("&state=", shown_state.as_str());
                Ok(join2(location.as_str(), tail.as_str()))
            },
            None => {
                assert(location@ + Seq::<char>::empty() =~= location@);
                Ok(location)
            },
        }
    }

    /// Redeems a code: it is used up by the first try that shows it, whether or not the verifier is
    /// the right one.
    pub fn begin_exchange(&mut self, request: &OAuthRequest, users: &Vec<User>, now: i64) -> (r:
        Result<Exchange, ApiError>)
        ensures
            final(self).key == old(self).key,
            final(self).issuer == old(self).issuer,
            final(self).access_tokens == old(self).access_tokens,
            final(self).login_tickets == old(self).login_tickets,
            final(self).authorization_codes@ == (if exchange_parameters(*request) is None {
                without_key(old(self).authorization_codes@, parameter(*request, "code"@)->0)
            } else {
                old(self).authorization_codes@
            }),
            match r {
                Err(e) => exchange_refusal(*old(self), users@, *request, now) == error::told(e),
                Ok(exchange) => {
                    &&& exchange_refusal(*old(self), users@, *request, now) is None
                    &&& kept_value(
                        old(self).authorization_codes@,
                        parameter(*request, "code"@)->0,
                        now,
                    ) matches Some(code)
                    &&& exchange.user_id@ == code.user_id@
                    &&& exchange.client_id@ == CLIENT_ID@
                    &&& exchange.nonce@ == code.nonce@
                    &&& exchange.scope@ == code.scope@
                    &&& auth::user_at(users@, code.user_id@) matches Some(k)
                    &&& exchange.username@ == users@[k].username@
                    &&& is_account(exchange.account, old(self).issuer->0@, users@[k])
                },
            },
    {
        let grant_type: String = match oauth_value(request, "grant_type") {
            Some(value) => value,
            None => {
                return Err(ApiError::new(BAD_REQUEST, "缺少 grant_type"));
            },
        };
        if !same(grant_type.as_str(), "authorization_code") {
            return Err(ApiError::new(BAD_REQUEST, "只支持 authorization_code"));
        }
        let client_id: String = match oauth_value(request, "client_id") {
            Some(value) => value,
            None => {
                return Err(ApiError::new(BAD_REQUEST, "缺少 client_id"));
            },
        };
        let code: String = match oauth_value(request, "code") {
            Some(value) => value,
            None => {
                return Err(ApiError::new(BAD_REQUEST, "缺少 authorization code"));
            },
        };
        let redirect_uri: String = match oauth_value(request, "redirect_uri") {
            Some(value) => value,
            None => {
                return Err(ApiError::new(BAD_REQUEST, "缺少 redirect_uri"));
            },
        };
        let verifier: String = match oauth_value(request, "code_verifier") {
            Some(value) => value,
            None => {
                return Err(ApiError::new(BAD_REQUEST, "缺少 PKCE code_verifier"));
            },
        };
        if !same(client_id.as_str(), CLIENT_ID) || !valid_pkce_value(verifier.as_str()) {
            return Err(ApiError::new(BAD_REQUEST, "OIDC 客户端或 PKCE 参数无效"));
        }
        let granted: AuthorizationCode = match take(
            &mut self.authorization_codes,
            code.as_str(),
            now,
        ) {
            Some(granted) => granted,
            None => {
                return Err(
                    ApiError::new(BAD_REQUEST, "授权码无效、已使用或已过期"),
                );
            },
        };
        if !same(granted.client_id.as_str(), client_id.as_str()) || !same(
            granted.redirect_uri.as_str(),
            redirect_uri.as_str(),
        ) {
            return Err(
                ApiError::new(BAD_REQUEST, "授权码客户端或回调地址不匹配"),
            );
        }
        if !pkce_verify(granted.pkce_method.as_str(), verifier.as_str()) {
            return Err(ApiError::new(BAD_REQUEST, "PKCE code_verifier 校验失败"));
        }
        let k: usize = match identify(
            users,
            granted.user_id.as_str(),
            "当前账号已停用，不能兑换 OIDC 令牌",
        ) {
            Ok(k) => k,
            Err(e) => {
                return Err(e);
            },
        };
        let account: OidcAccount = match self.account_of(&users[k]) {
            Ok(account) => account,
            Err(e) => {
                return Err(e);
            },
        };
        Ok(
            Exchange {
                user_id: granted.user_id,
                client_id,
                username: users[k].username.clone(),
                nonce: granted.nonce,
                scope: granted.scope,
                account,
            },
        )
    }

    /// Makes the tokens for a redeemed code.
    pub fn finish_exchange(&mut self, exchange: Exchange, now: i64) -> (r: Result<
        TokenResponse,
        ApiError,
    >)
        requires
            0 <= now,
            now + ACCESS_TOKEN_SECONDS <= i64::MAX,
        ensures
            final(self).key == old(self).key,
            final(self).issuer == old(self).issuer,
            final(self).authorization_codes == old(self).authorization_codes,
            final(self).login_tickets == old(self).login_tickets,
            ({
                let room = has_room(old(self).access_tokens@, now, MAX_ACCESS_TOKENS);
                let entry = final(self).access_tokens@.last();
                &&& final(self).access_tokens@ == (if room {
                    put(old(self).access_tokens@, now, entry)
                } else {
                    unexpired(old(self).access_tokens@, now, old(self).access_tokens@.len() as int)
                })
                &&& room ==> entry.value.user_id@ == exchange.user_id@ && entry.value.client_id@
                    == exchange.client_id@ && entry.expires_at == now + ACCESS_TOKEN_SECONDS
                    && digest::secret_token(entry.key@)
                &&& match r {
                    Ok(reply) => room && token_refusal(*old(self), exchange, now) is None
                        && reply.access_token@ == entry.key@ && reply.token_type@ == "Bearer"@
                        && reply.expires_in == ACCESS_TOKEN_SECONDS && reply.scope@
                        == exchange.scope@ && (old(self).issuer matches Some(issuer)
                        && signed_token(
                        claims_of(
                            issuer@,
                            exchange.user_id@,
                            exchange.username@,
                            exchange.nonce@,
                            now,
                        ),
                        old(self).key.key_id@,
                        old(self).key.private_key_pem@,
                    ) == Some(reply.id_token@)),
                    Err(e) => token_refusal(*old(self), exchange, now) == error::told(e),
                }
            }),
    {
        let token: String = random_token();
        let entry = Kept {
            key: token.clone(),
            value: AccessToken {
                user_id: exchange.user_id.clone(),
                client_id: exchange.client_id.clone(),
            },
            expires_at: now + ACCESS_TOKEN_SECONDS,
        };
        if !keep(&mut self.access_tokens, MAX_ACCESS_TOKENS, entry, now) {
            return Err(
                ApiError::new(
                    SERVICE_UNAVAILABLE,
                    "OIDC 令牌请求过多，请稍后重试",
                ),
            );
        }
        let issuer: String = match self.current_issuer() {
            Ok(issuer) => issuer,
            Err(e) => {
                return Err(e);
            },
        };
        let claims: Value = id_token_claims(
            issuer.as_str(),
            exchange.user_id.as_str(),
            exchange.username.as_str(),
            exchange.nonce.as_str(),
            now,
        );
        if !is_key_shallow(self.key.private_key_pem.as_str()) || !check_signing_key(
            self.key.private_key_pem.as_str(),
        ) {
            return Err(ApiError::new(INTERNAL_SERVER_ERROR, "OIDC 签名密钥不可用"));
        }
        match sign_token(
            &claims,
            self.key.key_id.as_str(),
            self.key.private_key_pem.as_str(),
        ) {
            Some(id_token) => Ok(
                TokenResponse {
                    access_token: token,
                    token_type: "Bearer",
                    expires_in: ACCESS_TOKEN_SECONDS,
                    id_token,
                    scope: exchange.scope,
                },
            ),
            None => Err(
                ApiError::new(INTERNAL_SERVER_ERROR, "无法签发 OIDC ID Token"),
            ),
        }
    }

    /// Tells a client who the user of a token is. A user who was switched off is refused at once.
    pub fn userinfo(&mut self, authorization: Option<&str>, users: &Vec<User>, now: i64) -> (r: Result<
        UserInfoResponse,
        ApiError,
    >)
        ensures
            final(self).key == old(self).key,
            final(self).issuer == old(self).issuer,
            final(self).authorization_codes == old(self).authorization_codes,
            final(self).login_tickets == old(self).login_tickets,
            final(self).access_tokens@ == tokens_after(
                old(self).access_tokens@,
                text::opt_str(authorization),
                now,
            ),
            match r {
                Err(e) => userinfo_refusal(
                    old(self).access_tokens@,
                    users@,
                    text::opt_str(authorization),
                    now,
                ) == error::told(e),
                Ok(reply) => {
                    &&& userinfo_refusal(
                        old(self).access_tokens@,
                        users@,
                        text::opt_str(authorization),
                        now,
                    ) is None
                    &&& bearer_of(text::opt_str(authorization)) matches Ok(token)
                    &&& kept_value(old(self).access_tokens@, token, now) matches Some(access)
                    &&& auth::user_at(users@, access.user_id@) matches Some(k)
                    &&& reply.sub@ == access.user_id@
                    &&& reply.preferred_username@ == users@[k].username@
                    &&& reply.name@ == users@[k].username@
                },
            },
    {
        let token: String = match bearer_token(authorization) {
            Ok(token) => token,
            Err(e) => {
                return Err(e);
            },
        };
        let k: usize = match find_kept(&self.access_tokens, token.as_str()) {
            Some(k) => k,
            None => {
                return Err(
                    ApiError::new(UNAUTHORIZED, "OIDC Access Token 无效或已过期"),
                );
            },
        };
        if self.access_tokens[k].expires_at <= now {
            self.access_tokens.remove(k);
            return Err(
                ApiError::new(UNAUTHORIZED, "OIDC Access Token 无效或已过期"),
            );
        }
        if !same(self.access_tokens[k].value.client_id.as_str(), CLIENT_ID) {
            return Err(ApiError::new(UNAUTHORIZED, "OIDC Access Token 客户端无效"));
        }
        let user_id: String = self.access_tokens[k].value.user_id.clone();
        let u: usize = match identify(users, user_id.as_str(), "当前账号已停用") {
            Ok(u) => u,
            Err(e) => {
                return Err(e);
            },
        };
        Ok(
            UserInfoResponse {
                sub: user_id,
                preferred_username: users[u].username.clone(),
                name: users[u].username.clone(),
            },
        )
    }
}

/// Why a user who comes without a ticket is refused, if that is so.
pub open spec fn direct_refusal(
    issuer: Option<Seq<char>>,
    domains: Seq<Seq<char>>,
    users: Seq<User>,
    user: Option<Seq<char>>,
    request: AuthorizeRequest,
    room: bool,
) -> Option<error::Refusal> {
    if request_refusal(issuer, domains, request) is None && user is None {
        if room {
            None
        } else {
            error::refusal(
                SERVICE_UNAVAILABLE,
                "OIDC 登录请求过多，请稍后重试",
            )
        }
    } else {
        known_refusal(issuer, domains, users, user, request)
    }
}

/// What a redeemed code gives.
#[derive(Debug)]
pub struct Exchange {
    pub user_id: String,
    pub client_id: String,
    pub username: String,
    pub nonce: String,
    pub scope: String,
    pub account: OidcAccount,
}

/// Why the parameters with which a code is redeemed are refused, if they are. The code stays then.
pub open spec fn exchange_parameters(request: OAuthRequest) -> Option<error::Refusal> {
    match parameter(request, "grant_type"@) {
        None => error::refusal(BAD_REQUEST, "缺少 grant_type"),
        Some(grant_type) => if grant_type != "authorization_code"@ {
            error::refusal(BAD_REQUEST, "只支持 authorization_code")
        } else if parameter(request, "client_id"@) is None {
            error::refusal(BAD_REQUEST, "缺少 client_id")
        } else if parameter(request, "code"@) is None {
            error::refusal(BAD_REQUEST, "缺少 authorization code")
        } else if parameter(request, "redirect_uri"@) is None {
            error::refusal(BAD_REQUEST, "缺少 redirect_uri")
        } else if parameter(request, "code_verifier"@) is None {
            error::refusal(BAD_REQUEST, "缺少 PKCE code_verifier")
        } else if parameter(request, "client_id"@) != Some(CLIENT_ID@) || !pkce_text(
            parameter(request, "code_verifier"@)->0,
        ) {
            error::refusal(BAD_REQUEST, "OIDC 客户端或 PKCE 参数无效")
        } else {
            None
        },
    }
}

/// Why a code is not redeemed, if that is so.
pub open spec fn exchange_refusal(
    runtime: OidcRuntime,
    users: Seq<User>,
    request: OAuthRequest,
    now: i64,
) -> Option<error::Refusal> {
    if exchange_parameters(request) is Some {
        exchange_parameters(request)
    } else {
        match kept_value(runtime.authorization_codes@, parameter(request, "code"@)->0, now) {
            None => error::refusal(BAD_REQUEST, "授权码无效、已使用或已过期"),
            Some(code) => if code.client_id@ != CLIENT_ID@ || Some(code.redirect_uri@) != parameter(
                request,
                "redirect_uri"@,
            ) {
                error::refusal(BAD_REQUEST, "授权码客户端或回调地址不匹配")
            } else if !verifier_matches(
                code.pkce_method@,
                parameter(request, "code_verifier"@)->0,
            ) {
                error::refusal(BAD_REQUEST, "PKCE code_verifier 校验失败")
            } else if user_refusal(
                users,
                code.user_id@,
                "当前账号已停用，不能兑换 OIDC 令牌",
            ) is Some {
                user_refusal(
                    users,
                    code.user_id@,
                    "当前账号已停用，不能兑换 OIDC 令牌",
                )
            } else if runtime.issuer is None {
                no_issuer()
            } else {
                None
            },
        }
    }
}

/// A user who was switched off redeems no code.
pub proof fn disabled_users_redeem_nothing(
    runtime: OidcRuntime,
    users: Seq<User>,
    request: OAuthRequest,
    now: i64,
)
    requires
        exchange_refusal(runtime, users, request, now) is None,
    ensures
        ({
            let code = kept_value(
                runtime.authorization_codes@,
                parameter(request, "code"@)->0,
                now,
            );
            &&& code is Some
            &&& auth::user_at(users, code->0.user_id@) matches Some(k)
            &&& users[k].enabled
            &&& verifier_matches(code->0.pkce_method@, parameter(request, "code_verifier"@)->0)
        }),
{
}

/// The claims of an identity token.
pub open spec fn claims_of(
    issuer: Seq<char>,
    user_id: Seq<char>,
    username: Seq<char>,
    nonce: Seq<char>,
    now: i64,
) -> Json {
    Json::Object(
        seq![
            ("iss"@, Json::Text(issuer)),
            ("sub"@, Json::Text(user_id)),
            ("aud"@, Json::Text(CLIENT_ID@)),
            ("iat"@, Json::Unsigned(now as u64)),
            ("exp"@, Json::Unsigned((now + ACCESS_TOKEN_SECONDS) as u64)),
            ("nonce"@, Json::Text(nonce)),
            ("preferred_username"@, Json::Text(username)),
            ("name"@, Json::Text(username)),
        ],
    )
}

/// The claims of an identity token.
pub fn id_token_claims(
    issuer: &str,
    user_id: &str,
    username: &str,
    nonce: &str,
    now: i64,
) -> (r: Value)
    requires
        0 <= now,
        now + ACCESS_TOKEN_SECONDS <= i64::MAX,
    ensures
        json::json_tree(r) == claims_of(issuer@, user_id@, username@, nonce@, now),
{
    let mut members: Vec<(String, Value)> = Vec::new();
    members.push(("iss".to_owned(), json_text(issuer)));
    members.push(("sub".to_owned(), json_text(user_id)));
    members.push(("aud".to_owned(), json_text(CLIENT_ID)));
    members.push(("iat".to_owned(), json_number(now as u64)));
    members.push(("exp".to_owned(), json_number((now + ACCESS_TOKEN_SECONDS) as u64)));
    members.push(("nonce".to_owned(), json_text(nonce)));
    members.push(("preferred_username".to_owned(), json_text(username)));
    members.push(("name".to_owned(), json_text(username)));
    proof {
        reveal_strlit("iss");
        reveal_strlit("sub");
        reveal_strlit("aud");
        reveal_strlit("iat");
        reveal_strlit("exp");
        reveal_strlit("nonce");
        reveal_strlit("preferred_username");
        reveal_strlit("name");
        assert("iss"@[0] == 'i' && "iss"@[1] == 's' && "iss"@.len() == 3);
        assert("sub"@[0] == 's' && "sub"@.len() == 3);
        assert("aud"@[0] == 'a' && "aud"@.len() == 3);
        assert("iat"@[0] == 'i' && "iat"@[1] == 'a' && "iat"@.len() == 3);
        assert("exp"@[0] == 'e' && "exp"@.len() == 3);
        assert("nonce"@.len() == 5);
        assert("preferred_username"@.len() == 18);
        assert("name"@.len() == 4);
        let trees = json::member_trees(members@);
        assert(trees =~= claims_of(issuer@, user_id@, username@, nonce@, now)->Object_0);
        assert(json::distinct_keys(trees));
    }
    json_object(members)
}

/// Why no tokens are made, if that is so.
pub open spec fn token_refusal(runtime: OidcRuntime, exchange: Exchange, now: i64) -> Option<error::Refusal> {
    if !has_room(runtime.access_tokens@, now, MAX_ACCESS_TOKENS) {
        error::refusal(SERVICE_UNAVAILABLE, "OIDC 令牌请求过多，请稍后重试")
    } else {
        match runtime.issuer {
            None => no_issuer(),
            Some(issuer) => if !signing_key_usable(runtime.key.private_key_pem@) {
                error::refusal(INTERNAL_SERVER_ERROR, "OIDC 签名密钥不可用")
            } else if signed_token(
                claims_of(
                    issuer@,
                    exchange.user_id@,
                    exchange.username@,
                    exchange.nonce@,
                    now,
                ),
                runtime.key.key_id@,
                runtime.key.private_key_pem@,
            ) is None {
                error::refusal(INTERNAL_SERVER_ERROR, "无法签发 OIDC ID Token")
            } else {
                None
            },
        }
    }
}

/// The token of an authorization header, or why there is none.
pub open spec fn bearer_of(authorization: Option<Seq<char>>) -> Result<
    Seq<char>,
    Option<error::Refusal>,
> {
    match authorization {
        None => Err(error::refusal(UNAUTHORIZED, "缺少 Bearer Access Token")),
        Some(value) => match text::after_prefix(value, "Bearer "@) {
            Some(token) if text::trimmed(token).len() > 0 => Ok(token),
            _ => Err(error::refusal(UNAUTHORIZED, "Bearer Access Token 格式无效")),
        },
    }
}

/// The token of an authorization header.
pub fn bearer_token(authorization: Option<&str>) -> (r: Result<String, ApiError>)
    ensures
        match r {
            Ok(token) => bearer_of(text::opt_str(authorization)) == Ok::<
                Seq<char>,
                Option<error::Refusal>,
            >(token@),
            Err(e) => bearer_of(text::opt_str(authorization)) == Err::<Seq<char>, _>(
                error::told(e),
            ),
        },
{
    let value: &str = match authorization {
        Some(value) => value,
        None => {
            return Err(ApiError::new(UNAUTHORIZED, "缺少 Bearer Access Token"));
        },
    };
    if let Some(token) = strip_prefix(value, "Bearer ") {
        if !trim(token.as_str()).as_str().is_empty() {
            return Ok(token);
        }
    }
    Err(ApiError::new(UNAUTHORIZED, "Bearer Access Token 格式无效"))
}

/// The access tokens after one was shown: one whose time has ended is gone.
pub open spec fn tokens_after(
    tokens: Seq<Kept<AccessToken>>,
    authorization: Option<Seq<char>>,
    now: i64,
) -> Seq<Kept<AccessToken>> {
    match bearer_of(authorization) {
        Ok(token) => match kept_from(tokens, token, 0) {
            Some(k) if tokens[k].expires_at <= now => tokens.remove(k),
            _ => tokens,
        },
        Err(_) => tokens,
    }
}

/// Why a client does not learn who a user is, if that is so.
pub open spec fn userinfo_refusal(
    tokens: Seq<Kept<AccessToken>>,
    users: Seq<User>,
    authorization: Option<Seq<char>>,
    now: i64,
) -> Option<error::Refusal> {
    match bearer_of(authorization) {
        Err(refusal) => refusal,
        Ok(token) => match kept_value(tokens, token, now) {
            None => error::refusal(UNAUTHORIZED, "OIDC Access Token 无效或已过期"),
            Some(access) => if access.client_id@ != CLIENT_ID@ {
                error::refusal(UNAUTHORIZED, "OIDC Access Token 客户端无效")
            } else {
                user_refusal(users, access.user_id@, "当前账号已停用")
            },
        },
    }
}

/// A parameter that is given once has its value, and one that is missing or given twice has none; one
/// of the address comes before one of the body.
pub proof fn parameters_are_given_once(request: OAuthRequest, name: Seq<char>, i: int, j: int)
    ensures
        only_at(request.query@, name, i) ==> parameter(request, name) == Some(
            request.query@[i].1@,
        ),
        (forall|k: int| 0 <= k < request.query@.len() ==> (#[trigger] request.query@[k]).0@ != name)
            && only_at(request.body@, name, j) ==> parameter(request, name) == Some(
            request.body@[j].1@,
        ),
        (forall|k: int| 0 <= k < request.query@.len() ==> (#[trigger] request.query@[k]).0@ != name)
            && (forall|k: int|
            0 <= k < request.body@.len() ==> (#[trigger] request.body@[k]).0@ != name)
            ==> parameter(request, name) is None,
        request.body@.len() == 0 && 0 <= i < j < request.query@.len() && request.query@[i].0@
            == name && request.query@[j].0@ == name ==> parameter(request, name) is None,
{
    if only_at(request.query@, name, i) {
        let k = choose|k: int| only_at(request.query@, name, k);
        assert(request.query@[k].0@ == name);
    }
    if only_at(request.body@, name, j) {
        let k = choose|k: int| only_at(request.body@, name, k);
        assert(request.body@[k].0@ == name);
    }
    if request.body@.len() == 0 && 0 <= i < j < request.query@.len() && request.query@[i].0@ == name
        && request.query@[j].0@ == name {
        assert forall|k: int| !#[trigger] only_at(request.query@, name, k) by {
            if only_at(request.query@, name, k) {
                if k != i {
                    assert(request.query@[i].0@ != name);
                } else {
                    assert(request.query@[j].0@ != name);
                }
            }
        }
    }
}

/// A challenge or a verifier has 43 to 128 characters that a URL holds as they are.
pub proof fn proofs_have_their_form(s: Seq<char>)
    ensures
        pkce_text(s) <==> 43 <= s.len() <= 128 && forall|i: int|
            0 <= i < s.len() ==> {
                let c = #[trigger] s[i];
                ('a' <= c <= 'z') || ('A' <= c <= 'Z') || ('0' <= c <= '9') || c == '-' || c == '.'
                    || c == '_' || c == '~'
            },
{
    if pkce_text(s) {
        assert forall|i: int| 0 <= i < s.len() implies ({
            let c = #[trigger] s[i];
            ('a' <= c <= 'z') || ('A' <= c <= 'Z') || ('0' <= c <= '9') || c == '-' || c == '.'
                || c == '_' || c == '~'
        }) by {
            assert(unreserved(s[i]));
        }
    }
}

/// Whether a word of `s` stands from `a` to `b`: characters between white space, or the ends.
pub open spec fn word_at(s: Seq<char>, a: int, b: int) -> bool {
    &&& 0 <= a < b <= s.len()
    &&& forall|k: int| a <= k < b ==> !text::white_space(#[trigger] s[k])
    &&& a == 0 || text::white_space(s[a - 1])
    &&& b == s.len() || text::white_space(s[b])
}

spec fn between_words(s: Seq<char>, i: int) -> bool {
    i == 0 || text::white_space(s[i - 1]) || i == s.len() || text::white_space(s[i])
}

proof fn lemma_word(s: Seq<char>, i: int)
    requires
        0 <= i < s.len(),
        between_words(s, i),
        !text::white_space(s[i]),
    ensures
        word_at(s, i, word_end(s, i)),
        between_words(s, word_end(s, i)),
        forall|b: int| #[trigger] word_at(s, i, b) ==> b == word_end(s, i),
        forall|a: int, b: int| #[trigger] word_at(s, a, b) && a > i ==> a >= word_end(s, i),
{
    lemma_word_letters(s, i);
    let end = word_end(s, i);
    assert forall|b: int| #[trigger] word_at(s, i, b) implies b == end by {
        if b < end {
            assert(!text::white_space(s[b]));
        } else if b > end {
            assert(!text::white_space(s[end]));
        }
    }
    assert forall|a: int, b: int| #[trigger] word_at(s, a, b) && a > i implies a >= end by {
        if a < end {
            assert(!text::white_space(s[a - 1]));
        }
    }
}

proof fn lemma_word_letters(s: Seq<char>, i: int)
    requires
        0 <= i <= s.len(),
    ensures
        i <= word_end(s, i) <= s.len(),
        i < s.len() && !text::white_space(s[i]) ==> i < word_end(s, i),
        forall|k: int| i <= k < word_end(s, i) ==> !text::white_space(#[trigger] s[k]),
        word_end(s, i) == s.len() || text::white_space(s[word_end(s, i)]),
    decreases s.len() - i,
{
    if i < s.len() && !text::white_space(s[i]) {
        lemma_word_letters(s, i + 1);
    }
}

proof fn lemma_scopes(s: Seq<char>, i: int)
    requires
        0 <= i <= s.len(),
        between_words(s, i),
    ensures
        asks_identity(s, i) <==> exists|a: int, b: int|
            i <= a && #[trigger] word_at(s, a, b) && s.subrange(a, b) == "openid"@,
        known_scopes(s, i) <==> forall|a: int, b: int|
            i <= a && #[trigger] word_at(s, a, b) ==> s.subrange(a, b) == "openid"@ || s.subrange(
                a,
                b,
            ) == "profile"@,
    decreases s.len() - i,
{
    if i < s.len() {
        if text::white_space(s[i]) {
            lemma_scopes(s, i + 1);
            assert forall|a: int, b: int| i <= a && #[trigger] word_at(s, a, b) implies i + 1
                <= a by {
                if a == i {
                    assert(!text::white_space(s[a]));
                }
            }
        } else {
            let end = word_end(s, i);
            lemma_word(s, i);
            lemma_scopes(s, end);
            assert(word_at(s, i, end));
            assert forall|a: int, b: int| i <= a && #[trigger] word_at(s, a, b) implies (a == i && b
                == end) || end <= a by {
                if a == i {
                    assert(b == end);
                }
            }
        }
    }
}

/// A scope is accepted where one of its words asks for the identity and no word asks for anything but
/// that and the profile.
pub proof fn scopes_ask_for_the_identity(s: Seq<char>)
    ensures
        asks_identity(s, 0) <==> exists|a: int, b: int| #[trigger]
            word_at(s, a, b) && s.subrange(a, b) == "openid"@,
        known_scopes(s, 0) <==> forall|a: int, b: int| #[trigger]
            word_at(s, a, b) ==> s.subrange(a, b) == "openid"@ || s.subrange(a, b) == "profile"@,
{
    lemma_scopes(s, 0);
}

/// An issuer is a site over HTTPS, without a slash at its end and without white space.
pub proof fn issuers_are_sites_over_https(issuer: Seq<char>)
    requires
        issuer_valid(issuer),
    ensures
        issuer.take(8) == "https://"@,
        issuer.last() != '/',
        forall|i: int| 0 <= i < issuer.len() ==> !text::white_space(#[trigger] issuer[i]),
{
    reveal_strlit("https://");
    reveal_strlit("/");
    if issuer.last() == '/' {
        assert(issuer.skip(issuer.len() - 1) =~= "/"@);
    }
}

/// A byte is written as the character that it is, or as a percent sign and its two digits.
pub proof fn bytes_are_escaped_by_their_digits(b: u8)
    ensures
        b < 128 && unreserved(b as char) ==> escaped(b) == seq![b as char],
        !(b < 128 && unreserved(b as char)) ==> {
            let text = escaped(b);
            let high = text[1] as int;
            let low = text[2] as int;
            &&& text.len() == 3 && text[0] == '%'
            &&& 48 <= high <= 57 || 65 <= high <= 70
            &&& 48 <= low <= 57 || 65 <= low <= 70
            &&& b == 16 * (if high <= 57 {
                high - 48
            } else {
                high - 55
            }) + (if low <= 57 {
                low - 48
            } else {
                low - 55
            })
        },
{
}

/// A text of characters that a URL holds as they are is written as it is, and no other characters but
/// percent signs and digits are ever written.
pub proof fn escaping_leaves_plain_text(bytes: Seq<u8>, n: int)
    requires
        0 <= n <= bytes.len(),
    ensures
        forall|i: int|
            0 <= i < escaped_bytes(bytes, n).len() ==> unreserved(
                #[trigger] escaped_bytes(bytes, n)[i],
            ) || escaped_bytes(bytes, n)[i] == '%',
        (forall|i: int|
            0 <= i < n ==> (#[trigger] bytes[i]) < 128 && unreserved(bytes[i] as char))
            ==> escaped_bytes(bytes, n) =~= Seq::new(n as nat, |i: int| bytes[i] as char),
    decreases n,
{
    if n > 0 {
        escaping_leaves_plain_text(bytes, n - 1);
        bytes_are_escaped_by_their_digits(bytes[n - 1]);
        let before = escaped_bytes(bytes, n - 1);
        let added = escaped(bytes[n - 1]);
        assert forall|i: int| 0 <= i < (before + added).len() implies unreserved(
            #[trigger] (before + added)[i],
        ) || (before + added)[i] == '%' by {
            if i < before.len() {
                assert(unreserved(before[i]) || before[i] == '%');
            } else {
                let c = added[i - before.len()];
                assert(unreserved(c) || c == '%');
            }
        }
    }
}

/// The issuer of a domain and the address that users come back to are sites of that domain.
pub proof fn sites_belong_to_their_domain(domain: Seq<char>)
    requires
        domain.len() > 0,
        domain.last() != '.',
    ensures
        site_issuer(domain) == "https://nexo."@ + domain,
        site_callback(domain) == "https://mesh."@ + domain + "/oidc/callback"@,
        site_issuer(domain + "."@) == site_issuer(domain),
        site_callback(domain + "."@) == site_callback(domain),
{
    reveal_strlit(".");
    assert((domain + "."@).drop_last() =~= domain);
    assert((domain + "."@).last() == '.');
    assert(text::trimmed_end(domain + "."@, '.') == text::trimmed_end(domain, '.'));
}

proof fn lemma_picks_kept<T>(
    list: Seq<Kept<T>>,
    now: i64,
    n: int,
    keep: spec_fn(int) -> bool,
    value: spec_fn(int) -> Kept<T>,
)
    requires
        forall|i: int|
            0 <= i < n ==> #[trigger] keep(i) == (list[i].expires_at > now) && value(i) == list[i],
    ensures
        unexpired(list, now, n) == picked::picked(keep, value, n),
    decreases n,
{
    if n > 0 {
        assert(keep(n - 1) || !keep(n - 1));
        lemma_picks_kept(list, now, n - 1, keep, value);
    }
}

/// What is kept stays until its end, and no longer.
pub proof fn entries_stay_until_their_end<T>(list: Seq<Kept<T>>, now: i64)
    ensures
        forall|entry: Kept<T>| #[trigger]
            unexpired(list, now, list.len() as int).contains(entry) <==> exists|i: int|
                0 <= i < list.len() && #[trigger] list[i] == entry && entry.expires_at > now,
{
    let n = list.len() as int;
    let keep = |i: int| list[i].expires_at > now;
    let value = |i: int| list[i];
    lemma_picks_kept(list, now, n, keep, value);
    assert forall|entry: Kept<T>| #[trigger]
        unexpired(list, now, n).contains(entry) <==> exists|i: int|
            0 <= i < list.len() && #[trigger] list[i] == entry && entry.expires_at > now by {
        picked::lemma_picked_contains(keep, value, n, entry);
        if unexpired(list, now, n).contains(entry) {
            let i = choose|i: int| 0 <= i < n && #[trigger] keep(i) && value(i) == entry;
            assert(list[i] == entry);
        }
        if exists|i: int|
            0 <= i < list.len() && #[trigger] list[i] == entry && entry.expires_at > now {
            let i = choose|i: int|
                0 <= i < list.len() && #[trigger] list[i] == entry && entry.expires_at > now;
            assert(keep(i) && value(i) == entry);
        }
    }
}

proof fn lemma_kept_place<T>(list: Seq<Kept<T>>, key: Seq<char>, i: int)
    requires
        0 <= i <= list.len(),
    ensures
        kept_from(list, key, i) is Some ==> i <= kept_from(list, key, i)->0 < list.len()
            && list[kept_from(list, key, i)->0].key@ == key,
        kept_from(list, key, i) is None <==> forall|k: int|
            i <= k < list.len() ==> (#[trigger] list[k]).key@ != key,
    decreases list.len() - i,
{
    if i < list.len() {
        lemma_kept_place(list, key, i + 1);
    }
}

/// A value is found by its key until its end, and by no other key; taking it out leaves the others.
pub proof fn values_are_found_by_their_key<T>(list: Seq<Kept<T>>, k: int, key: Seq<char>, now: i64)
    requires
        kept_once(list),
        0 <= k < list.len(),
    ensures
        list[k].expires_at > now ==> kept_value(list, list[k].key@, now) == Some(list[k].value),
        list[k].expires_at <= now ==> kept_value(list, list[k].key@, now) is None,
        kept_value(list, key, now) is Some ==> exists|i: int|
            0 <= i < list.len() && (#[trigger] list[i]).key@ == key && list[i].expires_at > now
                && kept_value(list, key, now) == Some(list[i].value),
        list[k].key@ != key ==> without_key(list, key).contains(list[k]),
        !without_key(list, list[k].key@).contains(list[k]),
{
    lemma_kept_place(list, list[k].key@, 0);
    lemma_kept_place(list, key, 0);
    let at = kept_from(list, list[k].key@, 0)->0;
    if at < k {
        assert(list[at].key@ != list[k].key@);
    } else if k < at {
        assert(list[k].key@ != list[at].key@);
    }
    if kept_from(list, key, 0) is Some {
        let i = kept_from(list, key, 0)->0;
        assert(list[i].key@ == key);
        if i < k {
            assert(list.remove(i)[k - 1] == list[k]);
        } else if k < i {
            assert(list.remove(i)[k] == list[k]);
        }
    } else {
        assert(list[k] == list[k]);
    }
    let rest = without_key(list, list[k].key@);
    assert forall|j: int| 0 <= j < rest.len() implies #[trigger] rest[j] != list[k] by {
        if j < k {
            assert(rest[j] == list[j]);
            assert(list[j].key@ != list[k].key@);
        } else {
            assert(rest[j] == list[j + 1]);
            assert(list[k].key@ != list[j + 1].key@);
        }
    }
}

/// Keeping something more leaves what is kept under other keys until its end.
pub proof fn keeping_more_leaves_the_others<T>(
    list: Seq<Kept<T>>,
    k: int,
    entry: Kept<T>,
    now: i64,
)
    requires
        kept_once(list),
        0 <= k < list.len(),
        list[k].key@ != entry.key@,
        list[k].expires_at > now,
    ensures
        put(list, now, entry).contains(list[k]),
        put(list, now, entry).contains(entry),
{
    let live = unexpired(list, now, list.len() as int);
    entries_stay_until_their_end(list, now);
    assert(list[k] == list[k]);
    assert(live.contains(list[k]));
    lemma_unexpired(list, now, list.len() as int);
    let j = choose|j: int| 0 <= j < live.len() && live[j] == list[k];
    let rest = without_key(live, entry.key@);
    lemma_kept_place(live, entry.key@, 0);
    if kept_from(live, entry.key@, 0) is Some {
        let i = kept_from(live, entry.key@, 0)->0;
        if i < j {
            assert(rest[j - 1] == list[k]);
            assert(rest.push(entry)[j - 1] == list[k]);
        } else {
            assert(rest[j] == list[k]);
            assert(rest.push(entry)[j] == list[k]);
        }
    } else {
        assert(rest.push(entry)[j] == list[k]);
    }
    assert(rest.push(entry)[rest.len() as int] == entry);
}

/// The published key is the public one of the settings, under their identifier.
pub proof fn the_published_key_is_the_public_one(key: OidcKeyMaterial, settings: OidcSettings)
    requires
        is_key_of(key, settings),
    ensures
        rsa_parts(settings.public_key_pem@) matches Some(parts) && key.modulus@
            == digest::base64_of(parts.0) && key.exponent@ == digest::base64_of(parts.1),
        key.key_id@ == settings.key_id@,
        key.private_key_pem@ == settings.private_key_pem@,
{
}

/// The account of a user in the network is the user's own, in the user's workspace.
pub proof fn accounts_belong_to_their_user(account: OidcAccount, issuer: Seq<char>, user: User)
    requires
        is_account(account, issuer, user),
    ensures
        account.nexo_user_id@ == user.id@,
        account.workspace_id@ == user.tenant_id@,
        account.provider_id@ == issuer + "/"@ + user.id@,
{
}

/// A request is read where each of its six parameters has a value, and is then what they say.
pub proof fn requests_are_read_with_all_parameters(request: OAuthRequest, parsed: AuthorizeRequest)
    ensures
        parse_refusal(request) is None <==> {
            let client = parameter(request, "client_id"@);
            let back = parameter(request, "redirect_uri"@);
            let scope = parameter(request, "scope"@);
            let nonce = parameter(request, "nonce"@);
            let challenge = parameter(request, "code_challenge"@);
            let method = parameter(request, "code_challenge_method"@);
            &&& client is Some && client->0.len() > 0
            &&& back is Some && back->0.len() > 0
            &&& scope is Some && scope->0.len() > 0
            &&& nonce is Some && nonce->0.len() > 0
            &&& challenge is Some && challenge->0.len() > 0
            &&& method is Some && method->0.len() > 0
        },
        parse_refusal(request) is Some ==> parse_refusal(request)->0.status == 400,
        is_parsed(parsed, request) ==> {
            &&& Some(parsed.client_id@) == parameter(request, "client_id"@)
            &&& Some(parsed.redirect_uri@) == parameter(request, "redirect_uri"@)
            &&& Some(parsed.scope@) == parameter(request, "scope"@)
            &&& text::opt(parsed.state) == parameter(request, "state"@)
            &&& Some(parsed.nonce@) == parameter(request, "nonce"@)
            &&& Some(parsed.code_challenge@) == parameter(request, "code_challenge"@)
            &&& Some(parsed.code_challenge_method@) == parameter(request, "code_challenge_method"@)
        },
{
}

/// A request is accepted from the one client, with a hashed challenge, a known scope, a short nonce and
/// an address of one of the domains to come back to; and only while there is an issuer.
pub proof fn requests_come_back_to_known_sites(
    issuer: Option<Seq<char>>,
    domains: Seq<Seq<char>>,
    request: AuthorizeRequest,
)
    ensures
        request_refusal(issuer, domains, request) is None <==> {
            &&& request.client_id@ == "headscale"@
            &&& request.code_challenge_method@ == "S256"@
            &&& pkce_text(request.code_challenge@)
            &&& asks_identity(request.scope@, 0) && known_scopes(request.scope@, 0)
            &&& text::byte_len(request.nonce@) <= 512
            &&& forall|i: int|
                0 <= i < request.nonce@.len() ==> !text::white_space(#[trigger] request.nonce@[i])
            &&& exists|i: int|
                0 <= i < domains.len() && "https://mesh."@ + text::trimmed_end(
                    #[trigger] domains[i],
                    '.',
                ) + "/oidc/callback"@ == request.redirect_uri@
            &&& issuer is Some
        },
{
}

/// A user is let in where there is an enabled one of that identifier.
pub proof fn enabled_users_are_let_in(users: Seq<User>, id: Seq<char>, disabled: &str)
    ensures
        user_refusal(users, id, disabled) is None ==> exists|k: int|
            0 <= k < users.len() && (#[trigger] users[k]).id@ == id && users[k].enabled,
        (forall|k: int| 0 <= k < users.len() ==> (#[trigger] users[k]).id@ != id) ==> user_refusal(
            users,
            id,
            disabled,
        )->0.status == 401,
        (forall|k: int|
            0 <= k < users.len() && (#[trigger] users[k]).id@ == id ==> !users[k].enabled)
            ==> user_refusal(users, id, disabled) is Some,
        (exists|k: int| 0 <= k < users.len() && (#[trigger] users[k]).id@ == id) && (forall|k: int|
            0 <= k < users.len() && (#[trigger] users[k]).id@ == id ==> users[k].enabled)
            ==> user_refusal(users, id, disabled) is None,
{
    auth::users_are_found_by_their_identifier(users, id);
    if auth::user_at(users, id) is Some {
        assert(users[auth::user_at(users, id)->0].id@ == id);
    }
}

/// A signed-in user goes on with an accepted request while enabled; without one the user signs in
/// first, while there is room for that.
pub proof fn known_users_go_on(
    issuer: Option<Seq<char>>,
    domains: Seq<Seq<char>>,
    users: Seq<User>,
    user: Option<Seq<char>>,
    request: AuthorizeRequest,
    room: bool,
)
    ensures
        known_refusal(issuer, domains, users, user, request) is None ==> request_refusal(
            issuer,
            domains,
            request,
        ) is None && user is Some && exists|k: int|
            0 <= k < users.len() && (#[trigger] users[k]).id@ == user->0 && users[k].enabled,
        request_refusal(issuer, domains, request) is Some ==> known_refusal(
            issuer,
            domains,
            users,
            user,
            request,
        ) is Some && direct_refusal(issuer, domains, users, user, request, room) is Some,
        request_refusal(issuer, domains, request) is None && user is None ==> known_refusal(
            issuer,
            domains,
            users,
            user,
            request,
        )->0.status == 401 && (direct_refusal(issuer, domains, users, user, request, room) is None
            <==> room),
        user is Some ==> direct_refusal(issuer, domains, users, user, request, room)
            == known_refusal(issuer, domains, users, user, request),
{
    if user is Some {
        enabled_users_are_let_in(
            users,
            user->0,
            "当前账号已停用，不能使用组网登录",
        );
    }
}

/// A code is redeemed by the client that it was made for, from the same address and with the verifier
/// of its challenge, for an enabled user, while it lasts; by nobody else.
pub proof fn codes_are_redeemed_by_their_client(
    runtime: OidcRuntime,
    users: Seq<User>,
    request: OAuthRequest,
    now: i64,
)
    ensures
        exchange_refusal(runtime, users, request, now) is None ==> {
            let code = kept_value(
                runtime.authorization_codes@,
                parameter(request, "code"@)->0,
                now,
            );
            &&& parameter(request, "grant_type"@) == Some("authorization_code"@)
            &&& parameter(request, "client_id"@) == Some("headscale"@)
            &&& parameter(request, "code"@) is Some && code is Some
            &&& code->0.client_id@ == "headscale"@
            &&& parameter(request, "redirect_uri"@) == Some(code->0.redirect_uri@)
            &&& parameter(request, "code_verifier"@) is Some
            &&& pkce_text(parameter(request, "code_verifier"@)->0)
            &&& verifier_matches(code->0.pkce_method@, parameter(request, "code_verifier"@)->0)
            &&& exists|k: int|
                0 <= k < users.len() && (#[trigger] users[k]).id@ == code->0.user_id@
                    && users[k].enabled
            &&& runtime.issuer is Some
        },
        ({
            let code = kept_value(
                runtime.authorization_codes@,
                parameter(request, "code"@)->0,
                now,
            );
            &&& parameter(request, "grant_type"@) == Some("authorization_code"@)
            &&& parameter(request, "client_id"@) == Some("headscale"@)
            &&& parameter(request, "code"@) is Some && code is Some
            &&& code->0.client_id@ == "headscale"@
            &&& parameter(request, "redirect_uri"@) == Some(code->0.redirect_uri@)
            &&& parameter(request, "code_verifier"@) is Some
            &&& pkce_text(parameter(request, "code_verifier"@)->0)
            &&& verifier_matches(code->0.pkce_method@, parameter(request, "code_verifier"@)->0)
            &&& auth::user_at(users, code->0.user_id@) is Some && users[auth::user_at(
                users,
                code->0.user_id@,
            )->0].enabled
            &&& runtime.issuer is Some
        }) ==> exchange_refusal(runtime, users, request, now) is None,
{
    let code = kept_value(runtime.authorization_codes@, parameter(request, "code"@)->0, now);
    if code is Some {
        enabled_users_are_let_in(
            users,
            code->0.user_id@,
            "当前账号已停用，不能兑换 OIDC 令牌",
        );
    }
}

/// An identity token names its issuer, its user, the one client and the nonce of the request; it is
/// issued now and lasts five minutes.
pub proof fn tokens_name_their_user(
    issuer: Seq<char>,
    user_id: Seq<char>,
    username: Seq<char>,
    nonce: Seq<char>,
    now: i64,
)
    requires
        0 <= now,
        now + 300 <= i64::MAX,
    ensures
        ({
            let claims = claims_of(issuer, user_id, username, nonce, now);
            &&& json::member(claims, "iss"@) == Some(Json::Text(issuer))
            &&& json::member(claims, "sub"@) == Some(Json::Text(user_id))
            &&& json::member(claims, "aud"@) == Some(Json::Text("headscale"@))
            &&& json::member(claims, "iat"@) == Some(Json::Unsigned(now as u64))
            &&& json::member(claims, "exp"@) == Some(Json::Unsigned((now + 300) as u64))
            &&& json::member(claims, "nonce"@) == Some(Json::Text(nonce))
            &&& json::member(claims, "preferred_username"@) == Some(Json::Text(username))
            &&& json::member(claims, "name"@) == Some(Json::Text(username))
        }),
{
    reveal_strlit("iss");
    reveal_strlit("sub");
    reveal_strlit("aud");
    reveal_strlit("iat");
    reveal_strlit("exp");
    reveal_strlit("nonce");
    reveal_strlit("preferred_username");
    reveal_strlit("name");
    let list = claims_of(issuer, user_id, username, nonce, now)->Object_0;
    assert(list[0].0 == "iss"@ && list[1].0 == "sub"@ && list[2].0 == "aud"@ && list[3].0 == "iat"@
        && list[4].0 == "exp"@ && list[5].0 == "nonce"@ && list[6].0 == "preferred_username"@
        && list[7].0 == "name"@);
    assert("iss"@[0] == 'i' && "iss"@[1] == 's' && "iat"@[1] == 'a' && "iat"@[0] == 'i');
    assert("sub"@[0] == 's' && "aud"@[0] == 'a' && "exp"@[0] == 'e');
    assert("nonce"@.len() == 5 && "name"@.len() == 4 && "preferred_username"@[0] == 'p');
    assert("nonce"@[0] == 'n' && "name"@[0] == 'n');
    json::lemma_member(list, 0);
    json::lemma_member(list, 1);
    json::lemma_member(list, 2);
    json::lemma_member(list, 3);
    json::lemma_member(list, 4);
    json::lemma_member(list, 5);
    json::lemma_member(list, 6);
    json::lemma_member(list, 7);
}

/// A token is made while there is room, with an issuer and a key that signs.
pub proof fn tokens_need_an_issuer_and_a_key(runtime: OidcRuntime, exchange: Exchange, now: i64)
    ensures
        token_refusal(runtime, exchange, now) is None ==> unexpired(
            runtime.access_tokens@,
            now,
            runtime.access_tokens@.len() as int,
        ).len() < 2048 && runtime.issuer is Some && signing_key_usable(
            runtime.key.private_key_pem@,
        ) && signed_token(
            claims_of(
                runtime.issuer->0@,
                exchange.user_id@,
                exchange.username@,
                exchange.nonce@,
                now,
            ),
            runtime.key.key_id@,
            runtime.key.private_key_pem@,
        ) is Some,
        unexpired(runtime.access_tokens@, now, runtime.access_tokens@.len() as int).len() >= 2048
            ==> token_refusal(runtime, exchange, now)->0.status == 503,
        has_room(runtime.access_tokens@, now, 2048) && runtime.issuer is None ==> token_refusal(
            runtime,
            exchange,
            now,
        )->0.status == 503,
        has_room(runtime.access_tokens@, now, 2048) && runtime.issuer is Some
            && signing_key_usable(runtime.key.private_key_pem@) && signed_token(
            claims_of(
                runtime.issuer->0@,
                exchange.user_id@,
                exchange.username@,
                exchange.nonce@,
                now,
            ),
            runtime.key.key_id@,
            runtime.key.private_key_pem@,
        ) is Some ==> token_refusal(runtime, exchange, now) is None,
{
}

/// A token is what follows the word for it in the header; without that word, or with nothing behind it,
/// there is none.
pub proof fn tokens_are_read_behind_their_word(token: Seq<char>, header: Seq<char>)
    ensures
        text::trimmed(token).len() > 0 ==> bearer_of(Some("Bearer "@ + token)) == Ok::<
            Seq<char>,
            Option<error::Refusal>,
        >(token),
        !text::has_prefix(header, "Bearer "@) ==> bearer_of(Some(header)) is Err,
        bearer_of(Some(header)) is Ok ==> header == "Bearer "@ + bearer_of(Some(header))->Ok_0,
        bearer_of(None) is Err,
        bearer_of(Some(header)) matches Err(e) ==> e is Some && e->0.status == 401,
        bearer_of(None)->Err_0 is Some && bearer_of(None)->Err_0->0.status == 401,
{
    let full = "Bearer "@ + token;
    assert(full.take("Bearer "@.len() as int) =~= "Bearer "@);
    assert(full.skip("Bearer "@.len() as int) =~= token);
    if bearer_of(Some(header)) is Ok {
        assert(header =~= "Bearer "@ + header.skip("Bearer "@.len() as int));
    }
}

/// A user is told of with a token that lasts, made for the one client, while enabled; a token that has
/// ended is taken out when it is shown, and no other is.
pub proof fn users_are_told_of_with_their_token(
    tokens: Seq<Kept<AccessToken>>,
    users: Seq<User>,
    authorization: Option<Seq<char>>,
    now: i64,
)
    ensures
        userinfo_refusal(tokens, users, authorization, now) is None ==> {
            let token = bearer_of(authorization);
            let access = kept_value(tokens, token->Ok_0, now);
            &&& token is Ok && access is Some
            &&& access->0.client_id@ == "headscale"@
            &&& exists|k: int|
                0 <= k < users.len() && (#[trigger] users[k]).id@ == access->0.user_id@
                    && users[k].enabled
        },
        bearer_of(authorization) is Ok && kept_value(tokens, bearer_of(authorization)->Ok_0, now)
            is Some && kept_value(
            tokens,
            bearer_of(authorization)->Ok_0,
            now,
        )->0.client_id@ == "headscale"@ ==> userinfo_refusal(tokens, users, authorization, now)
            == user_refusal(
            users,
            kept_value(tokens, bearer_of(authorization)->Ok_0, now)->0.user_id@,
            "当前账号已停用",
        ),
        bearer_of(authorization) is Ok && kept_value(tokens, bearer_of(authorization)->Ok_0, now)
            is None ==> userinfo_refusal(tokens, users, authorization, now)->0.status == 401,
        bearer_of(authorization) is Err ==> tokens_after(tokens, authorization, now) == tokens,
        forall|k: int|
            0 <= k < tokens.len() && (#[trigger] tokens[k]).expires_at > now ==> tokens_after(
                tokens,
                authorization,
                now,
            ).contains(tokens[k]),
        tokens_after(tokens, authorization, now) != tokens ==> tokens_after(
            tokens,
            authorization,
            now,
        ).len() + 1 == tokens.len(),
{
    if bearer_of(authorization) is Ok {
        let token = bearer_of(authorization)->Ok_0;
        lemma_kept_place(tokens, token, 0);
        if kept_value(tokens, token, now) is Some {
            enabled_users_are_let_in(
                users,
                kept_value(tokens, token, now)->0.user_id@,
                "当前账号已停用",
            );
        }
    }
    let after = tokens_after(tokens, authorization, now);
    assert forall|k: int|
        0 <= k < tokens.len() && (#[trigger] tokens[k]).expires_at > now implies after.contains(
        tokens[k],
    ) by {
        if after == tokens {
            assert(after[k] == tokens[k]);
        } else {
            let at = kept_from(tokens, bearer_of(authorization)->Ok_0, 0)->0;
            if k < at {
                assert(after[k] == tokens[k]);
            } else {
                assert(k != at);
                assert(after[k - 1] == tokens[k]);
            }
        }
    }
}

/// A code lasts a minute, an access token five and a ticket ten; of codes and tickets 1024 are kept at
/// once.
pub proof fn codes_are_short_lived()
    ensures
        AUTHORIZATION_CODE_SECONDS == 60,
        ACCESS_TOKEN_SECONDS == 300,
        LOGIN_TICKET_SECONDS == 600,
        MAX_AUTHORIZATION_CODES == 1024,
        MAX_LOGIN_TICKETS == 1024,
{
}

/// A user comes back to the address that was asked for with a code for that user, client, scope, nonce
/// and challenge, which lasts a minute.
pub proof fn codes_are_made_for_what_was_asked(
    runtime: &mut OidcRuntime,
    request: AuthorizeRequest,
    user_id: String,
    now: i64,
    r: Result<String, ApiError>,
)
    requires
        call_ensures(OidcRuntime::finish_authorize, (runtime, request, user_id, now), r),
    ensures
        r matches Ok(location) ==> {
            let entry = final(runtime).authorization_codes@.last();
            &&& text::has_prefix(location@, request.redirect_uri@ + "?code="@)
            &&& entry.value.user_id@ == user_id@
            &&& entry.value.client_id@ == request.client_id@
            &&& entry.value.redirect_uri@ == request.redirect_uri@
            &&& entry.value.scope@ == request.scope@
            &&& entry.value.nonce@ == request.nonce@
            &&& entry.value.pkce_method@ == request.code_challenge@.push('S')
            &&& entry.expires_at == now + 60
            &&& request.code_challenge_method@ == "S256"@
        },
        request.code_challenge_method@ != "S256"@ ==> r is Err,
        final(runtime).key == old(runtime).key,
        final(runtime).access_tokens == old(runtime).access_tokens,
{
    if r is Ok {
        let head = request.redirect_uri@ + "?code="@;
        assert(r->Ok_0@.take(head.len() as int) =~= head);
    }
}

/// A code gives what it was made for to its own user, and is gone afterwards whatever the outcome.
pub proof fn codes_give_what_they_were_made_for(
    runtime: &mut OidcRuntime,
    request: &OAuthRequest,
    users: &Vec<User>,
    now: i64,
    r: Result<Exchange, ApiError>,
)
    requires
        call_ensures(OidcRuntime::begin_exchange, (runtime, request, users, now), r),
    ensures
        r matches Ok(exchange) ==> {
            let code = kept_value(
                old(runtime).authorization_codes@,
                parameter(*request, "code"@)->0,
                now,
            );
            &&& code is Some
            &&& exchange.user_id@ == code->0.user_id@
            &&& exchange.nonce@ == code->0.nonce@
            &&& exchange.scope@ == code->0.scope@
            &&& exchange.client_id@ == "headscale"@
            &&& final(runtime).authorization_codes@ == without_key(
                old(runtime).authorization_codes@,
                parameter(*request, "code"@)->0,
            )
        },
        final(runtime).access_tokens == old(runtime).access_tokens,
{
}

/// An access token is for the user and client of the exchange and lasts five minutes; the identity token
/// is signed with the key of the server.
pub proof fn tokens_are_made_for_the_exchange(
    runtime: &mut OidcRuntime,
    exchange: Exchange,
    now: i64,
    r: Result<TokenResponse, ApiError>,
)
    requires
        call_ensures(OidcRuntime::finish_exchange, (runtime, exchange, now), r),
    ensures
        r matches Ok(reply) ==> {
            let entry = final(runtime).access_tokens@.last();
            &&& entry.key@ == reply.access_token@
            &&& entry.value.user_id@ == exchange.user_id@
            &&& entry.value.client_id@ == exchange.client_id@
            &&& entry.expires_at == now + 300
            &&& reply.expires_in == 300 && reply.token_type@ == "Bearer"@
            &&& reply.scope@ == exchange.scope@
            &&& old(runtime).issuer is Some && signed_token(
                claims_of(
                    old(runtime).issuer->0@,
                    exchange.user_id@,
                    exchange.username@,
                    exchange.nonce@,
                    now,
                ),
                old(runtime).key.key_id@,
                old(runtime).key.private_key_pem@,
            ) == Some(reply.id_token@)
        },
        final(runtime).key == old(runtime).key,
        final(runtime).authorization_codes == old(runtime).authorization_codes,
{
}

/// What is told of a user is that of the user of the token.
pub proof fn tokens_tell_of_their_user(
    runtime: &mut OidcRuntime,
    authorization: Option<&str>,
    users: &Vec<User>,
    now: i64,
    r: Result<UserInfoResponse, ApiError>,
)
    requires
        call_ensures(OidcRuntime::userinfo, (runtime, authorization, users, now), r),
    ensures
        r matches Ok(reply) ==> exists|k: int|
            0 <= k < users@.len() && (#[trigger] users@[k]).id@ == reply.sub@ && users@[k].username@
                == reply.preferred_username@ && users@[k].username@ == reply.name@,
        r matches Ok(reply) ==> authorization is Some && bearer_of(
            text::opt_str(authorization),
        ) is Ok && (kept_value(
            old(runtime).access_tokens@,
            bearer_of(text::opt_str(authorization))->Ok_0,
            now,
        ) matches Some(access) && access.user_id@ == reply.sub@),
{
    if r is Ok {
        let token = bearer_of(text::opt_str(authorization))->Ok_0;
        let access = kept_value(old(runtime).access_tokens@, token, now)->0;
        auth::users_are_found_by_their_identifier(users@, access.user_id@);
        let k = auth::user_at(users@, access.user_id@)->0;
        assert(users@[k].id@ == r->Ok_0.sub@);
    }
}

/// The issuer stays once it is stored; without one it is that of the domain.
pub proof fn the_issuer_stays_once_stored(
    runtime: &mut OidcRuntime,
    stored: Option<String>,
    domain: Option<String>,
    r: Result<Option<(String, bool)>, ApiError>,
)
    requires
        call_ensures(OidcRuntime::sync_issuer, (runtime, stored, domain), r),
    ensures
        stored is Some ==> r is Ok && text::opt(final(runtime).issuer) == Some(stored->0@),
        stored is None && (domain is None || text::trimmed(domain->0@).len() == 0) ==> r == Ok::<
            Option<(String, bool)>,
            ApiError,
        >(None) && final(runtime).issuer == old(runtime).issuer,
        stored is None && domain is Some && text::trimmed(domain->0@).len() > 0 && r is Ok
            ==> text::opt(final(runtime).issuer) == Some(site_issuer(domain->0@)) && issuer_valid(
            site_issuer(domain->0@),
        ),
        r is Err ==> final(runtime).issuer == old(runtime).issuer,
{
}

/// The published key and addresses are those of this server.
pub proof fn the_server_publishes_its_own_key(
    runtime: &OidcRuntime,
    key: JsonWebKey,
    reply: Result<DiscoveryResponse, ApiError>,
)
    requires
        call_ensures(OidcRuntime::jwks, (runtime,), key),
        call_ensures(OidcRuntime::discovery, (runtime,), reply),
    ensures
        key.kid@ == runtime.key.key_id@,
        key.n@ == runtime.key.modulus@,
        key.e@ == runtime.key.exponent@,
        key.kty@ == "RSA"@ && key.alg@ == "RS256"@ && key.use_@ == "sig"@,
        reply is Ok <==> runtime.issuer is Some,
        reply is Ok ==> reply->Ok_0.issuer@ == runtime.issuer->0@ && reply->Ok_0.jwks_uri@
            == runtime.issuer->0@ + "/oidc/jwks.json"@ && reply->Ok_0.token_endpoint@
            == runtime.issuer->0@ + "/oidc/token"@ && reply->Ok_0.authorization_endpoint@
            == runtime.issuer->0@ + "/oidc/authorize"@ && reply->Ok_0.userinfo_endpoint@
            == runtime.issuer->0@ + "/oidc/userinfo"@,
{
}

} // verus!
