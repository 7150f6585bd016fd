//! Digests, encodings, random values and password hashes.
use vstd::prelude::*;

use crate::number;
use crate::text;

verus! {

/// The SHA-256 digest of some bytes.
pub uninterp spec fn sha256_of(bytes: Seq<u8>) -> Seq<u8>;

/// Whether a password is the one that a hash was made from.
pub uninterp spec fn password_matches(password: Seq<char>, hash: Seq<char>) -> bool;

/// A text with its letters in lower case by the rules of Unicode.
pub uninterp spec fn lowercase_of(text: Seq<char>) -> Seq<char>;

/// Two lower-case hexadecimal digits for each byte.
pub open spec fn hex_of(bytes: Seq<u8>) -> Seq<char> {
    Seq::new(
        2 * bytes.len(),
        |i: int|
            if i % 2 == 0 {
                number::digit(bytes[i / 2] as int / 16)
            } else {
                number::digit(bytes[i / 2] as int % 16)
            },
    )
}

/// The character for a value below sixty-four in the URL-safe base64 alphabet.
pub open spec fn base64_char(n: int) -> char {
    if n < 26 {
        (65 + n) as char
    } else if n < 52 {
        (71 + n) as char
    } else if n < 62 {
        (n - 4) as char
    } else if n == 62 {
        '-'
    } else {
        '_'
    }
}

/// The six bits at a position, counted in steps of six from the first byte on; what is missing after
/// the last byte is zero.
pub open spec fn six_bits(bytes: Seq<u8>, i: int) -> int {
    let k = 3 * i / 4;
    let one = bytes[k] as int;
    let next = if k + 1 < bytes.len() {
        bytes[k + 1] as int
    } else {
        0
    };
    if i % 4 == 0 {
        one / 4
    } else if i % 4 == 1 {
        one % 4 * 16 + next / 16
    } else if i % 4 == 2 {
        one % 16 * 4 + next / 64
    } else {
        one % 64
    }
}

/// The URL-safe base64 text of some bytes, without padding.
pub open spec fn base64_of(bytes: Seq<u8>) -> Seq<char> {
    Seq::new(((4 * bytes.len() + 2) / 3) as nat, |i: int| base64_char(six_bits(bytes, i)))
}

/// Whether a character is a hexadecimal digit, in lower or upper case.
pub open spec fn hex_char(c: char) -> bool {
    ('0' <= c <= '9') || ('a' <= c <= 'f') || ('A' <= c <= 'F')
}

/// Whether a text is a UUID in its usual form, with hyphens between the groups.
pub open spec fn hyphenated(text: Seq<char>) -> bool {
    text.len() == 36 && forall|i: int|
        0 <= i < 36 ==> if i == 8 || i == 13 || i == 18 || i == 23 {
            #[trigger] text[i] == '-'
        } else {
            hex_char(text[i])
        }
}

/// Whether a text is a UUID in one of its accepted forms: thirty-two digits, or with hyphens, alone,
/// in braces or behind the prefix of a URN.
pub open spec fn uuid_text(text: Seq<char>) -> bool {
    ||| text.len() == 32 && forall|i: int| 0 <= i < 32 ==> hex_char(#[trigger] text[i])
    ||| hyphenated(text)
    ||| text.len() == 38 && text[0] == '{' && text[37] == '}' && hyphenated(text.subrange(1, 37))
    ||| text.len() == 45 && text::lowered(text.subrange(0, 9)) == "urn:uuid:"@ && hyphenated(
        text.subrange(9, 45),
    )
}

/// Whether a character belongs to the URL-safe base64 alphabet.
pub open spec fn url_safe(c: char) -> bool {
    ('a' <= c <= 'z') || ('A' <= c <= 'Z') || ('0' <= c <= '9') || c == '-' || c == '_'
}

/// Whether a text has the form of a secret of 256 bits as URL-safe text.
pub open spec fn secret_token(text: Seq<char>) -> bool {
    text.len() == 43 && forall|i: int| 0 <= i < text.len() ==> url_safe(#[trigger] text[i])
}

/// Whether a text has the form of a secret of 256 bits as hexadecimal digits.
pub open spec fn secret_code(text: Seq<char>) -> bool {
    text.len() == 64 && exists|bytes: Seq<u8>| bytes.len() == 32 && text == #[trigger] hex_of(bytes)
}

/// The digest of a text that is stored in place of the text.
pub open spec fn digest_of(text: Seq<char>) -> Seq<char> {
    hex_of(sha256_of(vstd::utf8::encode_utf8(text)))
}

/// `sha2::Sha256::digest`: thirty-two bytes that depend on the input alone.
#[verifier::external_body]
pub(crate) fn sha256(bytes: &[u8]) -> (r: Vec<u8>)
    ensures
        r@ == sha256_of(bytes@),
        r@.len() == 32,
{
    <sha2::Sha256 as sha2::Digest>::digest(bytes).to_vec()
}

/// `hex::encode`: two lower-case hexadecimal digits for each byte, the high one first.
#[verifier::external_body]
pub(crate) fn hex_encode(bytes: &Vec<u8>) -> (r: String)
    ensures
        r@ == hex_of(bytes@),
{
    hex::encode(bytes)
}

/// `base64` with the engine `URL_SAFE_NO_PAD`: four characters of its alphabet for three bytes,
/// two or three for what is left over.
#[verifier::external_body]
pub(crate) fn base64_encode(bytes: &Vec<u8>) -> (r: String)
    ensures
        r@ == base64_of(bytes@),
{
    base64::Engine::encode(&base64::engine::general_purpose::URL_SAFE_NO_PAD, bytes)
}

/// `rand::rngs::OsRng` filling thirty-two bytes. Nothing is said of the bytes. A system without a
/// source of randomness stops the process.
#[verifier::external_body]
pub(crate) fn random_bytes() -> (r: Vec<u8>)
    ensures
        r@.len() == 32,
{
    let mut bytes = [0u8; 32];
    rand::RngCore::fill_bytes(&mut rand::rngs::OsRng, &mut bytes);
    bytes.to_vec()
}

/// `uuid::Uuid::new_v4` as text: a UUID in its usual form, thirty-six characters of one byte each.
#[verifier::external_body]
pub(crate) fn new_uuid() -> (r: String)
    ensures
        hyphenated(r@),
        text::byte_len(r@) == 36,
{
    uuid::Uuid::new_v4().to_string()
}

/// `uuid::Uuid::parse_str`: whether a text is a UUID.
#[verifier::external_body]
pub(crate) fn is_uuid(text: &str) -> (r: bool)
    ensures
        r == uuid_text(text@),
{
    uuid::Uuid::parse_str(text).is_ok()
}

/// `str::to_lowercase`.
#[verifier::external_body]
pub(crate) fn lowercase(text: &str) -> (r: String)
    ensures
        r@ == lowercase_of(text@),
{
    text.to_lowercase()
}

/// The longest password in bytes that can be hashed.
pub const MAX_PASSWORD: u64 = 0xffff_ffff;

/// `argon2::Argon2` hashing a password under a fresh salt: the hash matches the password that it
/// was made from. The algorithm refuses a password where it is longer than its limit, and no other.
#[verifier::external_body]
pub(crate) fn argon2_hash(password: &str) -> (r: Option<String>)
    ensures
        r matches Some(hash) ==> password_matches(password@, hash@),
        r is None <==> text::byte_len(password@) > MAX_PASSWORD,
{
    let salt = argon2::password_hash::SaltString::generate(&mut rand::rngs::OsRng);
    argon2::PasswordHasher::hash_password(&argon2::Argon2::default(), password.as_bytes(), &salt)
        .map(|hash| hash.to_string())
        .ok()
}

/// `argon2::Argon2` checking a password against a hash; a text that is no hash matches nothing.
#[verifier::external_body]
pub(crate) fn argon2_verify(password: &str, hash: &str) -> (r: bool)
    ensures
        r == password_matches(password@, hash@),
{
    match argon2::PasswordHash::new(hash) {
        Ok(parsed) => argon2::PasswordVerifier::verify_password(
            &argon2::Argon2::default(),
            password.as_bytes(),
            &parsed,
        ).is_ok(),
        Err(_) => false,
    }
}

/// The digest of a text that is stored in place of the text.
pub fn digest(text: &str) -> (r: String)
    ensures
        r@ == digest_of(text@),
        r@.len() == 64,
{
    hex_encode(&sha256(text.as_bytes()))
}

/// A fresh secret of 256 random bits as URL-safe text.
pub fn random_token() -> (r: String)
    ensures
        secret_token(r@),
{
    let bytes: Vec<u8> = random_bytes();
    let r: String = base64_encode(&bytes);
    assert forall|i: int| 0 <= i < r@.len() implies url_safe(#[trigger] r@[i]) by {
        lemma_base64_char(six_bits(bytes@, i));
    }
    r
}

/// The characters of the alphabet are safe in a URL.
proof fn lemma_base64_char(n: int)
    requires
        0 <= n < 64,
    ensures
        url_safe(base64_char(n)),
{
}

/// A fresh secret of 256 random bits as hexadecimal digits.
pub fn random_hex() -> (r: String)
    ensures
        secret_code(r@),
{
    let bytes: Vec<u8> = random_bytes();
    let r: String = hex_encode(&bytes);
    assert(r@ == hex_of(bytes@));
    r
}

} // verus!
