//! One-time credentials with which a device asks to join.
use vstd::prelude::*;

use crate::digest;
use crate::digest::{digest, random_token};
use crate::text::same;

verus! {

/// The life of an enrollment.
#[derive(Debug, Clone, Copy, PartialEq, Eq, Structural)]
pub enum EnrollmentStatus {
    Pending,
    AwaitingApproval,
    Approved,
    Consumed,
    Expired,
    Revoked,
}

/// A credential that waits for a device to use it once.
#[derive(Debug, Clone)]
pub struct EnrollmentToken {
    /// The secret, shown once.
    pub secret: String,
    /// What is stored in place of the secret.
    pub digest: String,
    /// The end of its life in Unix seconds.
    pub expires_at: i64,
}

/// Why a credential is refused.
#[derive(Debug, Clone, Copy, PartialEq, Eq, Structural)]
pub enum EnrollmentError {
    InvalidTtl,
    Expired,
    InvalidToken,
}

/// An enrollment as it is stored, without the secret.
#[derive(Debug, Clone)]
pub struct PendingEnrollment {
    pub id: String,
    pub tenant_id: String,
    pub site_id: Option<String>,
    pub status: EnrollmentStatus,
    pub expires_at: i64,
    pub device_id: Option<String>,
}

impl EnrollmentError {
    /// The message for the user.
    pub open spec fn text(self) -> Seq<char> {
        match self {
            EnrollmentError::InvalidTtl => "入网凭证有效期必须大于 0 秒"@,
            EnrollmentError::Expired => "入网凭证已过期"@,
            EnrollmentError::InvalidToken => "入网凭证不匹配"@,
        }
    }

    /// The message for the user.
    pub fn message(&self) -> (r: String)
        ensures
            r@ == self.text(),
    {
        match self {
            EnrollmentError::InvalidTtl => "入网凭证有效期必须大于 0 秒".to_owned(),
            EnrollmentError::Expired => "入网凭证已过期".to_owned(),
            EnrollmentError::InvalidToken => "入网凭证不匹配".to_owned(),
        }
    }
}

/// The sum of two times, held at the ends of the range of 64 bits.
pub open spec fn later(now: i64, seconds: i64) -> i64 {
    if now + seconds > i64::MAX {
        i64::MAX
    } else if now + seconds < i64::MIN {
        i64::MIN
    } else {
        (now + seconds) as i64
    }
}

/// The sum of two times, held at the ends of the range of 64 bits.
pub fn add_seconds(now: i64, seconds: i64) -> (r: i64)
    ensures
        r == later(now, seconds),
{
    match now.checked_add(seconds) {
        Some(t) => t,
        None => if seconds > 0 {
            i64::MAX
        } else {
            i64::MIN
        },
    }
}

/// Why a secret is refused, if it is: too late first, then a wrong digest.
pub open spec fn token_refusal(
    secret: Seq<char>,
    expected_digest: Seq<char>,
    expires_at: i64,
    now: i64,
) -> Option<EnrollmentError> {
    if now >= expires_at {
        Some(EnrollmentError::Expired)
    } else if digest::digest_of(secret) != expected_digest {
        Some(EnrollmentError::InvalidToken)
    } else {
        None
    }
}

impl EnrollmentToken {
    /// A fresh credential of 256 random bits that lives for `ttl_seconds`.
    pub fn generate(now: i64, ttl_seconds: i64) -> (r: Result<EnrollmentToken, EnrollmentError>)
        ensures
            match r {
                Ok(token) => ttl_seconds > 0 && digest::secret_token(token.secret@)
                    && token.digest@ == digest::digest_of(token.secret@) && token.expires_at == later(now, ttl_seconds),
                Err(e) => ttl_seconds <= 0 && e == EnrollmentError::InvalidTtl,
            },
    {
        if ttl_seconds <= 0 {
            return Err(EnrollmentError::InvalidTtl);
        }
        let secret: String = random_token();
        Ok(
            EnrollmentToken {
                digest: Self::digest(secret.as_str()),
                secret,
                expires_at: add_seconds(now, ttl_seconds),
            },
        )
    }

    /// What is stored in place of a secret.
    pub fn digest(secret: &str) -> (r: String)
        ensures
            r@ == digest::digest_of(secret@),
    {
        digest(secret)
    }

    /// Checks a secret against what is stored and the time.
    pub fn verify(
        secret: &str,
        expected_digest: &str,
        expires_at: i64,
        now: i64,
    ) -> (r: Result<(), EnrollmentError>)
        ensures
            match r {
                Ok(_) => token_refusal(secret@, expected_digest@, expires_at, now) is None,
                Err(e) => token_refusal(secret@, expected_digest@, expires_at, now) == Some(e),
            },
    {
        if now >= expires_at {
            return Err(EnrollmentError::Expired);
        }
        if !same(Self::digest(secret).as_str(), expected_digest) {
            return Err(EnrollmentError::InvalidToken);
        }
        Ok(())
    }
}

/// A credential is accepted at every moment of its life, and refused as expired ever after.
pub proof fn fresh_token_verifies(token: EnrollmentToken, created: i64, ttl: i64, now: i64)
    requires
        ttl > 0,
        token.digest@ == digest::digest_of(token.secret@),
        token.expires_at == later(created, ttl),
    ensures
        token_refusal(token.secret@, token.digest@, token.expires_at, now) == (if now < later(
            created,
            ttl,
        ) {
            None
        } else {
            Some(EnrollmentError::Expired)
        }),
{
}

/// A credential is refused from its end on, whatever the secret; before, the secret decides.
pub proof fn credentials_end_in_time(
    secret: Seq<char>,
    expected_digest: Seq<char>,
    expires_at: i64,
    now: i64,
)
    ensures
        token_refusal(secret, expected_digest, expires_at, now) is None <==> now < expires_at
            && digest::digest_of(secret) == expected_digest,
        token_refusal(secret, expected_digest, expires_at, now) == Some(
            EnrollmentError::Expired,
        ) <==> expires_at <= now,
{
}

/// A time later by some seconds is that many seconds away, up to the last time there is.
pub proof fn later_times_are_that_far_away(now: i64, seconds: i64)
    ensures
        i64::MIN <= now + seconds <= i64::MAX ==> later(now, seconds) - now == seconds,
        now + seconds > i64::MAX ==> later(now, seconds) == i64::MAX,
        seconds > 0 && now < i64::MAX ==> later(now, seconds) > now,
        seconds <= 0 ==> later(now, seconds) <= now,
{
}

} // verus!
