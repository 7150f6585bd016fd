//! The identities of the server and of the devices: how they are issued, renewed and accepted.
use vstd::prelude::*;

use crate::protocol::AgentControlMessage;
use crate::text;
use crate::text::{copy_opt, is_text, join3, same, shorten};
use crate::x509;
use crate::x509::{
    certificate_info, fingerprint, new_key, new_request, read_key, self_sign, sign, validate_csr,
    IdentityError, KeyUse, Purpose, Standing,
};

verus! {

pub const SERVER_NAME: &'static str = "nexo-server";

/// The common name in a certificate of the server, which is known by its alternative name.
pub const SERVER_COMMON_NAME: &'static str = "rcgen self signed cert";

/// The common name of the certificate authority.
pub const AUTHORITY_NAME: &'static str = "Nexo Device CA";

/// The longest control message in bytes, without its end of line.
pub const MAX_CONTROL_FRAME: usize = 1048576;

/// A certificate is renewed this long before its end: thirty days.
pub const RENEW_BEFORE: i64 = 2592000;

/// The life of a server certificate: 825 days.
pub const SERVER_LIFETIME: i64 = 71280000;

/// The life of a device certificate: 365 days.
pub const DEVICE_LIFETIME: i64 = 31536000;

/// A certificate begins this long before it is issued: five minutes.
pub const LEAD: i64 = 300;

/// The first certificates of an authority begin this long before they are issued: a day.
pub const FIRST_LEAD: i64 = 86400;

/// The life of the certificate authority: 3650 days.
pub const AUTHORITY_LIFETIME: i64 = 315360000;

/// The failed renewals of a certificate.
#[derive(Debug, Clone)]
pub struct RenewalRetry {
    pub failures: u32,
    pub error: Option<String>,
    pub next_retry_at: Option<i64>,
}

impl Default for RenewalRetry {
    fn default() -> (r: RenewalRetry)
        ensures
            r.fresh(),
    {
        RenewalRetry { failures: 0, error: None, next_retry_at: None }
    }
}

/// The seconds before the next try after `n` failures: thirty, doubled with each further failure,
/// at most an hour.
pub open spec fn retry_delay(n: int) -> int
    decreases n,
{
    if n <= 1 {
        30
    } else {
        let longer = 2 * retry_delay(n - 1);
        if longer > 3600 {
            3600
        } else {
            longer
        }
    }
}

/// The wait after a failure never shrinks with more failures, and stays from half a minute to an
/// hour.
pub proof fn retry_delay_is_bounded_and_grows(a: int, b: int)
    requires
        a <= b,
    ensures
        30 <= retry_delay(a) <= retry_delay(b) <= 3600,
    decreases b,
{
    if b <= 1 {
    } else if a < b {
        retry_delay_is_bounded_and_grows(a, b - 1);
    } else {
        retry_delay_is_bounded_and_grows(a - 1, b - 1);
    }
}

/// The seconds before the next try after some failures.
pub fn retry_delay_seconds(failures: u32) -> (r: i64)
    ensures
        r == retry_delay(failures as int),
        30 <= r <= 3600,
{
    if failures >= 8 {
        proof {
            reveal_with_fuel(retry_delay, 9);
            retry_delay_is_bounded_and_grows(8, failures as int);
        }
        return 3600;
    }
    let mut wait: i64 = 30;
    let mut i: u32 = 1;
    while i < failures
        invariant
            1 <= i <= failures || i == 1,
            wait == retry_delay(i as int),
            30 <= wait <= 3600,
        decreases failures - i,
    {
        wait = if wait > 1800 {
            3600
        } else {
            wait * 2
        };
        i = i + 1;
    }
    wait
}

impl RenewalRetry {
    /// Whether nothing has failed yet.
    pub open spec fn fresh(self) -> bool {
        self.failures == 0 && self.error is None && self.next_retry_at is None
    }

    /// Whether the next try is due.
    pub open spec fn due(self, now: i64) -> bool {
        match self.next_retry_at {
            Some(next) => next <= now,
            None => true,
        }
    }

    /// Notes a failure: the first 512 characters of its message, and the time of the next try.
    pub fn failed(&mut self, now: i64, error: &str)
        requires
            now + 3600 <= i64::MAX,
        ensures
            final(self).failures == (if old(self).failures == u32::MAX {
                u32::MAX
            } else {
                (old(self).failures + 1) as u32
            }),
            text::opt(final(self).error) == Some(text::shortened(error@, 512)),
            final(self).next_retry_at == Some((now + retry_delay(final(self).failures as int)) as i64),
    {
        self.failures = self.failures.saturating_add(1);
        self.error = Some(shorten(error, 512));
        self.next_retry_at = Some(now + retry_delay_seconds(self.failures));
    }

    /// Whether the next try is due.
    pub fn ready(&self, now: i64) -> (r: bool)
        ensures
            r == self.due(now),
    {
        match self.next_retry_at {
            Some(next) => next <= now,
            None => true,
        }
    }
}

/// The certificate authority and the identity of the server.
#[derive(Clone)]
pub struct Authority {
    pub ca_pem: String,
    pub ca_key: String,
    pub server_pem: String,
    pub server_key: String,
}

/// The end of a certificate that lives for some time, but not longer than its authority; one
/// that would be due for renewal at once is refused.
pub open spec fn issued_until(now: i64, lifetime: i64, authority_end: i64) -> Result<
    i64,
    IdentityError,
> {
    let end = if now + lifetime < authority_end {
        (now + lifetime) as i64
    } else {
        authority_end
    };
    if end > now + RENEW_BEFORE {
        Ok(end)
    } else {
        Err(IdentityError::AuthorityExpiring)
    }
}

/// The end of a certificate that lives for some time, but not longer than its authority.
pub fn issue_until(now: i64, lifetime: i64, authority_end: i64) -> (r: Result<i64, IdentityError>)
    requires
        i64::MIN <= now + lifetime <= i64::MAX,
        now + RENEW_BEFORE <= i64::MAX,
    ensures
        r == issued_until(now, lifetime, authority_end),
{
    let end: i64 = if now + lifetime < authority_end {
        now + lifetime
    } else {
        authority_end
    };
    if end > now + RENEW_BEFORE {
        Ok(end)
    } else {
        Err(IdentityError::AuthorityExpiring)
    }
}

/// What an authority says of the end of a certificate that it issues now.
pub open spec fn authority_until(ca_pem: Seq<char>, now: i64, lifetime: i64) -> Result<
    i64,
    IdentityError,
> {
    match x509::info_of(ca_pem) {
        Err(e) => Err(e),
        Ok(info) => issued_until(now, lifetime, info.1),
    }
}

/// Whether a certificate can be asked for at a time: it begins no earlier than the year 0, and the
/// end of its life can be counted. Where that end lies beyond the year 9999, the certificate is
/// refused.
pub open spec fn issuing_time(now: i64, lead: i64, lifetime: i64) -> bool {
    x509::FIRST_DATE <= now - lead && now + lifetime <= i64::MAX
}

/// Whether an authority can be founded at a time: all its life lies within the years 0 to 9999.
pub open spec fn founding_time(now: i64) -> bool {
    x509::datable(now - FIRST_LEAD) && x509::datable(now + AUTHORITY_LIFETIME)
}

/// Whether an authority can be founded at a time.
pub fn is_founding_time(now: i64) -> (r: bool)
    ensures
        r == founding_time(now),
{
    now >= x509::FIRST_DATE + FIRST_LEAD && now <= x509::LAST_DATE - AUTHORITY_LIFETIME
}

/// Whether a time is one that everything here can count with: not before 1970, and with room for
/// the longest span that is added to it.
pub open spec fn countable(now: i64) -> bool {
    0 <= now && now + AUTHORITY_LIFETIME <= i64::MAX
}

/// Whether a time is one that everything here can count with.
pub fn is_countable(now: i64) -> (r: bool)
    ensures
        r == countable(now),
{
    now >= 0 && now <= i64::MAX - AUTHORITY_LIFETIME
}

/// At a time that can be counted with, every certificate can be asked for, and nothing that is added
/// to the time overflows: no span is longer than the life of the authority.
pub proof fn countable_times_are_issuing_times(now: i64, span: int)
    requires
        countable(now),
        span <= AUTHORITY_LIFETIME,
    ensures
        issuing_time(now, LEAD, SERVER_LIFETIME),
        issuing_time(now, LEAD, DEVICE_LIFETIME),
        0 <= now,
        now + span <= i64::MAX,
{
}

/// What the certificate of a device is made with: it names the device, is for a client and to sign
/// data, and names the key of its issuer.
pub open spec fn device_form(device: Seq<char>, not_before: i64, not_after: i64) -> x509::Issued {
    x509::Issued {
        common_name: device,
        alternative: "device-"@ + device + ".nexo"@,
        purpose: Purpose::Client,
        key_use: KeyUse::Data,
        names_issuer: true,
        not_before,
        not_after,
    }
}

/// What the certificate of the server is made with: it names the server, is for a server and to
/// sign data, and names the key of its issuer.
pub open spec fn server_form(not_before: i64, not_after: i64) -> x509::Issued {
    x509::Issued {
        common_name: SERVER_COMMON_NAME@,
        alternative: SERVER_NAME@,
        purpose: Purpose::Server,
        key_use: KeyUse::Data,
        names_issuer: true,
        not_before,
        not_after,
    }
}

/// What the certificate of the authority is made with: it is an authority that signs data,
/// certificates and revocation lists.
pub open spec fn authority_form(not_before: i64, not_after: i64) -> x509::SelfSigned {
    x509::SelfSigned {
        common_name: AUTHORITY_NAME@,
        standing: Standing::Authority,
        key_uses: seq![KeyUse::Data, KeyUse::Certificates, KeyUse::RevocationLists],
        not_before,
        not_after,
    }
}

/// Whether a certificate is one for a private key, made with a form.
pub open spec fn issued_with(pem: Seq<char>, made: x509::Issued, key_pem: Seq<char>) -> bool {
    x509::key_public(key_pem) matches Some(key) && x509::issued_for(pem, made, key)
}

/// Whether an authority holds the key of its own certificate.
pub open spec fn holds_its_key(authority: Authority) -> bool {
    x509::key_belongs(authority.ca_pem@, authority.ca_key@)
}

/// Whether a certificate is one of an authority for a device: it has the form of one, holds the key
/// of the request, begins a little before it is issued and ends with its life or that of the
/// authority. An authority that holds its key has signed it.
pub open spec fn device_certificate(
    pem: Seq<char>,
    authority: Authority,
    csr: Seq<char>,
    device: Seq<char>,
    now: i64,
) -> bool {
    x509::request_key(csr) matches Some(key) && (authority_until(
        authority.ca_pem@,
        now,
        DEVICE_LIFETIME,
    ) matches Ok(end) && x509::datable(end as int) && x509::issued_for(
        pem,
        device_form(device, (now - LEAD) as i64, end),
        key,
    )) && (holds_its_key(authority) ==> x509::signed_by(pem, authority.ca_pem@))
}

/// Why an authority issues no certificate to a device: the request is not valid, the authority ends
/// too soon, or the certificate could not be made.
pub open spec fn issue_failure(authority: Authority, csr: Seq<char>, now: i64) -> IdentityError {
    if !x509::request_valid(csr) {
        IdentityError::Request
    } else {
        match authority_until(authority.ca_pem@, now, DEVICE_LIFETIME) {
            Err(e) => e,
            Ok(_) => IdentityError::Issue,
        }
    }
}

/// A certificate for a device reads as one: its common name is the device.
pub proof fn device_certificates_name_the_device(
    pem: Seq<char>,
    authority: Authority,
    csr: Seq<char>,
    device: Seq<char>,
    now: i64,
)
    requires
        device_certificate(pem, authority, csr, device, now),
    ensures
        x509::info_of(pem) matches Ok(info) && info.0 == device,
{
}

/// A certificate for a device certifies nobody else and is for no server.
pub proof fn device_certificates_are_for_clients_only(
    pem: Seq<char>,
    authority: Authority,
    csr: Seq<char>,
    device: Seq<char>,
    now: i64,
)
    requires
        device_certificate(pem, authority, csr, device, now),
    ensures
        x509::first_of(pem) matches Ok(der) && x509::usage_of(der) matches Some(usage)
            && !usage.authority && !usage.server && usage.client && usage.key_uses == 1,
{
    let uses = seq![KeyUse::Data];
    assert(uses[0] == KeyUse::Data);
}

/// Whether an authority has a new identity of the server that another one got at a time: the
/// certificate for it is of the same authority, begins a little before it is issued and ends with its
/// life or that of the authority. An authority that holds its key has signed it.
pub open spec fn renewed_server(old: Authority, next: Authority, now: i64) -> bool {
    &&& next.ca_pem@ == old.ca_pem@
    &&& next.ca_key@ == old.ca_key@
    &&& authority_until(old.ca_pem@, now, SERVER_LIFETIME) matches Ok(end) && x509::datable(
        end as int,
    ) && issued_with(
        next.server_pem@,
        server_form((now - LEAD) as i64, end),
        next.server_key@,
    )
    &&& holds_its_key(old) ==> x509::signed_by(next.server_pem@, old.ca_pem@)
}

/// A renewed certificate of the server ends with its full life, or with its authority where that ends
/// sooner, and is not due again at once. The authority stays, and ends when it did.
pub proof fn renewed_servers_are_not_due(old: Authority, next: Authority, now: i64)
    requires
        renewed_server(old, next, now),
    ensures
        x509::info_of(next.ca_pem@) == x509::info_of(old.ca_pem@),
        x509::info_of(next.server_pem@) matches Ok(info) && x509::info_of(
            old.ca_pem@,
        ) matches Ok(authority) && info.0 == SERVER_COMMON_NAME@ && info.1 == (if now
            + SERVER_LIFETIME < authority.1 {
            now + SERVER_LIFETIME
        } else {
            authority.1 as int
        }) && info.1 > now + RENEW_BEFORE,
{
}

impl Authority {
    /// The end of the certificate of the server.
    pub fn server_expires_at(&self) -> (r: Result<i64, IdentityError>)
        ensures
            match r {
                Ok(end) => x509::info_of(self.server_pem@) matches Ok(info) && info.1 == end,
                Err(e) => x509::info_of(self.server_pem@) == Err::<(Seq<char>, i64), _>(e),
            },
            r matches Ok(end) ==> -400000000000 <= end <= 400000000000,
    {
        match certificate_info(self.server_pem.as_str()) {
            Ok(info) => Ok(info.1),
            Err(e) => Err(e),
        }
    }

    /// The end of the certificate authority.
    pub fn ca_expires_at(&self) -> (r: Result<i64, IdentityError>)
        ensures
            match r {
                Ok(end) => x509::info_of(self.ca_pem@) matches Ok(info) && info.1 == end,
                Err(e) => x509::info_of(self.ca_pem@) == Err::<(Seq<char>, i64), _>(e),
            },
            r matches Ok(end) ==> -400000000000 <= end <= 400000000000,
    {
        match certificate_info(self.ca_pem.as_str()) {
            Ok(info) => Ok(info.1),
            Err(e) => Err(e),
        }
    }

    fn until(&self, now: i64, lifetime: i64) -> (r: Result<i64, IdentityError>)
        requires
            i64::MIN <= now + lifetime <= i64::MAX,
            now + RENEW_BEFORE <= i64::MAX,
        ensures
            r == authority_until(self.ca_pem@, now, lifetime),
    {
        match self.ca_expires_at() {
            Ok(end) => issue_until(now, lifetime, end),
            Err(e) => Err(e),
        }
    }

    /// A new certificate and key for the server under the same authority.
    pub fn renew_server(&self, now: i64) -> (r: Result<Authority, IdentityError>)
        requires
            issuing_time(now, LEAD, SERVER_LIFETIME),
        ensures
            match r {
                Ok(next) => renewed_server(*self, next, now),
                Err(e) => match authority_until(self.ca_pem@, now, SERVER_LIFETIME) {
                    Err(why) => e == why,
                    Ok(_) => e == IdentityError::Issue,
                },
            },
    {
        let end: i64 = match self.until(now, SERVER_LIFETIME) {
            Ok(end) => end,
            Err(e) => {
                return Err(e);
            },
        };
        if end > x509::LAST_DATE {
            return Err(IdentityError::Issue);
        }
        match sign_new(self.ca_pem.as_str(), self.ca_key.as_str(), now - LEAD, end) {
            None => Err(IdentityError::Issue),
            Some((server_pem, server_key)) => Ok(
                Authority {
                    ca_pem: self.ca_pem.clone(),
                    ca_key: self.ca_key.clone(),
                    server_pem,
                    server_key,
                },
            ),
        }
    }

    /// A new authority with the first identity of the server.
    pub fn generate(now: i64) -> (r: Result<Authority, IdentityError>)
        requires
            founding_time(now),
        ensures
            match r {
                Ok(made) => holds_its_key(made) && x509::self_signed_for(
                    made.ca_pem@,
                    authority_form((now - FIRST_LEAD) as i64, (now + AUTHORITY_LIFETIME) as i64),
                    x509::key_public(made.ca_key@)->0,
                ) && issued_with(
                    made.server_pem@,
                    server_form((now - FIRST_LEAD) as i64, (now + SERVER_LIFETIME) as i64),
                    made.server_key@,
                ) && x509::signed_by(made.server_pem@, made.ca_pem@),
                Err(e) => e == IdentityError::Issue,
            },
    {
        let ca_key: String = match new_key() {
            Some(key) => key,
            None => {
                return Err(IdentityError::Issue);
            },
        };
        let uses: Vec<KeyUse> = vec![
            KeyUse::Data,
            KeyUse::Certificates,
            KeyUse::RevocationLists,
        ];
        assert(uses@ =~= seq![KeyUse::Data, KeyUse::Certificates, KeyUse::RevocationLists]);
        let ca_pem: String = match self_sign(
            ca_key.as_str(),
            AUTHORITY_NAME,
            Standing::Authority,
            &uses,
            now - FIRST_LEAD,
            now + AUTHORITY_LIFETIME,
        ) {
            Some(pem) => pem,
            None => {
                return Err(IdentityError::Issue);
            },
        };
        match sign_new(ca_pem.as_str(), ca_key.as_str(), now - FIRST_LEAD, now + SERVER_LIFETIME) {
            Some((server_pem, server_key)) => Ok(
                Authority { ca_pem, ca_key, server_pem, server_key },
            ),
            None => Err(IdentityError::Issue),
        }
    }

    /// A certificate for the key of a request. It names the device that the caller gives, whatever
    /// the request asks for.
    pub fn issue_device(&self, csr: &str, device_id: &str, now: i64) -> (r: Result<
        String,
        IdentityError,
    >)
        requires
            issuing_time(now, LEAD, DEVICE_LIFETIME),
        ensures
            match r {
                Ok(pem) => device_certificate(pem@, *self, csr@, device_id@, now),
                Err(e) => e == issue_failure(*self, csr@, now),
            },
    {
        let key: Vec<u8> = match x509::parse_request(csr) {
            Some(key) => key,
            None => {
                return Err(IdentityError::Request);
            },
        };
        let end: i64 = match self.until(now, DEVICE_LIFETIME) {
            Ok(end) => end,
            Err(e) => {
                return Err(e);
            },
        };
        if end > x509::LAST_DATE {
            return Err(IdentityError::Issue);
        }
        let alternative: String = join3("device-", device_id, ".nexo");
        match sign(
            self.ca_pem.as_str(),
            self.ca_key.as_str(),
            &key,
            device_id,
            alternative.as_str(),
            Purpose::Client,
            KeyUse::Data,
            true,
            now - LEAD,
            end,
        ) {
            Some(pem) => Ok(pem),
            None => Err(IdentityError::Issue),
        }
    }
}

/// A new key for the server and a certificate of an authority for it: the certificate and the key.
fn sign_new(ca_pem: &str, ca_key: &str, not_before: i64, not_after: i64) -> (r: Option<
    (String, String),
>)
    requires
        x509::datable(not_before as int),
        x509::datable(not_after as int),
    ensures
        r matches Some(made) ==> issued_with(made.0@, server_form(not_before, not_after), made.1@),
        r matches Some(made) ==> x509::key_belongs(ca_pem@, ca_key@) ==> x509::signed_by(
            made.0@,
            ca_pem@,
        ),
{
    let server_key: String = match new_key() {
        Some(key) => key,
        None => {
            return None;
        },
    };
    let key: Vec<u8> = match read_key(server_key.as_str()) {
        Some(key) => key,
        None => {
            return None;
        },
    };
    match sign(
        ca_pem,
        ca_key,
        &key,
        SERVER_COMMON_NAME,
        SERVER_NAME,
        Purpose::Server,
        KeyUse::Data,
        true,
        not_before,
        not_after,
    ) {
        Some(server_pem) => Some((server_pem, server_key)),
        None => None,
    }
}

/// The state of a certificate as it is shown.
#[derive(Debug, Clone)]
pub struct CertificateStatus {
    pub status: &'static str,
    pub expires_at: Option<i64>,
    pub renew_after: Option<i64>,
    pub error: Option<String>,
    pub next_retry_at: Option<i64>,
}

/// The word for the state of a certificate.
pub open spec fn status_word(expiry: Option<i64>, failing: bool, now: i64) -> Seq<char> {
    match expiry {
        None => "unknown"@,
        Some(end) => if end <= now {
            "expired"@
        } else if failing {
            "retry_wait"@
        } else if end <= now + RENEW_BEFORE {
            "expiring"@
        } else {
            "valid"@
        },
    }
}

/// When the renewal of a certificate that ends at a time begins.
pub open spec fn renewed_from(expiry: Option<i64>) -> Option<i64> {
    match expiry {
        Some(end) => Some((end - RENEW_BEFORE) as i64),
        None => None,
    }
}

/// The state of a certificate that ends at a time, after some failed renewals.
pub fn status(expiry: Option<i64>, retry: &RenewalRetry, now: i64) -> (r: CertificateStatus)
    requires
        now + RENEW_BEFORE <= i64::MAX,
        expiry matches Some(end) ==> end - RENEW_BEFORE >= i64::MIN,
    ensures
        r.status@ == status_word(expiry, retry.error is Some, now),
        r.expires_at == expiry,
        r.renew_after == renewed_from(expiry),
        text::opt(r.error) == text::opt(retry.error),
        r.next_retry_at == retry.next_retry_at,
{
    let word: &'static str = match expiry {
        None => "unknown",
        Some(end) => if end <= now {
            "expired"
        } else if retry.error.is_some() {
            "retry_wait"
        } else if end <= now + RENEW_BEFORE {
            "expiring"
        } else {
            "valid"
        },
    };
    CertificateStatus {
        status: word,
        expires_at: expiry,
        renew_after: match expiry {
            Some(end) => Some(end - RENEW_BEFORE),
            None => None,
        },
        error: copy_opt(&retry.error),
        next_retry_at: retry.next_retry_at,
    }
}

/// The certificate authority in use and the failed renewals of the server certificate.
pub struct AuthorityState {
    pub authority: Authority,
    pub retry: RenewalRetry,
}

/// What is shown of the certificate authority.
pub struct AuthorityStatus {
    pub server: CertificateStatus,
    pub ca_expires_at: Option<i64>,
    pub ca_needs_attention: bool,
}

/// The end of the certificate in a PEM text, if it can be read.
pub open spec fn end_of(pem: Seq<char>) -> Option<i64> {
    match x509::info_of(pem) {
        Ok(info) => Some(info.1),
        Err(_) => None,
    }
}

fn read_end(pem: &str) -> (r: Option<i64>)
    ensures
        r == end_of(pem@),
        r matches Some(end) ==> -400000000000 <= end <= 400000000000,
{
    match certificate_info(pem) {
        Ok(info) => Some(info.1),
        Err(_) => None,
    }
}

impl AuthorityState {
    /// The state after a start: failures that were noted for another certificate are forgotten.
    pub fn restore(authority: Authority, saved: Option<(i64, RenewalRetry)>) -> (r: AuthorityState)
        ensures
            r.authority == authority,
            match saved {
                Some(note) if end_of(authority.server_pem@) == Some(note.0) => r.retry == note.1,
                _ => r.retry.fresh(),
            },
    {
        let end: Option<i64> = read_end(authority.server_pem.as_str());
        let retry: RenewalRetry = match (saved, end) {
            (Some((noted, retry)), Some(end)) => if noted == end {
                retry
            } else {
                RenewalRetry::default()
            },
            _ => RenewalRetry::default(),
        };
        AuthorityState { authority, retry }
    }

    /// Whether the certificate of the server is to be renewed now.
    pub fn renewal_due(&self, now: i64) -> (r: Result<bool, IdentityError>)
        requires
            now + RENEW_BEFORE <= i64::MAX,
        ensures
            match r {
                Ok(due) => x509::info_of(self.authority.server_pem@) matches Ok(info) && due == (
                info.1 <= now + RENEW_BEFORE && self.retry.due(now)),
                Err(e) => x509::info_of(self.authority.server_pem@) == Err::<(Seq<char>, i64), _>(
                    e,
                ),
            },
    {
        match self.authority.server_expires_at() {
            Ok(end) => Ok(end <= now + RENEW_BEFORE && self.retry.ready(now)),
            Err(e) => Err(e),
        }
    }

    /// Puts a renewed identity in use, with no failures.
    pub fn renewed(&mut self, next: Authority)
        ensures
            final(self).authority == next,
            final(self).retry.fresh(),
    {
        self.authority = next;
        self.retry = RenewalRetry::default();
    }

    /// Keeps the identity in use and notes a failed renewal.
    pub fn renewal_failed(&mut self, now: i64, error: &str)
        requires
            now + 3600 <= i64::MAX,
        ensures
            final(self).authority == old(self).authority,
            text::opt(final(self).retry.error) == Some(text::shortened(error@, 512)),
            final(self).retry.failures == (if old(self).retry.failures == u32::MAX {
                u32::MAX
            } else {
                (old(self).retry.failures + 1) as u32
            }),
            final(self).retry.next_retry_at == Some(
                (now + retry_delay(final(self).retry.failures as int)) as i64,
            ),
    {
        self.retry.failed(now, error);
    }

    /// What is shown of the authority: it needs attention half a year before its end.
    pub fn status(&self, now: i64) -> (r: AuthorityStatus)
        requires
            now + 15552000 <= i64::MAX,
        ensures
            r.server.status@ == status_word(
                end_of(self.authority.server_pem@),
                self.retry.error is Some,
                now,
            ),
            r.server.expires_at == end_of(self.authority.server_pem@),
            r.server.renew_after == renewed_from(r.server.expires_at),
            text::opt(r.server.error) == text::opt(self.retry.error),
            r.server.next_retry_at == self.retry.next_retry_at,
            r.ca_expires_at == end_of(self.authority.ca_pem@),
            r.ca_needs_attention == (match end_of(self.authority.ca_pem@) {
                Some(end) => end <= now + 15552000,
                None => true,
            }),
    {
        let ca: Option<i64> = read_end(self.authority.ca_pem.as_str());
        AuthorityStatus {
            server: status(read_end(self.authority.server_pem.as_str()), &self.retry, now),
            ca_expires_at: ca,
            ca_needs_attention: match ca {
                Some(end) => end <= now + 15552000,
                None => true,
            },
        }
    }
}

/// What is stored of the identity of a device: the digest of the certificate in use, that
/// certificate, a new one that waits to be installed with its request, and the failed renewals.
pub struct DeviceCertificate {
    pub active_digest: String,
    pub certificate_pem: Option<String>,
    pub pending_csr: Option<String>,
    pub pending_certificate: Option<String>,
    pub retry_failures: u32,
    pub renewal_error: Option<String>,
    pub next_retry_at: Option<i64>,
}

/// What is stored of the identity of a device.
pub ghost struct DeviceCertificateView {
    pub active_digest: Seq<char>,
    pub certificate_pem: Option<Seq<char>>,
    pub pending_csr: Option<Seq<char>>,
    pub pending_certificate: Option<Seq<char>>,
    pub retry_failures: u32,
    pub renewal_error: Option<Seq<char>>,
    pub next_retry_at: Option<i64>,
}

impl View for DeviceCertificate {
    type V = DeviceCertificateView;

    open spec fn view(&self) -> DeviceCertificateView {
        DeviceCertificateView {
            active_digest: self.active_digest@,
            certificate_pem: text::opt(self.certificate_pem),
            pending_csr: text::opt(self.pending_csr),
            pending_certificate: text::opt(self.pending_certificate),
            retry_failures: self.retry_failures,
            renewal_error: text::opt(self.renewal_error),
            next_retry_at: self.next_retry_at,
        }
    }
}

/// What is stored after a device has shown a certificate, or why it is refused: the one in use
/// changes nothing, and the one that waits takes its place.
pub open spec fn accepted(row: Option<DeviceCertificateView>, digest: Seq<char>) -> Result<
    DeviceCertificateView,
    IdentityError,
> {
    match row {
        None => Err(IdentityError::NotRegistered),
        Some(stored) => if stored.active_digest == digest {
            Ok(stored)
        } else {
            match stored.pending_certificate {
                Some(pem) if x509::fingerprint_of(pem) == Ok::<Seq<char>, IdentityError>(digest) =>
                Ok(
                    DeviceCertificateView {
                        active_digest: digest,
                        certificate_pem: Some(pem),
                        pending_csr: None,
                        pending_certificate: None,
                        retry_failures: 0,
                        renewal_error: None,
                        next_retry_at: None,
                    },
                ),
                _ => Err(IdentityError::Replaced),
            }
        },
    }
}

/// Accepts the certificate that a device has shown, given what is stored for it.
pub fn accept_certificate(row: Option<DeviceCertificate>, digest: &str) -> (r: Result<
    DeviceCertificate,
    IdentityError,
>)
    ensures
        match r {
            Ok(next) => accepted(
                match row {
                    Some(stored) => Some(stored@),
                    None => None,
                },
                digest@,
            ) == Ok::<DeviceCertificateView, IdentityError>(next@),
            Err(e) => accepted(
                match row {
                    Some(stored) => Some(stored@),
                    None => None,
                },
                digest@,
            ) == Err::<DeviceCertificateView, _>(e),
        },
{
    let stored: DeviceCertificate = match row {
        Some(stored) => stored,
        None => {
            return Err(IdentityError::NotRegistered);
        },
    };
    if same(stored.active_digest.as_str(), digest) {
        return Ok(stored);
    }
    if let Some(pem) = stored.pending_certificate {
        if let Ok(waiting) = fingerprint(pem.as_str()) {
            if same(waiting.as_str(), digest) {
                return Ok(
                    DeviceCertificate {
                        active_digest: digest.to_owned(),
                        certificate_pem: Some(pem),
                        pending_csr: None,
                        pending_certificate: None,
                        retry_failures: 0,
                        renewal_error: None,
                        next_retry_at: None,
                    },
                );
            }
        }
    }
    Err(IdentityError::Replaced)
}

/// Once a device has shown its new certificate, every other certificate is refused, the old one
/// among them, and the new one stays accepted.
pub proof fn installing_revokes_the_old_certificate(
    stored: DeviceCertificateView,
    digest: Seq<char>,
    shown: Seq<char>,
)
    requires
        accepted(Some(stored), digest) is Ok,
        stored.active_digest != digest,
    ensures
        ({
            let next = accepted(Some(stored), digest)->Ok_0;
            accepted(Some(next), shown) == (if shown == digest {
                Ok(next)
            } else {
                Err(IdentityError::Replaced)
            })
        }),
{
}

/// Why a device may not renew now, if it may not.
pub open spec fn renewal_refusal(
    stored: DeviceCertificateView,
    authenticated: Seq<char>,
    csr: Seq<char>,
    now: i64,
) -> Option<IdentityError> {
    if x509::request_refusal(csr) is Some {
        x509::request_refusal(csr)
    } else if stored.active_digest != authenticated {
        Some(IdentityError::Reconnect)
    } else {
        match stored.certificate_pem {
            None => Some(IdentityError::NoCertificate),
            Some(pem) => match x509::info_of(pem) {
                Err(e) => Some(e),
                Ok(info) => if info.1 <= now {
                    Some(IdentityError::Expired)
                } else if info.1 > now + RENEW_BEFORE {
                    Some(IdentityError::TooEarly)
                } else if stored.next_retry_at matches Some(retry) && retry > now {
                    Some(IdentityError::RetryLater)
                } else {
                    None
                },
            },
        }
    }
}

/// The certificate that was already issued for the same request and lasts long enough.
pub open spec fn reusable(stored: DeviceCertificateView, csr: Seq<char>, now: i64) -> Option<
    Seq<char>,
> {
    match stored.pending_certificate {
        Some(pem) if stored.pending_csr == Some(csr) && (x509::info_of(pem) matches Ok(info)
            && info.1 > now + RENEW_BEFORE) => Some(pem),
        _ => None,
    }
}

/// What a permitted renewal comes to.
pub enum RenewalPlan {
    /// The certificate that was already issued for the same request is sent again.
    Reuse { certificate_pem: String },
    /// A certificate is issued.
    Issue,
}

/// Whether a device may renew now, and with what.
pub fn plan_renewal(
    stored: &DeviceCertificate,
    authenticated: &str,
    csr: &str,
    now: i64,
) -> (r: Result<RenewalPlan, IdentityError>)
    requires
        now + RENEW_BEFORE <= i64::MAX,
    ensures
        match r {
            Err(e) => renewal_refusal(stored@, authenticated@, csr@, now) == Some(e),
            Ok(RenewalPlan::Reuse { certificate_pem }) => renewal_refusal(
                stored@,
                authenticated@,
                csr@,
                now,
            ) is None && reusable(stored@, csr@, now) == Some(certificate_pem@),
            Ok(RenewalPlan::Issue) => renewal_refusal(stored@, authenticated@, csr@, now) is None
                && reusable(stored@, csr@, now) is None,
        },
{
    if let Err(e) = validate_csr(csr) {
        return Err(e);
    }
    if !same(stored.active_digest.as_str(), authenticated) {
        return Err(IdentityError::Reconnect);
    }
    let expiry: i64 = match &stored.certificate_pem {
        None => {
            return Err(IdentityError::NoCertificate);
        },
        Some(pem) => match certificate_info(pem.as_str()) {
            Ok(info) => info.1,
            Err(e) => {
                return Err(e);
            },
        },
    };
    if expiry <= now {
        return Err(IdentityError::Expired);
    }
    if expiry > now + RENEW_BEFORE {
        return Err(IdentityError::TooEarly);
    }
    if let Some(retry) = stored.next_retry_at {
        if retry > now {
            return Err(IdentityError::RetryLater);
        }
    }
    if is_text(&stored.pending_csr, csr) {
        if let Some(pem) = &stored.pending_certificate {
            if let Ok(info) = certificate_info(pem.as_str()) {
                if info.1 > now + RENEW_BEFORE {
                    return Ok(RenewalPlan::Reuse { certificate_pem: pem.clone() });
                }
            }
        }
    }
    Ok(RenewalPlan::Issue)
}

/// Renews the certificate of a device: the device comes from the connection, and the request gives
/// the new key alone. The certificate in use stays until the device has shown the new one.
pub fn renew_device(
    authority: &Authority,
    stored: &mut DeviceCertificate,
    device: &str,
    authenticated: &str,
    csr: &str,
    now: i64,
) -> (r: Result<String, IdentityError>)
    requires
        issuing_time(now, LEAD, DEVICE_LIFETIME),
    ensures
        match r {
            Ok(pem) => renewal_refusal(old(stored)@, authenticated@, csr@, now) is None && (
            match reusable(old(stored)@, csr@, now) {
                Some(waiting) => pem@ == waiting && *final(stored) == *old(stored),
                None => device_certificate(pem@, *authority, csr@, device@, now) && final(stored)@
                    == (DeviceCertificateView {
                    pending_csr: Some(csr@),
                    pending_certificate: Some(pem@),
                    renewal_error: None,
                    next_retry_at: None,
                    ..old(stored)@
                }),
            }),
            Err(e) => *final(stored) == *old(stored) && (renewal_refusal(
                old(stored)@,
                authenticated@,
                csr@,
                now,
            ) == Some(e) || (renewal_refusal(old(stored)@, authenticated@, csr@, now) is None
                && reusable(old(stored)@, csr@, now) is None && e == issue_failure(
                *authority,
                csr@,
                now,
            ))),
        },
{
    match plan_renewal(stored, authenticated, csr, now) {
        Err(e) => Err(e),
        Ok(RenewalPlan::Reuse { certificate_pem }) => Ok(certificate_pem),
        Ok(RenewalPlan::Issue) => match authority.issue_device(csr, device, now) {
            Err(e) => Err(e),
            Ok(pem) => {
                stored.pending_csr = Some(csr.to_owned());
                stored.pending_certificate = Some(pem.clone());
                stored.renewal_error = None;
                stored.next_retry_at = None;
                Ok(pem)
            },
        },
    }
}

/// The time of the next try: the one that the device reports, held between half a minute and an
/// hour from now, or else the one that the failures give.
pub open spec fn next_try(failures: u32, reported: Option<i64>, now: i64) -> int {
    match reported {
        Some(next) => if next < now + 30 {
            now + 30
        } else if next > now + 3600 {
            now + 3600
        } else {
            next as int
        },
        None => now + retry_delay(failures as int),
    }
}

/// Notes the failed renewal of a device, and gives the time of the next try.
pub fn renewal_failed(
    failures: u32,
    error: &str,
    reported_retry: Option<i64>,
    now: i64,
) -> (r: (RenewalRetry, i64))
    requires
        now + 3600 <= i64::MAX,
    ensures
        r.0.failures == (if failures == u32::MAX {
            u32::MAX
        } else {
            (failures + 1) as u32
        }),
        text::opt(r.0.error) == Some(text::shortened(error@, 512)),
        r.0.next_retry_at == Some(r.1),
        r.1 == next_try(r.0.failures, reported_retry, now),
{
    let mut retry = RenewalRetry { failures, error: None, next_retry_at: None };
    retry.failed(now, error);
    let next: i64 = match reported_retry {
        Some(reported) => if reported < now + 30 {
            now + 30
        } else if reported > now + 3600 {
            now + 3600
        } else {
            reported
        },
        None => now + retry_delay_seconds(retry.failures),
    };
    retry.next_retry_at = Some(next);
    (retry, next)
}

/// The state of the certificate of a device as it is shown.
pub fn device_status(
    certificate_pem: Option<&str>,
    error: Option<String>,
    next_retry_at: Option<i64>,
    now: i64,
) -> (r: CertificateStatus)
    requires
        now + RENEW_BEFORE <= i64::MAX,
    ensures
        r.expires_at == (match certificate_pem {
            Some(pem) => end_of(pem@),
            None => None,
        }),
        r.status@ == status_word(r.expires_at, error is Some, now),
        r.renew_after == renewed_from(r.expires_at),
        text::opt(r.error) == text::opt(error),
        r.next_retry_at == next_retry_at,
{
    let expiry: Option<i64> = match certificate_pem {
        Some(pem) => read_end(pem),
        None => None,
    };
    status(expiry, &RenewalRetry { failures: 0, error, next_retry_at }, now)
}

/// A key that waits for its certificate, with the request for it.
#[derive(Clone)]
pub struct EnrollmentKey {
    pub csr_pem: String,
    pub key_pem: String,
}

/// The identity of an agent.
#[derive(Clone)]
pub struct DeviceIdentity {
    pub device_id: String,
    pub server_url: String,
    pub certificate_pem: String,
    pub ca_pem: String,
    pub key_pem: String,
    pub pending_key: Option<EnrollmentKey>,
    pub renewal_retry: RenewalRetry,
}

/// Whether an agent asks for a new certificate now, or why it cannot: its certificate is due for
/// renewal, the next try is due, and the certificate is still valid.
pub open spec fn asks_to_renew(identity: DeviceIdentity, now: i64) -> Result<bool, IdentityError> {
    match x509::info_of(identity.certificate_pem@) {
        Err(e) => Err(e),
        Ok(info) => if info.1 > now + RENEW_BEFORE || !identity.renewal_retry.due(now) {
            Ok(false)
        } else if info.1 <= now {
            Err(IdentityError::Expired)
        } else {
            Ok(true)
        },
    }
}

/// Whether the request of a key is a valid one for that key.
pub open spec fn key_asked_for(key: EnrollmentKey) -> bool {
    x509::request_valid(key.csr_pem@) && x509::request_key(key.csr_pem@) == x509::key_public(
        key.key_pem@,
    )
}

/// The certificate that an authority issues for the request of a key belongs to that key, so that
/// the two can be put in use together.
pub proof fn issued_certificates_belong_to_the_key(
    pem: Seq<char>,
    authority: Authority,
    key: EnrollmentKey,
    device: Seq<char>,
    now: i64,
)
    requires
        key_asked_for(key),
        device_certificate(pem, authority, key.csr_pem@, device, now),
    ensures
        x509::key_belongs(pem, key.key_pem@),
{
}

/// Asks for a new certificate where it is due. The key for it is made once and kept until its
/// certificate is installed; the next try comes half a minute later.
pub fn request(identity: &mut DeviceIdentity, now: i64) -> (r: Result<
    Option<AgentControlMessage>,
    IdentityError,
>)
    requires
        now + RENEW_BEFORE <= i64::MAX,
    ensures
        final(identity).device_id == old(identity).device_id,
        final(identity).server_url == old(identity).server_url,
        final(identity).certificate_pem == old(identity).certificate_pem,
        final(identity).ca_pem == old(identity).ca_pem,
        final(identity).key_pem == old(identity).key_pem,
        match r {
            Ok(None) => asks_to_renew(*old(identity), now) == Ok::<bool, IdentityError>(false)
                && *final(identity) == *old(identity),
            Ok(Some(message)) => asks_to_renew(*old(identity), now) == Ok::<bool, IdentityError>(
                true,
            ) && (message matches AgentControlMessage::RenewCertificate { csr_pem }
                && final(identity).pending_key matches Some(key) && csr_pem@ == key.csr_pem@) && (
            match old(identity).pending_key {
                Some(key) => final(identity).pending_key == Some(key),
                None => key_asked_for(final(identity).pending_key->0),
            }) && final(identity).renewal_retry == (RenewalRetry {
                next_retry_at: Some((now + 30) as i64),
                ..old(identity).renewal_retry
            }),
            Err(e) => *final(identity) == *old(identity) && (asks_to_renew(*old(identity), now)
                == Err::<bool, _>(e) || (e == IdentityError::Issue && asks_to_renew(
                *old(identity),
                now,
            ) == Ok::<bool, IdentityError>(true) && old(identity).pending_key is None)),
        },
{
    let expiry: i64 = match certificate_info(identity.certificate_pem.as_str()) {
        Ok(info) => info.1,
        Err(e) => {
            return Err(e);
        },
    };
    if expiry > now + RENEW_BEFORE || !identity.renewal_retry.ready(now) {
        return Ok(None);
    }
    if expiry <= now {
        return Err(IdentityError::Expired);
    }
    if identity.pending_key.is_none() {
        match new_request("agent.nexo") {
            Some((csr_pem, key_pem)) => {
                identity.pending_key = Some(EnrollmentKey { csr_pem, key_pem });
            },
            None => {
                return Err(IdentityError::Issue);
            },
        }
    }
    identity.renewal_retry.next_retry_at = Some(now + 30);
    let csr_pem: String = match &identity.pending_key {
        Some(key) => key.csr_pem.clone(),
        None => String::new(),
    };
    Ok(Some(AgentControlMessage::RenewCertificate { csr_pem }))
}

/// Why an agent does not install a certificate, if it does not.
pub open spec fn install_refusal(
    device_id: Seq<char>,
    certificate: Seq<char>,
    now: i64,
) -> Option<IdentityError> {
    match x509::info_of(certificate) {
        Err(e) => Some(e),
        Ok(info) => if info.0 == device_id && info.1 > now + RENEW_BEFORE {
            None
        } else {
            Some(IdentityError::Unsuitable)
        },
    }
}

/// The identity with a new certificate in place. The caller puts it in use once it has built a
/// connection from it and stored it; until then the old one stays.
pub fn install(identity: &DeviceIdentity, certificate: &str, now: i64) -> (r: Result<
    DeviceIdentity,
    IdentityError,
>)
    requires
        now + RENEW_BEFORE <= i64::MAX,
    ensures
        match r {
            Ok(next) => install_refusal(identity.device_id@, certificate@, now) is None
                && next.device_id@ == identity.device_id@ && next.server_url@
                == identity.server_url@ && next.ca_pem@ == identity.ca_pem@
                && next.certificate_pem@ == certificate@ && next.key_pem@ == (
            match identity.pending_key {
                Some(key) => key.key_pem@,
                None => identity.key_pem@,
            }) && next.pending_key is None && next.renewal_retry.fresh(),
            Err(e) => install_refusal(identity.device_id@, certificate@, now) == Some(e),
        },
{
    let (device, expiry) = match certificate_info(certificate) {
        Ok(info) => info,
        Err(e) => {
            return Err(e);
        },
    };
    if !(same(device.as_str(), identity.device_id.as_str()) && expiry > now + RENEW_BEFORE) {
        return Err(IdentityError::Unsuitable);
    }
    Ok(
        DeviceIdentity {
            device_id: identity.device_id.clone(),
            server_url: identity.server_url.clone(),
            certificate_pem: certificate.to_owned(),
            ca_pem: identity.ca_pem.clone(),
            key_pem: match &identity.pending_key {
                Some(key) => key.key_pem.clone(),
                None => identity.key_pem.clone(),
            },
            pending_key: None,
            renewal_retry: RenewalRetry::default(),
        },
    )
}

/// The failures after one more.
pub open spec fn one_more(failures: u32) -> u32 {
    if failures == u32::MAX {
        failures
    } else {
        (failures + 1) as u32
    }
}

/// When an agent tries again after a failure: when the server asked for it, at least half a minute
/// away, or else when the failures give.
pub open spec fn tries_again(failures: u32, retry_at: Option<i64>, now: i64) -> int {
    match retry_at {
        Some(next) => if next < now + 30 {
            now + 30
        } else {
            next as int
        },
        None => now + retry_delay(failures as int),
    }
}

/// Whether a failure is noted: how many there were, what it was, and when the next try comes.
pub open spec fn is_noted(retry: RenewalRetry, failures: u32, error: Seq<char>, next: int) -> bool {
    &&& retry.failures == failures
    &&& text::opt(retry.error) == Some(text::shortened(error, 512))
    &&& retry.next_retry_at matches Some(at) && at == next
}

/// Whether a message reports a failed renewal to the server.
pub open spec fn is_report(message: AgentControlMessage, error: Seq<char>, next: int) -> bool {
    message matches AgentControlMessage::CertificateRenewalFailed { error: told, next_retry_at }
        && told@ == text::shortened(error, 512) && next_retry_at == next
}

/// Notes a failed renewal and gives the report for the server.
pub fn failed(
    identity: &mut DeviceIdentity,
    error: &str,
    retry_at: Option<i64>,
    now: i64,
) -> (r: AgentControlMessage)
    requires
        now + 3600 <= i64::MAX,
    ensures
        final(identity).device_id == old(identity).device_id,
        final(identity).server_url == old(identity).server_url,
        final(identity).certificate_pem == old(identity).certificate_pem,
        final(identity).ca_pem == old(identity).ca_pem,
        final(identity).key_pem == old(identity).key_pem,
        final(identity).pending_key == old(identity).pending_key,
        is_noted(
            final(identity).renewal_retry,
            one_more(old(identity).renewal_retry.failures),
            error@,
            tries_again(one_more(old(identity).renewal_retry.failures), retry_at, now),
        ),
        is_report(
            r,
            error@,
            tries_again(one_more(old(identity).renewal_retry.failures), retry_at, now),
        ),
{
    identity.renewal_retry.failed(now, error);
    let next: i64 = match retry_at {
        Some(next) => if next < now + 30 {
            now + 30
        } else {
            next
        },
        None => now + retry_delay_seconds(identity.renewal_retry.failures),
    };
    identity.renewal_retry.next_retry_at = Some(next);
    AgentControlMessage::CertificateRenewalFailed {
        error: shorten(error, 512),
        next_retry_at: next,
    }
}

/// A control message as it goes over the wire: the bytes and an end of line. One that is too long
/// is refused.
pub fn frame_message(bytes: Vec<u8>) -> (r: Option<Vec<u8>>)
    ensures
        match r {
            Some(framed) => bytes@.len() <= MAX_CONTROL_FRAME && framed@ == bytes@.push(10u8),
            None => bytes@.len() > MAX_CONTROL_FRAME,
        },
{
    if bytes.len() > MAX_CONTROL_FRAME {
        return None;
    }
    let mut framed: Vec<u8> = bytes;
    framed.push(10u8);
    Some(framed)
}

/// The statements that add the table of device certificates to a database. Devices from before it get
/// the certificate that they were approved with.
pub open spec fn schema() -> Seq<Seq<char>> {
    seq![
        "CREATE TABLE IF NOT EXISTS device_certificates (device_id TEXT PRIMARY KEY REFERENCES devices(id) ON DELETE CASCADE,certificate_pem TEXT,pending_csr_pem TEXT,pending_certificate_pem TEXT,retry_failures INTEGER NOT NULL DEFAULT 0,renewal_error TEXT,next_retry_at INTEGER);"@,
        "INSERT OR IGNORE INTO device_certificates (device_id,certificate_pem) SELECT p.device_id,r.certificate_pem FROM pending_enrollments p JOIN enrollment_requests r ON r.enrollment_id=p.id WHERE p.device_id IS NOT NULL AND r.certificate_pem IS NOT NULL;"@,
    ]
}

/// The statements that add the table of device certificates to a database.
pub fn initialize_schema() -> (r: Vec<String>)
    ensures
        text::views(r@) == schema(),
{
    let mut statements: Vec<String> = Vec::new();
    statements.push(
        "CREATE TABLE IF NOT EXISTS device_certificates (device_id TEXT PRIMARY KEY REFERENCES devices(id) ON DELETE CASCADE,certificate_pem TEXT,pending_csr_pem TEXT,pending_certificate_pem TEXT,retry_failures INTEGER NOT NULL DEFAULT 0,renewal_error TEXT,next_retry_at INTEGER);".to_owned(),
    );
    statements.push(
        "INSERT OR IGNORE INTO device_certificates (device_id,certificate_pem) SELECT p.device_id,r.certificate_pem FROM pending_enrollments p JOIN enrollment_requests r ON r.enrollment_id=p.id WHERE p.device_id IS NOT NULL AND r.certificate_pem IS NOT NULL;".to_owned(),
    );
    assert(text::views(statements@) =~= schema());
    statements
}

/// A first failure is followed by a wait of thirty seconds, each further failure doubles the wait, and
/// no wait is longer than an hour.
pub proof fn waits_double_up_to_an_hour(n: int)
    ensures
        n <= 1 ==> retry_delay(n) == 30,
        retry_delay(2) == 60,
        retry_delay(7) == 1920,
        n >= 1 && 2 * retry_delay(n) <= 3600 ==> retry_delay(n + 1) == 2 * retry_delay(n),
        n >= 8 ==> retry_delay(n) == 3600,
    decreases n,
{
    reveal_with_fuel(retry_delay, 9);
    if n > 8 {
        waits_double_up_to_an_hour(n - 1);
    }
}

/// A certificate is issued for the asked span or to the end of its authority, whichever comes first,
/// and only where more than thirty days of it are left.
pub proof fn certificates_end_with_their_authority(now: i64, lifetime: i64, authority_end: i64)
    requires
        i64::MIN <= now + lifetime <= i64::MAX,
    ensures
        issued_until(now, lifetime, authority_end) matches Ok(end) ==> end <= now + lifetime && end
            <= authority_end && (end == now + lifetime || end == authority_end) && end > now
            + 2592000,
        issued_until(now, lifetime, authority_end) is Ok <==> lifetime > 2592000 && authority_end
            > now + 2592000,
        issued_until(now, lifetime, authority_end) matches Err(e) ==> e
            == IdentityError::AuthorityExpiring,
{
}

/// A device gets a certificate of its own name for clients, which begins five minutes ago and lasts a
/// year at most; it is issued for the key of its request.
pub proof fn devices_get_certificates_of_a_year(
    pem: Seq<char>,
    authority: Authority,
    csr: Seq<char>,
    device: Seq<char>,
    now: i64,
)
    requires
        device_certificate(pem, authority, csr, device, now),
        issuing_time(now, 300, 31536000),
    ensures
        exists|made: x509::Issued|
            {
                &&& #[trigger] x509::issued_for(pem, made, x509::request_key(csr)->0)
                &&& made.common_name == device
                &&& made.alternative == "device-"@ + device + ".nexo"@
                &&& made.purpose is Client
                &&& made.key_use is Data
                &&& made.names_issuer
                &&& made.not_before == now - 300
                &&& made.not_after <= now + 31536000
                &&& made.not_after > now + 2592000
                &&& x509::info_of(authority.ca_pem@) matches Ok(info) && made.not_after <= info.1
                &&& made.not_after == now + 31536000 || (x509::info_of(
                    authority.ca_pem@,
                ) matches Ok(info) && made.not_after == info.1)
            },
        x509::request_key(csr) is Some,
        x509::key_belongs(authority.ca_pem@, authority.ca_key@) ==> x509::signed_by(
            pem,
            authority.ca_pem@,
        ),
{
    let end = authority_until(authority.ca_pem@, now, DEVICE_LIFETIME)->Ok_0;
    assert(x509::issued_for(
        pem,
        device_form(device, (now - LEAD) as i64, end),
        x509::request_key(csr)->0,
    ));
}

/// A server gets a certificate for servers under the name that agents look for, which begins five
/// minutes ago and lasts 825 days at most; the authority stays.
pub proof fn servers_get_certificates_under_their_name(old: Authority, next: Authority, now: i64)
    requires
        renewed_server(old, next, now),
        issuing_time(now, 300, 71280000),
    ensures
        next.ca_pem@ == old.ca_pem@,
        next.ca_key@ == old.ca_key@,
        x509::key_public(next.server_key@) is Some,
        exists|made: x509::Issued|
            {
                &&& #[trigger] x509::issued_for(
                    next.server_pem@,
                    made,
                    x509::key_public(next.server_key@)->0,
                )
                &&& made.alternative == "nexo-server"@
                &&& made.purpose is Server
                &&& made.key_use is Data
                &&& made.names_issuer
                &&& made.not_before == now - 300
                &&& made.not_after <= now + 71280000
                &&& made.not_after > now + 2592000
                &&& x509::info_of(old.ca_pem@) matches Ok(info) && made.not_after <= info.1
                &&& made.not_after == now + 71280000 || (x509::info_of(
                    old.ca_pem@,
                ) matches Ok(info) && made.not_after == info.1)
            },
        x509::key_belongs(old.ca_pem@, old.ca_key@) ==> x509::signed_by(
            next.server_pem@,
            old.ca_pem@,
        ),
{
    let end = authority_until(old.ca_pem@, now, SERVER_LIFETIME)->Ok_0;
    assert(x509::issued_for(
        next.server_pem@,
        server_form((now - LEAD) as i64, end),
        x509::key_public(next.server_key@)->0,
    ));
}

/// The certificate of an authority is for signing certificates and lists of revoked ones, and one of a
/// server is for servers.
pub proof fn authorities_sign_certificates(not_before: i64, not_after: i64)
    ensures
        ({
            let made = authority_form(not_before, not_after);
            &&& made.standing is Authority
            &&& made.common_name == "Nexo Device CA"@
            &&& made.key_uses.contains(KeyUse::Certificates)
            &&& made.key_uses.contains(KeyUse::RevocationLists)
            &&& made.key_uses.contains(KeyUse::Data)
            &&& made.not_before == not_before
            &&& made.not_after == not_after
        }),
        ({
            let made = server_form(not_before, not_after);
            &&& made.alternative == "nexo-server"@
            &&& made.purpose is Server
            &&& made.names_issuer
            &&& made.not_before == not_before
            &&& made.not_after == not_after
        }),
{
    let uses = authority_form(not_before, not_after).key_uses;
    assert(uses[0] == KeyUse::Data);
    assert(uses[1] == KeyUse::Certificates);
    assert(uses[2] == KeyUse::RevocationLists);
}

/// No certificate is issued for a request that is no valid one, and where the request is valid the
/// failure is that of the authority.
pub proof fn issuing_needs_a_valid_request(authority: Authority, csr: Seq<char>, now: i64)
    ensures
        !x509::request_valid(csr) ==> issue_failure(authority, csr, now) is Request,
        x509::request_valid(csr) && x509::info_of(authority.ca_pem@) is Err
            ==> issue_failure(authority, csr, now) == x509::info_of(authority.ca_pem@)->Err_0,
        x509::request_valid(csr) && (x509::info_of(authority.ca_pem@) matches Ok(info) && info.1
            <= now + 2592000) ==> issue_failure(authority, csr, now) is AuthorityExpiring,
        x509::request_valid(csr) && (x509::info_of(authority.ca_pem@) matches Ok(info) && info.1
            > now + 2592000) && now + 31536000 <= i64::MAX ==> issue_failure(authority, csr, now)
            is Issue,
{
}

/// What is shown of a certificate: nothing is known without one; past its end it is expired, whatever
/// else; a failure is shown before that, and otherwise whether fewer than thirty days are left.
pub proof fn certificates_are_shown_by_their_end(expiry: Option<i64>, failing: bool, now: i64)
    ensures
        status_word(expiry, failing, now) == "unknown"@ <==> expiry is None,
        status_word(expiry, failing, now) == "expired"@ <==> expiry is Some && expiry->0 <= now,
        status_word(expiry, failing, now) == "retry_wait"@ <==> expiry is Some && expiry->0 > now
            && failing,
        status_word(expiry, failing, now) == "expiring"@ <==> expiry is Some && now < expiry->0
            <= now + 2592000 && !failing,
        status_word(expiry, failing, now) == "valid"@ <==> expiry is Some && expiry->0 > now
            + 2592000 && !failing,
{
    reveal_strlit("unknown");
    reveal_strlit("expired");
    reveal_strlit("retry_wait");
    reveal_strlit("expiring");
    reveal_strlit("valid");
    assert("unknown"@[0] != "expired"@[0]);
    assert("expiring"@.len() != "expired"@.len());
    assert("valid"@.len() == 5);
    assert("retry_wait"@.len() == 10);
}

/// A renewal starts thirty days before the end.
pub proof fn renewals_start_thirty_days_before_the_end(expiry: Option<i64>)
    requires
        expiry is Some ==> expiry->0 - 2592000 >= i64::MIN,
    ensures
        renewed_from(expiry) is Some <==> expiry is Some,
        expiry is Some ==> renewed_from(expiry)->0 + 2592000 == expiry->0,
{
}

/// A device is let in with the certificate that is in force, which changes nothing, or with the one
/// that waits for it, which takes the place of the old one; with no other.
pub proof fn devices_are_let_in_with_their_certificates(
    row: Option<DeviceCertificateView>,
    digest: Seq<char>,
)
    ensures
        row is None ==> accepted(row, digest) == Err::<DeviceCertificateView, IdentityError>(
            IdentityError::NotRegistered,
        ),
        row is Some ==> (accepted(row, digest) is Ok <==> row->0.active_digest == digest || (
        row->0.pending_certificate is Some && x509::fingerprint_of(row->0.pending_certificate->0)
            == Ok::<Seq<char>, IdentityError>(digest))),
        row is Some && accepted(row, digest) is Err ==> accepted(row, digest)->Err_0 is Replaced,
        row is Some && row->0.active_digest == digest ==> accepted(row, digest)->Ok_0 == row->0,
        accepted(row, digest) is Ok ==> accepted(row, digest)->Ok_0.active_digest == digest,
        accepted(row, digest) is Ok && row->0.active_digest != digest ==> {
            let next = accepted(row, digest)->Ok_0;
            &&& next.certificate_pem == row->0.pending_certificate
            &&& next.pending_certificate is None
            &&& next.pending_csr is None
            &&& next.renewal_error is None
            &&& next.next_retry_at is None
            &&& next.retry_failures == 0
        },
{
}

/// A device renews its certificate in its last thirty days, over a connection with the certificate in
/// force, once the wait after a failure is over, with a valid request; and only so.
pub proof fn renewals_fall_into_the_last_thirty_days(
    stored: DeviceCertificateView,
    authenticated: Seq<char>,
    csr: Seq<char>,
    now: i64,
)
    ensures
        renewal_refusal(stored, authenticated, csr, now) is None <==> {
            &&& x509::request_refusal(csr) is None
            &&& stored.active_digest == authenticated
            &&& stored.certificate_pem is Some
            &&& x509::info_of(stored.certificate_pem->0) is Ok
            &&& now < x509::info_of(stored.certificate_pem->0)->Ok_0.1 <= now + 2592000
            &&& stored.next_retry_at is Some ==> stored.next_retry_at->0 <= now
        },
        x509::request_refusal(csr) is None && stored.active_digest != authenticated
            ==> renewal_refusal(stored, authenticated, csr, now) == Some(IdentityError::Reconnect),
{
}

/// A certificate that waits is sent again for the same request while more than thirty days of it are
/// left; for another request none is.
pub proof fn waiting_certificates_are_sent_again(
    stored: DeviceCertificateView,
    csr: Seq<char>,
    now: i64,
)
    ensures
        reusable(stored, csr, now) is Some ==> reusable(stored, csr, now)
            == stored.pending_certificate,
        reusable(stored, csr, now) is Some <==> stored.pending_csr == Some(csr)
            && stored.pending_certificate is Some && x509::info_of(
            stored.pending_certificate->0,
        ) is Ok && x509::info_of(stored.pending_certificate->0)->Ok_0.1 > now + 2592000,
{
}

/// After a failure the next try is between half a minute and an hour away, at the time that the device
/// reports where it lies between.
pub proof fn tries_are_half_a_minute_to_an_hour_apart(
    failures: u32,
    reported: Option<i64>,
    now: i64,
)
    ensures
        now + 30 <= next_try(failures, reported, now) <= now + 3600,
        reported is Some && now + 30 <= reported->0 <= now + 3600 ==> next_try(
            failures,
            reported,
            now,
        ) == reported->0,
        reported is Some && reported->0 > now + 3600 ==> next_try(failures, reported, now) == now
            + 3600,
        reported is Some && reported->0 < now + 30 ==> next_try(failures, reported, now) == now
            + 30,
        reported is None && failures <= 1 ==> next_try(failures, reported, now) == now + 30,
        reported is None && failures >= 8 ==> next_try(failures, reported, now) == now + 3600,
        now + 30 <= tries_again(failures, reported, now),
        reported is Some && now + 30 <= reported->0 ==> tries_again(failures, reported, now)
            == reported->0,
        reported is None ==> tries_again(failures, reported, now) == next_try(
            failures,
            None,
            now,
        ),
        failures < u32::MAX ==> one_more(failures) == failures + 1,
        one_more(u32::MAX) == u32::MAX,
{
    retry_delay_is_bounded_and_grows(failures as int, failures as int);
    waits_double_up_to_an_hour(failures as int);
}

/// A device asks to renew in the last thirty days of its certificate, once the wait is over; with an
/// expired certificate it cannot.
pub proof fn devices_ask_in_the_last_thirty_days(identity: DeviceIdentity, now: i64)
    requires
        x509::info_of(identity.certificate_pem@) is Ok,
    ensures
        ({
            let end = x509::info_of(identity.certificate_pem@)->Ok_0.1;
            let retry = identity.renewal_retry.next_retry_at;
            let waits = retry is Some && retry->0 > now;
            &&& asks_to_renew(identity, now) == Ok::<bool, IdentityError>(true) <==> now < end
                <= now + 2592000 && !waits
            &&& asks_to_renew(identity, now) == Ok::<bool, IdentityError>(false) <==> end > now
                + 2592000 || waits
            &&& asks_to_renew(identity, now) == Err::<bool, _>(IdentityError::Expired) <==> end
                <= now && !waits
        }),
{
}

/// A device installs a certificate of its own name with more than thirty days left, and no other.
pub proof fn devices_install_certificates_of_their_own(
    device_id: Seq<char>,
    certificate: Seq<char>,
    now: i64,
)
    ensures
        install_refusal(device_id, certificate, now) is None <==> x509::info_of(certificate) is Ok
            && x509::info_of(certificate)->Ok_0.0 == device_id && x509::info_of(
            certificate,
        )->Ok_0.1 > now + 2592000,
        x509::info_of(certificate) is Ok && install_refusal(device_id, certificate, now) is Some
            ==> install_refusal(device_id, certificate, now) == Some(IdentityError::Unsuitable),
{
}

/// A key belongs to the request that was made with it.
pub proof fn keys_belong_to_their_request(key: EnrollmentKey)
    requires
        key_asked_for(key),
    ensures
        x509::request_valid(key.csr_pem@),
        x509::request_key(key.csr_pem@) == x509::key_public(key.key_pem@),
{
}

/// A failure is noted and reported with its text, cut to what may be stored, and the same next try.
pub proof fn failures_are_noted_as_they_are_reported(
    retry: RenewalRetry,
    message: AgentControlMessage,
    failures: u32,
    error: Seq<char>,
    next: int,
)
    requires
        is_noted(retry, failures, error, next),
        is_report(message, error, next),
    ensures
        retry.failures == failures,
        retry.error is Some && retry.error->0@.len() <= 512,
        error.len() <= 512 ==> retry.error->0@ == error,
        message matches AgentControlMessage::CertificateRenewalFailed { error: told, next_retry_at }
            && told@ == retry.error->0@ && retry.next_retry_at == Some(next_retry_at)
            && next_retry_at == next,
{
}

/// An installed certificate comes with the key that was asked for with it, and ends the wait; the rest
/// of the identity stays.
pub proof fn certificates_are_installed_with_their_key(
    identity: &DeviceIdentity,
    certificate: &str,
    now: i64,
    r: Result<DeviceIdentity, IdentityError>,
)
    requires
        call_ensures(install, (identity, certificate, now), r),
    ensures
        r matches Ok(next) ==> {
            &&& next.certificate_pem@ == certificate@
            &&& identity.pending_key is Some ==> next.key_pem@ == identity.pending_key->0.key_pem@
            &&& identity.pending_key is None ==> next.key_pem@ == identity.key_pem@
            &&& next.pending_key is None
            &&& next.device_id@ == identity.device_id@ && next.server_url@ == identity.server_url@
                && next.ca_pem@ == identity.ca_pem@
            &&& next.renewal_retry.failures == 0 && next.renewal_retry.error is None
                && next.renewal_retry.next_retry_at is None
        },
        r is Ok <==> install_refusal(identity.device_id@, certificate@, now) is None,
{
}

/// A renewed certificate waits beside the one in force, which stays until it is installed; a refused
/// renewal changes nothing.
pub proof fn renewed_certificates_wait(
    authority: &Authority,
    stored: &mut DeviceCertificate,
    device: &str,
    authenticated: &str,
    csr: &str,
    now: i64,
    r: Result<String, IdentityError>,
)
    requires
        call_ensures(renew_device, (authority, stored, device, authenticated, csr, now), r),
    ensures
        final(stored)@.active_digest == old(stored)@.active_digest,
        final(stored)@.certificate_pem == old(stored)@.certificate_pem,
        r is Err ==> *final(stored) == *old(stored),
        r matches Ok(pem) ==> final(stored)@.pending_certificate == Some(pem@)
            && final(stored)@.pending_csr == Some(csr@) && old(stored)@.active_digest
            == authenticated@,
{
}

/// A failure is counted, noted and followed by a wait.
pub proof fn failures_are_counted(
    failures: u32,
    error: &str,
    reported_retry: Option<i64>,
    now: i64,
    r: (RenewalRetry, i64),
)
    requires
        call_ensures(renewal_failed, (failures, error, reported_retry, now), r),
    ensures
        failures < u32::MAX ==> r.0.failures == failures + 1,
        r.0.error is Some,
        error@.len() <= 512 ==> r.0.error->0@ == error@,
        r.0.next_retry_at == Some(r.1),
        now + 30 <= r.1 <= now + 3600,
{
    tries_are_half_a_minute_to_an_hour_apart(r.0.failures, reported_retry, now);
}

} // verus!
