//! The boundary of the public management entry: the scheme that a proxy reports counts only where
//! the proxy is trusted, writes from other sites are refused, and attempts to sign in are limited.
//!
//! The address that a proxy reports for its client is never used: all clients behind one proxy share
//! one quota, so that nobody gets around the limit by inventing addresses.
use vstd::prelude::*;

use crate::error;
use crate::error::{ApiError, FORBIDDEN, TOO_MANY_REQUESTS};
use crate::ip;
use crate::ip::{format_ip, parse_ip, IpAddr};
use crate::number;
use crate::number::decimal_text;
use crate::picked;
use crate::text;
use crate::text::{join2, join3, same, split_on, starts_with, trim};
use crate::url;
use crate::url::{parse_url, UrlParts};

verus! {

/// How many names can be counted at once.
pub const MAX_ATTEMPTS: usize = 4096;

/// How long attempts are counted, in seconds.
pub const ATTEMPT_WINDOW: i64 = 300;

/// How many requests about credentials a peer may make in one window.
pub const PEER_LIMIT: u32 = 20;

/// What is known of the transport of a request.
#[derive(Debug, Clone, Copy)]
pub struct RequestSecurity {
    pub secure: bool,
}

/// The attempts that were made under a name.
#[derive(Debug)]
pub struct Attempt {
    pub key: String,
    pub count: u32,
    /// The end of the window.
    pub until: i64,
}

/// The attempts that were made under a name.
pub ghost struct AttemptView {
    pub key: Seq<char>,
    pub count: u32,
    pub until: i64,
}

impl View for Attempt {
    type V = AttemptView;

    open spec fn view(&self) -> AttemptView {
        AttemptView { key: self.key@, count: self.count, until: self.until }
    }
}

/// The public address, the trusted proxies and the attempts that are counted.
#[derive(Debug)]
pub struct Security {
    pub public_origin: Option<String>,
    pub trusted_proxies: Vec<IpAddr>,
    pub attempts: Vec<Attempt>,
}

impl Default for Security {
    fn default() -> (r: Security)
        ensures
            r.public_origin is None,
            r.trusted_proxies@.len() == 0,
            r.attempts@.len() == 0,
    {
        Security { public_origin: None, trusted_proxies: Vec::new(), attempts: Vec::new() }
    }
}

/// Why the settings of the management entry are refused.
#[derive(Debug, Clone, PartialEq, Eq)]
pub enum SecurityError {
    /// The public address is no URL, with the reason.
    Address(String),
    /// The public address is more than the address of a site.
    Origin,
    /// A trusted proxy is no address.
    Proxy,
}

/// Why the settings of the management entry are refused, as mathematics.
pub enum SettingsFault {
    Address(Seq<char>),
    Origin,
    Proxy,
}

impl View for SecurityError {
    type V = SettingsFault;

    open spec fn view(&self) -> SettingsFault {
        match *self {
            SecurityError::Address(message) => SettingsFault::Address(message@),
            SecurityError::Origin => SettingsFault::Origin,
            SecurityError::Proxy => SettingsFault::Proxy,
        }
    }
}

impl SettingsFault {
    /// The message for the user.
    pub open spec fn text(self) -> Seq<char> {
        match self {
            SettingsFault::Address(message) => message,
            SettingsFault::Origin => {
                "NEXO_PUBLIC_URL 必须是管理入口地址，不含账号、路径或参数"@
            },
            SettingsFault::Proxy => "invalid IP address syntax"@,
        }
    }
}

impl SecurityError {
    /// The message for the user.
    pub fn message(&self) -> (r: String)
        ensures
            r@ == self@.text(),
    {
        match self {
            SecurityError::Address(message) => message.clone(),
            SecurityError::Origin => {
                "NEXO_PUBLIC_URL 必须是管理入口地址，不含账号、路径或参数".to_owned()
            },
            SecurityError::Proxy => "invalid IP address syntax".to_owned(),
        }
    }
}

/// The port that HTTP or HTTPS implies.
pub open spec fn implied_port(scheme: Seq<char>) -> u16 {
    if scheme == "https"@ {
        443
    } else {
        80
    }
}

/// The scheme and the host of an address, and its port unless the scheme implies it.
pub open spec fn origin_text(scheme: Seq<char>, host: Seq<char>, port: Option<u16>) -> Seq<char> {
    let named = scheme + "://"@ + host;
    match port {
        Some(port) if port != implied_port(scheme) => named + ":"@ + number::decimal(port as nat),
        _ => named,
    }
}

/// The origin of a public address, given its parts.
pub open spec fn origin_of(parts: Result<url::UrlView, Seq<char>>) -> Result<
    Seq<char>,
    SettingsFault,
> {
    match parts {
        Err(message) => Err(SettingsFault::Address(message)),
        Ok(parts) => if (parts.scheme == "http"@ || parts.scheme == "https"@) && parts.host is Some
            && parts.username.len() == 0 && !parts.has_password && parts.path == "/"@
            && !parts.has_query && !parts.has_fragment {
            Ok(origin_text(parts.scheme, parts.host->0, parts.port))
        } else {
            Err(SettingsFault::Origin)
        },
    }
}

/// The origin of a public address, given its parts.
pub fn public_origin(parts: Result<UrlParts, String>) -> (r: Result<String, SecurityError>)
    ensures
        match r {
            Ok(origin) => origin_of(url::read_of(parts)) == Ok::<Seq<char>, SettingsFault>(origin@),
            Err(e) => origin_of(url::read_of(parts)) == Err::<Seq<char>, SettingsFault>(e@),
        },
{
    match parts {
        Err(message) => Err(SecurityError::Address(message)),
        Ok(parts) => {
            let host: String = match parts.host {
                Some(host) => host,
                None => {
                    return Err(SecurityError::Origin);
                },
            };
            let https: bool = same(parts.scheme.as_str(), "https");
            if (https || same(parts.scheme.as_str(), "http")) && parts.username.as_str().is_empty() && !parts.has_password
                && same(parts.path.as_str(), "/") && !parts.has_query && !parts.has_fragment {
                let named: String = join3(parts.scheme.as_str(), "://", host.as_str());
                let implied: u16 = if https {
                    443
                } else {
                    80
                };
                match parts.port {
                    Some(port) if port != implied => Ok(
                        join3(named.as_str(), ":", decimal_text(port as u64).as_str()),
                    ),
                    _ => Ok(named),
                }
            } else {
                Err(SecurityError::Origin)
            }
        },
    }
}

/// The addresses that the first `n` entries of a list write; empty entries are passed over.
pub open spec fn addresses(entries: Seq<Seq<char>>, n: int) -> Option<Seq<IpAddr>>
    decreases n,
{
    if n <= 0 {
        Some(Seq::empty())
    } else {
        match addresses(entries, n - 1) {
            None => None,
            Some(list) => if text::trimmed(entries[n - 1]).len() == 0 {
                Some(list)
            } else {
                match ip::ip_of(text::trimmed(entries[n - 1])) {
                    Some(address) => Some(list.push(address)),
                    None => None,
                }
            },
        }
    }
}

/// The addresses of a list that is separated by commas.
pub open spec fn address_list(value: Seq<char>) -> Option<Seq<IpAddr>> {
    addresses(text::split(value, ','), text::split(value, ',').len() as int)
}

proof fn lemma_addresses_none(entries: Seq<Seq<char>>, k: int, n: int)
    requires
        k <= n,
        addresses(entries, k) is None,
    ensures
        addresses(entries, n) is None,
    decreases n,
{
    if n > k {
        lemma_addresses_none(entries, k, n - 1);
    }
}

/// Reads the addresses of a list that is separated by commas.
pub fn parse_addresses(value: &str) -> (r: Option<Vec<IpAddr>>)
    ensures
        match r {
            Some(list) => address_list(value@) == Some(list@),
            None => address_list(value@) is None,
        },
{
    let entries: Vec<String> = split_on(value, ',');
    let ghost all = text::split(value@, ',');
    let mut list: Vec<IpAddr> = Vec::new();
    let mut i: usize = 0;
    while i < entries.len()
        invariant
            i <= entries@.len(),
            all == text::split(value@, ','),
            all == text::views(entries@),
            addresses(all, i as int) == Some(list@),
        decreases entries@.len() - i,
    {
        assert(all[i as int] == entries@[i as int]@);
        let entry: String = trim(entries[i].as_str());
        if !entry.as_str().is_empty() {
            match parse_ip(entry.as_str()) {
                Some(address) => {
                    list.push(address);
                },
                None => {
                    proof {
                        lemma_addresses_none(all, i + 1, all.len() as int);
                    }
                    return None;
                },
            }
        }
        i = i + 1;
    }
    Some(list)
}

/// Those of the first `n` names whose window has not ended.
pub open spec fn running(list: Seq<AttemptView>, now: i64, n: int) -> Seq<AttemptView>
    decreases n,
{
    if n <= 0 {
        Seq::empty()
    } else if list[n - 1].until > now {
        running(list, now, n - 1).push(list[n - 1])
    } else {
        running(list, now, n - 1)
    }
}

/// The position of the first name from position `i` on that is `key`.
pub open spec fn key_from(list: Seq<AttemptView>, key: Seq<char>, i: int) -> Option<int>
    decreases list.len() - i,
{
    if i < 0 || i >= list.len() {
        None
    } else if list[i].key == key {
        Some(i)
    } else {
        key_from(list, key, i + 1)
    }
}

/// Whether an attempt is allowed, given the names whose windows run: one of a name that is counted
/// while its count is below the limit, one of a new name while there is room for names.
pub open spec fn attempt_allowed(live: Seq<AttemptView>, key: Seq<char>, limit: u32) -> bool {
    match key_from(live, key, 0) {
        Some(k) => live[k].count < limit,
        None => live.len() < MAX_ATTEMPTS && limit > 0,
    }
}

/// The names after an attempt, given those whose windows run.
pub open spec fn attempted(live: Seq<AttemptView>, key: Seq<char>, limit: u32, now: i64) -> Seq<
    AttemptView,
> {
    match key_from(live, key, 0) {
        Some(k) => if live[k].count < limit {
            live.update(k, AttemptView { count: (live[k].count + 1) as u32, ..live[k] })
        } else {
            live
        },
        None => if live.len() >= MAX_ATTEMPTS {
            live
        } else {
            live.push(
                AttemptView {
                    key,
                    count: if limit > 0 {
                        1
                    } else {
                        0
                    },
                    until: (now + ATTEMPT_WINDOW) as i64,
                },
            )
        },
    }
}

/// The names that are counted.
pub open spec fn attempts_of(list: Seq<Attempt>) -> Seq<AttemptView> {
    Seq::new(list.len(), |i: int| list[i]@)
}

/// Whether no name is counted twice.
pub open spec fn keys_differ(list: Seq<AttemptView>) -> bool {
    forall|i: int, j: int|
        0 <= i < j < list.len() ==> (#[trigger] list[i]).key != (#[trigger] list[j]).key
}

/// Whether the names that are counted are few enough and none is counted twice.
pub open spec fn bounded(list: Seq<AttemptView>) -> bool {
    list.len() <= MAX_ATTEMPTS && keys_differ(list)
}

/// The settings after they were read from their texts; an empty address counts as none.
pub open spec fn settings_refusal(
    public_url: Option<Seq<char>>,
    proxies: Option<Seq<char>>,
) -> Option<SettingsFault> {
    if public_url matches Some(value) && value.len() > 0 && origin_of(url::url_of(value)) is Err {
        Some(origin_of(url::url_of(public_url->0))->Err_0)
    } else if proxies matches Some(value) && address_list(value) is None {
        Some(SettingsFault::Proxy)
    } else {
        None
    }
}

impl Security {
    /// Reads the settings of the management entry: its public address and the trusted proxies.
    pub fn from_env(public_url: Option<&str>, proxies: Option<&str>) -> (r: Result<
        Security,
        SecurityError,
    >)
        ensures
            match r {
                Err(e) => settings_refusal(text::opt_str(public_url), text::opt_str(proxies))
                    == Some(e@),
                Ok(s) => settings_refusal(text::opt_str(public_url), text::opt_str(proxies)) is None
                    && s.attempts@.len() == 0 && (match public_url {
                    Some(value) if value@.len() > 0 => text::opt(s.public_origin) == Some(
                        origin_of(url::url_of(value@))->Ok_0,
                    ),
                    _ => s.public_origin is None,
                }) && (match proxies {
                    Some(value) => address_list(value@) == Some(s.trusted_proxies@),
                    None => s.trusted_proxies@.len() == 0,
                }),
            },
    {
        let origin: Option<String> = match public_url {
            Some(value) => if value.is_empty() {
                None
            } else {
                match public_origin(parse_url(value)) {
                    Ok(origin) => Some(origin),
                    Err(e) => {
                        return Err(e);
                    },
                }
            },
            None => None,
        };
        let trusted_proxies: Vec<IpAddr> = match proxies {
            Some(value) => match parse_addresses(value) {
                Some(list) => list,
                None => {
                    return Err(SecurityError::Proxy);
                },
            },
            None => Vec::new(),
        };
        Ok(Security { public_origin: origin, trusted_proxies, attempts: Vec::new() })
    }

    /// Whether a request came in over HTTPS: a trusted proxy says so, once.
    pub open spec fn is_secure(self, peer: Option<IpAddr>, forwarded: Seq<Seq<char>>) -> bool {
        peer is Some && self.trusted_proxies@.contains(peer->0) && forwarded.len() == 1
            && forwarded[0] == "https"@
    }

    /// Whether a request came in over HTTPS, given the values that it carries for the scheme.
    pub fn secure(&self, peer: Option<IpAddr>, forwarded: &Vec<String>) -> (r: bool)
        ensures
            r == self.is_secure(peer, text::views(forwarded@)),
    {
        let address: IpAddr = match peer {
            Some(address) => address,
            None => {
                return false;
            },
        };
        let mut trusted: bool = false;
        let mut i: usize = 0;
        while i < self.trusted_proxies.len()
            invariant
                i <= self.trusted_proxies@.len(),
                trusted == (exists|j: int| 0 <= j < i && self.trusted_proxies@[j] == address),
            decreases self.trusted_proxies@.len() - i,
        {
            if self.trusted_proxies[i] == address {
                assert(self.trusted_proxies@[i as int] == address);
                trusted = true;
            }
            i = i + 1;
        }
        proof {
            if trusted {
                let j = choose|j: int|
                    0 <= j < self.trusted_proxies@.len() && self.trusted_proxies@[j] == address;
                assert(self.trusted_proxies@.contains(address));
            }
        }
        if !trusted || forwarded.len() != 1 {
            return false;
        }
        assert(text::views(forwarded@)[0] == forwarded@[0]@);
        same(forwarded[0].as_str(), "https")
    }

    /// Counts an attempt under a name and says whether it is allowed. It is counted before anything
    /// is checked, so that attempts at the same time cannot slip through.
    pub fn allow(&mut self, key: String, limit: u32, now: i64) -> (r: bool)
        requires
            now + ATTEMPT_WINDOW <= i64::MAX,
        ensures
            final(self).public_origin == old(self).public_origin,
            final(self).trusted_proxies == old(self).trusted_proxies,
            ({
                let list = attempts_of(old(self).attempts@);
                let live = running(list, now, list.len() as int);
                &&& r == attempt_allowed(live, key@, limit)
                &&& attempts_of(final(self).attempts@) == attempted(live, key@, limit, now)
            }),
    {
        let mut live: Vec<Attempt> = Vec::new();
        let ghost all = attempts_of(self.attempts@);
        let mut i: usize = 0;
        assert(attempts_of(live@) =~= running(all, now, 0));
        while i < self.attempts.len()
            invariant
                i <= self.attempts@.len(),
                *self == *old(self),
                all == attempts_of(self.attempts@),
                attempts_of(live@) == running(all, now, i as int),
            decreases self.attempts@.len() - i,
        {
            assert(all[i as int] == self.attempts@[i as int]@);
            let ghost before = attempts_of(live@);
            if self.attempts[i].until > now {
                let one = Attempt {
                    key: self.attempts[i].key.clone(),
                    count: self.attempts[i].count,
                    until: self.attempts[i].until,
                };
                live.push(one);
                assert(attempts_of(live@) =~= before.push(all[i as int]));
            }
            i = i + 1;
        }
        self.attempts = live;
        self.count(key, limit, now)
    }

    fn count(&mut self, key: String, limit: u32, now: i64) -> (r: bool)
        requires
            now + ATTEMPT_WINDOW <= i64::MAX,
        ensures
            final(self).public_origin == old(self).public_origin,
            final(self).trusted_proxies == old(self).trusted_proxies,
            r == attempt_allowed(attempts_of(old(self).attempts@), key@, limit),
            attempts_of(final(self).attempts@) == attempted(
                attempts_of(old(self).attempts@),
                key@,
                limit,
                now,
            ),
    {
        let ghost live = attempts_of(self.attempts@);
        let mut i: usize = 0;
        while i < self.attempts.len()
            invariant
                i <= self.attempts@.len(),
                *self == *old(self),
                live == attempts_of(self.attempts@),
                key_from(live, key@, 0) == key_from(live, key@, i as int),
            decreases self.attempts@.len() - i,
        {
            assert(live[i as int] == self.attempts@[i as int]@);
            if same(self.attempts[i].key.as_str(), key.as_str()) {
                if self.attempts[i].count >= limit {
                    return false;
                }
                let until: i64 = self.attempts[i].until;
                let count: u32 = self.attempts[i].count + 1;
                self.attempts.set(i, Attempt { key, count, until });
                assert(attempts_of(self.attempts@) =~= attempted(live, key@, limit, now));
                return true;
            }
            i = i + 1;
        }
        if self.attempts.len() >= MAX_ATTEMPTS {
            return false;
        }
        let ghost name = key@;
        self.attempts.push(
            Attempt {
                key,
                count: if limit > 0 {
                    1
                } else {
                    0
                },
                until: now + ATTEMPT_WINDOW,
            },
        );
        assert(attempts_of(self.attempts@) =~= attempted(live, name, limit, now));
        limit > 0
    }
}

proof fn lemma_key_from(list: Seq<AttemptView>, key: Seq<char>, i: int)
    requires
        0 <= i,
    ensures
        match key_from(list, key, i) {
            Some(k) => i <= k < list.len() && list[k].key == key,
            None => forall|j: int| i <= j < list.len() ==> (#[trigger] list[j]).key != key,
        },
    decreases list.len() - i,
{
    if i < list.len() {
        lemma_key_from(list, key, i + 1);
    }
}

proof fn lemma_running(list: Seq<AttemptView>, now: i64, n: int)
    requires
        0 <= n <= list.len(),
        keys_differ(list),
    ensures
        running(list, now, n).len() <= n,
        keys_differ(running(list, now, n)),
        forall|j: int|
            0 <= j < running(list, now, n).len() ==> (#[trigger] running(list, now, n)[j]).until
                > now && exists|i: int| 0 <= i < n && list[i] == running(list, now, n)[j],
    decreases n,
{
    if n > 0 {
        lemma_running(list, now, n - 1);
        let before = running(list, now, n - 1);
        let after = running(list, now, n);
        assert forall|j: int| 0 <= j < after.len() implies (#[trigger] after[j]).until > now
            && exists|i: int| 0 <= i < n && list[i] == after[j] by {
            if j < before.len() {
                assert(after[j] == before[j]);
                let i = choose|i: int| 0 <= i < n - 1 && list[i] == before[j];
                assert(list[i] == after[j]);
            } else {
                assert(list[n - 1] == after[j]);
            }
        }
        assert forall|i: int, j: int| 0 <= i < j < after.len() implies (#[trigger] after[i]).key
            != (#[trigger] after[j]).key by {
            assert(after[i] == before[i]);
            if j < before.len() {
                assert(after[j] == before[j]);
            } else {
                let p = choose|p: int| 0 <= p < n - 1 && list[p] == before[i];
                assert(list[p].key != list[n - 1].key);
            }
        }
    }
}

/// The memory for attempts is bounded: whatever is attempted, no more than a fixed number of names
/// is counted, and none twice.
pub proof fn attempts_stay_bounded(
    list: Seq<AttemptView>,
    key: Seq<char>,
    limit: u32,
    now: i64,
)
    requires
        bounded(list),
    ensures
        bounded(attempted(running(list, now, list.len() as int), key, limit, now)),
{
    let live = running(list, now, list.len() as int);
    let after = attempted(live, key, limit, now);
    lemma_running(list, now, list.len() as int);
    lemma_key_from(live, key, 0);
    assert forall|i: int, j: int| 0 <= i < j < after.len() implies (#[trigger] after[i]).key != (
    #[trigger] after[j]).key by {
        if j < live.len() {
            assert(live[i].key != live[j].key);
        }
    }
}

/// Each attempt that is allowed counts once, for its own name and for no other, and no count gets
/// beyond the limit.
pub proof fn attempts_count_once(live: Seq<AttemptView>, key: Seq<char>, limit: u32, now: i64)
    requires
        bounded(live),
        attempt_allowed(live, key, limit),
        now + ATTEMPT_WINDOW <= i64::MAX,
    ensures
        ({
            let after = attempted(live, key, limit, now);
            &&& key_from(after, key, 0) matches Some(k)
            &&& after[k].count <= limit
            &&& after[k].count == 1 + (match key_from(live, key, 0) {
                Some(before) => live[before].count as int,
                None => 0,
            })
            &&& forall|i: int|
                0 <= i < live.len() && (#[trigger] live[i]).key != key ==> after[i] == live[i]
        }),
{
    let after = attempted(live, key, limit, now);
    lemma_key_from(live, key, 0);
    lemma_key_from(after, key, 0);
    match key_from(live, key, 0) {
        Some(k) => {
            assert(after[k].key == key);
            let found = key_from(after, key, 0);
            assert(found is Some);
            if found->0 != k {
                assert(live[found->0].key == key);
                if found->0 < k {
                    assert(live[found->0].key != live[k].key);
                } else {
                    assert(live[k].key != live[found->0].key);
                }
            }
        },
        None => {
            assert(after[live.len() as int].key == key);
            let found = key_from(after, key, 0);
            assert(found is Some);
            if found->0 < live.len() {
                assert(live[found->0].key == key);
            }
        },
    }
}

/// A name whose attempts are used up is refused until its window ends; once it has ended, the name
/// starts anew.
pub proof fn used_up_names_wait(
    list: Seq<AttemptView>,
    k: int,
    limit: u32,
    now: i64,
)
    requires
        bounded(list),
        0 <= k < list.len(),
        list[k].count >= limit,
        limit > 0,
    ensures
        now < list[k].until ==> !attempt_allowed(
            running(list, now, list.len() as int),
            list[k].key,
            limit,
        ),
        now >= list[k].until ==> attempt_allowed(
            running(list, now, list.len() as int),
            list[k].key,
            limit,
        ),
{
    let n = list.len() as int;
    let live = running(list, now, n);
    let key = list[k].key;
    lemma_running(list, now, n);
    lemma_key_from(live, key, 0);
    if now < list[k].until {
        lemma_still_running(list, now, n, k);
        let j = choose|j: int| 0 <= j < live.len() && live[j] == list[k];
        assert(live[j].key == key);
        let found = key_from(live, key, 0);
        assert(found is Some);
        if found->0 != j {
            if found->0 < j {
                assert(live[found->0].key != live[j].key);
            } else {
                assert(live[j].key != live[found->0].key);
            }
        }
    } else {
        if key_from(live, key, 0) is Some {
            let f = key_from(live, key, 0)->0;
            let p = choose|p: int| 0 <= p < n && list[p] == live[f];
            assert(list[p].key == key);
            if p < k {
                assert(list[p].key != list[k].key);
            } else if p > k {
                assert(list[k].key != list[p].key);
            }
        }
        lemma_room(list, now, n, k);
    }
}

proof fn lemma_still_running(list: Seq<AttemptView>, now: i64, n: int, k: int)
    requires
        0 <= k < n <= list.len(),
        list[k].until > now,
    ensures
        exists|j: int| 0 <= j < running(list, now, n).len() && running(list, now, n)[j] == list[k],
    decreases n,
{
    let after = running(list, now, n);
    if k == n - 1 {
        assert(after[after.len() - 1] == list[k]);
    } else {
        lemma_still_running(list, now, n - 1, k);
        let before = running(list, now, n - 1);
        let j = choose|j: int| 0 <= j < before.len() && before[j] == list[k];
        assert(after[j] == list[k]);
    }
}

proof fn lemma_room(list: Seq<AttemptView>, now: i64, n: int, k: int)
    requires
        0 <= k < n <= list.len(),
        list[k].until <= now,
    ensures
        running(list, now, n).len() < n,
    decreases n,
{
    if k < n - 1 {
        lemma_room(list, now, n - 1, k);
    } else {
        lemma_running_len(list, now, n - 1);
    }
}

proof fn lemma_running_len(list: Seq<AttemptView>, now: i64, n: int)
    requires
        0 <= n <= list.len(),
    ensures
        running(list, now, n).len() <= n,
    decreases n,
{
    if n > 0 {
        lemma_running_len(list, now, n - 1);
    }
}

/// The answer when too many attempts were made.
pub fn limited() -> (r: ApiError)
    ensures
        error::told(r) == error::refusal(
            TOO_MANY_REQUESTS,
            "尝试次数过多，请 5 分钟后重试",
        ),
{
    ApiError::new(TOO_MANY_REQUESTS, "尝试次数过多，请 5 分钟后重试")
}

/// What a quota is for.
#[derive(Debug, Clone, Copy, PartialEq, Eq, Structural)]
pub enum Quota {
    /// Changes of a password.
    Password,
    /// Checks of the names of a domain.
    Resolution,
    /// Checks of the proof that a domain belongs to a user.
    DomainProof,
    /// Credentials that are handed in for a domain.
    DomainCredential,
}

impl Quota {
    /// How often in one window.
    pub open spec fn limit(self) -> u32 {
        match self {
            Quota::Password => 10,
            Quota::Resolution => 30,
            Quota::DomainProof => 20,
            Quota::DomainCredential => 10,
        }
    }

    /// The name under which the attempts of a user are counted.
    pub open spec fn key(self, user: Seq<char>) -> Seq<char> {
        match self {
            Quota::Password => "password:"@ + user,
            Quota::Resolution => "dns:"@ + user,
            Quota::DomainProof => "domain-proof:"@ + user,
            Quota::DomainCredential => "domain-credential:"@ + user,
        }
    }
}

/// How often an account may be tried in one window.
pub const LOGIN_LIMIT: u32 = 10;

/// Counts an attempt of a user against a quota, or refuses it.
pub fn check_quota(security: &mut Security, quota: Quota, user: &str, now: i64) -> (r: Result<
    (),
    ApiError,
>)
    requires
        now + ATTEMPT_WINDOW <= i64::MAX,
    ensures
        final(security).public_origin == old(security).public_origin,
        final(security).trusted_proxies == old(security).trusted_proxies,
        ({
            let list = attempts_of(old(security).attempts@);
            let live = running(list, now, list.len() as int);
            let key = quota.key(user@);
            &&& attempts_of(final(security).attempts@) == attempted(live, key, quota.limit(), now)
            &&& match r {
                Ok(_) => attempt_allowed(live, key, quota.limit()),
                Err(e) => !attempt_allowed(live, key, quota.limit()) && error::told(e)
                    == error::refusal(
                    TOO_MANY_REQUESTS,
                    "尝试次数过多，请 5 分钟后重试",
                ),
            }
        }),
{
    let (prefix, limit): (&str, u32) = match quota {
        Quota::Password => ("password:", 10),
        Quota::Resolution => ("dns:", 30),
        Quota::DomainProof => ("domain-proof:", 20),
        Quota::DomainCredential => ("domain-credential:", 10),
    };
    if security.allow(join2(prefix, user), limit, now) {
        Ok(())
    } else {
        Err(limited())
    }
}

/// What the boundary reads of a request.
#[derive(Debug, Clone)]
pub struct Boundary {
    pub peer: Option<IpAddr>,
    /// The values that the request carries for the scheme.
    pub forwarded: Vec<String>,
    pub path: String,
    pub method: String,
    /// The origin header, where there is one; `Some(None)` where it is no text.
    pub origin: Option<Option<String>>,
    /// The host header, where there is one that is text.
    pub host: Option<String>,
}

/// Whether a path is limited: one that takes a password, a code or the secret of an invitation.
pub open spec fn limited_path(path: Seq<char>) -> bool {
    path == "/api/v1/auth/login"@ || path == "/api/v1/auth/initialize"@ || path
        == "/api/v1/auth/recover"@ || path == "/api/v1/auth/invitations/inspect"@ || path
        == "/api/v1/auth/invitations/accept"@
}

/// The origin that a browser has to name when it writes.
pub open spec fn expected_origin(
    public: Option<Seq<char>>,
    host: Option<Seq<char>>,
    secure: bool,
) -> Seq<char> {
    match public {
        Some(origin) => origin,
        None => (if secure {
            "https"@
        } else {
            "http"@
        }) + "://"@ + (match host {
            Some(host) => host,
            None => Seq::empty(),
        }),
    }
}

/// The name under which the attempts of a peer are counted.
pub open spec fn peer_key(peer: Option<IpAddr>) -> Seq<char> {
    match peer {
        Some(address) => "ip:Some("@ + ip::ip_text(address) + ")"@,
        None => "ip:None"@,
    }
}

/// Why a request is refused before it is counted, if it is.
pub open spec fn boundary_refusal(
    public: Option<Seq<char>>,
    request: Boundary,
    secure: bool,
) -> Option<error::Refusal> {
    if !text::has_prefix(request.path@, "/api/"@) {
        None
    } else if public matches Some(origin) && text::has_prefix(origin, "https://"@) && !secure {
        error::refusal(
            FORBIDDEN,
            "管理入口要求 HTTPS，请检查可信反向代理配置",
        )
    } else if request.method@ != "GET"@ && request.method@ != "HEAD"@ && (
    request.origin matches Some(origin) && text::opt(origin) != Some(
        expected_origin(public, text::opt(request.host), secure),
    )) {
        error::refusal(
            FORBIDDEN,
            "请求来源不匹配，请从管理入口重新打开页面",
        )
    } else {
        None
    }
}

/// Whether a request is counted against the quota of its peer.
pub open spec fn counted(request: Boundary) -> bool {
    request.method@ == "POST"@ && limited_path(request.path@)
}

fn format_peer_key(peer: Option<IpAddr>) -> (r: String)
    ensures
        r@ == peer_key(peer),
{
    match peer {
        Some(address) => {
            let shown: String = format_ip(&address);
            join3("ip:Some(", shown.as_str(), ")")
        },
        None => "ip:None".to_owned(),
    }
}

fn format_expected_origin(public: &Option<String>, host: &Option<String>, secure: bool) -> (r:
    String)
    ensures
        r@ == expected_origin(text::opt(*public), text::opt(*host), secure),
{
    match public {
        Some(origin) => origin.clone(),
        None => {
            let scheme: String = join2(
                if secure {
                    "https"
                } else {
                    "http"
                },
                "://",
            );
            match host {
                Some(host) => join2(scheme.as_str(), host.as_str()),
                None => {
                    assert(scheme@ + Seq::<char>::empty() =~= scheme@);
                    scheme
                },
            }
        },
    }
}

proof fn lemma_limited_paths(path: Seq<char>)
    requires
        limited_path(path),
    ensures
        text::has_prefix(path, "/api/"@),
{
    reveal_strlit("/api/");
    reveal_strlit("/api/v1/auth/login");
    reveal_strlit("/api/v1/auth/initialize");
    reveal_strlit("/api/v1/auth/recover");
    reveal_strlit("/api/v1/auth/invitations/inspect");
    reveal_strlit("/api/v1/auth/invitations/accept");
    assert(path.subrange(0, 5) =~= "/api/"@);
}

/// Decides on a request at the boundary, before anything else looks at it.
pub fn protect(security: &mut Security, request: &Boundary, now: i64) -> (r: Result<
    RequestSecurity,
    ApiError,
>)
    requires
        now + ATTEMPT_WINDOW <= i64::MAX,
    ensures
        final(security).public_origin == old(security).public_origin,
        final(security).trusted_proxies == old(security).trusted_proxies,
        ({
            let secure = old(security).is_secure(request.peer, text::views(request.forwarded@));
            let refusal = boundary_refusal(text::opt(old(security).public_origin), *request, secure);
            let list = attempts_of(old(security).attempts@);
            let live = running(list, now, list.len() as int);
            let key = peer_key(request.peer);
            let counts = refusal is None && counted(*request);
            &&& attempts_of(final(security).attempts@) == (if counts {
                attempted(live, key, PEER_LIMIT, now)
            } else {
                list
            })
            &&& match r {
                Ok(known) => refusal is None && known.secure == secure && (counts
                    ==> attempt_allowed(live, key, PEER_LIMIT)),
                Err(e) => if refusal is Some {
                    refusal == error::told(e)
                } else {
                    counts && !attempt_allowed(live, key, PEER_LIMIT) && error::told(e)
                        == error::refusal(
                        TOO_MANY_REQUESTS,
                        "尝试次数过多，请 5 分钟后重试",
                    )
                },
            }
        }),
{
    let secure: bool = security.secure(request.peer, &request.forwarded);
    let path: &str = request.path.as_str();
    if starts_with(path, "/api/") {
        if let Some(origin) = &security.public_origin {
            if starts_with(origin.as_str(), "https://") && !secure {
                return Err(
                    ApiError::new(
                        FORBIDDEN,
                        "管理入口要求 HTTPS，请检查可信反向代理配置",
                    ),
                );
            }
        }
        let method: &str = request.method.as_str();
        if !same(method, "GET") && !same(method, "HEAD") {
            if let Some(origin) = &request.origin {
                let expected: String = format_expected_origin(
                    &security.public_origin,
                    &request.host,
                    secure,
                );
                if !text::is_text(origin, expected.as_str()) {
                    return Err(
                        ApiError::new(
                            FORBIDDEN,
                            "请求来源不匹配，请从管理入口重新打开页面",
                        ),
                    );
                }
            }
        }
        if same(method, "POST") && (same(path, "/api/v1/auth/login") || same(
            path,
            "/api/v1/auth/initialize",
        ) || same(path, "/api/v1/auth/recover") || same(path, "/api/v1/auth/invitations/inspect")
            || same(path, "/api/v1/auth/invitations/accept")) {
            let key: String = format_peer_key(request.peer);
            if !security.allow(key, PEER_LIMIT, now) {
                return Err(limited());
            }
        }
    } else {
        proof {
            if limited_path(path@) {
                lemma_limited_paths(path@);
            }
        }
    }
    Ok(RequestSecurity { secure })
}

/// The headers that every answer gets: answers of the interface are never stored.
pub open spec fn answer_headers(path: Seq<char>) -> Seq<(Seq<char>, Seq<char>)> {
    let always = seq![
        ("x-content-type-options"@, "nosniff"@),
        ("referrer-policy"@, "same-origin"@),
    ];
    if text::has_prefix(path, "/api/"@) {
        seq![("cache-control"@, "no-store"@)] + always
    } else {
        always
    }
}

/// The headers that every answer gets.
pub fn protective_headers(path: &str) -> (r: Vec<(&'static str, &'static str)>)
    ensures
        Seq::new(r@.len(), |i: int| (r@[i].0@, r@[i].1@)) == answer_headers(path@),
{
    let mut headers: Vec<(&'static str, &'static str)> = Vec::new();
    if starts_with(path, "/api/") {
        headers.push(("cache-control", "no-store"));
    }
    headers.push(("x-content-type-options", "nosniff"));
    headers.push(("referrer-policy", "same-origin"));
    assert(Seq::new(headers@.len(), |i: int| (headers@[i].0@, headers@[i].1@)) =~= answer_headers(
        path@,
    ));
    headers
}

/// The public address is a site over HTTP or HTTPS, without an account, a path, a query or a fragment,
/// and nothing else is accepted.
pub proof fn public_addresses_are_plain_sites(parts: url::UrlView)
    ensures
        origin_of(Ok(parts)) is Ok <==> (parts.scheme == "http"@ || parts.scheme == "https"@)
            && parts.host is Some && parts.username.len() == 0 && !parts.has_password && parts.path
            == "/"@ && !parts.has_query && !parts.has_fragment,
        origin_of(Ok(parts)) is Err ==> origin_of(Ok(parts))->Err_0 is Origin,
        origin_of(Ok(parts)) is Ok && (parts.port is None || (parts.scheme == "https"@
            && parts.port == Some(443u16)) || (parts.scheme == "http"@ && parts.port == Some(80u16)))
            ==> origin_of(Ok(parts))->Ok_0 == parts.scheme + "://"@ + parts.host->0,
        origin_of(Ok(parts)) is Ok && parts.port is Some && (parts.scheme == "https"@
            ==> parts.port != Some(443u16)) && (parts.scheme == "http"@ ==> parts.port != Some(
            80u16,
        )) ==> origin_of(Ok(parts))->Ok_0 == parts.scheme + "://"@ + parts.host->0 + ":"@
            + number::decimal(parts.port->0 as nat),
{
    reveal_strlit("http");
    reveal_strlit("https");
    assert("http"@.len() != "https"@.len());
}

proof fn lemma_address_kept(entries: Seq<Seq<char>>, n: int, k: int)
    requires
        0 <= k < n <= entries.len(),
        addresses(entries, n) is Some,
        text::trimmed(entries[k]).len() > 0,
    ensures
        ip::ip_of(text::trimmed(entries[k])) is Some,
        addresses(entries, n)->0.contains(ip::ip_of(text::trimmed(entries[k]))->0),
    decreases n,
{
    let before = addresses(entries, n - 1)->0;
    let all = addresses(entries, n)->0;
    if k < n - 1 {
        lemma_address_kept(entries, n - 1, k);
        let address = ip::ip_of(text::trimmed(entries[k]))->0;
        let j = choose|j: int| 0 <= j < before.len() && before[j] == address;
        assert(all[j] == address);
    } else {
        assert(all[before.len() as int] == ip::ip_of(text::trimmed(entries[k]))->0);
    }
}

proof fn lemma_address_from(entries: Seq<Seq<char>>, n: int, j: int) -> (k: int)
    requires
        0 <= n <= entries.len(),
        addresses(entries, n) is Some,
        0 <= j < addresses(entries, n)->0.len(),
    ensures
        0 <= k < n,
        ip::ip_of(text::trimmed(entries[k])) == Some(addresses(entries, n)->0[j]),
    decreases n,
{
    let before = addresses(entries, n - 1)->0;
    if n > 0 && j < before.len() {
        lemma_address_from(entries, n - 1, j)
    } else {
        n - 1
    }
}

proof fn lemma_addresses_some(entries: Seq<Seq<char>>, n: int)
    requires
        0 <= n <= entries.len(),
        forall|k: int|
            0 <= k < n && text::trimmed(#[trigger] entries[k]).len() > 0 ==> ip::ip_of(
                text::trimmed(entries[k]),
            ) is Some,
    ensures
        addresses(entries, n) is Some,
    decreases n,
{
    if n > 0 {
        lemma_addresses_some(entries, n - 1);
        assert(text::trimmed(entries[n - 1]).len() > 0 ==> ip::ip_of(
            text::trimmed(entries[n - 1]),
        ) is Some);
    }
}

/// A list of addresses is accepted where each of its entries that is not blank is one, and holds those.
pub proof fn lists_hold_addresses_alone(entries: Seq<Seq<char>>)
    ensures
        ({
            let n = entries.len() as int;
            &&& addresses(entries, n) is Some <==> forall|k: int|
                0 <= k < n && text::trimmed(#[trigger] entries[k]).len() > 0 ==> ip::ip_of(
                    text::trimmed(entries[k]),
                ) is Some
            &&& addresses(entries, n) is Some ==> forall|k: int|
                0 <= k < n && text::trimmed(#[trigger] entries[k]).len() > 0 ==> addresses(
                    entries,
                    n,
                )->0.contains(ip::ip_of(text::trimmed(entries[k]))->0)
            &&& addresses(entries, n) is Some ==> forall|address: IpAddr| #[trigger]
                addresses(entries, n)->0.contains(address) ==> exists|k: int|
                    0 <= k < n && ip::ip_of(text::trimmed(#[trigger] entries[k])) == Some(address)
        }),
{
    let n = entries.len() as int;
    if addresses(entries, n) is Some {
        assert forall|k: int|
            0 <= k < n && text::trimmed(#[trigger] entries[k]).len() > 0 implies ip::ip_of(
            text::trimmed(entries[k]),
        ) is Some && addresses(entries, n)->0.contains(
            ip::ip_of(text::trimmed(entries[k]))->0,
        ) by {
            lemma_address_kept(entries, n, k);
        }
        let all = addresses(entries, n)->0;
        assert forall|address: IpAddr| #[trigger] all.contains(address) implies exists|k: int|
            0 <= k < n && ip::ip_of(text::trimmed(#[trigger] entries[k])) == Some(address) by {
            let j = choose|j: int| 0 <= j < all.len() && all[j] == address;
            let k = lemma_address_from(entries, n, j);
            assert(ip::ip_of(text::trimmed(entries[k])) == Some(address));
        }
    }
    if forall|k: int|
        0 <= k < n && text::trimmed(#[trigger] entries[k]).len() > 0 ==> ip::ip_of(
            text::trimmed(entries[k]),
        ) is Some {
        lemma_addresses_some(entries, n);
    }
}

proof fn lemma_picks_attempts(list: Seq<AttemptView>, now: i64, n: int, keep: spec_fn(int) -> bool, value: spec_fn(int) -> AttemptView)
    requires
        forall|i: int|
            0 <= i < n ==> #[trigger] keep(i) == (list[i].until > now) && value(i) == (list[i]),
    ensures
        running(list, now, n) == picked::picked(keep, value, n),
    decreases n,
{
    if n > 0 {
        assert(keep(n - 1) || !keep(n - 1));
        lemma_picks_attempts(list, now, n - 1, keep, value);
    }
}

/// Attempts count while their window lasts, and no longer.
pub proof fn attempts_count_while_their_window_lasts(list: Seq<AttemptView>, now: i64)
    ensures
        forall|attempt: AttemptView| #[trigger]
            running(list, now, list.len() as int).contains(attempt) <==> exists|i: int|
                0 <= i < list.len() && #[trigger] list[i] == attempt && attempt.until > now,
{
    let n = list.len() as int;
    let keep = |i: int| list[i].until > now;
    let value = |i: int| list[i];
    lemma_picks_attempts(list, now, n, keep, value);
    assert forall|attempt: AttemptView| #[trigger] running(list, now, n).contains(attempt) <==> exists|i: int|
        0 <= i < list.len() && #[trigger] list[i] == attempt && attempt.until > now by {
        picked::lemma_picked_contains(keep, value, n, attempt);
        if running(list, now, n).contains(attempt) {
            let i = choose|i: int| 0 <= i < n && #[trigger] keep(i) && value(i) == attempt;
            assert(list[i] == list[i]);
        }
        if exists|i: int| 0 <= i < list.len() && #[trigger] list[i] == attempt && attempt.until > now {
            let i = choose|i: int| 0 <= i < list.len() && #[trigger] list[i] == attempt && attempt.until > now;
            assert(keep(i) && value(i) == attempt);
        }
    }
}

/// A name has its attempts up to the limit, counted in one window of five minutes that starts with the
/// first; a new name has one while fewer than 4096 are kept.
pub proof fn names_have_their_attempts(
    live: Seq<AttemptView>,
    key: Seq<char>,
    limit: u32,
    now: i64,
)
    requires
        bounded(live),
        now + 300 <= i64::MAX,
    ensures
        (forall|i: int| 0 <= i < live.len() ==> (#[trigger] live[i]).key != key) ==> (
        attempt_allowed(live, key, limit) <==> live.len() < 4096 && limit > 0),
        (forall|i: int| 0 <= i < live.len() ==> (#[trigger] live[i]).key != key) && live.len()
            < 4096 && limit > 0 ==> attempted(live, key, limit, now) == live.push(
            AttemptView { key, count: 1, until: (now + 300) as i64 },
        ),
        forall|i: int|
            0 <= i < live.len() && (#[trigger] live[i]).key == key ==> (attempt_allowed(
                live,
                key,
                limit,
            ) <==> live[i].count < limit) && attempted(live, key, limit, now).len() == live.len()
                && attempted(live, key, limit, now)[i].key == key && attempted(
                live,
                key,
                limit,
                now,
            )[i].until == live[i].until && attempted(live, key, limit, now)[i].count == (
            if live[i].count < limit {
                live[i].count + 1
            } else {
                live[i].count as int
            }),
        !attempt_allowed(live, key, limit) && limit > 0 ==> attempted(live, key, limit, now)
            == live,
{
    lemma_key_place(live, key, 0);
    assert forall|i: int| 0 <= i < live.len() && (#[trigger] live[i]).key == key implies key_from(
        live,
        key,
        0,
    ) == Some(i) by {
        let k = key_from(live, key, 0)->0;
        if k < i {
            assert(live[k].key != live[i].key);
        } else if i < k {
            assert(live[i].key != live[k].key);
        }
    }
}

proof fn lemma_key_place(list: Seq<AttemptView>, key: Seq<char>, i: int)
    requires
        0 <= i <= list.len(),
    ensures
        key_from(list, key, i) is Some ==> i <= key_from(list, key, i)->0 < list.len()
            && list[key_from(list, key, i)->0].key == key,
        key_from(list, key, i) is None <==> forall|k: int|
            i <= k < list.len() ==> (#[trigger] list[k]).key != key,
    decreases list.len() - i,
{
    if i < list.len() {
        lemma_key_place(list, key, i + 1);
    }
}

/// The settings are accepted where the public address, if one is given, is a plain site and the list of
/// proxies holds addresses alone.
pub proof fn settings_are_accepted_where_both_can_be_read(
    public_url: Option<Seq<char>>,
    proxies: Option<Seq<char>>,
)
    ensures
        settings_refusal(public_url, proxies) is None <==> (public_url is Some
            && public_url->0.len() > 0 ==> origin_of(url::url_of(public_url->0)) is Ok) && (proxies
            is Some ==> address_list(proxies->0) is Some),
{
}

/// A request is secure where a trusted proxy says so, once; without one it never is.
pub proof fn only_trusted_proxies_tell_of_https(
    security: Security,
    peer: Option<IpAddr>,
    forwarded: Seq<Seq<char>>,
)
    ensures
        security.is_secure(peer, forwarded) <==> peer is Some && (exists|i: int|
            0 <= i < security.trusted_proxies@.len() && #[trigger] security.trusted_proxies@[i]
                == peer->0) && forwarded == seq!["https"@],
        security.trusted_proxies@.len() == 0 ==> !security.is_secure(peer, forwarded),
{
    if security.is_secure(peer, forwarded) {
        assert(forwarded =~= seq!["https"@]);
    }
}

/// Each kind of request is counted by itself and for each user, up to its own limit.
pub proof fn quotas_are_counted_apart(user: Seq<char>, other: Seq<char>)
    ensures
        Quota::Password.limit() == 10,
        Quota::Resolution.limit() == 30,
        Quota::DomainProof.limit() == 20,
        Quota::DomainCredential.limit() == 10,
        Quota::Password.key(user) == Quota::Password.key(other) ==> user == other,
        Quota::Resolution.key(user) == Quota::Resolution.key(other) ==> user == other,
        Quota::DomainProof.key(user) == Quota::DomainProof.key(other) ==> user == other,
        Quota::DomainCredential.key(user) == Quota::DomainCredential.key(other) ==> user == other,
        Quota::Password.key(user) != Quota::Resolution.key(other),
        Quota::Password.key(user) != Quota::DomainProof.key(other),
        Quota::Password.key(user) != Quota::DomainCredential.key(other),
        Quota::DomainProof.key(user) != Quota::DomainCredential.key(other),
        Quota::DomainProof.key(user) != Quota::Resolution.key(other),
        Quota::DomainCredential.key(user) != Quota::Resolution.key(other),
{
    reveal_strlit("password:");
    reveal_strlit("dns:");
    reveal_strlit("domain-proof:");
    reveal_strlit("domain-credential:");
    assert(Quota::Password.key(user)[0] == 'p');
    assert(Quota::Resolution.key(other)[1] == 'n');
    assert(Quota::DomainProof.key(user)[0] == 'd' && Quota::DomainProof.key(user)[1] == 'o');
    assert(Quota::DomainProof.key(user)[7] == 'p');
    assert(Quota::DomainCredential.key(user)[0] == 'd' && Quota::DomainCredential.key(user)[1]
        == 'o');
    assert(Quota::DomainCredential.key(other)[7] == 'c');
    assert(Quota::Resolution.key(other)[0] == 'd');
    assert(Quota::DomainProof.key(other)[0] == 'd');
    assert(Quota::DomainCredential.key(other)[0] == 'd');
    assert(Quota::Password.key(user).skip(9) =~= user);
    assert(Quota::Password.key(other).skip(9) =~= other);
    assert(Quota::Resolution.key(user).skip(4) =~= user);
    assert(Quota::Resolution.key(other).skip(4) =~= other);
    assert(Quota::DomainProof.key(user).skip(13) =~= user);
    assert(Quota::DomainProof.key(other).skip(13) =~= other);
    assert(Quota::DomainCredential.key(user).skip(18) =~= user);
    assert(Quota::DomainCredential.key(other).skip(18) =~= other);
}

/// A request to the interface is refused where the public address needs HTTPS and it came without, and
/// where it changes something from a foreign origin; no other request is.
pub proof fn foreign_requests_change_nothing(
    public: Option<Seq<char>>,
    request: Boundary,
    secure: bool,
)
    ensures
        boundary_refusal(public, request, secure) is Some <==> text::has_prefix(
            request.path@,
            "/api/"@,
        ) && ((public is Some && text::has_prefix(public->0, "https://"@) && !secure) || (
        request.method@ != "GET"@ && request.method@ != "HEAD"@ && request.origin is Some && (
        request.origin->0 is None || request.origin->0->0@ != expected_origin(
            public,
            text::opt(request.host),
            secure,
        )))),
        boundary_refusal(public, request, secure) is Some ==> boundary_refusal(
            public,
            request,
            secure,
        )->0.status == 403,
{
}

/// The origin of the interface is the public address; without one, it is the host that was asked for,
/// over the scheme of the request.
pub proof fn origins_are_those_of_the_interface(
    public: Option<Seq<char>>,
    host: Option<Seq<char>>,
    secure: bool,
)
    ensures
        public is Some ==> expected_origin(public, host, secure) == public->0,
        public is None && host is Some && secure ==> expected_origin(public, host, secure)
            == "https"@ + "://"@ + host->0,
        public is None && host is Some && !secure ==> expected_origin(public, host, secure)
            == "http"@ + "://"@ + host->0,
{
}

/// Requests that hand in a secret are counted, and no others.
pub proof fn requests_with_a_secret_are_counted(request: Boundary)
    ensures
        counted(request) <==> request.method@ == "POST"@ && (request.path@ == "/api/v1/auth/login"@
            || request.path@ == "/api/v1/auth/initialize"@ || request.path@
            == "/api/v1/auth/recover"@ || request.path@ == "/api/v1/auth/invitations/inspect"@
            || request.path@ == "/api/v1/auth/invitations/accept"@),
{
}

/// Every answer forbids to guess its type; one of the interface is not stored.
pub proof fn answers_carry_protective_headers(path: Seq<char>)
    ensures
        answer_headers(path).contains(("x-content-type-options"@, "nosniff"@)),
        answer_headers(path).contains(("referrer-policy"@, "same-origin"@)),
        text::has_prefix(path, "/api/"@) ==> answer_headers(path).contains(
            ("cache-control"@, "no-store"@),
        ),
        !text::has_prefix(path, "/api/"@) ==> answer_headers(path).len() == 2,
        text::has_prefix(path, "/api/"@) ==> answer_headers(path).len() == 3,
{
    let list = answer_headers(path);
    if text::has_prefix(path, "/api/"@) {
        assert(list[0] == ("cache-control"@, "no-store"@));
        assert(list[1] == ("x-content-type-options"@, "nosniff"@));
        assert(list[2] == ("referrer-policy"@, "same-origin"@));
    } else {
        assert(list[0] == ("x-content-type-options"@, "nosniff"@));
        assert(list[1] == ("referrer-policy"@, "same-origin"@));
    }
}

} // verus!
