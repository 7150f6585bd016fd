//! Public domains: their names, who owns them, and how their certificates are obtained.
use serde_json::Value;
use vstd::prelude::*;

use crate::caddy;
use crate::caddy::join_path;
use crate::digest;
use crate::digest::{is_uuid, new_uuid};
use crate::error;
use crate::error::{
    ApiError, BAD_GATEWAY, BAD_REQUEST, CONFLICT, INTERNAL_SERVER_ERROR, NOT_FOUND,
    SERVICE_UNAVAILABLE,
};
use crate::ip;
use crate::ip::{format_socket, parse_ip, parse_socket, SocketAddr};
use crate::json;
use crate::json::{json_as_bool, json_as_str, json_get, json_items, parse_json, Json};
use crate::number;
use crate::text;
use crate::text::{
    chars_of, ends_with, has_char, holds, join2, join3, lower, same, split_on, split_once,
    starts_with, strip_prefix, strip_suffix, trim,
};

verus! {

/// A domain in the form that the DNS carries, where the outside rules accept it.
pub uninterp spec fn idna_ascii(domain: Seq<char>) -> Option<Seq<char>>;

/// `idna::domain_to_ascii_strict`: a domain in the form that the DNS carries; `None` where the
/// rules for internationalised names refuse it.
#[verifier::external_body]
pub(crate) fn to_ascii(domain: &str) -> (r: Option<String>)
    ensures
        text::opt(r) == idna_ascii(domain@),
{
    idna::domain_to_ascii_strict(domain).ok()
}

/// Whether a character may stand in a label: an ASCII letter, a digit or a hyphen.
pub open spec fn label_char(c: char) -> bool {
    ('a' <= c <= 'z') || ('A' <= c <= 'Z') || ('0' <= c <= '9') || c == '-'
}

/// Whether a text is a label: one to 63 of the permitted characters, no hyphen at either end.
pub open spec fn is_label(label: Seq<char>) -> bool {
    1 <= label.len() <= 63 && label[0] != '-' && label.last() != '-' && forall|i: int|
        0 <= i < label.len() ==> label_char(#[trigger] label[i])
}

/// Whether a text is the name of a domain: two labels or more, at most 253 characters, and a last
/// label that is no number.
pub open spec fn is_domain(domain: Seq<char>) -> bool {
    let labels = text::split(domain, '.');
    domain.len() <= 253 && labels.len() >= 2 && (forall|i: int|
        0 <= i < labels.len() ==> is_label(#[trigger] labels[i])) && !number::all_digits(
        labels.last(),
    )
}

/// A text without the white space around it and without one full stop at its end.
pub open spec fn bare(value: Seq<char>) -> Seq<char> {
    match text::before_suffix(text::trimmed(value), "."@) {
        Some(rest) => rest,
        None => text::trimmed(value),
    }
}

/// The domain that a text names, where it names one.
pub open spec fn domain_of(value: Seq<char>) -> Option<Seq<char>> {
    match idna_ascii(bare(value)) {
        Some(ascii) => if is_domain(text::lowered(ascii)) {
            Some(text::lowered(ascii))
        } else {
            None
        },
        None => None,
    }
}

fn check_label(label: &str) -> (r: bool)
    ensures
        r == is_label(label@),
{
    let text: Vec<char> = chars_of(label);
    let n: usize = text.len();
    if n == 0 || n > 63 {
        return false;
    }
    if text[0] == '-' || text[n - 1] == '-' {
        return false;
    }
    let mut i: usize = 0;
    while i < n
        invariant
            i <= n,
            n == text@.len(),
            text@ == label@,
            forall|j: int| 0 <= j < i ==> label_char(#[trigger] label@[j]),
        decreases n - i,
    {
        let c: char = text[i];
        if !(('a' <= c && c <= 'z') || ('A' <= c && c <= 'Z') || ('0' <= c && c <= '9') || c
            == '-') {
            assert(!label_char(label@[i as int]));
            return false;
        }
        i = i + 1;
    }
    true
}

fn check_digits(label: &str) -> (r: bool)
    ensures
        r == number::all_digits(label@),
{
    let text: Vec<char> = chars_of(label);
    if text.len() == 0 {
        return false;
    }
    let mut i: usize = 0;
    while i < text.len()
        invariant
            i <= text@.len(),
            text@ == label@,
            forall|j: int| 0 <= j < i ==> number::is_digit(#[trigger] label@[j]),
        decreases text@.len() - i,
    {
        let c: char = text[i];
        if !('0' <= c && c <= '9') {
            assert(!number::is_digit(label@[i as int]));
            return false;
        }
        i = i + 1;
    }
    true
}

/// Whether a text is the name of a domain.
pub fn check_domain(domain: &str) -> (r: bool)
    ensures
        r == is_domain(domain@),
{
    let ghost labels = text::split(domain@, '.');
    if chars_of(domain).len() > 253 {
        return false;
    }
    let list: Vec<String> = split_on(domain, '.');
    let n: usize = list.len();
    assert(labels.len() == n);
    if n < 2 {
        return false;
    }
    let mut i: usize = 0;
    while i < n
        invariant
            i <= n,
            n == list@.len(),
            labels == text::split(domain@, '.'),
            labels == text::views(list@),
            forall|j: int| 0 <= j < i ==> is_label(#[trigger] labels[j]),
        decreases n - i,
    {
        assert(labels[i as int] == list@[i as int]@);
        if !check_label(list[i].as_str()) {
            return false;
        }
        i = i + 1;
    }
    assert(labels.last() == list@[n - 1]@);
    !check_digits(list[n - 1].as_str())
}

/// Why a domain is refused.
pub open spec fn domain_refusal() -> Option<error::Refusal> {
    error::refusal(
        BAD_REQUEST,
        "请输入有效域名，例如 example.com，不要包含网址前缀、端口或路径",
    )
}

/// The domain that a user has entered: without URL, port, wildcard or IP address.
pub fn normalize_domain(value: &str) -> (r: Result<String, ApiError>)
    ensures
        match r {
            Ok(domain) => domain_of(value@) == Some(domain@) && is_domain(domain@),
            Err(e) => domain_of(value@) is None && error::told(e) == domain_refusal(),
        },
{
    let trimmed: String = trim(value);
    let raw: String = match strip_suffix(trimmed.as_str(), ".") {
        Some(rest) => rest,
        None => trimmed,
    };
    if let Some(ascii) = to_ascii(raw.as_str()) {
        let domain: String = lower(ascii.as_str());
        if check_domain(domain.as_str()) {
            return Ok(domain);
        }
    }
    Err(
        ApiError::new(
            BAD_REQUEST,
            "请输入有效域名，例如 example.com，不要包含网址前缀、端口或路径",
        ),
    )
}

/// The resolvers and waits for the DNS challenge of a domain.
#[derive(Debug, Clone)]
pub struct DnsSettings {
    pub dns_resolvers: Vec<String>,
    pub dns_propagation_delay_seconds: Option<u32>,
    pub dns_propagation_timeout_seconds: Option<u32>,
}

/// The resolvers that are used where none is chosen.
pub open spec fn default_resolvers() -> Seq<Seq<char>> {
    seq!["223.5.5.5:53"@, "223.6.6.6:53"@]
}

/// The resolvers that are used where none is chosen.
pub fn default_dns_resolvers() -> (r: Vec<String>)
    ensures
        text::views(r@) == default_resolvers(),
{
    let mut r: Vec<String> = Vec::new();
    r.push("223.5.5.5:53".to_owned());
    r.push("223.6.6.6:53".to_owned());
    assert(text::views(r@) =~= default_resolvers());
    r
}

impl Default for DnsSettings {
    fn default() -> (r: DnsSettings)
        ensures
            text::views(r.dns_resolvers@) == default_resolvers(),
            r.dns_propagation_delay_seconds is None,
            r.dns_propagation_timeout_seconds is None,
    {
        DnsSettings {
            dns_resolvers: default_dns_resolvers(),
            dns_propagation_delay_seconds: None,
            dns_propagation_timeout_seconds: None,
        }
    }
}

/// The address of a resolver: an IP address, to which port 53 belongs, or one with its port.
pub open spec fn resolver_of(entry: Seq<char>) -> Option<SocketAddr> {
    match ip::ip_of(text::trimmed(entry)) {
        Some(ip) => Some(SocketAddr { ip, port: 53, scope: 0 }),
        None => ip::socket_of(text::trimmed(entry)),
    }
}

/// Whether an address can be a resolver: neither port zero nor an unspecified or multicast address.
pub open spec fn usable_resolver(socket: SocketAddr) -> bool {
    socket.port != 0 && !socket.ip.unspecified() && !socket.ip.multicast()
}

/// Why one of the resolvers from position `i` on is refused, if one is: the first that fails.
pub open spec fn resolver_refusal(entries: Seq<Seq<char>>, i: int) -> Option<error::Refusal>
    decreases entries.len() - i,
{
    if i < 0 || i >= entries.len() {
        None
    } else {
        match resolver_of(entries[i]) {
            None => error::refusal(
                BAD_REQUEST,
                "DNS 解析器必须是 IPv4/IPv6 地址，可附加端口；IPv6 带端口时使用方括号",
            ),
            Some(socket) => if usable_resolver(socket) {
                resolver_refusal(entries, i + 1)
            } else {
                error::refusal(BAD_REQUEST, "DNS 解析器地址或端口无效")
            },
        }
    }
}

/// The first `n` resolvers in one form, each once.
pub open spec fn resolver_texts(entries: Seq<Seq<char>>, n: int) -> Seq<Seq<char>>
    decreases n,
{
    if n <= 0 {
        Seq::empty()
    } else {
        let before = resolver_texts(entries, n - 1);
        let text = ip::socket_text(resolver_of(entries[n - 1])->0);
        if before.contains(text) {
            before
        } else {
            before.push(text)
        }
    }
}

/// Why settings are refused, if they are.
pub open spec fn settings_refusal(dns: DnsSettings) -> Option<error::Refusal> {
    let entries = text::views(dns.dns_resolvers@);
    if entries.len() > 4 {
        error::refusal(BAD_REQUEST, "最多配置 4 个 DNS 解析器")
    } else if resolver_refusal(entries, 0) is Some {
        resolver_refusal(entries, 0)
    } else if (dns.dns_propagation_delay_seconds matches Some(n) && n > 120) || (
    dns.dns_propagation_timeout_seconds matches Some(n) && (n == 0 || n > 600)) {
        error::refusal(BAD_REQUEST, "DNS 传播等待应为 0–120 秒，传播超时应为 1–600 秒")
    } else {
        None
    }
}

proof fn lemma_resolver_texts(entries: Seq<Seq<char>>, n: int)
    requires
        0 <= n,
    ensures
        resolver_texts(entries, n).len() <= n,
        resolver_texts(entries, n).no_duplicates(),
        n > 0 ==> resolver_texts(entries, n).len() > 0,
    decreases n,
{
    if n > 0 {
        lemma_resolver_texts(entries, n - 1);
        let before = resolver_texts(entries, n - 1);
        let text = ip::socket_text(resolver_of(entries[n - 1])->0);
        if before.contains(text) {
            assert(before.len() > 0);
        } else {
            assert forall|i: int, j: int|
                0 <= i < j < before.push(text).len() implies before.push(text)[i] != before.push(
                text,
            )[j] by {
                if j == before.len() {
                    assert(before.contains(before[i]));
                }
            }
        }
    }
}

fn parse_resolver(entry: &str) -> (r: Option<SocketAddr>)
    ensures
        r == resolver_of(entry@),
{
    let value: String = trim(entry);
    match parse_ip(value.as_str()) {
        Some(ip) => Some(SocketAddr { ip, port: 53, scope: 0 }),
        None => parse_socket(value.as_str()),
    }
}

fn check_resolver(entry: &str) -> (r: Result<String, ApiError>)
    ensures
        match r {
            Ok(text) => (resolver_of(entry@) matches Some(socket) && usable_resolver(socket)
                && text@ == ip::socket_text(socket)),
            Err(e) => match resolver_of(entry@) {
                None => error::told(e) == error::refusal(
                    BAD_REQUEST,
                    "DNS 解析器必须是 IPv4/IPv6 地址，可附加端口；IPv6 带端口时使用方括号",
                ),
                Some(socket) => !usable_resolver(socket) && error::told(e) == error::refusal(
                    BAD_REQUEST,
                    "DNS 解析器地址或端口无效",
                ),
            },
        },
{
    match parse_resolver(entry) {
        Some(socket) => if socket.port == 0 || socket.ip.is_unspecified()
            || socket.ip.is_multicast() {
            Err(ApiError::new(BAD_REQUEST, "DNS 解析器地址或端口无效"))
        } else {
            Ok(format_socket(&socket))
        },
        None => Err(
            ApiError::new(
                BAD_REQUEST,
                "DNS 解析器必须是 IPv4/IPv6 地址，可附加端口；IPv6 带端口时使用方括号",
            ),
        ),
    }
}

fn check_resolvers(list: &Vec<String>) -> (r: Result<Vec<String>, ApiError>)
    ensures
        match r {
            Ok(texts) => resolver_refusal(text::views(list@), 0) is None && text::views(texts@)
                == resolver_texts(text::views(list@), list@.len() as int),
            Err(e) => resolver_refusal(text::views(list@), 0) == error::told(e),
        },
{
    let ghost entries = text::views(list@);
    let mut normalized: Vec<String> = Vec::new();
    assert(text::views(normalized@) =~= Seq::empty());
    let mut i: usize = 0;
    while i < list.len()
        invariant
            i <= list@.len(),
            entries == text::views(list@),
            resolver_refusal(entries, 0) == resolver_refusal(entries, i as int),
            text::views(normalized@) == resolver_texts(entries, i as int),
        decreases list@.len() - i,
    {
        assert(entries[i as int] == list@[i as int]@);
        let text: String = match check_resolver(list[i].as_str()) {
            Ok(text) => text,
            Err(e) => {
                return Err(e);
            },
        };
        let ghost before = normalized@;
        if !holds(&normalized, text.as_str()) {
            normalized.push(text);
            assert(text::views(normalized@) =~= text::views(before).push(text@));
        }
        i = i + 1;
    }
    Ok(normalized)
}

impl DnsSettings {
    /// Checks settings and puts them in one form: each resolver once, with its port; the default
    /// ones where none is chosen.
    pub fn validate(&mut self) -> (r: Result<(), ApiError>)
        ensures
            match r {
                Ok(_) => settings_refusal(*old(self)) is None && text::views(
                    final(self).dns_resolvers@,
                ) == (if old(self).dns_resolvers@.len() == 0 {
                    default_resolvers()
                } else {
                    resolver_texts(
                        text::views(old(self).dns_resolvers@),
                        old(self).dns_resolvers@.len() as int,
                    )
                }) && 1 <= final(self).dns_resolvers@.len() <= 4
                    && final(self).dns_propagation_delay_seconds
                    == old(self).dns_propagation_delay_seconds
                    && final(self).dns_propagation_timeout_seconds
                    == old(self).dns_propagation_timeout_seconds,
                Err(e) => settings_refusal(*old(self)) == error::told(e) && *final(self) == *old(
                    self,
                ),
            },
    {
        let ghost entries = text::views(self.dns_resolvers@);
        let n: usize = self.dns_resolvers.len();
        if n > 4 {
            return Err(ApiError::new(BAD_REQUEST, "最多配置 4 个 DNS 解析器"));
        }
        let normalized: Vec<String> = match check_resolvers(&self.dns_resolvers) {
            Ok(texts) => texts,
            Err(e) => {
                return Err(e);
            },
        };
        let slow: bool = match self.dns_propagation_delay_seconds {
            Some(n) => n > 120,
            None => false,
        };
        let endless: bool = match self.dns_propagation_timeout_seconds {
            Some(n) => n == 0 || n > 600,
            None => false,
        };
        if slow || endless {
            return Err(
                ApiError::new(
                    BAD_REQUEST,
                    "DNS 传播等待应为 0–120 秒，传播超时应为 1–600 秒",
                ),
            );
        }
        proof {
            lemma_resolver_texts(entries, n as int);
            assert(text::views(normalized@).len() == normalized@.len());
            assert(default_resolvers().len() == 2);
        }
        self.dns_resolvers = if normalized.len() == 0 {
            default_dns_resolvers()
        } else {
            normalized
        };
        assert(text::views(self.dns_resolvers@).len() == self.dns_resolvers@.len());
        Ok(())
    }
}

/// Accepted settings name each resolver once, and at most as many as were given.
pub proof fn accepted_resolvers_are_distinct(dns: DnsSettings)
    requires
        settings_refusal(dns) is None,
    ensures
        ({
            let texts = resolver_texts(
                text::views(dns.dns_resolvers@),
                dns.dns_resolvers@.len() as int,
            );
            texts.no_duplicates() && texts.len() <= dns.dns_resolvers@.len()
        }),
{
    lemma_resolver_texts(text::views(dns.dns_resolvers@), dns.dns_resolvers@.len() as int);
}

/// The TXT record that proves who owns a domain.
#[derive(Debug, Clone)]
pub struct VerificationRecord {
    pub name: String,
    pub value: String,
}

/// The settings of a domain.
#[derive(Debug, Clone)]
pub struct Settings {
    pub certificate_mode: String,
    pub verification_status: String,
    pub verification_record: Option<VerificationRecord>,
    pub credential_configured: bool,
    pub dns: DnsSettings,
    pub credential_file: Option<String>,
    pub legacy: bool,
}

/// What a user asks to change.
#[derive(Debug, Clone)]
pub struct SettingsInput {
    pub certificate_mode: String,
    pub dns: DnsSettings,
}

/// A credential that a user hands in.
pub struct CredentialInput {
    pub token: String,
}

/// The settings of a domain as they are stored.
pub struct SettingsRow {
    pub certificate_mode: String,
    pub verified: bool,
    pub verification_token: String,
    pub credential_file: Option<String>,
    /// The resolvers, as a JSON array of strings.
    pub dns_resolvers: String,
    pub propagation_delay: Option<u32>,
    pub propagation_timeout: Option<u32>,
    pub legacy: bool,
}

/// Whether a document is a list of strings, and which.
pub open spec fn texts_in(tree: Json) -> Option<Seq<Seq<char>>> {
    match tree {
        Json::Array(items) => if forall|i: int|
            0 <= i < items.len() ==> (#[trigger] items[i]) is Text {
            Some(Seq::new(items.len(), |i: int| items[i]->Text_0))
        } else {
            None
        },
        _ => None,
    }
}

/// The resolvers that are stored as a JSON text; the default ones where there are none.
pub open spec fn stored_resolvers(text: Seq<char>) -> Option<Seq<Seq<char>>> {
    match json::json_of(text) {
        Some(tree) => match texts_in(tree) {
            Some(list) => Some(
                if list.len() == 0 {
                    default_resolvers()
                } else {
                    list
                },
            ),
            None => None,
        },
        None => None,
    }
}

fn read_texts(value: &Value) -> (r: Option<Vec<String>>)
    ensures
        match r {
            Some(list) => texts_in(json::json_tree(*value)) == Some(text::views(list@)),
            None => texts_in(json::json_tree(*value)) is None,
        },
{
    let items: Vec<Value> = match json_items(value) {
        Some(items) => items,
        None => {
            return None;
        },
    };
    let ghost all = json::trees(items@);
    let mut r: Vec<String> = Vec::new();
    let mut i: usize = 0;
    while i < items.len()
        invariant
            i <= items@.len(),
            all == json::trees(items@),
            json::json_tree(*value) == Json::Array(all),
            r@.len() == i,
            forall|j: int| 0 <= j < i ==> (#[trigger] all[j]) == Json::Text(r@[j]@),
        decreases items@.len() - i,
    {
        assert(all[i as int] == json::json_tree(items@[i as int]));
        match json_as_str(&items[i]) {
            Some(text) => {
                r.push(text.to_owned());
            },
            None => {
                assert(!(all[i as int] is Text));
                return None;
            },
        }
        i = i + 1;
    }
    assert(text::views(r@) =~= Seq::new(all.len(), |j: int| all[j]->Text_0));
    Some(r)
}

/// The settings of a domain as they are stored.
pub ghost struct SettingsView {
    pub certificate_mode: Seq<char>,
    pub verified: bool,
    pub verification_token: Seq<char>,
    pub credential_file: Option<Seq<char>>,
    pub dns_resolvers: Seq<char>,
    pub propagation_delay: Option<u32>,
    pub propagation_timeout: Option<u32>,
    pub legacy: bool,
}

impl View for SettingsRow {
    type V = SettingsView;

    open spec fn view(&self) -> SettingsView {
        SettingsView {
            certificate_mode: self.certificate_mode@,
            verified: self.verified,
            verification_token: self.verification_token@,
            credential_file: text::opt(self.credential_file),
            dns_resolvers: self.dns_resolvers@,
            propagation_delay: self.propagation_delay,
            propagation_timeout: self.propagation_timeout,
            legacy: self.legacy,
        }
    }
}

/// The settings of a domain from before there were any: it counts as verified and keeps its way to
/// get certificates.
pub open spec fn settings_of_old() -> SettingsView {
    SettingsView {
        certificate_mode: "cloudflare_dns"@,
        verified: true,
        verification_token: ""@,
        credential_file: None,
        dns_resolvers: "[]"@,
        propagation_delay: None,
        propagation_timeout: None,
        legacy: true,
    }
}

/// The settings of a domain for which none are stored.
pub fn no_settings() -> (r: SettingsRow)
    ensures
        r@ == settings_of_old(),
{
    SettingsRow {
        certificate_mode: "cloudflare_dns".to_owned(),
        verified: true,
        verification_token: "".to_owned(),
        credential_file: None,
        dns_resolvers: "[]".to_owned(),
        propagation_delay: None,
        propagation_timeout: None,
        legacy: true,
    }
}

/// What the stored settings of a domain come to. A domain of old, without stored settings, counts
/// as verified.
pub open spec fn loaded(row: Option<SettingsRow>, domain: Seq<char>, r: Settings) -> bool {
    let verified = row matches Some(stored) ==> stored.verified;
    &&& r.certificate_mode@ == (match row {
        Some(stored) => stored.certificate_mode@,
        None => "cloudflare_dns"@,
    })
    &&& r.verification_status@ == (if verified {
        "verified"@
    } else {
        "pending"@
    })
    &&& match r.verification_record {
        Some(record) => !verified && record.name@ == "_nexo-verification."@ + domain
            && record.value@ == row->0.verification_token@,
        None => verified,
    }
    &&& r.credential_configured == (row matches Some(stored) && stored.credential_file is Some)
    &&& text::opt(r.credential_file) == (match row {
        Some(stored) => text::opt(stored.credential_file),
        None => None,
    })
    &&& stored_resolvers(
        match row {
            Some(stored) => stored.dns_resolvers@,
            None => "[]"@,
        },
    ) == Some(text::views(r.dns.dns_resolvers@))
    &&& r.dns.dns_propagation_delay_seconds == (match row {
        Some(stored) => stored.propagation_delay,
        None => None,
    })
    &&& r.dns.dns_propagation_timeout_seconds == (match row {
        Some(stored) => stored.propagation_timeout,
        None => None,
    })
    &&& r.legacy == (row matches Some(stored) ==> stored.legacy)
}

/// Reads the stored settings of a domain.
pub fn load(row: Option<SettingsRow>, domain: &str) -> (r: Result<Settings, ApiError>)
    ensures
        match r {
            Ok(settings) => loaded(row, domain@, settings),
            Err(e) => stored_resolvers(
                match row {
                    Some(stored) => stored.dns_resolvers@,
                    None => "[]"@,
                },
            ) is None && error::told(e) == error::refusal(
                INTERNAL_SERVER_ERROR,
                "已保存的 DNS 解析器无法读取",
            ),
        },
{
    let stored: SettingsRow = match row {
        Some(stored) => stored,
        None => no_settings(),
    };
    let parsed: Option<Vec<String>> = match parse_json(stored.dns_resolvers.as_str()) {
        Some(value) => read_texts(&value),
        None => None,
    };
    let dns_resolvers: Vec<String> = match parsed {
        Some(list) => {
            assert(text::views(list@).len() == list@.len());
            if list.len() == 0 {
                default_dns_resolvers()
            } else {
                list
            }
        },
        None => {
            return Err(
                ApiError::new(INTERNAL_SERVER_ERROR, "已保存的 DNS 解析器无法读取"),
            );
        },
    };
    Ok(
        Settings {
            certificate_mode: stored.certificate_mode,
            verification_status: if stored.verified {
                "verified".to_owned()
            } else {
                "pending".to_owned()
            },
            verification_record: if stored.verified {
                None
            } else {
                Some(
                    VerificationRecord {
                        name: join2("_nexo-verification.", domain),
                        value: stored.verification_token,
                    },
                )
            },
            credential_configured: stored.credential_file.is_some(),
            credential_file: stored.credential_file,
            dns: DnsSettings {
                dns_resolvers,
                dns_propagation_delay_seconds: stored.propagation_delay,
                dns_propagation_timeout_seconds: stored.propagation_timeout,
            },
            legacy: stored.legacy,
        },
    )
}

/// The settings of a new domain: not verified, with a fresh proof and the HTTP challenge.
pub fn create_settings() -> (r: SettingsRow)
    ensures
        r.certificate_mode@ == "http01"@,
        !r.verified,
        digest::secret_token(r.verification_token@),
        r.credential_file is None,
        r.dns_resolvers@ == "[]"@,
        r.propagation_delay is None,
        r.propagation_timeout is None,
        !r.legacy,
{
    let token: String = digest::random_token();
    SettingsRow {
        certificate_mode: "http01".to_owned(),
        verified: false,
        verification_token: token,
        credential_file: None,
        dns_resolvers: "[]".to_owned(),
        propagation_delay: None,
        propagation_timeout: None,
        legacy: false,
    }
}

/// A domain as the claims on others see it.
pub struct DomainClaim {
    pub tenant_id: String,
    pub domain: String,
    pub verified: bool,
}

/// A domain as the claims on others see it: its workspace, its name, whether it is verified.
pub ghost struct ClaimView {
    pub tenant: Seq<char>,
    pub domain: Seq<char>,
    pub verified: bool,
}

impl View for DomainClaim {
    type V = ClaimView;

    open spec fn view(&self) -> ClaimView {
        ClaimView { tenant: self.tenant_id@, domain: self.domain@, verified: self.verified }
    }
}

/// What each of a list of claims says.
pub open spec fn claims(list: Seq<DomainClaim>) -> Seq<ClaimView> {
    Seq::new(list.len(), |i: int| list[i]@)
}

/// Whether one of two domains holds the other.
pub open spec fn ranges_overlap(a: Seq<char>, b: Seq<char>) -> bool {
    a == b || text::has_suffix(a, "."@ + b) || text::has_suffix(b, "."@ + a)
}

/// Whether a domain of another workspace that is verified stands in the way.
pub open spec fn blocks(claim: ClaimView, tenant: Seq<char>, domain: Seq<char>) -> bool {
    claim.tenant != tenant && claim.verified && ranges_overlap(domain, claim.domain)
}

/// Why a workspace cannot have a domain, if it cannot: another workspace has its range, or it is
/// the address of a service.
pub open spec fn claim_refusal(
    tenant: Seq<char>,
    domain: Seq<char>,
    others: Seq<ClaimView>,
    addresses: Seq<Seq<char>>,
) -> Option<error::Refusal> {
    if exists|i: int| 0 <= i < others.len() && blocks(#[trigger] others[i], tenant, domain) {
        error::refusal(CONFLICT, "此域名范围已被其他工作空间使用")
    } else if addresses.contains(domain) {
        error::refusal(CONFLICT, "此域名已作为服务地址使用")
    } else {
        None
    }
}

fn overlap(a: &str, b: &str) -> (r: bool)
    ensures
        r == ranges_overlap(a@, b@),
{
    same(a, b) || ends_with(a, join2(".", b).as_str()) || ends_with(b, join2(".", a).as_str())
}

/// Whether a workspace can have a domain, given all domains and the addresses of all services. A
/// domain that is not verified stands in nobody's way.
pub fn claim(
    tenant: &str,
    domain: &str,
    others: &Vec<DomainClaim>,
    addresses: &Vec<String>,
) -> (r: Result<(), ApiError>)
    ensures
        match r {
            Ok(_) => claim_refusal(tenant@, domain@, claims(others@), text::views(addresses@))
                is None,
            Err(e) => claim_refusal(tenant@, domain@, claims(others@), text::views(addresses@))
                == error::told(e),
        },
{
    let ghost all = claims(others@);
    let mut i: usize = 0;
    while i < others.len()
        invariant
            i <= others@.len(),
            all == claims(others@),
            forall|j: int| 0 <= j < i ==> !blocks(#[trigger] all[j], tenant@, domain@),
        decreases others@.len() - i,
    {
        assert(all[i as int] == others@[i as int]@);
        if !same(others[i].tenant_id.as_str(), tenant) && others[i].verified && overlap(
            domain,
            others[i].domain.as_str(),
        ) {
            assert(blocks(all[i as int], tenant@, domain@));
            return Err(ApiError::new(CONFLICT, "此域名范围已被其他工作空间使用"));
        }
        i = i + 1;
    }
    if holds(addresses, domain) {
        return Err(ApiError::new(CONFLICT, "此域名已作为服务地址使用"));
    }
    Ok(())
}

/// Whether no two verified domains of different workspaces overlap.
pub open spec fn claims_apart(all: Seq<ClaimView>) -> bool {
    forall|i: int, j: int|
        0 <= i < all.len() && 0 <= j < all.len() && all[i].verified && all[j].verified
            && all[i].tenant != all[j].tenant ==> !ranges_overlap(
            (#[trigger] all[i]).domain,
            (#[trigger] all[j]).domain,
        )
}

/// Verified domains of different workspaces never overlap: verifying one that may be claimed keeps
/// them apart.
pub proof fn verifying_keeps_ranges_apart(
    all: Seq<ClaimView>,
    k: int,
    addresses: Seq<Seq<char>>,
)
    requires
        claims_apart(all),
        0 <= k < all.len(),
        claim_refusal(all[k].tenant, all[k].domain, all, addresses) is None,
    ensures
        claims_apart(all.update(k, ClaimView { verified: true, ..all[k] })),
{
    let next = all.update(k, ClaimView { verified: true, ..all[k] });
    assert forall|i: int, j: int|
        0 <= i < next.len() && 0 <= j < next.len() && next[i].verified && next[j].verified
            && next[i].tenant != next[j].tenant implies !ranges_overlap(
        (#[trigger] next[i]).domain,
        (#[trigger] next[j]).domain,
    ) by {
        if i == k {
            assert(!blocks(all[j], all[k].tenant, all[k].domain));
        } else if j == k {
            assert(!blocks(all[i], all[k].tenant, all[k].domain));
        } else {
            assert(!ranges_overlap(all[i].domain, all[j].domain));
        }
    }
}

/// A domain that is not verified reserves nothing: the same claims are refused without it.
pub proof fn unverified_domains_reserve_nothing(
    all: Seq<ClaimView>,
    k: int,
    tenant: Seq<char>,
    domain: Seq<char>,
    addresses: Seq<Seq<char>>,
)
    requires
        0 <= k < all.len(),
        !all[k].verified,
    ensures
        claim_refusal(tenant, domain, all, addresses) == claim_refusal(
            tenant,
            domain,
            all.remove(k),
            addresses,
        ),
{
    let rest = all.remove(k);
    if exists|i: int| 0 <= i < all.len() && blocks(#[trigger] all[i], tenant, domain) {
        let i = choose|i: int| 0 <= i < all.len() && blocks(#[trigger] all[i], tenant, domain);
        let j = if i < k {
            i
        } else {
            i - 1
        };
        assert(rest[j] == all[i]);
        assert(blocks(rest[j], tenant, domain));
    }
    if exists|i: int| 0 <= i < rest.len() && blocks(#[trigger] rest[i], tenant, domain) {
        let i = choose|i: int| 0 <= i < rest.len() && blocks(#[trigger] rest[i], tenant, domain);
        let j = if i < k {
            i
        } else {
            i + 1
        };
        assert(all[j] == rest[i]);
        assert(blocks(all[j], tenant, domain));
    }
}

/// Why a workspace cannot add a domain, if it cannot: it has it already, or another workspace has
/// it verified.
pub open spec fn reserved(all: Seq<ClaimView>, tenant: Seq<char>, domain: Seq<char>) -> bool {
    exists|i: int|
        0 <= i < all.len() && (#[trigger] all[i]).domain == domain && (all[i].tenant == tenant
            || all[i].verified)
}

/// A domain that a workspace adds.
pub struct NewDomain {
    pub id: String,
    pub domain: String,
    pub is_primary: bool,
    pub https_enabled: bool,
    pub settings: SettingsRow,
}

/// Adds a domain to a workspace, given all domains: the first one of the workspace is its primary
/// one.
pub fn create_domain(
    tenant: &str,
    value: &str,
    https_enabled: Option<bool>,
    all: &Vec<DomainClaim>,
) -> (r: Result<NewDomain, ApiError>)
    ensures
        match r {
            Ok(added) => domain_of(value@) == Some(added.domain@) && !reserved(
                claims(all@),
                tenant@,
                added.domain@,
            ) && added.is_primary == (forall|i: int|
                0 <= i < all@.len() ==> (#[trigger] all@[i]).tenant_id@ != tenant@)
                && added.https_enabled == (https_enabled matches Some(false) ==> false)
                && digest::uuid_text(added.id@) && !added.settings.verified
                && added.settings.certificate_mode@ == "http01"@ && !added.settings.legacy
                && added.settings.credential_file is None && digest::secret_token(
                added.settings.verification_token@,
            ) && added.settings.dns_resolvers@ == "[]"@ && added.settings.propagation_delay is None
                && added.settings.propagation_timeout is None,
            Err(e) => match domain_of(value@) {
                None => error::told(e) == domain_refusal(),
                Some(domain) => reserved(claims(all@), tenant@, domain) && error::told(e)
                    == error::refusal(CONFLICT, "域名已存在，请使用其他域名"),
            },
        },
{
    let domain: String = match normalize_domain(value) {
        Ok(domain) => domain,
        Err(e) => {
            return Err(e);
        },
    };
    let ghost views = claims(all@);
    let mut primary: bool = true;
    let mut i: usize = 0;
    while i < all.len()
        invariant
            i <= all@.len(),
            views == claims(all@),
            primary == (forall|j: int|
                0 <= j < i ==> (#[trigger] all@[j]).tenant_id@ != tenant@),
            domain_of(value@) == Some(domain@),
            forall|j: int|
                0 <= j < i ==> !((#[trigger] views[j]).domain == domain@ && (views[j].tenant
                    == tenant@ || views[j].verified)),
        decreases all@.len() - i,
    {
        let ghost before = primary;
        assert(views[i as int] == all@[i as int]@);
        let own: bool = same(all[i].tenant_id.as_str(), tenant);
        if own {
            primary = false;
            assert(all@[i as int].tenant_id@ == tenant@);
        }
        if same(all[i].domain.as_str(), domain.as_str()) && (own || all[i].verified) {
            assert(reserved(views, tenant@, domain@));
            return Err(ApiError::new(CONFLICT, "域名已存在，请使用其他域名"));
        }
        i = i + 1;
    }
    let https: bool = match https_enabled {
        Some(flag) => flag,
        None => true,
    };
    Ok(
        NewDomain {
            id: new_uuid(),
            domain,
            is_primary: primary,
            https_enabled: https,
            settings: create_settings(),
        },
    )
}

/// The names of the services that use a domain, as a sentence lists them.
pub open spec fn quoted_names(names: Seq<Seq<char>>, n: int) -> Seq<char>
    decreases n,
{
    if n <= 0 {
        Seq::empty()
    } else if n == 1 {
        "「"@ + names[0] + "」"@
    } else {
        quoted_names(names, n - 1) + "、「"@ + names[n - 1] + "」"@
    }
}

/// Why a domain cannot be deleted, if it cannot: it is not there, or services use it. At most
/// three of them are named.
pub open spec fn delete_refusal(exists: bool, related: Seq<Seq<char>>) -> Option<error::Refusal> {
    if !exists {
        error::refusal(NOT_FOUND, "域名不存在或已被删除")
    } else if related.len() > 0 {
        error::refusal_of(
            CONFLICT,
            "该域名仍被服务"@ + (if related.len() > 3 {
                quoted_names(related, 3) + "等"@
            } else {
                quoted_names(related, related.len() as int)
            }) + "使用，请先修改或删除关联服务"@,
        )
    } else {
        None
    }
}

/// Whether a domain can be deleted, given the names of the services that use it.
pub fn delete_domain(exists: bool, related: &Vec<String>) -> (r: Result<(), ApiError>)
    ensures
        match r {
            Ok(_) => delete_refusal(exists, text::views(related@)) is None,
            Err(e) => delete_refusal(exists, text::views(related@)) == error::told(e),
        },
{
    if !exists {
        return Err(ApiError::new(NOT_FOUND, "域名不存在或已被删除"));
    }
    if related.len() == 0 {
        return Ok(());
    }
    let ghost names = text::views(related@);
    let n: usize = if related.len() > 3 {
        3
    } else {
        related.len()
    };
    let mut listed: String = join3("「", related[0].as_str(), "」");
    assert(names[0] == related@[0]@);
    let mut i: usize = 1;
    while i < n
        invariant
            1 <= i <= n <= related@.len(),
            names == text::views(related@),
            listed@ == quoted_names(names, i as int),
        decreases n - i,
    {
        assert(names[i as int] == related@[i as int]@);
        let next: String = join3("、「", related[i].as_str(), "」");
        let ghost before = listed@;
        listed = join2(listed.as_str(), next.as_str());
        assert(listed@ =~= before + "、「"@ + names[i as int] + "」"@);
        i = i + 1;
    }
    if related.len() > 3 {
        listed = join2(listed.as_str(), "等");
    }
    let message: String = join3(
        "该域名仍被服务",
        listed.as_str(),
        "使用，请先修改或删除关联服务",
    );
    Err(ApiError { status: CONFLICT, message, code: None })
}

/// Why a change of settings is refused, if it is.
pub open spec fn update_refusal(
    mode: Seq<char>,
    dns: DnsSettings,
    credential_configured: bool,
    legacy: bool,
) -> Option<error::Refusal> {
    if mode != "http01"@ && mode != "cloudflare_dns"@ {
        error::refusal(BAD_REQUEST, "请选择 HTTP 验证或 Cloudflare DNS 验证")
    } else if settings_refusal(dns) is Some {
        settings_refusal(dns)
    } else if mode == "cloudflare_dns"@ && !credential_configured && !legacy {
        error::refusal(BAD_REQUEST, "请先验证并保存 Cloudflare Token，再保存 DNS 证书配置")
    } else {
        None
    }
}

/// Checks a change of settings before the domain is looked up.
pub fn check_input(input: &mut SettingsInput) -> (r: Result<(), ApiError>)
    ensures
        final(input).certificate_mode == old(input).certificate_mode,
        match r {
            Ok(_) => update_refusal(old(input).certificate_mode@, old(input).dns, true, true)
                is None && text::views(final(input).dns.dns_resolvers@) == (if old(
                input,
            ).dns.dns_resolvers@.len() == 0 {
                default_resolvers()
            } else {
                resolver_texts(
                    text::views(old(input).dns.dns_resolvers@),
                    old(input).dns.dns_resolvers@.len() as int,
                )
            }) && final(input).dns.dns_propagation_delay_seconds == old(
                input,
            ).dns.dns_propagation_delay_seconds && final(input).dns.dns_propagation_timeout_seconds
                == old(input).dns.dns_propagation_timeout_seconds,
            Err(e) => update_refusal(old(input).certificate_mode@, old(input).dns, true, true)
                == error::told(e) && *final(input) == *old(input),
        },
{
    if !same(input.certificate_mode.as_str(), "http01") && !same(
        input.certificate_mode.as_str(),
        "cloudflare_dns",
    ) {
        return Err(
            ApiError::new(BAD_REQUEST, "请选择 HTTP 验证或 Cloudflare DNS 验证"),
        );
    }
    input.dns.validate()
}

/// Checks whether a domain may have the certificate mode that is asked for: the DNS challenge
/// needs a credential.
pub fn check_mode(mode: &str, credential_configured: bool, legacy: bool) -> (r: Result<
    (),
    ApiError,
>)
    ensures
        match r {
            Ok(_) => !(mode@ == "cloudflare_dns"@ && !credential_configured && !legacy),
            Err(e) => mode@ == "cloudflare_dns"@ && !credential_configured && !legacy
                && error::told(e) == error::refusal(
                BAD_REQUEST,
                "请先验证并保存 Cloudflare Token，再保存 DNS 证书配置",
            ),
        },
{
    if same(mode, "cloudflare_dns") && !credential_configured && !legacy {
        return Err(
            ApiError::new(
                BAD_REQUEST,
                "请先验证并保存 Cloudflare Token，再保存 DNS 证书配置",
            ),
        );
    }
    Ok(())
}

/// What came of the lookup of the record that proves who owns a domain.
pub enum ProofLookup {
    /// The resolver of the server could not be set up.
    NoResolver,
    /// No answer came in time.
    TimedOut,
    /// There is no such record.
    Missing,
    /// The records, each as its parts joined.
    Found { records: Vec<Vec<u8>> },
}

/// The bytes of each record.
pub open spec fn record_bytes(records: Seq<Vec<u8>>) -> Seq<Seq<u8>> {
    Seq::new(records.len(), |i: int| records[i]@)
}

/// Why a proof is refused, if it is.
pub open spec fn proof_refusal(lookup: ProofLookup, expected: Seq<char>) -> Option<error::Refusal> {
    match lookup {
        ProofLookup::NoResolver => error::refusal(
            SERVICE_UNAVAILABLE,
            "无法读取 Server DNS 配置",
        ),
        ProofLookup::TimedOut => error::refusal(BAD_GATEWAY, "域名归属检查超时，请稍后重试"),
        ProofLookup::Missing => error::refusal(
            BAD_REQUEST,
            "尚未查询到归属 TXT 记录，请核对记录并等待 DNS 生效",
        ),
        ProofLookup::Found { records } => if record_bytes(records@).contains(
            vstd::utf8::encode_utf8(expected),
        ) {
            None
        } else {
            error::refusal(BAD_REQUEST, "TXT 记录与当前工作空间的验证值不一致")
        },
    }
}

fn same_bytes(a: &Vec<u8>, b: &[u8]) -> (r: bool)
    ensures
        r == (a@ == b@),
{
    if a.len() != b.len() {
        return false;
    }
    let mut i: usize = 0;
    while i < a.len()
        invariant
            i <= a@.len() == b@.len(),
            forall|j: int| 0 <= j < i ==> a@[j] == b@[j],
        decreases a@.len() - i,
    {
        if a[i] != b[i] {
            return false;
        }
        i = i + 1;
    }
    assert(a@ =~= b@);
    true
}

/// Checks the record that proves who owns a domain.
pub fn check_proof(lookup: &ProofLookup, expected: &str) -> (r: Result<(), ApiError>)
    ensures
        match r {
            Ok(_) => proof_refusal(*lookup, expected@) is None,
            Err(e) => proof_refusal(*lookup, expected@) == error::told(e),
        },
{
    match lookup {
        ProofLookup::NoResolver => Err(
            ApiError::new(SERVICE_UNAVAILABLE, "无法读取 Server DNS 配置"),
        ),
        ProofLookup::TimedOut => Err(
            ApiError::new(BAD_GATEWAY, "域名归属检查超时，请稍后重试"),
        ),
        ProofLookup::Missing => Err(
            ApiError::new(
                BAD_REQUEST,
                "尚未查询到归属 TXT 记录，请核对记录并等待 DNS 生效",
            ),
        ),
        ProofLookup::Found { records } => {
            let ghost all = record_bytes(records@);
            let ghost wanted = vstd::utf8::encode_utf8(expected@);
            let bytes: &[u8] = expected.as_bytes();
            let mut i: usize = 0;
            while i < records.len()
                invariant
                    i <= records@.len(),
                    all == record_bytes(records@),
                    *lookup == (ProofLookup::Found { records: *records }),
                    bytes@ == wanted,
                    wanted == vstd::utf8::encode_utf8(expected@),
                    forall|j: int| 0 <= j < i ==> #[trigger] all[j] != wanted,
                decreases records@.len() - i,
            {
                assert(all[i as int] == records@[i as int]@);
                if same_bytes(&records[i], bytes) {
                    assert(all.contains(wanted));
                    return Ok(());
                }
                i = i + 1;
            }
            Err(ApiError::new(BAD_REQUEST, "TXT 记录与当前工作空间的验证值不一致"))
        },
    }
}

/// Whether a character may stand in a token.
pub open spec fn token_char(c: char) -> bool {
    ('a' <= c <= 'z') || ('A' <= c <= 'Z') || ('0' <= c <= '9') || c == '_' || c == '-'
}

/// Whether a text is a token of the DNS service: of the old form by its length, or of the new
/// forms by their beginnings; in any case of letters, digits, underscores and hyphens alone.
pub open spec fn is_token(token: Seq<char>) -> bool {
    let after = match text::after_prefix(token, "cfut_"@) {
        Some(rest) => Some(rest),
        None => text::after_prefix(token, "cfat_"@),
    };
    (35 <= token.len() <= 50 || (after matches Some(rest) && 32 <= rest.len() <= 256)) && forall|
        i: int,
    |
        0 <= i < token.len() ==> token_char(#[trigger] token[i])
}

/// Whether a text is a token of the DNS service. One that is cannot hold a placeholder, a path or
/// an end of line.
pub fn valid_token(token: &str) -> (r: bool)
    ensures
        r == is_token(token@),
        r ==> !token@.contains('{') && !token@.contains('/') && !token@.contains('\n'),
{
    let text: Vec<char> = chars_of(token);
    let n: usize = text.len();
    let legacy: bool = 35 <= n && n <= 50;
    let after: Option<String> = match strip_prefix(token, "cfut_") {
        Some(rest) => Some(rest),
        None => strip_prefix(token, "cfat_"),
    };
    let modern: bool = match after {
        Some(rest) => {
            let m: usize = chars_of(rest.as_str()).len();
            32 <= m && m <= 256
        },
        None => false,
    };
    if !(legacy || modern) {
        return false;
    }
    let mut i: usize = 0;
    while i < n
        invariant
            i <= n,
            n == text@.len(),
            text@ == token@,
            forall|j: int| 0 <= j < i ==> token_char(#[trigger] token@[j]),
        decreases n - i,
    {
        let c: char = text[i];
        if !(('a' <= c && c <= 'z') || ('A' <= c && c <= 'Z') || ('0' <= c && c <= '9') || c == '_'
            || c == '-') {
            assert(!token_char(token@[i as int]));
            return false;
        }
        i = i + 1;
    }
    true
}

/// Why the answer of the DNS service is refused, if it is. `None` for a body that is no JSON.
pub open spec fn reply_refusal(accepted: bool, body: Option<Json>) -> Option<error::Refusal> {
    if !accepted {
        error::refusal(
            BAD_REQUEST,
            "Cloudflare 拒绝操作，请检查 Token 的 Zone Read、DNS Edit 权限及域名范围",
        )
    } else {
        match body {
            None => error::refusal(BAD_GATEWAY, "Cloudflare 返回了无法识别的响应"),
            Some(tree) => if json::member(tree, "success"@) == Some(Json::Bool(true)) {
                None
            } else {
                error::refusal(BAD_REQUEST, "Cloudflare 操作失败，请核对 Token 权限")
            },
        }
    }
}

/// What a document that may be missing holds.
pub open spec fn opt_tree(value: Option<&Value>) -> Option<Json> {
    match value {
        Some(value) => Some(json::json_tree(*value)),
        None => None,
    }
}

/// Checks an answer of the DNS service.
pub fn check_reply(accepted: bool, body: Option<&Value>) -> (r: Result<(), ApiError>)
    ensures
        match r {
            Ok(_) => reply_refusal(accepted, opt_tree(body)) is None,
            Err(e) => reply_refusal(accepted, opt_tree(body)) == error::told(e),
        },
{
    if !accepted {
        return Err(
            ApiError::new(
                BAD_REQUEST,
                "Cloudflare 拒绝操作，请检查 Token 的 Zone Read、DNS Edit 权限及域名范围",
            ),
        );
    }
    match body {
        None => Err(ApiError::new(BAD_GATEWAY, "Cloudflare 返回了无法识别的响应")),
        Some(value) => {
            let success: bool = match json_get(value, "success") {
                Some(flag) => match json_as_bool(flag) {
                    Some(flag) => flag,
                    None => false,
                },
                None => false,
            };
            if success {
                Ok(())
            } else {
                Err(ApiError::new(BAD_REQUEST, "Cloudflare 操作失败，请核对 Token 权限"))
            }
        },
    }
}

/// What the search for the zone of a domain does next.
pub enum ZoneStep {
    /// The zone is found.
    Found { id: String },
    /// The parent of the name is tried.
    Parent { name: String },
}

/// The identifier of the first row from position `i` on that has a name. A row with the name but
/// no identifier ends the search.
pub open spec fn zone_id(rows: Seq<Json>, name: Seq<char>, i: int) -> Option<Seq<char>>
    decreases rows.len() - i,
{
    if i < 0 || i >= rows.len() {
        None
    } else if json::text_in(json::member(rows[i], "name"@)) == Some(name) {
        json::text_in(json::member(rows[i], "id"@))
    } else {
        zone_id(rows, name, i + 1)
    }
}

/// The identifier of the zone with a name in an answer.
pub open spec fn zone_in(tree: Json, name: Seq<char>) -> Option<Seq<char>> {
    match json::member(tree, "result"@) {
        Some(Json::Array(rows)) => zone_id(rows, name, 0),
        _ => None,
    }
}

fn member_text(value: &Value, key: &str) -> (r: Option<String>)
    ensures
        text::opt(r) == json::text_in(json::member(json::json_tree(*value), key@)),
{
    match json_get(value, key) {
        Some(found) => match json_as_str(found) {
            Some(text) => Some(text.to_owned()),
            None => None,
        },
        None => None,
    }
}

fn find_zone(value: &Value, name: &str) -> (r: Option<String>)
    ensures
        text::opt(r) == zone_in(json::json_tree(*value), name@),
{
    let rows: Vec<Value> = match json_get(value, "result") {
        Some(found) => match json_items(found) {
            Some(rows) => rows,
            None => {
                return None;
            },
        },
        None => {
            return None;
        },
    };
    let ghost all = json::trees(rows@);
    let mut i: usize = 0;
    while i < rows.len()
        invariant
            i <= rows@.len(),
            all == json::trees(rows@),
            zone_in(json::json_tree(*value), name@) == zone_id(all, name@, i as int),
        decreases rows@.len() - i,
    {
        assert(all[i as int] == json::json_tree(rows@[i as int]));
        let named: Option<String> = member_text(&rows[i], "name");
        if text::is_text(&named, name) {
            return member_text(&rows[i], "id");
        }
        i = i + 1;
    }
    None
}

/// What the search for the zone of a domain does after an accepted answer for a name: the zone is
/// found, or its parent is tried; a name without a parent ends the search.
pub fn zone_step(body: &Value, name: &str) -> (r: Result<ZoneStep, ApiError>)
    ensures
        match r {
            Ok(ZoneStep::Found { id }) => zone_in(json::json_tree(*body), name@) == Some(id@),
            Ok(ZoneStep::Parent { name: parent }) => zone_in(json::json_tree(*body), name@) is None
                && (text::cut_at(name@, '.') matches Some(cut) && cut.1 == parent@)
                && parent@.len() < name@.len(),
            Err(e) => zone_in(json::json_tree(*body), name@) is None && text::cut_at(name@, '.')
                is None && error::told(e) == error::refusal(
                BAD_REQUEST,
                "此 Token 无权管理所填域名",
            ),
        },
{
    if let Some(id) = find_zone(body, name) {
        return Ok(ZoneStep::Found { id });
    }
    match split_once(name, '.') {
        Some((_, parent)) => {
            proof {
                lemma_cut_shorter(name@);
            }
            Ok(ZoneStep::Parent { name: parent })
        },
        None => Err(ApiError::new(BAD_REQUEST, "此 Token 无权管理所填域名")),
    }
}

proof fn lemma_cut_shorter(s: Seq<char>)
    requires
        text::cut_at(s, '.') is Some,
    ensures
        (text::cut_at(s, '.')->0).1.len() < s.len(),
{
    text::lemma_cut(s, '.');
}

/// The identifier of the record that the DNS service has made.
pub fn record_id(body: &Value) -> (r: Result<String, ApiError>)
    ensures
        ({
            let id = match json::member(json::json_tree(*body), "result"@) {
                Some(record) => json::text_in(json::member(record, "id"@)),
                None => None,
            };
            match r {
                Ok(text) => id == Some(text@),
                Err(e) => id is None && error::told(e) == error::refusal(
                    BAD_GATEWAY,
                    "Cloudflare 未返回验证记录 ID",
                ),
            }
        }),
{
    let id: Option<String> = match json_get(body, "result") {
        Some(record) => member_text(record, "id"),
        None => None,
    };
    match id {
        Some(text) => Ok(text),
        None => Err(ApiError::new(BAD_GATEWAY, "Cloudflare 未返回验证记录 ID")),
    }
}

/// The token in what a user has handed in, and the value for the proof record: the stored one, or
/// a fresh one where there is none.
pub fn credential_request(token: &str, proof_value: &str) -> (r: Result<
    (String, String),
    ApiError,
>)
    ensures
        match r {
            Ok(request) => request.0@ == text::trimmed(token@) && is_token(text::trimmed(token@))
                && (if proof_value@.len() > 0 {
                request.1@ == proof_value@
            } else {
                digest::uuid_text(request.1@)
            }),
            Err(e) => !is_token(text::trimmed(token@)) && error::told(e) == error::refusal(
                BAD_REQUEST,
                "Cloudflare Token 格式无效，请粘贴完整 Token",
            ),
        },
{
    let token: String = trim(token);
    if !valid_token(token.as_str()) {
        return Err(
            ApiError::new(BAD_REQUEST, "Cloudflare Token 格式无效，请粘贴完整 Token"),
        );
    }
    let value: String = if proof_value.is_empty() {
        new_uuid()
    } else {
        proof_value.to_owned()
    };
    Ok((token, value))
}

/// Whether a text is the name of a credential file: made by the server, without a directory.
pub open spec fn credential_name_ok(file: Seq<char>) -> bool {
    text::has_prefix(file, "credential-"@) && text::has_suffix(file, ".token"@) && text::byte_len(
        file,
    ) == 53 && !file.contains('/') && !file.contains('\\')
}

/// The file of a credential below a directory; `None` for what is no domain or no credential file.
pub fn credential_path(root: &str, id: &str, file: &str) -> (r: Option<String>)
    ensures
        match r {
            Some(path) => digest::uuid_text(id@) && credential_name_ok(file@) && path@
                == caddy::below(caddy::below(root@, id@), file@),
            None => !(digest::uuid_text(id@) && credential_name_ok(file@)),
        },
{
    if !(is_uuid(id) && starts_with(file, "credential-") && ends_with(file, ".token")
        && text::bytes_of(file) == 53 && !has_char(file, '/') && !has_char(file, '\\')) {
        return None;
    }
    Some(join_path(join_path(root, id).as_str(), file))
}

/// A path that does not depend on the directory in which the process runs.
pub fn absolute_path(path: &str, current: &str) -> (r: String)
    ensures
        r@ == (if text::has_prefix(path@, "/"@) {
            path@
        } else {
            caddy::below(current@, path@)
        }),
{
    if starts_with(path, "/") {
        path.to_owned()
    } else {
        join_path(current, path)
    }
}

/// The file for a new credential of a domain: never one that is already there.
pub fn new_credential_file(id: &str) -> (r: Option<String>)
    ensures
        match r {
            Some(file) => digest::uuid_text(id@) && exists|unique: Seq<char>|
                #![trigger digest::uuid_text(unique)]
                digest::uuid_text(unique) && file@ == "credential-"@ + unique + ".token"@,
            None => !digest::uuid_text(id@),
        },
{
    if !is_uuid(id) {
        return None;
    }
    let unique: String = new_uuid();
    let file: String = join3("credential-", unique.as_str(), ".token");
    assert(digest::uuid_text(unique@));
    Some(file)
}

/// The statement that adds the table of this module to a database.
pub open spec fn schema() -> Seq<Seq<char>> {
    seq![
        "CREATE TABLE IF NOT EXISTS domain_settings (domain_id TEXT PRIMARY KEY REFERENCES public_domains(id) ON DELETE CASCADE,certificate_mode TEXT NOT NULL CHECK(certificate_mode IN ('http01','cloudflare_dns')),verified INTEGER NOT NULL DEFAULT 0,verification_token TEXT NOT NULL,credential_file TEXT,dns_resolvers TEXT NOT NULL DEFAULT '[]',propagation_delay INTEGER,propagation_timeout INTEGER,legacy INTEGER NOT NULL DEFAULT 0);"@,
    ]
}

/// The statement that adds the table of this module to a database. The domains that are there get
/// their settings by `missing_settings`.
pub fn initialize_schema() -> (r: Vec<String>)
    ensures
        text::views(r@) == schema(),
{
    let mut statements: Vec<String> = Vec::new();
    statements.push(
        "CREATE TABLE IF NOT EXISTS domain_settings (domain_id TEXT PRIMARY KEY REFERENCES public_domains(id) ON DELETE CASCADE,certificate_mode TEXT NOT NULL CHECK(certificate_mode IN ('http01','cloudflare_dns')),verified INTEGER NOT NULL DEFAULT 0,verification_token TEXT NOT NULL,credential_file TEXT,dns_resolvers TEXT NOT NULL DEFAULT '[]',propagation_delay INTEGER,propagation_timeout INTEGER,legacy INTEGER NOT NULL DEFAULT 0);".to_owned(),
    );
    assert(text::views(statements@) =~= schema());
    statements
}

/// Which of the first `n` domains have no settings, each once.
pub open spec fn missing_in(ids: Seq<Seq<char>>, known: Seq<Seq<char>>, n: int) -> Seq<Seq<char>>
    decreases n,
{
    if n <= 0 {
        Seq::empty()
    } else {
        let before = missing_in(ids, known, n - 1);
        if known.contains(ids[n - 1]) || before.contains(ids[n - 1]) {
            before
        } else {
            before.push(ids[n - 1])
        }
    }
}

/// Which domains have no settings, given the domains for which some are stored.
pub fn missing_settings(ids: &Vec<String>, known: &Vec<String>) -> (r: Vec<String>)
    ensures
        text::views(r@) == missing_in(text::views(ids@), text::views(known@), ids@.len() as int),
{
    let ghost all = text::views(ids@);
    let ghost stored = text::views(known@);
    let mut missing: Vec<String> = Vec::new();
    assert(text::views(missing@) =~= missing_in(all, stored, 0));
    let mut i: usize = 0;
    while i < ids.len()
        invariant
            i <= ids@.len(),
            all == text::views(ids@),
            stored == text::views(known@),
            text::views(missing@) == missing_in(all, stored, i as int),
        decreases ids@.len() - i,
    {
        assert(all[i as int] == ids@[i as int]@);
        if !holds(known, ids[i].as_str()) && !holds(&missing, ids[i].as_str()) {
            let ghost before = text::views(missing@);
            let id: String = ids[i].clone();
            missing.push(id);
            assert(text::views(missing@) =~= before.push(id@));
        }
        i = i + 1;
    }
    missing
}

/// The domains of stored settings.
pub open spec fn settled(rows: Seq<(Seq<char>, SettingsView)>) -> Seq<Seq<char>> {
    Seq::new(rows.len(), |i: int| rows[i].0)
}

/// The stored settings after each domain without any got those of old.
pub open spec fn adopted(rows: Seq<(Seq<char>, SettingsView)>, ids: Seq<Seq<char>>) -> Seq<
    (Seq<char>, SettingsView),
> {
    let missing = missing_in(ids, settled(rows), ids.len() as int);
    rows + Seq::new(missing.len(), |i: int| (missing[i], settings_of_old()))
}

proof fn lemma_missing(ids: Seq<Seq<char>>, known: Seq<Seq<char>>, n: int, k: int)
    requires
        0 <= k < n <= ids.len(),
    ensures
        known.contains(ids[k]) || missing_in(ids, known, n).contains(ids[k]),
    decreases n,
{
    let before = missing_in(ids, known, n - 1);
    let after = missing_in(ids, known, n);
    if k < n - 1 {
        lemma_missing(ids, known, n - 1, k);
        if before.contains(ids[k]) {
            let at = choose|i: int| 0 <= i < before.len() && before[i] == ids[k];
            assert(after[at] == ids[k]);
        }
    } else if after.len() > before.len() {
        assert(after[before.len() as int] == ids[k]);
    }
}

proof fn lemma_none_missing(ids: Seq<Seq<char>>, known: Seq<Seq<char>>, n: int)
    requires
        0 <= n <= ids.len(),
        forall|k: int| 0 <= k < ids.len() ==> known.contains(#[trigger] ids[k]),
    ensures
        missing_in(ids, known, n) == Seq::<Seq<char>>::empty(),
    decreases n,
{
    if n > 0 {
        lemma_none_missing(ids, known, n - 1);
        assert(known.contains(ids[n - 1]));
    }
}

/// Once the domains without settings have got theirs, each domain has some; those that were there
/// are as they were, and the new ones are those of old. Doing it again changes nothing.
pub proof fn every_domain_gets_settings_once(
    rows: Seq<(Seq<char>, SettingsView)>,
    ids: Seq<Seq<char>>,
)
    ensures
        ({
            let after = adopted(rows, ids);
            &&& after.len() >= rows.len() && after.take(rows.len() as int) == rows
            &&& forall|i: int|
                rows.len() <= i < after.len() ==> (#[trigger] after[i]).1 == settings_of_old()
            &&& forall|k: int| 0 <= k < ids.len() ==> settled(after).contains(#[trigger] ids[k])
            &&& adopted(after, ids) == after
        }),
{
    let after = adopted(rows, ids);
    let known = settled(rows);
    let missing = missing_in(ids, known, ids.len() as int);
    assert(after.take(rows.len() as int) =~= rows);
    assert forall|k: int| 0 <= k < ids.len() implies settled(after).contains(#[trigger] ids[k]) by {
        lemma_missing(ids, known, ids.len() as int, k);
        if known.contains(ids[k]) {
            let at = choose|i: int| 0 <= i < known.len() && known[i] == ids[k];
            assert(settled(after)[at] == ids[k]);
        } else {
            let at = choose|i: int| 0 <= i < missing.len() && missing[i] == ids[k];
            assert(settled(after)[rows.len() + at] == ids[k]);
        }
    }
    lemma_none_missing(ids, settled(after), ids.len() as int);
    assert(adopted(after, ids) =~= after);
}

/// An accepted domain is the ASCII form of what was entered, in lower case, with two labels at least,
/// of which the last is not a number; each holds letters, digits and inner hyphens.
pub proof fn accepted_domains_are_names(value: Seq<char>)
    requires
        domain_of(value) is Some,
    ensures
        ({
            let domain = domain_of(value)->0;
            let labels = text::split(domain, '.');
            &&& idna_ascii(bare(value)) is Some && domain == text::lowered(
                idna_ascii(bare(value))->0,
            )
            &&& domain.len() <= 253
            &&& labels.len() >= 2
            &&& !number::all_digits(labels.last())
            &&& forall|i: int|
                0 <= i < labels.len() ==> 1 <= (#[trigger] labels[i]).len() <= 63 && labels[i][0]
                    != '-' && labels[i].last() != '-'
            &&& forall|i: int, j: int|
                0 <= i < labels.len() && 0 <= j < labels[i].len() ==> {
                    let c = #[trigger] labels[i][j];
                    ('a' <= c <= 'z') || ('A' <= c <= 'Z') || ('0' <= c <= '9') || c == '-'
                }
        }),
{
    let labels = text::split(domain_of(value)->0, '.');
    assert forall|i: int| 0 <= i < labels.len() implies 1 <= (#[trigger] labels[i]).len() <= 63
        && labels[i][0] != '-' && labels[i].last() != '-' by {
        assert(is_label(labels[i]));
    }
    assert forall|i: int, j: int| 0 <= i < labels.len() && 0 <= j < labels[i].len() implies ({
        let c = #[trigger] labels[i][j];
        ('a' <= c <= 'z') || ('A' <= c <= 'Z') || ('0' <= c <= '9') || c == '-'
    }) by {
        assert(is_label(labels[i]));
        assert(label_char(labels[i][j]));
    }
}

proof fn lemma_resolvers_accepted(entries: Seq<Seq<char>>, i: int)
    requires
        0 <= i <= entries.len(),
    ensures
        resolver_refusal(entries, i) is None <==> forall|k: int|
            i <= k < entries.len() ==> resolver_of(#[trigger] entries[k]) is Some
                && usable_resolver(resolver_of(entries[k])->0),
    decreases entries.len() - i,
{
    if i < entries.len() {
        lemma_resolvers_accepted(entries, i + 1);
    }
}

/// DNS settings are accepted with at most four resolvers, each an address with a port, a wait of two
/// minutes at most and a limit of one second to ten minutes; and only so.
pub proof fn dns_settings_stay_within_their_bounds(dns: DnsSettings)
    ensures
        settings_refusal(dns) is None <==> {
            &&& dns.dns_resolvers@.len() <= 4
            &&& forall|k: int|
                0 <= k < dns.dns_resolvers@.len() ==> {
                    let socket = resolver_of((#[trigger] dns.dns_resolvers@[k])@);
                    socket is Some && socket->0.port != 0 && !socket->0.ip.unspecified()
                        && !socket->0.ip.multicast()
                }
            &&& dns.dns_propagation_delay_seconds is Some ==> dns.dns_propagation_delay_seconds->0
                <= 120
            &&& dns.dns_propagation_timeout_seconds is Some ==> 1
                <= dns.dns_propagation_timeout_seconds->0 <= 600
        },
        settings_refusal(dns) is Some ==> settings_refusal(dns)->0.status == 400,
{
    let entries = text::views(dns.dns_resolvers@);
    lemma_resolvers_accepted(entries, 0);
    lemma_resolver_refusal_status(entries, 0);
    assert forall|k: int| 0 <= k < entries.len() implies #[trigger] entries[k]
        == dns.dns_resolvers@[k]@ by {}
    if resolver_refusal(entries, 0) is None {
        assert forall|k: int| 0 <= k < dns.dns_resolvers@.len() implies ({
            let socket = resolver_of((#[trigger] dns.dns_resolvers@[k])@);
            socket is Some && socket->0.port != 0 && !socket->0.ip.unspecified()
                && !socket->0.ip.multicast()
        }) by {
            assert(entries[k] == dns.dns_resolvers@[k]@);
        }
    }
}

proof fn lemma_resolver_refusal_status(entries: Seq<Seq<char>>, i: int)
    ensures
        resolver_refusal(entries, i) is Some ==> resolver_refusal(entries, i)->0.status == 400,
    decreases entries.len() - i,
{
    if 0 <= i < entries.len() {
        lemma_resolver_refusal_status(entries, i + 1);
    }
}

/// A resolver without a port is asked on the port of DNS; one with a port is taken as it is.
pub proof fn resolvers_are_asked_on_their_port(entry: Seq<char>)
    ensures
        ip::ip_of(text::trimmed(entry)) is Some ==> resolver_of(entry) is Some && resolver_of(
            entry,
        )->0.port == 53 && Some(resolver_of(entry)->0.ip) == ip::ip_of(text::trimmed(entry)),
        ip::ip_of(text::trimmed(entry)) is None ==> resolver_of(entry) == ip::socket_of(
            text::trimmed(entry),
        ),
{
}

proof fn lemma_resolver_text_kept(entries: Seq<Seq<char>>, n: int, k: int)
    requires
        0 <= k < n <= entries.len(),
    ensures
        resolver_texts(entries, n).contains(ip::socket_text(resolver_of(entries[k])->0)),
    decreases n,
{
    let before = resolver_texts(entries, n - 1);
    let added = ip::socket_text(resolver_of(entries[n - 1])->0);
    let wanted = ip::socket_text(resolver_of(entries[k])->0);
    if k == n - 1 {
        if !before.contains(added) {
            assert(before.push(added)[before.len() as int] == added);
        }
    } else {
        lemma_resolver_text_kept(entries, n - 1, k);
        let j = choose|j: int| 0 <= j < before.len() && before[j] == wanted;
        assert(before.push(added)[j] == wanted);
    }
}

proof fn lemma_resolver_text_from(entries: Seq<Seq<char>>, n: int, j: int) -> (k: int)
    requires
        0 <= n <= entries.len(),
        0 <= j < resolver_texts(entries, n).len(),
    ensures
        0 <= k < n,
        ip::socket_text(resolver_of(entries[k])->0) == resolver_texts(entries, n)[j],
    decreases n,
{
    let before = resolver_texts(entries, n - 1);
    if n > 0 && j < before.len() {
        lemma_resolver_text_from(entries, n - 1, j)
    } else {
        n - 1
    }
}

/// The stored resolvers are the entered ones, and no others.
pub proof fn resolvers_are_stored_as_entered(entries: Seq<Seq<char>>)
    ensures
        forall|text: Seq<char>| #[trigger]
            resolver_texts(entries, entries.len() as int).contains(text) <==> exists|k: int|
                0 <= k < entries.len() && ip::socket_text(resolver_of(#[trigger] entries[k])->0)
                    == text,
{
    assert forall|text: Seq<char>| #[trigger]
        resolver_texts(entries, entries.len() as int).contains(text) <==> exists|k: int|
            0 <= k < entries.len() && ip::socket_text(resolver_of(#[trigger] entries[k])->0)
                == text by {
        let n = entries.len() as int;
        let texts = resolver_texts(entries, n);
        if texts.contains(text) {
            let j = choose|j: int| 0 <= j < texts.len() && texts[j] == text;
            let k = lemma_resolver_text_from(entries, n, j);
            assert(ip::socket_text(resolver_of(entries[k])->0) == text);
        }
        if exists|k: int|
            0 <= k < n && ip::socket_text(resolver_of(#[trigger] entries[k])->0) == text {
            let k = choose|k: int|
                0 <= k < n && ip::socket_text(resolver_of(#[trigger] entries[k])->0) == text;
            lemma_resolver_text_kept(entries, n, k);
        }
    }
}

/// Stored resolvers are read as they were written; where there are none, two public ones serve.
pub proof fn stored_resolvers_are_read_back(text: Seq<char>, items: Seq<Json>)
    requires
        json::json_of(text) == Some(Json::Array(items)),
        forall|i: int| 0 <= i < items.len() ==> (#[trigger] items[i]) is Text,
    ensures
        items.len() > 0 ==> stored_resolvers(text) is Some && stored_resolvers(text)->0.len()
            == items.len() && forall|i: int|
            0 <= i < items.len() ==> Json::Text(#[trigger] stored_resolvers(text)->0[i])
                == items[i],
        items.len() == 0 ==> stored_resolvers(text) == Some(
            seq!["223.5.5.5:53"@, "223.6.6.6:53"@],
        ),
{
    if items.len() > 0 {
        assert forall|i: int| 0 <= i < items.len() implies Json::Text(
            #[trigger] stored_resolvers(text)->0[i],
        ) == items[i] by {
            assert(items[i] is Text);
        }
    }
}

/// A domain without settings counts as proved and as set up by the old way; a stored one is shown as
/// it is, with the record to set up exactly while it is not proved.
pub proof fn settings_are_shown_as_they_are_stored(
    row: Option<SettingsRow>,
    domain: Seq<char>,
    shown: Settings,
)
    requires
        loaded(row, domain, shown),
    ensures
        row is None ==> shown.certificate_mode@ == "cloudflare_dns"@ && shown.verification_status@
            == "verified"@ && shown.verification_record is None && shown.legacy
            && !shown.credential_configured,
        row is Some ==> {
            &&& shown.certificate_mode@ == row->0.certificate_mode@
            &&& row->0.verified ==> shown.verification_status@ == "verified"@
                && shown.verification_record is None
            &&& !row->0.verified ==> shown.verification_status@ == "pending"@
                && shown.verification_record is Some && shown.verification_record->0.name@
                == "_nexo-verification."@ + domain && shown.verification_record->0.value@
                == row->0.verification_token@
            &&& shown.credential_configured <==> row->0.credential_file is Some
            &&& text::opt(shown.credential_file) == text::opt(row->0.credential_file)
            &&& shown.dns.dns_propagation_delay_seconds == row->0.propagation_delay
            &&& shown.dns.dns_propagation_timeout_seconds == row->0.propagation_timeout
            &&& shown.legacy == row->0.legacy
        },
{
}

/// Two domains share a range where they are the same or one lies below the other, whichever is named
/// first.
pub proof fn ranges_overlap_both_ways(a: Seq<char>, b: Seq<char>, label: Seq<char>)
    ensures
        ranges_overlap(a, a),
        ranges_overlap(a, b) == ranges_overlap(b, a),
        ranges_overlap(label + "."@ + a, a),
        ranges_overlap(a, b) && a.len() == b.len() ==> a == b,
        ranges_overlap(a, b) && a.len() > b.len() ==> text::has_suffix(a, b) && a[a.len()
            - b.len() - 1] == '.',
{
    reveal_strlit(".");
    let below = label + "."@ + a;
    assert(below.skip(below.len() - ("."@ + a).len()) =~= "."@ + a);
    if ranges_overlap(a, b) && a.len() > b.len() {
        let tail = a.skip(a.len() - ("."@ + b).len());
        assert(tail == "."@ + b);
        assert(tail[0] == '.');
        assert(a.skip(a.len() - b.len()) =~= tail.skip(1));
        assert(("."@ + b).skip(1) =~= b);
    }
}

/// A workspace can prove a domain where no other has proved one of its range and no service has it as
/// its address; and only there.
pub proof fn domains_are_proved_once(
    tenant: Seq<char>,
    domain: Seq<char>,
    others: Seq<ClaimView>,
    addresses: Seq<Seq<char>>,
)
    ensures
        claim_refusal(tenant, domain, others, addresses) is None <==> !addresses.contains(domain)
            && forall|i: int|
            0 <= i < others.len() && (#[trigger] others[i]).verified && others[i].tenant != tenant
                ==> !ranges_overlap(domain, others[i].domain),
        claim_refusal(tenant, domain, others, addresses) is Some ==> claim_refusal(
            tenant,
            domain,
            others,
            addresses,
        )->0.status == 409,
{
    if claim_refusal(tenant, domain, others, addresses) is None {
        assert forall|i: int|
            0 <= i < others.len() && (#[trigger] others[i]).verified && others[i].tenant
                != tenant implies !ranges_overlap(domain, others[i].domain) by {
            assert(!blocks(others[i], tenant, domain));
        }
    }
}

/// A domain is taken for a workspace that has it already, and for every other once it is proved.
pub proof fn domains_are_added_once(all: Seq<ClaimView>, k: int, tenant: Seq<char>)
    requires
        0 <= k < all.len(),
    ensures
        reserved(all, all[k].tenant, all[k].domain),
        all[k].verified ==> reserved(all, tenant, all[k].domain),
        (forall|i: int|
            0 <= i < all.len() && (#[trigger] all[i]).domain == all[k].domain ==> all[i].tenant
                != tenant && !all[i].verified) ==> !reserved(all, tenant, all[k].domain),
{
}

/// A domain that is there is deleted once no service uses it; before, it is not.
pub proof fn used_domains_are_not_deleted(exists: bool, related: Seq<Seq<char>>)
    ensures
        delete_refusal(exists, related) is None <==> exists && related.len() == 0,
        !exists ==> delete_refusal(exists, related)->0.status == 404,
        exists && related.len() > 0 ==> delete_refusal(exists, related)->0.status == 409,
{
}

/// Settings are stored for one of the two ways to a certificate; the one over DNS needs a credential,
/// but for a domain of the old way.
pub proof fn certificates_over_dns_need_a_credential(
    mode: Seq<char>,
    dns: DnsSettings,
    credential_configured: bool,
    legacy: bool,
)
    ensures
        update_refusal(mode, dns, credential_configured, legacy) is None <==> (mode == "http01"@
            || (mode == "cloudflare_dns"@ && (credential_configured || legacy)))
            && settings_refusal(dns) is None,
{
    reveal_strlit("http01");
    reveal_strlit("cloudflare_dns");
    assert("http01"@.len() != "cloudflare_dns"@.len());
}

/// A domain is proved where one of the found records holds the expected value, and only there.
pub proof fn domains_are_proved_by_their_record(lookup: ProofLookup, expected: Seq<char>)
    ensures
        proof_refusal(lookup, expected) is None <==> (lookup matches ProofLookup::Found { records }
            && exists|i: int|
            0 <= i < records@.len() && (#[trigger] records@[i])@ == vstd::utf8::encode_utf8(
                expected,
            )),
{
    if let ProofLookup::Found { records } = lookup {
        let list = record_bytes(records@);
        let wanted = vstd::utf8::encode_utf8(expected);
        if list.contains(wanted) {
            let i = choose|i: int| 0 <= i < list.len() && list[i] == wanted;
            assert(records@[i]@ == wanted);
        }
        if exists|i: int| 0 <= i < records@.len() && (#[trigger] records@[i])@ == wanted {
            let i = choose|i: int| 0 <= i < records@.len() && (#[trigger] records@[i])@ == wanted;
            assert(list[i] == wanted);
        }
    }
}

/// A token holds letters, digits, underscores and hyphens alone. It has thirty-five to fifty of them,
/// or after one of two prefixes thirty-two to 256.
pub proof fn tokens_have_their_form(token: Seq<char>)
    requires
        is_token(token),
    ensures
        forall|i: int|
            0 <= i < token.len() ==> {
                let c = #[trigger] token[i];
                ('a' <= c <= 'z') || ('A' <= c <= 'Z') || ('0' <= c <= '9') || c == '_' || c == '-'
            },
        35 <= token.len() <= 261,
        token.len() > 50 ==> token.take(5) == "cfut_"@ || token.take(5) == "cfat_"@,
{
    reveal_strlit("cfut_");
    reveal_strlit("cfat_");
    assert forall|i: int| 0 <= i < token.len() implies ({
        let c = #[trigger] token[i];
        ('a' <= c <= 'z') || ('A' <= c <= 'Z') || ('0' <= c <= '9') || c == '_' || c == '-'
    }) by {
        assert(token_char(token[i]));
    }
}

/// A reply is taken where it came with success and says so itself.
pub proof fn replies_tell_their_success(accepted: bool, body: Option<Json>)
    ensures
        reply_refusal(accepted, body) is None <==> accepted && body is Some && json::member(
            body->0,
            "success"@,
        ) == Some(Json::Bool(true)),
        !accepted ==> reply_refusal(accepted, body)->0.status == 400,
        accepted && body is None ==> reply_refusal(accepted, body)->0.status == 502,
{
}

proof fn lemma_zone_found(rows: Seq<Json>, name: Seq<char>, i: int, k: int)
    requires
        0 <= i <= k < rows.len(),
        json::text_in(json::member(rows[k], "name"@)) == Some(name),
        forall|j: int|
            0 <= j < k ==> json::text_in(json::member(#[trigger] rows[j], "name"@)) != Some(name),
    ensures
        zone_id(rows, name, i) == json::text_in(json::member(rows[k], "id"@)),
    decreases rows.len() - i,
{
    if i < k {
        assert(json::text_in(json::member(rows[i], "name"@)) != Some(name));
        lemma_zone_found(rows, name, i + 1, k);
    }
}

proof fn lemma_zone_missing(rows: Seq<Json>, name: Seq<char>, i: int)
    requires
        0 <= i <= rows.len(),
        forall|j: int|
            0 <= j < rows.len() ==> json::text_in(json::member(#[trigger] rows[j], "name"@))
                != Some(name),
    ensures
        zone_id(rows, name, i) is None,
    decreases rows.len() - i,
{
    if i < rows.len() {
        assert(json::text_in(json::member(rows[i], "name"@)) != Some(name));
        lemma_zone_missing(rows, name, i + 1);
    }
}

/// The zone of a name is the first one listed under that name, and there is none where none is.
pub proof fn zones_are_found_by_their_name(tree: Json, rows: Seq<Json>, name: Seq<char>)
    requires
        json::member(tree, "result"@) == Some(Json::Array(rows)),
    ensures
        forall|k: int|
            0 <= k < rows.len() && json::text_in(json::member(#[trigger] rows[k], "name"@)) == Some(
                name,
            ) && (forall|j: int|
                0 <= j < k ==> json::text_in(json::member(#[trigger] rows[j], "name"@)) != Some(
                    name,
                )) ==> zone_in(tree, name) == json::text_in(json::member(rows[k], "id"@)),
        (forall|j: int|
            0 <= j < rows.len() ==> json::text_in(json::member(#[trigger] rows[j], "name"@))
                != Some(name)) ==> zone_in(tree, name) is None,
{
    assert forall|k: int|
        0 <= k < rows.len() && json::text_in(json::member(#[trigger] rows[k], "name"@)) == Some(
            name,
        ) && (forall|j: int|
            0 <= j < k ==> json::text_in(json::member(#[trigger] rows[j], "name"@)) != Some(
                name,
            )) implies zone_in(tree, name) == json::text_in(json::member(rows[k], "id"@)) by {
        lemma_zone_found(rows, name, 0, k);
    }
    if forall|j: int|
        0 <= j < rows.len() ==> json::text_in(json::member(#[trigger] rows[j], "name"@)) != Some(
            name,
        ) {
        lemma_zone_missing(rows, name, 0);
    }
}

/// The file of a credential has a name of its own kind, which leads to no other directory.
pub proof fn credential_files_stay_in_their_directory(file: Seq<char>)
    requires
        credential_name_ok(file),
    ensures
        text::has_prefix(file, "credential-"@),
        text::has_suffix(file, ".token"@),
        !file.contains('/'),
        !file.contains('\\'),
        text::byte_len(file) == 53,
{
}

/// A domain gets settings where it has none, once, and no other does.
pub proof fn domains_without_settings_get_them(
    ids: Seq<Seq<char>>,
    known: Seq<Seq<char>>,
    n: int,
    id: Seq<char>,
)
    requires
        0 <= n <= ids.len(),
    ensures
        missing_in(ids, known, n).contains(id) <==> !known.contains(id) && exists|k: int|
            0 <= k < n && #[trigger] ids[k] == id,
    decreases n,
{
    if n > 0 {
        domains_without_settings_get_them(ids, known, n - 1, id);
        let before = missing_in(ids, known, n - 1);
        let last = ids[n - 1];
        if !known.contains(last) && !before.contains(last) {
            assert(before.push(last)[before.len() as int] == last);
            if before.contains(id) {
                let j = choose|j: int| 0 <= j < before.len() && before[j] == id;
                assert(before.push(last)[j] == id);
            }
            if before.push(last).contains(id) && id != last {
                let j = choose|j: int|
                    0 <= j < before.push(last).len() && before.push(last)[j] == id;
                assert(before[j] == id);
            }
        }
        if exists|k: int| 0 <= k < n && #[trigger] ids[k] == id {
            let k = choose|k: int| 0 <= k < n && #[trigger] ids[k] == id;
            if k < n - 1 {
                assert(ids[k] == id);
            }
        }
    }
}

/// The settings that an old domain gets leave it served as it was: proved, over DNS, with nothing of
/// its own.
pub proof fn old_domains_are_served_as_before()
    ensures
        settings_of_old().verified,
        settings_of_old().legacy,
        settings_of_old().certificate_mode == "cloudflare_dns"@,
        settings_of_old().credential_file is None,
        settings_of_old().propagation_delay is None,
        settings_of_old().propagation_timeout is None,
{
}

/// A new domain is unproved, with a record of its own, and the first of its workspace is the main one.
pub proof fn new_domains_are_unproved(
    tenant: &str,
    value: &str,
    https_enabled: Option<bool>,
    all: &Vec<DomainClaim>,
    r: Result<NewDomain, ApiError>,
)
    requires
        call_ensures(create_domain, (tenant, value, https_enabled, all), r),
    ensures
        r matches Ok(added) ==> {
            &&& domain_of(value@) == Some(added.domain@)
            &&& !added.settings.verified && !added.settings.legacy
            &&& added.settings.certificate_mode@ == "http01"@
            &&& https_enabled is Some ==> added.https_enabled == https_enabled->0
            &&& https_enabled is None ==> added.https_enabled
            &&& added.is_primary <==> forall|i: int|
                0 <= i < all@.len() ==> (#[trigger] all@[i]).tenant_id@ != tenant@
            &&& forall|i: int|
                0 <= i < all@.len() && (#[trigger] all@[i]).domain@ == added.domain@
                    ==> all@[i].tenant_id@ != tenant@ && !all@[i].verified
        },
        domain_of(value@) is None ==> r is Err,
        r matches Err(e) ==> e.status == 400 || e.status == 409,
{
    if let Ok(added) = r {
        let list = claims(all@);
        assert forall|i: int|
            0 <= i < all@.len() && (#[trigger] all@[i]).domain@ == added.domain@ implies all@[i].tenant_id@
            != tenant@ && !all@[i].verified by {
            assert(list[i] == all@[i]@);
            assert(!reserved(list, tenant@, added.domain@));
        }
    }
}

/// A zone is looked for at the name and then at its parents, one label shorter each time.
pub proof fn zones_are_looked_for_upwards(body: &Value, name: &str, r: Result<ZoneStep, ApiError>)
    requires
        call_ensures(zone_step, (body, name), r),
    ensures
        (r matches Ok(ZoneStep::Found { id }) ==> zone_in(json::json_tree(*body), name@) == Some(
            id@,
        )),
        (r matches Ok(ZoneStep::Parent { name: parent }) ==> parent@.len() < name@.len()
            && text::has_suffix(name@, parent@) && zone_in(json::json_tree(*body), name@) is None),
        zone_in(json::json_tree(*body), name@) is Some ==> r is Ok && r->Ok_0 is Found,
        r is Err ==> !name@.contains('.') && r->Err_0.status == 400,
{
    if let Ok(ZoneStep::Parent { name: parent }) = r {
        text::cuts_come_together_again(name@, '.');
        let cut = text::cut_at(name@, '.')->0;
        assert(name@.skip(name@.len() - parent@.len()) =~= parent@);
    }
}

/// A credential is tried as it was handed in, without white space round it.
pub proof fn credentials_are_tried_as_handed_in(
    token: &str,
    proof_value: &str,
    r: Result<(String, String), ApiError>,
)
    requires
        call_ensures(credential_request, (token, proof_value), r),
    ensures
        r is Ok <==> is_token(text::trimmed(token@)),
        r matches Ok(request) ==> request.0@ == text::trimmed(token@) && (proof_value@.len() > 0
            ==> request.1@ == proof_value@),
        r matches Err(e) ==> e.status == 400,
{
}

} // verus!
