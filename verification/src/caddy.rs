//! The edge process: its settings, the events of its log, and what is kept of both.
use serde_json::Value;
use vstd::prelude::*;
use vstd::string::*;

use crate::digest;
use crate::digest::{hex_encode, sha256};
use crate::json;
use crate::json::{
    json_as_str, json_as_u64, json_ceiling, json_get, json_is_object, json_items, json_members,
    json_whole, parse_json, Json,
};
use crate::number;
use crate::number::{parse_unsigned, read_digits};
use crate::order;
use crate::order::insert_ordered;
use crate::text;
use crate::text::{
    bytes_of, chars_of, find, has, is_text, join3, lower, replace, same, shorten, starts_with,
    strip_prefix, strip_suffix, text_between, trim, trim_left,
};

verus! {

pub const CADDY_VERSION: &'static str = "2.11.4";

pub const XCADDY_VERSION: &'static str = "0.4.7";

pub const CLOUDFLARE_MODULE_VERSION: &'static str = "0.2.4";

/// What the log of the edge process says of the life of certificates.
#[derive(Debug, Clone)]
pub struct CaddyLogEvent {
    pub level: Option<String>,
    pub logger: Option<String>,
    pub message: String,
    pub identifier: Option<String>,
    pub status_code: Option<u16>,
    pub retry_after_secs: Option<u64>,
    pub occurred_at: Option<i64>,
}

/// An event as mathematics.
pub struct EventView {
    pub level: Option<Seq<char>>,
    pub logger: Option<Seq<char>>,
    pub message: Seq<char>,
    pub identifier: Option<Seq<char>>,
    pub status_code: Option<u16>,
    pub retry_after_secs: Option<u64>,
    pub occurred_at: Option<i64>,
}

impl View for CaddyLogEvent {
    type V = EventView;

    open spec fn view(&self) -> EventView {
        EventView {
            level: text::opt(self.level),
            logger: text::opt(self.logger),
            message: self.message@,
            identifier: text::opt(self.identifier),
            status_code: self.status_code,
            retry_after_secs: self.retry_after_secs,
            occurred_at: self.occurred_at,
        }
    }
}

/// Whether an event tells that the certificate authority limits requests.
pub open spec fn rate_limited(event: EventView) -> bool {
    let message = text::lowered(event.message);
    ||| event.status_code == Some(429u16)
    ||| text::contains(message, "rate limit"@)
    ||| text::contains(message, "too many certificates"@)
    ||| text::contains(message, "retry-after"@)
}

/// The stage that an event puts a certificate into, where it tells one.
pub open spec fn stage_of(event: EventView) -> Option<Seq<char>> {
    let message = text::lowered(event.message);
    if rate_limited(event) || event.retry_after_secs is Some || text::contains(message, "will retry"@)
        || text::contains(message, "retrying in"@) {
        Some("retry_wait"@)
    } else if event.level == Some("error"@) || (event.status_code matches Some(code) && code
        >= 400) {
        Some("failed"@)
    } else if text::contains(message, "presenting"@) && text::contains(message, "challenge"@) {
        Some("presenting_dns"@)
    } else if text::contains(message, "propagation"@) || text::contains(message, "dns record"@) {
        Some("waiting_dns"@)
    } else if text::contains(message, "validating"@) || text::contains(message, "authorization"@) || text::contains(
        message,
        "challenge accepted"@,
    ) {
        Some("validating"@)
    } else if text::contains(message, "certificate obtained"@) || text::contains(
        message,
        "downloaded certificate"@,
    ) || text::contains(message, "certificate renewed"@) {
        Some("issued"@)
    } else if text::contains(message, "certificate loaded"@) {
        Some("active"@)
    } else if text::contains(message, "renewing certificate"@) {
        Some("renewing"@)
    } else if text::contains(message, "obtaining certificate"@) || text::contains(message, "acme client"@) {
        Some("waiting_configuration"@)
    } else {
        None
    }
}

impl CaddyLogEvent {
    /// Whether the event tells that the certificate authority limits requests.
    pub fn is_rate_limited(&self) -> (r: bool)
        ensures
            r == rate_limited(self@),
    {
        let message: String = lower(self.message.as_str());
        let limited: bool = match self.status_code {
            Some(code) => code == 429,
            None => false,
        };
        limited || has(message.as_str(), "rate limit") || has(
            message.as_str(),
            "too many certificates",
        ) || has(message.as_str(), "retry-after")
    }

    /// The stage that the event puts a certificate into, where it tells one.
    pub fn certificate_stage(&self) -> (r: Option<&'static str>)
        ensures
            text::opt_str(r) == stage_of(self@),
    {
        let message: String = lower(self.message.as_str());
        let m: &str = message.as_str();
        if self.is_rate_limited() || self.retry_after_secs.is_some() || has(m, "will retry")
            || has(m, "retrying in") {
            return Some("retry_wait");
        }
        let failed: bool = match self.status_code {
            Some(code) => code >= 400,
            None => false,
        };
        if is_text(&self.level, "error") || failed {
            return Some("failed");
        }
        if has(m, "presenting") && has(m, "challenge") {
            return Some("presenting_dns");
        }
        if has(m, "propagation") || has(m, "dns record") {
            return Some("waiting_dns");
        }
        if has(m, "validating") || has(m, "authorization") || has(m, "challenge accepted") {
            return Some("validating");
        }
        if has(m, "certificate obtained") || has(m, "downloaded certificate") || has(
            m,
            "certificate renewed",
        ) {
            return Some("issued");
        }
        if has(m, "certificate loaded") {
            return Some("active");
        }
        if has(m, "renewing certificate") {
            return Some("renewing");
        }
        if has(m, "obtaining certificate") || has(m, "acme client") {
            return Some("waiting_configuration");
        }
        None
    }
}

/// The number of digits at the start of a text, from position `i` on.
pub open spec fn digit_run(s: Seq<char>, i: int) -> int
    decreases s.len() - i,
{
    if 0 <= i < s.len() && '0' <= s[i] <= '9' {
        1 + digit_run(s, i + 1)
    } else {
        0
    }
}

/// The digits at the start of a text.
pub open spec fn leading_digits(s: Seq<char>) -> Seq<char> {
    s.take(digit_run(s, 0))
}

/// The status code that follows a marker in a text: a number from 400 to 599 behind it.
pub open spec fn code_after(s: Seq<char>, marker: Seq<char>) -> Option<u16> {
    match text::first_from(s, marker, 0) {
        Some(at) => {
            match number::digits_within(leading_digits(text::trimmed_left(s.skip(at + marker.len()))), 65535) {
                Some(code) => if 400 <= code <= 599 {
                    Some(code as u16)
                } else {
                    None
                },
                None => None,
            }
        },
        None => None,
    }
}

/// The first of two results that is present.
pub open spec fn first_of<T>(a: Option<T>, b: Option<T>) -> Option<T> {
    if a is Some {
        a
    } else {
        b
    }
}

/// The HTTP status code that a message tells, behind one of the known markers.
pub open spec fn message_status(message: Seq<char>) -> Option<u16> {
    let s = text::lowered(message);
    first_of(
        code_after(s, "http "@),
        first_of(
            code_after(s, "http/1.1 "@),
            first_of(
                code_after(s, "http/2 "@),
                first_of(
                    code_after(s, "status "@),
                    first_of(code_after(s, "status:"@), code_after(s, "status_code:"@)),
                ),
            ),
        ),
    )
}

/// A run of digits ends with the text.
pub proof fn lemma_digit_run_bound(s: Seq<char>, i: int)
    requires
        0 <= i <= s.len(),
    ensures
        0 <= digit_run(s, i) <= s.len() - i,
    decreases s.len() - i,
{
    if i < s.len() && '0' <= s[i] <= '9' {
        lemma_digit_run_bound(s, i + 1);
    }
}

/// The first run of digits in a text that is a number of 64 bits.
pub open spec fn first_number(s: Seq<char>) -> Option<u64>
    decreases s.len(),
{
    if s.len() == 0 {
        None
    } else if digit_run(s, 0) > 0 {
        match number::digits_within(leading_digits(s), u64::MAX as nat) {
            Some(n) => Some(n as u64),
            None => {
                proof {
                    lemma_digit_run_bound(s, 0);
                }
                first_number(s.skip(digit_run(s, 0)))
            },
        }
    } else {
        first_number(s.skip(1))
    }
}

/// The first number behind a marker in a text.
pub open spec fn number_after(s: Seq<char>, marker: Seq<char>) -> Option<u64> {
    match text::first_from(s, marker, 0) {
        Some(at) => first_number(s.skip(at + marker.len())),
        None => None,
    }
}

/// The number of seconds after which a message asks to try again.
pub open spec fn message_retry(message: Seq<char>) -> Option<u64> {
    let s = text::lowered(message);
    first_of(
        number_after(s, "retry-after"@),
        first_of(
            number_after(s, "retry_after"@),
            first_of(number_after(s, "retry after"@), number_after(s, "retry in"@)),
        ),
    )
}

/// The largest value of 64 bits that is not above a number.
pub open spec fn saturated(n: int) -> u64 {
    if n > u64::MAX {
        u64::MAX
    } else {
        n as u64
    }
}

/// The seconds of a unit letter.
pub open spec fn unit_seconds(c: char) -> Option<int> {
    if c == 'h' {
        Some(3600)
    } else if c == 'm' {
        Some(60)
    } else if c == 's' {
        Some(1)
    } else {
        None
    }
}

/// The seconds that the rest of a duration adds to `total`: digits gather up to a unit letter,
/// other characters are passed over.
pub open spec fn duration_rest(s: Seq<char>, digits: Seq<char>, total: u64, read: bool) -> Option<u64>
    decreases s.len(),
{
    if s.len() == 0 {
        if read {
            Some(total)
        } else {
            None
        }
    } else if '0' <= s[0] <= '9' {
        duration_rest(s.skip(1), digits.push(s[0]), total, read)
    } else {
        match unit_seconds(s[0]) {
            Some(unit) => match number::digits_within(digits, u64::MAX as nat) {
                Some(amount) => duration_rest(
                    s.skip(1),
                    Seq::empty(),
                    saturated(total + saturated(amount * unit)),
                    true,
                ),
                None => None,
            },
            None => duration_rest(s.skip(1), digits, total, read),
        }
    }
}

/// The seconds of a duration: a plain number, or amounts with the units h, m and s.
pub open spec fn duration_of(s: Seq<char>) -> Option<u64> {
    match number::unsigned_within(s, u64::MAX as nat) {
        Some(seconds) => Some(seconds as u64),
        None => duration_rest(s, Seq::empty(), 0, false),
    }
}

fn digit_run_of(text: &Vec<char>, from: usize) -> (r: usize)
    requires
        from <= text@.len(),
    ensures
        r == digit_run(text@, from as int),
        from + r <= text@.len(),
    decreases text@.len() - from,
{
    if from < text.len() && '0' <= text[from] && text[from] <= '9' {
        1 + digit_run_of(text, from + 1)
    } else {
        0
    }
}

/// A run of digits is the same wherever the text before it ends.
proof fn lemma_digit_run_skip(s: Seq<char>, k: int, i: int)
    requires
        0 <= k <= i <= s.len(),
    ensures
        digit_run(s.skip(k), i - k) == digit_run(s, i),
    decreases s.len() - i,
{
    if i < s.len() && '0' <= s[i] <= '9' {
        assert(s.skip(k)[i - k] == s[i]);
        lemma_digit_run_skip(s, k, i + 1);
    }
}

fn status_after(text: &Vec<char>, marker: &str) -> (r: Option<u16>)
    ensures
        r == code_after(text@, marker@),
{
    let mark: Vec<char> = chars_of(marker);
    match find(text, &mark) {
        Some(at) => {
            proof {
                crate::text::lemma_first_from(text@, marker@, 0);
                assert(text@.subrange(at + marker@.len(), text@.len() as int) =~= text@.skip(
                    at + marker@.len(),
                ));
            }
            let end: usize = text.len();
            assert(at + mark@.len() <= end);
            let rest: String = trim_left(text_between(text, at + mark.len(), end).as_str());
            let tail: Vec<char> = chars_of(rest.as_str());
            let run: usize = digit_run_of(&tail, 0);
            let number: Vec<char> = chars_of(text_between(&tail, 0, run).as_str());
            assert(tail@.subrange(0, run as int) =~= tail@.take(run as int));
            assert(number@.skip(0) =~= number@);
            match read_digits(&number, 0, 65535) {
                Some(code) => if 400 <= code && code <= 599 {
                    Some(code as u16)
                } else {
                    None
                },
                None => None,
            }
        },
        None => None,
    }
}

fn pick<T>(a: Option<T>, b: Option<T>) -> (r: Option<T>)
    ensures
        r == first_of(a, b),
{
    if a.is_some() {
        a
    } else {
        b
    }
}

/// The HTTP status code that a message tells, behind one of the known markers.
pub fn parse_status_code(message: &str) -> (r: Option<u16>)
    ensures
        r == message_status(message@),
{
    let text: Vec<char> = chars_of(lower(message).as_str());
    pick(
        status_after(&text, "http "),
        pick(
            status_after(&text, "http/1.1 "),
            pick(
                status_after(&text, "http/2 "),
                pick(
                    status_after(&text, "status "),
                    pick(status_after(&text, "status:"), status_after(&text, "status_code:")),
                ),
            ),
        ),
    )
}

fn first_number_from(text: &Vec<char>, from: usize) -> (r: Option<u64>)
    requires
        from <= text@.len(),
    ensures
        r == first_number(text@.skip(from as int)),
    decreases text@.len() - from,
{
    let ghost rest = text@.skip(from as int);
    if from == text.len() {
        return None;
    }
    let run: usize = digit_run_of(text, from);
    proof {
        lemma_digit_run_skip(text@, from as int, from as int);
    }
    if run > 0 {
        let number: Vec<char> = chars_of(text_between(text, from, from + run).as_str());
        assert(text@.subrange(from as int, from + run) =~= leading_digits(rest));
        assert(number@.skip(0) =~= number@);
        match read_digits(&number, 0, u64::MAX) {
            Some(n) => Some(n),
            None => {
                assert(rest.skip(run as int) =~= text@.skip(from + run));
                first_number_from(text, from + run)
            },
        }
    } else {
        assert(rest.skip(1) =~= text@.skip(from + 1));
        first_number_from(text, from + 1)
    }
}

fn retry_after(text: &Vec<char>, marker: &str) -> (r: Option<u64>)
    ensures
        r == number_after(text@, marker@),
{
    let mark: Vec<char> = chars_of(marker);
    match find(text, &mark) {
        Some(at) => {
            proof {
                crate::text::lemma_first_from(text@, marker@, 0);
            }
            let end: usize = text.len();
            assert(at + mark@.len() <= end);
            first_number_from(text, at + mark.len())
        },
        None => None,
    }
}

/// The number of seconds after which a message asks to try again.
pub fn parse_retry_after(message: &str) -> (r: Option<u64>)
    ensures
        r == message_retry(message@),
{
    let text: Vec<char> = chars_of(lower(message).as_str());
    pick(
        retry_after(&text, "retry-after"),
        pick(
            retry_after(&text, "retry_after"),
            pick(retry_after(&text, "retry after"), retry_after(&text, "retry in")),
        ),
    )
}

fn saturating(a: u64, b: u64, unit: u64) -> (r: u64)
    ensures
        r == saturated(a + saturated(b * unit)),
{
    let product: u64 = match b.checked_mul(unit) {
        Some(n) => n,
        None => u64::MAX,
    };
    a.saturating_add(product)
}

/// The seconds of a duration: a plain number, or amounts with the units h, m and s.
pub fn parse_duration_seconds(value: &str) -> (r: Option<u64>)
    ensures
        r == duration_of(value@),
{
    if let Some(seconds) = parse_unsigned(value, u64::MAX) {
        return Some(seconds);
    }
    let text: Vec<char> = chars_of(value);
    let mut digits: Vec<char> = Vec::new();
    let mut total: u64 = 0;
    let mut read: bool = false;
    let mut i: usize = 0;
    assert(value@.skip(0) =~= value@);
    assert(digits@ =~= Seq::empty());
    while i < text.len()
        invariant
            i <= text@.len(),
            text@ == value@,
            number::unsigned_within(value@, u64::MAX as nat) is None,
            duration_rest(value@, Seq::empty(), 0, false) == duration_rest(
                value@.skip(i as int),
                digits@,
                total,
                read,
            ),
        decreases text@.len() - i,
    {
        let c: char = text[i];
        let ghost rest = value@.skip(i as int);
        assert(rest[0] == c);
        assert(rest.skip(1) =~= value@.skip(i + 1));
        i = i + 1;
        if '0' <= c && c <= '9' {
            digits.push(c);
        } else {
            let unit: Option<u64> = if c == 'h' {
                Some(3600)
            } else if c == 'm' {
                Some(60)
            } else if c == 's' {
                Some(1)
            } else {
                None
            };
            if let Some(unit) = unit {
                assert(digits@.skip(0) =~= digits@);
                match read_digits(&digits, 0, u64::MAX) {
                    Some(amount) => {
                        total = saturating(total, amount, unit);
                        digits = Vec::new();
                        assert(digits@ =~= Seq::empty());
                        read = true;
                    },
                    None => {
                        return None;
                    },
                }
            }
        }
    }
    if read {
        Some(total)
    } else {
        None
    }
}

/// A status code in a document: a number, or digits in a string.
pub open spec fn code_in(tree: Option<Json>) -> Option<u16> {
    match tree {
        Some(Json::Unsigned(n)) => if n <= 65535 {
            Some(n as u16)
        } else {
            None
        },
        Some(Json::Text(text)) => match number::unsigned_within(text, 65535) {
            Some(n) => Some(n as u16),
            None => None,
        },
        _ => None,
    }
}

/// A number of seconds in a document: a number rounded up, or a duration in a string.
pub open spec fn seconds_in(tree: Option<Json>) -> Option<u64> {
    match tree {
        Some(Json::Unsigned(n)) => Some(n),
        Some(Json::Number(text)) => Some(json::number_ceiling(Json::Number(text))),
        Some(Json::Text(text)) => duration_of(text),
        _ => None,
    }
}

/// The detail of an error in a document: a string, or the message of an object.
pub open spec fn detail_in(tree: Option<Json>) -> Option<Seq<char>> {
    match tree {
        Some(Json::Text(text)) => Some(text),
        Some(found) => first_of(
            json::text_in(json::member(found, "message"@)),
            json::text_in(json::member(found, "msg"@)),
        ),
        None => None,
    }
}

/// The message of an event, from its summary and its detail.
pub open spec fn event_message(summary: Option<Seq<char>>, detail: Option<Seq<char>>) -> Seq<char> {
    match (summary, detail) {
        (Some(summary), Some(detail)) => if summary != detail {
            summary + "："@ + detail
        } else {
            summary
        },
        (Some(summary), None) => summary,
        (None, Some(detail)) => detail,
        (None, None) => "Caddy 运行事件"@,
    }
}

/// The event of a log line that is a JSON object.
pub open spec fn object_event(tree: Json) -> EventView {
    let message = event_message(
        first_of(json::text_in(json::member(tree, "msg"@)), json::text_in(json::member(tree, "message"@))),
        detail_in(json::member(tree, "error"@)),
    );
    EventView {
        level: json::text_in(json::member(tree, "level"@)),
        logger: json::text_in(json::member(tree, "logger"@)),
        message,
        identifier: first_of(
            json::text_in(json::member(tree, "identifier"@)),
            first_of(json::text_in(json::member(tree, "domain"@)), json::text_in(json::member(tree, "host"@))),
        ),
        status_code: first_of(
            first_of(
                code_in(json::member(tree, "status"@)),
                first_of(code_in(json::member(tree, "status_code"@)), code_in(json::member(tree, "statusCode"@))),
            ),
            message_status(message),
        ),
        retry_after_secs: first_of(
            first_of(
                seconds_in(json::member(tree, "retry_after"@)),
                first_of(
                    seconds_in(json::member(tree, "retry-after"@)),
                    first_of(
                        seconds_in(json::member(tree, "retryAfter"@)),
                        seconds_in(json::member(tree, "retrying_in"@)),
                    ),
                ),
            ),
            message_retry(message),
        ),
        occurred_at: match json::member(tree, "ts"@) {
            Some(ts) => if json::is_number(ts) {
                Some(json::number_whole(ts))
            } else {
                None
            },
            None => None,
        },
    }
}

/// The event of a log line that is no JSON.
pub open spec fn plain_event(line: Seq<char>) -> EventView {
    EventView {
        level: None,
        logger: None,
        message: line,
        identifier: None,
        status_code: message_status(line),
        retry_after_secs: message_retry(line),
        occurred_at: None,
    }
}

/// The event of a line without the white space around it, given the document it writes.
pub open spec fn line_event(line: Seq<char>, document: Option<Json>) -> Option<EventView> {
    if line.len() == 0 {
        None
    } else {
        match document {
            None => Some(plain_event(line)),
            Some(tree) => if tree is Object {
                Some(object_event(tree))
            } else {
                None
            },
        }
    }
}

/// The characters of an optional event.
pub open spec fn opt_event(event: Option<CaddyLogEvent>) -> Option<EventView> {
    match event {
        Some(event) => Some(event@),
        None => None,
    }
}

fn get_text(value: &Value, key: &str) -> (r: Option<String>)
    ensures
        text::opt(r) == json::text_in(json::member(json::json_tree(*value), key@)),
{
    match json_get(value, key) {
        Some(found) => match json_as_str(found) {
            Some(text) => Some(text.to_owned()),
            None => None,
        },
        None => None,
    }
}

fn get_code(value: &Value, key: &str) -> (r: Option<u16>)
    ensures
        r == code_in(json::member(json::json_tree(*value), key@)),
{
    match json_get(value, key) {
        Some(found) => {
            if let Some(n) = json_as_u64(found) {
                return if n <= 65535 {
                    Some(n as u16)
                } else {
                    None
                };
            }
            match json_as_str(found) {
                Some(text) => match parse_unsigned(text, 65535) {
                    Some(n) => Some(n as u16),
                    None => None,
                },
                None => None,
            }
        },
        None => None,
    }
}

fn get_seconds(value: &Value, key: &str) -> (r: Option<u64>)
    ensures
        r == seconds_in(json::member(json::json_tree(*value), key@)),
{
    match json_get(value, key) {
        Some(found) => {
            if let Some(n) = json_as_u64(found) {
                return Some(n);
            }
            if let Some(n) = json_ceiling(found) {
                return Some(n);
            }
            match json_as_str(found) {
                Some(text) => parse_duration_seconds(text),
                None => None,
            }
        },
        None => None,
    }
}

fn get_detail(value: &Value) -> (r: Option<String>)
    ensures
        text::opt(r) == detail_in(json::member(json::json_tree(*value), "error"@)),
{
    match json_get(value, "error") {
        Some(found) => {
            if let Some(text) = json_as_str(found) {
                return Some(text.to_owned());
            }
            pick(get_text(found, "message"), get_text(found, "msg"))
        },
        None => None,
    }
}

/// The event of a log line that is a JSON object.
pub fn event_from_json(value: &Value) -> (r: CaddyLogEvent)
    ensures
        r@ == object_event(json::json_tree(*value)),
{
    let summary: Option<String> = pick(get_text(value, "msg"), get_text(value, "message"));
    let detail: Option<String> = get_detail(value);
    let message: String = match (summary, detail) {
        (Some(summary), Some(detail)) => if same(summary.as_str(), detail.as_str()) {
            summary
        } else {
            join3(summary.as_str(), "：", detail.as_str())
        },
        (Some(summary), None) => summary,
        (None, Some(detail)) => detail,
        (None, None) => "Caddy 运行事件".to_owned(),
    };
    let status_code: Option<u16> = pick(
        pick(
            get_code(value, "status"),
            pick(get_code(value, "status_code"), get_code(value, "statusCode")),
        ),
        parse_status_code(message.as_str()),
    );
    let retry_after_secs: Option<u64> = pick(
        pick(
            get_seconds(value, "retry_after"),
            pick(
                get_seconds(value, "retry-after"),
                pick(get_seconds(value, "retryAfter"), get_seconds(value, "retrying_in")),
            ),
        ),
        parse_retry_after(message.as_str()),
    );
    let occurred_at: Option<i64> = match json_get(value, "ts") {
        Some(ts) => json_whole(ts),
        None => None,
    };
    CaddyLogEvent {
        level: get_text(value, "level"),
        logger: get_text(value, "logger"),
        message,
        identifier: pick(
            get_text(value, "identifier"),
            pick(get_text(value, "domain"), get_text(value, "host")),
        ),
        status_code,
        retry_after_secs,
        occurred_at,
    }
}

/// The event that a line of the log tells: a JSON object by its members, any other text that is
/// no JSON by its words.
pub fn parse_caddy_log_line(line: &str) -> (r: Option<CaddyLogEvent>)
    ensures
        opt_event(r) == line_event(text::trimmed(line@), json::json_of(text::trimmed(line@))),
{
    let line: String = trim(line);
    if line.as_str().is_empty() {
        return None;
    }
    match parse_json(line.as_str()) {
        None => {
            let status_code: Option<u16> = parse_status_code(line.as_str());
            let retry_after_secs: Option<u64> = parse_retry_after(line.as_str());
            Some(
                CaddyLogEvent {
                    level: None,
                    logger: None,
                    message: line,
                    identifier: None,
                    status_code,
                    retry_after_secs,
                    occurred_at: None,
                },
            )
        },
        Some(value) => if json_is_object(&value) {
            Some(event_from_json(&value))
        } else {
            None
        },
    }
}

/// The path that a text of the form `{file.…}` refers to.
pub open spec fn file_reference(text: Seq<char>) -> Option<Seq<char>> {
    match text::after_prefix(text, "{file."@) {
        Some(rest) => text::before_suffix(rest, "}"@),
        None => None,
    }
}

/// No path, or the one path.
pub open spec fn listed(path: Option<Seq<char>>) -> Seq<Seq<char>> {
    match path {
        Some(path) => seq![path],
        None => Seq::empty(),
    }
}

/// The file references of a document: of every string, or only of the strings under `api_token`.
pub open spec fn references(tree: Json, everywhere: bool) -> Seq<Seq<char>>
    decreases tree, 0int,
{
    match tree {
        Json::Text(text) => if everywhere {
            listed(file_reference(text))
        } else {
            Seq::empty()
        },
        Json::Array(items) => item_references(items, items.len() as int, everywhere),
        Json::Object(members) => member_references(members, members.len() as int, everywhere),
        _ => Seq::empty(),
    }
}

/// The file references of the first `n` items.
pub open spec fn item_references(items: Seq<Json>, n: int, everywhere: bool) -> Seq<Seq<char>>
    decreases items, n,
{
    if 0 < n <= items.len() {
        item_references(items, n - 1, everywhere) + references(items[n - 1], everywhere)
    } else {
        Seq::empty()
    }
}

/// The file references of one member.
pub open spec fn member_reference(key: Seq<char>, value: Json, everywhere: bool) -> Seq<Seq<char>>
    decreases value, 1int,
{
    if !everywhere && key == "api_token"@ {
        match value {
            Json::Text(text) => listed(file_reference(text)),
            _ => Seq::empty(),
        }
    } else {
        references(value, everywhere)
    }
}

/// The file references of the first `n` members.
pub open spec fn member_references(
    members: Seq<(Seq<char>, Json)>,
    n: int,
    everywhere: bool,
) -> Seq<Seq<char>>
    decreases members, n,
{
    if 0 < n <= members.len() {
        member_references(members, n - 1, everywhere) + member_reference(
            members[n - 1].0,
            members[n - 1].1,
            everywhere,
        )
    } else {
        Seq::empty()
    }
}

fn reference_of(text: &str) -> (r: Option<String>)
    ensures
        text::opt(r) == file_reference(text@),
{
    match strip_prefix(text, "{file.") {
        Some(rest) => strip_suffix(rest.as_str(), "}"),
        None => None,
    }
}

/// A text stands in a concatenation exactly when it stands in one of the two lists.
proof fn lemma_in_both(a: Seq<Seq<char>>, b: Seq<Seq<char>>)
    ensures
        forall|t: Seq<char>| (a + b).contains(t) <==> a.contains(t) || b.contains(t),
{
    assert forall|t: Seq<char>| (a + b).contains(t) <==> a.contains(t) || b.contains(t) by {
        if a.contains(t) {
            let i = choose|i: int| 0 <= i < a.len() && a[i] == t;
            assert((a + b)[i] == t);
        }
        if b.contains(t) {
            let i = choose|i: int| 0 <= i < b.len() && b[i] == t;
            assert((a + b)[a.len() + i] == t);
        }
    }
}

/// A one-element list holds that element alone.
proof fn lemma_single(path: Seq<char>)
    ensures
        forall|t: Seq<char>| seq![path].contains(t) <==> t == path,
{
    assert(seq![path][0] == path);
}

fn add_reference(text: &str, files: &mut Vec<String>)
    requires
        order::ordered(text::views(old(files)@)),
    ensures
        order::ordered(text::views(final(files)@)),
        forall|t: Seq<char>| #[trigger]
            text::views(final(files)@).contains(t) <==> text::views(old(files)@).contains(t) || listed(
                file_reference(text@),
            ).contains(t),
{
    if let Some(path) = reference_of(text) {
        proof {
            lemma_single(path@);
        }
        insert_ordered(files, path);
    }
}

fn collect_references(value: &Value, everywhere: bool, files: &mut Vec<String>)
    requires
        order::ordered(text::views(old(files)@)),
    ensures
        order::ordered(text::views(final(files)@)),
        forall|t: Seq<char>| #[trigger]
            text::views(final(files)@).contains(t) <==> text::views(old(files)@).contains(t) || references(
                json::json_tree(*value),
                everywhere,
            ).contains(t),
    decreases json::json_tree(*value),
{
    let ghost start = text::views(files@);
    let ghost tree = json::json_tree(*value);
    if let Some(text) = json_as_str(value) {
        if everywhere {
            add_reference(text, files);
        }
        return ;
    }
    if let Some(items) = json_items(value) {
        let ghost all = json::trees(items@);
        let mut i: usize = 0;
        while i < items.len()
            invariant
                i <= items@.len(),
                all == json::trees(items@),
                tree == Json::Array(all),
                tree == json::json_tree(*value),
                order::ordered(text::views(files@)),
                forall|t: Seq<char>| #[trigger]
                    text::views(files@).contains(t) <==> start.contains(t) || item_references(
                        all,
                        i as int,
                        everywhere,
                    ).contains(t),
            decreases items@.len() - i,
        {
            assert(all[i as int] == json::json_tree(items@[i as int]));
            assert(decreases_to!(tree => tree->Array_0));
            assert(decreases_to!(tree->Array_0 => tree->Array_0[i as int]));
            let ghost before = text::views(files@);
            collect_references(&items[i], everywhere, files);
            proof {
                lemma_in_both(
                    item_references(all, i as int, everywhere),
                    references(all[i as int], everywhere),
                );
                assert(item_references(all, i + 1, everywhere) == item_references(
                    all,
                    i as int,
                    everywhere,
                ) + references(all[i as int], everywhere));
                assert forall|t: Seq<char>| #[trigger]
                    text::views(files@).contains(t) <==> start.contains(t) || item_references(
                        all,
                        i + 1,
                        everywhere,
                    ).contains(t) by {
                    assert(text::views(files@).contains(t) <==> before.contains(t) || references(
                        all[i as int],
                        everywhere,
                    ).contains(t));
                    assert(before.contains(t) <==> start.contains(t) || item_references(
                        all,
                        i as int,
                        everywhere,
                    ).contains(t));
                }
            }
            i = i + 1;
        }
        return ;
    }
    if let Some(members) = json_members(value) {
        let ghost all = json::member_trees(members@);
        let mut i: usize = 0;
        while i < members.len()
            invariant
                i <= members@.len(),
                all == json::member_trees(members@),
                tree == Json::Object(all),
                tree == json::json_tree(*value),
                order::ordered(text::views(files@)),
                forall|t: Seq<char>| #[trigger]
                    text::views(files@).contains(t) <==> start.contains(t) || member_references(
                        all,
                        i as int,
                        everywhere,
                    ).contains(t),
            decreases members@.len() - i,
        {
            let (key, inner) = &members[i];
            assert(all[i as int] == (key@, json::json_tree(*inner)));
            assert(decreases_to!(tree => tree->Object_0));
            assert(decreases_to!(tree->Object_0 => tree->Object_0[i as int]));
            assert(decreases_to!(tree->Object_0[i as int] => tree->Object_0[i as int].1));
            let ghost before = text::views(files@);
            let ghost found = member_reference(all[i as int].0, all[i as int].1, everywhere);
            if !everywhere && same(key.as_str(), "api_token") {
                if let Some(text) = json_as_str(inner) {
                    add_reference(text, files);
                }
            } else {
                collect_references(inner, everywhere, files);
            }
            proof {
                lemma_in_both(
                    member_references(all, i as int, everywhere),
                    found,
                );
                assert(member_references(all, i + 1, everywhere) == member_references(
                    all,
                    i as int,
                    everywhere,
                ) + found);
                assert forall|t: Seq<char>| #[trigger]
                    text::views(files@).contains(t) <==> start.contains(t) || member_references(
                        all,
                        i + 1,
                        everywhere,
                    ).contains(t) by {
                    assert(text::views(files@).contains(t) <==> before.contains(t) || found.contains(t));
                    assert(before.contains(t) <==> start.contains(t) || member_references(
                        all,
                        i as int,
                        everywhere,
                    ).contains(t));
                }
            }
            i = i + 1;
        }
    }
}

/// The files whose content a configuration uses as credentials, in order and each once.
pub fn credential_files(config: &Value) -> (r: Vec<String>)
    ensures
        order::ordered(text::views(r@)),
        forall|t: Seq<char>|
            text::views(r@).contains(t) <==> references(json::json_tree(*config), false).contains(t),
{
    let mut files: Vec<String> = Vec::new();
    collect_references(config, false, &mut files);
    files
}

/// The files that any string of a configuration refers to, in order and each once.
pub fn referenced_files(config: &Value) -> (r: Vec<String>)
    ensures
        order::ordered(text::views(r@)),
        forall|t: Seq<char>|
            text::views(r@).contains(t) <==> references(json::json_tree(*config), true).contains(t),
{
    let mut files: Vec<String> = Vec::new();
    collect_references(config, true, &mut files);
    files
}

/// The bytes that a signature of the first `n` files is taken of: each path, then its content.
pub open spec fn signed_bytes(files: Seq<Seq<char>>, contents: Seq<Seq<u8>>, n: int) -> Seq<u8>
    decreases n,
{
    if n <= 0 {
        Seq::empty()
    } else {
        signed_bytes(files, contents, n - 1) + vstd::utf8::encode_utf8(files[n - 1])
            + contents[n - 1]
    }
}

/// The bytes of each content of a list.
pub open spec fn byte_views(contents: Seq<Vec<u8>>) -> Seq<Seq<u8>> {
    Seq::new(contents.len(), |i: int| contents[i]@)
}

/// The digest by which a change of the credentials is seen: of every path and its content; none
/// where no file is used.
pub fn credential_signature(files: &Vec<String>, contents: &Vec<Vec<u8>>) -> (r: Option<String>)
    requires
        files@.len() == contents@.len(),
    ensures
        text::opt(r) == (if files@.len() == 0 {
            None
        } else {
            Some(
                digest::hex_of(
                    digest::sha256_of(
                        signed_bytes(text::views(files@), byte_views(contents@), files@.len() as int),
                    ),
                ),
            )
        }),
{
    if files.len() == 0 {
        return None;
    }
    let mut bytes: Vec<u8> = Vec::new();
    let mut i: usize = 0;
    while i < files.len()
        invariant
            i <= files@.len() == contents@.len(),
            bytes@ == signed_bytes(text::views(files@), byte_views(contents@), i as int),
        decreases files@.len() - i,
    {
        bytes.extend_from_slice(files[i].as_str().as_bytes());
        bytes.extend_from_slice(contents[i].as_slice());
        i = i + 1;
        assert(text::views(files@)[i - 1] == files@[i - 1]@);
        assert(byte_views(contents@)[i - 1] == contents@[i - 1]@);
        assert(bytes@ =~= signed_bytes(text::views(files@), byte_views(contents@), i as int));
    }
    Some(hex_encode(&sha256(bytes.as_slice())))
}

/// The mark that stands in place of a credential.
pub open spec fn hidden_mark() -> Seq<char> {
    "[已隐藏凭据]"@
}

/// A text cut for the user: without the white space around it, at most 512 characters of a text
/// of more than 512 bytes.
pub open spec fn truncated(s: Seq<char>) -> Seq<char> {
    let text = text::trimmed(s);
    if text::byte_len(text) <= 512 {
        text
    } else {
        text::shortened(text, 512) + "…"@
    }
}

/// A text cut for the user: without the white space around it, at most 512 characters of a text
/// of more than 512 bytes.
pub fn truncate(value: &str) -> (r: String)
    ensures
        r@ == truncated(value@),
{
    let text: String = trim(value);
    if bytes_of(text.as_str()) <= 512 {
        text
    } else {
        let mut r: String = shorten(text.as_str(), 512);
        r.append("…");
        r
    }
}

/// A message with the first `n` credentials hidden; a credential of white space alone is none.
pub open spec fn hidden(message: Seq<char>, tokens: Seq<Seq<char>>, n: int) -> Seq<char>
    decreases n,
{
    if n <= 0 {
        message
    } else {
        let before = hidden(message, tokens, n - 1);
        let token = text::trimmed(tokens[n - 1]);
        if token.len() == 0 {
            before
        } else {
            text::replaced(before, token, hidden_mark())
        }
    }
}

/// A message for the user: every credential hidden, then cut.
pub open spec fn redacted(
    message: Seq<char>,
    tokens: Seq<Seq<char>>,
    environment: Option<Seq<char>>,
) -> Seq<char> {
    let text = hidden(message, tokens, tokens.len() as int);
    match environment {
        Some(token) => if token.len() == 0 {
            truncated(text)
        } else {
            truncated(text::replaced(text, token, hidden_mark()))
        },
        None => truncated(text),
    }
}

/// A message for the user: every credential of the stored files and of the environment hidden,
/// then cut.
pub fn redact(message: &str, tokens: &Vec<String>, environment: Option<&str>) -> (r: String)
    ensures
        r@ == redacted(message@, text::views(tokens@), text::opt_str(environment)),
{
    let mut text: String = message.to_owned();
    let mut i: usize = 0;
    while i < tokens.len()
        invariant
            i <= tokens@.len(),
            text@ == hidden(message@, text::views(tokens@), i as int),
        decreases tokens@.len() - i,
    {
        let token: String = trim(tokens[i].as_str());
        assert(text::views(tokens@)[i as int] == tokens@[i as int]@);
        if !token.as_str().is_empty() {
            text = replace(text.as_str(), token.as_str(), "[已隐藏凭据]");
        }
        i = i + 1;
    }
    match environment {
        Some(token) => {
            if !token.is_empty() {
                text = replace(text.as_str(), token, "[已隐藏凭据]");
            }
        },
        None => {},
    }
    truncate(text.as_str())
}

/// What hides one credential hides it through all that follow.
proof fn lemma_hidden_stays(
    message: Seq<char>,
    tokens: Seq<Seq<char>>,
    n: int,
    secret: Seq<char>,
    k: int,
)
    requires
        0 <= k < n <= tokens.len(),
        secret == text::trimmed(tokens[k]),
        secret.len() > 0,
        text::disjoint(secret, hidden_mark()),
        hidden_mark().len() > 0,
    ensures
        !text::contains(hidden(message, tokens, n), secret),
    decreases n,
{
    let before = hidden(message, tokens, n - 1);
    let token = text::trimmed(tokens[n - 1]);
    if k < n - 1 {
        lemma_hidden_stays(message, tokens, n - 1, secret, k);
    }
    if token.len() > 0 {
        crate::text::replacing_removes(before, token, hidden_mark(), secret);
    }
}

/// A message for the user holds no credential of the stored files and not the one of the
/// environment, where the credential is written in characters that the marks of hiding and cutting
/// do not use.
pub proof fn redaction_hides_every_token(
    message: Seq<char>,
    tokens: Seq<Seq<char>>,
    environment: Option<Seq<char>>,
    secret: Seq<char>,
)
    requires
        environment == Some(secret) || exists|k: int|
            0 <= k < tokens.len() && text::trimmed(#[trigger] tokens[k]) == secret,
        secret.len() > 0,
        text::disjoint(secret, hidden_mark()),
        text::disjoint(secret, "…"@),
    ensures
        !text::contains(redacted(message, tokens, environment), secret),
{
    reveal_strlit("[已隐藏凭据]");
    let text = hidden(message, tokens, tokens.len() as int);
    if environment != Some(secret) {
        let k = choose|k: int|
            0 <= k < tokens.len() && text::trimmed(#[trigger] tokens[k]) == secret;
        lemma_hidden_stays(message, tokens, tokens.len() as int, secret, k);
    }
    let shown = match environment {
        Some(token) => if token.len() == 0 {
            text
        } else {
            text::replaced(text, token, hidden_mark())
        },
        None => text,
    };
    if environment matches Some(token) && token.len() > 0 {
        crate::text::replacing_removes(text, environment->0, hidden_mark(), secret);
    }
    crate::text::lemma_trimmed_contains(shown, secret);
    let cut = text::trimmed(shown);
    crate::text::lemma_shortened_contains(cut, 512, secret);
    crate::text::lemma_append_contains(text::shortened(cut, 512), "…"@, secret);
}

/// The number of events that wait to be read.
pub const MAX_LOG_EVENTS: usize = 128;

/// Puts an event behind those that wait; where there are too many, the oldest goes.
pub fn enqueue_event(queue: &mut Vec<CaddyLogEvent>, event: CaddyLogEvent)
    ensures
        final(queue)@ == (if old(queue)@.len() >= MAX_LOG_EVENTS {
            old(queue)@.drop_first()
        } else {
            old(queue)@
        }).push(event),
        old(queue)@.len() <= MAX_LOG_EVENTS ==> final(queue)@.len() <= MAX_LOG_EVENTS,
{
    if queue.len() >= MAX_LOG_EVENTS {
        let ghost before = queue@;
        let _ = queue.remove(0);
        assert(queue@ =~= before.drop_first());
    }
    queue.push(event);
}

/// The state of the edge process that an event tells, where it tells an error of the process.
pub fn process_error_of(event: &CaddyLogEvent) -> (r: Option<String>)
    ensures
        text::opt(r) == (if text::has_prefix(event.message@, "Error:"@) {
            Some(event.message@)
        } else {
            None
        }),
{
    if starts_with(event.message.as_str(), "Error:") {
        Some(event.message.clone())
    } else {
        None
    }
}

/// The event of a log line as it is kept: with every credential hidden in its message.
pub fn observed_event(
    line: &str,
    tokens: &Vec<String>,
    environment: Option<&str>,
) -> (r: Option<CaddyLogEvent>)
    ensures
        opt_event(r) == (match line_event(text::trimmed(line@), json::json_of(text::trimmed(line@))) {
            Some(event) => Some(
                EventView {
                    message: redacted(event.message, text::views(tokens@), text::opt_str(environment)),
                    ..event
                },
            ),
            None => None,
        }),
{
    match parse_caddy_log_line(line) {
        Some(event) => {
            let message: String = redact(event.message.as_str(), tokens, environment);
            Some(CaddyLogEvent { message, ..event })
        },
        None => None,
    }
}

/// A path below a directory.
pub open spec fn below(directory: Seq<char>, name: Seq<char>) -> Seq<char> {
    if directory.len() == 0 {
        name
    } else if directory.last() == '/' {
        directory + name
    } else {
        directory + "/"@ + name
    }
}

/// A path below a directory.
pub fn join_path(directory: &str, name: &str) -> (r: String)
    ensures
        r@ == below(directory@, name@),
{
    let text: Vec<char> = chars_of(directory);
    if text.len() == 0 {
        name.to_owned()
    } else if text[text.len() - 1] == '/' {
        crate::text::join2(directory, name)
    } else {
        join3(directory, "/", name)
    }
}

/// The settings of the edge process.
#[derive(Debug, Clone)]
pub struct CaddyRuntimeConfig {
    pub binary: String,
    pub config_path: String,
    pub applied_path: String,
    /// The directory of the credentials, one directory for each domain.
    pub cloudflare_token_root: String,
    /// Where the process keeps its accounts and certificates.
    pub storage_root: String,
    pub admin_url: String,
    pub enabled: bool,
    pub http_listen: String,
    pub https_listen: String,
}

/// The environment variables that change the settings of the edge process.
pub struct CaddyEnvironment {
    pub binary: Option<String>,
    pub enabled: Option<String>,
    pub admin_url: Option<String>,
    pub http_listen: Option<String>,
    pub https_listen: Option<String>,
}

/// Whether the text of a switch turns it on.
pub open spec fn switched_on(value: Seq<char>) -> bool {
    let word = text::lowered(text::trimmed(value));
    word == "1"@ || word == "true"@ || word == "yes"@ || word == "on"@
}

/// The text of a variable, or the default.
pub open spec fn or_default(value: Option<String>, default: Seq<char>) -> Seq<char> {
    match value {
        Some(text) => text@,
        None => default,
    }
}

fn text_or(value: Option<String>, default: &str) -> (r: String)
    ensures
        r@ == or_default(value, default@),
{
    match value {
        Some(text) => text,
        None => default.to_owned(),
    }
}

impl CaddyRuntimeConfig {
    /// The settings for a data directory, as the environment changes them.
    pub fn from_env(data_dir: &str, vars: CaddyEnvironment) -> (r: CaddyRuntimeConfig)
        ensures
            r.binary@ == or_default(vars.binary, "caddy"@),
            r.config_path@ == below(below(data_dir@, "caddy"@), "config.json"@),
            r.applied_path@ == below(below(data_dir@, "caddy"@), "applied.json"@),
            r.cloudflare_token_root@ == below(below(data_dir@, "secrets"@), "public-domains"@),
            r.storage_root@ == below(data_dir@, "caddy-storage"@),
            r.admin_url@ == or_default(vars.admin_url, "http://127.0.0.1:8290"@),
            r.enabled == (vars.enabled matches Some(value) ==> switched_on(value@)),
            r.http_listen@ == or_default(vars.http_listen, ":80"@),
            r.https_listen@ == or_default(vars.https_listen, ":443"@),
    {
        let enabled: bool = match &vars.enabled {
            Some(value) => {
                let word: String = lower(trim(value.as_str()).as_str());
                same(word.as_str(), "1") || same(word.as_str(), "true") || same(
                    word.as_str(),
                    "yes",
                ) || same(word.as_str(), "on")
            },
            None => true,
        };
        let caddy: String = join_path(data_dir, "caddy");
        CaddyRuntimeConfig {
            binary: text_or(vars.binary, "caddy"),
            config_path: join_path(caddy.as_str(), "config.json"),
            applied_path: join_path(caddy.as_str(), "applied.json"),
            cloudflare_token_root: join_path(
                join_path(data_dir, "secrets").as_str(),
                "public-domains",
            ),
            storage_root: join_path(data_dir, "caddy-storage"),
            admin_url: text_or(vars.admin_url, "http://127.0.0.1:8290"),
            enabled,
            http_listen: text_or(vars.http_listen, ":80"),
            https_listen: text_or(vars.https_listen, ":443"),
        }
    }
}

/// A failure that is tried again, because of a limit or a given time, waits; another failure has
/// failed. What is neither follows from the words of the message.
pub proof fn events_tell_of_failures_first(event: EventView)
    ensures
        event.status_code == Some(429u16) || event.retry_after_secs is Some ==> stage_of(event)
            == Some("retry_wait"@),
        stage_of(event) == Some("retry_wait"@) <==> event.status_code == Some(429u16)
            || event.retry_after_secs is Some || text::contains(
            text::lowered(event.message),
            "rate limit"@,
        ) || text::contains(text::lowered(event.message), "too many certificates"@)
            || text::contains(text::lowered(event.message), "retry-after"@) || text::contains(
            text::lowered(event.message),
            "will retry"@,
        ) || text::contains(text::lowered(event.message), "retrying in"@),
        stage_of(event) != Some("retry_wait"@) ==> (stage_of(event) == Some("failed"@)
            <==> event.level == Some("error"@) || (event.status_code is Some
            && event.status_code->0 >= 400)),
        stage_of(event) == Some("issued"@) ==> event.level != Some("error"@) && (event.status_code
            is Some ==> event.status_code->0 < 400) && (text::contains(
            text::lowered(event.message),
            "certificate obtained"@,
        ) || text::contains(text::lowered(event.message), "downloaded certificate"@)
            || text::contains(text::lowered(event.message), "certificate renewed"@)),
        stage_of(event) == Some("renewing"@) ==> text::contains(
            text::lowered(event.message),
            "renewing certificate"@,
        ),
        stage_of(event) == Some("active"@) ==> text::contains(
            text::lowered(event.message),
            "certificate loaded"@,
        ),
        stage_of(event) is None ==> !text::contains(
            text::lowered(event.message),
            "certificate obtained"@,
        ) && !text::contains(text::lowered(event.message), "certificate renewed"@)
            && !text::contains(text::lowered(event.message), "renewing certificate"@)
            && !text::contains(text::lowered(event.message), "obtaining certificate"@),
{
    reveal_strlit("retry_wait");
    reveal_strlit("failed");
    reveal_strlit("presenting_dns");
    reveal_strlit("waiting_dns");
    reveal_strlit("validating");
    reveal_strlit("issued");
    reveal_strlit("active");
    reveal_strlit("renewing");
    reveal_strlit("waiting_configuration");
    assert("retry_wait"@[2] == 't' && "retry_wait"@.len() == 10);
    assert("validating"@[0] == 'v' && "validating"@.len() == 10);
    assert("failed"@[0] == 'f' && "issued"@[0] == 'i' && "active"@[0] == 'a');
    assert("renewing"@.len() == 8 && "presenting_dns"@.len() == 14 && "waiting_dns"@.len() == 11);
    assert("waiting_configuration"@.len() == 21);
}

/// A code that a message tells of is one of a failure of HTTP.
pub proof fn codes_in_messages_are_failures(message: Seq<char>)
    ensures
        message_status(message) is Some ==> 400 <= message_status(message)->0 <= 599,
{
}

/// A duration in seconds is its number, and units count for their seconds.
pub proof fn units_count_for_their_seconds(c: char)
    ensures
        unit_seconds('h') == Some(3600int),
        unit_seconds('m') == Some(60int),
        unit_seconds('s') == Some(1int),
        c != 'h' && c != 'm' && c != 's' ==> unit_seconds(c) is None,
        forall|n: int| 0 <= n <= u64::MAX ==> #[trigger] saturated(n) == n,
        forall|n: int| n > u64::MAX ==> #[trigger] saturated(n) == u64::MAX,
{
}

/// The first of two values is taken, where there is one.
pub proof fn first_values_are_taken<T>(a: Option<T>, b: Option<T>)
    ensures
        a is Some ==> first_of(a, b) == a,
        a is None ==> first_of(a, b) == b,
{
}

/// An event says what its document says: the level, the logger, the name, the code and the time of it.
pub proof fn events_say_what_their_document_says(tree: Json)
    ensures
        ({
            let event = object_event(tree);
            let msg = json::text_in(json::member(tree, "msg"@));
            let message = json::text_in(json::member(tree, "message"@));
            let named = json::text_in(json::member(tree, "identifier"@));
            let domain = json::text_in(json::member(tree, "domain"@));
            &&& event.level == json::text_in(json::member(tree, "level"@))
            &&& event.logger == json::text_in(json::member(tree, "logger"@))
            &&& json::member(tree, "error"@) is None && msg is Some ==> event.message == msg->0
            &&& json::member(tree, "error"@) is None && msg is None && message is Some
                ==> event.message == message->0
            &&& json::member(tree, "error"@) is Some && json::member(tree, "error"@)->0 is Text
                && msg is Some ==> event.message == msg->0 || event.message == msg->0 + "："@
                + json::member(tree, "error"@)->0->Text_0
            &&& named is Some ==> event.identifier == named
            &&& named is None && domain is Some ==> event.identifier == domain
            &&& named is None && domain is None ==> event.identifier == json::text_in(
                json::member(tree, "host"@),
            )
            &&& code_in(json::member(tree, "status"@)) is Some ==> event.status_code == code_in(
                json::member(tree, "status"@),
            )
            &&& seconds_in(json::member(tree, "retry_after"@)) is Some ==> event.retry_after_secs
                == seconds_in(json::member(tree, "retry_after"@))
            &&& json::member(tree, "ts"@) is None ==> event.occurred_at is None
            &&& json::member(tree, "ts"@) is Some && json::is_number(json::member(tree, "ts"@)->0)
                ==> event.occurred_at == Some(json::number_whole(json::member(tree, "ts"@)->0))
        }),
{
}

/// A code stands in a document as a number or as its digits.
pub proof fn codes_are_read_from_numbers(n: u64)
    ensures
        n <= 65535 ==> code_in(Some(Json::Unsigned(n))) == Some(n as u16),
        n > 65535 ==> code_in(Some(Json::Unsigned(n))) is None,
        code_in(None) is None,
        seconds_in(Some(Json::Unsigned(n))) == Some(n),
        seconds_in(None) is None,
{
}

/// A line that is no document is an event with the line as its message; an empty one, or a document
/// that is no object, is none.
pub proof fn plain_lines_are_their_own_message(line: Seq<char>, tree: Json)
    ensures
        line.len() > 0 ==> line_event(line, None) is Some && line_event(line, None)->0.message
            == line && line_event(line, None)->0.identifier is None && line_event(
            line,
            None,
        )->0.level is None,
        line.len() == 0 ==> line_event(line, None) is None && line_event(line, Some(tree)) is None,
        line.len() > 0 && tree is Object ==> line_event(line, Some(tree)) == Some(
            object_event(tree),
        ),
        !(tree is Object) ==> line_event(line, Some(tree)) is None,
{
}

/// A reference to a file holds the path between its marks, and no other text is one.
pub proof fn references_hold_their_path(path: Seq<char>, text: Seq<char>)
    ensures
        file_reference("{file."@ + path + "}"@) == Some(path),
        file_reference(text) is Some ==> text == "{file."@ + file_reference(text)->0 + "}"@,
{
    reveal_strlit("{file.");
    reveal_strlit("}");
    let full = "{file."@ + path + "}"@;
    assert(full.take(6) =~= "{file."@);
    let rest = full.skip(6);
    assert(rest =~= path + "}"@);
    assert(rest.skip(rest.len() - 1) =~= "}"@);
    assert(rest.take(rest.len() - 1) =~= path);
    if file_reference(text) is Some {
        let inner = text.skip(6);
        assert(text =~= "{file."@ + inner);
        assert(inner =~= inner.take(inner.len() - 1) + inner.skip(inner.len() - 1));
        assert(text =~= "{file."@ + file_reference(text)->0 + "}"@);
    }
}

proof fn lemma_appended(a: Seq<Seq<char>>, b: Seq<Seq<char>>, t: Seq<char>)
    ensures
        (a + b).contains(t) <==> a.contains(t) || b.contains(t),
{
    let all = a + b;
    if all.contains(t) {
        let k = choose|k: int| 0 <= k < all.len() && all[k] == t;
        if k < a.len() {
            assert(a[k] == t);
        } else {
            assert(b[k - a.len()] == t);
        }
    }
    if a.contains(t) {
        let k = choose|k: int| 0 <= k < a.len() && a[k] == t;
        assert(all[k] == t);
    }
    if b.contains(t) {
        let k = choose|k: int| 0 <= k < b.len() && b[k] == t;
        assert(all[a.len() as int + k] == t);
    }
}

/// A reference is found in every item of an array and under every key of an object.
pub proof fn references_are_found_everywhere(
    items: Seq<Json>,
    members: Seq<(Seq<char>, Json)>,
    k: int,
    path: Seq<char>,
    everywhere: bool,
)
    ensures
        0 <= k < items.len() && references(items[k], everywhere).contains(path) ==> references(
            Json::Array(items),
            everywhere,
        ).contains(path),
        0 <= k < members.len() && references(members[k].1, true).contains(path) ==> references(
            Json::Object(members),
            true,
        ).contains(path),
        0 <= k < members.len() && members[k].0 != "api_token"@ && references(
            members[k].1,
            false,
        ).contains(path) ==> references(Json::Object(members), false).contains(path),
        0 <= k < members.len() && members[k].0 == "api_token"@ && members[k].1 == Json::Text(
            "{file."@ + path + "}"@,
        ) ==> references(Json::Object(members), false).contains(path),
        references(Json::Text("{file."@ + path + "}"@), true).contains(path),
        references(Json::Text(path), false).len() == 0,
{
    references_hold_their_path(path, path);
    assert(listed(Some(path))[0] == path);
    if 0 <= k < items.len() && references(items[k], everywhere).contains(path) {
        lemma_item_found(items, items.len() as int, k, path, everywhere);
    }
    if 0 <= k < members.len() {
        if member_reference(members[k].0, members[k].1, true).contains(path) {
            lemma_member_found(members, members.len() as int, k, path, true);
        }
        if member_reference(members[k].0, members[k].1, false).contains(path) {
            lemma_member_found(members, members.len() as int, k, path, false);
        }
    }
}

proof fn lemma_item_found(items: Seq<Json>, n: int, k: int, path: Seq<char>, everywhere: bool)
    requires
        0 <= k < n <= items.len(),
        references(items[k], everywhere).contains(path),
    ensures
        item_references(items, n, everywhere).contains(path),
    decreases n,
{
    lemma_appended(
        item_references(items, n - 1, everywhere),
        references(items[n - 1], everywhere),
        path,
    );
    if k < n - 1 {
        lemma_item_found(items, n - 1, k, path, everywhere);
    }
}

proof fn lemma_member_found(
    members: Seq<(Seq<char>, Json)>,
    n: int,
    k: int,
    path: Seq<char>,
    everywhere: bool,
)
    requires
        0 <= k < n <= members.len(),
        member_reference(members[k].0, members[k].1, everywhere).contains(path),
    ensures
        member_references(members, n, everywhere).contains(path),
    decreases n,
{
    lemma_appended(
        member_references(members, n - 1, everywhere),
        member_reference(members[n - 1].0, members[n - 1].1, everywhere),
        path,
    );
    if k < n - 1 {
        lemma_member_found(members, n - 1, k, path, everywhere);
    }
}

/// The signature is over each file with its content, in their order; a change of one changes what is
/// signed where the lengths stay.
pub proof fn signatures_cover_every_file(
    files: Seq<Seq<char>>,
    contents: Seq<Seq<u8>>,
    others: Seq<Seq<u8>>,
    n: int,
)
    requires
        0 <= n <= files.len(),
        contents.len() == files.len(),
        others.len() == files.len(),
        forall|i: int| 0 <= i < n ==> (#[trigger] contents[i]).len() == others[i].len(),
    ensures
        signed_bytes(files, contents, n).len() == signed_bytes(files, others, n).len(),
        signed_bytes(files, contents, n) == signed_bytes(files, others, n) ==> forall|i: int|
            0 <= i < n ==> #[trigger] contents[i] == others[i],
    decreases n,
{
    if n > 0 {
        signatures_cover_every_file(files, contents, others, n - 1);
        assert(contents[n - 1].len() == others[n - 1].len());
        let name = vstd::utf8::encode_utf8(files[n - 1]);
        let a = signed_bytes(files, contents, n - 1);
        let b = signed_bytes(files, others, n - 1);
        let x = signed_bytes(files, contents, n);
        let y = signed_bytes(files, others, n);
        if x == y {
            let at = (a.len() + name.len()) as int;
            assert(a =~= x.take(a.len() as int));
            assert(b =~= y.take(b.len() as int));
            assert(contents[n - 1] =~= x.skip(at));
            assert(others[n - 1] =~= y.skip(at));
        }
    }
}

/// A short message is kept whole, and a long one is cut to 512 characters and a mark.
pub proof fn long_messages_are_cut(s: Seq<char>)
    ensures
        text::byte_len(text::trimmed(s)) <= 512 ==> truncated(s) == text::trimmed(s),
        text::byte_len(text::trimmed(s)) > 512 && text::trimmed(s).len() > 512 ==> truncated(s)
            == text::trimmed(s).take(512) + "…"@,
{
}

/// A message that holds no token is told as it is, but for its length.
pub proof fn messages_without_tokens_stay(message: Seq<char>, environment: Option<Seq<char>>)
    ensures
        environment is None || environment->0.len() == 0 ==> redacted(
            message,
            Seq::empty(),
            environment,
        ) == truncated(message),
{
}

/// A path below a directory is the directory, one separator and the name.
pub proof fn paths_lie_below_their_directory(directory: Seq<char>, name: Seq<char>)
    ensures
        directory.len() == 0 ==> below(directory, name) == name,
        directory.len() > 0 ==> below(directory, name).take(directory.len() as int) == directory,
        directory.len() > 0 && directory.last() != '/' ==> below(directory, name).len()
            == directory.len() + 1 + name.len() && below(directory, name)[directory.len() as int]
            == '/' && below(directory, name).skip(directory.len() as int + 1) == name,
        directory.len() > 0 && directory.last() == '/' ==> below(directory, name).len()
            == directory.len() + name.len() && below(directory, name).skip(directory.len() as int)
            == name,
{
    reveal_strlit("/");
    if directory.len() > 0 {
        let path = below(directory, name);
        assert(path.take(directory.len() as int) =~= directory);
        if directory.last() == '/' {
            assert(path.skip(directory.len() as int) =~= name);
        } else {
            assert(path.skip(directory.len() as int + 1) =~= name);
        }
    }
}

/// A setting is switched on by one of four words, in any case, and by no other.
pub proof fn settings_are_switched_on_by_a_word(value: Seq<char>)
    ensures
        switched_on(value) <==> text::lowered(text::trimmed(value)) == "1"@ || text::lowered(
            text::trimmed(value),
        ) == "true"@ || text::lowered(text::trimmed(value)) == "yes"@ || text::lowered(
            text::trimmed(value),
        ) == "on"@,
{
}

} // verus!
