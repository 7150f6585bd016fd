//! How the names of a domain resolve. The result comes from the resolver of the server; it neither
//! shows that a name can be reached from outside nor says anything of a certificate.
//!
//! A name that does not resolve is tried again a few times; a success, or no try left, ends that.
use vstd::prelude::*;

use crate::error;
use crate::error::{ApiError, NOT_FOUND};
use crate::ip::IpAddr;
use crate::picked;
use crate::text;
use crate::text::{copy_opt, holds, join3, same};

verus! {

/// The time between two tries in seconds.
pub const RETRY_INTERVAL_SECS: i64 = 300;

/// How often a name is tried again.
pub const MAX_RETRIES: u8 = 3;

/// How the names of a domain resolve.
#[derive(Debug)]
pub struct Access {
    pub domain: String,
    pub expected_addresses: Vec<IpAddr>,
    pub records: Vec<Record>,
    pub checked_at: Option<i64>,
    pub next_retry_at: Option<i64>,
    pub retries_remaining: u8,
    pub public_access: &'static str,
}

/// How a name resolves.
#[derive(Debug)]
pub struct Record {
    pub hostname: String,
    pub addresses: Vec<IpAddr>,
    pub status: &'static str,
    pub matches_server: Option<bool>,
    pub error: Option<String>,
}

/// How a name resolves.
pub ghost struct RecordView {
    pub hostname: Seq<char>,
    pub addresses: Seq<IpAddr>,
    pub status: Seq<char>,
    pub matches_server: Option<bool>,
    pub error: Option<Seq<char>>,
}

impl View for Record {
    type V = RecordView;

    open spec fn view(&self) -> RecordView {
        RecordView {
            hostname: self.hostname@,
            addresses: self.addresses@,
            status: self.status@,
            matches_server: self.matches_server,
            error: text::opt(self.error),
        }
    }
}

/// How some names resolve.
pub open spec fn records_of(list: Seq<Record>) -> Seq<RecordView> {
    Seq::new(list.len(), |i: int| list[i]@)
}

/// How the names of a domain resolve.
pub ghost struct AccessView {
    pub domain: Seq<char>,
    pub expected_addresses: Seq<IpAddr>,
    pub records: Seq<RecordView>,
    pub checked_at: Option<i64>,
    pub next_retry_at: Option<i64>,
    pub retries_remaining: u8,
    pub public_access: Seq<char>,
}

impl View for Access {
    type V = AccessView;

    open spec fn view(&self) -> AccessView {
        AccessView {
            domain: self.domain@,
            expected_addresses: self.expected_addresses@,
            records: records_of(self.records@),
            checked_at: self.checked_at,
            next_retry_at: self.next_retry_at,
            retries_remaining: self.retries_remaining,
            public_access: self.public_access@,
        }
    }
}

/// The answer of the resolver.
#[derive(Debug)]
pub enum Lookup {
    Found(Vec<IpAddr>),
    Failed,
    TimedOut,
}

/// The order of addresses: the fourth version comes first, then by number.
pub open spec fn before(a: IpAddr, b: IpAddr) -> bool {
    match (a, b) {
        (IpAddr::V4(x), IpAddr::V4(y)) => x < y,
        (IpAddr::V6(x), IpAddr::V6(y)) => x < y,
        (IpAddr::V4(_), IpAddr::V6(_)) => true,
        (IpAddr::V6(_), IpAddr::V4(_)) => false,
    }
}

/// Whether addresses are in order, each once.
pub open spec fn in_order(list: Seq<IpAddr>) -> bool {
    forall|i: int, j: int|
        0 <= i < j < list.len() ==> before(#[trigger] list[i], #[trigger] list[j])
}

/// Whether a list holds the addresses of another in order, each once.
pub open spec fn is_address_set(sorted: Seq<IpAddr>, list: Seq<IpAddr>) -> bool {
    in_order(sorted) && forall|a: IpAddr| #[trigger] sorted.contains(a) <==> list.contains(a)
}

fn comes_before(a: IpAddr, b: IpAddr) -> (r: bool)
    ensures
        r == before(a, b),
{
    match (a, b) {
        (IpAddr::V4(x), IpAddr::V4(y)) => x < y,
        (IpAddr::V6(x), IpAddr::V6(y)) => x < y,
        (IpAddr::V4(_), IpAddr::V6(_)) => true,
        (IpAddr::V6(_), IpAddr::V4(_)) => false,
    }
}

fn insert_address(list: &mut Vec<IpAddr>, item: IpAddr)
    requires
        in_order(old(list)@),
    ensures
        in_order(final(list)@),
        forall|a: IpAddr| #[trigger]
            final(list)@.contains(a) <==> old(list)@.contains(a) || a == item,
{
    let ghost held = list@;
    let mut i: usize = 0;
    while i < list.len() && comes_before(list[i], item)
        invariant
            i <= list@.len(),
            held == list@,
            forall|j: int| 0 <= j < i ==> before(#[trigger] held[j], item),
        decreases list@.len() - i,
    {
        i = i + 1;
    }
    if i < list.len() && list[i] == item {
        assert(held[i as int] == item);
        return;
    }
    list.insert(i, item);
    let ghost after = list@;
    proof {
        assert(after == held.insert(i as int, item));
        assert forall|k: int, m: int| 0 <= k < m < after.len() implies before(
            #[trigger] after[k],
            #[trigger] after[m],
        ) by {
            if m == i {
                assert(after[k] == held[k]);
            } else if k == i {
                assert(after[m] == held[m - 1]);
                assert(before(item, held[i as int]));
                if m - 1 > i {
                    assert(before(held[i as int], held[m - 1]));
                }
            } else {
                let a = if k < i {
                    k
                } else {
                    k - 1
                };
                let b = if m < i {
                    m
                } else {
                    m - 1
                };
                assert(after[k] == held[a]);
                assert(after[m] == held[b]);
            }
        }
        assert forall|a: IpAddr| #[trigger] after.contains(a) <==> held.contains(a) || a == item by {
            if after.contains(a) {
                let k = choose|k: int| 0 <= k < after.len() && after[k] == a;
                if k < i {
                    assert(held[k] == a);
                } else if k > i {
                    assert(held[k - 1] == a);
                }
            }
            if held.contains(a) {
                let k = choose|k: int| 0 <= k < held.len() && held[k] == a;
                if k < i {
                    assert(after[k] == a);
                } else {
                    assert(after[k + 1] == a);
                }
            }
            assert(after[i as int] == item);
        }
    }
}

fn sort_addresses(list: &Vec<IpAddr>) -> (r: Vec<IpAddr>)
    ensures
        is_address_set(r@, list@),
{
    let mut sorted: Vec<IpAddr> = Vec::new();
    let mut i: usize = 0;
    while i < list.len()
        invariant
            i <= list@.len(),
            in_order(sorted@),
            forall|a: IpAddr| #[trigger]
                sorted@.contains(a) <==> list@.take(i as int).contains(a),
        decreases list@.len() - i,
    {
        let ghost head = list@.take(i as int);
        let ghost longer = list@.take(i + 1);
        let ghost held = sorted@;
        insert_address(&mut sorted, list[i]);
        proof {
            assert forall|a: IpAddr| #[trigger] sorted@.contains(a) <==> longer.contains(a) by {
                assert(sorted@.contains(a) <==> held.contains(a) || a == list@[i as int]);
                assert(held.contains(a) <==> head.contains(a));
                if head.contains(a) {
                    let k = choose|k: int| 0 <= k < head.len() && head[k] == a;
                    assert(longer[k] == a);
                }
                if longer.contains(a) {
                    let k = choose|k: int| 0 <= k < longer.len() && longer[k] == a;
                    if k < i {
                        assert(head[k] == a);
                    }
                }
                assert(longer[i as int] == list@[i as int]);
            }
        }
        i = i + 1;
    }
    assert(list@.take(list@.len() as int) =~= list@);
    sorted
}

/// Whether each of some addresses is expected.
pub open spec fn all_expected(addresses: Seq<IpAddr>, expected: Seq<IpAddr>) -> bool {
    forall|i: int| 0 <= i < addresses.len() ==> expected.contains(#[trigger] addresses[i])
}

fn check_expected(addresses: &Vec<IpAddr>, expected: &Vec<IpAddr>) -> (r: bool)
    ensures
        r == all_expected(addresses@, expected@),
{
    let mut i: usize = 0;
    while i < addresses.len()
        invariant
            i <= addresses@.len(),
            forall|j: int| 0 <= j < i ==> expected@.contains(#[trigger] addresses@[j]),
        decreases addresses@.len() - i,
    {
        let mut found: bool = false;
        let mut k: usize = 0;
        while k < expected.len()
            invariant
                k <= expected@.len(),
                i < addresses@.len(),
                found == (exists|j: int| 0 <= j < k && expected@[j] == addresses@[i as int]),
            decreases expected@.len() - k,
        {
            if expected[k] == addresses[i] {
                assert(expected@[k as int] == addresses@[i as int]);
                found = true;
            }
            k = k + 1;
        }
        if !found {
            assert(!expected@.contains(addresses@[i as int]));
            return false;
        }
        assert(expected@.contains(addresses@[i as int]));
        i = i + 1;
    }
    true
}

/// Whether a record is the one of an answer: it matches the server only where every address that
/// was found is expected, so that a wrong address is not hidden behind a right one.
pub open spec fn is_resolved(
    after: RecordView,
    record: RecordView,
    lookup: Lookup,
    expected: Seq<IpAddr>,
) -> bool {
    &&& after.hostname == record.hostname
    &&& match lookup {
        Lookup::Found(found) => {
            &&& is_address_set(after.addresses, found@)
            &&& after.status == (if after.addresses.len() == 0 {
                "unresolved"@
            } else {
                "resolved"@
            })
            &&& after.matches_server == (if expected.len() > 0 && after.addresses.len() > 0 {
                Some(all_expected(after.addresses, expected))
            } else {
                record.matches_server
            })
            &&& after.error == (if after.addresses.len() == 0 {
                Some(
                    "未找到 A 或 AAAA 记录，请检查 DNS 配置并等待生效"@,
                )
            } else {
                record.error
            })
        },
        Lookup::Failed => {
            &&& after.addresses == record.addresses
            &&& after.status == "unresolved"@
            &&& after.matches_server == record.matches_server
            &&& after.error == Some(
                "Server 未能解析此域名，请检查 DNS 记录及服务器的解析器"@,
            )
        },
        Lookup::TimedOut => {
            &&& after.addresses == record.addresses
            &&& after.status == "unresolved"@
            &&& after.matches_server == record.matches_server
            &&& after.error == Some("DNS 查询超时，请稍后重试"@)
        },
    }
}

/// The record of a name after the resolver has answered.
pub fn resolve(record: Record, lookup: &Lookup, expected: &Vec<IpAddr>) -> (r: Record)
    ensures
        is_resolved(r@, record@, *lookup, expected@),
{
    match lookup {
        Lookup::Found(found) => {
            let addresses: Vec<IpAddr> = sort_addresses(found);
            let none: bool = addresses.len() == 0;
            Record {
                hostname: record.hostname,
                status: if none {
                    "unresolved"
                } else {
                    "resolved"
                },
                matches_server: if expected.len() > 0 && !none {
                    Some(check_expected(&addresses, expected))
                } else {
                    record.matches_server
                },
                error: if none {
                    Some(
                        "未找到 A 或 AAAA 记录，请检查 DNS 配置并等待生效".to_owned(),
                    )
                } else {
                    record.error
                },
                addresses,
            }
        },
        Lookup::Failed => Record {
            hostname: record.hostname,
            addresses: record.addresses,
            status: "unresolved",
            matches_server: record.matches_server,
            error: Some(
                "Server 未能解析此域名，请检查 DNS 记录及服务器的解析器".to_owned(),
            ),
        },
        Lookup::TimedOut => Record {
            hostname: record.hostname,
            addresses: record.addresses,
            status: "unresolved",
            matches_server: record.matches_server,
            error: Some("DNS 查询超时，请稍后重试".to_owned()),
        },
    }
}

/// The names of a domain and of its first `n` services, each once.
pub open spec fn hosts(domain: Seq<char>, names: Seq<Seq<char>>, n: int) -> Seq<Seq<char>>
    decreases n,
{
    if n <= 0 {
        seq![domain]
    } else {
        let rest = hosts(domain, names, n - 1);
        let host = names[n - 1] + "."@ + domain;
        if rest.contains(host) {
            rest
        } else {
            rest.push(host)
        }
    }
}

/// A name that was not tried.
pub open spec fn untried(hostname: Seq<char>) -> RecordView {
    RecordView {
        hostname,
        addresses: Seq::empty(),
        status: "unchecked"@,
        matches_server: None,
        error: None,
    }
}

/// A domain whose names were not tried.
pub open spec fn unchecked(domain: Seq<char>, names: Seq<Seq<char>>, expected: Seq<IpAddr>) -> AccessView {
    let all = hosts(domain, names, names.len() as int);
    AccessView {
        domain,
        expected_addresses: expected,
        records: Seq::new(all.len(), |i: int| untried(all[i])),
        checked_at: None,
        next_retry_at: None,
        retries_remaining: MAX_RETRIES,
        public_access: "unverified"@,
    }
}

fn copy_addresses(list: &Vec<IpAddr>) -> (r: Vec<IpAddr>)
    ensures
        r@ == list@,
{
    let mut copy: Vec<IpAddr> = Vec::new();
    let mut i: usize = 0;
    while i < list.len()
        invariant
            i <= list@.len(),
            copy@ == list@.take(i as int),
        decreases list@.len() - i,
    {
        copy.push(list[i]);
        assert(copy@ =~= list@.take(i + 1));
        i = i + 1;
    }
    assert(list@.take(list@.len() as int) =~= list@);
    copy
}

/// What there is to try of a domain of the workspace: the domain and the names of its services.
pub fn load(domain: Option<&str>, names: &Vec<String>, public_ips: &Vec<IpAddr>) -> (r: Result<
    Access,
    ApiError,
>)
    ensures
        match (domain, r) {
            (Some(domain), Ok(access)) => access@ == unchecked(
                domain@,
                text::views(names@),
                public_ips@,
            ),
            (None, Err(e)) => error::told(e) == error::refusal(NOT_FOUND, "域名不存在"),
            _ => false,
        },
{
    let domain: &str = match domain {
        Some(domain) => domain,
        None => {
            return Err(ApiError::new(NOT_FOUND, "域名不存在"));
        },
    };
    let mut all: Vec<String> = Vec::new();
    all.push(domain.to_owned());
    let ghost services = text::views(names@);
    let mut i: usize = 0;
    assert(text::views(all@) =~= hosts(domain@, services, 0));
    while i < names.len()
        invariant
            i <= names@.len(),
            services == text::views(names@),
            text::views(all@) == hosts(domain@, services, i as int),
        decreases names@.len() - i,
    {
        assert(services[i as int] == names@[i as int]@);
        let host: String = join3(names[i].as_str(), ".", domain);
        if !holds(&all, host.as_str()) {
            let ghost held = text::views(all@);
            all.push(host);
            assert(text::views(all@) =~= held.push(host@));
        }
        i = i + 1;
    }
    let ghost expected = hosts(domain@, services, services.len() as int);
    let mut records: Vec<Record> = Vec::new();
    i = 0;
    while i < all.len()
        invariant
            i <= all@.len(),
            text::views(all@) == expected,
            records@.len() == i,
            forall|j: int| 0 <= j < i ==> (#[trigger] records@[j])@ == untried(expected[j]),
        decreases all@.len() - i,
    {
        assert(expected[i as int] == all@[i as int]@);
        let record = Record {
            hostname: all[i].clone(),
            addresses: Vec::new(),
            status: "unchecked",
            matches_server: None,
            error: None,
        };
        assert(record@.addresses =~= Seq::<IpAddr>::empty());
        records.push(record);
        i = i + 1;
    }
    assert(records_of(records@) =~= Seq::new(expected.len(), |i: int| untried(expected[i])));
    Ok(
        Access {
            domain: domain.to_owned(),
            expected_addresses: copy_addresses(public_ips),
            records,
            checked_at: None,
            next_retry_at: None,
            retries_remaining: MAX_RETRIES,
            public_access: "unverified",
        },
    )
}

/// Whether two records of a domain are about the same names and addresses.
pub open spec fn same_subject(a: AccessView, b: AccessView) -> bool {
    a.domain == b.domain && a.expected_addresses == b.expected_addresses && a.records.len()
        == b.records.len() && forall|i: int|
        0 <= i < a.records.len() ==> (#[trigger] a.records[i]).hostname == b.records[i].hostname
}

/// What is shown of a domain: the stored result, unless the names have changed since.
pub open spec fn shown(stored: Option<AccessView>, current: AccessView) -> AccessView {
    match stored {
        Some(result) if same_subject(result, current) => result,
        _ => current,
    }
}

fn check_subject(a: &Access, b: &Access) -> (r: bool)
    ensures
        r == same_subject(a@, b@),
{
    if !same(a.domain.as_str(), b.domain.as_str()) || a.expected_addresses.len()
        != b.expected_addresses.len() || a.records.len() != b.records.len() {
        return false;
    }
    let mut i: usize = 0;
    while i < a.expected_addresses.len()
        invariant
            i <= a.expected_addresses@.len(),
            a.expected_addresses@.len() == b.expected_addresses@.len(),
            forall|j: int|
                0 <= j < i ==> (#[trigger] a.expected_addresses@[j]) == b.expected_addresses@[j],
        decreases a.expected_addresses@.len() - i,
    {
        if a.expected_addresses[i] != b.expected_addresses[i] {
            assert(a@.expected_addresses[i as int] != b@.expected_addresses[i as int]);
            return false;
        }
        i = i + 1;
    }
    assert(a.expected_addresses@ =~= b.expected_addresses@);
    i = 0;
    while i < a.records.len()
        invariant
            i <= a.records@.len(),
            a.records@.len() == b.records@.len(),
            forall|j: int|
                0 <= j < i ==> (#[trigger] a@.records[j]).hostname == b@.records[j].hostname,
        decreases a.records@.len() - i,
    {
        assert(a@.records[i as int] == a.records@[i as int]@);
        assert(b@.records[i as int] == b.records@[i as int]@);
        if !same(a.records[i].hostname.as_str(), b.records[i].hostname.as_str()) {
            return false;
        }
        i = i + 1;
    }
    true
}

fn copy_record(record: &Record) -> (r: Record)
    ensures
        r@ == record@,
{
    Record {
        hostname: record.hostname.clone(),
        addresses: copy_addresses(&record.addresses),
        status: record.status,
        matches_server: record.matches_server,
        error: copy_opt(&record.error),
    }
}

/// Copies what is known of a domain.
pub fn copy_access(access: &Access) -> (r: Access)
    ensures
        r@ == access@,
{
    let mut records: Vec<Record> = Vec::new();
    let mut i: usize = 0;
    while i < access.records.len()
        invariant
            i <= access.records@.len(),
            records@.len() == i,
            forall|j: int| 0 <= j < i ==> (#[trigger] records@[j])@ == access.records@[j]@,
        decreases access.records@.len() - i,
    {
        records.push(copy_record(&access.records[i]));
        i = i + 1;
    }
    assert(records_of(records@) =~= records_of(access.records@));
    Access {
        domain: access.domain.clone(),
        expected_addresses: copy_addresses(&access.expected_addresses),
        records,
        checked_at: access.checked_at,
        next_retry_at: access.next_retry_at,
        retries_remaining: access.retries_remaining,
        public_access: access.public_access,
    }
}

/// The stored results, each with its domain.
#[derive(Debug)]
pub struct Runtime {
    pub entries: Vec<Entry>,
}

/// The stored result of a domain.
#[derive(Debug)]
pub struct Entry {
    pub id: String,
    pub result: Access,
}

/// The stored results, each with its domain.
pub open spec fn entries_of(list: Seq<Entry>) -> Seq<(Seq<char>, AccessView)> {
    Seq::new(list.len(), |i: int| (list[i].id@, list[i].result@))
}

/// The stored result of a domain, from position `i` on.
pub open spec fn result_from(entries: Seq<(Seq<char>, AccessView)>, id: Seq<char>, i: int) -> Option<
    int,
>
    decreases entries.len() - i,
{
    if i < 0 || i >= entries.len() {
        None
    } else if entries[i].0 == id {
        Some(i)
    } else {
        result_from(entries, id, i + 1)
    }
}

/// The stored result of a domain.
pub open spec fn stored(entries: Seq<(Seq<char>, AccessView)>, id: Seq<char>) -> Option<AccessView> {
    match result_from(entries, id, 0) {
        Some(k) => Some(entries[k].1),
        None => None,
    }
}

/// Those of the first `n` results whose domain is still there.
pub open spec fn kept(
    entries: Seq<(Seq<char>, AccessView)>,
    ids: Seq<Seq<char>>,
    n: int,
) -> Seq<(Seq<char>, AccessView)>
    decreases n,
{
    if n <= 0 {
        Seq::empty()
    } else if ids.contains(entries[n - 1].0) {
        kept(entries, ids, n - 1).push(entries[n - 1])
    } else {
        kept(entries, ids, n - 1)
    }
}

impl Default for Runtime {
    fn default() -> (r: Runtime)
        ensures
            r.entries@.len() == 0,
    {
        Runtime { entries: Vec::new() }
    }
}

impl Runtime {
    fn position(&self, id: &str) -> (r: Option<usize>)
        ensures
            match r {
                Some(k) => k < self.entries@.len() && result_from(
                    entries_of(self.entries@),
                    id@,
                    0,
                ) == Some(k as int),
                None => result_from(entries_of(self.entries@), id@, 0) is None,
            },
    {
        let ghost all = entries_of(self.entries@);
        let mut i: usize = 0;
        while i < self.entries.len()
            invariant
                i <= self.entries@.len(),
                all == entries_of(self.entries@),
                result_from(all, id@, 0) == result_from(all, id@, i as int),
            decreases self.entries@.len() - i,
        {
            assert(all[i as int].0 == self.entries@[i as int].id@);
            if same(self.entries[i].id.as_str(), id) {
                return Some(i);
            }
            i = i + 1;
        }
        None
    }

    /// What is shown of a domain: the stored result, unless the names have changed since.
    pub fn status(&self, id: &str, current: Access) -> (r: Access)
        ensures
            r@ == shown(stored(entries_of(self.entries@), id@), current@),
    {
        if let Some(k) = self.position(id) {
            assert(entries_of(self.entries@)[k as int].1 == self.entries@[k as int].result@);
            if check_subject(&self.entries[k].result, &current) {
                return copy_access(&self.entries[k].result);
            }
        }
        current
    }

    /// Stores the result of a domain in place of an earlier one.
    pub fn store(&mut self, id: &str, result: Access)
        ensures
            entries_of(final(self).entries@) == (match result_from(
                entries_of(old(self).entries@),
                id@,
                0,
            ) {
                Some(k) => entries_of(old(self).entries@).update(k, (id@, result@)),
                None => entries_of(old(self).entries@).push((id@, result@)),
            }),
    {
        let ghost all = entries_of(self.entries@);
        let ghost new = (id@, result@);
        match self.position(id) {
            Some(k) => {
                self.entries.set(k, Entry { id: id.to_owned(), result });
                assert(entries_of(self.entries@) =~= all.update(k as int, new));
            },
            None => {
                self.entries.push(Entry { id: id.to_owned(), result });
                assert(entries_of(self.entries@) =~= all.push(new));
            },
        }
    }

    /// Forgets the results of domains that are gone.
    pub fn retain(&mut self, ids: &Vec<String>)
        ensures
            entries_of(final(self).entries@) == kept(
                entries_of(old(self).entries@),
                text::views(ids@),
                old(self).entries@.len() as int,
            ),
    {
        let mut next: Vec<Entry> = Vec::new();
        let ghost all = entries_of(self.entries@);
        let ghost names = text::views(ids@);
        let mut i: usize = 0;
        assert(entries_of(next@) =~= kept(all, names, 0));
        while i < self.entries.len()
            invariant
                i <= self.entries@.len(),
                *self == *old(self),
                all == entries_of(self.entries@),
                names == text::views(ids@),
                entries_of(next@) == kept(all, names, i as int),
            decreases self.entries@.len() - i,
        {
            let entry: &Entry = &self.entries[i];
            assert(all[i as int] == (entry.id@, entry.result@));
            if holds(ids, entry.id.as_str()) {
                let ghost held = entries_of(next@);
                next.push(Entry { id: entry.id.clone(), result: copy_access(&entry.result) });
                assert(entries_of(next@) =~= held.push(all[i as int]));
            }
            i = i + 1;
        }
        self.entries = next;
    }
}

/// Whether a domain is tried now: on request, at first, and when a retry is due.
pub open spec fn due(known: AccessView, force: bool, now: i64) -> bool {
    force || known.checked_at is None || (known.next_retry_at matches Some(at) && at <= now)
}

/// Whether a domain is tried now.
pub fn is_due(known: &Access, force: bool, now: i64) -> (r: bool)
    ensures
        r == due(known@, force, now),
{
    if force || known.checked_at.is_none() {
        return true;
    }
    match known.next_retry_at {
        Some(at) => at <= now,
        None => false,
    }
}

/// Whether a name did not resolve.
pub open spec fn some_unresolved(records: Seq<RecordView>) -> bool {
    exists|i: int| 0 <= i < records.len() && (#[trigger] records[i]).status == "unresolved"@
}

/// The tries that are left after a check; one on request neither uses up nor restores any.
pub open spec fn tries_left(records: Seq<RecordView>, known: AccessView, force: bool) -> u8 {
    if !some_unresolved(records) {
        0
    } else if known.checked_at is None {
        MAX_RETRIES
    } else if force {
        known.retries_remaining
    } else if known.retries_remaining > 0 {
        (known.retries_remaining - 1) as u8
    } else {
        0
    }
}

/// The result of a check. Addresses that are not the ones of the server may be those of a proxy, so
/// they call for no retry.
pub open spec fn settled(tried: AccessView, known: AccessView, force: bool, now: i64) -> AccessView {
    let left = tries_left(tried.records, known, force);
    AccessView {
        checked_at: Some(now),
        retries_remaining: left,
        next_retry_at: if left > 0 {
            Some((now + RETRY_INTERVAL_SECS) as i64)
        } else {
            None
        },
        ..tried
    }
}

/// Settles the result of a check.
pub fn settle(tried: Access, known: &Access, force: bool, now: i64) -> (r: Access)
    requires
        tried.next_retry_at is None,
        now + RETRY_INTERVAL_SECS <= i64::MAX,
    ensures
        r@ == settled(tried@, known@, force, now),
{
    let mut open: bool = false;
    let ghost all = records_of(tried.records@);
    let mut i: usize = 0;
    while i < tried.records.len()
        invariant
            i <= tried.records@.len(),
            all == records_of(tried.records@),
            open == (exists|j: int| 0 <= j < i && (#[trigger] all[j]).status == "unresolved"@),
        decreases tried.records@.len() - i,
    {
        assert(all[i as int] == tried.records@[i as int]@);
        if same(tried.records[i].status, "unresolved") {
            open = true;
        }
        i = i + 1;
    }
    let left: u8 = if !open {
        0
    } else if known.checked_at.is_none() {
        MAX_RETRIES
    } else if force {
        known.retries_remaining
    } else if known.retries_remaining > 0 {
        known.retries_remaining - 1
    } else {
        0
    };
    Access {
        domain: tried.domain,
        expected_addresses: tried.expected_addresses,
        records: tried.records,
        checked_at: Some(now),
        next_retry_at: if left > 0 {
            Some(now + RETRY_INTERVAL_SECS)
        } else {
            None
        },
        retries_remaining: left,
        public_access: tried.public_access,
    }
}

/// Retries end: each automatic check of a name that does not resolve leaves one try less, and after
/// the last one no automatic check is due.
pub proof fn retries_run_out(tried: AccessView, known: AccessView, now: i64, later: i64)
    requires
        known.checked_at is Some,
        now + RETRY_INTERVAL_SECS <= i64::MAX,
    ensures
        known.retries_remaining > 0 ==> settled(tried, known, false, now).retries_remaining
            < known.retries_remaining,
        settled(tried, known, false, now).retries_remaining == 0 ==> !due(
            settled(tried, known, false, now),
            false,
            later,
        ),
{
}

/// A result in which every name resolves stops the checks: none is due until the names change.
pub proof fn success_stops_the_checks(
    tried: AccessView,
    known: AccessView,
    force: bool,
    now: i64,
    later: i64,
)
    requires
        !some_unresolved(tried.records),
    ensures
        !due(settled(tried, known, force, now), false, later),
{
}

/// A retry waits for its time.
pub proof fn retries_wait_for_their_time(
    tried: AccessView,
    known: AccessView,
    force: bool,
    now: i64,
    later: i64,
)
    requires
        now + RETRY_INTERVAL_SECS <= i64::MAX,
        later < now + RETRY_INTERVAL_SECS,
    ensures
        !due(settled(tried, known, force, now), false, later),
{
}

/// A change of the names takes the result back at once: the domain counts as not checked.
pub proof fn changes_take_the_result_back(
    result: AccessView,
    domain: Seq<char>,
    names: Seq<Seq<char>>,
    expected: Seq<IpAddr>,
    now: i64,
)
    requires
        !same_subject(result, unchecked(domain, names, expected)),
    ensures
        shown(Some(result), unchecked(domain, names, expected)).checked_at is None,
        due(shown(Some(result), unchecked(domain, names, expected)), false, now),
{
}

/// That a name resolves never counts as a proof that it can be reached.
pub proof fn resolving_claims_no_reachability(
    domain: Seq<char>,
    names: Seq<Seq<char>>,
    expected: Seq<IpAddr>,
    records: Seq<RecordView>,
    known: AccessView,
    force: bool,
    now: i64,
)
    ensures
        settled(
            AccessView { records, ..unchecked(domain, names, expected) },
            known,
            force,
            now,
        ).public_access == "unverified"@,
{
}

/// Addresses are listed by kind and value: of two that differ exactly one stands before the other.
pub proof fn addresses_have_one_order(a: IpAddr, b: IpAddr, c: IpAddr)
    ensures
        !before(a, a),
        a != b ==> before(a, b) != before(b, a),
        before(a, b) && before(b, c) ==> before(a, c),
        a is V4 && b is V6 ==> before(a, b),
{
}

/// A name that has addresses is resolved and one that has none is not, with a reason; no lookup makes
/// up an address or changes the name. It matches the server where all of its addresses are expected.
pub proof fn names_are_resolved_by_what_is_found(
    after: RecordView,
    record: RecordView,
    lookup: Lookup,
    expected: Seq<IpAddr>,
)
    requires
        is_resolved(after, record, lookup, expected),
    ensures
        after.hostname == record.hostname,
        lookup matches Lookup::Found(found) ==> {
            &&& forall|a: IpAddr| #[trigger] after.addresses.contains(a) <==> found@.contains(a)
            &&& found@.len() > 0 ==> after.status == "resolved"@ && after.error == record.error
            &&& found@.len() == 0 ==> after.status == "unresolved"@ && after.error is Some
            &&& found@.len() > 0 && expected.len() > 0 ==> (after.matches_server == Some(true)
                <==> forall|i: int|
                0 <= i < found@.len() ==> expected.contains(#[trigger] found@[i]))
            &&& found@.len() > 0 && expected.len() > 0 ==> after.matches_server is Some
            &&& found@.len() == 0 || expected.len() == 0 ==> after.matches_server
                == record.matches_server
            &&& forall|i: int, j: int|
                0 <= i < j < after.addresses.len() ==> #[trigger] after.addresses[i]
                    != #[trigger] after.addresses[j]
        },
        !(lookup is Found) ==> after.status == "unresolved"@ && after.error is Some
            && after.addresses == record.addresses && after.matches_server == record.matches_server,
{
    if let Lookup::Found(found) = lookup {
        if found@.len() > 0 {
            assert(found@.contains(found@[0]));
            assert(after.addresses.contains(found@[0]));
        }
        if after.addresses.len() > 0 {
            assert(after.addresses.contains(after.addresses[0]));
            assert(found@.contains(after.addresses[0]));
        }
        if found@.len() > 0 && expected.len() > 0 {
            if all_expected(after.addresses, expected) {
                assert forall|i: int| 0 <= i < found@.len() implies expected.contains(
                    #[trigger] found@[i],
                ) by {
                    assert(found@.contains(found@[i]));
                    assert(after.addresses.contains(found@[i]));
                    let j = choose|j: int|
                        0 <= j < after.addresses.len() && after.addresses[j] == found@[i];
                    assert(expected.contains(after.addresses[j]));
                }
            }
            if forall|i: int| 0 <= i < found@.len() ==> expected.contains(#[trigger] found@[i]) {
                assert forall|j: int| 0 <= j < after.addresses.len() implies expected.contains(
                    #[trigger] after.addresses[j],
                ) by {
                    assert(after.addresses.contains(after.addresses[j]));
                    assert(found@.contains(after.addresses[j]));
                    let i = choose|i: int| 0 <= i < found@.len() && found@[i] == after.addresses[j];
                    assert(expected.contains(found@[i]));
                }
            }
        }
    }
}

/// The names that are checked are the domain, which comes first, and those of its services below it,
/// each once.
pub proof fn the_domain_and_its_services_are_checked(
    domain: Seq<char>,
    names: Seq<Seq<char>>,
    n: int,
)
    requires
        0 <= n <= names.len(),
    ensures
        ({
            let all = hosts(domain, names, n);
            &&& all.len() >= 1 && all[0] == domain
            &&& all.no_duplicates()
            &&& forall|k: int| 0 <= k < n ==> all.contains(#[trigger] names[k] + "."@ + domain)
            &&& forall|j: int|
                1 <= j < all.len() ==> exists|k: int|
                    0 <= k < n && #[trigger] all[j] == #[trigger] names[k] + "."@ + domain
        }),
    decreases n,
{
    if n > 0 {
        the_domain_and_its_services_are_checked(domain, names, n - 1);
        let rest = hosts(domain, names, n - 1);
        let host = names[n - 1] + "."@ + domain;
        let all = hosts(domain, names, n);
        if !rest.contains(host) {
            assert(all[rest.len() as int] == host);
        }
        assert forall|k: int| 0 <= k < n implies all.contains(
            #[trigger] names[k] + "."@ + domain,
        ) by {
            if k < n - 1 {
                let wanted = names[k] + "."@ + domain;
                assert(rest.contains(wanted));
                let j = choose|j: int| 0 <= j < rest.len() && rest[j] == wanted;
                assert(all[j] == wanted);
            }
        }
        assert forall|j: int| 1 <= j < all.len() implies exists|k: int|
            0 <= k < n && #[trigger] all[j] == #[trigger] names[k] + "."@ + domain by {
            if j < rest.len() {
                assert(all[j] == rest[j]);
                let k = choose|k: int|
                    0 <= k < n - 1 && rest[j] == #[trigger] names[k] + "."@ + domain;
                assert(all[j] == names[k] + "."@ + domain);
            } else {
                assert(all[j] == names[n - 1] + "."@ + domain);
            }
        }
    }
}

/// A domain that was not checked yet has three tries, no result for any of its names, and is due.
pub proof fn unchecked_domains_are_due(
    domain: Seq<char>,
    names: Seq<Seq<char>>,
    expected: Seq<IpAddr>,
    now: i64,
)
    ensures
        ({
            let access = unchecked(domain, names, expected);
            &&& access.domain == domain
            &&& access.expected_addresses == expected
            &&& access.checked_at is None && access.next_retry_at is None
            &&& access.retries_remaining == 3
            &&& access.public_access == "unverified"@
            &&& access.records.len() == hosts(domain, names, names.len() as int).len()
            &&& forall|i: int|
                0 <= i < access.records.len() ==> (#[trigger] access.records[i]).hostname == hosts(
                    domain,
                    names,
                    names.len() as int,
                )[i] && access.records[i].status == "unchecked"@
                    && access.records[i].addresses.len() == 0 && access.records[i].error is None
                    && access.records[i].matches_server is None
            &&& due(access, false, now)
        }),
{
}

/// A stored result is shown for the domain, the names and the addresses that it was found for; for any
/// others the check starts over.
pub proof fn results_are_shown_for_their_names(
    result: AccessView,
    current: AccessView,
)
    ensures
        shown(None, current) == current,
        shown(Some(result), current) == result || shown(Some(result), current) == current,
        result.domain != current.domain || result.expected_addresses != current.expected_addresses
            || result.records.len() != current.records.len() ==> shown(Some(result), current)
            == current,
        (exists|i: int|
            0 <= i < result.records.len() && (#[trigger] result.records[i]).hostname
                != current.records[i].hostname) ==> shown(Some(result), current) == current,
        result.domain == current.domain && result.expected_addresses == current.expected_addresses
            && result.records.len() == current.records.len() && (forall|i: int|
            0 <= i < result.records.len() ==> (#[trigger] result.records[i]).hostname
                == current.records[i].hostname) ==> shown(Some(result), current) == result,
{
}

/// A result is found by the identifier that it is stored under.
pub proof fn results_are_found_by_their_domain(
    entries: Seq<(Seq<char>, AccessView)>,
    id: Seq<char>,
)
    ensures
        stored(entries, id) is Some ==> exists|k: int|
            0 <= k < entries.len() && (#[trigger] entries[k]).0 == id && stored(entries, id)
                == Some(entries[k].1),
        stored(entries, id) is None <==> forall|k: int|
            0 <= k < entries.len() ==> (#[trigger] entries[k]).0 != id,
{
    lemma_result_place(entries, id, 0);
    if stored(entries, id) is Some {
        assert(entries[result_from(entries, id, 0)->0].0 == id);
    }
}

proof fn lemma_result_place(entries: Seq<(Seq<char>, AccessView)>, id: Seq<char>, i: int)
    requires
        0 <= i <= entries.len(),
    ensures
        result_from(entries, id, i) is Some ==> i <= result_from(entries, id, i)->0 < entries.len()
            && entries[result_from(entries, id, i)->0].0 == id && forall|k: int|
            i <= k < result_from(entries, id, i)->0 ==> (#[trigger] entries[k]).0 != id,
        result_from(entries, id, i) is None <==> forall|k: int|
            i <= k < entries.len() ==> (#[trigger] entries[k]).0 != id,
    decreases entries.len() - i,
{
    if i < entries.len() {
        lemma_result_place(entries, id, i + 1);
    }
}

/// What was stored last for a domain is what is found for it, and storing changes no other result.
pub proof fn stored_results_are_found(
    entries: Seq<(Seq<char>, AccessView)>,
    id: Seq<char>,
    result: AccessView,
    other: Seq<char>,
)
    ensures
        ({
            let after = match result_from(entries, id, 0) {
                Some(k) => entries.update(k, (id, result)),
                None => entries.push((id, result)),
            };
            &&& stored(after, id) == Some(result)
            &&& other != id ==> stored(after, other) == stored(entries, other)
        }),
{
    let after = match result_from(entries, id, 0) {
        Some(k) => entries.update(k, (id, result)),
        None => entries.push((id, result)),
    };
    lemma_result_place(entries, id, 0);
    lemma_result_place(after, id, 0);
    lemma_result_place(entries, other, 0);
    lemma_result_place(after, other, 0);
    let at = match result_from(entries, id, 0) {
        Some(k) => k,
        None => entries.len() as int,
    };
    assert(after[at] == (id, result));
    let found = result_from(after, id, 0)->0;
    if found < at {
        assert(after[found] == entries[found]);
    }
    if other != id {
        assert forall|k: int| 0 <= k < entries.len() implies (#[trigger] after[k]).0
            == entries[k].0 by {}
        if result_from(entries, other, 0) is Some {
            let k = result_from(entries, other, 0)->0;
            assert(after[k] == entries[k]);
            let l = result_from(after, other, 0)->0;
            assert(after[l] == entries[l]);
            assert(k == l);
        } else if result_from(after, other, 0) is Some {
            let l = result_from(after, other, 0)->0;
            assert(l != at);
            assert(after[l] == entries[l]);
        }
    }
}

proof fn lemma_picks_results(entries: Seq<(Seq<char>, AccessView)>, ids: Seq<Seq<char>>, n: int, keep: spec_fn(int) -> bool, value: spec_fn(int) -> (Seq<char>, AccessView))
    requires
        forall|i: int|
            0 <= i < n ==> #[trigger] keep(i) == (ids.contains(entries[i].0)) && value(i) == (entries[i]),
    ensures
        kept(entries, ids, n) == picked::picked(keep, value, n),
    decreases n,
{
    if n > 0 {
        assert(keep(n - 1) || !keep(n - 1));
        lemma_picks_results(entries, ids, n - 1, keep, value);
    }
}

/// The results of domains that are still there are kept as they are, and no others are.
pub proof fn results_of_domains_that_stay_are_kept(entries: Seq<(Seq<char>, AccessView)>, ids: Seq<Seq<char>>)
    ensures
        forall|entry: (Seq<char>, AccessView)| #[trigger]
            kept(entries, ids, entries.len() as int).contains(entry) <==> exists|i: int|
                0 <= i < entries.len() && #[trigger] entries[i] == entry && ids.contains(entry.0),
{
    let n = entries.len() as int;
    let keep = |i: int| ids.contains(entries[i].0);
    let value = |i: int| entries[i];
    lemma_picks_results(entries, ids, n, keep, value);
    assert forall|entry: (Seq<char>, AccessView)| #[trigger] kept(entries, ids, n).contains(entry) <==> exists|i: int|
        0 <= i < entries.len() && #[trigger] entries[i] == entry && ids.contains(entry.0) by {
        picked::lemma_picked_contains(keep, value, n, entry);
        if kept(entries, ids, n).contains(entry) {
            let i = choose|i: int| 0 <= i < n && #[trigger] keep(i) && value(i) == entry;
            assert(entries[i] == entries[i]);
        }
        if exists|i: int| 0 <= i < entries.len() && #[trigger] entries[i] == entry && ids.contains(entry.0) {
            let i = choose|i: int| 0 <= i < entries.len() && #[trigger] entries[i] == entry && ids.contains(entry.0);
            assert(keep(i) && value(i) == entry);
        }
    }
}

/// A check is due where it is asked for, where there was none yet, and once the time of the next try has
/// come; at no other time.
pub proof fn checks_are_due_in_time(known: AccessView, force: bool, now: i64)
    ensures
        due(known, force, now) <==> force || known.checked_at is None || (known.next_retry_at
            is Some && known.next_retry_at->0 <= now),
{
}

/// A result is kept as it came. With a name unresolved the next try comes after five minutes, three
/// times in all; an asked-for check costs none of them. Without one there is no further try.
pub proof fn unresolved_names_are_tried_three_times(
    tried: AccessView,
    known: AccessView,
    force: bool,
    now: i64,
)
    requires
        now + 300 <= i64::MAX,
    ensures
        ({
            let next = settled(tried, known, force, now);
            let open = exists|i: int|
                0 <= i < tried.records.len() && (#[trigger] tried.records[i]).status
                    == "unresolved"@;
            &&& next.domain == tried.domain && next.records == tried.records
                && next.expected_addresses == tried.expected_addresses && next.public_access
                == tried.public_access
            &&& next.checked_at == Some(now)
            &&& !open ==> next.retries_remaining == 0
            &&& open && known.checked_at is None ==> next.retries_remaining == 3
            &&& open && known.checked_at is Some && force ==> next.retries_remaining
                == known.retries_remaining
            &&& open && known.checked_at is Some && !force && known.retries_remaining > 0
                ==> next.retries_remaining + 1 == known.retries_remaining
            &&& known.checked_at is Some && known.retries_remaining == 0
                ==> next.retries_remaining == 0
            &&& next.retries_remaining > 0 ==> next.next_retry_at is Some && next.next_retry_at->0
                == now + 300
            &&& next.retries_remaining == 0 ==> next.next_retry_at is None
        }),
{
}

} // verus!
