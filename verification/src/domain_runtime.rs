//! What the edge process does for each public domain, as it is observed and shown.
use vstd::prelude::*;

use crate::caddy;
use crate::caddy::CaddyLogEvent;
use crate::domains;
use crate::domains::{credential_path, DnsSettings, Settings};
use crate::edge_config;
use crate::edge_config::{covers, DomainSpec, WebService};
use crate::enrollment_token;
use crate::enrollment_token::add_seconds;
use crate::picked;
use crate::text;
use crate::text::{
    bytes_of, copy_list, copy_opt, holds, is_text, join2, join3, lower, replace, same, starts_with,
};
use crate::x509;
use crate::x509::{first_pem, parse_certificate, parse_names};

verus! {

/// The state of the certificate for one name.
#[derive(Debug, Clone)]
pub struct CertificateStatus {
    pub hostname: String,
    pub status: String,
    pub not_before: Option<i64>,
    pub expires_at: Option<i64>,
    pub error: Option<String>,
    pub next_retry_at: Option<i64>,
}

/// The state of the certificate for one name.
pub ghost struct CertView {
    pub hostname: Seq<char>,
    pub status: Seq<char>,
    pub not_before: Option<i64>,
    pub expires_at: Option<i64>,
    pub error: Option<Seq<char>>,
    pub next_retry_at: Option<i64>,
}

impl View for CertificateStatus {
    type V = CertView;

    open spec fn view(&self) -> CertView {
        CertView {
            hostname: self.hostname@,
            status: self.status@,
            not_before: self.not_before,
            expires_at: self.expires_at,
            error: text::opt(self.error),
            next_retry_at: self.next_retry_at,
        }
    }
}

/// The states of a list.
pub open spec fn cert_views(list: Seq<CertificateStatus>) -> Seq<CertView> {
    Seq::new(list.len(), |i: int| list[i]@)
}

/// The state of a domain.
#[derive(Debug, Clone)]
pub struct DomainRuntime {
    pub config_status: String,
    pub config_error: Option<String>,
    pub service_warning: Option<String>,
    pub checked_at: Option<i64>,
    pub certificates: Vec<CertificateStatus>,
    /// The address of each service that is served, with its tunnel.
    pub loaded_routes: Vec<(String, String)>,
}

/// The state of a domain.
pub ghost struct RuntimeView {
    pub config_status: Seq<char>,
    pub config_error: Option<Seq<char>>,
    pub service_warning: Option<Seq<char>>,
    pub checked_at: Option<i64>,
    pub certificates: Seq<CertView>,
    pub loaded_routes: Seq<(Seq<char>, Seq<char>)>,
}

/// The addresses of a list, with their tunnels.
pub open spec fn route_views(list: Seq<(String, String)>) -> Seq<(Seq<char>, Seq<char>)> {
    Seq::new(list.len(), |i: int| (list[i].0@, list[i].1@))
}

impl View for DomainRuntime {
    type V = RuntimeView;

    open spec fn view(&self) -> RuntimeView {
        RuntimeView {
            config_status: self.config_status@,
            config_error: text::opt(self.config_error),
            service_warning: text::opt(self.service_warning),
            checked_at: self.checked_at,
            certificates: cert_views(self.certificates@),
            loaded_routes: route_views(self.loaded_routes@),
        }
    }
}

/// The state of a domain before anything was observed.
pub open spec fn pending_runtime(enabled: bool) -> RuntimeView {
    RuntimeView {
        config_status: if enabled {
            "pending"@
        } else {
            "disabled"@
        },
        config_error: None,
        service_warning: None,
        checked_at: None,
        certificates: Seq::empty(),
        loaded_routes: Seq::empty(),
    }
}

impl DomainRuntime {
    /// The state of a domain before anything was observed.
    pub fn pending(enabled: bool) -> (r: DomainRuntime)
        ensures
            r@ == pending_runtime(enabled),
    {
        let r = DomainRuntime {
            config_status: if enabled {
                "pending".to_owned()
            } else {
                "disabled".to_owned()
            },
            config_error: None,
            service_warning: None,
            checked_at: None,
            certificates: Vec::new(),
            loaded_routes: Vec::new(),
        };
        assert(cert_views(r.certificates@) =~= Seq::empty());
        assert(route_views(r.loaded_routes@) =~= Seq::empty());
        r
    }

    /// The tunnel that the edge uses for an address, where it serves it.
    pub fn loaded_route(&self, address: &str) -> (r: Option<String>)
        ensures
            text::opt(r) == last_route_for(self@.loaded_routes, address@, self@.loaded_routes.len() as int),
    {
        let ghost routes = self@.loaded_routes;
        let mut n: usize = self.loaded_routes.len();
        while n > 0
            invariant
                n <= self.loaded_routes@.len(),
                routes == self@.loaded_routes,
                last_route_for(routes, address@, routes.len() as int) == last_route_for(
                    routes,
                    address@,
                    n as int,
                ),
            decreases n,
        {
            assert(routes[n - 1] == (self.loaded_routes@[n - 1].0@, self.loaded_routes@[n - 1].1@));
            if same(self.loaded_routes[n - 1].0.as_str(), address) {
                return Some(self.loaded_routes[n - 1].1.clone());
            }
            n = n - 1;
        }
        None
    }
}

/// The tunnel of the last of the first `n` routes for an address.
pub open spec fn last_route_for(
    routes: Seq<(Seq<char>, Seq<char>)>,
    address: Seq<char>,
    n: int,
) -> Option<Seq<char>>
    decreases n,
{
    if n <= 0 {
        None
    } else if routes[n - 1].0 == address {
        Some(routes[n - 1].1)
    } else {
        last_route_for(routes, address, n - 1)
    }
}

/// What is read of a certificate that the edge process has stored.
#[derive(Debug, Clone)]
pub struct CertificateMetadata {
    pub subjects: Vec<String>,
    pub not_before: i64,
    pub expires_at: i64,
}

/// What is read of a stored certificate.
pub ghost struct MetadataView {
    pub subjects: Seq<Seq<char>>,
    pub not_before: i64,
    pub expires_at: i64,
}

impl View for CertificateMetadata {
    type V = MetadataView;

    open spec fn view(&self) -> MetadataView {
        MetadataView {
            subjects: text::views(self.subjects@),
            not_before: self.not_before,
            expires_at: self.expires_at,
        }
    }
}

/// What is read of each stored certificate.
pub open spec fn metadata_views(list: Seq<CertificateMetadata>) -> Seq<MetadataView> {
    Seq::new(list.len(), |i: int| list[i]@)
}

/// The DNS names among the first `n` names, in lower case.
pub open spec fn dns_names(names: Seq<Option<Seq<char>>>, n: int) -> Seq<Seq<char>>
    decreases n,
{
    if n <= 0 {
        Seq::empty()
    } else {
        match names[n - 1] {
            Some(name) => dns_names(names, n - 1).push(text::lowered(name)),
            None => dns_names(names, n - 1),
        }
    }
}

/// What a certificate file tells, where it can be read.
pub open spec fn file_metadata(bytes: Seq<u8>) -> Option<MetadataView> {
    match x509::pem_contents(bytes) {
        None => None,
        Some(der) => match x509::certificate_of(der) {
            None => None,
            Some(facts) => Some(
                MetadataView {
                    subjects: dns_names(
                        x509::names_of(der)->0,
                        x509::names_of(der)->0.len() as int,
                    ),
                    not_before: facts.not_before,
                    expires_at: facts.not_after,
                },
            ),
        },
    }
}

/// What a certificate file tells, where it can be read.
pub fn certificate_metadata(bytes: &Vec<u8>) -> (r: Option<CertificateMetadata>)
    ensures
        match r {
            Some(metadata) => file_metadata(bytes@) == Some(metadata@),
            None => file_metadata(bytes@) is None,
        },
{
    let der: Vec<u8> = match first_pem(bytes) {
        Some(der) => der,
        None => {
            return None;
        },
    };
    let facts: x509::CertificateFacts = match parse_certificate(&der) {
        Some(facts) => facts,
        None => {
            return None;
        },
    };
    let found: Vec<Option<String>> = match parse_names(&der) {
        Some(found) => found,
        None => {
            return None;
        },
    };
    let ghost names = x509::names_of(der@)->0;
    let mut subjects: Vec<String> = Vec::new();
    assert(text::views(subjects@) =~= dns_names(names, 0));
    let mut i: usize = 0;
    while i < found.len()
        invariant
            i <= found@.len(),
            names == Seq::new(found@.len(), |j: int| text::opt(found@[j])),
            text::views(subjects@) == dns_names(names, i as int),
        decreases found@.len() - i,
    {
        assert(names[i as int] == text::opt(found@[i as int]));
        let ghost before = subjects@;
        if let Some(name) = &found[i] {
            let low: String = lower(name.as_str());
            subjects.push(low);
            assert(text::views(subjects@) =~= text::views(before).push(low@));
        }
        i = i + 1;
    }
    assert(names.len() == found@.len());
    Some(
        CertificateMetadata { subjects, not_before: facts.not_before, expires_at: facts.not_after },
    )
}

/// Whether a state is one of a renewal in progress or a failed one.
pub open spec fn unsettled(status: Seq<char>) -> bool {
    status == "renewing"@ || status == "failed"@ || status == "retry_wait"@
}

/// The state of a certificate after the stored one for it, if there is one, was seen. A later end
/// than before clears what had failed; otherwise an earlier failure and a valid certificate stand
/// side by side.
pub open spec fn observed(cert: CertView, found: Option<MetadataView>, now: i64) -> CertView {
    match found {
        Some(metadata) => {
            let renewed = cert.expires_at matches Some(end) && metadata.expires_at > end;
            let status = if renewed {
                "issued"@
            } else {
                cert.status
            };
            CertView {
                hostname: cert.hostname,
                status: if metadata.expires_at <= now {
                    "expired"@
                } else if metadata.not_before > now {
                    "not_yet_valid"@
                } else if unsettled(status) {
                    status
                } else {
                    "issued"@
                },
                not_before: Some(metadata.not_before),
                expires_at: Some(metadata.expires_at),
                error: if renewed {
                    None
                } else {
                    cert.error
                },
                next_retry_at: if renewed {
                    None
                } else {
                    cert.next_retry_at
                },
            }
        },
        None => CertView {
            status: if cert.status == "issued"@ {
                "pending"@
            } else {
                cert.status
            },
            not_before: None,
            expires_at: None,
            ..cert
        },
    }
}

/// Notes the stored certificate for a name, if there is one.
pub fn observe_certificate(
    cert: &mut CertificateStatus,
    found: Option<&CertificateMetadata>,
    now: i64,
)
    ensures
        final(cert)@ == observed(
            old(cert)@,
            match found {
                Some(metadata) => Some(metadata@),
                None => None,
            },
            now,
        ),
{
    match found {
        Some(metadata) => {
            let renewed: bool = match cert.expires_at {
                Some(end) => metadata.expires_at > end,
                None => false,
            };
            if renewed {
                cert.status = "issued".to_owned();
                cert.error = None;
                cert.next_retry_at = None;
            }
            cert.not_before = Some(metadata.not_before);
            cert.expires_at = Some(metadata.expires_at);
            if metadata.expires_at <= now {
                cert.status = "expired".to_owned();
            } else if metadata.not_before > now {
                cert.status = "not_yet_valid".to_owned();
            } else if !(same(cert.status.as_str(), "renewing") || same(
                cert.status.as_str(),
                "failed",
            ) || same(cert.status.as_str(), "retry_wait")) {
                cert.status = "issued".to_owned();
            }
        },
        None => {
            cert.not_before = None;
            cert.expires_at = None;
            if same(cert.status.as_str(), "issued") {
                cert.status = "pending".to_owned();
            }
        },
    }
}

/// Whether a stored certificate serves a host name.
pub open spec fn serves(metadata: MetadataView, hostname: Seq<char>) -> bool {
    exists|i: int|
        0 <= i < metadata.subjects.len() && edge_config::covered(
            #[trigger] metadata.subjects[i],
            hostname,
        )
}

/// The one of the first `n` stored certificates for a host name that lasts longest; the last of
/// several that last as long.
pub open spec fn longest(list: Seq<MetadataView>, hostname: Seq<char>, n: int) -> Option<MetadataView>
    decreases n,
{
    if n <= 0 {
        None
    } else {
        let before = longest(list, hostname, n - 1);
        if serves(list[n - 1], hostname) && (before matches Some(best) ==> list[n - 1].expires_at
            >= best.expires_at) {
            Some(list[n - 1])
        } else {
            before
        }
    }
}

fn check_serves(metadata: &CertificateMetadata, hostname: &str) -> (r: bool)
    ensures
        r == serves(metadata@, hostname@),
{
    let ghost view = metadata@;
    let mut i: usize = 0;
    while i < metadata.subjects.len()
        invariant
            i <= metadata.subjects@.len(),
            view == metadata@,
            forall|j: int|
                0 <= j < i ==> !edge_config::covered(#[trigger] view.subjects[j], hostname@),
        decreases metadata.subjects@.len() - i,
    {
        assert(view.subjects[i as int] == metadata.subjects@[i as int]@);
        if covers(metadata.subjects[i].as_str(), hostname) {
            return true;
        }
        i = i + 1;
    }
    false
}

fn find_longest<'a>(list: &'a Vec<CertificateMetadata>, hostname: &str) -> (r: Option<
    &'a CertificateMetadata,
>)
    ensures
        (match r {
            Some(metadata) => Some(metadata@),
            None => None,
        }) == longest(metadata_views(list@), hostname@, list@.len() as int),
{
    let ghost all = metadata_views(list@);
    let mut best: Option<usize> = None;
    let mut i: usize = 0;
    while i < list.len()
        invariant
            i <= list@.len(),
            all == metadata_views(list@),
            best matches Some(b) ==> b < i,
            longest(all, hostname@, i as int) == (match best {
                Some(b) => Some(list@[b as int]@),
                None => None,
            }),
        decreases list@.len() - i,
    {
        assert(all[i as int] == list@[i as int]@);
        if check_serves(&list[i], hostname) {
            let longer: bool = match best {
                Some(b) => list[i].expires_at >= list[b].expires_at,
                None => true,
            };
            if longer {
                best = Some(i);
            }
        }
        i = i + 1;
    }
    match best {
        Some(b) => Some(&list[b]),
        None => None,
    }
}

/// What stands for the name of a domain of another workspace.
pub open spec fn foreign_mark() -> Seq<char> {
    "[其他工作空间域名]"@
}

/// The host names of a list of services.
pub open spec fn service_names(services: Seq<edge_config::ServiceView>) -> Seq<Seq<char>> {
    Seq::new(services.len(), |i: int| services[i].hostname)
}

/// The names that the first `n` domains hold for workspaces other than one.
pub open spec fn foreign_names(
    domains: Seq<edge_config::DomainView>,
    tenant: Seq<char>,
    n: int,
) -> Seq<Seq<char>>
    decreases n,
{
    if n <= 0 {
        Seq::empty()
    } else {
        let before = foreign_names(domains, tenant, n - 1);
        if domains[n - 1].tenant != tenant {
            before.push(domains[n - 1].name) + service_names(domains[n - 1].services)
        } else {
            before
        }
    }
}

/// The place of a name among longer ones: before the first that is shorter, from position `i` on.
pub open spec fn place_by_length(list: Seq<Seq<char>>, name: Seq<char>, i: int) -> int
    decreases list.len() - i,
{
    if i < 0 || i >= list.len() {
        list.len() as int
    } else if text::byte_len(list[i]) < text::byte_len(name) {
        i
    } else {
        place_by_length(list, name, i + 1)
    }
}

/// The first `n` names, longer ones first; those of one length in their order.
pub open spec fn by_length(names: Seq<Seq<char>>, n: int) -> Seq<Seq<char>>
    decreases n,
{
    if n <= 0 {
        Seq::empty()
    } else {
        let before = by_length(names, n - 1);
        before.insert(place_by_length(before, names[n - 1], 0), names[n - 1])
    }
}

/// A text with the first `n` names hidden, one after the other.
pub open spec fn without_names(text: Seq<char>, names: Seq<Seq<char>>, n: int) -> Seq<char>
    decreases n,
{
    if n <= 0 {
        text
    } else {
        text::replaced(without_names(text, names, n - 1), names[n - 1], foreign_mark())
    }
}

/// A message for one workspace: the names that others hold are hidden, longer ones first.
pub open spec fn tenant_message(
    message: Seq<char>,
    domains: Seq<edge_config::DomainView>,
    tenant: Seq<char>,
) -> Seq<char> {
    let names = foreign_names(domains, tenant, domains.len() as int);
    let sorted = by_length(names, names.len() as int);
    without_names(message, sorted, sorted.len() as int)
}

proof fn lemma_place(list: Seq<Seq<char>>, name: Seq<char>, i: int)
    requires
        0 <= i <= list.len(),
    ensures
        i <= place_by_length(list, name, i) <= list.len(),
    decreases list.len() - i,
{
    if i < list.len() && !(text::byte_len(list[i]) < text::byte_len(name)) {
        lemma_place(list, name, i + 1);
    }
}

fn insert_by_length(list: &mut Vec<String>, name: String)
    ensures
        text::views(final(list)@) == text::views(old(list)@).insert(
            place_by_length(text::views(old(list)@), name@, 0),
            name@,
        ),
{
    let ghost all = text::views(list@);
    let size: usize = bytes_of(name.as_str());
    let mut i: usize = 0;
    let n: usize = list.len();
    while i < n && bytes_of(list[i].as_str()) >= size
        invariant
            i <= n == list@.len(),
            list@ == old(list)@,
            all == text::views(list@),
            size == text::byte_len(name@),
            place_by_length(all, name@, 0) == place_by_length(all, name@, i as int),
        decreases n - i,
    {
        assert(all[i as int] == list@[i as int]@);
        i = i + 1;
    }
    proof {
        if i < n {
            assert(all[i as int] == list@[i as int]@);
        }
        assert(place_by_length(all, name@, 0) == i);
    }
    list.insert(i, name);
    assert(text::views(list@) =~= all.insert(i as int, name@));
}

fn collect_foreign(specs: &Vec<DomainSpec>, tenant: &str) -> (r: Vec<String>)
    ensures
        text::views(r@) == foreign_names(
            edge_config::domain_views(specs@),
            tenant@,
            specs@.len() as int,
        ),
{
    let ghost all = edge_config::domain_views(specs@);
    let mut r: Vec<String> = Vec::new();
    assert(text::views(r@) =~= foreign_names(all, tenant@, 0));
    let mut i: usize = 0;
    while i < specs.len()
        invariant
            i <= specs@.len(),
            all == edge_config::domain_views(specs@),
            text::views(r@) == foreign_names(all, tenant@, i as int),
        decreases specs@.len() - i,
    {
        let domain: &DomainSpec = &specs[i];
        let ghost view = all[i as int];
        assert(view == domain@);
        if !same(domain.tenant_id.as_str(), tenant) {
            let ghost before = text::views(r@);
            let name: String = domain.name.clone();
            r.push(name);
            assert(text::views(r@) =~= before.push(view.name) + service_names(view.services).take(0));
            let mut k: usize = 0;
            while k < domain.services.len()
                invariant
                    k <= domain.services@.len(),
                    view == domain@,
                    text::views(r@) == before.push(view.name) + service_names(view.services).take(
                        k as int,
                    ),
                decreases domain.services@.len() - k,
            {
                let ghost held = text::views(r@);
                let host: String = domain.services[k].hostname.clone();
                r.push(host);
                proof {
                    assert(text::views(r@) =~= held.push(host@));
                    assert(service_names(view.services)[k as int] == host@);
                    assert(text::views(r@) =~= before.push(view.name) + service_names(
                        view.services,
                    ).take(k + 1));
                }
                k = k + 1;
            }
            assert(service_names(view.services).take(view.services.len() as int) =~= service_names(
                view.services,
            ));
        }
        i = i + 1;
    }
    r
}

/// A message for one workspace: the names that others hold are hidden.
pub fn tenant_error(error: &str, specs: &Vec<DomainSpec>, tenant_id: &str) -> (r: String)
    ensures
        r@ == tenant_message(error@, edge_config::domain_views(specs@), tenant_id@),
{
    let names: Vec<String> = collect_foreign(specs, tenant_id);
    let ghost all = text::views(names@);
    let mut sorted: Vec<String> = Vec::new();
    assert(text::views(sorted@) =~= by_length(all, 0));
    let mut i: usize = 0;
    while i < names.len()
        invariant
            i <= names@.len(),
            all == text::views(names@),
            text::views(sorted@) == by_length(all, i as int),
        decreases names@.len() - i,
    {
        assert(all[i as int] == names@[i as int]@);
        insert_by_length(&mut sorted, names[i].clone());
        i = i + 1;
    }
    let ghost order = text::views(sorted@);
    let mut message: String = error.to_owned();
    let mut k: usize = 0;
    while k < sorted.len()
        invariant
            k <= sorted@.len(),
            order == text::views(sorted@),
            message@ == without_names(error@, order, k as int),
        decreases sorted@.len() - k,
    {
        assert(order[k as int] == sorted@[k as int]@);
        message = replace(message.as_str(), sorted[k].as_str(), "[其他工作空间域名]");
        k = k + 1;
    }
    assert(all.len() == names@.len());
    assert(order.len() == sorted@.len());
    message
}

proof fn lemma_by_length_contains(names: Seq<Seq<char>>, n: int, name: Seq<char>)
    requires
        0 <= n <= names.len(),
        exists|i: int| 0 <= i < n && names[i] == name,
    ensures
        by_length(names, n).contains(name),
    decreases n,
{
    let before = by_length(names, n - 1);
    let at = place_by_length(before, names[n - 1], 0);
    lemma_place(before, names[n - 1], 0);
    let after = before.insert(at, names[n - 1]);
    if names[n - 1] == name {
        assert(after[at] == name);
    } else {
        lemma_by_length_contains(names, n - 1, name);
        let k = choose|k: int| 0 <= k < before.len() && before[k] == name;
        if k < at {
            assert(after[k] == name);
        } else {
            assert(after[k + 1] == name);
        }
    }
}

proof fn lemma_without_names(text: Seq<char>, names: Seq<Seq<char>>, n: int, k: int)
    requires
        0 <= k < n <= names.len(),
        forall|i: int| 0 <= i < names.len() ==> (#[trigger] names[i]).len() > 0,
        text::disjoint(names[k], foreign_mark()),
        foreign_mark().len() > 0,
    ensures
        !text::contains(without_names(text, names, n), names[k]),
    decreases n,
{
    if k < n - 1 {
        lemma_without_names(text, names, n - 1, k);
    }
    text::replacing_removes(without_names(text, names, n - 1), names[n - 1], foreign_mark(), names[k]);
}

proof fn lemma_by_length_items(names: Seq<Seq<char>>, n: int)
    requires
        0 <= n <= names.len(),
    ensures
        by_length(names, n).len() == n,
        forall|i: int|
            0 <= i < n ==> exists|j: int| 0 <= j < n && names[j] == #[trigger] by_length(
                names,
                n,
            )[i],
    decreases n,
{
    if n > 0 {
        lemma_by_length_items(names, n - 1);
        let before = by_length(names, n - 1);
        let at = place_by_length(before, names[n - 1], 0);
        lemma_place(before, names[n - 1], 0);
        let after = before.insert(at, names[n - 1]);
        assert forall|i: int| 0 <= i < n implies exists|j: int|
            0 <= j < n && names[j] == #[trigger] after[i] by {
            if i == at {
                assert(names[n - 1] == after[i]);
            } else if i < at {
                assert(after[i] == before[i]);
                let j = choose|j: int| 0 <= j < n - 1 && names[j] == before[i];
                assert(names[j] == after[i]);
            } else {
                assert(after[i] == before[i - 1]);
                let j = choose|j: int| 0 <= j < n - 1 && names[j] == before[i - 1];
                assert(names[j] == after[i]);
            }
        }
    }
}

/// A message for one workspace holds no name that another workspace holds, where the names are not
/// empty and share no character with the mark that stands for them.
pub proof fn messages_name_no_other_workspace(
    message: Seq<char>,
    domains: Seq<edge_config::DomainView>,
    tenant: Seq<char>,
    k: int,
)
    requires
        ({
            let names = foreign_names(domains, tenant, domains.len() as int);
            &&& 0 <= k < names.len()
            &&& forall|i: int| 0 <= i < names.len() ==> (#[trigger] names[i]).len() > 0
            &&& text::disjoint(names[k], foreign_mark())
        }),
    ensures
        !text::contains(
            tenant_message(message, domains, tenant),
            foreign_names(domains, tenant, domains.len() as int)[k],
        ),
{
    let names = foreign_names(domains, tenant, domains.len() as int);
    let n = names.len() as int;
    let sorted = by_length(names, n);
    lemma_by_length_items(names, n);
    lemma_by_length_contains(names, n, names[k]);
    let at = choose|i: int| 0 <= i < sorted.len() && sorted[i] == names[k];
    assert forall|i: int| 0 <= i < sorted.len() implies (#[trigger] sorted[i]).len() > 0 by {
        let j = choose|j: int| 0 <= j < n && names[j] == sorted[i];
        assert(names[j].len() > 0);
    }
    reveal_strlit("[其他工作空间域名]");
    lemma_without_names(message, sorted, sorted.len() as int, at);
}

/// A notice about a domain that is kept for the user.
#[derive(Debug, Clone)]
pub struct RuntimeEvent {
    pub summary: String,
    pub occurred_at: i64,
}

/// The notices of a list.
pub open spec fn event_views(list: Seq<RuntimeEvent>) -> Seq<(Seq<char>, i64)> {
    Seq::new(list.len(), |i: int| (list[i].summary@, list[i].occurred_at))
}

/// Whether an event of the log is about certificates.
pub open spec fn about_certificates(event: caddy::EventView) -> bool {
    event.logger matches Some(name) ==> text::has_prefix(name, "tls"@) || text::has_prefix(
        name,
        "http.acme"@,
    )
}

/// The position of the first certificate from position `i` on for a name.
pub open spec fn cert_for(certs: Seq<CertView>, name: Seq<char>, i: int) -> Option<int>
    decreases certs.len() - i,
{
    if i < 0 || i >= certs.len() {
        None
    } else if certs[i].hostname == name {
        Some(i)
    } else {
        cert_for(certs, name, i + 1)
    }
}

/// The certificate that an event is about, where it tells a stage of it.
pub open spec fn event_target(certs: Seq<CertView>, event: caddy::EventView) -> Option<int> {
    if !about_certificates(event) || caddy::stage_of(event) is None {
        None
    } else {
        match event.identifier {
            Some(name) => cert_for(certs, name, 0),
            None => None,
        }
    }
}

/// The time of an event: its own, or now.
pub open spec fn event_time(event: caddy::EventView, now: i64) -> i64 {
    match event.occurred_at {
        Some(at) => at,
        None => now,
    }
}

/// A wait within the range of signed numbers.
pub open spec fn signed_wait(delay: u64) -> i64 {
    if delay > i64::MAX {
        i64::MAX
    } else {
        delay as i64
    }
}

/// The state of a certificate after an event about it, with the message for its workspace.
pub open spec fn after_event(
    cert: CertView,
    event: caddy::EventView,
    message: Seq<char>,
    now: i64,
) -> CertView {
    let stage = caddy::stage_of(event)->0;
    CertView {
        status: stage,
        error: if stage == "failed"@ || stage == "retry_wait"@ {
            Some(message)
        } else {
            None
        },
        next_retry_at: match event.retry_after_secs {
            Some(delay) => Some(enrollment_token::later(event_time(event, now), signed_wait(delay))),
            None => None,
        },
        ..cert
    }
}

/// The states after the first `n` events, and the notices that they give.
pub open spec fn after_events(
    certs: Seq<CertView>,
    events: Seq<caddy::EventView>,
    n: int,
    domains: Seq<edge_config::DomainView>,
    tenant: Seq<char>,
    now: i64,
) -> (Seq<CertView>, Seq<(Seq<char>, i64)>)
    decreases n,
{
    if n <= 0 {
        (certs, Seq::empty())
    } else {
        let (before, notices) = after_events(certs, events, n - 1, domains, tenant, now);
        let event = events[n - 1];
        match event_target(before, event) {
            Some(k) => {
                let message = tenant_message(event.message, domains, tenant);
                (
                    before.update(k, after_event(before[k], event, message, now)),
                    notices.push(
                        (before[k].hostname + "："@ + message, event_time(event, now)),
                    ),
                )
            },
            None => (before, notices),
        }
    }
}

/// The events of a list.
pub open spec fn log_views(list: Seq<CaddyLogEvent>) -> Seq<caddy::EventView> {
    Seq::new(list.len(), |i: int| list[i]@)
}

proof fn lemma_cert_for(certs: Seq<CertView>, name: Seq<char>, i: int)
    requires
        0 <= i,
    ensures
        cert_for(certs, name, i) matches Some(k) ==> i <= k < certs.len() && certs[k].hostname
            == name,
    decreases certs.len() - i,
{
    if i < certs.len() && certs[i].hostname != name {
        lemma_cert_for(certs, name, i + 1);
    }
}

fn find_cert(certs: &Vec<CertificateStatus>, name: &str) -> (r: Option<usize>)
    ensures
        (match r {
            Some(k) => Some(k as int),
            None => None,
        }) == cert_for(cert_views(certs@), name@, 0),
        r matches Some(k) ==> k < certs@.len(),
{
    let ghost all = cert_views(certs@);
    let mut i: usize = 0;
    while i < certs.len()
        invariant
            i <= certs@.len(),
            all == cert_views(certs@),
            cert_for(all, name@, 0) == cert_for(all, name@, i as int),
        decreases certs@.len() - i,
    {
        assert(all[i as int] == certs@[i as int]@);
        if same(certs[i].hostname.as_str(), name) {
            return Some(i);
        }
        i = i + 1;
    }
    None
}

fn target_of(certs: &Vec<CertificateStatus>, event: &CaddyLogEvent) -> (r: Option<(usize, &'static str)>)
    ensures
        match r {
            Some(hit) => hit.0 < certs@.len() && event_target(cert_views(certs@), event@) == Some(
                hit.0 as int,
            ) && caddy::stage_of(event@) == Some(hit.1@),
            None => event_target(cert_views(certs@), event@) is None,
        },
{
    let skipped: bool = match &event.logger {
        Some(name) => !starts_with(name.as_str(), "tls") && !starts_with(
            name.as_str(),
            "http.acme",
        ),
        None => false,
    };
    if skipped {
        return None;
    }
    let found: Option<usize> = match &event.identifier {
        Some(name) => find_cert(certs, name.as_str()),
        None => None,
    };
    match (found, event.certificate_stage()) {
        (Some(k), Some(stage)) => Some((k, stage)),
        _ => None,
    }
}

fn apply_event(
    certs: &mut Vec<CertificateStatus>,
    notices: &mut Vec<RuntimeEvent>,
    event: &CaddyLogEvent,
    specs: &Vec<DomainSpec>,
    tenant: &str,
    now: i64,
)
    ensures
        ({
            let before = cert_views(old(certs)@);
            let domains = edge_config::domain_views(specs@);
            let message = tenant_message(event@.message, domains, tenant@);
            match event_target(before, event@) {
                Some(k) => cert_views(final(certs)@) == before.update(
                    k,
                    after_event(before[k], event@, message, now),
                ) && event_views(final(notices)@) == event_views(old(notices)@).push(
                    (before[k].hostname + "："@ + message, event_time(event@, now)),
                ),
                None => final(certs)@ == old(certs)@ && final(notices)@ == old(notices)@,
            }
        }),
{
    let (k, stage): (usize, &'static str) = match target_of(certs, event) {
        Some(hit) => hit,
        None => {
            return;
        },
    };
    let ghost before = cert_views(certs@);
    let message: String = tenant_error(event.message.as_str(), specs, tenant);
    let occurred: i64 = match event.occurred_at {
        Some(at) => at,
        None => now,
    };
    let summary: String = join3(certs[k].hostname.as_str(), "：", message.as_str());
    let ghost held = notices@;
    let notice = RuntimeEvent { summary, occurred_at: occurred };
    notices.push(notice);
    assert(event_views(notices@) =~= event_views(held).push((notice.summary@, occurred)));
    let failing: bool = same(stage, "failed") || same(stage, "retry_wait");
    let next = CertificateStatus {
        hostname: certs[k].hostname.clone(),
        status: stage.to_owned(),
        not_before: certs[k].not_before,
        expires_at: certs[k].expires_at,
        error: if failing {
            Some(message)
        } else {
            None
        },
        next_retry_at: match event.retry_after_secs {
            Some(delay) => {
                let wait: i64 = if delay > i64::MAX as u64 {
                    i64::MAX
                } else {
                    delay as i64
                };
                Some(add_seconds(occurred, wait))
            },
            None => None,
        },
    };
    assert(next@ == after_event(before[k as int], event@, message@, now));
    certs.set(k, next);
    assert(cert_views(certs@) =~= before.update(k as int, next@));
}

/// A name whose certificate nothing is known of.
pub open spec fn pending_cert(hostname: Seq<char>) -> CertView {
    CertView {
        hostname,
        status: "pending"@,
        not_before: None,
        expires_at: None,
        error: None,
        next_retry_at: None,
    }
}

/// The first `n` certificates that are still needed.
pub open spec fn kept(certs: Seq<CertView>, subjects: Seq<Seq<char>>, n: int) -> Seq<CertView>
    decreases n,
{
    if n <= 0 {
        Seq::empty()
    } else if subjects.contains(certs[n - 1].hostname) {
        kept(certs, subjects, n - 1).push(certs[n - 1])
    } else {
        kept(certs, subjects, n - 1)
    }
}

/// The certificates with those of the first `n` names that were missing.
pub open spec fn completed(certs: Seq<CertView>, subjects: Seq<Seq<char>>, n: int) -> Seq<CertView>
    decreases n,
{
    if n <= 0 {
        certs
    } else {
        let before = completed(certs, subjects, n - 1);
        if cert_for(before, subjects[n - 1], 0) is Some {
            before
        } else {
            before.push(pending_cert(subjects[n - 1]))
        }
    }
}

fn copy_cert(cert: &CertificateStatus) -> (r: CertificateStatus)
    ensures
        r@ == cert@,
{
    CertificateStatus {
        hostname: cert.hostname.clone(),
        status: cert.status.clone(),
        not_before: cert.not_before,
        expires_at: cert.expires_at,
        error: copy_opt(&cert.error),
        next_retry_at: cert.next_retry_at,
    }
}

fn needed_certs(certs: &Vec<CertificateStatus>, subjects: &Vec<String>) -> (r: Vec<CertificateStatus>)
    ensures
        ({
            let names = text::views(subjects@);
            cert_views(r@) == completed(
                kept(cert_views(certs@), names, certs@.len() as int),
                names,
                subjects@.len() as int,
            )
        }),
{
    let ghost all = cert_views(certs@);
    let ghost names = text::views(subjects@);
    let mut r: Vec<CertificateStatus> = Vec::new();
    assert(cert_views(r@) =~= kept(all, names, 0));
    let mut i: usize = 0;
    while i < certs.len()
        invariant
            i <= certs@.len(),
            all == cert_views(certs@),
            names == text::views(subjects@),
            cert_views(r@) == kept(all, names, i as int),
        decreases certs@.len() - i,
    {
        assert(all[i as int] == certs@[i as int]@);
        if holds(subjects, certs[i].hostname.as_str()) {
            let ghost before = r@;
            let cert: CertificateStatus = copy_cert(&certs[i]);
            r.push(cert);
            assert(cert_views(r@) =~= cert_views(before).push(cert@));
        }
        i = i + 1;
    }
    let ghost held = cert_views(r@);
    let mut k: usize = 0;
    while k < subjects.len()
        invariant
            k <= subjects@.len(),
            names == text::views(subjects@),
            cert_views(r@) == completed(held, names, k as int),
        decreases subjects@.len() - k,
    {
        assert(names[k as int] == subjects@[k as int]@);
        if find_cert(&r, subjects[k].as_str()).is_none() {
            let ghost before = r@;
            let cert = CertificateStatus {
                hostname: subjects[k].clone(),
                status: "pending".to_owned(),
                not_before: None,
                expires_at: None,
                error: None,
                next_retry_at: None,
            };
            r.push(cert);
            assert(cert@ == pending_cert(names[k as int]));
            assert(cert_views(r@) =~= cert_views(before).push(cert@));
        }
        k = k + 1;
    }
    r
}

/// The addresses of the first `n` services that the edge serves, with their tunnels.
pub open spec fn served(domain: edge_config::DomainView, n: int) -> Seq<(Seq<char>, Seq<char>)>
    decreases n,
{
    if n <= 0 {
        Seq::empty()
    } else {
        let service = domain.services[n - 1];
        let before = served(domain, n - 1);
        match service.upstream {
            Some(upstream) if !service.secure() || domain.https => before.push(
                (service.protocol + "://"@ + service.hostname, upstream),
            ),
            _ => before,
        }
    }
}

fn served_routes(domain: &DomainSpec) -> (r: Vec<(String, String)>)
    ensures
        route_views(r@) == served(domain@, domain@.services.len() as int),
{
    let mut r: Vec<(String, String)> = Vec::new();
    assert(route_views(r@) =~= served(domain@, 0));
    let mut i: usize = 0;
    while i < domain.services.len()
        invariant
            i <= domain.services@.len(),
            route_views(r@) == served(domain@, i as int),
        decreases domain.services@.len() - i,
    {
        let service: &WebService = &domain.services[i];
        assert(domain@.services[i as int] == service@);
        if let Some(upstream) = &service.upstream {
            if !same(service.protocol.as_str(), "https") || domain.https {
                let ghost before = r@;
                let address: String = join3(
                    service.protocol.as_str(),
                    "://",
                    service.hostname.as_str(),
                );
                let tunnel: String = upstream.clone();
                r.push((address, tunnel));
                assert(route_views(r@) =~= route_views(before).push((address@, tunnel@)));
            }
        }
        i = i + 1;
    }
    assert(domain@.services.len() == domain.services@.len());
    r
}

fn unserved(domain: &DomainSpec) -> (r: bool)
    ensures
        r == (exists|i: int|
            0 <= i < domain@.services.len() && (#[trigger] domain@.services[i]).upstream is None),
{
    let mut i: usize = 0;
    while i < domain.services.len()
        invariant
            i <= domain.services@.len(),
            forall|j: int| 0 <= j < i ==> (#[trigger] domain@.services[j]).upstream is Some,
        decreases domain.services@.len() - i,
    {
        assert(domain@.services[i as int] == domain.services@[i as int]@);
        if domain.services[i].upstream.is_none() {
            return true;
        }
        i = i + 1;
    }
    false
}

/// Each state after the stored certificates were seen.
pub open spec fn all_observed(
    certs: Seq<CertView>,
    metadata: Seq<MetadataView>,
    now: i64,
) -> Seq<CertView> {
    Seq::new(
        certs.len(),
        |i: int|
            observed(certs[i], longest(metadata, certs[i].hostname, metadata.len() as int), now),
    )
}

/// What a round of checks sees: all domains, the error of the configuration, the events of the log
/// and the stored certificates.
pub ghost struct Round {
    pub domains: Seq<edge_config::DomainView>,
    pub config_error: Option<Seq<char>>,
    pub events: Seq<caddy::EventView>,
    pub metadata: Seq<MetadataView>,
    pub now: i64,
}

/// The error of the configuration as the workspace of a domain sees it.
pub open spec fn shown_error(domain: edge_config::DomainView, round: Round) -> Option<Seq<char>> {
    match round.config_error {
        Some(error) => Some(tenant_message(error, round.domains, domain.tenant)),
        None => None,
    }
}

/// The certificates of a domain and the notices about them, after the events of a round.
pub open spec fn round_certs(
    previous: RuntimeView,
    domain: edge_config::DomainView,
    round: Round,
) -> (Seq<CertView>, Seq<(Seq<char>, i64)>) {
    let subjects = edge_config::subject_list(domain);
    after_events(
        completed(
            kept(previous.certificates, subjects, previous.certificates.len() as int),
            subjects,
            subjects.len() as int,
        ),
        round.events,
        round.events.len() as int,
        round.domains,
        domain.tenant,
        round.now,
    )
}

/// The state of a domain after a round.
pub open spec fn after_round(
    previous: RuntimeView,
    domain: edge_config::DomainView,
    round: Round,
) -> RuntimeView {
    let error = shown_error(domain, round);
    RuntimeView {
        config_status: if error is Some {
            "failed"@
        } else {
            "applied"@
        },
        config_error: error,
        service_warning: if exists|i: int|
            0 <= i < domain.services.len() && (#[trigger] domain.services[i]).upstream is None {
            Some("服务转发通道尚未就绪；证书状态不代表服务可访问。"@)
        } else {
            None
        },
        checked_at: Some(round.now),
        certificates: all_observed(
            round_certs(previous, domain, round).0,
            round.metadata,
            round.now,
        ),
        loaded_routes: if error is Some {
            Seq::empty()
        } else {
            served(domain, domain.services.len() as int)
        },
    }
}

/// The notices that a round gives about a domain: first that the state of its configuration has
/// changed, if it has.
pub open spec fn round_notices(
    previous: RuntimeView,
    domain: edge_config::DomainView,
    round: Round,
) -> Seq<(Seq<char>, i64)> {
    let error = shown_error(domain, round);
    let status = if error is Some {
        "failed"@
    } else {
        "applied"@
    };
    (if previous.config_status != status || previous.config_error != error {
        seq![
            (
                match error {
                    Some(text) => "配置加载失败："@ + text,
                    None => "配置已加载"@,
                },
                round.now,
            ),
        ]
    } else {
        Seq::empty()
    }) + round_certs(previous, domain, round).1
}

fn same_opt(a: &Option<String>, b: &Option<String>) -> (r: bool)
    ensures
        r == (text::opt(*a) == text::opt(*b)),
{
    match (a, b) {
        (Some(a), Some(b)) => same(a.as_str(), b.as_str()),
        (None, None) => true,
        _ => false,
    }
}

/// The state of a domain after a round of checks, and the notices about it.
pub fn check_domain_round(
    previous: &DomainRuntime,
    domain: &DomainSpec,
    specs: &Vec<DomainSpec>,
    config_error: Option<&str>,
    events: &Vec<CaddyLogEvent>,
    metadata: &Vec<CertificateMetadata>,
    now: i64,
) -> (r: (DomainRuntime, Vec<RuntimeEvent>))
    ensures
        ({
            let round = Round {
                domains: edge_config::domain_views(specs@),
                config_error: text::opt_str(config_error),
                events: log_views(events@),
                metadata: metadata_views(metadata@),
                now,
            };
            r.0@ == after_round(previous@, domain@, round) && event_views(r.1@) == round_notices(
                previous@,
                domain@,
                round,
            )
        }),
{
    let ghost round = Round {
        domains: edge_config::domain_views(specs@),
        config_error: text::opt_str(config_error),
        events: log_views(events@),
        metadata: metadata_views(metadata@),
        now,
    };
    let error: Option<String> = match config_error {
        Some(error) => Some(tenant_error(error, specs, domain.tenant_id.as_str())),
        None => None,
    };
    assert(text::opt(error) == shown_error(domain@, round));
    let status: &'static str = if error.is_some() {
        "failed"
    } else {
        "applied"
    };
    let mut notices: Vec<RuntimeEvent> = Vec::new();
    let ghost mut first: Seq<(Seq<char>, i64)> = Seq::empty();
    assert(event_views(notices@) =~= first);
    if !same(previous.config_status.as_str(), status) || !same_opt(&previous.config_error, &error) {
        let summary: String = match &error {
            Some(text) => join2("配置加载失败：", text.as_str()),
            None => "配置已加载".to_owned(),
        };
        proof {
            first = seq![(summary@, now)];
        }
        notices.push(RuntimeEvent { summary, occurred_at: now });
        assert(event_views(notices@) =~= first);
    }
    let subjects: Vec<String> = domain.subjects();
    let mut certs: Vec<CertificateStatus> = needed_certs(&previous.certificates, &subjects);
    let ghost start = cert_views(certs@);
    proof {
        assert(text::views(subjects@).len() == subjects@.len());
        assert(previous@.certificates.len() == previous.certificates@.len());
        assert(first + Seq::<(Seq<char>, i64)>::empty() =~= first);
    }
    let mut i: usize = 0;
    while i < events.len()
        invariant
            i <= events@.len(),
            round.domains == edge_config::domain_views(specs@),
            round.events == log_views(events@),
            ({
                let so_far = after_events(
                    start,
                    round.events,
                    i as int,
                    round.domains,
                    domain@.tenant,
                    now,
                );
                cert_views(certs@) == so_far.0 && event_views(notices@) == first + so_far.1
            }),
        decreases events@.len() - i,
    {
        let ghost so_far = after_events(
            start,
            round.events,
            i as int,
            round.domains,
            domain@.tenant,
            now,
        );
        assert(round.events[i as int] == events@[i as int]@);
        apply_event(
            &mut certs,
            &mut notices,
            &events[i],
            specs,
            domain.tenant_id.as_str(),
            now,
        );
        proof {
            let next = after_events(
                start,
                round.events,
                i + 1,
                round.domains,
                domain@.tenant,
                now,
            );
            assert(event_views(notices@) =~= first + next.1);
        }
        i = i + 1;
    }
    assert(round.events.len() == events@.len());
    let ghost settled = cert_views(certs@);
    let mut checked: Vec<CertificateStatus> = Vec::new();
    let mut k: usize = 0;
    while k < certs.len()
        invariant
            k <= certs@.len(),
            settled == cert_views(certs@),
            round.metadata == metadata_views(metadata@),
            round.metadata.len() == metadata@.len(),
            cert_views(checked@) == all_observed(settled, round.metadata, now).take(k as int),
        decreases certs@.len() - k,
    {
        let ghost before = checked@;
        let mut cert: CertificateStatus = copy_cert(&certs[k]);
        let found: Option<&CertificateMetadata> = find_longest(metadata, cert.hostname.as_str());
        observe_certificate(&mut cert, found, now);
        checked.push(cert);
        proof {
            assert(settled[k as int] == certs@[k as int]@);
            assert(cert@ == all_observed(settled, round.metadata, now)[k as int]);
            assert(cert_views(checked@) =~= cert_views(before).push(cert@));
            assert(cert_views(checked@) =~= all_observed(settled, round.metadata, now).take(k + 1));
        }
        k = k + 1;
    }
    proof {
        let all = all_observed(settled, round.metadata, now);
        assert(all.take(all.len() as int) =~= all);
    }
    let routes: Vec<(String, String)> = if error.is_some() {
        Vec::new()
    } else {
        served_routes(domain)
    };
    assert(error is Some ==> route_views(routes@) =~= Seq::empty());
    let runtime = DomainRuntime {
        config_status: status.to_owned(),
        config_error: error,
        service_warning: if unserved(domain) {
            Some("服务转发通道尚未就绪；证书状态不代表服务可访问。".to_owned())
        } else {
            None
        },
        checked_at: Some(now),
        certificates: checked,
        loaded_routes: routes,
    };
    (runtime, notices)
}

/// The state that is noted for a domain.
pub open spec fn noted(statuses: Seq<(String, DomainRuntime)>, id: Seq<char>, i: int) -> Option<
    RuntimeView,
>
    decreases statuses.len() - i,
{
    if i < 0 || i >= statuses.len() {
        None
    } else if statuses[i].0@ == id {
        Some(statuses[i].1@)
    } else {
        noted(statuses, id, i + 1)
    }
}

/// The position of the state that is noted for a domain.
fn find_noted(statuses: &Vec<(String, DomainRuntime)>, id: &str) -> (r: Option<usize>)
    ensures
        match r {
            Some(k) => k < statuses@.len() && noted(statuses@, id@, 0) == Some(
                statuses@[k as int].1@,
            ),
            None => noted(statuses@, id@, 0) is None,
        },
{
    let mut i: usize = 0;
    while i < statuses.len()
        invariant
            i <= statuses@.len(),
            noted(statuses@, id@, 0) == noted(statuses@, id@, i as int),
        decreases statuses@.len() - i,
    {
        if same(statuses[i].0.as_str(), id) {
            return Some(i);
        }
        i = i + 1;
    }
    None
}

/// The state of a domain that was noted, or what it is before anything was observed.
pub open spec fn noted_or_pending(
    statuses: Seq<(String, DomainRuntime)>,
    id: Seq<char>,
    enabled: bool,
) -> RuntimeView {
    match noted(statuses, id, 0) {
        Some(state) => state,
        None => pending_runtime(enabled),
    }
}

/// The states of all domains after a round of checks, each with the notices about it. A domain
/// that is no longer there is forgotten.
pub fn check_round(
    statuses: &Vec<(String, DomainRuntime)>,
    specs: &Vec<DomainSpec>,
    config_error: Option<&str>,
    events: &Vec<CaddyLogEvent>,
    metadata: &Vec<CertificateMetadata>,
    now: i64,
) -> (r: (Vec<(String, DomainRuntime)>, Vec<Vec<RuntimeEvent>>))
    ensures
        r.0@.len() == specs@.len(),
        r.1@.len() == specs@.len(),
        forall|i: int|
            #![trigger specs@[i]]
            0 <= i < specs@.len() ==> ({
                let round = Round {
                    domains: edge_config::domain_views(specs@),
                    config_error: text::opt_str(config_error),
                    events: log_views(events@),
                    metadata: metadata_views(metadata@),
                    now,
                };
                let previous = noted_or_pending(statuses@, specs@[i].id@, true);
                r.0@[i].0@ == specs@[i].id@ && r.0@[i].1@ == after_round(
                    previous,
                    specs@[i]@,
                    round,
                ) && event_views(r.1@[i]@) == round_notices(previous, specs@[i]@, round)
            }),
{
    let ghost round = Round {
        domains: edge_config::domain_views(specs@),
        config_error: text::opt_str(config_error),
        events: log_views(events@),
        metadata: metadata_views(metadata@),
        now,
    };
    let mut states: Vec<(String, DomainRuntime)> = Vec::new();
    let mut notices: Vec<Vec<RuntimeEvent>> = Vec::new();
    let fresh: DomainRuntime = DomainRuntime::pending(true);
    let mut i: usize = 0;
    while i < specs.len()
        invariant
            i <= specs@.len(),
            states@.len() == i,
            notices@.len() == i,
            fresh@ == pending_runtime(true),
            round == (Round {
                domains: edge_config::domain_views(specs@),
                config_error: text::opt_str(config_error),
                events: log_views(events@),
                metadata: metadata_views(metadata@),
                now,
            }),
            forall|j: int|
                #![trigger specs@[j]]
                0 <= j < i ==> ({
                    let previous = noted_or_pending(statuses@, specs@[j].id@, true);
                    states@[j].0@ == specs@[j].id@ && states@[j].1@ == after_round(
                        previous,
                        specs@[j]@,
                        round,
                    ) && event_views(notices@[j]@) == round_notices(previous, specs@[j]@, round)
                }),
        decreases specs@.len() - i,
    {
        let previous: &DomainRuntime = match find_noted(statuses, specs[i].id.as_str()) {
            Some(k) => &statuses[k].1,
            None => &fresh,
        };
        let (state, told): (DomainRuntime, Vec<RuntimeEvent>) = check_domain_round(
            previous,
            &specs[i],
            specs,
            config_error,
            events,
            metadata,
            now,
        );
        states.push((specs[i].id.clone(), state));
        notices.push(told);
        i = i + 1;
    }
    (states, notices)
}

/// What the edge process is to do with the configuration that is wanted.
pub fn needs_apply(unchanged: bool, credentials_changed: bool) -> (r: bool)
    ensures
        r == (!unchanged || credentials_changed),
{
    !unchanged || credentials_changed
}

/// What becomes of a directory of credentials.
#[derive(Debug, Clone, Copy, PartialEq, Eq, Structural)]
pub enum Cleanup {
    /// It is none, or its domain is there.
    Keep,
    /// It lies outside of the place for credentials.
    Refuse,
    /// A configuration still refers to it.
    Wait,
    /// Nothing needs it.
    Remove,
}

/// What becomes of a directory of credentials: it is removed only once its domain is gone and no
/// configuration refers to it.
pub open spec fn cleanup_of(
    domain_directory: bool,
    domain_exists: bool,
    inside: bool,
    referenced: bool,
) -> Cleanup {
    if !domain_directory || domain_exists {
        Cleanup::Keep
    } else if !inside {
        Cleanup::Refuse
    } else if referenced {
        Cleanup::Wait
    } else {
        Cleanup::Remove
    }
}

/// What becomes of an entry in the place for credentials: its name, whether it is a directory,
/// whether its domain is there, whether it lies inside of the place, and the directories that the
/// configurations refer to.
pub fn plan_cleanup(
    name: &str,
    is_directory: bool,
    domain_exists: bool,
    inside: bool,
    directory: &str,
    referenced: &Vec<String>,
) -> (r: Cleanup)
    ensures
        r == cleanup_of(
            crate::digest::uuid_text(name@) && is_directory,
            domain_exists,
            inside,
            text::views(referenced@).contains(directory@),
        ),
{
    if !crate::digest::is_uuid(name) || !is_directory || domain_exists {
        return Cleanup::Keep;
    }
    if !inside {
        return Cleanup::Refuse;
    }
    if holds(referenced, directory) {
        return Cleanup::Wait;
    }
    Cleanup::Remove
}

/// Where the credential for the DNS challenge of a domain comes from.
pub enum CredentialSource {
    /// A stored file.
    File { path: String },
    /// A token from elsewhere, which is stored first.
    Token { token: String },
    /// There is none.
    Missing,
    /// The stored reference is not one of the server's own.
    Invalid,
}

/// Where the credential for the DNS challenge of a domain comes from: its own file; else a token
/// of old for it; else, for an old domain of the administrator, the one of the environment.
pub fn credential_source(
    settings: &Settings,
    root: &str,
    id: &str,
    own: Option<String>,
    owned_by_admin: bool,
    environment: Option<&str>,
) -> (r: CredentialSource)
    ensures
        ({
            let shared = settings.legacy && owned_by_admin && (environment matches Some(token)
                && text::trimmed(token@).len() > 0);
            if settings.certificate_mode@ != "cloudflare_dns"@ {
                r is Missing
            } else {
                match settings.credential_file {
                    Some(file) => if crate::digest::uuid_text(id@) && domains::credential_name_ok(
                        file@,
                    ) {
                        r matches CredentialSource::File { path } && path@ == caddy::below(
                            caddy::below(root@, id@),
                            file@,
                        )
                    } else {
                        r is Invalid
                    },
                    None => match own {
                        Some(token) => r matches CredentialSource::Token { token: used } && used@
                            == token@,
                        None => if shared {
                            r matches CredentialSource::Token { token: used } && used@
                                == environment->0@
                        } else {
                            r is Missing
                        },
                    },
                }
            }
        }),
{
    if !same(settings.certificate_mode.as_str(), "cloudflare_dns") {
        return CredentialSource::Missing;
    }
    if let Some(file) = &settings.credential_file {
        return match credential_path(root, id, file.as_str()) {
            Some(path) => CredentialSource::File { path },
            None => CredentialSource::Invalid,
        };
    }
    if let Some(token) = own {
        return CredentialSource::Token { token };
    }
    if settings.legacy && owned_by_admin {
        if let Some(token) = environment {
            if !text::trim(token).as_str().is_empty() {
                return CredentialSource::Token { token: token.to_owned() };
            }
        }
    }
    CredentialSource::Missing
}

/// A service as it is stored, as far as the edge needs it.
pub struct ServiceRow {
    pub id: String,
    pub tenant_id: String,
    pub public_domain_id: Option<String>,
    pub hostname: Option<String>,
    pub protocol: String,
    pub enabled: bool,
    pub deleted: bool,
}

/// Whether a stored service is served under a domain.
pub open spec fn served_under(row: ServiceRow, domain: Seq<char>, tenant: Seq<char>) -> bool {
    text::opt(row.public_domain_id) == Some(domain) && row.tenant_id@ == tenant && row.enabled
        && !row.deleted && (row.protocol@ == "http"@ || row.protocol@ == "https"@)
}

/// The tunnel of a service: the first with its identifier.
pub open spec fn upstream_of(
    upstreams: Seq<(Seq<char>, Seq<char>)>,
    id: Seq<char>,
    i: int,
) -> Option<Seq<char>>
    decreases upstreams.len() - i,
{
    if i < 0 || i >= upstreams.len() {
        None
    } else if upstreams[i].0 == id {
        Some(upstreams[i].1)
    } else {
        upstream_of(upstreams, id, i + 1)
    }
}

/// A stored service as the edge serves it under the name of its domain.
pub open spec fn service_view(
    row: ServiceRow,
    name: Seq<char>,
    upstreams: Seq<(Seq<char>, Seq<char>)>,
) -> edge_config::ServiceView {
    edge_config::ServiceView {
        hostname: (match row.hostname {
            Some(host) => host@,
            None => Seq::empty(),
        }) + "."@ + name,
        protocol: row.protocol@,
        upstream: upstream_of(upstreams, row.id@, 0),
    }
}

/// The services among the first `n` stored ones that are served under a domain.
pub open spec fn services_under(
    rows: Seq<ServiceRow>,
    domain: Seq<char>,
    tenant: Seq<char>,
    name: Seq<char>,
    upstreams: Seq<(Seq<char>, Seq<char>)>,
    n: int,
) -> Seq<edge_config::ServiceView>
    decreases n,
{
    if n <= 0 {
        Seq::empty()
    } else {
        let before = services_under(rows, domain, tenant, name, upstreams, n - 1);
        if served_under(rows[n - 1], domain, tenant) {
            before.push(service_view(rows[n - 1], name, upstreams))
        } else {
            before
        }
    }
}

fn find_upstream(upstreams: &Vec<(String, String)>, id: &str) -> (r: Option<String>)
    ensures
        text::opt(r) == upstream_of(route_views(upstreams@), id@, 0),
{
    let ghost all = route_views(upstreams@);
    let mut i: usize = 0;
    while i < upstreams.len()
        invariant
            i <= upstreams@.len(),
            all == route_views(upstreams@),
            upstream_of(all, id@, 0) == upstream_of(all, id@, i as int),
        decreases upstreams@.len() - i,
    {
        assert(all[i as int] == (upstreams@[i as int].0@, upstreams@[i as int].1@));
        if same(upstreams[i].0.as_str(), id) {
            return Some(upstreams[i].1.clone());
        }
        i = i + 1;
    }
    None
}

/// The services that are served under a domain, with their tunnels.
pub fn web_services(
    rows: &Vec<ServiceRow>,
    domain: &str,
    tenant: &str,
    name: &str,
    upstreams: &Vec<(String, String)>,
) -> (r: Vec<WebService>)
    ensures
        Seq::new(r@.len(), |i: int| r@[i]@) == services_under(
            rows@,
            domain@,
            tenant@,
            name@,
            route_views(upstreams@),
            rows@.len() as int,
        ),
{
    let ghost tunnels = route_views(upstreams@);
    let mut r: Vec<WebService> = Vec::new();
    let mut i: usize = 0;
    while i < rows.len()
        invariant
            i <= rows@.len(),
            tunnels == route_views(upstreams@),
            Seq::new(r@.len(), |j: int| r@[j]@) == services_under(
                rows@,
                domain@,
                tenant@,
                name@,
                tunnels,
                i as int,
            ),
        decreases rows@.len() - i,
    {
        let row: &ServiceRow = &rows[i];
        if is_text(&row.public_domain_id, domain) && same(row.tenant_id.as_str(), tenant)
            && row.enabled && !row.deleted && (same(row.protocol.as_str(), "http") || same(
            row.protocol.as_str(),
            "https",
        )) {
            let ghost before = Seq::new(r@.len(), |j: int| r@[j]@);
            let host: String = match &row.hostname {
                Some(host) => host.clone(),
                None => String::new(),
            };
            let service = WebService {
                hostname: join3(host.as_str(), ".", name),
                protocol: row.protocol.clone(),
                upstream: find_upstream(upstreams, row.id.as_str()),
            };
            r.push(service);
            assert(service@ == service_view(*row, name@, tunnels));
            assert(Seq::new(r@.len(), |j: int| r@[j]@) =~= before.push(service@));
        }
        i = i + 1;
    }
    r
}

/// A public domain as it is stored. `verified` is empty for a domain from before proofs of
/// ownership.
pub struct DomainRow {
    pub id: String,
    pub tenant_id: String,
    pub domain: String,
    pub https_enabled: bool,
    pub workspace_enabled: bool,
    pub verified: Option<bool>,
    pub settings: Settings,
}

/// Whether a stored domain is served: its workspace is enabled and its owner has shown to own it.
pub open spec fn served_domain(row: DomainRow) -> bool {
    row.workspace_enabled && row.verified != Some(false)
}

/// Whether a stored domain is served.
pub fn is_served(row: &DomainRow) -> (r: bool)
    ensures
        r == served_domain(*row),
{
    row.workspace_enabled && (match row.verified {
        Some(verified) => verified,
        None => true,
    })
}

/// The reference with which the edge reads a credential file.
pub open spec fn file_reference(path: Seq<char>) -> Seq<char> {
    "{file."@ + path + "}"@
}

/// A stored domain as the edge serves it. `credentials` holds the files for DNS challenges by the
/// identifiers of their domains.
pub open spec fn specification_of(
    row: DomainRow,
    services: Seq<ServiceRow>,
    upstreams: Seq<(Seq<char>, Seq<char>)>,
    credentials: Seq<(Seq<char>, Seq<char>)>,
) -> edge_config::DomainView {
    edge_config::DomainView {
        id: row.id@,
        tenant: row.tenant_id@,
        name: row.domain@,
        https: row.https_enabled,
        token: if row.settings.certificate_mode@ == "cloudflare_dns"@ {
            match upstream_of(credentials, row.id@, 0) {
                Some(path) => Some(file_reference(path)),
                None => None,
            }
        } else {
            None
        },
        mode: row.settings.certificate_mode@,
        resolvers: text::views(row.settings.dns.dns_resolvers@),
        delay: row.settings.dns.dns_propagation_delay_seconds,
        timeout: row.settings.dns.dns_propagation_timeout_seconds,
        services: services_under(
            services,
            row.id@,
            row.tenant_id@,
            row.domain@,
            upstreams,
            services.len() as int,
        ),
    }
}

/// The domains among the first `n` stored ones that are served.
pub open spec fn specifications_of(
    rows: Seq<DomainRow>,
    services: Seq<ServiceRow>,
    upstreams: Seq<(Seq<char>, Seq<char>)>,
    credentials: Seq<(Seq<char>, Seq<char>)>,
    n: int,
) -> Seq<edge_config::DomainView>
    decreases n,
{
    if n <= 0 {
        Seq::empty()
    } else {
        let before = specifications_of(rows, services, upstreams, credentials, n - 1);
        if served_domain(rows[n - 1]) {
            before.push(specification_of(rows[n - 1], services, upstreams, credentials))
        } else {
            before
        }
    }
}

/// What the edge serves, in the order of the stored domains.
pub fn specifications(
    rows: &Vec<DomainRow>,
    services: &Vec<ServiceRow>,
    upstreams: &Vec<(String, String)>,
    credentials: &Vec<(String, String)>,
) -> (r: Vec<DomainSpec>)
    ensures
        Seq::new(r@.len(), |i: int| r@[i]@) == specifications_of(
            rows@,
            services@,
            route_views(upstreams@),
            route_views(credentials@),
            rows@.len() as int,
        ),
{
    let ghost tunnels = route_views(upstreams@);
    let ghost files = route_views(credentials@);
    let mut r: Vec<DomainSpec> = Vec::new();
    let mut i: usize = 0;
    while i < rows.len()
        invariant
            i <= rows@.len(),
            tunnels == route_views(upstreams@),
            files == route_views(credentials@),
            Seq::new(r@.len(), |j: int| r@[j]@) == specifications_of(
                rows@,
                services@,
                tunnels,
                files,
                i as int,
            ),
        decreases rows@.len() - i,
    {
        let row: &DomainRow = &rows[i];
        if is_served(row) {
            let ghost before = Seq::new(r@.len(), |j: int| r@[j]@);
            let token_reference: Option<String> = if same(
                row.settings.certificate_mode.as_str(),
                "cloudflare_dns",
            ) {
                match find_upstream(credentials, row.id.as_str()) {
                    Some(path) => Some(join3("{file.", path.as_str(), "}")),
                    None => None,
                }
            } else {
                None
            };
            let one = DomainSpec {
                id: row.id.clone(),
                tenant_id: row.tenant_id.clone(),
                name: row.domain.clone(),
                https: row.https_enabled,
                token_reference,
                certificate_mode: row.settings.certificate_mode.clone(),
                dns: DnsSettings {
                    dns_resolvers: copy_list(&row.settings.dns.dns_resolvers),
                    dns_propagation_delay_seconds: row.settings.dns.dns_propagation_delay_seconds,
                    dns_propagation_timeout_seconds:
                        row.settings.dns.dns_propagation_timeout_seconds,
                },
                services: web_services(
                    services,
                    row.id.as_str(),
                    row.tenant_id.as_str(),
                    row.domain.as_str(),
                    upstreams,
                ),
            };
            r.push(one);
            assert(one@ == specification_of(*row, services@, tunnels, files));
            assert(Seq::new(r@.len(), |j: int| r@[j]@) =~= before.push(one@));
        }
        i = i + 1;
    }
    r
}

/// Nothing is served under a domain of a disabled workspace or one that nobody has shown to own.
pub proof fn unproved_domains_are_not_served(
    rows: Seq<DomainRow>,
    services: Seq<ServiceRow>,
    upstreams: Seq<(Seq<char>, Seq<char>)>,
    credentials: Seq<(Seq<char>, Seq<char>)>,
    n: int,
    k: int,
)
    requires
        0 <= n <= rows.len(),
        0 <= k < specifications_of(rows, services, upstreams, credentials, n).len(),
    ensures
        exists|i: int|
            0 <= i < n && #[trigger] served_domain(rows[i]) && specifications_of(
                rows,
                services,
                upstreams,
                credentials,
                n,
            )[k] == specification_of(rows[i], services, upstreams, credentials),
    decreases n,
{
    let before = specifications_of(rows, services, upstreams, credentials, n - 1);
    if k < before.len() {
        unproved_domains_are_not_served(rows, services, upstreams, credentials, n - 1, k);
        let i = choose|i: int|
            0 <= i < n - 1 && #[trigger] served_domain(rows[i]) && before[k] == specification_of(
                rows[i],
                services,
                upstreams,
                credentials,
            );
        assert(served_domain(rows[i]));
    } else {
        assert(served_domain(rows[n - 1]));
    }
}

/// Whether a round leaves nothing for the next one: the edge is off, or its configuration was
/// loaded and the credentials of the domains that are gone were cleaned up.
pub fn round_complete(enabled: bool, failed: bool, cleaned: bool) -> (r: bool)
    ensures
        r == (!enabled || (!failed && cleaned)),
{
    !enabled || (!failed && cleaned)
}

/// A domain that nothing is known of yet waits to be applied, or is off.
pub proof fn new_domains_wait(enabled: bool)
    ensures
        enabled ==> pending_runtime(enabled).config_status == "pending"@,
        !enabled ==> pending_runtime(enabled).config_status == "disabled"@,
        pending_runtime(enabled).checked_at is None,
        pending_runtime(enabled).config_error is None,
        pending_runtime(enabled).certificates.len() == 0,
        pending_runtime(enabled).loaded_routes.len() == 0,
{
}

/// A loaded address leads to the tunnel that was noted for it last, and no other address leads to one.
pub proof fn loaded_addresses_lead_to_their_tunnel(
    routes: Seq<(Seq<char>, Seq<char>)>,
    address: Seq<char>,
    n: int,
)
    requires
        0 <= n <= routes.len(),
    ensures
        last_route_for(routes, address, n) is Some ==> exists|k: int|
            0 <= k < n && (#[trigger] routes[k]).0 == address && routes[k].1 == last_route_for(
                routes,
                address,
                n,
            )->0 && forall|j: int| k < j < n ==> (#[trigger] routes[j]).0 != address,
        last_route_for(routes, address, n) is None <==> forall|j: int|
            0 <= j < n ==> (#[trigger] routes[j]).0 != address,
    decreases n,
{
    if n > 0 && routes[n - 1].0 != address {
        loaded_addresses_lead_to_their_tunnel(routes, address, n - 1);
        if last_route_for(routes, address, n) is Some {
            let k = choose|k: int|
                0 <= k < n - 1 && (#[trigger] routes[k]).0 == address && routes[k].1
                    == last_route_for(routes, address, n - 1)->0 && forall|j: int|
                    k < j < n - 1 ==> (#[trigger] routes[j]).0 != address;
            assert(routes[k].0 == address);
        }
    }
}

proof fn lemma_picks_names(names: Seq<Option<Seq<char>>>, n: int, keep: spec_fn(int) -> bool, value: spec_fn(int) -> Seq<char>)
    requires
        forall|i: int|
            0 <= i < n ==> #[trigger] keep(i) == (names[i] is Some) && value(i) == (text::lowered(names[i]->0)),
    ensures
        dns_names(names, n) == picked::picked(keep, value, n),
    decreases n,
{
    if n > 0 {
        assert(keep(n - 1) || !keep(n - 1));
        lemma_picks_names(names, n - 1, keep, value);
    }
}

/// A certificate is read with its names for hosts, in lower case, and with no others.
pub proof fn certificates_are_read_with_their_names(names: Seq<Option<Seq<char>>>)
    ensures
        forall|name: Seq<char>| #[trigger]
            dns_names(names, names.len() as int).contains(name) <==> exists|i: int|
                0 <= i < names.len() && (#[trigger] names[i]) is Some && text::lowered(names[i]->0) == name,
{
    let n = names.len() as int;
    let keep = |i: int| names[i] is Some;
    let value = |i: int| text::lowered(names[i]->0);
    lemma_picks_names(names, n, keep, value);
    assert forall|name: Seq<char>| #[trigger] dns_names(names, n).contains(name) <==> exists|i: int|
        0 <= i < names.len() && (#[trigger] names[i]) is Some && text::lowered(names[i]->0) == name by {
        picked::lemma_picked_contains(keep, value, n, name);
        if dns_names(names, n).contains(name) {
            let i = choose|i: int| 0 <= i < n && #[trigger] keep(i) && value(i) == name;
            assert(names[i] == names[i]);
        }
        if exists|i: int| 0 <= i < names.len() && (#[trigger] names[i]) is Some && text::lowered(names[i]->0) == name {
            let i = choose|i: int| 0 <= i < names.len() && (#[trigger] names[i]) is Some && text::lowered(names[i]->0) == name;
            assert(keep(i) && value(i) == name);
        }
    }
}

/// What is seen of a certificate is its own times. Past its end it is expired, before its beginning it
/// is not valid yet; one that ends later than the noted one was renewed, which clears the failure.
pub proof fn certificates_are_noted_as_seen(cert: CertView, found: MetadataView, now: i64)
    ensures
        ({
            let next = observed(cert, Some(found), now);
            let renewed = cert.expires_at is Some && found.expires_at > cert.expires_at->0;
            &&& next.hostname == cert.hostname
            &&& next.not_before == Some(found.not_before)
            &&& next.expires_at == Some(found.expires_at)
            &&& found.expires_at <= now ==> next.status == "expired"@
            &&& now < found.expires_at && now < found.not_before ==> next.status
                == "not_yet_valid"@
            &&& found.not_before <= now < found.expires_at && renewed ==> next.status == "issued"@
            &&& found.not_before <= now < found.expires_at && !renewed && (cert.status
                == "renewing"@ || cert.status == "failed"@ || cert.status == "retry_wait"@)
                ==> next.status == cert.status
            &&& found.not_before <= now < found.expires_at && cert.status != "renewing"@
                && cert.status != "failed"@ && cert.status != "retry_wait"@ ==> next.status
                == "issued"@
            &&& renewed ==> next.error is None && next.next_retry_at is None
            &&& !renewed ==> next.error == cert.error && next.next_retry_at == cert.next_retry_at
        }),
        ({
            let next = observed(cert, None, now);
            &&& next.hostname == cert.hostname
            &&& next.not_before is None && next.expires_at is None
            &&& cert.status == "issued"@ ==> next.status == "pending"@
            &&& cert.status != "issued"@ ==> next.status == cert.status
            &&& next.error == cert.error && next.next_retry_at == cert.next_retry_at
        }),
{
    reveal_strlit("issued");
    reveal_strlit("renewing");
    reveal_strlit("failed");
    reveal_strlit("retry_wait");
    assert("issued"@.len() == 6 && "renewing"@.len() == 8 && "retry_wait"@.len() == 10);
    assert("issued"@[0] != "failed"@[0]);
}

/// Of the certificates that cover a name, the one that ends last counts; of one that covers it none
/// other is taken.
pub proof fn the_longest_certificate_counts(
    list: Seq<MetadataView>,
    hostname: Seq<char>,
    n: int,
)
    requires
        0 <= n <= list.len(),
    ensures
        longest(list, hostname, n) is None <==> forall|i: int|
            0 <= i < n ==> !serves(#[trigger] list[i], hostname),
        longest(list, hostname, n) is Some ==> {
            let best = longest(list, hostname, n)->0;
            &&& serves(best, hostname)
            &&& exists|i: int| 0 <= i < n && #[trigger] list[i] == best
            &&& forall|i: int|
                0 <= i < n && serves(#[trigger] list[i], hostname) ==> list[i].expires_at
                    <= best.expires_at
        },
    decreases n,
{
    if n > 0 {
        the_longest_certificate_counts(list, hostname, n - 1);
        if longest(list, hostname, n) is Some {
            let best = longest(list, hostname, n)->0;
            if longest(list, hostname, n - 1) == Some(best) {
                let i = choose|i: int| 0 <= i < n - 1 && #[trigger] list[i] == best;
                assert(list[i] == best);
            } else {
                assert(list[n - 1] == best);
            }
        }
    }
}

/// A certificate covers a name through one of its own names.
pub proof fn certificates_cover_through_their_names(
    metadata: MetadataView,
    i: int,
    hostname: Seq<char>,
)
    ensures
        0 <= i < metadata.subjects.len() && edge_config::covered(metadata.subjects[i], hostname)
            ==> serves(metadata, hostname),
        metadata.subjects.len() == 0 ==> !serves(metadata, hostname),
{
}

/// The names that a workspace is not shown are those of the domains and services of the others, and no
/// name of its own alone.
pub proof fn names_of_other_workspaces_are_hidden(
    domains: Seq<edge_config::DomainView>,
    tenant: Seq<char>,
    n: int,
    name: Seq<char>,
)
    requires
        0 <= n <= domains.len(),
    ensures
        foreign_names(domains, tenant, n).contains(name) <==> exists|i: int|
            0 <= i < n && (#[trigger] domains[i]).tenant != tenant && (domains[i].name == name
                || exists|j: int|
                0 <= j < domains[i].services.len() && (#[trigger] domains[i].services[j]).hostname
                    == name),
    decreases n,
{
    if n > 0 {
        names_of_other_workspaces_are_hidden(domains, tenant, n - 1, name);
        let before = foreign_names(domains, tenant, n - 1);
        let last = domains[n - 1];
        let hosts = service_names(last.services);
        let all = before.push(last.name) + hosts;
        if last.tenant != tenant {
            if all.contains(name) {
                let k = choose|k: int| 0 <= k < all.len() && all[k] == name;
                if k < before.len() {
                    assert(before[k] == name);
                    assert(before.contains(name));
                } else if k > before.len() {
                    assert(last.services[k - before.len() - 1].hostname == name);
                    assert(domains[n - 1].tenant != tenant);
                } else {
                    assert(domains[n - 1].name == name);
                }
            }
            if before.contains(name) {
                let k = choose|k: int| 0 <= k < before.len() && before[k] == name;
                assert(all[k] == name);
            }
            if last.name == name {
                assert(all[before.len() as int] == name);
            }
            if exists|j: int|
                0 <= j < last.services.len() && (#[trigger] last.services[j]).hostname == name {
                let j = choose|j: int|
                    0 <= j < last.services.len() && (#[trigger] last.services[j]).hostname == name;
                assert(hosts[j] == name);
                assert(all[before.len() as int + 1 + j] == name);
            }
        }
    }
}

/// The time of an event is its own where it has one.
pub proof fn events_keep_their_time(event: caddy::EventView, now: i64, delay: u64)
    ensures
        event.occurred_at is Some ==> event_time(event, now) == event.occurred_at->0,
        event.occurred_at is None ==> event_time(event, now) == now,
        delay <= i64::MAX ==> signed_wait(delay) == delay,
        signed_wait(delay) >= 0,
{
}

/// An event sets the state of its certificate to its stage. A failure comes with its message, and a
/// time for the next try is noted where the event has one.
pub proof fn events_set_the_state_of_their_certificate(
    cert: CertView,
    event: caddy::EventView,
    message: Seq<char>,
    now: i64,
)
    requires
        caddy::stage_of(event) is Some,
    ensures
        ({
            let next = after_event(cert, event, message, now);
            let stage = caddy::stage_of(event)->0;
            &&& next.hostname == cert.hostname
            &&& next.not_before == cert.not_before && next.expires_at == cert.expires_at
            &&& next.status == stage
            &&& stage == "failed"@ || stage == "retry_wait"@ ==> next.error == Some(message)
            &&& stage != "failed"@ && stage != "retry_wait"@ ==> next.error is None
            &&& next.next_retry_at is Some <==> event.retry_after_secs is Some
            &&& event.retry_after_secs is Some && event.occurred_at is Some
                && event.occurred_at->0 + event.retry_after_secs->0 <= i64::MAX
                && event.occurred_at->0 >= 0 ==> next.next_retry_at->0 == event.occurred_at->0
                + event.retry_after_secs->0
        }),
{
}

/// An event about certificates is for the first certificate of the name that it tells of; one that is
/// about something else, or tells of no name, is for none.
pub proof fn events_reach_their_certificate(certs: Seq<CertView>, event: caddy::EventView)
    ensures
        event_target(certs, event) is Some ==> {
            let k = event_target(certs, event)->0;
            &&& 0 <= k < certs.len()
            &&& event.identifier == Some(certs[k].hostname)
            &&& caddy::stage_of(event) is Some
            &&& event.logger is Some ==> text::has_prefix(event.logger->0, "tls"@)
                || text::has_prefix(event.logger->0, "http.acme"@)
        },
        forall|k: int|
            0 <= k < certs.len() && event.identifier == Some((#[trigger] certs[k]).hostname)
                && caddy::stage_of(event) is Some && event.logger is None ==> event_target(
                certs,
                event,
            ) is Some,
        forall|k: int|
            0 <= k < certs.len() && event.identifier == Some((#[trigger] certs[k]).hostname)
                && caddy::stage_of(event) is Some && event.logger is Some && (text::has_prefix(
                event.logger->0,
                "tls"@,
            ) || text::has_prefix(event.logger->0, "http.acme"@)) ==> event_target(certs, event)
                is Some,
{
    if event.identifier is Some {
        lemma_cert_place(certs, event.identifier->0, 0);
    }
}

proof fn lemma_cert_place(certs: Seq<CertView>, name: Seq<char>, i: int)
    requires
        0 <= i <= certs.len(),
    ensures
        cert_for(certs, name, i) is Some ==> i <= cert_for(certs, name, i)->0 < certs.len()
            && certs[cert_for(certs, name, i)->0].hostname == name,
        cert_for(certs, name, i) is None <==> forall|k: int|
            i <= k < certs.len() ==> (#[trigger] certs[k]).hostname != name,
    decreases certs.len() - i,
{
    if i < certs.len() {
        lemma_cert_place(certs, name, i + 1);
    }
}

/// Events leave the certificates in their places, with their names and their times, and those that no
/// event tells of as they are; no event gives more than one notice.
pub proof fn events_keep_other_certificates(
    certs: Seq<CertView>,
    events: Seq<caddy::EventView>,
    n: int,
    domains: Seq<edge_config::DomainView>,
    tenant: Seq<char>,
    now: i64,
)
    requires
        0 <= n <= events.len(),
    ensures
        ({
            let next = after_events(certs, events, n, domains, tenant, now);
            &&& next.0.len() == certs.len()
            &&& next.1.len() <= n
            &&& forall|k: int|
                0 <= k < certs.len() ==> (#[trigger] next.0[k]).hostname == certs[k].hostname
                    && next.0[k].not_before == certs[k].not_before && next.0[k].expires_at
                    == certs[k].expires_at
            &&& forall|k: int|
                0 <= k < certs.len() && (forall|i: int|
                    0 <= i < n ==> (#[trigger] events[i]).identifier != Some(certs[k].hostname))
                    ==> #[trigger] next.0[k] == certs[k]
        }),
    decreases n,
{
    if n > 0 {
        events_keep_other_certificates(certs, events, n - 1, domains, tenant, now);
        let before = after_events(certs, events, n - 1, domains, tenant, now);
        events_reach_their_certificate(before.0, events[n - 1]);
        let next = after_events(certs, events, n, domains, tenant, now);
        assert forall|k: int|
            0 <= k < certs.len() && (forall|i: int|
                0 <= i < n ==> (#[trigger] events[i]).identifier != Some(
                    certs[k].hostname,
                )) implies #[trigger] next.0[k] == certs[k] by {
            assert(events[n - 1].identifier != Some(certs[k].hostname));
            assert(before.0[k] == certs[k]);
        }
        assert forall|k: int| 0 <= k < certs.len() implies (#[trigger] next.0[k]).hostname
            == certs[k].hostname && next.0[k].not_before == certs[k].not_before
            && next.0[k].expires_at == certs[k].expires_at by {
            assert(before.0[k].hostname == certs[k].hostname);
        }
    }
}

proof fn lemma_picks_certificates(certs: Seq<CertView>, subjects: Seq<Seq<char>>, n: int, keep: spec_fn(int) -> bool, value: spec_fn(int) -> CertView)
    requires
        forall|i: int|
            0 <= i < n ==> #[trigger] keep(i) == (subjects.contains(certs[i].hostname)) && value(i) == (certs[i]),
    ensures
        kept(certs, subjects, n) == picked::picked(keep, value, n),
    decreases n,
{
    if n > 0 {
        assert(keep(n - 1) || !keep(n - 1));
        lemma_picks_certificates(certs, subjects, n - 1, keep, value);
    }
}

/// The certificates of names that are still asked for are kept as they are, and no others are.
pub proof fn certificates_in_use_are_kept(certs: Seq<CertView>, subjects: Seq<Seq<char>>)
    ensures
        forall|cert: CertView| #[trigger]
            kept(certs, subjects, certs.len() as int).contains(cert) <==> exists|i: int|
                0 <= i < certs.len() && #[trigger] certs[i] == cert && subjects.contains(cert.hostname),
{
    let n = certs.len() as int;
    let keep = |i: int| subjects.contains(certs[i].hostname);
    let value = |i: int| certs[i];
    lemma_picks_certificates(certs, subjects, n, keep, value);
    assert forall|cert: CertView| #[trigger] kept(certs, subjects, n).contains(cert) <==> exists|i: int|
        0 <= i < certs.len() && #[trigger] certs[i] == cert && subjects.contains(cert.hostname) by {
        picked::lemma_picked_contains(keep, value, n, cert);
        if kept(certs, subjects, n).contains(cert) {
            let i = choose|i: int| 0 <= i < n && #[trigger] keep(i) && value(i) == cert;
            assert(certs[i] == certs[i]);
        }
        if exists|i: int| 0 <= i < certs.len() && #[trigger] certs[i] == cert && subjects.contains(cert.hostname) {
            let i = choose|i: int| 0 <= i < certs.len() && #[trigger] certs[i] == cert && subjects.contains(cert.hostname);
            assert(keep(i) && value(i) == cert);
        }
    }
}

/// Each name that is asked for gets a certificate, which waits where it is new; the others stay.
pub proof fn every_name_gets_a_certificate(
    certs: Seq<CertView>,
    subjects: Seq<Seq<char>>,
    n: int,
)
    requires
        0 <= n <= subjects.len(),
    ensures
        ({
            let all = completed(certs, subjects, n);
            &&& all.len() >= certs.len()
            &&& all.take(certs.len() as int) == certs
            &&& forall|k: int|
                certs.len() <= k < all.len() ==> (#[trigger] all[k]).status == "pending"@
                    && all[k].error is None && all[k].expires_at is None && subjects.contains(
                    all[k].hostname,
                )
            &&& forall|i: int|
                0 <= i < n ==> exists|k: int|
                    0 <= k < all.len() && (#[trigger] all[k]).hostname == #[trigger] subjects[i]
        }),
    decreases n,
{
    if n > 0 {
        every_name_gets_a_certificate(certs, subjects, n - 1);
        let before = completed(certs, subjects, n - 1);
        let all = completed(certs, subjects, n);
        lemma_cert_place(before, subjects[n - 1], 0);
        assert(all.take(certs.len() as int) =~= certs);
        assert forall|i: int| 0 <= i < n implies exists|k: int|
            0 <= k < all.len() && (#[trigger] all[k]).hostname == #[trigger] subjects[i] by {
            if i < n - 1 {
                let k = choose|k: int|
                    0 <= k < before.len() && (#[trigger] before[k]).hostname == subjects[i];
                assert(all[k] == before[k]);
            } else if cert_for(before, subjects[n - 1], 0) is Some {
                assert(all[cert_for(before, subjects[n - 1], 0)->0].hostname == subjects[i]);
            } else {
                assert(all[before.len() as int].hostname == subjects[i]);
            }
        }
    } else {
        assert(certs.take(certs.len() as int) =~= certs);
    }
}

proof fn lemma_picks_served(
    domain: edge_config::DomainView,
    n: int,
    keep: spec_fn(int) -> bool,
    value: spec_fn(int) -> (Seq<char>, Seq<char>),
)
    requires
        forall|i: int|
            0 <= i < n ==> #[trigger] keep(i) == (domain.services[i].upstream is Some && (
            domain.services[i].protocol != "https"@ || domain.https)) && value(i) == (
                domain.services[i].protocol + "://"@ + domain.services[i].hostname,
                domain.services[i].upstream->0,
            ),
    ensures
        served(domain, n) == picked::picked(keep, value, n),
    decreases n,
{
    if n > 0 {
        assert(keep(n - 1) || !keep(n - 1));
        lemma_picks_served(domain, n - 1, keep, value);
    }
}

/// The routes of a domain are its services that have a tunnel, under their own addresses; those over
/// HTTPS while the domain has it.
pub proof fn connected_services_are_served(domain: edge_config::DomainView)
    ensures
        forall|route: (Seq<char>, Seq<char>)| #[trigger]
            served(domain, domain.services.len() as int).contains(route) <==> exists|i: int|
                0 <= i < domain.services.len() && (#[trigger] domain.services[i]).upstream == Some(
                    route.1,
                ) && (domain.services[i].protocol != "https"@ || domain.https) && route.0
                    == domain.services[i].protocol + "://"@ + domain.services[i].hostname,
{
    let n = domain.services.len() as int;
    let keep = |i: int|
        domain.services[i].upstream is Some && (domain.services[i].protocol != "https"@
            || domain.https);
    let value = |i: int|
        (
            domain.services[i].protocol + "://"@ + domain.services[i].hostname,
            domain.services[i].upstream->0,
        );
    lemma_picks_served(domain, n, keep, value);
    assert forall|route: (Seq<char>, Seq<char>)| #[trigger]
        served(domain, n).contains(route) <==> exists|i: int|
            0 <= i < domain.services.len() && (#[trigger] domain.services[i]).upstream == Some(
                route.1,
            ) && (domain.services[i].protocol != "https"@ || domain.https) && route.0
                == domain.services[i].protocol + "://"@ + domain.services[i].hostname by {
        picked::lemma_picked_contains(keep, value, n, route);
        if served(domain, n).contains(route) {
            let i = choose|i: int| 0 <= i < n && #[trigger] keep(i) && value(i) == route;
            assert(domain.services[i].upstream == Some(route.1));
        }
        if exists|i: int|
            0 <= i < domain.services.len() && (#[trigger] domain.services[i]).upstream == Some(
                route.1,
            ) && (domain.services[i].protocol != "https"@ || domain.https) && route.0
                == domain.services[i].protocol + "://"@ + domain.services[i].hostname {
            let i = choose|i: int|
                0 <= i < domain.services.len() && (#[trigger] domain.services[i]).upstream == Some(
                    route.1,
                ) && (domain.services[i].protocol != "https"@ || domain.https) && route.0
                    == domain.services[i].protocol + "://"@ + domain.services[i].hostname;
            assert(keep(i) && value(i) == route);
        }
    }
}

/// After a round a domain is applied or, with the error, failed; a failed one serves no route. A
/// service without a tunnel gives a warning. A change of this is told once, before what the events
/// tell.
pub proof fn rounds_tell_what_became_of_a_domain(
    previous: RuntimeView,
    domain: edge_config::DomainView,
    round: Round,
)
    ensures
        ({
            let next = after_round(previous, domain, round);
            let notices = round_notices(previous, domain, round);
            &&& next.checked_at == Some(round.now)
            &&& next.config_error is Some <==> round.config_error is Some
            &&& round.config_error is Some ==> next.config_status == "failed"@
                && next.loaded_routes.len() == 0 && next.config_error == Some(
                tenant_message(round.config_error->0, round.domains, domain.tenant),
            )
            &&& round.config_error is None ==> next.config_status == "applied"@
                && next.loaded_routes == served(domain, domain.services.len() as int)
            &&& next.service_warning is Some <==> exists|i: int|
                0 <= i < domain.services.len() && (#[trigger] domain.services[i]).upstream is None
            &&& previous.config_status != next.config_status || previous.config_error
                != next.config_error ==> notices.len() == round_certs(
                previous,
                domain,
                round,
            ).1.len() + 1 && notices[0].1 == round.now
            &&& previous.config_status == next.config_status && previous.config_error
                == next.config_error ==> notices == round_certs(previous, domain, round).1
        }),
{
    let notices = round_notices(previous, domain, round);
    assert(Seq::<(Seq<char>, i64)>::empty() + round_certs(previous, domain, round).1
        =~= round_certs(previous, domain, round).1);
}

/// After a round a domain has a certificate for each name that it asks for, seen at the time of the
/// round.
pub proof fn rounds_follow_every_certificate(
    previous: RuntimeView,
    domain: edge_config::DomainView,
    round: Round,
)
    ensures
        ({
            let subjects = edge_config::subject_list(domain);
            let certs = after_round(previous, domain, round).certificates;
            &&& forall|i: int|
                0 <= i < subjects.len() ==> exists|k: int|
                    0 <= k < certs.len() && (#[trigger] certs[k]).hostname
                        == #[trigger] subjects[i]
            &&& forall|k: int|
                0 <= k < certs.len() ==> ((#[trigger] certs[k]).expires_at is Some
                    <==> exists|m: int|
                    0 <= m < round.metadata.len() && serves(
                        #[trigger] round.metadata[m],
                        certs[k].hostname,
                    ))
        }),
{
    let subjects = edge_config::subject_list(domain);
    let left = kept(previous.certificates, subjects, previous.certificates.len() as int);
    let all = completed(left, subjects, subjects.len() as int);
    let told = round_certs(previous, domain, round).0;
    let certs = after_round(previous, domain, round).certificates;
    every_name_gets_a_certificate(left, subjects, subjects.len() as int);
    events_keep_other_certificates(
        all,
        round.events,
        round.events.len() as int,
        round.domains,
        domain.tenant,
        round.now,
    );
    assert forall|i: int| 0 <= i < subjects.len() implies exists|k: int|
        0 <= k < certs.len() && (#[trigger] certs[k]).hostname == #[trigger] subjects[i] by {
        let k = choose|k: int| 0 <= k < all.len() && (#[trigger] all[k]).hostname == subjects[i];
        assert(told[k].hostname == all[k].hostname);
        assert(certs[k].hostname == subjects[i]);
    }
    assert forall|k: int| 0 <= k < certs.len() implies ((#[trigger] certs[k]).expires_at is Some
        <==> exists|m: int|
        0 <= m < round.metadata.len() && serves(
            #[trigger] round.metadata[m],
            certs[k].hostname,
        )) by {
        assert(certs[k].hostname == told[k].hostname);
        the_longest_certificate_counts(
            round.metadata,
            told[k].hostname,
            round.metadata.len() as int,
        );
    }
}

/// What is noted of a domain is found by its identifier; a domain that nothing is noted of waits.
pub proof fn domains_are_noted_by_their_identifier(
    statuses: Seq<(String, DomainRuntime)>,
    id: Seq<char>,
    i: int,
)
    requires
        0 <= i <= statuses.len(),
    ensures
        noted(statuses, id, i) is Some ==> exists|k: int|
            i <= k < statuses.len() && (#[trigger] statuses[k]).0@ == id && noted(statuses, id, i)
                == Some(statuses[k].1@),
        noted(statuses, id, i) is None <==> forall|k: int|
            i <= k < statuses.len() ==> (#[trigger] statuses[k]).0@ != id,
    decreases statuses.len() - i,
{
    if i < statuses.len() {
        domains_are_noted_by_their_identifier(statuses, id, i + 1);
        if noted(statuses, id, i) is Some && statuses[i].0@ != id {
            let k = choose|k: int|
                i + 1 <= k < statuses.len() && (#[trigger] statuses[k]).0@ == id && noted(
                    statuses,
                    id,
                    i + 1,
                ) == Some(statuses[k].1@);
            assert(statuses[k].0@ == id);
        }
    }
}

/// A directory of credentials goes where its domain is gone, it lies in its place and nothing refers to
/// it; under no other circumstances.
pub proof fn only_unused_credentials_are_removed(
    domain_directory: bool,
    domain_exists: bool,
    inside: bool,
    referenced: bool,
)
    ensures
        cleanup_of(domain_directory, domain_exists, inside, referenced) is Remove
            <==> domain_directory && !domain_exists && inside && !referenced,
        cleanup_of(domain_directory, domain_exists, inside, referenced) is Wait
            <==> domain_directory && !domain_exists && inside && referenced,
        cleanup_of(domain_directory, domain_exists, inside, referenced) is Refuse
            <==> domain_directory && !domain_exists && !inside,
{
}

/// The tunnel of a service is the first one noted under its identifier.
pub proof fn tunnels_are_found_by_their_service(
    upstreams: Seq<(Seq<char>, Seq<char>)>,
    id: Seq<char>,
    i: int,
)
    requires
        0 <= i <= upstreams.len(),
    ensures
        upstream_of(upstreams, id, i) is Some ==> exists|k: int|
            i <= k < upstreams.len() && (#[trigger] upstreams[k]).0 == id && upstream_of(
                upstreams,
                id,
                i,
            ) == Some(upstreams[k].1),
        upstream_of(upstreams, id, i) is None <==> forall|k: int|
            i <= k < upstreams.len() ==> (#[trigger] upstreams[k]).0 != id,
    decreases upstreams.len() - i,
{
    if i < upstreams.len() {
        tunnels_are_found_by_their_service(upstreams, id, i + 1);
        if upstream_of(upstreams, id, i) is Some && upstreams[i].0 != id {
            let k = choose|k: int|
                i + 1 <= k < upstreams.len() && (#[trigger] upstreams[k]).0 == id && upstream_of(
                    upstreams,
                    id,
                    i + 1,
                ) == Some(upstreams[k].1);
            assert(upstreams[k].0 == id);
        }
    }
}

proof fn lemma_picks_services(rows: Seq<ServiceRow>, domain: Seq<char>, tenant: Seq<char>, name: Seq<char>, upstreams: Seq<(Seq<char>, Seq<char>)>, n: int, keep: spec_fn(int) -> bool, value: spec_fn(int) -> edge_config::ServiceView)
    requires
        forall|i: int|
            0 <= i < n ==> #[trigger] keep(i) == (served_under(rows[i], domain, tenant)) && value(i) == (service_view(rows[i], name, upstreams)),
    ensures
        services_under(rows, domain, tenant, name, upstreams, n) == picked::picked(keep, value, n),
    decreases n,
{
    if n > 0 {
        assert(keep(n - 1) || !keep(n - 1));
        lemma_picks_services(rows, domain, tenant, name, upstreams, n - 1, keep, value);
    }
}

/// The web services of a domain are those of its workspace that stand under it, are enabled and not
/// deleted; each has its own name below that of the domain, its protocol and its tunnel.
pub proof fn enabled_web_services_stand_under_their_domain(rows: Seq<ServiceRow>, domain: Seq<char>, tenant: Seq<char>, name: Seq<char>, upstreams: Seq<(Seq<char>, Seq<char>)>)
    ensures
        forall|service: edge_config::ServiceView| #[trigger]
            services_under(rows, domain, tenant, name, upstreams, rows.len() as int).contains(service) <==> exists|i: int|
                0 <= i < rows.len() && text::opt((#[trigger] rows[i]).public_domain_id) == Some(domain)
                    && rows[i].tenant_id@ == tenant && rows[i].enabled && !rows[i].deleted && (
                rows[i].protocol@ == "http"@ || rows[i].protocol@ == "https"@) && service.protocol
                    == rows[i].protocol@ && service.upstream == upstream_of(
                    upstreams,
                    rows[i].id@,
                    0,
                ) && service.hostname == (if rows[i].hostname is Some {
                    rows[i].hostname->0@
                } else {
                    Seq::empty()
                }) + "."@ + name,
{
    let n = rows.len() as int;
    let keep = |i: int| served_under(rows[i], domain, tenant);
    let value = |i: int| service_view(rows[i], name, upstreams);
    lemma_picks_services(rows, domain, tenant, name, upstreams, n, keep, value);
    assert forall|service: edge_config::ServiceView| #[trigger] services_under(rows, domain, tenant, name, upstreams, n).contains(service) <==> exists|i: int|
        0 <= i < rows.len() && text::opt((#[trigger] rows[i]).public_domain_id) == Some(domain)
                    && rows[i].tenant_id@ == tenant && rows[i].enabled && !rows[i].deleted && (
                rows[i].protocol@ == "http"@ || rows[i].protocol@ == "https"@) && service.protocol
                    == rows[i].protocol@ && service.upstream == upstream_of(
                    upstreams,
                    rows[i].id@,
                    0,
                ) && service.hostname == (if rows[i].hostname is Some {
                    rows[i].hostname->0@
                } else {
                    Seq::empty()
                }) + "."@ + name by {
        picked::lemma_picked_contains(keep, value, n, service);
        if services_under(rows, domain, tenant, name, upstreams, n).contains(service) {
            let i = choose|i: int| 0 <= i < n && #[trigger] keep(i) && value(i) == service;
            assert(rows[i] == rows[i]);
        }
        if exists|i: int| 0 <= i < rows.len() && text::opt((#[trigger] rows[i]).public_domain_id) == Some(domain)
                    && rows[i].tenant_id@ == tenant && rows[i].enabled && !rows[i].deleted && (
                rows[i].protocol@ == "http"@ || rows[i].protocol@ == "https"@) && service.protocol
                    == rows[i].protocol@ && service.upstream == upstream_of(
                    upstreams,
                    rows[i].id@,
                    0,
                ) && service.hostname == (if rows[i].hostname is Some {
                    rows[i].hostname->0@
                } else {
                    Seq::empty()
                }) + "."@ + name {
            let i = choose|i: int| 0 <= i < rows.len() && text::opt((#[trigger] rows[i]).public_domain_id) == Some(domain)
                    && rows[i].tenant_id@ == tenant && rows[i].enabled && !rows[i].deleted && (
                rows[i].protocol@ == "http"@ || rows[i].protocol@ == "https"@) && service.protocol
                    == rows[i].protocol@ && service.upstream == upstream_of(
                    upstreams,
                    rows[i].id@,
                    0,
                ) && service.hostname == (if rows[i].hostname is Some {
                    rows[i].hostname->0@
                } else {
                    Seq::empty()
                }) + "."@ + name;
            assert(keep(i) && value(i) == service);
        }
    }
}

proof fn lemma_picks_domains(rows: Seq<DomainRow>, services: Seq<ServiceRow>, upstreams: Seq<(Seq<char>, Seq<char>)>, credentials: Seq<(Seq<char>, Seq<char>)>, n: int, keep: spec_fn(int) -> bool, value: spec_fn(int) -> edge_config::DomainView)
    requires
        forall|i: int|
            0 <= i < n ==> #[trigger] keep(i) == (served_domain(rows[i])) && value(i) == (specification_of(rows[i], services, upstreams, credentials)),
    ensures
        specifications_of(rows, services, upstreams, credentials, n) == picked::picked(keep, value, n),
    decreases n,
{
    if n > 0 {
        assert(keep(n - 1) || !keep(n - 1));
        lemma_picks_domains(rows, services, upstreams, credentials, n - 1, keep, value);
    }
}

/// The domains that the edge serves are those of enabled workspaces that are not unproved; each has its
/// own name, workspace, settings and services, and a credential for certificates over DNS alone.
pub proof fn served_domains_are_proved(rows: Seq<DomainRow>, services: Seq<ServiceRow>, upstreams: Seq<(Seq<char>, Seq<char>)>, credentials: Seq<(Seq<char>, Seq<char>)>)
    ensures
        forall|view: edge_config::DomainView| #[trigger]
            specifications_of(rows, services, upstreams, credentials, rows.len() as int).contains(view) <==> exists|i: int|
                0 <= i < rows.len() && (#[trigger] rows[i]).workspace_enabled && rows[i].verified != Some(false)
                    && view.id == rows[i].id@ && view.tenant == rows[i].tenant_id@ && view.name
                    == rows[i].domain@ && view.https == rows[i].https_enabled && view.mode
                    == rows[i].settings.certificate_mode@ && view.resolvers == text::views(
                    rows[i].settings.dns.dns_resolvers@,
                ) && view.delay == rows[i].settings.dns.dns_propagation_delay_seconds
                    && view.timeout == rows[i].settings.dns.dns_propagation_timeout_seconds
                    && view.services == services_under(
                    services,
                    rows[i].id@,
                    rows[i].tenant_id@,
                    rows[i].domain@,
                    upstreams,
                    services.len() as int,
                ) && view.token == (if rows[i].settings.certificate_mode@ == "cloudflare_dns"@
                    && upstream_of(credentials, rows[i].id@, 0) is Some {
                    Some("{file."@ + upstream_of(credentials, rows[i].id@, 0)->0 + "}"@)
                } else {
                    None
                }),
{
    let n = rows.len() as int;
    let keep = |i: int| served_domain(rows[i]);
    let value = |i: int| specification_of(rows[i], services, upstreams, credentials);
    lemma_picks_domains(rows, services, upstreams, credentials, n, keep, value);
    assert forall|view: edge_config::DomainView| #[trigger] specifications_of(rows, services, upstreams, credentials, n).contains(view) <==> exists|i: int|
        0 <= i < rows.len() && (#[trigger] rows[i]).workspace_enabled && rows[i].verified != Some(false)
                    && view.id == rows[i].id@ && view.tenant == rows[i].tenant_id@ && view.name
                    == rows[i].domain@ && view.https == rows[i].https_enabled && view.mode
                    == rows[i].settings.certificate_mode@ && view.resolvers == text::views(
                    rows[i].settings.dns.dns_resolvers@,
                ) && view.delay == rows[i].settings.dns.dns_propagation_delay_seconds
                    && view.timeout == rows[i].settings.dns.dns_propagation_timeout_seconds
                    && view.services == services_under(
                    services,
                    rows[i].id@,
                    rows[i].tenant_id@,
                    rows[i].domain@,
                    upstreams,
                    services.len() as int,
                ) && view.token == (if rows[i].settings.certificate_mode@ == "cloudflare_dns"@
                    && upstream_of(credentials, rows[i].id@, 0) is Some {
                    Some("{file."@ + upstream_of(credentials, rows[i].id@, 0)->0 + "}"@)
                } else {
                    None
                }) by {
        picked::lemma_picked_contains(keep, value, n, view);
        if specifications_of(rows, services, upstreams, credentials, n).contains(view) {
            let i = choose|i: int| 0 <= i < n && #[trigger] keep(i) && value(i) == view;
            assert(rows[i] == rows[i]);
        }
        if exists|i: int| 0 <= i < rows.len() && (#[trigger] rows[i]).workspace_enabled && rows[i].verified != Some(false)
                    && view.id == rows[i].id@ && view.tenant == rows[i].tenant_id@ && view.name
                    == rows[i].domain@ && view.https == rows[i].https_enabled && view.mode
                    == rows[i].settings.certificate_mode@ && view.resolvers == text::views(
                    rows[i].settings.dns.dns_resolvers@,
                ) && view.delay == rows[i].settings.dns.dns_propagation_delay_seconds
                    && view.timeout == rows[i].settings.dns.dns_propagation_timeout_seconds
                    && view.services == services_under(
                    services,
                    rows[i].id@,
                    rows[i].tenant_id@,
                    rows[i].domain@,
                    upstreams,
                    services.len() as int,
                ) && view.token == (if rows[i].settings.certificate_mode@ == "cloudflare_dns"@
                    && upstream_of(credentials, rows[i].id@, 0) is Some {
                    Some("{file."@ + upstream_of(credentials, rows[i].id@, 0)->0 + "}"@)
                } else {
                    None
                }) {
            let i = choose|i: int| 0 <= i < rows.len() && (#[trigger] rows[i]).workspace_enabled && rows[i].verified != Some(false)
                    && view.id == rows[i].id@ && view.tenant == rows[i].tenant_id@ && view.name
                    == rows[i].domain@ && view.https == rows[i].https_enabled && view.mode
                    == rows[i].settings.certificate_mode@ && view.resolvers == text::views(
                    rows[i].settings.dns.dns_resolvers@,
                ) && view.delay == rows[i].settings.dns.dns_propagation_delay_seconds
                    && view.timeout == rows[i].settings.dns.dns_propagation_timeout_seconds
                    && view.services == services_under(
                    services,
                    rows[i].id@,
                    rows[i].tenant_id@,
                    rows[i].domain@,
                    upstreams,
                    services.len() as int,
                ) && view.token == (if rows[i].settings.certificate_mode@ == "cloudflare_dns"@
                    && upstream_of(credentials, rows[i].id@, 0) is Some {
                    Some("{file."@ + upstream_of(credentials, rows[i].id@, 0)->0 + "}"@)
                } else {
                    None
                });
            assert(keep(i) && value(i) == view);
        }
    }
}

/// A credential is used for certificates over DNS alone. The stored file comes first, then the token of
/// the domain, and that of the machine for an old domain of the administrator.
pub proof fn credentials_come_from_their_place(
    settings: &Settings,
    root: &str,
    id: &str,
    own: Option<String>,
    owned_by_admin: bool,
    environment: Option<&str>,
    r: CredentialSource,
)
    requires
        call_ensures(credential_source, (settings, root, id, own, owned_by_admin, environment), r),
    ensures
        settings.certificate_mode@ != "cloudflare_dns"@ ==> r is Missing,
        settings.certificate_mode@ == "cloudflare_dns"@ && settings.credential_file is Some ==> r
            is File || r is Invalid,
        (r matches CredentialSource::File { path } ==> settings.credential_file is Some
            && text::has_suffix(path@, settings.credential_file->0@)),
        settings.certificate_mode@ == "cloudflare_dns"@ && settings.credential_file is None && own
            is Some ==> (r matches CredentialSource::Token { token } && token@ == own->0@),
        settings.credential_file is None && own is None && (!settings.legacy || !owned_by_admin)
            ==> r is Missing,
        (r matches CredentialSource::Token { token } ==> (own is Some && token@ == own->0@) || (own
            is None && environment is Some && token@ == environment->0@ && settings.legacy
            && owned_by_admin)),
{
    if r is File {
        let directory = caddy::below(root@, id@);
        let name = settings.credential_file->0@;
        caddy::paths_lie_below_their_directory(directory, name);
        let path = caddy::below(directory, name);
        if directory.len() == 0 {
            assert(path.skip(0) =~= path);
        }
    }
}

/// A configuration is applied where it or a credential has changed; a round is over where nothing failed
/// and everything was cleaned up, or the edge is off.
pub proof fn rounds_end_when_all_is_done(
    unchanged: bool,
    credentials_changed: bool,
    applies: bool,
    enabled: bool,
    failed: bool,
    cleaned: bool,
    done: bool,
)
    requires
        call_ensures(needs_apply, (unchanged, credentials_changed), applies),
        call_ensures(round_complete, (enabled, failed, cleaned), done),
    ensures
        !applies <==> unchanged && !credentials_changed,
        enabled && failed ==> !done,
        enabled && !cleaned ==> !done,
        !enabled || (!failed && cleaned) ==> done,
{
}

} // verus!
