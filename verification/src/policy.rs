//! The access policy of the mesh: it holds explicit grants and nothing else, so that an empty policy
//! allows nothing.
use serde_json::Value;
use vstd::prelude::*;

use crate::json;
use crate::json::{
    json_array, json_object, json_pretty, json_text, json_texts, object2, object3, Json,
};
use crate::picked;
use crate::text;
use crate::text::{holds, join3, lower, same, trim};

verus! {

/// A permission from the devices of one workspace to those of another.
#[derive(Debug, Clone)]
pub struct PolicyGrant {
    pub source_tenant: String,
    pub target_tenant: String,
    pub sources: Vec<String>,
    pub destinations: Vec<String>,
    /// Where it is empty or holds `*`, every protocol and port of the destinations is allowed.
    pub protocols: Vec<String>,
    /// The ports; none, or `*`, stands for all.
    pub ports: Vec<String>,
    /// Whether the devices accept remote shells too.
    pub ssh: bool,
}

/// Whether a protocol can be granted.
pub open spec fn known_protocol(name: Seq<char>) -> bool {
    name == "tcp"@ || name == "udp"@ || name == "icmp"@
}

/// The protocols among the first `n` names: trimmed, in lower case, without those that are unknown.
pub open spec fn protocols_in(names: Seq<Seq<char>>, n: int) -> Seq<Seq<char>>
    decreases n,
{
    if n <= 0 {
        Seq::empty()
    } else {
        let name = text::lowered(text::trimmed(names[n - 1]));
        if known_protocol(name) {
            protocols_in(names, n - 1).push(name)
        } else {
            protocols_in(names, n - 1)
        }
    }
}

/// The ports among the first `n` entries: trimmed, without those that are empty.
pub open spec fn ports_in(entries: Seq<Seq<char>>, n: int) -> Seq<Seq<char>>
    decreases n,
{
    if n <= 0 {
        Seq::empty()
    } else if text::trimmed(entries[n - 1]).len() > 0 {
        ports_in(entries, n - 1).push(text::trimmed(entries[n - 1]))
    } else {
        ports_in(entries, n - 1)
    }
}

/// The rule for a port of a protocol.
pub open spec fn rule(protocol: Seq<char>, port: Seq<char>) -> Seq<char> {
    protocol + ":"@ + port
}

/// The rules for all ports of the first `n` protocols.
pub open spec fn open_rules(protocols: Seq<Seq<char>>, n: int) -> Seq<Seq<char>> {
    Seq::new(n as nat, |i: int| rule(protocols[i], "*"@))
}

/// The rules for some ports of a protocol.
pub open spec fn port_rules(protocol: Seq<char>, ports: Seq<Seq<char>>, n: int) -> Seq<Seq<char>> {
    Seq::new(n as nat, |i: int| rule(protocol, ports[i]))
}

/// The rules for some ports of the first `n` protocols.
pub open spec fn rules_for(protocols: Seq<Seq<char>>, ports: Seq<Seq<char>>, n: int) -> Seq<Seq<char>>
    decreases n,
{
    if n <= 0 {
        Seq::empty()
    } else {
        rules_for(protocols, ports, n - 1) + port_rules(
            protocols[n - 1],
            ports,
            ports.len() as int,
        )
    }
}

/// The rules of a grant, given its protocols and ports: all where none is selected.
pub open spec fn rules_of(protocols: Seq<Seq<char>>, ports: Seq<Seq<char>>) -> Seq<Seq<char>> {
    if protocols.len() == 0 || ports.len() == 0 {
        seq!["*"@]
    } else if ports.contains("*"@) {
        open_rules(protocols, protocols.len() as int)
    } else {
        rules_for(protocols, ports, protocols.len() as int)
    }
}

/// Whether `*` is among the protocols.
pub open spec fn every_protocol(names: Seq<Seq<char>>) -> bool {
    exists|i: int| 0 <= i < names.len() && text::trimmed(#[trigger] names[i]) == "*"@
}

/// The rules of a grant: all where `*` is among its protocols.
pub open spec fn grant_rules(grant: PolicyGrant) -> Seq<Seq<char>> {
    let names = text::views(grant.protocols@);
    let entries = text::views(grant.ports@);
    if every_protocol(names) {
        seq!["*"@]
    } else {
        rules_of(
            protocols_in(names, names.len() as int),
            ports_in(entries, entries.len() as int),
        )
    }
}

fn holds_every(names: &Vec<String>) -> (r: bool)
    ensures
        r == every_protocol(text::views(names@)),
{
    let ghost all = text::views(names@);
    let mut i: usize = 0;
    while i < names.len()
        invariant
            i <= names@.len(),
            all == text::views(names@),
            forall|j: int| 0 <= j < i ==> text::trimmed(#[trigger] all[j]) != "*"@,
        decreases names@.len() - i,
    {
        assert(all[i as int] == names@[i as int]@);
        let name: String = trim(names[i].as_str());
        if same(name.as_str(), "*") {
            return true;
        }
        i = i + 1;
    }
    false
}

fn selected_protocols(names: &Vec<String>) -> (r: Vec<String>)
    ensures
        text::views(r@) == protocols_in(text::views(names@), names@.len() as int),
{
    let mut list: Vec<String> = Vec::new();
    let ghost all = text::views(names@);
    let mut i: usize = 0;
    assert(text::views(list@) =~= protocols_in(all, 0));
    while i < names.len()
        invariant
            i <= names@.len(),
            all == text::views(names@),
            text::views(list@) == protocols_in(all, i as int),
        decreases names@.len() - i,
    {
        assert(all[i as int] == names@[i as int]@);
        let trimmed: String = trim(names[i].as_str());
        let name: String = lower(trimmed.as_str());
        if same(name.as_str(), "tcp") || same(name.as_str(), "udp") || same(name.as_str(), "icmp") {
            let ghost before = text::views(list@);
            list.push(name);
            assert(text::views(list@) =~= before.push(name@));
        }
        i = i + 1;
    }
    list
}

fn selected_ports(entries: &Vec<String>) -> (r: Vec<String>)
    ensures
        text::views(r@) == ports_in(text::views(entries@), entries@.len() as int),
{
    let mut list: Vec<String> = Vec::new();
    let ghost all = text::views(entries@);
    let mut i: usize = 0;
    assert(text::views(list@) =~= ports_in(all, 0));
    while i < entries.len()
        invariant
            i <= entries@.len(),
            all == text::views(entries@),
            text::views(list@) == ports_in(all, i as int),
        decreases entries@.len() - i,
    {
        assert(all[i as int] == entries@[i as int]@);
        let port: String = trim(entries[i].as_str());
        if !port.as_str().is_empty() {
            let ghost before = text::views(list@);
            list.push(port);
            assert(text::views(list@) =~= before.push(port@));
        }
        i = i + 1;
    }
    list
}

/// The rules of a grant.
pub fn grant_protocols(grant: &PolicyGrant) -> (r: Vec<String>)
    ensures
        text::views(r@) == grant_rules(*grant),
{
    if holds_every(&grant.protocols) {
        let every: Vec<String> = vec!["*".to_owned()];
        assert(text::views(every@) =~= seq!["*"@]);
        return every;
    }
    let protocols: Vec<String> = selected_protocols(&grant.protocols);
    let ports: Vec<String> = selected_ports(&grant.ports);
    let ghost names = text::views(protocols@);
    let ghost entries = text::views(ports@);
    let mut rules: Vec<String> = Vec::new();
    if protocols.len() == 0 || ports.len() == 0 {
        rules.push("*".to_owned());
        assert(text::views(rules@) =~= seq!["*"@]);
        return rules;
    }
    let mut i: usize = 0;
    if holds(&ports, "*") {
        assert(text::views(rules@) =~= open_rules(names, 0));
        while i < protocols.len()
            invariant
                i <= protocols@.len(),
                names == text::views(protocols@),
                text::views(rules@) == open_rules(names, i as int),
            decreases protocols@.len() - i,
        {
            assert(names[i as int] == protocols@[i as int]@);
            let one: String = join3(protocols[i].as_str(), ":", "*");
            let ghost held = text::views(rules@);
            rules.push(one);
            assert(text::views(rules@) =~= held.push(one@));
            assert(open_rules(names, i + 1) =~= held.push(rule(names[i as int], "*"@)));
            i = i + 1;
        }
        return rules;
    }
    assert(text::views(rules@) =~= rules_for(names, entries, 0));
    while i < protocols.len()
        invariant
            i <= protocols@.len(),
            names == text::views(protocols@),
            entries == text::views(ports@),
            text::views(rules@) == rules_for(names, entries, i as int),
        decreases protocols@.len() - i,
    {
        assert(names[i as int] == protocols@[i as int]@);
        let ghost before = rules_for(names, entries, i as int);
        let mut j: usize = 0;
        assert(text::views(rules@) =~= before + port_rules(names[i as int], entries, 0));
        while j < ports.len()
            invariant
                j <= ports@.len(),
                i < protocols@.len(),
                names == text::views(protocols@),
                entries == text::views(ports@),
                names[i as int] == protocols@[i as int]@,
                text::views(rules@) == before + port_rules(names[i as int], entries, j as int),
            decreases ports@.len() - j,
        {
            assert(entries[j as int] == ports@[j as int]@);
            let one: String = join3(protocols[i].as_str(), ":", ports[j].as_str());
            let ghost held = text::views(rules@);
            rules.push(one);
            assert(text::views(rules@) =~= held.push(one@));
            assert(before + port_rules(names[i as int], entries, j + 1) =~= held.push(
                rule(names[i as int], entries[j as int]),
            ));
            j = j + 1;
        }
        i = i + 1;
    }
    rules
}

/// Whether a grant is complete: it names its workspaces, its sources and its destinations.
pub open spec fn complete(grant: PolicyGrant) -> bool {
    text::trimmed(grant.source_tenant@).len() > 0 && text::trimmed(grant.target_tenant@).len() > 0
        && grant.sources@.len() > 0 && grant.destinations@.len() > 0
}

/// The document of a grant.
pub open spec fn grant_tree(grant: PolicyGrant) -> Json {
    Json::Object(
        seq![
            ("src"@, json::text_array(text::views(grant.sources@))),
            ("dst"@, json::text_array(text::views(grant.destinations@))),
            ("ip"@, json::text_array(grant_rules(grant))),
        ],
    )
}

/// The document of a grant for remote shells: any user but the administrator of the device.
pub open spec fn shell_tree(grant: PolicyGrant) -> Json {
    Json::Object(
        seq![
            ("action"@, Json::Text("accept"@)),
            ("src"@, json::text_array(text::views(grant.sources@))),
            ("dst"@, json::text_array(text::views(grant.destinations@))),
            ("users"@, json::text_array(seq!["autogroup:nonroot"@])),
        ],
    )
}

/// The documents of the complete ones of the first `n` grants.
pub open spec fn grant_trees(grants: Seq<PolicyGrant>, n: int) -> Seq<Json>
    decreases n,
{
    if n <= 0 {
        Seq::empty()
    } else if complete(grants[n - 1]) {
        grant_trees(grants, n - 1).push(grant_tree(grants[n - 1]))
    } else {
        grant_trees(grants, n - 1)
    }
}

/// The documents for remote shells of the complete ones of the first `n` grants.
pub open spec fn shell_trees(grants: Seq<PolicyGrant>, n: int) -> Seq<Json>
    decreases n,
{
    if n <= 0 {
        Seq::empty()
    } else if complete(grants[n - 1]) && grants[n - 1].ssh {
        shell_trees(grants, n - 1).push(shell_tree(grants[n - 1]))
    } else {
        shell_trees(grants, n - 1)
    }
}

/// The document of a policy.
pub open spec fn policy_tree(grants: Seq<PolicyGrant>) -> Json {
    Json::Object(
        seq![
            ("grants"@, Json::Array(grant_trees(grants, grants.len() as int))),
            ("ssh"@, Json::Array(shell_trees(grants, grants.len() as int))),
        ],
    )
}

fn grant_document(grant: &PolicyGrant) -> (r: Value)
    ensures
        json::json_tree(r) == grant_tree(*grant),
{
    let rules: Vec<String> = grant_protocols(grant);
    proof {
        reveal_strlit("src");
        reveal_strlit("dst");
        reveal_strlit("ip");
        assert("src"@[0] == 's');
        assert("dst"@[0] == 'd');
        assert("ip"@.len() == 2 && "src"@.len() == 3 && "dst"@.len() == 3);
    }
    object3(
        "src",
        json_texts(&grant.sources),
        "dst",
        json_texts(&grant.destinations),
        "ip",
        json_texts(&rules),
    )
}

fn shell_document(grant: &PolicyGrant) -> (r: Value)
    ensures
        json::json_tree(r) == shell_tree(*grant),
{
    let mut users: Vec<String> = Vec::new();
    users.push("autogroup:nonroot".to_owned());
    assert(text::views(users@) =~= seq!["autogroup:nonroot"@]);
    let mut members: Vec<(String, Value)> = Vec::new();
    members.push(("action".to_owned(), json_text("accept")));
    members.push(("src".to_owned(), json_texts(&grant.sources)));
    members.push(("dst".to_owned(), json_texts(&grant.destinations)));
    members.push(("users".to_owned(), json_texts(&users)));
    proof {
        reveal_strlit("action");
        reveal_strlit("src");
        reveal_strlit("dst");
        reveal_strlit("users");
        assert("src"@[0] == 's');
        assert("dst"@[0] == 'd');
        assert("action"@.len() == 6 && "src"@.len() == 3 && "dst"@.len() == 3 && "users"@.len()
            == 5);
        assert(json::member_trees(members@) =~= shell_tree(*grant)->Object_0);
    }
    json_object(members)
}

/// The document of a policy.
pub fn policy_document(grants: &[PolicyGrant]) -> (r: Value)
    ensures
        json::json_tree(r) == policy_tree(grants@),
{
    let mut allowed: Vec<Value> = Vec::new();
    let mut shells: Vec<Value> = Vec::new();
    let mut i: usize = 0;
    assert(json::trees(allowed@) =~= grant_trees(grants@, 0));
    assert(json::trees(shells@) =~= shell_trees(grants@, 0));
    while i < grants.len()
        invariant
            i <= grants@.len(),
            json::trees(allowed@) == grant_trees(grants@, i as int),
            json::trees(shells@) == shell_trees(grants@, i as int),
        decreases grants@.len() - i,
    {
        let grant: &PolicyGrant = &grants[i];
        let source: String = trim(grant.source_tenant.as_str());
        let target: String = trim(grant.target_tenant.as_str());
        if !source.as_str().is_empty() && !target.as_str().is_empty() && grant.sources.len() > 0
            && grant.destinations.len() > 0 {
            if grant.ssh {
                let ghost before = json::trees(shells@);
                shells.push(shell_document(grant));
                assert(json::trees(shells@) =~= before.push(shell_tree(*grant)));
            }
            let ghost before = json::trees(allowed@);
            allowed.push(grant_document(grant));
            assert(json::trees(allowed@) =~= before.push(grant_tree(*grant)));
        }
        i = i + 1;
    }
    proof {
        reveal_strlit("grants");
        reveal_strlit("ssh");
        assert("grants"@.len() == 6 && "ssh"@.len() == 3);
    }
    object2("grants", json_array(allowed), "ssh", json_array(shells))
}

/// The text of a policy.
pub fn generate_policy(grants: &[PolicyGrant]) -> (r: String)
    ensures
        r@ == json::pretty_text(policy_tree(grants@)),
{
    let document: Value = policy_document(grants);
    json_pretty(&document)
}

/// A policy without grants allows nothing: both of its lists are empty.
pub proof fn empty_policies_allow_nothing(grants: Seq<PolicyGrant>)
    requires
        forall|i: int| 0 <= i < grants.len() ==> !complete(#[trigger] grants[i]),
    ensures
        policy_tree(grants) == Json::Object(
            seq![
                ("grants"@, Json::Array(Seq::<Json>::empty())),
                ("ssh"@, Json::Array(Seq::<Json>::empty())),
            ],
        ),
{
    lemma_no_trees(grants, grants.len() as int);
}

proof fn lemma_no_trees(grants: Seq<PolicyGrant>, n: int)
    requires
        0 <= n <= grants.len(),
        forall|i: int| 0 <= i < grants.len() ==> !complete(#[trigger] grants[i]),
    ensures
        grant_trees(grants, n) == Seq::<Json>::empty(),
        shell_trees(grants, n) == Seq::<Json>::empty(),
    decreases n,
{
    if n > 0 {
        lemma_no_trees(grants, n - 1);
        assert(!complete(grants[n - 1]));
    }
}

/// Everything that a policy allows goes back to a complete grant: it never gets wider than what was
/// granted.
pub proof fn policies_hold_grants_only(grants: Seq<PolicyGrant>, n: int, k: int)
    requires
        0 <= n <= grants.len(),
        0 <= k < grant_trees(grants, n).len(),
    ensures
        exists|i: int|
            0 <= i < n && complete(#[trigger] grants[i]) && grant_trees(grants, n)[k] == grant_tree(
                grants[i],
            ),
    decreases n,
{
    if n > 0 {
        let before = grant_trees(grants, n - 1);
        if k < before.len() {
            policies_hold_grants_only(grants, n - 1, k);
            let i = choose|i: int|
                0 <= i < n - 1 && complete(#[trigger] grants[i]) && before[k] == grant_tree(
                    grants[i],
                );
            assert(complete(grants[i]) && grant_trees(grants, n)[k] == grant_tree(grants[i]));
        } else {
            assert(complete(grants[n - 1]) && grant_trees(grants, n)[k] == grant_tree(
                grants[n - 1],
            ));
        }
    }
}

/// A grant that selects protocols and ports stays within the protocols: each of its rules is for one
/// of them.
pub proof fn rules_stay_within_protocols(
    protocols: Seq<Seq<char>>,
    ports: Seq<Seq<char>>,
    k: int,
)
    requires
        protocols.len() > 0,
        ports.len() > 0,
        0 <= k < rules_of(protocols, ports).len(),
    ensures
        exists|i: int, port: Seq<char>|
            0 <= i < protocols.len() && rules_of(protocols, ports)[k] == #[trigger] rule(
                protocols[i],
                port,
            ) && (port == "*"@ || ports.contains(port)),
{
    if ports.contains("*"@) {
        assert(rules_of(protocols, ports)[k] == rule(protocols[k], "*"@));
    } else {
        lemma_rules_for(protocols, ports, protocols.len() as int, k);
    }
}

proof fn lemma_rules_for(
    protocols: Seq<Seq<char>>,
    ports: Seq<Seq<char>>,
    n: int,
    k: int,
)
    requires
        0 <= n <= protocols.len(),
        0 <= k < rules_for(protocols, ports, n).len(),
    ensures
        exists|i: int, port: Seq<char>|
            0 <= i < n && rules_for(protocols, ports, n)[k] == #[trigger] rule(protocols[i], port)
                && ports.contains(port),
    decreases n,
{
    if n > 0 {
        let before = rules_for(protocols, ports, n - 1);
        if k < before.len() {
            lemma_rules_for(protocols, ports, n - 1, k);
            let (i, port) = choose|i: int, port: Seq<char>|
                0 <= i < n - 1 && before[k] == #[trigger] rule(protocols[i], port)
                    && ports.contains(port);
            assert(rules_for(protocols, ports, n)[k] == rule(protocols[i], port));
        } else {
            let j = k - before.len();
            assert(ports.contains(ports[j]));
            assert(rules_for(protocols, ports, n)[k] == rule(protocols[n - 1], ports[j]));
        }
    }
}

proof fn lemma_picks_protocols(names: Seq<Seq<char>>, n: int, keep: spec_fn(int) -> bool, value: spec_fn(int) -> Seq<char>)
    requires
        forall|i: int|
            0 <= i < n ==> #[trigger] keep(i) == (known_protocol(text::lowered(text::trimmed(names[i])))) && value(i) == (text::lowered(text::trimmed(names[i]))),
    ensures
        protocols_in(names, n) == picked::picked(keep, value, n),
    decreases n,
{
    if n > 0 {
        assert(keep(n - 1) || !keep(n - 1));
        lemma_picks_protocols(names, n - 1, keep, value);
    }
}

/// The protocols of a grant are those of its entries that are known, in lower case, and no others.
pub proof fn grants_name_known_protocols(names: Seq<Seq<char>>)
    ensures
        forall|name: Seq<char>| #[trigger]
            protocols_in(names, names.len() as int).contains(name) <==> exists|i: int|
                0 <= i < names.len() && text::lowered(text::trimmed(#[trigger] names[i])) == name && (name == "tcp"@
                    || name == "udp"@ || name == "icmp"@),
{
    let n = names.len() as int;
    let keep = |i: int| known_protocol(text::lowered(text::trimmed(names[i])));
    let value = |i: int| text::lowered(text::trimmed(names[i]));
    lemma_picks_protocols(names, n, keep, value);
    assert forall|name: Seq<char>| #[trigger] protocols_in(names, n).contains(name) <==> exists|i: int|
        0 <= i < names.len() && text::lowered(text::trimmed(#[trigger] names[i])) == name && (name == "tcp"@
                    || name == "udp"@ || name == "icmp"@) by {
        picked::lemma_picked_contains(keep, value, n, name);
        if protocols_in(names, n).contains(name) {
            let i = choose|i: int| 0 <= i < n && #[trigger] keep(i) && value(i) == name;
            assert(names[i] == names[i]);
        }
        if exists|i: int| 0 <= i < names.len() && text::lowered(text::trimmed(#[trigger] names[i])) == name && (name == "tcp"@
                    || name == "udp"@ || name == "icmp"@) {
            let i = choose|i: int| 0 <= i < names.len() && text::lowered(text::trimmed(#[trigger] names[i])) == name && (name == "tcp"@
                    || name == "udp"@ || name == "icmp"@);
            assert(keep(i) && value(i) == name);
        }
    }
}

proof fn lemma_picks_ports(entries: Seq<Seq<char>>, n: int, keep: spec_fn(int) -> bool, value: spec_fn(int) -> Seq<char>)
    requires
        forall|i: int|
            0 <= i < n ==> #[trigger] keep(i) == (text::trimmed(entries[i]).len() > 0) && value(i) == (text::trimmed(entries[i])),
    ensures
        ports_in(entries, n) == picked::picked(keep, value, n),
    decreases n,
{
    if n > 0 {
        assert(keep(n - 1) || !keep(n - 1));
        lemma_picks_ports(entries, n - 1, keep, value);
    }
}

/// The ports of a grant are its entries that are not blank, and no others.
pub proof fn grants_name_their_ports(entries: Seq<Seq<char>>)
    ensures
        forall|port: Seq<char>| #[trigger]
            ports_in(entries, entries.len() as int).contains(port) <==> exists|i: int|
                0 <= i < entries.len() && text::trimmed(#[trigger] entries[i]) == port && port.len() > 0,
{
    let n = entries.len() as int;
    let keep = |i: int| text::trimmed(entries[i]).len() > 0;
    let value = |i: int| text::trimmed(entries[i]);
    lemma_picks_ports(entries, n, keep, value);
    assert forall|port: Seq<char>| #[trigger] ports_in(entries, n).contains(port) <==> exists|i: int|
        0 <= i < entries.len() && text::trimmed(#[trigger] entries[i]) == port && port.len() > 0 by {
        picked::lemma_picked_contains(keep, value, n, port);
        if ports_in(entries, n).contains(port) {
            let i = choose|i: int| 0 <= i < n && #[trigger] keep(i) && value(i) == port;
            assert(entries[i] == entries[i]);
        }
        if exists|i: int| 0 <= i < entries.len() && text::trimmed(#[trigger] entries[i]) == port && port.len() > 0 {
            let i = choose|i: int| 0 <= i < entries.len() && text::trimmed(#[trigger] entries[i]) == port && port.len() > 0;
            assert(keep(i) && value(i) == port);
        }
    }
}

/// The rules of a grant pair each of its protocols with each of its ports, or with all of them where it
/// names all; without protocols or ports everything is allowed.
pub proof fn rules_pair_protocols_and_ports(
    protocols: Seq<Seq<char>>,
    ports: Seq<Seq<char>>,
    text: Seq<char>,
)
    ensures
        protocols.len() == 0 || ports.len() == 0 ==> rules_of(protocols, ports) == seq!["*"@],
        protocols.len() > 0 && ports.contains("*"@) ==> (rules_of(protocols, ports).contains(text)
            <==> exists|i: int|
            0 <= i < protocols.len() && text == #[trigger] protocols[i] + ":"@ + "*"@),
        protocols.len() > 0 && ports.len() > 0 && !ports.contains("*"@) ==> (rules_of(
            protocols,
            ports,
        ).contains(text) <==> exists|i: int, j: int|
            0 <= i < protocols.len() && 0 <= j < ports.len() && text == #[trigger] protocols[i]
                + ":"@ + #[trigger] ports[j]),
{
    if protocols.len() > 0 && ports.contains("*"@) {
        let list = open_rules(protocols, protocols.len() as int);
        if list.contains(text) {
            let i = choose|i: int| 0 <= i < list.len() && list[i] == text;
            assert(text == protocols[i] + ":"@ + "*"@);
        }
        if exists|i: int|
            0 <= i < protocols.len() && text == #[trigger] protocols[i] + ":"@ + "*"@ {
            let i = choose|i: int|
                0 <= i < protocols.len() && text == #[trigger] protocols[i] + ":"@ + "*"@;
            assert(list[i] == text);
        }
    } else if protocols.len() > 0 && ports.len() > 0 {
        lemma_rule_pairs(protocols, ports, protocols.len() as int, text);
    }
}

proof fn lemma_rule_pairs(
    protocols: Seq<Seq<char>>,
    ports: Seq<Seq<char>>,
    n: int,
    text: Seq<char>,
)
    requires
        0 <= n <= protocols.len(),
    ensures
        rules_for(protocols, ports, n).contains(text) <==> exists|i: int, j: int|
            0 <= i < n && 0 <= j < ports.len() && text == #[trigger] protocols[i] + ":"@
                + #[trigger] ports[j],
    decreases n,
{
    if n > 0 {
        lemma_rule_pairs(protocols, ports, n - 1, text);
        let before = rules_for(protocols, ports, n - 1);
        let added = port_rules(protocols[n - 1], ports, ports.len() as int);
        let all = before + added;
        if all.contains(text) {
            let k = choose|k: int| 0 <= k < all.len() && all[k] == text;
            if k < before.len() {
                assert(before[k] == text);
            } else {
                assert(added[k - before.len()] == text);
                assert(text == protocols[n - 1] + ":"@ + ports[k - before.len()]);
            }
        }
        if exists|i: int, j: int|
            0 <= i < n && 0 <= j < ports.len() && text == #[trigger] protocols[i] + ":"@
                + #[trigger] ports[j] {
            let (i, j) = choose|i: int, j: int|
                0 <= i < n && 0 <= j < ports.len() && text == #[trigger] protocols[i] + ":"@
                    + #[trigger] ports[j];
            if i < n - 1 {
                assert(before.contains(text));
                let k = choose|k: int| 0 <= k < before.len() && before[k] == text;
                assert(all[k] == text);
            } else {
                assert(added[j] == text);
                assert(all[before.len() as int + j] == text);
            }
        }
    }
}

/// A grant that names every protocol allows everything; another one has the rules of its protocols and
/// ports.
pub proof fn grants_allow_what_they_name(grant: PolicyGrant, k: int)
    ensures
        0 <= k < grant.protocols@.len() && text::trimmed(grant.protocols@[k]@) == "*"@
            ==> grant_rules(grant) == seq!["*"@],
        grant.protocols@.len() == 0 || grant.ports@.len() == 0 ==> grant_rules(grant)
            == seq!["*"@],
        (forall|i: int|
            0 <= i < grant.protocols@.len() ==> text::trimmed((#[trigger] grant.protocols@[i])@)
                != "*"@) ==> grant_rules(grant) == rules_of(
            protocols_in(text::views(grant.protocols@), grant.protocols@.len() as int),
            ports_in(text::views(grant.ports@), grant.ports@.len() as int),
        ),
{
    let names = text::views(grant.protocols@);
    if 0 <= k < grant.protocols@.len() && text::trimmed(grant.protocols@[k]@) == "*"@ {
        assert(text::trimmed(names[k]) == "*"@);
    }
    if forall|i: int|
        0 <= i < grant.protocols@.len() ==> text::trimmed((#[trigger] grant.protocols@[i])@)
            != "*"@ {
        assert forall|i: int| 0 <= i < names.len() implies text::trimmed(#[trigger] names[i])
            != "*"@ by {
            assert(names[i] == grant.protocols@[i]@);
        }
    }
}

/// A grant is written with its own sources, destinations and rules; for shells, with its own sources
/// and destinations, for users other than root.
pub proof fn grants_are_written_as_they_are(grant: PolicyGrant)
    ensures
        json::member(grant_tree(grant), "src"@) == Some(
            json::text_array(text::views(grant.sources@)),
        ),
        json::member(grant_tree(grant), "dst"@) == Some(
            json::text_array(text::views(grant.destinations@)),
        ),
        json::member(grant_tree(grant), "ip"@) == Some(json::text_array(grant_rules(grant))),
        json::member(shell_tree(grant), "action"@) == Some(Json::Text("accept"@)),
        json::member(shell_tree(grant), "src"@) == Some(
            json::text_array(text::views(grant.sources@)),
        ),
        json::member(shell_tree(grant), "dst"@) == Some(
            json::text_array(text::views(grant.destinations@)),
        ),
        json::member(shell_tree(grant), "users"@) == Some(
            Json::Array(seq![Json::Text("autogroup:nonroot"@)]),
        ),
{
    reveal_strlit("src");
    reveal_strlit("dst");
    reveal_strlit("ip");
    reveal_strlit("action");
    reveal_strlit("users");
    assert("src"@[0] == 's' && "dst"@[0] == 'd' && "ip"@[0] == 'i');
    assert("action"@[0] == 'a' && "users"@[0] == 'u');
    let plain = grant_tree(grant)->Object_0;
    assert(plain[0].0 == "src"@ && plain[1].0 == "dst"@ && plain[2].0 == "ip"@);
    json::lemma_member(plain, 0);
    json::lemma_member(plain, 1);
    json::lemma_member(plain, 2);
    let shell = shell_tree(grant)->Object_0;
    assert(shell[0].0 == "action"@ && shell[1].0 == "src"@ && shell[2].0 == "dst"@ && shell[3].0
        == "users"@);
    json::lemma_member(shell, 0);
    json::lemma_member(shell, 1);
    json::lemma_member(shell, 2);
    json::lemma_member(shell, 3);
    assert(json::text_array(seq!["autogroup:nonroot"@])->Array_0 =~= seq![
        Json::Text("autogroup:nonroot"@),
    ]);
}

proof fn lemma_picks_grants(grants: Seq<PolicyGrant>, n: int, keep: spec_fn(int) -> bool, value: spec_fn(int) -> Json)
    requires
        forall|i: int|
            0 <= i < n ==> #[trigger] keep(i) == (complete(grants[i])) && value(i) == (grant_tree(grants[i])),
    ensures
        grant_trees(grants, n) == picked::picked(keep, value, n),
    decreases n,
{
    if n > 0 {
        assert(keep(n - 1) || !keep(n - 1));
        lemma_picks_grants(grants, n - 1, keep, value);
    }
}

/// A policy holds the grants that name their workspaces, sources and destinations, and no others.
pub proof fn complete_grants_are_written(grants: Seq<PolicyGrant>)
    ensures
        forall|tree: Json| #[trigger]
            grant_trees(grants, grants.len() as int).contains(tree) <==> exists|i: int|
                0 <= i < grants.len() && text::trimmed((#[trigger] grants[i]).source_tenant@).len() > 0 && text::trimmed(
                    grants[i].target_tenant@,
                ).len() > 0 && grants[i].sources@.len() > 0 && grants[i].destinations@.len() > 0 && tree == grant_tree(grants[i]),
{
    let n = grants.len() as int;
    let keep = |i: int| complete(grants[i]);
    let value = |i: int| grant_tree(grants[i]);
    lemma_picks_grants(grants, n, keep, value);
    assert forall|tree: Json| #[trigger] grant_trees(grants, n).contains(tree) <==> exists|i: int|
        0 <= i < grants.len() && text::trimmed((#[trigger] grants[i]).source_tenant@).len() > 0 && text::trimmed(
                    grants[i].target_tenant@,
                ).len() > 0 && grants[i].sources@.len() > 0 && grants[i].destinations@.len() > 0 && tree == grant_tree(grants[i]) by {
        picked::lemma_picked_contains(keep, value, n, tree);
        if grant_trees(grants, n).contains(tree) {
            let i = choose|i: int| 0 <= i < n && #[trigger] keep(i) && value(i) == tree;
            assert(grants[i] == grants[i]);
        }
        if exists|i: int| 0 <= i < grants.len() && text::trimmed((#[trigger] grants[i]).source_tenant@).len() > 0 && text::trimmed(
                    grants[i].target_tenant@,
                ).len() > 0 && grants[i].sources@.len() > 0 && grants[i].destinations@.len() > 0 && tree == grant_tree(grants[i]) {
            let i = choose|i: int| 0 <= i < grants.len() && text::trimmed((#[trigger] grants[i]).source_tenant@).len() > 0 && text::trimmed(
                    grants[i].target_tenant@,
                ).len() > 0 && grants[i].sources@.len() > 0 && grants[i].destinations@.len() > 0 && tree == grant_tree(grants[i]);
            assert(keep(i) && value(i) == tree);
        }
    }
}

proof fn lemma_picks_shells(grants: Seq<PolicyGrant>, n: int, keep: spec_fn(int) -> bool, value: spec_fn(int) -> Json)
    requires
        forall|i: int|
            0 <= i < n ==> #[trigger] keep(i) == (complete(grants[i]) && grants[i].ssh) && value(i) == (shell_tree(grants[i])),
    ensures
        shell_trees(grants, n) == picked::picked(keep, value, n),
    decreases n,
{
    if n > 0 {
        assert(keep(n - 1) || !keep(n - 1));
        lemma_picks_shells(grants, n - 1, keep, value);
    }
}

/// Shells are allowed for the complete grants that allow them, and for no others.
pub proof fn shells_are_allowed_where_granted(grants: Seq<PolicyGrant>)
    ensures
        forall|tree: Json| #[trigger]
            shell_trees(grants, grants.len() as int).contains(tree) <==> exists|i: int|
                0 <= i < grants.len() && text::trimmed((#[trigger] grants[i]).source_tenant@).len() > 0 && text::trimmed(
                    grants[i].target_tenant@,
                ).len() > 0 && grants[i].sources@.len() > 0 && grants[i].destinations@.len() > 0 && grants[i].ssh && tree == shell_tree(grants[i]),
{
    let n = grants.len() as int;
    let keep = |i: int| complete(grants[i]) && grants[i].ssh;
    let value = |i: int| shell_tree(grants[i]);
    lemma_picks_shells(grants, n, keep, value);
    assert forall|tree: Json| #[trigger] shell_trees(grants, n).contains(tree) <==> exists|i: int|
        0 <= i < grants.len() && text::trimmed((#[trigger] grants[i]).source_tenant@).len() > 0 && text::trimmed(
                    grants[i].target_tenant@,
                ).len() > 0 && grants[i].sources@.len() > 0 && grants[i].destinations@.len() > 0 && grants[i].ssh && tree == shell_tree(grants[i]) by {
        picked::lemma_picked_contains(keep, value, n, tree);
        if shell_trees(grants, n).contains(tree) {
            let i = choose|i: int| 0 <= i < n && #[trigger] keep(i) && value(i) == tree;
            assert(grants[i] == grants[i]);
        }
        if exists|i: int| 0 <= i < grants.len() && text::trimmed((#[trigger] grants[i]).source_tenant@).len() > 0 && text::trimmed(
                    grants[i].target_tenant@,
                ).len() > 0 && grants[i].sources@.len() > 0 && grants[i].destinations@.len() > 0 && grants[i].ssh && tree == shell_tree(grants[i]) {
            let i = choose|i: int| 0 <= i < grants.len() && text::trimmed((#[trigger] grants[i]).source_tenant@).len() > 0 && text::trimmed(
                    grants[i].target_tenant@,
                ).len() > 0 && grants[i].sources@.len() > 0 && grants[i].destinations@.len() > 0 && grants[i].ssh && tree == shell_tree(grants[i]);
            assert(keep(i) && value(i) == tree);
        }
    }
}

} // verus!
