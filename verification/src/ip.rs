//! Internet addresses and their text forms.
use vstd::prelude::*;
use vstd::string::*;

use crate::number;
use crate::number::{decimal_text, hexadecimal_text, read_digits};
use crate::text;
use crate::text::{chars_of, find, split_on, split_once, text_between};

verus! {

/// An address of either family, as the number that its bits write.
#[derive(Clone, Copy, Debug, PartialEq, Eq, Structural)]
pub enum IpAddr {
    V4(u32),
    V6(u128),
}

impl IpAddr {
    /// Whether this is the address with all bits zero.
    pub open spec fn unspecified(self) -> bool {
        match self {
            IpAddr::V4(bits) => bits == 0,
            IpAddr::V6(bits) => bits == 0,
        }
    }

    /// Whether this is an address of 127.0.0.0/8, or ::1.
    pub open spec fn loopback(self) -> bool {
        match self {
            IpAddr::V4(bits) => bits / 0x100_0000 == 127,
            IpAddr::V6(bits) => bits == 1,
        }
    }

    /// Whether this is an address of 224.0.0.0/4 or of ff00::/8.
    pub open spec fn multicast(self) -> bool {
        match self {
            IpAddr::V4(bits) => bits / 0x1000_0000 == 14,
            IpAddr::V6(bits) => bits / 0x100_0000_0000_0000_0000_0000_0000_0000 == 0xff,
        }
    }

    /// Whether this is an address of 169.254.0.0/16 or of fe80::/10.
    pub open spec fn link_local(self) -> bool {
        match self {
            IpAddr::V4(bits) => bits / 0x1_0000 == 0xa9fe,
            IpAddr::V6(bits) => bits / 0x40_0000_0000_0000_0000_0000_0000_0000 == 0x3fa,
        }
    }

    pub fn is_unspecified(&self) -> (r: bool)
        ensures
            r == self.unspecified(),
    {
        match *self {
            IpAddr::V4(bits) => bits == 0,
            IpAddr::V6(bits) => bits == 0,
        }
    }

    pub fn is_loopback(&self) -> (r: bool)
        ensures
            r == self.loopback(),
    {
        match *self {
            IpAddr::V4(bits) => bits / 0x100_0000 == 127,
            IpAddr::V6(bits) => bits == 1,
        }
    }

    pub fn is_multicast(&self) -> (r: bool)
        ensures
            r == self.multicast(),
    {
        match *self {
            IpAddr::V4(bits) => bits / 0x1000_0000 == 14,
            IpAddr::V6(bits) => bits / 0x100_0000_0000_0000_0000_0000_0000_0000 == 0xff,
        }
    }

    pub fn is_link_local(&self) -> (r: bool)
        ensures
            r == self.link_local(),
    {
        match *self {
            IpAddr::V4(bits) => bits / 0x1_0000 == 0xa9fe,
            IpAddr::V6(bits) => bits / 0x40_0000_0000_0000_0000_0000_0000_0000 == 0x3fa,
        }
    }
}

/// An address with a port; for the sixth version, with the number of its scope.
#[derive(Clone, Copy, Debug, PartialEq, Eq, Structural)]
pub struct SocketAddr {
    pub ip: IpAddr,
    pub port: u16,
    pub scope: u32,
}

/// One of the four numbers of a dotted address: one to three digits, no leading zero, at most 255.
pub open spec fn octet(s: Seq<char>) -> Option<nat> {
    if s.len() > 3 || (s.len() > 1 && s[0] == '0') {
        None
    } else {
        number::digits_within(s, 255)
    }
}

/// The number that four dotted octets write.
pub open spec fn octets_value(parts: Seq<Seq<char>>) -> nat
    recommends
        parts.len() == 4,
{
    octet(parts[0])->0 * 0x100_0000 + octet(parts[1])->0 * 0x1_0000 + octet(parts[2])->0 * 0x100
        + octet(parts[3])->0
}

/// The address that a dotted text writes.
pub open spec fn v4_of(s: Seq<char>) -> Option<u32> {
    let parts = text::split(s, '.');
    if parts.len() == 4 && (forall|i: int| 0 <= i < 4 ==> octet(#[trigger] parts[i]) is Some) {
        Some(octets_value(parts) as u32)
    } else {
        None
    }
}

/// The value of a hexadecimal digit of either case.
pub open spec fn hex_digit(c: char) -> Option<int> {
    if '0' <= c <= '9' {
        Some(c as int - 48)
    } else if 'a' <= c <= 'f' {
        Some(c as int - 87)
    } else if 'A' <= c <= 'F' {
        Some(c as int - 55)
    } else {
        None
    }
}

/// The number that hexadecimal digits write.
pub open spec fn hex_value(s: Seq<char>) -> int
    decreases s.len(),
{
    if s.len() == 0 {
        0
    } else {
        hex_value(s.drop_last()) * 16 + hex_digit(s.last())->0
    }
}

/// One of the eight groups of an address: one to four hexadecimal digits.
pub open spec fn group_of(s: Seq<char>) -> Option<u16> {
    if 1 <= s.len() <= 4 && forall|i: int| 0 <= i < s.len() ==> hex_digit(#[trigger] s[i]) is Some {
        Some(hex_value(s) as u16)
    } else {
        None
    }
}

/// The groups that a list of parts writes, one each.
pub open spec fn groups_of(parts: Seq<Seq<char>>) -> Option<Seq<u16>> {
    if forall|i: int| 0 <= i < parts.len() ==> group_of(#[trigger] parts[i]) is Some {
        Some(Seq::new(parts.len(), |i: int| group_of(parts[i])->0))
    } else {
        None
    }
}

/// The parts of a text between colons; none for the empty text.
pub open spec fn colon_parts(s: Seq<char>) -> Seq<Seq<char>> {
    if s.len() == 0 {
        Seq::empty()
    } else {
        text::split(s, ':')
    }
}

/// The groups that a text writes whose last part may be a dotted address, which stands for two.
pub open spec fn groups_with_tail(s: Seq<char>) -> Option<Seq<u16>> {
    let parts = colon_parts(s);
    if parts.len() > 0 && v4_of(parts.last()) is Some {
        match groups_of(parts.drop_last()) {
            Some(head) => {
                let v4 = v4_of(parts.last())->0;
                Some(head.push((v4 / 0x1_0000) as u16).push((v4 % 0x1_0000) as u16))
            },
            None => None,
        }
    } else {
        groups_of(parts)
    }
}

/// The eight groups of the address that a text writes: written out, or with one double colon
/// that stands for at least one group of zero.
pub open spec fn v6_groups(s: Seq<char>) -> Option<Seq<u16>> {
    match text::first_from(s, seq![':', ':'], 0) {
        Some(at) => {
            match (groups_of(colon_parts(s.take(at))), groups_with_tail(s.skip(at + 2))) {
                (Some(head), Some(tail)) => if head.len() + tail.len() <= 7 {
                    Some(head + zeros(8 - head.len() - tail.len()) + tail)
                } else {
                    None
                },
                _ => None,
            }
        },
        None => match groups_with_tail(s) {
            Some(groups) => if groups.len() == 8 {
                Some(groups)
            } else {
                None
            },
            None => None,
        },
    }
}

/// A number of groups of zero.
pub open spec fn zeros(n: int) -> Seq<u16> {
    Seq::new(n as nat, |i: int| 0u16)
}

/// The number that eight groups write.
pub open spec fn bits_of(g: Seq<u16>) -> int
    recommends
        g.len() == 8,
{
    ((((((g[0] * 0x1_0000 + g[1]) * 0x1_0000 + g[2]) * 0x1_0000 + g[3]) * 0x1_0000 + g[4])
        * 0x1_0000 + g[5]) * 0x1_0000 + g[6]) * 0x1_0000 + g[7]
}

/// The address that a text writes in either family.
pub open spec fn ip_of(s: Seq<char>) -> Option<IpAddr> {
    match v4_of(s) {
        Some(bits) => Some(IpAddr::V4(bits)),
        None => match v6_groups(s) {
            Some(groups) => Some(IpAddr::V6(bits_of(groups) as u128)),
            None => None,
        },
    }
}

/// The address and port that a text writes: `1.2.3.4:5`, `[::1]:5` or `[::1%2]:5`.
pub open spec fn socket_of(s: Seq<char>) -> Option<SocketAddr> {
    if s.len() > 0 && s[0] == '[' {
        match text::cut_at(s.skip(1), ']') {
            Some((inner, after)) => {
                let (host, scope) = match text::cut_at(inner, '%') {
                    Some((host, scope)) => (host, number::digits_within(scope, u32::MAX as nat)),
                    None => (inner, Some(0nat)),
                };
                if after.len() == 0 || after[0] != ':' {
                    None
                } else {
                    match (v6_groups(host), scope, number::digits_within(after.skip(1), u16::MAX as nat)) {
                        (Some(groups), Some(scope), Some(port)) => Some(
                            SocketAddr {
                                ip: IpAddr::V6(bits_of(groups) as u128),
                                port: port as u16,
                                scope: scope as u32,
                            },
                        ),
                        _ => None,
                    }
                }
            },
            None => None,
        }
    } else {
        match text::cut_at(s, ':') {
            Some((host, port)) => {
                match (v4_of(host), number::digits_within(port, u16::MAX as nat)) {
                    (Some(bits), Some(port)) => Some(
                        SocketAddr { ip: IpAddr::V4(bits), port: port as u16, scope: 0 },
                    ),
                    _ => None,
                }
            },
            None => None,
        }
    }
}

fn parse_octet(s: &str) -> (r: Option<u32>)
    ensures
        match r {
            Some(n) => octet(s@) == Some(n as nat) && n <= 255,
            None => octet(s@) is None,
        },
{
    let text: Vec<char> = chars_of(s);
    if text.len() > 3 || (text.len() > 1 && text[0] == '0') {
        return None;
    }
    assert(s@.skip(0) =~= s@);
    match read_digits(&text, 0, 255) {
        Some(n) => Some(n as u32),
        None => None,
    }
}

/// The address that a dotted text writes.
pub fn parse_v4(s: &str) -> (r: Option<u32>)
    ensures
        r == v4_of(s@),
{
    let parts: Vec<String> = split_on(s, '.');
    assert(text::views(parts@).len() == parts@.len());
    if parts.len() != 4 {
        return None;
    }
    assert(forall|i: int| 0 <= i < 4 ==> text::views(parts@)[i] == parts@[i]@);
    let ghost all = text::split(s@, '.');
    assert(all[0] == parts@[0]@ && all[1] == parts@[1]@ && all[2] == parts@[2]@ && all[3]
        == parts@[3]@);
    match (
        parse_octet(parts[0].as_str()),
        parse_octet(parts[1].as_str()),
        parse_octet(parts[2].as_str()),
        parse_octet(parts[3].as_str()),
    ) {
        (Some(a), Some(b), Some(c), Some(d)) => {
            Some(a * 0x100_0000 + b * 0x1_0000 + c * 0x100 + d)
        },
        _ => None,
    }
}

fn parse_hex_digit(c: char) -> (r: Option<u16>)
    ensures
        match r {
            Some(n) => hex_digit(c) == Some(n as int) && n < 16,
            None => hex_digit(c) is None,
        },
{
    if '0' <= c && c <= '9' {
        Some((c as u32) as u16 - 48)
    } else if 'a' <= c && c <= 'f' {
        Some((c as u32) as u16 - 87)
    } else if 'A' <= c && c <= 'F' {
        Some((c as u32) as u16 - 55)
    } else {
        None
    }
}

/// The largest number below which four hexadecimal digits stay.
spec fn hex_bound(n: int) -> int {
    if n == 0 {
        1
    } else if n == 1 {
        0x10
    } else if n == 2 {
        0x100
    } else if n == 3 {
        0x1000
    } else {
        0x1_0000
    }
}

fn parse_group(s: &str) -> (r: Option<u16>)
    ensures
        r == group_of(s@),
{
    let text: Vec<char> = chars_of(s);
    if text.len() == 0 || text.len() > 4 {
        return None;
    }
    let mut value: u32 = 0;
    let mut i: usize = 0;
    assert(s@.take(0) =~= Seq::<char>::empty());
    while i < text.len()
        invariant
            i <= text@.len() <= 4,
            text@ == s@,
            forall|j: int| 0 <= j < i ==> hex_digit(#[trigger] s@[j]) is Some,
            value == hex_value(s@.take(i as int)),
            value < hex_bound(i as int),
        decreases text@.len() - i,
    {
        assert(s@.take(i + 1).drop_last() =~= s@.take(i as int));
        match parse_hex_digit(text[i]) {
            Some(d) => {
                value = value * 16 + d as u32;
            },
            None => {
                assert(hex_digit(s@[i as int]) is None);
                return None;
            },
        }
        i = i + 1;
    }
    assert(s@.take(i as int) =~= s@);
    Some(value as u16)
}

fn parse_parts(parts: &Vec<String>, upto: usize) -> (r: Option<Vec<u16>>)
    requires
        upto <= parts@.len(),
    ensures
        match r {
            Some(groups) => groups_of(text::views(parts@).take(upto as int)) == Some(groups@),
            None => groups_of(text::views(parts@).take(upto as int)) is None,
        },
{
    let ghost all = text::views(parts@).take(upto as int);
    let mut groups: Vec<u16> = Vec::new();
    let mut i: usize = 0;
    while i < upto
        invariant
            i <= upto <= parts@.len(),
            all == text::views(parts@).take(upto as int),
            groups@.len() == i,
            forall|j: int|
                0 <= j < i ==> group_of(#[trigger] all[j]) is Some && groups@[j] == group_of(
                    all[j],
                )->0,
        decreases upto - i,
    {
        assert(all[i as int] == parts@[i as int]@);
        match parse_group(parts[i].as_str()) {
            Some(group) => {
                groups.push(group);
            },
            None => {
                assert(group_of(all[i as int]) is None);
                return None;
            },
        }
        i = i + 1;
    }
    assert(groups@ =~= Seq::new(all.len(), |j: int| group_of(all[j])->0));
    Some(groups)
}

fn parts_of(s: &str) -> (r: Vec<String>)
    ensures
        text::views(r@) == colon_parts(s@),
{
    if s.is_empty() {
        let r: Vec<String> = Vec::new();
        assert(text::views(r@) =~= Seq::empty());
        r
    } else {
        split_on(s, ':')
    }
}

fn parse_groups(s: &str, dotted: bool) -> (r: Option<Vec<u16>>)
    ensures
        match r {
            Some(groups) => (if dotted {
                groups_with_tail(s@)
            } else {
                groups_of(colon_parts(s@))
            }) == Some(groups@),
            None => (if dotted {
                groups_with_tail(s@)
            } else {
                groups_of(colon_parts(s@))
            }) is None,
        },
{
    let parts: Vec<String> = parts_of(s);
    let n: usize = parts.len();
    let ghost all = text::views(parts@);
    assert(all.len() == n);
    assert(all.take(n as int) =~= all);
    if dotted && n > 0 {
        assert(all.last() == parts@[n - 1]@);
        assert(all.take(n - 1) =~= all.drop_last());
        if let Some(v4) = parse_v4(parts[n - 1].as_str()) {
            match parse_parts(&parts, n - 1) {
                Some(mut groups) => {
                    groups.push((v4 / 0x1_0000) as u16);
                    groups.push((v4 % 0x1_0000) as u16);
                    return Some(groups);
                },
                None => {
                    return None;
                },
            }
        }
    }
    parse_parts(&parts, n)
}

/// The eight groups of the address that a text writes.
pub fn parse_v6(s: &str) -> (r: Option<Vec<u16>>)
    ensures
        match r {
            Some(groups) => v6_groups(s@) == Some(groups@) && groups@.len() == 8,
            None => v6_groups(s@) is None,
        },
{
    let text: Vec<char> = chars_of(s);
    let mut gap: Vec<char> = Vec::new();
    gap.push(':');
    gap.push(':');
    assert(gap@ =~= seq![':', ':']);
    match find(&text, &gap) {
        Some(at) => {
            proof {
                text::lemma_first_from(s@, seq![':', ':'], 0);
                assert(s@.subrange(0, at as int) =~= s@.take(at as int));
                assert(s@.subrange(at + 2, s@.len() as int) =~= s@.skip(at + 2));
            }
            let end: usize = text.len();
            assert(at + 2 <= end);
            let head: String = text_between(&text, 0, at);
            let tail: String = text_between(&text, at + 2, end);
            match (parse_groups(head.as_str(), false), parse_groups(tail.as_str(), true)) {
                (Some(mut groups), Some(mut rest)) => {
                    if groups.len() > 7 || rest.len() > 7 - groups.len() {
                        return None;
                    }
                    let ghost first = groups@;
                    let ghost last = rest@;
                    while groups.len() < 8 - rest.len()
                        invariant
                            rest@ == last,
                            rest@.len() <= 7,
                            first.len() <= groups@.len() <= 8 - last.len(),
                            groups@ == first + zeros(groups@.len() - first.len()),
                        decreases 8 - groups@.len(),
                    {
                        groups.push(0);
                        assert(groups@ =~= first + zeros(groups@.len() - first.len()));
                    }
                    groups.append(&mut rest);
                    assert(groups@ =~= first + zeros(8 - first.len() - last.len()) + last);
                    Some(groups)
                },
                _ => None,
            }
        },
        None => {
            match parse_groups(s, true) {
                Some(groups) => if groups.len() == 8 {
                    Some(groups)
                } else {
                    None
                },
                None => None,
            }
        },
    }
}

fn bits_from(g: &Vec<u16>) -> (r: u128)
    requires
        g@.len() == 8,
    ensures
        r == bits_of(g@),
        r == bits_of(g@) as u128,
{
    let a: u128 = g[0] as u128 * 0x1_0000 + g[1] as u128;
    let b: u128 = a * 0x1_0000 + g[2] as u128;
    let c: u128 = b * 0x1_0000 + g[3] as u128;
    let d: u128 = c * 0x1_0000 + g[4] as u128;
    let e: u128 = d * 0x1_0000 + g[5] as u128;
    let f: u128 = e * 0x1_0000 + g[6] as u128;
    f * 0x1_0000 + g[7] as u128
}

/// The address that a text writes in either family.
pub fn parse_ip(s: &str) -> (r: Option<IpAddr>)
    ensures
        r == ip_of(s@),
{
    match parse_v4(s) {
        Some(bits) => Some(IpAddr::V4(bits)),
        None => match parse_v6(s) {
            Some(groups) => Some(IpAddr::V6(bits_from(&groups))),
            None => None,
        },
    }
}

fn digits_of(s: &str, max: u64) -> (r: Option<u64>)
    ensures
        match r {
            Some(n) => number::digits_within(s@, max as nat) == Some(n as nat) && n <= max,
            None => number::digits_within(s@, max as nat) is None,
        },
{
    let text: Vec<char> = chars_of(s);
    assert(s@.skip(0) =~= s@);
    read_digits(&text, 0, max)
}

/// The address and port that a text writes.
pub fn parse_socket(s: &str) -> (r: Option<SocketAddr>)
    ensures
        r == socket_of(s@),
{
    let text: Vec<char> = chars_of(s);
    if text.len() > 0 && text[0] == '[' {
        let rest: String = text_between(&text, 1, text.len());
        assert(s@.subrange(1, s@.len() as int) =~= s@.skip(1));
        let (inner, after) = match split_once(rest.as_str(), ']') {
            Some(sides) => sides,
            None => {
                return None;
            },
        };
        let tail: Vec<char> = chars_of(after.as_str());
        if tail.len() == 0 || tail[0] != ':' {
            return None;
        }
        let port_text: String = text_between(&tail, 1, tail.len());
        assert(after@.subrange(1, after@.len() as int) =~= after@.skip(1));
        let (host, scope): (String, Option<u64>) = match split_once(inner.as_str(), '%') {
            Some((host, scope)) => (host, digits_of(scope.as_str(), u32::MAX as u64)),
            None => (inner, Some(0)),
        };
        match (parse_v6(host.as_str()), scope, digits_of(port_text.as_str(), u16::MAX as u64)) {
            (Some(groups), Some(scope), Some(port)) => Some(
                SocketAddr {
                    ip: IpAddr::V6(bits_from(&groups)),
                    port: port as u16,
                    scope: scope as u32,
                },
            ),
            _ => None,
        }
    } else {
        match split_once(s, ':') {
            Some((host, port)) => {
                match (parse_v4(host.as_str()), digits_of(port.as_str(), u16::MAX as u64)) {
                    (Some(bits), Some(port)) => Some(
                        SocketAddr { ip: IpAddr::V4(bits), port: port as u16, scope: 0 },
                    ),
                    _ => None,
                }
            },
            None => None,
        }
    }
}

/// A dotted address.
pub open spec fn v4_text(bits: u32) -> Seq<char> {
    number::decimal((bits / 0x100_0000) as nat) + seq!['.'] + number::decimal(((bits / 0x1_0000) % 0x100) as nat)
        + seq!['.'] + number::decimal(((bits / 0x100) % 0x100) as nat) + seq!['.'] + number::decimal(
        (bits % 0x100) as nat,
    )
}

/// The eight groups of an address.
pub open spec fn groups(bits: u128) -> Seq<u16> {
    seq![
        (bits / 0x1_0000_0000_0000_0000_0000_0000_0000 % 0x1_0000) as u16,
        (bits / 0x1_0000_0000_0000_0000_0000_0000 % 0x1_0000) as u16,
        (bits / 0x1_0000_0000_0000_0000_0000 % 0x1_0000) as u16,
        (bits / 0x1_0000_0000_0000_0000 % 0x1_0000) as u16,
        (bits / 0x1_0000_0000_0000 % 0x1_0000) as u16,
        (bits / 0x1_0000_0000 % 0x1_0000) as u16,
        (bits / 0x1_0000 % 0x1_0000) as u16,
        (bits % 0x1_0000) as u16,
    ]
}

/// The number of groups of zero from position `i` on.
pub open spec fn run(g: Seq<u16>, i: int) -> int
    decreases g.len() - i,
{
    if 0 <= i < g.len() && g[i] == 0 {
        1 + run(g, i + 1)
    } else {
        0
    }
}

/// The first longest run of groups of zero from position `i` on: its start and its length.
pub open spec fn longest(g: Seq<u16>, i: int) -> (int, int)
    decreases g.len() - i,
{
    if i >= g.len() {
        (0, 0)
    } else {
        let (start, len) = longest(g, i + 1);
        if run(g, i) > 0 && run(g, i) >= len {
            (i, run(g, i))
        } else {
            (start, len)
        }
    }
}

/// Groups in hexadecimal digits between colons.
pub open spec fn groups_text(g: Seq<u16>) -> Seq<char>
    decreases g.len(),
{
    if g.len() == 0 {
        Seq::empty()
    } else if g.len() == 1 {
        number::hexadecimal(g[0] as nat)
    } else {
        groups_text(g.drop_last()) + seq![':'] + number::hexadecimal(g.last() as nat)
    }
}

/// An address of the sixth version in its canonical text: a mapped address dotted, the first
/// longest run of two or more groups of zero as a double colon.
pub open spec fn v6_text(bits: u128) -> Seq<char> {
    let g = groups(bits);
    if g.take(5) == zeros(5) && g[5] == 0xffff {
        seq![':', ':', 'f', 'f', 'f', 'f', ':'] + v4_text((bits % 0x1_0000_0000) as u32)
    } else {
        let (start, len) = longest(g, 0);
        if len > 1 {
            groups_text(g.take(start)) + seq![':', ':'] + groups_text(g.skip(start + len))
        } else {
            groups_text(g)
        }
    }
}

/// An address in its canonical text.
pub open spec fn ip_text(ip: IpAddr) -> Seq<char> {
    match ip {
        IpAddr::V4(bits) => v4_text(bits),
        IpAddr::V6(bits) => v6_text(bits),
    }
}

/// An address with its port in its canonical text.
pub open spec fn socket_text(socket: SocketAddr) -> Seq<char> {
    match socket.ip {
        IpAddr::V4(bits) => v4_text(bits) + seq![':'] + number::decimal(socket.port as nat),
        IpAddr::V6(bits) => if socket.scope == 0 {
            seq!['['] + v6_text(bits) + seq![']', ':'] + number::decimal(socket.port as nat)
        } else {
            seq!['['] + v6_text(bits) + seq!['%'] + number::decimal(socket.scope as nat) + seq![']', ':']
                + number::decimal(socket.port as nat)
        },
    }
}

fn format_v4(bits: u32) -> (r: String)
    ensures
        r@ == v4_text(bits),
{
    let mut r: String = decimal_text((bits / 0x100_0000) as u64);
    r.push('.');
    r.append(decimal_text(((bits / 0x1_0000) % 0x100) as u64).as_str());
    r.push('.');
    r.append(decimal_text(((bits / 0x100) % 0x100) as u64).as_str());
    r.push('.');
    r.append(decimal_text((bits % 0x100) as u64).as_str());
    assert(r@ =~= v4_text(bits));
    r
}

fn groups_from(bits: u128) -> (r: Vec<u16>)
    ensures
        r@ == groups(bits),
{
    let mut r: Vec<u16> = Vec::new();
    r.push((bits / 0x1_0000_0000_0000_0000_0000_0000_0000 % 0x1_0000) as u16);
    r.push((bits / 0x1_0000_0000_0000_0000_0000_0000 % 0x1_0000) as u16);
    r.push((bits / 0x1_0000_0000_0000_0000_0000 % 0x1_0000) as u16);
    r.push((bits / 0x1_0000_0000_0000_0000 % 0x1_0000) as u16);
    r.push((bits / 0x1_0000_0000_0000 % 0x1_0000) as u16);
    r.push((bits / 0x1_0000_0000 % 0x1_0000) as u16);
    r.push((bits / 0x1_0000 % 0x1_0000) as u16);
    r.push((bits % 0x1_0000) as u16);
    assert(r@ =~= groups(bits));
    r
}

fn format_groups(g: &Vec<u16>, from: usize, to: usize) -> (r: String)
    requires
        from <= to <= g@.len(),
    ensures
        r@ == groups_text(g@.subrange(from as int, to as int)),
{
    let mut r: String = String::new();
    let mut i: usize = from;
    assert(g@.subrange(from as int, from as int) =~= Seq::empty());
    while i < to
        invariant
            from <= i <= to <= g@.len(),
            r@ == groups_text(g@.subrange(from as int, i as int)),
        decreases to - i,
    {
        let ghost before = r@;
        if i > from {
            r.push(':');
        }
        r.append(hexadecimal_text(g[i] as u64).as_str());
        proof {
            let all = g@.subrange(from as int, i + 1);
            assert(all.drop_last() =~= g@.subrange(from as int, i as int));
            assert(all.last() == g@[i as int]);
            if i > from {
                assert(r@ =~= before + seq![':'] + number::hexadecimal(g@[i as int] as nat));
            } else {
                assert(r@ =~= number::hexadecimal(g@[i as int] as nat));
            }
        }
        i = i + 1;
    }
    r
}

fn run_from(g: &Vec<u16>, i: usize) -> (r: usize)
    requires
        i <= g@.len(),
    ensures
        r == run(g@, i as int),
        i + r <= g@.len(),
    decreases g@.len() - i,
{
    if i < g.len() && g[i] == 0 {
        1 + run_from(g, i + 1)
    } else {
        0
    }
}

fn longest_from(g: &Vec<u16>, i: usize) -> (r: (usize, usize))
    requires
        i <= g@.len(),
    ensures
        (r.0 as int, r.1 as int) == longest(g@, i as int),
        r.0 + r.1 <= g@.len(),
    decreases g@.len() - i,
{
    if i >= g.len() {
        (0, 0)
    } else {
        let (start, len): (usize, usize) = longest_from(g, i + 1);
        let here: usize = run_from(g, i);
        if here > 0 && here >= len {
            (i, here)
        } else {
            (start, len)
        }
    }
}

fn format_v6(bits: u128) -> (r: String)
    ensures
        r@ == v6_text(bits),
{
    let g: Vec<u16> = groups_from(bits);
    if g[0] == 0 && g[1] == 0 && g[2] == 0 && g[3] == 0 && g[4] == 0 && g[5] == 0xffff {
        assert(g@.take(5) =~= zeros(5));
        let mut r: String = String::new();
        r.push(':');
        r.push(':');
        r.push('f');
        r.push('f');
        r.push('f');
        r.push('f');
        r.push(':');
        r.append(format_v4((bits % 0x1_0000_0000) as u32).as_str());
        assert(r@ =~= v6_text(bits));
        return r;
    }
    assert(g@.take(5) == zeros(5) ==> g@[0] == 0 && g@[1] == 0 && g@[2] == 0 && g@[3] == 0 && g@[4]
        == 0) by {
        assert(g@.take(5)[0] == g@[0] && g@.take(5)[1] == g@[1] && g@.take(5)[2] == g@[2]
            && g@.take(5)[3] == g@[3] && g@.take(5)[4] == g@[4]);
    }
    let (start, len): (usize, usize) = longest_from(&g, 0);
    if len > 1 {
        let mut r: String = format_groups(&g, 0, start);
        r.push(':');
        r.push(':');
        r.append(format_groups(&g, start + len, 8).as_str());
        assert(g@.subrange(0, start as int) =~= g@.take(start as int));
        assert(g@.subrange(start + len, 8) =~= g@.skip(start + len));
        assert(r@ =~= v6_text(bits));
        r
    } else {
        assert(g@.subrange(0, 8) =~= g@);
        format_groups(&g, 0, 8)
    }
}

/// An address in its canonical text.
pub fn format_ip(ip: &IpAddr) -> (r: String)
    ensures
        r@ == ip_text(*ip),
{
    match *ip {
        IpAddr::V4(bits) => format_v4(bits),
        IpAddr::V6(bits) => format_v6(bits),
    }
}

/// An address with its port in its canonical text.
pub fn format_socket(socket: &SocketAddr) -> (r: String)
    ensures
        r@ == socket_text(*socket),
{
    match socket.ip {
        IpAddr::V4(bits) => {
            let mut r: String = format_v4(bits);
            r.push(':');
            r.append(decimal_text(socket.port as u64).as_str());
            assert(r@ =~= socket_text(*socket));
            r
        },
        IpAddr::V6(bits) => {
            let mut r: String = String::new();
            r.push('[');
            r.append(format_v6(bits).as_str());
            if socket.scope != 0 {
                r.push('%');
                r.append(decimal_text(socket.scope as u64).as_str());
            }
            r.push(']');
            r.push(':');
            r.append(decimal_text(socket.port as u64).as_str());
            assert(r@ =~= socket_text(*socket));
            r
        },
    }
}

/// The kinds of addresses are ranges: loopback, multicast and link-local addresses are those of their
/// own networks, and the unspecified one is the first of all.
pub proof fn kinds_of_addresses_are_ranges(four: u32, six: u128)
    ensures
        IpAddr::V4(four).loopback() <==> 0x7f00_0000 <= four <= 0x7fff_ffff,
        IpAddr::V4(four).multicast() <==> 0xe000_0000 <= four <= 0xefff_ffff,
        IpAddr::V4(four).link_local() <==> 0xa9fe_0000 <= four <= 0xa9fe_ffff,
        IpAddr::V4(four).unspecified() <==> four == 0,
        IpAddr::V6(six).loopback() <==> six == 1,
        IpAddr::V6(six).multicast() <==> six >= 0xff00_0000_0000_0000_0000_0000_0000_0000,
        IpAddr::V6(six).link_local() <==> 0xfe80_0000_0000_0000_0000_0000_0000_0000 <= six
            <= 0xfebf_ffff_ffff_ffff_ffff_ffff_ffff_ffff,
        IpAddr::V6(six).unspecified() <==> six == 0,
{
}

proof fn lemma_octet(n: nat)
    requires
        n < 256,
    ensures
        octet(number::decimal(n)) == Some(n),
        !number::decimal(n).contains('.'),
        !number::decimal(n).contains(':'),
        !number::decimal(n).contains(']'),
        !number::decimal(n).contains('%'),
{
    number::numbers_read_back(n);
    number::numbers_are_read_within_their_bound(n, 255, number::decimal(n));
    lemma_decimal_marks(n);
}

proof fn lemma_decimal_marks(n: nat)
    ensures
        !number::decimal(n).contains('.'),
        !number::decimal(n).contains(':'),
        !number::decimal(n).contains(']'),
        !number::decimal(n).contains('%'),
{
    number::numbers_read_back(n);
    let d = number::decimal(n);
    assert forall|i: int| 0 <= i < d.len() implies d[i] != '.' && d[i] != ':' && d[i] != ']'
        && d[i] != '%' by {
        assert(number::is_digit(d[i]));
    }
}

/// An address of four octets reads back as it was written.
pub proof fn addresses_of_four_octets_read_back(bits: u32)
    ensures
        v4_of(v4_text(bits)) == Some(bits),
        ip_of(ip_text(IpAddr::V4(bits))) == Some(IpAddr::V4(bits)),
{
    let a = (bits / 0x100_0000) as nat;
    let b = ((bits / 0x1_0000) % 0x100) as nat;
    let c = ((bits / 0x100) % 0x100) as nat;
    let d = (bits % 0x100) as nat;
    lemma_octet(a);
    lemma_octet(b);
    lemma_octet(c);
    lemma_octet(d);
    let one = number::decimal(a);
    let two = one + seq!['.'] + number::decimal(b);
    let three = two + seq!['.'] + number::decimal(c);
    text::texts_without_a_separator_are_one_part(one, '.');
    text::parts_are_split_off(one, '.', number::decimal(b));
    text::parts_are_split_off(two, '.', number::decimal(c));
    text::parts_are_split_off(three, '.', number::decimal(d));
    let parts = text::split(v4_text(bits), '.');
    assert(parts == seq![one].push(number::decimal(b)).push(number::decimal(c)).push(
        number::decimal(d),
    ));
    assert(parts.len() == 4);
    assert(parts[0] == one && parts[1] == number::decimal(b) && parts[2] == number::decimal(c)
        && parts[3] == number::decimal(d));
    assert(octets_value(parts) == a * 0x100_0000 + b * 0x1_0000 + c * 0x100 + d);
    assert(a * 0x100_0000 + b * 0x1_0000 + c * 0x100 + d == bits);
}

/// An address of four octets with a port reads back as it was written.
pub proof fn sockets_of_four_octets_read_back(bits: u32, port: u16)
    ensures
        socket_of(socket_text(SocketAddr { ip: IpAddr::V4(bits), port, scope: 0 })) == Some(
            SocketAddr { ip: IpAddr::V4(bits), port, scope: 0 },
        ),
{
    addresses_of_four_octets_read_back(bits);
    let host = v4_text(bits);
    let tail = number::decimal(port as nat);
    let all = host + seq![':'] + tail;
    lemma_octet((bits / 0x100_0000) as nat);
    lemma_octet(((bits / 0x1_0000) % 0x100) as nat);
    lemma_octet(((bits / 0x100) % 0x100) as nat);
    lemma_octet((bits % 0x100) as nat);
    lemma_no_colon(host, bits);
    number::numbers_are_read_within_their_bound(port as nat, u16::MAX as nat, tail);
    text::lemma_position(all, ':', host.len() as int);
    assert(all[host.len() as int] == ':');
    assert(all.contains(':'));
    assert(all.take(host.len() as int) =~= host);
    assert(all.skip(host.len() as int + 1) =~= tail);
    number::numbers_read_back((bits / 0x100_0000) as nat);
    let first = number::decimal((bits / 0x100_0000) as nat);
    assert(number::is_digit(first[0]));
    assert(all[0] == first[0]);
}

proof fn lemma_no_colon(host: Seq<char>, bits: u32)
    requires
        host == v4_text(bits),
    ensures
        forall|j: int| 0 <= j < host.len() ==> host[j] != ':',
{
    let a = number::decimal((bits / 0x100_0000) as nat);
    let b = number::decimal(((bits / 0x1_0000) % 0x100) as nat);
    let c = number::decimal(((bits / 0x100) % 0x100) as nat);
    let d = number::decimal((bits % 0x100) as nat);
    lemma_octet((bits / 0x100_0000) as nat);
    lemma_octet(((bits / 0x1_0000) % 0x100) as nat);
    lemma_octet(((bits / 0x100) % 0x100) as nat);
    lemma_octet((bits % 0x100) as nat);
    assert forall|j: int| 0 <= j < host.len() implies host[j] != ':' by {
        let x = a.len() as int;
        let y = x + 1 + b.len();
        let z = y + 1 + c.len();
        if j < x {
            assert(host[j] == a[j]);
        } else if j == x || j == y || j == z {
            assert(host[j] == '.');
        } else if j < y {
            assert(host[j] == b[j - x - 1]);
        } else if j < z {
            assert(host[j] == c[j - y - 1]);
        } else {
            assert(host[j] == d[j - z - 1]);
        }
    }
}

/// A group of hexadecimal digits reads back as its number.
pub proof fn groups_read_back(n: nat)
    ensures
        hex_value(number::hexadecimal(n)) == n,
        forall|i: int|
            0 <= i < number::hexadecimal(n).len() ==> hex_digit(
                #[trigger] number::hexadecimal(n)[i],
            ) is Some,
        number::hexadecimal(n).len() >= 1,
        n < 0x10 ==> number::hexadecimal(n).len() == 1,
        n < 0x100 ==> number::hexadecimal(n).len() <= 2,
        n < 0x1000 ==> number::hexadecimal(n).len() <= 3,
        n < 0x1_0000 ==> number::hexadecimal(n).len() <= 4,
        n < 0x1_0000 ==> group_of(number::hexadecimal(n)) == Some(n as u16),
    decreases n,
{
    let h = number::hexadecimal(n);
    if n >= 16 {
        groups_read_back(n / 16);
        let before = number::hexadecimal(n / 16);
        assert(h.drop_last() =~= before);
        assert forall|i: int| 0 <= i < h.len() implies hex_digit(#[trigger] h[i]) is Some by {
            if i < before.len() {
                assert(h[i] == before[i]);
            }
        }
    } else {
        assert(h.drop_last() =~= Seq::<char>::empty());
        assert(hex_value(h.drop_last()) == 0);
    }
}

/// The eight groups of an address hold its bits.
pub proof fn eight_groups_hold_the_bits(bits: u128)
    ensures
        groups(bits).len() == 8,
        bits_of(groups(bits)) == bits,
{
    let a = bits / 0x1_0000;
    let b = a / 0x1_0000;
    let c = b / 0x1_0000;
    let d = c / 0x1_0000;
    let e = d / 0x1_0000;
    let f = e / 0x1_0000;
    let g = f / 0x1_0000;
    assert(bits / 0x1_0000_0000 == b);
    assert(bits / 0x1_0000_0000_0000 == c);
    assert(bits / 0x1_0000_0000_0000_0000 == d);
    assert(bits / 0x1_0000_0000_0000_0000_0000 == e);
    assert(bits / 0x1_0000_0000_0000_0000_0000_0000 == f);
    assert(bits / 0x1_0000_0000_0000_0000_0000_0000_0000 == g);
    assert(g < 0x1_0000);
    let s = groups(bits);
    assert(s[0] == g && s[1] == f % 0x1_0000 && s[2] == e % 0x1_0000 && s[3] == d % 0x1_0000 && s[4]
        == c % 0x1_0000 && s[5] == b % 0x1_0000 && s[6] == a % 0x1_0000 && s[7] == bits
        % 0x1_0000);
    assert(g * 0x1_0000 + s[1] == f);
    assert(f * 0x1_0000 + s[2] == e);
    assert(e * 0x1_0000 + s[3] == d);
    assert(d * 0x1_0000 + s[4] == c);
    assert(c * 0x1_0000 + s[5] == b);
    assert(b * 0x1_0000 + s[6] == a);
    assert(a * 0x1_0000 + s[7] == bits);
}

proof fn lemma_run(g: Seq<u16>, i: int)
    requires
        0 <= i <= g.len(),
    ensures
        0 <= run(g, i) <= g.len() - i,
        forall|k: int| i <= k < i + run(g, i) ==> #[trigger] g[k] == 0,
        i + run(g, i) < g.len() ==> g[i + run(g, i)] != 0,
    decreases g.len() - i,
{
    if i < g.len() && g[i] == 0 {
        lemma_run(g, i + 1);
    }
}

/// The run of zeros that a short text leaves out is the longest one, and of several the first.
pub proof fn the_longest_run_is_left_out(g: Seq<u16>, i: int)
    requires
        0 <= i <= g.len(),
    ensures
        ({
            let found = longest(g, i);
            &&& found.1 >= 0
            &&& found.1 > 0 ==> i <= found.0 && found.0 + found.1 <= g.len() && found.1 == run(
                g,
                found.0,
            )
            &&& forall|k: int| i <= k < g.len() ==> #[trigger] run(g, k) <= found.1
            &&& found.1 > 0 ==> forall|k: int| i <= k < found.0 ==> #[trigger] run(g, k) < found.1
        }),
    decreases g.len() - i,
{
    if i < g.len() {
        the_longest_run_is_left_out(g, i + 1);
        lemma_run(g, i);
    }
}

/// An address with a port is written with the port behind a colon; one of eight groups stands in
/// brackets.
pub proof fn sockets_are_written_with_their_port(socket: SocketAddr)
    ensures
        text::has_suffix(socket_text(socket), seq![':'] + number::decimal(socket.port as nat)),
        socket.ip is V6 ==> socket_text(socket)[0] == '[',
{
    let tail = seq![':'] + number::decimal(socket.port as nat);
    let all = socket_text(socket);
    assert(all.skip(all.len() - tail.len()) =~= tail);
}

} // verus!
