//! Networks that a device publishes, and the checks before one is published.
use vstd::arithmetic::power2::{lemma2_to64, lemma_pow2_adds, lemma_pow2_pos, pow2};
use vstd::prelude::*;
use vstd::string::*;

use crate::ip;
use crate::ip::{format_ip, IpAddr};
use crate::number;
use crate::number::decimal_text;

verus! {

/// An address and the number of its leading bits that name a network.
#[derive(Clone, Copy, Debug, PartialEq, Eq, Structural)]
pub struct IpNet {
    pub addr: IpAddr,
    pub prefix_len: u8,
}

/// A text that is no address with a prefix length.
#[derive(Clone, Copy, Debug, PartialEq, Eq, Structural)]
pub struct PrefixError;

/// Why a network may not be published.
#[derive(Clone, Copy, Debug, PartialEq, Eq, Structural)]
pub enum NetworkError {
    Unspecified,
    DefaultRoute,
    LocalOnly,
    Multicast,
    OverlayNetwork,
}

/// The network that a text such as `192.168.10.0/24` writes.
pub uninterp spec fn ip_net_of(text: Seq<char>) -> Option<IpNet>;

/// `ipnet::IpNet::from_str`: the address and the prefix length of a text in either family. The
/// prefix length is at most 32 or 128. Which texts it accepts is left to the outside parser.
#[verifier::external_body]
fn parse_ip_net(text: &str) -> (r: Option<IpNet>)
    ensures
        r == ip_net_of(text@),
        r matches Some(net) ==> net.valid(),
{
    match text.parse::<ipnet::IpNet>() {
        Ok(ipnet::IpNet::V4(net)) => Some(
            IpNet { addr: IpAddr::V4(u32::from(net.addr())), prefix_len: net.prefix_len() },
        ),
        Ok(ipnet::IpNet::V6(net)) => Some(
            IpNet { addr: IpAddr::V6(u128::from(net.addr())), prefix_len: net.prefix_len() },
        ),
        Err(_) => None,
    }
}

/// The number of addresses that share the leading `len` bits of `width`.
pub open spec fn block(width: int, len: int) -> int {
    pow2((width - len) as nat) as int
}

impl IpNet {
    /// The number of bits of an address of this family.
    pub open spec fn width(self) -> int {
        match self.addr {
            IpAddr::V4(_) => 32,
            IpAddr::V6(_) => 128,
        }
    }

    /// The bits of the address.
    pub open spec fn bits(self) -> int {
        match self.addr {
            IpAddr::V4(bits) => bits as int,
            IpAddr::V6(bits) => bits as int,
        }
    }

    /// Whether the prefix length fits the family.
    pub open spec fn valid(self) -> bool {
        self.prefix_len <= self.width()
    }

    /// Whether this network and another are of one family.
    pub open spec fn same_family(self, other: IpNet) -> bool {
        self.width() == other.width()
    }

    /// Whether the address with the given bits, of this family, belongs to the network.
    pub open spec fn covers(self, bits: int) -> bool {
        bits / block(self.width(), self.prefix_len as int) == self.bits() / block(
            self.width(),
            self.prefix_len as int,
        )
    }

    /// The bits of the first address of the network.
    pub open spec fn first(self) -> int {
        self.bits() - self.bits() % block(self.width(), self.prefix_len as int)
    }

    /// The first address of the network.
    pub open spec fn first_addr(self) -> IpAddr {
        match self.addr {
            IpAddr::V4(_) => IpAddr::V4(self.first() as u32),
            IpAddr::V6(_) => IpAddr::V6(self.first() as u128),
        }
    }

    /// Whether the two networks are of one family and one holds the first address of the other.
    pub open spec fn overlaps(self, other: IpNet) -> bool {
        self.same_family(other) && (self.covers(other.first()) || other.covers(self.first()))
    }

    /// Reads an address with a prefix length.
    pub fn from_str(text: &str) -> (r: Result<IpNet, PrefixError>)
        ensures
            match r {
                Ok(net) => ip_net_of(text@) == Some(net) && net.valid(),
                Err(_) => ip_net_of(text@) is None,
            },
    {
        match parse_ip_net(text) {
            Some(net) => Ok(net),
            None => Err(PrefixError),
        }
    }

    /// The first address of the network.
    pub fn network(&self) -> (r: IpAddr)
        requires
            self.valid(),
        ensures
            r == self.first_addr(),
    {
        proof {
            lemma_block(*self);
        }
        match self.addr {
            IpAddr::V4(bits) => {
                if self.prefix_len == 0 {
                    IpAddr::V4(0)
                } else {
                    let size: u32 = block4(self.prefix_len);
                    IpAddr::V4(bits - bits % size)
                }
            },
            IpAddr::V6(bits) => {
                if self.prefix_len == 0 {
                    IpAddr::V6(0)
                } else {
                    let size: u128 = block6(self.prefix_len);
                    IpAddr::V6(bits - bits % size)
                }
            },
        }
    }

    /// The network under its first address.
    pub fn trunc(&self) -> (r: IpNet)
        requires
            self.valid(),
        ensures
            r.addr == self.first_addr(),
            r.prefix_len == self.prefix_len,
            r.valid(),
    {
        IpNet { addr: self.network(), prefix_len: self.prefix_len }
    }

    /// The network as text: the address, a slash and the prefix length.
    pub open spec fn text(self) -> Seq<char> {
        ip::ip_text(self.addr) + seq!['/'] + number::decimal(self.prefix_len as nat)
    }

    /// The network as text: the address, a slash and the prefix length.
    pub fn format(&self) -> (r: String)
        ensures
            r@ == self.text(),
    {
        let mut r: String = format_ip(&self.addr);
        r.push('/');
        r.append(decimal_text(self.prefix_len as u64).as_str());
        assert(r@ =~= self.text());
        r
    }

    /// Whether an address of this family belongs to the network.
    fn contains_bits(&self, bits: u128) -> (r: bool)
        requires
            self.valid(),
            self.addr is V4 ==> bits <= u32::MAX,
        ensures
            r == self.covers(bits as int),
    {
        proof {
            lemma_block(*self);
        }
        if self.prefix_len == 0 {
            proof {
                lemma_whole(bits as int, self.width());
                lemma_whole(self.bits(), self.width());
            }
            return true;
        }
        match self.addr {
            IpAddr::V4(own) => {
                let size: u32 = block4(self.prefix_len);
                bits as u32 / size == own / size
            },
            IpAddr::V6(own) => {
                let size: u128 = block6(self.prefix_len);
                bits / size == own / size
            },
        }
    }
}

/// The sizes of blocks: at least one, and at most the whole family.
proof fn lemma_block(net: IpNet)
    requires
        net.valid(),
    ensures
        block(net.width(), net.prefix_len as int) > 0,
        net.prefix_len == 0 ==> net.bits() % block(net.width(), 0) == net.bits(),
        0 <= net.first() <= net.bits(),
{
    let b = block(net.width(), net.prefix_len as int);
    lemma_pow2_pos((net.width() - net.prefix_len) as nat);
    if net.prefix_len == 0 {
        lemma_family_size();
        vstd::arithmetic::div_mod::lemma_small_mod(net.bits() as nat, b as nat);
    }
    vstd::arithmetic::div_mod::lemma_mod_bound(net.bits(), b);
    vstd::arithmetic::div_mod::lemma_mod_decreases(net.bits() as nat, b as nat);
}

/// Both families have as many addresses as their bits can write.
proof fn lemma_family_size()
    ensures
        pow2(32) == 0x1_0000_0000,
        pow2(128) == 0x1_0000_0000_0000_0000_0000_0000_0000_0000,
{
    lemma2_to64();
    lemma_pow2_adds(64, 64);
}

/// All addresses of a family are in one block.
proof fn lemma_whole(bits: int, width: int)
    requires
        width == 32 || width == 128,
        0 <= bits,
        width == 32 ==> bits <= u32::MAX,
        width == 128 ==> bits <= u128::MAX,
    ensures
        bits / block(width, 0) == 0,
{
    lemma_family_size();
    vstd::arithmetic::div_mod::lemma_basic_div(bits, block(width, 0));
}

fn block4(len: u8) -> (r: u32)
    requires
        1 <= len <= 32,
    ensures
        r == block(32, len as int),
        r > 0,
{
    block6(len + 96) as u32
}

fn block6(len: u8) -> (r: u128)
    requires
        1 <= len <= 128,
    ensures
        r == block(128, len as int),
        r > 0,
        len > 96 ==> r <= 0x8000_0000,
{
    let mut size: u128 = 1;
    let mut i: u8 = 0;
    proof {
        lemma2_to64();
        lemma_family_size();
    }
    while i < 128 - len
        invariant
            1 <= len <= 128,
            i <= 128 - len,
            size == pow2(i as nat),
            size > 0,
            pow2(128) == 0x1_0000_0000_0000_0000_0000_0000_0000_0000,
        decreases 128 - len - i,
    {
        proof {
            vstd::arithmetic::power2::lemma_pow2_unfold((i + 1) as nat);
            if i + 1 < 128 {
                vstd::arithmetic::power2::lemma_pow2_strictly_increases((i + 1) as nat, 128);
            }
        }
        size = size * 2;
        i = i + 1;
    }
    proof {
        if len > 97 {
            vstd::arithmetic::power2::lemma_pow2_strictly_increases((128 - len) as nat, 31);
        }
    }
    size
}

/// Whether two networks share addresses.
pub fn networks_overlap(left: IpNet, right: IpNet) -> (r: bool)
    requires
        left.valid(),
        right.valid(),
    ensures
        r == left.overlaps(right),
{
    proof {
        lemma_block(left);
        lemma_block(right);
    }
    match (left.network(), right.network()) {
        (IpAddr::V4(a), IpAddr::V4(b)) => {
            left.contains_bits(b as u128) || right.contains_bits(a as u128)
        },
        (IpAddr::V6(a), IpAddr::V6(b)) => { left.contains_bits(b) || right.contains_bits(a) },
        _ => false,
    }
}

/// The address range of the mesh in the fourth version: 100.64.0.0/10.
pub open spec fn overlay_v4() -> IpNet {
    IpNet { addr: IpAddr::V4(0x6440_0000), prefix_len: 10 }
}

/// The address range of the mesh in the sixth version: fd7a:115c:a1e0::/48.
pub open spec fn overlay_v6() -> IpNet {
    IpNet { addr: IpAddr::V6(0xfd7a_115c_a1e0_0000_0000_0000_0000_0000), prefix_len: 48 }
}

/// Why a network may not be published, if it may not: the first reason that holds.
pub open spec fn publish_refusal(prefix: IpNet) -> Option<NetworkError> {
    let network = prefix.first_addr();
    if prefix.prefix_len == 0 {
        Some(NetworkError::DefaultRoute)
    } else if network.unspecified() {
        Some(NetworkError::Unspecified)
    } else if network.loopback() || network.link_local() {
        Some(NetworkError::LocalOnly)
    } else if network.multicast() {
        Some(NetworkError::Multicast)
    } else if prefix.overlaps(overlay_v4()) || prefix.overlaps(overlay_v6()) {
        Some(NetworkError::OverlayNetwork)
    } else {
        None
    }
}

/// Checks a network before it is published.
pub fn validate_published_network(prefix: IpNet) -> (r: Result<(), NetworkError>)
    requires
        prefix.valid(),
    ensures
        match r {
            Ok(_) => publish_refusal(prefix) is None,
            Err(e) => publish_refusal(prefix) == Some(e),
        },
{
    let network: IpAddr = prefix.network();
    if prefix.prefix_len == 0 {
        return Err(NetworkError::DefaultRoute);
    }
    if network.is_unspecified() {
        return Err(NetworkError::Unspecified);
    }
    if network.is_loopback() || network.is_link_local() {
        return Err(NetworkError::LocalOnly);
    }
    if network.is_multicast() {
        return Err(NetworkError::Multicast);
    }
    let mesh4: IpNet = IpNet { addr: IpAddr::V4(0x6440_0000), prefix_len: 10 };
    let mesh6: IpNet = IpNet {
        addr: IpAddr::V6(0xfd7a_115c_a1e0_0000_0000_0000_0000_0000),
        prefix_len: 48,
    };
    if networks_overlap(prefix, mesh4) || networks_overlap(prefix, mesh6) {
        return Err(NetworkError::OverlayNetwork);
    }
    Ok(())
}

impl NetworkError {
    /// The message for the user.
    pub open spec fn text(self) -> Seq<char> {
        match self {
            NetworkError::Unspecified => "不能发布未指定的网络地址"@,
            NetworkError::DefaultRoute => "不能发布默认路由"@,
            NetworkError::LocalOnly => "不能发布回环或链路本地网络"@,
            NetworkError::Multicast => "不能发布组播网络"@,
            NetworkError::OverlayNetwork => "不能发布 Nexo 组网覆盖网段"@,
        }
    }

    /// The message for the user.
    pub fn message(&self) -> (r: String)
        ensures
            r@ == self.text(),
    {
        match self {
            NetworkError::Unspecified => "不能发布未指定的网络地址".to_owned(),
            NetworkError::DefaultRoute => "不能发布默认路由".to_owned(),
            NetworkError::LocalOnly => "不能发布回环或链路本地网络".to_owned(),
            NetworkError::Multicast => "不能发布组播网络".to_owned(),
            NetworkError::OverlayNetwork => "不能发布 Nexo 组网覆盖网段".to_owned(),
        }
    }
}

/// Two networks overlap in one order exactly when they overlap in the other.
pub proof fn overlap_is_symmetric(a: IpNet, b: IpNet)
    ensures
        a.overlaps(b) == b.overlaps(a),
{
}

/// Two networks of one family overlap exactly when some address belongs to both.
pub proof fn overlap_is_a_shared_address(a: IpNet, b: IpNet)
    requires
        a.valid(),
        b.valid(),
        a.same_family(b),
    ensures
        a.overlaps(b) <==> exists|bits: int| 0 <= bits && #[trigger] a.covers(bits) && b.covers(bits),
{
    lemma_block(a);
    lemma_block(b);
    lemma_first_covered(a);
    lemma_first_covered(b);
    if a.overlaps(b) {
        if a.covers(b.first()) {
            assert(a.covers(b.first()) && b.covers(b.first()));
        } else {
            assert(a.covers(a.first()) && b.covers(a.first()));
        }
    }
    if exists|bits: int| 0 <= bits && #[trigger] a.covers(bits) && b.covers(bits) {
        let bits = choose|bits: int| 0 <= bits && #[trigger] a.covers(bits) && b.covers(bits);
        if a.prefix_len <= b.prefix_len {
            lemma_wider_covers(a, b, bits);
        } else {
            lemma_wider_covers(b, a, bits);
        }
    }
}

/// A network holds its own first address.
proof fn lemma_first_covered(a: IpNet)
    requires
        a.valid(),
    ensures
        a.covers(a.first()),
{
    let p = block(a.width(), a.prefix_len as int);
    lemma_block(a);
    let q = a.bits() / p;
    vstd::arithmetic::div_mod::lemma_fundamental_div_mod(a.bits(), p);
    assert(a.first() == p * q);
    vstd::arithmetic::div_mod::lemma_div_multiples_vanish(q, p);
}

/// A network that shares an address with a narrower one holds its first address.
proof fn lemma_wider_covers(a: IpNet, b: IpNet, bits: int)
    requires
        a.valid(),
        b.valid(),
        a.same_family(b),
        a.prefix_len <= b.prefix_len,
        0 <= bits,
        a.covers(bits),
        b.covers(bits),
    ensures
        a.covers(b.first()),
{
    let w = a.width();
    let pa = block(w, a.prefix_len as int);
    let pb = block(w, b.prefix_len as int);
    let k = pow2((b.prefix_len - a.prefix_len) as nat) as int;
    lemma_block(a);
    lemma_block(b);
    lemma_first_covered(b);
    lemma_pow2_pos((b.prefix_len - a.prefix_len) as nat);
    lemma_pow2_adds((w - b.prefix_len) as nat, (b.prefix_len - a.prefix_len) as nat);
    assert(pa == pb * k);
    vstd::arithmetic::div_mod::lemma_div_denominator(bits, pb, k);
    vstd::arithmetic::div_mod::lemma_div_denominator(b.first(), pb, k);
}

/// A network covers the addresses from its first one on, as many as its prefix leaves open.
pub proof fn networks_are_ranges(net: IpNet, bits: int)
    requires
        net.valid(),
        0 <= bits,
    ensures
        ({
            let size = pow2((net.width() - net.prefix_len) as nat) as int;
            &&& size > 0
            &&& net.covers(bits) <==> net.first() <= bits < net.first() + size
            &&& net.first() % size == 0
            &&& net.first() <= net.bits() < net.first() + size
        }),
{
    let size = pow2((net.width() - net.prefix_len) as nat) as int;
    vstd::arithmetic::power2::lemma_pow2_pos((net.width() - net.prefix_len) as nat);
    let own = net.bits();
    vstd::arithmetic::div_mod::lemma_fundamental_div_mod(own, size);
    vstd::arithmetic::div_mod::lemma_fundamental_div_mod(bits, size);
    vstd::arithmetic::div_mod::lemma_mod_bound(own, size);
    vstd::arithmetic::div_mod::lemma_mod_bound(bits, size);
    assert(net.first() == size * (own / size));
    vstd::arithmetic::div_mod::lemma_mod_multiples_basic(own / size, size);
    assert((own / size) * size == size * (own / size)) by (nonlinear_arith);
    if net.first() <= bits < net.first() + size {
        let q = own / size;
        assert(bits / size == q) by {
            vstd::arithmetic::div_mod::lemma_fundamental_div_mod_converse(
                bits,
                size,
                q,
                bits - size * q,
            );
        }
    }
}

/// A network may be published where it is not the whole of the addresses, is none of this machine, of a
/// link or of a group, and shares no address with the networks of the overlay.
pub proof fn published_networks_stay_clear_of_the_overlay(prefix: IpNet)
    ensures
        publish_refusal(prefix) is None <==> {
            &&& prefix.prefix_len > 0
            &&& !prefix.first_addr().unspecified()
            &&& !prefix.first_addr().loopback()
            &&& !prefix.first_addr().link_local()
            &&& !prefix.first_addr().multicast()
            &&& !prefix.overlaps(IpNet { addr: IpAddr::V4(0x6440_0000), prefix_len: 10 })
            &&& !prefix.overlaps(
                IpNet {
                    addr: IpAddr::V6(0xfd7a_115c_a1e0_0000_0000_0000_0000_0000),
                    prefix_len: 48,
                },
            )
        },
        prefix.prefix_len == 0 ==> publish_refusal(prefix) == Some(NetworkError::DefaultRoute),
{
}

} // verus!
