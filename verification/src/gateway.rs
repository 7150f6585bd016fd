//! What a device can do as a gateway for its local networks.
use vstd::prelude::*;

use crate::ip::IpAddr;
use crate::network::IpNet;

verus! {

/// Whether an agent can apply a capability now.
#[derive(Debug, Clone, Copy, PartialEq, Eq, Structural)]
pub enum CapabilityState {
    Ready,
    Unavailable,
}

/// Why a device cannot be a gateway.
#[derive(Debug, Clone, Copy, PartialEq, Eq, Structural)]
pub enum GatewayCapabilityReason {
    MissingNetAdmin,
    TunNotAvailable,
    IpForwardingDisabled,
    NoLocalSubnet,
    UnsupportedPlatform,
}

/// A network that an agent is directly connected to.
#[derive(Debug, Clone)]
pub struct DetectedLocalNetwork {
    pub interface_id: String,
    pub prefix: String,
    /// The address of the agent in this network, where it was seen.
    pub gateway_address: Option<String>,
}

/// What an agent found of its host.
#[derive(Debug, Clone)]
pub struct GatewayCapabilityReport {
    pub platform: String,
    pub tun_available: bool,
    pub net_admin_available: bool,
    pub ipv4_forwarding: bool,
    pub ipv6_forwarding: bool,
    pub local_networks: Vec<DetectedLocalNetwork>,
    pub subnet_gateway: CapabilityState,
    pub subnet_gateway_reason: Option<GatewayCapabilityReason>,
}

/// Whether the forwarding of the address family of a network is on; the two families do not
/// depend on each other.
pub fn forwarding_enabled_for_prefix(
    ipv4_forwarding: bool,
    ipv6_forwarding: bool,
    prefix: IpNet,
) -> (r: bool)
    ensures
        r == (match prefix.addr {
            IpAddr::V4(_) => ipv4_forwarding,
            IpAddr::V6(_) => ipv6_forwarding,
        }),
{
    match prefix.addr {
        IpAddr::V4(_) => ipv4_forwarding,
        IpAddr::V6(_) => ipv6_forwarding,
    }
}

/// A network is forwarded by the setting of its own kind of addresses.
pub proof fn networks_are_forwarded_by_their_kind(
    ipv4_forwarding: bool,
    ipv6_forwarding: bool,
    prefix: IpNet,
    r: bool,
)
    requires
        call_ensures(forwarding_enabled_for_prefix, (ipv4_forwarding, ipv6_forwarding, prefix), r),
    ensures
        prefix.addr is V4 ==> r == ipv4_forwarding,
        prefix.addr is V6 ==> r == ipv6_forwarding,
{
}

} // verus!
