//! The messages between the server and its agents.
use vstd::prelude::*;

use crate::enrollment_token::EnrollmentStatus;
use crate::text;
use crate::text::{copy_opt, same};

verus! {

#[derive(Debug, Clone)]
pub struct AgentHello {
    pub device_id: String,
    pub agent_version: String,
}

#[derive(Debug, Clone)]
pub struct Heartbeat {
    pub device_id: String,
    pub agent_version: String,
}

/// One service as the server wants an agent to offer it.
#[derive(Debug, Clone)]
pub struct TunnelDesiredState {
    pub tunnel_id: String,
    pub protocol: String,
    pub local_address: String,
    pub local_port: u16,
    pub hostname: Option<String>,
    pub origin_protocol: Option<String>,
    pub origin_tls_server_name: Option<String>,
    pub origin_tls_verification: Option<String>,
    pub origin_ca_pem: Option<String>,
    pub revision: i64,
    pub enabled: bool,
}

/// A service as mathematics.
pub struct DesiredView {
    pub tunnel_id: Seq<char>,
    pub protocol: Seq<char>,
    pub local_address: Seq<char>,
    pub local_port: u16,
    pub hostname: Option<Seq<char>>,
    pub origin_protocol: Option<Seq<char>>,
    pub origin_tls_server_name: Option<Seq<char>>,
    pub origin_tls_verification: Option<Seq<char>>,
    pub origin_ca_pem: Option<Seq<char>>,
    pub revision: i64,
    pub enabled: bool,
}

impl View for TunnelDesiredState {
    type V = DesiredView;

    open spec fn view(&self) -> DesiredView {
        DesiredView {
            tunnel_id: self.tunnel_id@,
            protocol: self.protocol@,
            local_address: self.local_address@,
            local_port: self.local_port,
            hostname: text::opt(self.hostname),
            origin_protocol: text::opt(self.origin_protocol),
            origin_tls_server_name: text::opt(self.origin_tls_server_name),
            origin_tls_verification: text::opt(self.origin_tls_verification),
            origin_ca_pem: text::opt(self.origin_ca_pem),
            revision: self.revision,
            enabled: self.enabled,
        }
    }
}

/// What an agent tells of one service.
#[derive(Debug, Clone)]
pub struct TunnelApplyResult {
    pub tunnel_id: String,
    pub revision: i64,
    pub applied: bool,
    pub status: String,
    pub error_message: Option<String>,
}

/// What an agent tells of one service, as mathematics.
pub struct ResultView {
    pub tunnel_id: Seq<char>,
    pub revision: i64,
    pub applied: bool,
    pub status: Seq<char>,
    pub error_message: Option<Seq<char>>,
}

impl View for TunnelApplyResult {
    type V = ResultView;

    open spec fn view(&self) -> ResultView {
        ResultView {
            tunnel_id: self.tunnel_id@,
            revision: self.revision,
            applied: self.applied,
            status: self.status@,
            error_message: text::opt(self.error_message),
        }
    }
}

/// Where an agent opens its data channel.
#[derive(Debug, Clone)]
pub struct TunnelDataEndpoint {
    pub address: String,
    pub server_name: String,
}

/// An endpoint as mathematics: its address and its server name.
pub open spec fn endpoint_view(e: TunnelDataEndpoint) -> (Seq<char>, Seq<char>) {
    (e.address@, e.server_name@)
}

#[derive(Debug, Clone)]
pub enum AgentControlMessage {
    Hello { device_id: String, agent_version: String },
    Heartbeat { device_id: String, agent_version: String },
    TunnelApplyReport { results: Vec<TunnelApplyResult> },
    RenewCertificate { csr_pem: String },
    CertificateInstalled { certificate_pem: String },
    CertificateRenewalFailed { error: String, next_retry_at: i64 },
}

#[derive(Debug, Clone)]
pub enum ServerControlMessage {
    HelloAccepted {
        server_time: i64,
        tunnels: Vec<TunnelDesiredState>,
        tunnel_endpoint: Option<TunnelDataEndpoint>,
    },
    HeartbeatAck {
        server_time: i64,
        tunnels: Vec<TunnelDesiredState>,
        tunnel_endpoint: Option<TunnelDataEndpoint>,
    },
    TunnelApplyAccepted { tunnel_ids: Vec<String> },
    CertificateRenewed { certificate_pem: String },
    CertificateRenewalFailed { message: String, next_retry_at: i64 },
    Error { message: String },
}

#[derive(Debug, Clone)]
pub struct AgentEnrollmentRequest {
    pub token: String,
    pub device_name: String,
    pub os: Option<String>,
    pub architecture: Option<String>,
    pub agent_version: String,
    pub csr_pem: Option<String>,
}

#[derive(Debug, Clone)]
pub struct AgentEnrollmentResponse {
    pub enrollment_id: String,
    pub status: EnrollmentStatus,
    pub device_id: Option<String>,
    pub server_endpoint: Option<String>,
    pub certificate_pem: Option<String>,
    pub ca_certificate_pem: Option<String>,
    pub message: String,
}

#[derive(Debug, Clone)]
pub struct AgentEnrollmentPollRequest {
    pub token: String,
}

#[derive(Debug, Clone)]
pub struct AgentEnrollmentPollResponse {
    pub enrollment_id: String,
    pub status: EnrollmentStatus,
    pub device_id: Option<String>,
    pub certificate_pem: Option<String>,
    pub ca_certificate_pem: Option<String>,
    pub message: String,
}

#[derive(Debug, Clone)]
pub struct EnrollmentApproval {
    pub enrollment_id: String,
    pub device_id: String,
    pub certificate_pem: String,
    pub ca_certificate_pem: String,
    pub expires_at: i64,
}

fn same_opt(a: &Option<String>, b: &Option<String>) -> (r: bool)
    ensures
        r == (text::opt(*a) == text::opt(*b)),
{
    match (a, b) {
        (Some(a), Some(b)) => same(a.as_str(), b.as_str()),
        (None, None) => true,
        _ => false,
    }
}

impl TunnelDesiredState {
    /// A copy of a service.
    pub fn copy(&self) -> (r: TunnelDesiredState)
        ensures
            r@ == self@,
            r == *self,
    {
        TunnelDesiredState {
            tunnel_id: self.tunnel_id.clone(),
            protocol: self.protocol.clone(),
            local_address: self.local_address.clone(),
            local_port: self.local_port,
            hostname: copy_opt(&self.hostname),
            origin_protocol: copy_opt(&self.origin_protocol),
            origin_tls_server_name: copy_opt(&self.origin_tls_server_name),
            origin_tls_verification: copy_opt(&self.origin_tls_verification),
            origin_ca_pem: copy_opt(&self.origin_ca_pem),
            revision: self.revision,
            enabled: self.enabled,
        }
    }

    /// Whether two services are the same in every field.
    pub fn equals(&self, other: &TunnelDesiredState) -> (r: bool)
        ensures
            r == (self@ == other@),
    {
        same(self.tunnel_id.as_str(), other.tunnel_id.as_str()) && same(
            self.protocol.as_str(),
            other.protocol.as_str(),
        ) && same(self.local_address.as_str(), other.local_address.as_str()) && self.local_port
            == other.local_port && same_opt(&self.hostname, &other.hostname) && same_opt(
            &self.origin_protocol,
            &other.origin_protocol,
        ) && same_opt(&self.origin_tls_server_name, &other.origin_tls_server_name) && same_opt(
            &self.origin_tls_verification,
            &other.origin_tls_verification,
        ) && same_opt(&self.origin_ca_pem, &other.origin_ca_pem) && self.revision == other.revision
            && self.enabled == other.enabled
    }
}

impl TunnelDataEndpoint {
    /// A copy of an endpoint.
    pub fn copy(&self) -> (r: TunnelDataEndpoint)
        ensures
            endpoint_view(r) == endpoint_view(*self),
            r == *self,
    {
        TunnelDataEndpoint { address: self.address.clone(), server_name: self.server_name.clone() }
    }

    /// Whether two endpoints are the same.
    pub fn equals(&self, other: &TunnelDataEndpoint) -> (r: bool)
        ensures
            r == (endpoint_view(*self) == endpoint_view(*other)),
    {
        same(self.address.as_str(), other.address.as_str()) && same(
            self.server_name.as_str(),
            other.server_name.as_str(),
        )
    }
}

} // verus!
