//! Control and data plane rules of the Nexo tunnel platform.
pub mod accounts;
pub mod agent;
pub mod auth;
pub mod caddy;
pub mod der;
pub mod device_networks;
pub mod digest;
pub mod domain_access;
pub mod domain_runtime;
pub mod domains;
pub mod edge_apply;
pub mod edge_config;
pub mod enrollment;
pub mod enrollment_token;
pub mod error;
pub mod gateway;
pub mod headscale;
pub mod headscale_adapter;
pub mod identity;
pub mod ip;
pub mod json;
pub mod network;
pub mod number;
pub mod oidc;
pub mod order;
pub mod picked;
pub mod policy;
pub mod protocol;
pub mod schema;
pub mod services;
pub mod security;
pub mod supervisor;
pub mod text;
pub mod transport;
pub mod tunnel;
pub mod tunnels;
pub mod url;
pub mod x509;
