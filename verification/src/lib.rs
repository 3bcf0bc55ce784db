//! A verified core for an authoritative, forwarding and validating DNS server.
pub mod addr;
pub mod codec;
pub mod dns_server;
pub mod dnsbl;
pub mod dnssec;
pub mod dnssec_validate;
pub mod doh_h3_server;
pub mod doh_proxy;
pub mod doh_server;
pub mod doq_server;
pub mod dot_server;
pub mod edns;
pub mod forwarder;
pub mod framing;
pub mod laws;
pub mod message;
pub mod names;
pub mod record;
pub mod svcb;
pub mod text;
pub mod wire_laws;
pub mod wire_name;
