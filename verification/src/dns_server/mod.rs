//! The DNS server's decisions: what a query is answered with, from where, and in which
//! order the places are asked.
pub mod access;
pub mod auto;
pub mod cache;
pub mod memory;
pub mod record_laws;
pub mod records;
pub mod reply;
pub mod resolve;
pub mod resolve_laws;
pub mod server;
pub mod session;
pub mod session_laws;
pub mod wire;

pub use auto::ResolutionMode;
pub use server::{DnsServer, MAX_TCP_CONNECTIONS, TCP_IDLE_TIMEOUT, TCP_MESSAGE_TIMEOUT};
pub use wire::randomize_qname_case;
