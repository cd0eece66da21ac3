pub mod bytes_util;
pub mod text;
pub mod sniff;
pub mod rate_limit;
pub mod relay;
pub mod varint;
pub mod outbound;
pub mod crypto;
pub mod config;
pub mod address;
pub mod b64;
pub mod transport;
pub mod netaddr;
