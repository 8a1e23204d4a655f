//! A minimal DNS message codec: builds outbound DNS query packets, frames them
//! for stream transports, parses raw bytes back into structured DNS messages,
//! and extracts either the resolved address from an answer section or the
//! queried domain name from a request.

pub mod decode;
pub mod encode;
pub mod extract;
pub mod laws;
pub mod name;
pub mod types;
