//! A DNS message codec: header, labels, question and answer records, whole
//! messages, and the canned response that the server sends back.
pub mod wire;
pub mod dns;
pub mod parse;
pub mod respond;
pub mod laws;

pub use dns::{DnsAnswer, DnsHeader, DnsLabels, DnsMessage, DnsQuestion, ToBytes};
pub use parse::{dns_header, dns_msg};
pub use respond::{handle_request, response};
pub use wire::DnsError;
