//! Wire-format codec for DNS messages: encoding of queries and decoding of
//! responses (header, question section, answer records), including
//! domain-name compression-pointer resolution and per-type payload
//! rendering. Every failure on malformed input is returned as a typed
//! error; nothing here panics or performs I/O.

pub mod errors;
pub mod message;
pub mod name;
pub mod question;
pub mod rr;
pub mod text;
pub mod utils;

pub use errors::DnsError;
pub use utils::byte_combine;
pub use utils::bytes_to_name_offset;
