//! Reading the wire format of domain-name messages from a fixed 512-byte datagram:
//! a bounds-checked cursor over the bytes, big-endian integer fields, and
//! domain names with label compression.

pub mod dns_question;
pub mod name_lemmas;
pub mod packet_buffer;
pub mod query_type;

pub use dns_question::DnsQuestion;
pub use packet_buffer::{DecodeError, PacketBuffer, CAPACITY, MAX_JUMPS};
pub use query_type::QueryType;
