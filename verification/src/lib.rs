//! A SOCKS proxy and a hidden service that talk to each other over the Nym mixnet.
//!
//! The proxy takes connections to host names like `client.gateway.nym` and carries their bytes to
//! the hidden service that has these keys, through a network that may lose, repeat and reorder
//! packets.

pub mod address;
pub mod base32;
pub mod calls;
pub mod codec;
pub mod connections;
pub mod course;
pub mod driver;
pub mod error;
pub mod handshake;
pub mod identity;
pub mod link;
pub mod message;
pub mod packet;
pub mod relay;
pub mod session;
pub mod socks;
pub mod text;
pub mod transport;

pub use crate::connections::Connections;
pub use crate::error::SocksError;
pub use crate::identity::{Identity, IdentityParseError};
pub use crate::message::{message_to_stream_payload, message_to_string, Message};
pub use crate::packet::{ConnectionId, Packet, Payload};
pub use crate::transport::{reliable_transport, CHUNK_LEN, TIMEOUT};
