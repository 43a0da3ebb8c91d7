//! A small TCP message relay: the hub that owns the connection registry and fans
//! messages out, the readers that turn a connection's bytes into events, the framing
//! and encoding of messages on the wire, and the decisions of server and client.
pub mod address;
pub mod client;
pub mod frame;
pub mod hub;
pub mod message;
pub mod reader;
pub mod server;

pub use address::Addr;
pub use hub::{Hub, HubAction, MpscMessage};
pub use message::TcpMessage;
