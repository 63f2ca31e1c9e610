//! Streams that arrive as the value of an OPC UA node. One value is one
//! Stream, the node it was read from kept beside it.
//!
//! OPC UA is how a plant's machines are read and told: a server holds an
//! address space of nodes, a client opens a secure channel and a session
//! and reads or writes their attributes. What is spoken here is the binary
//! encoding over TCP: Hello and Acknowledge, `OpenSecureChannel` under
//! security policy None, `CreateSession` and `ActivateSession` with an
//! anonymous identity, then a `Read` or a `Write` of one node's value
//! attribute as a byte string, in chunks where the value is longer than the
//! far end's buffer. A Receive Location reads its node; a Send Location
//! writes to one. Either may instead accept clients directly through
//! [`Session`], one client's worth of server over a namespace in memory.
//! Signing and encryption are the other policies'; a server that requires
//! them refuses the channel.
//!
//! A Receive Location that polls reads the same value until it is written
//! again; the source timestamp is on the origin so the flow can tell a
//! re-read from a new value.
//!
//! The origin URI is the endpoint and the node: `opc-ua://host:4840/path
//! #ns=2;s=Orders?source=<timestamp>`. A send target is
//! `opc.tcp://host:4840/path#ns=2;s=Orders`, or a node id alone —
//! `ns=2;s=Orders`, `i=2253` — on the configured endpoint.
//!
//! Nothing here touches a socket or waits: [`Client`] and [`Session`] are
//! handed the messages that arrived, and say what to send.

pub mod attribute;
pub mod calling;
pub mod channel;
pub mod client;
pub mod codec;
pub mod conversation;
pub mod cutting;
pub mod endpoint;
pub mod error;
pub mod framing;
pub mod history;
pub mod layout;
pub mod node;
pub mod reading;
pub mod service;
pub mod serving;
pub mod session;
pub mod text;
pub mod transport;
pub mod values;
pub mod wire;

pub use client::{Client, Connecting};
pub use error::{Result, TransportError};
pub use node::NodeId;
pub use session::{Event, Session};
pub use transport::{Arrived, OpcUaTransport};
pub use wire::DataValue;
