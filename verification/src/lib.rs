//! Routing and session core of an MQTT 3.1.1 broker.
//!
//! The broker owns the table of connected sessions, the index from
//! subscription keys to subscribers and, per session, the queues of in-flight
//! packets that the quality-of-service handshakes need. Every packet handler
//! is a state transition whose effect is stated over the mathematical view of
//! the broker; packets that a handler sends are appended to the outbound queue
//! of the receiving session, from where the connection layer takes them.

pub mod packet;
pub mod state;
pub mod client;
pub mod table;
pub mod model;
pub mod broker;
pub mod laws;

pub use broker::Broker;
pub use client::Client;
pub use packet::{
    Packet, PacketIdentifier, Publish, QoS, Suback, Subscribe, SubscribeReturnCodes,
    SubscribeTopic,
};
pub use state::BrokerState;
