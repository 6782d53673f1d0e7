//! A cluster node library for an all-to-all value-broadcast protocol over a
//! line-oriented message-passing substrate.
//!
//! The heart of the crate is the gossip broadcast engine in [`broadcast`]:
//! deduplicating value state, a replaceable neighbor topology, the
//! flood-and-acknowledge dissemination step, and the retry buffer that repairs
//! lost gossip messages.  [`echo`] and [`unique_ids`] hold the two stateless
//! request/response machines, and [`node`] the generic node shell that hosts
//! any of them.  Transport framing (newline-terminated JSON) lives outside the
//! library; it hands in already-parsed [`message::Message`] values and carries
//! the emitted replies back out.

pub mod broadcast;
pub mod echo;
pub mod message;
pub mod node;
pub mod unique_ids;
