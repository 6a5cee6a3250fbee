//! A client library for a text-framed publish/subscribe protocol and a
//! streaming protocol layered on top of it. This crate holds the verified
//! logic: identifier generation (`nuid`), frame encoding and decoding
//! (`ops`, `parser`), the connection engine's state machine with its
//! subscription registry (`nats_client`), the streaming envelopes
//! (`protocol`, `delivery`) and the streaming overlay's rules
//! (`stan_client`).
pub mod delivery;
pub mod error;
pub mod nats_client;
pub mod nuid;
pub mod ops;
pub mod parser;
pub mod protocol;
pub mod stan_client;
