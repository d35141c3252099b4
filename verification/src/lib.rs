//! A verified model of a one-process IPv4 UDP multicast scenario: a sender
//! transmits a sequence of labeled packets to a range of multicast groups,
//! and receivers joined to subsets of those groups record what arrives.
//!
//! The library holds the logic of the scenario — address derivation, payload
//! encoding and decoding, socket configuration values, and the sender and
//! receiver decision loops as state machines — with contracts. The process
//! around it performs the socket calls and feeds the observed events back in.

pub mod addr;
pub mod codec;
pub mod config;
pub mod orchestrator;
pub mod receiver;
pub mod scenario;
pub mod sender;
pub mod utf8;
