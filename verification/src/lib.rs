//! A lightweight publish/subscribe message broker core: length-prefixed
//! opcode frames over a byte stream, a challenge-response handshake,
//! per-owner authorization, and a registry that fans published frames
//! out to the current subscribers of a channel.
//!
//! These modules hold the protocol logic only. Sockets, the task
//! executor and the credential database belong to the embedding
//! program, which hands the library plain byte values and carries its
//! decisions out.

pub mod authstore;
pub mod bytefmt;
pub mod channel_list;
pub mod errors;
pub mod frame;
pub mod handshake;
pub mod message_string;
pub mod opcode;
pub mod registry;
pub mod session;
