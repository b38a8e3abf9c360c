//! Core of a small multi-user chat service with an encrypted transport.
//!
//! The crate holds the pure logic of the service: modular arithmetic and the
//! ephemeral key exchange built on it, the fixed-width encrypted frame format,
//! the per-connection worker protocol and the session coordinator. Sockets,
//! threads and randomness live with the caller, which feeds this crate plain
//! values and carries out the actions it returns.

pub mod modular;
pub mod wire;
pub mod key_exchange;
pub mod cipher;
pub mod frame;
pub mod stream;
pub mod text;
pub mod server;
pub mod worker;
pub mod ordering;

pub use crate::key_exchange::{KeyPair, SharedSecret};
pub use crate::server::{Action, ChatServer, Message};
pub use crate::stream::{EncryptedStream, HandshakeError, RecvError};
pub use crate::worker::Worker;
