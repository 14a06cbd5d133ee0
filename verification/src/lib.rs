//! A verified core for a networked key-value service.
//!
//! Clients send typed commands (set / get / get-all / delete on named hash
//! tables) encoded as length-prefixed binary messages over a byte stream.
//! This crate holds the pieces worth proving: the self-delimiting wire
//! framing, the value encoding, the storage abstraction with its two
//! backends, and the command-execution engine with its lifecycle hooks.

pub mod codec;
pub mod error;
pub mod laws;
pub mod memory;
pub mod pb;
pub mod service;
pub mod sled_db;
pub mod storage;
pub mod wire;

pub use error::KVError;
pub use memory::MemTable;
pub use pb::{CommandRequest, CommandResponse, KvPair, RequestData, Value, ValueModel};
pub use service::{dispatch, CommandService, Notify, NotifyMut, Service, ServiceInner};
pub use sled_db::SledDb;
pub use storage::Storage;
