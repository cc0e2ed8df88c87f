//! Core engine of a peer-to-peer file-transfer daemon.
//!
//! The crate covers the pieces that make transfers correct and resumable:
//! the durable sync record of transfer and file states, the in-memory
//! transfer registry with its directory-remap cache, and the decision
//! logic of the receiver session and of its per-file download tasks.
//! Network transport, the embedded database binding and all file-system
//! work live outside this crate and talk to it through plain values.

pub mod chan;
pub mod error;
pub mod manager;
pub mod paths;
pub mod server;
pub mod strtable;
pub mod sync;
pub mod transfer;

pub use error::Error;
