//! Core logic of a cryptocurrency wallet back end.
//!
//! The crate holds the verified heart of the application: an
//! authenticated-encryption secret vault, the wallet actor state machine
//! (balance tracking, throttled resync, coin selection and the transaction
//! draft lifecycle), the chain-node mode state machine, the supervision
//! rules for restartable worker processes, and the decoders for the opaque
//! values the blockchain kernel returns.
//!
//! Channels, file and process I/O live outside this crate; every function
//! here is a total, contract-checked step from plain values to plain values.

pub mod kernel;
pub mod node;
pub mod vault;
pub mod wallet;
pub mod status;
pub mod terms;
pub mod updater;
pub mod watcher;
pub mod supervisor;
pub mod strutil;
