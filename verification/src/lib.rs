//! Verified core of a slot-ordered transaction pipeline.
//!
//! The library covers the logic that decides what the pipeline does: packing
//! of slot/index transaction identifiers, civil-date arithmetic for daily
//! checkpoints, deterministic reassembly of per-slot transaction records,
//! the account data store, the replay driver's state machine, checkpoint
//! encoding, the archiver's day selection, the distributor's dual-cursor
//! protocol with its retention window, and the live-stream state machine.
//! Database access, object storage and HTTP serving live outside the library
//! and hand it plain values.

pub mod archive;
pub mod checkpoint;
pub mod codec;
pub mod date;
pub mod digits;
pub mod distributor;
pub mod engine;
pub mod events;
pub mod jsontext;
pub mod reader;
pub mod schema;
pub mod store;
pub mod stream;
pub mod txid;
