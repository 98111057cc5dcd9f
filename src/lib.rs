//! Per-player statistics kept across numbered generations of a game world.
//!
//! The library holds the logic: the records and their counters, the naming of
//! generation directories and record files, the identity cache with its
//! single-flight protocol, one generation's records, and the store that owns the
//! active generation. Reading and writing files, the HTTP lookups and the JSON
//! encoding of records are done by the caller, which hands the results back as
//! plain values.

pub mod database;
pub mod entries;
pub mod error;
pub mod identity;
pub mod layout;
pub mod stats;
pub mod world;
