//! Verified core of a region-migration control plane for a distributed
//! time-series database, together with the storage-engine cache hierarchy
//! it interacts with.
//!
//! The control plane relocates a table region (its data and its write
//! ownership) from one datanode to another while the cluster keeps serving
//! reads and writes.  The route table, the durable procedure records, the
//! migration state machine and the submission front door are all modelled
//! and verified here; the surrounding processes (RPC transport, SQL
//! frontend, HTTP endpoints) live outside the library and talk to it in
//! plain values.

pub mod ids;
pub mod errors;
pub mod routes;
pub mod records;
pub mod cluster;
pub mod migration;
pub mod manager;
pub mod selector;
pub mod accounting;
pub mod cache;
pub mod commutativity;
pub mod prom;
