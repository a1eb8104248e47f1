//! Write path of a lightweight relay node: transaction dispatch/batching with
//! a concurrent signature registry, and an epoch-partitioned block store with
//! idempotent partition provisioning, deduplicated block inserts, chunked
//! transaction fan-out, and slot-range indexing.

pub mod chunking;
pub mod dispatch;
pub mod epoch;
pub mod forwarder;
pub mod registry;
pub mod ranges;
pub mod sql;
pub mod store;

use vstd::prelude::*;

verus! {

} // verus!
