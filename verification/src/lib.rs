//! An embedded vector-storage and nearest-neighbor search engine.
//!
//! Dense vectors tagged with metadata are buffered in an in-memory
//! memtable, persisted to an append-only data buffer in a framed record
//! format, indexed by a monotonically increasing identifier, and served
//! back through batched reads and top-k similarity queries.

use vstd::prelude::*;

pub mod ann;
pub mod err;
pub mod index;
pub mod memtable;
pub mod protocol;
pub mod rank;
pub mod serializer;
pub mod storage_manager;
pub mod vector;
