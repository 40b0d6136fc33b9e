//! Read-only decoder for the CYOA binary container format: a directed
//! content graph (narrative nodes and labeled edges) stored as
//! independently addressable, optionally zstd-compressed chunks that are
//! retrieved incrementally over a byte-range-capable transport.
//!
//! The crate holds the verified core: the binary format parser, the
//! chunk cache with its eviction policy, the transport planning (which
//! byte ranges to request), and the node-resolution steps. The actual
//! network fetches and the guard-predicate evaluator are external
//! collaborators; callers drive the resolution steps and hand fetched
//! bytes and guard verdicts back in.

pub mod cache;
pub mod game;
pub mod http;
pub mod tlv;
pub mod types;
pub mod utils;
