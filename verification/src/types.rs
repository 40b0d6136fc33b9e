//! The data model of the CYOA archive: chunk types, chunk identifiers,
//! index entries, content-sequence entries, and the external view of a
//! resolved node.

use vstd::prelude::*;

verus! {

/// All possible chunk types in the CYOA file format.
#[derive(Clone, Copy, Debug, PartialEq, Eq, Structural)]
pub enum ChunkType {
    /// A content node holding text and edge references.
    Node,
    /// A binary blob encoding one edge's metadata.
    Edge,
    /// A text payload (e.g. node text or edge label).
    Content,
    /// Metadata chunks (e.g. root-pointer).
    Metadata,
    /// Pool of argument blobs (reserved, not interpreted here).
    ArgBlobPool,
    /// WASM table data (reserved, not interpreted here).
    WasmTable,
}

/// A 3-byte chunk identifier, unique within its chunk type.
#[derive(Clone, Copy, Debug, PartialEq, Eq, Structural)]
pub struct ChunkId {
    pub b0: u8,
    pub b1: u8,
    pub b2: u8,
}

/// One entry in the on-disk index: type, ID, offset and length.
#[derive(Clone, Copy, Debug, PartialEq, Eq, Structural)]
pub struct IndexEntry {
    pub chunk_type: ChunkType,
    pub chunk_id: ChunkId,
    pub offset: u64,
    pub length: u32,
}

/// One entry of a node's content sequence. If present, the guard
/// consists of the guard-function ID and the argument bytes sliced out
/// of the node payload.
#[derive(Clone, Debug, PartialEq, Eq)]
pub struct ContentEntry {
    pub guard: Option<(u32, Vec<u8>)>,
    pub content_id: ChunkId,
}

/// Represents one outgoing edge from a node.
#[derive(Clone, Debug, PartialEq, Eq)]
pub struct EdgeOutput {
    /// Text label shown for this choice.
    pub label: String,
    /// Index of the node this edge points to.
    pub dest_idx: u32,
}

/// The assembled view of a game node: its content text plus all
/// outgoing edges.
#[derive(Clone, Debug, PartialEq, Eq)]
pub struct NodeOutput {
    /// The narrative or choice text.
    pub content: String,
    /// All outgoing edges (choices).
    pub edges: Vec<EdgeOutput>,
}

/// The reserved chunk identifier of the root-pointer metadata chunk.
pub open spec fn root_pointer_id() -> ChunkId {
    ChunkId { b0: 0, b1: 0, b2: 1 }
}

} // verus!
