//! The archive handle and the graph resolver: validating a node
//! position, resolving chunk identifiers against the index, selecting
//! guarded content, decoding fetched chunks, and assembling the node
//! view. The caller (the asynchronous driver) performs the fetches and
//! guard evaluations between these steps and hands the results back in.

use vstd::prelude::*;
use vstd::string::StringSliceAdditionalSpecFns;

use crate::cache::cache_find;
use crate::cache::cache_insert;
use crate::cache::RawCache;
use crate::tlv::chunk_payload;
use crate::tlv::parse_content_text;
use crate::tlv::parse_edge_label_dest_cids;
use crate::tlv::id_at;
use crate::tlv::spec_chunk_payload;
use crate::tlv::spec_content_text;
use crate::tlv::spec_edge_label_dest;
use crate::types::ChunkId;
use crate::types::ChunkType;
use crate::types::ContentEntry;
use crate::types::EdgeOutput;
use crate::types::IndexEntry;
use crate::types::NodeOutput;
use crate::types::root_pointer_id;
use crate::utils::GameError;

verus! {

/// The capacity of a new archive's chunk cache.
pub const DEFAULT_CACHE_CAPACITY: usize = 100;

/// First position in the index of an entry with the given chunk type
/// and identifier.
pub open spec fn find_typed(index: Seq<IndexEntry>, t: ChunkType, id: ChunkId) -> Option<int>
    decreases index.len(),
{
    if index.len() == 0 {
        None
    } else if index[0].chunk_type == t && index[0].chunk_id == id {
        Some(0int)
    } else {
        match find_typed(index.drop_first(), t, id) {
            Some(i) => Some(i + 1),
            None => None,
        }
    }
}

/// A found position is a real, first occurrence; a missing pair occurs
/// nowhere.
pub proof fn lemma_find_typed_props(index: Seq<IndexEntry>, t: ChunkType, id: ChunkId)
    ensures
        match find_typed(index, t, id) {
            Some(i) => 0 <= i < index.len() && index[i].chunk_type == t && index[i].chunk_id == id
                && forall|j: int|
                0 <= j < i ==> !((#[trigger] index[j]).chunk_type == t && index[j].chunk_id == id),
            None => forall|j: int|
                0 <= j < index.len() ==> !((#[trigger] index[j]).chunk_type == t
                    && index[j].chunk_id == id),
        },
    decreases index.len(),
{
    if index.len() == 0 {
    } else if index[0].chunk_type == t && index[0].chunk_id == id {
    } else {
        lemma_find_typed_props(index.drop_first(), t, id);
        assert forall|j: int| 1 <= j < index.len() implies index.drop_first()[j - 1] == index[j] by {}
    }
}

/// The converse direction: a pair that occurs at some position is
/// found.
pub proof fn lemma_find_typed_occurs(index: Seq<IndexEntry>, t: ChunkType, id: ChunkId, i: int)
    requires
        0 <= i < index.len(),
        index[i].chunk_type == t,
        index[i].chunk_id == id,
    ensures
        find_typed(index, t, id) is Some,
    decreases index.len(),
{
    if index[0].chunk_type == t && index[0].chunk_id == id {
    } else {
        assert(index.drop_first()[i - 1] == index[i]);
        lemma_find_typed_occurs(index.drop_first(), t, id, i - 1);
    }
}

/// True when `e` is the entry that the first index occurrence of
/// `(t, id)` holds; false when there is no such occurrence.
pub open spec fn resolved_entry(index: Seq<IndexEntry>, t: ChunkType, id: ChunkId, e: IndexEntry) -> bool {
    match find_typed(index, t, id) {
        Some(p) => e == index[p],
        None => false,
    }
}

/// The archive handle: the probed resource facts, the parsed index
/// (immutable after construction), and the chunk cache.
pub struct CyoaGame {
    pub url: String,
    pub size: u64,
    pub supports_range: bool,
    pub index: Vec<IndexEntry>,
    pub raw_cache: RawCache,
}

impl CyoaGame {
    /// The byte range of the fixed header, the first fetch after the
    /// probe. The archive format requires range support; without it
    /// construction fails fast rather than falling back to whole-file
    /// fetches.
    pub fn header_fetch_range(supports_range: bool) -> (r: Result<(u64, u64), GameError>)
        ensures
            match r {
                Ok(range) => supports_range && range == (0u64, 21u64),
                Err(e) => !supports_range && e is RangeNotSupported,
            },
    {
        if supports_range {
            Ok((0, (crate::tlv::HEADER_LEN - 1) as u64))
        } else {
            Err(GameError::RangeNotSupported)
        }
    }

    /// Parses the fetched header and checks the index offset against
    /// the probed resource size; returns the offset the index blob is
    /// to be fetched from (open-ended, to the end of the resource).
    pub fn index_fetch_start(size: u64, header: &[u8]) -> (r: Result<u64, GameError>)
        ensures
            match r {
                Ok(off) => {
                    &&& header@.len() >= 22
                    &&& crate::tlv::magic_ok(header@)
                    &&& off as nat == crate::tlv::u64_le(header@, 14)
                    &&& off < size
                },
                Err(e) => match e {
                    GameError::InvalidMagic => !crate::tlv::magic_ok(header@),
                    GameError::Parse(_) => crate::tlv::magic_ok(header@) && header@.len() < 22,
                    GameError::IndexOutOfRange => header@.len() >= 22 && crate::tlv::magic_ok(
                        header@,
                    ) && crate::tlv::u64_le(header@, 14) >= size,
                    _ => false,
                },
            },
    {
        let off = match crate::tlv::parse_header(header) {
            Ok(off) => off,
            Err(e) => { return Err(e) },
        };
        if off >= size {
            return Err(GameError::IndexOutOfRange);
        }
        Ok(off)
    }

    /// Assembles the archive handle from the probed facts and the
    /// parsed index, with an empty cache of the default capacity.
    pub fn new(url: String, size: u64, supports_range: bool, index: Vec<IndexEntry>) -> (g:
        CyoaGame)
        ensures
            g.url == url,
            g.size == size,
            g.supports_range == supports_range,
            g.index == index,
            g.raw_cache.contents() =~= Seq::<(ChunkId, Seq<u8>)>::empty(),
            g.raw_cache.cap() == DEFAULT_CACHE_CAPACITY,
    {
        CyoaGame { url, size, supports_range, index, raw_cache: RawCache::new(DEFAULT_CACHE_CAPACITY) }
    }

    /// Validates a caller-supplied node position: it must index an
    /// entry of type Node.
    pub fn locate_node(&self, idx: usize) -> (r: Result<IndexEntry, GameError>)
        ensures
            match r {
                Ok(e) => idx < self.index@.len() && e == self.index@[idx as int] && e.chunk_type
                    == ChunkType::Node,
                Err(e) => {
                    &&& (idx >= self.index@.len() || self.index@[idx as int].chunk_type
                        != ChunkType::Node)
                    &&& e is Parse
                },
            },
    {
        if idx >= self.index.len() {
            return Err(GameError::Parse("node index out of range"));
        }
        let entry = self.index[idx];
        if !(entry.chunk_type == ChunkType::Node) {
            return Err(GameError::Parse("not a node chunk"));
        }
        Ok(entry)
    }

    /// First index entry with the given chunk type and identifier,
    /// together with its position.
    pub fn find_entry(&self, t: ChunkType, id: ChunkId) -> (r: Option<(usize, IndexEntry)>)
        ensures
            match r {
                Some(p) => find_typed(self.index@, t, id) == Some(p.0 as int) && p.0
                    < self.index@.len() && p.1 == self.index@[p.0 as int],
                None => find_typed(self.index@, t, id) is None,
            },
    {
        let n = self.index.len();
        let mut i: usize = 0;
        while i < n
            invariant
                n == self.index@.len(),
                i <= n,
                forall|j: int|
                    0 <= j < i ==> !((#[trigger] self.index@[j]).chunk_type == t
                        && self.index@[j].chunk_id == id),
            decreases n - i,
        {
            let e = self.index[i];
            if e.chunk_type == t && e.chunk_id == id {
                proof {
                    lemma_find_typed_occurs(self.index@, t, id, i as int);
                    lemma_find_typed_props(self.index@, t, id);
                    match find_typed(self.index@, t, id) {
                        Some(f) => {
                            if f < i as int {
                                assert(!(self.index@[f].chunk_type == t && self.index@[f].chunk_id
                                    == id));
                            } else if f > i as int {
                                assert(!(self.index@[i as int].chunk_type == t
                                    && self.index@[i as int].chunk_id == id));
                            }
                        },
                        None => {
                            assert(false);
                        },
                    }
                }
                return Some((i, e));
            }
            i = i + 1;
        }
        proof {
            lemma_find_typed_props(self.index@, t, id);
        }
        None
    }

    /// Resolves each chunk identifier to the first index entry of the
    /// given type carrying it; a missing one is fatal with the given
    /// parse reason (a dangling reference).
    fn resolve_typed(&self, t: ChunkType, cids: &Vec<ChunkId>, reason: &'static str) -> (r: Result<
        Vec<IndexEntry>,
        GameError,
    >)
        ensures
            match r {
                Ok(v) => v@.len() == cids@.len() && forall|i: int|
                    0 <= i < cids@.len() ==> resolved_entry(
                        self.index@,
                        t,
                        cids@[i],
                        #[trigger] v@[i],
                    ),
                Err(e) => (exists|i: int|
                    0 <= i < cids@.len() && find_typed(self.index@, t, #[trigger] cids@[i]) is None)
                    && e is Parse,
            },
    {
        let mut out: Vec<IndexEntry> = Vec::new();
        let mut i: usize = 0;
        let n = cids.len();
        while i < n
            invariant
                n == cids@.len(),
                i <= n,
                out@.len() == i as int,
                forall|k: int|
                    0 <= k < i as int ==> resolved_entry(
                        self.index@,
                        t,
                        cids@[k],
                        #[trigger] out@[k],
                    ),
            decreases n - i,
        {
            match self.find_entry(t, cids[i]) {
                Some((_, e)) => {
                    out.push(e);
                },
                None => {
                    return Err(GameError::Parse(reason));
                },
            }
            i = i + 1;
        }
        Ok(out)
    }

    /// Resolves surviving content chunk identifiers to their index
    /// entries (step 4 of node resolution).
    pub fn resolve_content_entries(&self, cids: &Vec<ChunkId>) -> (r: Result<
        Vec<IndexEntry>,
        GameError,
    >)
        ensures
            match r {
                Ok(v) => v@.len() == cids@.len() && forall|i: int|
                    0 <= i < cids@.len() ==> resolved_entry(
                        self.index@,
                        ChunkType::Content,
                        cids@[i],
                        #[trigger] v@[i],
                    ),
                Err(e) => (exists|i: int|
                    0 <= i < cids@.len() && find_typed(
                        self.index@,
                        ChunkType::Content,
                        #[trigger] cids@[i],
                    ) is None) && e is Parse,
            },
    {
        self.resolve_typed(ChunkType::Content, cids, "content chunk not found")
    }

    /// Resolves outgoing-edge chunk identifiers to their index entries
    /// (step 5 of node resolution).
    pub fn resolve_edge_entries(&self, cids: &Vec<ChunkId>) -> (r: Result<
        Vec<IndexEntry>,
        GameError,
    >)
        ensures
            match r {
                Ok(v) => v@.len() == cids@.len() && forall|i: int|
                    0 <= i < cids@.len() ==> resolved_entry(
                        self.index@,
                        ChunkType::Edge,
                        cids@[i],
                        #[trigger] v@[i],
                    ),
                Err(e) => (exists|i: int|
                    0 <= i < cids@.len() && find_typed(
                        self.index@,
                        ChunkType::Edge,
                        #[trigger] cids@[i],
                    ) is None) && e is Parse,
            },
    {
        self.resolve_typed(ChunkType::Edge, cids, "edge chunk not found")
    }

    /// Resolves edge-label content identifiers to their index entries
    /// (step 7 of node resolution).
    pub fn resolve_label_entries(&self, cids: &Vec<ChunkId>) -> (r: Result<
        Vec<IndexEntry>,
        GameError,
    >)
        ensures
            match r {
                Ok(v) => v@.len() == cids@.len() && forall|i: int|
                    0 <= i < cids@.len() ==> resolved_entry(
                        self.index@,
                        ChunkType::Content,
                        cids@[i],
                        #[trigger] v@[i],
                    ),
                Err(e) => (exists|i: int|
                    0 <= i < cids@.len() && find_typed(
                        self.index@,
                        ChunkType::Content,
                        #[trigger] cids@[i],
                    ) is None) && e is Parse,
            },
    {
        self.resolve_typed(ChunkType::Content, cids, "label content not found")
    }

    /// Resolves each edge's destination chunk identifier to the
    /// position of the Node entry carrying it. Every returned position
    /// indexes a Node entry, so a loaded node's edges always lead to
    /// valid node positions; a missing destination is fatal (a dangling
    /// edge).
    pub fn dest_positions(&self, dest_cids: &Vec<ChunkId>) -> (r: Result<Vec<u32>, GameError>)
        requires
            self.index@.len() <= u32::MAX,
        ensures
            match r {
                Ok(v) => {
                    &&& v@.len() == dest_cids@.len()
                    &&& forall|i: int|
                        0 <= i < dest_cids@.len() ==> find_typed(
                            self.index@,
                            ChunkType::Node,
                            dest_cids@[i],
                        ) == Some(#[trigger] v@[i] as int)
                    &&& forall|i: int|
                        0 <= i < dest_cids@.len() ==> #[trigger] v@[i] < self.index@.len()
                            && self.index@[v@[i] as int].chunk_type == ChunkType::Node
                            && self.index@[v@[i] as int].chunk_id == dest_cids@[i]
                },
                Err(e) => (exists|i: int|
                    0 <= i < dest_cids@.len() && find_typed(
                        self.index@,
                        ChunkType::Node,
                        #[trigger] dest_cids@[i],
                    ) is None) && e is Parse,
            },
    {
        let mut out: Vec<u32> = Vec::new();
        let mut i: usize = 0;
        let n = dest_cids.len();
        while i < n
            invariant
                n == dest_cids@.len(),
                i <= n,
                self.index@.len() <= u32::MAX,
                out@.len() == i as int,
                forall|k: int|
                    0 <= k < i as int ==> find_typed(self.index@, ChunkType::Node, dest_cids@[k])
                        == Some(#[trigger] out@[k] as int),
                forall|k: int|
                    0 <= k < i as int ==> #[trigger] out@[k] < self.index@.len()
                        && self.index@[out@[k] as int].chunk_type == ChunkType::Node
                        && self.index@[out@[k] as int].chunk_id == dest_cids@[k],
            decreases n - i,
        {
            match self.find_entry(ChunkType::Node, dest_cids[i]) {
                Some((p, _)) => {
                    proof {
                        lemma_find_typed_props(self.index@, ChunkType::Node, dest_cids@[i as int]);
                    }
                    out.push(p as u32);
                },
                None => {
                    return Err(GameError::Parse("edge destination node not found"));
                },
            }
            i = i + 1;
        }
        Ok(out)
    }

    /// Locates the root-pointer metadata entry, the one with reserved
    /// identifier `000001`. Its absence is the distinguished missing-
    /// root failure, not a generic parse failure.
    pub fn locate_root_meta(&self) -> (r: Result<IndexEntry, GameError>)
        ensures
            match r {
                Ok(e) => find_typed(self.index@, ChunkType::Metadata, root_pointer_id())
                    matches Some(p) && e == self.index@[p],
                Err(e) => find_typed(self.index@, ChunkType::Metadata, root_pointer_id()) is None
                    && e is MissingRoot,
            },
    {
        match self.find_entry(ChunkType::Metadata, ChunkId { b0: 0, b1: 0, b2: 1 }) {
            Some((_, e)) => Ok(e),
            None => Err(GameError::MissingRoot),
        }
    }

    /// Resolves the root node's chunk identifier (read from the
    /// metadata payload) to its node position, ready to be loaded like
    /// any other node.
    pub fn root_node_position(&self, cid: ChunkId) -> (r: Result<usize, GameError>)
        ensures
            match r {
                Ok(p) => {
                    &&& find_typed(self.index@, ChunkType::Node, cid) == Some(p as int)
                    &&& p < self.index@.len()
                    &&& self.index@[p as int].chunk_type == ChunkType::Node
                    &&& self.index@[p as int].chunk_id == cid
                },
                Err(e) => find_typed(self.index@, ChunkType::Node, cid) is None && e is Parse,
            },
    {
        match self.find_entry(ChunkType::Node, cid) {
            Some((p, _)) => {
                proof {
                    lemma_find_typed_props(self.index@, ChunkType::Node, cid);
                }
                Ok(p)
            },
            None => Err(GameError::Parse("root node chunk not found")),
        }
    }
}

/// The uppercase hex character of the nibble `n`.
pub open spec fn hex_char(n: u8) -> char
    recommends
        n < 16,
{
    if n < 10 {
        (0x30 + n) as char
    } else {
        (0x37 + n) as char
    }
}

/// The 6 uppercase hex characters of a chunk identifier.
pub open spec fn hex_id(id: ChunkId) -> Seq<char> {
    seq![
        hex_char(id.b0 / 16),
        hex_char(id.b0 % 16),
        hex_char(id.b1 / 16),
        hex_char(id.b1 % 16),
        hex_char(id.b2 / 16),
        hex_char(id.b2 % 16),
    ]
}

fn hex_digit_str(n: u8) -> (r: &'static str)
    requires
        n < 16,
    ensures
        r@ == seq![hex_char(n)],
{
    let r: &'static str = if n == 0 {
        "0"
    } else if n == 1 {
        "1"
    } else if n == 2 {
        "2"
    } else if n == 3 {
        "3"
    } else if n == 4 {
        "4"
    } else if n == 5 {
        "5"
    } else if n == 6 {
        "6"
    } else if n == 7 {
        "7"
    } else if n == 8 {
        "8"
    } else if n == 9 {
        "9"
    } else if n == 10 {
        "A"
    } else if n == 11 {
        "B"
    } else if n == 12 {
        "C"
    } else if n == 13 {
        "D"
    } else if n == 14 {
        "E"
    } else {
        "F"
    };
    proof {
        reveal_strlit("0");
        reveal_strlit("1");
        reveal_strlit("2");
        reveal_strlit("3");
        reveal_strlit("4");
        reveal_strlit("5");
        reveal_strlit("6");
        reveal_strlit("7");
        reveal_strlit("8");
        reveal_strlit("9");
        reveal_strlit("A");
        reveal_strlit("B");
        reveal_strlit("C");
        reveal_strlit("D");
        reveal_strlit("E");
        reveal_strlit("F");
        assert(r@ =~= seq![hex_char(n)]);
    }
    r
}

/// Renders a chunk identifier as 6 uppercase hex characters.
fn id_hex_string(id: ChunkId) -> (r: String)
    ensures
        r@ == hex_id(id),
{
    let mut s = String::new();
    s.append(hex_digit_str(id.b0 / 16));
    s.append(hex_digit_str(id.b0 % 16));
    s.append(hex_digit_str(id.b1 / 16));
    s.append(hex_digit_str(id.b1 % 16));
    s.append(hex_digit_str(id.b2 / 16));
    s.append(hex_digit_str(id.b2 % 16));
    proof {
        assert(s@ =~= hex_id(id));
    }
    s
}

impl CyoaGame {
    /// Every index entry's 3-byte id rendered as 6 uppercase hex
    /// characters, in index order.
    pub fn chunk_ids(&self) -> (r: Vec<String>)
        ensures
            r@.len() == self.index@.len(),
            forall|i: int|
                0 <= i < r@.len() ==> (#[trigger] r@[i])@ == hex_id(self.index@[i].chunk_id),
    {
        let n = self.index.len();
        let mut out: Vec<String> = Vec::new();
        let mut i: usize = 0;
        while i < n
            invariant
                n == self.index@.len(),
                i <= n,
                out@.len() == i as int,
                forall|k: int|
                    0 <= k < i as int ==> (#[trigger] out@[k])@ == hex_id(
                        self.index@[k].chunk_id,
                    ),
            decreases n - i,
        {
            out.push(id_hex_string(self.index[i].chunk_id));
            i = i + 1;
        }
        out
    }
}

/// Normalizes a caller-supplied path to a rooted resource locator:
/// prefixed with `/` unless its first byte already is `/`.
pub fn normalize_path(path: &str) -> (r: String)
    ensures
        r@ == if path.spec_bytes().len() > 0 && path.spec_bytes()[0] == 0x2fu8 {
            path@
        } else {
            seq!['/'] + path@
        },
{
    let bytes = path.as_bytes();
    if bytes.len() > 0 && bytes[0] == 0x2f {
        path.to_owned()
    } else {
        let mut s = String::from_str("/");
        s.append(path);
        proof {
            reveal_strlit("/");
            assert(s@ =~= seq!['/'] + path@);
        }
        s
    }
}

/// The ordered content chunk identifiers that survive guard filtering:
/// an entry is kept iff it has no guard or its verdict is true. An
/// excluded entry contributes nothing, not an empty placeholder.
pub open spec fn selected_ids(entries: Seq<ContentEntry>, verdicts: Seq<bool>) -> Seq<ChunkId>
    recommends
        entries.len() == verdicts.len(),
    decreases entries.len(),
{
    if entries.len() == 0 {
        Seq::empty()
    } else {
        let prefix = selected_ids(entries.drop_last(), verdicts.drop_last());
        if entries.last().guard is None || verdicts[entries.len() - 1] {
            prefix.push(entries.last().content_id)
        } else {
            prefix
        }
    }
}

/// Applies the guard verdicts to a parsed content sequence and returns
/// the surviving content chunk identifiers in sequence order. The
/// caller obtained one verdict per entry from the external guard
/// evaluator (an entry without a guard needs none; its verdict slot is
/// ignored).
pub fn select_content(entries: &Vec<ContentEntry>, verdicts: &Vec<bool>) -> (r: Vec<ChunkId>)
    requires
        entries@.len() == verdicts@.len(),
    ensures
        r@ == selected_ids(entries@, verdicts@),
{
    let n = entries.len();
    let mut out: Vec<ChunkId> = Vec::new();
    let mut i: usize = 0;
    while i < n
        invariant
            n == entries@.len(),
            n == verdicts@.len(),
            i <= n,
            out@ == selected_ids(entries@.take(i as int), verdicts@.take(i as int)),
        decreases n - i,
    {
        let keep = if entries[i].guard.is_some() {
            verdicts[i]
        } else {
            true
        };
        if keep {
            out.push(entries[i].content_id);
        }
        proof {
            assert(entries@.take(i + 1).drop_last() =~= entries@.take(i as int));
            assert(verdicts@.take(i + 1).drop_last() =~= verdicts@.take(i as int));
            assert(entries@.take(i + 1).last() == entries@[i as int]);
            assert(verdicts@.take(i + 1)[i as int] == verdicts@[i as int]);
        }
        i = i + 1;
    }
    proof {
        assert(entries@.take(n as int) =~= entries@);
        assert(verdicts@.take(n as int) =~= verdicts@);
    }
    out
}

/// The decoded text of one fetched content chunk: envelope parsed,
/// payload decompressed, text extracted.
pub open spec fn spec_chunk_text(raw: Seq<u8>) -> Option<Seq<char>> {
    match spec_chunk_payload(raw) {
        Some(p) => spec_content_text(p),
        None => None,
    }
}

/// The node text of a sequence of fetched content chunks: their decoded
/// texts concatenated in sequence order; absent when any chunk fails to
/// decode.
pub open spec fn spec_concat_texts(raws: Seq<Seq<u8>>) -> Option<Seq<char>>
    decreases raws.len(),
{
    if raws.len() == 0 {
        Some(Seq::<char>::empty())
    } else {
        match spec_concat_texts(raws.drop_last()) {
            Some(prefix) => match spec_chunk_text(raws.last()) {
                Some(t) => Some(prefix + t),
                None => None,
            },
            None => None,
        }
    }
}

/// A chunk that fails to decode poisons the whole concatenation.
proof fn lemma_concat_none(raws: Seq<Seq<u8>>, i: int)
    requires
        0 <= i < raws.len(),
        spec_chunk_text(raws[i]) is None,
    ensures
        spec_concat_texts(raws) is None,
    decreases raws.len(),
{
    if i < raws.len() - 1 {
        lemma_concat_none(raws.drop_last(), i);
    }
}

/// Decodes each fetched content chunk to its text and concatenates the
/// texts in the surviving sequence order (steps 4 and 9 of node
/// resolution use the result as the node's narrative text).
pub fn concat_content_texts(raws: &Vec<Vec<u8>>) -> (r: Result<String, GameError>)
    ensures
        match r {
            Ok(s) => spec_concat_texts(raws.deep_view()) == Some(s@),
            Err(e) => {
                &&& spec_concat_texts(raws.deep_view()) is None
                &&& (e is Parse || e is Other)
                &&& (e is Other ==> exists|i: int|
                    0 <= i < raws@.len() && crate::tlv::chunk_inflation_failed(
                        #[trigger] raws.deep_view()[i],
                    ))
            },
        },
{
    let n = raws.len();
    let mut acc = String::new();
    let mut i: usize = 0;
    while i < n
        invariant
            n == raws@.len(),
            i <= n,
            spec_concat_texts(raws.deep_view().take(i as int)) == Some(acc@),
        decreases n - i,
    {
        proof {
            assert(raws.deep_view().take(i + 1).drop_last() =~= raws.deep_view().take(i as int));
            assert(raws.deep_view().take(i + 1).last() == raws.deep_view()[i as int]);
            assert(raws.deep_view()[i as int] == raws@[i as int]@);
        }
        let payload = match chunk_payload(raws[i].as_slice()) {
            Ok(p) => p,
            Err(e) => {
                proof {
                    lemma_concat_none(raws.deep_view(), i as int);
                    if e is Other {
                        assert(crate::tlv::chunk_inflation_failed(raws.deep_view()[i as int]));
                    }
                }
                return Err(e);
            },
        };
        let txt = match parse_content_text(payload.as_slice()) {
            Ok(t) => t,
            Err(e) => {
                proof {
                    lemma_concat_none(raws.deep_view(), i as int);
                }
                return Err(e);
            },
        };
        acc.append(txt.as_str());
        i = i + 1;
    }
    proof {
        assert(raws.deep_view().take(n as int) =~= raws.deep_view());
    }
    Ok(acc)
}

/// The `(label id, destination id)` metadata of one fetched edge chunk.
pub open spec fn spec_edge_meta(raw: Seq<u8>) -> Option<(ChunkId, ChunkId)> {
    match spec_chunk_payload(raw) {
        Some(p) => spec_edge_label_dest(p),
        None => None,
    }
}

/// Decodes each fetched edge chunk to its `(label id, destination id)`
/// pair (step 6 of node resolution).
pub fn decode_edge_metas(raws: &Vec<Vec<u8>>) -> (r: Result<Vec<(ChunkId, ChunkId)>, GameError>)
    ensures
        match r {
            Ok(v) => v@.len() == raws@.len() && forall|i: int|
                0 <= i < raws@.len() ==> spec_edge_meta(raws.deep_view()[i]) == Some(
                    #[trigger] v@[i],
                ),
            Err(e) => {
                &&& (exists|i: int|
                    0 <= i < raws@.len() && spec_edge_meta(#[trigger] raws.deep_view()[i]) is None)
                &&& (e is Parse || e is Other)
                &&& (e is Other ==> exists|i: int|
                    0 <= i < raws@.len() && crate::tlv::chunk_inflation_failed(
                        #[trigger] raws.deep_view()[i],
                    ))
            },
        },
{
    let n = raws.len();
    let mut out: Vec<(ChunkId, ChunkId)> = Vec::new();
    let mut i: usize = 0;
    while i < n
        invariant
            n == raws@.len(),
            i <= n,
            out@.len() == i as int,
            forall|k: int|
                0 <= k < i as int ==> spec_edge_meta(raws.deep_view()[k]) == Some(
                    #[trigger] out@[k],
                ),
        decreases n - i,
    {
        proof {
            assert(raws.deep_view()[i as int] == raws@[i as int]@);
        }
        let payload = match chunk_payload(raws[i].as_slice()) {
            Ok(p) => p,
            Err(e) => {
                proof {
                    if e is Other {
                        assert(crate::tlv::chunk_inflation_failed(raws.deep_view()[i as int]));
                    }
                }
                return Err(e);
            },
        };
        let pair = match parse_edge_label_dest_cids(payload.as_slice()) {
            Ok(pair) => pair,
            Err(e) => { return Err(e) },
        };
        out.push(pair);
        i = i + 1;
    }
    Ok(out)
}

/// Decodes each fetched label chunk to its text (step 7 of node
/// resolution); labels stay separate, one per edge.
pub fn decode_label_texts(raws: &Vec<Vec<u8>>) -> (r: Result<Vec<String>, GameError>)
    ensures
        match r {
            Ok(v) => v@.len() == raws@.len() && forall|i: int|
                0 <= i < raws@.len() ==> spec_chunk_text(raws.deep_view()[i]) == Some(
                    (#[trigger] v@[i])@,
                ),
            Err(e) => {
                &&& (exists|i: int|
                    0 <= i < raws@.len() && spec_chunk_text(#[trigger] raws.deep_view()[i]) is None)
                &&& (e is Parse || e is Other)
                &&& (e is Other ==> exists|i: int|
                    0 <= i < raws@.len() && crate::tlv::chunk_inflation_failed(
                        #[trigger] raws.deep_view()[i],
                    ))
            },
        },
{
    let n = raws.len();
    let mut out: Vec<String> = Vec::new();
    let mut i: usize = 0;
    while i < n
        invariant
            n == raws@.len(),
            i <= n,
            out@.len() == i as int,
            forall|k: int|
                0 <= k < i as int ==> spec_chunk_text(raws.deep_view()[k]) == Some(
                    (#[trigger] out@[k])@,
                ),
        decreases n - i,
    {
        proof {
            assert(raws.deep_view()[i as int] == raws@[i as int]@);
        }
        let payload = match chunk_payload(raws[i].as_slice()) {
            Ok(p) => p,
            Err(e) => {
                proof {
                    if e is Other {
                        assert(crate::tlv::chunk_inflation_failed(raws.deep_view()[i as int]));
                    }
                }
                return Err(e);
            },
        };
        let txt = match parse_content_text(payload.as_slice()) {
            Ok(t) => t,
            Err(e) => { return Err(e) },
        };
        out.push(txt);
        i = i + 1;
    }
    Ok(out)
}

/// Assembles the external node view: the concatenated text and one edge
/// per outgoing-edge entry, labels and destination positions paired in
/// the node's outgoing-edge order.
pub fn assemble_node(content: String, labels: &Vec<String>, dests: &Vec<u32>) -> (r: NodeOutput)
    requires
        labels@.len() == dests@.len(),
    ensures
        r.content == content,
        r.edges@.len() == labels@.len(),
        forall|i: int|
            0 <= i < labels@.len() ==> (#[trigger] r.edges@[i]).label == labels@[i]
                && r.edges@[i].dest_idx == dests@[i],
{
    let n = labels.len();
    let mut edges: Vec<EdgeOutput> = Vec::new();
    let mut i: usize = 0;
    while i < n
        invariant
            n == labels@.len(),
            n == dests@.len(),
            i <= n,
            edges@.len() == i as int,
            forall|k: int|
                0 <= k < i as int ==> (#[trigger] edges@[k]).label == labels@[k]
                    && edges@[k].dest_idx == dests@[k],
        decreases n - i,
    {
        edges.push(EdgeOutput { label: labels[i].clone(), dest_idx: dests[i] });
        i = i + 1;
    }
    NodeOutput { content, edges }
}

// ---------------------------------------------------------------------
// Loading from an in-memory resource
// ---------------------------------------------------------------------
// The steps above serve a driver that fetches byte ranges lazily. When
// the whole resource is already in memory, the library can run the
// resolution end to end itself; only the guard evaluation stays with
// the caller, between `load_node_begin` and `load_node_finish`.

/// True when the entry names a fetchable, nonempty byte range of the
/// resource.
pub open spec fn entry_in_range(e: IndexEntry, resource: Seq<u8>) -> bool {
    1 <= e.length && e.offset + e.length <= resource.len()
}

/// The raw bytes of a chunk, exactly as a range fetch returns them.
pub open spec fn chunk_bytes(resource: Seq<u8>, e: IndexEntry) -> Seq<u8>
    recommends
        entry_in_range(e, resource),
{
    resource.subrange(e.offset as int, e.offset + e.length)
}

/// True when index entries that share a chunk identifier hold identical
/// bytes. The cache is keyed by identifier alone, so this is what makes
/// a cache hit indistinguishable from a fresh fetch.
pub open spec fn ids_coherent(index: Seq<IndexEntry>, resource: Seq<u8>) -> bool {
    forall|p: int, q: int|
        0 <= p < index.len() && 0 <= q < index.len() && (#[trigger] index[p]).chunk_id == (
        #[trigger] index[q]).chunk_id ==> chunk_bytes(resource, index[p]) == chunk_bytes(
            resource,
            index[q],
        )
}

/// True when every cached pair holds the true bytes of some index entry
/// carrying its identifier. An empty cache is coherent; fetches insert
/// only true chunk bytes, so the property is preserved.
pub open spec fn cache_coherent(
    cache: Seq<(ChunkId, Seq<u8>)>,
    index: Seq<IndexEntry>,
    resource: Seq<u8>,
) -> bool {
    forall|i: int|
        0 <= i < cache.len() ==> exists|p: int|
            0 <= p < index.len() && index[p].chunk_id == (#[trigger] cache[i]).0 && cache[i].1
                == chunk_bytes(resource, index[p])
}

impl CyoaGame {
    /// Obtains one chunk's raw bytes from an in-memory copy of the
    /// resource through the cache: a hit is served (and promoted), a
    /// miss is sliced out of the resource at exactly the entry's range
    /// and inserted.
    fn get_raw_chunk(&mut self, resource: &[u8], entry: &IndexEntry) -> (r: Vec<u8>)
        requires
            old(self).supports_range,
            exists|p: int|
                0 <= p < old(self).index@.len() && old(self).index@[p] == *entry,
            entry_in_range(*entry, resource@),
            ids_coherent(old(self).index@, resource@),
            cache_coherent(old(self).raw_cache.contents(), old(self).index@, resource@),
        ensures
            r@ == chunk_bytes(resource@, *entry),
            final(self).index == old(self).index,
            final(self).url == old(self).url,
            final(self).size == old(self).size,
            final(self).supports_range == old(self).supports_range,
            final(self).raw_cache.cap() == old(self).raw_cache.cap(),
            cache_coherent(final(self).raw_cache.contents(), final(self).index@, resource@),
    {
        let n = resource.len();
        proof {
            assert(entry.offset + entry.length <= n);
        }
        let ghost old_cache = old(self).raw_cache.contents();
        match crate::cache::chunk_request(&mut self.raw_cache, self.supports_range, entry) {
            crate::cache::ChunkSource::Cached(v) => {
                proof {
                    crate::cache::lemma_cache_find_props(old_cache, entry.chunk_id);
                    let i = choose|i: int|
                        cache_find(old_cache, entry.chunk_id) == Some(i) && 0 <= i
                            < old_cache.len();
                    assert(old_cache[i].0 == entry.chunk_id);
                    let p = choose|p: int|
                        0 <= p < old(self).index@.len() && old(self).index@[p].chunk_id
                            == old_cache[i].0 && old_cache[i].1 == chunk_bytes(
                            resource@,
                            old(self).index@[p],
                        );
                    let q = choose|q: int|
                        0 <= q < old(self).index@.len() && old(self).index@[q] == *entry;
                    assert(chunk_bytes(resource@, old(self).index@[p]) == chunk_bytes(
                        resource@,
                        old(self).index@[q],
                    ));
                    assert(v@ == chunk_bytes(resource@, *entry));
                    // Promotion permutes the cache contents, so every
                    // cached pair was already there.
                    let promoted = seq![old_cache[i]] + old_cache.remove(i);
                    assert forall|j: int| 0 <= j < promoted.len() implies exists|p2: int|
                        0 <= p2 < old(self).index@.len() && old(self).index@[p2].chunk_id == (
                        #[trigger] promoted[j]).0 && promoted[j].1 == chunk_bytes(
                            resource@,
                            old(self).index@[p2],
                        ) by {
                        if j == 0 {
                            assert(promoted[0] == old_cache[i]);
                        } else if j <= i {
                            assert(promoted[j] == old_cache[j - 1]);
                        } else {
                            assert(promoted[j] == old_cache[j]);
                        }
                    }
                }
                v
            },
            crate::cache::ChunkSource::FetchRange(s, e) => {
                let start = s as usize;
                let end = e as usize + 1;
                let v = vstd::slice::slice_to_vec(&resource[start..end]);
                let out = vstd::slice::slice_to_vec(&resource[start..end]);
                let ghost pre_insert = self.raw_cache.contents();
                self.raw_cache.insert(entry.chunk_id, v);
                proof {
                    let inserted = cache_insert(
                        pre_insert,
                        old(self).raw_cache.cap(),
                        entry.chunk_id,
                        chunk_bytes(resource@, *entry),
                    );
                    let trimmed = if pre_insert.len() == old(self).raw_cache.cap()
                        && pre_insert.len() > 0 {
                        pre_insert.drop_last()
                    } else {
                        pre_insert
                    };
                    assert forall|j: int| 0 <= j < inserted.len() implies exists|p2: int|
                        0 <= p2 < old(self).index@.len() && old(self).index@[p2].chunk_id == (
                        #[trigger] inserted[j]).0 && inserted[j].1 == chunk_bytes(
                            resource@,
                            old(self).index@[p2],
                        ) by {
                        if j == 0 {
                            let q = choose|q: int|
                                0 <= q < old(self).index@.len() && old(self).index@[q] == *entry;
                            assert(old(self).index@[q].chunk_id == inserted[0].0);
                        } else {
                            assert(inserted[j] == trimmed[j - 1]);
                            assert(trimmed[j - 1] == pre_insert[j - 1]);
                        }
                    }
                }
                out
            },
            crate::cache::ChunkSource::FetchWhole => {
                // Construction fails fast without range support, so an
                // archive handle in use always has it.
                proof {
                    assert(false);
                }
                Vec::new()
            },
        }
    }
}

/// A node whose chunk has been fetched and parsed, waiting for its
/// guard verdicts: the external evaluator decides each guarded entry
/// between `load_node_begin` and `load_node_finish`.
pub struct NodePending {
    /// The validated node position in the index.
    pub idx: usize,
    /// The parsed content sequence, one verdict owed per entry.
    pub entries: Vec<ContentEntry>,
    /// The parsed outgoing-edge chunk identifiers.
    pub edge_cids: Vec<ChunkId>,
}

/// True when `pending` holds exactly what the node chunk at its
/// position parses to.
pub open spec fn pending_wf(index: Seq<IndexEntry>, resource: Seq<u8>, pending: NodePending) -> bool {
    &&& pending.idx < index.len()
    &&& index[pending.idx as int].chunk_type == ChunkType::Node
    &&& entry_in_range(index[pending.idx as int], resource)
    &&& match spec_chunk_payload(chunk_bytes(resource, index[pending.idx as int])) {
        Some(p) => {
            &&& crate::tlv::content_seq_wf(p)
            &&& pending.entries@.len() == crate::tlv::content_seq_count(p)
            &&& (forall|k: int|
                0 <= k < pending.entries@.len() ==> crate::tlv::centry_matches(
                    p,
                    k,
                    #[trigger] pending.entries@[k],
                ))
            &&& crate::tlv::spec_node_edge_ids(p) == Some(pending.edge_cids@)
        },
        None => false,
    }
}

/// The decoded text behind one content chunk identifier: resolved
/// against the index, fetched, decompressed and decoded.
pub open spec fn resolved_text(index: Seq<IndexEntry>, resource: Seq<u8>, cid: ChunkId) -> Option<
    Seq<char>,
> {
    match find_typed(index, ChunkType::Content, cid) {
        Some(p) => if entry_in_range(index[p], resource) {
            spec_chunk_text(chunk_bytes(resource, index[p]))
        } else {
            None
        },
        None => None,
    }
}

/// The concatenation of the resolved texts of `cids`, in order; absent
/// when any of them fails to resolve or decode.
pub open spec fn texts_concat(
    index: Seq<IndexEntry>,
    resource: Seq<u8>,
    cids: Seq<ChunkId>,
) -> Option<Seq<char>>
    decreases cids.len(),
{
    if cids.len() == 0 {
        Some(Seq::<char>::empty())
    } else {
        match texts_concat(index, resource, cids.drop_last()) {
            Some(prefix) => match resolved_text(index, resource, cids.last()) {
                Some(t) => Some(prefix + t),
                None => None,
            },
            None => None,
        }
    }
}

/// True when `out` is the edge view that the outgoing-edge identifier
/// `ecid` resolves to: its chunk decodes to a label identifier and a
/// destination identifier, the label's text is `out.label`, and
/// `out.dest_idx` is the position of the destination Node entry.
pub open spec fn edge_view_ok(
    index: Seq<IndexEntry>,
    resource: Seq<u8>,
    ecid: ChunkId,
    out: EdgeOutput,
) -> bool {
    match find_typed(index, ChunkType::Edge, ecid) {
        Some(p) => entry_in_range(index[p], resource) && match spec_edge_meta(
            chunk_bytes(resource, index[p]),
        ) {
            Some(meta) => {
                &&& resolved_text(index, resource, meta.0) == Some(out.label@)
                &&& find_typed(index, ChunkType::Node, meta.1) == Some(out.dest_idx as int)
            },
            None => false,
        },
        None => false,
    }
}

/// True when the outgoing-edge identifier `ecid` can be fully resolved:
/// its chunk decodes, its label's text decodes, and its destination
/// names a Node entry.
pub open spec fn edge_loadable(index: Seq<IndexEntry>, resource: Seq<u8>, ecid: ChunkId) -> bool {
    match find_typed(index, ChunkType::Edge, ecid) {
        Some(p) => entry_in_range(index[p], resource) && match spec_edge_meta(
            chunk_bytes(resource, index[p]),
        ) {
            Some(meta) => resolved_text(index, resource, meta.0) is Some && find_typed(
                index,
                ChunkType::Node,
                meta.1,
            ) is Some,
            None => false,
        },
        None => false,
    }
}

/// Wellformedness of one node of the archive: the position names a Node
/// entry whose chunk decodes, every entry of its content sequence
/// resolves to decodable text (whatever the guards decide), and every
/// outgoing edge fully resolves. On such a node, loading succeeds.
pub open spec fn node_loadable(index: Seq<IndexEntry>, resource: Seq<u8>, idx: int) -> bool {
    &&& 0 <= idx < index.len()
    &&& index[idx].chunk_type == ChunkType::Node
    &&& entry_in_range(index[idx], resource)
    &&& match spec_chunk_payload(chunk_bytes(resource, index[idx])) {
        Some(p) => {
            &&& crate::tlv::content_seq_wf(p)
            &&& (forall|k: int|
                0 <= k < crate::tlv::content_seq_count(p) ==> #[trigger] resolved_text(
                    index,
                    resource,
                    crate::tlv::id_at(p, crate::tlv::centry_pos(p, k) + 13),
                ) is Some)
            &&& match crate::tlv::spec_node_edge_ids(p) {
                Some(ecids) => forall|k: int|
                    0 <= k < ecids.len() ==> edge_loadable(index, resource, #[trigger] ecids[k]),
                None => false,
            }
        },
        None => false,
    }
}

impl CyoaGame {
    /// Loads and parses the node chunk at `idx` from an in-memory copy
    /// of the resource (steps 1 and 2 of node resolution). The caller
    /// evaluates the guards of the returned content sequence and hands
    /// the verdicts to `load_node_finish`.
    pub fn load_node_begin(&mut self, resource: &[u8], idx: usize) -> (r: Result<
        NodePending,
        GameError,
    >)
        requires
            old(self).supports_range,
            ids_coherent(old(self).index@, resource@),
            cache_coherent(old(self).raw_cache.contents(), old(self).index@, resource@),
        ensures
            final(self).index == old(self).index,
            final(self).url == old(self).url,
            final(self).size == old(self).size,
            final(self).supports_range == old(self).supports_range,
            final(self).raw_cache.cap() == old(self).raw_cache.cap(),
            cache_coherent(final(self).raw_cache.contents(), final(self).index@, resource@),
            match r {
                Ok(pending) => pending.idx == idx && pending_wf(
                    old(self).index@,
                    resource@,
                    pending,
                ),
                Err(e) => {
                    &&& !node_loadable(old(self).index@, resource@, idx as int)
                    &&& (e is Parse || e is Other)
                    &&& (e is Other ==> idx < old(self).index@.len()
                        && crate::tlv::chunk_inflation_failed(
                        chunk_bytes(resource@, old(self).index@[idx as int]),
                    ))
                },
            },
    {
        let entry = match self.locate_node(idx) {
            Ok(e) => e,
            Err(e) => { return Err(e) },
        };
        let rl = resource.len() as u64;
        if entry.length == 0 || entry.offset > rl || entry.length as u64 > rl - entry.offset {
            return Err(GameError::Parse("chunk range invalid"));
        }
        let raw = self.get_raw_chunk(resource, &entry);
        let payload = match crate::tlv::chunk_payload(raw.as_slice()) {
            Ok(p) => p,
            Err(e) => { return Err(e) },
        };
        let entries = match crate::tlv::parse_node_content_seq(payload.as_slice()) {
            Ok(v) => v,
            Err(e) => { return Err(e) },
        };
        let edge_cids = match crate::tlv::parse_node_edges_ids(payload.as_slice()) {
            Ok(v) => v,
            Err(e) => { return Err(e) },
        };
        Ok(NodePending { idx, entries, edge_cids })
    }
}

/// Every identifier that survives guard filtering is the content
/// identifier of some entry of the sequence.
proof fn lemma_selected_member(entries: Seq<ContentEntry>, verdicts: Seq<bool>, x: ChunkId)
    requires
        selected_ids(entries, verdicts).contains(x),
    ensures
        exists|j: int| 0 <= j < entries.len() && (#[trigger] entries[j]).content_id == x,
    decreases entries.len(),
{
    if entries.len() == 0 {
    } else {
        let prefix = selected_ids(entries.drop_last(), verdicts.drop_last());
        let kept = entries.last().guard is None || verdicts[entries.len() - 1];
        if kept && entries.last().content_id == x {
            assert(entries[entries.len() - 1].content_id == x);
        } else {
            assert(prefix.contains(x));
            lemma_selected_member(entries.drop_last(), verdicts.drop_last(), x);
            let j = choose|j: int|
                0 <= j < entries.drop_last().len() && entries.drop_last()[j].content_id == x;
            assert(entries[j].content_id == x);
        }
    }
}

/// A surviving content identifier that cannot be resolved to decodable
/// text refutes the node's loadability.
proof fn lemma_content_failure(
    index: Seq<IndexEntry>,
    resource: Seq<u8>,
    pending: NodePending,
    verdicts: Seq<bool>,
    cid: ChunkId,
)
    requires
        pending_wf(index, resource, pending),
        verdicts.len() == pending.entries@.len(),
        selected_ids(pending.entries@, verdicts).contains(cid),
        resolved_text(index, resource, cid) is None,
    ensures
        !node_loadable(index, resource, pending.idx as int),
{
    lemma_selected_member(pending.entries@, verdicts, cid);
    let j = choose|j: int|
        0 <= j < pending.entries@.len() && (#[trigger] pending.entries@[j]).content_id == cid;
    let p = spec_chunk_payload(chunk_bytes(resource, index[pending.idx as int]))->Some_0;
    assert(crate::tlv::centry_matches(p, j, pending.entries@[j]));
    assert(pending.entries@[j].content_id == crate::tlv::id_at(
        p,
        crate::tlv::centry_pos(p, j) + 13,
    ));
    if node_loadable(index, resource, pending.idx as int) {
        assert(resolved_text(
            index,
            resource,
            crate::tlv::id_at(p, crate::tlv::centry_pos(p, j) + 13),
        ) is Some);
        assert(false);
    }
}

/// An outgoing-edge identifier that cannot be fully resolved refutes
/// the node's loadability.
proof fn lemma_edge_failure(
    index: Seq<IndexEntry>,
    resource: Seq<u8>,
    pending: NodePending,
    k: int,
)
    requires
        pending_wf(index, resource, pending),
        0 <= k < pending.edge_cids@.len(),
        !edge_loadable(index, resource, pending.edge_cids@[k]),
    ensures
        !node_loadable(index, resource, pending.idx as int),
{
    let p = spec_chunk_payload(chunk_bytes(resource, index[pending.idx as int]))->Some_0;
    assert(crate::tlv::spec_node_edge_ids(p) == Some(pending.edge_cids@));
    if node_loadable(index, resource, pending.idx as int) {
        let ecids = crate::tlv::spec_node_edge_ids(p)->Some_0;
        assert(ecids == pending.edge_cids@);
        assert(edge_loadable(index, resource, ecids[k]));
        assert(false);
    }
}

impl CyoaGame {
    /// Finishes loading a prepared node with the guard verdicts the
    /// caller obtained (one per content-sequence entry): fetches and
    /// decodes the surviving content chunks, the edge chunks and their
    /// labels, resolves every destination to a node position, and
    /// assembles the node view. Succeeds on every node that
    /// `node_loadable` describes; every returned `dest_idx` is a valid
    /// Node position.
    pub fn load_node_finish(
        &mut self,
        resource: &[u8],
        pending: &NodePending,
        verdicts: &Vec<bool>,
    ) -> (r: Result<NodeOutput, GameError>)
        requires
            old(self).supports_range,
            ids_coherent(old(self).index@, resource@),
            cache_coherent(old(self).raw_cache.contents(), old(self).index@, resource@),
            pending_wf(old(self).index@, resource@, *pending),
            verdicts@.len() == pending.entries@.len(),
            old(self).index@.len() <= u32::MAX,
        ensures
            final(self).index == old(self).index,
            final(self).url == old(self).url,
            final(self).size == old(self).size,
            final(self).supports_range == old(self).supports_range,
            final(self).raw_cache.cap() == old(self).raw_cache.cap(),
            cache_coherent(final(self).raw_cache.contents(), final(self).index@, resource@),
            match r {
                Ok(out) => {
                    &&& texts_concat(
                        old(self).index@,
                        resource@,
                        selected_ids(pending.entries@, verdicts@),
                    ) == Some(out.content@)
                    &&& out.edges@.len() == pending.edge_cids@.len()
                    &&& (forall|k: int|
                        0 <= k < out.edges@.len() ==> edge_view_ok(
                            old(self).index@,
                            resource@,
                            pending.edge_cids@[k],
                            #[trigger] out.edges@[k],
                        ))
                    &&& (forall|k: int|
                        0 <= k < out.edges@.len() ==> (#[trigger] out.edges@[k]).dest_idx < old(
                            self,
                        ).index@.len() && old(self).index@[out.edges@[k].dest_idx as int].chunk_type
                            == ChunkType::Node)
                },
                Err(e) => {
                    &&& !node_loadable(old(self).index@, resource@, pending.idx as int)
                    &&& (e is Parse || e is Other)
                    &&& (e is Other ==> exists|j: int|
                        0 <= j < old(self).index@.len() && crate::tlv::chunk_inflation_failed(
                            chunk_bytes(resource@, #[trigger] old(self).index@[j]),
                        ))
                },
            },
    {
        let selected = select_content(&pending.entries, verdicts);
        let mut acc = String::new();
        let mut i: usize = 0;
        let n = selected.len();
        while i < n
            invariant
                n == selected@.len(),
                i <= n,
                selected@ == selected_ids(pending.entries@, verdicts@),
                verdicts@.len() == pending.entries@.len(),
                self.supports_range == old(self).supports_range,
                self.index == old(self).index,
                self.url == old(self).url,
                self.size == old(self).size,
                self.raw_cache.cap() == old(self).raw_cache.cap(),
                self.index@.len() <= u32::MAX,
                old(self).supports_range,
                ids_coherent(old(self).index@, resource@),
                cache_coherent(self.raw_cache.contents(), old(self).index@, resource@),
                pending_wf(old(self).index@, resource@, *pending),
                texts_concat(old(self).index@, resource@, selected@.take(i as int)) == Some(acc@),
            decreases n - i,
        {
            let ghost index = old(self).index@;
            let cid = selected[i];
            proof {
                assert(selected@[i as int] == cid);
                assert(selected@.contains(cid));
            }
            let (cpos, centry) = match self.find_entry(ChunkType::Content, cid) {
                Some(pe) => pe,
                None => {
                    proof {
                        assert(resolved_text(index, resource@, cid) is None);
                        lemma_content_failure(index, resource@, *pending, verdicts@, cid);
                    }
                    return Err(GameError::Parse("content chunk not found"));
                },
            };
            let rl = resource.len() as u64;
            if centry.length == 0 || centry.offset > rl || centry.length as u64 > rl
                - centry.offset {
                proof {
                    assert(resolved_text(index, resource@, cid) is None);
                    lemma_content_failure(index, resource@, *pending, verdicts@, cid);
                }
                return Err(GameError::Parse("chunk range invalid"));
            }
            proof {
                assert(self.index@[cpos as int] == centry);
            }
            let raw = self.get_raw_chunk(resource, &centry);
            let payload = match crate::tlv::chunk_payload(raw.as_slice()) {
                Ok(p) => p,
                Err(e) => {
                    proof {
                        assert(resolved_text(index, resource@, cid) is None);
                        lemma_content_failure(index, resource@, *pending, verdicts@, cid);
                        if e is Other {
                            assert(crate::tlv::chunk_inflation_failed(
                                chunk_bytes(resource@, index[cpos as int]),
                            ));
                        }
                    }
                    return Err(e);
                },
            };
            let txt = match crate::tlv::parse_content_text(payload.as_slice()) {
                Ok(t) => t,
                Err(e) => {
                    proof {
                        assert(resolved_text(index, resource@, cid) is None);
                        lemma_content_failure(index, resource@, *pending, verdicts@, cid);
                    }
                    return Err(e);
                },
            };
            acc.append(txt.as_str());
            proof {
                assert(selected@.take(i + 1).drop_last() =~= selected@.take(i as int));
                assert(selected@.take(i + 1).last() == selected@[i as int]);
                assert(resolved_text(index, resource@, cid) == Some(txt@));
            }
            i = i + 1;
        }
        proof {
            assert(selected@.take(n as int) =~= selected@);
        }
        let m = pending.edge_cids.len();
        let mut edges: Vec<EdgeOutput> = Vec::new();
        let mut k: usize = 0;
        while k < m
            invariant
                m == pending.edge_cids@.len(),
                k <= m,
                self.supports_range == old(self).supports_range,
                self.index == old(self).index,
                self.url == old(self).url,
                self.size == old(self).size,
                self.raw_cache.cap() == old(self).raw_cache.cap(),
                self.index@.len() <= u32::MAX,
                old(self).supports_range,
                ids_coherent(old(self).index@, resource@),
                cache_coherent(self.raw_cache.contents(), old(self).index@, resource@),
                pending_wf(old(self).index@, resource@, *pending),
                edges@.len() == k as int,
                forall|j: int|
                    0 <= j < k as int ==> edge_view_ok(
                        old(self).index@,
                        resource@,
                        pending.edge_cids@[j],
                        #[trigger] edges@[j],
                    ),
                forall|j: int|
                    0 <= j < k as int ==> (#[trigger] edges@[j]).dest_idx < old(self).index@.len()
                        && old(self).index@[edges@[j].dest_idx as int].chunk_type
                        == ChunkType::Node,
            decreases m - k,
        {
            let ghost index = old(self).index@;
            let ecid = pending.edge_cids[k];
            let (epos, eentry) = match self.find_entry(ChunkType::Edge, ecid) {
                Some(pe) => pe,
                None => {
                    proof {
                        assert(!edge_loadable(index, resource@, ecid));
                        assert(pending.edge_cids@[k as int] == ecid);
                        lemma_edge_failure(index, resource@, *pending, k as int);
                    }
                    return Err(GameError::Parse("edge chunk not found"));
                },
            };
            let rl = resource.len() as u64;
            if eentry.length == 0 || eentry.offset > rl || eentry.length as u64 > rl
                - eentry.offset {
                proof {
                    assert(!edge_loadable(index, resource@, ecid));
                    assert(pending.edge_cids@[k as int] == ecid);
                    lemma_edge_failure(index, resource@, *pending, k as int);
                }
                return Err(GameError::Parse("chunk range invalid"));
            }
            proof {
                assert(self.index@[epos as int] == eentry);
            }
            let raw = self.get_raw_chunk(resource, &eentry);
            let payload = match crate::tlv::chunk_payload(raw.as_slice()) {
                Ok(p) => p,
                Err(e) => {
                    proof {
                        assert(!edge_loadable(index, resource@, ecid));
                        assert(pending.edge_cids@[k as int] == ecid);
                        lemma_edge_failure(index, resource@, *pending, k as int);
                        if e is Other {
                            assert(crate::tlv::chunk_inflation_failed(
                                chunk_bytes(resource@, index[epos as int]),
                            ));
                        }
                    }
                    return Err(e);
                },
            };
            let meta = match crate::tlv::parse_edge_label_dest_cids(payload.as_slice()) {
                Ok(pair) => pair,
                Err(e) => {
                    proof {
                        assert(!edge_loadable(index, resource@, ecid));
                        assert(pending.edge_cids@[k as int] == ecid);
                        lemma_edge_failure(index, resource@, *pending, k as int);
                    }
                    return Err(e);
                },
            };
            let (lpos, lentry) = match self.find_entry(ChunkType::Content, meta.0) {
                Some(pe) => pe,
                None => {
                    proof {
                        assert(!edge_loadable(index, resource@, ecid));
                        assert(pending.edge_cids@[k as int] == ecid);
                        lemma_edge_failure(index, resource@, *pending, k as int);
                    }
                    return Err(GameError::Parse("label content not found"));
                },
            };
            if lentry.length == 0 || lentry.offset > rl || lentry.length as u64 > rl
                - lentry.offset {
                proof {
                    assert(!edge_loadable(index, resource@, ecid));
                    assert(pending.edge_cids@[k as int] == ecid);
                    lemma_edge_failure(index, resource@, *pending, k as int);
                }
                return Err(GameError::Parse("chunk range invalid"));
            }
            proof {
                assert(self.index@[lpos as int] == lentry);
            }
            let lraw = self.get_raw_chunk(resource, &lentry);
            let lpayload = match crate::tlv::chunk_payload(lraw.as_slice()) {
                Ok(p) => p,
                Err(e) => {
                    proof {
                        assert(!edge_loadable(index, resource@, ecid));
                        assert(pending.edge_cids@[k as int] == ecid);
                        lemma_edge_failure(index, resource@, *pending, k as int);
                        if e is Other {
                            assert(crate::tlv::chunk_inflation_failed(
                                chunk_bytes(resource@, index[lpos as int]),
                            ));
                        }
                    }
                    return Err(e);
                },
            };
            let label = match crate::tlv::parse_content_text(lpayload.as_slice()) {
                Ok(t) => t,
                Err(e) => {
                    proof {
                        assert(!edge_loadable(index, resource@, ecid));
                        assert(pending.edge_cids@[k as int] == ecid);
                        lemma_edge_failure(index, resource@, *pending, k as int);
                    }
                    return Err(e);
                },
            };
            let dpos = match self.find_entry(ChunkType::Node, meta.1) {
                Some(pe) => pe.0,
                None => {
                    proof {
                        assert(!edge_loadable(index, resource@, ecid));
                        assert(pending.edge_cids@[k as int] == ecid);
                        lemma_edge_failure(index, resource@, *pending, k as int);
                    }
                    return Err(GameError::Parse("edge destination node not found"));
                },
            };
            proof {
                lemma_find_typed_props(index, ChunkType::Node, meta.1);
            }
            edges.push(EdgeOutput { label, dest_idx: dpos as u32 });
            proof {
                assert(edge_view_ok(index, resource@, ecid, edges@[k as int]));
            }
            k = k + 1;
        }
        Ok(NodeOutput { content: acc, edges })
    }
}

/// The root node's chunk identifier: the first 3 bytes of the
/// root-pointer metadata chunk's decompressed payload.
pub open spec fn spec_root_cid(raw: Seq<u8>) -> Option<ChunkId> {
    match spec_chunk_payload(raw) {
        Some(p) => if p.len() >= 3 {
            Some(id_at(p, 0))
        } else {
            None
        },
        None => None,
    }
}

/// Reads the root node's chunk identifier out of the fetched
/// root-pointer metadata chunk.
pub fn root_node_cid(raw: &[u8]) -> (r: Result<ChunkId, GameError>)
    ensures
        match r {
            Ok(cid) => spec_root_cid(raw@) == Some(cid),
            Err(e) => {
                &&& spec_root_cid(raw@) is None
                &&& (e is Parse || e is Other)
                &&& (e is Other <==> crate::tlv::chunk_inflation_failed(raw@))
            },
        },
{
    let payload = match chunk_payload(raw) {
        Ok(p) => p,
        Err(e) => { return Err(e) },
    };
    if payload.len() < 3 {
        return Err(GameError::Parse("root pointer too short"));
    }
    Ok(ChunkId { b0: payload[0], b1: payload[1], b2: payload[2] })
}

/// Wellformedness of the root path: a root-pointer metadata entry
/// exists, its chunk decodes to a node identifier that names a Node
/// entry, and that node is loadable.
pub open spec fn root_loadable(index: Seq<IndexEntry>, resource: Seq<u8>) -> bool {
    match find_typed(index, ChunkType::Metadata, root_pointer_id()) {
        Some(m) => entry_in_range(index[m], resource) && match spec_root_cid(
            chunk_bytes(resource, index[m]),
        ) {
            Some(c) => match find_typed(index, ChunkType::Node, c) {
                Some(p) => node_loadable(index, resource, p),
                None => false,
            },
            None => false,
        },
        None => false,
    }
}

impl CyoaGame {
    /// Begins loading the root node from an in-memory copy of the
    /// resource: locates the root-pointer metadata chunk, reads the
    /// root node's identifier out of it, resolves it to a node
    /// position, and prepares that node exactly as `load_node_begin`
    /// would. Absence of the metadata chunk is the distinguished
    /// missing-root failure.
    pub fn load_root_begin(&mut self, resource: &[u8]) -> (r: Result<NodePending, GameError>)
        requires
            old(self).supports_range,
            ids_coherent(old(self).index@, resource@),
            cache_coherent(old(self).raw_cache.contents(), old(self).index@, resource@),
        ensures
            final(self).index == old(self).index,
            final(self).url == old(self).url,
            final(self).size == old(self).size,
            final(self).supports_range == old(self).supports_range,
            final(self).raw_cache.cap() == old(self).raw_cache.cap(),
            cache_coherent(final(self).raw_cache.contents(), final(self).index@, resource@),
            match r {
                Ok(pending) => {
                    &&& find_typed(old(self).index@, ChunkType::Metadata, root_pointer_id())
                        matches Some(m) && entry_in_range(old(self).index@[m], resource@)
                        && spec_root_cid(chunk_bytes(resource@, old(self).index@[m])) is Some
                    &&& find_typed(old(self).index@, ChunkType::Node, root_cid_of(old(self).index@, resource@))
                        == Some(pending.idx as int)
                    &&& pending_wf(old(self).index@, resource@, pending)
                },
                Err(e) => {
                    &&& !root_loadable(old(self).index@, resource@)
                    &&& (e is MissingRoot <==> find_typed(
                        old(self).index@,
                        ChunkType::Metadata,
                        root_pointer_id(),
                    ) is None)
                    &&& (e is Other ==> exists|j: int|
                        0 <= j < old(self).index@.len() && crate::tlv::chunk_inflation_failed(
                            chunk_bytes(resource@, #[trigger] old(self).index@[j]),
                        ))
                },
            },
    {
        let entry = match self.locate_root_meta() {
            Ok(e) => e,
            Err(e) => { return Err(e) },
        };
        let ghost mpos = find_typed(
            self.index@,
            ChunkType::Metadata,
            root_pointer_id(),
        )->Some_0;
        let rl = resource.len() as u64;
        if entry.length == 0 || entry.offset > rl || entry.length as u64 > rl - entry.offset {
            return Err(GameError::Parse("chunk range invalid"));
        }
        proof {
            lemma_find_typed_props(self.index@, ChunkType::Metadata, root_pointer_id());
            assert(self.index@[mpos] == entry);
        }
        let raw = self.get_raw_chunk(resource, &entry);
        let cid = match root_node_cid(raw.as_slice()) {
            Ok(c) => c,
            Err(e) => { return Err(e) },
        };
        let pos = match self.root_node_position(cid) {
            Ok(p) => p,
            Err(e) => { return Err(e) },
        };
        self.load_node_begin(resource, pos)
    }
}

/// The root node's identifier as the archive bytes determine it,
/// for speaking of the root path in contracts.
pub open spec fn root_cid_of(index: Seq<IndexEntry>, resource: Seq<u8>) -> ChunkId
    recommends
        root_loadable(index, resource),
{
    match find_typed(index, ChunkType::Metadata, root_pointer_id()) {
        Some(m) => match spec_root_cid(chunk_bytes(resource, index[m])) {
            Some(c) => c,
            None => ChunkId { b0: 0, b1: 0, b2: 0 },
        },
        None => ChunkId { b0: 0, b1: 0, b2: 0 },
    }
}

/// Law: the node view is a function of the archive bytes, the node
/// position and the guard verdicts alone. Any two prepared states for
/// the same position (for instance one reached directly and one through
/// the root pointer) select the same content chunks and carry the same
/// outgoing edges, so finishing them with equal verdicts is ensured to
/// produce the same text and the same edge views.
pub proof fn lemma_node_view_determined(
    index: Seq<IndexEntry>,
    resource: Seq<u8>,
    a: NodePending,
    b: NodePending,
    verdicts: Seq<bool>,
)
    requires
        pending_wf(index, resource, a),
        pending_wf(index, resource, b),
        a.idx == b.idx,
    ensures
        selected_ids(a.entries@, verdicts) == selected_ids(b.entries@, verdicts),
        a.edge_cids@ == b.edge_cids@,
{
    let p = spec_chunk_payload(chunk_bytes(resource, index[a.idx as int]))->Some_0;
    assert(crate::tlv::spec_node_edge_ids(p) == Some(a.edge_cids@));
    assert(crate::tlv::spec_node_edge_ids(p) == Some(b.edge_cids@));
    assert(a.entries@.len() == b.entries@.len());
    assert forall|k: int| 0 <= k < a.entries@.len() implies (#[trigger] a.entries@[k]).content_id
        == b.entries@[k].content_id && (a.entries@[k].guard is None <==> b.entries@[k].guard
        is None) by {
        assert(crate::tlv::centry_matches(p, k, a.entries@[k]));
        assert(crate::tlv::centry_matches(p, k, b.entries@[k]));
    }
    lemma_selected_ids_congruent(a.entries@, b.entries@, verdicts);
}

/// Guard filtering depends only on each entry's content identifier and
/// guard presence.
proof fn lemma_selected_ids_congruent(
    a: Seq<ContentEntry>,
    b: Seq<ContentEntry>,
    verdicts: Seq<bool>,
)
    requires
        a.len() == b.len(),
        forall|k: int|
            0 <= k < a.len() ==> (#[trigger] a[k]).content_id == b[k].content_id && (a[k].guard
                is None <==> b[k].guard is None),
    ensures
        selected_ids(a, verdicts) == selected_ids(b, verdicts),
    decreases a.len(),
{
    if a.len() > 0 {
        assert forall|k: int| 0 <= k < a.drop_last().len() implies (#[trigger] a.drop_last()[k]).content_id
            == b.drop_last()[k].content_id && (a.drop_last()[k].guard is None
            <==> b.drop_last()[k].guard is None) by {
            assert(a.drop_last()[k] == a[k]);
            assert(b.drop_last()[k] == b[k]);
        }
        lemma_selected_ids_congruent(a.drop_last(), b.drop_last(), verdicts.drop_last());
        assert(a.last() == a[a.len() - 1]);
        assert(b.last() == b[a.len() - 1]);
    }
}

} // verus!
