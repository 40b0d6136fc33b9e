//! The binary format parser: pure decoding functions over byte slices
//! with an explicit read position. Every read that would exceed the
//! buffer, every unexpected discriminant byte, and every structural
//! inconsistency fails with a parse error; there is no partial-success
//! mode.
//!
//! All multi-byte integers in the format are little-endian. Each parser
//! is specified against spec functions that read the same fields
//! directly out of the byte sequence.

use vstd::prelude::*;

use crate::types::ChunkId;
use crate::types::ChunkType;
use crate::types::ContentEntry;
use crate::types::IndexEntry;
use crate::utils::GameError;

verus! {

// ---------------------------------------------------------------------
// Little-endian field readers
// ---------------------------------------------------------------------

/// The little-endian 16-bit value stored at byte offset `i`.
pub open spec fn u16_le(s: Seq<u8>, i: int) -> nat
    recommends
        0 <= i,
        i + 2 <= s.len(),
{
    s[i] as nat + 0x100 * (s[i + 1] as nat)
}

/// The little-endian 32-bit value stored at byte offset `i`.
pub open spec fn u32_le(s: Seq<u8>, i: int) -> nat
    recommends
        0 <= i,
        i + 4 <= s.len(),
{
    u16_le(s, i) + 0x1_0000 * u16_le(s, i + 2)
}

/// The little-endian 64-bit value stored at byte offset `i`.
pub open spec fn u64_le(s: Seq<u8>, i: int) -> nat
    recommends
        0 <= i,
        i + 8 <= s.len(),
{
    u32_le(s, i) + 0x1_0000_0000 * u32_le(s, i + 4)
}

/// The 3-byte chunk identifier stored at byte offset `i`.
pub open spec fn id_at(s: Seq<u8>, i: int) -> ChunkId
    recommends
        0 <= i,
        i + 3 <= s.len(),
{
    ChunkId { b0: s[i], b1: s[i + 1], b2: s[i + 2] }
}

fn read_u16_le(data: &[u8], pos: usize) -> (r: u16)
    requires
        pos + 2 <= data@.len(),
    ensures
        r as nat == u16_le(data@, pos as int),
{
    data[pos] as u16 + 0x100 * (data[pos + 1] as u16)
}

fn read_u32_le(data: &[u8], pos: usize) -> (r: u32)
    requires
        pos + 4 <= data@.len(),
    ensures
        r as nat == u32_le(data@, pos as int),
{
    let n = data.len();
    read_u16_le(data, pos) as u32 + 0x1_0000 * (read_u16_le(data, pos + 2) as u32)
}

fn read_u64_le(data: &[u8], pos: usize) -> (r: u64)
    requires
        pos + 8 <= data@.len(),
    ensures
        r as nat == u64_le(data@, pos as int),
{
    let n = data.len();
    read_u32_le(data, pos) as u64 + 0x1_0000_0000 * (read_u32_le(data, pos + 4) as u64)
}

fn read_id(data: &[u8], pos: usize) -> (r: ChunkId)
    requires
        pos + 3 <= data@.len(),
    ensures
        r == id_at(data@, pos as int),
{
    ChunkId { b0: data[pos], b1: data[pos + 1], b2: data[pos + 2] }
}

// ---------------------------------------------------------------------
// Fixed header
// ---------------------------------------------------------------------

/// True when the resource begins with the 4-byte magic literal `CYOA`.
pub open spec fn magic_ok(s: Seq<u8>) -> bool {
    s.len() >= 4 && s[0] == 0x43u8 && s[1] == 0x59u8 && s[2] == 0x4fu8 && s[3] == 0x41u8
}

/// Number of bytes in the fixed CYOA header: 4 magic bytes, 10 reserved
/// bytes, and the 8-byte index offset.
pub const HEADER_LEN: usize = 22;

/// Parses the fixed-length file header and returns the byte offset
/// where the index blob begins. Rejects a wrong magic regardless of the
/// remaining bytes.
pub fn parse_header(header: &[u8]) -> (r: Result<u64, GameError>)
    ensures
        match r {
            Ok(off) => header@.len() >= 22 && magic_ok(header@) && off as nat == u64_le(
                header@,
                14,
            ),
            Err(e) => match e {
                GameError::InvalidMagic => !magic_ok(header@),
                GameError::Parse(_) => magic_ok(header@) && header@.len() < 22,
                _ => false,
            },
        },
{
    if header.len() < 4 {
        return Err(GameError::InvalidMagic);
    }
    // The magic literal `CYOA` in ASCII.
    if !(header[0] == 0x43 && header[1] == 0x59 && header[2] == 0x4f && header[3] == 0x41) {
        return Err(GameError::InvalidMagic);
    }
    if header.len() < 22 {
        return Err(GameError::Parse("Read u64 error"));
    }
    Ok(read_u64_le(header, 14))
}

// ---------------------------------------------------------------------
// Chunk index
// ---------------------------------------------------------------------

/// True when `b` is one of the six chunk type codes of the wire format.
pub open spec fn type_code_valid(b: u8) -> bool {
    b == 0x01 || b == 0x02 || b == 0x03 || b == 0x04 || b == 0xFD || b == 0xFE
}

/// The chunk type encoded by the wire code `b`.
pub open spec fn type_of_code(b: u8) -> ChunkType
    recommends
        type_code_valid(b),
{
    if b == 0x01 {
        ChunkType::Node
    } else if b == 0x02 {
        ChunkType::Edge
    } else if b == 0x03 {
        ChunkType::Content
    } else if b == 0x04 {
        ChunkType::Metadata
    } else if b == 0xFD {
        ChunkType::ArgBlobPool
    } else {
        ChunkType::WasmTable
    }
}

/// The entry count stored at the front of the index blob.
pub open spec fn index_count(s: Seq<u8>) -> nat
    recommends
        s.len() >= 4,
{
    u32_le(s, 0)
}

/// The `k`-th index entry: 1 type byte, 3 id bytes, 8 offset bytes and
/// 4 length bytes, 16 bytes in all.
pub open spec fn index_entry_at(s: Seq<u8>, k: int) -> IndexEntry
    recommends
        0 <= k,
        4 + 16 * k + 16 <= s.len(),
        type_code_valid(s[4 + 16 * k]),
{
    IndexEntry {
        chunk_type: type_of_code(s[4 + 16 * k]),
        chunk_id: id_at(s, 4 + 16 * k + 1),
        offset: u64_le(s, 4 + 16 * k + 4) as u64,
        length: u32_le(s, 4 + 16 * k + 12) as u32,
    }
}

/// True when the index blob holds its declared number of entries and
/// every entry carries a known chunk type code.
pub open spec fn index_wf(s: Seq<u8>) -> bool {
    &&& s.len() >= 4
    &&& 4 + 16 * index_count(s) <= s.len()
    &&& forall|k: int| 0 <= k < index_count(s) ==> type_code_valid(#[trigger] s[4 + 16 * k])
}

/// Parses the on-disk index blob into the ordered list of entries.
/// Bytes after the declared entries are ignored.
pub fn parse_index(blob: &[u8]) -> (r: Result<Vec<IndexEntry>, GameError>)
    ensures
        match r {
            Ok(v) => index_wf(blob@) && v@.len() == index_count(blob@) && forall|k: int|
                0 <= k < v@.len() ==> v@[k] == index_entry_at(blob@, k),
            Err(e) => !index_wf(blob@) && e is Parse,
        },
{
    if blob.len() < 4 {
        return Err(GameError::Parse("Read u32 error"));
    }
    let cnt = read_u32_le(blob, 0);
    let mut out: Vec<IndexEntry> = Vec::new();
    let mut i: u32 = 0;
    let mut pos: usize = 4;
    while i < cnt
        invariant
            i <= cnt,
            cnt as nat == index_count(blob@),
            pos == 4 + 16 * (i as int),
            pos <= blob@.len(),
            out@.len() == i as int,
            forall|k: int| 0 <= k < i as int ==> type_code_valid(#[trigger] blob@[4 + 16 * k]),
            forall|k: int| 0 <= k < i as int ==> out@[k] == index_entry_at(blob@, k),
        decreases cnt - i,
    {
        if blob.len() - pos < 16 {
            assert(!index_wf(blob@));
            return Err(GameError::Parse("Read id"));
        }
        let t = blob[pos];
        let chunk_type = if t == 0x01 {
            ChunkType::Node
        } else if t == 0x02 {
            ChunkType::Edge
        } else if t == 0x03 {
            ChunkType::Content
        } else if t == 0x04 {
            ChunkType::Metadata
        } else if t == 0xFD {
            ChunkType::ArgBlobPool
        } else if t == 0xFE {
            ChunkType::WasmTable
        } else {
            assert(!type_code_valid(blob@[4 + 16 * (i as int)]));
            assert(!index_wf(blob@));
            return Err(GameError::Parse("Unknown chunk type"));
        };
        let chunk_id = read_id(blob, pos + 1);
        let offset = read_u64_le(blob, pos + 4);
        let length = read_u32_le(blob, pos + 12);
        out.push(IndexEntry { chunk_type, chunk_id, offset, length });
        i = i + 1;
        pos = pos + 16;
    }
    Ok(out)
}

// ---------------------------------------------------------------------
// Chunk envelope (TLV)
// ---------------------------------------------------------------------

/// True when bit 0 of the envelope's flags byte marks the payload as
/// compressed.
pub open spec fn tlv_compressed(s: Seq<u8>) -> bool
    recommends
        s.len() >= 5,
{
    s[4] & 1 != 0
}

/// Envelope length: 9 bytes, plus 4 for the uncompressed length when
/// the compressed flag is set.
pub open spec fn tlv_hlen(s: Seq<u8>) -> int
    recommends
        s.len() >= 5,
{
    if tlv_compressed(s) {
        13
    } else {
        9
    }
}

/// True when the buffer is long enough to hold the whole envelope.
pub open spec fn tlv_wf(s: Seq<u8>) -> bool {
    s.len() >= 9 && (tlv_compressed(s) ==> s.len() >= 13)
}

/// Reads a TLV chunk envelope from `raw` and returns
/// `(type, id, flags, compressed_len, uncompressed_len_opt, envelope_len)`.
pub fn parse_tlv_header(raw: &[u8]) -> (r: Result<
    (u8, ChunkId, u8, u32, Option<u32>, usize),
    GameError,
>)
    ensures
        match r {
            Ok(h) => {
                &&& tlv_wf(raw@)
                &&& h.0 == raw@[0]
                &&& h.1 == id_at(raw@, 1)
                &&& h.2 == raw@[4]
                &&& h.3 as nat == u32_le(raw@, 5)
                &&& if tlv_compressed(raw@) {
                    h.4 matches Some(u) && u as nat == u32_le(raw@, 9)
                } else {
                    h.4 is None
                }
                &&& h.5 as int == tlv_hlen(raw@)
            },
            Err(e) => !tlv_wf(raw@) && e is Parse,
        },
{
    if raw.len() < 9 {
        return Err(GameError::Parse("Read comp len"));
    }
    let t = raw[0];
    let id = read_id(raw, 1);
    let flags = raw[4];
    let comp = read_u32_le(raw, 5);
    if flags & 1 != 0 {
        if raw.len() < 13 {
            return Err(GameError::Parse("Read unlen"));
        }
        let un = read_u32_le(raw, 9);
        Ok((t, id, flags, comp, Some(un), 13))
    } else {
        Ok((t, id, flags, comp, None, 9))
    }
}

// ---------------------------------------------------------------------
// Decompression
// ---------------------------------------------------------------------

/// What zstd's one-shot decompression produces for the given source
/// bytes and destination capacity: `None` on an engine error, otherwise
/// the written bytes (at most `cap` of them). Deterministic in its
/// arguments.
pub uninterp spec fn zstd_inflated(src: Seq<u8>, cap: nat) -> Option<Seq<u8>>;

/// Relies on zstd_safe::decompress (the one-shot `ZSTD_decompress`):
/// its result is a function of the source bytes and the destination
/// capacity alone, and on success the returned count of written bytes
/// never exceeds that capacity.
#[verifier::external_body]
fn zstd_decompress(src: &[u8], target: usize) -> (r: Result<Vec<u8>, usize>)
    ensures
        match r {
            Ok(v) => zstd_inflated(src@, target as nat) == Some(v@) && v@.len() <= target,
            Err(_) => zstd_inflated(src@, target as nat) is None,
        },
{
    let mut out = vec![0u8; target];
    match zstd_safe::decompress(out.as_mut_slice(), src) {
        Ok(written) => {
            out.truncate(written);
            Ok(out)
        },
        Err(code) => Err(code),
    }
}

/// Relies on zstd_safe::get_error_name: maps a zstd error code to its
/// static description, used only as the free-text detail of an error.
#[verifier::external_body]
fn zstd_error_name(code: usize) -> (r: String)
{
    zstd_safe::get_error_name(code).to_owned()
}

/// The payload bytes produced from a chunk body: the body itself when
/// the compressed flag is clear, otherwise what zstd inflates it to
/// within the declared uncompressed length.
pub open spec fn payload_of(flags: u8, data: Seq<u8>, un: Option<u32>) -> Option<Seq<u8>> {
    if flags & 1 == 0 {
        Some(data)
    } else {
        match un {
            Some(target) => zstd_inflated(data, target as nat),
            None => None,
        }
    }
}

/// Decompresses `data` with zstd when bit 0 of `flags` is set,
/// otherwise returns the bytes unchanged. A declared uncompressed
/// length larger than what is actually produced is not an error; an
/// engine error is.
pub fn decompress_payload(flags: u8, data: &[u8], un: Option<u32>) -> (r: Result<
    Vec<u8>,
    GameError,
>)
    ensures
        match r {
            Ok(v) => {
                &&& payload_of(flags, data@, un) == Some(v@)
                &&& flags & 1 != 0 ==> (un matches Some(target) && v@.len() <= target)
            },
            Err(e) => {
                &&& payload_of(flags, data@, un) is None
                &&& if un is None {
                    e is Parse
                } else {
                    e is Other
                }
            },
        },
{
    if flags & 1 != 0 {
        let target = match un {
            Some(u) => u,
            None => { return Err(GameError::Parse("Missing uncompressed length")) },
        };
        match zstd_decompress(data, target as usize) {
            Ok(v) => Ok(v),
            Err(code) => Err(GameError::Other(zstd_error_name(code))),
        }
    } else {
        Ok(vstd::slice::slice_to_vec(data))
    }
}

/// The decompressed payload of a whole raw chunk (envelope followed by
/// body), when the envelope is well-formed, the declared body length
/// lies inside the buffer, and decompression succeeds.
pub open spec fn spec_chunk_payload(raw: Seq<u8>) -> Option<Seq<u8>> {
    if tlv_wf(raw) && tlv_hlen(raw) + u32_le(raw, 5) <= raw.len() {
        payload_of(
            raw[4],
            raw.subrange(tlv_hlen(raw), tlv_hlen(raw) + u32_le(raw, 5)),
            if tlv_compressed(raw) {
                Some(u32_le(raw, 9) as u32)
            } else {
                None
            },
        )
    } else {
        None
    }
}

/// True when the chunk's envelope and body are in bounds and marked
/// compressed, but zstd fails to inflate the body: the one condition
/// under which decoding a chunk reports an Other error rather than a
/// Parse error.
pub open spec fn chunk_inflation_failed(raw: Seq<u8>) -> bool {
    &&& tlv_wf(raw)
    &&& tlv_hlen(raw) + u32_le(raw, 5) <= raw.len()
    &&& tlv_compressed(raw)
    &&& zstd_inflated(
        raw.subrange(tlv_hlen(raw), tlv_hlen(raw) + u32_le(raw, 5)),
        u32_le(raw, 9),
    ) is None
}

/// Parses a chunk's envelope and returns its decompressed payload. A
/// structural failure is a Parse error; only a zstd engine failure is
/// an Other error.
pub fn chunk_payload(raw: &[u8]) -> (r: Result<Vec<u8>, GameError>)
    ensures
        match r {
            Ok(v) => spec_chunk_payload(raw@) == Some(v@),
            Err(e) => {
                &&& spec_chunk_payload(raw@) is None
                &&& (e is Parse || e is Other)
                &&& (e is Other <==> chunk_inflation_failed(raw@))
            },
        },
{
    let (_t, _id, flags, comp, un, hlen) = match parse_tlv_header(raw) {
        Ok(h) => h,
        Err(e) => { return Err(e) },
    };
    if (comp as usize) > raw.len() - hlen {
        return Err(GameError::Parse("Chunk body out of range"));
    }
    let body = &raw[hlen..hlen + comp as usize];
    decompress_payload(flags, body, un)
}

// ---------------------------------------------------------------------
// Content payload
// ---------------------------------------------------------------------

/// Relies on String::from_utf8: it succeeds exactly on valid UTF-8
/// input and yields the decoded characters.
#[verifier::external_body]
fn bytes_to_string(v: Vec<u8>) -> (r: Option<String>)
    ensures
        r is Some <==> vstd::utf8::valid_utf8(v@),
        r matches Some(s) ==> s@ == vstd::utf8::decode_utf8(v@),
{
    String::from_utf8(v).ok()
}

/// Position of the text-length field of a content payload, just after
/// the length-prefixed opaque id.
pub open spec fn content_text_pos(s: Seq<u8>) -> int
    recommends
        s.len() >= 2,
{
    2 + u16_le(s, 0) as int
}

/// True when the content payload's opaque id and text bytes lie inside
/// the buffer.
pub open spec fn content_text_wf(s: Seq<u8>) -> bool {
    &&& s.len() >= 2
    &&& content_text_pos(s) + 4 <= s.len()
    &&& content_text_pos(s) + 4 + u32_le(s, content_text_pos(s)) <= s.len()
}

/// The raw text bytes of a content payload.
pub open spec fn content_text_bytes(s: Seq<u8>) -> Seq<u8>
    recommends
        content_text_wf(s),
{
    s.subrange(content_text_pos(s) + 4, content_text_pos(s) + 4 + u32_le(s, content_text_pos(s)))
}

/// The decoded text of a content payload: present exactly when the
/// structure is in bounds and the text bytes are valid UTF-8.
pub open spec fn spec_content_text(s: Seq<u8>) -> Option<Seq<char>> {
    if content_text_wf(s) && vstd::utf8::valid_utf8(content_text_bytes(s)) {
        Some(vstd::utf8::decode_utf8(content_text_bytes(s)))
    } else {
        None
    }
}

/// Reads the UTF-8 text string out of a content chunk's decompressed
/// payload.
pub fn parse_content_text(data: &[u8]) -> (r: Result<String, GameError>)
    ensures
        match r {
            Ok(t) => spec_content_text(data@) == Some(t@),
            Err(e) => spec_content_text(data@) is None && e is Parse,
        },
{
    let n = data.len();
    if n < 2 {
        return Err(GameError::Parse("Read id_len"));
    }
    let id_len = read_u16_le(data, 0) as usize;
    if id_len > n - 2 {
        return Err(GameError::Parse("Read txt_len"));
    }
    let p = 2 + id_len;
    if n - p < 4 {
        return Err(GameError::Parse("Read txt_len"));
    }
    let txt_len = read_u32_le(data, p) as usize;
    if txt_len > n - (p + 4) {
        return Err(GameError::Parse("Read text"));
    }
    let bytes = vstd::slice::slice_to_vec(&data[p + 4..p + 4 + txt_len]);
    match bytes_to_string(bytes) {
        Some(t) => Ok(t),
        None => Err(GameError::Parse("Invalid UTF-8")),
    }
}

// ---------------------------------------------------------------------
// Node payload
// ---------------------------------------------------------------------

/// Position just after a 16-bit length-prefixed field starting at
/// `pos`, when both the prefix and the skipped bytes lie in bounds.
pub open spec fn skip_u16len(s: Seq<u8>, pos: int) -> Option<int> {
    if 0 <= pos && pos + 2 <= s.len() && pos + 2 + u16_le(s, pos) <= s.len() {
        Some(pos + 2 + u16_le(s, pos))
    } else {
        None
    }
}

/// Position just after an 8-bit length-prefixed field starting at
/// `pos`, when both the prefix and the skipped bytes lie in bounds.
pub open spec fn skip_u8len(s: Seq<u8>, pos: int) -> Option<int> {
    if 0 <= pos && pos + 1 <= s.len() && pos + 1 + s[pos] <= s.len() {
        Some(pos + 1 + s[pos])
    } else {
        None
    }
}

/// Position just after `cnt` key/value tag pairs (each an 8-bit
/// length-prefixed key and value) starting at `pos`.
pub open spec fn skip_tag_pairs(s: Seq<u8>, pos: int, cnt: nat) -> Option<int>
    decreases cnt,
{
    if cnt == 0 {
        Some(pos)
    } else {
        match skip_u8len(s, pos) {
            Some(p1) => match skip_u8len(s, p1) {
                Some(p2) => skip_tag_pairs(s, p2, (cnt - 1) as nat),
                None => None,
            },
            None => None,
        }
    }
}

/// Position just after the node payload's prelude: the length-prefixed
/// opaque id, the length-prefixed default-language tag, the
/// count-prefixed tag pairs, and the count-prefixed 12-byte
/// entry-function records.
pub open spec fn node_prelude_end(s: Seq<u8>) -> Option<int> {
    match skip_u16len(s, 0) {
        Some(p1) => match skip_u8len(s, p1) {
            Some(p2) => if p2 + 2 <= s.len() {
                match skip_tag_pairs(s, p2 + 2, u16_le(s, p2)) {
                    Some(p3) => if p3 + 2 <= s.len() && p3 + 2 + 12 * u16_le(s, p3) <= s.len() {
                        Some(p3 + 2 + 12 * u16_le(s, p3))
                    } else {
                        None
                    },
                    None => None,
                }
            } else {
                None
            },
            None => None,
        },
        None => None,
    }
}

/// Walks the node payload prelude and returns the position just after
/// it, where the outgoing-edge list begins.
fn node_prelude_exec(data: &[u8]) -> (r: Result<usize, GameError>)
    ensures
        match r {
            Ok(p) => node_prelude_end(data@) == Some(p as int),
            Err(e) => node_prelude_end(data@) is None && e is Parse,
        },
{
    let n = data.len();
    if n < 2 {
        return Err(GameError::Parse("Read ID length"));
    }
    let id_len = read_u16_le(data, 0) as usize;
    if id_len > n - 2 {
        return Err(GameError::Parse("Skip ID"));
    }
    let p1 = 2 + id_len;
    if n - p1 < 1 {
        return Err(GameError::Parse("Read default language length"));
    }
    let dl = data[p1] as usize;
    if dl > n - (p1 + 1) {
        return Err(GameError::Parse("Skip default language"));
    }
    let p2 = p1 + 1 + dl;
    if n - p2 < 2 {
        return Err(GameError::Parse("Read tag count"));
    }
    let tag_cnt = read_u16_le(data, p2);
    let mut pos: usize = p2 + 2;
    let mut j: u16 = 0;
    while j < tag_cnt
        invariant
            n == data@.len(),
            j <= tag_cnt,
            pos <= n,
            skip_u16len(data@, 0) == Some(p1 as int),
            skip_u8len(data@, p1 as int) == Some(p2 as int),
            p2 + 2 <= n,
            tag_cnt as nat == u16_le(data@, p2 as int),
            skip_tag_pairs(data@, p2 + 2 + 0, tag_cnt as nat) == skip_tag_pairs(
                data@,
                pos as int,
                (tag_cnt - j) as nat,
            ),
        decreases tag_cnt - j,
    {
        if n - pos < 1 {
            return Err(GameError::Parse("Read tag key length"));
        }
        let k = data[pos] as usize;
        if k > n - (pos + 1) {
            return Err(GameError::Parse("Skip tag key"));
        }
        let posk = pos + 1 + k;
        if n - posk < 1 {
            return Err(GameError::Parse("Read tag value length"));
        }
        let v = data[posk] as usize;
        if v > n - (posk + 1) {
            return Err(GameError::Parse("Skip tag value"));
        }
        pos = posk + 1 + v;
        j = j + 1;
    }
    if n - pos < 2 {
        return Err(GameError::Parse("Read entry_funcs count"));
    }
    let ef = read_u16_le(data, pos) as usize;
    if 12 * ef > n - (pos + 2) {
        return Err(GameError::Parse("Skip entry_funcs"));
    }
    Ok(pos + 2 + 12 * ef)
}

/// The node's outgoing-edge chunk identifiers: a 16-bit count at the
/// end of the prelude, then 3 bytes per edge.
pub open spec fn spec_node_edge_ids(s: Seq<u8>) -> Option<Seq<ChunkId>> {
    match node_prelude_end(s) {
        Some(p) => if p + 2 <= s.len() && p + 2 + 3 * u16_le(s, p) <= s.len() {
            Some(Seq::new(u16_le(s, p), |k: int| id_at(s, p + 2 + 3 * k)))
        } else {
            None
        },
        None => None,
    }
}

/// Position just after the node payload's outgoing-edge list, where the
/// count-prefixed translations list begins.
pub open spec fn node_edges_end(s: Seq<u8>) -> Option<int> {
    match node_prelude_end(s) {
        Some(p) => if p + 2 <= s.len() && p + 2 + 3 * u16_le(s, p) <= s.len() {
            Some(p + 2 + 3 * u16_le(s, p))
        } else {
            None
        },
        None => None,
    }
}

/// Position just after `cnt` translation entries starting at `pos`,
/// each an 8-bit length-prefixed language tag followed by a 3-byte
/// content chunk identifier. The entries are skipped, never selected by
/// this decoder.
pub open spec fn skip_translation_entries(s: Seq<u8>, pos: int, cnt: nat) -> Option<int>
    decreases cnt,
{
    if cnt == 0 {
        Some(pos)
    } else {
        match skip_u8len(s, pos) {
            Some(p1) => if p1 + 3 <= s.len() {
                skip_translation_entries(s, p1 + 3, (cnt - 1) as nat)
            } else {
                None
            },
            None => None,
        }
    }
}

/// Position just after the node payload's translations list, where the
/// content sequence begins.
pub open spec fn node_translations_end(s: Seq<u8>) -> Option<int> {
    match node_edges_end(s) {
        Some(q) => if q + 2 <= s.len() {
            skip_translation_entries(s, q + 2, u16_le(s, q))
        } else {
            None
        },
        None => None,
    }
}

/// Extracts all outgoing edge chunk identifiers from a node's
/// decompressed payload.
pub fn parse_node_edges_ids(data: &[u8]) -> (r: Result<Vec<ChunkId>, GameError>)
    ensures
        match r {
            Ok(ids) => spec_node_edge_ids(data@) == Some(ids@),
            Err(e) => spec_node_edge_ids(data@) is None && e is Parse,
        },
{
    let n = data.len();
    let p = match node_prelude_exec(data) {
        Ok(p) => p,
        Err(e) => { return Err(e) },
    };
    if n - p < 2 {
        return Err(GameError::Parse("Read outgoing count"));
    }
    let out_cnt = read_u16_le(data, p) as usize;
    if 3 * out_cnt > n - (p + 2) {
        return Err(GameError::Parse("Read outgoing CID"));
    }
    let mut ids: Vec<ChunkId> = Vec::new();
    let mut i: usize = 0;
    while i < out_cnt
        invariant
            n == data@.len(),
            i <= out_cnt,
            node_prelude_end(data@) == Some(p as int),
            p + 2 + 3 * out_cnt <= n,
            out_cnt as nat == u16_le(data@, p as int),
            ids@.len() == i as int,
            forall|k: int| 0 <= k < i as int ==> ids@[k] == id_at(data@, p + 2 + 3 * k),
        decreases out_cnt - i,
    {
        ids.push(read_id(data, p + 2 + 3 * i));
        i = i + 1;
    }
    proof {
        assert(spec_node_edge_ids(data@) matches Some(v) && v =~= ids@);
    }
    Ok(ids)
}

/// Skips the node payload fields that precede the content sequence
/// (prelude, outgoing-edge list and translations list) and returns the
/// position where the content sequence begins.
pub fn skip_node_header_fields(data: &[u8]) -> (r: Result<usize, GameError>)
    ensures
        match r {
            Ok(p) => node_translations_end(data@) == Some(p as int) && p <= data@.len(),
            Err(e) => node_translations_end(data@) is None && e is Parse,
        },
{
    let n = data.len();
    let p = match node_prelude_exec(data) {
        Ok(p) => p,
        Err(e) => { return Err(e) },
    };
    if n - p < 2 {
        return Err(GameError::Parse("Skip outgoing count"));
    }
    let out_cnt = read_u16_le(data, p) as usize;
    if 3 * out_cnt > n - (p + 2) {
        return Err(GameError::Parse("Skip outgoing IDs"));
    }
    let q = p + 2 + 3 * out_cnt;
    if n - q < 2 {
        return Err(GameError::Parse("Skip translations count"));
    }
    let tr_cnt = read_u16_le(data, q);
    let mut pos: usize = q + 2;
    let mut j: u16 = 0;
    while j < tr_cnt
        invariant
            n == data@.len(),
            j <= tr_cnt,
            pos <= n,
            node_edges_end(data@) == Some(q as int),
            q + 2 <= n,
            tr_cnt as nat == u16_le(data@, q as int),
            skip_translation_entries(data@, q + 2 + 0, tr_cnt as nat) == skip_translation_entries(
                data@,
                pos as int,
                (tr_cnt - j) as nat,
            ),
        decreases tr_cnt - j,
    {
        if n - pos < 1 {
            return Err(GameError::Parse("Skip translation lang length"));
        }
        let ll = data[pos] as usize;
        if ll > n - (pos + 1) {
            return Err(GameError::Parse("Skip translation lang"));
        }
        let posl = pos + 1 + ll;
        if 3 > n - posl {
            return Err(GameError::Parse("Skip translation CID"));
        }
        pos = posl + 3;
        j = j + 1;
    }
    Ok(pos)
}

// ---------------------------------------------------------------------
// Content sequence
// ---------------------------------------------------------------------

/// Number of content-sequence entries, read just after the
/// translations list.
pub open spec fn content_seq_count(s: Seq<u8>) -> nat
    recommends
        node_translations_end(s) is Some,
{
    match node_translations_end(s) {
        Some(p) => u16_le(s, p),
        None => 0,
    }
}

/// Position of the `k`-th content-sequence entry. Each entry is 16
/// bytes: 1 guard-presence byte, 12 guard (or reserved) bytes, and the
/// 3-byte content chunk id.
pub open spec fn centry_pos(s: Seq<u8>, k: int) -> int
    recommends
        node_translations_end(s) is Some,
{
    match node_translations_end(s) {
        Some(p) => p + 2 + 16 * k,
        None => 0,
    }
}

/// True when the entry at position `p` carries a guard.
pub open spec fn centry_guarded(s: Seq<u8>, p: int) -> bool {
    s[p] != 0
}

/// True when the guarded entry's argument slice (offset and length
/// indexing into the same payload buffer) lies inside the payload.
pub open spec fn centry_guard_wf(s: Seq<u8>, p: int) -> bool {
    u32_le(s, p + 5) + u32_le(s, p + 9) <= s.len()
}

/// The guard argument bytes of the guarded entry at position `p`.
pub open spec fn centry_guard_arg(s: Seq<u8>, p: int) -> Seq<u8>
    recommends
        centry_guard_wf(s, p),
{
    s.subrange(u32_le(s, p + 5) as int, u32_le(s, p + 5) as int + u32_le(s, p + 9) as int)
}

/// True when the whole content sequence lies in bounds and every
/// guarded entry's argument slice does too.
pub open spec fn content_seq_wf(s: Seq<u8>) -> bool {
    match node_translations_end(s) {
        Some(p) => {
            &&& p + 2 <= s.len()
            &&& p + 2 + 16 * u16_le(s, p) <= s.len()
            &&& forall|k: int|
                0 <= k < u16_le(s, p) && centry_guarded(s, p + 2 + 16 * k)
                    ==> centry_guard_wf(s, #[trigger] (p + 2 + 16 * k))
        },
        None => false,
    }
}

/// True when the parsed entry `e` is what the `k`-th wire entry holds:
/// the content id, and the guard function id with its argument bytes
/// when the guard-presence byte is set.
pub open spec fn centry_matches(s: Seq<u8>, k: int, e: ContentEntry) -> bool {
    let p = centry_pos(s, k);
    &&& e.content_id == id_at(s, p + 13)
    &&& if centry_guarded(s, p) {
        e.guard matches Some(g) && g.0 as nat == u32_le(s, p + 1) && g.1@ == centry_guard_arg(s, p)
    } else {
        e.guard is None
    }
}

/// Parses the content sequence of a node's decompressed payload.
pub fn parse_node_content_seq(data: &[u8]) -> (r: Result<Vec<ContentEntry>, GameError>)
    ensures
        match r {
            Ok(v) => {
                &&& content_seq_wf(data@)
                &&& v@.len() == content_seq_count(data@)
                &&& forall|k: int| 0 <= k < v@.len() ==> centry_matches(data@, k, #[trigger] v@[k])
            },
            Err(e) => !content_seq_wf(data@) && e is Parse,
        },
{
    let n = data.len();
    let p = match skip_node_header_fields(data) {
        Ok(p) => p,
        Err(e) => { return Err(e) },
    };
    if n - p < 2 {
        return Err(GameError::Parse("Read content_seq count"));
    }
    let seq_cnt = read_u16_le(data, p) as usize;
    if 16 * seq_cnt > n - (p + 2) {
        return Err(GameError::Parse("Read content_cid"));
    }
    let mut out: Vec<ContentEntry> = Vec::new();
    let mut i: usize = 0;
    while i < seq_cnt
        invariant
            n == data@.len(),
            i <= seq_cnt,
            node_translations_end(data@) == Some(p as int),
            p + 2 + 16 * seq_cnt <= n,
            seq_cnt as nat == u16_le(data@, p as int),
            out@.len() == i as int,
            forall|k: int|
                0 <= k < i as int && centry_guarded(data@, p + 2 + 16 * k) ==> centry_guard_wf(
                    data@,
                    #[trigger] (p + 2 + 16 * k),
                ),
            forall|k: int| 0 <= k < i as int ==> centry_matches(data@, k, #[trigger] out@[k]),
        decreases seq_cnt - i,
    {
        let q = p + 2 + 16 * i;
        let has = data[q];
        let guard = if has != 0 {
            let func_id = read_u32_le(data, q + 1);
            let off = read_u32_le(data, q + 5) as usize;
            let alen = read_u32_le(data, q + 9) as usize;
            if off > n || alen > n - off {
                assert(!centry_guard_wf(data@, p + 2 + 16 * (i as int)));
                assert(!content_seq_wf(data@));
                return Err(GameError::Parse("Guard slice out of range"));
            }
            let guard_bytes = vstd::slice::slice_to_vec(&data[off..off + alen]);
            Some((func_id, guard_bytes))
        } else {
            None
        };
        let cid = read_id(data, q + 13);
        out.push(ContentEntry { guard, content_id: cid });
        i = i + 1;
    }
    Ok(out)
}

// ---------------------------------------------------------------------
// Edge payload
// ---------------------------------------------------------------------

/// The `(label content id, destination node id)` pair of an edge's
/// decompressed payload: present exactly when the structure lies in
/// bounds and the label list is nonempty. Only the first label entry is
/// used, regardless of its language tag; the guard-function records are
/// skipped, never evaluated.
pub open spec fn spec_edge_label_dest(s: Seq<u8>) -> Option<(ChunkId, ChunkId)> {
    match skip_u16len(s, 0) {
        Some(p1) => if p1 + 6 <= s.len() && p1 + 8 <= s.len() {
            let dest = id_at(s, p1 + 3);
            let p3 = p1 + 8 + 12 * u16_le(s, p1 + 6);
            if p3 <= s.len() && p3 + 2 <= s.len() && u16_le(s, p3) >= 1 {
                match skip_u8len(s, p3 + 2) {
                    Some(p4) => if p4 + 3 <= s.len() {
                        Some((id_at(s, p4), dest))
                    } else {
                        None
                    },
                    None => None,
                }
            } else {
                None
            }
        } else {
            None
        },
        None => None,
    }
}

/// Parses an edge's decompressed payload, returning
/// `(label_cid, dest_cid)`.
pub fn parse_edge_label_dest_cids(data: &[u8]) -> (r: Result<(ChunkId, ChunkId), GameError>)
    ensures
        match r {
            Ok(pair) => spec_edge_label_dest(data@) == Some(pair),
            Err(e) => spec_edge_label_dest(data@) is None && e is Parse,
        },
{
    let n = data.len();
    if n < 2 {
        return Err(GameError::Parse("Read id_len"));
    }
    let id_len = read_u16_le(data, 0) as usize;
    if id_len > n - 2 {
        return Err(GameError::Parse("Seek id"));
    }
    let p1 = 2 + id_len;
    // 3 source-id bytes are skipped, then the 3 destination-id bytes
    // and the 2-byte guard count are read.
    if n - p1 < 8 {
        return Err(GameError::Parse("Read dest"));
    }
    let dest_cid = read_id(data, p1 + 3);
    let guard_cnt = read_u16_le(data, p1 + 6) as usize;
    if 12 * guard_cnt > n - (p1 + 8) {
        return Err(GameError::Parse("Seek guard"));
    }
    let p3 = p1 + 8 + 12 * guard_cnt;
    if n - p3 < 2 {
        return Err(GameError::Parse("Read label cnt"));
    }
    let label_cnt = read_u16_le(data, p3);
    if label_cnt == 0 {
        return Err(GameError::Parse("No edge labels"));
    }
    if n - (p3 + 2) < 1 {
        return Err(GameError::Parse("Read lang len"));
    }
    let lang_len = data[p3 + 2] as usize;
    if lang_len > n - (p3 + 3) {
        return Err(GameError::Parse("Seek lang"));
    }
    let p4 = p3 + 3 + lang_len;
    if n - p4 < 3 {
        return Err(GameError::Parse("Read label"));
    }
    let label_cid = read_id(data, p4);
    Ok((label_cid, dest_cid))
}

} // verus!
