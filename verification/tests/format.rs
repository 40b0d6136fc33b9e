//! Tests of the binary format parsers on hand-built byte strings.

use cyoa_loader::game::{normalize_path, CyoaGame};
use cyoa_loader::http::probe_outcome;
use cyoa_loader::tlv::{
    chunk_payload, decompress_payload, parse_content_text, parse_edge_label_dest_cids,
    parse_header, parse_index, parse_node_content_seq, parse_node_edges_ids, parse_tlv_header,
    skip_node_header_fields,
};
use cyoa_loader::types::{ChunkId, ChunkType};
use cyoa_loader::utils::GameError;

fn cid(a: u8, b: u8, c: u8) -> ChunkId {
    ChunkId { b0: a, b1: b, b2: c }
}

fn header_bytes(index_offset: u64) -> Vec<u8> {
    let mut v = Vec::new();
    v.extend_from_slice(b"CYOA");
    v.extend_from_slice(&[0u8; 10]);
    v.extend_from_slice(&index_offset.to_le_bytes());
    v
}

#[test]
fn header_ok() {
    let v = header_bytes(0x1122334455667788);
    assert_eq!(parse_header(&v).unwrap(), 0x1122334455667788);
}

#[test]
fn header_rejects_wrong_magic_regardless_of_rest() {
    // P5: any resource whose first 4 bytes are not CYOA is InvalidMagic.
    let mut v = header_bytes(42);
    v[0] = b'X';
    assert!(matches!(parse_header(&v), Err(GameError::InvalidMagic)));
    // Even a perfectly-sized buffer of other bytes.
    let w = vec![0xFFu8; 22];
    assert!(matches!(parse_header(&w), Err(GameError::InvalidMagic)));
    // And a buffer too short to hold the magic.
    assert!(matches!(parse_header(&[0x43]), Err(GameError::InvalidMagic)));
}

#[test]
fn header_truncated_after_magic_is_parse_error() {
    let v = b"CYOA0123456789".to_vec();
    assert!(matches!(parse_header(&v), Err(GameError::Parse(_))));
}

#[test]
fn index_roundtrip() {
    let mut v = Vec::new();
    v.extend_from_slice(&2u32.to_le_bytes());
    v.push(0x01);
    v.extend_from_slice(&[1, 2, 3]);
    v.extend_from_slice(&100u64.to_le_bytes());
    v.extend_from_slice(&50u32.to_le_bytes());
    v.push(0x03);
    v.extend_from_slice(&[4, 5, 6]);
    v.extend_from_slice(&7u64.to_le_bytes());
    v.extend_from_slice(&8u32.to_le_bytes());
    let index = parse_index(&v).unwrap();
    assert_eq!(index.len(), 2);
    assert_eq!(index[0].chunk_type, ChunkType::Node);
    assert_eq!(index[0].chunk_id, cid(1, 2, 3));
    assert_eq!(index[0].offset, 100);
    assert_eq!(index[0].length, 50);
    assert_eq!(index[1].chunk_type, ChunkType::Content);
    assert_eq!(index[1].chunk_id, cid(4, 5, 6));
}

#[test]
fn index_unknown_type_code() {
    let mut v = Vec::new();
    v.extend_from_slice(&1u32.to_le_bytes());
    v.push(0x7F);
    v.extend_from_slice(&[0u8; 15]);
    assert!(matches!(parse_index(&v), Err(GameError::Parse(_))));
}

#[test]
fn index_truncated_entry() {
    let mut v = Vec::new();
    v.extend_from_slice(&1u32.to_le_bytes());
    v.push(0x01);
    v.extend_from_slice(&[0u8; 10]);
    assert!(matches!(parse_index(&v), Err(GameError::Parse(_))));
}

#[test]
fn index_ignores_trailing_bytes() {
    let mut v = Vec::new();
    v.extend_from_slice(&0u32.to_le_bytes());
    v.extend_from_slice(&[9u8; 5]);
    assert_eq!(parse_index(&v).unwrap().len(), 0);
}

#[test]
fn tlv_header_uncompressed() {
    let mut v = vec![0x01, 7, 8, 9, 0x00];
    v.extend_from_slice(&5u32.to_le_bytes());
    v.extend_from_slice(b"hello");
    let (t, id, flags, comp, un, hlen) = parse_tlv_header(&v).unwrap();
    assert_eq!(t, 0x01);
    assert_eq!(id, cid(7, 8, 9));
    assert_eq!(flags, 0);
    assert_eq!(comp, 5);
    assert_eq!(un, None);
    assert_eq!(hlen, 9);
}

#[test]
fn tlv_header_compressed_has_extra_length_field() {
    let mut v = vec![0x03, 1, 1, 1, 0x01];
    v.extend_from_slice(&10u32.to_le_bytes());
    v.extend_from_slice(&99u32.to_le_bytes());
    v.extend_from_slice(&[0u8; 10]);
    let (_, _, flags, comp, un, hlen) = parse_tlv_header(&v).unwrap();
    assert_eq!(flags, 1);
    assert_eq!(comp, 10);
    assert_eq!(un, Some(99));
    assert_eq!(hlen, 13);
}

#[test]
fn tlv_header_truncated() {
    let v = vec![0x01, 1, 2, 3, 0, 0, 0];
    assert!(matches!(parse_tlv_header(&v), Err(GameError::Parse(_))));
    // Compressed flag set but no room for the extra length field.
    let w = vec![0x01u8, 1, 2, 3, 1, 4, 0, 0, 0, 9, 9];
    assert!(matches!(parse_tlv_header(&w), Err(GameError::Parse(_))));
}

#[test]
fn decompress_passthrough_when_flag_clear() {
    let data = vec![1u8, 2, 3];
    assert_eq!(decompress_payload(0, &data, None).unwrap(), data);
}

#[test]
fn decompress_missing_length_is_parse_error() {
    assert!(matches!(
        decompress_payload(1, &[1, 2, 3], None),
        Err(GameError::Parse(_))
    ));
}

#[test]
fn decompress_engine_error_is_other() {
    // Garbage bytes are not a zstd frame.
    assert!(matches!(
        decompress_payload(1, &[1, 2, 3, 4], Some(16)),
        Err(GameError::Other(_))
    ));
}

#[test]
fn decompress_roundtrip() {
    let text = b"the decompressed payload differs from the compressed bytes";
    let mut comp = vec![0u8; zstd_safe::compress_bound(text.len())];
    let n = zstd_safe::compress(comp.as_mut_slice(), text.as_slice(), 3).unwrap();
    comp.truncate(n);
    assert_ne!(comp.as_slice(), text.as_slice());
    let out = decompress_payload(1, &comp, Some(text.len() as u32)).unwrap();
    assert_eq!(out.as_slice(), text.as_slice());
}

fn content_payload(opaque_id: &[u8], text: &[u8]) -> Vec<u8> {
    let mut v = Vec::new();
    v.extend_from_slice(&(opaque_id.len() as u16).to_le_bytes());
    v.extend_from_slice(opaque_id);
    v.extend_from_slice(&(text.len() as u32).to_le_bytes());
    v.extend_from_slice(text);
    v
}

#[test]
fn content_text_decodes() {
    let v = content_payload(b"id-1", "héllo".as_bytes());
    assert_eq!(parse_content_text(&v).unwrap(), "héllo");
}

#[test]
fn content_text_invalid_utf8() {
    let v = content_payload(b"", &[0xFF, 0xFE]);
    assert!(matches!(parse_content_text(&v), Err(GameError::Parse(_))));
}

#[test]
fn content_text_truncated() {
    let mut v = content_payload(b"", b"abcdef");
    v.truncate(v.len() - 2);
    assert!(matches!(parse_content_text(&v), Err(GameError::Parse(_))));
}

fn node_payload(
    opaque_id: &[u8],
    tags: &[(&[u8], &[u8])],
    entry_funcs: usize,
    edges: &[ChunkId],
    translations: &[(&[u8], ChunkId)],
    entries: &[(Option<(u32, u32, u32)>, ChunkId)],
) -> Vec<u8> {
    let mut v = Vec::new();
    v.extend_from_slice(&(opaque_id.len() as u16).to_le_bytes());
    v.extend_from_slice(opaque_id);
    v.push(2);
    v.extend_from_slice(b"en");
    v.extend_from_slice(&(tags.len() as u16).to_le_bytes());
    for (k, val) in tags {
        v.push(k.len() as u8);
        v.extend_from_slice(k);
        v.push(val.len() as u8);
        v.extend_from_slice(val);
    }
    v.extend_from_slice(&(entry_funcs as u16).to_le_bytes());
    v.extend_from_slice(&vec![0u8; entry_funcs * 12]);
    v.extend_from_slice(&(edges.len() as u16).to_le_bytes());
    for e in edges {
        v.extend_from_slice(&[e.b0, e.b1, e.b2]);
    }
    v.extend_from_slice(&(translations.len() as u16).to_le_bytes());
    for (lang, c) in translations {
        v.push(lang.len() as u8);
        v.extend_from_slice(lang);
        v.extend_from_slice(&[c.b0, c.b1, c.b2]);
    }
    v.extend_from_slice(&(entries.len() as u16).to_le_bytes());
    for (g, c) in entries {
        match g {
            Some((fid, off, len)) => {
                v.push(1);
                v.extend_from_slice(&fid.to_le_bytes());
                v.extend_from_slice(&off.to_le_bytes());
                v.extend_from_slice(&len.to_le_bytes());
            }
            None => {
                v.push(0);
                v.extend_from_slice(&[0u8; 12]);
            }
        }
        v.extend_from_slice(&[c.b0, c.b1, c.b2]);
    }
    v
}

#[test]
fn node_edges_parsed_in_order() {
    let v = node_payload(
        b"node-1",
        &[(b"k", b"v"), (b"key2", b"value2")],
        2,
        &[cid(1, 0, 0), cid(2, 0, 0), cid(3, 0, 0)],
        &[(b"en", cid(40, 0, 1))],
        &[],
    );
    let ids = parse_node_edges_ids(&v).unwrap();
    assert_eq!(ids, vec![cid(1, 0, 0), cid(2, 0, 0), cid(3, 0, 0)]);
}

#[test]
fn node_edges_empty_list() {
    let v = node_payload(b"", &[], 0, &[], &[], &[]);
    assert_eq!(parse_node_edges_ids(&v).unwrap(), vec![]);
}

#[test]
fn node_edges_truncated() {
    let mut v = node_payload(b"n", &[], 0, &[cid(1, 2, 3)], &[], &[]);
    // Cut into the 3-byte edge id (past the trailing translation and
    // content-sequence counts).
    v.truncate(v.len() - 6);
    assert!(matches!(parse_node_edges_ids(&v), Err(GameError::Parse(_))));
}

#[test]
fn skip_node_header_fields_lands_on_content_sequence() {
    let v = node_payload(
        b"abc",
        &[(b"a", b"b")],
        1,
        &[cid(9, 9, 9)],
        &[(b"en", cid(41, 0, 1)), (b"de", cid(41, 0, 2))],
        &[(None, cid(5, 5, 5))],
    );
    let p = skip_node_header_fields(&v).unwrap();
    // The content-sequence count stands at the returned position.
    assert_eq!(u16::from_le_bytes([v[p], v[p + 1]]), 1);
}

#[test]
fn content_sequence_guarded_and_unguarded() {
    // The guard argument indexes into the same payload buffer: point it
    // at the opaque id bytes (which start at offset 2).
    let v = node_payload(
        b"ARGS",
        &[],
        0,
        &[],
        &[(b"en", cid(42, 0, 1))],
        &[
            (Some((77, 2, 4)), cid(1, 1, 1)),
            (None, cid(2, 2, 2)),
        ],
    );
    let entries = parse_node_content_seq(&v).unwrap();
    assert_eq!(entries.len(), 2);
    let (fid, arg) = entries[0].guard.clone().unwrap();
    assert_eq!(fid, 77);
    assert_eq!(arg, b"ARGS".to_vec());
    assert_eq!(entries[0].content_id, cid(1, 1, 1));
    assert!(entries[1].guard.is_none());
    assert_eq!(entries[1].content_id, cid(2, 2, 2));
}

#[test]
fn content_sequence_guard_slice_out_of_range() {
    let v = node_payload(b"x", &[], 0, &[], &[], &[(Some((1, 0, 60000)), cid(1, 1, 1))]);
    assert!(matches!(
        parse_node_content_seq(&v),
        Err(GameError::Parse(_))
    ));
}

#[test]
fn translations_are_skipped_not_selected() {
    // The count-prefixed translations list stands between the
    // outgoing-edge ids and the content sequence; this decoder skips
    // it entirely.
    let v = node_payload(
        b"id",
        &[],
        0,
        &[cid(9, 0, 0)],
        &[(b"en", cid(50, 0, 1)), (b"fr-CA", cid(50, 0, 2))],
        &[(None, cid(30, 0, 1))],
    );
    let entries = parse_node_content_seq(&v).unwrap();
    assert_eq!(entries.len(), 1);
    assert_eq!(entries[0].content_id, cid(30, 0, 1));
    assert_eq!(parse_node_edges_ids(&v).unwrap(), vec![cid(9, 0, 0)]);
}

#[test]
fn truncation_inside_translations_is_parse_error() {
    let full = node_payload(b"", &[], 0, &[], &[(b"en", cid(50, 0, 1))], &[]);
    // Cut the payload in the middle of the translation entry.
    let mut v = full.clone();
    v.truncate(v.len() - 2 - 4);
    assert!(matches!(parse_node_content_seq(&v), Err(GameError::Parse(_))));
    assert!(matches!(skip_node_header_fields(&v), Err(GameError::Parse(_))));
}

fn edge_payload(
    opaque_id: &[u8],
    src: ChunkId,
    dest: ChunkId,
    guards: usize,
    labels: &[(&[u8], ChunkId)],
) -> Vec<u8> {
    let mut v = Vec::new();
    v.extend_from_slice(&(opaque_id.len() as u16).to_le_bytes());
    v.extend_from_slice(opaque_id);
    v.extend_from_slice(&[src.b0, src.b1, src.b2]);
    v.extend_from_slice(&[dest.b0, dest.b1, dest.b2]);
    v.extend_from_slice(&(guards as u16).to_le_bytes());
    v.extend_from_slice(&vec![0u8; guards * 12]);
    v.extend_from_slice(&(labels.len() as u16).to_le_bytes());
    for (lang, c) in labels {
        v.push(lang.len() as u8);
        v.extend_from_slice(lang);
        v.extend_from_slice(&[c.b0, c.b1, c.b2]);
    }
    v
}

#[test]
fn edge_payload_first_label_wins() {
    // Only the first label entry is used, regardless of language tag.
    let v = edge_payload(
        b"edge-1",
        cid(1, 0, 0),
        cid(2, 0, 0),
        2,
        &[(b"de", cid(7, 7, 7)), (b"en", cid(8, 8, 8))],
    );
    let (label, dest) = parse_edge_label_dest_cids(&v).unwrap();
    assert_eq!(label, cid(7, 7, 7));
    assert_eq!(dest, cid(2, 0, 0));
}

#[test]
fn edge_payload_no_labels_is_parse_error() {
    let v = edge_payload(b"e", cid(1, 0, 0), cid(2, 0, 0), 0, &[]);
    assert!(matches!(
        parse_edge_label_dest_cids(&v),
        Err(GameError::Parse(_))
    ));
}

#[test]
fn chunk_payload_slices_body_by_declared_length() {
    let payload = content_payload(b"", b"xyz");
    let mut raw = vec![0x03, 1, 1, 1, 0x00];
    raw.extend_from_slice(&(payload.len() as u32).to_le_bytes());
    raw.extend_from_slice(&payload);
    raw.extend_from_slice(b"trailing");
    assert_eq!(chunk_payload(&raw).unwrap(), payload);
}

#[test]
fn chunk_payload_body_out_of_range() {
    let mut raw = vec![0x03, 1, 1, 1, 0x00];
    raw.extend_from_slice(&100u32.to_le_bytes());
    raw.extend_from_slice(&[0u8; 10]);
    assert!(matches!(chunk_payload(&raw), Err(GameError::Parse(_))));
}

#[test]
fn chunk_ids_render_uppercase_hex() {
    let mut blob = Vec::new();
    blob.extend_from_slice(&2u32.to_le_bytes());
    blob.push(0x01);
    blob.extend_from_slice(&[0x00, 0x01, 0x02]);
    blob.extend_from_slice(&0u64.to_le_bytes());
    blob.extend_from_slice(&1u32.to_le_bytes());
    blob.push(0x02);
    blob.extend_from_slice(&[0xAB, 0xCD, 0xEF]);
    blob.extend_from_slice(&0u64.to_le_bytes());
    blob.extend_from_slice(&1u32.to_le_bytes());
    let index = parse_index(&blob).unwrap();
    let game = CyoaGame::new("/a".to_string(), 100, true, index);
    assert_eq!(game.chunk_ids(), vec!["000102".to_string(), "ABCDEF".to_string()]);
}

#[test]
fn normalize_path_prefixes_slash() {
    assert_eq!(normalize_path("games/story.cyoa"), "/games/story.cyoa");
    assert_eq!(normalize_path("/already/rooted"), "/already/rooted");
    assert_eq!(normalize_path(""), "/");
}

#[test]
fn probe_outcome_partial_content_uses_range_total() {
    let r = probe_outcome(206, Some("bytes 0-0/12345"), None).unwrap();
    assert_eq!(r, (12345, true));
}

#[test]
fn probe_outcome_plain_response_uses_content_length() {
    let r = probe_outcome(200, None, Some("777")).unwrap();
    assert_eq!(r, (777, false));
}

#[test]
fn probe_outcome_bad_headers_are_other_errors() {
    assert!(matches!(probe_outcome(206, None, None), Err(GameError::Other(_))));
    assert!(matches!(
        probe_outcome(206, Some("nonsense"), None),
        Err(GameError::Other(_))
    ));
    assert!(matches!(
        probe_outcome(206, Some("bytes 0-0/12x45"), None),
        Err(GameError::Other(_))
    ));
    assert!(matches!(probe_outcome(200, None, None), Err(GameError::Other(_))));
    assert!(matches!(
        probe_outcome(200, None, Some("99999999999999999999999999")),
        Err(GameError::Other(_))
    ));
}
