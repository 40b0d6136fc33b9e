//! End-to-end tests: synthetic archives served from an in-memory byte
//! buffer through a synchronous driver that mirrors the asynchronous
//! one, counting the byte-range fetches it performs.

use cyoa_loader::cache::{chunk_request, ChunkSource, RawCache};
use cyoa_loader::game::{
    assemble_node, concat_content_texts, decode_edge_metas, decode_label_texts, normalize_path,
    root_node_cid, select_content, CyoaGame,
};
use cyoa_loader::http::probe_outcome;
use cyoa_loader::tlv::{chunk_payload, parse_index, parse_node_content_seq, parse_node_edges_ids};
use cyoa_loader::types::{ChunkId, ChunkType, IndexEntry, NodeOutput};
use cyoa_loader::utils::GameError;

fn cid(a: u8, b: u8, c: u8) -> ChunkId {
    ChunkId { b0: a, b1: b, b2: c }
}

// ---------------------------------------------------------------------
// Synthetic archive builder
// ---------------------------------------------------------------------

struct Chunk {
    tcode: u8,
    id: ChunkId,
    payload: Vec<u8>,
    compressed: bool,
}

fn envelope(c: &Chunk) -> Vec<u8> {
    let mut v = vec![c.tcode, c.id.b0, c.id.b1, c.id.b2];
    if c.compressed {
        let mut comp = vec![0u8; zstd_safe::compress_bound(c.payload.len())];
        let n = zstd_safe::compress(comp.as_mut_slice(), c.payload.as_slice(), 3).unwrap();
        comp.truncate(n);
        v.push(1);
        v.extend_from_slice(&(comp.len() as u32).to_le_bytes());
        v.extend_from_slice(&(c.payload.len() as u32).to_le_bytes());
        v.extend_from_slice(&comp);
    } else {
        v.push(0);
        v.extend_from_slice(&(c.payload.len() as u32).to_le_bytes());
        v.extend_from_slice(&c.payload);
    }
    v
}

fn build_archive(chunks: &[Chunk]) -> Vec<u8> {
    let mut out = Vec::new();
    out.extend_from_slice(b"CYOA");
    out.extend_from_slice(&[0u8; 10]);
    out.extend_from_slice(&[0u8; 8]);
    let mut entries = Vec::new();
    for c in chunks {
        let raw = envelope(c);
        entries.push((c.tcode, c.id, out.len() as u64, raw.len() as u32));
        out.extend_from_slice(&raw);
    }
    let index_offset = (out.len() as u64).to_le_bytes();
    out[14..22].copy_from_slice(&index_offset);
    out.extend_from_slice(&(entries.len() as u32).to_le_bytes());
    for (t, id, off, len) in entries {
        out.push(t);
        out.extend_from_slice(&[id.b0, id.b1, id.b2]);
        out.extend_from_slice(&off.to_le_bytes());
        out.extend_from_slice(&len.to_le_bytes());
    }
    out
}

fn content_payload(text: &str) -> Vec<u8> {
    let mut v = Vec::new();
    v.extend_from_slice(&0u16.to_le_bytes());
    v.extend_from_slice(&(text.len() as u32).to_le_bytes());
    v.extend_from_slice(text.as_bytes());
    v
}

fn node_payload(edges: &[ChunkId], entries: &[(Option<(u32, u32, u32)>, ChunkId)]) -> Vec<u8> {
    let mut v = Vec::new();
    v.extend_from_slice(&4u16.to_le_bytes());
    v.extend_from_slice(b"ARGS");
    v.push(2);
    v.extend_from_slice(b"en");
    v.extend_from_slice(&0u16.to_le_bytes());
    v.extend_from_slice(&0u16.to_le_bytes());
    v.extend_from_slice(&(edges.len() as u16).to_le_bytes());
    for e in edges {
        v.extend_from_slice(&[e.b0, e.b1, e.b2]);
    }
    // One translation entry, skipped by the decoder.
    v.extend_from_slice(&1u16.to_le_bytes());
    v.push(2);
    v.extend_from_slice(b"en");
    v.extend_from_slice(&[60, 0, 1]);
    v.extend_from_slice(&(entries.len() as u16).to_le_bytes());
    for (g, c) in entries {
        match g {
            Some((fid, off, len)) => {
                v.push(1);
                v.extend_from_slice(&fid.to_le_bytes());
                v.extend_from_slice(&off.to_le_bytes());
                v.extend_from_slice(&len.to_le_bytes());
            }
            None => {
                v.push(0);
                v.extend_from_slice(&[0u8; 12]);
            }
        }
        v.extend_from_slice(&[c.b0, c.b1, c.b2]);
    }
    v
}

fn edge_payload(dest: ChunkId, label_cid: ChunkId) -> Vec<u8> {
    let mut v = Vec::new();
    v.extend_from_slice(&0u16.to_le_bytes());
    v.extend_from_slice(&[0, 0, 0]);
    v.extend_from_slice(&[dest.b0, dest.b1, dest.b2]);
    v.extend_from_slice(&0u16.to_le_bytes());
    v.extend_from_slice(&1u16.to_le_bytes());
    v.push(2);
    v.extend_from_slice(b"en");
    v.extend_from_slice(&[label_cid.b0, label_cid.b1, label_cid.b2]);
    v
}

// ---------------------------------------------------------------------
// Synchronous driver over an in-memory resource
// ---------------------------------------------------------------------

fn open_archive(resource: &[u8]) -> Result<CyoaGame, GameError> {
    let range_total = format!("bytes 0-0/{}", resource.len());
    let (size, supports) = probe_outcome(206, Some(&range_total), None)?;
    let (hs, he) = CyoaGame::header_fetch_range(supports)?;
    let header = &resource[hs as usize..=(he as usize).min(resource.len() - 1)];
    let off = CyoaGame::index_fetch_start(size, header)?;
    let blob = &resource[off as usize..];
    let index = parse_index(blob)?;
    Ok(CyoaGame::new(normalize_path("test.cyoa"), size, supports, index))
}

fn get_chunk(
    game: &mut CyoaGame,
    resource: &[u8],
    entry: &IndexEntry,
    fetches: &mut usize,
) -> Vec<u8> {
    match chunk_request(&mut game.raw_cache, game.supports_range, entry) {
        ChunkSource::Cached(v) => v,
        ChunkSource::FetchRange(s, e) => {
            *fetches += 1;
            let v = resource[s as usize..=(e as usize)].to_vec();
            game.raw_cache.insert(entry.chunk_id, v.clone());
            v
        }
        ChunkSource::FetchWhole => {
            *fetches += 1;
            let v = resource.to_vec();
            game.raw_cache.insert(entry.chunk_id, v.clone());
            v
        }
    }
}

fn load_node(
    game: &mut CyoaGame,
    resource: &[u8],
    idx: usize,
    guard: &dyn Fn(u32, &[u8]) -> bool,
    fetches: &mut usize,
) -> Result<NodeOutput, GameError> {
    let entry = game.locate_node(idx)?;
    let raw = get_chunk(game, resource, &entry, fetches);
    let payload = chunk_payload(&raw)?;
    let entries = parse_node_content_seq(&payload)?;
    let verdicts: Vec<bool> = entries
        .iter()
        .map(|e| match &e.guard {
            Some((fid, bytes)) => guard(*fid, bytes),
            None => true,
        })
        .collect();
    let wanted = select_content(&entries, &verdicts);
    let centries = game.resolve_content_entries(&wanted)?;
    let craws: Vec<Vec<u8>> = centries
        .iter()
        .map(|e| get_chunk(game, resource, e, fetches))
        .collect();
    let text = concat_content_texts(&craws)?;
    let edge_cids = parse_node_edges_ids(&payload)?;
    let eentries = game.resolve_edge_entries(&edge_cids)?;
    let eraws: Vec<Vec<u8>> = eentries
        .iter()
        .map(|e| get_chunk(game, resource, e, fetches))
        .collect();
    let metas = decode_edge_metas(&eraws)?;
    let label_cids: Vec<ChunkId> = metas.iter().map(|m| m.0).collect();
    let dest_cids: Vec<ChunkId> = metas.iter().map(|m| m.1).collect();
    let lentries = game.resolve_label_entries(&label_cids)?;
    let lraws: Vec<Vec<u8>> = lentries
        .iter()
        .map(|e| get_chunk(game, resource, e, fetches))
        .collect();
    let labels = decode_label_texts(&lraws)?;
    let dests = game.dest_positions(&dest_cids)?;
    Ok(assemble_node(text, &labels, &dests))
}

fn load_root(
    game: &mut CyoaGame,
    resource: &[u8],
    guard: &dyn Fn(u32, &[u8]) -> bool,
    fetches: &mut usize,
) -> Result<NodeOutput, GameError> {
    let entry = game.locate_root_meta()?;
    let raw = get_chunk(game, resource, &entry, fetches);
    let root_cid = root_node_cid(&raw)?;
    let pos = game.root_node_position(root_cid)?;
    load_node(game, resource, pos, guard, fetches)
}

/// A two-node story: the root points at node A, whose two edges lead to
/// A itself and to node B; B has one edge back to A. Content chunk
/// text2 is compressed.
fn story() -> Vec<u8> {
    build_archive(&[
        Chunk {
            tcode: 0x04,
            id: cid(0, 0, 1),
            payload: vec![10, 0, 1],
            compressed: false,
        },
        Chunk {
            tcode: 0x01,
            id: cid(10, 0, 1),
            payload: node_payload(
                &[cid(20, 0, 1), cid(20, 0, 2)],
                &[(None, cid(30, 0, 1)), (None, cid(30, 0, 2))],
            ),
            compressed: false,
        },
        Chunk {
            tcode: 0x01,
            id: cid(10, 0, 2),
            payload: node_payload(&[cid(20, 0, 3)], &[(None, cid(30, 0, 2))]),
            compressed: true,
        },
        Chunk {
            tcode: 0x02,
            id: cid(20, 0, 1),
            payload: edge_payload(cid(10, 0, 1), cid(30, 0, 3)),
            compressed: false,
        },
        Chunk {
            tcode: 0x02,
            id: cid(20, 0, 2),
            payload: edge_payload(cid(10, 0, 2), cid(30, 0, 4)),
            compressed: false,
        },
        Chunk {
            tcode: 0x02,
            id: cid(20, 0, 3),
            payload: edge_payload(cid(10, 0, 1), cid(30, 0, 3)),
            compressed: true,
        },
        Chunk {
            tcode: 0x03,
            id: cid(30, 0, 1),
            payload: content_payload("You stand at a crossroads. "),
            compressed: false,
        },
        Chunk {
            tcode: 0x03,
            id: cid(30, 0, 2),
            payload: content_payload("A storm gathers."),
            compressed: true,
        },
        Chunk {
            tcode: 0x03,
            id: cid(30, 0, 3),
            payload: content_payload("Stay"),
            compressed: false,
        },
        Chunk {
            tcode: 0x03,
            id: cid(30, 0, 4),
            payload: content_payload("Go east"),
            compressed: false,
        },
    ])
}

fn all_true(_f: u32, _a: &[u8]) -> bool {
    true
}

#[test]
fn round_trip_all_nodes_close_over_node_positions() {
    // Every Node-typed position loads, and every dest_idx is itself a
    // valid Node position.
    let resource = story();
    let mut game = open_archive(&resource).unwrap();
    let mut fetches = 0usize;
    let node_positions: Vec<usize> = (0..game.index.len())
        .filter(|&i| game.index[i].chunk_type == ChunkType::Node)
        .collect();
    assert_eq!(node_positions.len(), 2);
    for &p in &node_positions {
        let view = load_node(&mut game, &resource, p, &all_true, &mut fetches).unwrap();
        for edge in &view.edges {
            let d = edge.dest_idx as usize;
            assert!(d < game.index.len());
            assert_eq!(game.index[d].chunk_type, ChunkType::Node);
        }
    }
}

#[test]
fn node_view_contents() {
    let resource = story();
    let mut game = open_archive(&resource).unwrap();
    let mut fetches = 0usize;
    // Node A stands at index position 1.
    let view = load_node(&mut game, &resource, 1, &all_true, &mut fetches).unwrap();
    assert_eq!(view.content, "You stand at a crossroads. A storm gathers.");
    assert_eq!(view.edges.len(), 2);
    assert_eq!(view.edges[0].label, "Stay");
    assert_eq!(view.edges[0].dest_idx, 1);
    assert_eq!(view.edges[1].label, "Go east");
    assert_eq!(view.edges[1].dest_idx, 2);
}

#[test]
fn idempotence_second_load_is_identical_and_fetches_less() {
    let resource = story();
    let mut game = open_archive(&resource).unwrap();
    let mut first = 0usize;
    let v1 = load_node(&mut game, &resource, 1, &all_true, &mut first).unwrap();
    let mut second = 0usize;
    let v2 = load_node(&mut game, &resource, 1, &all_true, &mut second).unwrap();
    assert_eq!(v1, v2);
    assert!(first > 0);
    assert_eq!(second, 0);
}

#[test]
fn root_resolution_matches_direct_load() {
    let resource = story();
    let mut game = open_archive(&resource).unwrap();
    let mut fetches = 0usize;
    let via_root = load_root(&mut game, &resource, &all_true, &mut fetches).unwrap();
    let mut game2 = open_archive(&resource).unwrap();
    let direct = load_node(&mut game2, &resource, 1, &all_true, &mut fetches).unwrap();
    assert_eq!(via_root, direct);
}

#[test]
fn guard_filtering_keeps_only_passing_and_unguarded_entries() {
    // Content sequence [A(guard->false), B(no guard), C(guard->true)]
    // yields B's and C's text only, in that order.
    let resource = build_archive(&[
        Chunk {
            tcode: 0x01,
            id: cid(10, 0, 1),
            payload: node_payload(
                &[],
                &[
                    (Some((1, 2, 4)), cid(30, 0, 1)),
                    (None, cid(30, 0, 2)),
                    (Some((2, 2, 4)), cid(30, 0, 3)),
                ],
            ),
            compressed: false,
        },
        Chunk {
            tcode: 0x03,
            id: cid(30, 0, 1),
            payload: content_payload("A-text "),
            compressed: false,
        },
        Chunk {
            tcode: 0x03,
            id: cid(30, 0, 2),
            payload: content_payload("B-text "),
            compressed: false,
        },
        Chunk {
            tcode: 0x03,
            id: cid(30, 0, 3),
            payload: content_payload("C-text"),
            compressed: false,
        },
    ]);
    let mut game = open_archive(&resource).unwrap();
    let mut fetches = 0usize;
    let guard = |fid: u32, arg: &[u8]| {
        assert_eq!(arg, b"ARGS");
        fid == 2
    };
    let view = load_node(&mut game, &resource, 0, &guard, &mut fetches).unwrap();
    assert_eq!(view.content, "B-text C-text");
    assert!(view.edges.is_empty());
}

#[test]
fn dangling_edge_reference_is_parse_error() {
    // The node lists an outgoing edge id absent from the index.
    let resource = build_archive(&[
        Chunk {
            tcode: 0x01,
            id: cid(10, 0, 1),
            payload: node_payload(&[cid(99, 99, 99)], &[(None, cid(30, 0, 1))]),
            compressed: false,
        },
        Chunk {
            tcode: 0x03,
            id: cid(30, 0, 1),
            payload: content_payload("text"),
            compressed: false,
        },
    ]);
    let mut game = open_archive(&resource).unwrap();
    let mut fetches = 0usize;
    let r = load_node(&mut game, &resource, 0, &all_true, &mut fetches);
    assert!(matches!(r, Err(GameError::Parse(_))));
}

#[test]
fn dangling_content_reference_is_parse_error() {
    let resource = build_archive(&[Chunk {
        tcode: 0x01,
        id: cid(10, 0, 1),
        payload: node_payload(&[], &[(None, cid(30, 0, 9))]),
        compressed: false,
    }]);
    let mut game = open_archive(&resource).unwrap();
    let mut fetches = 0usize;
    let r = load_node(&mut game, &resource, 0, &all_true, &mut fetches);
    assert!(matches!(r, Err(GameError::Parse(_))));
}

#[test]
fn loading_a_non_node_position_is_parse_error() {
    let resource = story();
    let mut game = open_archive(&resource).unwrap();
    let mut fetches = 0usize;
    // Position 0 is the metadata chunk.
    assert!(matches!(
        load_node(&mut game, &resource, 0, &all_true, &mut fetches),
        Err(GameError::Parse(_))
    ));
    // And a position beyond the index.
    assert!(matches!(
        load_node(&mut game, &resource, 999, &all_true, &mut fetches),
        Err(GameError::Parse(_))
    ));
}

#[test]
fn missing_root_is_distinguished() {
    let resource = build_archive(&[Chunk {
        tcode: 0x01,
        id: cid(10, 0, 1),
        payload: node_payload(&[], &[]),
        compressed: false,
    }]);
    let mut game = open_archive(&resource).unwrap();
    let mut fetches = 0usize;
    assert!(matches!(
        load_root(&mut game, &resource, &all_true, &mut fetches),
        Err(GameError::MissingRoot)
    ));
}

#[test]
fn index_offset_beyond_size_is_rejected() {
    let mut resource = story();
    let bogus = (resource.len() as u64 + 5).to_le_bytes();
    resource[14..22].copy_from_slice(&bogus);
    assert!(matches!(
        open_archive(&resource),
        Err(GameError::IndexOutOfRange)
    ));
}

#[test]
fn no_range_support_fails_fast() {
    assert!(matches!(
        CyoaGame::header_fetch_range(false),
        Err(GameError::RangeNotSupported)
    ));
}

#[test]
fn fetch_range_math_is_inclusive() {
    // P8: an index entry with offset=100, length=50 is requested as the
    // inclusive byte range 100-149.
    let mut cache = RawCache::new(4);
    let entry = IndexEntry {
        chunk_type: ChunkType::Content,
        chunk_id: cid(1, 2, 3),
        offset: 100,
        length: 50,
    };
    match chunk_request(&mut cache, true, &entry) {
        ChunkSource::FetchRange(s, e) => {
            assert_eq!(s, 100);
            assert_eq!(e, 149);
        }
        _ => panic!("expected a range fetch"),
    }
    // Without range support the whole resource is fetched instead.
    match chunk_request(&mut cache, false, &entry) {
        ChunkSource::FetchWhole => {}
        _ => panic!("expected a whole-resource fetch"),
    }
}

#[test]
fn cache_bound_evicts_earliest_keys() {
    // P3: after inserting capacity + k distinct keys, exactly capacity
    // entries remain and the k earliest keys are absent.
    let capacity = 4usize;
    let k = 3usize;
    let mut cache = RawCache::new(capacity);
    for i in 0..(capacity + k) {
        cache.insert(cid(i as u8, 0, 0), vec![i as u8]);
    }
    for i in 0..k {
        assert!(cache.get(&cid(i as u8, 0, 0)).is_none());
    }
    for i in k..(capacity + k) {
        assert_eq!(cache.get(&cid(i as u8, 0, 0)), Some(vec![i as u8]));
    }
}

#[test]
fn cache_get_promotes_entry() {
    let mut cache = RawCache::new(2);
    cache.insert(cid(1, 0, 0), vec![1]);
    cache.insert(cid(2, 0, 0), vec![2]);
    // Touch key 1, making key 2 the least recently used.
    assert_eq!(cache.get(&cid(1, 0, 0)), Some(vec![1]));
    cache.insert(cid(3, 0, 0), vec![3]);
    assert_eq!(cache.get(&cid(2, 0, 0)), None);
    assert_eq!(cache.get(&cid(1, 0, 0)), Some(vec![1]));
    assert_eq!(cache.get(&cid(3, 0, 0)), Some(vec![3]));
}

#[test]
fn compressed_root_pointer_resolves() {
    // The root-pointer metadata chunk itself is compressed; its
    // decompressed payload's first 3 bytes name the root node.
    let resource = build_archive(&[
        Chunk {
            tcode: 0x04,
            id: cid(0, 0, 1),
            payload: vec![10, 0, 7, 0xAA, 0xBB],
            compressed: true,
        },
        Chunk {
            tcode: 0x01,
            id: cid(10, 0, 7),
            payload: node_payload(&[], &[(None, cid(30, 0, 1))]),
            compressed: false,
        },
        Chunk {
            tcode: 0x03,
            id: cid(30, 0, 1),
            payload: content_payload("root text"),
            compressed: false,
        },
    ]);
    let mut game = open_archive(&resource).unwrap();
    let mut fetches = 0usize;
    let view = load_root(&mut game, &resource, &all_true, &mut fetches).unwrap();
    assert_eq!(view.content, "root text");
}

#[test]
fn short_root_pointer_payload_is_parse_error() {
    let resource = build_archive(&[Chunk {
        tcode: 0x04,
        id: cid(0, 0, 1),
        payload: vec![10, 0],
        compressed: false,
    }]);
    let mut game = open_archive(&resource).unwrap();
    let mut fetches = 0usize;
    assert!(matches!(
        load_root(&mut game, &resource, &all_true, &mut fetches),
        Err(GameError::Parse(_))
    ));
}

#[test]
fn root_pointer_to_missing_node_is_parse_error() {
    let resource = build_archive(&[Chunk {
        tcode: 0x04,
        id: cid(0, 0, 1),
        payload: vec![99, 99, 99],
        compressed: false,
    }]);
    let mut game = open_archive(&resource).unwrap();
    let mut fetches = 0usize;
    assert!(matches!(
        load_root(&mut game, &resource, &all_true, &mut fetches),
        Err(GameError::Parse(_))
    ));
}

#[test]
fn cache_reinsert_is_not_deduplicated() {
    // Re-inserting an existing key adds a second entry; get finds the
    // most recent one first.
    let mut cache = RawCache::new(4);
    cache.insert(cid(1, 0, 0), vec![1]);
    cache.insert(cid(1, 0, 0), vec![2]);
    assert_eq!(cache.get(&cid(1, 0, 0)), Some(vec![2]));
}

// ---------------------------------------------------------------------
// The in-memory loader (load_node_begin / load_node_finish)
// ---------------------------------------------------------------------

fn load_node_in_memory(
    game: &mut CyoaGame,
    resource: &[u8],
    idx: usize,
    guard: &dyn Fn(u32, &[u8]) -> bool,
) -> Result<NodeOutput, GameError> {
    let pending = game.load_node_begin(resource, idx)?;
    let verdicts: Vec<bool> = pending
        .entries
        .iter()
        .map(|e| match &e.guard {
            Some((fid, bytes)) => guard(*fid, bytes),
            None => true,
        })
        .collect();
    game.load_node_finish(resource, &pending, &verdicts)
}

#[test]
fn in_memory_loader_agrees_with_the_stepwise_driver() {
    let resource = story();
    let mut game1 = open_archive(&resource).unwrap();
    let mut game2 = open_archive(&resource).unwrap();
    let mut fetches = 0usize;
    for idx in 0..game1.index.len() {
        if game1.index[idx].chunk_type != ChunkType::Node {
            continue;
        }
        let a = load_node_in_memory(&mut game1, &resource, idx, &all_true).unwrap();
        let b = load_node(&mut game2, &resource, idx, &all_true, &mut fetches).unwrap();
        assert_eq!(a, b);
    }
}

#[test]
fn in_memory_round_trip_closes_over_node_positions() {
    let resource = story();
    let mut game = open_archive(&resource).unwrap();
    for idx in 0..game.index.len() {
        if game.index[idx].chunk_type != ChunkType::Node {
            continue;
        }
        let view = load_node_in_memory(&mut game, &resource, idx, &all_true).unwrap();
        for edge in &view.edges {
            assert_eq!(game.index[edge.dest_idx as usize].chunk_type, ChunkType::Node);
        }
    }
}

#[test]
fn in_memory_root_matches_direct_load() {
    let resource = story();
    let mut game = open_archive(&resource).unwrap();
    let pending = game.load_root_begin(&resource).unwrap();
    assert_eq!(pending.idx, 1);
    let verdicts = vec![true; pending.entries.len()];
    let via_root = game.load_node_finish(&resource, &pending, &verdicts).unwrap();
    let direct = load_node_in_memory(&mut game, &resource, 1, &all_true).unwrap();
    assert_eq!(via_root, direct);
}

#[test]
fn in_memory_repeated_load_is_identical() {
    let resource = story();
    let mut game = open_archive(&resource).unwrap();
    let a = load_node_in_memory(&mut game, &resource, 2, &all_true).unwrap();
    let b = load_node_in_memory(&mut game, &resource, 2, &all_true).unwrap();
    assert_eq!(a, b);
}

#[test]
fn in_memory_guard_filtering() {
    let resource = build_archive(&[
        Chunk {
            tcode: 0x01,
            id: cid(10, 0, 1),
            payload: node_payload(
                &[],
                &[
                    (Some((1, 2, 4)), cid(30, 0, 1)),
                    (None, cid(30, 0, 2)),
                    (Some((2, 2, 4)), cid(30, 0, 3)),
                ],
            ),
            compressed: false,
        },
        Chunk {
            tcode: 0x03,
            id: cid(30, 0, 1),
            payload: content_payload("A-text "),
            compressed: false,
        },
        Chunk {
            tcode: 0x03,
            id: cid(30, 0, 2),
            payload: content_payload("B-text "),
            compressed: false,
        },
        Chunk {
            tcode: 0x03,
            id: cid(30, 0, 3),
            payload: content_payload("C-text"),
            compressed: false,
        },
    ]);
    let mut game = open_archive(&resource).unwrap();
    let guard = |fid: u32, _arg: &[u8]| fid == 2;
    let view = load_node_in_memory(&mut game, &resource, 0, &guard).unwrap();
    assert_eq!(view.content, "B-text C-text");
}

#[test]
fn in_memory_errors() {
    let resource = story();
    let mut game = open_archive(&resource).unwrap();
    // A non-node position is rejected at begin.
    assert!(matches!(
        game.load_node_begin(&resource, 0),
        Err(GameError::Parse(_))
    ));
    // A dangling edge reference fails at finish.
    let dangling = build_archive(&[
        Chunk {
            tcode: 0x01,
            id: cid(10, 0, 1),
            payload: node_payload(&[cid(99, 99, 99)], &[(None, cid(30, 0, 1))]),
            compressed: false,
        },
        Chunk {
            tcode: 0x03,
            id: cid(30, 0, 1),
            payload: content_payload("text"),
            compressed: false,
        },
    ]);
    let mut game2 = open_archive(&dangling).unwrap();
    let r = load_node_in_memory(&mut game2, &dangling, 0, &all_true);
    assert!(matches!(r, Err(GameError::Parse(_))));
}
