use halo_api::clients::hi::models::{FilmChunk, FilmChunkData};
use halo_api::theater::registry::decode_registry;

const REGISTRY_BLOCK_SIZE: usize = 260 * 64;

#[test]
fn registry_parses_registry_slots() {
    let mut data = vec![0; REGISTRY_BLOCK_SIZE];
    let name = b"example-component";
    data[8..8 + name.len()].copy_from_slice(name);
    let chunks = [FilmChunkData {
        metadata: FilmChunk {
            index: 0,
            start_time_offset_ms: 0,
            duration_ms: 0,
            size: data.len() as i64,
            file_relative_path: String::new(),
            chunk_type: 1,
        },
        data,
    }];
    let registry = decode_registry(&chunks).unwrap();
    assert_eq!(
        registry.archetypes[0].components,
        [String::from_utf8_lossy(name)]
    );
}

#[test]
fn registry_stops_at_first_unnamed_slot_and_ignores_partial_blocks() {
    let mut data = vec![0; REGISTRY_BLOCK_SIZE + 100];
    data[8..11].copy_from_slice(b"abc");
    data[260 + 8] = b' ';
    data[520 + 8..520 + 11].copy_from_slice(b"xyz");
    let chunks = [FilmChunkData {
        metadata: FilmChunk {
            index: 0,
            start_time_offset_ms: 0,
            duration_ms: 0,
            size: 0,
            file_relative_path: String::new(),
            chunk_type: 1,
        },
        data,
    }];
    let registry = decode_registry(&chunks).unwrap();
    assert_eq!(registry.archetypes.len(), 1);
    assert_eq!(registry.archetypes[0].components, ["abc"]);
    assert!(registry.archetype(1).is_none());
    assert!(decode_registry(&[]).is_none());
}
