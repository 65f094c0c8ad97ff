use halo_api::clients::hi::film::{
    decode_diagnostics, decode_events, decode_first_delta_header, decode_frame_record_header,
    decode_frame_record_header_with_id_width, decode_player_indices, decode_players,
    decode_registry, find_bit_pattern, padded_gamertag_field, FilmBitReader, FilmEvent,
    FilmEventKind, FilmMedal, FilmPlayer, FilmRecordHeader, FilmRecordKind, FilmWorld,
    REGISTRY_BLOCK_SIZE,
};
use halo_api::clients::hi::models::{FilmChunk, FilmChunkData};

fn chunk(index: i32, chunk_type: i32, data: Vec<u8>) -> FilmChunkData {
    FilmChunkData {
        metadata: FilmChunk {
            index,
            start_time_offset_ms: 0,
            duration_ms: 0,
            size: data.len() as i64,
            file_relative_path: String::new(),
            chunk_type,
        },
        data,
    }
}

#[test]
fn finds_unaligned_patterns() {
    let data = [0b1011_0011, 0b0101_1110];
    assert_eq!(find_bit_pattern(&data, &[0b1100_1101]), vec![2]);
}

#[test]
fn reads_msb_first_bits() {
    let mut reader = FilmBitReader::new(&[0b1011_0010, 0b0110_0000]);
    assert_eq!(reader.read(3), Some(0b101));
    assert_eq!(reader.read(7), Some(0b1001001));
    assert_eq!(reader.position(), 10);
}

#[test]
fn film_parses_registry_slots() {
    let mut data = vec![0; REGISTRY_BLOCK_SIZE];
    let name = b"example-component";
    data[8..8 + name.len()].copy_from_slice(name);
    let chunks = [FilmChunkData {
        metadata: FilmChunk {
            index: 0,
            start_time_offset_ms: 0,
            duration_ms: 0,
            size: data.len() as i64,
            file_relative_path: String::new(),
            chunk_type: 1,
        },
        data,
    }];
    let registry = decode_registry(&chunks).unwrap();
    assert_eq!(
        registry.archetypes[0].components,
        [String::from_utf8_lossy(name)]
    );
}

#[test]
fn decodes_only_complete_summary_event_envelopes() {
    let mut data = vec![0; 3];
    let mut event = [0u8; 72];
    event[..12].fill(0xa5);
    event[12..44].copy_from_slice(&padded_gamertag_field("MsNuzzles").unwrap());
    event[59] = 50;
    event[60..64].copy_from_slice(&12_345u32.to_be_bytes());
    event[71] = 42;
    data.extend_from_slice(&event);
    let chunks = [FilmChunkData {
        metadata: FilmChunk {
            index: 0,
            start_time_offset_ms: 0,
            duration_ms: 0,
            size: data.len() as i64,
            file_relative_path: String::new(),
            chunk_type: 3,
        },
        data,
    }];
    let players = [
        FilmPlayer {
            xuid: 1,
            gamertag: "Nuzzles".into(),
        },
        FilmPlayer {
            xuid: 2,
            gamertag: "MsNuzzles".into(),
        },
    ];

    assert_eq!(
        decode_events(&chunks, &players),
        [FilmEvent {
            xuid: 2,
            gamertag: "MsNuzzles".into(),
            timestamp_ms: 12_345,
            kind: FilmEventKind::Kill,
            medal_flag: 0,
            metadata: 42,
        }]
    );
}

#[test]
fn maps_article_medal_ids() {
    assert_eq!(
        FilmMedal::from_id(166),
        FilmMedal::Known {
            id: 166,
            name: "Mounted"
        }
    );
    assert_eq!(FilmMedal::from_id(255), FilmMedal::Unknown(255));
}

#[test]
fn decodes_prefix_coded_record_headers() {
    assert_eq!(
        decode_frame_record_header(&[0]),
        Some(FilmRecordHeader {
            kind: FilmRecordKind::End,
            full_id: None,
            slot: None,
            header_bits: 3,
        })
    );
    let header =
        decode_frame_record_header_with_id_width(&[0b1010_1010, 0b1010_1010], 13).unwrap();
    assert_eq!(header.kind, FilmRecordKind::Delta);
    assert_eq!(header.slot, Some(0b0_1010_1010_1010));
    assert_eq!(header.header_bits, 16);
}

#[test]
fn decodes_sparse_component_mask() {
    // DELTA, slot 0, tag 0, sparse mask with indices 0 and 11.
    let bits = "1 00000000000 00 0 010 000000 001011"
        .chars()
        .filter(|character| *character != ' ')
        .collect::<String>();
    let mut data = vec![0u8; bits.len().div_ceil(8)];
    for (index, character) in bits.bytes().enumerate() {
        if character == b'1' {
            data[index / 8] |= 1 << (7 - index % 8);
        }
    }
    let delta = decode_first_delta_header(&data).unwrap();
    assert_eq!(delta.record.slot, Some(0));
    assert_eq!(delta.component_mask, 1 | (1 << 11));
    assert_eq!(delta.data_bit_offset, bits.len());
}

#[test]
fn decodes_dense_component_mask_component_zero_first() {
    // DELTA, slot 0, tag 0, dense mask with components 0 and 63 set.
    let bits = format!("1{:011b}0011{}1", 0, "0".repeat(62))
        .chars()
        .collect::<Vec<_>>();
    let mut data = vec![0u8; bits.len().div_ceil(8)];
    for (index, bit) in bits.into_iter().enumerate() {
        if bit == '1' {
            data[index / 8] |= 1 << (7 - index % 8);
        }
    }
    let delta = decode_first_delta_header(&data).unwrap();
    assert_eq!(delta.component_mask, 1 | (1 << 63));
}

/// A roster entry: 32-byte UTF-16 name, 21 zero bytes, LE XUID, marker.
fn roster_record(xuid: u64, name: &str, marker: [u8; 2]) -> Vec<u8> {
    let mut record = vec![0; 32 + 21];
    for (j, unit) in name.encode_utf16().enumerate() {
        record[j * 2..j * 2 + 2].copy_from_slice(&unit.to_le_bytes());
    }
    record.extend(xuid.to_le_bytes());
    record.extend(marker);
    record
}

#[test]
fn roster_players_are_unique_by_xuid_first_entry_wins_and_ordered() {
    let mut data = Vec::new();
    data.extend(roster_record(7, "Later", [0x2d, 0xc0]));
    data.extend(roster_record(3, "First", [0x2d, 0xc0]));
    data.extend(roster_record(7, "Again", [0x2d, 0xc0]));
    let players = decode_players(&[chunk(1, 2, data)]);
    assert_eq!(
        players,
        [
            FilmPlayer { xuid: 3, gamertag: "First".into() },
            FilmPlayer { xuid: 7, gamertag: "Later".into() },
        ]
    );
}

#[test]
fn roster_ignores_footer_chunks_and_zero_xuids() {
    let footer = roster_record(9, "Footer", [0x2d, 0xc0]);
    let zero = roster_record(0, "Nobody", [0x2d, 0xc0]);
    assert!(decode_players(&[chunk(1, 3, footer)]).is_empty());
    assert!(decode_players(&[chunk(1, 2, zero)]).is_empty());
}

#[test]
fn diagnostics_count_markers_padding_and_names() {
    let mut data = roster_record(5, "Name", [0x2d, 0xc0]);
    data.extend([0x2d, 0xc0]);
    let d = decode_diagnostics(&[chunk(1, 2, data)]);
    assert_eq!(d.player_markers, 2);
    assert_eq!(d.markers_with_zero_padding, 1);
    assert_eq!(d.decoded_gamertags, 1);
}

#[test]
fn player_indices_read_five_bits_before_the_xuid() {
    let xuid: u64 = 0x0102_0304_0506_0708;
    let mut data = vec![0u8; 2];
    // index 0b10110 in the first five bits, then the little-endian XUID.
    data[0] = 0b1011_0000;
    let mut bits: Vec<u8> = vec![0; 16];
    for (i, b) in xuid.to_le_bytes().iter().enumerate() {
        for j in 0..8 {
            let at = 5 + i * 8 + j;
            if (b >> (7 - j)) & 1 == 1 {
                bits[at / 8] |= 1 << (7 - at % 8);
            }
        }
    }
    bits[0] |= 0b1011_0000;
    let players = [FilmPlayer { xuid, gamertag: "P".into() }];
    let indices = decode_player_indices(&[chunk(1, 2, bits)], &players);
    assert_eq!(indices.get(&xuid), Some(&0b10110));
    assert!(decode_player_indices(&[chunk(1, 3, data)], &players).is_empty());
}

#[test]
fn events_are_sorted_by_time_and_consecutive_duplicates_removed() {
    fn event(ts: u32, code: u8) -> Vec<u8> {
        let mut event = [0u8; 72];
        event[12..44].copy_from_slice(&padded_gamertag_field("Tag").unwrap());
        event[59] = code;
        event[60..64].copy_from_slice(&ts.to_be_bytes());
        let mut v = vec![0; 3];
        v.extend_from_slice(&event);
        v
    }
    let mut data = Vec::new();
    data.extend(event(500, 20));
    data.extend(event(100, 50));
    data.extend(event(500, 20));
    let players = [FilmPlayer { xuid: 9, gamertag: "Tag".into() }];
    let events = decode_events(&[chunk(0, 3, data)], &players);
    let times: Vec<u32> = events.iter().map(|e| e.timestamp_ms).collect();
    assert_eq!(times, [100, 500]);
    assert_eq!(events[0].kind, FilmEventKind::Kill);
    assert_eq!(events[1].kind, FilmEventKind::Death);
}

#[test]
fn gamertag_field_is_padded_utf16_or_none_when_too_long() {
    let field = padded_gamertag_field("Ab").unwrap();
    assert_eq!(field.len(), 32);
    assert_eq!(&field[..4], &[b'A', 0, b'b', 0]);
    assert!(field[4..].iter().all(|b| *b == 0));
    assert!(padded_gamertag_field("ThisNameIsFarTooLong").is_none());
    assert_eq!(padded_gamertag_field("😀").unwrap()[..4], [0x3d, 0xd8, 0x00, 0xde]);
}

#[test]
fn world_binding_reads_back_and_unbinds() {
    let mut world = FilmWorld::new();
    assert!(world.is_empty());
    world.bind(0xC000_0005, 7);
    assert_eq!(world.archetype_index(5), Some(7));
    assert_eq!(world.full_id(5), Some(0xC000_0005));
    assert_eq!(world.len(), 1);
    world.unbind(5);
    assert_eq!(world.archetype_index(5), None);
    assert!(world.is_empty());
}

#[test]
fn medal_names_and_event_kinds() {
    assert_eq!(FilmMedal::from_id(0).name(), "Double Kill");
    assert_eq!(FilmMedal::Unknown(250).name(), "Unknown medal");
    assert_eq!(FilmEventKind::from_fields(50, 1), FilmEventKind::Medal);
    assert_eq!(FilmEventKind::from_fields(10, 0), FilmEventKind::Mode);
    assert_eq!(FilmEventKind::from_fields(99, 0), FilmEventKind::Other(99));
    let event = FilmEvent {
        xuid: 1,
        gamertag: "x".into(),
        timestamp_ms: 0,
        kind: FilmEventKind::Medal,
        medal_flag: 1,
        metadata: 166,
    };
    assert_eq!(event.medal(), Some(FilmMedal::Known { id: 166, name: "Mounted" }));
}

#[test]
fn world_bindings_keep_their_slot_in_the_low_bits() {
    let mut w = FilmWorld::new();
    w.bind(0xc000_0005, 3);
    w.bind(7, 1);
    assert_eq!(w.full_id(5), Some(0xc000_0005));
    assert_eq!(w.full_id(5).unwrap() & 0x3fff_ffff, 5);
    assert_eq!(w.archetype_index(5), Some(3));
    w.unbind(7);
    assert_eq!(w.full_id(7), None);
    assert_eq!(w.len(), 1);
    assert!(!w.is_empty());
}

#[test]
fn default_and_cloned_worlds_keep_their_bindings() {
    let mut w = FilmWorld::default();
    assert!(w.is_empty());
    w.bind(0x4000_0009, 2);
    let copy = w.clone();
    w.unbind(9);
    assert_eq!(copy.full_id(9), Some(0x4000_0009));
    assert_eq!(copy.archetype_index(9), Some(2));
    assert!(w.is_empty());
}
