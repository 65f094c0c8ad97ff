use halo_api::clients::hi::film::FilmPlayer;
use halo_api::clients::hi::models::{FilmChunk, FilmChunkData};
use halo_api::theater::bits::Bits;
use halo_api::theater::medals::film_medal_definitions;
use halo_api::theater::roster::{decode_player_indices, decode_players};
use halo_api::theater::{
    film_medal_definition, packets, CoordinateLayout, DecodeError, DecodeOptions, Firing,
    FilmMedal, MedalAward, ZoomStage,
};
use halo_api::theater::combat::INPUT_END;
use halo_api::theater::input::terminal;
use halo_api::theater::motion::{spawn, weapon_delta, COORD_PREFIXES, COORD_SUFFIX, SPAWN_BODY};
use std::collections::BTreeMap;

fn chunk(index: i32, kind: i32, data: Vec<u8>) -> FilmChunkData {
    FilmChunkData {
        metadata: FilmChunk {
            index,
            chunk_type: kind,
            start_time_offset_ms: 0,
            duration_ms: 0,
            size: data.len() as i64,
            file_relative_path: String::new(),
        },
        data,
    }
}

fn frame(timestamp: u64, payload: &[u8]) -> Vec<u8> {
    let mut data = vec![0; 4];
    data.extend_from_slice(&(payload.len() as u32).to_le_bytes());
    data.extend_from_slice(&timestamp.to_le_bytes());
    data.extend_from_slice(payload);
    data
}

#[test]
fn bounded_reads_and_rolling_windows_agree_at_every_alignment() {
    let data = [
        0x01, 0xff, 0x35, 0xa2, 0x00, 0x71, 0xaa, 0x55, 0x84, 0x19, 0x18,
    ];
    let b = Bits(&data);
    let mut windows = b.windows();
    while let Some((offset, w)) = windows.next() {
        for width in 1..=64.min(b.len() - offset) {
            let expected = (0..width).fold(0u64, |v, i| {
                (v << 1) | u64::from((data[(offset + i) / 8] >> (7 - (offset + i) % 8)) & 1)
            });
            assert_eq!(b.read(offset, width), Some(expected));
            assert_eq!(w >> (64 - width), expected);
        }
    }
    assert_eq!(b.read(usize::MAX, 2), None);
    assert_eq!(b.read(0, 65), None);
    assert_eq!(b.read(b.len(), 1), None);
    assert_eq!(b.read(b.len(), 0), Some(0));
}

#[test]
fn packet_index_rejects_duplicates_and_truncation() {
    assert!(matches!(packets::index(&[]), Err(DecodeError::Missing(_))));
    assert!(matches!(
        packets::index(&[chunk(1, 2, vec![]), chunk(1, 1, vec![])]),
        Err(DecodeError::DuplicateChunk(1))
    ));
    let data = frame(100, &[1, 2, 3]);
    for n in 1..data.len() {
        assert!(matches!(
            packets::index(&[chunk(2, 2, data[..n].to_vec())]),
            Err(DecodeError::Truncated { .. })
        ));
    }
    let p = packets::index(&[chunk(2, 2, data.clone()), chunk(1, 2, data)]).unwrap();
    assert_eq!(p.iter().map(|p| p.chunk_index).collect::<Vec<_>>(), [1, 2]);
    assert_eq!(
        (p[0].payload_size, p[0].payload_offset, p[0].timestamp_us),
        (3, 16, 100)
    );
}

#[test]
fn both_markers_and_roster_indices_work_at_every_bit_alignment() {
    for shift in 0..8 {
        let mut data = vec![0u8; 140];
        for (i, (xuid, name, marker)) in [
            (1u64, "Nuzzles", [0x2d, 0xc0]),
            (2, "MsNuzzles", [0x25, 0xc0]),
        ]
        .into_iter()
        .enumerate()
        {
            let start = shift + i * 64 * 8;
            let mut record = vec![0; 32 + 21];
            for (j, unit) in name.encode_utf16().enumerate() {
                record[j * 2..j * 2 + 2].copy_from_slice(&unit.to_le_bytes());
            }
            // Roster index directly precedes the XUID; padding ends with zero here.
            record.extend(xuid.to_le_bytes());
            record.extend(marker);
            for (bit, set) in record
                .iter()
                .flat_map(|byte| (0..8).map(move |i| (byte >> (7 - i)) & 1))
                .enumerate()
            {
                data[(start + bit) / 8] |= set << (7 - (start + bit) % 8);
            }
        }
        let chunks = [FilmChunkData {
            data,
            metadata: FilmChunk {
                index: 1,
                chunk_type: 2,
                start_time_offset_ms: 0,
                duration_ms: 0,
                size: 0,
                file_relative_path: String::new(),
            },
        }];
        let players = decode_players(&chunks);
        assert_eq!(
            players,
            [
                FilmPlayer {
                    xuid: 1,
                    gamertag: "Nuzzles".into()
                },
                FilmPlayer {
                    xuid: 2,
                    gamertag: "MsNuzzles".into()
                }
            ]
        );
        assert_eq!(
            decode_player_indices(&chunks, &players),
            BTreeMap::from([(1, 0), (2, 0)])
        );
    }
}

#[test]
fn first_recorded_nonzero_index_wins_at_every_bit_alignment() {
    let players = [
        FilmPlayer {
            xuid: 2535472547643888,
            gamertag: "Nuzzles".into(),
        },
        FilmPlayer {
            xuid: 2535443507298499,
            gamertag: "Yet".into(),
        },
    ];
    for shift in 0..8 {
        let mut data = vec![0u8; 40];
        let mut put = |start: usize, width: usize, value: u64| {
            for i in 0..width {
                data[(start + i) / 8] |=
                    (((value >> (width - i - 1)) & 1) as u8) << (7 - (start + i) % 8);
            }
        };
        for (i, (xuid, index)) in [
            (players[0].xuid, 3),
            (players[1].xuid, 19),
            (players[0].xuid, 7),
        ]
        .into_iter()
        .enumerate()
        {
            let start = shift + i * 80;
            put(start, 5, index);
            put(start + 5, 64, xuid.swap_bytes());
        }
        let chunk = FilmChunkData {
            data,
            metadata: FilmChunk {
                index: 1,
                chunk_type: 2,
                start_time_offset_ms: 0,
                duration_ms: 0,
                size: 0,
                file_relative_path: String::new(),
            },
        };
        assert_eq!(
            decode_player_indices(&[chunk], &players),
            BTreeMap::from([(players[0].xuid, 3), (players[1].xuid, 19)])
        );
    }
}

#[test]
fn medal_catalog_is_ordered_and_resolves_known_codes() {
    let definitions = film_medal_definitions();
    assert_eq!(definitions.len(), 155);
    assert_eq!(definitions.iter().filter(|m| m.name_id.is_some()).count(), 151);
    assert!(definitions.windows(2).all(|m| m[0].film_id < m[1].film_id));
    for d in &definitions {
        assert_eq!(film_medal_definition(d.film_id), Some(*d));
    }
    assert_eq!(FilmMedal::from_id(105).name(), "Reversal");
    assert_eq!(FilmMedal::from_id(117).name_id(), Some(3334154676));
    assert_eq!(FilmMedal::from_id(166).name(), "Mounted & Loaded");
    assert_eq!(FilmMedal::from_id(255), FilmMedal::Unknown(255));
    assert_eq!(FilmMedal::from_id(255).id(), 255);
    let award = MedalAward::from_film_id(32);
    assert_eq!(award.name.as_deref(), Some("Steaktacular"));
    assert_eq!(award.name_id, Some(1169390319));
    assert_eq!(MedalAward::from_film_id(150).name_id, None);
}

#[test]
fn typed_values_expose_checked_subfields() {
    assert_eq!(CoordinateLayout::X17Y17Z16.axis_bits(), [17, 17, 16]);
    assert_eq!(CoordinateLayout::X18Y18Z15.coordinate_bits(), 51);
    assert_eq!(CoordinateLayout::X15Y15Z17.position_bits(), 54);
    let firing = Firing { sequence: 1, weapon_window: (3u64 << 36) | (0xdead_beef << 4) | 4 };
    assert_eq!(firing.weapon_slot(), Some(1));
    assert_eq!(firing.weapon_fingerprint(), Some(0xdead_beef));
    let other = Firing { sequence: 1, weapon_window: (2u64 << 36) | 4 };
    assert_eq!(other.weapon_slot(), None);
    assert_eq!(other.weapon_fingerprint(), None);
    assert_eq!(ZoomStage::Second.raw(), 2);
    let options = DecodeOptions::v41();
    assert_eq!(options.major_version, 41);
    assert!(options.retain_coverage);
    assert_eq!(
        DecodeError::Truncated { chunk: 3, offset: 17 }.to_string(),
        "truncated chunk 3 at byte 17"
    );
    assert_eq!(
        DecodeError::UnsupportedVersion(40).to_string(),
        "unsupported Theater film major version 40; supported: 41"
    );
}

/// Sets `width` bits of `data` at bit `pos` to `value`, most significant bit first.
fn put(data: &mut Vec<u8>, pos: usize, value: u64, width: usize) {
    let need = (pos + width).div_ceil(8);
    if data.len() < need {
        data.resize(need, 0);
    }
    for i in 0..width {
        let at = pos + i;
        let mask = 0x80u8 >> (at % 8);
        if (value >> (width - 1 - i)) & 1 == 1 {
            data[at / 8] |= mask;
        } else {
            data[at / 8] &= !mask;
        }
    }
}

fn flip(data: &mut [u8], bit: usize) {
    data[bit / 8] ^= 1 << (7 - bit % 8);
}

#[test]
fn captured_idle_aquarius_matches_map_derived_axis_partition() {
    let mut data = Vec::new();
    put(&mut data, 2, 0x22, 8);
    put(&mut data, 10, 0x03, 8);
    put(&mut data, 18, 0b01, 2);
    put(&mut data, 20, SPAWN_BODY, 49);
    put(&mut data, 69, 1, 5);
    put(&mut data, 192, COORD_PREFIXES[0], 63);
    put(&mut data, 263, 1980, 13);
    put(&mut data, 276, 2469, 12);
    put(&mut data, 288, 727, 11);
    put(&mut data, 299, COORD_SUFFIX, 30);
    let b = Bits(&data);
    assert!(b.matches(20, SPAWN_BODY, 49));
    assert!(b.matches(192, COORD_PREFIXES[0], 63));
    assert!(b.matches(299, COORD_SUFFIX, 30));
    let s = spawn(b, 0).unwrap();
    assert_eq!(s.layout, CoordinateLayout::X13Y12Z11);
    assert_eq!(s.xyz, [1980, 2469, 727]);
    assert_eq!(s.end, 329);
}

fn firing_at(window: u64) -> Vec<u8> {
    let mut data = Vec::new();
    put(&mut data, 1, 0b10100100110, 11);
    put(&mut data, 12, 0x30, 8);
    put(&mut data, 20, 0b01, 2);
    put(&mut data, 35, 2, 5);
    put(&mut data, 40, window, 40);
    put(&mut data, 80, halo_api::theater::combat::FIRING_GUARD, 28);
    data
}

#[test]
fn captured_firing_separates_slot_from_weapon_fingerprint() {
    for (slot, fingerprint) in [(0u8, 0x1234_abcdu64), (1, 0x0bad_f00d)] {
        let window = ((2 * u64::from(slot) + 1) << 36) | (fingerprint << 4) | 4;
        let data = firing_at(window);
        let firing = halo_api::theater::combat::firing(Bits(&data), 0).unwrap().value;
        assert_eq!(firing.weapon_slot(), Some(slot));
        assert_eq!(format!("{:08x}", firing.weapon_fingerprint().unwrap()), format!("{fingerprint:08x}"));
        assert_eq!(format!("{:010x}", firing.weapon_window), format!("{window:010x}"));
        for mask in [1, 1 << 36, 1 << 39] {
            let bad = Firing { weapon_window: firing.weapon_window ^ mask, ..firing };
            assert_eq!(bad.weapon_slot(), None);
            assert_eq!(bad.weapon_fingerprint(), None);
        }
    }
}

#[test]
fn captured_stalker_cooling_field_allows_selection_without_inventing_ammo() {
    let mut data = Vec::new();
    put(&mut data, 0, 0b100010, 6);
    put(&mut data, 6, 0x40, 8);
    put(&mut data, 14, 0b01, 2);
    put(&mut data, 18, 2, 3);
    put(&mut data, 21, 35, 6);
    put(&mut data, 27, 42, 6);
    let cooling = 33;
    put(&mut data, cooling, 20 << 2, 9);
    put(&mut data, cooling + 9, 0b0010001, 7);
    put(&mut data, cooling + 16, INPUT_END, 16);
    let read = |data: &[u8]| weapon_delta(Bits(data), 0, CoordinateLayout::X15Y15Z17, Some(3));
    let d = read(&data).unwrap();
    assert_eq!(d.ids, [35, 42]);
    assert_eq!(d.selection, Some(0));
    assert_eq!(d.end, cooling + 16);
    assert!(d.magazines.is_empty());
    for bit in [cooling + 8, cooling + 7, cooling + 1, d.end] {
        let mut bad = data.clone();
        flip(&mut bad, bit);
        assert!(read(&bad).is_none());
    }
    assert!(read(&data[..d.end / 8]).is_none());
    let mut standalone = Vec::new();
    put(&mut standalone, 0, 0b100010, 6);
    put(&mut standalone, 6, 0x40, 8);
    put(&mut standalone, 14, 0b01, 2);
    put(&mut standalone, 18, 1, 3);
    put(&mut standalone, 21, 35, 6);
    put(&mut standalone, 27, 20 << 2, 9);
    put(&mut standalone, 36, INPUT_END, 16);
    assert!(weapon_delta(Bits(&standalone), 0, CoordinateLayout::X15Y15Z17, None).is_none());
}

fn terminal_record(header: u64, buttons: u64, width: usize) -> Vec<u8> {
    let start = 13;
    let mut data = Vec::new();
    put(&mut data, start, 1, 1);
    put(&mut data, start + 1, 0, 8);
    put(&mut data, start + 9, header, 4);
    put(&mut data, start + 13, 31, 6);
    put(&mut data, start + 19, 31, 6);
    put(&mut data, start + 25, buttons, width);
    let end = start + 25 + width;
    put(&mut data, end, 0, end.div_ceil(8) * 8 - end);
    data
}

#[test]
fn terminal_inputs_reject_unsupported_headers_axes_and_buttons() {
    let data = terminal_record(14, 0, 5);
    let row = terminal(Bits(&data)).unwrap().remove(0);
    for bit in [row.start, row.start + 7, row.start + 9, row.buttons, row.start - 1] {
        let mut corrupt = data.clone();
        flip(&mut corrupt, bit);
        assert!(terminal(Bits(&corrupt)).is_none());
    }
    let mut axes = data.clone();
    put(&mut axes, row.start + 13, 0xff, 8);
    assert!(terminal(Bits(&axes)).is_none());
    let data = terminal_record(13, 0b00100001000, 11);
    let row = terminal(Bits(&data)).unwrap().remove(0);
    assert!(row.crouch);
    let mut unknown = data.clone();
    flip(&mut unknown, row.buttons + 3);
    assert!(terminal(Bits(&unknown)).is_none());
}

#[test]
fn version_duplicates_and_packet_truncation_are_typed() {
    let mut v40 = DecodeOptions::v41();
    v40.major_version = 40;
    assert!(matches!(
        halo_api::theater::Film::try_from_chunks(&[], v40),
        Err(DecodeError::UnsupportedVersion(40))
    ));
    assert!(matches!(packets::index(&[]), Err(DecodeError::Missing(_))));
    assert!(matches!(
        packets::index(&[chunk(1, 2, vec![]), chunk(1, 1, vec![])]),
        Err(DecodeError::DuplicateChunk(1))
    ));
    let data = frame(100, &[1, 2, 3]);
    for n in 1..data.len() {
        assert!(matches!(
            packets::index(&[chunk(2, 2, data[..n].to_vec())]),
            Err(DecodeError::Truncated { .. })
        ));
    }
    let p = packets::index(&[chunk(2, 2, data.clone()), chunk(1, 2, data)]).unwrap();
    assert_eq!(p.iter().map(|p| p.chunk_index).collect::<Vec<_>>(), [1, 2]);
    assert_eq!((p[0].payload_size, p[0].payload_offset, p[0].timestamp_us), (3, 16, 100));
}

#[test]
fn all_windows_yields_every_offset_once_in_order() {
    let data = [0x80, 0x01, 0xf0];
    let b = Bits(&data);
    let all = b.all_windows();
    assert_eq!(all.len(), 24);
    for (k, (offset, w)) in all.iter().enumerate() {
        assert_eq!(*offset, k);
        assert_eq!(*w, b.window(k));
        let width = 64.min(b.len() - k);
        assert_eq!(Some(w >> (64 - width)), b.read(k, width));
    }
    assert_eq!(all[0].1, 0x8001_f000_0000_0000);
    assert_eq!(all[23].1, 0);
    assert!(Bits(&[]).all_windows().is_empty());
}
