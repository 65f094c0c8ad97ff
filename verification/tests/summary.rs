use halo_api::clients::hi::models::{FilmChunk, FilmChunkData};
use halo_api::theater::highlights::{FilmEvent, FilmEventReport};
use halo_api::theater::summary::{
    decode_summary_events, SummaryEventValidation, ValidatedSummaryEventReport,
};
use halo_api::clients::hi::models::{
    MatchCoreStats, MatchOutcome, MatchPlayer, MatchStats, MatchStatsBlock, PlayerTeamStats, StatAward,
};
use halo_api::theater::validation::validate_summary_events;
use halo_api::theater::{film_medal_definition, DecodeError, SummaryKind};

fn write_bits(data: &mut [u8], offset: usize, width: usize, value: u64) {
    for i in 0..width {
        let bit = offset + i;
        let mask = 1 << (7 - bit % 8);
        data[bit / 8] = (data[bit / 8] & !mask) | (((value >> (width - i - 1)) as u8 & 1) * mask);
    }
}

const IDENTITY_TO_TAIL: usize = 14_926;

/// One recorded event: identity bit within the payload, XUID, name, time (ms),
/// type code, medal flag and metadata.
struct Recorded {
    identity_bit: usize,
    xuid: u64,
    name: &'static str,
    time_ms: u32,
    type_code: u8,
    medal_flag: u8,
    metadata: u8,
}

fn write_event(payload: &mut [u8], e: &Recorded) {
    for (k, b) in e.xuid.to_le_bytes().iter().enumerate() {
        write_bits(payload, e.identity_bit + 8 * k, 8, *b as u64);
    }
    write_bits(payload, e.identity_bit + 64, 16, 0x2dc0);
    let tail = e.identity_bit + IDENTITY_TO_TAIL;
    for (k, unit) in e.name.encode_utf16().enumerate() {
        write_bits(payload, tail + 16 * k, 16, unit.swap_bytes() as u64);
    }
    write_bits(payload, tail + 47 * 8, 8, e.type_code as u64);
    write_bits(payload, tail + 48 * 8, 32, e.time_ms as u64);
    write_bits(payload, tail + 55 * 8, 8, e.medal_flag as u64);
    write_bits(payload, tail + 59 * 8, 8, e.metadata as u64);
    write_bits(payload, tail + 60 * 8, 32, 0x2ee0);
}

/// A footer chunk with one summary packet of three recorded events.
fn fixture() -> FilmChunkData {
    let events = [
        Recorded {
            identity_bit: 100,
            xuid: 2535472547643888,
            name: "Nuzzles",
            time_ms: 25_344,
            type_code: 50,
            medal_flag: 0,
            metadata: 0,
        },
        Recorded {
            identity_bit: 16_003,
            xuid: 2535443507298499,
            name: "Yet",
            time_ms: 25_344,
            type_code: 20,
            medal_flag: 0,
            metadata: 0,
        },
        Recorded {
            identity_bit: 32_010,
            xuid: 2535472547643888,
            name: "Nuzzles",
            time_ms: 77_279,
            type_code: 150,
            medal_flag: 1,
            metadata: 32,
        },
    ];
    let mut payload = vec![0u8; 6_000];
    payload[..4].copy_from_slice(&3u32.to_be_bytes());
    for e in &events {
        write_event(&mut payload, e);
    }
    let mut data = Vec::new();
    data.extend_from_slice(&9u16.to_le_bytes());
    data.extend_from_slice(&[0, 0]);
    data.extend_from_slice(&(payload.len() as u32).to_le_bytes());
    data.extend_from_slice(&0u64.to_le_bytes());
    data.extend_from_slice(&payload);
    FilmChunkData {
        metadata: FilmChunk {
            index: 5,
            start_time_offset_ms: 0,
            duration_ms: 0,
            size: 0,
            file_relative_path: String::new(),
            chunk_type: 3,
        },
        data,
    }
}

#[test]
fn captured_footer_decodes_without_roster_or_replication() {
    let report = decode_summary_events(&[fixture()], 41).unwrap();
    assert!(report.matches_declared_counts());
    assert_eq!(report.events.len(), 3);
    let events: Vec<_> = report
        .events
        .iter()
        .map(|e| (e.name.as_str(), e.time_us, e.kind))
        .collect();
    assert_eq!(
        events,
        [
            ("Nuzzles", 25_344_000, SummaryKind::Kill),
            ("Yet", 25_344_000, SummaryKind::Death),
            ("Nuzzles", 77_279_000, SummaryKind::Medal),
        ]
    );
    assert_eq!(report.events[0].xuid, "2535472547643888");
    assert_eq!(report.events[1].xuid, "2535443507298499");
    let medal = report.events[2].medal.as_ref().unwrap();
    assert_eq!(medal.film_id, 32);
    assert_eq!(medal.name.as_deref(), Some("Steaktacular"));
    assert_eq!(medal.name_id, Some(1169390319));
    assert_eq!(report.events[2].type_code, Some(150));
    assert!(report.events.iter().all(|e| e.player.is_none()));
    // Unaligned source positions, relative to the payload.
    assert_eq!(report.events[0].source.unwrap().bit, 100 + IDENTITY_TO_TAIL);
    assert_eq!(report.events[0].identity_source.unwrap().bit, 100);
    assert_eq!(report.events[0].source.unwrap().payload_byte, 16);
}

#[test]
fn unrecognized_codes_and_distinct_duplicate_awards_are_preserved() {
    let mut chunk = fixture();
    let source = decode_summary_events(&[chunk.clone()], 41).unwrap().events[2]
        .source
        .unwrap();
    let absolute = source.payload_byte * 8 + source.bit;
    write_bits(&mut chunk.data, absolute + 59 * 8, 8, 255);
    let mut second = chunk.clone();
    second.metadata.index += 1;
    let report = decode_summary_events(&[second, chunk.clone()], 41).unwrap();
    assert!(report.matches_declared_counts());
    assert_eq!(report.events.len(), 6);
    let medals: Vec<_> = report
        .events
        .iter()
        .filter_map(|e| e.medal.as_ref())
        .collect();
    assert_eq!(medals.len(), 2);
    assert!(
        medals
            .iter()
            .all(|m| m.film_id == 255 && m.name.is_none() && m.name_id.is_none())
    );
    write_bits(&mut chunk.data, absolute + 47 * 8, 8, 77);
    write_bits(&mut chunk.data, absolute + 55 * 8, 8, 0);
    let event = decode_summary_events(&[chunk], 41)
        .unwrap()
        .events
        .pop()
        .unwrap();
    assert_eq!(event.kind, SummaryKind::Other(77));
    assert_eq!(event.metadata, 255);
    assert!(event.medal.is_none());
}

#[test]
fn corrupt_tail_is_reported_as_missing_instead_of_cross_assigned() {
    let mut chunk = fixture();
    let source = decode_summary_events(&[chunk.clone()], 41).unwrap().events[0]
        .source
        .unwrap();
    write_bits(
        &mut chunk.data,
        source.payload_byte * 8 + source.end_bit,
        32,
        0,
    );
    let report = decode_summary_events(&[chunk], 41).unwrap();
    assert!(!report.matches_declared_counts());
    assert_eq!(report.packets[0].declared_events, 3);
    assert_eq!(report.events.len(), 2);
    assert_eq!(report.events[0].name, "Yet");
    assert_eq!(report.events[0].kind, SummaryKind::Death);
}

#[test]
fn checks_packet_boundaries_versions_and_duplicate_chunks() {
    assert!(
        !decode_summary_events(&[], 41)
            .unwrap()
            .matches_declared_counts()
    );
    assert!(matches!(
        decode_summary_events(&[], 40),
        Err(DecodeError::UnsupportedVersion(40))
    ));
    assert!(matches!(
        decode_summary_events(&[fixture(), fixture()], 41),
        Err(DecodeError::DuplicateChunk(5))
    ));
    let mut chunk = fixture();
    chunk.data.truncate(chunk.data.len() - 1);
    assert!(matches!(
        decode_summary_events(&[chunk], 41),
        Err(DecodeError::Truncated { .. })
    ));
    let mut chunk = fixture();
    chunk.data[4..8].copy_from_slice(&u32::MAX.to_le_bytes());
    assert!(matches!(
        decode_summary_events(&[chunk], 41),
        Err(DecodeError::Truncated { .. })
    ));
}

#[test]
fn unparsed_packet_types_are_counted_and_empty_end_packets_ignored() {
    let mut data = Vec::new();
    for (kind, size) in [(4u16, 2u32), (7, 0), (4, 0), (8, 1)] {
        data.extend_from_slice(&kind.to_le_bytes());
        data.extend_from_slice(&[0, 0]);
        data.extend_from_slice(&size.to_le_bytes());
        data.extend_from_slice(&0u64.to_le_bytes());
        data.extend(std::iter::repeat(0u8).take(size as usize));
    }
    let chunk = FilmChunkData {
        metadata: FilmChunk {
            index: 1,
            start_time_offset_ms: 0,
            duration_ms: 0,
            size: 0,
            file_relative_path: String::new(),
            chunk_type: 3,
        },
        data,
    };
    let report = decode_summary_events(&[chunk], 41).unwrap();
    assert_eq!(report.unparsed_packet_types.get(&4), Some(&2));
    assert_eq!(report.unparsed_packet_types.get(&8), Some(&1));
    assert_eq!(report.unparsed_packet_types.get(&7), None);
    assert!(report.events.is_empty());
}

#[test]
fn highlight_reports_convert_summary_events() {
    let summary = decode_summary_events(&[fixture()], 41).unwrap();
    let event = FilmEvent::try_from_summary(summary.events[2].clone()).unwrap();
    assert_eq!(event.xuid, 2535472547643888);
    assert_eq!(event.timestamp_ms, 77_279);
    assert_eq!(event.medal().unwrap().name(), "Steaktacular");
    let report = FilmEventReport::try_from_validated(ValidatedSummaryEventReport {
        summary: summary.clone(),
        validation: SummaryEventValidation::default(),
    })
    .unwrap();
    assert_eq!(report.events.len(), 3);
    let mut bad = summary.events[0].clone();
    bad.xuid = "not-a-number".into();
    assert!(matches!(
        FilmEvent::try_from_summary(bad),
        Err(DecodeError::Inconsistent(m)) if m == "invalid summary XUID"
    ));
}

#[test]
fn footer_chunks_are_walked_in_index_order_whatever_their_order() {
    let first = fixture();
    let mut second = fixture();
    second.metadata.index = 2;
    let forward = decode_summary_events(&[first.clone(), second.clone()], 41).unwrap();
    let backward = decode_summary_events(&[second, first], 41).unwrap();
    assert_eq!(forward, backward);
    assert_eq!(forward.packets.len(), 2);
    assert_eq!(forward.packets[0].chunk, 2);
}

fn scoreboard_core(kills: i64, deaths: i64, medals: Vec<StatAward>) -> MatchCoreStats {
    MatchCoreStats {
        score: 0,
        personal_score: 0,
        rounds_won: 0,
        rounds_lost: 0,
        rounds_tied: 0,
        kills,
        deaths,
        assists: 0,
        suicides: 0,
        betrayals: 0,
        average_life_duration: String::new(),
        grenade_kills: 0,
        headshot_kills: 0,
        melee_kills: 0,
        power_weapon_kills: 0,
        shots_fired: 0,
        shots_hit: 0,
        damage_dealt: 0,
        damage_taken: 0,
        callout_assists: 0,
        vehicle_destroys: 0,
        driver_assists: 0,
        hijacks: 0,
        emp_assists: 0,
        max_killing_spree: 0,
        medals,
        personal_scores: vec![],
        spawns: 0,
        objectives_completed: 0,
    }
}

fn scoreboard_player(xuid: u64, kills: i64, deaths: i64, medals: Vec<StatAward>) -> MatchPlayer {
    MatchPlayer {
        player_id: format!("xuid({xuid})"),
        player_type: 1,
        bot_attributes: None,
        last_team_id: 0,
        outcome: MatchOutcome::Win,
        rank: 1,
        team_stats: vec![PlayerTeamStats {
            team_id: 0,
            stats: MatchStatsBlock { core: scoreboard_core(kills, deaths, medals) },
        }],
    }
}

#[test]
fn validates_medal_identity_not_just_equal_totals() {
    let steaktacular = i64::from(film_medal_definition(32).unwrap().name_id.unwrap());
    let stats = MatchStats {
        match_id: "match".into(),
        players: vec![
            scoreboard_player(
                2535472547643888,
                1,
                0,
                vec![StatAward { name_id: steaktacular, count: 1, total_personal_score_awarded: 0 }],
            ),
            scoreboard_player(2535443507298499, 0, 1, vec![]),
        ],
        teams: vec![],
    };
    let mut report = decode_summary_events(&[fixture()], 41).unwrap();
    assert!(validate_summary_events(&report, &stats).matches_stats());
    report.events[2].metadata = 105;
    let validation = validate_summary_events(&report, &stats);
    assert!(validation.players.iter().all(|p| p.decoded == p.match_stats));
    assert!(!validation.matches_stats());
    report.events[2].metadata = 255;
    let validation = validate_summary_events(&report, &stats);
    assert!(!validation.matches_stats());
    assert_eq!(
        validation.players.iter().flat_map(|p| p.unknown_medal_codes.iter()).copied().collect::<Vec<_>>(),
        [255]
    );
}

#[test]
fn per_packet_decoded_counts_add_up_to_the_events() {
    let first = fixture();
    let mut second = fixture();
    second.metadata.index = 9;
    for chunks in [vec![first.clone()], vec![second.clone(), first.clone()]] {
        let report = decode_summary_events(&chunks, 41).unwrap();
        let total: usize = report.packets.iter().map(|p| p.decoded_events).sum();
        assert_eq!(total, report.events.len());
        assert!(total > 0);
    }
    let empty = decode_summary_events(&[], 41).unwrap();
    assert_eq!(empty.packets.len(), 0);
    assert_eq!(empty.events.len(), 0);
}
