use halo_api::clients::hi::models::{
    FilmChunk, FilmChunkData, MatchCoreStats, MatchOutcome, MatchPlayer, MatchStats,
    MatchStatsBlock, PlayerTeamStats, StatAward,
};
use halo_api::theater::decode::{normalize, PAWN_COMPONENTS};
use halo_api::theater::motion::{COORD_PREFIXES, COORD_SUFFIX, SPAWN_BODY};
use halo_api::theater::summary::{SummaryEventReport, SummaryPacketDiagnostics};
use halo_api::theater::validation::{parse_player_xuid, validate_summary_events};
use halo_api::theater::{DecodeError, DecodeOptions, Film, Sample, SourceSpan, SummaryEvent, SummaryKind};
use std::collections::BTreeMap;

fn chunk(index: i32, kind: i32, data: Vec<u8>) -> FilmChunkData {
    FilmChunkData {
        metadata: FilmChunk {
            index,
            chunk_type: kind,
            start_time_offset_ms: 0,
            duration_ms: 0,
            size: data.len() as i64,
            file_relative_path: String::new(),
        },
        data,
    }
}

fn frame(timestamp: u64, payload: &[u8]) -> Vec<u8> {
    let mut data = vec![0; 4];
    data.extend_from_slice(&(payload.len() as u32).to_le_bytes());
    data.extend_from_slice(&timestamp.to_le_bytes());
    data.extend_from_slice(payload);
    data
}

/// A registry of 36 archetypes whose pawn archetype names the slots 0 to 42.
fn registry(first_name: &str) -> FilmChunkData {
    let mut data = vec![0u8; 36 * 16640];
    for slot in 0..=42usize {
        let name = match PAWN_COMPONENTS.iter().find(|(i, _)| *i == slot) {
            Some((0, _)) => first_name.to_string(),
            Some((_, n)) => n.to_string(),
            None => format!("filler-{slot}"),
        };
        let at = 35 * 16640 + slot * 260 + 8;
        data[at..at + name.len()].copy_from_slice(name.as_bytes());
    }
    chunk(0, 1, data)
}

const POSITION: &str = "object-position-dynamic-precision-component";

#[test]
fn film_decoding_reports_version_framing_and_registry_errors() {
    let replication = chunk(1, 2, [frame(1000, &[0; 4]), frame(3000, &[0; 4])].concat());
    let mut v40 = DecodeOptions::v41();
    v40.major_version = 40;
    assert!(matches!(Film::try_from_chunks(&[], v40), Err(DecodeError::UnsupportedVersion(40))));
    assert!(matches!(
        Film::try_from_chunks(&[], DecodeOptions::v41()),
        Err(DecodeError::Missing("replication packets"))
    ));
    assert!(matches!(
        Film::try_from_chunks(&[replication.clone()], DecodeOptions::v41()),
        Err(DecodeError::Missing("bootstrap registry"))
    ));
    let small = chunk(0, 1, vec![0; 16640]);
    assert!(matches!(
        Film::try_from_chunks(&[small, replication.clone()], DecodeOptions::v41()),
        Err(DecodeError::Missing("pawn component registry"))
    ));
    match Film::try_from_chunks(&[registry("other"), replication.clone()], DecodeOptions::v41()) {
        Err(DecodeError::Inconsistent(m)) => {
            assert_eq!(m, format!("unsupported pawn component 0; expected {POSITION}"))
        },
        other => panic!("{other:?}"),
    }
    let untimed = chunk(1, 2, frame(0, &[0; 4]));
    assert!(matches!(
        Film::try_from_chunks(&[registry(POSITION), untimed], DecodeOptions::v41()),
        Err(DecodeError::Missing("nonzero packet timestamp"))
    ));
}

#[test]
fn film_without_spawns_keeps_framing_and_limits() {
    let replication = chunk(1, 2, [frame(3000, &[0; 4]), frame(1000, &[0; 4])].concat());
    let chunks = [registry(POSITION), replication];
    let film = Film::try_from_chunks(&chunks, DecodeOptions::v41()).unwrap();
    assert_eq!((film.schema_version, film.major_version, film.match_id.clone()), (1, 41, None));
    assert_eq!((film.origin_timestamp_us, film.duration_us), (1000, 2001));
    assert_eq!(film.packets.len(), 2);
    assert!(film.players.is_empty() && film.summary_events.is_empty() && film.clocks.is_empty());
    assert!(film.projectiles.is_empty());
    assert_eq!(film.diagnostics.frames, 2);
    assert_eq!(film.diagnostics.limitations.len(), 6);
    assert_eq!(film.registry.archetypes.len(), 36);
    let mut options = DecodeOptions::v41();
    options.retain_coverage = false;
    options.duration_us = Some(99);
    options.match_id = Some("m".into());
    let compact = Film::try_from_chunks(&chunks, options).unwrap();
    assert!(compact.packets.is_empty());
    assert_eq!((compact.duration_us, compact.match_id), (99, Some("m".into())));
}

fn at(time_us: u64, life: u16, value: u8, bit: usize) -> Sample<u8> {
    Sample { time_us, life, value, source: SourceSpan { chunk: 0, payload_byte: 0, bit, end_bit: bit } }
}

#[test]
fn normalize_orders_by_time_and_life_and_keeps_first_repeats() {
    let rows = vec![at(5, 1, 9, 0), at(2, 3, 1, 1), at(2, 1, 1, 2), at(5, 1, 9, 3), at(5, 1, 8, 4)];
    let (kept, removed) = normalize(rows);
    assert_eq!(removed, 1);
    let keys: Vec<_> = kept.iter().map(|s| (s.time_us, s.life, s.value, s.source.bit)).collect();
    assert_eq!(keys, vec![(2, 1, 1, 2), (2, 3, 1, 1), (5, 1, 9, 0), (5, 1, 8, 4)]);
}

fn event(xuid: &str, kind: SummaryKind, metadata: u8) -> SummaryEvent {
    SummaryEvent {
        xuid: xuid.into(),
        player: None,
        name: format!("Player {xuid}"),
        time_us: 0,
        kind,
        metadata,
        medal_flag: u8::from(kind == SummaryKind::Medal),
        type_code: None,
        medal: None,
        source: None,
        identity_source: None,
    }
}

fn core_stats(kills: i64, deaths: i64, medals: Vec<StatAward>) -> MatchCoreStats {
    MatchCoreStats {
        score: 0,
        personal_score: 0,
        rounds_won: 0,
        rounds_lost: 0,
        rounds_tied: 0,
        kills,
        deaths,
        assists: 0,
        suicides: 0,
        betrayals: 0,
        average_life_duration: String::new(),
        grenade_kills: 0,
        headshot_kills: 0,
        melee_kills: 0,
        power_weapon_kills: 0,
        shots_fired: 0,
        shots_hit: 0,
        damage_dealt: 0,
        damage_taken: 0,
        callout_assists: 0,
        vehicle_destroys: 0,
        driver_assists: 0,
        hijacks: 0,
        emp_assists: 0,
        max_killing_spree: 0,
        medals,
        personal_scores: vec![],
        spawns: 0,
        objectives_completed: 0,
    }
}

fn player(id: &str, player_type: i32, kills: i64, medals: Vec<StatAward>) -> MatchPlayer {
    MatchPlayer {
        player_id: id.into(),
        player_type,
        bot_attributes: None,
        last_team_id: 0,
        outcome: MatchOutcome::Win,
        rank: 1,
        team_stats: vec![PlayerTeamStats { team_id: 0, stats: MatchStatsBlock { core: core_stats(kills, 0, medals) } }],
    }
}

#[test]
fn validation_compares_counts_and_medal_identities_per_player() {
    let report = SummaryEventReport {
        events: vec![
            event("2", SummaryKind::Kill, 0),
            event("2", SummaryKind::Medal, 0),
            event("2", SummaryKind::Medal, 250),
            event("10", SummaryKind::Death, 0),
        ],
        packets: vec![SummaryPacketDiagnostics { chunk: 0, payload_byte: 0, declared_events: 4, decoded_events: 4 }],
        unparsed_packet_types: BTreeMap::new(),
    };
    let double_kill = StatAward { name_id: 622331684, count: 1, total_personal_score_awarded: 0 };
    let stats = MatchStats {
        match_id: "m".into(),
        players: vec![
            player("xuid(2)", 1, 1, vec![double_kill]),
            player("xuid(10)", 1, -3, vec![]),
            player("bid(7)", 2, 9, vec![]),
        ],
        teams: vec![],
    };
    let v = validate_summary_events(&report, &stats);
    assert!(v.declared_counts_match);
    let xuids: Vec<_> = v.players.iter().map(|p| p.xuid.as_str()).collect();
    assert_eq!(xuids, ["10", "2"]);
    let two = &v.players[1];
    assert_eq!(two.name.as_deref(), Some("Player 2"));
    assert_eq!((two.decoded.kills, two.decoded.medals, two.match_stats.kills, two.match_stats.medals), (1, 2, 1, 1));
    assert_eq!(two.medals.len(), 1);
    assert_eq!((two.medals[0].name_id, two.medals[0].decoded, two.medals[0].match_stats), (622331684, 1, 1));
    assert_eq!(two.unknown_medal_codes, vec![250]);
    assert!(!two.matches_stats());
    let ten = &v.players[0];
    assert_eq!((ten.decoded.deaths, ten.match_stats.kills), (1, 0));
    assert!(!v.matches_stats());
}

#[test]
fn player_ids_carry_decimal_xuids() {
    assert_eq!(parse_player_xuid("xuid(2533274790395904)"), Some(2533274790395904));
    assert_eq!(parse_player_xuid("xuid()"), None);
    assert_eq!(parse_player_xuid("bid(3)"), None);
    assert_eq!(parse_player_xuid("xuid(12"), None);
}

#[test]
fn legacy_names_list_every_known_code_in_order() {
    let names = halo_api::theater::medals::legacy_names();
    assert_eq!(names.len(), 155);
    assert_eq!(names[0], (0, "Double Kill"));
    assert!(names.windows(2).all(|w| w[0].0 < w[1].0));
}

fn put_bits(data: &mut Vec<u8>, pos: usize, value: u64, width: usize) {
    let need = (pos + width).div_ceil(8);
    if data.len() < need {
        data.resize(need, 0);
    }
    for i in 0..width {
        if (value >> (width - 1 - i)) & 1 == 1 {
            data[(pos + i) / 8] |= 0x80 >> ((pos + i) % 8);
        }
    }
}

#[test]
fn film_spawns_start_lives_of_their_roster_index() {
    let mut payload = Vec::new();
    put_bits(&mut payload, 2, 0x22, 8);
    put_bits(&mut payload, 10, 0x07, 8);
    put_bits(&mut payload, 18, 0b01, 2);
    put_bits(&mut payload, 20, SPAWN_BODY, 49);
    put_bits(&mut payload, 69, 4, 5);
    put_bits(&mut payload, 192, COORD_PREFIXES[0], 63);
    put_bits(&mut payload, 263, 11, 15);
    put_bits(&mut payload, 278, 22, 15);
    put_bits(&mut payload, 293, 33, 17);
    put_bits(&mut payload, 310, COORD_SUFFIX, 30);
    let replication = chunk(1, 2, [frame(1000, &payload), frame(3000, &[0; 4])].concat());
    let film = Film::try_from_chunks(&[registry(POSITION), replication], DecodeOptions::v41()).unwrap();
    assert_eq!(film.players.len(), 1);
    let player = &film.players[0];
    assert_eq!((player.id, player.name.as_str(), player.xuid.clone()), (4, "Player 4", None));
    assert_eq!(player.lives.len(), 1);
    let life = &player.lives[0];
    assert_eq!((life.id, life.wire, life.generation, life.player), (7, 7, 1, 4));
    assert_eq!((life.start_us, life.end_us, life.death_us, life.round_reset), (0, 2001, None, false));
    assert_eq!(life.position, [11, 22, 33]);
    assert_eq!((life.source.chunk, life.source.bit, life.source.end_bit), (1, 0, 340));
    assert_eq!(player.positions.len(), 1);
    assert!(player.positions[0].value.spawn);
    assert!(film.diagnostics.checked_regions.iter().any(|r| r.kind == "spawn"));
    assert_eq!(film.diagnostics.limitations.len(), 5);
}

fn spawn_payload(serial: u64, player: u64, x: u64) -> Vec<u8> {
    let mut payload = Vec::new();
    put_bits(&mut payload, 2, 0x22, 8);
    put_bits(&mut payload, 10, serial, 8);
    put_bits(&mut payload, 18, 0b01, 2);
    put_bits(&mut payload, 20, SPAWN_BODY, 49);
    put_bits(&mut payload, 69, player, 5);
    put_bits(&mut payload, 192, COORD_PREFIXES[0], 63);
    put_bits(&mut payload, 263, x, 15);
    put_bits(&mut payload, 278, 22, 15);
    put_bits(&mut payload, 293, 33, 17);
    put_bits(&mut payload, 310, COORD_SUFFIX, 30);
    payload
}

#[test]
fn film_reports_a_reused_life_identity() {
    let replication = chunk(1, 2, [frame(1000, &spawn_payload(7, 4, 11)), frame(3000, &spawn_payload(7, 4, 12))].concat());
    match Film::try_from_chunks(&[registry(POSITION), replication], DecodeOptions::v41()) {
        Err(DecodeError::Inconsistent(m)) => assert_eq!(m, "reused life identity 7"),
        other => panic!("{other:?}"),
    }
}

#[test]
fn film_tracks_each_spawned_roster_index_with_its_lives() {
    let replication = chunk(
        1,
        2,
        [frame(1000, &spawn_payload(7, 4, 11)), frame(2000, &spawn_payload(9, 2, 12)), frame(3000, &[0; 4])].concat(),
    );
    let film = Film::try_from_chunks(&[registry(POSITION), replication], DecodeOptions::v41()).unwrap();
    let heads: Vec<_> = film.players.iter().map(|p| (p.id, p.name.clone(), p.xuid.clone(), p.lives.len())).collect();
    assert_eq!(heads, vec![(2, "Player 2".to_string(), None, 1), (4, "Player 4".to_string(), None, 1)]);
    assert_eq!(film.players[0].lives[0].id, 9);
    assert_eq!(film.players[1].lives[0].id, 7);
    assert_eq!((film.players[1].lives[0].start_us, film.players[1].lives[0].end_us), (0, 2001));
}

#[test]
fn film_decoding_ignores_chunk_order() {
    let replication = chunk(
        1,
        2,
        [frame(1000, &spawn_payload(7, 4, 11)), frame(2000, &spawn_payload(9, 2, 12)), frame(3000, &[0; 4])].concat(),
    );
    let stray_bootstrap = chunk(5, 1, vec![0; 16640]);
    let forward = [registry(POSITION), stray_bootstrap.clone(), replication.clone()];
    let backward = [replication, stray_bootstrap, registry(POSITION)];
    let a = Film::try_from_chunks(&forward, DecodeOptions::v41()).unwrap();
    let mut options = DecodeOptions::v41();
    options.retain_coverage = false;
    let b = Film::try_from_chunks(&backward, options).unwrap();
    let heads = |f: &Film| f.players.iter().map(|p| (p.id, p.name.clone(), p.lives.len())).collect::<Vec<_>>();
    assert_eq!(heads(&a), heads(&b));
    assert_eq!(a.registry.archetypes.len(), b.registry.archetypes.len());
    assert_eq!(a.players[0].lives[0].id, b.players[0].lives[0].id);
    assert!(b.packets.is_empty() && !a.packets.is_empty());
}
