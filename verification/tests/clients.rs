use halo_api::clients::hi::client::{
    decompress_film_chunk, film_chunk_data, film_chunk_location, origin_of, response_step, ResponseStep,
};
use halo_api::clients::hi::models::{
    ApiDate, CsrSeason, CsrSeasonCalendar, FilmChunk, FilmCustomData, FilmManifest, UtcInstant,
};
use halo_api::clients::hi::pager::{PageCursor, MAX_PAGE_SIZE};
use halo_api::clients::hi::rate_limit::{backoff_until, reserve, try_reserve};
use std::io::Write;

fn film_chunk(path: &str) -> FilmChunk {
    FilmChunk {
        index: 3,
        start_time_offset_ms: 10,
        duration_ms: 20,
        size: 30,
        file_relative_path: path.into(),
        chunk_type: 2,
    }
}

#[test]
fn origins_key_request_pacing() {
    assert_eq!(origin_of("https://example.com:8443/a/b?c=1"), "https://example.com:8443");
    assert_eq!(origin_of("https://settings.svc.halowaypoint.com"), "https://settings.svc.halowaypoint.com");
    assert_eq!(origin_of("no-scheme/path"), "no-scheme/path");
}

#[test]
fn film_chunk_locations_join_with_one_slash() {
    let film = FilmManifest {
        status: 1,
        custom_data: FilmCustomData {
            film_length: 0,
            chunks: vec![],
            has_game_ended: true,
            manifest_refresh_seconds: 0,
            match_id: "m".into(),
            film_major_version: 41,
        },
        blob_storage_path_prefix: "https://blob.example/films//".into(),
        asset_id: "a".into(),
    };
    let (base, path) = film_chunk_location(&film, &film_chunk("//chunk0"));
    assert_eq!((base.as_str(), path.as_str()), ("https://blob.example/films", "/chunk0"));
}

#[test]
fn film_chunks_decompress_or_report_the_error() {
    let mut encoder = flate2::write::ZlibEncoder::new(Vec::new(), flate2::Compression::default());
    encoder.write_all(b"theater film bytes").unwrap();
    let compressed = encoder.finish().unwrap();
    let data = decompress_film_chunk(&film_chunk("c"), &compressed).unwrap();
    assert_eq!(data.data, b"theater film bytes");
    assert_eq!((data.metadata.index, data.metadata.chunk_type, data.metadata.file_relative_path.as_str()), (3, 2, "c"));
    assert!(decompress_film_chunk(&film_chunk("c"), b"not zlib").is_err());
    let failed = film_chunk_data(&film_chunk("c"), Err("broken".into())).unwrap_err();
    assert_eq!(failed.message, "broken");
}

#[test]
fn match_history_pages_until_a_short_page() {
    let mut cursor = PageCursor::new();
    assert_eq!(cursor.next_request(), Some((0, MAX_PAGE_SIZE)));
    cursor.record_page(25);
    assert_eq!(cursor.next_request(), Some((25, 25)));
    cursor.record_page(3);
    assert!(cursor.is_done());
    assert_eq!(cursor.next_request(), None);
    assert_eq!(cursor.start, 28);
}

#[test]
fn reservations_are_spaced_per_origin() {
    assert_eq!(reserve(None, 100, Some(10)), (100, 110));
    assert_eq!(reserve(Some(150), 100, Some(10)), (150, 160));
    assert_eq!(reserve(Some(50), 100, None), (100, 100));
    assert_eq!(backoff_until(Some(500), 100, 50), 500);
    assert_eq!(backoff_until(None, 100, 50), 150);
}

fn season(path: &str, start: i64, end: i64) -> CsrSeason {
    CsrSeason {
        csr_season_file_path: path.into(),
        start_date: ApiDate { iso8601_date: UtcInstant { seconds: start, nanos: 0 } },
        end_date: ApiDate { iso8601_date: UtcInstant { seconds: end, nanos: 0 } },
    }
}

#[test]
fn current_csr_season_requires_time_inside_date_range() {
    let calendar = CsrSeasonCalendar {
        seasons: vec![
            season("past.json", 1767225600, 1769904000),
            season("overlapping-older.json", 1771545600, 1775001600),
            season("current.json", 1772323200, 1775001600),
        ],
    };
    let during = UtcInstant { seconds: 1773532800, nanos: 0 };
    let gap = UtcInstant { seconds: 1771113600, nanos: 0 };
    let at_end = UtcInstant { seconds: 1775001600, nanos: 0 };
    assert_eq!(calendar.current(during).unwrap().csr_season_file_path, "current.json");
    assert!(calendar.current(gap).is_none());
    assert!(calendar.current(at_end).is_none());
}

#[test]
fn default_endpoints_point_at_the_services() {
    let e = halo_api::clients::hi::endpoints::HaloEndpoints::default();
    assert_eq!(e.skill_base_url, "https://skill.svc.halowaypoint.com");
    assert_eq!(e.halostats_base_url, "https://halostats.svc.halowaypoint.com");
    assert_eq!(e.current_user_url, "https://comms.svc.halowaypoint.com/users/me");
    assert_eq!(e.game_cms_base_url, "https://gamecms-hacs.svc.halowaypoint.com");
    assert_eq!(e.ugc_base_url, "https://discovery-infiniteugc.svc.halowaypoint.com");
    assert_eq!(e.settings_base_url, "https://settings.svc.halowaypoint.com");
    assert_eq!(e.economy_base_url, "https://economy.svc.halowaypoint.com");
}

#[test]
fn a_refused_request_is_renewed_and_sent_once_more() {
    assert_eq!(response_step(401, false), ResponseStep::RenewAndRetry);
    assert_eq!(response_step(401, true), ResponseStep::Done);
    assert_eq!(response_step(200, false), ResponseStep::Done);
    assert_eq!(response_step(429, false), ResponseStep::Done);
}

#[test]
fn a_walk_of_pages_requests_contiguous_ranges_until_a_short_page() {
    let mut cursor = PageCursor::new();
    let mut requests = Vec::new();
    for len in [25u32, 25, 7, 25, 25] {
        match cursor.next_request() {
            Some(request) => {
                requests.push(request);
                cursor.record_page(len);
            }
            None => break,
        }
    }
    assert_eq!(requests, vec![(0, MAX_PAGE_SIZE), (25, MAX_PAGE_SIZE), (50, MAX_PAGE_SIZE)]);
    assert!(cursor.is_done());
    assert_eq!(cursor.start, 57);
    assert_eq!(cursor.next_request(), None);
    let mut empty = PageCursor::new();
    empty.record_page(0);
    assert!(empty.is_done());
    assert_eq!(empty.next_request(), None);
}

#[test]
fn a_run_of_reservations_is_spaced_and_respects_a_cooldown() {
    let mut next = None;
    let mut slots = Vec::new();
    for now in [1_000u64, 1_000, 1_001, 1_050] {
        let (slot, after) = reserve(next, now, Some(10));
        slots.push(slot);
        next = Some(after);
    }
    assert_eq!(slots, vec![1_000, 1_010, 1_020, 1_050]);
    let blocked = backoff_until(None, 2_000, 45);
    let mut next = Some(blocked);
    for now in [2_000u64, 2_010, 2_100] {
        let (slot, after) = reserve(next, now, None);
        assert!(slot >= 2_045);
        next = Some(after);
    }
    assert_eq!(reserve(None, 7, Some(10)).0, 7);
}

#[test]
fn try_reserve_refuses_only_an_overflowing_reservation() {
    assert_eq!(try_reserve(None, 100, Some(10)), Some((100, 110)));
    assert_eq!(try_reserve(Some(150), 100, Some(10)), Some((150, 160)));
    assert_eq!(try_reserve(Some(u64::MAX - 5), 0, Some(10)), None);
    assert_eq!(try_reserve(Some(u64::MAX), 0, None), Some((u64::MAX, u64::MAX)));
}
