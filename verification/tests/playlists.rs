use halo_api::constants::PlaylistId;
use halo_api::endpoints::constants::base_url;
use halo_api::endpoints::HaloEndpoints;
use halo_api::models::CsrRecordRanking;

#[test]
fn arena_guid_matches_known_asset_id() {
    assert_eq!(
        PlaylistId::Arena.as_str(),
        "edfef3ac-9cbe-4fa2-b949-8f29deafd483"
    );
}

#[test]
fn display_matches_as_str() {
    assert_eq!(PlaylistId::Slayer.to_string(), PlaylistId::Slayer.as_str());
}

fn ranking(value: i32) -> CsrRecordRanking {
    CsrRecordRanking {
        value,
        tier: "Platinum".to_string(),
        sub_tier: 2,
    }
}

#[test]
fn csr_negative_one_is_unranked() {
    assert!(ranking(-1).is_unranked());
}

#[test]
fn csr_positive_value_is_ranked() {
    assert!(!ranking(1500).is_unranked());
}

#[test]
fn endpoints_default_to_waypoint_origins() {
    assert_eq!(base_url("skill"), "https://skill.svc.halowaypoint.com");
    let endpoints = HaloEndpoints::default();
    assert_eq!(endpoints.halostats_base_url, "https://halostats.svc.halowaypoint.com");
    assert_eq!(
        endpoints.spartan_token_url,
        "https://settings.svc.halowaypoint.com/spartan-token"
    );
}
