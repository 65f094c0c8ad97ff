use halo_api::clients::hi::models::{
    AssetFiles, AssetLink, CsrRecordRanking, CustomizationConfiguration,
    CustomizationDisplayPath, CustomizationEmblem, CustomizationItemCommonData,
    CustomizationItemMetadata, CustomizationMedia, CustomizationMediaUrl, EmblemConfiguration,
    EmblemImageAssets, EmblemMapping, FilmChunk, FilmCustomData, FilmManifest, GameModeId,
    LocalizedText, MapAsset, MapCustomData, MapId, MatchHistoryType, MatchOutcome, MatchType,
    MatchesPrivacy, Medal, MedalMetadata, MedalText, PlaylistId, PrivacySetting, RewardTrackRank,
    ServiceRecordFilter, UgcAssetKind,
};
use std::collections::BTreeMap;

#[test]
fn asset_ids_support_named_and_custom_values() {
    assert_eq!(PlaylistId::RANKED_ARENA().as_str().len(), 36);
    assert_eq!(PlaylistId::new("custom").as_str(), "custom");
    assert_eq!(GameModeId::RANKED_SLAYER().asset_id().len(), 36);
    assert_eq!(GameModeId::new("asset", "version").version_id(), "version");
    assert_eq!(MapId::LIVE_FIRE().asset_id().len(), 36);
    assert_eq!(MapId::new("asset", "version").version_id(), "version");
}

fn ranking(value: i32) -> CsrRecordRanking {
    CsrRecordRanking {
        value,
        tier: "Platinum".to_string(),
        sub_tier: 2,
        ..CsrRecordRanking::default()
    }
}

#[test]
fn models_negative_one_is_unranked() {
    assert!(ranking(-1).is_unranked());
}

#[test]
fn models_positive_value_is_ranked() {
    assert!(!ranking(1500).is_unranked());
}

#[test]
fn unranked_uses_unranked_icon() {
    assert_eq!(
        ranking(-1).rank_icon_url(),
        "https://trackercdn.com/cdn/tracker.gg/halo-infinite/skills/c/unranked.png"
    );
}

#[test]
fn named_tier_icon_uses_lowercase_tier_and_one_indexed_subtier() {
    // `ranking()` fixes tier="Platinum", sub_tier=2 (0-indexed) -> "platinum-3.png".
    assert_eq!(
        ranking(1234).rank_icon_url(),
        "https://trackercdn.com/cdn/tracker.gg/halo-infinite/skills/c/platinum-3.png"
    );
}

#[test]
fn onyx_icon_has_no_subtier_suffix() {
    let onyx = CsrRecordRanking {
        value: 1650,
        tier: "Onyx".to_string(),
        sub_tier: 0,
        ..CsrRecordRanking::default()
    };
    assert_eq!(
        onyx.rank_icon_url(),
        "https://trackercdn.com/cdn/tracker.gg/halo-infinite/skills/c/onyx.png"
    );
}

#[test]
fn service_record_filter_renders_supported_query_shape() {
    assert!(ServiceRecordFilter::default().is_empty());
    assert!(ServiceRecordFilter::default().to_query().is_empty());

    let filter = ServiceRecordFilter::for_season("Csr/Seasons/CsrSeason5-1.json")
        .game_variant_category(6)
        .playlist_asset_id("playlist-1")
        .ranked(false)
        .gameplay_interaction("PvP");
    assert!(!filter.is_empty());
    assert_eq!(
        filter.to_query(),
        vec![
            ("seasonid", "Csr/Seasons/CsrSeason5-1.json".to_string()),
            ("gamevariantcategory", "6".to_string()),
            ("playlistassetid", "playlist-1".to_string()),
            ("isranked", "False".to_string()),
            ("gameplayinteraction", "PvP".to_string()),
        ]
    );
}

#[test]
fn filter_builders_replace_single_fields() {
    let f = ServiceRecordFilter::empty().season("a").season("b").ranked(true);
    assert_eq!(f.season_id.as_deref(), Some("b"));
    assert_eq!(
        f.to_query(),
        vec![("seasonid", "b".to_string()), ("isranked", "True".to_string())]
    );
    let negative = ServiceRecordFilter::empty().game_variant_category(-3);
    assert_eq!(negative.to_query(), vec![("gamevariantcategory", "-3".to_string())]);
}

fn map_asset(paths: &[&str]) -> MapAsset {
    MapAsset {
        asset: AssetLink {
            asset_id: "asset".into(),
            version_id: "version".into(),
            public_name: "Live Fire".into(),
            description: String::new(),
            files: Some(AssetFiles {
                prefix: "https://cdn.example/map/".into(),
                relative_paths: paths.iter().map(|p| p.to_string()).collect(),
            }),
        },
        custom_data: MapCustomData {
            object_count: 0,
            tag_level_id: 0,
            is_baked: true,
            has_node_graph: false,
        },
    }
}

#[test]
fn map_exposes_ugc_image_urls() {
    let map = map_asset(&["map.mvar", "images/hero.png", "images/screenshot.jpg"]);
    assert_eq!(
        map.image_urls(),
        [
            "https://cdn.example/map/images/hero.png",
            "https://cdn.example/map/images/screenshot.jpg"
        ]
    );
    assert_eq!(
        map.hero_url().as_deref(),
        Some("https://cdn.example/map/images/hero.png")
    );
    assert!(map.thumbnail_url().is_none());
    assert_eq!(
        map.screenshot_urls(),
        ["https://cdn.example/map/images/screenshot.jpg"]
    );
}

#[test]
fn named_image_url_finds_jpg_and_jpeg_thumbnails_and_heroes() {
    let map = map_asset(&["images/hero.jpeg", "images/thumbnail.jpg"]);
    assert_eq!(
        map.hero_url().as_deref(),
        Some("https://cdn.example/map/images/hero.jpeg")
    );
    assert_eq!(
        map.thumbnail_url().as_deref(),
        Some("https://cdn.example/map/images/thumbnail.jpg")
    );
}

#[test]
fn asset_urls_join_with_exactly_one_slash_and_match_case_insensitively() {
    let files = AssetFiles {
        prefix: "https://cdn.example/x//".into(),
        relative_paths: vec!["//images/HERO.PNG".into(), "images/Screenshot2.JPEG".into()],
    };
    assert_eq!(files.url("/a.png"), "https://cdn.example/x/a.png");
    assert_eq!(
        files.named_image_url("hero").as_deref(),
        Some("https://cdn.example/x/images/HERO.PNG")
    );
    assert_eq!(
        files.screenshot_urls(),
        ["https://cdn.example/x/images/Screenshot2.JPEG"]
    );
    assert_eq!(files.image_urls().len(), 2);
}

#[test]
fn outcomes_and_privacy_codes() {
    assert_eq!(MatchOutcome::from_code(2), MatchOutcome::Win);
    assert_eq!(MatchOutcome::from_code(9), MatchOutcome::Unknown(9));
    for code in [-1, 0, 1, 2, 3, 4, 5, 77] {
        assert_eq!(MatchOutcome::from_code(code).code(), code);
    }
    assert_eq!(MatchOutcome::Win.as_str(), "Victory");
    assert_eq!(MatchOutcome::DidNotFinish.as_str(), "Did not finish");
    let privacy = MatchesPrivacy { matchmade_games: 1, other_games: 2 };
    assert_eq!(privacy.matchmade_setting(), PrivacySetting::Show);
    assert_eq!(privacy.other_setting(), PrivacySetting::Hide);
    assert_eq!(PrivacySetting::from_code(7), PrivacySetting::Unknown(7));
}

#[test]
fn enum_labels() {
    assert_eq!(UgcAssetKind::GameMode.as_str(), "UgcGameVariant");
    assert_eq!(UgcAssetKind::MapAsset.as_str(), "Map");
    assert_eq!(UgcAssetKind::MapModePair.path_segment(), "mapModePairs");
    assert_eq!(MatchType::default().as_str(), "Matchmade");
    assert_eq!(MatchHistoryType::Matchmaking.as_str(), "matchmaking");
}

#[test]
fn film_manifest_chunk_url_joins_prefix_and_path() {
    let manifest = FilmManifest {
        status: 0,
        custom_data: FilmCustomData {
            film_length: 0,
            chunks: Vec::new(),
            has_game_ended: true,
            manifest_refresh_seconds: 0,
            match_id: String::new(),
            film_major_version: 41,
        },
        blob_storage_path_prefix: "https://blob.example/films/".into(),
        asset_id: String::new(),
    };
    let chunk = FilmChunk {
        index: 0,
        start_time_offset_ms: 0,
        duration_ms: 0,
        size: 0,
        file_relative_path: "/filmChunk0".into(),
        chunk_type: 1,
    };
    assert_eq!(manifest.chunk_url(&chunk), "https://blob.example/films/filmChunk0");
}

fn assets(path: &str) -> EmblemImageAssets {
    EmblemImageAssets {
        emblem_cms_path: path.into(),
        nameplate_cms_path: path.replace("emblems", "nameplates"),
        text_color: "#000000".into(),
    }
}

fn metadata(ids: &[i64], path: Option<&str>) -> CustomizationItemMetadata {
    CustomizationItemMetadata {
        common_data: CustomizationItemCommonData {
            title: LocalizedText {
                status: "Ready".into(),
                value: "Title".into(),
                translations: BTreeMap::new(),
            },
            display_path: path.map(|p| CustomizationDisplayPath {
                media: CustomizationMedia {
                    media_url: CustomizationMediaUrl { path: p.into() },
                },
            }),
        },
        available_configurations: ids
            .iter()
            .map(|id| CustomizationConfiguration { configuration_id: *id })
            .collect(),
    }
}

#[test]
fn emblem_mapping_resolves_and_falls_back() {
    let mapping = EmblemMapping {
        emblems: vec![(
            "104-001-reach-wrath-e-37d15c60".to_string(),
            vec![
                (-1_490_538_315, assets("images/emblems/wrath.png")),
                (651_339_664, assets("images/emblems/whm.png")),
            ],
        )],
    };
    let emblem = mapping
        .get("104-001-reach-wrath-e-37d15c60", -1_490_538_315)
        .unwrap();
    assert_eq!(
        emblem.emblem_url(),
        "https://gamecms-hacs.svc.halowaypoint.com/hi/Waypoint/file/images/emblems/wrath.png"
    );
    assert_eq!(
        emblem.nameplate_url(),
        "https://gamecms-hacs.svc.halowaypoint.com/hi/Waypoint/file/images/nameplates/wrath.png"
    );
    let equipped = EmblemConfiguration {
        emblem_path: "Inventory/Spartan/Emblems/104-001-reach-wrath-e-37d15c60.json".into(),
        configuration_id: 42,
    };
    assert!(mapping.resolve(&equipped).is_none());
    let m = metadata(&[-5, 651_339_664], None);
    assert_eq!(m.first_positive_configuration_id(), Some(651_339_664));
    assert_eq!(
        mapping.resolve_with_fallback(&equipped, &m).unwrap().emblem_cms_path,
        "images/emblems/whm.png"
    );
    let no_positive = metadata(&[-5], None);
    assert_eq!(no_positive.first_positive_configuration_id(), None);
    assert_eq!(
        mapping.resolve_with_fallback(&equipped, &no_positive).unwrap().emblem_cms_path,
        "images/emblems/wrath.png"
    );
    let empty = EmblemMapping::default();
    assert!(empty.resolve_with_fallback(&equipped, &m).is_none());
    let applied = CustomizationEmblem {
        path: "Inventory/Armor/Emblems/013-001-0fe4e1a4.json".into(),
        location_id: -142056143,
        configuration_id: 802727239,
    };
    assert_eq!(applied.emblem_id().as_deref(), Some("013-001-0fe4e1a4"));
    assert!(mapping.resolve_customization_emblem(&applied).is_none());
}

#[test]
fn metadata_image_path_and_id() {
    let m = metadata(&[], Some("Progression/Inventory/Armor/Helmets/example.png"));
    assert_eq!(
        m.image_cms_path().as_deref(),
        Some("Progression/Inventory/Armor/Helmets/example.png")
    );
    assert_eq!(m.image_id().as_deref(), Some("example"));
    assert_eq!(metadata(&[], Some("")).image_cms_path(), None);
    assert_eq!(metadata(&[], Some("dir/noext")).image_id(), None);
    let mapping = EmblemMapping {
        emblems: vec![("example".to_string(), vec![(3, assets("images/emblems/e.png"))])],
    };
    assert!(mapping.resolve_metadata(&m, 3).is_some());
}

#[test]
fn medal_metadata_resolves_indices() {
    let medal = Medal {
        name_id: 622331684,
        name: MedalText { value: "Double Kill".into(), ..MedalText::default() },
        description: MedalText::default(),
        sprite_index: 64,
        sorting_weight: 100,
        difficulty_index: 1,
        type_index: 2,
        personal_score: 50,
    };
    let metadata = MedalMetadata {
        difficulties: vec!["normal".into(), "heroic".into(), "legendary".into(), "mythic".into()],
        types: vec!["spree".into(), "mode".into(), "multikill".into()],
        medals: vec![medal],
        ..MedalMetadata::default()
    };
    let medal = metadata.medal(622331684).unwrap();
    assert_eq!(medal.name.value, "Double Kill");
    assert_eq!(metadata.difficulty_of(medal), Some("heroic"));
    assert_eq!(metadata.type_of(medal), Some("multikill"));
    assert!(metadata.medal(1).is_none());
}

#[test]
fn rank_display_titles() {
    let text = |v: &str| LocalizedText {
        status: "Ready".into(),
        value: v.into(),
        translations: BTreeMap::new(),
    };
    let mut rank = RewardTrackRank {
        rank_title: Some(text("Cadet")),
        rank_sub_title: Some(text("1")),
        ..RewardTrackRank::default()
    };
    assert_eq!(rank.display_title().as_deref(), Some("Cadet 1"));
    rank.rank_sub_title = Some(text(""));
    assert_eq!(rank.display_title().as_deref(), Some("Cadet"));
    rank.rank_title = None;
    assert_eq!(rank.display_title(), None);
}

#[test]
fn falls_back_to_a_positive_configuration_when_equipped_one_is_unmapped() {
    let configuration = EmblemConfiguration {
        emblem_path: "Inventory/Spartan/Emblems/3806589-SpartanEmblem.json".to_string(),
        configuration_id: -1_766_636_888,
    };
    let metadata = metadata(&[-1_766_636_888, 651_339_664], None);
    assert_eq!(metadata.first_positive_configuration_id(), Some(651_339_664));
    let mapping = EmblemMapping {
        emblems: vec![(
            "3806589-SpartanEmblem".to_string(),
            vec![(
                651_339_664,
                EmblemImageAssets {
                    emblem_cms_path: "images/emblems/whm.png".into(),
                    nameplate_cms_path: "images/nameplates/whm.png".into(),
                    text_color: "#FFFFFF".into(),
                },
            )],
        )],
    };
    assert!(mapping.resolve(&configuration).is_none());
    assert_eq!(
        mapping.resolve_with_fallback(&configuration, &metadata).unwrap().emblem_cms_path,
        "images/emblems/whm.png"
    );
}

#[test]
fn fallback_returns_none_when_emblem_has_no_positive_configuration() {
    let configuration = EmblemConfiguration {
        emblem_path: "Inventory/Spartan/Emblems/3806589-SpartanEmblem.json".to_string(),
        configuration_id: -1_766_636_888,
    };
    let metadata = metadata(&[-1_766_636_888], None);
    let mapping = EmblemMapping { emblems: Default::default() };
    assert!(mapping.resolve_with_fallback(&configuration, &metadata).is_none());
}

#[test]
fn falls_back_to_a_different_mapped_color_variant_of_the_same_emblem() {
    let configuration = EmblemConfiguration {
        emblem_path: "Inventory/Spartan/Emblems/104-001-samurai-thega-d83dae85.json".to_string(),
        configuration_id: 999_999_999,
    };
    let metadata = metadata(&[999_999_999, 1_198_260_756], None);
    let mapping = EmblemMapping {
        emblems: vec![(
            "104-001-samurai-thega-d83dae85".to_string(),
            vec![(
                -42,
                EmblemImageAssets {
                    emblem_cms_path: "images/emblems/samurai-negative.png".into(),
                    nameplate_cms_path: "images/nameplates/samurai-negative.png".into(),
                    text_color: "#000000".into(),
                },
            )],
        )],
    };
    assert!(mapping.resolve(&configuration).is_none());
    assert_eq!(
        mapping.resolve_with_fallback(&configuration, &metadata).unwrap().emblem_cms_path,
        "images/emblems/samurai-negative.png"
    );
}

#[test]
fn first_positive_configuration_id_returns_none_without_one() {
    let metadata = metadata(&[-1_766_636_888], None);
    assert_eq!(metadata.first_positive_configuration_id(), None);
}

#[test]
fn game_mode_exposes_ugc_image_urls() {
    let mode = halo_api::clients::hi::models::GameVariantAsset {
        asset: AssetLink {
            asset_id: "asset".into(),
            version_id: "version".into(),
            public_name: "Ranked:Slayer".into(),
            description: String::new(),
            files: Some(AssetFiles {
                prefix: "https://cdn.example/mode/".into(),
                relative_paths: vec![
                    "images/hero.png".into(),
                    "images/thumbnail.png".into(),
                    "images/screenshot1.Png".into(),
                ],
            }),
        },
    };
    assert_eq!(mode.hero_url().as_deref(), Some("https://cdn.example/mode/images/hero.png"));
    assert_eq!(mode.thumbnail_url().as_deref(), Some("https://cdn.example/mode/images/thumbnail.png"));
    assert_eq!(mode.screenshot_urls(), ["https://cdn.example/mode/images/screenshot1.Png"]);
}

#[test]
fn fallback_prefers_the_smallest_mapped_configuration() {
    let configuration = EmblemConfiguration {
        emblem_path: "Inventory/Spartan/Emblems/104-001-samurai-thega-d83dae85.json".to_string(),
        configuration_id: 999_999_999,
    };
    let metadata = metadata(&[999_999_999], None);
    let mapping = EmblemMapping {
        emblems: vec![(
            "104-001-samurai-thega-d83dae85".to_string(),
            vec![
                (5, assets("images/emblems/samurai-five.png")),
                (-42, assets("images/emblems/samurai-negative.png")),
                (17, assets("images/emblems/samurai-seventeen.png")),
            ],
        )],
    };
    assert_eq!(
        mapping.resolve_with_fallback(&configuration, &metadata).unwrap().emblem_cms_path,
        "images/emblems/samurai-negative.png"
    );
}

#[test]
fn emblem_mapping_built_by_insert_keeps_configurations_ordered_and_keys_unique() {
    let mut mapping = EmblemMapping::new();
    mapping.insert("b-emblem".to_string(), 7, assets("images/emblems/b7.png"));
    mapping.insert("a-emblem".to_string(), 3, assets("images/emblems/a3.png"));
    mapping.insert("b-emblem".to_string(), -2, assets("images/emblems/b-2.png"));
    mapping.insert("b-emblem".to_string(), 7, assets("images/emblems/b7-new.png"));
    assert_eq!(mapping.emblems.len(), 2);
    let b = &mapping.emblems[0];
    assert_eq!(b.0, "b-emblem");
    assert_eq!(b.1.iter().map(|e| e.0).collect::<Vec<i64>>(), vec![-2, 7]);
    assert_eq!(
        mapping.get("b-emblem", 7).unwrap().emblem_cms_path,
        "images/emblems/b7-new.png"
    );
    assert_eq!(
        mapping.get("b-emblem", -2).unwrap().emblem_cms_path,
        "images/emblems/b-2.png"
    );
    assert_eq!(
        mapping.get("a-emblem", 3).unwrap().emblem_cms_path,
        "images/emblems/a3.png"
    );
    assert!(mapping.get("a-emblem", 7).is_none());
    assert!(mapping.get("c-emblem", 7).is_none());
}
