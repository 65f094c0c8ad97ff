//! Halo Infinite API response models and the pure helpers defined on them.
use std::collections::BTreeMap;

use crate::text::{
    after_last, before_last, chars_after_last, chars_eq, chars_of, chars_strip_suffix,
    ends_with, find_last, has_prefix, has_suffix, i64_to_string, join_url, last_index, lowercase,
    owned, push_str, signed_decimal, starts_with, str_to_lowercase, strip_suffix, string_from_chars,
    text_eq, to_ascii_lower, ascii_lower, url_join, copy_range,
};
use vstd::prelude::*;

verus! {

pub const WAYPOINT_FILE_BASE_URL: &'static str = "https://gamecms-hacs.svc.halowaypoint.com/hi/Waypoint/file";

pub const RANK_ICON_BASE_URL: &'static str = "https://trackercdn.com/cdn/tracker.gg/halo-infinite/skills/c";

/// A Halo Infinite matchmaking playlist asset ID.
#[derive(Debug, Clone, PartialEq, Eq)]
pub struct PlaylistId(pub String);

impl PlaylistId {
    #[allow(non_snake_case)]
    pub fn BIG_TEAM_BATTLE() -> (r: Self)
        ensures
            r.0@ == "2825d417-93e6-4366-98f9-839a2dc41fe4"@,
    {
        Self::new("2825d417-93e6-4366-98f9-839a2dc41fe4")
    }

    #[allow(non_snake_case)]
    pub fn RANKED_ARENA() -> (r: Self)
        ensures
            r.0@ == "edfef3ac-9cbe-4fa2-b949-8f29deafd483"@,
    {
        Self::new("edfef3ac-9cbe-4fa2-b949-8f29deafd483")
    }

    #[allow(non_snake_case)]
    pub fn RANKED_DOUBLES() -> (r: Self)
        ensures
            r.0@ == "fa5aa2a3-2428-4912-a023-e1eeea7b877c"@,
    {
        Self::new("fa5aa2a3-2428-4912-a023-e1eeea7b877c")
    }

    #[allow(non_snake_case)]
    pub fn RANKED_SLAYER() -> (r: Self)
        ensures
            r.0@ == "dcb2e24e-05fb-4390-8076-32a0cdb4326e"@,
    {
        Self::new("dcb2e24e-05fb-4390-8076-32a0cdb4326e")
    }

    #[allow(non_snake_case)]
    pub fn SQUAD_BATTLE() -> (r: Self)
        ensures
            r.0@ == "f5580605-660c-43f9-ac69-4075c4a05c5d"@,
    {
        Self::new("f5580605-660c-43f9-ac69-4075c4a05c5d")
    }

    #[allow(non_snake_case)]
    pub fn TEAM_DOUBLES() -> (r: Self)
        ensures
            r.0@ == "7323be09-2523-47c0-9e0d-64af9534ee22"@,
    {
        Self::new("7323be09-2523-47c0-9e0d-64af9534ee22")
    }

    /// Creates an ID for a playlist that is not included among the named ones.
    pub fn new(value: &str) -> (r: Self)
        ensures
            r.0@ == value@,
    {
        PlaylistId(owned(value))
    }

    pub fn as_str(&self) -> (r: &str)
        ensures
            r@ == self.0@,
    {
        self.0.as_str()
    }

    /// The ID text, as its `Display` renders it.
    pub fn to_string(&self) -> (r: String)
        ensures
            r@ == self.0@,
    {
        owned(self.0.as_str())
    }
}

/// A Halo Infinite UGC game-mode asset ID paired with an immutable version ID.
#[derive(Debug, Clone, PartialEq, Eq)]
pub struct GameModeId {
    pub asset_id: String,
    pub version_id: String,
}

impl GameModeId {
    #[allow(non_snake_case)]
    pub fn ASSAULT_MULTI_BOMB_BTB() -> (r: Self)
        ensures
            r.asset_id@ == "f7704cb1-476a-447d-ac53-847874a9dae0"@,
            r.version_id@ == "94d1b9c3-b7fa-48a2-ac9a-64bed263922a"@,
    {
        Self::from_static("f7704cb1-476a-447d-ac53-847874a9dae0", "94d1b9c3-b7fa-48a2-ac9a-64bed263922a")
    }

    #[allow(non_snake_case)]
    pub fn ASSAULT_NEUTRAL_BOMB_SQUAD() -> (r: Self)
        ensures
            r.asset_id@ == "ce9c98fa-e376-4958-a470-111e0d070f70"@,
            r.version_id@ == "88f0d4bd-08ad-4475-b0bf-5e222f8a4f30"@,
    {
        Self::from_static("ce9c98fa-e376-4958-a470-111e0d070f70", "88f0d4bd-08ad-4475-b0bf-5e222f8a4f30")
    }

    #[allow(non_snake_case)]
    pub fn ASSAULT_ONE_BOMB_BTB() -> (r: Self)
        ensures
            r.asset_id@ == "50d8dad3-f49c-4c69-9ced-be4de6b2e844"@,
            r.version_id@ == "47a5c157-01d6-4818-a5ed-39b94135edf7"@,
    {
        Self::from_static("50d8dad3-f49c-4c69-9ced-be4de6b2e844", "47a5c157-01d6-4818-a5ed-39b94135edf7")
    }

    #[allow(non_snake_case)]
    pub fn ASSAULT_ONE_BOMB_SQUAD() -> (r: Self)
        ensures
            r.asset_id@ == "a34be7a1-0c04-4a5a-8cd4-bb65e76e2b4b"@,
            r.version_id@ == "0cd1c5c2-5fee-408b-bfd0-963a5c0496d5"@,
    {
        Self::from_static("a34be7a1-0c04-4a5a-8cd4-bb65e76e2b4b", "0cd1c5c2-5fee-408b-bfd0-963a5c0496d5")
    }

    #[allow(non_snake_case)]
    pub fn BTB_ONE_FLAG_CTF() -> (r: Self)
        ensures
            r.asset_id@ == "b5b791c6-46b9-4b0d-8590-da0d22287e01"@,
            r.version_id@ == "4fcc56ac-91c7-458d-8372-44c6159e563e"@,
    {
        Self::from_static("b5b791c6-46b9-4b0d-8590-da0d22287e01", "4fcc56ac-91c7-458d-8372-44c6159e563e")
    }

    #[allow(non_snake_case)]
    pub fn BTB_SENTRY_DEFENSE() -> (r: Self)
        ensures
            r.asset_id@ == "b41b6dab-18b6-4784-a079-dee748fe473b"@,
            r.version_id@ == "5e5783a1-a005-4937-a5e8-57cee603cb8d"@,
    {
        Self::from_static("b41b6dab-18b6-4784-a079-dee748fe473b", "5e5783a1-a005-4937-a5e8-57cee603cb8d")
    }

    #[allow(non_snake_case)]
    pub fn CASTLE_WARS() -> (r: Self)
        ensures
            r.asset_id@ == "823cc0c6-a368-467a-9481-d9de35e7e666"@,
            r.version_id@ == "b83ef4ce-eb6d-4d04-af32-69b6acd4c60f"@,
    {
        Self::from_static("823cc0c6-a368-467a-9481-d9de35e7e666", "b83ef4ce-eb6d-4d04-af32-69b6acd4c60f")
    }

    #[allow(non_snake_case)]
    pub fn CTF_BTB() -> (r: Self)
        ensures
            r.asset_id@ == "1519c0cb-759d-424e-a68e-b9cb870b1e14"@,
            r.version_id@ == "030a4f4a-0493-42ae-a831-352172fed8ee"@,
    {
        Self::from_static("1519c0cb-759d-424e-a68e-b9cb870b1e14", "030a4f4a-0493-42ae-a831-352172fed8ee")
    }

    #[allow(non_snake_case)]
    pub fn CTF_BTB_FIESTA() -> (r: Self)
        ensures
            r.asset_id@ == "72578bb7-547a-4627-b21f-c93cc3213dca"@,
            r.version_id@ == "ff344ee6-82e9-4df1-8cfa-0f486d3bce26"@,
    {
        Self::from_static("72578bb7-547a-4627-b21f-c93cc3213dca", "ff344ee6-82e9-4df1-8cfa-0f486d3bce26")
    }

    #[allow(non_snake_case)]
    pub fn CTF_BTB_HEAVIES() -> (r: Self)
        ensures
            r.asset_id@ == "3c038d8d-b4b4-4c97-ab53-1e9d3b43d502"@,
            r.version_id@ == "f7fb19e5-c283-44d1-b6fe-9fa5accb35ce"@,
    {
        Self::from_static("3c038d8d-b4b4-4c97-ab53-1e9d3b43d502", "f7fb19e5-c283-44d1-b6fe-9fa5accb35ce")
    }

    #[allow(non_snake_case)]
    pub fn CTF_DOUBLES() -> (r: Self)
        ensures
            r.asset_id@ == "7be47523-cadc-4fba-8ba9-155ba45e1f59"@,
            r.version_id@ == "93156ae1-306d-4d09-9969-eaee46475f57"@,
    {
        Self::from_static("7be47523-cadc-4fba-8ba9-155ba45e1f59", "93156ae1-306d-4d09-9969-eaee46475f57")
    }

    #[allow(non_snake_case)]
    pub fn EXTRACTION_BTB() -> (r: Self)
        ensures
            r.asset_id@ == "51502806-5e18-442b-bd85-ea8cb3b6e726"@,
            r.version_id@ == "2f83581c-c50d-46b1-920e-c967de2355f7"@,
    {
        Self::from_static("51502806-5e18-442b-bd85-ea8cb3b6e726", "2f83581c-c50d-46b1-920e-c967de2355f7")
    }

    #[allow(non_snake_case)]
    pub fn FIESTA_SLAYER() -> (r: Self)
        ensures
            r.asset_id@ == "aca7bbf8-7a18-4aae-8785-1bd3f58275fd"@,
            r.version_id@ == "3685f6b2-2860-4e98-9d13-513087edb465"@,
    {
        Self::from_static("aca7bbf8-7a18-4aae-8785-1bd3f58275fd", "3685f6b2-2860-4e98-9d13-513087edb465")
    }

    #[allow(non_snake_case)]
    pub fn INVASION() -> (r: Self)
        ensures
            r.asset_id@ == "0d192b69-6899-4c3c-b63d-4de7beb07f76"@,
            r.version_id@ == "ec59fb10-30ee-47e7-a27b-02caf21ac2d9"@,
    {
        Self::from_static("0d192b69-6899-4c3c-b63d-4de7beb07f76", "ec59fb10-30ee-47e7-a27b-02caf21ac2d9")
    }

    #[allow(non_snake_case)]
    pub fn KOTH_DOUBLES() -> (r: Self)
        ensures
            r.asset_id@ == "cbfaa7fe-5963-4762-b655-a99824ba6fdf"@,
            r.version_id@ == "408da051-5d42-49fa-8417-5f9a78cf8467"@,
    {
        Self::from_static("cbfaa7fe-5963-4762-b655-a99824ba6fdf", "408da051-5d42-49fa-8417-5f9a78cf8467")
    }

    #[allow(non_snake_case)]
    pub fn RANKED_ATTRITION() -> (r: Self)
        ensures
            r.asset_id@ == "0bc630bf-2ee3-4eae-b272-b68d4ab80be7"@,
            r.version_id@ == "b6b22432-f3d9-468c-9359-b82a72791030"@,
    {
        Self::from_static("0bc630bf-2ee3-4eae-b272-b68d4ab80be7", "b6b22432-f3d9-468c-9359-b82a72791030")
    }

    #[allow(non_snake_case)]
    pub fn RANKED_CTF_3_CAPTURES() -> (r: Self)
        ensures
            r.asset_id@ == "4cb279b7-a064-4df6-9058-02cdc6825d93"@,
            r.version_id@ == "1392d27e-e7e3-41d9-93f9-420c66cff577"@,
    {
        Self::from_static("4cb279b7-a064-4df6-9058-02cdc6825d93", "1392d27e-e7e3-41d9-93f9-420c66cff577")
    }

    #[allow(non_snake_case)]
    pub fn RANKED_CTF_5_CAPTURES() -> (r: Self)
        ensures
            r.asset_id@ == "507191c6-a492-4331-b2ae-a172101eb23e"@,
            r.version_id@ == "58052d54-b2d6-4006-baba-243a9d58c13d"@,
    {
        Self::from_static("507191c6-a492-4331-b2ae-a172101eb23e", "58052d54-b2d6-4006-baba-243a9d58c13d")
    }

    #[allow(non_snake_case)]
    pub fn RANKED_DOUBLES_ODDBALL() -> (r: Self)
        ensures
            r.asset_id@ == "9beb95dc-9fa2-4c6e-889f-d717f2adfe49"@,
            r.version_id@ == "75c45183-df50-405c-8fbc-bccc0f7eb375"@,
    {
        Self::from_static("9beb95dc-9fa2-4c6e-889f-d717f2adfe49", "75c45183-df50-405c-8fbc-bccc0f7eb375")
    }

    #[allow(non_snake_case)]
    pub fn RANKED_DOUBLES_SLAYER() -> (r: Self)
        ensures
            r.asset_id@ == "b0c65df9-0b2c-4040-b018-ad3e1baab832"@,
            r.version_id@ == "9e8f9dae-007d-4eb4-a131-4e5d526d9130"@,
    {
        Self::from_static("b0c65df9-0b2c-4040-b018-ad3e1baab832", "9e8f9dae-007d-4eb4-a131-4e5d526d9130")
    }

    #[allow(non_snake_case)]
    pub fn RANKED_KING_OF_THE_HILL() -> (r: Self)
        ensures
            r.asset_id@ == "88c22b1f-2d64-48b9-bab1-26fe4721fb23"@,
            r.version_id@ == "43e75f3a-eee5-4147-b9d3-19782fac58f8"@,
    {
        Self::from_static("88c22b1f-2d64-48b9-bab1-26fe4721fb23", "43e75f3a-eee5-4147-b9d3-19782fac58f8")
    }

    #[allow(non_snake_case)]
    pub fn RANKED_ODDBALL() -> (r: Self)
        ensures
            r.asset_id@ == "751bcc9d-aace-45a1-8d71-358f0bc89f7e"@,
            r.version_id@ == "227d4ffc-d67f-449a-8315-a1f82854d2ed"@,
    {
        Self::from_static("751bcc9d-aace-45a1-8d71-358f0bc89f7e", "227d4ffc-d67f-449a-8315-a1f82854d2ed")
    }

    #[allow(non_snake_case)]
    pub fn RANKED_ONE_FLAG_CTF() -> (r: Self)
        ensures
            r.asset_id@ == "18ac247d-7f86-4a59-9b47-9e74a6384ac2"@,
            r.version_id@ == "6dbe8411-cc9b-44ca-b680-32847677536a"@,
    {
        Self::from_static("18ac247d-7f86-4a59-9b47-9e74a6384ac2", "6dbe8411-cc9b-44ca-b680-32847677536a")
    }

    #[allow(non_snake_case)]
    pub fn RANKED_SLAYER() -> (r: Self)
        ensures
            r.asset_id@ == "c2d20d44-8606-4669-b894-afae15b3524f"@,
            r.version_id@ == "0091d411-f90d-44a7-aac3-ccc7ff2b131f"@,
    {
        Self::from_static("c2d20d44-8606-4669-b894-afae15b3524f", "0091d411-f90d-44a7-aac3-ccc7ff2b131f")
    }

    #[allow(non_snake_case)]
    pub fn RANKED_STRONGHOLDS() -> (r: Self)
        ensures
            r.asset_id@ == "22b8a0eb-0d02-4eb3-8f56-5f63fc254f83"@,
            r.version_id@ == "7a6d2582-284c-4728-bec9-118e32cd0cc0"@,
    {
        Self::from_static("22b8a0eb-0d02-4eb3-8f56-5f63fc254f83", "7a6d2582-284c-4728-bec9-118e32cd0cc0")
    }

    #[allow(non_snake_case)]
    pub fn SLAYER_BTB() -> (r: Self)
        ensures
            r.asset_id@ == "920d628c-9eae-47a6-b96c-d141cf36ade2"@,
            r.version_id@ == "2a228d8e-cb58-4804-8e4c-926aae27c61d"@,
    {
        Self::from_static("920d628c-9eae-47a6-b96c-d141cf36ade2", "2a228d8e-cb58-4804-8e4c-926aae27c61d")
    }

    #[allow(non_snake_case)]
    pub fn SLAYER_BTB_FIESTA() -> (r: Self)
        ensures
            r.asset_id@ == "ab3c7acc-2af8-4a5e-b510-ddea47054c4a"@,
            r.version_id@ == "be364419-a424-48d0-a943-812ed6e184cc"@,
    {
        Self::from_static("ab3c7acc-2af8-4a5e-b510-ddea47054c4a", "be364419-a424-48d0-a943-812ed6e184cc")
    }

    #[allow(non_snake_case)]
    pub fn SLAYER_BTB_HEAVIES() -> (r: Self)
        ensures
            r.asset_id@ == "64edc877-e2aa-4b83-b507-5d64ee4fefe9"@,
            r.version_id@ == "1627eba7-1d88-4d53-8b98-860812da5b0d"@,
    {
        Self::from_static("64edc877-e2aa-4b83-b507-5d64ee4fefe9", "1627eba7-1d88-4d53-8b98-860812da5b0d")
    }

    #[allow(non_snake_case)]
    pub fn SLAYER_DOUBLES() -> (r: Self)
        ensures
            r.asset_id@ == "10a89f4f-9d37-4833-8db2-b95931f5eecd"@,
            r.version_id@ == "ba5aa4d4-f6c0-433e-b094-ae5f2703e241"@,
    {
        Self::from_static("10a89f4f-9d37-4833-8db2-b95931f5eecd", "ba5aa4d4-f6c0-433e-b094-ae5f2703e241")
    }

    #[allow(non_snake_case)]
    pub fn SQUAD_CTF() -> (r: Self)
        ensures
            r.asset_id@ == "16188841-9cb2-4cf3-bb59-5139f9a737ab"@,
            r.version_id@ == "871ccd7c-8bf3-4513-a722-24f972f34d22"@,
    {
        Self::from_static("16188841-9cb2-4cf3-bb59-5139f9a737ab", "871ccd7c-8bf3-4513-a722-24f972f34d22")
    }

    #[allow(non_snake_case)]
    pub fn SQUAD_KING_OF_THE_HILL() -> (r: Self)
        ensures
            r.asset_id@ == "3899e110-91cd-4479-a8ad-5f8f8b91248d"@,
            r.version_id@ == "8f137484-6970-46c9-a4a9-c26ff0c232d4"@,
    {
        Self::from_static("3899e110-91cd-4479-a8ad-5f8f8b91248d", "8f137484-6970-46c9-a4a9-c26ff0c232d4")
    }

    #[allow(non_snake_case)]
    pub fn SQUAD_ONE_FLAG_CTF() -> (r: Self)
        ensures
            r.asset_id@ == "4640310c-8a5c-4afa-bc39-98835e49d9f2"@,
            r.version_id@ == "046685be-2189-4ba2-8874-b5c7f2ee1615"@,
    {
        Self::from_static("4640310c-8a5c-4afa-bc39-98835e49d9f2", "046685be-2189-4ba2-8874-b5c7f2ee1615")
    }

    #[allow(non_snake_case)]
    pub fn SQUAD_SLAYER() -> (r: Self)
        ensures
            r.asset_id@ == "d73d459a-d63d-4a21-97f0-b1b156101d3c"@,
            r.version_id@ == "a2402448-53d3-42d0-8c53-393bf5ac055b"@,
    {
        Self::from_static("d73d459a-d63d-4a21-97f0-b1b156101d3c", "a2402448-53d3-42d0-8c53-393bf5ac055b")
    }

    #[allow(non_snake_case)]
    pub fn TOTAL_CONTROL_BTB() -> (r: Self)
        ensures
            r.asset_id@ == "34bac2c7-b6d7-4202-b634-1d770e5247a4"@,
            r.version_id@ == "341262d6-39c9-4aed-832d-86dbc94e0eca"@,
    {
        Self::from_static("34bac2c7-b6d7-4202-b634-1d770e5247a4", "341262d6-39c9-4aed-832d-86dbc94e0eca")
    }

    #[allow(non_snake_case)]
    pub fn TOTAL_CONTROL_BTB_FIESTA() -> (r: Self)
        ensures
            r.asset_id@ == "ac993227-14be-4aea-a055-8782665c4251"@,
            r.version_id@ == "cb71fdfe-faa4-4c06-8a43-d8aa023fcc22"@,
    {
        Self::from_static("ac993227-14be-4aea-a055-8782665c4251", "cb71fdfe-faa4-4c06-8a43-d8aa023fcc22")
    }

    /// Creates a game-mode ID from an asset GUID and immutable version GUID.
    pub fn new(asset_id: &str, version_id: &str) -> (r: Self)
        ensures
            r.asset_id@ == asset_id@,
            r.version_id@ == version_id@,
    {
        GameModeId { asset_id: owned(asset_id), version_id: owned(version_id) }
    }

    fn from_static(asset_id: &'static str, version_id: &'static str) -> (r: Self)
        ensures
            r.asset_id@ == asset_id@,
            r.version_id@ == version_id@,
    {
        Self::new(asset_id, version_id)
    }

    pub fn asset_id(&self) -> (r: &str)
        ensures
            r@ == self.asset_id@,
    {
        self.asset_id.as_str()
    }

    pub fn version_id(&self) -> (r: &str)
        ensures
            r@ == self.version_id@,
    {
        self.version_id.as_str()
    }
}

/// A Halo Infinite map asset ID paired with an immutable version ID.
#[derive(Debug, Clone, PartialEq, Eq)]
pub struct MapId {
    pub asset_id: String,
    pub version_id: String,
}

impl MapId {
    #[allow(non_snake_case)]
    pub fn APOSTLE() -> (r: Self)
        ensures
            r.asset_id@ == "023507d1-7566-458d-b3d7-31627c40c01d"@,
            r.version_id@ == "ac0cd6db-2ce4-43df-91ef-7e5a90550a08"@,
    {
        Self::from_static("023507d1-7566-458d-b3d7-31627c40c01d", "ac0cd6db-2ce4-43df-91ef-7e5a90550a08")
    }

    #[allow(non_snake_case)]
    pub fn AQUARIUS() -> (r: Self)
        ensures
            r.asset_id@ == "c395f3ac-4614-45f9-a83a-56f69e8ae962"@,
            r.version_id@ == "dda9eaa7-441d-45ef-983b-bf9e89298be5"@,
    {
        Self::from_static("c395f3ac-4614-45f9-a83a-56f69e8ae962", "dda9eaa7-441d-45ef-983b-bf9e89298be5")
    }

    #[allow(non_snake_case)]
    pub fn AQUARIUS_RANKED() -> (r: Self)
        ensures
            r.asset_id@ == "667072ae-ba00-4414-adda-8203e8c49295"@,
            r.version_id@ == "9cce4f7e-cd2e-470f-93eb-a2725958f8bd"@,
    {
        Self::from_static("667072ae-ba00-4414-adda-8203e8c49295", "9cce4f7e-cd2e-470f-93eb-a2725958f8bd")
    }

    #[allow(non_snake_case)]
    pub fn ARGYLE() -> (r: Self)
        ensures
            r.asset_id@ == "2e35d8c0-8292-465c-8d69-35b5ff8b70db"@,
            r.version_id@ == "c4dffc26-537d-4162-a9d1-703798784c49"@,
    {
        Self::from_static("2e35d8c0-8292-465c-8d69-35b5ff8b70db", "c4dffc26-537d-4162-a9d1-703798784c49")
    }

    #[allow(non_snake_case)]
    pub fn ARGYLE_RANKED() -> (r: Self)
        ensures
            r.asset_id@ == "78677080-db7a-429e-84fe-f041d8342c37"@,
            r.version_id@ == "042ca666-15c8-4b68-b7bc-7a1d2fbdf113"@,
    {
        Self::from_static("78677080-db7a-429e-84fe-f041d8342c37", "042ca666-15c8-4b68-b7bc-7a1d2fbdf113")
    }

    #[allow(non_snake_case)]
    pub fn ARRIVAL() -> (r: Self)
        ensures
            r.asset_id@ == "beaf8ac9-fa85-4562-8def-28d9428dbddb"@,
            r.version_id@ == "e92c6ffa-741c-4c82-a253-657acd92c694"@,
    {
        Self::from_static("beaf8ac9-fa85-4562-8def-28d9428dbddb", "e92c6ffa-741c-4c82-a253-657acd92c694")
    }

    #[allow(non_snake_case)]
    pub fn BAZAAR() -> (r: Self)
        ensures
            r.asset_id@ == "3e1e4cec-4f2c-44c6-b8d2-96b85c66c702"@,
            r.version_id@ == "f463f61f-719f-4e1d-9a55-8492cce69b0b"@,
    {
        Self::from_static("3e1e4cec-4f2c-44c6-b8d2-96b85c66c702", "f463f61f-719f-4e1d-9a55-8492cce69b0b")
    }

    #[allow(non_snake_case)]
    pub fn BEHEMOTH() -> (r: Self)
        ensures
            r.asset_id@ == "c3eabce0-2b2b-413c-96de-365a78846993"@,
            r.version_id@ == "95ea4511-8d7e-48d0-b18d-5c7fde89ed94"@,
    {
        Self::from_static("c3eabce0-2b2b-413c-96de-365a78846993", "95ea4511-8d7e-48d0-b18d-5c7fde89ed94")
    }

    #[allow(non_snake_case)]
    pub fn BREAKER() -> (r: Self)
        ensures
            r.asset_id@ == "6a147baf-b9c0-489e-8f04-8c6676c948d2"@,
            r.version_id@ == "735d5165-dc3c-46c5-9dfc-30ee9f6b8bb7"@,
    {
        Self::from_static("6a147baf-b9c0-489e-8f04-8c6676c948d2", "735d5165-dc3c-46c5-9dfc-30ee9f6b8bb7")
    }

    #[allow(non_snake_case)]
    pub fn BREAKER_HEAVIES() -> (r: Self)
        ensures
            r.asset_id@ == "953dc3e2-943f-4ae3-abdd-b4be2a6a7a3a"@,
            r.version_id@ == "4c7e77db-39f3-4219-8389-a0b3eaaecdeb"@,
    {
        Self::from_static("953dc3e2-943f-4ae3-abdd-b4be2a6a7a3a", "4c7e77db-39f3-4219-8389-a0b3eaaecdeb")
    }

    #[allow(non_snake_case)]
    pub fn BREAKER_ONE_FLAG_CTF() -> (r: Self)
        ensures
            r.asset_id@ == "66508493-003c-4f3d-9a2b-91f37eabcfa6"@,
            r.version_id@ == "70269654-ecb5-44de-a3bc-6b8b21e65787"@,
    {
        Self::from_static("66508493-003c-4f3d-9a2b-91f37eabcfa6", "70269654-ecb5-44de-a3bc-6b8b21e65787")
    }

    #[allow(non_snake_case)]
    pub fn BREAKPOINT() -> (r: Self)
        ensures
            r.asset_id@ == "fe7d8044-bc7f-4a05-a266-061382dfd8fa"@,
            r.version_id@ == "2599dda4-1ad7-4ecf-afe8-c601dbe789b2"@,
    {
        Self::from_static("fe7d8044-bc7f-4a05-a266-061382dfd8fa", "2599dda4-1ad7-4ecf-afe8-c601dbe789b2")
    }

    #[allow(non_snake_case)]
    pub fn CATALYST() -> (r: Self)
        ensures
            r.asset_id@ == "f7e8cde9-0c0a-487c-94a3-61bfa0f20465"@,
            r.version_id@ == "55753d9f-3cab-4421-8280-c3a877319d68"@,
    {
        Self::from_static("f7e8cde9-0c0a-487c-94a3-61bfa0f20465", "55753d9f-3cab-4421-8280-c3a877319d68")
    }

    #[allow(non_snake_case)]
    pub fn CATALYST_RANKED() -> (r: Self)
        ensures
            r.asset_id@ == "74b8c681-a3b0-422b-9fea-c111d3c979da"@,
            r.version_id@ == "523d7c04-367b-4160-8f03-59792c18a184"@,
    {
        Self::from_static("74b8c681-a3b0-422b-9fea-c111d3c979da", "523d7c04-367b-4160-8f03-59792c18a184")
    }

    #[allow(non_snake_case)]
    pub fn CHASM() -> (r: Self)
        ensures
            r.asset_id@ == "a455572d-3141-48bc-ac55-dac78d9b52c9"@,
            r.version_id@ == "d03834f3-acad-4217-8ecb-244839366f2e"@,
    {
        Self::from_static("a455572d-3141-48bc-ac55-dac78d9b52c9", "d03834f3-acad-4217-8ecb-244839366f2e")
    }

    #[allow(non_snake_case)]
    pub fn CLIFFHANGER() -> (r: Self)
        ensures
            r.asset_id@ == "81274d6f-6a94-425a-a16e-3bdb1e2eea9d"@,
            r.version_id@ == "2cbfa179-2bd2-499d-a5bd-74bf2d14d05b"@,
    {
        Self::from_static("81274d6f-6a94-425a-a16e-3bdb1e2eea9d", "2cbfa179-2bd2-499d-a5bd-74bf2d14d05b")
    }

    #[allow(non_snake_case)]
    pub fn CLIFFSIDE() -> (r: Self)
        ensures
            r.asset_id@ == "4bffd021-92c0-422b-8b6e-8f595511458c"@,
            r.version_id@ == "9e4296fd-b785-4bea-a880-8a5f8b268d56"@,
    {
        Self::from_static("4bffd021-92c0-422b-8b6e-8f595511458c", "9e4296fd-b785-4bea-a880-8a5f8b268d56")
    }

    #[allow(non_snake_case)]
    pub fn COMMAND() -> (r: Self)
        ensures
            r.asset_id@ == "2c9f3490-6be2-4d90-9015-02095651e91e"@,
            r.version_id@ == "a9f63a1c-3f6a-4125-a2a1-f4bbbb864e97"@,
    {
        Self::from_static("2c9f3490-6be2-4d90-9015-02095651e91e", "a9f63a1c-3f6a-4125-a2a1-f4bbbb864e97")
    }

    #[allow(non_snake_case)]
    pub fn COMMAND_ASSAULT() -> (r: Self)
        ensures
            r.asset_id@ == "66b15c7c-d439-41b4-a965-575bd5c86c04"@,
            r.version_id@ == "93e2b110-16a4-44cc-a7b3-06991f285a4e"@,
    {
        Self::from_static("66b15c7c-d439-41b4-a965-575bd5c86c04", "93e2b110-16a4-44cc-a7b3-06991f285a4e")
    }

    #[allow(non_snake_case)]
    pub fn COMMAND_SENTRY_DEFENSE() -> (r: Self)
        ensures
            r.asset_id@ == "215eb485-d3b9-43d3-9390-42a9cc2b7db9"@,
            r.version_id@ == "304c033f-3b0e-4d03-8c03-927da02edeb2"@,
    {
        Self::from_static("215eb485-d3b9-43d3-9390-42a9cc2b7db9", "304c033f-3b0e-4d03-8c03-927da02edeb2")
    }

    #[allow(non_snake_case)]
    pub fn CRASHOUT() -> (r: Self)
        ensures
            r.asset_id@ == "178ee422-43c1-4df8-be86-84f8bb0cc4d2"@,
            r.version_id@ == "c72d84c8-9077-48a2-a78c-38d6df82a5c2"@,
    {
        Self::from_static("178ee422-43c1-4df8-be86-84f8bb0cc4d2", "c72d84c8-9077-48a2-a78c-38d6df82a5c2")
    }

    #[allow(non_snake_case)]
    pub fn CREDENCE() -> (r: Self)
        ensures
            r.asset_id@ == "0cc728d2-9b4d-4b80-95c9-18c77c095575"@,
            r.version_id@ == "a73940e7-210d-4aba-b039-ec51c006d146"@,
    {
        Self::from_static("0cc728d2-9b4d-4b80-95c9-18c77c095575", "a73940e7-210d-4aba-b039-ec51c006d146")
    }

    #[allow(non_snake_case)]
    pub fn CRITICAL_DEWPOINT() -> (r: Self)
        ensures
            r.asset_id@ == "bae4df14-4f4a-424c-aac1-2f795c807146"@,
            r.version_id@ == "35fdc4d3-7864-4600-adc9-847de372166a"@,
    {
        Self::from_static("bae4df14-4f4a-424c-aac1-2f795c807146", "35fdc4d3-7864-4600-adc9-847de372166a")
    }

    #[allow(non_snake_case)]
    pub fn CURFEW() -> (r: Self)
        ensures
            r.asset_id@ == "63d634be-0319-489d-8c21-9c4e012f664f"@,
            r.version_id@ == "397afd65-341c-46f0-9a32-caa46d995f0a"@,
    {
        Self::from_static("63d634be-0319-489d-8c21-9c4e012f664f", "397afd65-341c-46f0-9a32-caa46d995f0a")
    }

    #[allow(non_snake_case)]
    pub fn DAIMYO() -> (r: Self)
        ensures
            r.asset_id@ == "0590f221-1e5b-45ca-919c-df1b113eab3f"@,
            r.version_id@ == "60769158-fbd9-41be-84af-6d43be9b4363"@,
    {
        Self::from_static("0590f221-1e5b-45ca-919c-df1b113eab3f", "60769158-fbd9-41be-84af-6d43be9b4363")
    }

    #[allow(non_snake_case)]
    pub fn DAWNBREAKER() -> (r: Self)
        ensures
            r.asset_id@ == "89dd4003-455c-4a1c-bcea-43acd514b20d"@,
            r.version_id@ == "93d0fd61-f115-449f-af8a-6de2b340b764"@,
    {
        Self::from_static("89dd4003-455c-4a1c-bcea-43acd514b20d", "93d0fd61-f115-449f-af8a-6de2b340b764")
    }

    #[allow(non_snake_case)]
    pub fn DEAD_WATER() -> (r: Self)
        ensures
            r.asset_id@ == "321271c8-529a-4a97-b303-093d839a6068"@,
            r.version_id@ == "4596b8d4-d97c-4ee9-a5f4-1b06464d56ce"@,
    {
        Self::from_static("321271c8-529a-4a97-b303-093d839a6068", "4596b8d4-d97c-4ee9-a5f4-1b06464d56ce")
    }

    #[allow(non_snake_case)]
    pub fn DEADLOCK() -> (r: Self)
        ensures
            r.asset_id@ == "6f82df05-3b24-4746-8579-e0c5ef9e9d64"@,
            r.version_id@ == "f1f191c2-d388-4cf4-a177-b28f8229d80b"@,
    {
        Self::from_static("6f82df05-3b24-4746-8579-e0c5ef9e9d64", "f1f191c2-d388-4cf4-a177-b28f8229d80b")
    }

    #[allow(non_snake_case)]
    pub fn DEADLOCK_HEAVIES() -> (r: Self)
        ensures
            r.asset_id@ == "4fd75c74-5098-47ce-b6d3-4540df3f9b8e"@,
            r.version_id@ == "12d90f79-fe4e-4f21-adc8-a7bbd8d71dd6"@,
    {
        Self::from_static("4fd75c74-5098-47ce-b6d3-4540df3f9b8e", "12d90f79-fe4e-4f21-adc8-a7bbd8d71dd6")
    }

    #[allow(non_snake_case)]
    pub fn DEADLOCK_SENTRY_DEFENSE() -> (r: Self)
        ensures
            r.asset_id@ == "34b81859-5cbc-4276-965e-8da33ebc824f"@,
            r.version_id@ == "f8741b7d-c01a-43df-a008-f4139259733b"@,
    {
        Self::from_static("34b81859-5cbc-4276-965e-8da33ebc824f", "f8741b7d-c01a-43df-a008-f4139259733b")
    }

    #[allow(non_snake_case)]
    pub fn DOMICILE() -> (r: Self)
        ensures
            r.asset_id@ == "921aebb1-783d-45e4-bacd-7ad869fa8dae"@,
            r.version_id@ == "6a2f9336-a5cd-41c5-ab0d-0da39ef351c1"@,
    {
        Self::from_static("921aebb1-783d-45e4-bacd-7ad869fa8dae", "6a2f9336-a5cd-41c5-ab0d-0da39ef351c1")
    }

    #[allow(non_snake_case)]
    pub fn DREDGE() -> (r: Self)
        ensures
            r.asset_id@ == "e4bb06db-065f-4902-b93b-d8dac315eac4"@,
            r.version_id@ == "55402a49-0dba-495a-9a21-7346a1b79e81"@,
    {
        Self::from_static("e4bb06db-065f-4902-b93b-d8dac315eac4", "55402a49-0dba-495a-9a21-7346a1b79e81")
    }

    #[allow(non_snake_case)]
    pub fn ELEVATION() -> (r: Self)
        ensures
            r.asset_id@ == "76043dc6-2724-45e2-9b5a-6fe2e75da588"@,
            r.version_id@ == "c131c7eb-c2da-407d-b1d4-b4eb9e65037d"@,
    {
        Self::from_static("76043dc6-2724-45e2-9b5a-6fe2e75da588", "c131c7eb-c2da-407d-b1d4-b4eb9e65037d")
    }

    #[allow(non_snake_case)]
    pub fn EMPYREAN() -> (r: Self)
        ensures
            r.asset_id@ == "d035fc3e-f298-4c14-9487-465be2e1dc1f"@,
            r.version_id@ == "8d5eb886-a41d-4093-827e-2cbdc75c651e"@,
    {
        Self::from_static("d035fc3e-f298-4c14-9487-465be2e1dc1f", "8d5eb886-a41d-4093-827e-2cbdc75c651e")
    }

    #[allow(non_snake_case)]
    pub fn EMPYREAN_RANKED() -> (r: Self)
        ensures
            r.asset_id@ == "70dd38c5-2eb7-4db3-8901-0dfca292ff18"@,
            r.version_id@ == "8c4ab697-8630-47bf-b8a8-7d49a5e91b3c"@,
    {
        Self::from_static("70dd38c5-2eb7-4db3-8901-0dfca292ff18", "8c4ab697-8630-47bf-b8a8-7d49a5e91b3c")
    }

    #[allow(non_snake_case)]
    pub fn EXHUMED() -> (r: Self)
        ensures
            r.asset_id@ == "354b1633-1b47-4e0f-9a43-15ebf0acef0c"@,
            r.version_id@ == "65679de1-145f-494b-89b2-8338e6ee019f"@,
    {
        Self::from_static("354b1633-1b47-4e0f-9a43-15ebf0acef0c", "65679de1-145f-494b-89b2-8338e6ee019f")
    }

    #[allow(non_snake_case)]
    pub fn EXILED() -> (r: Self)
        ensures
            r.asset_id@ == "9bb8d9df-ff6c-4a6e-b151-436bbb2c0907"@,
            r.version_id@ == "c9bb9a73-c790-436d-8f95-5409ac5a183a"@,
    {
        Self::from_static("9bb8d9df-ff6c-4a6e-b151-436bbb2c0907", "c9bb9a73-c790-436d-8f95-5409ac5a183a")
    }

    #[allow(non_snake_case)]
    pub fn FIRST_LIGHT() -> (r: Self)
        ensures
            r.asset_id@ == "c85ccdc7-8368-482f-8ca5-8b8d5d9a096d"@,
            r.version_id@ == "cc1cefc8-d73f-478a-b7c9-0227e1ebee91"@,
    {
        Self::from_static("c85ccdc7-8368-482f-8ca5-8b8d5d9a096d", "cc1cefc8-d73f-478a-b7c9-0227e1ebee91")
    }

    #[allow(non_snake_case)]
    pub fn FLOOD_GULCH() -> (r: Self)
        ensures
            r.asset_id@ == "7097bc4f-efcf-4c5a-a96e-4ddb03e84d2a"@,
            r.version_id@ == "ea3b126b-a2cf-4cdd-9d02-de154417b286"@,
    {
        Self::from_static("7097bc4f-efcf-4c5a-a96e-4ddb03e84d2a", "ea3b126b-a2cf-4cdd-9d02-de154417b286")
    }

    #[allow(non_snake_case)]
    pub fn FORBIDDEN() -> (r: Self)
        ensures
            r.asset_id@ == "87c03bfd-2db3-4a5b-bbf9-d5369c5894d1"@,
            r.version_id@ == "500d0305-72eb-47a4-aba5-f599e221cf00"@,
    {
        Self::from_static("87c03bfd-2db3-4a5b-bbf9-d5369c5894d1", "500d0305-72eb-47a4-aba5-f599e221cf00")
    }

    #[allow(non_snake_case)]
    pub fn FOREST() -> (r: Self)
        ensures
            r.asset_id@ == "e8d56863-9ad4-4efe-9059-81270884589c"@,
            r.version_id@ == "740b1651-e6cd-4172-a2a9-1c1710fa022f"@,
    {
        Self::from_static("e8d56863-9ad4-4efe-9059-81270884589c", "740b1651-e6cd-4172-a2a9-1c1710fa022f")
    }

    #[allow(non_snake_case)]
    pub fn FORGE_SPACE() -> (r: Self)
        ensures
            r.asset_id@ == "76669255-697d-48c9-a802-7ff2ec8257f1"@,
            r.version_id@ == "b8abf687-4e95-4846-83c7-33e779eed33e"@,
    {
        Self::from_static("76669255-697d-48c9-a802-7ff2ec8257f1", "b8abf687-4e95-4846-83c7-33e779eed33e")
    }

    #[allow(non_snake_case)]
    pub fn FORTITUDE() -> (r: Self)
        ensures
            r.asset_id@ == "1ede38fa-4d30-4dfa-a8b7-5d08bf4e46e3"@,
            r.version_id@ == "ad5eb2a0-1909-425e-a7de-5faa34a9d1e7"@,
    {
        Self::from_static("1ede38fa-4d30-4dfa-a8b7-5d08bf4e46e3", "ad5eb2a0-1909-425e-a7de-5faa34a9d1e7")
    }

    #[allow(non_snake_case)]
    pub fn FORTITUDE_ASSAULT() -> (r: Self)
        ensures
            r.asset_id@ == "ecce7405-53c2-4fb1-a57f-33af084f37d7"@,
            r.version_id@ == "8cae5866-e28f-48b4-ac13-e7312212f80c"@,
    {
        Self::from_static("ecce7405-53c2-4fb1-a57f-33af084f37d7", "8cae5866-e28f-48b4-ac13-e7312212f80c")
    }

    #[allow(non_snake_case)]
    pub fn FORTITUDE_HEAVIES() -> (r: Self)
        ensures
            r.asset_id@ == "305b1bdd-9a7b-4975-bacf-8bd63c8c13d2"@,
            r.version_id@ == "615d7c10-8473-45ca-9c87-88c5d4f7acff"@,
    {
        Self::from_static("305b1bdd-9a7b-4975-bacf-8bd63c8c13d2", "615d7c10-8473-45ca-9c87-88c5d4f7acff")
    }

    #[allow(non_snake_case)]
    pub fn FORTRESS_RANKED() -> (r: Self)
        ensures
            r.asset_id@ == "a54808fb-9bf5-432a-a3c3-f76cbea944c1"@,
            r.version_id@ == "f8fe5de8-694e-4787-9ece-dea86b37e6be"@,
    {
        Self::from_static("a54808fb-9bf5-432a-a3c3-f76cbea944c1", "f8fe5de8-694e-4787-9ece-dea86b37e6be")
    }

    #[allow(non_snake_case)]
    pub fn FRAGMENTATION() -> (r: Self)
        ensures
            r.asset_id@ == "068f41f4-e3dd-4bec-b297-d2ded85ab54b"@,
            r.version_id@ == "2f0b4c72-51e5-4115-b302-0bae4b4df7dd"@,
    {
        Self::from_static("068f41f4-e3dd-4bec-b297-d2ded85ab54b", "2f0b4c72-51e5-4115-b302-0bae4b4df7dd")
    }

    #[allow(non_snake_case)]
    pub fn FRAGMENTATION_HEAVIES() -> (r: Self)
        ensures
            r.asset_id@ == "0d849a52-fedb-4aea-b5a3-caee268f1f49"@,
            r.version_id@ == "f0dcbaf5-b10f-4f13-bb76-2e789ed4c18a"@,
    {
        Self::from_static("0d849a52-fedb-4aea-b5a3-caee268f1f49", "f0dcbaf5-b10f-4f13-bb76-2e789ed4c18a")
    }

    #[allow(non_snake_case)]
    pub fn FRAGMENTATION_SENTRY_DEFENSE() -> (r: Self)
        ensures
            r.asset_id@ == "10d59d28-e00a-4bf1-9890-3a3e6cbbc64c"@,
            r.version_id@ == "8cc62b67-a062-490b-8b74-af91ebff4607"@,
    {
        Self::from_static("10d59d28-e00a-4bf1-9890-3a3e6cbbc64c", "8cc62b67-a062-490b-8b74-af91ebff4607")
    }

    #[allow(non_snake_case)]
    pub fn GONDOLAS() -> (r: Self)
        ensures
            r.asset_id@ == "c4cd9e46-3666-4d89-98ec-3b7b2c7005fb"@,
            r.version_id@ == "59b54acf-d016-41e6-a941-732416a39f25"@,
    {
        Self::from_static("c4cd9e46-3666-4d89-98ec-3b7b2c7005fb", "59b54acf-d016-41e6-a941-732416a39f25")
    }

    #[allow(non_snake_case)]
    pub fn GOTHIC() -> (r: Self)
        ensures
            r.asset_id@ == "0d5cb522-ab18-4348-8a04-36948ca1f2e1"@,
            r.version_id@ == "26b1ccd4-504f-4c81-99bb-66b3d7d72192"@,
    {
        Self::from_static("0d5cb522-ab18-4348-8a04-36948ca1f2e1", "26b1ccd4-504f-4c81-99bb-66b3d7d72192")
    }

    #[allow(non_snake_case)]
    pub fn GYRE() -> (r: Self)
        ensures
            r.asset_id@ == "2aba3426-083c-42a9-b469-02898d4d0c62"@,
            r.version_id@ == "81957761-5b8b-4053-a84a-2203486133cf"@,
    {
        Self::from_static("2aba3426-083c-42a9-b469-02898d4d0c62", "81957761-5b8b-4053-a84a-2203486133cf")
    }

    #[allow(non_snake_case)]
    pub fn HARVEST() -> (r: Self)
        ensures
            r.asset_id@ == "ff6b8a12-6b95-4eac-8ee1-9ba4c985c2e0"@,
            r.version_id@ == "e7d01a4c-f5dc-4286-85d8-de37ab2d8841"@,
    {
        Self::from_static("ff6b8a12-6b95-4eac-8ee1-9ba4c985c2e0", "e7d01a4c-f5dc-4286-85d8-de37ab2d8841")
    }

    #[allow(non_snake_case)]
    pub fn HARVESTERS() -> (r: Self)
        ensures
            r.asset_id@ == "8168a385-24f7-4d2b-8b1d-bfa3c741401f"@,
            r.version_id@ == "9042df75-fcda-497b-9d95-93ad33b5188a"@,
    {
        Self::from_static("8168a385-24f7-4d2b-8b1d-bfa3c741401f", "9042df75-fcda-497b-9d95-93ad33b5188a")
    }

    #[allow(non_snake_case)]
    pub fn HIGHPOWER() -> (r: Self)
        ensures
            r.asset_id@ == "33c6505d-1cfa-43c6-9fa9-311eb0502ad9"@,
            r.version_id@ == "d550b178-a436-4821-ba21-f11a57f35b63"@,
    {
        Self::from_static("33c6505d-1cfa-43c6-9fa9-311eb0502ad9", "d550b178-a436-4821-ba21-f11a57f35b63")
    }

    #[allow(non_snake_case)]
    pub fn HIGHPOWER_HEAVIES() -> (r: Self)
        ensures
            r.asset_id@ == "ecbb3aa1-6227-43c7-8cf8-ce62d1a988f0"@,
            r.version_id@ == "8b13a317-c677-4f72-b5de-ce6c816ef20b"@,
    {
        Self::from_static("ecbb3aa1-6227-43c7-8cf8-ce62d1a988f0", "8b13a317-c677-4f72-b5de-ce6c816ef20b")
    }

    #[allow(non_snake_case)]
    pub fn HIGHPOWER_SENTRY_DEFENSE() -> (r: Self)
        ensures
            r.asset_id@ == "142a5e23-46de-4429-a232-aac4e6459a11"@,
            r.version_id@ == "9fc3a03e-b97b-4c7c-b6aa-e7d8608c10c7"@,
    {
        Self::from_static("142a5e23-46de-4429-a232-aac4e6459a11", "9fc3a03e-b97b-4c7c-b6aa-e7d8608c10c7")
    }

    #[allow(non_snake_case)]
    pub fn HOUSE_OF_RECKONING() -> (r: Self)
        ensures
            r.asset_id@ == "eaf608f0-6ec3-444f-a51a-9c1de5d0bf5c"@,
            r.version_id@ == "681d9ead-df2c-45d6-a828-a7d9e2e582cd"@,
    {
        Self::from_static("eaf608f0-6ec3-444f-a51a-9c1de5d0bf5c", "681d9ead-df2c-45d6-a828-a7d9e2e582cd")
    }

    #[allow(non_snake_case)]
    pub fn ILLUSION() -> (r: Self)
        ensures
            r.asset_id@ == "9e821f5e-042f-407c-97f3-de165b1cdb26"@,
            r.version_id@ == "b1f66098-0095-472e-947f-de171998fc10"@,
    {
        Self::from_static("9e821f5e-042f-407c-97f3-de165b1cdb26", "b1f66098-0095-472e-947f-de171998fc10")
    }

    #[allow(non_snake_case)]
    pub fn IMMOLATE() -> (r: Self)
        ensures
            r.asset_id@ == "47823612-9de0-4ca9-8a95-b3a6ebd7ca91"@,
            r.version_id@ == "ef53d2cc-fd2f-45a2-9a0a-a77082e4911f"@,
    {
        Self::from_static("47823612-9de0-4ca9-8a95-b3a6ebd7ca91", "ef53d2cc-fd2f-45a2-9a0a-a77082e4911f")
    }

    #[allow(non_snake_case)]
    pub fn INSOLENCE() -> (r: Self)
        ensures
            r.asset_id@ == "d5c5eb4f-0dcb-4677-a866-eae0dcbfde9b"@,
            r.version_id@ == "b574a3ab-0329-4e00-8e84-0db796c2d5df"@,
    {
        Self::from_static("d5c5eb4f-0dcb-4677-a866-eae0dcbfde9b", "b574a3ab-0329-4e00-8e84-0db796c2d5df")
    }

    #[allow(non_snake_case)]
    pub fn INSOLENCE_ASSAULT() -> (r: Self)
        ensures
            r.asset_id@ == "32fcf611-9e8f-4475-894c-acd65fbf39b1"@,
            r.version_id@ == "d7db089e-03b3-4a84-9c45-5965017a7fb9"@,
    {
        Self::from_static("32fcf611-9e8f-4475-894c-acd65fbf39b1", "d7db089e-03b3-4a84-9c45-5965017a7fb9")
    }

    #[allow(non_snake_case)]
    pub fn INSOLENCE_HEAVIES() -> (r: Self)
        ensures
            r.asset_id@ == "2a339c65-5128-4457-88d4-0906e265034e"@,
            r.version_id@ == "32583c91-936f-4ecc-931c-a7df4626783f"@,
    {
        Self::from_static("2a339c65-5128-4457-88d4-0906e265034e", "32583c91-936f-4ecc-931c-a7df4626783f")
    }

    #[allow(non_snake_case)]
    pub fn INTERFERENCE() -> (r: Self)
        ensures
            r.asset_id@ == "654dff62-d618-496a-8914-06ab73d991e3"@,
            r.version_id@ == "87e7bd29-9914-48f3-81e0-38ad200e1e4e"@,
    {
        Self::from_static("654dff62-d618-496a-8914-06ab73d991e3", "87e7bd29-9914-48f3-81e0-38ad200e1e4e")
    }

    #[allow(non_snake_case)]
    pub fn JAROK_BRIDGE() -> (r: Self)
        ensures
            r.asset_id@ == "7fbce06f-0d2b-498a-bf7d-f86e6e224820"@,
            r.version_id@ == "f1eb96a2-27d7-43b8-b4d4-1f43a3b21c45"@,
    {
        Self::from_static("7fbce06f-0d2b-498a-bf7d-f86e6e224820", "f1eb96a2-27d7-43b8-b4d4-1f43a3b21c45")
    }

    #[allow(non_snake_case)]
    pub fn KUSINI_BAY() -> (r: Self)
        ensures
            r.asset_id@ == "89f3b8ad-6bbf-4652-8d67-8e5330294de4"@,
            r.version_id@ == "ee7540aa-e504-4372-8e04-3e583a3359aa"@,
    {
        Self::from_static("89f3b8ad-6bbf-4652-8d67-8e5330294de4", "ee7540aa-e504-4372-8e04-3e583a3359aa")
    }

    #[allow(non_snake_case)]
    pub fn LAST_BROADCAST() -> (r: Self)
        ensures
            r.asset_id@ == "67c349f5-d7cc-49a0-9cf0-6afba73b18be"@,
            r.version_id@ == "f2f13ee6-cf73-4246-b011-e432f2997de4"@,
    {
        Self::from_static("67c349f5-d7cc-49a0-9cf0-6afba73b18be", "f2f13ee6-cf73-4246-b011-e432f2997de4")
    }

    #[allow(non_snake_case)]
    pub fn LAST_ROAD() -> (r: Self)
        ensures
            r.asset_id@ == "24d6a48b-d78b-49c7-8b24-338fa3508a32"@,
            r.version_id@ == "b73af8d8-37e4-485a-ba46-052867138300"@,
    {
        Self::from_static("24d6a48b-d78b-49c7-8b24-338fa3508a32", "b73af8d8-37e4-485a-ba46-052867138300")
    }

    #[allow(non_snake_case)]
    pub fn LATTICE_RANKED() -> (r: Self)
        ensures
            r.asset_id@ == "1a6cfc2e-ec86-48e1-9464-1ce1bff6ed48"@,
            r.version_id@ == "3a382104-9b89-4e6e-aa18-0affaa98f478"@,
    {
        Self::from_static("1a6cfc2e-ec86-48e1-9464-1ce1bff6ed48", "3a382104-9b89-4e6e-aa18-0affaa98f478")
    }

    #[allow(non_snake_case)]
    pub fn LAUNCH_SITE() -> (r: Self)
        ensures
            r.asset_id@ == "56a11b8c-64d1-4537-8893-a9241e4d5b93"@,
            r.version_id@ == "1cd21d5a-a57e-4d42-997d-ff95ca0e32fc"@,
    {
        Self::from_static("56a11b8c-64d1-4537-8893-a9241e4d5b93", "1cd21d5a-a57e-4d42-997d-ff95ca0e32fc")
    }

    #[allow(non_snake_case)]
    pub fn LIVE_FIRE() -> (r: Self)
        ensures
            r.asset_id@ == "6c01f693-c968-4a71-b157-efc35ffcf71f"@,
            r.version_id@ == "ce0d50f3-e756-4aa0-a81c-85e47c83aa8b"@,
    {
        Self::from_static("6c01f693-c968-4a71-b157-efc35ffcf71f", "ce0d50f3-e756-4aa0-a81c-85e47c83aa8b")
    }

    #[allow(non_snake_case)]
    pub fn LIVE_FIRE_RANKED() -> (r: Self)
        ensures
            r.asset_id@ == "309253f8-7a75-48ff-83e1-e7fb3db2ac47"@,
            r.version_id@ == "86a644f0-5063-40b8-b601-ce361439da72"@,
    {
        Self::from_static("309253f8-7a75-48ff-83e1-e7fb3db2ac47", "86a644f0-5063-40b8-b601-ce361439da72")
    }

    #[allow(non_snake_case)]
    pub fn LONGSHORE() -> (r: Self)
        ensures
            r.asset_id@ == "a6fb1ff7-3130-454c-b484-270c4ce07bf3"@,
            r.version_id@ == "b6217ea0-cf2e-47e7-8e5a-823ea2d05441"@,
    {
        Self::from_static("a6fb1ff7-3130-454c-b484-270c4ce07bf3", "b6217ea0-cf2e-47e7-8e5a-823ea2d05441")
    }

    #[allow(non_snake_case)]
    pub fn NADAIR() -> (r: Self)
        ensures
            r.asset_id@ == "6dbd1c0d-a6c2-4697-8453-f0799d941741"@,
            r.version_id@ == "b7fe7b46-9a4a-44b7-9dde-17515aeb4d7a"@,
    {
        Self::from_static("6dbd1c0d-a6c2-4697-8453-f0799d941741", "b7fe7b46-9a4a-44b7-9dde-17515aeb4d7a")
    }

    #[allow(non_snake_case)]
    pub fn OASIS() -> (r: Self)
        ensures
            r.asset_id@ == "7aa6fed5-4c21-43dd-b740-2fae8c971517"@,
            r.version_id@ == "97da30e7-14d5-48db-b15b-91b453286ffd"@,
    {
        Self::from_static("7aa6fed5-4c21-43dd-b740-2fae8c971517", "97da30e7-14d5-48db-b15b-91b453286ffd")
    }

    #[allow(non_snake_case)]
    pub fn OASIS_HEAVIES() -> (r: Self)
        ensures
            r.asset_id@ == "7f56a242-c93a-4a19-b084-a9bf9cdd0246"@,
            r.version_id@ == "5dcd3924-2e17-4369-81e1-ca0801ed89bb"@,
    {
        Self::from_static("7f56a242-c93a-4a19-b084-a9bf9cdd0246", "5dcd3924-2e17-4369-81e1-ca0801ed89bb")
    }

    #[allow(non_snake_case)]
    pub fn OASIS_SENTRY_DEFENSE() -> (r: Self)
        ensures
            r.asset_id@ == "052956b4-06d1-4f78-9938-6b43c66bb223"@,
            r.version_id@ == "806de5c2-1a74-44dc-9179-50bb390df384"@,
    {
        Self::from_static("052956b4-06d1-4f78-9938-6b43c66bb223", "806de5c2-1a74-44dc-9179-50bb390df384")
    }

    #[allow(non_snake_case)]
    pub fn OBITUARY() -> (r: Self)
        ensures
            r.asset_id@ == "a289bafe-102e-4363-98f7-80b596007338"@,
            r.version_id@ == "93845a4c-0ace-4161-86cb-9d0c190d07da"@,
    {
        Self::from_static("a289bafe-102e-4363-98f7-80b596007338", "93845a4c-0ace-4161-86cb-9d0c190d07da")
    }

    #[allow(non_snake_case)]
    pub fn OBITUARY_ASSAULT() -> (r: Self)
        ensures
            r.asset_id@ == "f2daaa7f-5bd0-46fc-b00c-feb970675125"@,
            r.version_id@ == "586e6852-0e69-40cd-8a85-1364b6111ab5"@,
    {
        Self::from_static("f2daaa7f-5bd0-46fc-b00c-feb970675125", "586e6852-0e69-40cd-8a85-1364b6111ab5")
    }

    #[allow(non_snake_case)]
    pub fn OBITUARY_HEAVIES() -> (r: Self)
        ensures
            r.asset_id@ == "e3681516-2930-491c-b94f-7dbfa161e000"@,
            r.version_id@ == "4ee8fc3e-cdca-44d7-8e59-d677d7afaa60"@,
    {
        Self::from_static("e3681516-2930-491c-b94f-7dbfa161e000", "4ee8fc3e-cdca-44d7-8e59-d677d7afaa60")
    }

    #[allow(non_snake_case)]
    pub fn OPULENCE() -> (r: Self)
        ensures
            r.asset_id@ == "255bbe78-b191-476e-b0ae-0763c3bc2f44"@,
            r.version_id@ == "b29f6e87-b4ce-4423-8277-e749bedbb813"@,
    {
        Self::from_static("255bbe78-b191-476e-b0ae-0763c3bc2f44", "b29f6e87-b4ce-4423-8277-e749bedbb813")
    }

    #[allow(non_snake_case)]
    pub fn ORIGIN_RANKED() -> (r: Self)
        ensures
            r.asset_id@ == "46a8319c-2c63-46ee-9382-788906dcb049"@,
            r.version_id@ == "82e20c0a-ca3d-450a-a797-f5ed277a7dc2"@,
    {
        Self::from_static("46a8319c-2c63-46ee-9382-788906dcb049", "82e20c0a-ca3d-450a-a797-f5ed277a7dc2")
    }

    #[allow(non_snake_case)]
    pub fn PERDITION() -> (r: Self)
        ensures
            r.asset_id@ == "be8131fc-8839-4448-b65c-1fb46dd077ef"@,
            r.version_id@ == "a63fe01d-a1c2-4955-8ec3-d8666fb31496"@,
    {
        Self::from_static("be8131fc-8839-4448-b65c-1fb46dd077ef", "a63fe01d-a1c2-4955-8ec3-d8666fb31496")
    }

    #[allow(non_snake_case)]
    pub fn PERILOUS() -> (r: Self)
        ensures
            r.asset_id@ == "c5ac9f12-660e-4f1a-83e7-2e7536bbcb04"@,
            r.version_id@ == "7c5df4a3-5c39-4984-a483-84f2c78190f3"@,
    {
        Self::from_static("c5ac9f12-660e-4f1a-83e7-2e7536bbcb04", "7c5df4a3-5c39-4984-a483-84f2c78190f3")
    }

    #[allow(non_snake_case)]
    pub fn PRISM() -> (r: Self)
        ensures
            r.asset_id@ == "2fdb8370-e5ac-4a1a-bdce-a08bc738b9ad"@,
            r.version_id@ == "867d213f-2e3a-436b-8dfd-6f0347decbb7"@,
    {
        Self::from_static("2fdb8370-e5ac-4a1a-bdce-a08bc738b9ad", "867d213f-2e3a-436b-8dfd-6f0347decbb7")
    }

    #[allow(non_snake_case)]
    pub fn PROMENADE() -> (r: Self)
        ensures
            r.asset_id@ == "6edb3f62-aed7-49a5-b4c0-b44e9d010854"@,
            r.version_id@ == "4e1f18d0-e085-46f9-9cd2-c302e74ddb50"@,
    {
        Self::from_static("6edb3f62-aed7-49a5-b4c0-b44e9d010854", "4e1f18d0-e085-46f9-9cd2-c302e74ddb50")
    }

    #[allow(non_snake_case)]
    pub fn RAT_S_NEST() -> (r: Self)
        ensures
            r.asset_id@ == "133c0185-24ed-4bc2-b834-62db5c936257"@,
            r.version_id@ == "cfc6d71c-306b-4088-abc0-cadd8754a8a1"@,
    {
        Self::from_static("133c0185-24ed-4bc2-b834-62db5c936257", "cfc6d71c-306b-4088-abc0-cadd8754a8a1")
    }

    #[allow(non_snake_case)]
    pub fn RECHARGE() -> (r: Self)
        ensures
            r.asset_id@ == "2b6d2baf-7645-4e16-8a80-c7006f595812"@,
            r.version_id@ == "03134a7d-1dd1-499a-a7e1-3d1319eca633"@,
    {
        Self::from_static("2b6d2baf-7645-4e16-8a80-c7006f595812", "03134a7d-1dd1-499a-a7e1-3d1319eca633")
    }

    #[allow(non_snake_case)]
    pub fn RECHARGE_RANKED() -> (r: Self)
        ensures
            r.asset_id@ == "336b5174-3579-4fd8-b2f0-922e4a5f7628"@,
            r.version_id@ == "c0c6705e-167b-4335-afe0-2bafc7290f40"@,
    {
        Self::from_static("336b5174-3579-4fd8-b2f0-922e4a5f7628", "c0c6705e-167b-4335-afe0-2bafc7290f40")
    }

    #[allow(non_snake_case)]
    pub fn RECOVERY() -> (r: Self)
        ensures
            r.asset_id@ == "1bc0e2a7-9d6d-4771-9574-9978e7c9292c"@,
            r.version_id@ == "bc4a3d27-ec96-49af-8ae0-98015f548397"@,
    {
        Self::from_static("1bc0e2a7-9d6d-4771-9574-9978e7c9292c", "bc4a3d27-ec96-49af-8ae0-98015f548397")
    }

    #[allow(non_snake_case)]
    pub fn REFUGE() -> (r: Self)
        ensures
            r.asset_id@ == "41217472-3020-4bd8-bce9-b2a2b0d50896"@,
            r.version_id@ == "99c96da2-961a-4436-8d29-9e2a17a16c7f"@,
    {
        Self::from_static("41217472-3020-4bd8-bce9-b2a2b0d50896", "99c96da2-961a-4436-8d29-9e2a17a16c7f")
    }

    #[allow(non_snake_case)]
    pub fn REFUGE_HEAVIES() -> (r: Self)
        ensures
            r.asset_id@ == "8aa45646-d527-47cc-affe-deac726a4af5"@,
            r.version_id@ == "4fde7a23-b792-4d81-a495-7c0b03c47834"@,
    {
        Self::from_static("8aa45646-d527-47cc-affe-deac726a4af5", "4fde7a23-b792-4d81-a495-7c0b03c47834")
    }

    #[allow(non_snake_case)]
    pub fn RENDEZVOUS() -> (r: Self)
        ensures
            r.asset_id@ == "a778ae21-a8ae-4569-acb5-898efbd4b3f3"@,
            r.version_id@ == "4ebe71cd-9001-4fcf-bb71-d29bded96b7b"@,
    {
        Self::from_static("a778ae21-a8ae-4569-acb5-898efbd4b3f3", "4ebe71cd-9001-4fcf-bb71-d29bded96b7b")
    }

    #[allow(non_snake_case)]
    pub fn SALVATION() -> (r: Self)
        ensures
            r.asset_id@ == "cd08bc7a-7ba5-4502-be87-c58b641fc94d"@,
            r.version_id@ == "ef803442-9dbe-4ac3-b848-8eba21d4845b"@,
    {
        Self::from_static("cd08bc7a-7ba5-4502-be87-c58b641fc94d", "ef803442-9dbe-4ac3-b848-8eba21d4845b")
    }

    #[allow(non_snake_case)]
    pub fn SCARR() -> (r: Self)
        ensures
            r.asset_id@ == "ccb81e1f-ce22-4017-97bb-f46b181eb8f7"@,
            r.version_id@ == "e6e10a2f-c35f-49ed-954b-24e6c5fdfb38"@,
    {
        Self::from_static("ccb81e1f-ce22-4017-97bb-f46b181eb8f7", "e6e10a2f-c35f-49ed-954b-24e6c5fdfb38")
    }

    #[allow(non_snake_case)]
    pub fn SCARR_HEAVIES() -> (r: Self)
        ensures
            r.asset_id@ == "c5d5e3f4-6021-4590-aacc-a78333be6ea0"@,
            r.version_id@ == "4bd03ddc-597b-43aa-9449-9484c4b6cde4"@,
    {
        Self::from_static("c5d5e3f4-6021-4590-aacc-a78333be6ea0", "4bd03ddc-597b-43aa-9449-9484c4b6cde4")
    }

    #[allow(non_snake_case)]
    pub fn SCARR_SENTRY_DEFENSE() -> (r: Self)
        ensures
            r.asset_id@ == "64511055-6442-4797-8ec4-028c33996fe6"@,
            r.version_id@ == "7eab053a-bcf2-4afa-8cad-9ceed63f4d2f"@,
    {
        Self::from_static("64511055-6442-4797-8ec4-028c33996fe6", "7eab053a-bcf2-4afa-8cad-9ceed63f4d2f")
    }

    #[allow(non_snake_case)]
    pub fn SERENITY_RANKED() -> (r: Self)
        ensures
            r.asset_id@ == "1de0bf60-e446-4fb9-970f-d0e54fc6c74a"@,
            r.version_id@ == "10f3c5bd-8eb7-4bad-8360-a66a581715ce"@,
    {
        Self::from_static("1de0bf60-e446-4fb9-970f-d0e54fc6c74a", "10f3c5bd-8eb7-4bad-8360-a66a581715ce")
    }

    #[allow(non_snake_case)]
    pub fn SHIRO() -> (r: Self)
        ensures
            r.asset_id@ == "2890782c-0a33-4f2c-a468-e3a7d6cd6db4"@,
            r.version_id@ == "eeec3be0-1bdf-4703-96dd-2633280c96c8"@,
    {
        Self::from_static("2890782c-0a33-4f2c-a468-e3a7d6cd6db4", "eeec3be0-1bdf-4703-96dd-2633280c96c8")
    }

    #[allow(non_snake_case)]
    pub fn SNOWBOUND() -> (r: Self)
        ensures
            r.asset_id@ == "410f1c01-aca6-4567-9df5-9b16bd550cb2"@,
            r.version_id@ == "e7aa799d-7007-4ab8-a5b6-08926f768c2c"@,
    {
        Self::from_static("410f1c01-aca6-4567-9df5-9b16bd550cb2", "e7aa799d-7007-4ab8-a5b6-08926f768c2c")
    }

    #[allow(non_snake_case)]
    pub fn SOLITUDE() -> (r: Self)
        ensures
            r.asset_id@ == "f1cc3b4e-471c-4ec5-b855-1db7d9e6ce42"@,
            r.version_id@ == "cc6dfb16-7782-4995-a74a-98e86051fcdf"@,
    {
        Self::from_static("f1cc3b4e-471c-4ec5-b855-1db7d9e6ce42", "cc6dfb16-7782-4995-a74a-98e86051fcdf")
    }

    #[allow(non_snake_case)]
    pub fn SOLITUDE_RANKED() -> (r: Self)
        ensures
            r.asset_id@ == "4a5e5612-2b2e-4375-a0b3-9335a68815f3"@,
            r.version_id@ == "77710e1b-d9bc-42fd-a74b-918c27387783"@,
    {
        Self::from_static("4a5e5612-2b2e-4375-a0b3-9335a68815f3", "77710e1b-d9bc-42fd-a74b-918c27387783")
    }

    #[allow(non_snake_case)]
    pub fn STARBOARD() -> (r: Self)
        ensures
            r.asset_id@ == "7a9265af-a880-487b-8829-68d88fcfb145"@,
            r.version_id@ == "6147aa00-84e8-44ac-93c0-8638506349f1"@,
    {
        Self::from_static("7a9265af-a880-487b-8829-68d88fcfb145", "6147aa00-84e8-44ac-93c0-8638506349f1")
    }

    #[allow(non_snake_case)]
    pub fn STREETS() -> (r: Self)
        ensures
            r.asset_id@ == "9c7b0b0f-e933-4c2d-9d4a-3e4500d0de99"@,
            r.version_id@ == "f39c10d7-e191-42be-b9c5-1502ccd2eb7a"@,
    {
        Self::from_static("9c7b0b0f-e933-4c2d-9d4a-3e4500d0de99", "f39c10d7-e191-42be-b9c5-1502ccd2eb7a")
    }

    #[allow(non_snake_case)]
    pub fn STREETS_RANKED() -> (r: Self)
        ensures
            r.asset_id@ == "e23ea388-9bcb-4180-a0dc-fbe987751b9e"@,
            r.version_id@ == "bc130bc8-6610-458d-b04a-ead6392824c4"@,
    {
        Self::from_static("e23ea388-9bcb-4180-a0dc-fbe987751b9e", "bc130bc8-6610-458d-b04a-ead6392824c4")
    }

    #[allow(non_snake_case)]
    pub fn SUNKEN() -> (r: Self)
        ensures
            r.asset_id@ == "b66992eb-0bc9-4ec5-8e43-f850cb7317f3"@,
            r.version_id@ == "469500ac-d9e9-44de-9cff-b3b2758e5c1e"@,
    {
        Self::from_static("b66992eb-0bc9-4ec5-8e43-f850cb7317f3", "469500ac-d9e9-44de-9cff-b3b2758e5c1e")
    }

    #[allow(non_snake_case)]
    pub fn SYLVANUS() -> (r: Self)
        ensures
            r.asset_id@ == "95b69e4b-485f-4c6c-9b00-4bd68c94c1e9"@,
            r.version_id@ == "d6a434d9-0860-451f-a971-e9cfead782ae"@,
    {
        Self::from_static("95b69e4b-485f-4c6c-9b00-4bd68c94c1e9", "d6a434d9-0860-451f-a971-e9cfead782ae")
    }

    #[allow(non_snake_case)]
    pub fn THRESHOLD() -> (r: Self)
        ensures
            r.asset_id@ == "ddbb3a00-b109-4703-af07-00433512af38"@,
            r.version_id@ == "1e198b75-0371-4904-b44e-59af97c17d7d"@,
    {
        Self::from_static("ddbb3a00-b109-4703-af07-00433512af38", "1e198b75-0371-4904-b44e-59af97c17d7d")
    }

    #[allow(non_snake_case)]
    pub fn THUNDERHEAD() -> (r: Self)
        ensures
            r.asset_id@ == "28a3ac28-f69d-4fa9-9ebf-a0449c89c8da"@,
            r.version_id@ == "5f93b32d-cdae-4742-b4ad-09bc3e0720f0"@,
    {
        Self::from_static("28a3ac28-f69d-4fa9-9ebf-a0449c89c8da", "5f93b32d-cdae-4742-b4ad-09bc3e0720f0")
    }

    #[allow(non_snake_case)]
    pub fn THUNDERHEAD_ASSAULT() -> (r: Self)
        ensures
            r.asset_id@ == "97361eb7-cf18-468a-8152-5b8fafcb27e4"@,
            r.version_id@ == "2264b3a7-5969-43f3-892d-225299d48159"@,
    {
        Self::from_static("97361eb7-cf18-468a-8152-5b8fafcb27e4", "2264b3a7-5969-43f3-892d-225299d48159")
    }

    #[allow(non_snake_case)]
    pub fn THUNDERHEAD_HEAVIES() -> (r: Self)
        ensures
            r.asset_id@ == "37bc3df6-93e8-4d74-b16e-5ceaa30ebc23"@,
            r.version_id@ == "7deeaaa6-5487-4bc4-bc6e-c9e94041968f"@,
    {
        Self::from_static("37bc3df6-93e8-4d74-b16e-5ceaa30ebc23", "7deeaaa6-5487-4bc4-bc6e-c9e94041968f")
    }

    #[allow(non_snake_case)]
    pub fn TIMBERLAND_EVOLVED() -> (r: Self)
        ensures
            r.asset_id@ == "1231d3f0-2363-4d28-8047-717a069fb0e4"@,
            r.version_id@ == "c6fd3ecd-e503-42b9-9437-389e72db33d8"@,
    {
        Self::from_static("1231d3f0-2363-4d28-8047-717a069fb0e4", "c6fd3ecd-e503-42b9-9437-389e72db33d8")
    }

    #[allow(non_snake_case)]
    pub fn VACANCY_RANKED() -> (r: Self)
        ensures
            r.asset_id@ == "6a1e8432-88ae-4430-8f7d-9ffefc97cc8d"@,
            r.version_id@ == "97a448f9-0734-426b-ab10-b67fbd75f85f"@,
    {
        Self::from_static("6a1e8432-88ae-4430-8f7d-9ffefc97cc8d", "97a448f9-0734-426b-ab10-b67fbd75f85f")
    }

    #[allow(non_snake_case)]
    pub fn VALLAHEIM() -> (r: Self)
        ensures
            r.asset_id@ == "688c2033-35de-461e-9394-a32c665c964c"@,
            r.version_id@ == "353a79a0-831d-4c27-9496-799d111b5b89"@,
    {
        Self::from_static("688c2033-35de-461e-9394-a32c665c964c", "353a79a0-831d-4c27-9496-799d111b5b89")
    }

    #[allow(non_snake_case)]
    pub fn WATERWORKS() -> (r: Self)
        ensures
            r.asset_id@ == "0661af5e-8b6d-44c0-bb7c-9c76cdcc624d"@,
            r.version_id@ == "1b61d905-687d-4041-86a1-beb5259c6cff"@,
    {
        Self::from_static("0661af5e-8b6d-44c0-bb7c-9c76cdcc624d", "1b61d905-687d-4041-86a1-beb5259c6cff")
    }

    #[allow(non_snake_case)]
    pub fn WATERWORKS_ASSAULT() -> (r: Self)
        ensures
            r.asset_id@ == "68df8895-7f8c-4668-8624-92f35f9559f6"@,
            r.version_id@ == "07fc5222-2af1-4373-933a-2ed679f21501"@,
    {
        Self::from_static("68df8895-7f8c-4668-8624-92f35f9559f6", "07fc5222-2af1-4373-933a-2ed679f21501")
    }

    #[allow(non_snake_case)]
    pub fn WAVELENGTH() -> (r: Self)
        ensures
            r.asset_id@ == "72339fd1-c61a-4cbb-a876-0ffdb877a899"@,
            r.version_id@ == "cd8bf101-9e9c-40d7-a048-e6647e94a12f"@,
    {
        Self::from_static("72339fd1-c61a-4cbb-a876-0ffdb877a899", "cd8bf101-9e9c-40d7-a048-e6647e94a12f")
    }

    #[allow(non_snake_case)]
    pub fn YOSAI() -> (r: Self)
        ensures
            r.asset_id@ == "b902c6a0-6140-40bd-afc3-74b9e0a5916c"@,
            r.version_id@ == "fbd54b72-4d1e-4605-b8ee-1c7c9b2e982b"@,
    {
        Self::from_static("b902c6a0-6140-40bd-afc3-74b9e0a5916c", "fbd54b72-4d1e-4605-b8ee-1c7c9b2e982b")
    }

    /// Creates a map ID from an asset GUID and immutable version GUID.
    pub fn new(asset_id: &str, version_id: &str) -> (r: Self)
        ensures
            r.asset_id@ == asset_id@,
            r.version_id@ == version_id@,
    {
        MapId { asset_id: owned(asset_id), version_id: owned(version_id) }
    }

    fn from_static(asset_id: &'static str, version_id: &'static str) -> (r: Self)
        ensures
            r.asset_id@ == asset_id@,
            r.version_id@ == version_id@,
    {
        Self::new(asset_id, version_id)
    }

    pub fn asset_id(&self) -> (r: &str)
        ensures
            r@ == self.asset_id@,
    {
        self.asset_id.as_str()
    }

    pub fn version_id(&self) -> (r: &str)
        ensures
            r@ == self.version_id@,
    {
        self.version_id.as_str()
    }
}

/// A UGC asset envelope with no kind-specific `CustomData` typed yet.
///
/// Halo's asset envelope (asset id, version id, name, description, files) is uniform across
/// kinds; only `CustomData` varies. Kinds without a bespoke wrapper (see
/// [`HaloInfiniteClient::map`](crate::clients::hi::HaloInfiniteClient::map)/
/// [`HaloInfiniteClient::mode`](crate::clients::hi::HaloInfiniteClient::mode) for kinds that do)
/// deserialize via this type, which ignores whatever `CustomData` the response carries.
#[derive(Debug, Clone)]
pub struct UgcAsset {
    pub asset: AssetLink,
}

/// Response body from the playlist CSR endpoint.
#[derive(Debug, Clone)]
pub struct CsrRecords {
    pub records: Vec<CsrRecord>,
}

#[derive(Debug, Clone)]
pub struct CsrRecord {
    pub id: String,
    pub result_code: i32,
    pub result: CsrRecordResult,
}

#[derive(Debug, Clone)]
pub struct CsrRecordResult {
    pub current: CsrRecordRanking,
    pub season_max: CsrRecordRanking,
    pub peak: CsrRecordRanking,
}

#[derive(Debug, Clone, Default)]
pub struct CsrRecordRanking {
    /// Numeric CSR value, or `-1` if the player is unranked in this playlist.
    pub value: i32,
    pub measurement_matches_remaining: i32,
    pub tier: String,
    pub tier_start: i32,
    /// 0-indexed sub-tier within `tier`. Not meaningful for Onyx, which reports `value`.
    pub sub_tier: i32,
    pub next_tier: String,
    pub next_tier_start: i32,
    pub next_sub_tier: i32,
    pub initial_measurement_matches: i32,
    pub demotion_protection_matches_remaining: i32,
    pub initial_demotion_protection_matches: i32,
}

#[derive(Debug, Clone)]
pub struct MatchesPrivacy {
    pub matchmade_games: i32,
    pub other_games: i32,
}

#[derive(Debug, Clone)]
pub struct MatchPlaylist {
    pub asset_id: String,
}

#[derive(Debug, Clone)]
pub struct MatchAssetLink {
    pub asset_id: String,
    pub version_id: String,
    pub asset_kind: i32,
}

/// The per-player part of a match's scoreboard that the library reads: players and
/// their per-team core statistics. Times and fractional ratios stay with the caller.
#[derive(Debug, Clone)]
pub struct MatchStats {
    pub match_id: String,
    pub players: Vec<MatchPlayer>,
    pub teams: Vec<MatchTeam>,
}

#[derive(Debug, Clone)]
pub struct MatchPlayer {
    pub player_id: String,
    /// Player type code. `1` denotes a human; bots use other values.
    pub player_type: i32,
    pub bot_attributes: Option<BotAttributes>,
    pub last_team_id: i32,
    pub outcome: MatchOutcome,
    pub rank: i32,
    pub team_stats: Vec<PlayerTeamStats>,
}

impl MatchPlayer {
    /// Whether this is a human player rather than a bot.
    pub fn is_human(&self) -> (r: bool)
        ensures
            r == (self.player_type == 1),
    {
        self.player_type == 1
    }
}

#[derive(Debug, Clone)]
pub struct PlayerTeamStats {
    pub team_id: i32,
    pub stats: MatchStatsBlock,
}

#[derive(Debug, Clone)]
pub struct MatchTeam {
    pub team_id: i32,
    pub outcome: MatchOutcome,
    pub rank: i32,
    pub stats: MatchStatsBlock,
}

#[derive(Debug, Clone)]
pub struct MatchStatsBlock {
    pub core: MatchCoreStats,
}

/// Per-player or per-team integer core stats for a single match.
#[derive(Debug, Clone)]
pub struct MatchCoreStats {
    pub score: i64,
    pub personal_score: i64,
    pub rounds_won: i64,
    pub rounds_lost: i64,
    pub rounds_tied: i64,
    pub kills: i64,
    pub deaths: i64,
    pub assists: i64,
    pub suicides: i64,
    pub betrayals: i64,
    /// Average life duration, as an ISO-8601 duration string.
    pub average_life_duration: String,
    pub grenade_kills: i64,
    pub headshot_kills: i64,
    pub melee_kills: i64,
    pub power_weapon_kills: i64,
    pub shots_fired: i64,
    pub shots_hit: i64,
    pub damage_dealt: i64,
    pub damage_taken: i64,
    pub callout_assists: i64,
    pub vehicle_destroys: i64,
    pub driver_assists: i64,
    pub hijacks: i64,
    pub emp_assists: i64,
    pub max_killing_spree: i64,
    pub medals: Vec<StatAward>,
    pub personal_scores: Vec<StatAward>,
    pub spawns: i64,
    pub objectives_completed: i64,
}

/// Theater-film metadata and downloadable chunk inventory for a match.
#[derive(Debug, Clone)]
pub struct FilmManifest {
    pub status: i32,
    pub custom_data: FilmCustomData,
    pub blob_storage_path_prefix: String,
    pub asset_id: String,
}

#[derive(Debug, Clone)]
pub struct FilmCustomData {
    pub film_length: i64,
    pub chunks: Vec<FilmChunk>,
    pub has_game_ended: bool,
    pub manifest_refresh_seconds: i64,
    pub match_id: String,
    pub film_major_version: i32,
}

#[derive(Debug, Clone)]
pub struct FilmChunk {
    pub index: i32,
    pub start_time_offset_ms: i64,
    pub duration_ms: i64,
    pub size: i64,
    pub file_relative_path: String,
    pub chunk_type: i32,
}

#[derive(Debug, Clone)]
pub struct FilmChunkData {
    pub metadata: FilmChunk,
    /// Decompressed film data.
    pub data: Vec<u8>,
}

#[derive(Debug, Clone, Default)]
pub struct StatAward {
    pub name_id: i64,
    pub count: i64,
    pub total_personal_score_awarded: i64,
}

#[derive(Debug, Clone)]
pub struct UserInfo {
    pub xuid: String,
    pub gamertag: String,
    pub gamerpic: Gamerpic,
}

/// Response from the authenticated `/users/me` lookup on `comms.svc.halowaypoint.com`.
///
/// Only `xuid` is confirmed by community reverse-engineering for this specific authority — it is
/// a sibling of, but distinct from, `profile.svc.halowaypoint.com`'s own `/users/{xuid}` lookup
/// (typed as [`UserInfo`]). Other fields this endpoint may carry (gamertag, gamerpic) have not
/// been independently verified here, so they are intentionally omitted rather than guessed; use
/// [`HaloInfiniteClient::user`](crate::clients::hi::HaloInfiniteClient::user) if a gamertag or
/// gamerpic is needed.
#[derive(Debug, Clone)]
pub struct CurrentUser {
    pub xuid: String,
}

#[derive(Debug, Clone)]
pub struct Gamerpic {
    pub small: String,
    pub medium: String,
    pub large: String,
    pub xlarge: String,
}

#[derive(Debug, Clone)]
pub struct EmblemConfiguration {
    pub emblem_path: String,
    pub configuration_id: i64,
}

/// An emblem applied to an armor, weapon, or vehicle location.
#[derive(Debug, Clone)]
pub struct CustomizationEmblem {
    pub path: String,
    pub location_id: i64,
    pub configuration_id: i64,
}

#[derive(Debug, Clone)]
pub struct EmblemImageAssets {
    pub emblem_cms_path: String,
    pub nameplate_cms_path: String,
    pub text_color: String,
}

/// Display metadata for a customization inventory item or core.
#[derive(Debug, Clone)]
pub struct CustomizationItemMetadata {
    pub common_data: CustomizationItemCommonData,
    /// Configuration variants available for this item (emblems only). Some emblems' *equipped*
    /// configuration ID is negative — an internal "Test" palette with no image on the CDN — even
    /// though the item itself has other, positive configuration IDs that do resolve to real
    /// images. See [`Self::first_positive_configuration_id`].
    pub available_configurations: Vec<CustomizationConfiguration>,
}

#[derive(Debug, Clone)]
pub struct CustomizationConfiguration {
    pub configuration_id: i64,
}

#[derive(Debug, Clone)]
pub struct CustomizationItemCommonData {
    pub title: LocalizedText,
    pub display_path: Option<CustomizationDisplayPath>,
}

#[derive(Debug, Clone)]
pub struct CustomizationDisplayPath {
    pub media: CustomizationMedia,
}

#[derive(Debug, Clone)]
pub struct CustomizationMedia {
    pub media_url: CustomizationMediaUrl,
}

#[derive(Debug, Clone)]
pub struct CustomizationMediaUrl {
    pub path: String,
}

#[derive(Debug, Clone)]
pub struct BanMessage {
    pub title: String,
    pub display_message: LocalizedText,
}

#[derive(Debug, Clone)]
pub struct LocalizedText {
    pub status: String,
    pub value: String,
    pub translations: BTreeMap<String, String>,
}

#[derive(Debug, Clone)]
pub struct CareerRank {
    pub reward_track_path: String,
}

#[derive(Debug, Clone)]
pub struct PlaylistMetadata {
    pub name_hint: String,
    pub ugc_playlist_version: String,
    pub has_csr: bool,
}

#[derive(Debug, Clone)]
pub struct AssetLink {
    pub asset_id: String,
    pub version_id: String,
    pub public_name: String,
    pub description: String,
    pub files: Option<AssetFiles>,
}

#[derive(Debug, Clone)]
pub struct AssetFiles {
    pub prefix: String,
    pub relative_paths: Vec<String>,
}

#[derive(Debug, Clone)]
pub struct MapModePairAsset {
    pub asset: AssetLink,
    pub map: AssetLink,
    pub mode: AssetLink,
}

#[derive(Debug, Clone)]
pub struct MapAsset {
    pub asset: AssetLink,
    pub custom_data: MapCustomData,
}

#[derive(Debug, Clone)]
pub struct MapCustomData {
    pub object_count: i64,
    pub tag_level_id: i64,
    pub is_baked: bool,
    pub has_node_graph: bool,
}

/// Match counts across the different game experiences for a player.
#[derive(Debug, Clone, Default)]
pub struct MatchCount {
    pub custom: i64,
    pub total: i64,
    pub matchmade: i64,
    pub local: i64,
}

/// A player's progress on a reward track (career rank or operation pass).
#[derive(Debug, Clone, Default)]
pub struct RewardTrackProgress {
    pub rank: i32,
    pub partial_progress: i64,
    pub has_reached_max_rank: bool,
}

/// A player's current career-rank progression.
#[derive(Debug, Clone, Default)]
pub struct PlayerCareerRank {
    pub current_progress: RewardTrackProgress,
    pub spartan_id: Option<String>,
}

/// Response body from the batch career-rank endpoint, keyed by player.
///
/// Unlike [`HaloInfiniteClient::career_rank`](crate::HaloInfiniteClient::career_rank), this
/// endpoint works for any player, not just the authenticated one.
#[derive(Debug, Clone, Default)]
pub struct CareerRanks {
    pub records: Vec<CareerRankRecord>,
}

#[derive(Debug, Clone)]
pub struct CareerRankRecord {
    pub id: String,
    pub result_code: String,
    pub result: PlayerCareerRank,
}

/// A player's owned and available operation passes.
#[derive(Debug, Clone, Default)]
pub struct PlayerOperationPasses {
    pub active_operation_reward_track_path: Option<String>,
    pub operation_reward_tracks: Vec<PlayerOperationPass>,
}

#[derive(Debug, Clone)]
pub struct PlayerOperationPass {
    pub reward_track_path: String,
    pub is_owned: bool,
    pub current_progress: RewardTrackProgress,
}

/// A single challenge within a [`ChallengeDeck`].
///
/// Fields beyond `path`/`progress`/`id`/`can_reroll` are only populated on upcoming challenges.
#[derive(Debug, Clone, Default)]
pub struct Challenge {
    pub path: String,
    pub progress: i32,
    pub id: String,
    pub can_reroll: bool,
    pub difficulty: Option<String>,
    pub type_icon_path: Option<String>,
    pub is_user_event: Option<bool>,
    pub category: Option<String>,
    pub description: Option<LocalizedText>,
    pub title: Option<LocalizedText>,
    pub threshold_for_success: Option<i32>,
    pub reward: Option<ChallengeReward>,
    pub secondary_reward: Option<ChallengeReward>,
}

#[derive(Debug, Clone, Default)]
pub struct ChallengeReward {
    pub inventory_items: Vec<String>,
    pub soft_experience: i64,
    pub operation_experience: i64,
}

/// The reward-track summary embedded in [`PlayerChallengeDecks`].
///
/// Distinct from [`RewardTrackProgress`]/[`PlayerOperationPass`] — this endpoint's embedded
/// summary carries extra fields (`track_type`, `previous_progress`, `base_xp`, `boost_xp`) those
/// don't return, so it is not reused as either of them.
#[derive(Debug, Clone, Default)]
pub struct ChallengeRewardTrack {
    pub reward_track_path: String,
    pub track_type: String,
    pub current_progress: i64,
    pub previous_progress: i64,
    pub is_owned: bool,
    pub base_xp: i64,
    pub boost_xp: i64,
    pub has_reached_max_rank: bool,
}

/// The career-rank reward-track definition from the Game CMS.
#[derive(Debug, Clone, Default)]
pub struct CareerRewardTrack {
    pub track_id: String,
    pub xp_per_rank: i64,
    pub ranks: Vec<RewardTrackRank>,
}

/// An operation (battle pass) reward-track definition from the Game CMS.
#[derive(Debug, Clone, Default)]
pub struct OperationRewardTrack {
    pub name: Option<LocalizedText>,
    pub description: Option<LocalizedText>,
    pub xp_per_rank: i64,
    pub ranks: Vec<RewardTrackRank>,
}

/// One rank tier within a reward track, with the rewards granted at that rank.
///
/// For the career-rank track specifically, this also carries the rank's display title, tier,
/// and icon paths (e.g. "Bronze Cadet 1"), which [`PlayerCareerRank::current_progress`]'s numeric
/// rank does not include on its own.
#[derive(Debug, Clone, Default)]
pub struct RewardTrackRank {
    pub rank: i32,
    pub xp_required_for_rank: i64,
    pub free_rewards: RankRewards,
    pub paid_rewards: RankRewards,
    /// The rank's title, e.g. "Cadet" (career rank only).
    pub rank_title: Option<LocalizedText>,
    /// The rank's grade within its title, e.g. "1" (career rank only).
    pub rank_sub_title: Option<LocalizedText>,
    /// The rank's tier name, e.g. "Bronze" (career rank only).
    pub rank_tier: Option<LocalizedText>,
    /// The rank's tier identifier, e.g. "TierBronze" (career rank only).
    pub tier_type: Option<String>,
    /// CMS path to the small rank icon (career rank only).
    pub rank_icon: Option<String>,
    /// CMS path to the large rank icon (career rank only).
    pub rank_large_icon: Option<String>,
    /// CMS path to the rank adornment icon (career rank only).
    pub rank_adornment_icon: Option<String>,
    /// The rank's numeric grade within its title, e.g. `1` (career rank only).
    pub rank_grade: Option<i32>,
}

#[derive(Debug, Clone, Default)]
pub struct RankRewards {
    pub inventory_rewards: Vec<InventoryReward>,
    pub currency_rewards: Vec<CurrencyReward>,
}

#[derive(Debug, Clone)]
pub struct InventoryReward {
    pub inventory_item_path: String,
    pub amount: i64,
    pub reward_type: String,
}

#[derive(Debug, Clone)]
pub struct CurrencyReward {
    pub currency_path: String,
    pub amount: i64,
}

/// A player's CSR before and after the match.
#[derive(Debug, Clone, Default)]
pub struct RankRecap {
    pub pre_match_csr: CsrRecordRanking,
    pub post_match_csr: CsrRecordRanking,
}

#[derive(Debug, Clone, Default)]
pub struct BombStats {
    pub bomb_carriers_killed: i64,
    pub bomb_defusals: i64,
    pub bomb_defusers_killed: i64,
    pub bomb_detonations: i64,
    pub bomb_pick_ups: i64,
    pub bomb_plants: i64,
    pub bomb_returns: i64,
    pub kills_as_bomb_carrier: i64,
    pub time_as_bomb_carrier: String,
}

#[derive(Debug, Clone, Default)]
pub struct CaptureTheFlagStats {
    pub flag_capture_assists: i64,
    pub flag_captures: i64,
    pub flag_carriers_killed: i64,
    pub flag_grabs: i64,
    pub flag_returners_killed: i64,
    pub flag_returns: i64,
    pub flag_secures: i64,
    pub flag_steals: i64,
    pub kills_as_flag_carrier: i64,
    pub kills_as_flag_returner: i64,
    pub time_as_flag_carrier: String,
}

/// Elimination stats. The per-match block additionally carries `LivesRemaining` and
/// `EliminationOrder`, which the service-record aggregate omits.
#[derive(Debug, Clone, Default)]
pub struct EliminationStats {
    pub allies_revived: i64,
    pub elimination_assists: i64,
    pub eliminations: i64,
    pub enemy_revives_denied: i64,
    pub executions: i64,
    pub kills_as_last_player_standing: i64,
    pub last_players_standing_killed: i64,
    pub rounds_survived: i64,
    pub times_revived_by_ally: i64,
    pub lives_remaining: Option<i64>,
    pub elimination_order: i64,
}

#[derive(Debug, Clone, Default)]
pub struct ExtractionStats {
    pub extraction_conversions_completed: i64,
    pub extraction_conversions_denied: i64,
    pub extraction_initiations_completed: i64,
    pub extraction_initiations_denied: i64,
    pub successful_extractions: i64,
}

#[derive(Debug, Clone, Default)]
pub struct InfectionStats {
    pub alphas_killed: i64,
    pub infected_killed: i64,
    pub kills_as_last_spartan_standing: i64,
    pub last_spartans_standing_infected: i64,
    pub rounds_as_alpha: i64,
    pub rounds_as_last_spartan_standing: i64,
    pub rounds_finished_as_infected: i64,
    pub rounds_survived_as_last_spartan_standing: i64,
    pub rounds_survived_as_spartan: i64,
    pub spartans_infected: i64,
    pub spartans_infected_as_alpha: i64,
    pub time_as_last_spartan_standing: String,
}

#[derive(Debug, Clone, Default)]
pub struct OddballStats {
    pub kills_as_skull_carrier: i64,
    pub longest_time_as_skull_carrier: String,
    pub skull_carriers_killed: i64,
    pub skull_grabs: i64,
    pub skull_scoring_ticks: i64,
    pub time_as_skull_carrier: String,
}

#[derive(Debug, Clone, Default)]
pub struct StockpileStats {
    pub kills_as_power_seed_carrier: i64,
    pub power_seed_carriers_killed: i64,
    pub power_seeds_deposited: i64,
    pub power_seeds_stolen: i64,
    pub time_as_power_seed_carrier: String,
    pub time_as_power_seed_driver: String,
}

/// Per-match Zones (Strongholds) stats. The service record aggregates these under
/// [`ServiceRecordZonesStats`] with `Zone`-prefixed field names instead.
#[derive(Debug, Clone, Default)]
pub struct ZonesStats {
    pub stronghold_captures: i64,
    pub stronghold_defensive_kills: i64,
    pub stronghold_offensive_kills: i64,
    pub stronghold_secures: i64,
    pub stronghold_occupation_time: String,
    pub stronghold_scoring_ticks: i64,
}

/// Service-record Zones stats, aggregated with `Zone`-prefixed field names (unlike the per-match
/// [`ZonesStats`], which uses `Stronghold` prefixes).
#[derive(Debug, Clone, Default)]
pub struct ServiceRecordZonesStats {
    pub zone_captures: i64,
    pub zone_defensive_kills: i64,
    pub zone_offensive_kills: i64,
    pub zone_secures: i64,
    pub total_zone_occupation_time: String,
    pub zone_scoring_ticks: i64,
}

/// Localized medal metadata catalog from the Game CMS.
#[derive(Debug, Clone, Default)]
pub struct MedalMetadata {
    pub difficulties: Vec<String>,
    pub types: Vec<String>,
    pub sprites: MedalSpriteSheets,
    pub medals: Vec<Medal>,
}

#[derive(Debug, Clone)]
pub struct Medal {
    pub name_id: i64,
    pub name: MedalText,
    pub description: MedalText,
    pub sprite_index: i64,
    pub sorting_weight: i64,
    /// Index into [`MedalMetadata::difficulties`].
    pub difficulty_index: i64,
    /// Index into [`MedalMetadata::types`].
    pub type_index: i64,
    pub personal_score: i64,
}

/// A medal's localized name or description. Unlike [`LocalizedText`], medal strings carry no
/// `status` field.
#[derive(Debug, Clone, Default)]
pub struct MedalText {
    pub value: String,
    pub translations: BTreeMap<String, String>,
}

#[derive(Debug, Clone, Default)]
pub struct MedalSpriteSheets {
    pub small: MedalSpriteSheet,
    pub medium: MedalSpriteSheet,
    pub extra_large: MedalSpriteSheet,
}

#[derive(Debug, Clone, Default)]
pub struct MedalSpriteSheet {
    pub path: String,
    pub columns: i64,
    pub size: i64,
}

/// Ranked reward granted for a match, when present. Halo reports this as `null` in practice.
#[derive(Debug, Clone)]
pub struct RankedRewards {
    pub reward_id: String,
}

/// Bot difficulty attributes, present only for bot players.
#[derive(Debug, Clone, Default)]
pub struct BotAttributes {
    pub difficulty: i32,
}

#[derive(Debug, Clone)]
pub struct Authority {
    pub authority_id: String,
    pub scheme: i32,
    pub hostname: String,
    pub port: i32,
    pub authentication_methods: Vec<i32>,
}

#[derive(Debug, Clone)]
pub struct Endpoint {
    pub authority_id: String,
    pub path: String,
    pub query_string: Option<String>,
    pub retry_policy_id: String,
    pub topic_name: Option<String>,
    pub acknowledgement_type_id: i32,
    pub authentication_lifetime_extension_supported: bool,
    pub clearance_aware: bool,
}

#[derive(Debug, Clone, Copy, PartialEq, Eq, Structural)]
pub enum UgcAssetKind {
    MapAsset,
    Playlist,
    GameMode,
    MapModePair,
    Film,
    Prefab,
    EngineGameVariant,
}

impl UgcAssetKind {
    /// The `assetKind` filter value an asset search expects.
    pub fn as_str(self) -> (r: &'static str)
        ensures
            r == (match self {
                UgcAssetKind::MapAsset => "Map",
                UgcAssetKind::Playlist => "Playlist",
                UgcAssetKind::GameMode => "UgcGameVariant",
                UgcAssetKind::MapModePair => "MapModePair",
                UgcAssetKind::Film => "Film",
                UgcAssetKind::Prefab => "Prefab",
                UgcAssetKind::EngineGameVariant => "EngineGameVariant",
            }),
    {
        match self {
            UgcAssetKind::MapAsset => "Map",
            UgcAssetKind::Playlist => "Playlist",
            UgcAssetKind::GameMode => "UgcGameVariant",
            UgcAssetKind::MapModePair => "MapModePair",
            UgcAssetKind::Film => "Film",
            UgcAssetKind::Prefab => "Prefab",
            UgcAssetKind::EngineGameVariant => "EngineGameVariant",
        }
    }

    /// The `/hi/{kind}/{asset_id}` URL path segment, cased differently from [`Self::as_str`].
    pub fn path_segment(self) -> (r: &'static str)
        ensures
            r == (match self {
                UgcAssetKind::MapAsset => "maps",
                UgcAssetKind::Playlist => "playlists",
                UgcAssetKind::GameMode => "ugcGameVariants",
                UgcAssetKind::MapModePair => "mapModePairs",
                UgcAssetKind::Film => "films",
                UgcAssetKind::Prefab => "prefabs",
                UgcAssetKind::EngineGameVariant => "engineGameVariants",
            }),
    {
        match self {
            UgcAssetKind::MapAsset => "maps",
            UgcAssetKind::Playlist => "playlists",
            UgcAssetKind::GameMode => "ugcGameVariants",
            UgcAssetKind::MapModePair => "mapModePairs",
            UgcAssetKind::Film => "films",
            UgcAssetKind::Prefab => "prefabs",
            UgcAssetKind::EngineGameVariant => "engineGameVariants",
        }
    }
}

/// The rank icon URL of a ranking: the unranked icon for `-1`; `onyx.png` for the
/// Onyx tier (compared lowercased); otherwise `{lowercased tier}-{sub_tier + 1}.png`.
pub open spec fn rank_icon_spec(value: i32, tier: Seq<char>, sub_tier: i32) -> Seq<char> {
    if value == -1 {
        RANK_ICON_BASE_URL@ + "/unranked.png"@
    } else if lowercase(tier) == "onyx"@ {
        RANK_ICON_BASE_URL@ + "/onyx.png"@
    } else {
        RANK_ICON_BASE_URL@ + "/"@ + lowercase(tier) + "-"@ + signed_decimal(sub_tier + 1)
            + ".png"@
    }
}

impl CsrRecordRanking {
    /// Whether the value is the API's `-1` unranked sentinel.
    pub fn is_unranked(&self) -> (r: bool)
        ensures
            r == (self.value == -1),
    {
        self.value == -1
    }

    /// The tier icon URL on tracker.gg's public CDN.
    pub fn rank_icon_url(&self) -> (r: String)
        requires
            self.value != -1 ==> self.sub_tier < i32::MAX,
        ensures
            r@ == rank_icon_spec(self.value, self.tier@, self.sub_tier),
    {
        if self.is_unranked() {
            return Self::unranked_icon_url();
        }
        let tier = str_to_lowercase(self.tier.as_str());
        let mut url = owned(RANK_ICON_BASE_URL);
        if text_eq(tier.as_str(), "onyx") {
            push_str(&mut url, "/onyx.png");
        } else {
            push_str(&mut url, "/");
            push_str(&mut url, tier.as_str());
            push_str(&mut url, "-");
            let n = i64_to_string((self.sub_tier + 1) as i64);
            push_str(&mut url, n.as_str());
            push_str(&mut url, ".png");
        }
        url
    }

    /// The icon for a missing ranking.
    pub fn unranked_icon_url() -> (r: String)
        ensures
            r@ == RANK_ICON_BASE_URL@ + "/unranked.png"@,
    {
        let mut url = owned(RANK_ICON_BASE_URL);
        push_str(&mut url, "/unranked.png");
        url
    }
}

#[derive(Debug, Clone, Copy, PartialEq, Eq, Structural)]
pub enum PrivacySetting {
    Show,
    Hide,
    Unknown(i32),
}

pub open spec fn privacy_spec(code: i32) -> PrivacySetting {
    if code == 1 {
        PrivacySetting::Show
    } else if code == 2 {
        PrivacySetting::Hide
    } else {
        PrivacySetting::Unknown(code)
    }
}

impl PrivacySetting {
    /// `1` shows, `2` hides; other codes are kept as unknown.
    pub fn from_code(code: i32) -> (r: Self)
        ensures
            r == privacy_spec(code),
    {
        match code {
            1 => PrivacySetting::Show,
            2 => PrivacySetting::Hide,
            other => PrivacySetting::Unknown(other),
        }
    }
}

impl MatchesPrivacy {
    pub fn matchmade_setting(&self) -> (r: PrivacySetting)
        ensures
            r == privacy_spec(self.matchmade_games),
    {
        PrivacySetting::from_code(self.matchmade_games)
    }

    pub fn other_setting(&self) -> (r: PrivacySetting)
        ensures
            r == privacy_spec(self.other_games),
    {
        PrivacySetting::from_code(self.other_games)
    }
}

/// A player's or team's result in a completed match.
#[derive(Debug, Clone, Copy, PartialEq, Eq, Structural)]
pub enum MatchOutcome {
    Tie,
    Win,
    Loss,
    DidNotFinish,
    Unknown(i32),
}

pub open spec fn outcome_spec(code: i32) -> MatchOutcome {
    if code == 1 {
        MatchOutcome::Tie
    } else if code == 2 {
        MatchOutcome::Win
    } else if code == 3 {
        MatchOutcome::Loss
    } else if code == 4 {
        MatchOutcome::DidNotFinish
    } else {
        MatchOutcome::Unknown(code)
    }
}

pub open spec fn outcome_code(o: MatchOutcome) -> i32 {
    match o {
        MatchOutcome::Tie => 1,
        MatchOutcome::Win => 2,
        MatchOutcome::Loss => 3,
        MatchOutcome::DidNotFinish => 4,
        MatchOutcome::Unknown(code) => code,
    }
}

impl MatchOutcome {
    /// Outcome codes 1 to 4 are tie, win, loss and did-not-finish.
    pub fn from_code(code: i32) -> (r: Self)
        ensures
            r == outcome_spec(code),
    {
        match code {
            1 => MatchOutcome::Tie,
            2 => MatchOutcome::Win,
            3 => MatchOutcome::Loss,
            4 => MatchOutcome::DidNotFinish,
            other => MatchOutcome::Unknown(other),
        }
    }

    /// The numeric outcome code.
    pub fn code(self) -> (r: i32)
        ensures
            r == outcome_code(self),
    {
        match self {
            MatchOutcome::Tie => 1,
            MatchOutcome::Win => 2,
            MatchOutcome::Loss => 3,
            MatchOutcome::DidNotFinish => 4,
            MatchOutcome::Unknown(code) => code,
        }
    }

    /// Display label.
    pub fn as_str(self) -> (r: &'static str)
        ensures
            r == (match self {
                MatchOutcome::Tie => "Tie",
                MatchOutcome::Win => "Victory",
                MatchOutcome::Loss => "Defeat",
                MatchOutcome::DidNotFinish => "Did not finish",
                MatchOutcome::Unknown(_) => "Unknown",
            }),
    {
        match self {
            MatchOutcome::Tie => "Tie",
            MatchOutcome::Win => "Victory",
            MatchOutcome::Loss => "Defeat",
            MatchOutcome::DidNotFinish => "Did not finish",
            MatchOutcome::Unknown(_) => "Unknown",
        }
    }
}

/// Decoding an outcome code and reading the code back gives the same code.
pub proof fn lemma_outcome_code_roundtrip(code: i32)
    ensures
        outcome_code(outcome_spec(code)) == code,
{
}

impl FilmManifest {
    /// URL of a film chunk below the manifest's storage prefix.
    pub fn chunk_url(&self, chunk: &FilmChunk) -> (r: String)
        ensures
            r@ == url_join(self.blob_storage_path_prefix@, chunk.file_relative_path@),
    {
        join_url(self.blob_storage_path_prefix.as_str(), chunk.file_relative_path.as_str())
    }
}

/// The emblem identifier of an inventory path: the file name after the last `/`,
/// without its `.json` suffix; `None` without that suffix.
pub open spec fn emblem_id_spec(path: Seq<char>) -> Option<Seq<char>> {
    strip_suffix(after_last(path, '/'), ".json"@)
}

fn emblem_id_of(path: &str) -> (r: Option<String>)
    ensures
        match emblem_id_spec(path@) {
            Some(id) => r matches Some(s) && s@ == id,
            None => r is None,
        },
{
    let chars = chars_of(path);
    let name = chars_after_last(&chars, '/');
    match chars_strip_suffix(&name, ".json") {
        Some(stem) => Some(string_from_chars(&stem)),
        None => None,
    }
}

impl CustomizationEmblem {
    pub fn emblem_id(&self) -> (r: Option<String>)
        ensures
            match emblem_id_spec(self.path@) {
                Some(id) => r matches Some(s) && s@ == id,
                None => r is None,
            },
    {
        emblem_id_of(self.path.as_str())
    }
}

impl EmblemConfiguration {
    /// The emblem identifier used by [`EmblemMapping`].
    pub fn emblem_id(&self) -> (r: Option<String>)
        ensures
            match emblem_id_spec(self.emblem_path@) {
                Some(id) => r matches Some(s) && s@ == id,
                None => r is None,
            },
    {
        emblem_id_of(self.emblem_path.as_str())
    }
}

/// Waypoint image assets indexed by emblem identifier and configuration ID. In a
/// well-formed mapping (`mapping_wf`, which `new` and `insert` keep) each emblem
/// identifier appears once and each emblem's configurations are ordered by ID without
/// repeats; lookups compare keys only, so the order of the emblem entries is free.
#[derive(Debug, Clone, Default)]
pub struct EmblemMapping {
    pub emblems: Vec<(String, Vec<(i64, EmblemImageAssets)>)>,
}

/// The configurations of an emblem, by configuration ID.
pub open spec fn configurations_view(v: Seq<(i64, EmblemImageAssets)>) -> Seq<i64> {
    v.map_values(|e: (i64, EmblemImageAssets)| e.0)
}

/// Index of the emblem entry with this identifier, or `-1`.
pub open spec fn emblem_index(emblems: Seq<(String, Vec<(i64, EmblemImageAssets)>)>, id: Seq<char>) -> int
    decreases emblems.len(),
{
    if emblems.len() == 0 {
        -1
    } else if emblems.last().0@ == id {
        emblems.len() - 1
    } else {
        emblem_index(emblems.drop_last(), id)
    }
}

/// Index of the configuration entry with this ID, or `-1`.
pub open spec fn configuration_index(v: Seq<(i64, EmblemImageAssets)>, id: i64) -> int
    decreases v.len(),
{
    if v.len() == 0 {
        -1
    } else if v.last().0 == id {
        v.len() - 1
    } else {
        configuration_index(v.drop_last(), id)
    }
}

/// The assets mapped for an emblem identifier and configuration ID.
pub open spec fn mapping_get(m: EmblemMapping, id: Seq<char>, configuration_id: i64) -> Option<EmblemImageAssets> {
    if emblem_index(m.emblems@, id) < 0 {
        None
    } else if configuration_index(m.emblems@[emblem_index(m.emblems@, id)].1@, configuration_id) < 0 {
        None
    } else {
        Some(m.emblems@[emblem_index(m.emblems@, id)].1@[configuration_index(
            m.emblems@[emblem_index(m.emblems@, id)].1@,
            configuration_id,
        )].1)
    }
}

proof fn lemma_emblem_index_range(emblems: Seq<(String, Vec<(i64, EmblemImageAssets)>)>, id: Seq<char>)
    ensures
        -1 <= emblem_index(emblems, id) < emblems.len(),
    decreases emblems.len(),
{
    if emblems.len() > 0 {
        lemma_emblem_index_range(emblems.drop_last(), id);
    }
}

proof fn lemma_configuration_index_range(v: Seq<(i64, EmblemImageAssets)>, id: i64)
    ensures
        -1 <= configuration_index(v, id) < v.len(),
    decreases v.len(),
{
    if v.len() > 0 {
        lemma_configuration_index_range(v.drop_last(), id);
    }
}

fn find_emblem(emblems: &Vec<(String, Vec<(i64, EmblemImageAssets)>)>, id: &str) -> (r: Option<usize>)
    ensures
        r matches Some(i) ==> i == emblem_index(emblems@, id@),
        r is None ==> emblem_index(emblems@, id@) == -1,
{
    let mut n: usize = emblems.len();
    proof {
        assert(emblems@.subrange(0, n as int) =~= emblems@);
    }
    while n > 0
        invariant
            n <= emblems@.len(),
            emblem_index(emblems@, id@) == emblem_index(emblems@.subrange(0, n as int), id@),
        decreases n,
    {
        proof {
            assert(emblems@.subrange(0, n as int).drop_last() =~= emblems@.subrange(0, n - 1));
        }
        if text_eq(emblems[n - 1].0.as_str(), id) {
            return Some(n - 1);
        }
        n -= 1;
    }
    None
}

fn find_configuration(v: &Vec<(i64, EmblemImageAssets)>, id: i64) -> (r: Option<usize>)
    ensures
        r matches Some(i) ==> i == configuration_index(v@, id),
        r is None ==> configuration_index(v@, id) == -1,
{
    let mut n: usize = v.len();
    proof {
        assert(v@.subrange(0, n as int) =~= v@);
    }
    while n > 0
        invariant
            n <= v@.len(),
            configuration_index(v@, id) == configuration_index(v@.subrange(0, n as int), id),
        decreases n,
    {
        proof {
            assert(v@.subrange(0, n as int).drop_last() =~= v@.subrange(0, n - 1));
        }
        if v[n - 1].0 == id {
            return Some(n - 1);
        }
        n -= 1;
    }
    None
}

/// Index of the entry with the smallest configuration ID (the earliest of equal
/// ones), or `-1` when there is none.
pub open spec fn smallest_configuration(v: Seq<(i64, EmblemImageAssets)>) -> int
    decreases v.len(),
{
    if v.len() == 0 {
        -1
    } else {
        let k = smallest_configuration(v.drop_last());
        if k < 0 || v.last().0 < v[k].0 {
            v.len() - 1
        } else {
            k
        }
    }
}

/// The smallest-configuration entry exists exactly when there are entries, and no
/// entry has a smaller configuration ID.
pub proof fn lemma_smallest_configuration(v: Seq<(i64, EmblemImageAssets)>)
    ensures
        v.len() == 0 <==> smallest_configuration(v) == -1,
        v.len() > 0 ==> 0 <= smallest_configuration(v) < v.len(),
        forall|j: int| 0 <= j < v.len() ==> v[smallest_configuration(v)].0 <= #[trigger] v[j].0,
    decreases v.len(),
{
    if v.len() > 0 {
        lemma_smallest_configuration(v.drop_last());
        let k = smallest_configuration(v.drop_last());
        assert forall|j: int| 0 <= j < v.len() implies v[smallest_configuration(v)].0 <= #[trigger] v[j].0 by {
            if j < v.len() - 1 {
                assert(v.drop_last()[j] == v[j]);
                if k >= 0 {
                    assert(v.drop_last()[k] == v[k]);
                }
            }
        }
    }
}

fn smallest_configuration_index(v: &Vec<(i64, EmblemImageAssets)>) -> (r: usize)
    requires
        v@.len() > 0,
    ensures
        r == smallest_configuration(v@),
        r < v@.len(),
{
    let mut best: usize = 0;
    let mut i: usize = 1;
    proof {
        assert(v@.subrange(0, 1).drop_last() =~= v@.subrange(0, 0));
        assert(smallest_configuration(v@.subrange(0, 0)) == -1);
        assert(smallest_configuration(v@.subrange(0, 1)) == 0);
    }
    while i < v.len()
        invariant
            1 <= i <= v@.len(),
            best < i,
            best == smallest_configuration(v@.subrange(0, i as int)),
        decreases v@.len() - i,
    {
        proof {
            assert(v@.subrange(0, i + 1).drop_last() =~= v@.subrange(0, i as int));
            assert(v@.subrange(0, i + 1).last() == v@[i as int]);
            assert(v@.subrange(0, i as int)[best as int] == v@[best as int]);
            assert(v@.subrange(0, i + 1)[best as int] == v@[best as int]);
        }
        if v[i].0 < v[best].0 {
            best = i;
        }
        i += 1;
    }
    proof {
        assert(v@.subrange(0, i as int) =~= v@);
    }
    best
}

/// What the fallback lookup resolves to: the exact configuration; else the first
/// positive available configuration when that one is mapped; else the emblem's mapped
/// configuration with the smallest ID.
pub open spec fn fallback_spec(m: EmblemMapping, id: Option<Seq<char>>, configuration_id: i64, preferred: Option<i64>) -> Option<EmblemImageAssets> {
    match id {
        None => None,
        Some(id) => if mapping_get(m, id, configuration_id) is Some {
            mapping_get(m, id, configuration_id)
        } else if emblem_index(m.emblems@, id) < 0 {
            None
        } else if preferred is Some && mapping_get(m, id, preferred->0) is Some {
            mapping_get(m, id, preferred->0)
        } else if m.emblems@[emblem_index(m.emblems@, id)].1@.len() > 0 {
            Some(m.emblems@[emblem_index(m.emblems@, id)].1@[smallest_configuration(m.emblems@[emblem_index(m.emblems@, id)].1@)].1)
        } else {
            None
        },
    }
}

/// A configuration list ordered by ID without repeats.
pub open spec fn configurations_sorted(v: Seq<(i64, EmblemImageAssets)>) -> bool {
    forall|i: int, j: int| 0 <= i < j < v.len() ==> (#[trigger] v[i]).0 < (#[trigger] v[j]).0
}

/// A well-formed mapping: each emblem identifier appears once, and each emblem's
/// configurations are ordered by ID without repeats.
pub open spec fn mapping_wf(m: EmblemMapping) -> bool {
    &&& forall|i: int, j: int| 0 <= i < j < m.emblems@.len() ==> (#[trigger] m.emblems@[i]).0@ != (#[trigger] m.emblems@[j]).0@
    &&& forall|i: int| 0 <= i < m.emblems@.len() ==> configurations_sorted((#[trigger] m.emblems@[i]).1@)
}

proof fn lemma_configuration_index_at(v: Seq<(i64, EmblemImageAssets)>, id: i64)
    requires
        configurations_sorted(v),
    ensures
        (exists|k: int| 0 <= k < v.len() && (#[trigger] v[k]).0 == id) ==> 0 <= configuration_index(v, id) < v.len()
            && v[configuration_index(v, id)].0 == id,
        !(exists|k: int| 0 <= k < v.len() && (#[trigger] v[k]).0 == id) ==> configuration_index(v, id) == -1,
    decreases v.len(),
{
    if v.len() > 0 {
        let d = v.drop_last();
        assert forall|i: int, j: int| 0 <= i < j < d.len() implies (#[trigger] d[i]).0 < (#[trigger] d[j]).0 by {
            assert(d[i] == v[i] && d[j] == v[j]);
        }
        lemma_configuration_index_at(d, id);
        if exists|k: int| 0 <= k < d.len() && (#[trigger] d[k]).0 == id {
            let k = choose|k: int| 0 <= k < d.len() && (#[trigger] d[k]).0 == id;
            assert(v[k] == d[k]);
        }
        if v.last().0 != id && exists|k: int| 0 <= k < v.len() && (#[trigger] v[k]).0 == id {
            let k = choose|k: int| 0 <= k < v.len() && (#[trigger] v[k]).0 == id;
            assert(d[k] == v[k]);
        }
    }
}

proof fn lemma_emblem_index_ids(a: Seq<(String, Vec<(i64, EmblemImageAssets)>)>, b: Seq<(String, Vec<(i64, EmblemImageAssets)>)>, id: Seq<char>)
    requires
        a.len() == b.len(),
        forall|i: int| 0 <= i < a.len() ==> (#[trigger] a[i]).0@ == b[i].0@,
    ensures
        emblem_index(a, id) == emblem_index(b, id),
    decreases a.len(),
{
    if a.len() > 0 {
        assert forall|i: int| 0 <= i < a.len() - 1 implies (#[trigger] a.drop_last()[i]).0@ == b.drop_last()[i].0@ by {
            assert(a.drop_last()[i] == a[i] && b.drop_last()[i] == b[i]);
        }
        lemma_emblem_index_ids(a.drop_last(), b.drop_last(), id);
    }
}

proof fn lemma_emblem_index_found(a: Seq<(String, Vec<(i64, EmblemImageAssets)>)>, id: Seq<char>)
    ensures
        emblem_index(a, id) >= 0 ==> a[emblem_index(a, id)].0@ == id,
        emblem_index(a, id) < 0 ==> forall|k: int| 0 <= k < a.len() ==> (#[trigger] a[k]).0@ != id,
    decreases a.len(),
{
    if a.len() > 0 {
        let d = a.drop_last();
        lemma_emblem_index_found(d, id);
        lemma_emblem_index_range(d, id);
        if emblem_index(a, id) >= 0 && a.last().0@ != id {
            assert(d[emblem_index(d, id)] == a[emblem_index(a, id)]);
        }
        if emblem_index(a, id) < 0 {
            assert forall|k: int| 0 <= k < a.len() implies (#[trigger] a[k]).0@ != id by {
                if k < a.len() - 1 {
                    assert(d[k] == a[k]);
                }
            }
        }
    }
}

/// Adds or replaces the assets of one configuration in an ordered list.
fn put_configuration(v: &mut Vec<(i64, EmblemImageAssets)>, id: i64, assets: EmblemImageAssets)
    requires
        configurations_sorted(old(v)@),
    ensures
        configurations_sorted(final(v)@),
        forall|c: i64| #[trigger] configuration_index(final(v)@, c) >= 0 <==> (c == id || configuration_index(old(v)@, c) >= 0),
        forall|c: i64| configuration_index(final(v)@, c) >= 0 ==> final(v)@[configuration_index(final(v)@, c)].1 == (if c == id {
            assets
        } else {
            old(v)@[configuration_index(old(v)@, c)].1
        }),
{
    let ghost before = v@;
    let mut j: usize = 0;
    while j < v.len() && v[j].0 < id
        invariant
            j <= v@.len(),
            v@ == before,
            forall|k: int| 0 <= k < j ==> (#[trigger] v@[k]).0 < id,
        decreases v@.len() - j,
    {
        j += 1;
    }
    if j < v.len() && v[j].0 == id {
        v.set(j, (id, assets));
    } else {
        v.insert(j, (id, assets));
    }
    proof {
        let after = v@;
        assert forall|i: int, k: int| 0 <= i < k < after.len() implies (#[trigger] after[i]).0 < (#[trigger] after[k]).0 by {
            if j < before.len() && before[j as int].0 == id {
                if i != j && k != j {
                    assert(after[i] == before[i] && after[k] == before[k]);
                } else if i == j {
                    assert(after[k] == before[k]);
                } else {
                    assert(after[i] == before[i]);
                }
            } else {
                if k < j {
                    assert(after[i] == before[i] && after[k] == before[k]);
                } else if k == j {
                    assert(after[i] == before[i]);
                } else if i < j {
                    assert(after[i] == before[i] && after[k] == before[k - 1]);
                } else if i == j {
                    assert(after[k] == before[k - 1]);
                    if j < before.len() {
                        assert(before[j as int].0 > id);
                        if k - 1 > j {
                            assert(before[j as int].0 < before[k - 1].0);
                        }
                    }
                } else {
                    assert(after[i] == before[i - 1] && after[k] == before[k - 1]);
                }
            }
        }
        assert forall|c: i64| #[trigger] configuration_index(after, c) >= 0 <==> (c == id || configuration_index(before, c) >= 0)
            && (configuration_index(after, c) >= 0 ==> after[configuration_index(after, c)].1 == (if c == id {
                assets
            } else {
                before[configuration_index(before, c)].1
            })) by {
            lemma_configuration_index_at(before, c);
            lemma_configuration_index_at(after, c);
            let ka = configuration_index(after, c);
            let kb = configuration_index(before, c);
            if j < before.len() && before[j as int].0 == id {
                if c == id {
                    assert(after[j as int].0 == id);
                    if ka != j {
                        if ka < j {
                            assert(after[ka].0 < after[j as int].0);
                        } else {
                            assert(after[j as int].0 < after[ka].0);
                        }
                    }
                } else {
                    if kb >= 0 {
                        assert(kb != j);
                        assert(after[kb] == before[kb]);
                        if ka != kb {
                            if ka < kb {
                                assert(after[ka].0 < after[kb].0);
                            } else {
                                assert(after[kb].0 < after[ka].0);
                            }
                        }
                    } else if ka >= 0 {
                        assert(ka != j);
                        assert(before[ka] == after[ka]);
                    }
                }
            } else {
                if c == id {
                    assert(after[j as int].0 == id);
                    if ka != j {
                        if ka < j {
                            assert(after[ka].0 < after[j as int].0);
                        } else {
                            assert(after[j as int].0 < after[ka].0);
                        }
                    }
                } else {
                    if kb >= 0 {
                        let kk = if kb < j { kb } else { kb + 1 };
                        assert(after[kk] == before[kb]);
                        if ka != kk {
                            if ka < kk {
                                assert(after[ka].0 < after[kk].0);
                            } else {
                                assert(after[kk].0 < after[ka].0);
                            }
                        }
                    } else if ka >= 0 {
                        assert(ka != j);
                        if ka < j {
                            assert(before[ka] == after[ka]);
                        } else {
                            assert(before[ka - 1] == after[ka]);
                        }
                    }
                }
            }
        }
    }
}

impl EmblemMapping {
    /// A mapping without emblems.
    pub fn new() -> (r: Self)
        ensures
            r.emblems@.len() == 0,
            mapping_wf(r),
    {
        EmblemMapping { emblems: Vec::new() }
    }

    /// Maps one configuration of an emblem to its assets, replacing an earlier mapping of
    /// the same configuration; a well-formed mapping stays well-formed, and every other
    /// lookup is unchanged.
    pub fn insert(&mut self, emblem_id: String, configuration_id: i64, assets: EmblemImageAssets)
        requires
            mapping_wf(*old(self)),
        ensures
            mapping_wf(*final(self)),
            forall|id: Seq<char>, c: i64| #[trigger] mapping_get(*final(self), id, c) == (if id == emblem_id@ && c == configuration_id {
                Some(assets)
            } else {
                mapping_get(*old(self), id, c)
            }),
    {
        proof {
            lemma_emblem_index_range(self.emblems@, emblem_id@);
        }
        let ghost before = self.emblems@;
        match find_emblem(&self.emblems, emblem_id.as_str()) {
            Some(i) => {
                let (name, mut configurations) = self.emblems.remove(i);
                let ghost old_list = configurations@;
                put_configuration(&mut configurations, configuration_id, assets);
                self.emblems.insert(i, (name, configurations));
                proof {
                    let after = self.emblems@;
                    assert(after.len() == before.len());
                    assert forall|k: int| 0 <= k < after.len() implies (#[trigger] after[k]).0@ == before[k].0@ by {
                        if k != i {
                            assert(after[k] == before[k]);
                        }
                    }
                    assert forall|k: int, l: int| 0 <= k < l < after.len() implies (#[trigger] after[k]).0@ != (#[trigger] after[l]).0@ by {
                        assert(after[k].0@ == before[k].0@ && after[l].0@ == before[l].0@);
                    }
                    assert forall|k: int| 0 <= k < after.len() implies configurations_sorted((#[trigger] after[k]).1@) by {
                        if k != i {
                            assert(after[k] == before[k]);
                        }
                    }
                    assert forall|id: Seq<char>, c: i64| #[trigger] mapping_get(EmblemMapping { emblems: self.emblems }, id, c) == (if id == emblem_id@ && c == configuration_id {
                        Some(assets)
                    } else {
                        mapping_get(*old(self), id, c)
                    }) by {
                        lemma_emblem_index_ids(after, before, id);
                        lemma_emblem_index_range(before, id);
                        lemma_emblem_index_found(before, id);
                        lemma_emblem_index_found(before, emblem_id@);
                        let e = emblem_index(before, id);
                        if e == i {
                            assert(id == emblem_id@);
                            assert(after[e].1@ == configurations@);
                            assert(before[e].1@ == old_list);
                            let ka = configuration_index(configurations@, c);
                            assert(ka >= 0 <==> (c == configuration_id || configuration_index(old_list, c) >= 0));
                        } else if e >= 0 {
                            assert(after[e] == before[e]);
                        }
                    }
                }
            },
            None => {
                let mut configurations: Vec<(i64, EmblemImageAssets)> = Vec::new();
                configurations.push((configuration_id, assets));
                self.emblems.push((emblem_id, configurations));
                proof {
                    let after = self.emblems@;
                    assert(after.drop_last() =~= before);
                    lemma_emblem_index_found(before, emblem_id@);
                    assert(after[before.len() as int].0@ == emblem_id@);
                    assert forall|k: int, l: int| 0 <= k < l < after.len() implies (#[trigger] after[k]).0@ != (#[trigger] after[l]).0@ by {
                        if l == before.len() {
                            assert(after[k] == before[k]);
                            assert(before[k].0@ != emblem_id@);
                        } else {
                            assert(after[k] == before[k] && after[l] == before[l]);
                        }
                    }
                    assert forall|k: int| 0 <= k < after.len() implies configurations_sorted((#[trigger] after[k]).1@) by {
                        if k < before.len() {
                            assert(after[k] == before[k]);
                        }
                    }
                    assert forall|id: Seq<char>, c: i64| #[trigger] mapping_get(EmblemMapping { emblems: self.emblems }, id, c) == (if id == emblem_id@ && c == configuration_id {
                        Some(assets)
                    } else {
                        mapping_get(*old(self), id, c)
                    }) by {
                        lemma_emblem_index_range(before, id);
                        if id != emblem_id@ {
                            let e = emblem_index(before, id);
                            if e >= 0 {
                                assert(after[e] == before[e]);
                            }
                        } else {
                            let lst = after.last().1@;
                            assert(lst.len() == 1 && lst[0] == (configuration_id, assets));
                            assert(lst.drop_last() =~= Seq::<(i64, EmblemImageAssets)>::empty());
                            assert(configuration_index(Seq::<(i64, EmblemImageAssets)>::empty(), c) == -1);
                            assert(configuration_index(lst, c) == (if c == configuration_id { 0int } else { -1int }));
                            assert(emblem_index(after, id) == before.len());
                        }
                    }
                }
            },
        }
    }

    /// The assets for an emblem identifier and configuration ID.
    pub fn get(&self, emblem_id: &str, configuration_id: i64) -> (r: Option<&EmblemImageAssets>)
        ensures
            match mapping_get(*self, emblem_id@, configuration_id) {
                Some(a) => r matches Some(x) && *x == a,
                None => r is None,
            },
    {
        proof {
            lemma_emblem_index_range(self.emblems@, emblem_id@);
        }
        let i = match find_emblem(&self.emblems, emblem_id) {
            Some(i) => i,
            None => return None,
        };
        let configurations = &self.emblems[i].1;
        proof {
            lemma_configuration_index_range(configurations@, configuration_id);
        }
        match find_configuration(configurations, configuration_id) {
            Some(j) => Some(&configurations[j].1),
            None => None,
        }
    }

    /// Resolves an equipped emblem configuration to its display assets.
    pub fn resolve(&self, configuration: &EmblemConfiguration) -> (r: Option<&EmblemImageAssets>)
        ensures
            match emblem_id_spec(configuration.emblem_path@) {
                Some(id) => match mapping_get(*self, id, configuration.configuration_id) {
                    Some(a) => r matches Some(x) && *x == a,
                    None => r is None,
                },
                None => r is None,
            },
    {
        match configuration.emblem_id() {
            Some(id) => self.get(id.as_str(), configuration.configuration_id),
            None => None,
        }
    }

    /// Resolves legacy emblem paths through their inventory display metadata.
    pub fn resolve_metadata(&self, metadata: &CustomizationItemMetadata, configuration_id: i64) -> (r: Option<&EmblemImageAssets>)
        ensures
            match image_id_spec(metadata) {
                Some(id) => match mapping_get(*self, id, configuration_id) {
                    Some(a) => r matches Some(x) && *x == a,
                    None => r is None,
                },
                None => r is None,
            },
    {
        match metadata.image_id() {
            Some(id) => self.get(id.as_str(), configuration_id),
            None => None,
        }
    }

    /// Resolves an equipped configuration, falling back to another mapped
    /// configuration of the same emblem when the exact one is not mapped.
    pub fn resolve_with_fallback(&self, configuration: &EmblemConfiguration, metadata: &CustomizationItemMetadata) -> (r: Option<&EmblemImageAssets>)
        ensures
            match fallback_spec(*self, emblem_id_spec(configuration.emblem_path@), configuration.configuration_id, first_positive_spec(metadata.available_configurations@)) {
                Some(a) => r matches Some(x) && *x == a,
                None => r is None,
            },
    {
        let id = match configuration.emblem_id() {
            Some(id) => id,
            None => return None,
        };
        match self.get(id.as_str(), configuration.configuration_id) {
            Some(a) => return Some(a),
            None => {},
        }
        proof {
            lemma_emblem_index_range(self.emblems@, id@);
        }
        let i = match find_emblem(&self.emblems, id.as_str()) {
            Some(i) => i,
            None => return None,
        };
        match metadata.first_positive_configuration_id() {
            Some(preferred) => match self.get(id.as_str(), preferred) {
                Some(a) => return Some(a),
                None => {},
            },
            None => {},
        }
        let configurations = &self.emblems[i].1;
        if configurations.len() > 0 {
            let k = smallest_configuration_index(configurations);
            Some(&configurations[k].1)
        } else {
            None
        }
    }

    pub fn resolve_customization_emblem(&self, emblem: &CustomizationEmblem) -> (r: Option<&EmblemImageAssets>)
        ensures
            match emblem_id_spec(emblem.path@) {
                Some(id) => match mapping_get(*self, id, emblem.configuration_id) {
                    Some(a) => r matches Some(x) && *x == a,
                    None => r is None,
                },
                None => r is None,
            },
    {
        match emblem.emblem_id() {
            Some(id) => self.get(id.as_str(), emblem.configuration_id),
            None => None,
        }
    }
}

/// The display image's CMS path, when one is defined and not empty.
pub open spec fn image_cms_path_spec(m: &CustomizationItemMetadata) -> Option<Seq<char>> {
    match m.common_data.display_path {
        Some(display) => if display.media.media_url.path@.len() > 0 {
            Some(display.media.media_url.path@)
        } else {
            None
        },
        None => None,
    }
}

/// The display image's file stem: the file name after the last `/` up to its last `.`;
/// `None` when the name has no `.`.
pub open spec fn image_id_spec(m: &CustomizationItemMetadata) -> Option<Seq<char>> {
    match image_cms_path_spec(m) {
        Some(path) => if last_index(after_last(path, '/'), '.') >= 0 {
            Some(before_last(after_last(path, '/'), '.'))
        } else {
            None
        },
        None => None,
    }
}

/// The first positive configuration ID.
pub open spec fn first_positive_spec(v: Seq<CustomizationConfiguration>) -> Option<i64>
    decreases v.len(),
{
    if v.len() == 0 {
        None
    } else if v[0].configuration_id > 0 {
        Some(v[0].configuration_id)
    } else {
        first_positive_spec(v.drop_first())
    }
}

impl CustomizationItemMetadata {
    /// The Game CMS path of this item's display image, when one is defined.
    pub fn image_cms_path(&self) -> (r: Option<String>)
        ensures
            match image_cms_path_spec(self) {
                Some(p) => r matches Some(s) && s@ == p,
                None => r is None,
            },
    {
        match &self.common_data.display_path {
            Some(display) => {
                let path = display.media.media_url.path.as_str();
                if path.is_empty() {
                    None
                } else {
                    Some(owned(path))
                }
            },
            None => None,
        }
    }

    /// The display image's file stem, which is also the emblem mapping identifier.
    pub fn image_id(&self) -> (r: Option<String>)
        ensures
            match image_id_spec(self) {
                Some(p) => r matches Some(s) && s@ == p,
                None => r is None,
            },
    {
        let path = match self.image_cms_path() {
            Some(p) => p,
            None => return None,
        };
        let chars = chars_of(path.as_str());
        let name = chars_after_last(&chars, '/');
        match find_last(&name, '.') {
            Some(dot) => Some(string_from_chars(&copy_range(&name, 0, dot))),
            None => None,
        }
    }

    /// The first positive configuration ID among the available configurations.
    pub fn first_positive_configuration_id(&self) -> (r: Option<i64>)
        ensures
            r == first_positive_spec(self.available_configurations@),
    {
        let v = &self.available_configurations;
        let mut i: usize = 0;
        proof {
            assert(v@.subrange(0, v@.len() as int) =~= v@);
        }
        while i < v.len()
            invariant
                i <= v@.len(),
                v@ == self.available_configurations@,
                first_positive_spec(v@) == first_positive_spec(v@.subrange(i as int, v@.len() as int)),
            decreases v@.len() - i,
        {
            proof {
                assert(v@.subrange(i as int, v@.len() as int).drop_first() =~= v@.subrange(i + 1, v@.len() as int));
            }
            if v[i].configuration_id > 0 {
                proof {
                    assert(v@.subrange(i as int, v@.len() as int)[0] == v@[i as int]);
                }
                return Some(v[i].configuration_id);
            }
            i += 1;
        }
        None
    }
}

impl EmblemImageAssets {
    /// The authenticated Waypoint endpoint for the emblem image.
    pub fn emblem_url(&self) -> (r: String)
        ensures
            r@ == url_join(WAYPOINT_FILE_BASE_URL@, self.emblem_cms_path@),
    {
        waypoint_file_url(self.emblem_cms_path.as_str())
    }

    /// The authenticated Waypoint endpoint for the nameplate image.
    pub fn nameplate_url(&self) -> (r: String)
        ensures
            r@ == url_join(WAYPOINT_FILE_BASE_URL@, self.nameplate_cms_path@),
    {
        waypoint_file_url(self.nameplate_cms_path.as_str())
    }
}

pub fn waypoint_file_url(path: &str) -> (r: String)
    ensures
        r@ == url_join(WAYPOINT_FILE_BASE_URL@, path@),
{
    join_url(WAYPOINT_FILE_BASE_URL, path)
}

/// Whether a path names an image: it ends in `.png`, `.jpg` or `.jpeg`, ignoring ASCII case.
pub open spec fn is_image_path(path: Seq<char>) -> bool {
    ends_with(ascii_lower(path), ".png"@) || ends_with(ascii_lower(path), ".jpg"@) || ends_with(
        ascii_lower(path),
        ".jpeg"@,
    )
}

/// Whether a path's file name is an image whose stem is `stem`, ignoring ASCII case.
pub open spec fn is_named_image(path: Seq<char>, stem: Seq<char>) -> bool {
    &&& last_index(after_last(path, '/'), '.') >= 0
    &&& ascii_lower(before_last(after_last(path, '/'), '.')) == ascii_lower(stem)
    &&& (ascii_lower(after_last(after_last(path, '/'), '.')) == "png"@ || ascii_lower(
        after_last(after_last(path, '/'), '.'),
    ) == "jpg"@ || ascii_lower(after_last(after_last(path, '/'), '.')) == "jpeg"@)
}

/// Whether a path's file name is a screenshot image.
pub open spec fn is_screenshot(path: Seq<char>) -> bool {
    starts_with(ascii_lower(after_last(path, '/')), "screenshot"@) && is_image_path(
        after_last(path, '/'),
    )
}

/// URLs of the paths that satisfy `keep`, in order.
pub open spec fn urls_where(prefix: Seq<char>, paths: Seq<String>, keep: spec_fn(Seq<char>) -> bool) -> Seq<Seq<char>>
    decreases paths.len(),
{
    if paths.len() == 0 {
        seq![]
    } else {
        urls_where(prefix, paths.drop_last(), keep) + if keep(paths.last()@) {
            seq![url_join(prefix, paths.last()@)]
        } else {
            seq![]
        }
    }
}

/// Index of the first path that satisfies `keep`, or `-1`.
pub open spec fn first_where(paths: Seq<String>, keep: spec_fn(Seq<char>) -> bool) -> int
    decreases paths.len(),
{
    if paths.len() == 0 {
        -1
    } else if keep(paths[0]@) {
        0
    } else if first_where(paths.drop_first(), keep) < 0 {
        -1
    } else {
        first_where(paths.drop_first(), keep) + 1
    }
}

pub open spec fn texts_of(v: Seq<String>) -> Seq<Seq<char>> {
    v.map_values(|s: String| s@)
}

fn is_image_file(path: &str) -> (r: bool)
    ensures
        r == is_image_path(path@),
{
    let lower = to_ascii_lower(&chars_of(path));
    has_suffix(&lower, ".png") || has_suffix(&lower, ".jpg") || has_suffix(&lower, ".jpeg")
}

fn is_named_image_file(path: &str, stem: &str) -> (r: bool)
    ensures
        r == is_named_image(path@, stem@),
{
    let name = chars_after_last(&chars_of(path), '/');
    let dot = match find_last(&name, '.') {
        Some(d) => d,
        None => return false,
    };
    let name_stem = to_ascii_lower(&copy_range(&name, 0, dot));
    let wanted = to_ascii_lower(&chars_of(stem));
    if !chars_eq(&name_stem, &wanted) {
        return false;
    }
    let n = name.len();
    let extension = to_ascii_lower(&copy_range(&name, dot + 1, n));
    proof {
        assert(name@.subrange(dot + 1, name@.len() as int) == after_last(name@, '.'));
    }
    chars_eq(&extension, &chars_of("png")) || chars_eq(&extension, &chars_of("jpg")) || chars_eq(
        &extension,
        &chars_of("jpeg"),
    )
}

fn is_screenshot_file(path: &str) -> (r: bool)
    ensures
        r == is_screenshot(path@),
{
    let name = chars_after_last(&chars_of(path), '/');
    let lower = to_ascii_lower(&name);
    has_prefix(&lower, "screenshot") && (has_suffix(&lower, ".png") || has_suffix(&lower, ".jpg")
        || has_suffix(&lower, ".jpeg"))
}

impl AssetFiles {
    /// URL of a file below the asset's prefix.
    pub fn url(&self, relative_path: &str) -> (r: String)
        ensures
            r@ == url_join(self.prefix@, relative_path@),
    {
        join_url(self.prefix.as_str(), relative_path)
    }

    /// URLs of every image file, in listing order.
    pub fn image_urls(&self) -> (r: Vec<String>)
        ensures
            texts_of(r@) == urls_where(self.prefix@, self.relative_paths@, |p: Seq<char>| is_image_path(p)),
    {
        let mut out: Vec<String> = Vec::new();
        let paths = &self.relative_paths;
        let mut i: usize = 0;
        while i < paths.len()
            invariant
                i <= paths@.len(),
                texts_of(out@) == urls_where(self.prefix@, paths@.subrange(0, i as int), |p: Seq<char>| is_image_path(p)),
            decreases paths@.len() - i,
        {
            proof {
                assert(paths@.subrange(0, i + 1).drop_last() =~= paths@.subrange(0, i as int));
            }
            let ghost before = out@;
            if is_image_file(paths[i].as_str()) {
                out.push(self.url(paths[i].as_str()));
                proof {
                    assert(texts_of(out@) =~= texts_of(before).push(url_join(self.prefix@, paths@[i as int]@)));
                }
            } else {
                proof {
                    assert(texts_of(out@) =~= texts_of(before) + Seq::<Seq<char>>::empty());
                }
            }
            i += 1;
        }
        proof {
            assert(paths@.subrange(0, paths@.len() as int) =~= paths@);
        }
        out
    }

    /// URL of the first image whose file stem is `stem`, whatever its image extension.
    pub fn named_image_url(&self, stem: &str) -> (r: Option<String>)
        ensures
            first_where(self.relative_paths@, |p: Seq<char>| is_named_image(p, stem@)) < 0 ==> r is None,
            first_where(self.relative_paths@, |p: Seq<char>| is_named_image(p, stem@)) >= 0 ==> (r matches Some(u) && u@ == url_join(self.prefix@, self.relative_paths@[first_where(self.relative_paths@, |p: Seq<char>| is_named_image(p, stem@))]@)),
    {
        let paths = &self.relative_paths;
        let ghost keep = |p: Seq<char>| is_named_image(p, stem@);
        let mut i: usize = 0;
        proof {
            assert(paths@.subrange(0, paths@.len() as int) =~= paths@);
        }
        while i < paths.len()
            invariant
                i <= paths@.len(),
                paths@ == self.relative_paths@,
                keep == (|p: Seq<char>| is_named_image(p, stem@)),
                first_where(paths@, keep) == if first_where(paths@.subrange(i as int, paths@.len() as int), keep) < 0 { -1 } else { first_where(paths@.subrange(i as int, paths@.len() as int), keep) + i },
            decreases paths@.len() - i,
        {
            proof {
                assert(paths@.subrange(i as int, paths@.len() as int).drop_first() =~= paths@.subrange(i + 1, paths@.len() as int));
            }
            if is_named_image_file(paths[i].as_str(), stem) {
                proof {
                    assert(paths@.subrange(i as int, paths@.len() as int)[0] == paths@[i as int]);
                    assert(keep(paths@[i as int]@));
                }
                return Some(self.url(paths[i].as_str()));
            }
            i += 1;
        }
        None
    }

    /// URLs of every screenshot image, in listing order.
    pub fn screenshot_urls(&self) -> (r: Vec<String>)
        ensures
            texts_of(r@) == urls_where(self.prefix@, self.relative_paths@, |p: Seq<char>| is_screenshot(p)),
    {
        let mut out: Vec<String> = Vec::new();
        let paths = &self.relative_paths;
        let mut i: usize = 0;
        while i < paths.len()
            invariant
                i <= paths@.len(),
                texts_of(out@) == urls_where(self.prefix@, paths@.subrange(0, i as int), |p: Seq<char>| is_screenshot(p)),
            decreases paths@.len() - i,
        {
            proof {
                assert(paths@.subrange(0, i + 1).drop_last() =~= paths@.subrange(0, i as int));
            }
            let ghost before = out@;
            if is_screenshot_file(paths[i].as_str()) {
                out.push(self.url(paths[i].as_str()));
                proof {
                    assert(texts_of(out@) =~= texts_of(before).push(url_join(self.prefix@, paths@[i as int]@)));
                }
            } else {
                proof {
                    assert(texts_of(out@) =~= texts_of(before) + Seq::<Seq<char>>::empty());
                }
            }
            i += 1;
        }
        proof {
            assert(paths@.subrange(0, paths@.len() as int) =~= paths@);
        }
        out
    }
}

/// Hero, thumbnail and screenshot URLs of an asset's files, when it has files.
pub open spec fn asset_named_image(files: Option<AssetFiles>, stem: Seq<char>) -> Option<Seq<char>> {
    match files {
        Some(f) => if first_where(f.relative_paths@, |p: Seq<char>| is_named_image(p, stem)) < 0 {
            None
        } else {
            Some(url_join(f.prefix@, f.relative_paths@[first_where(f.relative_paths@, |p: Seq<char>| is_named_image(p, stem))]@))
        },
        None => None,
    }
}

pub open spec fn asset_urls_where(files: Option<AssetFiles>, keep: spec_fn(Seq<char>) -> bool) -> Seq<Seq<char>> {
    match files {
        Some(f) => urls_where(f.prefix@, f.relative_paths@, keep),
        None => seq![],
    }
}

fn named_image_of(files: &Option<AssetFiles>, stem: &str) -> (r: Option<String>)
    ensures
        match asset_named_image(*files, stem@) {
            Some(u) => r matches Some(s) && s@ == u,
            None => r is None,
        },
{
    match files {
        Some(f) => f.named_image_url(stem),
        None => None,
    }
}

impl MapAsset {
    pub fn hero_url(&self) -> (r: Option<String>)
        ensures
            match asset_named_image(self.asset.files, "hero"@) {
                Some(u) => r matches Some(s) && s@ == u,
                None => r is None,
            },
    {
        named_image_of(&self.asset.files, "hero")
    }

    pub fn thumbnail_url(&self) -> (r: Option<String>)
        ensures
            match asset_named_image(self.asset.files, "thumbnail"@) {
                Some(u) => r matches Some(s) && s@ == u,
                None => r is None,
            },
    {
        named_image_of(&self.asset.files, "thumbnail")
    }

    pub fn screenshot_urls(&self) -> (r: Vec<String>)
        ensures
            texts_of(r@) == asset_urls_where(self.asset.files, |p: Seq<char>| is_screenshot(p)),
    {
        match &self.asset.files {
            Some(f) => f.screenshot_urls(),
            None => Vec::new(),
        }
    }

    pub fn image_urls(&self) -> (r: Vec<String>)
        ensures
            texts_of(r@) == asset_urls_where(self.asset.files, |p: Seq<char>| is_image_path(p)),
    {
        match &self.asset.files {
            Some(f) => f.image_urls(),
            None => Vec::new(),
        }
    }
}

/// A playlist asset's files; its rotation (with fractional weights) stays with the caller.
#[derive(Debug, Clone)]
pub struct PlaylistAsset {
    pub asset: AssetLink,
}

impl PlaylistAsset {
    pub fn hero_url(&self) -> (r: Option<String>)
        ensures
            match asset_named_image(self.asset.files, "hero"@) {
                Some(u) => r matches Some(s) && s@ == u,
                None => r is None,
            },
    {
        named_image_of(&self.asset.files, "hero")
    }

    pub fn thumbnail_url(&self) -> (r: Option<String>)
        ensures
            match asset_named_image(self.asset.files, "thumbnail"@) {
                Some(u) => r matches Some(s) && s@ == u,
                None => r is None,
            },
    {
        named_image_of(&self.asset.files, "thumbnail")
    }

    pub fn screenshot_urls(&self) -> (r: Vec<String>)
        ensures
            texts_of(r@) == asset_urls_where(self.asset.files, |p: Seq<char>| is_screenshot(p)),
    {
        match &self.asset.files {
            Some(f) => f.screenshot_urls(),
            None => Vec::new(),
        }
    }

    pub fn image_urls(&self) -> (r: Vec<String>)
        ensures
            texts_of(r@) == asset_urls_where(self.asset.files, |p: Seq<char>| is_image_path(p)),
    {
        match &self.asset.files {
            Some(f) => f.image_urls(),
            None => Vec::new(),
        }
    }
}

/// A game variant asset's files; its free-form key values stay with the caller.
#[derive(Debug, Clone)]
pub struct GameVariantAsset {
    pub asset: AssetLink,
}

impl GameVariantAsset {
    pub fn hero_url(&self) -> (r: Option<String>)
        ensures
            match asset_named_image(self.asset.files, "hero"@) {
                Some(u) => r matches Some(s) && s@ == u,
                None => r is None,
            },
    {
        named_image_of(&self.asset.files, "hero")
    }

    pub fn thumbnail_url(&self) -> (r: Option<String>)
        ensures
            match asset_named_image(self.asset.files, "thumbnail"@) {
                Some(u) => r matches Some(s) && s@ == u,
                None => r is None,
            },
    {
        named_image_of(&self.asset.files, "thumbnail")
    }

    pub fn screenshot_urls(&self) -> (r: Vec<String>)
        ensures
            texts_of(r@) == asset_urls_where(self.asset.files, |p: Seq<char>| is_screenshot(p)),
    {
        match &self.asset.files {
            Some(f) => f.screenshot_urls(),
            None => Vec::new(),
        }
    }

    pub fn image_urls(&self) -> (r: Vec<String>)
        ensures
            texts_of(r@) == asset_urls_where(self.asset.files, |p: Seq<char>| is_image_path(p)),
    {
        match &self.asset.files {
            Some(f) => f.image_urls(),
            None => Vec::new(),
        }
    }
}

/// An instant in UTC: whole seconds since the Unix epoch and nanoseconds within the
/// second (below one billion), ordered by seconds, then nanoseconds.
#[derive(Debug, Clone, Copy, PartialEq, Eq, Structural)]
pub struct UtcInstant {
    pub seconds: i64,
    pub nanos: u32,
}

pub open spec fn instant_before(a: UtcInstant, b: UtcInstant) -> bool {
    a.seconds < b.seconds || (a.seconds == b.seconds && a.nanos < b.nanos)
}

fn is_before(a: UtcInstant, b: UtcInstant) -> (r: bool)
    ensures
        r == instant_before(a, b),
{
    a.seconds < b.seconds || (a.seconds == b.seconds && a.nanos < b.nanos)
}

#[derive(Debug, Clone, Copy)]
pub struct ApiDate {
    pub iso8601_date: UtcInstant,
}

#[derive(Debug, Clone)]
pub struct CsrSeason {
    pub csr_season_file_path: String,
    pub start_date: ApiDate,
    pub end_date: ApiDate,
}

#[derive(Debug, Clone)]
pub struct CsrSeasonCalendar {
    pub seasons: Vec<CsrSeason>,
}

/// Whether `at` falls in the season: from its start, before its end.
pub open spec fn season_contains(s: CsrSeason, at: UtcInstant) -> bool {
    !instant_before(at, s.start_date.iso8601_date) && instant_before(at, s.end_date.iso8601_date)
}

/// Among the first `n` seasons, the last of those containing `at` whose start is the
/// latest.
pub open spec fn current_season(seasons: Seq<CsrSeason>, at: UtcInstant, n: int) -> Option<int>
    decreases n,
{
    if n <= 0 || n > seasons.len() {
        None
    } else {
        let prior = current_season(seasons, at, n - 1);
        if !season_contains(seasons[n - 1], at) {
            prior
        } else {
            match prior {
                Some(k) => if instant_before(seasons[n - 1].start_date.iso8601_date, seasons[k].start_date.iso8601_date) {
                    Some(k)
                } else {
                    Some(n - 1)
                },
                None => Some(n - 1),
            }
        }
    }
}

/// The season chosen among the first `n` contains the instant, and no season among them
/// that contains it started later; none is chosen exactly when none contains it.
pub proof fn lemma_current_season_started_last(seasons: Seq<CsrSeason>, at: UtcInstant, n: int)
    requires
        0 <= n <= seasons.len(),
    ensures
        current_season(seasons, at, n) matches Some(k) ==> 0 <= k < n && season_contains(seasons[k], at) && forall|j: int|
            0 <= j < n && season_contains(#[trigger] seasons[j], at) ==> !instant_before(
                seasons[k].start_date.iso8601_date,
                seasons[j].start_date.iso8601_date,
            ),
        current_season(seasons, at, n) is None <==> forall|j: int| 0 <= j < n ==> !season_contains(#[trigger] seasons[j], at),
    decreases n,
{
    if n > 0 {
        lemma_current_season_started_last(seasons, at, n - 1);
        if current_season(seasons, at, n) is None {
            assert forall|j: int| 0 <= j < n implies !season_contains(#[trigger] seasons[j], at) by {
                if j < n - 1 {
                }
            }
        }
    }
}

/// Which season is current does not depend on the order the calendar lists them in: two
/// calendars holding the same seasons both have a current season or both have none, and
/// theirs started at the same instant.
pub proof fn lemma_current_season_ignores_order(a: Seq<CsrSeason>, b: Seq<CsrSeason>, at: UtcInstant)
    requires
        forall|s: CsrSeason| a.contains(s) <==> b.contains(s),
    ensures
        (current_season(a, at, a.len() as int) is None) <==> (current_season(b, at, b.len() as int) is None),
        current_season(a, at, a.len() as int) matches Some(i) ==> current_season(b, at, b.len() as int) matches Some(j)
            && a[i].start_date.iso8601_date == b[j].start_date.iso8601_date,
{
    lemma_current_season_started_last(a, at, a.len() as int);
    lemma_current_season_started_last(b, at, b.len() as int);
    match current_season(a, at, a.len() as int) {
        Some(i) => {
            assert(a.contains(a[i]));
            let jb = choose|j: int| 0 <= j < b.len() && b[j] == a[i];
            assert(season_contains(b[jb], at));
            let j = current_season(b, at, b.len() as int)->0;
            assert(b.contains(b[j]));
            let ia = choose|k: int| 0 <= k < a.len() && a[k] == b[j];
            assert(season_contains(a[ia], at));
        },
        None => {
            if current_season(b, at, b.len() as int) is Some {
                let j = current_season(b, at, b.len() as int)->0;
                assert(b.contains(b[j]));
                let ia = choose|k: int| 0 <= k < a.len() && a[k] == b[j];
                assert(season_contains(a[ia], at));
            }
        },
    }
}

impl CsrSeasonCalendar {
    /// The season whose date range contains `at`; of several, the one that started last.
    pub fn current(&self, at: UtcInstant) -> (r: Option<&CsrSeason>)
        ensures
            match current_season(self.seasons@, at, self.seasons@.len() as int) {
                Some(k) => r == Some(&self.seasons@[k]),
                None => r is None,
            },
    {
        let mut best: Option<usize> = None;
        let mut i: usize = 0;
        while i < self.seasons.len()
            invariant
                i <= self.seasons@.len(),
                match current_season(self.seasons@, at, i as int) {
                    Some(k) => best == Some(k as usize) && 0 <= k < i,
                    None => best is None,
                },
            decreases self.seasons@.len() - i,
        {
            let s = &self.seasons[i];
            let inside = !is_before(at, s.start_date.iso8601_date) && is_before(at, s.end_date.iso8601_date);
            if inside {
                best = match best {
                    Some(k) => if is_before(s.start_date.iso8601_date, self.seasons[k].start_date.iso8601_date) {
                        Some(k)
                    } else {
                        Some(i)
                    },
                    None => Some(i),
                };
            }
            i += 1;
        }
        match best {
            Some(k) => Some(&self.seasons[k]),
            None => None,
        }
    }
}

/// Which service-record bucket a query reads.
#[derive(Debug, Clone, Copy, Default, PartialEq, Eq, Structural)]
pub enum MatchType {
    #[default]
    Matchmade,
    Custom,
    Local,
}

impl MatchType {
    /// The path segment Halo expects.
    pub fn as_str(self) -> (r: &'static str)
        ensures
            r == (match self {
                MatchType::Matchmade => "Matchmade",
                MatchType::Custom => "Custom",
                MatchType::Local => "Local",
            }),
    {
        match self {
            MatchType::Matchmade => "Matchmade",
            MatchType::Custom => "Custom",
            MatchType::Local => "Local",
        }
    }
}

/// Which games a match-history query returns.
#[derive(Debug, Clone, Copy, Default, PartialEq, Eq, Structural)]
pub enum MatchHistoryType {
    #[default]
    All,
    Matchmaking,
    Custom,
    Local,
}

impl MatchHistoryType {
    /// The value sent in the `type` query parameter.
    pub fn as_str(self) -> (r: &'static str)
        ensures
            r == (match self {
                MatchHistoryType::All => "all",
                MatchHistoryType::Matchmaking => "matchmaking",
                MatchHistoryType::Custom => "custom",
                MatchHistoryType::Local => "local",
            }),
    {
        match self {
            MatchHistoryType::All => "all",
            MatchHistoryType::Matchmaking => "matchmaking",
            MatchHistoryType::Custom => "custom",
            MatchHistoryType::Local => "local",
        }
    }
}

/// Optional filters narrowing a matchmade service record to a season, playlist, or mode.
#[derive(Debug, Clone, Default, PartialEq, Eq)]
pub struct ServiceRecordFilter {
    pub season_id: Option<String>,
    pub game_variant_category: Option<i32>,
    pub playlist_asset_id: Option<String>,
    pub is_ranked: Option<bool>,
    pub gameplay_interaction: Option<String>,
}

pub open spec fn opt_text(o: Option<String>) -> Option<Seq<char>> {
    match o {
        Some(s) => Some(s@),
        None => None,
    }
}

/// The filter's fields, texts as character sequences.
pub open spec fn filter_view(f: ServiceRecordFilter) -> (Option<Seq<char>>, Option<i32>, Option<Seq<char>>, Option<bool>, Option<Seq<char>>) {
    (opt_text(f.season_id), f.game_variant_category, opt_text(f.playlist_asset_id), f.is_ranked, opt_text(f.gameplay_interaction))
}

/// The query parameters of a filter, in the order Halo expects them.
pub open spec fn filter_query(f: ServiceRecordFilter) -> Seq<(Seq<char>, Seq<char>)> {
    (match f.season_id {
        Some(s) => seq![("seasonid"@, s@)],
        None => seq![],
    }) + (match f.game_variant_category {
        Some(c) => seq![("gamevariantcategory"@, signed_decimal(c as int))],
        None => seq![],
    }) + (match f.playlist_asset_id {
        Some(s) => seq![("playlistassetid"@, s@)],
        None => seq![],
    }) + (match f.is_ranked {
        Some(b) => seq![("isranked"@, if b { "True"@ } else { "False"@ })],
        None => seq![],
    }) + (match f.gameplay_interaction {
        Some(s) => seq![("gameplayinteraction"@, s@)],
        None => seq![],
    })
}

pub open spec fn query_view(q: Seq<(&'static str, String)>) -> Seq<(Seq<char>, Seq<char>)> {
    q.map_values(|p: (&'static str, String)| (p.0@, p.1@))
}

/// Whether no filter field is set.
pub open spec fn filter_is_empty(f: ServiceRecordFilter) -> bool {
    f.season_id is None && f.game_variant_category is None && f.playlist_asset_id is None
        && f.is_ranked is None && f.gameplay_interaction is None
}

impl ServiceRecordFilter {
    /// A filter scoped to a CSR season file path.
    pub fn for_season(season_id: &str) -> (r: Self)
        ensures
            filter_view(r) == (Some(season_id@), None::<i32>, None::<Seq<char>>, None::<bool>, None::<Seq<char>>),
    {
        ServiceRecordFilter {
            season_id: Some(owned(season_id)),
            game_variant_category: None,
            playlist_asset_id: None,
            is_ranked: None,
            gameplay_interaction: None,
        }
    }

    /// Sets the season file path.
    pub fn season(self, season_id: &str) -> (r: Self)
        ensures
            filter_view(r) == (Some(season_id@), filter_view(self).1, filter_view(self).2, filter_view(self).3, filter_view(self).4),
    {
        let mut f = self;
        f.season_id = Some(owned(season_id));
        f
    }

    /// Restricts to a game-variant category.
    pub fn game_variant_category(self, category: i32) -> (r: Self)
        ensures
            filter_view(r) == (filter_view(self).0, Some(category), filter_view(self).2, filter_view(self).3, filter_view(self).4),
    {
        let mut f = self;
        f.game_variant_category = Some(category);
        f
    }

    /// Restricts to a single playlist asset ID.
    pub fn playlist_asset_id(self, playlist_asset_id: &str) -> (r: Self)
        ensures
            filter_view(r) == (filter_view(self).0, filter_view(self).1, Some(playlist_asset_id@), filter_view(self).3, filter_view(self).4),
    {
        let mut f = self;
        f.playlist_asset_id = Some(owned(playlist_asset_id));
        f
    }

    /// Restricts to ranked (`true`) or social (`false`) results.
    pub fn ranked(self, is_ranked: bool) -> (r: Self)
        ensures
            filter_view(r) == (filter_view(self).0, filter_view(self).1, filter_view(self).2, Some(is_ranked), filter_view(self).4),
    {
        let mut f = self;
        f.is_ranked = Some(is_ranked);
        f
    }

    /// Restricts to a gameplay-interaction value.
    pub fn gameplay_interaction(self, gameplay_interaction: &str) -> (r: Self)
        ensures
            filter_view(r) == (filter_view(self).0, filter_view(self).1, filter_view(self).2, filter_view(self).3, Some(gameplay_interaction@)),
    {
        let mut f = self;
        f.gameplay_interaction = Some(owned(gameplay_interaction));
        f
    }

    /// The filter with no field set.
    pub fn empty() -> (r: Self)
        ensures
            filter_is_empty(r),
    {
        ServiceRecordFilter {
            season_id: None,
            game_variant_category: None,
            playlist_asset_id: None,
            is_ranked: None,
            gameplay_interaction: None,
        }
    }

    /// Whether no filter is set.
    pub fn is_empty(&self) -> (r: bool)
        ensures
            r == filter_is_empty(*self),
    {
        self.season_id.is_none() && self.game_variant_category.is_none()
            && self.playlist_asset_id.is_none() && self.is_ranked.is_none()
            && self.gameplay_interaction.is_none()
    }

    /// Halo's query parameters for the filter (lowercase names, no separators).
    pub fn to_query(&self) -> (r: Vec<(&'static str, String)>)
        ensures
            query_view(r@) == filter_query(*self),
    {
        let mut query: Vec<(&'static str, String)> = Vec::new();
        let ghost q0 = query_view(query@);
        match &self.season_id {
            Some(s) => query.push(("seasonid", s.clone())),
            None => {},
        }
        let ghost q1 = query_view(query@);
        match self.game_variant_category {
            Some(c) => query.push(("gamevariantcategory", i64_to_string(c as i64))),
            None => {},
        }
        let ghost q2 = query_view(query@);
        match &self.playlist_asset_id {
            Some(s) => query.push(("playlistassetid", s.clone())),
            None => {},
        }
        let ghost q3 = query_view(query@);
        match self.is_ranked {
            Some(b) => query.push(("isranked", owned(if b { "True" } else { "False" }))),
            None => {},
        }
        let ghost q4 = query_view(query@);
        match &self.gameplay_interaction {
            Some(s) => query.push(("gameplayinteraction", s.clone())),
            None => {},
        }
        proof {
            assert(query_view(query@) =~= filter_query(*self));
        }
        query
    }
}

/// A filter is empty exactly when it renders no query parameter.
pub proof fn lemma_filter_empty_iff_no_query(f: ServiceRecordFilter)
    ensures
        filter_is_empty(f) <==> filter_query(f).len() == 0,
{
}

impl CareerRewardTrack {
    /// The first rank definition with this rank number.
    pub fn rank(&self, rank: i32) -> (r: Option<&RewardTrackRank>)
        ensures
            match r {
                Some(entry) => exists|i: int| 0 <= i < self.ranks@.len() && self.ranks@[i] == *entry
                    && entry.rank == rank && forall|j: int| 0 <= j < i ==> #[trigger] self.ranks@[j].rank != rank,
                None => forall|i: int| 0 <= i < self.ranks@.len() ==> #[trigger] self.ranks@[i].rank != rank,
            },
    {
        let mut i: usize = 0;
        while i < self.ranks.len()
            invariant
                i <= self.ranks@.len(),
                forall|j: int| 0 <= j < i ==> #[trigger] self.ranks@[j].rank != rank,
            decreases self.ranks@.len() - i,
        {
            if self.ranks[i].rank == rank {
                return Some(&self.ranks[i]);
            }
            i += 1;
        }
        None
    }
}

impl RewardTrackRank {
    /// The full display title: the title, then the sub-title after a space when there
    /// is a non-empty one.
    pub fn display_title(&self) -> (r: Option<String>)
        ensures
            match self.rank_title {
                None => r is None,
                Some(title) => r matches Some(t) && t@ == match self.rank_sub_title {
                    Some(sub) => if sub.value@.len() > 0 {
                        title.value@ + " "@ + sub.value@
                    } else {
                        title.value@
                    },
                    None => title.value@,
                },
            },
    {
        let title = match &self.rank_title {
            Some(t) => &t.value,
            None => return None,
        };
        match &self.rank_sub_title {
            Some(sub) => {
                if !sub.value.as_str().is_empty() {
                    let mut out = owned(title.as_str());
                    push_str(&mut out, " ");
                    push_str(&mut out, sub.value.as_str());
                    return Some(out);
                }
            },
            None => {},
        }
        Some(owned(title.as_str()))
    }
}

impl MedalMetadata {
    /// The first medal definition with this `name_id`.
    pub fn medal(&self, name_id: i64) -> (r: Option<&Medal>)
        ensures
            match r {
                Some(m) => exists|i: int| 0 <= i < self.medals@.len() && self.medals@[i] == *m
                    && m.name_id == name_id && forall|j: int| 0 <= j < i ==> #[trigger] self.medals@[j].name_id != name_id,
                None => forall|i: int| 0 <= i < self.medals@.len() ==> #[trigger] self.medals@[i].name_id != name_id,
            },
    {
        let mut i: usize = 0;
        while i < self.medals.len()
            invariant
                i <= self.medals@.len(),
                forall|j: int| 0 <= j < i ==> #[trigger] self.medals@[j].name_id != name_id,
            decreases self.medals@.len() - i,
        {
            if self.medals[i].name_id == name_id {
                return Some(&self.medals[i]);
            }
            i += 1;
        }
        None
    }

    /// The medal's difficulty label, when its index names one.
    pub fn difficulty_of(&self, medal: &Medal) -> (r: Option<&str>)
        ensures
            0 <= medal.difficulty_index < self.difficulties@.len() ==> (r matches Some(s) && s@ == self.difficulties@[medal.difficulty_index as int]@),
            !(0 <= medal.difficulty_index < self.difficulties@.len()) ==> r is None,
    {
        if medal.difficulty_index < 0 || medal.difficulty_index as u64 >= self.difficulties.len() as u64 {
            return None;
        }
        Some(self.difficulties[medal.difficulty_index as usize].as_str())
    }

    /// The medal's type label, when its index names one.
    pub fn type_of(&self, medal: &Medal) -> (r: Option<&str>)
        ensures
            0 <= medal.type_index < self.types@.len() ==> (r matches Some(s) && s@ == self.types@[medal.type_index as int]@),
            !(0 <= medal.type_index < self.types@.len()) ==> r is None,
    {
        if medal.type_index < 0 || medal.type_index as u64 >= self.types.len() as u64 {
            return None;
        }
        Some(self.types[medal.type_index as usize].as_str())
    }
}

} // verus!
