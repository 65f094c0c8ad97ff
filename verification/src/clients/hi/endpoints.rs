//! Base URLs of the Halo Infinite services the client calls.
use crate::endpoints::constants::{base_url, base_url_spec};
use crate::text::owned;
use vstd::prelude::*;

verus! {

pub const PROFILE_ORIGIN: &'static str = "profile";

pub const GAME_CMS_ORIGIN: &'static str = "gamecms-hacs";

pub const UGC_ORIGIN: &'static str = "discovery-infiniteugc";

pub const BAN_ORIGIN: &'static str = "banprocessor";

pub const ECONOMY_ORIGIN: &'static str = "economy";

pub const CURRENT_USER_URL: &'static str = "https://comms.svc.halowaypoint.com/users/me";

pub const SETTINGS_URL: &'static str = "https://settings.svc.halowaypoint.com";

/// Overridable base URLs for the Halo Infinite endpoints; the default points at the
/// real services.
#[derive(Debug, Clone)]
pub struct HaloEndpoints {
    pub skill_base_url: String,
    pub halostats_base_url: String,
    pub current_user_url: String,
    pub profile_base_url: String,
    pub game_cms_base_url: String,
    pub ugc_base_url: String,
    pub settings_base_url: String,
    pub ban_base_url: String,
    pub economy_base_url: String,
}

impl Default for HaloEndpoints {
    fn default() -> (r: Self)
        ensures
            r.skill_base_url@ == base_url_spec("skill"@),
            r.halostats_base_url@ == base_url_spec("halostats"@),
            r.current_user_url@ == CURRENT_USER_URL@,
            r.profile_base_url@ == base_url_spec(PROFILE_ORIGIN@),
            r.game_cms_base_url@ == base_url_spec(GAME_CMS_ORIGIN@),
            r.ugc_base_url@ == base_url_spec(UGC_ORIGIN@),
            r.settings_base_url@ == SETTINGS_URL@,
            r.ban_base_url@ == base_url_spec(BAN_ORIGIN@),
            r.economy_base_url@ == base_url_spec(ECONOMY_ORIGIN@),
    {
        HaloEndpoints {
            skill_base_url: base_url("skill"),
            halostats_base_url: base_url("halostats"),
            current_user_url: owned(CURRENT_USER_URL),
            profile_base_url: base_url(PROFILE_ORIGIN),
            game_cms_base_url: base_url(GAME_CMS_ORIGIN),
            ugc_base_url: base_url(UGC_ORIGIN),
            settings_base_url: owned(SETTINGS_URL),
            ban_base_url: base_url(BAN_ORIGIN),
            economy_base_url: base_url(ECONOMY_ORIGIN),
        }
    }
}

} // verus!
