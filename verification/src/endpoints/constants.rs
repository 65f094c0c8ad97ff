//! Halo Waypoint API origin constants. Every endpoint lives on `<origin>.svc.halowaypoint.com`.
use crate::text::{owned, push_str};
use vstd::prelude::*;

verus! {

pub const SERVICE_DOMAIN: &'static str = "svc.halowaypoint.com";

pub const SKILL_ORIGIN: &'static str = "skill";

pub const HALOSTATS_ORIGIN: &'static str = "halostats";

pub const SETTINGS_ORIGIN: &'static str = "settings";

/// `https://<origin>.svc.halowaypoint.com`.
pub open spec fn base_url_spec(origin: Seq<char>) -> Seq<char> {
    "https://"@ + origin + "."@ + SERVICE_DOMAIN@
}

/// Builds a full `https://<origin>.svc.halowaypoint.com` base URL for the given origin.
pub fn base_url(origin: &str) -> (r: String)
    ensures
        r@ == base_url_spec(origin@),
{
    let mut url = owned("https://");
    push_str(&mut url, origin);
    push_str(&mut url, ".");
    push_str(&mut url, SERVICE_DOMAIN);
    url
}

/// Overridable base URLs for the Halo Waypoint endpoints this crate calls.
#[derive(Debug, Clone)]
pub struct HaloEndpoints {
    pub skill_base_url: String,
    pub halostats_base_url: String,
    pub spartan_token_url: String,
}

impl Default for HaloEndpoints {
    /// The real Halo Waypoint endpoints.
    fn default() -> (r: Self)
        ensures
            r.skill_base_url@ == base_url_spec(SKILL_ORIGIN@),
            r.halostats_base_url@ == base_url_spec(HALOSTATS_ORIGIN@),
            r.spartan_token_url@ == base_url_spec(SETTINGS_ORIGIN@) + "/spartan-token"@,
    {
        let mut spartan_token_url = base_url(SETTINGS_ORIGIN);
        push_str(&mut spartan_token_url, "/spartan-token");
        HaloEndpoints {
            skill_base_url: base_url(SKILL_ORIGIN),
            halostats_base_url: base_url(HALOSTATS_ORIGIN),
            spartan_token_url,
        }
    }
}

} // verus!
