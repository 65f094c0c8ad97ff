//! Known matchmaking playlists, identified by asset GUID.
use crate::text::owned;
use vstd::prelude::*;

verus! {

/// A known Halo Infinite matchmaking playlist, identified by its asset GUID.
///
/// Only playlists with a confirmed asset GUID are included.
#[derive(Debug, Clone, Copy, PartialEq, Eq, Hash, Structural)]
pub enum PlaylistId {
    Arena,
    Doubles,
    Slayer,
}

/// The asset GUID of a known playlist.
pub open spec fn playlist_guid(p: PlaylistId) -> &'static str {
    match p {
        PlaylistId::Arena => "edfef3ac-9cbe-4fa2-b949-8f29deafd483",
        PlaylistId::Doubles => "fa5aa2a3-2428-4912-a023-e1eeea7b877c",
        PlaylistId::Slayer => "dcb2e24e-05fb-4390-8076-32a0cdb4326e",
    }
}

impl PlaylistId {
    /// The playlist's asset GUID, as used in Halo Waypoint API URLs.
    pub fn as_str(&self) -> (r: &'static str)
        ensures
            r == playlist_guid(*self),
    {
        match self {
            PlaylistId::Arena => "edfef3ac-9cbe-4fa2-b949-8f29deafd483",
            PlaylistId::Doubles => "fa5aa2a3-2428-4912-a023-e1eeea7b877c",
            PlaylistId::Slayer => "dcb2e24e-05fb-4390-8076-32a0cdb4326e",
        }
    }

    /// The playlist as its `Display` renders it: the asset GUID.
    pub fn to_string(&self) -> (r: String)
        ensures
            r@ == playlist_guid(*self)@,
    {
        owned(self.as_str())
    }
}

} // verus!
