//! Playlist CSR response models.
use vstd::prelude::*;

verus! {

/// Response body from the playlist CSR endpoint.
#[derive(Debug, Clone)]
pub struct CsrRecords {
    pub records: Vec<CsrRecord>,
}

#[derive(Debug, Clone)]
pub struct CsrRecord {
    pub id: String,
    pub result: CsrRecordResult,
}

#[derive(Debug, Clone)]
pub struct CsrRecordResult {
    pub current: CsrRecordRanking,
    pub peak: CsrRecordRanking,
}

#[derive(Debug, Clone)]
pub struct CsrRecordRanking {
    /// Numeric CSR value, or `-1` if the player is unranked in this playlist.
    pub value: i32,
    pub tier: String,
    /// 0-indexed sub-tier within `tier`. Not meaningful for the Onyx tier.
    pub sub_tier: i32,
}

impl CsrRecordRanking {
    /// Whether this ranking is the API's `-1` unranked sentinel.
    pub fn is_unranked(&self) -> (r: bool)
        ensures
            r == (self.value == -1),
    {
        self.value == -1
    }
}

} // verus!
