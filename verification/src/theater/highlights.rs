//! Client highlight views adapted from the summary decoder. No byte parsing.
use super::medals::{film_medal_spec, FilmMedal};
use super::summary::{FilmEventCounts, ValidatedSummaryEventReport, SummaryPlayerValidation};
use super::types::{DecodeError, SummaryEvent, SummaryKind};
use crate::text::{chars_of, owned, parse_u64, parse_u64_spec};
use vstd::prelude::*;

verus! {

/// One highlight event, with the summary event kind.
#[derive(Debug, Clone, PartialEq, Eq)]
pub struct FilmEvent {
    pub xuid: u64,
    pub gamertag: String,
    pub timestamp_ms: u32,
    pub kind: SummaryKind,
    pub medal_flag: u8,
    pub metadata: u8,
}

/// A player's decoded summary-event counts compared with Halo's match record.
#[derive(Debug, Clone, PartialEq, Eq)]
pub struct FilmPlayerEventValidation {
    pub xuid: u64,
    pub gamertag: Option<String>,
    pub decoded: FilmEventCounts,
    pub match_stats: FilmEventCounts,
}

impl FilmPlayerEventValidation {
    /// Whether this player's decoded counts agree with the match record.
    pub fn matches_stats(&self) -> (r: bool)
        ensures
            r == (self.decoded == self.match_stats),
    {
        self.decoded == self.match_stats
    }
}

/// Per-player comparison between a film's summary events and match stats.
#[derive(Debug, Clone, Default, PartialEq, Eq)]
pub struct FilmEventValidation {
    pub players: Vec<FilmPlayerEventValidation>,
}

impl FilmEventValidation {
    /// Whether every represented player has matching event counts.
    pub fn matches_stats(&self) -> (r: bool)
        ensures
            r == forall|i: int| 0 <= i < self.players@.len() ==> #[trigger] self.players@[i].decoded
                == self.players@[i].match_stats,
    {
        let mut i: usize = 0;
        while i < self.players.len()
            invariant
                i <= self.players@.len(),
                forall|k: int| 0 <= k < i ==> #[trigger] self.players@[k].decoded == self.players@[k].match_stats,
            decreases self.players@.len() - i,
        {
            if !self.players[i].matches_stats() {
                return false;
            }
            i += 1;
        }
        true
    }
}

/// Decoded highlight events with their comparison to the match-statistics API.
#[derive(Debug, Clone, PartialEq, Eq)]
pub struct FilmEventReport {
    pub events: Vec<FilmEvent>,
    pub validation: FilmEventValidation,
}

impl FilmEvent {
    /// The medal of a medal event.
    pub fn medal(&self) -> (r: Option<FilmMedal>)
        ensures
            self.kind == SummaryKind::Medal ==> r == Some(film_medal_spec(self.metadata)),
            self.kind != SummaryKind::Medal ==> r is None,
    {
        if self.kind == SummaryKind::Medal {
            Some(FilmMedal::from_id(self.metadata))
        } else {
            None
        }
    }
}

/// A highlight event's fields, its gamertag as text.
pub open spec fn highlight_view(e: FilmEvent) -> (u64, Seq<char>, u32, SummaryKind, u8, u8) {
    (e.xuid, e.gamertag@, e.timestamp_ms, e.kind, e.medal_flag, e.metadata)
}

/// The highlight event of a summary event: its XUID text parsed as a `u64` and its
/// time in whole milliseconds, when both fit; otherwise which check failed.
pub open spec fn highlight_of(e: SummaryEvent) -> Result<(u64, Seq<char>, u32, SummaryKind, u8, u8), Seq<char>> {
    match parse_u64_spec(e.xuid@) {
        None => Err("invalid summary XUID"@),
        Some(x) => if e.time_us / 1000 > u32::MAX {
            Err("summary timestamp exceeds u32 milliseconds"@)
        } else {
            Ok((x, e.name@, (e.time_us / 1000) as u32, e.kind, e.medal_flag, e.metadata))
        },
    }
}

/// Whether a result is the error that `highlight_of` names.
pub open spec fn inconsistent_with(e: DecodeError, msg: Seq<char>) -> bool {
    e matches DecodeError::Inconsistent(m) && m@ == msg
}

impl FilmEvent {
    /// The highlight event of a summary event.
    pub fn try_from_summary(event: SummaryEvent) -> (r: Result<FilmEvent, DecodeError>)
        ensures
            match highlight_of(event) {
                Ok(v) => r matches Ok(h) && highlight_view(h) == v,
                Err(msg) => r matches Err(e) && inconsistent_with(e, msg),
            },
    {
        let xuid = match parse_u64(&chars_of(event.xuid.as_str())) {
            Some(x) => x,
            None => return Err(DecodeError::Inconsistent(owned("invalid summary XUID"))),
        };
        let ms = event.time_us / 1000;
        if ms > u32::MAX as u64 {
            return Err(DecodeError::Inconsistent(owned("summary timestamp exceeds u32 milliseconds")));
        }
        Ok(FilmEvent {
            xuid,
            gamertag: event.name,
            timestamp_ms: ms as u32,
            kind: event.kind,
            medal_flag: event.medal_flag,
            metadata: event.metadata,
        })
    }
}

/// Highlight `i` is the conversion of summary event `i`, for every `i < k`.
pub open spec fn converted(h: Seq<FilmEvent>, src: Seq<SummaryEvent>, k: int) -> bool {
    forall|i: int| 0 <= i < k ==> highlight_of(src[i]) == Ok::<HighlightView, Seq<char>>(highlight_view(#[trigger] h[i]))
}

pub type HighlightView = (u64, Seq<char>, u32, SummaryKind, u8, u8);

/// The first highlight conversion error among the events, if any.
pub open spec fn first_highlight_error(s: Seq<SummaryEvent>) -> Option<Seq<char>>
    decreases s.len(),
{
    if s.len() == 0 {
        None
    } else {
        match highlight_of(s[0]) {
            Err(msg) => Some(msg),
            Ok(_) => first_highlight_error(s.drop_first()),
        }
    }
}

/// The first player whose XUID text does not parse, if any.
pub open spec fn first_bad_player(s: Seq<SummaryPlayerValidation>) -> bool {
    exists|i: int| 0 <= i < s.len() && parse_u64_spec(#[trigger] s[i].xuid@) is None
}

impl FilmEventReport {
    /// The highlight report of a validated summary report: every event converted,
    /// then every player's aggregate counts with its XUID parsed; the first failure
    /// (events before players) is returned.
    pub fn try_from_validated(report: ValidatedSummaryEventReport) -> (r: Result<FilmEventReport, DecodeError>)
        ensures
            match first_highlight_error(report.summary.events@) {
                Some(msg) => r matches Err(e) && inconsistent_with(e, msg),
                None => if first_bad_player(report.validation.players@) {
                    r matches Err(e) && inconsistent_with(e, "invalid summary XUID"@)
                } else {
                    r matches Ok(h) && h.events@.len() == report.summary.events@.len()
                        && converted(h.events@, report.summary.events@, h.events@.len() as int)
                        && h.validation.players@.len() == report.validation.players@.len()
                        && (forall|i: int| 0 <= i < h.validation.players@.len() ==> {
                            let p = #[trigger] h.validation.players@[i];
                            let q = report.validation.players@[i];
                            &&& Some(p.xuid) == parse_u64_spec(q.xuid@)
                            &&& p.gamertag == q.name
                            &&& p.decoded == q.decoded
                            &&& p.match_stats == q.match_stats
                        })
                },
            },
    {
        let ghost source_events = report.summary.events@;
        let ghost source_players = report.validation.players@;
        let mut events_in = report.summary.events;
        let mut events: Vec<FilmEvent> = Vec::new();
        let ghost mut k: int = 0;
        proof {
            assert(source_events.subrange(0, source_events.len() as int) =~= source_events);
        }
        while events_in.len() > 0
            invariant
                0 <= k <= source_events.len(),
                source_events == report.summary.events@,
                source_players == report.validation.players@,
                events_in@ == source_events.subrange(k, source_events.len() as int),
                events@.len() == k,
                converted(events@, source_events, k),
                first_highlight_error(source_events) == first_highlight_error(source_events.subrange(k, source_events.len() as int)),
            decreases events_in@.len(),
        {
            let ghost old_in = events_in@;
            let e = events_in.remove(0);
            proof {
                assert(old_in[0] == e);
                assert(events_in@ =~= source_events.subrange(k + 1, source_events.len() as int));
                assert(old_in.drop_first() =~= events_in@);
            }
            proof {
                assert(source_events[k] == e);
                let rest = source_events.subrange(k, source_events.len() as int);
                assert(rest[0] == e);
                assert(rest.drop_first() =~= source_events.subrange(k + 1, source_events.len() as int));
            }
            match FilmEvent::try_from_summary(e) {
                Ok(h) => {
                    let ghost before = events@;
                    events.push(h);
                    proof {
                        assert forall|i: int| 0 <= i < k + 1 implies highlight_of(source_events[i]) == Ok::<HighlightView, Seq<char>>(highlight_view(#[trigger] events@[i])) by {
                            if i < k {
                                assert(events@[i] == before[i]);
                            } else {
                                assert(events@[i] == h);
                            }
                        }
                        assert(converted(events@, source_events, k + 1));
                        k = k + 1;
                    }
                },
                Err(err) => return Err(err),
            }
        }
        let mut players_in = report.validation.players;
        let mut players: Vec<FilmPlayerEventValidation> = Vec::new();
        let ghost mut j: int = 0;
        proof {
            assert(k == source_events.len());
            assert(source_events.subrange(k, source_events.len() as int).len() == 0);
            assert(first_highlight_error(source_events.subrange(k, source_events.len() as int)) is None);
        }
        while players_in.len() > 0
            invariant
                0 <= j <= source_players.len(),
                source_events == report.summary.events@,
                source_players == report.validation.players@,
                first_highlight_error(source_events) is None,
                events@.len() == source_events.len(),
                converted(events@, source_events, events@.len() as int),
                players_in@ == source_players.subrange(j, source_players.len() as int),
                players@.len() == j,
                forall|i: int| 0 <= i < j ==> parse_u64_spec(#[trigger] source_players[i].xuid@) is Some,
                forall|i: int| 0 <= i < j ==> {
                    let p = #[trigger] players@[i];
                    let q = source_players[i];
                    &&& Some(p.xuid) == parse_u64_spec(q.xuid@)
                    &&& p.gamertag == q.name
                    &&& p.decoded == q.decoded
                    &&& p.match_stats == q.match_stats
                },
            decreases players_in@.len(),
        {
            let ghost old_in = players_in@;
            let p = players_in.remove(0);
            proof {
                assert(old_in[0] == p);
                assert(players_in@ =~= source_players.subrange(j + 1, source_players.len() as int));
            }
            proof {
                assert(source_players[j] == p);
            }
            let xuid = match parse_u64(&chars_of(p.xuid.as_str())) {
                Some(x) => x,
                None => {
                    proof {
                        assert(first_bad_player(source_players));
                    }
                    return Err(DecodeError::Inconsistent(owned("invalid summary XUID")));
                },
            };
            players.push(FilmPlayerEventValidation {
                xuid,
                gamertag: p.name,
                decoded: p.decoded,
                match_stats: p.match_stats,
            });
            proof {
                j = j + 1;
            }
        }
        proof {
            assert(!first_bad_player(source_players)) by {
                if first_bad_player(source_players) {
                    let i = choose|i: int| 0 <= i < source_players.len() && parse_u64_spec(#[trigger] source_players[i].xuid@) is None;
                    assert(parse_u64_spec(source_players[i].xuid@) is Some);
                }
            }
        }
        Ok(FilmEventReport { events, validation: FilmEventValidation { players } })
    }
}

} // verus!
