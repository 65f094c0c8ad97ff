//! Comparison of decoded summary highlights with the match statistics service.
use super::medals::{definition_spec, film_medal_definition};
use super::summary::{
    declared_counts_match, FilmEventCounts, MedalCountComparison, SummaryEventReport,
    SummaryEventValidation, SummaryPlayerValidation,
};
use super::types::{SummaryEvent, SummaryKind};
use crate::clients::hi::models::{MatchPlayer, MatchStats, PlayerTeamStats, StatAward};
use crate::text::{
    chars_eq, chars_of, copy_range, decimal, parse_u64, parse_u64_spec, string_from_chars,
    u64_to_string,
};
use vstd::prelude::*;

verus! {

/// Lexicographic order of texts, by code point; a proper prefix comes first.
pub open spec fn chars_lt(a: Seq<char>, b: Seq<char>) -> bool
    decreases a.len(),
{
    if a.len() == 0 {
        b.len() > 0
    } else if b.len() == 0 {
        false
    } else if a[0] != b[0] {
        (a[0] as u32) < (b[0] as u32)
    } else {
        chars_lt(a.drop_first(), b.drop_first())
    }
}

pub fn text_lt(a: &Vec<char>, b: &Vec<char>) -> (r: bool)
    ensures
        r == chars_lt(a@, b@),
{
    let mut i: usize = 0;
    proof {
        assert(a@.subrange(0, a@.len() as int) =~= a@);
        assert(b@.subrange(0, b@.len() as int) =~= b@);
    }
    while i < a.len() && i < b.len()
        invariant
            i <= a@.len(),
            i <= b@.len(),
            chars_lt(a@, b@) == chars_lt(a@.subrange(i as int, a@.len() as int), b@.subrange(i as int, b@.len() as int)),
        decreases a@.len() - i,
    {
        let ghost sa = a@.subrange(i as int, a@.len() as int);
        let ghost sb = b@.subrange(i as int, b@.len() as int);
        if a[i] != b[i] {
            proof {
                assert(sa[0] == a@[i as int] && sb[0] == b@[i as int]);
            }
            return (a[i] as u32) < (b[i] as u32);
        }
        proof {
            assert(sa.drop_first() =~= a@.subrange(i + 1, a@.len() as int));
            assert(sb.drop_first() =~= b@.subrange(i + 1, b@.len() as int));
        }
        i += 1;
    }
    proof {
        let sa = a@.subrange(i as int, a@.len() as int);
        let sb = b@.subrange(i as int, b@.len() as int);
        assert(sa.len() == 0 || sb.len() == 0);
    }
    i < b.len()
}

/// Saturating addition of a non-negative amount.
pub open spec fn sat(a: usize, b: int) -> usize {
    if a + b <= usize::MAX {
        (a + b) as usize
    } else {
        usize::MAX
    }
}

fn sat_add(a: usize, b: usize) -> (r: usize)
    ensures
        r == sat(a, b as int),
{
    if a <= usize::MAX - b {
        a + b
    } else {
        usize::MAX
    }
}

/// A count that converts to `usize`, or zero.
pub open spec fn count_of(x: i64) -> int {
    if 0 <= x <= usize::MAX {
        x as int
    } else {
        0
    }
}

fn usize_or_zero(x: i64) -> (r: usize)
    ensures
        r == count_of(x),
{
    if x >= 0 && (x as u128) <= (usize::MAX as u128) {
        x as usize
    } else {
        0
    }
}

/// One player's tally: key, latest recorded name, decoded and expected counts, medal
/// identities (name id, decoded, expected) in increasing name-id order, and unknown
/// medal codes in increasing order.
pub ghost struct TallyView {
    pub key: Seq<char>,
    pub name: Option<Seq<char>>,
    pub decoded: FilmEventCounts,
    pub expected: FilmEventCounts,
    pub medals: Seq<(u32, usize, usize)>,
    pub unknown: Seq<u8>,
}

pub open spec fn empty_tally(key: Seq<char>) -> TallyView {
    TallyView {
        key,
        name: None,
        decoded: FilmEventCounts { kills: 0, deaths: 0, medals: 0 },
        expected: FilmEventCounts { kills: 0, deaths: 0, medals: 0 },
        medals: seq![],
        unknown: seq![],
    }
}

/// Where `key` belongs among tallies kept in key order.
pub open spec fn key_position(s: Seq<TallyView>, key: Seq<char>, j: int) -> int
    decreases s.len() - j,
{
    if j < 0 || j >= s.len() || !chars_lt(s[j].key, key) {
        j
    } else {
        key_position(s, key, j + 1)
    }
}

/// The tallies with one for `key` (added empty at its place when missing), and its index.
pub open spec fn with_key(s: Seq<TallyView>, key: Seq<char>) -> (Seq<TallyView>, int) {
    let j = key_position(s, key, 0);
    if j < s.len() && s[j].key == key {
        (s, j)
    } else {
        (s.insert(j, empty_tally(key)), j)
    }
}

/// Where `id` belongs among medal identities kept in increasing order.
pub open spec fn medal_position(s: Seq<(u32, usize, usize)>, id: u32, j: int) -> int
    decreases s.len() - j,
{
    if j < 0 || j >= s.len() || s[j].0 >= id {
        j
    } else {
        medal_position(s, id, j + 1)
    }
}

/// Medal identities with `decoded` and `expected` added to those of `id`.
pub open spec fn add_medal(s: Seq<(u32, usize, usize)>, id: u32, decoded: int, expected: int) -> Seq<(u32, usize, usize)> {
    let j = medal_position(s, id, 0);
    if j < s.len() && s[j].0 == id {
        s.update(j, (id, sat(s[j].1, decoded), sat(s[j].2, expected)))
    } else {
        s.insert(j, (id, sat(0, decoded), sat(0, expected)))
    }
}

/// Where `code` belongs among codes kept in increasing order.
pub open spec fn code_position(s: Seq<u8>, code: u8, j: int) -> int
    decreases s.len() - j,
{
    if j < 0 || j >= s.len() || s[j] >= code {
        j
    } else {
        code_position(s, code, j + 1)
    }
}

/// Codes with `code` added once.
pub open spec fn add_code(s: Seq<u8>, code: u8) -> Seq<u8> {
    let j = code_position(s, code, 0);
    if j < s.len() && s[j] == code {
        s
    } else {
        s.insert(j, code)
    }
}

/// A decoded event counted: the name is the event's; kills and deaths are counted;
/// a medal is counted, and by its name id when the catalog gives one, else its code
/// is unknown.
pub open spec fn count_event(t: TallyView, e: SummaryEvent) -> TallyView {
    let t = TallyView { name: Some(e.name@), ..t };
    match e.kind {
        SummaryKind::Kill => TallyView { decoded: FilmEventCounts { kills: sat(t.decoded.kills, 1), ..t.decoded }, ..t },
        SummaryKind::Death => TallyView { decoded: FilmEventCounts { deaths: sat(t.decoded.deaths, 1), ..t.decoded }, ..t },
        SummaryKind::Medal => {
            let t = TallyView { decoded: FilmEventCounts { medals: sat(t.decoded.medals, 1), ..t.decoded }, ..t };
            match definition_spec(e.metadata) {
                Some(def) => match def.name_id {
                    Some(id) => TallyView { medals: add_medal(t.medals, id, 1, 0), ..t },
                    None => TallyView { unknown: add_code(t.unknown, e.metadata), ..t },
                },
                None => TallyView { unknown: add_code(t.unknown, e.metadata), ..t },
            }
        },
        _ => t,
    }
}

/// The tallies after the first `n` events.
pub open spec fn tally_events(events: Seq<SummaryEvent>, n: int) -> Seq<TallyView>
    decreases n,
{
    if n <= 0 || n > events.len() {
        seq![]
    } else {
        let (s, j) = with_key(tally_events(events, n - 1), events[n - 1].xuid@);
        s.update(j, count_event(s[j], events[n - 1]))
    }
}

/// A stats medal award counted as expected: all of it, and by name id when the id fits.
pub open spec fn count_award(t: TallyView, a: StatAward) -> TallyView {
    let t = TallyView { expected: FilmEventCounts { medals: sat(t.expected.medals, count_of(a.count)), ..t.expected }, ..t };
    if 0 <= a.name_id <= u32::MAX {
        TallyView { medals: add_medal(t.medals, a.name_id as u32, 0, count_of(a.count)), ..t }
    } else {
        t
    }
}

pub open spec fn count_awards(t: TallyView, awards: Seq<StatAward>, n: int) -> TallyView
    decreases n,
{
    if n <= 0 || n > awards.len() {
        t
    } else {
        count_award(count_awards(t, awards, n - 1), awards[n - 1])
    }
}

/// One team's core stats counted as expected kills, deaths and medals.
pub open spec fn count_team(t: TallyView, team: PlayerTeamStats) -> TallyView {
    let core = team.stats.core;
    let t = TallyView {
        expected: FilmEventCounts {
            kills: sat(t.expected.kills, count_of(core.kills)),
            deaths: sat(t.expected.deaths, count_of(core.deaths)),
            ..t.expected
        },
        ..t
    };
    count_awards(t, core.medals@, core.medals@.len() as int)
}

pub open spec fn count_teams(t: TallyView, teams: Seq<PlayerTeamStats>, n: int) -> TallyView
    decreases n,
{
    if n <= 0 || n > teams.len() {
        t
    } else {
        count_team(count_teams(t, teams, n - 1), teams[n - 1])
    }
}

/// The XUID in a player id of the form `xuid(<decimal>)`.
pub open spec fn player_xuid(id: Seq<char>) -> Option<u64> {
    if id.len() >= 6 && id.subrange(0, 5) == seq!['x', 'u', 'i', 'd', '('] && id.last() == ')' {
        parse_u64_spec(id.subrange(5, id.len() - 1))
    } else {
        None
    }
}

/// The tallies after the first `n` stats players: each human player with an XUID id
/// is counted under its decimal XUID.
pub open spec fn tally_players(s: Seq<TallyView>, players: Seq<MatchPlayer>, n: int) -> Seq<TallyView>
    decreases n,
{
    if n <= 0 || n > players.len() {
        s
    } else {
        let prior = tally_players(s, players, n - 1);
        let p = players[n - 1];
        if p.player_type != 1 {
            prior
        } else {
            match player_xuid(p.player_id@) {
                None => prior,
                Some(x) => {
                    let (s2, j) = with_key(prior, decimal(x as nat));
                    s2.update(j, count_teams(s2[j], p.team_stats@, p.team_stats@.len() as int))
                },
            }
        }
    }
}

/// The tally a player validation reports.
pub open spec fn validation_view(v: SummaryPlayerValidation) -> TallyView {
    TallyView {
        key: v.xuid@,
        name: match v.name {
            Some(n) => Some(n@),
            None => None,
        },
        decoded: v.decoded,
        expected: v.match_stats,
        medals: v.medals@.map_values(|m: MedalCountComparison| (m.name_id, m.decoded, m.match_stats)),
        unknown: v.unknown_medal_codes@,
    }
}

/// A player's running tally.
pub struct Tally {
    pub key: Vec<char>,
    pub name: Option<String>,
    pub decoded: FilmEventCounts,
    pub expected: FilmEventCounts,
    pub medals: Vec<MedalCountComparison>,
    pub unknown: Vec<u8>,
}

pub open spec fn medal_views(s: Seq<MedalCountComparison>) -> Seq<(u32, usize, usize)> {
    s.map_values(|m: MedalCountComparison| (m.name_id, m.decoded, m.match_stats))
}

pub open spec fn tally_view(t: Tally) -> TallyView {
    TallyView {
        key: t.key@,
        name: match t.name {
            Some(n) => Some(n@),
            None => None,
        },
        decoded: t.decoded,
        expected: t.expected,
        medals: medal_views(t.medals@),
        unknown: t.unknown@,
    }
}

pub open spec fn tally_views(s: Seq<Tally>) -> Seq<TallyView> {
    s.map_values(|t: Tally| tally_view(t))
}

/// The index of the tally for `key`, added empty at its place when missing.
fn tally_for(s: &mut Vec<Tally>, key: &Vec<char>) -> (j: usize)
    ensures
        tally_views(final(s)@) == with_key(tally_views(old(s)@), key@).0,
        j == with_key(tally_views(old(s)@), key@).1,
        j < final(s)@.len(),
{
    let ghost v = tally_views(s@);
    let mut j: usize = 0;
    while j < s.len() && text_lt(&s[j].key, key)
        invariant
            j <= s@.len(),
            v == tally_views(s@),
            key_position(v, key@, 0) == key_position(v, key@, j as int),
        decreases s@.len() - j,
    {
        j += 1;
    }
    if j < s.len() && chars_eq(&s[j].key, key) {
        return j;
    }
    s.insert(j, Tally {
        key: copy_range(key, 0, key.len()),
        name: None,
        decoded: FilmEventCounts { kills: 0, deaths: 0, medals: 0 },
        expected: FilmEventCounts { kills: 0, deaths: 0, medals: 0 },
        medals: Vec::new(),
        unknown: Vec::new(),
    });
    proof {
        assert(key@.subrange(0, key@.len() as int) =~= key@);
        assert(medal_views(Seq::<MedalCountComparison>::empty()) =~= Seq::<(u32, usize, usize)>::empty());
        assert(tally_views(s@) =~= v.insert(j as int, empty_tally(key@)));
    }
    j
}

fn add_medal_count(v: &mut Vec<MedalCountComparison>, id: u32, decoded: usize, expected: usize)
    ensures
        medal_views(final(v)@) == add_medal(medal_views(old(v)@), id, decoded as int, expected as int),
{
    let ghost m = medal_views(v@);
    let mut j: usize = 0;
    while j < v.len() && v[j].name_id < id
        invariant
            j <= v@.len(),
            m == medal_views(v@),
            medal_position(m, id, 0) == medal_position(m, id, j as int),
        decreases v@.len() - j,
    {
        j += 1;
    }
    if j < v.len() && v[j].name_id == id {
        let old_entry = v[j];
        v.set(j, MedalCountComparison {
            name_id: id,
            decoded: sat_add(old_entry.decoded, decoded),
            match_stats: sat_add(old_entry.match_stats, expected),
        });
        proof {
            assert(medal_views(v@) =~= m.update(j as int, (id, sat(m[j as int].1, decoded as int), sat(m[j as int].2, expected as int))));
        }
    } else {
        v.insert(j, MedalCountComparison { name_id: id, decoded, match_stats: expected });
        proof {
            assert(medal_views(v@) =~= m.insert(j as int, (id, sat(0, decoded as int), sat(0, expected as int))));
        }
    }
}

fn add_unknown_code(v: &mut Vec<u8>, code: u8)
    ensures
        final(v)@ == add_code(old(v)@, code),
{
    let mut j: usize = 0;
    while j < v.len() && v[j] < code
        invariant
            j <= v@.len(),
            code_position(v@, code, 0) == code_position(v@, code, j as int),
        decreases v@.len() - j,
    {
        j += 1;
    }
    if j < v.len() && v[j] == code {
        return;
    }
    v.insert(j, code);
}

fn count_event_into(t: &mut Tally, e: &SummaryEvent)
    ensures
        tally_view(*final(t)) == count_event(tally_view(*old(t)), *e),
{
    t.name = Some(e.name.clone());
    match e.kind {
        SummaryKind::Kill => t.decoded.kills = sat_add(t.decoded.kills, 1),
        SummaryKind::Death => t.decoded.deaths = sat_add(t.decoded.deaths, 1),
        SummaryKind::Medal => {
            t.decoded.medals = sat_add(t.decoded.medals, 1);
            match film_medal_definition(e.metadata) {
                Some(def) => match def.name_id {
                    Some(id) => add_medal_count(&mut t.medals, id, 1, 0),
                    None => add_unknown_code(&mut t.unknown, e.metadata),
                },
                None => add_unknown_code(&mut t.unknown, e.metadata),
            }
        },
        _ => {},
    }
}

fn count_award_into(t: &mut Tally, a: &StatAward)
    ensures
        tally_view(*final(t)) == count_award(tally_view(*old(t)), *a),
{
    let count: usize = usize_or_zero(a.count);
    t.expected.medals = sat_add(t.expected.medals, count);
    if 0 <= a.name_id && a.name_id <= 0xffff_ffff {
        add_medal_count(&mut t.medals, a.name_id as u32, 0, count);
    }
}

fn count_team_into(t: &mut Tally, team: &PlayerTeamStats)
    ensures
        tally_view(*final(t)) == count_team(tally_view(*old(t)), *team),
{
    let core = &team.stats.core;
    let kills: usize = usize_or_zero(core.kills);
    let deaths: usize = usize_or_zero(core.deaths);
    t.expected.kills = sat_add(t.expected.kills, kills);
    t.expected.deaths = sat_add(t.expected.deaths, deaths);
    let ghost start = tally_view(*t);
    let mut i: usize = 0;
    while i < core.medals.len()
        invariant
            i <= core.medals@.len(),
            tally_view(*t) == count_awards(start, core.medals@, i as int),
        decreases core.medals@.len() - i,
    {
        count_award_into(t, &core.medals[i]);
        i += 1;
    }
}

/// Replaces the tally at `j` by the one `count` makes of it.
fn take_tally(s: &mut Vec<Tally>, j: usize) -> (t: Tally)
    requires
        j < old(s)@.len(),
    ensures
        t == old(s)@[j as int],
        final(s)@ == old(s)@.remove(j as int),
{
    s.remove(j)
}

fn put_tally(s: &mut Vec<Tally>, j: usize, t: Tally)
    requires
        j <= old(s)@.len(),
    ensures
        final(s)@ == old(s)@.insert(j as int, t),
{
    s.insert(j, t);
}

/// The XUID of a player id of the form `xuid(<decimal>)`.
pub fn parse_player_xuid(id: &str) -> (r: Option<u64>)
    ensures
        r == player_xuid(id@),
{
    let c = chars_of(id);
    let n = c.len();
    if !(n >= 6 && c[0] == 'x' && c[1] == 'u' && c[2] == 'i' && c[3] == 'd' && c[4] == '(' && c[n - 1] == ')') {
        proof {
            if n >= 6 {
                if c@.subrange(0, 5) == seq!['x', 'u', 'i', 'd', '('] {
                    assert(c@.subrange(0, 5)[0] == 'x');
                    assert(c@.subrange(0, 5)[1] == 'u');
                    assert(c@.subrange(0, 5)[2] == 'i');
                    assert(c@.subrange(0, 5)[3] == 'd');
                    assert(c@.subrange(0, 5)[4] == '(');
                }
            }
        }
        return None;
    }
    proof {
        assert(c@.subrange(0, 5) =~= seq!['x', 'u', 'i', 'd', '(']);
    }
    parse_u64(&copy_range(&c, 5, n - 1))
}

/// Compares every human player's kills, deaths and per-name-id medal counts in the
/// decoded highlights with the match statistics. Players are listed in XUID text
/// order; a player's name is the one in its latest highlight.
pub fn validate_summary_events(report: &SummaryEventReport, stats: &MatchStats) -> (r: SummaryEventValidation)
    ensures
        r.declared_counts_match == declared_counts_match(report.packets@),
        r.players@.map_values(|v: SummaryPlayerValidation| validation_view(v)) == tally_players(
            tally_events(report.events@, report.events@.len() as int),
            stats.players@,
            stats.players@.len() as int,
        ),
{
    let mut s: Vec<Tally> = Vec::new();
    let mut i: usize = 0;
    proof {
        assert(tally_views(s@) =~= tally_events(report.events@, 0));
    }
    while i < report.events.len()
        invariant
            i <= report.events@.len(),
            tally_views(s@) == tally_events(report.events@, i as int),
        decreases report.events@.len() - i,
    {
        let e = &report.events[i];
        let key = chars_of(e.xuid.as_str());
        let ghost before = tally_views(s@);
        let j = tally_for(&mut s, &key);
        let ghost mid = s@;
        let mut t = take_tally(&mut s, j);
        count_event_into(&mut t, e);
        put_tally(&mut s, j, t);
        proof {
            assert(s@ == mid.update(j as int, t));
            assert(tally_views(s@) =~= tally_views(mid).update(j as int, tally_view(t)));
        }
        i += 1;
    }
    let ghost events_done = tally_views(s@);
    let mut i: usize = 0;
    while i < stats.players.len()
        invariant
            i <= stats.players@.len(),
            tally_views(s@) == tally_players(events_done, stats.players@, i as int),
        decreases stats.players@.len() - i,
    {
        let p = &stats.players[i];
        if p.is_human() {
            match parse_player_xuid(p.player_id.as_str()) {
                Some(x) => {
                    let key = chars_of(u64_to_string(x).as_str());
                    let j = tally_for(&mut s, &key);
                    let ghost mid = s@;
                    let mut t = take_tally(&mut s, j);
                    let ghost first = tally_view(t);
                    let mut k: usize = 0;
                    while k < p.team_stats.len()
                        invariant
                            k <= p.team_stats@.len(),
                            tally_view(t) == count_teams(first, p.team_stats@, k as int),
                        decreases p.team_stats@.len() - k,
                    {
                        count_team_into(&mut t, &p.team_stats[k]);
                        k += 1;
                    }
                    put_tally(&mut s, j, t);
                    proof {
                        assert(s@ == mid.update(j as int, t));
                        assert(tally_views(s@) =~= tally_views(mid).update(j as int, tally_view(t)));
                    }
                },
                None => {},
            }
        }
        i += 1;
    }
    let mut players: Vec<SummaryPlayerValidation> = Vec::new();
    let ghost all = tally_views(s@);
    let mut k: usize = 0;
    while k < s.len()
        invariant
            k <= s@.len(),
            all == tally_views(s@),
            all.len() == s@.len(),
            players@.len() == k,
            players@.map_values(|v: SummaryPlayerValidation| validation_view(v)) == all.subrange(0, k as int),
        decreases s@.len() - k,
    {
        let t = &s[k];
        let name = match &t.name {
            Some(n) => Some(n.clone()),
            None => None,
        };
        let v = SummaryPlayerValidation {
            xuid: string_from_chars(&t.key),
            name,
            decoded: t.decoded,
            match_stats: t.expected,
            medals: copy_range(&t.medals, 0, t.medals.len()),
            unknown_medal_codes: copy_range(&t.unknown, 0, t.unknown.len()),
        };
        proof {
            assert(t.medals@.subrange(0, t.medals@.len() as int) =~= t.medals@);
            assert(t.unknown@.subrange(0, t.unknown@.len() as int) =~= t.unknown@);
            assert(v.medals@.map_values(|m: MedalCountComparison| (m.name_id, m.decoded, m.match_stats)) =~= medal_views(t.medals@));
            assert(validation_view(v) == tally_view(*t));
        }
        let ghost prev = players@;
        let ghost vv = validation_view(v);
        players.push(v);
        proof {
            let a = players@.map_values(|v: SummaryPlayerValidation| validation_view(v));
            let b = all.subrange(0, k + 1);
            let c = prev.map_values(|v: SummaryPlayerValidation| validation_view(v));
            assert(a.len() == b.len());
            assert forall|m: int| 0 <= m < a.len() implies a[m] == b[m] by {
                if m < k {
                    assert(players@[m] == prev[m]);
                    assert(a[m] == c[m]);
                    assert(c[m] == all.subrange(0, k as int)[m]);
                } else {
                    assert(a[m] == vv);
                }
            }
            assert(a =~= b);
        }
        k += 1;
    }
    proof {
        assert(all.subrange(0, k as int) =~= all);
    }
    SummaryEventValidation { declared_counts_match: report.matches_declared_counts(), players }
}

/// Medal identities in strictly increasing name-id order.
pub open spec fn medals_sorted(s: Seq<(u32, usize, usize)>) -> bool {
    forall|i: int, j: int| 0 <= i < j < s.len() ==> (#[trigger] s[i]).0 < (#[trigger] s[j]).0
}

/// The expected count held for name id `id`, or zero.
pub open spec fn expected_of(s: Seq<(u32, usize, usize)>, id: u32) -> usize
    decreases s.len(),
{
    if s.len() == 0 {
        0
    } else if s[0].0 == id {
        s[0].2
    } else {
        expected_of(s.drop_first(), id)
    }
}

/// Sum of the counts of the first `n` awards.
pub open spec fn awarded_total(awards: Seq<StatAward>, n: int) -> int
    decreases n,
{
    if n <= 0 || n > awards.len() {
        0
    } else {
        awarded_total(awards, n - 1) + awards[n - 1].count
    }
}

/// Sum of the counts of the first `n` awards of name id `id`.
pub open spec fn awarded_for(awards: Seq<StatAward>, n: int, id: u32) -> int
    decreases n,
{
    if n <= 0 || n > awards.len() {
        0
    } else {
        awarded_for(awards, n - 1, id) + if awards[n - 1].name_id == id { awards[n - 1].count as int } else { 0 }
    }
}

proof fn lemma_expected_of_sorted(s: Seq<(u32, usize, usize)>, id: u32)
    requires
        medals_sorted(s),
    ensures
        forall|k: int| 0 <= k < s.len() && (#[trigger] s[k]).0 == id ==> expected_of(s, id) == s[k].2,
        (forall|k: int| 0 <= k < s.len() ==> (#[trigger] s[k]).0 != id) ==> expected_of(s, id) == 0,
    decreases s.len(),
{
    if s.len() > 0 {
        let t = s.drop_first();
        assert forall|i: int, j: int| 0 <= i < j < t.len() implies (#[trigger] t[i]).0 < (#[trigger] t[j]).0 by {
            assert(t[i] == s[i + 1] && t[j] == s[j + 1]);
        }
        lemma_expected_of_sorted(t, id);
        assert forall|k: int| 0 <= k < s.len() && (#[trigger] s[k]).0 == id implies expected_of(s, id) == s[k].2 by {
            if k > 0 {
                assert(s[0].0 < s[k].0);
                assert(t[k - 1] == s[k]);
            }
        }
        if forall|k: int| 0 <= k < s.len() ==> (#[trigger] s[k]).0 != id {
            assert(s[0].0 != id);
            assert forall|k: int| 0 <= k < t.len() implies (#[trigger] t[k]).0 != id by {
                assert(t[k] == s[k + 1]);
            }
        }
    }
}

proof fn lemma_medal_position(s: Seq<(u32, usize, usize)>, id: u32, j: int)
    requires
        0 <= j <= s.len(),
        medals_sorted(s),
        forall|k: int| 0 <= k < j ==> (#[trigger] s[k]).0 < id,
    ensures
        j <= medal_position(s, id, j) <= s.len(),
        forall|k: int| 0 <= k < medal_position(s, id, j) ==> (#[trigger] s[k]).0 < id,
        medal_position(s, id, j) < s.len() ==> s[medal_position(s, id, j)].0 >= id,
    decreases s.len() - j,
{
    if j < s.len() && s[j].0 < id {
        lemma_medal_position(s, id, j + 1);
    }
}

/// Adding counts for one name id changes only that id's entry, by a saturating sum, and
/// keeps the identities in order.
proof fn lemma_add_medal_expected(s: Seq<(u32, usize, usize)>, id: u32, decoded: int, expected: int)
    requires
        medals_sorted(s),
        expected >= 0,
    ensures
        medals_sorted(add_medal(s, id, decoded, expected)),
        forall|x: u32| #[trigger] expected_of(add_medal(s, id, decoded, expected), x) == if x == id {
            sat(expected_of(s, id), expected)
        } else {
            expected_of(s, x)
        },
{
    let j = medal_position(s, id, 0);
    lemma_medal_position(s, id, 0);
    let r = add_medal(s, id, decoded, expected);
    if j < s.len() && s[j].0 == id {
        assert forall|a: int, b: int| 0 <= a < b < r.len() implies (#[trigger] r[a]).0 < (#[trigger] r[b]).0 by {
            assert(r[a].0 == s[a].0 && r[b].0 == s[b].0);
        }
        lemma_expected_of_sorted(s, id);
        lemma_expected_of_sorted(r, id);
        assert forall|x: u32| #[trigger] expected_of(r, x) == if x == id {
            sat(expected_of(s, id), expected)
        } else {
            expected_of(s, x)
        } by {
            lemma_expected_of_sorted(s, x);
            lemma_expected_of_sorted(r, x);
            if x == id {
                assert(r[j].0 == id);
            } else if exists|k: int| 0 <= k < s.len() && (#[trigger] s[k]).0 == x {
                let k = choose|k: int| 0 <= k < s.len() && (#[trigger] s[k]).0 == x;
                assert(k != j);
                assert(r[k] == s[k]);
            } else {
                assert forall|k: int| 0 <= k < r.len() implies (#[trigger] r[k]).0 != x by {
                    if k != j {
                        assert(r[k] == s[k]);
                    }
                }
            }
        }
    } else {
        assert forall|k: int| 0 <= k < s.len() implies (#[trigger] s[k]).0 != id by {
            if k >= j {
                assert(s[j].0 > id);
                if k > j {
                    assert(s[j].0 < s[k].0);
                }
            }
        }
        assert forall|a: int, b: int| 0 <= a < b < r.len() implies (#[trigger] r[a]).0 < (#[trigger] r[b]).0 by {
            if b < j {
                assert(r[a] == s[a] && r[b] == s[b]);
            } else if b == j {
                assert(r[a] == s[a]);
            } else if a < j {
                assert(r[a] == s[a] && r[b] == s[b - 1]);
                assert(s[b - 1].0 >= s[j].0);
                if b - 1 > j {
                    assert(s[j].0 < s[b - 1].0);
                }
            } else if a == j {
                assert(r[b] == s[b - 1]);
                if b - 1 > j {
                    assert(s[j].0 < s[b - 1].0);
                }
            } else {
                assert(r[a] == s[a - 1] && r[b] == s[b - 1]);
            }
        }
        lemma_expected_of_sorted(s, id);
        lemma_expected_of_sorted(r, id);
        assert forall|x: u32| #[trigger] expected_of(r, x) == if x == id {
            sat(expected_of(s, id), expected)
        } else {
            expected_of(s, x)
        } by {
            lemma_expected_of_sorted(s, x);
            lemma_expected_of_sorted(r, x);
            if x == id {
                assert(r[j].0 == id);
            } else if exists|k: int| 0 <= k < s.len() && (#[trigger] s[k]).0 == x {
                let k = choose|k: int| 0 <= k < s.len() && (#[trigger] s[k]).0 == x;
                let kk = if k < j { k } else { k + 1 };
                assert(r[kk] == s[k]);
            } else {
                assert forall|k: int| 0 <= k < r.len() implies (#[trigger] r[k]).0 != x by {
                    if k < j {
                        assert(r[k] == s[k]);
                    } else if k > j {
                        assert(r[k] == s[k - 1]);
                    }
                }
            }
        }
    }
}

/// Counting a player's stat awards as expected: the expected medal total grows by the sum
/// of the awards' counts (an award of count `n` counts `n` times), and each name id's
/// expected count grows by the sum of the counts of the awards of that id; both sums
/// saturate at the largest `usize`.
pub proof fn lemma_awards_counted_in_full(t: TallyView, awards: Seq<StatAward>, n: int)
    requires
        0 <= n <= awards.len(),
        forall|k: int| 0 <= k < awards.len() ==> 0 <= (#[trigger] awards[k]).count <= usize::MAX,
    ensures
        count_awards(t, awards, n).expected.medals == sat(t.expected.medals, awarded_total(awards, n)),
        medals_sorted(t.medals) ==> medals_sorted(count_awards(t, awards, n).medals),
        medals_sorted(t.medals) ==> forall|x: u32| #[trigger] expected_of(count_awards(t, awards, n).medals, x) == sat(
            expected_of(t.medals, x),
            awarded_for(awards, n, x),
        ),
    decreases n,
{
    if n > 0 {
        lemma_awards_counted_in_full(t, awards, n - 1);
        lemma_awarded_nonneg(awards, n - 1);
        let prev = count_awards(t, awards, n - 1);
        let a = awards[n - 1];
        assert(0 <= a.count <= usize::MAX);
        assert(count_of(a.count) == a.count);
        let t1 = TallyView { expected: FilmEventCounts { medals: sat(prev.expected.medals, count_of(a.count)), ..prev.expected }, ..prev };
        if medals_sorted(t.medals) {
            if 0 <= a.name_id <= u32::MAX {
                lemma_add_medal_expected(prev.medals, a.name_id as u32, 0, count_of(a.count));
            }
            assert forall|x: u32| #[trigger] expected_of(count_awards(t, awards, n).medals, x) == sat(
                expected_of(t.medals, x),
                awarded_for(awards, n, x),
            ) by {
                assert(expected_of(prev.medals, x) == sat(expected_of(t.medals, x), awarded_for(awards, n - 1, x)));
                lemma_awarded_for_nonneg(awards, n - 1, x);
            }
        }
    }
}

proof fn lemma_awarded_nonneg(awards: Seq<StatAward>, n: int)
    requires
        forall|k: int| 0 <= k < awards.len() ==> 0 <= (#[trigger] awards[k]).count <= usize::MAX,
    ensures
        awarded_total(awards, n) >= 0,
    decreases n,
{
    if n > 0 && n <= awards.len() {
        lemma_awarded_nonneg(awards, n - 1);
        assert(awards[n - 1].count >= 0);
    }
}

proof fn lemma_awarded_for_nonneg(awards: Seq<StatAward>, n: int, id: u32)
    requires
        forall|k: int| 0 <= k < awards.len() ==> 0 <= (#[trigger] awards[k]).count <= usize::MAX,
    ensures
        awarded_for(awards, n, id) >= 0,
    decreases n,
{
    if n > 0 && n <= awards.len() {
        lemma_awarded_for_nonneg(awards, n - 1, id);
        assert(awards[n - 1].count >= 0);
    }
}

} // verus!
