//! Assembly of a typed partial film from decompressed chunks: packet framing, the
//! component registry, roster bindings, lives, per-player observations, clocks and
//! projectile tracks.
use crate::clients::hi::film::{
    all_roster_entries, block_components, decode_events, decode_player_indices, decode_players,
    decode_registry, dedup_events, events_view, lemma_lowest_of_type, lowest_of_type, found_events, player_indices_spec,
    player_table, players_view, registry_matches, sort_by_time, texts, FilmEvent, FilmEventKind,
    FilmPacket, FilmPlayer, FilmRegistry,
};
use std::collections::BTreeMap;

use crate::clients::hi::models::FilmChunkData;
use super::appearance::{appearance_matches, snapshot, snapshot_spec};
use super::combat::{
    clock, clock_spec, firing, firing_spec, grenade_spec, melee_spec, reload_spec, weapon_damage_spec, zoom_spec, grenade, melee, reload, weapon_damage, zoom, Event, CLOCK_SIGNATURES, INPUT_END,
    INPUT_END_BITS,
};
use super::input::{terminal, terminal_spec, Command};
use super::packets::{index, index_spec, lemma_index_ignores_order};
use super::types::{DecodeOptions, Film, ProjectileTrack};
use super::motion::{
    spawn_spec, Spawn,
    clocked_delta, contains_u8, crouch_input, crouch_input_spec, input_chain, input_chain_spec, Chain, isolated_vitality, pawn_header, spawn, pawn_header_spec, clocked_delta_spec, isolated_vitality_spec, weapon_delta_spec, Delta, DeltaView,
    weapon_delta, SPAWN_BODY,
};
use super::projectile::{
    birth, birth_spec, record_spec, lemma_sort_samples_len, lemma_tracks_start_at_birth, record, sort_samples, track_view,
    track_views, tracks_upto, Birth, Record, Tracks, PROJECTILE_END, PROJECTILE_END_BITS,
};
use super::bits::{bit_len, matches_spec, window_spec, Bits};
use crate::text::{decimal, owned, push_str, text_eq, u64_to_string};
use super::types::{ArmorAttachments, ArmorRegion};
use super::types::{
    firing_slot, AppearanceSample, ArmorAppearance, Aim, BodyVitality, CheckedRegion, ClockSample,
    CoordinateLayout, DecodeDiagnostics, DecodeError, Firing, InputAxes, Life,
    Magazine, PlayerTrack, Position, Sample, ShieldVitality, SourceSpan, SummaryEvent,
    SummaryKind, Velocity, WeaponObservation, ZoomStage,
};
use vstd::prelude::*;
use vstd::laws_cmp::obeys_cmp;
use super::summary::{by_index, distinct_indices, lemma_by_index_ignores_order, same_chunks};

verus! {

/// The bit range `bit..end_bit` of packet `p`'s payload.
pub open spec fn span_spec(p: FilmPacket, bit: usize, end_bit: usize) -> SourceSpan {
    SourceSpan { chunk: p.chunk_index, payload_byte: p.payload_offset, bit, end_bit }
}

pub fn span(p: &FilmPacket, bit: usize, end_bit: usize) -> (r: SourceSpan)
    ensures
        r == span_spec(*p, bit, end_bit),
{
    SourceSpan { chunk: p.chunk_index, payload_byte: p.payload_offset, bit, end_bit }
}

pub fn sample<T>(p: &FilmPacket, time_us: u64, life: u16, bit: usize, end: usize, value: T) -> (r: Sample<T>)
    ensures
        r == (Sample { time_us, life, value, source: span_spec(*p, bit, end) }),
{
    Sample { time_us, life, value, source: span(p, bit, end) }
}

/// The count under `key` after `n` more rejections, saturating at the largest `usize`.
pub open spec fn bumped(m: Map<String, usize>, key: String, n: usize) -> usize {
    let before: int = if m.contains_key(key) { m[key] as int } else { 0 };
    if before + n > usize::MAX { usize::MAX } else { (before + n) as usize }
}

/// Counts one more rejected candidate under `reason`; nothing else changes. The count
/// is stated for string keys whose comparison is lawful.
pub fn reject(d: &mut DecodeDiagnostics, reason: &str)
    ensures
        final(d).frames == old(d).frames,
        final(d).checked_regions@ == old(d).checked_regions@,
        final(d).limitations@ == old(d).limitations@,
        obeys_cmp::<String>() ==> exists|key: String| key@ == reason@
            && #[trigger] final(d).rejected@ == old(d).rejected@.insert(key, bumped(old(d).rejected@, key, 1)),
{
    let key = owned(reason);
    let n: usize = match d.rejected.get(&key) {
        Some(n) => *n,
        None => 0,
    };
    let next: usize = if n == usize::MAX { n } else { n + 1 };
    let ghost k = key;
    d.rejected.insert(key, next);
    proof {
        if obeys_cmp::<String>() {
            assert(next == bumped(old(d).rejected@, k, 1));
            assert(d.rejected@ == old(d).rejected@.insert(k, bumped(old(d).rejected@, k, 1)));
        }
    }
}

/// Records a checked region of `kind` when coverage is retained.
pub fn checked(d: &mut DecodeDiagnostics, retain: bool, source: SourceSpan, kind: &str)
    ensures
        final(d).frames == old(d).frames,
        final(d).limitations@ == old(d).limitations@,
        !retain ==> final(d).checked_regions@ == old(d).checked_regions@,
        retain ==> final(d).checked_regions@.len() == old(d).checked_regions@.len() + 1
            && final(d).checked_regions@.drop_last() == old(d).checked_regions@
            && final(d).checked_regions@.last().source == source
            && final(d).checked_regions@.last().kind@ == kind@,
{
    if retain {
        d.checked_regions.push(CheckedRegion { source, kind: owned(kind) });
        proof {
            assert(d.checked_regions@.drop_last() =~= old(d).checked_regions@);
        }
    }
}

/// The index of the life with identity `serial` (identities are distinct).
pub open spec fn life_index(lives: Seq<Life>, serial: u16, k: int) -> Option<int>
    decreases lives.len() - k,
{
    if k < 0 || k >= lives.len() {
        None
    } else if lives[k].id == serial {
        Some(k)
    } else {
        life_index(lives, serial, k + 1)
    }
}

/// The life `serial` when it is current at `time`: it belongs to `player` (when one
/// is given), it has started, it has not ended and its recorded death has not passed.
pub open spec fn live_spec(lives: Seq<Life>, serial: u16, player: Option<u8>, time: u64) -> Option<int> {
    match life_index(lives, serial, 0) {
        None => None,
        Some(k) => {
            let l = lives[k];
            if (player matches Some(p) && p != l.player) || time < l.start_us || time >= l.end_us || (
            l.death_us matches Some(d) && time >= d) {
                None
            } else {
                Some(k)
            }
        },
    }
}

pub fn live(lives: &Vec<Life>, serial: u16, player: Option<u8>, time: u64) -> (r: Option<usize>)
    ensures
        r is Some <==> live_spec(lives@, serial, player, time) is Some,
        r matches Some(k) ==> live_spec(lives@, serial, player, time) == Some(k as int) && k < lives@.len(),
{
    let mut k: usize = 0;
    while k < lives.len()
        invariant
            k <= lives@.len(),
            life_index(lives@, serial, 0) == life_index(lives@, serial, k as int),
        decreases lives@.len() - k,
    {
        if lives[k].id == serial {
            let l = &lives[k];
            let other_player = match player {
                Some(p) => p != l.player,
                None => false,
            };
            let dead = match l.death_us {
                Some(d) => time >= d,
                None => false,
            };
            if other_player || time < l.start_us || time >= l.end_us || dead {
                return None;
            }
            return Some(k);
        }
        k += 1;
    }
    None
}

/// The smallest non-zero packet timestamp.
pub open spec fn origin_from(packets: Seq<FilmPacket>, k: int) -> Option<u64>
    decreases packets.len() - k,
{
    if k < 0 || k >= packets.len() {
        None
    } else {
        let rest = origin_from(packets, k + 1);
        let t = packets[k].timestamp_us;
        if t == 0 {
            rest
        } else {
            match rest {
                Some(m) => Some(if t <= m { t } else { m }),
                None => Some(t),
            }
        }
    }
}

pub fn origin(packets: &Vec<FilmPacket>) -> (r: Option<u64>)
    ensures
        r == origin_from(packets@, 0),
{
    let mut best: Option<u64> = None;
    let mut k: usize = packets.len();
    while k > 0
        invariant
            k <= packets@.len(),
            best == origin_from(packets@, k as int),
        decreases k,
    {
        k -= 1;
        let t = packets[k].timestamp_us;
        if t != 0 {
            best = match best {
                Some(m) => Some(if t <= m { t } else { m }),
                None => Some(t),
            };
        }
    }
    best
}

/// The largest packet time after `origin` (saturating at zero), or zero.
pub open spec fn last_time_from(packets: Seq<FilmPacket>, origin: u64, k: int) -> u64
    decreases packets.len() - k,
{
    if k < 0 || k >= packets.len() {
        0
    } else {
        let t = packets[k].timestamp_us;
        let d = if t >= origin { (t - origin) as u64 } else { 0 };
        let rest = last_time_from(packets, origin, k + 1);
        if d >= rest { d } else { rest }
    }
}

/// The manifest duration when given; otherwise one microsecond after the last packet.
pub open spec fn duration_spec(given: Option<u64>, packets: Seq<FilmPacket>, origin: u64) -> u64 {
    match given {
        Some(d) => d,
        None => (last_time_from(packets, origin, 0) + 1) as u64,
    }
}

proof fn lemma_last_time_bound(packets: Seq<FilmPacket>, origin: u64, k: int)
    requires
        origin > 0,
    ensures
        last_time_from(packets, origin, k) < u64::MAX,
    decreases packets.len() - k,
{
    if 0 <= k < packets.len() {
        lemma_last_time_bound(packets, origin, k + 1);
    }
}

pub fn duration(given: Option<u64>, packets: &Vec<FilmPacket>, origin: u64) -> (r: u64)
    requires
        origin > 0,
    ensures
        r == duration_spec(given, packets@, origin),
{
    match given {
        Some(d) => d,
        None => {
            let mut last: u64 = 0;
            let mut k: usize = packets.len();
            while k > 0
                invariant
                    k <= packets@.len(),
                    last == last_time_from(packets@, origin, k as int),
                decreases k,
            {
                k -= 1;
                let t = packets[k].timestamp_us;
                let d = if t >= origin { t - origin } else { 0 };
                if d >= last {
                    last = d;
                }
            }
            proof {
                lemma_last_time_bound(packets@, origin, 0);
            }
            last + 1
        },
    }
}

/// The pawn archetype's components that the decoder reads, by position.
pub const PAWN_COMPONENTS: [(usize, &'static str); 12] = [
    (0, "object-position-dynamic-precision-component"),
    (1, "object-translational-velocity-dynamic-precision-component"),
    (4, "object-body-vitality-component"),
    (5, "object-shield-vitality-component"),
    (21, "unit-desired-aiming-vector-component"),
    (25, "unit-command-tick-component"),
    (30, "weapon-state-ammo"),
    (31, "weapon-state-rounds-inventory"),
    (33, "weapon-state-ammo"),
    (34, "weapon-state-rounds-inventory"),
    (35, "weapon-state-overheated"),
    (42, "biped-desired-weapon-set"),
];

/// Whether component `k` of the table stands at its position among `names`.
pub open spec fn pawn_component_ok(names: Seq<Seq<char>>, k: int) -> bool {
    let (i, name) = PAWN_COMPONENTS@[k];
    i < names.len() && names[i as int] == name@
}

/// The first table entry from `k` on that `names` lacks.
pub open spec fn first_bad_pawn(names: Seq<Seq<char>>, k: int) -> Option<int>
    decreases 12 - k,
{
    if k < 0 || k >= 12 {
        None
    } else if !pawn_component_ok(names, k) {
        Some(k)
    } else {
        first_bad_pawn(names, k + 1)
    }
}

/// The message for a missing pawn component.
pub open spec fn pawn_message(k: int) -> Seq<char> {
    "unsupported pawn component "@ + decimal(PAWN_COMPONENTS@[k].0 as nat) + "; expected "@ + PAWN_COMPONENTS@[k].1@
}

proof fn lemma_lowest_of_type_range(chunks: Seq<FilmChunkData>, t: i32)
    ensures
        lowest_of_type(chunks, t) matches Some(i) ==> 0 <= i < chunks.len(),
    decreases chunks.len(),
{
    if chunks.len() > 0 {
        lemma_lowest_of_type_range(chunks.drop_last(), t);
    }
}

/// The registry of a film, checked for the pawn components the decoder reads.
pub open spec fn registry_ok(chunks: Seq<FilmChunkData>, r: Result<FilmRegistry, DecodeError>) -> bool {
    match lowest_of_type(chunks, 1) {
        None => r matches Err(e) && e == DecodeError::Missing("bootstrap registry"),
        Some(i) => {
            let data = chunks[i].data@;
            if data.len() / 16640 <= 35 {
                r matches Err(e) && e == DecodeError::Missing("pawn component registry")
            } else {
                match first_bad_pawn(block_components(data, 35, 0), 0) {
                    Some(k) => r matches Err(DecodeError::Inconsistent(m)) && m@ == pawn_message(k),
                    None => r matches Ok(reg) && registry_matches(reg, data),
                }
            }
        },
    }
}

pub fn registry(chunks: &[FilmChunkData]) -> (r: Result<FilmRegistry, DecodeError>)
    ensures
        registry_ok(chunks@, r),
{
    let registry = match decode_registry(chunks) {
        Some(r) => r,
        None => return Err(DecodeError::Missing("bootstrap registry")),
    };
    let ghost data = chunks@[lowest_of_type(chunks@, 1)->0].data@;
    let pawn = match registry.archetype(35) {
        Some(a) => a,
        None => return Err(DecodeError::Missing("pawn component registry")),
    };
    let ghost names = block_components(data, 35, 0);
    proof {
        lemma_lowest_of_type_range(chunks@, 1);
        assert(texts(pawn.components@) == names);
    }
    let mut k: usize = 0;
    while k < 12
        invariant
            k <= 12,
            lowest_of_type(chunks@, 1) is Some,
            0 <= lowest_of_type(chunks@, 1)->0 < chunks@.len(),
            data == chunks@[lowest_of_type(chunks@, 1)->0].data@,
            registry_matches(registry, data),
            registry.archetypes@.len() > 35,
            names == block_components(data, 35, 0),
            texts(pawn.components@) == names,
            first_bad_pawn(names, 0) == first_bad_pawn(names, k as int),
        decreases 12 - k,
    {
        let (i, name) = PAWN_COMPONENTS[k];
        assert((i, name) == PAWN_COMPONENTS@[k as int]);
        let ok = i < pawn.components.len() && text_eq(pawn.components[i].as_str(), name);
        proof {
            if i < pawn.components@.len() {
                assert(names[i as int] == pawn.components@[i as int]@);
            }
            assert(ok == pawn_component_ok(names, k as int));
        }
        if !ok {
            let mut m = owned("unsupported pawn component ");
            push_str(&mut m, u64_to_string(i as u64).as_str());
            push_str(&mut m, "; expected ");
            push_str(&mut m, name);
            proof {
                assert(m@ =~= pawn_message(k as int));
            }
            return Err(DecodeError::Inconsistent(m));
        }
        k += 1;
    }
    Ok(registry)
}

/// Values whose equality the decoder can test.
pub trait SameValue: Sized {
    fn same(&self, other: &Self) -> (r: bool)
        ensures
            r == (*self == *other),
    ;
}

impl SameValue for () {
    fn same(&self, other: &Self) -> (r: bool) {
        true
    }
}

impl SameValue for bool {
    fn same(&self, other: &Self) -> (r: bool) {
        *self == *other
    }
}

impl SameValue for u8 {
    fn same(&self, other: &Self) -> (r: bool) {
        *self == *other
    }
}

impl SameValue for u64 {
    fn same(&self, other: &Self) -> (r: bool) {
        *self == *other
    }
}

impl SameValue for Velocity {
    fn same(&self, other: &Self) -> (r: bool) {
        *self == *other
    }
}

impl SameValue for Aim {
    fn same(&self, other: &Self) -> (r: bool) {
        *self == *other
    }
}

impl SameValue for InputAxes {
    fn same(&self, other: &Self) -> (r: bool) {
        *self == *other
    }
}

impl SameValue for Firing {
    fn same(&self, other: &Self) -> (r: bool) {
        *self == *other
    }
}

impl SameValue for Magazine {
    fn same(&self, other: &Self) -> (r: bool) {
        *self == *other
    }
}

impl SameValue for WeaponObservation {
    fn same(&self, other: &Self) -> (r: bool) {
        *self == *other
    }
}

impl SameValue for ZoomStage {
    fn same(&self, other: &Self) -> (r: bool) {
        *self == *other
    }
}

impl SameValue for BodyVitality {
    fn same(&self, other: &Self) -> (r: bool) {
        *self == *other
    }
}

impl SameValue for ShieldVitality {
    fn same(&self, other: &Self) -> (r: bool) {
        *self == *other
    }
}

impl SameValue for Position {
    fn same(&self, other: &Self) -> (r: bool) {
        let input_same = match (self.input, other.input) {
            (Some(a), Some(b)) => a == b,
            (None, None) => true,
            _ => false,
        };
        let r = self.raw[0] == other.raw[0] && self.raw[1] == other.raw[1] && self.raw[2] == other.raw[2]
            && self.spawn == other.spawn && input_same;
        proof {
            if r {
                assert(self.raw =~= other.raw);
            }
        }
        r
    }
}

/// Whether sample `a` sorts before `b` by (time, life).
pub open spec fn time_life_before<T>(a: Sample<T>, b: Sample<T>) -> bool {
    a.time_us < b.time_us || (a.time_us == b.time_us && a.life < b.life)
}

pub open spec fn insert_time_life<T>(s: Seq<Sample<T>>, e: Sample<T>) -> Seq<Sample<T>>
    decreases s.len(),
{
    if s.len() == 0 {
        seq![e]
    } else if time_life_before(e, s[0]) {
        seq![e] + s
    } else {
        seq![s[0]] + insert_time_life(s.drop_first(), e)
    }
}

/// Samples in (time, life) order; equal keys keep their order.
pub open spec fn sort_time_life<T>(s: Seq<Sample<T>>) -> Seq<Sample<T>>
    decreases s.len(),
{
    if s.len() == 0 {
        seq![]
    } else {
        insert_time_life(sort_time_life(s.drop_last()), s.last())
    }
}

/// Whether `s` holds a sample with the time, life and value of `e`.
pub open spec fn has_same<T>(s: Seq<Sample<T>>, e: Sample<T>) -> bool {
    exists|j: int| 0 <= j < s.len() && s[j].time_us == e.time_us && s[j].life == e.life && s[j].value == e.value
}

/// The first sample of each (time, life, value).
pub open spec fn first_samples<T>(s: Seq<Sample<T>>) -> Seq<Sample<T>>
    decreases s.len(),
{
    if s.len() == 0 {
        seq![]
    } else {
        let kept = first_samples(s.drop_last());
        if has_same(kept, s.last()) {
            kept
        } else {
            kept.push(s.last())
        }
    }
}

proof fn lemma_insert_time_life_at<T>(s: Seq<Sample<T>>, e: Sample<T>, j: int)
    requires
        0 <= j <= s.len(),
        forall|k: int| 0 <= k < j ==> !time_life_before(e, #[trigger] s[k]),
        j < s.len() ==> time_life_before(e, s[j]),
    ensures
        insert_time_life(s, e) == s.insert(j, e),
    decreases j,
{
    if j == 0 {
        if s.len() > 0 {
            assert(seq![e] + s =~= s.insert(0, e));
        } else {
            assert(seq![e] =~= s.insert(0, e));
        }
    } else {
        let t = s.drop_first();
        assert forall|k: int| 0 <= k < j - 1 implies !time_life_before(e, #[trigger] t[k]) by {
            assert(t[k] == s[k + 1]);
        }
        lemma_insert_time_life_at(t, e, j - 1);
        assert(seq![s[0]] + t.insert(j - 1, e) =~= s.insert(j, e));
    }
}

/// Samples in non-decreasing (time, life) order.
pub open spec fn time_life_ordered<T>(s: Seq<Sample<T>>) -> bool {
    forall|i: int, j: int| 0 <= i < j < s.len() ==> !time_life_before(#[trigger] s[j], #[trigger] s[i])
}

/// No two samples share a time, life and value.
pub open spec fn distinct_samples<T>(s: Seq<Sample<T>>) -> bool {
    forall|i: int, j: int|
        0 <= i < j < s.len() ==> !((#[trigger] s[i]).time_us == (#[trigger] s[j]).time_us && s[i].life == s[j].life
            && s[i].value == s[j].value)
}

proof fn lemma_insert_time_life_members<T>(s: Seq<Sample<T>>, e: Sample<T>)
    ensures
        insert_time_life(s, e).len() == s.len() + 1,
        forall|k: int| 0 <= k < insert_time_life(s, e).len() ==> #[trigger] insert_time_life(s, e)[k] == e
            || s.contains(insert_time_life(s, e)[k]),
    decreases s.len(),
{
    if s.len() > 0 && !time_life_before(e, s[0]) {
        let rest = s.drop_first();
        lemma_insert_time_life_members(rest, e);
        let r = insert_time_life(s, e);
        assert forall|k: int| 0 <= k < r.len() implies #[trigger] r[k] == e || s.contains(r[k]) by {
            if k == 0 {
                assert(s[0] == r[0]);
            } else {
                let x = insert_time_life(rest, e)[k - 1];
                assert(r[k] == x);
                if x != e {
                    let m = choose|m: int| 0 <= m < rest.len() && rest[m] == x;
                    assert(s[m + 1] == x);
                }
            }
        }
    }
}

proof fn lemma_insert_time_life_ordered<T>(s: Seq<Sample<T>>, e: Sample<T>)
    requires
        time_life_ordered(s),
    ensures
        time_life_ordered(insert_time_life(s, e)),
    decreases s.len(),
{
    if s.len() == 0 {
    } else if time_life_before(e, s[0]) {
        let r = seq![e] + s;
        assert forall|i: int, j: int| 0 <= i < j < r.len() implies !time_life_before(#[trigger] r[j], #[trigger] r[i]) by {
            if i == 0 {
                assert(!time_life_before(s[j - 1], s[0]) || j - 1 == 0);
            } else {
                assert(r[i] == s[i - 1] && r[j] == s[j - 1]);
            }
        }
    } else {
        let rest = s.drop_first();
        assert(time_life_ordered(rest)) by {
            assert forall|i: int, j: int| 0 <= i < j < rest.len() implies !time_life_before(#[trigger] rest[j], #[trigger] rest[i]) by {
                assert(rest[i] == s[i + 1] && rest[j] == s[j + 1]);
            }
        }
        lemma_insert_time_life_ordered(rest, e);
        lemma_insert_time_life_members(rest, e);
        let t = insert_time_life(rest, e);
        let r = seq![s[0]] + t;
        assert forall|i: int, j: int| 0 <= i < j < r.len() implies !time_life_before(#[trigger] r[j], #[trigger] r[i]) by {
            if i == 0 {
                let x = t[j - 1];
                assert(r[j] == x);
                if x != e {
                    let m = choose|m: int| 0 <= m < rest.len() && rest[m] == x;
                    assert(s[m + 1] == x);
                }
            } else {
                assert(r[i] == t[i - 1] && r[j] == t[j - 1]);
            }
        }
        assert(insert_time_life(s, e) == r);
    }
}

proof fn lemma_sort_time_life_ordered<T>(s: Seq<Sample<T>>)
    ensures
        time_life_ordered(sort_time_life(s)),
        sort_time_life(s).len() == s.len(),
        forall|k: int| 0 <= k < sort_time_life(s).len() ==> s.contains(#[trigger] sort_time_life(s)[k]),
    decreases s.len(),
{
    if s.len() > 0 {
        let prior = sort_time_life(s.drop_last());
        lemma_sort_time_life_ordered(s.drop_last());
        lemma_insert_time_life_ordered(prior, s.last());
        lemma_insert_time_life_members(prior, s.last());
        let r = sort_time_life(s);
        assert forall|k: int| 0 <= k < r.len() implies s.contains(#[trigger] r[k]) by {
            if r[k] == s.last() {
                assert(s[s.len() - 1] == r[k]);
            } else {
                let m = choose|m: int| 0 <= m < prior.len() && prior[m] == r[k];
                assert(s.drop_last().contains(prior[m]));
                let q = choose|q: int| 0 <= q < s.drop_last().len() && s.drop_last()[q] == r[k];
                assert(s[q] == r[k]);
            }
        }
    }
}

proof fn lemma_first_samples_ordered_distinct<T>(s: Seq<Sample<T>>)
    requires
        time_life_ordered(s),
    ensures
        time_life_ordered(first_samples(s)),
        distinct_samples(first_samples(s)),
        forall|k: int| 0 <= k < first_samples(s).len() ==> s.contains(#[trigger] first_samples(s)[k]),
    decreases s.len(),
{
    if s.len() > 0 {
        let d = s.drop_last();
        assert(time_life_ordered(d)) by {
            assert forall|i: int, j: int| 0 <= i < j < d.len() implies !time_life_before(#[trigger] d[j], #[trigger] d[i]) by {
                assert(d[i] == s[i] && d[j] == s[j]);
            }
        }
        lemma_first_samples_ordered_distinct(d);
        let kept = first_samples(d);
        let r = first_samples(s);
        assert forall|k: int| 0 <= k < kept.len() implies !time_life_before(s.last(), #[trigger] kept[k]) by {
            let q = choose|q: int| 0 <= q < d.len() && d[q] == kept[k];
            assert(s[q] == kept[k]);
        }
        assert forall|k: int| 0 <= k < r.len() implies s.contains(#[trigger] r[k]) by {
            if k < kept.len() {
                assert(r[k] == kept[k]);
                let q = choose|q: int| 0 <= q < d.len() && d[q] == kept[k];
                assert(s[q] == kept[k]);
            } else {
                assert(r[k] == s.last());
                assert(s[s.len() - 1] == r[k]);
            }
        }
        if !has_same(kept, s.last()) {
            assert forall|i: int, j: int| 0 <= i < j < r.len() implies !time_life_before(#[trigger] r[j], #[trigger] r[i]) by {
                if j < kept.len() {
                    assert(r[i] == kept[i] && r[j] == kept[j]);
                } else {
                    assert(r[i] == kept[i] && r[j] == s.last());
                }
            }
            assert forall|i: int, j: int| 0 <= i < j < r.len() implies !((#[trigger] r[i]).time_us == (#[trigger] r[j]).time_us
                && r[i].life == r[j].life && r[i].value == r[j].value) by {
                if j < kept.len() {
                    assert(r[i] == kept[i] && r[j] == kept[j]);
                } else {
                    assert(r[i] == kept[i] && r[j] == s.last());
                }
            }
        }
    }
}

/// Normalized samples are ordered by (time, life), no two of them share a time, life
/// and value, and each of them is one of the given samples.
pub proof fn lemma_normalized_ordered_distinct<T>(rows: Seq<Sample<T>>)
    ensures
        time_life_ordered(first_samples(sort_time_life(rows))),
        distinct_samples(first_samples(sort_time_life(rows))),
        forall|k: int| 0 <= k < first_samples(sort_time_life(rows)).len() ==> rows.contains(
            #[trigger] first_samples(sort_time_life(rows))[k],
        ),
{
    let sorted = sort_time_life(rows);
    lemma_sort_time_life_ordered(rows);
    lemma_first_samples_ordered_distinct(sorted);
    let r = first_samples(sorted);
    assert forall|k: int| 0 <= k < r.len() implies rows.contains(#[trigger] r[k]) by {
        let q = choose|q: int| 0 <= q < sorted.len() && sorted[q] == r[k];
        assert(rows.contains(sorted[q]));
    }
}

/// Sorts samples by (time, life), keeps the first of each (time, life, value), and
/// returns how many were removed.
pub fn normalize<T: SameValue>(rows: Vec<Sample<T>>) -> (r: (Vec<Sample<T>>, usize))
    ensures
        r.0@ == first_samples(sort_time_life(rows@)),
        r.1 == rows@.len() - r.0@.len(),
{
    let ghost all = rows@;
    let n = rows.len();
    let mut rest = rows;
    let mut sorted: Vec<Sample<T>> = Vec::new();
    let ghost mut k: int = 0;
    proof {
        assert(all.subrange(0, 0) =~= Seq::<Sample<T>>::empty());
        assert(rest@ =~= all.subrange(0, all.len() as int));
    }
    while rest.len() > 0
        invariant
            0 <= k <= all.len(),
            rest@.len() + k == all.len(),
            rest@ == all.subrange(k, all.len() as int),
            sorted@ == sort_time_life(all.subrange(0, k)),
            sorted@.len() == k,
        decreases rest@.len(),
    {
        let e = rest.remove(0);
        proof {
            assert(rest@ =~= all.subrange(k + 1, all.len() as int));
            assert(all.subrange(0, k + 1).drop_last() =~= all.subrange(0, k));
        }
        let ghost s = sorted@;
        let mut j: usize = 0;
        while j < sorted.len() && !(e.time_us < sorted[j].time_us || (e.time_us == sorted[j].time_us && e.life
            < sorted[j].life))
            invariant
                j <= sorted@.len(),
                s == sorted@,
                forall|m: int| 0 <= m < j ==> !time_life_before(e, #[trigger] s[m]),
            decreases sorted@.len() - j,
        {
            j += 1;
        }
        proof {
            lemma_insert_time_life_at(s, e, j as int);
        }
        sorted.insert(j, e);
        proof {
            k = k + 1;
        }
    }
    proof {
        assert(all.subrange(0, k) =~= all);
    }
    let ghost ordered = sorted@;
    let mut out: Vec<Sample<T>> = Vec::new();
    let ghost mut i: int = 0;
    proof {
        assert(ordered.subrange(0, 0) =~= Seq::<Sample<T>>::empty());
        assert(sorted@ =~= ordered.subrange(0, ordered.len() as int));
    }
    while sorted.len() > 0
        invariant
            0 <= i <= ordered.len(),
            sorted@ == ordered.subrange(i, ordered.len() as int),
            out@ == first_samples(ordered.subrange(0, i)),
            out@.len() <= i,
        decreases sorted@.len(),
    {
        let row = sorted.remove(0);
        proof {
            assert(row == ordered[i]);
            assert(sorted@ =~= ordered.subrange(i + 1, ordered.len() as int));
        }
        let mut duplicate = false;
        let mut j: usize = 0;
        while j < out.len()
            invariant
                j <= out@.len(),
                duplicate == (exists|m: int| 0 <= m < j && out@[m].time_us == row.time_us && out@[m].life == row.life
                    && out@[m].value == row.value),
            decreases out@.len() - j,
        {
            if out[j].time_us == row.time_us && out[j].life == row.life && out[j].value.same(&row.value) {
                duplicate = true;
            }
            j += 1;
        }
        proof {
            assert(ordered.subrange(0, i + 1).drop_last() =~= ordered.subrange(0, i));
            assert(duplicate == has_same(out@, row));
        }
        if !duplicate {
            out.push(row);
        }
        proof {
            i = i + 1;
        }
    }
    proof {
        assert(ordered.subrange(0, i) =~= ordered);
    }
    let removed = n - out.len();
    (out, removed)
}

/// Every chunk's bits can be addressed with room for the longest record.
pub open spec fn film_addressable(chunks: Seq<FilmChunkData>) -> bool {
    forall|i: int| 0 <= i < chunks.len() ==> #[trigger] chunks[i].data@.len() * 8 + 16384 <= usize::MAX
}

/// The first chunk from `k` on with chunk index `index`.
pub open spec fn chunk_with_index(chunks: Seq<FilmChunkData>, index: i32, k: int) -> Option<int>
    decreases chunks.len() - k,
{
    if k < 0 || k >= chunks.len() {
        None
    } else if chunks[k].metadata.index == index {
        Some(k)
    } else {
        chunk_with_index(chunks, index, k + 1)
    }
}

/// The payload bytes of packet `p`: its range in the first chunk with its chunk
/// index, when there is one and the range lies inside it.
pub open spec fn payload_spec(chunks: Seq<FilmChunkData>, p: FilmPacket) -> Option<Seq<u8>> {
    match chunk_with_index(chunks, p.chunk_index, 0) {
        None => None,
        Some(c) => {
            let data = chunks[c].data@;
            if p.payload_offset + p.payload_size > data.len() {
                None
            } else {
                Some(data.subrange(p.payload_offset as int, p.payload_offset + p.payload_size))
            }
        },
    }
}

/// The payload of packet `p` in the chunk with its index.
fn payload<'a>(chunks: &'a [FilmChunkData], p: &FilmPacket) -> (r: Option<&'a [u8]>)
    requires
        film_addressable(chunks@),
    ensures
        r matches Some(s) ==> s@.len() * 8 + 16384 <= usize::MAX,
        match payload_spec(chunks@, *p) {
            Some(bytes) => r matches Some(s) && s@ == bytes,
            None => r is None,
        },
{
    let mut k: usize = 0;
    while k < chunks.len()
        invariant
            k <= chunks@.len(),
            film_addressable(chunks@),
            chunk_with_index(chunks@, p.chunk_index, 0) == chunk_with_index(chunks@, p.chunk_index, k as int),
        decreases chunks@.len() - k,
    {
        if chunks[k].metadata.index == p.chunk_index {
            let data = chunks[k].data.as_slice();
            assert(data@ == chunks@[k as int].data@);
            proof {
                assert(chunks@[k as int].data@.len() * 8 + 16384 <= usize::MAX);
            }
            let end = match p.payload_offset.checked_add(p.payload_size) {
                Some(e) => e,
                None => return None,
            };
            if end > data.len() {
                return None;
            }
            return Some(vstd::slice::slice_subrange(data, p.payload_offset, end));
        }
        k += 1;
    }
    None
}

/// The position of the track with roster index `id`.
pub fn find_track(players: &Vec<PlayerTrack>, id: u8) -> (r: Option<usize>)
    ensures
        r matches Some(k) ==> k < players@.len() && players@[k as int].id == id,
        r matches Some(k) ==> forall|j: int| 0 <= j < k ==> (#[trigger] players@[j]).id != id,
        r is None ==> forall|k: int| 0 <= k < players@.len() ==> (#[trigger] players@[k]).id != id,
{
    let mut k: usize = 0;
    while k < players.len()
        invariant
            k <= players@.len(),
            forall|j: int| 0 <= j < k ==> (#[trigger] players@[j]).id != id,
        decreases players@.len() - k,
    {
        if players[k].id == id {
            return Some(k);
        }
        k += 1;
    }
    None
}

/// An empty track for a roster index.
/// A track with no observations yet.
pub open spec fn track_is_new(t: PlayerTrack) -> bool {
    &&& t.appearance@.len() == 0 && t.lives@.len() == 0 && t.positions@.len() == 0 && t.velocities@.len() == 0
    &&& t.aim@.len() == 0 && t.inputs@.len() == 0 && t.crouch_input@.len() == 0 && t.firing@.len() == 0
    &&& t.damage@.len() == 0 && t.melee@.len() == 0 && t.grenades@.len() == 0 && t.reloads@.len() == 0
    &&& t.magazines@.len() == 0 && t.selections@.len() == 0 && t.weapons@.len() == 0 && t.zoom@.len() == 0
    &&& t.body@.len() == 0 && t.shields@.len() == 0
}

pub fn new_track(id: u8, xuid: Option<String>, name: String) -> (r: PlayerTrack)
    ensures
        r.id == id,
        r.xuid == xuid,
        r.name == name,
        r.lives@.len() == 0,
        r.grenades@.len() == 0,
        track_is_new(r),
{
    PlayerTrack {
        id,
        xuid,
        name,
        appearance: Vec::new(),
        lives: Vec::new(),
        positions: Vec::new(),
        velocities: Vec::new(),
        aim: Vec::new(),
        inputs: Vec::new(),
        crouch_input: Vec::new(),
        firing: Vec::new(),
        damage: Vec::new(),
        melee: Vec::new(),
        grenades: Vec::new(),
        reloads: Vec::new(),
        magazines: Vec::new(),
        selections: Vec::new(),
        weapons: Vec::new(),
        zoom: Vec::new(),
        body: Vec::new(),
        shields: Vec::new(),
    }
}

/// Roster indices in increasing order.
pub open spec fn tracks_ordered(players: Seq<PlayerTrack>) -> bool {
    forall|i: int, j: int| 0 <= i < j < players.len() ==> (#[trigger] players[i]).id < (#[trigger] players[j]).id
}

/// The tracks hold the same lives, position by position.
pub open spec fn same_lives(a: Seq<PlayerTrack>, b: Seq<PlayerTrack>) -> bool {
    a.len() == b.len() && forall|k: int| 0 <= k < a.len() ==> (#[trigger] a[k]).lives == b[k].lives
}

/// No track has lives yet.
pub open spec fn lives_empty(players: Seq<PlayerTrack>) -> bool {
    forall|q: int| 0 <= q < players.len() ==> (#[trigger] players[q]).lives@.len() == 0
}

/// Each track's lives are its own roster index's, ordered by start.
pub open spec fn own_lives(t: PlayerTrack) -> bool {
    &&& forall|i: int| 0 <= i < t.lives@.len() ==> (#[trigger] t.lives@[i]).player == t.id
    &&& forall|i: int, j: int| 0 <= i < j < t.lives@.len() ==> (#[trigger] t.lives@[i]).start_us <= (#[trigger] t.lives@[j]).start_us
}

/// A track's roster index, XUID text and name.
pub open spec fn track_head(t: PlayerTrack) -> (u8, Option<Seq<char>>, Seq<char>) {
    (t.id, match t.xuid {
        Some(x) => Some(x@),
        None => None,
    }, t.name@)
}

pub open spec fn track_heads(s: Seq<PlayerTrack>) -> Seq<(u8, Option<Seq<char>>, Seq<char>)> {
    s.map_values(|t: PlayerTrack| track_head(t))
}

/// `e` inserted before the first head with a larger roster index.
pub open spec fn insert_head(s: Seq<(u8, Option<Seq<char>>, Seq<char>)>, e: (u8, Option<Seq<char>>, Seq<char>)) -> Seq<(u8, Option<Seq<char>>, Seq<char>)>
    decreases s.len(),
{
    if s.len() == 0 {
        seq![e]
    } else if e.0 < s[0].0 {
        seq![e] + s
    } else {
        seq![s[0]] + insert_head(s.drop_first(), e)
    }
}

proof fn lemma_insert_head_at(s: Seq<(u8, Option<Seq<char>>, Seq<char>)>, e: (u8, Option<Seq<char>>, Seq<char>), j: int)
    requires
        0 <= j <= s.len(),
        forall|k: int| 0 <= k < j ==> (#[trigger] s[k]).0 < e.0,
        j < s.len() ==> e.0 < s[j].0,
    ensures
        insert_head(s, e) == s.insert(j, e),
    decreases j,
{
    if j == 0 {
        if s.len() > 0 {
            assert(seq![e] + s =~= s.insert(0, e));
        } else {
            assert(seq![e] =~= s.insert(0, e));
        }
    } else {
        let t = s.drop_first();
        assert forall|k: int| 0 <= k < j - 1 implies (#[trigger] t[k]).0 < e.0 by {
            assert(t[k] == s[k + 1]);
        }
        lemma_insert_head_at(t, e, j - 1);
        assert(seq![s[0]] + t.insert(j - 1, e) =~= s.insert(j, e));
    }
}

/// Inserts a track whose roster index is new, keeping the order.
pub fn insert_track(players: &mut Vec<PlayerTrack>, t: PlayerTrack)
    requires
        tracks_ordered(old(players)@),
        forall|k: int| 0 <= k < old(players)@.len() ==> (#[trigger] old(players)@[k]).id != t.id,
    ensures
        tracks_ordered(final(players)@),
        final(players)@.len() == old(players)@.len() + 1,
        exists|j: int| 0 <= j < final(players)@.len() && final(players)@[j] == t,
        forall|k: int| 0 <= k < old(players)@.len() ==> final(players)@.contains(#[trigger] old(players)@[k]),
        forall|k: int| 0 <= k < final(players)@.len() ==> (#[trigger] final(players)@[k]) == t || old(players)@.contains(final(players)@[k]),
        track_heads(final(players)@) == insert_head(track_heads(old(players)@), track_head(t)),
{
    let mut j: usize = 0;
    while j < players.len() && players[j].id < t.id
        invariant
            j <= players@.len(),
            forall|k: int| 0 <= k < j ==> (#[trigger] players@[k]).id < t.id,
        decreases players@.len() - j,
    {
        j += 1;
    }
    let ghost before = players@;
    let ghost th = track_head(t);
    proof {
        assert forall|k: int| 0 <= k < j implies (#[trigger] track_heads(before)[k]).0 < th.0 by {
            assert(track_heads(before)[k] == track_head(before[k]));
        }
        if j < before.len() {
            assert(track_heads(before)[j as int] == track_head(before[j as int]));
            assert(before[j as int].id != t.id);
        }
        lemma_insert_head_at(track_heads(before), th, j as int);
    }
    players.insert(j, t);
    proof {
        assert(track_heads(players@) =~= track_heads(before).insert(j as int, th));
        assert(players@ == before.insert(j as int, t));
        assert forall|a: int, b: int| 0 <= a < b < players@.len() implies (#[trigger] players@[a]).id
            < (#[trigger] players@[b]).id by {
            if b < j {
            } else if b == j {
            } else if a < j {
                assert(before[b - 1].id > t.id || before[b - 1].id >= t.id);
            } else if a == j {
                assert(before[b - 1].id != t.id);
                assert(j < before.len() ==> before[j as int].id >= t.id);
                if b - 1 > j {
                    assert(before[j as int].id < before[b - 1].id);
                }
            } else {
            }
        }
        assert(players@[j as int] == t);
        assert forall|k: int| 0 <= k < before.len() implies players@.contains(#[trigger] before[k]) by {
            if k < j {
                assert(players@[k] == before[k]);
            } else {
                assert(players@[k + 1] == before[k]);
            }
        }
        assert forall|k: int| 0 <= k < players@.len() implies (#[trigger] players@[k]) == t || before.contains(players@[k]) by {
            if k < j {
                assert(players@[k] == before[k]);
            } else if k > j {
                assert(players@[k] == before[k - 1]);
            }
        }
    }
}

/// One accepted observation of a player.
pub enum Observation {
    Appearance(AppearanceSample),
    Position(Sample<Position>),
    Velocity(Sample<Velocity>),
    Aim(Sample<Aim>),
    Input(Sample<InputAxes>),
    Crouch(Sample<bool>),
    Firing(Sample<Firing>),
    Damage(Sample<()>),
    Melee(Sample<u64>),
    Grenade(Sample<()>),
    Reload(Sample<()>),
    Magazine(Sample<Magazine>),
    Selection(Sample<u8>),
    Weapon(Sample<WeaponObservation>),
    Zoom(Sample<ZoomStage>),
    Body(Sample<BodyVitality>),
    Shield(Sample<ShieldVitality>),
}

/// The roster indices of the tracks, in order.
pub open spec fn track_ids(players: Seq<PlayerTrack>) -> Seq<u8> {
    players.map_values(|t: PlayerTrack| t.id)
}

/// A track's streams as plain values.
pub ghost struct TrackStreams {
    pub id: u8,
    pub xuid: Option<String>,
    pub name: String,
    pub appearance: Seq<AppearanceSample>,
    pub lives: Seq<Life>,
    pub positions: Seq<Sample<Position>>,
    pub velocities: Seq<Sample<Velocity>>,
    pub aim: Seq<Sample<Aim>>,
    pub inputs: Seq<Sample<InputAxes>>,
    pub crouch_input: Seq<Sample<bool>>,
    pub firing: Seq<Sample<Firing>>,
    pub damage: Seq<Sample<()>>,
    pub melee: Seq<Sample<u64>>,
    pub grenades: Seq<Sample<()>>,
    pub reloads: Seq<Sample<()>>,
    pub magazines: Seq<Sample<Magazine>>,
    pub selections: Seq<Sample<u8>>,
    pub weapons: Seq<Sample<WeaponObservation>>,
    pub zoom: Seq<Sample<ZoomStage>>,
    pub body: Seq<Sample<BodyVitality>>,
    pub shields: Seq<Sample<ShieldVitality>>,
}

pub open spec fn streams(t: PlayerTrack) -> TrackStreams {
    TrackStreams {
        id: t.id,
        xuid: t.xuid,
        name: t.name,
        appearance: t.appearance@,
        lives: t.lives@,
        positions: t.positions@,
        velocities: t.velocities@,
        aim: t.aim@,
        inputs: t.inputs@,
        crouch_input: t.crouch_input@,
        firing: t.firing@,
        damage: t.damage@,
        melee: t.melee@,
        grenades: t.grenades@,
        reloads: t.reloads@,
        magazines: t.magazines@,
        selections: t.selections@,
        weapons: t.weapons@,
        zoom: t.zoom@,
        body: t.body@,
        shields: t.shields@,
    }
}

pub open spec fn all_streams(players: Seq<PlayerTrack>) -> Seq<TrackStreams> {
    players.map_values(|t: PlayerTrack| streams(t))
}

/// The streams with the observation appended to its stream.
pub open spec fn push_obs(v: TrackStreams, o: Observation) -> TrackStreams {
    match o {
        Observation::Appearance(s) => TrackStreams { appearance: v.appearance.push(s), ..v },
        Observation::Position(s) => TrackStreams { positions: v.positions.push(s), ..v },
        Observation::Velocity(s) => TrackStreams { velocities: v.velocities.push(s), ..v },
        Observation::Aim(s) => TrackStreams { aim: v.aim.push(s), ..v },
        Observation::Input(s) => TrackStreams { inputs: v.inputs.push(s), ..v },
        Observation::Crouch(s) => TrackStreams { crouch_input: v.crouch_input.push(s), ..v },
        Observation::Firing(s) => TrackStreams { firing: v.firing.push(s), ..v },
        Observation::Damage(s) => TrackStreams { damage: v.damage.push(s), ..v },
        Observation::Melee(s) => TrackStreams { melee: v.melee.push(s), ..v },
        Observation::Grenade(s) => TrackStreams { grenades: v.grenades.push(s), ..v },
        Observation::Reload(s) => TrackStreams { reloads: v.reloads.push(s), ..v },
        Observation::Magazine(s) => TrackStreams { magazines: v.magazines.push(s), ..v },
        Observation::Selection(s) => TrackStreams { selections: v.selections.push(s), ..v },
        Observation::Weapon(s) => TrackStreams { weapons: v.weapons.push(s), ..v },
        Observation::Zoom(s) => TrackStreams { zoom: v.zoom.push(s), ..v },
        Observation::Body(s) => TrackStreams { body: v.body.push(s), ..v },
        Observation::Shield(s) => TrackStreams { shields: v.shields.push(s), ..v },
    }
}

/// The first track with roster index `id`, searching from `k`.
pub open spec fn track_index(players: Seq<TrackStreams>, id: u8, k: int) -> Option<int>
    decreases players.len() - k,
{
    if k < 0 || k >= players.len() {
        None
    } else if players[k].id == id {
        Some(k)
    } else {
        track_index(players, id, k + 1)
    }
}

/// The tracks after observation `o` of roster index `id`: appended to the first track
/// with that index, when there is one.
pub open spec fn add_obs(players: Seq<TrackStreams>, id: u8, o: Observation) -> Seq<TrackStreams> {
    match track_index(players, id, 0) {
        Some(k) => players.update(k, push_obs(players[k], o)),
        None => players,
    }
}

/// The tracks after a list of observations, in order.
pub open spec fn add_all(players: Seq<TrackStreams>, list: Seq<(u8, Observation)>) -> Seq<TrackStreams>
    decreases list.len(),
{
    if list.len() == 0 {
        players
    } else {
        add_obs(add_all(players, list.drop_last()), list.last().0, list.last().1)
    }
}

proof fn lemma_track_index_first(players: Seq<TrackStreams>, id: u8, k: int, j: int)
    requires
        0 <= k <= j < players.len(),
        players[j].id == id,
        forall|q: int| k <= q < j ==> (#[trigger] players[q]).id != id,
    ensures
        track_index(players, id, k) == Some(j),
    decreases j - k,
{
    if k < j {
        lemma_track_index_first(players, id, k + 1, j);
    }
}

proof fn lemma_track_index_none(players: Seq<TrackStreams>, id: u8, k: int)
    requires
        0 <= k,
        forall|q: int| k <= q < players.len() ==> (#[trigger] players[q]).id != id,
    ensures
        track_index(players, id, k) is None,
    decreases players.len() - k,
{
    if k < players.len() {
        lemma_track_index_none(players, id, k + 1);
    }
}

/// Adds an observation to the track with roster index `id`; a missing track is an error.
pub fn observe(players: &mut Vec<PlayerTrack>, id: u8, o: Observation) -> (r: Result<(), DecodeError>)
    ensures
        track_ids(final(players)@) == track_ids(old(players)@),
        forall|k: int| 0 <= k < final(players)@.len() ==> (#[trigger] final(players)@[k]).lives == old(players)@[k].lives,
        same_lives(old(players)@, final(players)@),
        r is Ok <==> track_ids(old(players)@).contains(id),
        r matches Err(e) ==> e == DecodeError::Missing("player track"),
        all_streams(final(players)@) == add_obs(all_streams(old(players)@), id, o),
{
    let k = match find_track(players, id) {
        Some(k) => k,
        None => {
            proof {
                lemma_track_index_none(all_streams(players@), id, 0);
                if track_ids(players@).contains(id) {
                    let j = choose|j: int| 0 <= j < track_ids(players@).len() && track_ids(players@)[j] == id;
                    assert(players@[j].id == id);
                }
            }
            return Err(DecodeError::Missing("player track"));
        },
    };
    proof {
        assert(track_ids(players@)[k as int] == id);
        lemma_track_index_first(all_streams(players@), id, 0, k as int);
    }
    let ghost before = players@;
    let ghost pushed = push_obs(streams(players@[k as int]), o);
    let mut t = players.remove(k);
    match o {
        Observation::Appearance(s) => t.appearance.push(s),
        Observation::Position(s) => t.positions.push(s),
        Observation::Velocity(s) => t.velocities.push(s),
        Observation::Aim(s) => t.aim.push(s),
        Observation::Input(s) => t.inputs.push(s),
        Observation::Crouch(s) => t.crouch_input.push(s),
        Observation::Firing(s) => t.firing.push(s),
        Observation::Damage(s) => t.damage.push(s),
        Observation::Melee(s) => t.melee.push(s),
        Observation::Grenade(s) => t.grenades.push(s),
        Observation::Reload(s) => t.reloads.push(s),
        Observation::Magazine(s) => t.magazines.push(s),
        Observation::Selection(s) => t.selections.push(s),
        Observation::Weapon(s) => t.weapons.push(s),
        Observation::Zoom(s) => t.zoom.push(s),
        Observation::Body(s) => t.body.push(s),
        Observation::Shield(s) => t.shields.push(s),
    }
    assert(streams(t) == pushed);
    players.insert(k, t);
    proof {
        assert(all_streams(players@) =~= all_streams(before).update(k as int, pushed));
        assert(track_ids(players@) =~= track_ids(before));
        assert forall|j: int| 0 <= j < players@.len() implies (#[trigger] players@[j]).lives == before[j].lives by {
            if j != k {
                assert(players@[j] == before[j]);
            }
        }
    }
    Ok(())
}

/// The roster index bound to roster player `i`, if any.
pub open spec fn roster_index(roster: Seq<FilmPlayer>, indices: Map<u64, u8>, i: int) -> Option<u8> {
    if indices.contains_key(roster[i].xuid) {
        Some(indices[roster[i].xuid])
    } else {
        None
    }
}

/// Two of the first `n` roster players are bound to one roster index.
pub open spec fn roster_conflict(roster: Seq<FilmPlayer>, indices: Map<u64, u8>, n: int) -> bool {
    exists|i: int, j: int|
        0 <= i < j < n && (#[trigger] roster_index(roster, indices, i)) is Some && roster_index(roster, indices, i)
            == #[trigger] roster_index(roster, indices, j)
}

/// The tracks of the first `n` roster players, ordered by roster index: index,
/// decimal XUID and recorded name.
pub open spec fn roster_heads(roster: Seq<FilmPlayer>, indices: Map<u64, u8>, n: int) -> Seq<(u8, Option<Seq<char>>, Seq<char>)>
    decreases n,
{
    if n <= 0 || n > roster.len() {
        seq![]
    } else {
        match roster_index(roster, indices, n - 1) {
            Some(id) => insert_head(roster_heads(roster, indices, n - 1), (id, Some(decimal(roster[n - 1].xuid as nat)), roster[n - 1].gamertag@)),
            None => roster_heads(roster, indices, n - 1),
        }
    }
}

/// Tracks of the roster players bound to a roster index; two players bound to one
/// index are an error.
pub fn roster_tracks(roster: &Vec<FilmPlayer>, indices: &BTreeMap<u64, u8>) -> (r: Result<Vec<PlayerTrack>, DecodeError>)
    ensures
        r matches Ok(v) ==> tracks_ordered(v@) && lives_empty(v@),
        r matches Err(e) ==> e matches DecodeError::Inconsistent(m) && m@ == "ambiguous roster index"@,
        r is Err <==> roster_conflict(roster@, indices@, roster@.len() as int),
        r matches Ok(v) ==> forall|id: u8| #[trigger] track_ids(v@).contains(id) <==> exists|i: int| 0 <= i < roster@.len()
            && #[trigger] roster_index(roster@, indices@, i) == Some(id),
        r matches Ok(v) ==> track_heads(v@) == roster_heads(roster@, indices@, roster@.len() as int)
            && forall|q: int| 0 <= q < v@.len() ==> track_is_new(#[trigger] v@[q]),
{
    let mut players: Vec<PlayerTrack> = Vec::new();
    let mut k: usize = 0;
    proof {
        assert(track_heads(players@) =~= roster_heads(roster@, indices@, 0));
    }
    while k < roster.len()
        invariant
            k <= roster@.len(),
            tracks_ordered(players@),
            lives_empty(players@),
            !roster_conflict(roster@, indices@, k as int),
            track_heads(players@) == roster_heads(roster@, indices@, k as int),
            forall|q: int| 0 <= q < players@.len() ==> track_is_new(#[trigger] players@[q]),
            forall|id: u8| track_ids(players@).contains(id) <==> exists|i: int| 0 <= i < k && #[trigger] roster_index(roster@, indices@, i) == Some(id),
        decreases roster@.len() - k,
    {
        let p = &roster[k];
        match indices.get(&p.xuid) {
            Some(id) => {
                let id = *id;
                assert(roster_index(roster@, indices@, k as int) == Some(id));
                match find_track(&players, id) {
                    Some(q) => {
                        proof {
                            lemma_track_id_at(players@, q as int);
                            let i = choose|i: int| 0 <= i < k && #[trigger] roster_index(roster@, indices@, i) == Some(id);
                            assert(roster_index(roster@, indices@, i) == roster_index(roster@, indices@, k as int));
                            assert(roster_conflict(roster@, indices@, roster@.len() as int));
                        }
                        return Err(DecodeError::Inconsistent(owned("ambiguous roster index")));
                    },
                    None => {
                        proof {
                            if track_ids(players@).contains(id) {
                                let j = choose|j: int| 0 <= j < track_ids(players@).len() && track_ids(players@)[j] == id;
                                assert(players@[j].id == id);
                            }
                        }
                    },
                }
                let ghost before = players@;
                let t = new_track(id, Some(u64_to_string(p.xuid)), p.gamertag.clone());
                assert(track_head(t) == (id, Some(decimal(roster@[k as int].xuid as nat)), roster@[k as int].gamertag@));
                insert_track(&mut players, t);
                proof {
                    assert forall|q: int| 0 <= q < players@.len() implies (#[trigger] players@[q]).lives@.len() == 0 && track_is_new(players@[q]) by {
                        if before.contains(players@[q]) {
                            let m = choose|m: int| 0 <= m < before.len() && before[m] == players@[q];
                        }
                    }
                    assert forall|x: u8| track_ids(players@).contains(x) <==> exists|i: int| 0 <= i < k + 1 && #[trigger] roster_index(roster@, indices@, i) == Some(x) by {
                        if track_ids(players@).contains(x) {
                            let j = choose|j: int| 0 <= j < track_ids(players@).len() && track_ids(players@)[j] == x;
                            assert(players@[j].id == x);
                            if players@[j] != t {
                                let m = choose|m: int| 0 <= m < before.len() && before[m] == players@[j];
                                lemma_track_id_at(before, m);
                                let i = choose|i: int| 0 <= i < k && #[trigger] roster_index(roster@, indices@, i) == Some(x);
                                assert(0 <= i < k + 1 && roster_index(roster@, indices@, i) == Some(x));
                            } else {
                                assert(roster_index(roster@, indices@, k as int) == Some(x));
                            }
                        }
                        if exists|i: int| 0 <= i < k + 1 && #[trigger] roster_index(roster@, indices@, i) == Some(x) {
                            let i = choose|i: int| 0 <= i < k + 1 && #[trigger] roster_index(roster@, indices@, i) == Some(x);
                            if i < k {
                                assert(track_ids(before).contains(x));
                                let m = choose|m: int| 0 <= m < track_ids(before).len() && track_ids(before)[m] == x;
                                assert(before[m].id == x);
                                assert(players@.contains(before[m]));
                                let q = choose|q: int| 0 <= q < players@.len() && players@[q] == before[m];
                                lemma_track_id_at(players@, q);
                            } else {
                                let q = choose|q: int| 0 <= q < players@.len() && players@[q] == t;
                                lemma_track_id_at(players@, q);
                            }
                        }
                    }
                    assert(!roster_conflict(roster@, indices@, k + 1)) by {
                        if roster_conflict(roster@, indices@, k + 1) {
                            let (i, j) = choose|i: int, j: int| 0 <= i < j < k + 1 && (#[trigger] roster_index(roster@, indices@, i)) is Some
                                && roster_index(roster@, indices@, i) == #[trigger] roster_index(roster@, indices@, j);
                            if j < k {
                                assert(roster_conflict(roster@, indices@, k as int));
                            } else {
                                assert(track_ids(before).contains(id));
                            }
                        }
                    }
                }
            },
            None => {
                proof {
                    assert(roster_index(roster@, indices@, k as int) is None);
                    assert(!roster_conflict(roster@, indices@, k + 1)) by {
                        if roster_conflict(roster@, indices@, k + 1) {
                            let (i, j) = choose|i: int, j: int| 0 <= i < j < k + 1 && (#[trigger] roster_index(roster@, indices@, i)) is Some
                                && roster_index(roster@, indices@, i) == #[trigger] roster_index(roster@, indices@, j);
                            assert(roster_conflict(roster@, indices@, k as int));
                        }
                    }
                    assert forall|x: u8| track_ids(players@).contains(x) <==> exists|i: int| 0 <= i < k + 1 && #[trigger] roster_index(roster@, indices@, i) == Some(x) by {
                        if exists|i: int| 0 <= i < k + 1 && #[trigger] roster_index(roster@, indices@, i) == Some(x) {
                            let i = choose|i: int| 0 <= i < k + 1 && #[trigger] roster_index(roster@, indices@, i) == Some(x);
                            assert(i < k);
                        }
                    }
                }
            },
        }
        k += 1;
    }
    Ok(players)
}

/// The summary decoder and the film event reader classify a recorded type code and medal
/// flag alike: medal, mode highlight, death, kill, or the other code kept as it is.
pub proof fn lemma_summary_and_film_kinds_agree(type_code: u8, medal_flag: u8)
    ensures
        crate::theater::types::summary_kind_spec(type_code, medal_flag) == match crate::clients::hi::film::event_kind_spec(type_code, medal_flag) {
            FilmEventKind::Mode => SummaryKind::Mode,
            FilmEventKind::Death => SummaryKind::Death,
            FilmEventKind::Kill => SummaryKind::Kill,
            FilmEventKind::Medal => SummaryKind::Medal,
            FilmEventKind::Other(k) => SummaryKind::Other(k),
        },
{
}

/// The summary event of a footer highlight.
pub open spec fn summary_event_matches(s: SummaryEvent, e: FilmEvent, indices: Map<u64, u8>) -> bool {
    &&& s.xuid@ == decimal(e.xuid as nat)
    &&& s.player == (if indices.contains_key(e.xuid) { Some(indices[e.xuid]) } else { None })
    &&& s.name == e.gamertag
    &&& s.time_us == e.timestamp_ms * 1000
    &&& s.kind == match e.kind {
        FilmEventKind::Mode => SummaryKind::Mode,
        FilmEventKind::Death => SummaryKind::Death,
        FilmEventKind::Kill => SummaryKind::Kill,
        FilmEventKind::Medal => SummaryKind::Medal,
        FilmEventKind::Other(k) => SummaryKind::Other(k),
    }
    &&& s.metadata == e.metadata
    &&& s.medal_flag == e.medal_flag
    &&& s.type_code is None && s.medal is None && s.source is None && s.identity_source is None
}

pub fn summary_events_of(events: Vec<FilmEvent>, indices: &BTreeMap<u64, u8>) -> (r: Vec<SummaryEvent>)
    ensures
        r@.len() == events@.len(),
        forall|i: int| 0 <= i < r@.len() ==> summary_event_matches(#[trigger] r@[i], events@[i], indices@),
{
    let mut out: Vec<SummaryEvent> = Vec::new();
    let ghost all = events@;
    let mut rest = events;
    let ghost mut i: int = 0;
    proof {
        assert(rest@ =~= all.subrange(0, all.len() as int));
    }
    while rest.len() > 0
        invariant
            0 <= i <= all.len(),
            rest@ == all.subrange(i, all.len() as int),
            out@.len() == i,
            forall|j: int| 0 <= j < i ==> summary_event_matches(#[trigger] out@[j], all[j], indices@),
        decreases rest@.len(),
    {
        let e = rest.remove(0);
        proof {
            assert(e == all[i]);
            assert(rest@ =~= all.subrange(i + 1, all.len() as int));
        }
        let player = match indices.get(&e.xuid) {
            Some(id) => Some(*id),
            None => None,
        };
        let kind = match e.kind {
            FilmEventKind::Mode => SummaryKind::Mode,
            FilmEventKind::Death => SummaryKind::Death,
            FilmEventKind::Kill => SummaryKind::Kill,
            FilmEventKind::Medal => SummaryKind::Medal,
            FilmEventKind::Other(k) => SummaryKind::Other(k),
        };
        out.push(SummaryEvent {
            xuid: u64_to_string(e.xuid),
            player,
            name: e.gamertag,
            time_us: (e.timestamp_ms as u64) * 1000,
            kind,
            metadata: e.metadata,
            medal_flag: e.medal_flag,
            type_code: None,
            medal: None,
            source: None,
            identity_source: None,
        });
        proof {
            i = i + 1;
        }
    }
    out
}

proof fn lemma_ordered_ids(a: Seq<PlayerTrack>, b: Seq<PlayerTrack>)
    requires
        track_ids(a) == track_ids(b),
        tracks_ordered(a),
    ensures
        tracks_ordered(b),
{
    assert(a.len() == track_ids(a).len());
    assert(b.len() == track_ids(b).len());
    assert forall|i: int, j: int| 0 <= i < j < b.len() implies (#[trigger] b[i]).id < (#[trigger] b[j]).id by {
        assert(track_ids(a)[i] == a[i].id);
        assert(track_ids(b)[i] == b[i].id);
        assert(track_ids(a)[j] == a[j].id);
        assert(track_ids(b)[j] == b[j].id);
        assert(a[i].id < a[j].id);
    }
}

fn same_region(a: &ArmorRegion, b: &ArmorRegion) -> (r: bool)
    ensures
        r == (a.region_id == b.region_id && a.permutation_id == b.permutation_id),
{
    a.region_id == b.region_id && a.permutation_id == b.permutation_id
}

fn same_attachments(a: &Option<ArmorAttachments>, b: &Option<ArmorAttachments>) -> (r: bool)
    ensures
        r == (*a == *b),
{
    match (a, b) {
        (Some(x), Some(y)) => x.chest_tag_id == y.chest_tag_id && x.utility_tag_id == y.utility_tag_id
            && x.wrist_tag_id == y.wrist_tag_id && x.left_shoulder_tag_id == y.left_shoulder_tag_id
            && x.right_shoulder_tag_id == y.right_shoulder_tag_id,
        (None, None) => true,
        _ => false,
    }
}

/// Whether two recorded customizations hold the same identifiers.
pub open spec fn same_appearance_spec(a: ArmorAppearance, b: ArmorAppearance) -> bool {
    &&& a.regions@.len() == b.regions@.len()
    &&& forall|i: int| 0 <= i < a.regions@.len() ==> (#[trigger] a.regions@[i]).region_id == b.regions@[i].region_id
        && a.regions@[i].permutation_id == b.regions@[i].permutation_id
    &&& a.visor_id == b.visor_id && a.visor_color_id == b.visor_color_id && a.armor_variant_id == b.armor_variant_id
    &&& a.coating_style_id == b.coating_style_id && a.attachments == b.attachments
    &&& a.mythic_effect_ids == b.mythic_effect_ids
}

pub fn same_appearance(a: &ArmorAppearance, b: &ArmorAppearance) -> (r: bool)
    ensures
        r == same_appearance_spec(*a, *b),
{
    if a.regions.len() != b.regions.len() {
        return false;
    }
    let mut i: usize = 0;
    while i < a.regions.len()
        invariant
            a.regions@.len() == b.regions@.len(),
            i <= a.regions@.len(),
            forall|k: int| 0 <= k < i ==> (#[trigger] a.regions@[k]).region_id == b.regions@[k].region_id
                && a.regions@[k].permutation_id == b.regions@[k].permutation_id,
        decreases a.regions@.len() - i,
    {
        if !same_region(&a.regions[i], &b.regions[i]) {
            return false;
        }
        i += 1;
    }
    let mythic = match (a.mythic_effect_ids, b.mythic_effect_ids) {
        (Some(x), Some(y)) => {
            let e = x[0] == y[0] && x[1] == y[1] && x[2] == y[2] && x[3] == y[3];
            proof {
                if e {
                    assert(x =~= y);
                }
            }
            e
        },
        (None, None) => true,
        _ => false,
    };
    a.visor_id == b.visor_id && a.visor_color_id == b.visor_color_id && a.armor_variant_id == b.armor_variant_id
        && a.coating_style_id == b.coating_style_id && same_attachments(&a.attachments, &b.attachments) && mythic
}

/// `e` inserted after every snapshot of `s` that is not later than it.
pub open spec fn insert_appearance(s: Seq<AppearanceSample>, e: AppearanceSample) -> Seq<AppearanceSample>
    decreases s.len(),
{
    if s.len() == 0 {
        seq![e]
    } else if s[0].time_us > e.time_us {
        seq![e] + s
    } else {
        seq![s[0]] + insert_appearance(s.drop_first(), e)
    }
}

/// Snapshots ordered by time; equal times keep their order.
pub open spec fn sort_appearance(s: Seq<AppearanceSample>) -> Seq<AppearanceSample>
    decreases s.len(),
{
    if s.len() == 0 {
        seq![]
    } else {
        insert_appearance(sort_appearance(s.drop_last()), s.last())
    }
}

/// Snapshots without one equal in time and identifiers to the one kept before it.
pub open spec fn dedup_appearance(s: Seq<AppearanceSample>) -> Seq<AppearanceSample>
    decreases s.len(),
{
    if s.len() == 0 {
        seq![]
    } else {
        let kept = dedup_appearance(s.drop_last());
        if kept.len() > 0 && kept.last().time_us == s.last().time_us && same_appearance_spec(kept.last().value, s.last().value) {
            kept
        } else {
            kept.push(s.last())
        }
    }
}

proof fn lemma_insert_appearance_at(s: Seq<AppearanceSample>, e: AppearanceSample, j: int)
    requires
        0 <= j <= s.len(),
        forall|k: int| 0 <= k < j ==> (#[trigger] s[k]).time_us <= e.time_us,
        j < s.len() ==> s[j].time_us > e.time_us,
    ensures
        insert_appearance(s, e) == s.insert(j, e),
    decreases j,
{
    if j == 0 {
        if s.len() > 0 {
            assert(seq![e] + s =~= s.insert(0, e));
        } else {
            assert(seq![e] =~= s.insert(0, e));
        }
    } else {
        let t = s.drop_first();
        assert forall|k: int| 0 <= k < j - 1 implies (#[trigger] t[k]).time_us <= e.time_us by {
            assert(t[k] == s[k + 1]);
        }
        lemma_insert_appearance_at(t, e, j - 1);
        assert(seq![s[0]] + t.insert(j - 1, e) =~= s.insert(j, e));
    }
}

/// Appearance snapshots ordered by time (stable), without a snapshot equal in time and
/// identifiers to the one kept before it.
fn tidy_appearance(v: Vec<AppearanceSample>) -> (r: Vec<AppearanceSample>)
    ensures
        r@ == dedup_appearance(sort_appearance(v@)),
{
    let ghost all = v@;
    let mut rest = v;
    let mut sorted: Vec<AppearanceSample> = Vec::new();
    let ghost mut k: int = 0;
    proof {
        assert(all.subrange(0, 0) =~= Seq::<AppearanceSample>::empty());
        assert(rest@ =~= all.subrange(0, all.len() as int));
    }
    while rest.len() > 0
        invariant
            0 <= k <= all.len(),
            rest@.len() + k == all.len(),
            rest@ == all.subrange(k, all.len() as int),
            sorted@ == sort_appearance(all.subrange(0, k)),
        decreases rest@.len(),
    {
        let e = rest.remove(0);
        proof {
            assert(rest@ =~= all.subrange(k + 1, all.len() as int));
            assert(e == all[k]);
            assert(all.subrange(0, k + 1).drop_last() =~= all.subrange(0, k));
        }
        let ghost s0 = sorted@;
        let mut j: usize = 0;
        while j < sorted.len() && sorted[j].time_us <= e.time_us
            invariant
                j <= sorted@.len(),
                s0 == sorted@,
                forall|m: int| 0 <= m < j ==> (#[trigger] s0[m]).time_us <= e.time_us,
            decreases sorted@.len() - j,
        {
            j += 1;
        }
        proof {
            lemma_insert_appearance_at(s0, e, j as int);
        }
        sorted.insert(j, e);
        proof {
            k = k + 1;
        }
    }
    proof {
        assert(all.subrange(0, k) =~= all);
    }
    let ghost ordered = sorted@;
    let mut out: Vec<AppearanceSample> = Vec::new();
    let ghost mut i: int = 0;
    proof {
        assert(ordered.subrange(0, 0) =~= Seq::<AppearanceSample>::empty());
        assert(sorted@ =~= ordered.subrange(0, ordered.len() as int));
    }
    while sorted.len() > 0
        invariant
            0 <= i <= ordered.len(),
            sorted@ == ordered.subrange(i, ordered.len() as int),
            out@ == dedup_appearance(ordered.subrange(0, i)),
        decreases sorted@.len(),
    {
        let e = sorted.remove(0);
        proof {
            assert(e == ordered[i]);
            assert(sorted@ =~= ordered.subrange(i + 1, ordered.len() as int));
            assert(ordered.subrange(0, i + 1).drop_last() =~= ordered.subrange(0, i));
        }
        let n = out.len();
        let repeat = n > 0 && out[n - 1].time_us == e.time_us && same_appearance(&out[n - 1].value, &e.value);
        if !repeat {
            out.push(e);
        }
        proof {
            i = i + 1;
        }
    }
    proof {
        assert(ordered.subrange(0, i) =~= ordered);
    }
    out
}

/// A customization snapshot's place in the film: the track it binds to, its time and
/// source bits, and the payload and bit offset it is read from.
pub ghost struct AppearanceSite {
    pub id: u8,
    pub time_us: u64,
    pub source: SourceSpan,
    pub payload: Seq<u8>,
    pub bit: int,
}

/// The snapshot sites of payload `p` at and after bit `o`, in bit order.
pub open spec fn window_sites(p: Seq<u8>, indices: Map<u64, u8>, players: Seq<PlayerTrack>, t: u64, pk: FilmPacket, o: int) -> Seq<AppearanceSite>
    decreases bit_len(p) - o,
{
    if o < 0 || o >= bit_len(p) {
        seq![]
    } else {
        let here = match appearance_target(p, o, window_spec(p, o), indices, players) {
            Some(id) => seq![AppearanceSite { id, time_us: t, source: span_spec(pk, (o - 488) as usize, (o + 2638) as usize), payload: p, bit: o }],
            None => Seq::<AppearanceSite>::empty(),
        };
        here + window_sites(p, indices, players, t, pk, o + 1)
    }
}

/// The snapshot sites of the first `n` packets: packet-type-8 payloads at or after the origin.
#[verifier::opaque]
pub open spec fn appearance_sites(chunks: Seq<FilmChunkData>, packets: Seq<FilmPacket>, origin: u64, indices: Map<u64, u8>, players: Seq<PlayerTrack>, n: int) -> Seq<AppearanceSite>
    decreases n,
{
    if n <= 0 || n > packets.len() {
        seq![]
    } else {
        let prior = appearance_sites(chunks, packets, origin, indices, players, n - 1);
        let pk = packets[n - 1];
        if pk.packet_type == 8 && pk.timestamp_us >= origin {
            match payload_spec(chunks, pk) {
                Some(data) => prior + window_sites(data, indices, players, (pk.timestamp_us - origin) as u64, pk, 0),
                None => prior,
            }
        } else {
            prior
        }
    }
}

/// Each snapshot has its site's time and source and reads as the bits at its site.
pub open spec fn samples_fit(xs: Seq<AppearanceSample>, sites: Seq<AppearanceSite>) -> bool {
    &&& xs.len() == sites.len()
    &&& forall|i: int| 0 <= i < xs.len() ==> {
        &&& (#[trigger] xs[i]).time_us == sites[i].time_us
        &&& xs[i].source == sites[i].source
        &&& appearance_matches(sites[i].payload, sites[i].bit, xs[i].value)
    }
}

/// The snapshots as observations of their sites' tracks.
pub open spec fn site_obs(xs: Seq<AppearanceSample>, sites: Seq<AppearanceSite>) -> Seq<(u8, Observation)> {
    Seq::new(xs.len(), |i: int| (sites[i].id, Observation::Appearance(xs[i])))
}

/// The streams with snapshots sorted and repeats dropped.
pub open spec fn tidy_streams(v: TrackStreams) -> TrackStreams {
    TrackStreams { appearance: dedup_appearance(sort_appearance(v.appearance)), ..v }
}

proof fn lemma_add_obs_heads(a: Seq<TrackStreams>, id: u8, o: Observation)
    ensures
        add_obs(a, id, o).len() == a.len(),
        forall|q: int| 0 <= q < a.len() ==> (#[trigger] add_obs(a, id, o)[q]).id == a[q].id && add_obs(a, id, o)[q].name == a[q].name
            && add_obs(a, id, o)[q].xuid == a[q].xuid,
{
    lemma_track_index_range(a, id, 0);
}

proof fn lemma_add_all_heads(a: Seq<TrackStreams>, list: Seq<(u8, Observation)>)
    ensures
        add_all(a, list).len() == a.len(),
        forall|q: int| 0 <= q < a.len() ==> (#[trigger] add_all(a, list)[q]).id == a[q].id && add_all(a, list)[q].name == a[q].name
            && add_all(a, list)[q].xuid == a[q].xuid,
    decreases list.len(),
{
    if list.len() > 0 {
        lemma_add_all_heads(a, list.drop_last());
        lemma_add_obs_heads(add_all(a, list.drop_last()), list.last().0, list.last().1);
    }
}

proof fn lemma_target_same(p: Seq<u8>, o: int, w: u64, indices: Map<u64, u8>, a: Seq<PlayerTrack>, b: Seq<PlayerTrack>)
    requires
        a.len() == b.len(),
        forall|q: int| 0 <= q < a.len() ==> (#[trigger] a[q]).id == b[q].id && a[q].name == b[q].name,
    ensures
        appearance_target(p, o, w, indices, a) == appearance_target(p, o, w, indices, b),
{
    assert forall|q: int| 0 <= q < all_streams(a).len() implies (#[trigger] all_streams(a)[q]).id == all_streams(b)[q].id by {
        assert(a[q].id == b[q].id);
    }
    if let Some((xuid, name)) = snapshot_spec(p, o) {
        lemma_track_index_ids(all_streams(a), all_streams(b), indices[xuid], 0);
        lemma_track_index_range(all_streams(a), indices[xuid], 0);
    }
}

/// Binds checked customization snapshots in packet-type-8 payloads to roster players
/// of the same recorded name.
fn appearance_pass(
    chunks: &[FilmChunkData],
    packets: &Vec<FilmPacket>,
    origin: u64,
    indices: &BTreeMap<u64, u8>,
    players: &mut Vec<PlayerTrack>,
    d: &mut DecodeDiagnostics,
    retain: bool,
)
    requires
        film_addressable(chunks@),
        tracks_ordered(old(players)@),
        lives_empty(old(players)@),
    ensures
        final(d).limitations@ == old(d).limitations@,
        tracks_ordered(final(players)@),
        lives_empty(final(players)@),
        final(d).frames == old(d).frames,
        track_ids(final(players)@) == track_ids(old(players)@),
        exists|xs: Seq<AppearanceSample>| #[trigger] samples_fit(xs, appearance_sites(chunks@, packets@, origin, indices@, old(players)@, packets@.len() as int))
            && all_streams(final(players)@) == add_all(
                all_streams(old(players)@),
                site_obs(xs, appearance_sites(chunks@, packets@, origin, indices@, old(players)@, packets@.len() as int)),
            ).map_values(|v: TrackStreams| tidy_streams(v)),
{
    let ghost start = players@;
    let ghost base = all_streams(start);
    let ghost mut xs = Seq::<AppearanceSample>::empty();
    let ghost mut sites = Seq::<AppearanceSite>::empty();
    proof {
        reveal(appearance_sites);
        assert(site_obs(xs, sites) =~= Seq::<(u8, Observation)>::empty());
    }
    let mut k: usize = 0;
    while k < packets.len()
        invariant
            k <= packets@.len(),
            film_addressable(chunks@),
            start == old(players)@,
            base == all_streams(start),
            tracks_ordered(players@),
            lives_empty(players@),
            d.frames == old(d).frames,
            d.limitations@ == old(d).limitations@,
            players@.len() == start.len(),
            forall|q: int| 0 <= q < start.len() ==> (#[trigger] players@[q]).id == start[q].id && players@[q].name == start[q].name,
            sites == appearance_sites(chunks@, packets@, origin, indices@, start, k as int),
            samples_fit(xs, sites),
            all_streams(players@) == add_all(base, site_obs(xs, sites)),
        decreases packets@.len() - k,
    {
        let p = &packets[k];
        let ghost target = appearance_sites(chunks@, packets@, origin, indices@, start, k + 1);
        proof {
            reveal(appearance_sites);
        }
        if p.packet_type == 8 && p.timestamp_us >= origin {
            match payload(chunks, p) {
                Some(data) => {
                    let b = Bits(data);
                    let t = p.timestamp_us - origin;
                    let ghost pb = b@;
                    let mut ws = b.windows();
                    let mut done = false;
                    proof {
                        assert(target == sites + window_sites(pb, indices@, start, t, *p, 0));
                    }
                    while !done
                        invariant
                            ws.wf(),
                            ws.bits@ == b@,
                            pb == b@,
                            b@.len() * 8 + 16384 <= usize::MAX,
                            start == old(players)@,
                            base == all_streams(start),
                            tracks_ordered(players@),
                            lives_empty(players@),
                            d.frames == old(d).frames,
                            d.limitations@ == old(d).limitations@,
                            players@.len() == start.len(),
                            forall|q: int| 0 <= q < start.len() ==> (#[trigger] players@[q]).id == start[q].id && players@[q].name == start[q].name,
                            samples_fit(xs, sites),
                            all_streams(players@) == add_all(base, site_obs(xs, sites)),
                            !done ==> target == sites + window_sites(pb, indices@, start, t, *p, ws.offset as int),
                            done ==> target == sites,
                        decreases bit_len(b@) - ws.offset + if done { 0int } else { 1int },
                    {
                        match ws.next() {
                            Some((o, w)) => {
                                let ghost before = players@;
                                appearance_at(b, o, w, p, t, indices, players, d, retain);
                                proof {
                                    lemma_ordered_ids(before, players@);
                                    assert(players@.len() == track_ids(players@).len());
                                    assert(before.len() == track_ids(before).len());
                                    assert forall|q: int| 0 <= q < players@.len() implies (#[trigger] players@[q]).lives@.len() == 0 by {
                                        assert(players@[q].lives == before[q].lives);
                                    }
                                    assert(w == window_spec(pb, o as int));
                                    lemma_target_same(pb, o as int, w, indices@, before, start);
                                    let rest = window_sites(pb, indices@, start, t, *p, o + 1);
                                    let bs = all_streams(before);
                                    match appearance_target(pb, o as int, w, indices@, start) {
                                        Some(id) => {
                                            let x = choose|x: AppearanceSample| {
                                                &&& x.time_us == t && x.source == span_spec(*p, (o - 488) as usize, (o + 2638) as usize)
                                                &&& appearance_matches(b@, o as int, x.value)
                                                &&& all_streams(players@) == add_obs(bs, id, Observation::Appearance(x))
                                            };
                                            let s = AppearanceSite { id, time_us: t, source: span_spec(*p, (o - 488) as usize, (o + 2638) as usize), payload: pb, bit: o as int };
                                            lemma_add_obs_heads(bs, id, Observation::Appearance(x));
                                            assert forall|q: int| 0 <= q < start.len() implies (#[trigger] players@[q]).id == start[q].id && players@[q].name == start[q].name by {
                                                assert(all_streams(players@)[q] == streams(players@[q]));
                                                assert(bs[q] == streams(before[q]));
                                            }
                                            assert(window_sites(pb, indices@, start, t, *p, o as int) == seq![s] + rest);
                                            assert(site_obs(xs.push(x), sites.push(s)).drop_last() =~= site_obs(xs, sites));
                                            assert(site_obs(xs.push(x), sites.push(s)).last() == (id, Observation::Appearance(x)));
                                            assert(sites + (seq![s] + rest) =~= sites.push(s) + rest);
                                            xs = xs.push(x);
                                            sites = sites.push(s);
                                        },
                                        None => {
                                            assert forall|q: int| 0 <= q < start.len() implies (#[trigger] players@[q]).id == start[q].id && players@[q].name == start[q].name by {
                                                assert(all_streams(players@)[q] == streams(players@[q]));
                                                assert(bs[q] == streams(before[q]));
                                            }
                                            assert(window_sites(pb, indices@, start, t, *p, o as int) == Seq::<AppearanceSite>::empty() + rest);
                                            assert(Seq::<AppearanceSite>::empty() + rest =~= rest);
                                        },
                                    }
                                }
                            },
                            None => {
                                proof {
                                    assert(sites + window_sites(pb, indices@, start, t, *p, ws.offset as int) =~= sites);
                                }
                                done = true;
                            },
                        }
                    }
                },
                None => {
                    assert(target == sites);
                },
            }
        } else {
            assert(target == sites);
        }
        k += 1;
    }
    let ghost mid = all_streams(players@);
    proof {
        assert(track_ids(players@) =~= track_ids(start));
    }
    let mut k: usize = 0;
    while k < players.len()
        invariant
            k <= players@.len(),
            players@.len() == mid.len(),
            track_ids(players@) == track_ids(old(players)@),
            tracks_ordered(players@),
            lives_empty(players@),
            forall|q: int| 0 <= q < k ==> streams(#[trigger] players@[q]) == tidy_streams(mid[q]),
            forall|q: int| k <= q < players@.len() ==> streams(#[trigger] players@[q]) == mid[q],
        decreases players@.len() - k,
    {
        let ghost before = players@;
        let mut t = players.remove(k);
        let snapshots = t.appearance;
        t.appearance = tidy_appearance(snapshots);
        players.insert(k, t);
        proof {
            assert(track_ids(players@) =~= track_ids(before));
            lemma_ordered_ids(before, players@);
            assert forall|q: int| 0 <= q < players@.len() implies (#[trigger] players@[q]).lives@.len() == 0 by {
                if q != k {
                    assert(players@[q] == before[q]);
                }
            }
            assert(streams(players@[k as int]) == tidy_streams(mid[k as int]));
            assert forall|q: int| 0 <= q < players@.len() && q != k implies #[trigger] players@[q] == before[q] by {}
        }
        k += 1;
    }
    proof {
        assert(all_streams(players@) =~= mid.map_values(|v: TrackStreams| tidy_streams(v)));
    }
}

/// The track a customization snapshot at `o` binds to: a roster marker window, a
/// checked snapshot, an index for its XUID, and a track with that index and the
/// snapshot's name.
pub open spec fn appearance_target(p: Seq<u8>, o: int, w: u64, indices: Map<u64, u8>, players: Seq<PlayerTrack>) -> Option<u8> {
    if w >> 48u64 != 0x2dc0 {
        None
    } else {
        match snapshot_spec(p, o) {
            None => None,
            Some((xuid, name)) => if !indices.contains_key(xuid) {
                None
            } else {
                match track_index(all_streams(players), indices[xuid], 0) {
                    Some(k) => if players[k].name@ == name {
                        Some(indices[xuid])
                    } else {
                        None
                    },
                    None => None,
                }
            },
        }
    }
}

#[verifier::spinoff_prover]
fn appearance_at(
    b: Bits,
    o: usize,
    w: u64,
    p: &FilmPacket,
    t: u64,
    indices: &BTreeMap<u64, u8>,
    players: &mut Vec<PlayerTrack>,
    d: &mut DecodeDiagnostics,
    retain: bool,
)
    requires
        b@.len() * 8 + 16384 <= usize::MAX,
    ensures
        final(d).limitations@ == old(d).limitations@,
        track_ids(final(players)@) == track_ids(old(players)@),
        forall|k: int| 0 <= k < final(players)@.len() ==> (#[trigger] final(players)@[k]).lives == old(players)@[k].lives,
        final(d).frames == old(d).frames,
        match appearance_target(b@, o as int, w, indices@, old(players)@) {
            None => all_streams(final(players)@) == all_streams(old(players)@),
            Some(id) => exists|x: AppearanceSample| {
                &&& x.time_us == t && x.source == span_spec(*p, (o - 488) as usize, (o + 2638) as usize)
                &&& appearance_matches(b@, o as int, x.value)
                &&& all_streams(final(players)@) == add_obs(all_streams(old(players)@), id, Observation::Appearance(x))
            },
        },
{
    if w >> 48u64 != 0x2dc0 {
        return;
    }
    let (xuid, name, value) = match snapshot(b, o) {
        Some(x) => x,
        None => return,
    };
    let id = match indices.get(&xuid) {
        Some(id) => *id,
        None => return,
    };
    let k = match find_track(players, id) {
        Some(k) => k,
        None => {
            proof {
                lemma_track_index_none(all_streams(players@), id, 0);
            }
            return;
        },
    };
    proof {
        lemma_track_index_first(all_streams(players@), id, 0, k as int);
    }
    if !text_eq(players[k].name.as_str(), name.as_str()) {
        return;
    }
    let source = span(p, o - 488, o + 2638);
    let x = AppearanceSample { time_us: t, value, source };
    let ghost xv = x;
    let ghost before = all_streams(players@);
    let _ = observe(players, id, Observation::Appearance(x));
    assert(xv.time_us == t && xv.source == span_spec(*p, (o - 488) as usize, (o + 2638) as usize)
        && appearance_matches(b@, o as int, xv.value)
        && all_streams(players@) == add_obs(before, id, Observation::Appearance(xv)));
    checked(d, retain, source, "appearance snapshot");
}

/// Life identities in increasing order.
pub open spec fn lives_ordered(lives: Seq<Life>) -> bool {
    forall|i: int, j: int| 0 <= i < j < lives.len() ==> (#[trigger] lives[i]).id < (#[trigger] lives[j]).id
}

/// Every life's roster index has a track.
pub open spec fn lives_tracked(lives: Seq<Life>, players: Seq<PlayerTrack>) -> bool {
    forall|i: int| 0 <= i < lives.len() ==> track_ids(players).contains(#[trigger] lives[i].player)
}

proof fn lemma_track_id_at(players: Seq<PlayerTrack>, k: int)
    requires
        0 <= k < players.len(),
    ensures
        track_ids(players).contains(players[k].id),
{
    assert(track_ids(players)[k] == players[k].id);
}

/// The position of the life with identity `id`.
pub fn find_life(lives: &Vec<Life>, id: u16) -> (r: Option<usize>)
    ensures
        r matches Some(k) ==> k < lives@.len() && lives@[k as int].id == id,
        r is None ==> forall|k: int| 0 <= k < lives@.len() ==> (#[trigger] lives@[k]).id != id,
{
    let mut k: usize = 0;
    while k < lives.len()
        invariant
            k <= lives@.len(),
            forall|j: int| 0 <= j < k ==> (#[trigger] lives@[j]).id != id,
        decreases lives@.len() - k,
    {
        if lives[k].id == id {
            return Some(k);
        }
        k += 1;
    }
    None
}

/// Inserts a life whose identity is new, keeping identities in order.
pub fn insert_life(lives: &mut Vec<Life>, l: Life)
    requires
        lives_ordered(old(lives)@),
        forall|k: int| 0 <= k < old(lives)@.len() ==> (#[trigger] old(lives)@[k]).id != l.id,
    ensures
        lives_ordered(final(lives)@),
        final(lives)@.len() == old(lives)@.len() + 1,
        forall|i: int| 0 <= i < final(lives)@.len() ==> (#[trigger] final(lives)@[i]) == l || old(lives)@.contains(final(lives)@[i]),
        final(lives)@.contains(l),
        forall|i: int| 0 <= i < old(lives)@.len() ==> final(lives)@.contains(#[trigger] old(lives)@[i]),
{
    let mut j: usize = 0;
    while j < lives.len() && lives[j].id < l.id
        invariant
            j <= lives@.len(),
            forall|k: int| 0 <= k < j ==> (#[trigger] lives@[k]).id < l.id,
        decreases lives@.len() - j,
    {
        j += 1;
    }
    let ghost before = lives@;
    let id = l.id;
    lives.insert(j, l);
    proof {
        assert(lives@ == before.insert(j as int, l));
        assert forall|i: int| 0 <= i < lives@.len() implies (#[trigger] lives@[i]) == l || before.contains(lives@[i]) by {
            if i < j {
                assert(lives@[i] == before[i]);
            } else if i > j {
                assert(lives@[i] == before[i - 1]);
            }
        }
        assert(lives@[j as int] == l);
        assert forall|i: int| 0 <= i < before.len() implies lives@.contains(#[trigger] before[i]) by {
            if i < j {
                assert(lives@[i] == before[i]);
            } else {
                assert(lives@[i + 1] == before[i]);
            }
        }
        assert forall|a: int, b: int| 0 <= a < b < lives@.len() implies (#[trigger] lives@[a]).id
            < (#[trigger] lives@[b]).id by {
            if b < j {
            } else if b == j {
            } else if a < j {
                assert(before[b - 1].id != id);
            } else if a == j {
                assert(before[b - 1].id != id);
                assert(j < before.len() ==> before[j as int].id >= id);
                if b - 1 > j {
                    assert(before[j as int].id < before[b - 1].id);
                }
            } else {
            }
        }
    }
}

/// The spawn a window at `o` announces: the spawn body 20 bits in, and a checked
/// spawn record from there.
pub open spec fn spawn_event(p: Seq<u8>, o: int, w: u64) -> Option<(usize, Spawn)> {
    if w >> 15u64 != SPAWN_BODY || o < 20 {
        None
    } else {
        match spawn_spec(p, o - 20) {
            Some(s) => Some(((o - 20) as usize, s)),
            None => None,
        }
    }
}

/// The life a spawn starts: identity = serial, until the film's end.
pub open spec fn spawn_life(s: Spawn, start: usize, t: u64, duration: u64, pk: FilmPacket) -> Life {
    Life {
        id: s.serial,
        wire: (s.serial % 256) as u8,
        generation: (s.serial / 256 + 1) as u8,
        player: s.player,
        start_us: t,
        end_us: duration,
        death_us: None,
        round_reset: false,
        position: s.xyz,
        layout: s.layout,
        source: span_spec(pk, start, s.end),
    }
}

/// An earlier spawn of the same identity, at the same time, roster index and position.
pub open spec fn same_spawn(prior: Life, s: Spawn, t: u64) -> bool {
    prior.start_us == t && prior.player == s.player && prior.position == s.xyz
}

/// The spawn pass over one replication payload: each checked spawn starts a life
/// (identity = serial) and creates a track for an unseen roster index. An exact
/// repeat of a spawn is counted and skipped; another spawn with a known identity is
/// an error.
proof fn lemma_life_index_at(lives: Seq<Life>, id: u16, k: int)
    requires
        lives_ordered(lives),
        0 <= k < lives.len(),
        lives[k].id == id,
    ensures
        life_index(lives, id, 0) == Some(k),
{
    lemma_life_index_from(lives, id, 0, k);
}

proof fn lemma_life_index_from(lives: Seq<Life>, id: u16, j: int, k: int)
    requires
        lives_ordered(lives),
        0 <= j <= k < lives.len(),
        lives[k].id == id,
    ensures
        life_index(lives, id, j) == Some(k),
    decreases k - j,
{
    if j < k {
        assert(lives[j].id < lives[k].id);
        lemma_life_index_from(lives, id, j + 1, k);
    }
}

proof fn lemma_life_index_none(lives: Seq<Life>, id: u16, j: int)
    requires
        0 <= j,
        forall|q: int| 0 <= q < lives.len() ==> (#[trigger] lives[q]).id != id,
    ensures
        life_index(lives, id, j) is None,
    decreases lives.len() - j,
{
    if j < lives.len() {
        lemma_life_index_none(lives, id, j + 1);
    }
}

#[verifier::spinoff_prover]
fn spawn_at(
    b: Bits,
    o: usize,
    w: u64,
    p: &FilmPacket,
    t: u64,
    duration: u64,
    lives: &mut Vec<Life>,
    players: &mut Vec<PlayerTrack>,
    d: &mut DecodeDiagnostics,
    retain: bool,
) -> (r: Result<(), DecodeError>)
    requires
        b@.len() * 8 + 16384 <= usize::MAX,
        o < bit_len(b@),
        lives_ordered(old(lives)@),
        tracks_ordered(old(players)@),
        lives_tracked(old(lives)@, old(players)@),
        lives_empty(old(players)@),
    ensures
        final(d).limitations@ == old(d).limitations@,
        lives_ordered(final(lives)@),
        tracks_ordered(final(players)@),
        lives_tracked(final(lives)@, final(players)@),
        lives_empty(final(players)@),
        final(d).frames == old(d).frames,
        r matches Err(e) ==> e is Inconsistent,
        match spawn_event(b@, o as int, w) {
            None => r is Ok && final(lives)@ == old(lives)@ && final(players)@ == old(players)@,
            Some((start, s)) => match life_index(old(lives)@, s.serial, 0) {
                Some(k) => if same_spawn(old(lives)@[k], s, t) {
                    r is Ok && final(lives)@ == old(lives)@ && final(players)@ == old(players)@
                } else {
                    r matches Err(DecodeError::Inconsistent(m)) && m@ == "reused life identity "@ + decimal(s.serial as nat)
                },
                None => {
                    &&& r is Ok
                    &&& final(lives)@.len() == old(lives)@.len() + 1
                    &&& final(lives)@.contains(spawn_life(s, start, t, duration, *p))
                    &&& forall|i: int| 0 <= i < final(lives)@.len() ==> (#[trigger] final(lives)@[i]) == spawn_life(s, start, t, duration, *p)
                        || old(lives)@.contains(final(lives)@[i])
                    &&& forall|i: int| 0 <= i < old(lives)@.len() ==> final(lives)@.contains(#[trigger] old(lives)@[i])
                    &&& forall|q: int| 0 <= q < final(players)@.len() ==> old(players)@.contains(#[trigger] final(players)@[q]) || (
                        final(players)@[q].id == s.player && final(players)@[q].xuid is None && final(players)@[q].name@ == "Player "@
                            + decimal(s.player as nat) && track_is_new(final(players)@[q]))
                    &&& if track_ids(old(players)@).contains(s.player) {
                        final(players)@ == old(players)@
                    } else {
                        &&& final(players)@.len() == old(players)@.len() + 1
                        &&& exists|j: int| 0 <= j < final(players)@.len() && (#[trigger] final(players)@[j]).id == s.player
                            && final(players)@[j].xuid is None && final(players)@[j].name@ == "Player "@ + decimal(s.player as nat)
                            && track_is_new(final(players)@[j])
                        &&& forall|q: int| 0 <= q < old(players)@.len() ==> final(players)@.contains(#[trigger] old(players)@[q])
                    }
                },
            },
        },
{
    if w >> 15u64 != SPAWN_BODY || o < 20 {
        return Ok(());
    }
    let start = o - 20;
    let s = match spawn(b, start) {
        Some(s) => s,
        None => {
            reject(d, "unsupported spawn candidate");
            return Ok(());
        },
    };
    let life = Life {
        id: s.serial,
        wire: (s.serial % 256) as u8,
        generation: (s.serial / 256 + 1) as u8,
        player: s.player,
        start_us: t,
        end_us: duration,
        death_us: None,
        round_reset: false,
        position: s.xyz,
        layout: s.layout,
        source: span(p, start, s.end),
    };
    assert(life == spawn_life(s, start, t, duration, *p));
    match find_life(lives, s.serial) {
        Some(k) => {
            proof {
                lemma_life_index_at(lives@, s.serial, k as int);
            }
            let prior = &lives[k];
            if prior.start_us == t && prior.player == s.player && prior.position[0] == s.xyz[0]
                && prior.position[1] == s.xyz[1] && prior.position[2] == s.xyz[2] {
                proof {
                    assert(prior.position =~= s.xyz);
                }
                reject(d, "duplicate spawn");
                return Ok(());
            }
            let mut m = owned("reused life identity ");
            push_str(&mut m, u64_to_string(s.serial as u64).as_str());
            return Err(DecodeError::Inconsistent(m));
        },
        None => {
            proof {
                lemma_life_index_none(lives@, s.serial, 0);
            }
        },
    }
    checked(d, retain, life.source, "spawn");
    let ghost before = players@;
    match find_track(players, s.player) {
        Some(k) => {
            proof {
                lemma_track_id_at(players@, k as int);
            }
        },
        None => {
            proof {
                if track_ids(players@).contains(s.player) {
                    let j = choose|j: int| 0 <= j < track_ids(players@).len() && track_ids(players@)[j] == s.player;
                    assert(players@[j].id == s.player);
                }
            }
            let mut name = owned("Player ");
            push_str(&mut name, u64_to_string(s.player as u64).as_str());
            let nt = new_track(s.player, None, name);
            assert(nt.name@ == "Player "@ + decimal(s.player as nat));
            insert_track(players, nt);
            proof {
                assert forall|q: int| 0 <= q < players@.len() implies (#[trigger] players@[q]).lives@.len() == 0 by {
                    if before.contains(players@[q]) {
                        let m = choose|m: int| 0 <= m < before.len() && before[m] == players@[q];
                    }
                }
                let j = choose|j: int| 0 <= j < players@.len() && players@[j].id == s.player;
                lemma_track_id_at(players@, j);
                assert forall|i: int| 0 <= i < lives@.len() implies track_ids(players@).contains(#[trigger] lives@[i].player) by {
                    let m = choose|m: int| 0 <= m < before.len() && before[m].id == lives@[i].player;
                    assert(track_ids(before)[m] == before[m].id);
                    assert(players@.contains(before[m]));
                    let q = choose|q: int| 0 <= q < players@.len() && players@[q] == before[m];
                    lemma_track_id_at(players@, q);
                }
            }
        },
    }
    let ghost prior = lives@;
    insert_life(lives, life);
    proof {
        assert forall|i: int| 0 <= i < lives@.len() implies track_ids(players@).contains(#[trigger] lives@[i].player) by {
            if lives@[i] != life {
                let m = choose|m: int| 0 <= m < prior.len() && prior[m] == lives@[i];
                assert(track_ids(players@).contains(prior[m].player));
            }
        }
    }
    Ok(())
}

/// The number of replication packets (type 0) at or after the origin among the first
/// `n` packets.
pub open spec fn replication_frames(packets: Seq<FilmPacket>, origin: u64, n: int) -> nat
    decreases n,
{
    if n <= 0 || n > packets.len() {
        0
    } else {
        replication_frames(packets, origin, n - 1) + if packets[n - 1].packet_type == 0
            && packets[n - 1].timestamp_us >= origin {
            1nat
        } else {
            0nat
        }
    }
}

/// A checked spawn in a replication payload: where its record starts, the spawn, its
/// time and its packet.
pub ghost struct SpawnSite {
    pub start: usize,
    pub spawn: Spawn,
    pub time_us: u64,
    pub packet: FilmPacket,
}

/// The spawn sites of payload `p` at and after bit `o`, in bit order.
pub open spec fn window_spawns(p: Seq<u8>, t: u64, pk: FilmPacket, o: int) -> Seq<SpawnSite>
    decreases bit_len(p) - o,
{
    if o < 0 || o >= bit_len(p) {
        seq![]
    } else {
        let here = match spawn_event(p, o, window_spec(p, o)) {
            Some((start, s)) => seq![SpawnSite { start, spawn: s, time_us: t, packet: pk }],
            None => Seq::<SpawnSite>::empty(),
        };
        here + window_spawns(p, t, pk, o + 1)
    }
}

/// The spawn sites of the first `n` packets: replication payloads at or after the origin.
#[verifier::opaque]
pub open spec fn spawn_sites(chunks: Seq<FilmChunkData>, packets: Seq<FilmPacket>, origin: u64, n: int) -> Seq<SpawnSite>
    decreases n,
{
    if n <= 0 || n > packets.len() {
        seq![]
    } else {
        let prior = spawn_sites(chunks, packets, origin, n - 1);
        let pk = packets[n - 1];
        if pk.packet_type == 0 && pk.timestamp_us >= origin {
            match payload_spec(chunks, pk) {
                Some(data) => prior + window_spawns(data, (pk.timestamp_us - origin) as u64, pk, 0),
                None => prior,
            }
        } else {
            prior
        }
    }
}

/// The life a spawn site starts.
pub open spec fn site_life(s: SpawnSite, duration: u64) -> Life {
    spawn_life(s.spawn, s.start, s.time_us, duration, s.packet)
}

/// The first site of identity `serial`.
pub open spec fn first_site(sites: Seq<SpawnSite>, serial: u16) -> Option<int>
    decreases sites.len(),
{
    if sites.len() == 0 {
        None
    } else {
        match first_site(sites.drop_last(), serial) {
            Some(i) => Some(i),
            None => if sites.last().spawn.serial == serial {
                Some(sites.len() - 1)
            } else {
                None
            },
        }
    }
}

/// The last site reuses an identity: an earlier site started it, and this one is not an
/// exact repeat of that spawn.
pub open spec fn reuses_last(sites: Seq<SpawnSite>, duration: u64) -> bool {
    sites.len() > 0 && match first_site(sites.drop_last(), sites.last().spawn.serial) {
        Some(i) => !same_spawn(site_life(sites[i], duration), sites.last().spawn, sites.last().time_us),
        None => false,
    }
}

/// The first site that reuses an identity.
pub open spec fn first_reuse(sites: Seq<SpawnSite>, duration: u64) -> Option<int>
    decreases sites.len(),
{
    if sites.len() == 0 {
        None
    } else {
        match first_reuse(sites.drop_last(), duration) {
            Some(j) => Some(j),
            None => if reuses_last(sites, duration) {
                Some(sites.len() - 1)
            } else {
                None
            },
        }
    }
}

/// The lives started by the sites: one per identity, from its first site, ordered by
/// identity.
pub open spec fn site_lives(sites: Seq<SpawnSite>, duration: u64, lives: Seq<Life>) -> bool {
    &&& lives_ordered(lives)
    &&& forall|x: int| 0 <= x < lives.len() ==> (first_site(sites, (#[trigger] lives[x]).id) matches Some(i) && lives[x] == site_life(sites[i], duration))
    &&& forall|i: int| 0 <= i < sites.len() && first_site(sites, (#[trigger] sites[i]).spawn.serial) == Some(i) ==> lives.contains(site_life(sites[i], duration))
}

/// The round-clock signature changes of the first `n` packets (times after the origin),
/// and the last signature seen.
#[verifier::opaque]
pub open spec fn clock_transitions(chunks: Seq<FilmChunkData>, packets: Seq<FilmPacket>, origin: u64, n: int) -> (Seq<u64>, Option<u32>)
    decreases n,
{
    if n <= 0 || n > packets.len() {
        (seq![], None)
    } else {
        let prior = clock_transitions(chunks, packets, origin, n - 1);
        let pk = packets[n - 1];
        if pk.packet_type == 0 && pk.timestamp_us >= origin {
            match payload_spec(chunks, pk) {
                Some(data) => match clock_spec(data, 0, true) {
                    Some((signature, _)) => if prior.1 != Some(signature) {
                        (prior.0.push((pk.timestamp_us - origin) as u64), Some(signature))
                    } else {
                        prior
                    },
                    None => prior,
                },
                None => prior,
            }
        } else {
            prior
        }
    }
}

proof fn lemma_first_site_range(sites: Seq<SpawnSite>, serial: u16)
    ensures
        first_site(sites, serial) matches Some(i) ==> 0 <= i < sites.len() && sites[i].spawn.serial == serial,
    decreases sites.len(),
{
    if sites.len() > 0 {
        lemma_first_site_range(sites.drop_last(), serial);
    }
}

proof fn lemma_first_site_found(sites: Seq<SpawnSite>, i: int)
    requires
        0 <= i < sites.len(),
    ensures
        first_site(sites, sites[i].spawn.serial) matches Some(j) && j <= i,
    decreases sites.len(),
{
    lemma_first_site_range(sites.drop_last(), sites[i].spawn.serial);
    if i < sites.len() - 1 {
        assert(sites.drop_last()[i] == sites[i]);
        lemma_first_site_found(sites.drop_last(), i);
    }
}

proof fn lemma_first_reuse_append(a: Seq<SpawnSite>, b: Seq<SpawnSite>, duration: u64)
    requires
        first_reuse(a, duration) is Some,
    ensures
        first_reuse(a + b, duration) == first_reuse(a, duration),
    decreases b.len(),
{
    if b.len() == 0 {
        assert(a + b =~= a);
    } else {
        lemma_first_reuse_append(a, b.drop_last(), duration);
        assert((a + b).drop_last() =~= a + b.drop_last());
    }
}

proof fn lemma_spawn_sites_prefix(chunks: Seq<FilmChunkData>, packets: Seq<FilmPacket>, origin: u64, m: int, n: int) -> (rest: Seq<SpawnSite>)
    requires
        0 <= m <= n <= packets.len(),
    ensures
        spawn_sites(chunks, packets, origin, n) == spawn_sites(chunks, packets, origin, m) + rest,
    decreases n - m,
{
    if m == n {
        assert(spawn_sites(chunks, packets, origin, n) =~= spawn_sites(chunks, packets, origin, m) + Seq::<SpawnSite>::empty());
        Seq::<SpawnSite>::empty()
    } else {
        let rest = lemma_spawn_sites_prefix(chunks, packets, origin, m, n - 1);
        let sm = spawn_sites(chunks, packets, origin, m);
        reveal(spawn_sites);
        let pk = packets[n - 1];
        if pk.packet_type == 0 && pk.timestamp_us >= origin && payload_spec(chunks, pk) is Some {
            let data = payload_spec(chunks, pk)->0;
            let w = window_spawns(data, (pk.timestamp_us - origin) as u64, pk, 0);
            assert((sm + rest) + w =~= sm + (rest + w));
            rest + w
        } else {
            rest
        }
    }
}

proof fn lemma_life_index_found(lives: Seq<Life>, serial: u16, j: int)
    requires
        0 <= j,
    ensures
        life_index(lives, serial, j) matches Some(k) ==> j <= k < lives.len() && lives[k].id == serial,
    decreases lives.len() - j,
{
    if j < lives.len() {
        lemma_life_index_found(lives, serial, j + 1);
    }
}

/// What `life_index` finds among the lives of the sites so far.
proof fn lemma_site_lookup(sites: Seq<SpawnSite>, duration: u64, lives: Seq<Life>, serial: u16)
    requires
        site_lives(sites, duration, lives),
    ensures
        match life_index(lives, serial, 0) {
            Some(k) => first_site(sites, serial) matches Some(i) && 0 <= k < lives.len() && lives[k] == site_life(sites[i], duration),
            None => first_site(sites, serial) is None,
        },
{
    lemma_life_index_found(lives, serial, 0);
    lemma_first_site_range(sites, serial);
    match life_index(lives, serial, 0) {
        Some(k) => {
            assert(first_site(sites, lives[k].id) matches Some(i) && lives[k] == site_life(sites[i], duration));
        },
        None => {
            if first_site(sites, serial) is Some {
                let i = first_site(sites, serial)->0;
                assert(first_site(sites, sites[i].spawn.serial) == Some(i));
                assert(lives.contains(site_life(sites[i], duration)));
                let x = choose|x: int| 0 <= x < lives.len() && lives[x] == site_life(sites[i], duration);
                lemma_life_index_at(lives, serial, x);
            }
        },
    }
}

/// A site whose identity has no life yet starts one.
proof fn lemma_site_new(sites: Seq<SpawnSite>, x: SpawnSite, duration: u64, lives: Seq<Life>, lives2: Seq<Life>)
    requires
        site_lives(sites, duration, lives),
        first_site(sites, x.spawn.serial) is None,
        lives_ordered(lives2),
        forall|i: int| 0 <= i < lives2.len() ==> (#[trigger] lives2[i]) == site_life(x, duration) || lives.contains(lives2[i]),
        forall|i: int| 0 <= i < lives.len() ==> lives2.contains(#[trigger] lives[i]),
        lives2.contains(site_life(x, duration)),
    ensures
        site_lives(sites.push(x), duration, lives2),
        !reuses_last(sites.push(x), duration),
{
    let s2 = sites.push(x);
    assert(s2.drop_last() =~= sites);
    assert(first_site(s2, x.spawn.serial) == Some(sites.len() as int));
    assert forall|q: int| 0 <= q < lives2.len() implies (first_site(s2, (#[trigger] lives2[q]).id) matches Some(i) && lives2[q] == site_life(s2[i], duration)) by {
        if lives2[q] == site_life(x, duration) {
        } else {
            let m = choose|m: int| 0 <= m < lives.len() && lives[m] == lives2[q];
            assert(first_site(sites, lives[m].id) matches Some(i) && lives[m] == site_life(sites[i], duration));
            let i = first_site(sites, lives[m].id)->0;
            lemma_first_site_range(sites, lives[m].id);
            assert(s2[i] == sites[i]);
        }
    }
    assert forall|i: int| 0 <= i < s2.len() && first_site(s2, (#[trigger] s2[i]).spawn.serial) == Some(i) implies lives2.contains(site_life(s2[i], duration)) by {
        if i < sites.len() {
            assert(s2[i] == sites[i]);
            lemma_first_site_found(sites, i);
            assert(first_site(sites, sites[i].spawn.serial) == Some(i));
            assert(lives.contains(site_life(sites[i], duration)));
            let m = choose|m: int| 0 <= m < lives.len() && lives[m] == site_life(sites[i], duration);
            assert(lives2.contains(lives[m]));
        } else {
            assert(s2[i] == x);
        }
    }
}

/// An exact repeat of a spawn changes nothing.
proof fn lemma_site_repeat(sites: Seq<SpawnSite>, x: SpawnSite, duration: u64, lives: Seq<Life>)
    requires
        site_lives(sites, duration, lives),
        first_site(sites, x.spawn.serial) matches Some(i) && same_spawn(site_life(sites[i], duration), x.spawn, x.time_us),
    ensures
        site_lives(sites.push(x), duration, lives),
        !reuses_last(sites.push(x), duration),
{
    let s2 = sites.push(x);
    assert(s2.drop_last() =~= sites);
    let i0 = first_site(sites, x.spawn.serial)->0;
    lemma_first_site_range(sites, x.spawn.serial);
    assert(s2[i0] == sites[i0]);
    assert forall|q: int| 0 <= q < lives.len() implies (first_site(s2, (#[trigger] lives[q]).id) matches Some(i) && lives[q] == site_life(s2[i], duration)) by {
        assert(first_site(sites, lives[q].id) matches Some(i) && lives[q] == site_life(sites[i], duration));
        let i = first_site(sites, lives[q].id)->0;
        lemma_first_site_range(sites, lives[q].id);
        assert(s2[i] == sites[i]);
    }
    assert forall|i: int| 0 <= i < s2.len() && first_site(s2, (#[trigger] s2[i]).spawn.serial) == Some(i) implies lives.contains(site_life(s2[i], duration)) by {
        if i < sites.len() {
            assert(s2[i] == sites[i]);
            lemma_first_site_found(sites, i);
        } else {
            assert(s2[i] == x);
        }
    }
}

/// A spawn of a started identity that is not an exact repeat reuses it.
proof fn lemma_site_reuse(sites: Seq<SpawnSite>, x: SpawnSite, duration: u64)
    requires
        first_site(sites, x.spawn.serial) matches Some(i) && !same_spawn(site_life(sites[i], duration), x.spawn, x.time_us),
    ensures
        reuses_last(sites.push(x), duration),
{
    let s2 = sites.push(x);
    assert(s2.drop_last() =~= sites);
    let i0 = first_site(sites, x.spawn.serial)->0;
    lemma_first_site_range(sites, x.spawn.serial);
    assert(s2[i0] == sites[i0]);
}

/// The track roster after the first sites: the initial tracks and a fresh track for
/// each roster index that only a spawn names.
pub open spec fn spawn_tracks(start: Seq<PlayerTrack>, sites: Seq<SpawnSite>, players: Seq<PlayerTrack>) -> bool {
    &&& forall|id: u8| #[trigger] track_ids(players).contains(id) <==> (track_ids(start).contains(id)
        || exists|i: int| 0 <= i < sites.len() && (#[trigger] sites[i]).spawn.player == id)
    &&& forall|q: int| 0 <= q < start.len() ==> players.contains(#[trigger] start[q])
    &&& forall|q: int| 0 <= q < players.len() ==> start.contains(#[trigger] players[q]) || (
        players[q].xuid is None && players[q].name@ == "Player "@ + decimal(players[q].id as nat)
            && track_is_new(players[q]))
}

/// One accepted spawn site keeps the lives and tracks in step with the sites.
proof fn lemma_spawn_step(
    sites: Seq<SpawnSite>,
    x: SpawnSite,
    duration: u64,
    start: Seq<PlayerTrack>,
    l0: Seq<Life>,
    l1: Seq<Life>,
    p0: Seq<PlayerTrack>,
    p1: Seq<PlayerTrack>,
)
    requires
        site_lives(sites, duration, l0),
        first_reuse(sites, duration) is None,
        lives_tracked(l0, p0),
        spawn_tracks(start, sites, p0),
        match life_index(l0, x.spawn.serial, 0) {
            Some(k) => same_spawn(l0[k], x.spawn, x.time_us) && l1 == l0 && p1 == p0,
            None => {
                &&& lives_ordered(l1)
                &&& l1.contains(site_life(x, duration))
                &&& forall|i: int| 0 <= i < l1.len() ==> (#[trigger] l1[i]) == site_life(x, duration) || l0.contains(l1[i])
                &&& forall|i: int| 0 <= i < l0.len() ==> l1.contains(#[trigger] l0[i])
                &&& if track_ids(p0).contains(x.spawn.player) {
                    p1 == p0
                } else {
                    &&& exists|j: int| 0 <= j < p1.len() && (#[trigger] p1[j]).id == x.spawn.player
                    &&& forall|q: int| 0 <= q < p0.len() ==> p1.contains(#[trigger] p0[q])
                    &&& forall|q: int| 0 <= q < p1.len() ==> p0.contains(#[trigger] p1[q]) || (
                        p1[q].id == x.spawn.player && p1[q].xuid is None && p1[q].name@ == "Player "@
                            + decimal(x.spawn.player as nat) && track_is_new(p1[q]))
                }
            },
        },
    ensures
        site_lives(sites.push(x), duration, l1),
        first_reuse(sites.push(x), duration) is None,
        spawn_tracks(start, sites.push(x), p1),
{
    let s2 = sites.push(x);
    assert(s2.drop_last() =~= sites);
    lemma_site_lookup(sites, duration, l0, x.spawn.serial);
    match life_index(l0, x.spawn.serial, 0) {
        Some(kk) => {
            lemma_site_repeat(sites, x, duration, l0);
            assert(l0[kk].player == x.spawn.player);
            assert(track_ids(p1).contains(l0[kk].player));
        },
        None => {
            lemma_site_new(sites, x, duration, l0, l1);
            if !track_ids(p0).contains(x.spawn.player) {
                let j = choose|j: int| 0 <= j < p1.len() && (#[trigger] p1[j]).id == x.spawn.player;
                lemma_track_id_at(p1, j);
                assert forall|q: int| 0 <= q < start.len() implies p1.contains(#[trigger] start[q]) by {
                    let m = choose|m: int| 0 <= m < p0.len() && p0[m] == start[q];
                    assert(p1.contains(p0[m]));
                }
                assert forall|q: int| 0 <= q < p1.len() implies start.contains(#[trigger] p1[q]) || (
                    p1[q].xuid is None && p1[q].name@ == "Player "@ + decimal(p1[q].id as nat) && track_is_new(p1[q])) by {
                    if p0.contains(p1[q]) {
                        let m = choose|m: int| 0 <= m < p0.len() && p0[m] == p1[q];
                    }
                }
                assert forall|id: u8| #[trigger] track_ids(p1).contains(id) implies track_ids(p0).contains(id) || id == x.spawn.player by {
                    let q = choose|q: int| 0 <= q < track_ids(p1).len() && track_ids(p1)[q] == id;
                    assert(track_ids(p1)[q] == p1[q].id);
                    if p0.contains(p1[q]) {
                        let m = choose|m: int| 0 <= m < p0.len() && p0[m] == p1[q];
                        lemma_track_id_at(p0, m);
                    }
                }
                assert forall|id: u8| #[trigger] track_ids(p0).contains(id) implies track_ids(p1).contains(id) by {
                    let q = choose|q: int| 0 <= q < track_ids(p0).len() && track_ids(p0)[q] == id;
                    assert(track_ids(p0)[q] == p0[q].id);
                    assert(p1.contains(p0[q]));
                    let m = choose|m: int| 0 <= m < p1.len() && p1[m] == p0[q];
                    lemma_track_id_at(p1, m);
                }
            }
            assert(track_ids(p1).contains(x.spawn.player));
        },
    }
    assert forall|id: u8| #[trigger] track_ids(p1).contains(id) <==> (track_ids(p0).contains(id) || id == x.spawn.player) by {
        match life_index(l0, x.spawn.serial, 0) {
            Some(kk) => {
                assert(l0[kk].player == x.spawn.player);
                assert(track_ids(p0).contains(l0[kk].player));
            },
            None => {},
        }
    }
    assert forall|id: u8| #[trigger] track_ids(p1).contains(id) <==> (track_ids(start).contains(id)
        || exists|i: int| 0 <= i < s2.len() && (#[trigger] s2[i]).spawn.player == id) by {
        assert(track_ids(p0).contains(id) <==> (track_ids(start).contains(id)
            || exists|i: int| 0 <= i < sites.len() && (#[trigger] sites[i]).spawn.player == id));
        if exists|i: int| 0 <= i < s2.len() && (#[trigger] s2[i]).spawn.player == id {
            let i = choose|i: int| 0 <= i < s2.len() && (#[trigger] s2[i]).spawn.player == id;
            if i < sites.len() {
                assert(s2[i] == sites[i]);
            }
        }
        if exists|i: int| 0 <= i < sites.len() && (#[trigger] sites[i]).spawn.player == id {
            let i = choose|i: int| 0 <= i < sites.len() && (#[trigger] sites[i]).spawn.player == id;
            assert(s2[i] == sites[i]);
        }
        assert(s2[sites.len() as int] == x);
    }
}

/// The first pass over replication payloads: lives from spawns, and the times at
/// which the strict round-clock signature changed.
#[verifier::spinoff_prover]
fn spawn_pass(
    chunks: &[FilmChunkData],
    packets: &Vec<FilmPacket>,
    origin: u64,
    duration: u64,
    players: &mut Vec<PlayerTrack>,
    d: &mut DecodeDiagnostics,
    retain: bool,
) -> (r: Result<(Vec<Life>, Vec<u64>), DecodeError>)
    requires
        film_addressable(chunks@),
        tracks_ordered(old(players)@),
        lives_empty(old(players)@),
        old(d).frames == 0,
    ensures
        final(d).limitations@ == old(d).limitations@,
        tracks_ordered(final(players)@),
        r is Ok ==> lives_empty(final(players)@),
        r matches Ok((lives, _)) ==> lives_ordered(lives@) && lives_tracked(lives@, final(players)@),
        r is Ok ==> final(d).frames == replication_frames(packets@, origin, packets@.len() as int),
        r matches Err(e) ==> e is Inconsistent,
        r is Err <==> first_reuse(spawn_sites(chunks@, packets@, origin, packets@.len() as int), duration) is Some,
        r matches Err(e) ==> {
            let sites = spawn_sites(chunks@, packets@, origin, packets@.len() as int);
            &&& first_reuse(sites, duration) matches Some(j)
            &&& 0 <= j < sites.len()
            &&& e is Inconsistent
            &&& e->Inconsistent_0@ == "reused life identity "@ + decimal(sites[j].spawn.serial as nat)
        },
        r matches Ok((lives, transitions)) ==> {
            let sites = spawn_sites(chunks@, packets@, origin, packets@.len() as int);
            &&& site_lives(sites, duration, lives@)
            &&& transitions@ == clock_transitions(chunks@, packets@, origin, packets@.len() as int).0
            &&& spawn_tracks(old(players)@, sites, final(players)@)
        },
{
    let ghost start = players@;
    let ghost all_sites = spawn_sites(chunks@, packets@, origin, packets@.len() as int);
    let ghost mut sites = Seq::<SpawnSite>::empty();
    let mut lives: Vec<Life> = Vec::new();
    let mut transitions: Vec<u64> = Vec::new();
    let mut last_signature: Option<u32> = None;
    let mut k: usize = 0;
    proof {
        reveal(spawn_sites);
        reveal(clock_transitions);
    }
    while k < packets.len()
        invariant
            k <= packets@.len(),
            film_addressable(chunks@),
            start == old(players)@,
            all_sites == spawn_sites(chunks@, packets@, origin, packets@.len() as int),
            tracks_ordered(players@),
            lives_ordered(lives@),
            lives_tracked(lives@, players@),
            lives_empty(players@),
            d.frames <= k,
            d.limitations@ == old(d).limitations@,
            d.frames == replication_frames(packets@, origin, k as int),
            sites == spawn_sites(chunks@, packets@, origin, k as int),
            first_reuse(sites, duration) is None,
            site_lives(sites, duration, lives@),
            (transitions@, last_signature) == clock_transitions(chunks@, packets@, origin, k as int),
            spawn_tracks(start, sites, players@),
        decreases packets@.len() - k,
    {
        let p = &packets[k];
        let ghost target = spawn_sites(chunks@, packets@, origin, k + 1);
        proof {
            reveal(spawn_sites);
            reveal(clock_transitions);
        }
        if p.packet_type == 0 && p.timestamp_us >= origin {
            let t = p.timestamp_us - origin;
            d.frames = d.frames + 1;
            match payload(chunks, p) {
                Some(data) => {
                    let b = Bits(data);
                    let ghost pb = b@;
                    match clock(b, 0, true) {
                        Some((signature, _)) => {
                            let changed = match last_signature {
                                Some(prior) => prior != signature,
                                None => true,
                            };
                            if changed {
                                transitions.push(t);
                                last_signature = Some(signature);
                            }
                        },
                        None => {},
                    }
                    let mut ws = b.windows();
                    let mut done = false;
                    proof {
                        assert(target == sites + window_spawns(pb, t, *p, 0));
                    }
                    while !done
                        invariant
                            ws.wf(),
                            ws.bits@ == b@,
                            pb == b@,
                            b@.len() * 8 + 16384 <= usize::MAX,
                            start == old(players)@,
                            all_sites == spawn_sites(chunks@, packets@, origin, packets@.len() as int),
                            k < packets@.len(),
                            target == spawn_sites(chunks@, packets@, origin, k + 1),
                            tracks_ordered(players@),
                            lives_ordered(lives@),
                            lives_tracked(lives@, players@),
                            lives_empty(players@),
                            d.frames <= k + 1,
                            d.limitations@ == old(d).limitations@,
                            d.frames == replication_frames(packets@, origin, k + 1),
                            first_reuse(sites, duration) is None,
                            site_lives(sites, duration, lives@),
                            spawn_tracks(start, sites, players@),
                            !done ==> target == sites + window_spawns(pb, t, *p, ws.offset as int),
                            done ==> target == sites,
                        decreases bit_len(b@) - ws.offset + if done { 0int } else { 1int },
                    {
                        match ws.next() {
                            Some((o, w)) => {
                                let ghost l0 = lives@;
                                let ghost p0 = players@;
                                let ghost rest = window_spawns(pb, t, *p, o + 1);
                                proof {
                                    assert(w == window_spec(pb, o as int));
                                    lemma_site_lookup(sites, duration, l0, match spawn_event(pb, o as int, w) { Some((_, s)) => s.serial, None => 0 });
                                }
                                let res = spawn_at(b, o, w, p, t, duration, &mut lives, players, d, retain);
                                match res {
                                    Err(e) => {
                                        proof {
                                            let (st, s) = spawn_event(pb, o as int, w)->0;
                                            let x = SpawnSite { start: st, spawn: s, time_us: t, packet: *p };
                                            assert(window_spawns(pb, t, *p, o as int) == seq![x] + rest);
                                            assert(sites + (seq![x] + rest) =~= sites.push(x) + rest);
                                            assert(sites.push(x).drop_last() =~= sites);
                                            lemma_site_reuse(sites, x, duration);
                                            let s2 = sites.push(x);
                                            assert(first_reuse(s2, duration) == Some(sites.len() as int));
                                            let rest2 = lemma_spawn_sites_prefix(chunks@, packets@, origin, k + 1, packets@.len() as int);
                                            assert(all_sites =~= s2 + (rest + rest2));
                                            lemma_first_reuse_append(s2, rest + rest2, duration);
                                            assert(all_sites[sites.len() as int] == x);
                                        }
                                        return Err(e);
                                    },
                                    Ok(()) => {},
                                }
                                proof {
                                    match spawn_event(pb, o as int, w) {
                                        None => {
                                            assert(window_spawns(pb, t, *p, o as int) == Seq::<SpawnSite>::empty() + rest);
                                            assert(Seq::<SpawnSite>::empty() + rest =~= rest);
                                        },
                                        Some((st, s)) => {
                                            let x = SpawnSite { start: st, spawn: s, time_us: t, packet: *p };
                                            assert(window_spawns(pb, t, *p, o as int) == seq![x] + rest);
                                            assert(sites + (seq![x] + rest) =~= sites.push(x) + rest);
                                            assert(spawn_life(s, st, t, duration, *p) == site_life(x, duration));
                                            lemma_spawn_step(sites, x, duration, start, l0, lives@, p0, players@);
                                            sites = sites.push(x);
                                        },
                                    }
                                }
                            },
                            None => {
                                proof {
                                    assert(sites + window_spawns(pb, t, *p, ws.offset as int) =~= sites);
                                }
                                done = true;
                            },
                        }
                    }
                },
                None => {
                    assert(target == sites);
                },
            }
        } else {
            assert(target == sites);
        }
        k += 1;
    }
    proof {
        assert(all_sites == sites);
    }
    Ok((lives, transitions))
}

/// Whether a round-clock change (after the first clock) happened less than 0.25 s
/// before `end`.
pub open spec fn reset_before_spec(transitions: Seq<u64>, end: u64) -> bool {
    exists|i: int| 1 <= i < transitions.len() && #[trigger] transitions[i] <= end && end - transitions[i] < 250_000
}

fn reset_before(transitions: &Vec<u64>, end: u64) -> (r: bool)
    ensures
        r == reset_before_spec(transitions@, end),
{
    let mut i: usize = 1;
    while i < transitions.len()
        invariant
            1 <= i,
            forall|k: int| 1 <= k < i && k < transitions@.len() ==> !(#[trigger] transitions@[k] <= end && end - transitions@[k] < 250_000),
        decreases transitions@.len() - i,
    {
        let t = transitions[i];
        if t <= end && end - t < 250_000 {
            return true;
        }
        i += 1;
    }
    false
}

/// `l` inserted after every life of `s` that does not start later.
pub open spec fn insert_by_start(s: Seq<Life>, l: Life) -> Seq<Life>
    decreases s.len(),
{
    if s.len() == 0 {
        seq![l]
    } else if s[0].start_us > l.start_us {
        seq![l] + s
    } else {
        seq![s[0]] + insert_by_start(s.drop_first(), l)
    }
}

/// The lives of roster index `id` among the first `n`, ordered by start (stable).
pub open spec fn player_lives(lives: Seq<Life>, id: u8, n: int) -> Seq<Life>
    decreases n,
{
    if n <= 0 || n > lives.len() {
        seq![]
    } else if lives[n - 1].player == id {
        insert_by_start(player_lives(lives, id, n - 1), lives[n - 1])
    } else {
        player_lives(lives, id, n - 1)
    }
}

/// Whether summary event `e` is a death of `id` in `[start, end)`.
pub open spec fn death_in(e: SummaryEvent, id: u8, start: u64, end: u64) -> bool {
    e.player == Some(id) && e.kind == SummaryKind::Death && start <= e.time_us && e.time_us < end
}

/// How many of the first `n` summary events are deaths of `id` in `[start, end)`.
pub open spec fn death_count(summary: Seq<SummaryEvent>, id: u8, start: u64, end: u64, n: int) -> nat
    decreases n,
{
    if n <= 0 || n > summary.len() {
        0
    } else {
        death_count(summary, id, start, end, n - 1) + if death_in(summary[n - 1], id, start, end) { 1nat } else { 0nat }
    }
}

/// The time of the first such death among the first `n` events.
pub open spec fn first_death(summary: Seq<SummaryEvent>, id: u8, start: u64, end: u64, n: int) -> Option<u64>
    decreases n,
{
    if n <= 0 || n > summary.len() {
        None
    } else if death_count(summary, id, start, end, n - 1) == 0 && death_in(summary[n - 1], id, start, end) {
        Some(summary[n - 1].time_us)
    } else {
        first_death(summary, id, start, end, n - 1)
    }
}

/// Where life `i` of an ordered list ends: at the next one's start, or as recorded.
pub open spec fn life_end(list: Seq<Life>, i: int) -> u64 {
    if i + 1 < list.len() {
        list[i + 1].start_us
    } else {
        list[i].end_us
    }
}

/// Life `i` of a player's ordered lives with its end, death and round reset.
pub open spec fn completed_life(list: Seq<Life>, i: int, summary: Seq<SummaryEvent>, transitions: Seq<u64>, duration: u64, id: u8) -> Life {
    let end = life_end(list, i);
    let death = first_death(summary, id, list[i].start_us, end, summary.len() as int);
    Life { end_us: end, death_us: death, round_reset: death is None && end < duration && reset_before_spec(transitions, end), ..list[i] }
}

pub open spec fn bound_lives(list: Seq<Life>, summary: Seq<SummaryEvent>, transitions: Seq<u64>, duration: u64, id: u8) -> Seq<Life> {
    Seq::new(list.len(), |i: int| completed_life(list, i, summary, transitions, duration, id))
}

/// Life `i` of a player's ordered lives holds more than one death.
pub open spec fn life_conflict(list: Seq<Life>, i: int, summary: Seq<SummaryEvent>, id: u8) -> bool {
    death_count(summary, id, list[i].start_us, life_end(list, i), summary.len() as int) > 1
}

/// Some life of some track holds more than one death.
pub open spec fn bind_fails(players: Seq<PlayerTrack>, lives: Seq<Life>, summary: Seq<SummaryEvent>) -> bool {
    exists|q: int, i: int|
        0 <= q < players.len() && 0 <= i < player_lives(lives, players[q].id, lives.len() as int).len() && #[trigger] life_conflict(
            player_lives(lives, players[q].id, lives.len() as int),
            i,
            summary,
            players[q].id,
        )
}

/// The spawn position samples of lives.
pub open spec fn spawn_positions(lives: Seq<Life>) -> Seq<Sample<Position>> {
    Seq::new(
        lives.len(),
        |i: int| Sample { time_us: lives[i].start_us, life: lives[i].id, value: Position { raw: lives[i].position, spawn: true, input: None }, source: lives[i].source },
    )
}

proof fn lemma_insert_by_start_at(s: Seq<Life>, l: Life, j: int)
    requires
        0 <= j <= s.len(),
        forall|k: int| 0 <= k < j ==> (#[trigger] s[k]).start_us <= l.start_us,
        j < s.len() ==> s[j].start_us > l.start_us,
    ensures
        insert_by_start(s, l) == s.insert(j, l),
    decreases j,
{
    if j == 0 {
        if s.len() > 0 {
            assert(seq![l] + s =~= s.insert(0, l));
        } else {
            assert(seq![l] =~= s.insert(0, l));
        }
    } else {
        let t = s.drop_first();
        assert forall|k: int| 0 <= k < j - 1 implies (#[trigger] t[k]).start_us <= l.start_us by {
            assert(t[k] == s[k + 1]);
        }
        lemma_insert_by_start_at(t, l, j - 1);
        assert(seq![s[0]] + t.insert(j - 1, l) =~= s.insert(j, l));
    }
}

/// Lives ordered by start time.
pub open spec fn starts_ordered(s: Seq<Life>) -> bool {
    forall|i: int, j: int| 0 <= i < j < s.len() ==> (#[trigger] s[i]).start_us <= (#[trigger] s[j]).start_us
}

proof fn lemma_insert_by_start_ordered(s: Seq<Life>, l: Life)
    requires
        starts_ordered(s),
    ensures
        starts_ordered(insert_by_start(s, l)),
        insert_by_start(s, l).len() == s.len() + 1,
    decreases s.len(),
{
    let r = insert_by_start(s, l);
    if s.len() == 0 {
    } else if s[0].start_us > l.start_us {
        assert(r == seq![l] + s);
        assert forall|i: int, j: int| 0 <= i < j < r.len() implies (#[trigger] r[i]).start_us <= (#[trigger] r[j]).start_us by {
            assert(r[j] == s[j - 1]);
            if i > 0 {
                assert(r[i] == s[i - 1]);
            } else {
                assert(s[0].start_us <= s[j - 1].start_us);
            }
        }
    } else {
        let t = s.drop_first();
        assert forall|i: int, j: int| 0 <= i < j < t.len() implies (#[trigger] t[i]).start_us <= (#[trigger] t[j]).start_us by {
            assert(t[i] == s[i + 1] && t[j] == s[j + 1]);
        }
        lemma_insert_by_start_ordered(t, l);
        lemma_insert_by_start_members(t, l);
        let rt = insert_by_start(t, l);
        assert(r == seq![s[0]] + rt);
        assert forall|i: int, j: int| 0 <= i < j < r.len() implies (#[trigger] r[i]).start_us <= (#[trigger] r[j]).start_us by {
            assert(r[j] == rt[j - 1]);
            if i > 0 {
                assert(r[i] == rt[i - 1]);
            } else {
                if rt[j - 1] != l {
                    let m = choose|m: int| 0 <= m < t.len() && t[m] == rt[j - 1];
                    assert(s[m + 1] == t[m]);
                    assert(s[0].start_us <= s[m + 1].start_us);
                }
            }
        }
    }
}

/// A player's lives, gathered from a film's lives, are exactly that player's and come
/// in order of start.
pub proof fn lemma_player_lives_ordered(lives: Seq<Life>, id: u8, n: int)
    ensures
        starts_ordered(player_lives(lives, id, n)),
        forall|k: int| 0 <= k < player_lives(lives, id, n).len() ==> (#[trigger] player_lives(lives, id, n)[k]).player == id,
    decreases n,
{
    if n > 0 && n <= lives.len() {
        lemma_player_lives_ordered(lives, id, n - 1);
        let prior = player_lives(lives, id, n - 1);
        if lives[n - 1].player == id {
            lemma_insert_by_start_ordered(prior, lives[n - 1]);
            lemma_insert_by_start_members(prior, lives[n - 1]);
            let r = player_lives(lives, id, n);
            assert forall|k: int| 0 <= k < r.len() implies (#[trigger] r[k]).player == id by {
                if r[k] != lives[n - 1] {
                    let q = choose|q: int| 0 <= q < prior.len() && prior[q] == r[k];
                }
            }
        }
    }
}

/// The lives bound to one player, in start order: each keeps its identity and start;
/// every life but the last ends exactly where the next one starts, and the last keeps its
/// recorded end; so when the starts are ordered no two of the player's lives overlap.
pub proof fn lemma_lives_end_where_next_begins(
    list: Seq<Life>,
    summary: Seq<SummaryEvent>,
    transitions: Seq<u64>,
    duration: u64,
    id: u8,
)
    ensures
        bound_lives(list, summary, transitions, duration, id).len() == list.len(),
        forall|i: int| 0 <= i < list.len() ==> (#[trigger] bound_lives(list, summary, transitions, duration, id)[i]).start_us
            == list[i].start_us && bound_lives(list, summary, transitions, duration, id)[i].id == list[i].id
            && bound_lives(list, summary, transitions, duration, id)[i].player == list[i].player,
        forall|i: int| 0 <= i < list.len() - 1 ==> (#[trigger] bound_lives(list, summary, transitions, duration, id)[i]).end_us
            == bound_lives(list, summary, transitions, duration, id)[i + 1].start_us,
        list.len() > 0 ==> bound_lives(list, summary, transitions, duration, id)[list.len() - 1].end_us == list[list.len() - 1].end_us,
        starts_ordered(list) ==> forall|i: int, j: int| 0 <= i < j < list.len() ==> (#[trigger] bound_lives(
            list,
            summary,
            transitions,
            duration,
            id,
        )[i]).end_us <= (#[trigger] bound_lives(list, summary, transitions, duration, id)[j]).start_us,
{
    let b = bound_lives(list, summary, transitions, duration, id);
    if starts_ordered(list) {
        assert forall|i: int, j: int| 0 <= i < j < list.len() implies (#[trigger] b[i]).end_us <= (#[trigger] b[j]).start_us by {
            assert(b[i].end_us == list[i + 1].start_us);
            if i + 1 < j {
                assert(list[i + 1].start_us <= list[j].start_us);
            }
        }
    }
}

/// Some of the first `k` tracks has roster index `id`.
pub open spec fn among_tracks(ps: Seq<PlayerTrack>, k: int, id: u8) -> bool {
    exists|q: int| 0 <= q < k && (#[trigger] ps[q]).id == id
}

/// Some of the first `k` tracks holds life `l`.
pub open spec fn held_by_tracks(ps: Seq<PlayerTrack>, k: int, l: Life) -> bool {
    exists|q: int, j: int| 0 <= q < k && 0 <= j < ps[q].lives@.len() && (#[trigger] ps[q].lives@[j]) == l
}

proof fn lemma_insert_by_start_members(s: Seq<Life>, l: Life)
    ensures
        insert_by_start(s, l).contains(l),
        forall|k: int| 0 <= k < s.len() ==> insert_by_start(s, l).contains(#[trigger] s[k]),
        forall|k: int| 0 <= k < insert_by_start(s, l).len() ==> (#[trigger] insert_by_start(s, l)[k]) == l || s.contains(insert_by_start(s, l)[k]),
    decreases s.len(),
{
    let r = insert_by_start(s, l);
    if s.len() == 0 {
        assert(r[0] == l);
    } else if s[0].start_us > l.start_us {
        assert(r == seq![l] + s);
        assert(r[0] == l);
        assert forall|k: int| 0 <= k < s.len() implies r.contains(#[trigger] s[k]) by {
            assert(r[k + 1] == s[k]);
        }
        assert forall|k: int| 0 <= k < r.len() implies (#[trigger] r[k]) == l || s.contains(r[k]) by {
            if k > 0 {
                assert(r[k] == s[k - 1]);
            }
        }
    } else {
        let t = s.drop_first();
        lemma_insert_by_start_members(t, l);
        let rt = insert_by_start(t, l);
        assert(r == seq![s[0]] + rt);
        let j = choose|j: int| 0 <= j < rt.len() && rt[j] == l;
        assert(r[j + 1] == l);
        assert forall|k: int| 0 <= k < s.len() implies r.contains(#[trigger] s[k]) by {
            if k == 0 {
                assert(r[0] == s[0]);
            } else {
                assert(s[k] == t[k - 1]);
                let m = choose|m: int| 0 <= m < rt.len() && rt[m] == t[k - 1];
                assert(r[m + 1] == s[k]);
            }
        }
        assert forall|k: int| 0 <= k < r.len() implies (#[trigger] r[k]) == l || s.contains(r[k]) by {
            if k == 0 {
                assert(s[0] == r[0]);
            } else {
                assert(r[k] == rt[k - 1]);
                if rt[k - 1] != l {
                    let m = choose|m: int| 0 <= m < t.len() && t[m] == rt[k - 1];
                    assert(s[m + 1] == t[m]);
                }
            }
        }
    }
}

proof fn lemma_player_lives_members(lives: Seq<Life>, id: u8, n: int)
    requires
        0 <= n <= lives.len(),
    ensures
        forall|m: int| 0 <= m < player_lives(lives, id, n).len() ==> lives.contains(#[trigger] player_lives(lives, id, n)[m]),
        forall|y: int| 0 <= y < n && (#[trigger] lives[y]).player == id ==> player_lives(lives, id, n).contains(lives[y]),
    decreases n,
{
    if n > 0 {
        lemma_player_lives_members(lives, id, n - 1);
        let prior = player_lives(lives, id, n - 1);
        if lives[n - 1].player == id {
            lemma_insert_by_start_members(prior, lives[n - 1]);
            let r = player_lives(lives, id, n);
            assert forall|m: int| 0 <= m < r.len() implies lives.contains(#[trigger] r[m]) by {
                if r[m] != lives[n - 1] {
                    let q = choose|q: int| 0 <= q < prior.len() && prior[q] == r[m];
                }
            }
            assert forall|y: int| 0 <= y < n && (#[trigger] lives[y]).player == id implies r.contains(lives[y]) by {
                if y < n - 1 {
                    let q = choose|q: int| 0 <= q < prior.len() && prior[q] == lives[y];
                    assert(r.contains(prior[q]));
                }
            }
        }
    }
}

/// Completes each player's lives: ordered by start, each ends at the next one's
/// start, takes the single summary death inside it (two are an error), and is marked
/// as ended by a round reset when it has no death, ends before the film does, and a
/// round-clock change came less than 0.25 s before its end. Each life's spawn becomes
/// a position sample.
#[verifier::spinoff_prover]
fn bind_lives(
    players: &mut Vec<PlayerTrack>,
    lives: &mut Vec<Life>,
    summary: &Vec<SummaryEvent>,
    transitions: &Vec<u64>,
    duration: u64,
) -> (r: Result<(), DecodeError>)
    requires
        tracks_ordered(old(players)@),
        lives_ordered(old(lives)@),
        lives_tracked(old(lives)@, old(players)@),
        lives_empty(old(players)@),
    ensures
        r is Ok ==> tracks_ordered(final(players)@) && lives_tracked(final(lives)@, final(players)@),
        r is Ok ==> forall|y: int| 0 <= y < final(lives)@.len() ==> (#[trigger] final(lives)@[y]).id == old(lives)@[y].id
            && held_by_tracks(final(players)@, final(players)@.len() as int, final(lives)@[y]),
        r is Ok ==> forall|q: int| 0 <= q < final(players)@.len() ==> (#[trigger] final(players)@[q]) == (PlayerTrack {
            lives: final(players)@[q].lives,
            positions: final(players)@[q].positions,
            ..old(players)@[q]
        }),
        r is Ok ==> forall|q: int| 0 <= q < final(players)@.len() ==> own_lives(#[trigger] final(players)@[q]),
        r matches Err(e) ==> e is Inconsistent,
        r matches Err(e) ==> exists|q: int, i: int|
            0 <= q < old(players)@.len() && 0 <= i < player_lives(old(lives)@, old(players)@[q].id, old(lives)@.len() as int).len()
                && #[trigger] life_conflict(player_lives(old(lives)@, old(players)@[q].id, old(lives)@.len() as int), i, summary@, old(players)@[q].id)
                && e->Inconsistent_0@ == "multiple deaths for life "@ + decimal(
                player_lives(old(lives)@, old(players)@[q].id, old(lives)@.len() as int)[i].id as nat,
            ),
        final(lives)@.len() == old(lives)@.len(),
        r is Err <==> bind_fails(old(players)@, old(lives)@, summary@),
        r is Ok ==> final(players)@.len() == old(players)@.len() && forall|q: int| 0 <= q < final(players)@.len() ==> {
            let id = old(players)@[q].id;
            &&& (#[trigger] final(players)@[q]).id == id
            &&& final(players)@[q].lives@ == bound_lives(player_lives(old(lives)@, id, old(lives)@.len() as int), summary@, transitions@, duration, id)
            &&& final(players)@[q].positions@ == old(players)@[q].positions@ + spawn_positions(final(players)@[q].lives@)
        },
{
    let ghost old_lives = lives@;
    let ghost old_players = players@;
    let snapshot = crate::text::copy_range(lives, 0, lives.len());
    proof {
        assert(snapshot@ =~= old_lives);
    }
    let mut k: usize = 0;
    while k < players.len()
        invariant
            k <= players@.len(),
            snapshot@ == old_lives,
            old_lives == old(lives)@,
            old_players == old(players)@,
            players@.len() == old_players.len(),
            tracks_ordered(players@),
            lives_tracked(lives@, players@),
            lives@.len() == old(lives)@.len(),
            forall|q: int| 0 <= q < k ==> own_lives(#[trigger] players@[q]),
            lives_ordered(old_lives),
            forall|y: int| 0 <= y < lives@.len() ==> (#[trigger] lives@[y]).id == old_lives[y].id,
            forall|y: int| 0 <= y < lives@.len() && among_tracks(old_players, k as int, old_lives[y].player)
                ==> held_by_tracks(players@, k as int, #[trigger] lives@[y]),
            forall|y: int| 0 <= y < lives@.len() && !among_tracks(old_players, k as int, old_lives[y].player)
                ==> #[trigger] lives@[y] == old_lives[y],
            forall|q: int| 0 <= q < k ==> (#[trigger] players@[q]) == (PlayerTrack {
                lives: players@[q].lives,
                positions: players@[q].positions,
                ..old_players[q]
            }),
            forall|q: int| k <= q < players@.len() ==> (#[trigger] players@[q]) == old_players[q],
            forall|q: int| 0 <= q < players@.len() ==> (#[trigger] players@[q]).id == old_players[q].id,
            forall|q: int, i: int| 0 <= q < k && 0 <= i < player_lives(old_lives, old_players[q].id, old_lives.len() as int).len()
                ==> !#[trigger] life_conflict(player_lives(old_lives, old_players[q].id, old_lives.len() as int), i, summary@, old_players[q].id),
            forall|q: int| 0 <= q < k ==> {
                let id = old_players[q].id;
                &&& (#[trigger] players@[q]).lives@ == bound_lives(player_lives(old_lives, id, old_lives.len() as int), summary@, transitions@, duration, id)
                &&& players@[q].positions@ == old_players[q].positions@ + spawn_positions(players@[q].lives@)
            },
        decreases players@.len() - k,
    {
        let id = players[k].id;
        proof {
            lemma_track_id_at(players@, k as int);
        }
        let mut list: Vec<Life> = Vec::new();
        let mut j: usize = 0;
        while j < snapshot.len()
            invariant
                j <= snapshot@.len(),
                list@ == player_lives(snapshot@, id, j as int),
                forall|q: int| 0 <= q < list@.len() ==> (#[trigger] list@[q]).player == id,
                forall|a: int, b: int| 0 <= a < b < list@.len() ==> (#[trigger] list@[a]).start_us <= (#[trigger] list@[b]).start_us,
            decreases snapshot@.len() - j,
        {
            let l = snapshot[j];
            if l.player == id {
                let mut m: usize = 0;
                while m < list.len() && list[m].start_us <= l.start_us
                    invariant
                        m <= list@.len(),
                        forall|q: int| 0 <= q < m ==> (#[trigger] list@[q]).start_us <= l.start_us,
                    decreases list@.len() - m,
                {
                    m += 1;
                }
                let ghost prior = list@;
                proof {
                    lemma_insert_by_start_at(prior, l, m as int);
                }
                list.insert(m, l);
                proof {
                    assert forall|q: int| 0 <= q < list@.len() implies (#[trigger] list@[q]).player == id by {
                        if q < m {
                            assert(list@[q] == prior[q]);
                        } else if q > m {
                            assert(list@[q] == prior[q - 1]);
                        }
                    }
                    assert forall|a: int, b: int| 0 <= a < b < list@.len() implies (#[trigger] list@[a]).start_us
                        <= (#[trigger] list@[b]).start_us by {
                        if b < m {
                            assert(list@[a] == prior[a] && list@[b] == prior[b]);
                        } else if b == m {
                            assert(list@[a] == prior[a]);
                        } else if a < m {
                            assert(list@[a] == prior[a] && list@[b] == prior[b - 1]);
                        } else if a == m {
                            assert(list@[b] == prior[b - 1]);
                            assert(prior[m as int].start_us > l.start_us);
                            if b - 1 > m {
                                assert(prior[m as int].start_us <= prior[b - 1].start_us);
                            }
                        } else {
                            assert(list@[a] == prior[a - 1] && list@[b] == prior[b - 1]);
                        }
                    }
                }
            }
            j += 1;
        }
        let ghost orig = list@;
        assert(id == old_players[k as int].id);
        assert(orig == player_lives(old_lives, id, old_lives.len() as int));
        let ghost before = players@;
        let mut t = players.remove(k);
        let ghost pos0 = t.positions@;
        assert(t == old_players[k as int]);
        proof {
            lemma_player_lives_members(old_lives, id, old_lives.len() as int);
            if among_tracks(old_players, k as int, id) {
                let q = choose|q: int| 0 <= q < k && (#[trigger] old_players[q]).id == id;
                assert(before[q].id == old_players[q].id);
                assert(before[k as int].id == old_players[k as int].id);
                assert(before[q].id < before[k as int].id);
            }
            assert forall|y: int| 0 <= y < lives@.len() && among_tracks(old_players, k as int, old_lives[y].player)
                implies held_by_tracks(players@, k as int, #[trigger] lives@[y]) by {
                let (q, j) = choose|q: int, j: int| 0 <= q < k && 0 <= j < before[q].lives@.len() && (#[trigger] before[q].lives@[j]) == lives@[y];
                assert(players@[q] == before[q]);
            }
        }
        let mut i: usize = 0;
        while i < list.len()
            invariant
                i <= list@.len(),
                list@.len() == orig.len(),
                k < old_players.len(),
                old_players == old(players)@,
                old_lives == old(lives)@,
                id == old_players[k as int].id,
                orig == player_lives(old_lives, id, old_lives.len() as int),
                lives@.len() == old(lives)@.len(),
                k < before.len(),
                players@ == before.remove(k as int),
                t.id == id,
                id == before[k as int].id,
                track_ids(before).contains(id),
                lives_tracked(lives@, before),
                forall|q: int| 0 <= q < list@.len() ==> (#[trigger] list@[q]).player == id,
                forall|a: int, b: int| 0 <= a < b < list@.len() ==> (#[trigger] list@[a]).start_us <= (#[trigger] list@[b]).start_us,
                forall|q: int| 0 <= q < k ==> own_lives(#[trigger] before[q]),
                forall|m: int| i <= m < list@.len() ==> (#[trigger] list@[m]) == orig[m],
                forall|m: int| 0 <= m < i ==> (#[trigger] list@[m]) == completed_life(orig, m, summary@, transitions@, duration, id),
                forall|m: int| 0 <= m < i ==> !#[trigger] life_conflict(orig, m, summary@, id),
                t.positions@ == pos0 + spawn_positions(list@.subrange(0, i as int)),
                t == (PlayerTrack { positions: t.positions, ..old_players[k as int] }),
                lives_ordered(old_lives),
                !among_tracks(old_players, k as int, id),
                forall|m: int| 0 <= m < orig.len() ==> old_lives.contains(#[trigger] orig[m]),
                forall|y: int| 0 <= y < lives@.len() ==> (#[trigger] lives@[y]).id == old_lives[y].id,
                forall|y: int| 0 <= y < lives@.len() && among_tracks(old_players, k as int, old_lives[y].player)
                    ==> held_by_tracks(players@, k as int, #[trigger] lives@[y]),
                forall|y: int| 0 <= y < lives@.len() && !among_tracks(old_players, k as int, old_lives[y].player)
                    && old_lives[y].player != id ==> #[trigger] lives@[y] == old_lives[y],
                forall|y: int| 0 <= y < lives@.len() && old_lives[y].player == id && (exists|m: int| 0 <= m < i && orig[m] == old_lives[y])
                    ==> exists|m: int| 0 <= m < i && #[trigger] lives@[y] == list@[m],
            decreases list@.len() - i,
        {
            let mut l = list[i];
            if i + 1 < list.len() {
                l.end_us = list[i + 1].start_us;
            }
            assert(l.end_us == life_end(orig, i as int));
            let mut deaths: usize = 0;
            let mut death_us: Option<u64> = None;
            let mut e: usize = 0;
            while e < summary.len()
                invariant
                    e <= summary@.len(),
                    deaths <= e,
                    deaths == death_count(summary@, id, l.start_us, l.end_us, e as int),
                    death_us == first_death(summary@, id, l.start_us, l.end_us, e as int),
                    deaths == 0 ==> death_us is None,
                decreases summary@.len() - e,
            {
                let ev = &summary[e];
                let mine = match ev.player {
                    Some(p) => p == id,
                    None => false,
                };
                if mine && ev.kind == SummaryKind::Death && ev.time_us >= l.start_us && ev.time_us < l.end_us {
                    if deaths == 0 {
                        death_us = Some(ev.time_us);
                    }
                    deaths = deaths + 1;
                }
                e += 1;
            }
            if deaths > 1 {
                proof {
                    assert(life_conflict(orig, i as int, summary@, id));
                    assert(life_conflict(player_lives(old_lives, old_players[k as int].id, old_lives.len() as int), i as int, summary@, old_players[k as int].id));
                    assert(bind_fails(old_players, old_lives, summary@));
                }
                let mut m = owned("multiple deaths for life ");
                push_str(&mut m, u64_to_string(l.id as u64).as_str());
                proof {
                    let list = player_lives(old_lives, old_players[k as int].id, old_lives.len() as int);
                    assert(l.id == orig[i as int].id);
                    assert(m@ == "multiple deaths for life "@ + decimal(list[i as int].id as nat));
                }
                return Err(DecodeError::Inconsistent(m));
            }
            l.death_us = death_us;
            l.round_reset = death_us.is_none() && l.end_us < duration && reset_before(transitions, l.end_us);
            assert(l == completed_life(orig, i as int, summary@, transitions@, duration, id));
            let ghost pl = list@;
            list.set(i, l);
            let ghost prior = lives@;
            proof {
                assert(pl[i as int] == orig[i as int]);
                assert(old_lives.contains(orig[i as int]));
            }
            let ghost z = choose|z: int| 0 <= z < old_lives.len() && old_lives[z] == orig[i as int];
            match find_life(lives, l.id) {
                Some(x) => {
                    lives.set(x, l);
                    proof {
                        assert forall|q: int| 0 <= q < lives@.len() implies track_ids(before).contains(#[trigger] lives@[q].player) by {
                            if q != x {
                                assert(lives@[q] == prior[q]);
                            }
                        }
                        assert(prior[x as int].id == old_lives[x as int].id);
                        if x < z {
                            assert(old_lives[x as int].id < old_lives[z].id);
                        } else if x > z {
                            assert(old_lives[z].id < old_lives[x as int].id);
                        }
                        assert(old_lives[x as int] == orig[i as int]);
                        assert(old_lives[x as int].player == id);
                        assert forall|y: int| 0 <= y < lives@.len() implies (#[trigger] lives@[y]).id == old_lives[y].id by {
                            if y != x {
                                assert(lives@[y] == prior[y]);
                            }
                        }
                        assert forall|y: int| 0 <= y < lives@.len() && among_tracks(old_players, k as int, old_lives[y].player)
                            implies held_by_tracks(players@, k as int, #[trigger] lives@[y]) by {
                            assert(y != x);
                            assert(lives@[y] == prior[y]);
                        }
                        assert forall|y: int| 0 <= y < lives@.len() && !among_tracks(old_players, k as int, old_lives[y].player)
                            && old_lives[y].player != id implies #[trigger] lives@[y] == old_lives[y] by {
                            assert(y != x);
                            assert(lives@[y] == prior[y]);
                        }
                        assert forall|y: int| 0 <= y < lives@.len() && old_lives[y].player == id && (exists|m: int| 0 <= m < i + 1 && orig[m] == old_lives[y])
                            implies exists|m: int| 0 <= m < i + 1 && #[trigger] lives@[y] == list@[m] by {
                            if y == x {
                                assert(lives@[y] == list@[i as int]);
                            } else {
                                let m = choose|m: int| 0 <= m < i + 1 && orig[m] == old_lives[y];
                                if m == i {
                                    if y < x {
                                        assert(old_lives[y].id < old_lives[x as int].id);
                                    } else {
                                        assert(old_lives[x as int].id < old_lives[y].id);
                                    }
                                }
                                assert(exists|m2: int| 0 <= m2 < i && orig[m2] == old_lives[y]);
                                let m2 = choose|m2: int| 0 <= m2 < i && #[trigger] prior[y] == pl[m2];
                                assert(list@[m2] == pl[m2]);
                                assert(lives@[y] == prior[y]);
                            }
                        }
                    }
                },
                None => {
                    proof {
                        assert(lives@[z].id == old_lives[z].id);
                        assert(false);
                    }
                },
            }
            let ghost ps = t.positions@;
            t.positions.push(Sample {
                time_us: l.start_us,
                life: l.id,
                value: Position { raw: l.position, spawn: true, input: None },
                source: l.source,
            });
            proof {
                assert(list@.subrange(0, i + 1) =~= list@.subrange(0, i as int).push(l));
                assert(spawn_positions(list@.subrange(0, i + 1)) =~= spawn_positions(list@.subrange(0, i as int)).push(t.positions@.last()));
                assert(spawn_positions(list@.subrange(0, i as int)) =~= spawn_positions(pl.subrange(0, i as int)));
                assert(t.positions@ =~= pos0 + spawn_positions(list@.subrange(0, i + 1)));
            }
            i += 1;
        }
        proof {
            assert(list@ =~= bound_lives(orig, summary@, transitions@, duration, id));
            assert(list@.subrange(0, list@.len() as int) =~= list@);
        }
        t.lives = list;
        assert(own_lives(t));
        players.insert(k, t);
        proof {
            assert(track_ids(players@) =~= track_ids(before));
            lemma_ordered_ids(before, players@);
            assert forall|q: int| 0 <= q < k + 1 implies own_lives(#[trigger] players@[q]) by {
                if q < k {
                    assert(players@[q] == before[q]);
                }
            }
            assert forall|q: int| k + 1 <= q < players@.len() implies (#[trigger] players@[q]) == old_players[q] by {
                assert(players@[q] == before[q]);
            }
            assert forall|q: int| 0 <= q < players@.len() implies (#[trigger] players@[q]).id == old_players[q].id by {
                if q != k {
                    assert(players@[q] == before[q]);
                }
            }
            assert forall|q: int| 0 <= q < k + 1 implies {
                let id = old_players[q].id;
                &&& (#[trigger] players@[q]).lives@ == bound_lives(player_lives(old_lives, id, old_lives.len() as int), summary@, transitions@, duration, id)
                &&& players@[q].positions@ == old_players[q].positions@ + spawn_positions(players@[q].lives@)
            } by {
                if q < k {
                    assert(players@[q] == before[q]);
                }
            }
            assert forall|q: int| 0 <= q < k + 1 implies (#[trigger] players@[q]) == (PlayerTrack {
                lives: players@[q].lives,
                positions: players@[q].positions,
                ..old_players[q]
            }) by {
                if q < k {
                    assert(players@[q] == before[q]);
                }
            }
            lemma_player_lives_members(old_lives, id, old_lives.len() as int);
            assert forall|y: int| 0 <= y < lives@.len() && among_tracks(old_players, k + 1, old_lives[y].player)
                implies held_by_tracks(players@, k + 1, #[trigger] lives@[y]) by {
                if among_tracks(old_players, k as int, old_lives[y].player) {
                    let (q, j) = choose|q: int, j: int| 0 <= q < k && 0 <= j < before.remove(k as int)[q].lives@.len()
                        && (#[trigger] before.remove(k as int)[q].lives@[j]) == lives@[y];
                    assert(players@[q] == before[q]);
                    assert(before.remove(k as int)[q] == before[q]);
                } else {
                    let q = choose|q: int| 0 <= q < k + 1 && (#[trigger] old_players[q]).id == old_lives[y].player;
                    assert(q == k);
                    assert(orig.contains(old_lives[y]));
                    let m = choose|m: int| 0 <= m < orig.len() && orig[m] == old_lives[y];
                    let m2 = choose|m2: int| 0 <= m2 < list@.len() && #[trigger] lives@[y] == list@[m2];
                    assert(players@[k as int].lives@[m2] == lives@[y]);
                }
            }
            assert forall|y: int| 0 <= y < lives@.len() && !among_tracks(old_players, k + 1, old_lives[y].player)
                implies #[trigger] lives@[y] == old_lives[y] by {
                if among_tracks(old_players, k as int, old_lives[y].player) {
                    let q = choose|q: int| 0 <= q < k && (#[trigger] old_players[q]).id == old_lives[y].player;
                    assert(old_players[q].id == old_lives[y].player);
                }
                if old_lives[y].player == id {
                    assert(old_players[k as int].id == old_lives[y].player);
                }
            }
        }
        k += 1;
    }
    proof {
        if bind_fails(old_players, old_lives, summary@) {
            let (q, i) = choose|q: int, i: int|
                0 <= q < old_players.len() && 0 <= i < player_lives(old_lives, old_players[q].id, old_lives.len() as int).len() && #[trigger] life_conflict(
                    player_lives(old_lives, old_players[q].id, old_lives.len() as int),
                    i,
                    summary@,
                    old_players[q].id,
                );
        }
        assert forall|y: int| 0 <= y < lives@.len() implies held_by_tracks(players@, players@.len() as int, #[trigger] lives@[y]) by {
            assert(track_ids(old_players).contains(old_lives[y].player));
            let q = choose|q: int| 0 <= q < track_ids(old_players).len() && track_ids(old_players)[q] == old_lives[y].player;
            assert(track_ids(old_players)[q] == old_players[q].id);
            assert(among_tracks(old_players, k as int, old_lives[y].player));
        }
    }
    Ok(())
}

/// A combat record bound to the life it names: the life must be current for the
/// record's serial (and roster index, when recorded). Yields the life's roster index
/// and the sample; an unbound record is counted.
fn event<T>(
    e: Option<Event<T>>,
    lives: &Vec<Life>,
    t: u64,
    p: &FilmPacket,
    start: usize,
    d: &mut DecodeDiagnostics,
    retain: bool,
    kind: &str,
) -> (r: Option<(u8, Sample<T>)>)
    ensures
        final(d).limitations@ == old(d).limitations@,
        final(d).frames == old(d).frames,
        e is None ==> r is None,
        (e matches Some(x) && live_spec(lives@, x.serial, x.player, t) is Some) <==> r is Some,
        r is Some ==> (retain ==> final(d).checked_regions@.len() == old(d).checked_regions@.len() + 1
            && final(d).checked_regions@.drop_last() == old(d).checked_regions@
            && final(d).checked_regions@.last().source == (r->0).1.source
            && final(d).checked_regions@.last().kind@ == kind@),
        (r is None || !retain) ==> final(d).checked_regions@ == old(d).checked_regions@,
        r matches Some((player, _)) ==> exists|k: int| 0 <= k < lives@.len() && (#[trigger] lives@[k]).player == player,
        r matches Some((player, s)) ==> e matches Some(x) && live_spec(lives@, x.serial, x.player, t) matches Some(k)
            && player == lives@[k].player && s.life == lives@[k].id && s.time_us == t && s.value == x.value
            && s.source == span_spec(*p, start, x.end),
{
    let e = match e {
        Some(e) => e,
        None => return None,
    };
    let k = match live(lives, e.serial, e.player, t) {
        Some(k) => k,
        None => {
            reject(d, "event outside checked life/roster");
            return None;
        },
    };
    let source = span(p, start, e.end);
    checked(d, retain, source, kind);
    Some((lives[k].player, Sample { time_us: t, life: lives[k].id, value: e.value, source }))
}

/// Whether `v` holds `x`.
fn contains_u16(v: &Vec<u16>, x: u16) -> (r: bool)
    ensures
        r == v@.contains(x),
{
    let mut i: usize = 0;
    while i < v.len()
        invariant
            i <= v@.len(),
            forall|k: int| 0 <= k < i ==> v@[k] != x,
        decreases v@.len() - i,
    {
        if v[i] == x {
            return true;
        }
        i += 1;
    }
    false
}

/// What one replication payload has established so far.
pub struct FrameState {
    pub frame_tick: Option<u8>,
    pub local_tick: Option<u8>,
    pub first_clock_end: Option<usize>,
    pub previous_delta_end: usize,
    pub accepted: Vec<u16>,
}

/// A payload's established state as plain values.
pub ghost struct FrameView {
    pub frame_tick: Option<u8>,
    pub local_tick: Option<u8>,
    pub first_clock_end: Option<usize>,
    pub previous_delta_end: usize,
    pub accepted: Seq<u16>,
}

pub open spec fn frame_view(f: FrameState) -> FrameView {
    FrameView {
        frame_tick: f.frame_tick,
        local_tick: f.local_tick,
        first_clock_end: f.first_clock_end,
        previous_delta_end: f.previous_delta_end,
        accepted: f.accepted@,
    }
}

/// The state after a clock at `o`: its counter as the local tick; the end of the first
/// strict clock.
pub open spec fn clock_frame(p: Seq<u8>, o: int, w: u64, f: FrameView) -> FrameView {
    let first = match (clock_dispatch(w), clock_spec(p, o, false)) {
        (true, Some(_)) => if clock_spec(p, o, true) is Some && f.first_clock_end is None {
            Some((o + 37) as usize)
        } else {
            f.first_clock_end
        },
        _ => f.first_clock_end,
    };
    FrameView { local_tick: tick_after_clock(p, o, w, f.local_tick), first_clock_end: first, ..f }
}

/// The state after the window at `o`: after its clock, and after an accepted pawn prefix.
#[verifier::opaque]
pub open spec fn window_frame(p: Seq<u8>, o: int, w: u64, lives: Seq<Life>, t: u64, f: FrameView) -> FrameView {
    let f1 = clock_frame(p, o, w, f);
    match window_pawn(p, o, w, lives, t) {
        Some((serial, l)) => match pawn_prefix(p, o, l, serial, f1) {
            Some(dv) => FrameView { previous_delta_end: dv.end as usize, accepted: f1.accepted.push(serial), ..f1 },
            None => f1,
        },
        None => f1,
    }
}

/// The local tick after a clock at `o`: the counter of any clock there.
pub open spec fn tick_after_clock(p: Seq<u8>, o: int, w: u64, tick: Option<u8>) -> Option<u8> {
    match (clock_dispatch(w), clock_spec(p, o, false)) {
        (true, Some((_, counter))) => Some(counter),
        _ => tick,
    }
}

/// The pawn records at `o` are looked at and name a current life.
pub open spec fn window_pawn(p: Seq<u8>, o: int, w: u64, lives: Seq<Life>, t: u64) -> Option<(u16, Life)> {
    if w >> 58u64 == 0b100010 {
        pawn_target(p, o, lives, t)
    } else {
        None
    }
}

/// Projectile candidates at `o` are looked at: no pawn header stopped the window.
pub open spec fn window_proceeds(p: Seq<u8>, o: int, w: u64, lives: Seq<Life>, t: u64) -> bool {
    !(w >> 58u64 == 0b100010 && pawn_target(p, o, lives, t) is None)
}

/// The player observations at bit `o`: combat records, then pawn records.
#[verifier::opaque]
pub open spec fn window_obs(p: Seq<u8>, o: usize, w: u64, lives: Seq<Life>, t: u64, pk: FilmPacket, f: FrameView) -> Seq<(u8, Observation)> {
    let f1 = clock_frame(p, o as int, w, f);
    combat_obs(p, o as int, w, lives, t, pk) + match window_pawn(p, o as int, w, lives, t) {
        Some((serial, l)) => pawn_obs(p, o, l, serial, f1, t, pk),
        None => seq![],
    }
}

/// The round clock recorded at `o`: a strict clock where the window dispatches one.
pub open spec fn clock_at(p: Seq<u8>, o: int, w: u64, t: u64, pk: FilmPacket) -> Seq<ClockSample> {
    match (clock_dispatch(w), clock_spec(p, o, false)) {
        (true, Some((signature, counter))) => if clock_spec(p, o, true) is Some {
            seq![ClockSample { time_us: t, signature, counter, source: span_spec(pk, o as usize, (o + 37) as usize) }]
        } else {
            seq![]
        },
        _ => seq![],
    }
}

/// The projectile birth candidate at `o`: looked at when no pawn header stopped the
/// window and a projectile layout is known.
pub open spec fn birth_at(p: Seq<u8>, o: int, w: u64, lives: Seq<Life>, t: u64, pk: FilmPacket, layout: Option<CoordinateLayout>) -> Seq<Sample<Birth>> {
    if window_proceeds(p, o, w, lives, t) && layout is Some {
        match birth_spec(p, o, layout->0) {
            Some((value, end)) => if (w >> 58u64) & 15 == 2 {
                seq![Sample { time_us: t, life: value.life, value, source: span_spec(pk, o as usize, end as usize) }]
            } else {
                seq![]
            },
            None => seq![],
        }
    } else {
        seq![]
    }
}

/// The projectile update candidate at `o`, looked at under the same conditions.
pub open spec fn record_at(p: Seq<u8>, o: int, w: u64, lives: Seq<Life>, t: u64, pk: FilmPacket, layout: Option<CoordinateLayout>) -> Seq<Sample<Record>> {
    if window_proceeds(p, o, w, lives, t) && layout is Some {
        match record_spec(p, o, layout->0) {
            Some(value) => if 0x90 <= w >> 56u64 <= 0x93 {
                seq![Sample { time_us: t, life: 0, value, source: span_spec(pk, o as usize, value.end) }]
            } else {
                seq![]
            },
            None => seq![],
        }
    } else {
        seq![]
    }
}

/// The clocks and projectile candidates of payload `p` at and after bit `o`.
pub open spec fn windows_out(p: Seq<u8>, lives: Seq<Life>, t: u64, pk: FilmPacket, layout: Option<CoordinateLayout>, o: int) -> (
    Seq<ClockSample>,
    Seq<Sample<Birth>>,
    Seq<Sample<Record>>,
)
    decreases bit_len(p) - o,
{
    if o < 0 || o >= bit_len(p) {
        (seq![], seq![], seq![])
    } else {
        let w = window_spec(p, o);
        let rest = windows_out(p, lives, t, pk, layout, o + 1);
        (clock_at(p, o, w, t, pk) + rest.0, birth_at(p, o, w, lives, t, pk, layout) + rest.1, record_at(p, o, w, lives, t, pk, layout) + rest.2)
    }
}

/// The clocks, projectile births and updates, and projectile terminal markers of the
/// first `n` packets: replication payloads at or after the origin.
#[verifier::opaque]
pub open spec fn pass_out(chunks: Seq<FilmChunkData>, packets: Seq<FilmPacket>, origin: u64, lives: Seq<Life>, layout: Option<CoordinateLayout>, n: int) -> (
    Seq<ClockSample>,
    Seq<Sample<Birth>>,
    Seq<Sample<Record>>,
    Seq<(u64, SourceSpan)>,
)
    decreases n,
{
    if n <= 0 || n > packets.len() {
        (seq![], seq![], seq![], seq![])
    } else {
        let prior = pass_out(chunks, packets, origin, lives, layout, n - 1);
        let pk = packets[n - 1];
        if pk.packet_type == 0 && pk.timestamp_us >= origin {
            match payload_spec(chunks, pk) {
                Some(data) => {
                    let t = (pk.timestamp_us - origin) as u64;
                    let wo = windows_out(data, lives, t, pk, layout, 0);
                    let term = if matches_spec(data, 0, PROJECTILE_END, PROJECTILE_END_BITS as nat) {
                        seq![(t, span_spec(pk, 0, PROJECTILE_END_BITS))]
                    } else {
                        Seq::<(u64, SourceSpan)>::empty()
                    };
                    (prior.0 + wo.0, prior.1 + wo.1, prior.2 + wo.2, prior.3 + term)
                },
                None => prior,
            }
        } else {
            prior
        }
    }
}

/// Clocks, combat records, pawn records and projectile candidates at bit `o`.
fn observe_window(
    b: Bits,
    o: usize,
    w: u64,
    p: &FilmPacket,
    t: u64,
    lives: &Vec<Life>,
    projectile_layout: Option<CoordinateLayout>,
    frame: &mut FrameState,
    players: &mut Vec<PlayerTrack>,
    clocks: &mut Vec<ClockSample>,
    projectiles: &mut Tracks,
    d: &mut DecodeDiagnostics,
    retain: bool,
) -> (r: Result<(), DecodeError>)
    requires
        lives_tracked(lives@, old(players)@),
        b@.len() * 8 + 16384 <= usize::MAX,
        o < bit_len(b@),
    ensures
        final(d).limitations@ == old(d).limitations@,
        same_lives(old(players)@, final(players)@),
        r is Ok,
        track_ids(final(players)@) == track_ids(old(players)@),
        final(d).frames == old(d).frames,
        all_streams(final(players)@) == add_all(all_streams(old(players)@), window_obs(b@, o, w, lives@, t, *p, frame_view(*old(frame)))),
        final(frame).local_tick == tick_after_clock(b@, o as int, w, old(frame).local_tick),
        frame_view(*final(frame)) == window_frame(b@, o as int, w, lives@, t, frame_view(*old(frame))),
        final(frame).frame_tick == old(frame).frame_tick,
        final(projectiles).terminals@ == old(projectiles).terminals@,
        final(clocks)@ == old(clocks)@ + clock_at(b@, o as int, w, t, *p),
        final(projectiles).births@ == old(projectiles).births@ + birth_at(b@, o as int, w, lives@, t, *p, projectile_layout),
        final(projectiles).records@ == old(projectiles).records@ + record_at(b@, o as int, w, lives@, t, *p, projectile_layout),
        !window_proceeds(b@, o as int, w, lives@, t) || projectile_layout is None ==> final(projectiles).births@
            == old(projectiles).births@ && final(projectiles).records@ == old(projectiles).records@,
        window_proceeds(b@, o as int, w, lives@, t) && projectile_layout is Some ==> {
            let layout = projectile_layout->0;
            &&& final(projectiles).births@ == match birth_spec(b@, o as int, layout) {
                Some((value, end)) => if (w >> 58u64) & 15 == 2 {
                    old(projectiles).births@.push(
                        Sample { time_us: t, life: value.life, value, source: span_spec(*p, o, end as usize) },
                    )
                } else {
                    old(projectiles).births@
                },
                None => old(projectiles).births@,
            }
            &&& final(projectiles).records@ == match record_spec(b@, o as int, layout) {
                Some(value) => if 0x90 <= w >> 56u64 <= 0x93 {
                    old(projectiles).records@.push(Sample { time_us: t, life: 0, value, source: span_spec(*p, o, value.end) })
                } else {
                    old(projectiles).records@
                },
                None => old(projectiles).records@,
            }
        },
{
    reveal(window_obs);
    reveal(window_frame);
    let ghost base = all_streams(players@);
    let ghost f0 = frame_view(*frame);
    observe_clock(b, o, w, p, t, frame, clocks, d, retain);
    let ghost f1 = frame_view(*frame);
    assert(f1 == clock_frame(b@, o as int, w, f0));
    observe_combat(b, o, w, p, t, lives, players, d, retain)?;
    let ghost c = combat_obs(b@, o as int, w, lives@, t, *p);
    if w >> 58u64 == 0b100010 {
        let proceed = observe_pawn(b, o, p, t, lives, frame, players, d, retain)?;
        proof {
            match pawn_target(b@, o as int, lives@, t) {
                Some((serial, l)) => {
                    lemma_add_all_concat(base, c, pawn_obs(b@, o, l, serial, f1, t, *p));
                },
                None => {
                    assert(c + Seq::<(u8, Observation)>::empty() =~= c);
                },
            }
        }
        if !proceed {
            return Ok(());
        }
    } else {
        assert(c + Seq::<(u8, Observation)>::empty() =~= c);
    }
    match projectile_layout {
        Some(layout) => observe_projectile(b, o, w, p, t, layout, projectiles),
        None => {},
    }
    Ok(())
}

/// Whether the 29-bit word at the top of window `w` has the low 26 bits of a clock
/// signature.
pub open spec fn clock_dispatch(w: u64) -> bool {
    let low26: u64 = 0x3ff_ffff;
    (w >> 35u64) & low26 == CLOCK_SIGNATURES@[0] & low26 || (w >> 35u64) & low26 == CLOCK_SIGNATURES@[1] & low26
        || (w >> 35u64) & low26 == CLOCK_SIGNATURES@[2] & low26
}

/// A round clock at `o`: any clock sets the local tick; a strict one is recorded.
fn observe_clock(
    b: Bits,
    o: usize,
    w: u64,
    p: &FilmPacket,
    t: u64,
    frame: &mut FrameState,
    clocks: &mut Vec<ClockSample>,
    d: &mut DecodeDiagnostics,
    retain: bool,
)
    requires
        b@.len() * 8 + 16384 <= usize::MAX,
        o < bit_len(b@),
    ensures
        final(d).limitations@ == old(d).limitations@,
        final(d).frames == old(d).frames,
        final(frame).frame_tick == old(frame).frame_tick,
        final(frame).previous_delta_end == old(frame).previous_delta_end,
        final(frame).accepted@ == old(frame).accepted@,
        match (clock_dispatch(w), clock_spec(b@, o as int, false)) {
            (true, Some((signature, counter))) => {
                &&& final(frame).local_tick == Some(counter)
                &&& if clock_spec(b@, o as int, true) is Some {
                    &&& final(clocks)@ == old(clocks)@.push(
                        ClockSample { time_us: t, signature, counter, source: span_spec(*p, o, (o + 37) as usize) },
                    )
                    &&& final(frame).first_clock_end == (if old(frame).first_clock_end is None {
                        Some((o + 37) as usize)
                    } else {
                        old(frame).first_clock_end
                    })
                } else {
                    final(clocks)@ == old(clocks)@ && final(frame).first_clock_end == old(frame).first_clock_end
                }
            },
            _ => final(clocks)@ == old(clocks)@ && final(frame).local_tick == old(frame).local_tick
                && final(frame).first_clock_end == old(frame).first_clock_end,
        },
{
    let clock_word = w >> 35u64;
    let low26: u64 = 0x3ff_ffff;
    if (clock_word & low26 == CLOCK_SIGNATURES[0] & low26 || clock_word & low26 == CLOCK_SIGNATURES[1] & low26
        || clock_word & low26 == CLOCK_SIGNATURES[2] & low26) {
        match clock(b, o, false) {
            Some((signature, counter)) => {
                frame.local_tick = Some(counter);
                if clock(b, o, true).is_some() {
                    if frame.first_clock_end.is_none() {
                        frame.first_clock_end = Some(o + 37);
                    }
                    let source = span(p, o, o + 37);
                    clocks.push(ClockSample { time_us: t, signature, counter, source });
                    checked(d, retain, source, "clock");
                }
            },
            None => {},
        }
    }
}

/// A record bound to its current life: the life's roster index, and the sample that
/// `make` builds from the life's identity.
pub open spec fn bound_obs(lives: Seq<Life>, serial: u16, player: Option<u8>, t: u64, o: Observation) -> Seq<(u8, Observation)> {
    match live_spec(lives, serial, player, t) {
        Some(k) => seq![(lives[k].player, o)],
        None => seq![],
    }
}

/// The life identity a record binds to, or zero when it binds to none.
pub open spec fn bound_life(lives: Seq<Life>, serial: u16, player: Option<u8>, t: u64) -> u16 {
    match live_spec(lives, serial, player, t) {
        Some(k) => lives[k].id,
        None => 0,
    }
}

pub open spec fn firing_obs(p: Seq<u8>, o: int, w: u64, lives: Seq<Life>, t: u64, pk: FilmPacket) -> Seq<(u8, Observation)> {
    if (w >> 52u64) & 0x7ff != 0b10100100110 {
        seq![]
    } else {
        match firing_spec(p, o) {
            Some(e) => bound_obs(lives, e.serial, e.player, t, Observation::Firing(
                Sample { time_us: t, life: bound_life(lives, e.serial, e.player, t), value: e.value, source: span_spec(pk, o as usize, e.end) },
            )),
            None => seq![],
        }
    }
}

pub open spec fn damage_obs(p: Seq<u8>, o: int, w: u64, lives: Seq<Life>, t: u64, pk: FilmPacket) -> Seq<(u8, Observation)> {
    if (w >> 53u64) & 0x3ff != 0b1010101010 {
        seq![]
    } else {
        match weapon_damage_spec(p, o) {
            Some((serial, end)) => bound_obs(lives, serial, None, t, Observation::Damage(
                Sample {
                    time_us: t,
                    life: bound_life(lives, serial, None, t),
                    value: (),
                    source: span_spec(pk, (if o >= 108 { o - 108 } else { 0 }) as usize, end as usize),
                },
            )),
            None => seq![],
        }
    }
}

pub open spec fn melee_obs(p: Seq<u8>, o: int, w: u64, lives: Seq<Life>, t: u64, pk: FilmPacket) -> Seq<(u8, Observation)> {
    if (w >> 54u64) & 0x1ff != 0b101010001 {
        seq![]
    } else {
        match melee_spec(p, o) {
            Some(e) => bound_obs(lives, e.serial, e.player, t, Observation::Melee(
                Sample {
                    time_us: t,
                    life: bound_life(lives, e.serial, e.player, t),
                    value: e.value,
                    source: span_spec(pk, (if o >= 31 { o - 31 } else { 0 }) as usize, e.end),
                },
            )),
            None => seq![],
        }
    }
}

pub open spec fn grenade_obs(p: Seq<u8>, o: int, w: u64, lives: Seq<Life>, t: u64, pk: FilmPacket) -> Seq<(u8, Observation)> {
    if (w >> 54u64) & 0x1ff != 0b101001111 {
        seq![]
    } else {
        match grenade_spec(p, o) {
            Some(e) => bound_obs(lives, e.serial, e.player, t, Observation::Grenade(
                Sample { time_us: t, life: bound_life(lives, e.serial, e.player, t), value: (), source: span_spec(pk, o as usize, e.end) },
            )),
            None => seq![],
        }
    }
}

pub open spec fn reload_obs(p: Seq<u8>, o: int, w: u64, lives: Seq<Life>, t: u64, pk: FilmPacket) -> Seq<(u8, Observation)> {
    if (w >> 54u64) & 0x1ff != 0b101001101 {
        seq![]
    } else {
        match reload_spec(p, o) {
            Some(e) => bound_obs(lives, e.serial, e.player, t, Observation::Reload(
                Sample { time_us: t, life: bound_life(lives, e.serial, e.player, t), value: (), source: span_spec(pk, o as usize, e.end) },
            )),
            None => seq![],
        }
    }
}

pub open spec fn zoom_obs(p: Seq<u8>, o: int, w: u64, lives: Seq<Life>, t: u64, pk: FilmPacket) -> Seq<(u8, Observation)> {
    if (w >> 53u64) & 0x3ff != 0b1001010110 {
        seq![]
    } else {
        match zoom_spec(p, o) {
            Some(e) => bound_obs(lives, e.serial, e.player, t, Observation::Zoom(
                Sample { time_us: t, life: bound_life(lives, e.serial, e.player, t), value: e.value, source: span_spec(pk, o as usize, e.end) },
            )),
            None => seq![],
        }
    }
}

/// The combat observations at bit `o`, in dispatch order.
pub open spec fn combat_obs(p: Seq<u8>, o: int, w: u64, lives: Seq<Life>, t: u64, pk: FilmPacket) -> Seq<(u8, Observation)> {
    firing_obs(p, o, w, lives, t, pk) + damage_obs(p, o, w, lives, t, pk) + melee_obs(p, o, w, lives, t, pk)
        + grenade_obs(p, o, w, lives, t, pk) + reload_obs(p, o, w, lives, t, pk) + zoom_obs(p, o, w, lives, t, pk)
}

proof fn lemma_add_all_append(players: Seq<TrackStreams>, a: Seq<(u8, Observation)>, b: Seq<(u8, Observation)>)
    requires
        b.len() <= 1,
    ensures
        add_all(players, a + b) == if b.len() == 0 {
            add_all(players, a)
        } else {
            add_obs(add_all(players, a), b[0].0, b[0].1)
        },
{
    if b.len() == 0 {
        assert(a + b =~= a);
    } else {
        assert((a + b).drop_last() =~= a);
        assert((a + b).last() == b[0]);
    }
}

/// Firing, hit, melee, grenade, reload and scope records at `o`.
fn observe_combat(
    b: Bits,
    o: usize,
    w: u64,
    p: &FilmPacket,
    t: u64,
    lives: &Vec<Life>,
    players: &mut Vec<PlayerTrack>,
    d: &mut DecodeDiagnostics,
    retain: bool,
) -> (r: Result<(), DecodeError>)
    requires
        lives_tracked(lives@, old(players)@),
        b@.len() * 8 + 16384 <= usize::MAX,
        o < bit_len(b@),
    ensures
        final(d).limitations@ == old(d).limitations@,
        same_lives(old(players)@, final(players)@),
        r is Ok,
        track_ids(final(players)@) == track_ids(old(players)@),
        final(d).frames == old(d).frames,
        all_streams(final(players)@) == add_all(all_streams(old(players)@), combat_obs(b@, o as int, w, lives@, t, *p)),
{
    let ghost base = all_streams(players@);
    let ghost pb = b@;
    let ghost l1 = firing_obs(pb, o as int, w, lives@, t, *p);
    let ghost l2 = l1 + damage_obs(pb, o as int, w, lives@, t, *p);
    let ghost l3 = l2 + melee_obs(pb, o as int, w, lives@, t, *p);
    let ghost l4 = l3 + grenade_obs(pb, o as int, w, lives@, t, *p);
    let ghost l5 = l4 + reload_obs(pb, o as int, w, lives@, t, *p);
    let ghost l6 = l5 + zoom_obs(pb, o as int, w, lives@, t, *p);
    proof {
        lemma_add_all_append(base, seq![], l1);
        assert(seq![] + l1 =~= l1);
        assert(add_all(base, Seq::<(u8, Observation)>::empty()) == base);
    }
    if (w >> 52u64) & 0x7ff == 0b10100100110 {
        match event(firing(b, o), lives, t, p, o, d, retain, "firing") {
            Some((id, s)) => observe(players, id, Observation::Firing(s))?,
            None => {},
        }
    }
    assert(all_streams(players@) == add_all(base, l1));
    proof {
        lemma_add_all_append(base, l1, damage_obs(pb, o as int, w, lives@, t, *p));
    }
    if (w >> 53u64) & 0x3ff == 0b1010101010 {
        let start = if o >= 108 { o - 108 } else { 0 };
        match event(weapon_damage(b, o), lives, t, p, start, d, retain, "weapon damage") {
            Some((id, s)) => observe(players, id, Observation::Damage(s))?,
            None => {},
        }
    }
    assert(all_streams(players@) == add_all(base, l2));
    proof {
        lemma_add_all_append(base, l2, melee_obs(pb, o as int, w, lives@, t, *p));
    }
    if (w >> 54u64) & 0x1ff == 0b101010001 {
        let start = if o >= 31 { o - 31 } else { 0 };
        match event(melee(b, o), lives, t, p, start, d, retain, "melee") {
            Some((id, s)) => observe(players, id, Observation::Melee(s))?,
            None => {},
        }
    }
    assert(all_streams(players@) == add_all(base, l3));
    proof {
        lemma_add_all_append(base, l3, grenade_obs(pb, o as int, w, lives@, t, *p));
    }
    if (w >> 54u64) & 0x1ff == 0b101001111 {
        match event(grenade(b, o), lives, t, p, o, d, retain, "grenade throw") {
            Some((id, s)) => observe(players, id, Observation::Grenade(s))?,
            None => {},
        }
    }
    assert(all_streams(players@) == add_all(base, l4));
    proof {
        lemma_add_all_append(base, l4, reload_obs(pb, o as int, w, lives@, t, *p));
    }
    if (w >> 54u64) & 0x1ff == 0b101001101 {
        match event(reload(b, o), lives, t, p, o, d, retain, "reload") {
            Some((id, s)) => observe(players, id, Observation::Reload(s))?,
            None => {},
        }
    }
    assert(all_streams(players@) == add_all(base, l5));
    proof {
        lemma_add_all_append(base, l5, zoom_obs(pb, o as int, w, lives@, t, *p));
    }
    if (w >> 53u64) & 0x3ff == 0b1001010110 {
        match event(zoom(b, o), lives, t, p, o, d, retain, "zoom") {
            Some((id, s)) => observe(players, id, Observation::Zoom(s))?,
            None => {},
        }
    }
    assert(all_streams(players@) == add_all(base, l6));
    Ok(())
}

/// The pawn header at `o` and the current life its serial names.
pub open spec fn pawn_target(p: Seq<u8>, o: int, lives: Seq<Life>, t: u64) -> Option<(u16, Life)> {
    match pawn_header_spec(p, o) {
        None => None,
        Some((serial, _, _)) => match live_spec(lives, serial, None, t) {
            None => None,
            Some(k) => Some((serial, lives[k])),
        },
    }
}

/// The pawn prefix at `o`: a clocked record when it may start there (after the
/// chain's clock, past the previous prefix, once per pawn), else a vitality-only record.
pub open spec fn pawn_prefix(p: Seq<u8>, o: int, l: Life, serial: u16, frame: FrameView) -> Option<DeltaView> {
    let clocked = if o >= 37 && o >= frame.previous_delta_end && !frame.accepted.contains(serial) {
        match frame.frame_tick {
            Some(tick) => clocked_delta_spec(p, o, l.layout, tick),
            None => None,
        }
    } else {
        None
    };
    if clocked is Some {
        clocked
    } else {
        isolated_vitality_spec(p, o)
    }
}

/// The observations of a pawn prefix: a weapon-set change (component 42), position,
/// aim, velocity, body and shield.
pub open spec fn prefix_obs(l: Life, d: DeltaView, t: u64, pk: FilmPacket, o: usize) -> Seq<(u8, Observation)> {
    let src = span_spec(pk, o, d.end as usize);
    opt_obs(d.ids.contains(42u8), l.player, Observation::Weapon(Sample { time_us: t, life: l.id, value: WeaponObservation { slot: None, weapon_window: None }, source: src }))
        + match d.position {
        Some(raw) => seq![(l.player, Observation::Position(Sample { time_us: t, life: l.id, value: Position { raw, spawn: false, input: None }, source: src }))],
        None => seq![],
    } + match d.aim {
        Some(a) => seq![(l.player, Observation::Aim(Sample { time_us: t, life: l.id, value: a, source: src }))],
        None => seq![],
    } + match d.velocity {
        Some((start, end, v)) => seq![(l.player, Observation::Velocity(Sample { time_us: t, life: l.id, value: v, source: span_spec(pk, start, end) }))],
        None => seq![],
    } + match d.body {
        Some(v) => seq![(l.player, Observation::Body(Sample { time_us: t, life: l.id, value: v, source: src }))],
        None => seq![],
    } + match d.shield {
        Some(v) => seq![(l.player, Observation::Shield(Sample { time_us: t, life: l.id, value: v, source: src }))],
        None => seq![],
    }
}

/// The magazine observations of the first `n` magazines of a weapon record.
pub open spec fn magazine_obs(l: Life, mags: Seq<Magazine>, t: u64, src: SourceSpan, n: int) -> Seq<(u8, Observation)>
    decreases n,
{
    if n <= 0 || n > mags.len() {
        seq![]
    } else {
        magazine_obs(l, mags, t, src, n - 1).push((l.player, Observation::Magazine(Sample { time_us: t, life: l.id, value: mags[n - 1], source: src })))
    }
}

/// The observations of a weapon record: velocity, magazines and selection.
pub open spec fn weapon_obs(l: Life, d: DeltaView, t: u64, pk: FilmPacket, o: usize) -> Seq<(u8, Observation)> {
    let src = span_spec(pk, o, d.end as usize);
    let v = match d.velocity {
        Some((start, end, v)) => seq![(l.player, Observation::Velocity(Sample { time_us: t, life: l.id, value: v, source: span_spec(pk, start, end) }))],
        None => seq![],
    };
    let sel = match d.selection {
        Some(slot) => seq![(l.player, Observation::Selection(Sample { time_us: t, life: l.id, value: slot, source: src }))],
        None => seq![],
    };
    v + magazine_obs(l, d.magazines, t, src, d.magazines.len() as int) + sel
}

/// All observations of the pawn records at `o` for life `l`.
pub open spec fn pawn_obs(p: Seq<u8>, o: usize, l: Life, serial: u16, frame: FrameView, t: u64, pk: FilmPacket) -> Seq<(u8, Observation)> {
    let pre = match pawn_prefix(p, o as int, l, serial, frame) {
        Some(d) => prefix_obs(l, d, t, pk, o),
        None => seq![],
    };
    let wpn = match weapon_delta_spec(p, o as int, l.layout, frame.local_tick) {
        Some(w) => weapon_obs(l, w, t, pk, o),
        None => seq![],
    };
    pre + wpn
}

/// Pawn records at `o`: a clocked prefix (once per pawn and payload, not inside an
/// earlier record) or a vitality-only record, then a weapon record. Yields `false`
/// when no current life has the pawn header's serial.
proof fn lemma_add_all_concat(players: Seq<TrackStreams>, a: Seq<(u8, Observation)>, b: Seq<(u8, Observation)>)
    ensures
        add_all(add_all(players, a), b) == add_all(players, a + b),
    decreases b.len(),
{
    if b.len() > 0 {
        lemma_add_all_concat(players, a, b.drop_last());
        assert((a + b).drop_last() =~= a + b.drop_last());
        assert((a + b).last() == b.last());
    } else {
        assert(a + b =~= a);
    }
}

proof fn lemma_track_of_life(lives: Seq<Life>, players: Seq<PlayerTrack>, k: int)
    requires
        lives_tracked(lives, players),
        0 <= k < lives.len(),
    ensures
        track_ids(players).contains(lives[k].player),
{
}

/// The observations of a pawn prefix, added to the tracks.
fn observe_prefix(
    dd: &Delta,
    o: usize,
    p: &FilmPacket,
    t: u64,
    l: Life,
    players: &mut Vec<PlayerTrack>,
) -> (r: Result<(), DecodeError>)
    requires
        track_ids(old(players)@).contains(l.player),
    ensures
        r is Ok,
        same_lives(old(players)@, final(players)@),
        track_ids(final(players)@) == track_ids(old(players)@),
        all_streams(final(players)@) == add_all(all_streams(old(players)@), prefix_obs(l, dd@, t, *p, o)),
{
    let ghost base = all_streams(players@);
    let ghost dv = dd@;
    let ghost src = span_spec(*p, o, dd.end);
    let ghost a1 = opt_obs(dv.ids.contains(42u8), l.player, Observation::Weapon(Sample { time_us: t, life: l.id, value: WeaponObservation { slot: None, weapon_window: None }, source: src }));
    let ghost a2 = match dv.position {
        Some(raw) => seq![(l.player, Observation::Position(Sample { time_us: t, life: l.id, value: Position { raw, spawn: false, input: None }, source: src }))],
        None => Seq::<(u8, Observation)>::empty(),
    };
    let ghost a3 = match dv.aim {
        Some(a) => seq![(l.player, Observation::Aim(Sample { time_us: t, life: l.id, value: a, source: src }))],
        None => Seq::<(u8, Observation)>::empty(),
    };
    let ghost a4 = match dv.velocity {
        Some((start, end, v)) => seq![(l.player, Observation::Velocity(Sample { time_us: t, life: l.id, value: v, source: span_spec(*p, start, end) }))],
        None => Seq::<(u8, Observation)>::empty(),
    };
    let ghost a5 = match dv.body {
        Some(v) => seq![(l.player, Observation::Body(Sample { time_us: t, life: l.id, value: v, source: src }))],
        None => Seq::<(u8, Observation)>::empty(),
    };
    let ghost a6 = match dv.shield {
        Some(v) => seq![(l.player, Observation::Shield(Sample { time_us: t, life: l.id, value: v, source: src }))],
        None => Seq::<(u8, Observation)>::empty(),
    };
    proof {
        assert(add_all(base, Seq::<(u8, Observation)>::empty()) == base);
        lemma_add_all_append(base, seq![], a1);
        assert(Seq::<(u8, Observation)>::empty() + a1 =~= a1);
        lemma_add_all_append(base, a1, a2);
        lemma_add_all_append(base, a1 + a2, a3);
        lemma_add_all_append(base, a1 + a2 + a3, a4);
        lemma_add_all_append(base, a1 + a2 + a3 + a4, a5);
        lemma_add_all_append(base, a1 + a2 + a3 + a4 + a5, a6);
    }
    if contains_u8(&dd.ids, 42) {
        observe(players, l.player, Observation::Weapon(sample(p, t, l.id, o, dd.end, WeaponObservation { slot: None, weapon_window: None })))?;
    }
    assert(all_streams(players@) == add_all(base, a1));
    match dd.position {
        Some(raw) => observe(players, l.player, Observation::Position(sample(p, t, l.id, o, dd.end, Position { raw, spawn: false, input: None })))?,
        None => {},
    }
    assert(all_streams(players@) == add_all(base, a1 + a2));
    match dd.aim {
        Some(aim) => observe(players, l.player, Observation::Aim(sample(p, t, l.id, o, dd.end, aim)))?,
        None => {},
    }
    assert(all_streams(players@) == add_all(base, a1 + a2 + a3));
    match dd.velocity {
        Some((start, end, value)) => observe(players, l.player, Observation::Velocity(sample(p, t, l.id, start, end, value)))?,
        None => {},
    }
    assert(all_streams(players@) == add_all(base, a1 + a2 + a3 + a4));
    match dd.body {
        Some(body) => observe(players, l.player, Observation::Body(sample(p, t, l.id, o, dd.end, body)))?,
        None => {},
    }
    assert(all_streams(players@) == add_all(base, a1 + a2 + a3 + a4 + a5));
    match dd.shield {
        Some(shield) => observe(players, l.player, Observation::Shield(sample(p, t, l.id, o, dd.end, shield)))?,
        None => {},
    }
    assert(all_streams(players@) == add_all(base, a1 + a2 + a3 + a4 + a5 + a6));
    assert(prefix_obs(l, dv, t, *p, o) == a1 + a2 + a3 + a4 + a5 + a6);
    Ok(())
}

/// The observations of a weapon record, added to the tracks.
fn observe_weapon(
    dd: &Delta,
    o: usize,
    p: &FilmPacket,
    t: u64,
    l: Life,
    players: &mut Vec<PlayerTrack>,
) -> (r: Result<(), DecodeError>)
    requires
        track_ids(old(players)@).contains(l.player),
    ensures
        r is Ok,
        same_lives(old(players)@, final(players)@),
        track_ids(final(players)@) == track_ids(old(players)@),
        all_streams(final(players)@) == add_all(all_streams(old(players)@), weapon_obs(l, dd@, t, *p, o)),
{
    let ghost base = all_streams(players@);
    let ghost pre = Seq::<(u8, Observation)>::empty();
    proof {
        assert(add_all(base, pre) == base);
    }
    let ghost dv = dd@;
    let ghost src = span_spec(*p, o, dd.end);
    let ghost v1 = match dv.velocity {
        Some((start, end, v)) => seq![(l.player, Observation::Velocity(Sample { time_us: t, life: l.id, value: v, source: span_spec(*p, start, end) }))],
        None => Seq::<(u8, Observation)>::empty(),
    };
    let ghost v3 = match dv.selection {
        Some(slot) => seq![(l.player, Observation::Selection(Sample { time_us: t, life: l.id, value: slot, source: src }))],
        None => Seq::<(u8, Observation)>::empty(),
    };
    proof {
        lemma_add_all_append(base, pre, v1);
    }
    match dd.velocity {
        Some((start, end, value)) => observe(players, l.player, Observation::Velocity(sample(p, t, l.id, start, end, value)))?,
        None => {},
    }
    assert(all_streams(players@) == add_all(base, pre + v1));
    let mut m: usize = 0;
    proof {
        assert(pre + v1 + magazine_obs(l, dv.magazines, t, src, 0) =~= pre + v1);
    }
    while m < dd.magazines.len()
        invariant
            m <= dd.magazines@.len(),
            dv == dd@,
            track_ids(players@) == track_ids(old(players)@),
            track_ids(old(players)@).contains(l.player),
            same_lives(old(players)@, players@),
            src == span_spec(*p, o, dd.end),
            all_streams(players@) == add_all(base, pre + v1 + magazine_obs(l, dv.magazines, t, src, m as int)),
        decreases dd.magazines@.len() - m,
    {
        let ghost prior = pre + v1 + magazine_obs(l, dv.magazines, t, src, m as int);
        let ghost item = (l.player, Observation::Magazine(Sample { time_us: t, life: l.id, value: dv.magazines[m as int], source: src }));
        observe(players, l.player, Observation::Magazine(sample(p, t, l.id, o, dd.end, dd.magazines[m])))?;
        proof {
            lemma_add_all_append(base, prior, seq![item]);
            assert(prior + seq![item] =~= pre + v1 + magazine_obs(l, dv.magazines, t, src, m + 1));
        }
        m += 1;
    }
    proof {
        lemma_add_all_append(base, pre + v1 + magazine_obs(l, dv.magazines, t, src, dv.magazines.len() as int), v3);
    }
    match dd.selection {
        Some(slot) => observe(players, l.player, Observation::Selection(sample(p, t, l.id, o, dd.end, slot)))?,
        None => {},
    }
    assert(all_streams(players@) == add_all(base, pre + v1 + magazine_obs(l, dv.magazines, t, src, dv.magazines.len() as int) + v3));
    assert(pre + v1 + magazine_obs(l, dv.magazines, t, src, dv.magazines.len() as int) + v3 =~= weapon_obs(l, dv, t, *p, o));
    Ok(())
}

fn observe_pawn(
    b: Bits,
    o: usize,
    p: &FilmPacket,
    t: u64,
    lives: &Vec<Life>,
    frame: &mut FrameState,
    players: &mut Vec<PlayerTrack>,
    d: &mut DecodeDiagnostics,
    retain: bool,
) -> (r: Result<bool, DecodeError>)
    requires
        lives_tracked(lives@, old(players)@),
        b@.len() * 8 + 16384 <= usize::MAX,
        o < bit_len(b@),
    ensures
        final(d).limitations@ == old(d).limitations@,
        same_lives(old(players)@, final(players)@),
        r is Ok,
        track_ids(final(players)@) == track_ids(old(players)@),
        final(d).frames == old(d).frames,
        final(frame).frame_tick == old(frame).frame_tick,
        final(frame).local_tick == old(frame).local_tick,
        final(frame).first_clock_end == old(frame).first_clock_end,
        match pawn_target(b@, o as int, lives@, t) {
            None => r == Ok::<bool, DecodeError>(false) && all_streams(final(players)@) == all_streams(old(players)@)
                && final(frame).previous_delta_end == old(frame).previous_delta_end && final(frame).accepted@
                == old(frame).accepted@,
            Some((serial, l)) => {
                &&& r == Ok::<bool, DecodeError>(true)
                &&& all_streams(final(players)@) == add_all(all_streams(old(players)@), pawn_obs(b@, o, l, serial, frame_view(*old(frame)), t, *p))
                &&& match pawn_prefix(b@, o as int, l, serial, frame_view(*old(frame))) {
                    Some(dv) => final(frame).previous_delta_end == dv.end as usize && final(frame).accepted@ == old(frame).accepted@.push(serial),
                    None => final(frame).previous_delta_end == old(frame).previous_delta_end && final(frame).accepted@ == old(frame).accepted@,
                }
            },
        },
{
    let serial = match pawn_header(b, o) {
        Some((serial, _, _)) => serial,
        None => return Ok(false),
    };
    let li = match live(lives, serial, None, t) {
        Some(k) => k,
        None => return Ok(false),
    };
    let l = lives[li];
    let ghost f0 = frame_view(*frame);
    let ghost pb = b@;
    let mut prefix = if o >= 37 && o >= frame.previous_delta_end && !contains_u16(&frame.accepted, serial) {
        match frame.frame_tick {
            Some(tick) => clocked_delta(b, o, l.layout, tick),
            None => None,
        }
    } else {
        None
    };
    if prefix.is_none() {
        prefix = isolated_vitality(b, o);
    }
    assert(match pawn_prefix(pb, o as int, l, serial, f0) {
        Some(v) => prefix matches Some(dd) && dd@ == v,
        None => prefix is None,
    });
    if find_track(players, l.player).is_none() {
        return Err(DecodeError::Missing("player track"));
    }
    let ghost base = all_streams(players@);
    let ghost pre = match pawn_prefix(pb, o as int, l, serial, f0) {
        Some(dv) => prefix_obs(l, dv, t, *p, o),
        None => Seq::<(u8, Observation)>::empty(),
    };
    proof {
        lemma_track_of_life(lives@, players@, li as int);
    }
    match prefix {
        Some(dd) => {
            frame.previous_delta_end = dd.end;
            frame.accepted.push(serial);
            observe_prefix(&dd, o, p, t, l, players)?;
            checked(d, retain, span(p, o, dd.end), "pawn delta prefix");
        },
        None => {
            assert(all_streams(players@) == add_all(base, pre)) by {
                assert(add_all(base, Seq::<(u8, Observation)>::empty()) == base);
            }
        },
    }
    assert(all_streams(players@) == add_all(base, pre));
    match weapon_delta(b, o, l.layout, frame.local_tick) {
        Some(dd) => {
            observe_weapon(&dd, o, p, t, l, players)?;
            proof {
                lemma_add_all_concat(base, pre, weapon_obs(l, dd@, t, *p, o));
            }
            let end = if dd.end <= usize::MAX - INPUT_END_BITS && bits_is_input_end(b, dd.end) {
                dd.end + INPUT_END_BITS
            } else {
                dd.end
            };
            checked(d, retain, span(p, o, end), "weapon delta");
        },
        None => {
            assert(pre + Seq::<(u8, Observation)>::empty() =~= pre);
        },
    }
    Ok(true)
}

/// Projectile births and records at `o`.
fn observe_projectile(
    b: Bits,
    o: usize,
    w: u64,
    p: &FilmPacket,
    t: u64,
    layout: CoordinateLayout,
    projectiles: &mut Tracks,
)
    requires
        b@.len() * 8 + 16384 <= usize::MAX,
        o < bit_len(b@),
    ensures
        final(projectiles).terminals@ == old(projectiles).terminals@,
        final(projectiles).births@ == match birth_spec(b@, o as int, layout) {
            Some((value, end)) => if (w >> 58u64) & 15 == 2 {
                old(projectiles).births@.push(
                    Sample { time_us: t, life: value.life, value, source: span_spec(*p, o, end as usize) },
                )
            } else {
                old(projectiles).births@
            },
            None => old(projectiles).births@,
        },
        final(projectiles).records@ == match record_spec(b@, o as int, layout) {
            Some(value) => if 0x90 <= w >> 56u64 <= 0x93 {
                old(projectiles).records@.push(Sample { time_us: t, life: 0, value, source: span_spec(*p, o, value.end) })
            } else {
                old(projectiles).records@
            },
            None => old(projectiles).records@,
        },
{
    if (w >> 58u64) & 15 == 2 {
        match birth(b, o, layout) {
            Some((value, end)) => projectiles.births.push(sample(p, t, value.life, o, end, value)),
            None => {},
        }
    }
    let head = w >> 56u64;
    if 0x90 <= head && head <= 0x93 {
        match record(b, o, layout) {
            Some(value) => {
                let end = value.end;
                projectiles.records.push(sample(p, t, 0, o, end, value));
            },
            None => {},
        }
    }
}

fn bits_is_input_end(b: Bits, at: usize) -> (r: bool)
    ensures
        r == matches_spec(b@, at as int, INPUT_END, 16),
{
    b.matches(at, INPUT_END, INPUT_END_BITS)
}

/// One optional observation as a list.
pub open spec fn opt_obs(c: bool, id: u8, o: Observation) -> Seq<(u8, Observation)> {
    if c {
        seq![(id, o)]
    } else {
        seq![]
    }
}

/// The observations of an input chain bound to life `l`: its position (with the
/// chain's input axes), aim, velocity, input axes and crouch tail.
pub open spec fn chain_obs(p: Seq<u8>, l: Life, c: Chain, t: u64, pk: FilmPacket) -> Seq<(u8, Observation)> {
    let pos = match c.position {
        Some(xyz) => seq![(l.player, Observation::Position(Sample { time_us: t, life: l.id, value: Position { raw: xyz, spawn: false, input: c.input }, source: span_spec(pk, 37, c.end) }))],
        None => seq![],
    };
    let aim = match c.aim {
        Some(a) => seq![(l.player, Observation::Aim(Sample { time_us: t, life: l.id, value: a, source: span_spec(pk, 37, c.end) }))],
        None => seq![],
    };
    let vel = match c.velocity {
        Some((start, end, v)) => seq![(l.player, Observation::Velocity(Sample { time_us: t, life: l.id, value: v, source: span_spec(pk, start, end) }))],
        None => seq![],
    };
    let input = match c.input {
        Some(axes) => seq![(l.player, Observation::Input(Sample { time_us: t, life: l.id, value: axes, source: span_spec(pk, (if c.end >= 25 { c.end - 25 } else { 0 }) as usize, c.end) }))],
        None => seq![],
    };
    let crouch = match (c.input, crouch_input_spec(p, c.end as int)) {
        (Some(_), Some((v, end))) => if c.end <= usize::MAX - 4096 {
            seq![(l.player, Observation::Crouch(Sample { time_us: t, life: l.id, value: v, source: span_spec(pk, c.end, end) }))]
        } else {
            seq![]
        },
        _ => seq![],
    };
    pos + aim + vel + input + crouch
}

/// The input chain of a payload and the current wire-0 life of roster index 0 it binds to.
pub open spec fn bound_chain(p: Seq<u8>, lives: Seq<Life>, t: u64) -> Option<(Life, Chain)> {
    match live_spec(lives, 0, Some(0), t) {
        None => None,
        Some(k) => match input_chain_spec(p, lives[k].layout) {
            None => None,
            Some(c) => Some((lives[k], c)),
        },
    }
}

/// The input chain at the start of a payload, bound to the current wire-0 life of
/// roster index 0: its position, aim, velocity, input axes and crouch tail.
fn observe_chain(
    b: Bits,
    p: &FilmPacket,
    t: u64,
    lives: &Vec<Life>,
    frame: &mut FrameState,
    players: &mut Vec<PlayerTrack>,
    d: &mut DecodeDiagnostics,
    retain: bool,
) -> (r: Result<(), DecodeError>)
    requires
        lives_tracked(lives@, old(players)@),
        b@.len() * 8 + 16384 <= usize::MAX,
    ensures
        final(d).limitations@ == old(d).limitations@,
        same_lives(old(players)@, final(players)@),
        r is Ok,
        track_ids(final(players)@) == track_ids(old(players)@),
        final(d).frames == old(d).frames,
        final(frame).frame_tick == old(frame).frame_tick,
        final(frame).local_tick == old(frame).local_tick,
        final(frame).first_clock_end == old(frame).first_clock_end,
        match bound_chain(b@, lives@, t) {
            None => all_streams(final(players)@) == all_streams(old(players)@) && final(frame).previous_delta_end
                == old(frame).previous_delta_end && final(frame).accepted@ == old(frame).accepted@,
            Some((l, c)) => {
                &&& all_streams(final(players)@) == add_all(all_streams(old(players)@), chain_obs(b@, l, c, t, *p))
                &&& final(frame).previous_delta_end == c.end
                &&& final(frame).accepted@ == if c.position is Some || c.aim is Some || c.velocity is Some {
                    old(frame).accepted@.push(l.id)
                } else {
                    old(frame).accepted@
                }
            },
        },
{
    let li = match live(lives, 0, Some(0), t) {
        Some(k) => k,
        None => return Ok(()),
    };
    let l = lives[li];
    let c = match input_chain(b, l.layout) {
        Some(c) => c,
        None => return Ok(()),
    };
    if find_track(players, l.player).is_none() {
        return Err(DecodeError::Missing("player track"));
    }
    let ghost base = all_streams(players@);
    let ghost pb = b@;
    let ghost pos = match c.position {
        Some(xyz) => seq![(l.player, Observation::Position(Sample { time_us: t, life: l.id, value: Position { raw: xyz, spawn: false, input: c.input }, source: span_spec(*p, 37, c.end) }))],
        None => Seq::<(u8, Observation)>::empty(),
    };
    let ghost aim_l = match c.aim {
        Some(a) => seq![(l.player, Observation::Aim(Sample { time_us: t, life: l.id, value: a, source: span_spec(*p, 37, c.end) }))],
        None => Seq::<(u8, Observation)>::empty(),
    };
    let ghost vel = match c.velocity {
        Some((start, end, v)) => seq![(l.player, Observation::Velocity(Sample { time_us: t, life: l.id, value: v, source: span_spec(*p, start, end) }))],
        None => Seq::<(u8, Observation)>::empty(),
    };
    let ghost inp = match c.input {
        Some(axes) => seq![(l.player, Observation::Input(Sample { time_us: t, life: l.id, value: axes, source: span_spec(*p, (if c.end >= 25 { c.end - 25 } else { 0 }) as usize, c.end) }))],
        None => Seq::<(u8, Observation)>::empty(),
    };
    let ghost cr = match (c.input, crouch_input_spec(pb, c.end as int)) {
        (Some(_), Some((v, end))) => if c.end <= usize::MAX - 4096 {
            seq![(l.player, Observation::Crouch(Sample { time_us: t, life: l.id, value: v, source: span_spec(*p, c.end, end) }))]
        } else {
            Seq::<(u8, Observation)>::empty()
        },
        _ => Seq::<(u8, Observation)>::empty(),
    };
    proof {
        lemma_add_all_append(base, seq![], pos);
        assert(Seq::<(u8, Observation)>::empty() + pos =~= pos);
        assert(add_all(base, Seq::<(u8, Observation)>::empty()) == base);
        lemma_add_all_append(base, pos, aim_l);
        lemma_add_all_append(base, pos + aim_l, vel);
        lemma_add_all_append(base, pos + aim_l + vel, inp);
        lemma_add_all_append(base, pos + aim_l + vel + inp, cr);
    }
    match c.position {
        Some(xyz) => observe(players, l.player, Observation::Position(sample(p, t, l.id, 37, c.end, Position { raw: xyz, spawn: false, input: c.input })))?,
        None => {},
    }
    assert(all_streams(players@) == add_all(base, pos));
    match c.aim {
        Some(aim) => observe(players, l.player, Observation::Aim(sample(p, t, l.id, 37, c.end, aim)))?,
        None => {},
    }
    assert(all_streams(players@) == add_all(base, pos + aim_l));
    match c.velocity {
        Some((start, end, value)) => observe(players, l.player, Observation::Velocity(sample(p, t, l.id, start, end, value)))?,
        None => {},
    }
    assert(all_streams(players@) == add_all(base, pos + aim_l + vel));
    match c.input {
        Some(input) => {
            let start = if c.end >= 25 { c.end - 25 } else { 0 };
            observe(players, l.player, Observation::Input(sample(p, t, l.id, start, c.end, input)))?;
            assert(all_streams(players@) == add_all(base, pos + aim_l + vel + inp));
            if c.end <= usize::MAX - 4096 {
                match crouch_input(b, c.end) {
                    Some((value, end)) => {
                        observe(players, l.player, Observation::Crouch(sample(p, t, l.id, c.end, end, value)))?;
                        checked(d, retain, span(p, c.end, end), "crouch input tail");
                    },
                    None => {},
                }
            }
        },
        None => {},
    }
    assert(all_streams(players@) == add_all(base, pos + aim_l + vel + inp + cr));
    assert(chain_obs(pb, l, c, t, *p) == pos + aim_l + vel + inp + cr);
    frame.previous_delta_end = c.end;
    if c.position.is_some() || c.aim.is_some() || c.velocity.is_some() {
        frame.accepted.push(l.id);
    }
    checked(d, retain, span(p, 0, c.end), "input chain (includes opaque auxiliaries)");
    Ok(())
}

/// How many of the first `n` lives of a track are current for `player` at `t`.
pub open spec fn current_count(tl: Seq<Life>, lives: Seq<Life>, player: u8, t: u64, n: int) -> nat
    decreases n,
{
    if n <= 0 || n > tl.len() {
        0
    } else {
        current_count(tl, lives, player, t, n - 1) + if live_spec(lives, tl[n - 1].id, Some(player), t) is Some { 1nat } else { 0nat }
    }
}

/// The first of the first `n` lives of a track that is current, or zero.
pub open spec fn first_current(tl: Seq<Life>, lives: Seq<Life>, player: u8, t: u64, n: int) -> u16
    decreases n,
{
    if n <= 0 || n > tl.len() {
        0
    } else if current_count(tl, lives, player, t, n - 1) == 0 && live_spec(lives, tl[n - 1].id, Some(player), t) is Some {
        tl[n - 1].id
    } else {
        first_current(tl, lives, player, t, n - 1)
    }
}

/// The observations of terminal command `r`: its input axes and crouch, bound to the
/// single current life of its player's track.
pub open spec fn row_obs(players: Seq<PlayerTrack>, lives: Seq<Life>, t: u64, pk: FilmPacket, r: Command) -> Seq<(u8, Observation)> {
    match track_index(all_streams(players), r.player, 0) {
        None => seq![],
        Some(k) => {
            let tl = players[k].lives@;
            if current_count(tl, lives, r.player, t, tl.len() as int) != 1 {
                seq![]
            } else {
                let life = first_current(tl, lives, r.player, t, tl.len() as int);
                seq![
                    (r.player, Observation::Input(Sample { time_us: t, life, value: r.axes, source: span_spec(pk, r.start, r.buttons) })),
                    (r.player, Observation::Crouch(Sample { time_us: t, life, value: r.crouch, source: span_spec(pk, r.buttons, r.end) })),
                ]
            }
        },
    }
}

/// The observations of the first `n` terminal commands.
pub open spec fn rows_obs(players: Seq<PlayerTrack>, lives: Seq<Life>, t: u64, pk: FilmPacket, rows: Seq<Command>, n: int) -> Seq<(u8, Observation)>
    decreases n,
{
    if n <= 0 || n > rows.len() {
        seq![]
    } else {
        rows_obs(players, lives, t, pk, rows, n - 1) + row_obs(players, lives, t, pk, rows[n - 1])
    }
}

/// The terminal commands of a payload that bind: at most two tracks, commands after
/// the first strict clock, every command's roster index known.
pub open spec fn terminal_rows(p: Seq<u8>, players: Seq<PlayerTrack>, first_clock_end: Option<usize>) -> Option<Seq<Command>> {
    match terminal_spec(p) {
        None => None,
        Some(rows) => if players.len() > 2 || rows.len() == 0 || !(first_clock_end matches Some(end) && end <= (if rows[0].start >= 3 { rows[0].start - 3 } else { 0 }))
            || !(forall|q: int| 0 <= q < rows.len() ==> track_ids(players).contains(#[trigger] rows[q].player)) {
            None
        } else {
            Some(rows)
        },
    }
}

/// Terminal commands of a payload in a film of at most two players, after the first
/// strict clock and with every command's roster index known: each binds to its
/// player's single current life.
fn observe_terminal(
    b: Bits,
    p: &FilmPacket,
    t: u64,
    lives: &Vec<Life>,
    frame: &FrameState,
    players: &mut Vec<PlayerTrack>,
    d: &mut DecodeDiagnostics,
    retain: bool,
) -> (r: Result<(), DecodeError>)
    requires
        lives_tracked(lives@, old(players)@),
        b@.len() * 8 + 16384 <= usize::MAX,
    ensures
        final(d).limitations@ == old(d).limitations@,
        same_lives(old(players)@, final(players)@),
        r is Ok,
        track_ids(final(players)@) == track_ids(old(players)@),
        final(d).frames == old(d).frames,
        match terminal_rows(b@, old(players)@, frame.first_clock_end) {
            None => all_streams(final(players)@) == all_streams(old(players)@),
            Some(rows) => all_streams(final(players)@) == add_all(
                all_streams(old(players)@),
                rows_obs(old(players)@, lives@, t, *p, rows, rows.len() as int),
            ),
        },
{
    if players.len() > 2 {
        return Ok(());
    }
    let rows = match terminal(b) {
        Some(rows) => rows,
        None => return Ok(()),
    };
    if rows.len() == 0 {
        return Ok(());
    }
    let first_start = if rows[0].start >= 3 { rows[0].start - 3 } else { 0 };
    match frame.first_clock_end {
        Some(end) => if end > first_start {
            return Ok(());
        },
        None => return Ok(()),
    }
    let mut i: usize = 0;
    while i < rows.len()
        invariant
            i <= rows@.len(),
            players@ == old(players)@,
            terminal_spec(b@) == Some(rows@),
            players@.len() <= 2,
            rows@.len() > 0,
            frame.first_clock_end matches Some(end) && end <= (if rows@[0].start >= 3 { rows@[0].start - 3 } else { 0 }),
            forall|q: int| 0 <= q < i ==> track_ids(old(players)@).contains(#[trigger] rows@[q].player),
        decreases rows@.len() - i,
    {
        match find_track(players, rows[i].player) {
            Some(k) => {
                proof {
                    lemma_track_id_at(players@, k as int);
                }
            },
            None => {
                proof {
                    assert(!track_ids(old(players)@).contains(rows@[i as int].player)) by {
                        if track_ids(players@).contains(rows@[i as int].player) {
                            let j = choose|j: int| 0 <= j < track_ids(players@).len() && track_ids(players@)[j] == rows@[i as int].player;
                            assert(players@[j].id == rows@[i as int].player);
                        }
                    }
                    assert(!(forall|q: int| 0 <= q < rows@.len() ==> track_ids(old(players)@).contains(#[trigger] rows@[q].player)));
                }
                return Ok(());
            },
        }
        i += 1;
    }
    let ghost old_players = old(players)@;
    let ghost base = all_streams(old_players);
    assert(terminal_rows(b@, old_players, frame.first_clock_end) == Some(rows@));
    proof {
        assert(add_all(base, rows_obs(old_players, lives@, t, *p, rows@, 0)) == base);
    }
    let mut i: usize = 0;
    while i < rows.len()
        invariant
            i <= rows@.len(),
            old_players == old(players)@,
            base == all_streams(old_players),
            track_ids(players@) == track_ids(old(players)@),
            same_lives(old(players)@, players@),
            forall|q: int| 0 <= q < rows@.len() ==> track_ids(old(players)@).contains(#[trigger] rows@[q].player),
            d.frames == old(d).frames,
            d.limitations@ == old(d).limitations@,
            all_streams(players@) == add_all(base, rows_obs(old_players, lives@, t, *p, rows@, i as int)),
        decreases rows@.len() - i,
    {
        let r = rows[i];
        assert(track_ids(players@).contains(rows@[i as int].player));
        let k = match find_track(players, r.player) {
            Some(k) => k,
            None => {
                proof {
                    let j = choose|j: int| 0 <= j < track_ids(players@).len() && track_ids(players@)[j] == r.player;
                    assert(players@[j].id == r.player);
                }
                return Err(DecodeError::Missing("player track"));
            },
        };
        proof {
            assert forall|q: int| 0 <= q < k implies (#[trigger] all_streams(old_players)[q]).id != r.player by {
                assert(track_ids(players@)[q] == players@[q].id);
                assert(track_ids(old_players)[q] == old_players[q].id);
            }
            assert(track_ids(players@)[k as int] == players@[k as int].id);
            assert(track_ids(old_players)[k as int] == old_players[k as int].id);
            lemma_track_index_first(all_streams(old_players), r.player, 0, k as int);
            assert(players@[k as int].lives == old_players[k as int].lives);
        }
        let ghost tl = players@[k as int].lives@;
        let mut found: Option<u16> = None;
        let mut count: usize = 0;
        let mut j: usize = 0;
        while j < players[k].lives.len()
            invariant
                k < players@.len(),
                tl == players@[k as int].lives@,
                j <= players@[k as int].lives@.len(),
                count <= j,
                count == current_count(tl, lives@, r.player, t, j as int),
                count > 0 ==> found == Some(first_current(tl, lives@, r.player, t, j as int)),
            decreases players@[k as int].lives@.len() - j,
        {
            let id = players[k].lives[j].id;
            if live(lives, id, Some(r.player), t).is_some() {
                if count == 0 {
                    found = Some(id);
                }
                count = count + 1;
            }
            j += 1;
        }
        let ghost prior = rows_obs(old_players, lives@, t, *p, rows@, i as int);
        assert(rows@[i as int] == r);
        if count == 1 {
            match found {
                Some(life) => {
                    let ghost x1 = (r.player, Observation::Input(Sample { time_us: t, life, value: r.axes, source: span_spec(*p, r.start, r.buttons) }));
                    let ghost x2 = (r.player, Observation::Crouch(Sample { time_us: t, life, value: r.crouch, source: span_spec(*p, r.buttons, r.end) }));
                    proof {
                        lemma_add_all_append(base, prior, seq![x1]);
                        lemma_add_all_append(base, prior + seq![x1], seq![x2]);
                        assert(prior + seq![x1] + seq![x2] =~= prior + row_obs(old_players, lives@, t, *p, r));
                    }
                    observe(players, r.player, Observation::Input(sample(p, t, life, r.start, r.buttons, r.axes)))?;
                    observe(players, r.player, Observation::Crouch(sample(p, t, life, r.buttons, r.end, r.crouch)))?;
                    checked(d, retain, span(p, r.start, r.end), "terminal input command (opaque header tag)");
                },
                None => {},
            }
        }
        proof {
            if count != 1 {
                assert(row_obs(old_players, lives@, t, *p, r) =~= Seq::<(u8, Observation)>::empty());
                assert(prior + row_obs(old_players, lives@, t, *p, r) =~= prior);
            }
        }
        i += 1;
    }
    Ok(())
}

/// The observations of the windows from bit `o` on, and the state after them.
#[verifier::opaque]
pub open spec fn windows_obs(p: Seq<u8>, lives: Seq<Life>, t: u64, pk: FilmPacket, f: FrameView, o: int) -> (Seq<(u8, Observation)>, FrameView)
    decreases bit_len(p) - o,
{
    if o < 0 || o >= bit_len(p) {
        (seq![], f)
    } else {
        let w = window_spec(p, o);
        let here = window_obs(p, o as usize, w, lives, t, pk, f);
        let rest = windows_obs(p, lives, t, pk, window_frame(p, o, w, lives, t, f), o + 1);
        (here + rest.0, rest.1)
    }
}

/// A payload's state before its records: the strict clock's tick.
pub open spec fn start_frame(p: Seq<u8>) -> FrameView {
    FrameView {
        frame_tick: match clock_spec(p, 0, true) {
            Some((_, tick)) => Some(tick),
            None => None,
        },
        local_tick: None,
        first_clock_end: None,
        previous_delta_end: 0,
        accepted: seq![],
    }
}

/// The state after the payload's input chain.
pub open spec fn chain_frame(p: Seq<u8>, lives: Seq<Life>, t: u64, f: FrameView) -> FrameView {
    match bound_chain(p, lives, t) {
        Some((l, c)) => FrameView {
            previous_delta_end: c.end,
            accepted: if c.position is Some || c.aim is Some || c.velocity is Some { f.accepted.push(l.id) } else { f.accepted },
            ..f
        },
        None => f,
    }
}

/// The observations of one replication payload: its input chain, every window, and
/// its terminal commands.
#[verifier::opaque]
pub open spec fn payload_obs(p: Seq<u8>, lives: Seq<Life>, players: Seq<PlayerTrack>, t: u64, pk: FilmPacket) -> Seq<(u8, Observation)> {
    let chain = match bound_chain(p, lives, t) {
        Some((l, c)) => chain_obs(p, l, c, t, pk),
        None => seq![],
    };
    let f1 = chain_frame(p, lives, t, start_frame(p));
    let windows = windows_obs(p, lives, t, pk, f1, 0);
    let term = match terminal_rows(p, players, windows.1.first_clock_end) {
        Some(rows) => rows_obs(players, lives, t, pk, rows, rows.len() as int),
        None => seq![],
    };
    chain + windows.0 + term
}

/// The observations of the first `n` packets: replication payloads at or after the origin.
#[verifier::opaque]
pub open spec fn pass_obs(chunks: Seq<FilmChunkData>, packets: Seq<FilmPacket>, origin: u64, lives: Seq<Life>, players: Seq<PlayerTrack>, n: int) -> Seq<(u8, Observation)>
    decreases n,
{
    if n <= 0 || n > packets.len() {
        seq![]
    } else {
        let prior = pass_obs(chunks, packets, origin, lives, players, n - 1);
        let pk = packets[n - 1];
        if pk.packet_type == 0 && pk.timestamp_us >= origin {
            match payload_spec(chunks, pk) {
                Some(data) => prior + payload_obs(data, lives, players, (pk.timestamp_us - origin) as u64, pk),
                None => prior,
            }
        } else {
            prior
        }
    }
}

proof fn lemma_track_index_range(a: Seq<TrackStreams>, id: u8, k: int)
    ensures
        track_index(a, id, k) matches Some(j) ==> 0 <= j < a.len() && a[j].id == id,
    decreases a.len() - k,
{
    if 0 <= k < a.len() {
        lemma_track_index_range(a, id, k + 1);
    }
}

proof fn lemma_track_index_ids(a: Seq<TrackStreams>, b: Seq<TrackStreams>, id: u8, k: int)
    requires
        a.len() == b.len(),
        forall|q: int| 0 <= q < a.len() ==> (#[trigger] a[q]).id == b[q].id,
    ensures
        track_index(a, id, k) == track_index(b, id, k),
    decreases a.len() - k,
{
    if 0 <= k < a.len() {
        lemma_track_index_ids(a, b, id, k + 1);
    }
}

proof fn lemma_rows_obs_same(a: Seq<PlayerTrack>, b: Seq<PlayerTrack>, lives: Seq<Life>, t: u64, pk: FilmPacket, rows: Seq<Command>, n: int)
    requires
        track_ids(a) == track_ids(b),
        same_lives(a, b),
    ensures
        rows_obs(a, lives, t, pk, rows, n) == rows_obs(b, lives, t, pk, rows, n),
        terminal_rows(Seq::<u8>::empty(), a, None) == terminal_rows(Seq::<u8>::empty(), b, None),
    decreases n,
{
    assert(a.len() == track_ids(a).len() && b.len() == track_ids(b).len());
    if 0 < n <= rows.len() {
        lemma_rows_obs_same(a, b, lives, t, pk, rows, n - 1);
        let r = rows[n - 1];
        assert forall|q: int| 0 <= q < all_streams(a).len() implies (#[trigger] all_streams(a)[q]).id == all_streams(b)[q].id by {
            assert(track_ids(a)[q] == a[q].id);
            assert(track_ids(b)[q] == b[q].id);
        }
        lemma_track_index_ids(all_streams(a), all_streams(b), r.player, 0);
        lemma_track_index_range(all_streams(a), r.player, 0);
        match track_index(all_streams(a), r.player, 0) {
            Some(k) => {
                assert(a[k].lives == b[k].lives);
            },
            None => {},
        }
        assert(row_obs(a, lives, t, pk, r) == row_obs(b, lives, t, pk, r));
    }
}

/// The second pass over replication payloads: all per-player observations, clocks
/// and projectile candidates.
#[verifier::spinoff_prover]
#[verifier::rlimit(40)]
fn observation_pass(
    chunks: &[FilmChunkData],
    packets: &Vec<FilmPacket>,
    origin: u64,
    lives: &Vec<Life>,
    projectile_layout: Option<CoordinateLayout>,
    players: &mut Vec<PlayerTrack>,
    d: &mut DecodeDiagnostics,
    retain: bool,
) -> (r: Result<(Vec<ClockSample>, Tracks), DecodeError>)
    requires
        lives_tracked(lives@, old(players)@),
        film_addressable(chunks@),
    ensures
        final(d).limitations@ == old(d).limitations@,
        same_lives(old(players)@, final(players)@),
        r is Ok,
        track_ids(final(players)@) == track_ids(old(players)@),
        final(d).frames == old(d).frames,
        all_streams(final(players)@) == add_all(
            all_streams(old(players)@),
            pass_obs(chunks@, packets@, origin, lives@, old(players)@, packets@.len() as int),
        ),
        r matches Ok((clocks, tracks)) ==> (clocks@, tracks.births@, tracks.records@, tracks.terminals@) == pass_out(
            chunks@,
            packets@,
            origin,
            lives@,
            projectile_layout,
            packets@.len() as int,
        ),
{
    let ghost start = players@;
    let ghost base = all_streams(start);
    let mut clocks: Vec<ClockSample> = Vec::new();
    let mut projectiles = Tracks { births: Vec::new(), records: Vec::new(), terminals: Vec::new() };
    let mut k: usize = 0;
    proof {
        reveal(pass_obs);
        reveal(pass_out);
        assert(add_all(base, pass_obs(chunks@, packets@, origin, lives@, start, 0)) == base);
    }
    while k < packets.len()
        invariant
            k <= packets@.len(),
            film_addressable(chunks@),
            (clocks@, projectiles.births@, projectiles.records@, projectiles.terminals@) == pass_out(
                chunks@,
                packets@,
                origin,
                lives@,
                projectile_layout,
                k as int,
            ),
            start == old(players)@,
            base == all_streams(start),
            track_ids(players@) == track_ids(old(players)@),
            lives_tracked(lives@, old(players)@),
            same_lives(old(players)@, players@),
            d.frames == old(d).frames,
            d.limitations@ == old(d).limitations@,
            all_streams(players@) == add_all(base, pass_obs(chunks@, packets@, origin, lives@, start, k as int)),
        decreases packets@.len() - k,
    {
        let p = &packets[k];
        let ghost prior = pass_obs(chunks@, packets@, origin, lives@, start, k as int);
        if p.packet_type == 0 && p.timestamp_us >= origin {
            match payload(chunks, p) {
                Some(data) => {
                    let b = Bits(data);
                    let t = p.timestamp_us - origin;
                    let ghost pb = b@;
                    let frame_tick = match clock(b, 0, true) {
                        Some((_, tick)) => Some(tick),
                        None => None,
                    };
                    let mut frame = FrameState {
                        frame_tick,
                        local_tick: None,
                        first_clock_end: None,
                        previous_delta_end: 0,
                        accepted: Vec::new(),
                    };
                    assert(frame_view(frame) =~= start_frame(pb));
                    let ghost chain = match bound_chain(pb, lives@, t) {
                        Some((l, c)) => chain_obs(pb, l, c, t, *p),
                        None => Seq::<(u8, Observation)>::empty(),
                    };
                    let ghost s0 = all_streams(players@);
                    observe_chain(b, p, t, lives, &mut frame, players, d, retain)?;
                    proof {
                        assert(all_streams(players@) == add_all(s0, chain)) by {
                            assert(add_all(s0, Seq::<(u8, Observation)>::empty()) == s0);
                        }
                        assert(frame_view(frame) =~= chain_frame(pb, lives@, t, start_frame(pb)));
                    }
                    let ghost f1 = frame_view(frame);
                    let ghost full = windows_obs(pb, lives@, t, *p, f1, 0);
                    let ghost wfull = windows_out(pb, lives@, t, *p, projectile_layout, 0);
                    let ghost c0 = clocks@;
                    let ghost b0 = projectiles.births@;
                    let ghost r0 = projectiles.records@;
                    let ghost t0 = projectiles.terminals@;
                    let ghost s1 = all_streams(players@);
                    let ghost mut acc = Seq::<(u8, Observation)>::empty();
                    let ghost mut fc = f1;
                    let mut ws = b.windows();
                    let mut done = false;
                    proof {
                        assert(acc + full.0 =~= full.0);
                        assert(add_all(s1, acc) == s1);
                    }
                    while !done
                        invariant
                            ws.wf(),
                            ws.bits@ == b@,
                            pb == b@,
                            b@.len() * 8 + 16384 <= usize::MAX,
                            track_ids(players@) == track_ids(old(players)@),
                            lives_tracked(lives@, old(players)@),
                            same_lives(old(players)@, players@),
                            d.frames == old(d).frames,
                            d.limitations@ == old(d).limitations@,
                            frame_view(frame) == fc,
                            all_streams(players@) == add_all(s1, acc),
                            !done ==> full == (acc + windows_obs(pb, lives@, t, *p, fc, ws.offset as int).0, windows_obs(pb, lives@, t, *p, fc, ws.offset as int).1),
                            done ==> full == (acc, fc),
                            wfull == windows_out(pb, lives@, t, *p, projectile_layout, 0),
                            projectiles.terminals@ == t0,
                            !done ==> c0 + wfull.0 == clocks@ + windows_out(pb, lives@, t, *p, projectile_layout, ws.offset as int).0
                                && b0 + wfull.1 == projectiles.births@ + windows_out(pb, lives@, t, *p, projectile_layout, ws.offset as int).1
                                && r0 + wfull.2 == projectiles.records@ + windows_out(pb, lives@, t, *p, projectile_layout, ws.offset as int).2,
                            done ==> clocks@ == c0 + wfull.0 && projectiles.births@ == b0 + wfull.1 && projectiles.records@ == r0 + wfull.2,
                        decreases bit_len(b@) - ws.offset + if done { 0int } else { 1int },
                    {
                        let ghost off = ws.offset;
                        match ws.next() {
                            Some((o, w)) => {
                                let ghost here = window_obs(pb, o, w, lives@, t, *p, fc);
                                let ghost before = all_streams(players@);
                                let ghost cb = clocks@;
                                let ghost bb = projectiles.births@;
                                let ghost rb = projectiles.records@;
                                observe_window(b, o, w, p, t, lives, projectile_layout, &mut frame, players, &mut clocks, &mut projectiles, d, retain)?;
                                proof {
                                    assert(w == window_spec(pb, o as int));
                                    let wr = windows_out(pb, lives@, t, *p, projectile_layout, o + 1);
                                    let ca = clock_at(pb, o as int, w, t, *p);
                                    let ba = birth_at(pb, o as int, w, lives@, t, *p, projectile_layout);
                                    let ra = record_at(pb, o as int, w, lives@, t, *p, projectile_layout);
                                    assert(windows_out(pb, lives@, t, *p, projectile_layout, o as int) == (ca + wr.0, ba + wr.1, ra + wr.2));
                                    assert(cb + (ca + wr.0) =~= (cb + ca) + wr.0);
                                    assert(bb + (ba + wr.1) =~= (bb + ba) + wr.1);
                                    assert(rb + (ra + wr.2) =~= (rb + ra) + wr.2);
                                }
                                proof {
                                    reveal(windows_obs);
                                    assert(w == window_spec(pb, o as int));
                                    lemma_add_all_concat(s1, acc, here);
                                    let rest = windows_obs(pb, lives@, t, *p, window_frame(pb, o as int, w, lives@, t, fc), o + 1);
                                    assert(windows_obs(pb, lives@, t, *p, fc, o as int) == (here + rest.0, rest.1));
                                    assert(acc + (here + rest.0) =~= (acc + here) + rest.0);
                                    acc = acc + here;
                                    fc = window_frame(pb, o as int, w, lives@, t, fc);
                                }
                            },
                            None => {
                                proof {
                                    reveal(windows_obs);
                                    assert(windows_obs(pb, lives@, t, *p, fc, off as int) == (Seq::<(u8, Observation)>::empty(), fc));
                                    assert(acc + Seq::<(u8, Observation)>::empty() =~= acc);
                                    let e = windows_out(pb, lives@, t, *p, projectile_layout, off as int);
                                    assert(e.0 =~= Seq::<ClockSample>::empty() && e.1 =~= Seq::<Sample<Birth>>::empty() && e.2 =~= Seq::<Sample<Record>>::empty());
                                    assert(clocks@ + e.0 =~= clocks@);
                                    assert(projectiles.births@ + e.1 =~= projectiles.births@);
                                    assert(projectiles.records@ + e.2 =~= projectiles.records@);
                                }
                                done = true;
                            },
                        }
                    }
                    let ghost s2 = all_streams(players@);
                    let ghost now = players@;
                    observe_terminal(b, p, t, lives, &frame, players, d, retain)?;
                    proof {
                        let term = match terminal_rows(pb, start, full.1.first_clock_end) {
                            Some(rows) => rows_obs(start, lives@, t, *p, rows, rows.len() as int),
                            None => Seq::<(u8, Observation)>::empty(),
                        };
                        assert(now.len() == track_ids(now).len() && start.len() == track_ids(start).len());
                        assert(terminal_rows(pb, now, full.1.first_clock_end) == terminal_rows(pb, start, full.1.first_clock_end));
                        match terminal_rows(pb, start, full.1.first_clock_end) {
                            Some(rows) => {
                                lemma_rows_obs_same(now, start, lives@, t, *p, rows, rows.len() as int);
                            },
                            None => {
                                assert(add_all(s2, Seq::<(u8, Observation)>::empty()) == s2);
                            },
                        }
                        assert(all_streams(players@) == add_all(s2, term));
                        lemma_add_all_concat(s0, chain, acc);
                        lemma_add_all_concat(s0, chain + acc, term);
                        lemma_add_all_concat(base, prior, chain + acc + term);
                        reveal(payload_obs);
                        assert(chain + acc + term == payload_obs(pb, lives@, start, t, *p));
                        assert(payload_spec(chunks@, *p) == Some(pb));
                        reveal(pass_obs);
                        assert(pass_obs(chunks@, packets@, origin, lives@, start, k + 1) == prior + payload_obs(pb, lives@, start, t, *p));
                    }
                    let ghost tb = projectiles.terminals@;
                    if b.matches(0, PROJECTILE_END, PROJECTILE_END_BITS) {
                        projectiles.terminals.push((t, span(p, 0, PROJECTILE_END_BITS)));
                    }
                    proof {
                        reveal(pass_out);
                        let term = if matches_spec(pb, 0, PROJECTILE_END, PROJECTILE_END_BITS as nat) {
                            seq![(t, span_spec(*p, 0, PROJECTILE_END_BITS))]
                        } else {
                            Seq::<(u64, SourceSpan)>::empty()
                        };
                        assert(projectiles.terminals@ =~= tb + term);
                        assert(payload_spec(chunks@, *p) == Some(pb));
                    }
                },
                None => {
                    proof {
                        reveal(pass_out);
                    }
                },
            }
        }
        proof {
            reveal(pass_obs);
            reveal(pass_out);
        }
        k += 1;
    }
    Ok((clocks, projectiles))
}

/// Adds `n` rejected candidates under `reason`; nothing else changes. The count is
/// stated for string keys whose comparison is lawful.
fn reject_many(d: &mut DecodeDiagnostics, reason: &str, n: usize)
    ensures
        final(d).frames == old(d).frames,
        final(d).checked_regions@ == old(d).checked_regions@,
        final(d).limitations@ == old(d).limitations@,
        obeys_cmp::<String>() ==> exists|key: String| key@ == reason@
            && #[trigger] final(d).rejected@ == old(d).rejected@.insert(key, bumped(old(d).rejected@, key, n)),
{
    let key = owned(reason);
    let m: usize = match d.rejected.get(&key) {
        Some(m) => *m,
        None => 0,
    };
    let next: usize = if m <= usize::MAX - n { m + n } else { usize::MAX };
    let ghost k = key;
    d.rejected.insert(key, next);
    proof {
        if obeys_cmp::<String>() {
            assert(next == bumped(old(d).rejected@, k, n));
            assert(d.rejected@ == old(d).rejected@.insert(k, bumped(old(d).rejected@, k, n)));
        }
    }
}

/// Whether sample `a` sorts after `b` by (time, life, bit).
pub open spec fn weapon_after_spec(a: Sample<WeaponObservation>, b: Sample<WeaponObservation>) -> bool {
    a.time_us > b.time_us || (a.time_us == b.time_us && (a.life > b.life || (a.life == b.life && a.source.bit
        > b.source.bit)))
}

fn weapon_after(a: &Sample<WeaponObservation>, b: &Sample<WeaponObservation>) -> (r: bool)
    ensures
        r == weapon_after_spec(*a, *b),
{
    a.time_us > b.time_us || (a.time_us == b.time_us && (a.life > b.life || (a.life == b.life && a.source.bit
        > b.source.bit)))
}

/// `e` inserted before the first weapon observation of `s` that sorts after it.
pub open spec fn insert_weapon(s: Seq<Sample<WeaponObservation>>, e: Sample<WeaponObservation>) -> Seq<Sample<WeaponObservation>>
    decreases s.len(),
{
    if s.len() == 0 {
        seq![e]
    } else if weapon_after_spec(s[0], e) {
        seq![e] + s
    } else {
        seq![s[0]] + insert_weapon(s.drop_first(), e)
    }
}

/// Weapon observations ordered by (time, life, bit); equal keys keep their order.
pub open spec fn sort_weapons_spec(s: Seq<Sample<WeaponObservation>>) -> Seq<Sample<WeaponObservation>>
    decreases s.len(),
{
    if s.len() == 0 {
        seq![]
    } else {
        insert_weapon(sort_weapons_spec(s.drop_last()), s.last())
    }
}

proof fn lemma_insert_weapon_at(s: Seq<Sample<WeaponObservation>>, e: Sample<WeaponObservation>, j: int)
    requires
        0 <= j <= s.len(),
        forall|k: int| 0 <= k < j ==> !weapon_after_spec(#[trigger] s[k], e),
        j < s.len() ==> weapon_after_spec(s[j], e),
    ensures
        insert_weapon(s, e) == s.insert(j, e),
    decreases j,
{
    if j == 0 {
        if s.len() > 0 {
            assert(seq![e] + s =~= s.insert(0, e));
        } else {
            assert(seq![e] =~= s.insert(0, e));
        }
    } else {
        let t = s.drop_first();
        assert forall|k: int| 0 <= k < j - 1 implies !weapon_after_spec(#[trigger] t[k], e) by {
            assert(t[k] == s[k + 1]);
        }
        lemma_insert_weapon_at(t, e, j - 1);
        assert(seq![s[0]] + t.insert(j - 1, e) =~= s.insert(j, e));
    }
}

/// Weapon observations ordered by (time, life, bit); equal keys keep their order.
fn sort_weapons(v: Vec<Sample<WeaponObservation>>) -> (r: Vec<Sample<WeaponObservation>>)
    ensures
        r@ == sort_weapons_spec(v@),
{
    let ghost all = v@;
    let mut rest = v;
    let mut sorted: Vec<Sample<WeaponObservation>> = Vec::new();
    let ghost mut k: int = 0;
    proof {
        assert(all.subrange(0, 0) =~= Seq::<Sample<WeaponObservation>>::empty());
        assert(rest@ =~= all.subrange(0, all.len() as int));
    }
    while rest.len() > 0
        invariant
            0 <= k <= all.len(),
            rest@.len() + k == all.len(),
            rest@ == all.subrange(k, all.len() as int),
            sorted@ == sort_weapons_spec(all.subrange(0, k)),
        decreases rest@.len(),
    {
        let e = rest.remove(0);
        proof {
            assert(rest@ =~= all.subrange(k + 1, all.len() as int));
            assert(e == all[k]);
            assert(all.subrange(0, k + 1).drop_last() =~= all.subrange(0, k));
        }
        let ghost s0 = sorted@;
        let mut j: usize = 0;
        while j < sorted.len() && !weapon_after(&sorted[j], &e)
            invariant
                j <= sorted@.len(),
                s0 == sorted@,
                forall|m: int| 0 <= m < j ==> !weapon_after_spec(#[trigger] s0[m], e),
            decreases sorted@.len() - j,
        {
            j += 1;
        }
        proof {
            lemma_insert_weapon_at(s0, e, j as int);
        }
        sorted.insert(j, e);
        proof {
            k = k + 1;
        }
    }
    proof {
        assert(all.subrange(0, k) =~= all);
    }
    sorted
}

/// Lexicographic order of (chunk, payload byte, life) keys.
pub open spec fn key_less_spec(a: (i32, usize, u16), b: (i32, usize, u16)) -> bool {
    a.0 < b.0 || (a.0 == b.0 && (a.1 < b.1 || (a.1 == b.1 && a.2 < b.2)))
}

fn key_less(a: (i32, usize, u16), b: (i32, usize, u16)) -> (r: bool)
    ensures
        r == key_less_spec(a, b),
{
    a.0 < b.0 || (a.0 == b.0 && (a.1 < b.1 || (a.1 == b.1 && a.2 < b.2)))
}

fn key_eq(a: (i32, usize, u16), b: (i32, usize, u16)) -> (r: bool)
    ensures
        r == (a == b),
{
    a.0 == b.0 && a.1 == b.1 && a.2 == b.2
}

/// The grouping key of a sample: its chunk, payload byte and life.
pub open spec fn key_of_spec<T>(s: Sample<T>) -> (i32, usize, u16) {
    (s.source.chunk, s.source.payload_byte, s.life)
}

fn key_of<T>(s: &Sample<T>) -> (r: (i32, usize, u16))
    ensures
        r == key_of_spec(*s),
{
    (s.source.chunk, s.source.payload_byte, s.life)
}

/// Where key `k` belongs among keys kept in increasing order, searching from `j`.
pub open spec fn key_position(s: Seq<(i32, usize, u16)>, k: (i32, usize, u16), j: int) -> int
    decreases s.len() - j,
{
    if j < 0 || j >= s.len() || !key_less_spec(s[j], k) {
        j
    } else {
        key_position(s, k, j + 1)
    }
}

/// Keys in increasing order with `k` added once.
pub open spec fn add_key(s: Seq<(i32, usize, u16)>, k: (i32, usize, u16)) -> Seq<(i32, usize, u16)> {
    let p = key_position(s, k, 0);
    if p < s.len() && s[p] == k {
        s
    } else {
        s.insert(p, k)
    }
}

/// The keys of the first `n` shots, increasing, each once.
pub open spec fn shot_keys(f: Seq<Sample<Firing>>, n: int) -> Seq<(i32, usize, u16)>
    decreases n,
{
    if n <= 0 || n > f.len() {
        seq![]
    } else {
        add_key(shot_keys(f, n - 1), key_of_spec(f[n - 1]))
    }
}

/// How many of the first `n` samples have key `k`.
pub open spec fn key_count<T>(s: Seq<Sample<T>>, k: (i32, usize, u16), n: int) -> nat
    decreases n,
{
    if n <= 0 || n > s.len() {
        0
    } else {
        key_count(s, k, n - 1) + if key_of_spec(s[n - 1]) == k { 1nat } else { 0nat }
    }
}

/// The slot of the first of the first `n` magazines with key `k`, or zero.
pub open spec fn first_mag_slot(m: Seq<Sample<Magazine>>, k: (i32, usize, u16), n: int) -> u8
    decreases n,
{
    if n <= 0 || n > m.len() {
        0
    } else if key_count(m, k, n - 1) == 0 && key_of_spec(m[n - 1]) == k {
        m[n - 1].value.slot
    } else {
        first_mag_slot(m, k, n - 1)
    }
}

/// A shot's slot: its own, or the magazine's; unknown when the two differ.
pub open spec fn shot_slot(window: u64, magazine_slot: Option<u8>) -> Option<u8> {
    match (firing_slot(window), magazine_slot) {
        (Some(a), Some(b)) => if a != b { None } else { Some(a) },
        (Some(a), None) => Some(a),
        (None, Some(b)) => Some(b),
        (None, None) => None,
    }
}

/// The magazine slot of a key's group: the magazine's, for one shot beside one magazine.
pub open spec fn group_magazine(f: Seq<Sample<Firing>>, m: Seq<Sample<Magazine>>, k: (i32, usize, u16)) -> Option<u8> {
    if key_count(f, k, f.len() as int) == 1 && key_count(m, k, m.len() as int) == 1 {
        Some(first_mag_slot(m, k, m.len() as int))
    } else {
        None
    }
}

/// The weapon observations of the first `n` shots with key `k`.
pub open spec fn group_weapons(f: Seq<Sample<Firing>>, k: (i32, usize, u16), ms: Option<u8>, n: int) -> Seq<Sample<WeaponObservation>>
    decreases n,
{
    if n <= 0 || n > f.len() {
        seq![]
    } else {
        let prior = group_weapons(f, k, ms, n - 1);
        let shot = f[n - 1];
        if key_of_spec(shot) == k {
            prior.push(
                Sample {
                    time_us: shot.time_us,
                    life: shot.life,
                    value: WeaponObservation { slot: shot_slot(shot.value.weapon_window, ms), weapon_window: Some(shot.value.weapon_window) },
                    source: shot.source,
                },
            )
        } else {
            prior
        }
    }
}

/// The weapon observations of the groups of the first `g` keys, in key order.
pub open spec fn keyed_weapons(f: Seq<Sample<Firing>>, m: Seq<Sample<Magazine>>, keys: Seq<(i32, usize, u16)>, g: int) -> Seq<Sample<WeaponObservation>>
    decreases g,
{
    if g <= 0 || g > keys.len() {
        seq![]
    } else {
        keyed_weapons(f, m, keys, g - 1) + group_weapons(f, keys[g - 1], group_magazine(f, m, keys[g - 1]), f.len() as int)
    }
}

/// The slot observations of the first `n` selections.
pub open spec fn selection_weapons(sel: Seq<Sample<u8>>, n: int) -> Seq<Sample<WeaponObservation>>
    decreases n,
{
    if n <= 0 || n > sel.len() {
        seq![]
    } else {
        selection_weapons(sel, n - 1).push(
            Sample {
                time_us: sel[n - 1].time_us,
                life: sel[n - 1].life,
                value: WeaponObservation { slot: Some(sel[n - 1].value), weapon_window: None },
                source: sel[n - 1].source,
            },
        )
    }
}

/// All weapon observations from firing groups and selections.
pub open spec fn firing_weapons_spec(f: Seq<Sample<Firing>>, m: Seq<Sample<Magazine>>, sel: Seq<Sample<u8>>) -> Seq<Sample<WeaponObservation>> {
    let keys = shot_keys(f, f.len() as int);
    keyed_weapons(f, m, keys, keys.len() as int) + selection_weapons(sel, sel.len() as int)
}

/// Weapon observations from firing: shots are grouped by (chunk, payload byte, life)
/// in key order; a group of one shot beside exactly one magazine takes the magazine's
/// slot, and a shot's own slot wins unless the two conflict, which is counted and
/// leaves the slot unknown. Selections follow as slot observations.
fn firing_weapons(
    firing: &Vec<Sample<Firing>>,
    magazines: &Vec<Sample<Magazine>>,
    selections: &Vec<Sample<u8>>,
    weapons: &mut Vec<Sample<WeaponObservation>>,
    d: &mut DecodeDiagnostics,
)
    ensures
        final(d).limitations@ == old(d).limitations@,
        final(d).frames == old(d).frames,
        final(weapons)@ == old(weapons)@ + firing_weapons_spec(firing@, magazines@, selections@),
{
    let ghost f = firing@;
    let ghost m = magazines@;
    let mut keys: Vec<(i32, usize, u16)> = Vec::new();
    let mut i: usize = 0;
    while i < firing.len()
        invariant
            i <= firing@.len(),
            keys@ == shot_keys(firing@, i as int),
        decreases firing@.len() - i,
    {
        let k = key_of(&firing[i]);
        let ghost s0 = keys@;
        let mut j: usize = 0;
        while j < keys.len() && key_less(keys[j], k)
            invariant
                j <= keys@.len(),
                s0 == keys@,
                key_position(s0, k, 0) == key_position(s0, k, j as int),
            decreases keys@.len() - j,
        {
            j += 1;
        }
        if !(j < keys.len() && key_eq(keys[j], k)) {
            keys.insert(j, k);
        }
        i += 1;
    }
    let ghost base = weapons@;
    let mut g: usize = 0;
    while g < keys.len()
        invariant
            g <= keys@.len(),
            keys@ == shot_keys(f, f.len() as int),
            f == firing@,
            m == magazines@,
            d.frames == old(d).frames,
            d.limitations@ == old(d).limitations@,
            weapons@ == base + keyed_weapons(f, m, keys@, g as int),
        decreases keys@.len() - g,
    {
        let key = keys[g];
        let mut shots: usize = 0;
        let mut i: usize = 0;
        while i < firing.len()
            invariant
                i <= firing@.len(),
                shots <= i,
                shots == key_count(firing@, key, i as int),
            decreases firing@.len() - i,
        {
            if key_eq(key_of(&firing[i]), key) {
                shots = shots + 1;
            }
            i += 1;
        }
        let mut mags: usize = 0;
        let mut mag_slot: u8 = 0;
        let mut i: usize = 0;
        while i < magazines.len()
            invariant
                i <= magazines@.len(),
                mags <= i,
                mags == key_count(magazines@, key, i as int),
                mag_slot == first_mag_slot(magazines@, key, i as int),
            decreases magazines@.len() - i,
        {
            if key_eq(key_of(&magazines[i]), key) {
                if mags == 0 {
                    mag_slot = magazines[i].value.slot;
                }
                mags = mags + 1;
            }
            i += 1;
        }
        let magazine_slot: Option<u8> = if shots == 1 && mags == 1 { Some(mag_slot) } else { None };
        assert(magazine_slot == group_magazine(f, m, key));
        let ghost before = weapons@;
        let mut i: usize = 0;
        while i < firing.len()
            invariant
                i <= firing@.len(),
                f == firing@,
                d.frames == old(d).frames,
                d.limitations@ == old(d).limitations@,
                weapons@ == before + group_weapons(f, key, magazine_slot, i as int),
            decreases firing@.len() - i,
        {
            let shot = &firing[i];
            if key_eq(key_of(shot), key) {
                let slot = match (shot.value.weapon_slot(), magazine_slot) {
                    (Some(a), Some(b)) => if a != b {
                        reject(d, "conflicting firing/magazine slots");
                        None
                    } else {
                        Some(a)
                    },
                    (Some(a), None) => Some(a),
                    (None, Some(b)) => Some(b),
                    (None, None) => None,
                };
                weapons.push(Sample {
                    time_us: shot.time_us,
                    life: shot.life,
                    value: WeaponObservation { slot, weapon_window: Some(shot.value.weapon_window) },
                    source: shot.source,
                });
            }
            i += 1;
            proof {
                assert(weapons@ =~= before + group_weapons(f, key, magazine_slot, i as int));
            }
        }
        g += 1;
        proof {
            assert(weapons@ =~= base + keyed_weapons(f, m, keys@, g as int));
        }
    }
    let ghost before = weapons@;
    let mut i: usize = 0;
    while i < selections.len()
        invariant
            i <= selections@.len(),
            weapons@ == before + selection_weapons(selections@, i as int),
        decreases selections@.len() - i,
    {
        let s = &selections[i];
        weapons.push(Sample {
            time_us: s.time_us,
            life: s.life,
            value: WeaponObservation { slot: Some(s.value), weapon_window: None },
            source: s.source,
        });
        i += 1;
        proof {
            assert(weapons@ =~= before + selection_weapons(selections@, i as int));
        }
    }
}

/// A player's streams normalized: each ordered by (time, life) without repeated
/// (time, life, value) observations; repeated firing counted; firing sequence gaps
/// counted; weapon observations from firing, magazines and selections added.
fn finish_track(t: PlayerTrack, d: &mut DecodeDiagnostics) -> (r: PlayerTrack)
    ensures
        final(d).limitations@ == old(d).limitations@,
        r.id == t.id,
        r.lives == t.lives,
        r.grenades@.len() <= t.grenades@.len(),
        final(d).frames == old(d).frames,
        r.xuid == t.xuid && r.name == t.name && r.appearance == t.appearance,
        r.positions@ == first_samples(sort_time_life(t.positions@)),
        r.velocities@ == first_samples(sort_time_life(t.velocities@)),
        r.aim@ == first_samples(sort_time_life(t.aim@)),
        r.inputs@ == first_samples(sort_time_life(t.inputs@)),
        r.crouch_input@ == first_samples(sort_time_life(t.crouch_input@)),
        r.firing@ == first_samples(sort_time_life(t.firing@)),
        r.damage@ == first_samples(sort_time_life(t.damage@)),
        r.melee@ == first_samples(sort_time_life(t.melee@)),
        r.grenades@ == first_samples(sort_time_life(t.grenades@)),
        r.reloads@ == first_samples(sort_time_life(t.reloads@)),
        r.magazines@ == first_samples(sort_time_life(t.magazines@)),
        r.selections@ == first_samples(sort_time_life(t.selections@)),
        r.zoom@ == first_samples(sort_time_life(t.zoom@)),
        r.body@ == first_samples(sort_time_life(t.body@)),
        r.shields@ == first_samples(sort_time_life(t.shields@)),
        r.weapons@ == first_samples(sort_time_life(sort_weapons_spec(t.weapons@ + firing_weapons_spec(
            r.firing@,
            r.magazines@,
            r.selections@,
        )))),
{
    let PlayerTrack {
        id,
        xuid,
        name,
        appearance,
        lives,
        positions,
        velocities,
        aim,
        inputs,
        crouch_input,
        firing,
        damage,
        melee,
        grenades,
        reloads,
        magazines,
        selections,
        weapons,
        zoom,
        body,
        shields,
    } = t;
    let (damage, _) = normalize(damage);
    let (crouch_input, _) = normalize(crouch_input);
    let (positions, _) = normalize(positions);
    let (velocities, _) = normalize(velocities);
    let (aim, _) = normalize(aim);
    let (inputs, _) = normalize(inputs);
    let (firing, duplicates) = normalize(firing);
    if duplicates > 0 {
        reject_many(d, "duplicate firing", duplicates);
    }
    let (melee, _) = normalize(melee);
    let (grenades, _) = normalize(grenades);
    let (reloads, _) = normalize(reloads);
    let (magazines, _) = normalize(magazines);
    let (selections, _) = normalize(selections);
    let (zoom, _) = normalize(zoom);
    let (body, _) = normalize(body);
    let (shields, _) = normalize(shields);
    let mut i: usize = 1;
    while i < firing.len()
        invariant
            1 <= i,
            d.frames == old(d).frames,
            d.limitations@ == old(d).limitations@,
        decreases firing@.len() - i,
    {
        if firing[i].value.sequence != firing[i - 1].value.sequence.wrapping_add(1) {
            reject(d, "firing sequence gap (not inferred shots)");
        }
        i += 1;
    }
    let mut weapons = weapons;
    firing_weapons(&firing, &magazines, &selections, &mut weapons, d);
    let (weapons, _) = normalize(sort_weapons(weapons));
    PlayerTrack {
        id,
        xuid,
        name,
        appearance,
        lives,
        positions,
        velocities,
        aim,
        inputs,
        crouch_input,
        firing,
        damage,
        melee,
        grenades,
        reloads,
        magazines,
        selections,
        weapons,
        zoom,
        body,
        shields,
    }
}

/// The projectile archetype's components that projectile records use, by position.
pub const PROJECTILE_COMPONENTS: [(usize, &'static str); 6] = [
    (0, "object-position-component"),
    (1, "object-translational-velocity-component"),
    (2, "object-forward-and-up-component"),
    (5, "object-shield-vitality-component"),
    (18, "projectile-at-rest-state"),
    (20, "projectile-command_tick"),
];

/// The coordinate layout of projectile records: that of every life, when all lives
/// share one and the registry's projectile archetype has the expected components.
/// Whether the projectile archetype (41) names the expected components at their positions.
pub open spec fn projectile_archetype_ok(registry: FilmRegistry) -> bool {
    registry.archetypes@.len() > 41 && forall|k: int|
        0 <= k < 6 ==> {
            let (i, name) = #[trigger] PROJECTILE_COMPONENTS@[k];
            i < registry.archetypes@[41].components@.len() && registry.archetypes@[41].components@[i as int]@ == name@
        }
}

/// The coordinate layout of projectile records.
pub open spec fn projectile_layout_spec(lives: Seq<Life>, registry: FilmRegistry) -> Option<CoordinateLayout> {
    if lives.len() == 0 || !(forall|i: int| 0 <= i < lives.len() ==> (#[trigger] lives[i]).layout == lives[0].layout)
        || !projectile_archetype_ok(registry) {
        None
    } else {
        Some(lives[0].layout)
    }
}

fn projectile_layout(lives: &Vec<Life>, registry: &FilmRegistry) -> (r: Option<CoordinateLayout>)
    ensures
        r == projectile_layout_spec(lives@, *registry),
        r matches Some(layout) ==> lives@.len() > 0 && forall|i: int| 0 <= i < lives@.len() ==> (#[trigger] lives@[i]).layout == layout,
{
    if lives.len() == 0 {
        return None;
    }
    let layout = lives[0].layout;
    let mut i: usize = 0;
    while i < lives.len()
        invariant
            i <= lives@.len(),
            lives@.len() > 0,
            layout == lives@[0].layout,
            forall|k: int| 0 <= k < i ==> (#[trigger] lives@[k]).layout == layout,
        decreases lives@.len() - i,
    {
        if lives[i].layout != layout {
            proof {
                assert(!(lives@[i as int].layout == lives@[0].layout));
            }
            return None;
        }
        i += 1;
    }
    let a = match registry.archetype(41) {
        Some(a) => a,
        None => return None,
    };
    let mut k: usize = 0;
    while k < 6
        invariant
            k <= 6,
            registry.archetypes@.len() > 41,
            *a == registry.archetypes@[41],
            forall|q: int| 0 <= q < k ==> {
                let (i, name) = #[trigger] PROJECTILE_COMPONENTS@[q];
                i < a.components@.len() && a.components@[i as int]@ == name@
            },
        decreases 6 - k,
    {
        let (i, name) = PROJECTILE_COMPONENTS[k];
        assert((i, name) == PROJECTILE_COMPONENTS@[k as int]);
        if !(i < a.components.len() && text_eq(a.components[i].as_str(), name)) {
            return None;
        }
        k += 1;
    }
    Some(layout)
}

/// The film's summary events are its footer highlights, as decoded for the recorded
/// roster, one for one, bound to the roster indices found for their XUIDs.
pub open spec fn footer_summary(chunks: Seq<FilmChunkData>, summary: Seq<SummaryEvent>) -> bool {
    exists|roster: Seq<FilmPlayer>, events: Seq<FilmEvent>|
        #![trigger players_view(roster), events_view(events)]
        players_view(roster) == player_table(all_roster_entries(by_index(chunks))) && events_view(events) == dedup_events(
            sort_by_time(found_events(by_index(chunks), roster)),
        ) && summary.len() == events.len() && forall|i: int|
            0 <= i < summary.len() ==> summary_event_matches(
                #[trigger] summary[i],
                events[i],
                player_indices_spec(by_index(chunks), roster),
            )
}

/// Whether the registry of a film lacks what the decoder needs.
pub open spec fn registry_fails(chunks: Seq<FilmChunkData>) -> bool {
    match lowest_of_type(chunks, 1) {
        None => true,
        Some(i) => chunks[i].data@.len() / 16640 <= 35 || first_bad_pawn(block_components(chunks[i].data@, 35, 0), 0) is Some,
    }
}

/// Whether roster index `id` has a track: a roster player is bound to it, or a spawn
/// names it.
pub open spec fn film_has_track(roster: Seq<FilmPlayer>, indices: Map<u64, u8>, sites: Seq<SpawnSite>, id: u8) -> bool {
    ||| exists|q: int| 0 <= q < roster.len() && #[trigger] roster_index(roster, indices, q) == Some(id)
    ||| exists|i: int| 0 <= i < sites.len() && (#[trigger] sites[i]).spawn.player == id
}

/// Some life of some track holds more than one death.
pub open spec fn film_bind_fails(roster: Seq<FilmPlayer>, indices: Map<u64, u8>, sites: Seq<SpawnSite>, lives: Seq<Life>, summary: Seq<SummaryEvent>) -> bool {
    exists|id: u8, i: int|
        film_has_track(roster, indices, sites, id) && 0 <= i < player_lives(lives, id, lives.len() as int).len()
            && #[trigger] life_conflict(player_lives(lives, id, lives.len() as int), i, summary, id)
}

/// A track holds no observation yet beyond appearance snapshots, lives and positions.
pub open spec fn observations_empty(t: PlayerTrack) -> bool {
    &&& t.velocities@.len() == 0 && t.aim@.len() == 0 && t.inputs@.len() == 0 && t.crouch_input@.len() == 0
    &&& t.firing@.len() == 0 && t.damage@.len() == 0 && t.melee@.len() == 0 && t.grenades@.len() == 0
    &&& t.reloads@.len() == 0 && t.magazines@.len() == 0 && t.selections@.len() == 0 && t.weapons@.len() == 0
    &&& t.zoom@.len() == 0 && t.body@.len() == 0 && t.shields@.len() == 0
}

/// Track `r` is the streams `v` normalized: each stream ordered by (time, life)
/// without repeats, and weapon observations from firing, magazines and selections
/// added.
pub open spec fn streams_finished(v: TrackStreams, r: PlayerTrack) -> bool {
    &&& r.id == v.id && r.lives@ == v.lives && r.appearance@ == v.appearance
    &&& r.positions@ == first_samples(sort_time_life(v.positions))
    &&& r.velocities@ == first_samples(sort_time_life(v.velocities))
    &&& r.aim@ == first_samples(sort_time_life(v.aim))
    &&& r.inputs@ == first_samples(sort_time_life(v.inputs))
    &&& r.crouch_input@ == first_samples(sort_time_life(v.crouch_input))
    &&& r.firing@ == first_samples(sort_time_life(v.firing))
    &&& r.damage@ == first_samples(sort_time_life(v.damage))
    &&& r.melee@ == first_samples(sort_time_life(v.melee))
    &&& r.grenades@ == first_samples(sort_time_life(v.grenades))
    &&& r.reloads@ == first_samples(sort_time_life(v.reloads))
    &&& r.magazines@ == first_samples(sort_time_life(v.magazines))
    &&& r.selections@ == first_samples(sort_time_life(v.selections))
    &&& r.zoom@ == first_samples(sort_time_life(v.zoom))
    &&& r.body@ == first_samples(sort_time_life(v.body))
    &&& r.shields@ == first_samples(sort_time_life(v.shields))
    &&& r.weapons@ == first_samples(sort_time_life(sort_weapons_spec(v.weapons + firing_weapons_spec(r.firing@, r.magazines@, r.selections@))))
}

/// The film's observations: the tracks with bound lives (`bound`, each with its spawn
/// positions and no other observation yet, holding together the bound lives `blives`
/// of the spawned identities `lives`) take the observations of the replication
/// payloads, then are normalized; the clocks are the strict round clocks of those
/// payloads; the projectile tracks are assembled from their projectile candidates.
pub open spec fn film_observed(
    chunks: Seq<FilmChunkData>,
    packets: Seq<FilmPacket>,
    origin: u64,
    lives: Seq<Life>,
    bound: Seq<PlayerTrack>,
    blives: Seq<Life>,
    f: Film,
) -> bool {
    let players = f.players@;
    let observed = add_all(all_streams(bound), pass_obs(chunks, packets, origin, blives, bound, packets.len() as int));
    let out = pass_out(chunks, packets, origin, blives, projectile_layout_spec(blives, f.registry), packets.len() as int);
    &&& f.clocks@ == out.0
    &&& track_views(f.projectiles@) == tracks_upto(sort_samples(out.1), sort_samples(out.2), players, out.3, sort_samples(out.1).len() as int)
    &&& players.len() == bound.len() && observed.len() == bound.len()
    &&& forall|q: int| 0 <= q < bound.len() ==> {
        &&& (#[trigger] bound[q]).id == players[q].id && bound[q].lives == players[q].lives
        &&& bound[q].positions@ == spawn_positions(bound[q].lives@) && observations_empty(bound[q])
    }
    &&& blives.len() == lives.len()
    &&& forall|y: int| 0 <= y < blives.len() ==> (#[trigger] blives[y]).id == lives[y].id && held_by_tracks(bound, bound.len() as int, blives[y])
    &&& forall|q: int| 0 <= q < players.len() ==> streams_finished(observed[q], #[trigger] players[q])
}

proof fn lemma_add_all_appearance(base: Seq<TrackStreams>, list: Seq<(u8, Observation)>)
    requires
        forall|i: int| 0 <= i < list.len() ==> (#[trigger] list[i]).1 is Appearance,
    ensures
        add_all(base, list).len() == base.len(),
        forall|q: int| 0 <= q < base.len() ==> (#[trigger] add_all(base, list)[q]) == (TrackStreams {
            appearance: add_all(base, list)[q].appearance,
            ..base[q]
        }),
    decreases list.len(),
{
    if list.len() > 0 {
        let d = list.drop_last();
        assert forall|i: int| 0 <= i < d.len() implies (#[trigger] d[i]).1 is Appearance by {
            assert(d[i] == list[i]);
        }
        lemma_add_all_appearance(base, d);
        let prev = add_all(base, d);
        lemma_track_index_range(prev, list.last().0, 0);
        assert(list[list.len() - 1].1 is Appearance);
    }
}

/// The tracks after the appearance pass still hold no other observations.
proof fn lemma_appearance_quiet(start: Seq<PlayerTrack>, after: Seq<PlayerTrack>, xs: Seq<AppearanceSample>, sites: Seq<AppearanceSite>)
    requires
        forall|q: int| 0 <= q < start.len() ==> track_is_new(#[trigger] start[q]),
        all_streams(after) == add_all(all_streams(start), site_obs(xs, sites)).map_values(|v: TrackStreams| tidy_streams(v)),
    ensures
        after.len() == start.len(),
        forall|q: int| 0 <= q < after.len() ==> observations_empty(#[trigger] after[q]) && after[q].positions@.len() == 0,
{
    let list = site_obs(xs, sites);
    lemma_add_all_appearance(all_streams(start), list);
    let mid = add_all(all_streams(start), list);
    assert(after.len() == all_streams(after).len());
    assert forall|q: int| 0 <= q < after.len() implies observations_empty(#[trigger] after[q]) && after[q].positions@.len() == 0 by {
        assert(all_streams(after)[q] == streams(after[q]));
        assert(all_streams(start)[q] == streams(start[q]));
        assert(all_streams(after)[q] == tidy_streams(mid[q]));
    }
}

/// A track's head: for an index a roster player is bound to, that player's index,
/// decimal XUID and name; for an index only a spawn names, no XUID and the name
/// "Player N".
pub open spec fn film_head(roster: Seq<FilmPlayer>, indices: Map<u64, u8>, t: PlayerTrack) -> bool {
    if exists|i: int| 0 <= i < roster.len() && #[trigger] roster_index(roster, indices, i) == Some(t.id) {
        roster_heads(roster, indices, roster.len() as int).contains(track_head(t))
    } else {
        t.xuid is None && t.name@ == "Player "@ + decimal(t.id as nat)
    }
}

/// The film's stated limitations: the missing spawn bindings when no life was found,
/// then the decoder's fixed scope notes.
pub open spec fn film_limitations(no_lives: bool) -> Seq<Seq<char>> {
    (if no_lives {
        seq!["No supported spawn bindings; player observations remain unavailable."@]
    } else {
        Seq::<Seq<char>>::empty()
    }) + seq![
        "Partial signature-guarded v41 grammar; unsupported records/components remain unparsed. Checked ranges can include opaque bits."@,
        "Raw positions require independently supplied map bounds for world coordinates. Velocity is in world units/s; aim and vitality display scales remain provisional."@,
        "No inferred initial aim, health, ammo or scope. Input axes/crouch commands support the checked wire-0 chain and terminal roster-0/1 records in one/two-player films. Other command forms, larger rosters, physical crouch and slide remain unsupported."@,
        "Firing is activity, not an exact bullet count; reload cause/duration, reserves and full inventory are unknown."@,
        "Projectile paths require checked spawns, thrower references and continuous supported updates. Grenade type and explosion locations remain unknown; track ends are observation boundaries."@,
    ]
}

/// The outcome once the lives of the spawns and the summary events are known: an error
/// exactly when a life holds two deaths; else one track per roster index with a track,
/// each holding its lives bound to deaths, life ends and round resets.
pub open spec fn film_bound(
    chunks: Seq<FilmChunkData>,
    packets: Seq<FilmPacket>,
    origin: u64,
    duration: u64,
    roster: Seq<FilmPlayer>,
    lives: Seq<Life>,
    summary: Seq<SummaryEvent>,
    r: Result<Film, DecodeError>,
) -> bool {
    let indices = player_indices_spec(by_index(chunks), roster);
    let sites = spawn_sites(chunks, packets, origin, packets.len() as int);
    let transitions = clock_transitions(chunks, packets, origin, packets.len() as int).0;
    &&& r is Err <==> film_bind_fails(roster, indices, sites, lives, summary)
    &&& r matches Err(e) ==> e is Inconsistent && exists|id: u8, i: int|
        film_has_track(roster, indices, sites, id) && 0 <= i < player_lives(lives, id, lives.len() as int).len()
            && #[trigger] life_conflict(player_lives(lives, id, lives.len() as int), i, summary, id)
            && e->Inconsistent_0@ == "multiple deaths for life "@ + decimal(player_lives(lives, id, lives.len() as int)[i].id as nat)
    &&& r matches Ok(f) ==> {
        &&& f.summary_events@ == summary
        &&& texts(f.diagnostics.limitations@) == film_limitations(lives.len() == 0)
        &&& forall|id: u8| #[trigger] track_ids(f.players@).contains(id) <==> film_has_track(roster, indices, sites, id)
        &&& forall|q: int| 0 <= q < f.players@.len() ==> (#[trigger] f.players@[q]).lives@ == bound_lives(
            player_lives(lives, f.players@[q].id, lives.len() as int),
            summary,
            transitions,
            duration,
            f.players@[q].id,
        )
        &&& forall|q: int| 0 <= q < f.players@.len() ==> film_head(roster, indices, #[trigger] f.players@[q])
        &&& exists|bound: Seq<PlayerTrack>, blives: Seq<Life>| #[trigger] film_observed(chunks, packets, origin, lives, bound, blives, f)
    }
}

/// The outcome of decoding a film with a supported registry and a time origin, for its
/// roster: two roster players on one index, then a reused life identity, are errors;
/// otherwise `film_bound` decides, for the lives started by the spawns and the footer
/// summary.
pub open spec fn film_outcome(
    chunks: Seq<FilmChunkData>,
    packets: Seq<FilmPacket>,
    origin: u64,
    duration: u64,
    roster: Seq<FilmPlayer>,
    r: Result<Film, DecodeError>,
) -> bool {
    let indices = player_indices_spec(by_index(chunks), roster);
    let sites = spawn_sites(chunks, packets, origin, packets.len() as int);
    if roster_conflict(roster, indices, roster.len() as int) {
        r is Err && r->Err_0 is Inconsistent && r->Err_0->Inconsistent_0@ == "ambiguous roster index"@
    } else if first_reuse(sites, duration) is Some {
        r is Err && r->Err_0 is Inconsistent && r->Err_0->Inconsistent_0@ == "reused life identity "@ + decimal(
            sites[first_reuse(sites, duration)->0].spawn.serial as nat,
        )
    } else {
        exists|lives: Seq<Life>, summary: Seq<SummaryEvent>|
            #![trigger site_lives(sites, duration, lives), footer_summary(chunks, summary)]
            site_lives(sites, duration, lives) && footer_summary(chunks, summary) && film_bound(
                chunks,
                packets,
                origin,
                duration,
                roster,
                lives,
                summary,
                r,
            )
    }
}

/// With the tracks' roster indices known, `bind_fails` is `film_bind_fails`.
proof fn lemma_bind_fails_ids(
    players: Seq<PlayerTrack>,
    roster: Seq<FilmPlayer>,
    indices: Map<u64, u8>,
    sites: Seq<SpawnSite>,
    lives: Seq<Life>,
    summary: Seq<SummaryEvent>,
)
    requires
        forall|id: u8| #[trigger] track_ids(players).contains(id) <==> film_has_track(roster, indices, sites, id),
    ensures
        bind_fails(players, lives, summary) <==> film_bind_fails(roster, indices, sites, lives, summary),
{
    if bind_fails(players, lives, summary) {
        let (q, i) = choose|q: int, i: int|
            0 <= q < players.len() && 0 <= i < player_lives(lives, players[q].id, lives.len() as int).len() && #[trigger] life_conflict(
                player_lives(lives, players[q].id, lives.len() as int),
                i,
                summary,
                players[q].id,
            );
        lemma_track_id_at(players, q);
        assert(film_has_track(roster, indices, sites, players[q].id));
    }
    if film_bind_fails(roster, indices, sites, lives, summary) {
        let (id, i) = choose|id: u8, i: int|
            film_has_track(roster, indices, sites, id) && 0 <= i < player_lives(lives, id, lives.len() as int).len()
                && #[trigger] life_conflict(player_lives(lives, id, lives.len() as int), i, summary, id);
        assert(track_ids(players).contains(id));
        let q = choose|q: int| 0 <= q < track_ids(players).len() && track_ids(players)[q] == id;
        assert(track_ids(players)[q] == players[q].id);
        assert(life_conflict(player_lives(lives, players[q].id, lives.len() as int), i, summary, players[q].id));
    }
}

/// What decoding a film gives: an unsupported version, a framing error, a registry
/// error, a missing time origin, or, for the roster the chunks record, the outcome of
/// `film_outcome`, with the film's framing, timing, registry, packets, frame count and
/// summary events.
pub open spec fn film_decoded(chunks: Seq<FilmChunkData>, options: DecodeOptions, r: Result<Film, DecodeError>) -> bool {
    &&& options.major_version != 41 ==> (r matches Err(e) && e == DecodeError::UnsupportedVersion(options.major_version))
    &&& options.major_version == 41 ==> match index_spec(chunks) {
        Err(e) => r matches Err(x) && x == e,
        Ok(packets) => if registry_fails(chunks) {
            r matches Err(x) && registry_ok(chunks, Err(x))
        } else if origin_from(packets, 0) is None {
            r matches Err(x) && x == DecodeError::Missing("nonzero packet timestamp")
        } else {
            (exists|roster: Seq<FilmPlayer>| #[trigger] players_view(roster) == player_table(all_roster_entries(by_index(chunks)))
                && film_outcome(
                chunks,
                packets,
                origin_from(packets, 0)->0,
                duration_spec(options.duration_us, packets, origin_from(packets, 0)->0),
                roster,
                r,
            )) && (r matches Err(e) ==> e is Inconsistent) && (r matches Ok(f) ==> {
                &&& f.schema_version == 1 && f.major_version == 41 && f.match_id == options.match_id
                &&& origin_from(packets, 0) == Some(f.origin_timestamp_us)
                &&& f.duration_us == duration_spec(options.duration_us, packets, f.origin_timestamp_us)
                &&& registry_matches(f.registry, chunks[lowest_of_type(chunks, 1)->0].data@)
                &&& f.packets@ == (if options.retain_coverage { packets } else { Seq::empty() })
                &&& tracks_ordered(f.players@)
                &&& f.diagnostics.frames == replication_frames(packets, f.origin_timestamp_us, packets.len() as int)
                &&& forall|k: int| 0 <= k < f.projectiles@.len() ==> (#[trigger] f.projectiles@[k]).positions@.len() >= 3
                &&& forall|q: int| 0 <= q < f.players@.len() ==> own_lives(#[trigger] f.players@[q])
                &&& footer_summary(chunks, f.summary_events@)
            })
        },
    }
}

/// The same chunks with distinct manifest indices, listed in another order.
pub open spec fn reordered(a: Seq<FilmChunkData>, b: Seq<FilmChunkData>) -> bool {
    same_chunks(a, b) && distinct_indices(a) && distinct_indices(b)
}

proof fn lemma_chunk_with_index(chunks: Seq<FilmChunkData>, index: i32, k: int)
    requires
        0 <= k,
    ensures
        chunk_with_index(chunks, index, k) matches Some(i) ==> k <= i < chunks.len() && chunks[i].metadata.index == index,
        chunk_with_index(chunks, index, k) is None ==> forall|j: int| k <= j < chunks.len() ==> (#[trigger] chunks[j]).metadata.index != index,
    decreases chunks.len() - k,
{
    if k < chunks.len() {
        lemma_chunk_with_index(chunks, index, k + 1);
    }
}

/// A packet's payload is found by its chunk's manifest index, whatever the chunks' order.
pub proof fn lemma_payload_ignores_order(a: Seq<FilmChunkData>, b: Seq<FilmChunkData>, pk: FilmPacket)
    requires
        reordered(a, b),
    ensures
        payload_spec(a, pk) == payload_spec(b, pk),
{
    let idx = pk.chunk_index;
    lemma_chunk_with_index(a, idx, 0);
    lemma_chunk_with_index(b, idx, 0);
    match chunk_with_index(a, idx, 0) {
        Some(i) => {
            assert(a.contains(a[i]));
            assert(b.contains(a[i]));
            let j0 = choose|j: int| 0 <= j < b.len() && b[j] == a[i];
            assert(b[j0].metadata.index == idx);
            let j = chunk_with_index(b, idx, 0)->0;
            assert(b.contains(b[j]));
            assert(a.contains(b[j]));
            let i2 = choose|i2: int| 0 <= i2 < a.len() && a[i2] == b[j];
            if i2 < i {
                assert(a[i2].metadata.index != a[i].metadata.index);
            } else if i2 > i {
                assert(a[i].metadata.index != a[i2].metadata.index);
            }
            assert(a[i] == b[j]);
        },
        None => {
            if chunk_with_index(b, idx, 0) is Some {
                let j = chunk_with_index(b, idx, 0)->0;
                assert(b.contains(b[j]));
                assert(a.contains(b[j]));
                let i2 = choose|i2: int| 0 <= i2 < a.len() && a[i2] == b[j];
                assert(a[i2].metadata.index == idx);
            }
        },
    }
}

/// The bootstrap chunk, the one of lowest manifest index, is the same whatever the order.
pub proof fn lemma_lowest_ignores_order(a: Seq<FilmChunkData>, b: Seq<FilmChunkData>, t: i32)
    requires
        reordered(a, b),
    ensures
        lowest_of_type(a, t) is Some <==> lowest_of_type(b, t) is Some,
        lowest_of_type(a, t) is Some ==> a[lowest_of_type(a, t)->0] == b[lowest_of_type(b, t)->0],
{
    lemma_lowest_of_type(a, t);
    lemma_lowest_of_type(b, t);
    if lowest_of_type(a, t) is Some {
        let i = lowest_of_type(a, t)->0;
        assert(a.contains(a[i]) && b.contains(a[i]));
        let j0 = choose|j: int| 0 <= j < b.len() && b[j] == a[i];
        assert(b[j0].metadata.chunk_type == t);
        let j = lowest_of_type(b, t)->0;
        assert(b[j].metadata.index <= b[j0].metadata.index);
        assert(b.contains(b[j]) && a.contains(b[j]));
        let i2 = choose|i2: int| 0 <= i2 < a.len() && a[i2] == b[j];
        assert(a[i].metadata.index <= a[i2].metadata.index);
        if i2 < i {
            assert(a[i2].metadata.index != a[i].metadata.index);
        } else if i2 > i {
            assert(a[i].metadata.index != a[i2].metadata.index);
        }
    } else if lowest_of_type(b, t) is Some {
        let j = lowest_of_type(b, t)->0;
        assert(b.contains(b[j]) && a.contains(b[j]));
        let i2 = choose|i2: int| 0 <= i2 < a.len() && a[i2] == b[j];
    }
}

proof fn lemma_spawn_sites_same(a: Seq<FilmChunkData>, b: Seq<FilmChunkData>, packets: Seq<FilmPacket>, origin: u64, n: int)
    requires
        reordered(a, b),
    ensures
        spawn_sites(a, packets, origin, n) == spawn_sites(b, packets, origin, n),
    decreases n,
{
    reveal(spawn_sites);
    if n > 0 && n <= packets.len() {
        lemma_spawn_sites_same(a, b, packets, origin, n - 1);
        lemma_payload_ignores_order(a, b, packets[n - 1]);
    }
}

proof fn lemma_clock_transitions_same(a: Seq<FilmChunkData>, b: Seq<FilmChunkData>, packets: Seq<FilmPacket>, origin: u64, n: int)
    requires
        reordered(a, b),
    ensures
        clock_transitions(a, packets, origin, n) == clock_transitions(b, packets, origin, n),
    decreases n,
{
    reveal(clock_transitions);
    if n > 0 && n <= packets.len() {
        lemma_clock_transitions_same(a, b, packets, origin, n - 1);
        lemma_payload_ignores_order(a, b, packets[n - 1]);
    }
}

proof fn lemma_pass_obs_same(a: Seq<FilmChunkData>, b: Seq<FilmChunkData>, packets: Seq<FilmPacket>, origin: u64, lives: Seq<Life>, players: Seq<PlayerTrack>, n: int)
    requires
        reordered(a, b),
    ensures
        pass_obs(a, packets, origin, lives, players, n) == pass_obs(b, packets, origin, lives, players, n),
    decreases n,
{
    reveal(pass_obs);
    if n > 0 && n <= packets.len() {
        lemma_pass_obs_same(a, b, packets, origin, lives, players, n - 1);
        lemma_payload_ignores_order(a, b, packets[n - 1]);
    }
}

proof fn lemma_pass_out_same(a: Seq<FilmChunkData>, b: Seq<FilmChunkData>, packets: Seq<FilmPacket>, origin: u64, lives: Seq<Life>, layout: Option<CoordinateLayout>, n: int)
    requires
        reordered(a, b),
    ensures
        pass_out(a, packets, origin, lives, layout, n) == pass_out(b, packets, origin, lives, layout, n),
    decreases n,
{
    reveal(pass_out);
    if n > 0 && n <= packets.len() {
        lemma_pass_out_same(a, b, packets, origin, lives, layout, n - 1);
        lemma_payload_ignores_order(a, b, packets[n - 1]);
    }
}

proof fn lemma_film_observed_same(
    a: Seq<FilmChunkData>,
    b: Seq<FilmChunkData>,
    packets: Seq<FilmPacket>,
    origin: u64,
    lives: Seq<Life>,
    bound: Seq<PlayerTrack>,
    blives: Seq<Life>,
    f: Film,
)
    requires
        reordered(a, b),
    ensures
        film_observed(a, packets, origin, lives, bound, blives, f) == film_observed(b, packets, origin, lives, bound, blives, f),
{
    lemma_pass_obs_same(a, b, packets, origin, blives, bound, packets.len() as int);
    lemma_pass_out_same(a, b, packets, origin, blives, projectile_layout_spec(blives, f.registry), packets.len() as int);
}

proof fn lemma_film_bound_same(
    a: Seq<FilmChunkData>,
    b: Seq<FilmChunkData>,
    packets: Seq<FilmPacket>,
    origin: u64,
    duration: u64,
    roster: Seq<FilmPlayer>,
    lives: Seq<Life>,
    summary: Seq<SummaryEvent>,
    r: Result<Film, DecodeError>,
)
    requires
        reordered(a, b),
    ensures
        film_bound(a, packets, origin, duration, roster, lives, summary, r) == film_bound(b, packets, origin, duration, roster, lives, summary, r),
{
    lemma_by_index_ignores_order(a, b);
    lemma_spawn_sites_same(a, b, packets, origin, packets.len() as int);
    lemma_clock_transitions_same(a, b, packets, origin, packets.len() as int);
    if let Ok(f) = r {
        assert forall|bound: Seq<PlayerTrack>, blives: Seq<Life>| #[trigger] film_observed(a, packets, origin, lives, bound, blives, f)
            == film_observed(b, packets, origin, lives, bound, blives, f) by {
            lemma_film_observed_same(a, b, packets, origin, lives, bound, blives, f);
        }
        if exists|bound: Seq<PlayerTrack>, blives: Seq<Life>| #[trigger] film_observed(a, packets, origin, lives, bound, blives, f) {
            let (bound, blives) = choose|bound: Seq<PlayerTrack>, blives: Seq<Life>| #[trigger] film_observed(a, packets, origin, lives, bound, blives, f);
            assert(film_observed(b, packets, origin, lives, bound, blives, f));
        }
        if exists|bound: Seq<PlayerTrack>, blives: Seq<Life>| #[trigger] film_observed(b, packets, origin, lives, bound, blives, f) {
            let (bound, blives) = choose|bound: Seq<PlayerTrack>, blives: Seq<Life>| #[trigger] film_observed(b, packets, origin, lives, bound, blives, f);
            assert(film_observed(a, packets, origin, lives, bound, blives, f));
        }
    }
}

proof fn lemma_film_outcome_same(
    a: Seq<FilmChunkData>,
    b: Seq<FilmChunkData>,
    packets: Seq<FilmPacket>,
    origin: u64,
    duration: u64,
    roster: Seq<FilmPlayer>,
    r: Result<Film, DecodeError>,
)
    requires
        reordered(a, b),
    ensures
        film_outcome(a, packets, origin, duration, roster, r) == film_outcome(b, packets, origin, duration, roster, r),
{
    lemma_by_index_ignores_order(a, b);
    lemma_spawn_sites_same(a, b, packets, origin, packets.len() as int);
    let sites = spawn_sites(a, packets, origin, packets.len() as int);
    assert forall|lives: Seq<Life>, summary: Seq<SummaryEvent>| #[trigger] film_bound(a, packets, origin, duration, roster, lives, summary, r)
        == film_bound(b, packets, origin, duration, roster, lives, summary, r) by {
        lemma_film_bound_same(a, b, packets, origin, duration, roster, lives, summary, r);
    }
    assert forall|summary: Seq<SummaryEvent>| #[trigger] footer_summary(a, summary) == footer_summary(b, summary) by {
    }
    if exists|lives: Seq<Life>, summary: Seq<SummaryEvent>|
        #![trigger site_lives(sites, duration, lives), footer_summary(a, summary)]
        site_lives(sites, duration, lives) && footer_summary(a, summary) && film_bound(a, packets, origin, duration, roster, lives, summary, r) {
        let (lives, summary) = choose|lives: Seq<Life>, summary: Seq<SummaryEvent>|
            #![trigger site_lives(sites, duration, lives), footer_summary(a, summary)]
            site_lives(sites, duration, lives) && footer_summary(a, summary) && film_bound(a, packets, origin, duration, roster, lives, summary, r);
        assert(footer_summary(b, summary) && film_bound(b, packets, origin, duration, roster, lives, summary, r));
    }
    if exists|lives: Seq<Life>, summary: Seq<SummaryEvent>|
        #![trigger site_lives(sites, duration, lives), footer_summary(b, summary)]
        site_lives(sites, duration, lives) && footer_summary(b, summary) && film_bound(b, packets, origin, duration, roster, lives, summary, r) {
        let (lives, summary) = choose|lives: Seq<Life>, summary: Seq<SummaryEvent>|
            #![trigger site_lives(sites, duration, lives), footer_summary(b, summary)]
            site_lives(sites, duration, lives) && footer_summary(b, summary) && film_bound(b, packets, origin, duration, roster, lives, summary, r);
        assert(footer_summary(a, summary) && film_bound(a, packets, origin, duration, roster, lives, summary, r));
    }
}

/// Chunk order is irrelevant: listing the same chunks, with distinct manifest indices,
/// in another order gives the same decoding outcome, for every result.
pub proof fn lemma_film_ignores_chunk_order(a: Seq<FilmChunkData>, b: Seq<FilmChunkData>, options: DecodeOptions, r: Result<Film, DecodeError>)
    requires
        reordered(a, b),
    ensures
        film_decoded(a, options, r) == film_decoded(b, options, r),
{
    lemma_index_ignores_order(a, b);
    lemma_lowest_ignores_order(a, b, 1);
    lemma_by_index_ignores_order(a, b);
    assert(registry_fails(a) == registry_fails(b));
    assert forall|x: Result<FilmRegistry, DecodeError>| #[trigger] registry_ok(a, x) == registry_ok(b, x) by {}
    if let Ok(packets) = index_spec(a) {
        if origin_from(packets, 0) is Some {
            let origin = origin_from(packets, 0)->0;
            let duration = duration_spec(options.duration_us, packets, origin);
            assert forall|roster: Seq<FilmPlayer>| #[trigger] film_outcome(a, packets, origin, duration, roster, r)
                == film_outcome(b, packets, origin, duration, roster, r) by {
                lemma_film_outcome_same(a, b, packets, origin, duration, roster, r);
            }
            assert forall|summary: Seq<SummaryEvent>| #[trigger] footer_summary(a, summary) == footer_summary(b, summary) by {
            }
        }
    }
}

impl Film {
    /// Decodes the supported version-41 observations from decompressed chunks.
    ///
    /// Framing, version and registry errors are returned; unsupported record forms stay
    /// unparsed. Sample times are integer microseconds after the earliest non-zero
    /// packet timestamp.
    #[verifier::spinoff_prover]
    #[verifier::rlimit(60)]
    pub fn try_from_chunks(chunks: &[FilmChunkData], options: DecodeOptions) -> (r: Result<Film, DecodeError>)
        requires
            film_addressable(chunks@),
        ensures
            film_decoded(chunks@, options, r),
    {
        if options.major_version != 41 {
            return Err(DecodeError::UnsupportedVersion(options.major_version));
        }
        let packets = index(chunks)?;
        let registry = registry(chunks)?;
        let origin = match origin(&packets) {
            Some(o) => o,
            None => return Err(DecodeError::Missing("nonzero packet timestamp")),
        };
        proof {
            lemma_origin_positive(packets@, 0);
        }
        let duration = duration(options.duration_us, &packets, origin);
        proof {
            assert forall|i: int| 0 <= i < chunks@.len() implies #[trigger] chunks@[i].data@.len() * 8 + 64 <= usize::MAX by {
                assert(chunks@[i].data@.len() * 8 + 16384 <= usize::MAX);
            }
        }
        let roster = decode_players(chunks);
        let indices = decode_player_indices(chunks, roster.as_slice());
        let ghost rv = roster@;
        let ghost sites = spawn_sites(chunks@, packets@, origin, packets@.len() as int);
        let mut players = match roster_tracks(&roster, &indices) {
            Ok(v) => v,
            Err(e) => {
                proof {
                    assert(film_outcome(chunks@, packets@, origin, duration, rv, Err(e)));
                }
                return Err(e);
            },
        };
        let ghost start0 = players@;
        let found = decode_events(chunks, roster.as_slice());
        let ghost found_view = found@;
        let summary_events = summary_events_of(found, &indices);
        proof {
            assert(footer_summary(chunks@, summary_events@));
        }
        let retain = options.retain_coverage;
        let mut diagnostics = DecodeDiagnostics {
            frames: 0,
            rejected: BTreeMap::new(),
            checked_regions: Vec::new(),
            limitations: Vec::new(),
        };
        appearance_pass(chunks, &packets, origin, &indices, &mut players, &mut diagnostics, retain);
        let ghost p_app = players@;
        proof {
            let asites = appearance_sites(chunks@, packets@, origin, indices@, start0, packets@.len() as int);
            let xs = choose|xs: Seq<AppearanceSample>| #[trigger] samples_fit(xs, asites) && all_streams(p_app) == add_all(
                all_streams(start0),
                site_obs(xs, asites),
            ).map_values(|v: TrackStreams| tidy_streams(v));
            lemma_appearance_quiet(start0, p_app, xs, asites);
            lemma_add_all_appearance(all_streams(start0), site_obs(xs, asites));
            assert forall|q: int| 0 <= q < p_app.len() implies film_head(rv, indices@, #[trigger] p_app[q]) by {
                let mid = add_all(all_streams(start0), site_obs(xs, asites));
                assert(all_streams(p_app)[q] == streams(p_app[q]));
                assert(all_streams(start0)[q] == streams(start0[q]));
                assert(all_streams(p_app)[q] == tidy_streams(mid[q]));
                assert(track_head(p_app[q]) == track_head(start0[q]));
                assert(track_heads(start0)[q] == track_head(start0[q]));
                assert(roster_heads(rv, indices@, rv.len() as int).contains(track_head(start0[q])));
                assert(track_ids(start0)[q] == start0[q].id);
                assert(track_ids(start0).contains(start0[q].id));
            }
        }
        let (mut lives, transitions) = match spawn_pass(chunks, &packets, origin, duration, &mut players, &mut diagnostics, retain) {
            Ok(x) => x,
            Err(e) => {
                proof {
                    assert(film_outcome(chunks@, packets@, origin, duration, rv, Err(e)));
                }
                return Err(e);
            },
        };
        let ghost p_spawn = players@;
        let ghost l_spawn = lives@;
        proof {
            assert forall|id: u8| #[trigger] track_ids(p_spawn).contains(id) <==> film_has_track(rv, indices@, sites, id) by {
                assert(track_ids(p_app).contains(id) <==> track_ids(start0).contains(id));
            }
            lemma_bind_fails_ids(p_spawn, rv, indices@, sites, l_spawn, summary_events@);
        }
        match bind_lives(&mut players, &mut lives, &summary_events, &transitions, duration) {
            Ok(()) => {},
            Err(e) => {
                proof {
                    let (q, i) = choose|q: int, i: int|
                        0 <= q < p_spawn.len() && 0 <= i < player_lives(l_spawn, p_spawn[q].id, l_spawn.len() as int).len()
                            && #[trigger] life_conflict(player_lives(l_spawn, p_spawn[q].id, l_spawn.len() as int), i, summary_events@, p_spawn[q].id)
                            && e->Inconsistent_0@ == "multiple deaths for life "@ + decimal(
                            player_lives(l_spawn, p_spawn[q].id, l_spawn.len() as int)[i].id as nat,
                        );
                    lemma_track_id_at(p_spawn, q);
                    assert(film_has_track(rv, indices@, sites, p_spawn[q].id));
                    assert(film_bound(chunks@, packets@, origin, duration, rv, l_spawn, summary_events@, Err(e)));
                    assert(film_outcome(chunks@, packets@, origin, duration, rv, Err(e)));
                }
                return Err(e);
            },
        }
        let ghost p_bound = players@;
        let ghost l_bound = lives@;
        proof {
            assert forall|q: int| 0 <= q < p_spawn.len() implies film_head(rv, indices@, #[trigger] p_spawn[q]) by {
                if p_app.contains(p_spawn[q]) {
                    let m = choose|m: int| 0 <= m < p_app.len() && p_app[m] == p_spawn[q];
                } else if exists|i: int| 0 <= i < rv.len() && #[trigger] roster_index(rv, indices@, i) == Some(p_spawn[q].id) {
                    let id = p_spawn[q].id;
                    assert(track_ids(start0).contains(id));
                    assert(track_ids(p_app).contains(id));
                    let m = choose|m: int| 0 <= m < track_ids(p_app).len() && track_ids(p_app)[m] == id;
                    assert(track_ids(p_app)[m] == p_app[m].id);
                    assert(p_spawn.contains(p_app[m]));
                    let r = choose|r: int| 0 <= r < p_spawn.len() && p_spawn[r] == p_app[m];
                    if r < q {
                        assert(p_spawn[r].id < p_spawn[q].id);
                    } else if r > q {
                        assert(p_spawn[q].id < p_spawn[r].id);
                    }
                }
            }
            assert forall|q: int| 0 <= q < p_bound.len() implies film_head(rv, indices@, #[trigger] p_bound[q]) by {
                assert(p_bound[q].id == p_spawn[q].id && p_bound[q].xuid == p_spawn[q].xuid && p_bound[q].name == p_spawn[q].name);
                assert(track_head(p_bound[q]) == track_head(p_spawn[q]));
            }
        }
        proof {
            assert forall|q: int| 0 <= q < p_spawn.len() implies observations_empty(#[trigger] p_spawn[q]) && p_spawn[q].positions@.len() == 0 by {
                if p_app.contains(p_spawn[q]) {
                    let m = choose|m: int| 0 <= m < p_app.len() && p_app[m] == p_spawn[q];
                }
            }
            assert forall|q: int| 0 <= q < p_bound.len() implies (#[trigger] p_bound[q]).positions@ == spawn_positions(p_bound[q].lives@)
                && observations_empty(p_bound[q]) by {
                assert(p_spawn[q].positions@.len() == 0);
                assert(p_spawn[q].positions@ + spawn_positions(p_bound[q].lives@) =~= spawn_positions(p_bound[q].lives@));
            }
        }
        proof {
            assert(diagnostics.limitations@ =~= Seq::<String>::empty());
        }
        if lives.len() == 0 {
            diagnostics.limitations.push(owned("No supported spawn bindings; player observations remain unavailable."));
        }
        let ghost lim0 = diagnostics.limitations@;
        let layout = projectile_layout(&lives, &registry);
        let ghost ordered = players@;
        let (clocks, candidates) = observation_pass(chunks, &packets, origin, &lives, layout, &mut players, &mut diagnostics, retain)?;
        let ghost observed = add_all(all_streams(p_bound), pass_obs(chunks@, packets@, origin, l_bound, p_bound, packets@.len() as int));
        proof {
            lemma_ordered_ids(ordered, players@);
            assert(ordered.len() == track_ids(ordered).len());
            assert forall|q: int| 0 <= q < players@.len() implies own_lives(#[trigger] players@[q]) by {
                assert(track_ids(players@)[q] == track_ids(ordered)[q]);
                assert(players@[q].lives == ordered[q].lives);
                assert(own_lives(ordered[q]));
            }
        }
        let ghost lim = diagnostics.limitations@;
        let mut finished: Vec<PlayerTrack> = Vec::new();
        let ghost all = players@;
        let mut rest = players;
        let ghost mut i: int = 0;
        proof {
            assert(rest@ =~= all.subrange(0, all.len() as int));
            assert(track_ids(finished@) =~= track_ids(all.subrange(0, 0)));
        }
        while rest.len() > 0
            invariant
                0 <= i <= all.len(),
                rest@ == all.subrange(i, all.len() as int),
                finished@.len() == i,
                diagnostics.frames == replication_frames(packets@, origin, packets@.len() as int),
                forall|q: int| 0 <= q < all.len() ==> own_lives(#[trigger] all[q]),
                forall|q: int| 0 <= q < i ==> own_lives(#[trigger] finished@[q]),
                forall|q: int| 0 <= q < i ==> (#[trigger] finished@[q]).lives == all[q].lives,
                diagnostics.limitations@ == lim,
                forall|q: int| 0 <= q < i ==> streams_finished(streams(all[q]), #[trigger] finished@[q]),
                forall|q: int| 0 <= q < i ==> (#[trigger] finished@[q]).xuid == all[q].xuid && finished@[q].name == all[q].name,
                track_ids(finished@) == track_ids(all.subrange(0, i)),
            decreases rest@.len(),
        {
            let t = rest.remove(0);
            proof {
                assert(t == all[i]);
                assert(rest@ =~= all.subrange(i + 1, all.len() as int));
            }
            let ghost prev = finished@;
            let ghost tid = t.id;
            assert(own_lives(t));
            finished.push(finish_track(t, &mut diagnostics));
            proof {
                assert forall|q: int| 0 <= q < i + 1 implies own_lives(#[trigger] finished@[q]) && finished@[q].lives == all[q].lives
                    && streams_finished(streams(all[q]), finished@[q]) && finished@[q].xuid == all[q].xuid && finished@[q].name == all[q].name by {
                    if q < i {
                        assert(finished@[q] == prev[q]);
                    }
                }
                let a = track_ids(finished@);
                let b = track_ids(all.subrange(0, i + 1));
                let c = track_ids(all.subrange(0, i));
                assert(a.len() == b.len());
                assert forall|j: int| 0 <= j < a.len() implies a[j] == b[j] by {
                    if j < i {
                        assert(finished@[j] == prev[j]);
                        assert(track_ids(prev)[j] == c[j]);
                        assert(all.subrange(0, i + 1)[j] == all.subrange(0, i)[j]);
                    } else {
                        assert(finished@[j].id == tid);
                        assert(all.subrange(0, i + 1)[j] == all[i]);
                    }
                }
                assert(a =~= b);
                i = i + 1;
            }
        }
        proof {
            assert(all.subrange(0, i) =~= all);
            lemma_ordered_ids(all, finished@);
        }
        let players = finished;
        let has_candidates = candidates.births.len() > 0 || candidates.records.len() > 0;
        let ghost births = sort_samples(candidates.births@);
        let ghost records = sort_samples(candidates.records@);
        let ghost terminals = candidates.terminals@;
        let projectiles = candidates.finish(players.as_slice());
        proof {
            lemma_sort_samples_len(candidates.births@);
            lemma_tracks_start_at_birth(births, records, players@, terminals, births.len() as int);
            assert forall|k: int| 0 <= k < projectiles@.len() implies (#[trigger] projectiles@[k]).positions@.len() >= 3 by {
                assert(track_views(projectiles@)[k] == track_view(projectiles@[k]));
            }
        }
        if has_candidates && projectiles.len() == 0 {
            reject(&mut diagnostics, "projectile candidates outside spawn/identity/continuity guards");
        }
        projectile_coverage(&projectiles, &mut diagnostics, retain);
        diagnostics.limitations.push(owned("Partial signature-guarded v41 grammar; unsupported records/components remain unparsed. Checked ranges can include opaque bits."));
        diagnostics.limitations.push(owned("Raw positions require independently supplied map bounds for world coordinates. Velocity is in world units/s; aim and vitality display scales remain provisional."));
        diagnostics.limitations.push(owned("No inferred initial aim, health, ammo or scope. Input axes/crouch commands support the checked wire-0 chain and terminal roster-0/1 records in one/two-player films. Other command forms, larger rosters, physical crouch and slide remain unsupported."));
        diagnostics.limitations.push(owned("Firing is activity, not an exact bullet count; reload cause/duration, reserves and full inventory are unknown."));
        diagnostics.limitations.push(owned("Projectile paths require checked spawns, thrower references and continuous supported updates. Grenade type and explosion locations remain unknown; track ends are observation boundaries."));
        let film = Film {
            schema_version: 1,
            major_version: 41,
            match_id: options.match_id,
            duration_us: duration,
            origin_timestamp_us: origin,
            registry,
            packets: if retain { packets } else { Vec::new() },
            players,
            summary_events,
            clocks,
            projectiles,
            diagnostics,
        };
        proof {
            let fp = film.players@;
            assert(track_ids(fp) == track_ids(p_bound));
            assert forall|id: u8| #[trigger] track_ids(fp).contains(id) <==> film_has_track(rv, indices@, sites, id) by {
                assert(track_ids(p_bound) =~= track_ids(p_spawn));
            }
            assert forall|q: int| 0 <= q < fp.len() implies (#[trigger] fp[q]).lives@ == bound_lives(
                player_lives(l_spawn, fp[q].id, l_spawn.len() as int),
                summary_events@,
                transitions@,
                duration,
                fp[q].id,
            ) by {
                assert(fp[q].lives == all[q].lives);
                assert(all[q].lives == p_bound[q].lives);
                assert(track_ids(fp)[q] == fp[q].id);
                assert(track_ids(p_bound)[q] == p_bound[q].id);
                assert(p_bound[q].id == p_spawn[q].id);
            }
            assert(all.len() == observed.len());
            assert forall|q: int| 0 <= q < fp.len() implies streams_finished(observed[q], #[trigger] fp[q]) by {
                assert(all_streams(all)[q] == streams(all[q]));
            }
            assert forall|q: int| 0 <= q < p_bound.len() implies {
                &&& (#[trigger] p_bound[q]).id == fp[q].id && p_bound[q].lives == fp[q].lives
                &&& p_bound[q].positions@ == spawn_positions(p_bound[q].lives@) && observations_empty(p_bound[q])
            } by {
                assert(fp[q].lives == all[q].lives);
                assert(all[q].lives == p_bound[q].lives);
                assert(track_ids(fp)[q] == fp[q].id);
                assert(track_ids(p_bound)[q] == p_bound[q].id);
            }
            assert(film.clocks@ == pass_out(chunks@, packets@, origin, l_bound, layout, packets@.len() as int).0);
            assert(film_observed(chunks@, packets@, origin, l_spawn, p_bound, l_bound, film));
            assert(texts(film.diagnostics.limitations@) =~= film_limitations(l_spawn.len() == 0));
            lemma_add_all_heads(all_streams(p_bound), pass_obs(chunks@, packets@, origin, l_bound, p_bound, packets@.len() as int));
            assert forall|q: int| 0 <= q < fp.len() implies film_head(rv, indices@, #[trigger] fp[q]) by {
                assert(all_streams(all)[q] == streams(all[q]));
                assert(all_streams(p_bound)[q] == streams(p_bound[q]));
                assert(fp[q].xuid == all[q].xuid && fp[q].name == all[q].name);
                assert(track_ids(fp)[q] == fp[q].id);
                assert(track_ids(p_bound)[q] == p_bound[q].id);
                assert(track_head(fp[q]) == track_head(p_bound[q]));
                assert(film_head(rv, indices@, p_bound[q]));
            }
            assert(film_bound(chunks@, packets@, origin, duration, rv, l_spawn, summary_events@, Ok(film)));
            assert(film_outcome(chunks@, packets@, origin, duration, rv, Ok(film)));
        }
        Ok(film)
    }
}

proof fn lemma_origin_positive(packets: Seq<FilmPacket>, k: int)
    ensures
        origin_from(packets, k) matches Some(o) ==> o > 0,
    decreases packets.len() - k,
{
    if 0 <= k < packets.len() {
        lemma_origin_positive(packets, k + 1);
    }
}

/// The sources of checked regions.
pub open spec fn region_sources(s: Seq<CheckedRegion>) -> Seq<SourceSpan> {
    s.map_values(|c: CheckedRegion| c.source)
}

/// The checked sources of a projectile track: positions, velocities, then its terminal.
pub open spec fn track_sources(t: ProjectileTrack) -> Seq<SourceSpan> {
    t.positions@.map_values(|s: Sample<[u32; 3]>| s.source) + t.velocities@.map_values(|s: Sample<Velocity>| s.source)
        + match t.terminal {
        Some(x) => seq![x],
        None => seq![],
    }
}

/// The checked sources of the first `n` tracks.
pub open spec fn coverage_sources(ps: Seq<ProjectileTrack>, n: int) -> Seq<SourceSpan>
    decreases n,
{
    if n <= 0 || n > ps.len() {
        seq![]
    } else {
        coverage_sources(ps, n - 1) + track_sources(ps[n - 1])
    }
}

proof fn lemma_push_source(prev: Seq<CheckedRegion>, cur: Seq<CheckedRegion>, x: SourceSpan)
    requires
        cur.len() == prev.len() + 1,
        cur.drop_last() == prev,
        cur.last().source == x,
    ensures
        region_sources(cur) == region_sources(prev).push(x),
{
    assert forall|k: int| 0 <= k < prev.len() implies cur[k] == prev[k] by {
        assert(cur.drop_last()[k] == cur[k]);
    }
    assert(region_sources(cur) =~= region_sources(prev).push(x));
}

/// Checked regions of the accepted projectile tracks.
fn projectile_coverage(projectiles: &Vec<ProjectileTrack>, d: &mut DecodeDiagnostics, retain: bool)
    ensures
        final(d).limitations@ == old(d).limitations@,
        final(d).frames == old(d).frames,
        !retain ==> final(d).checked_regions@ == old(d).checked_regions@,
        retain ==> region_sources(final(d).checked_regions@) == region_sources(old(d).checked_regions@)
            + coverage_sources(projectiles@, projectiles@.len() as int),
{
    let ghost base = region_sources(d.checked_regions@);
    let mut k: usize = 0;
    while k < projectiles.len()
        invariant
            k <= projectiles@.len(),
            d.frames == old(d).frames,
            d.limitations@ == old(d).limitations@,
            !retain ==> d.checked_regions@ == old(d).checked_regions@,
            base == region_sources(old(d).checked_regions@),
            retain ==> region_sources(d.checked_regions@) == base + coverage_sources(projectiles@, k as int),
        decreases projectiles@.len() - k,
    {
        let t = &projectiles[k];
        let ghost start = region_sources(d.checked_regions@);
        let ghost ps = t.positions@.map_values(|s: Sample<[u32; 3]>| s.source);
        let ghost vs = t.velocities@.map_values(|s: Sample<Velocity>| s.source);
        let mut i: usize = 0;
        while i < t.positions.len()
            invariant
                i <= t.positions@.len(),
                d.frames == old(d).frames,
                d.limitations@ == old(d).limitations@,
                !retain ==> d.checked_regions@ == old(d).checked_regions@,
                ps == t.positions@.map_values(|s: Sample<[u32; 3]>| s.source),
                retain ==> region_sources(d.checked_regions@) == start + ps.subrange(0, i as int),
            decreases t.positions@.len() - i,
        {
            let ghost prev = d.checked_regions@;
            checked(d, retain, t.positions[i].source, "projectile position (spawn includes opaque fields)");
            proof {
                if retain {
                    lemma_push_source(prev, d.checked_regions@, t.positions@[i as int].source);
                    assert(start + ps.subrange(0, i + 1) =~= (start + ps.subrange(0, i as int)).push(ps[i as int]));
                }
            }
            i += 1;
        }
        let mut i: usize = 0;
        while i < t.velocities.len()
            invariant
                i <= t.velocities@.len(),
                d.frames == old(d).frames,
                d.limitations@ == old(d).limitations@,
                !retain ==> d.checked_regions@ == old(d).checked_regions@,
                ps == t.positions@.map_values(|s: Sample<[u32; 3]>| s.source),
                vs == t.velocities@.map_values(|s: Sample<Velocity>| s.source),
                retain ==> region_sources(d.checked_regions@) == start + ps + vs.subrange(0, i as int),
            decreases t.velocities@.len() - i,
        {
            let ghost prev = d.checked_regions@;
            checked(d, retain, t.velocities[i].source, "projectile velocity");
            proof {
                if retain {
                    lemma_push_source(prev, d.checked_regions@, t.velocities@[i as int].source);
                    assert(start + ps + vs.subrange(0, i + 1) =~= (start + ps + vs.subrange(0, i as int)).push(vs[i as int]));
                }
            }
            i += 1;
        }
        let ghost prev = d.checked_regions@;
        match t.terminal {
            Some(source) => {
                checked(d, retain, source, "controlled projectile terminal");
                proof {
                    if retain {
                        lemma_push_source(prev, d.checked_regions@, source);
                    }
                }
            },
            None => {},
        }
        proof {
            if retain {
                assert(ps.subrange(0, ps.len() as int) =~= ps);
                assert(vs.subrange(0, vs.len() as int) =~= vs);
                assert(region_sources(d.checked_regions@) =~= base + coverage_sources(projectiles@, k + 1));
            }
        }
        k += 1;
    }
}

} // verus!
