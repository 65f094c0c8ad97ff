//! Version-41 summary events, decoded using only the decompressed footer chunks.
//!
//! Every event's identity lies a fixed distance before its sixty-byte tail. This is a
//! guarded captured layout, not a general decoder for the intervening state.
use std::collections::BTreeMap;

use super::bits::{bit_len, bits_value, read_spec, window_spec, Bits};
use super::medals::{award_spec, award_view, MedalAward};
use super::types::{summary_kind_spec, DecodeError, SourceSpan, SummaryEvent, SummaryKind};
use crate::clients::hi::film::{byte_at, le_value, lemma_le_bound, read_le};
use crate::clients::hi::models::FilmChunkData;
use crate::text::{decimal, decode_utf16_units, is_control, string_from_chars, u64_to_string, utf16_strict, char_is_control};
use vstd::prelude::*;

verus! {

pub const IDENTITY_TO_TAIL_BITS: usize = 14926;

pub const TAIL_BITS: usize = 480;

pub const END_MARKER: u64 = 0x2ee0;

/// Decoded and expected kill, death and medal totals of one player.
#[derive(Debug, Clone, Copy, Default, PartialEq, Eq, Structural)]
pub struct FilmEventCounts {
    pub kills: usize,
    pub deaths: usize,
    pub medals: usize,
}

/// Counts declared by a summary packet, compared with accepted event records.
#[derive(Debug, Clone, Copy, PartialEq, Eq, Structural)]
pub struct SummaryPacketDiagnostics {
    pub chunk: i32,
    pub payload_byte: usize,
    pub declared_events: u32,
    pub decoded_events: usize,
}

/// Footer-only decode, independent of the bootstrap registry or motion decoder.
#[derive(Debug, Clone, Default, PartialEq, Eq)]
pub struct SummaryEventReport {
    pub events: Vec<SummaryEvent>,
    pub packets: Vec<SummaryPacketDiagnostics>,
    /// Unsupported packet types in footer chunks. Their payloads are not interpreted.
    pub unparsed_packet_types: BTreeMap<u16, usize>,
}

/// Every summary packet declared as many events as were found, and there is one.
pub open spec fn declared_counts_match(packets: Seq<SummaryPacketDiagnostics>) -> bool {
    packets.len() > 0 && forall|i: int|
        0 <= i < packets.len() ==> #[trigger] packets[i].decoded_events == packets[i].declared_events
}

impl SummaryEventReport {
    /// All declared summary events were found. A missing footer is not a complete empty match.
    pub fn matches_declared_counts(&self) -> (r: bool)
        ensures
            r == declared_counts_match(self.packets@),
    {
        if self.packets.len() == 0 {
            return false;
        }
        let mut i: usize = 0;
        while i < self.packets.len()
            invariant
                i <= self.packets@.len(),
                forall|k: int| 0 <= k < i ==> #[trigger] self.packets@[k].decoded_events
                    == self.packets@[k].declared_events,
            decreases self.packets@.len() - i,
        {
            let p = self.packets[i];
            if p.decoded_events as u64 != p.declared_events as u64 {
                return false;
            }
            i += 1;
        }
        true
    }
}

/// One medal identity compared with the independent stats API.
#[derive(Debug, Clone, Copy, PartialEq, Eq, Structural)]
pub struct MedalCountComparison {
    pub name_id: u32,
    pub decoded: usize,
    pub match_stats: usize,
}

/// Per-player totals and medal identities. Equal total medal counts alone are insufficient.
#[derive(Debug, Clone, PartialEq, Eq)]
pub struct SummaryPlayerValidation {
    pub xuid: String,
    pub name: Option<String>,
    pub decoded: FilmEventCounts,
    pub match_stats: FilmEventCounts,
    pub medals: Vec<MedalCountComparison>,
    pub unknown_medal_codes: Vec<u8>,
}

/// A player's totals agree, no medal code is unknown, and every medal count agrees.
pub open spec fn player_matches(p: SummaryPlayerValidation) -> bool {
    &&& p.decoded == p.match_stats
    &&& p.unknown_medal_codes@.len() == 0
    &&& forall|i: int| 0 <= i < p.medals@.len() ==> #[trigger] p.medals@[i].decoded == p.medals@[i].match_stats
}

impl SummaryPlayerValidation {
    pub fn matches_stats(&self) -> (r: bool)
        ensures
            r == player_matches(*self),
    {
        if self.decoded != self.match_stats || self.unknown_medal_codes.len() != 0 {
            return false;
        }
        let mut i: usize = 0;
        while i < self.medals.len()
            invariant
                i <= self.medals@.len(),
                forall|k: int| 0 <= k < i ==> #[trigger] self.medals@[k].decoded == self.medals@[k].match_stats,
            decreases self.medals@.len() - i,
        {
            if self.medals[i].decoded != self.medals[i].match_stats {
                return false;
            }
            i += 1;
        }
        true
    }
}

/// Independent count and medal-identity validation; mismatches remain inspectable.
#[derive(Debug, Clone, Default, PartialEq, Eq)]
pub struct SummaryEventValidation {
    pub declared_counts_match: bool,
    pub players: Vec<SummaryPlayerValidation>,
}

/// Stored highlights with their independent match-statistics comparison.
#[derive(Debug, Clone, PartialEq, Eq)]
pub struct ValidatedSummaryEventReport {
    pub summary: SummaryEventReport,
    pub validation: SummaryEventValidation,
}

impl SummaryEventValidation {
    /// Declared counts matched and every player matches.
    pub fn matches_stats(&self) -> (r: bool)
        ensures
            r == (self.declared_counts_match && forall|i: int|
                0 <= i < self.players@.len() ==> player_matches(#[trigger] self.players@[i])),
    {
        if !self.declared_counts_match {
            return false;
        }
        let mut i: usize = 0;
        while i < self.players.len()
            invariant
                i <= self.players@.len(),
                forall|k: int| 0 <= k < i ==> player_matches(#[trigger] self.players@[k]),
            decreases self.players@.len() - i,
        {
            if !self.players[i].matches_stats() {
                return false;
            }
            i += 1;
        }
        true
    }
}

/// A source span of `length` bits at `bit` of a packet payload.
pub open spec fn span(chunk: i32, payload_byte: usize, bit: int, length: int) -> SourceSpan {
    SourceSpan { chunk, payload_byte, bit: bit as usize, end_bit: (bit + length) as usize }
}

fn source(chunk: i32, payload_byte: usize, bit: usize, length: usize) -> (r: SourceSpan)
    requires
        bit + length <= usize::MAX,
    ensures
        r == span(chunk, payload_byte, bit as int, length as int),
{
    SourceSpan { chunk, payload_byte, bit, end_bit: bit + length }
}

/// Little-endian value of the `n` bytes read MSB first from bit `bit` on.
pub open spec fn le_bits(p: Seq<u8>, bit: int, n: nat) -> nat
    decreases n,
{
    if n == 0 {
        0
    } else {
        byte_at(p, bit) as nat + 256 * le_bits(p, bit + 8, (n - 1) as nat)
    }
}

pub proof fn lemma_le_bits_bound(p: Seq<u8>, bit: int, n: nat)
    ensures
        le_bits(p, bit, n) < vstd::arithmetic::power2::pow2(8 * n),
    decreases n,
{
    vstd::arithmetic::power2::lemma2_to64();
    if n > 0 {
        lemma_le_bits_bound(p, bit + 8, (n - 1) as nat);
        vstd::arithmetic::power2::lemma_pow2_adds(8, (8 * (n - 1)) as nat);
        assert(8 + 8 * (n - 1) == 8 * n);
    }
}

/// The sixteen little-endian name units of an event tail.
pub open spec fn name_units(p: Seq<u8>, tail: int) -> Seq<u16> {
    Seq::new(16, |i: int| le_bits(p, tail + 16 * i, 2) as u16)
}

/// Index of the first zero unit, or the length.
pub open spec fn zero_index(u: Seq<u16>, i: int) -> int
    decreases u.len() - i,
{
    if i >= u.len() {
        u.len() as int
    } else if u[i] == 0 {
        i
    } else {
        zero_index(u, i + 1)
    }
}

/// The name in a NUL-terminated unit field: strict UTF-16 before the first zero,
/// provided only zeros follow it.
pub open spec fn field_name(u: Seq<u16>) -> Option<Seq<char>> {
    if forall|i: int| zero_index(u, 0) <= i < u.len() ==> #[trigger] u[i] == 0 {
        utf16_strict(u.subrange(0, zero_index(u, 0)))
    } else {
        None
    }
}

/// A non-empty name without control characters.
pub open spec fn valid_name(n: Seq<char>) -> bool {
    n.len() > 0 && forall|i: int| 0 <= i < n.len() ==> !is_control(#[trigger] n[i])
}

/// The event record whose marker starts at bit `m` of a summary payload: identity,
/// name, time, type code, metadata, medal flag, identity bit and tail bit. The tail
/// starts a fixed distance after the eight-byte identity; the record is accepted when
/// the identity is not zero, the end marker follows the tail, both reserved three-byte
/// fields are zero, the medal flag is 0 or 1 and the name is valid.
pub open spec fn record_at(p: Seq<u8>, m: int) -> Option<(u64, Seq<char>, u64, u8, u8, u8, int, int)> {
    if m < 64 || m - 64 + 64 > bit_len(p) || le_bits(p, m - 64, 8) == 0 {
        None
    } else if read_spec(p, m - 64 + 14926 + 480, 32) != Some(0x2ee0u64) {
        None
    } else if read_spec(p, m - 64 + 14926 + 416, 24) != Some(0u64) || read_spec(
        p,
        m - 64 + 14926 + 448,
        24,
    ) != Some(0u64) {
        None
    } else if bits_value(p, m - 64 + 14926 + 440, 8) > 1 {
        None
    } else {
        match tail_name(p, m - 64 + 14926) {
            Some(name) => {
                Some(
                    (
                        le_bits(p, m - 64, 8) as u64,
                        name,
                        (bits_value(p, m - 64 + 14926 + 384, 32) * 1000) as u64,
                        bits_value(p, m - 64 + 14926 + 376, 8) as u8,
                        bits_value(p, m - 64 + 14926 + 472, 8) as u8,
                        bits_value(p, m - 64 + 14926 + 440, 8) as u8,
                        m - 64,
                        m - 64 + 14926,
                    ),
                )
            },
            None => None,
        }
    }
}

pub type AwardView = (u8, Option<Seq<char>>, Option<u32>);

/// An event's fields, texts and medal award by their views.
pub type SummaryView = (
    Seq<char>,
    Option<u8>,
    Seq<char>,
    u64,
    SummaryKind,
    u8,
    u8,
    Option<u8>,
    Option<AwardView>,
    Option<SourceSpan>,
    Option<SourceSpan>,
);

pub open spec fn summary_view(e: SummaryEvent) -> SummaryView {
    (
        e.xuid@,
        e.player,
        e.name@,
        e.time_us,
        e.kind,
        e.metadata,
        e.medal_flag,
        e.type_code,
        match e.medal {
            Some(a) => Some(award_view(a)),
            None => None,
        },
        e.source,
        e.identity_source,
    )
}

pub open spec fn summary_views(s: Seq<SummaryEvent>) -> Seq<SummaryView> {
    s.map_values(|e: SummaryEvent| summary_view(e))
}

/// The event a record describes, located in its chunk and payload.
pub open spec fn record_view(r: (u64, Seq<char>, u64, u8, u8, u8, int, int), chunk: i32, payload_byte: usize) -> SummaryView {
    (
        decimal(r.0 as nat),
        None,
        r.1,
        r.2,
        summary_kind_spec(r.3, r.5),
        r.4,
        r.5,
        Some(r.3),
        if r.5 == 1 {
            Some(award_spec(r.4))
        } else {
            None
        },
        Some(span(chunk, payload_byte, r.7, 480)),
        Some(span(chunk, payload_byte, r.6, 64)),
    )
}

/// Reads `n` little-endian bytes at bit `bit`.
pub fn read_le_bits(bits: Bits, bit: usize, n: usize) -> (v: u64)
    requires
        n <= 8,
        bit + 8 * n <= bit_len(bits@),
        bits@.len() * 8 + 64 <= usize::MAX,
    ensures
        v as nat == le_bits(bits@, bit as int, n as nat),
{
    let mut value: u64 = 0;
    let mut k: usize = n;
    proof {
        vstd::arithmetic::power2::lemma2_to64();
        vstd::arithmetic::power2::lemma2_to64_rest();
    }
    while k > 0
        invariant
            k <= n <= 8,
            bit + 8 * n <= bit_len(bits@),
            bits@.len() * 8 + 64 <= usize::MAX,
            value as nat == le_bits(bits@, bit + 8 * k, (n - k) as nat),
            vstd::arithmetic::power2::pow2(56) == 0x100_0000_0000_0000,
        decreases k,
    {
        proof {
            lemma_le_bits_bound(bits@, bit + 8 * k, (n - k) as nat);
            if n - k < 7 {
                vstd::arithmetic::power2::lemma_pow2_strictly_increases((8 * (n - k)) as nat, 56);
            }
            crate::theater::bits::lemma_bits_bound(bits@, bit + 8 * (k - 1), 8);
            vstd::arithmetic::power2::lemma2_to64();
        }
        let b = match bits.read(bit + 8 * (k - 1), 8) {
            Some(b) => b,
            None => 0,
        };
        assert(b as nat == byte_at(bits@, bit + 8 * (k - 1)));
        value = b + 256 * value;
        k -= 1;
    }
    value
}

/// The valid name of an event tail's unit field.
pub open spec fn tail_name(p: Seq<u8>, tail: int) -> Option<Seq<char>> {
    match field_name(name_units(p, tail)) {
        Some(name) => if valid_name(name) {
            Some(name)
        } else {
            None
        },
        None => None,
    }
}

fn read_name(bits: Bits, tail: usize) -> (r: Option<Vec<char>>)
    requires
        bits@.len() * 8 + 64 <= usize::MAX,
        tail + 480 <= bit_len(bits@),
    ensures
        match tail_name(bits@, tail as int) {
            Some(n) => r matches Some(v) && v@ == n,
            None => r is None,
        },
{
    let ghost u = name_units(bits@, tail as int);
    let mut units: Vec<u16> = Vec::new();
    let mut terminated = false;
    let mut i: usize = 0;
    proof {
        lemma_zero_index_facts(u, 0);
        assert(units@ =~= u.subrange(0, 0));
    }
    while i < 16
        invariant
            i <= 16,
            bits@.len() * 8 + 64 <= usize::MAX,
            tail + 480 <= bit_len(bits@),
            u == name_units(bits@, tail as int),
            !terminated ==> units@ == u.subrange(0, i as int) && zero_index(u, 0) >= i,
            terminated ==> zero_index(u, 0) < i && units@ == u.subrange(0, zero_index(u, 0))
                && forall|k: int| zero_index(u, 0) <= k < i ==> #[trigger] u[k] == 0,
        decreases 16 - i,
    {
        proof {
            lemma_le_bits_bound(bits@, tail + 16 * i, 2);
            vstd::arithmetic::power2::lemma2_to64();
            lemma_zero_index_facts(u, 0);
        }
        let unit = read_le_bits(bits, tail + 16 * i, 2) as u16;
        assert(unit == u[i as int]);
        if unit == 0 {
            if !terminated {
                proof {
                    lemma_zero_index_at(u, i as int);
                }
            }
            terminated = true;
        } else if terminated {
            proof {
                assert(!(forall|k: int| zero_index(u, 0) <= k < u.len() ==> #[trigger] u[k] == 0)) by {
                    assert(u[i as int] != 0);
                }
            }
            return None;
        } else {
            units.push(unit);
            proof {
                assert(units@ =~= u.subrange(0, i + 1));
                lemma_zero_index_skip(u, i as int);
            }
        }
        i += 1;
    }
    proof {
        lemma_zero_index_facts(u, 0);
        if !terminated {
            assert(zero_index(u, 0) == 16);
        }
        assert(forall|k: int| zero_index(u, 0) <= k < u.len() ==> #[trigger] u[k] == 0);
        if !terminated {
            assert(u.subrange(0, 16) =~= u.subrange(0, zero_index(u, 0)));
        }
        assert(field_name(u) == utf16_strict(units@));
    }
    let chars = match decode_utf16_units(units.as_slice(), true) {
        Some(chars) => chars,
        None => return None,
    };
    if chars.len() == 0 {
        return None;
    }
    let mut j: usize = 0;
    while j < chars.len()
        invariant
            j <= chars@.len(),
            field_name(name_units(bits@, tail as int)) == Some(chars@),
            forall|k: int| 0 <= k < j ==> !is_control(#[trigger] chars@[k]),
        decreases chars@.len() - j,
    {
        if char_is_control(chars[j]) {
            assert(!valid_name(chars@)) by {
                assert(is_control(chars@[j as int]));
            }
            return None;
        }
        j += 1;
    }
    Some(chars)
}

/// Whether `bits` read at `offset` are exactly `value`.
fn reads_as(bits: Bits, offset: usize, width: usize, value: u64) -> (r: bool)
    ensures
        r == (read_spec(bits@, offset as int, width as nat) == Some(value)),
{
    match bits.read(offset, width) {
        Some(v) => v == value,
        None => false,
    }
}

/// The summary event whose identity marker starts at bit `marker_bit` of a payload.
pub fn read_event(bits: Bits, marker_bit: usize, chunk: i32, payload_byte: usize) -> (r: Option<SummaryEvent>)
    requires
        bits@.len() * 8 + 64 <= usize::MAX,
    ensures
        match record_at(bits@, marker_bit as int) {
            Some(rec) => r matches Some(e) && summary_view(e) == record_view(rec, chunk, payload_byte),
            None => r is None,
        },
{
    if marker_bit < 64 {
        return None;
    }
    let identity_bit = marker_bit - 64;
    if identity_bit + 64 > bits.len() {
        return None;
    }
    let xuid = read_le_bits(bits, identity_bit, 8);
    if xuid == 0 {
        return None;
    }
    let tail = match identity_bit.checked_add(IDENTITY_TO_TAIL_BITS) {
        Some(t) => t,
        None => return None,
    };
    let end = match tail.checked_add(TAIL_BITS) {
        Some(e) => e,
        None => return None,
    };
    if !reads_as(bits, end, 32, END_MARKER) {
        return None;
    }
    if !reads_as(bits, tail + 416, 24, 0) || !reads_as(bits, tail + 448, 24, 0) {
        return None;
    }
    proof {
        crate::theater::bits::lemma_bits_bound(bits@, tail + 440, 8);
        crate::theater::bits::lemma_bits_bound(bits@, tail + 376, 8);
        crate::theater::bits::lemma_bits_bound(bits@, tail + 472, 8);
        crate::theater::bits::lemma_bits_bound(bits@, tail + 384, 32);
        vstd::arithmetic::power2::lemma2_to64();
    }
    let medal_flag = bits.read(tail + 440, 8).unwrap() as u8;
    if medal_flag > 1 {
        return None;
    }
    let chars = match read_name(bits, tail) {
        Some(c) => c,
        None => return None,
    };
    let name = string_from_chars(&chars);
    let type_code = bits.read(tail + 376, 8).unwrap() as u8;
    let metadata = bits.read(tail + 472, 8).unwrap() as u8;
    let time_us = bits.read(tail + 384, 32).unwrap() * 1000;
    let kind = SummaryKind::from_fields(type_code, medal_flag);
    let medal = if medal_flag == 1 {
        Some(MedalAward::from_film_id(metadata))
    } else {
        None
    };
    Some(SummaryEvent {
        xuid: u64_to_string(xuid),
        player: None,
        name,
        time_us,
        kind,
        metadata,
        medal_flag,
        type_code: Some(type_code),
        medal,
        source: Some(source(chunk, payload_byte, tail, TAIL_BITS)),
        identity_source: Some(source(chunk, payload_byte, identity_bit, 64)),
    })
}

proof fn lemma_zero_index_facts(u: Seq<u16>, i: int)
    requires
        0 <= i,
    ensures
        i <= zero_index(u, i) <= u.len() || (i > u.len() && zero_index(u, i) == u.len()),
        zero_index(u, i) < u.len() ==> u[zero_index(u, i)] == 0,
        forall|k: int| i <= k < zero_index(u, i) ==> #[trigger] u[k] != 0,
    decreases u.len() - i,
{
    if i < u.len() && u[i] != 0 {
        lemma_zero_index_facts(u, i + 1);
    }
}

proof fn lemma_zero_index_at(u: Seq<u16>, i: int)
    requires
        0 <= i < u.len(),
        u[i] == 0,
        forall|k: int| 0 <= k < i ==> #[trigger] u[k] != 0,
    ensures
        zero_index(u, 0) == i,
{
    lemma_zero_index_facts(u, 0);
    if zero_index(u, 0) < i {
        assert(u[zero_index(u, 0)] == 0);
    }
}

proof fn lemma_zero_index_skip(u: Seq<u16>, i: int)
    requires
        0 <= i < u.len(),
        u[i] != 0,
        zero_index(u, 0) >= i,
        forall|k: int| 0 <= k < i ==> #[trigger] u[k] != 0,
    ensures
        zero_index(u, 0) >= i + 1,
{
    lemma_zero_index_facts(u, 0);
    if zero_index(u, 0) == i {
        assert(u[i] == 0);
    }
}


/// A 64-bit window whose top sixteen bits are one of the two identity markers.
pub open spec fn is_marker_window(w: u64) -> bool {
    (w >> 48u64) == 0x2dc0u64 || (w >> 48u64) == 0x25c0u64
}

/// Events of a summary payload whose markers start below bit `n`, in bit order;
/// candidate markers start at bit 96 or later, after the count and an identity.
pub open spec fn payload_events(p: Seq<u8>, chunk: i32, payload_byte: usize, n: nat) -> Seq<SummaryView>
    decreases n,
{
    if n == 0 {
        seq![]
    } else {
        payload_events(p, chunk, payload_byte, (n - 1) as nat) + if n - 1 >= 96 && is_marker_window(
            window_spec(p, n - 1),
        ) && record_at(p, n - 1) is Some {
            seq![record_view(record_at(p, n - 1)->0, chunk, payload_byte)]
        } else {
            seq![]
        }
    }
}

/// Decoded events, packet diagnostics and unparsed packet-type counts so far.
pub type SummaryState = (Seq<SummaryView>, Seq<SummaryPacketDiagnostics>, Map<u16, nat>);

pub open spec fn be_u32_at(d: Seq<u8>, o: int) -> u32 {
    (d[o] * 0x100_0000 + d[o + 1] * 0x1_0000 + d[o + 2] * 0x100 + d[o + 3]) as u32
}

/// One more packet of an unparsed type; a count stays at the largest `usize` once it
/// reaches it.
pub open spec fn count_type(m: Map<u16, nat>, k: u16) -> Map<u16, nat> {
    m.insert(
        k,
        if m.contains_key(k) {
            if m[k] < usize::MAX {
                m[k] + 1
            } else {
                m[k]
            }
        } else {
            1
        },
    )
}

/// The state after a type-9 summary packet whose payload starts at byte `pb`.
pub open spec fn add_summary_packet(st: SummaryState, payload: Seq<u8>, id: i32, pb: int) -> SummaryState {
    (
        st.0 + payload_events(payload, id, pb as usize, payload.len() * 8),
        st.1.push(
            SummaryPacketDiagnostics {
                chunk: id,
                payload_byte: pb as usize,
                declared_events: be_u32_at(payload, 0),
                decoded_events: payload_events(payload, id, pb as usize, payload.len() * 8).len() as usize,
            },
        ),
        st.2,
    )
}

/// Walks a footer chunk's packets from byte `offset`: sixteen-byte headers (type,
/// two opaque bytes, payload size); type 9 holds summary events after a big-endian
/// declared count, an empty type 7 ends a stream, other types are counted. An
/// incomplete header or payload, or a summary payload without its count, stops the
/// walk with a truncation error at the packet's offset.
pub open spec fn walk_footer(st: SummaryState, data: Seq<u8>, id: i32, offset: int) -> (SummaryState, Option<DecodeError>)
    decreases data.len() - offset,
{
    if offset < 0 || offset >= data.len() {
        (st, None)
    } else if offset + 16 > data.len() || offset + 16 + le_value(data, offset + 4, 4) > data.len() {
        (st, Some(DecodeError::Truncated { chunk: id, offset: offset as usize }))
    } else if le_value(data, offset, 2) == 9 {
        if le_value(data, offset + 4, 4) < 4 {
            (st, Some(DecodeError::Truncated { chunk: id, offset: offset as usize }))
        } else {
            walk_footer(
                add_summary_packet(
                    st,
                    data.subrange(offset + 16, offset + 16 + le_value(data, offset + 4, 4)),
                    id,
                    offset + 16,
                ),
                data,
                id,
                offset + 16 + le_value(data, offset + 4, 4),
            )
        }
    } else if le_value(data, offset, 2) == 7 && le_value(data, offset + 4, 4) == 0 {
        walk_footer(st, data, id, offset + 16)
    } else {
        walk_footer(
            (st.0, st.1, count_type(st.2, le_value(data, offset, 2) as u16)),
            data,
            id,
            offset + 16 + le_value(data, offset + 4, 4),
        )
    }
}

/// Walks footer chunks in order; a repeated chunk index is an error.
pub open spec fn walk_footers(st: SummaryState, seen: Set<i32>, footers: Seq<FilmChunkData>) -> (SummaryState, Option<DecodeError>)
    decreases footers.len(),
{
    if footers.len() == 0 {
        (st, None)
    } else if seen.contains(footers[0].metadata.index) {
        (st, Some(DecodeError::DuplicateChunk(footers[0].metadata.index)))
    } else if walk_footer(st, footers[0].data@, footers[0].metadata.index, 0).1 is Some {
        walk_footer(st, footers[0].data@, footers[0].metadata.index, 0)
    } else {
        walk_footers(
            walk_footer(st, footers[0].data@, footers[0].metadata.index, 0).0,
            seen.insert(footers[0].metadata.index),
            footers.drop_first(),
        )
    }
}

/// Inserts a chunk after every chunk whose index is not greater.
pub open spec fn insert_by_index(s: Seq<FilmChunkData>, c: FilmChunkData) -> Seq<FilmChunkData>
    decreases s.len(),
{
    if s.len() == 0 {
        seq![c]
    } else if c.metadata.index < s[0].metadata.index {
        seq![c] + s
    } else {
        seq![s[0]] + insert_by_index(s.drop_first(), c)
    }
}

/// The chunks of a manifest type ordered by chunk index, ties in input order.
pub open spec fn sorted_chunks(chunks: Seq<FilmChunkData>, chunk_type: i32) -> Seq<FilmChunkData>
    decreases chunks.len(),
{
    if chunks.len() == 0 {
        seq![]
    } else if chunks.last().metadata.chunk_type == chunk_type {
        insert_by_index(sorted_chunks(chunks.drop_last(), chunk_type), chunks.last())
    } else {
        sorted_chunks(chunks.drop_last(), chunk_type)
    }
}

/// The footer chunks (manifest type 3) ordered by chunk index, ties in input order.
pub open spec fn sorted_footers(chunks: Seq<FilmChunkData>) -> Seq<FilmChunkData> {
    sorted_chunks(chunks, 3)
}

pub open spec fn empty_state() -> SummaryState {
    (seq![], seq![], Map::empty())
}

/// Where the footer walk of a whole chunk list ends.
pub open spec fn summary_walk(chunks: Seq<FilmChunkData>) -> (SummaryState, Option<DecodeError>) {
    walk_footers(empty_state(), Set::empty(), sorted_footers(chunks))
}

/// Whether source `a` precedes source `b`; an absent source comes first.
pub open spec fn source_lt(a: Option<SourceSpan>, b: Option<SourceSpan>) -> bool {
    match (a, b) {
        (None, Some(_)) => true,
        (Some(x), Some(y)) => x.chunk < y.chunk || (x.chunk == y.chunk && (x.payload_byte
            < y.payload_byte || (x.payload_byte == y.payload_byte && x.bit < y.bit))),
        _ => false,
    }
}

/// Whether event `a` sorts before event `b`: by time, then by source location.
pub open spec fn event_key_lt(a: SummaryView, b: SummaryView) -> bool {
    a.3 < b.3 || (a.3 == b.3 && source_lt(a.9, b.9))
}

pub open spec fn insert_by_key(s: Seq<SummaryView>, e: SummaryView) -> Seq<SummaryView>
    decreases s.len(),
{
    if s.len() == 0 {
        seq![e]
    } else if event_key_lt(e, s[0]) {
        seq![e] + s
    } else {
        seq![s[0]] + insert_by_key(s.drop_first(), e)
    }
}

/// Events ordered by (time, source), equal keys kept in decode order.
pub open spec fn sort_events(s: Seq<SummaryView>) -> Seq<SummaryView>
    decreases s.len(),
{
    if s.len() == 0 {
        seq![]
    } else {
        insert_by_key(sort_events(s.drop_last()), s.last())
    }
}

pub open spec fn counts_view(m: Map<u16, usize>) -> Map<u16, nat> {
    m.map_values(|v: usize| v as nat)
}

/// The decoded state a report holds.
pub open spec fn report_state(r: SummaryEventReport) -> SummaryState {
    (summary_views(r.events@), r.packets@, counts_view(r.unparsed_packet_types@))
}

/// Appends the events of one summary payload, in marker-bit order.
fn push_payload_events(payload: &[u8], chunk: i32, payload_byte: usize, events: &mut Vec<SummaryEvent>)
    requires
        payload@.len() * 8 + 64 <= usize::MAX,
    ensures
        summary_views(final(events)@) == summary_views(old(events)@) + payload_events(
            payload@,
            chunk,
            payload_byte,
            payload@.len() * 8,
        ),
{
    let bits = Bits(payload);
    let mut windows = bits.windows();
    let ghost base = summary_views(events@);
    proof {
        assert(base + payload_events(payload@, chunk, payload_byte, 0) =~= base);
    }
    loop
        invariant
            windows.wf(),
            windows.bits@ == payload@,
            bits@ == payload@,
            payload@.len() * 8 + 64 <= usize::MAX,
            summary_views(events@) == base + payload_events(payload@, chunk, payload_byte, windows.offset as nat),
        ensures
            summary_views(events@) == base + payload_events(payload@, chunk, payload_byte, payload@.len() * 8),
        decreases payload@.len() * 8 - windows.offset,
    {
        let ghost at = windows.offset;
        match windows.next() {
            Some((bit, word)) => {
                let ghost prev = summary_views(events@);
                if bit >= 96 && ((word >> 48u64) == 0x2dc0u64 || (word >> 48u64) == 0x25c0u64) {
                    match read_event(bits, bit, chunk, payload_byte) {
                        Some(event) => {
                            events.push(event);
                            proof {
                                assert(summary_views(events@) =~= prev.push(summary_view(event)));
                            }
                        },
                        None => {},
                    }
                }
                proof {
                    assert(summary_views(events@) =~= base + payload_events(payload@, chunk, payload_byte, (at + 1) as nat));
                }
            },
            None => {
                break;
            },
        }
    }
}

/// Big-endian `u32` of four bytes at `o`.
fn be_u32(d: &[u8], o: usize) -> (v: u32)
    requires
        o + 4 <= d@.len(),
    ensures
        v == be_u32_at(d@, o as int),
{
    (d[o] as u32) * 0x100_0000 + (d[o + 1] as u32) * 0x1_0000 + (d[o + 2] as u32) * 0x100 + d[o + 3] as u32
}

/// Walks one footer chunk's packets into the report.
fn walk_chunk(data: &[u8], id: i32, report: &mut SummaryEventReport) -> (r: Result<(), DecodeError>)
    requires
        data@.len() * 8 + 64 <= usize::MAX,
    ensures
        walk_footer(report_state(*old(report)), data@, id, 0).1 matches Some(e) ==> r matches Err(x) && x == e,
        walk_footer(report_state(*old(report)), data@, id, 0).1 is None ==> r is Ok && report_state(*final(report))
            == walk_footer(report_state(*old(report)), data@, id, 0).0,
{
    let ghost target = walk_footer(report_state(*report), data@, id, 0);
    let len = data.len();
    let mut offset: usize = 0;
    while offset < len
        invariant
            len == data@.len(),
            data@.len() * 8 + 64 <= usize::MAX,
            offset <= len,
            target == walk_footer(report_state(*old(report)), data@, id, 0),
            walk_footer(report_state(*report), data@, id, offset as int) == target,
        decreases len - offset,
    {
        if offset + 16 > len {
            return Err(DecodeError::Truncated { chunk: id, offset });
        }
        proof {
            lemma_le_bound(data@, offset + 4, 4);
            lemma_le_bound(data@, offset as int, 2);
            vstd::arithmetic::power2::lemma2_to64();
        }
        let kind = read_le(data, offset, 2) as u16;
        let size = read_le(data, offset + 4, 4) as usize;
        let payload_byte = offset + 16;
        let end = match payload_byte.checked_add(size) {
            Some(e) => e,
            None => return Err(DecodeError::Truncated { chunk: id, offset }),
        };
        if end > len {
            return Err(DecodeError::Truncated { chunk: id, offset });
        }
        let ghost cur = report_state(*report);
        if kind == 9 {
            if size < 4 {
                return Err(DecodeError::Truncated { chunk: id, offset });
            }
            let payload = vstd::slice::slice_subrange(data, payload_byte, end);
            let declared_events = be_u32(payload, 0);
            let before = report.events.len();
            push_payload_events(payload, id, payload_byte, &mut report.events);
            let ghost evs = payload_events(payload@, id, payload_byte, payload@.len() * 8);
            proof {
                assert(summary_views(report.events@).len() == report.events@.len());
                assert(cur.0.len() == before);
            }
            let decoded_events = report.events.len() - before;
            report.packets.push(
                SummaryPacketDiagnostics { chunk: id, payload_byte, declared_events, decoded_events },
            );
            proof {
                let want = add_summary_packet(cur, payload@, id, payload_byte as int);
                assert(report_state(*report).0 =~= want.0);
                assert(report_state(*report).1 =~= want.1);
                assert(report_state(*report).2 =~= want.2);
                assert(report_state(*report) == want);
            }
        } else if kind == 7 && size == 0 {
        } else {
            let next: usize = match report.unparsed_packet_types.get(&kind) {
                Some(v) => {
                    proof {
                        assert(cur.2[kind] == *v as nat);
                    }
                    if *v < usize::MAX {
                        *v + 1
                    } else {
                        *v
                    }
                },
                None => 1,
            };
            report.unparsed_packet_types.insert(kind, next);
            proof {
                assert(report_state(*report).2 =~= count_type(cur.2, kind));
            }
        }
        offset = end;
    }
    Ok(())
}

pub proof fn lemma_insert_by_index_at(s: Seq<FilmChunkData>, c: FilmChunkData, j: int)
    requires
        0 <= j <= s.len(),
        forall|k: int| 0 <= k < j ==> !(c.metadata.index < #[trigger] s[k].metadata.index),
        j < s.len() ==> c.metadata.index < s[j].metadata.index,
    ensures
        insert_by_index(s, c) == s.insert(j, c),
    decreases j,
{
    if j == 0 {
        if s.len() > 0 {
            assert(seq![c] + s =~= s.insert(0, c));
        } else {
            assert(seq![c] =~= s.insert(0, c));
        }
    } else {
        let t = s.drop_first();
        assert forall|k: int| 0 <= k < j - 1 implies !(c.metadata.index < #[trigger] t[k].metadata.index) by {
            assert(t[k] == s[k + 1]);
        }
        lemma_insert_by_index_at(t, c, j - 1);
        assert(seq![s[0]] + t.insert(j - 1, c) =~= s.insert(j, c));
    }
}

/// The chunks named by an index list.
pub open spec fn chunks_at(chunks: Seq<FilmChunkData>, order: Seq<usize>) -> Seq<FilmChunkData> {
    order.map_values(|j: usize| chunks[j as int])
}

/// Indices of the chunks of a manifest type, ordered by chunk index with ties in input order.
pub fn sorted_chunk_order(chunks: &[FilmChunkData], chunk_type: i32) -> (r: Vec<usize>)
    ensures
        forall|k: int| 0 <= k < r@.len() ==> #[trigger] r@[k] < chunks@.len(),
        chunks_at(chunks@, r@) == sorted_chunks(chunks@, chunk_type),
{
    let mut order: Vec<usize> = Vec::new();
    let mut c: usize = 0;
    while c < chunks.len()
        invariant
            c <= chunks@.len(),
            forall|k: int| 0 <= k < order@.len() ==> #[trigger] order@[k] < c,
            chunks_at(chunks@, order@) == sorted_chunks(chunks@.subrange(0, c as int), chunk_type),
        decreases chunks@.len() - c,
    {
        proof {
            assert(chunks@.subrange(0, c + 1).drop_last() =~= chunks@.subrange(0, c as int));
        }
        if chunks[c].metadata.chunk_type == chunk_type {
            let key = chunks[c].metadata.index;
            let ghost s = chunks_at(chunks@, order@);
            let mut j: usize = 0;
            while j < order.len() && !(key < chunks[order[j]].metadata.index)
                invariant
                    j <= order@.len(),
                    forall|k: int| 0 <= k < order@.len() ==> #[trigger] order@[k] < c,
                    c < chunks@.len(),
                    key == chunks@[c as int].metadata.index,
                    s == chunks_at(chunks@, order@),
                    forall|k: int| 0 <= k < j ==> !(key < #[trigger] s[k].metadata.index),
                decreases order@.len() - j,
            {
                j += 1;
            }
            proof {
                lemma_insert_by_index_at(s, chunks@[c as int], j as int);
            }
            order.insert(j, c);
            proof {
                assert(chunks_at(chunks@, order@) =~= s.insert(j as int, chunks@[c as int]));
            }
        }
        c += 1;
    }
    proof {
        assert(chunks@.subrange(0, chunks@.len() as int) =~= chunks@);
    }
    order
}

/// All chunks ordered by manifest index, chunks with equal indices in input order.
pub open spec fn by_index(chunks: Seq<FilmChunkData>) -> Seq<FilmChunkData>
    decreases chunks.len(),
{
    if chunks.len() == 0 {
        seq![]
    } else {
        insert_by_index(by_index(chunks.drop_last()), chunks.last())
    }
}

/// Positions of all chunks, ordered by manifest index with ties in input order.
pub fn index_order(chunks: &[FilmChunkData]) -> (r: Vec<usize>)
    ensures
        forall|k: int| 0 <= k < r@.len() ==> #[trigger] r@[k] < chunks@.len(),
        chunks_at(chunks@, r@) == by_index(chunks@),
{
    let mut order: Vec<usize> = Vec::new();
    let mut c: usize = 0;
    while c < chunks.len()
        invariant
            c <= chunks@.len(),
            forall|k: int| 0 <= k < order@.len() ==> #[trigger] order@[k] < c,
            chunks_at(chunks@, order@) == by_index(chunks@.subrange(0, c as int)),
        decreases chunks@.len() - c,
    {
        proof {
            assert(chunks@.subrange(0, c + 1).drop_last() =~= chunks@.subrange(0, c as int));
        }
        let key = chunks[c].metadata.index;
        let ghost s = chunks_at(chunks@, order@);
        let mut j: usize = 0;
        while j < order.len() && !(key < chunks[order[j]].metadata.index)
            invariant
                j <= order@.len(),
                forall|k: int| 0 <= k < order@.len() ==> #[trigger] order@[k] < c,
                c < chunks@.len(),
                key == chunks@[c as int].metadata.index,
                s == chunks_at(chunks@, order@),
                forall|k: int| 0 <= k < j ==> !(key < #[trigger] s[k].metadata.index),
            decreases order@.len() - j,
        {
            j += 1;
        }
        proof {
            lemma_insert_by_index_at(s, chunks@[c as int], j as int);
        }
        order.insert(j, c);
        proof {
            assert(chunks_at(chunks@, order@) =~= s.insert(j as int, chunks@[c as int]));
        }
        c += 1;
    }
    proof {
        assert(chunks@.subrange(0, chunks@.len() as int) =~= chunks@);
    }
    order
}

proof fn lemma_insert_by_key_at(s: Seq<SummaryView>, e: SummaryView, j: int)
    requires
        0 <= j <= s.len(),
        forall|k: int| 0 <= k < j ==> !event_key_lt(e, #[trigger] s[k]),
        j < s.len() ==> event_key_lt(e, s[j]),
    ensures
        insert_by_key(s, e) == s.insert(j, e),
    decreases j,
{
    if j == 0 {
        if s.len() > 0 {
            assert(seq![e] + s =~= s.insert(0, e));
        } else {
            assert(seq![e] =~= s.insert(0, e));
        }
    } else {
        let t = s.drop_first();
        assert forall|k: int| 0 <= k < j - 1 implies !event_key_lt(e, #[trigger] t[k]) by {
            assert(t[k] == s[k + 1]);
        }
        lemma_insert_by_key_at(t, e, j - 1);
        assert(seq![s[0]] + t.insert(j - 1, e) =~= s.insert(j, e));
    }
}

/// Whether event `a` sorts before event `b`.
fn key_lt(a: &SummaryEvent, b: &SummaryEvent) -> (r: bool)
    ensures
        r == event_key_lt(summary_view(*a), summary_view(*b)),
{
    if a.time_us != b.time_us {
        return a.time_us < b.time_us;
    }
    match (a.source, b.source) {
        (None, Some(_)) => true,
        (Some(x), Some(y)) => x.chunk < y.chunk || (x.chunk == y.chunk && (x.payload_byte
            < y.payload_byte || (x.payload_byte == y.payload_byte && x.bit < y.bit))),
        _ => false,
    }
}

/// Orders events by time and source location, keeping equal keys in order.
fn sort_summary_events(events: Vec<SummaryEvent>) -> (r: Vec<SummaryEvent>)
    ensures
        summary_views(r@) == sort_events(summary_views(events@)),
{
    let ghost all = summary_views(events@);
    let mut rest = events;
    let mut sorted: Vec<SummaryEvent> = Vec::new();
    let ghost mut k: int = 0;
    proof {
        assert(all.subrange(0, 0) =~= Seq::<SummaryView>::empty());
        assert(summary_views(rest@) =~= all.subrange(0, all.len() as int));
    }
    while rest.len() > 0
        invariant
            0 <= k <= all.len(),
            rest@.len() + k == all.len(),
            summary_views(rest@) == all.subrange(k, all.len() as int),
            summary_views(sorted@) == sort_events(all.subrange(0, k)),
        decreases rest@.len(),
    {
        let ghost old_rest = rest@;
        proof {
            assert(summary_views(old_rest)[0] == summary_view(old_rest[0]));
        }
        let e = rest.remove(0);
        proof {
            assert(rest@ =~= old_rest.subrange(1, old_rest.len() as int));
            assert(summary_views(rest@) =~= summary_views(old_rest).subrange(1, old_rest.len() as int));
            assert(summary_views(rest@) =~= all.subrange(k + 1, all.len() as int));
            assert(summary_view(e) == all[k]);
            assert(all.subrange(0, k + 1).drop_last() =~= all.subrange(0, k));
        }
        let ghost s = summary_views(sorted@);
        let mut j: usize = 0;
        while j < sorted.len() && !key_lt(&e, &sorted[j])
            invariant
                j <= sorted@.len(),
                s == summary_views(sorted@),
                forall|m: int| 0 <= m < j ==> !event_key_lt(summary_view(e), #[trigger] s[m]),
            decreases sorted@.len() - j,
        {
            j += 1;
        }
        proof {
            lemma_insert_by_key_at(s, summary_view(e), j as int);
        }
        let ghost ev = summary_view(e);
        sorted.insert(j, e);
        proof {
            assert(summary_views(sorted@) =~= s.insert(j as int, ev));
            k = k + 1;
        }
    }
    proof {
        assert(all.subrange(0, k) =~= all);
    }
    sorted
}

/// Decodes the stored human-player highlight timeline from version-41 footer chunks.
///
/// Footer chunks are walked in chunk-index order; events keep their recorded XUID and
/// gamertag, unknown event and medal codes are retained, and distinct records are never
/// merged. The events come out ordered by time and source location.
pub fn decode_summary_events(chunks: &[FilmChunkData], major_version: i32) -> (r: Result<SummaryEventReport, DecodeError>)
    requires
        chunks_addressable_bits(chunks@),
    ensures
        major_version != 41 ==> (r matches Err(e) && e == DecodeError::UnsupportedVersion(major_version)),
        major_version == 41 ==> match summary_walk(chunks@) {
            (_, Some(e)) => r matches Err(x) && x == e,
            (st, None) => r matches Ok(report) && summary_views(report.events@) == sort_events(st.0)
                && report.packets@ == st.1 && counts_view(report.unparsed_packet_types@) == st.2,
        },
        r matches Ok(report) ==> decoded_total(report.packets@) == report.events@.len(),
{
    if major_version != 41 {
        return Err(DecodeError::UnsupportedVersion(major_version));
    }
    let mut report = SummaryEventReport {
        events: Vec::new(),
        packets: Vec::new(),
        unparsed_packet_types: BTreeMap::new(),
    };
    proof {
        assert(report_state(report).0 =~= empty_state().0);
        assert(report_state(report).2 =~= empty_state().2);
        assert(report_state(report) == empty_state());
    }
    let order = sorted_chunk_order(chunks, 3);
    let ghost footers = sorted_footers(chunks@);
    let ghost target = summary_walk(chunks@);
    let mut ids: std::collections::BTreeSet<i32> = std::collections::BTreeSet::new();
    let mut i: usize = 0;
    proof {
        assert(footers.subrange(0, footers.len() as int) =~= footers);
    }
    while i < order.len()
        invariant
            i <= order@.len(),
            major_version == 41,
            forall|k: int| 0 <= k < order@.len() ==> #[trigger] order@[k] < chunks@.len(),
            chunks_at(chunks@, order@) == footers,
            footers == sorted_footers(chunks@),
            chunks_addressable_bits(chunks@),
            target == summary_walk(chunks@),
            walk_footers(report_state(report), ids@, footers.subrange(i as int, footers.len() as int)) == target,
        decreases order@.len() - i,
    {
        let chunk = &chunks[order[i]];
        let id = chunk.metadata.index;
        let ghost rest = footers.subrange(i as int, footers.len() as int);
        proof {
            assert(rest[0] == chunks@[order@[i as int] as int]);
            assert(rest.drop_first() =~= footers.subrange(i + 1, footers.len() as int));
            assert(chunks@[order@[i as int] as int].data@.len() * 8 + 64 <= usize::MAX);
        }
        if !ids.insert(id) {
            return Err(DecodeError::DuplicateChunk(id));
        }
        match walk_chunk(chunk.data.as_slice(), id, &mut report) {
            Ok(()) => {},
            Err(e) => return Err(e),
        }
        i += 1;
    }
    proof {
        assert(footers.subrange(i as int, footers.len() as int).len() == 0);
    }
    let events = sort_summary_events(report.events);
    proof {
        lemma_decoded_counts_sum_to_events(chunks@);
        assert(summary_views(events@).len() == events@.len());
    }
    Ok(SummaryEventReport {
        events,
        packets: report.packets,
        unparsed_packet_types: report.unparsed_packet_types,
    })
}

/// Every chunk's bit length, plus room for a 64-bit window, fits in `usize`.
pub open spec fn chunks_addressable_bits(chunks: Seq<FilmChunkData>) -> bool {
    forall|i: int| 0 <= i < chunks.len() ==> #[trigger] chunks[i].data@.len() * 8 + 64 <= usize::MAX
}

/// The chunks of `y`, those of the manifest type inserted one after another into `s`.
pub open spec fn insert_chunks(s: Seq<FilmChunkData>, y: Seq<FilmChunkData>, chunk_type: i32) -> Seq<FilmChunkData>
    decreases y.len(),
{
    if y.len() == 0 {
        s
    } else if y.last().metadata.chunk_type == chunk_type {
        insert_by_index(insert_chunks(s, y.drop_last(), chunk_type), y.last())
    } else {
        insert_chunks(s, y.drop_last(), chunk_type)
    }
}

proof fn lemma_sorted_chunks_append(x: Seq<FilmChunkData>, y: Seq<FilmChunkData>, chunk_type: i32)
    ensures
        sorted_chunks(x + y, chunk_type) == insert_chunks(sorted_chunks(x, chunk_type), y, chunk_type),
    decreases y.len(),
{
    if y.len() == 0 {
        assert(x + y =~= x);
    } else {
        assert((x + y).drop_last() =~= x + y.drop_last());
        assert((x + y).last() == y.last());
        lemma_sorted_chunks_append(x, y.drop_last(), chunk_type);
    }
}

proof fn lemma_insert_by_index_commutes(s: Seq<FilmChunkData>, a: FilmChunkData, b: FilmChunkData)
    requires
        a.metadata.index != b.metadata.index,
    ensures
        insert_by_index(insert_by_index(s, a), b) == insert_by_index(insert_by_index(s, b), a),
    decreases s.len(),
{
    if s.len() == 0 {
        let e = Seq::<FilmChunkData>::empty();
        assert(insert_by_index(e, a) == seq![a]);
        assert(insert_by_index(e, b) == seq![b]);
        assert(seq![a].drop_first() =~= e);
        assert(seq![b].drop_first() =~= e);
        assert(seq![a][0] == a && seq![b][0] == b);
        if b.metadata.index < a.metadata.index {
            assert(insert_by_index(seq![a], b) == seq![b] + seq![a]);
            assert(insert_by_index(seq![b], a) == seq![b] + insert_by_index(e, a));
        } else {
            assert(insert_by_index(seq![a], b) == seq![a] + insert_by_index(e, b));
            assert(insert_by_index(seq![b], a) == seq![a] + seq![b]);
        }
    } else {
        let s0 = s[0];
        let rest = s.drop_first();
        let ai = a.metadata.index;
        let bi = b.metadata.index;
        let si = s0.metadata.index;
        if ai < si && bi < si {
            assert((seq![a] + s).drop_first() =~= s);
            assert((seq![b] + s).drop_first() =~= s);
            assert((seq![a] + s)[0] == a);
            assert((seq![b] + s)[0] == b);
            if ai < bi {
                assert(insert_by_index(seq![a] + s, b) == seq![a] + insert_by_index(s, b));
                assert(seq![a] + (seq![b] + s) =~= seq![a] + (seq![b] + s));
            } else {
                assert(insert_by_index(seq![b] + s, a) == seq![b] + insert_by_index(s, a));
            }
        } else if ai < si {
            assert((seq![a] + s).drop_first() =~= s);
            assert((seq![a] + s)[0] == a);
            let t = seq![s0] + insert_by_index(rest, b);
            assert(t[0] == s0);
        } else if bi < si {
            assert((seq![b] + s).drop_first() =~= s);
            assert((seq![b] + s)[0] == b);
            let t = seq![s0] + insert_by_index(rest, a);
            assert(t[0] == s0);
        } else {
            let ta = seq![s0] + insert_by_index(rest, a);
            let tb = seq![s0] + insert_by_index(rest, b);
            assert(ta[0] == s0 && tb[0] == s0);
            assert(ta.drop_first() =~= insert_by_index(rest, a));
            assert(tb.drop_first() =~= insert_by_index(rest, b));
            lemma_insert_by_index_commutes(rest, a, b);
        }
    }
}

/// Exchanging two neighbouring chunks whose indices differ changes neither the footer
/// walk nor, therefore, the decoded summary: footer chunks are walked in chunk-index order.
pub proof fn lemma_summary_ignores_chunk_order(
    before: Seq<FilmChunkData>,
    a: FilmChunkData,
    b: FilmChunkData,
    after: Seq<FilmChunkData>,
)
    requires
        a.metadata.index != b.metadata.index,
    ensures
        summary_walk(before + seq![a, b] + after) == summary_walk(before + seq![b, a] + after),
{
    let x = before + seq![a, b];
    let y = before + seq![b, a];
    lemma_sorted_chunks_append(x, after, 3);
    lemma_sorted_chunks_append(y, after, 3);
    lemma_sorted_chunks_append(before, seq![a, b], 3);
    lemma_sorted_chunks_append(before, seq![b, a], 3);
    let s = sorted_chunks(before, 3);
    assert(seq![a, b].drop_last() =~= seq![a]);
    assert(seq![b, a].drop_last() =~= seq![b]);
    assert(seq![a].drop_last() =~= Seq::<FilmChunkData>::empty());
    assert(seq![b].drop_last() =~= Seq::<FilmChunkData>::empty());
    assert(seq![a, b].last() == b && seq![b, a].last() == a);
    assert(seq![a].last() == a && seq![b].last() == b);
    let sa = if a.metadata.chunk_type == 3 { insert_by_index(s, a) } else { s };
    let sb = if b.metadata.chunk_type == 3 { insert_by_index(s, b) } else { s };
    assert(insert_chunks(s, Seq::<FilmChunkData>::empty(), 3) == s);
    assert(insert_chunks(s, seq![a], 3) == sa);
    assert(insert_chunks(s, seq![b], 3) == sb);
    assert(insert_chunks(s, seq![a, b], 3) == (if b.metadata.chunk_type == 3 { insert_by_index(sa, b) } else { sa }));
    assert(insert_chunks(s, seq![b, a], 3) == (if a.metadata.chunk_type == 3 { insert_by_index(sb, a) } else { sb }));
    if a.metadata.chunk_type == 3 && b.metadata.chunk_type == 3 {
        lemma_insert_by_index_commutes(s, a, b);
    }
    assert(insert_chunks(s, seq![a, b], 3) == insert_chunks(s, seq![b, a], 3));
    assert(sorted_footers(before + seq![a, b] + after) == sorted_footers(before + seq![b, a] + after));
}

/// No two chunks share a manifest index.
pub open spec fn distinct_indices(s: Seq<FilmChunkData>) -> bool {
    forall|i: int, j: int| 0 <= i < j < s.len() ==> (#[trigger] s[i]).metadata.index != (#[trigger] s[j]).metadata.index
}

/// The chunks are ordered by manifest index.
pub open spec fn index_sorted(s: Seq<FilmChunkData>) -> bool {
    forall|i: int, j: int| 0 <= i < j < s.len() ==> (#[trigger] s[i]).metadata.index <= (#[trigger] s[j]).metadata.index
}

/// The same chunks, listed in another order.
pub open spec fn same_chunks(a: Seq<FilmChunkData>, b: Seq<FilmChunkData>) -> bool {
    a.len() == b.len() && forall|c: FilmChunkData| #![trigger a.contains(c)] #![trigger b.contains(c)] a.contains(c) <==> b.contains(c)
}

proof fn lemma_insert_by_index_facts(s: Seq<FilmChunkData>, c: FilmChunkData)
    ensures
        insert_by_index(s, c).len() == s.len() + 1,
        forall|d: FilmChunkData| #[trigger] insert_by_index(s, c).contains(d) <==> (d == c || s.contains(d)),
        index_sorted(s) ==> index_sorted(insert_by_index(s, c)),
        distinct_indices(s) && (forall|k: int| 0 <= k < s.len() ==> (#[trigger] s[k]).metadata.index != c.metadata.index)
            ==> distinct_indices(insert_by_index(s, c)),
    decreases s.len(),
{
    let r = insert_by_index(s, c);
    if s.len() == 0 {
        assert(r =~= seq![c]);
        assert forall|d: FilmChunkData| #[trigger] r.contains(d) <==> (d == c || s.contains(d)) by {
            if r.contains(d) {
                let k = choose|k: int| 0 <= k < r.len() && r[k] == d;
            }
            if d == c {
                assert(r[0] == c);
            }
        }
    } else if c.metadata.index < s[0].metadata.index {
        assert(r =~= seq![c] + s);
        assert forall|d: FilmChunkData| #[trigger] r.contains(d) <==> (d == c || s.contains(d)) by {
            if r.contains(d) {
                let k = choose|k: int| 0 <= k < r.len() && r[k] == d;
                if k > 0 {
                    assert(s[k - 1] == d);
                }
            }
            if s.contains(d) {
                let k = choose|k: int| 0 <= k < s.len() && s[k] == d;
                assert(r[k + 1] == d);
            }
            if d == c {
                assert(r[0] == c);
            }
        }
        if index_sorted(s) {
            assert forall|i: int, j: int| 0 <= i < j < r.len() implies (#[trigger] r[i]).metadata.index <= (#[trigger] r[j]).metadata.index by {
                if i > 0 {
                    assert(r[i] == s[i - 1] && r[j] == s[j - 1]);
                } else {
                    assert(r[j] == s[j - 1]);
                    if j - 1 > 0 {
                        assert(s[0].metadata.index <= s[j - 1].metadata.index);
                    }
                }
            }
        }
        if distinct_indices(s) && (forall|k: int| 0 <= k < s.len() ==> (#[trigger] s[k]).metadata.index != c.metadata.index) {
            assert forall|i: int, j: int| 0 <= i < j < r.len() implies (#[trigger] r[i]).metadata.index != (#[trigger] r[j]).metadata.index by {
                assert(r[j] == s[j - 1]);
                if i > 0 {
                    assert(r[i] == s[i - 1]);
                }
            }
        }
    } else {
        let t = s.drop_first();
        lemma_insert_by_index_facts(t, c);
        let rt = insert_by_index(t, c);
        assert(r =~= seq![s[0]] + rt);
        assert forall|d: FilmChunkData| #[trigger] r.contains(d) <==> (d == c || s.contains(d)) by {
            if r.contains(d) {
                let k = choose|k: int| 0 <= k < r.len() && r[k] == d;
                if k == 0 {
                    assert(s[0] == d);
                } else {
                    assert(rt[k - 1] == d);
                    assert(rt.contains(d));
                    if d != c {
                        assert(t.contains(d));
                        let m = choose|m: int| 0 <= m < t.len() && t[m] == d;
                        assert(s[m + 1] == d);
                    }
                }
            }
            if s.contains(d) {
                let k = choose|k: int| 0 <= k < s.len() && s[k] == d;
                if k == 0 {
                    assert(r[0] == d);
                } else {
                    assert(t[k - 1] == d);
                    assert(rt.contains(d));
                    let m = choose|m: int| 0 <= m < rt.len() && rt[m] == d;
                    assert(r[m + 1] == d);
                }
            }
            if d == c {
                assert(rt.contains(c));
                let m = choose|m: int| 0 <= m < rt.len() && rt[m] == c;
                assert(r[m + 1] == c);
            }
        }
        if index_sorted(s) {
            assert forall|i: int, j: int| 0 <= i < j < t.len() implies (#[trigger] t[i]).metadata.index <= (#[trigger] t[j]).metadata.index by {
                assert(t[i] == s[i + 1] && t[j] == s[j + 1]);
            }
            assert forall|i: int, j: int| 0 <= i < j < r.len() implies (#[trigger] r[i]).metadata.index <= (#[trigger] r[j]).metadata.index by {
                if i > 0 {
                    assert(r[i] == rt[i - 1] && r[j] == rt[j - 1]);
                } else {
                    assert(r[0] == s[0]);
                    assert(r[j] == rt[j - 1]);
                    if rt[j - 1] == c {
                    } else {
                        assert(rt.contains(rt[j - 1]));
                        assert(t.contains(rt[j - 1]));
                        let m = choose|m: int| 0 <= m < t.len() && t[m] == rt[j - 1];
                        assert(t[m] == s[m + 1]);
                    }
                }
            }
        }
        if distinct_indices(s) && (forall|k: int| 0 <= k < s.len() ==> (#[trigger] s[k]).metadata.index != c.metadata.index) {
            assert forall|i: int, j: int| 0 <= i < j < t.len() implies (#[trigger] t[i]).metadata.index != (#[trigger] t[j]).metadata.index by {
                assert(t[i] == s[i + 1] && t[j] == s[j + 1]);
            }
            assert forall|k: int| 0 <= k < t.len() implies (#[trigger] t[k]).metadata.index != c.metadata.index by {
                assert(t[k] == s[k + 1]);
            }
            assert forall|i: int, j: int| 0 <= i < j < r.len() implies (#[trigger] r[i]).metadata.index != (#[trigger] r[j]).metadata.index by {
                if i > 0 {
                    assert(r[i] == rt[i - 1] && r[j] == rt[j - 1]);
                } else {
                    assert(r[0] == s[0]);
                    assert(r[j] == rt[j - 1]);
                    if rt[j - 1] != c {
                        assert(rt.contains(rt[j - 1]));
                        assert(t.contains(rt[j - 1]));
                        let m = choose|m: int| 0 <= m < t.len() && t[m] == rt[j - 1];
                        assert(t[m] == s[m + 1]);
                    }
                }
            }
        }
    }
}

/// `by_index` keeps the chunks, orders them by manifest index, and keeps indices distinct.
pub proof fn lemma_by_index_facts(x: Seq<FilmChunkData>)
    ensures
        by_index(x).len() == x.len(),
        forall|d: FilmChunkData| #[trigger] by_index(x).contains(d) <==> x.contains(d),
        index_sorted(by_index(x)),
        distinct_indices(x) ==> distinct_indices(by_index(x)),
    decreases x.len(),
{
    if x.len() > 0 {
        let d0 = x.drop_last();
        lemma_by_index_facts(d0);
        lemma_insert_by_index_facts(by_index(d0), x.last());
        assert forall|d: FilmChunkData| #[trigger] x.contains(d) <==> (d == x.last() || d0.contains(d)) by {
            if x.contains(d) {
                let k = choose|k: int| 0 <= k < x.len() && x[k] == d;
                if k < x.len() - 1 {
                    assert(d0[k] == d);
                }
            }
            if d0.contains(d) {
                let k = choose|k: int| 0 <= k < d0.len() && d0[k] == d;
                assert(x[k] == d);
            }
            if d == x.last() {
                assert(x[x.len() - 1] == d);
            }
        }
        if distinct_indices(x) {
            assert forall|i: int, j: int| 0 <= i < j < d0.len() implies (#[trigger] d0[i]).metadata.index != (#[trigger] d0[j]).metadata.index by {
                assert(d0[i] == x[i] && d0[j] == x[j]);
            }
            let s = by_index(d0);
            assert forall|k: int| 0 <= k < s.len() implies (#[trigger] s[k]).metadata.index != x.last().metadata.index by {
                assert(s.contains(s[k]));
                let m = choose|m: int| 0 <= m < d0.len() && d0[m] == s[k];
                assert(x[m] == s[k]);
            }
        }
    } else {
        assert(by_index(x) =~= Seq::<FilmChunkData>::empty());
    }
}

/// Two ordered lists of the same chunks with distinct indices are equal.
pub proof fn lemma_sorted_unique(s: Seq<FilmChunkData>, u: Seq<FilmChunkData>)
    requires
        index_sorted(s),
        index_sorted(u),
        distinct_indices(s),
        distinct_indices(u),
        forall|d: FilmChunkData| #![trigger s.contains(d)] #![trigger u.contains(d)] s.contains(d) <==> u.contains(d),
    ensures
        s == u,
    decreases s.len() + u.len(),
{
    if s.len() == 0 {
        if u.len() > 0 {
            assert(u.contains(u[0]));
        }
        assert(s =~= u);
    } else if u.len() == 0 {
        assert(s.contains(s[0]));
    } else {
        assert(s.contains(s[0]) && u.contains(u[0]));
        let i = choose|i: int| 0 <= i < s.len() && s[i] == u[0];
        let j = choose|j: int| 0 <= j < u.len() && u[j] == s[0];
        if i > 0 {
            assert(s[0].metadata.index <= s[i].metadata.index);
        }
        if j > 0 {
            assert(u[0].metadata.index <= u[j].metadata.index);
        }
        assert(s[0].metadata.index == u[0].metadata.index);
        if i > 0 {
            assert(s[0].metadata.index != s[i].metadata.index);
        }
        assert(s[0] == u[0]);
        let s1 = s.drop_first();
        let u1 = u.drop_first();
        assert forall|i: int, j: int| 0 <= i < j < s1.len() implies (#[trigger] s1[i]).metadata.index <= (#[trigger] s1[j]).metadata.index by {
            assert(s1[i] == s[i + 1] && s1[j] == s[j + 1]);
        }
        assert forall|i: int, j: int| 0 <= i < j < u1.len() implies (#[trigger] u1[i]).metadata.index <= (#[trigger] u1[j]).metadata.index by {
            assert(u1[i] == u[i + 1] && u1[j] == u[j + 1]);
        }
        assert forall|i: int, j: int| 0 <= i < j < s1.len() implies (#[trigger] s1[i]).metadata.index != (#[trigger] s1[j]).metadata.index by {
            assert(s1[i] == s[i + 1] && s1[j] == s[j + 1]);
        }
        assert forall|i: int, j: int| 0 <= i < j < u1.len() implies (#[trigger] u1[i]).metadata.index != (#[trigger] u1[j]).metadata.index by {
            assert(u1[i] == u[i + 1] && u1[j] == u[j + 1]);
        }
        assert forall|d: FilmChunkData| #![trigger s1.contains(d)] #![trigger u1.contains(d)] s1.contains(d) <==> u1.contains(d) by {
            if s1.contains(d) {
                let k = choose|k: int| 0 <= k < s1.len() && s1[k] == d;
                assert(s[k + 1] == d);
                assert(s.contains(d));
                assert(s[0].metadata.index != s[k + 1].metadata.index);
                assert(u.contains(d));
                let m = choose|m: int| 0 <= m < u.len() && u[m] == d;
                assert(m != 0);
                assert(u1[m - 1] == d);
            }
            if u1.contains(d) {
                let k = choose|k: int| 0 <= k < u1.len() && u1[k] == d;
                assert(u[k + 1] == d);
                assert(u.contains(d));
                assert(u[0].metadata.index != u[k + 1].metadata.index);
                assert(s.contains(d));
                let m = choose|m: int| 0 <= m < s.len() && s[m] == d;
                assert(m != 0);
                assert(s1[m - 1] == d);
            }
        }
        lemma_sorted_unique(s1, u1);
        assert(s =~= seq![s[0]] + s1);
        assert(u =~= seq![u[0]] + u1);
    }
}

/// Listing the same chunks, with distinct manifest indices, in another order leaves
/// their order by index unchanged.
pub proof fn lemma_by_index_ignores_order(a: Seq<FilmChunkData>, b: Seq<FilmChunkData>)
    requires
        same_chunks(a, b),
        distinct_indices(a),
        distinct_indices(b),
    ensures
        by_index(a) == by_index(b),
{
    lemma_by_index_facts(a);
    lemma_by_index_facts(b);
    lemma_sorted_unique(by_index(a), by_index(b));
}

/// No two chunks of manifest type `t` share a manifest index.
pub open spec fn distinct_of_type(s: Seq<FilmChunkData>, t: i32) -> bool {
    forall|i: int, j: int| 0 <= i < j < s.len() && s[i].metadata.chunk_type == t && s[j].metadata.chunk_type == t
        ==> (#[trigger] s[i]).metadata.index != (#[trigger] s[j]).metadata.index
}

/// The two lists hold the same chunks of manifest type `t`.
pub open spec fn same_of_type(a: Seq<FilmChunkData>, b: Seq<FilmChunkData>, t: i32) -> bool {
    forall|c: FilmChunkData| #![trigger a.contains(c)] #![trigger b.contains(c)]
        (a.contains(c) && c.metadata.chunk_type == t) <==> (b.contains(c) && c.metadata.chunk_type == t)
}

proof fn lemma_sorted_chunks_facts(x: Seq<FilmChunkData>, t: i32)
    ensures
        forall|d: FilmChunkData| #[trigger] sorted_chunks(x, t).contains(d) <==> (x.contains(d) && d.metadata.chunk_type == t),
        index_sorted(sorted_chunks(x, t)),
        distinct_of_type(x, t) ==> distinct_indices(sorted_chunks(x, t)),
    decreases x.len(),
{
    if x.len() > 0 {
        let d0 = x.drop_last();
        lemma_sorted_chunks_facts(d0, t);
        let s0 = sorted_chunks(d0, t);
        assert forall|d: FilmChunkData| #[trigger] x.contains(d) <==> (d == x.last() || d0.contains(d)) by {
            if x.contains(d) {
                let k = choose|k: int| 0 <= k < x.len() && x[k] == d;
                if k < x.len() - 1 {
                    assert(d0[k] == d);
                }
            }
            if d0.contains(d) {
                let k = choose|k: int| 0 <= k < d0.len() && d0[k] == d;
                assert(x[k] == d);
            }
            if d == x.last() {
                assert(x[x.len() - 1] == d);
            }
        }
        if x.last().metadata.chunk_type == t {
            lemma_insert_by_index_facts(s0, x.last());
            if distinct_of_type(x, t) {
                assert forall|i: int, j: int| 0 <= i < j < d0.len() && d0[i].metadata.chunk_type == t && d0[j].metadata.chunk_type == t
                    implies (#[trigger] d0[i]).metadata.index != (#[trigger] d0[j]).metadata.index by {
                    assert(d0[i] == x[i] && d0[j] == x[j]);
                }
                assert forall|k: int| 0 <= k < s0.len() implies (#[trigger] s0[k]).metadata.index != x.last().metadata.index by {
                    assert(s0.contains(s0[k]));
                    let m = choose|m: int| 0 <= m < d0.len() && d0[m] == s0[k];
                    assert(x[m] == s0[k]);
                }
            }
        } else {
            if distinct_of_type(x, t) {
                assert forall|i: int, j: int| 0 <= i < j < d0.len() && d0[i].metadata.chunk_type == t && d0[j].metadata.chunk_type == t
                    implies (#[trigger] d0[i]).metadata.index != (#[trigger] d0[j]).metadata.index by {
                    assert(d0[i] == x[i] && d0[j] == x[j]);
                }
            }
        }
    } else {
        assert(sorted_chunks(x, t) =~= Seq::<FilmChunkData>::empty());
    }
}

/// The chunks of manifest type `t`, in manifest-index order, depend only on which chunks
/// of that type are listed (with distinct indices), not on their order or on the other
/// chunks.
pub proof fn lemma_sorted_chunks_ignore_order(a: Seq<FilmChunkData>, b: Seq<FilmChunkData>, t: i32)
    requires
        same_of_type(a, b, t),
        distinct_of_type(a, t),
        distinct_of_type(b, t),
    ensures
        sorted_chunks(a, t) == sorted_chunks(b, t),
{
    lemma_sorted_chunks_facts(a, t);
    lemma_sorted_chunks_facts(b, t);
    lemma_sorted_unique(sorted_chunks(a, t), sorted_chunks(b, t));
}

/// The summary decoder reads the footer chunks alone, in manifest-index order: lists
/// with the same footer chunks (distinct indices among them), in any order and with any
/// other chunks, walk to the same result.
pub proof fn lemma_summary_reads_footers_only(a: Seq<FilmChunkData>, b: Seq<FilmChunkData>)
    requires
        same_of_type(a, b, 3),
        distinct_of_type(a, 3),
        distinct_of_type(b, 3),
    ensures
        summary_walk(a) == summary_walk(b),
{
    lemma_sorted_chunks_ignore_order(a, b, 3);
}

/// Events decoded from a run of summary packets, by their diagnostics.
pub open spec fn decoded_total(packets: Seq<SummaryPacketDiagnostics>) -> int
    decreases packets.len(),
{
    if packets.len() == 0 {
        0
    } else {
        decoded_total(packets.drop_last()) + packets.last().decoded_events
    }
}

proof fn lemma_payload_events_len(p: Seq<u8>, chunk: i32, payload_byte: usize, n: nat)
    ensures
        payload_events(p, chunk, payload_byte, n).len() <= n,
    decreases n,
{
    if n > 0 {
        lemma_payload_events_len(p, chunk, payload_byte, (n - 1) as nat);
    }
}

proof fn lemma_walk_footer_total(st: SummaryState, data: Seq<u8>, id: i32, offset: int)
    requires
        decoded_total(st.1) == st.0.len(),
        data.len() * 8 + 64 <= usize::MAX,
    ensures
        decoded_total(walk_footer(st, data, id, offset).0.1) == walk_footer(st, data, id, offset).0.0.len(),
    decreases data.len() - offset,
{
    if offset < 0 || offset >= data.len() {
    } else if offset + 16 > data.len() || offset + 16 + le_value(data, offset + 4, 4) > data.len() {
    } else if le_value(data, offset, 2) == 9 {
        if le_value(data, offset + 4, 4) >= 4 {
            let size = le_value(data, offset + 4, 4);
            let payload = data.subrange(offset + 16, offset + 16 + size);
            let pb = offset + 16;
            let events = payload_events(payload, id, pb as usize, payload.len() * 8);
            lemma_payload_events_len(payload, id, pb as usize, payload.len() * 8);
            let next = add_summary_packet(st, payload, id, pb);
            assert(next.1.drop_last() =~= st.1);
            assert(next.1.last().decoded_events == events.len());
            lemma_walk_footer_total(next, data, id, offset + 16 + size);
        }
    } else if le_value(data, offset, 2) == 7 && le_value(data, offset + 4, 4) == 0 {
        lemma_walk_footer_total(st, data, id, offset + 16);
    } else {
        lemma_walk_footer_total(
            (st.0, st.1, count_type(st.2, le_value(data, offset, 2) as u16)),
            data,
            id,
            offset + 16 + le_value(data, offset + 4, 4),
        );
    }
}

proof fn lemma_walk_footers_total(st: SummaryState, seen: Set<i32>, footers: Seq<FilmChunkData>)
    requires
        decoded_total(st.1) == st.0.len(),
        chunks_addressable_bits(footers),
    ensures
        decoded_total(walk_footers(st, seen, footers).0.1) == walk_footers(st, seen, footers).0.0.len(),
    decreases footers.len(),
{
    if footers.len() > 0 && !seen.contains(footers[0].metadata.index) {
        assert(footers[0].data@.len() * 8 + 64 <= usize::MAX);
        lemma_walk_footer_total(st, footers[0].data@, footers[0].metadata.index, 0);
        let rest = footers.drop_first();
        assert forall|i: int| 0 <= i < rest.len() implies #[trigger] rest[i].data@.len() * 8 + 64 <= usize::MAX by {
            assert(rest[i] == footers[i + 1]);
        }
        lemma_walk_footers_total(
            walk_footer(st, footers[0].data@, footers[0].metadata.index, 0).0,
            seen.insert(footers[0].metadata.index),
            rest,
        );
    }
}

proof fn lemma_sort_events_len(s: Seq<SummaryView>)
    ensures
        sort_events(s).len() == s.len(),
    decreases s.len(),
{
    if s.len() > 0 {
        lemma_sort_events_len(s.drop_last());
        lemma_insert_by_key_len(sort_events(s.drop_last()), s.last());
    }
}

proof fn lemma_insert_by_key_len(s: Seq<SummaryView>, e: SummaryView)
    ensures
        insert_by_key(s, e).len() == s.len() + 1,
    decreases s.len(),
{
    if s.len() > 0 && !event_key_lt(e, s[0]) {
        lemma_insert_by_key_len(s.drop_first(), e);
    }
}

/// The per-packet decoded counts of a footer walk add up to the number of events it
/// decoded: every event comes from exactly one summary packet.
pub proof fn lemma_decoded_counts_sum_to_events(chunks: Seq<FilmChunkData>)
    requires
        chunks_addressable_bits(chunks),
    ensures
        decoded_total(summary_walk(chunks).0.1) == sort_events(summary_walk(chunks).0.0).len(),
{
    let footers = sorted_footers(chunks);
    lemma_sorted_chunks_facts(chunks, 3);
    assert forall|i: int| 0 <= i < footers.len() implies #[trigger] footers[i].data@.len() * 8 + 64 <= usize::MAX by {
        assert(footers.contains(footers[i]));
        let k = choose|k: int| 0 <= k < chunks.len() && chunks[k] == footers[i];
        assert(chunks[k].data@.len() * 8 + 64 <= usize::MAX);
    }
    assert(decoded_total(empty_state().1) == 0);
    lemma_walk_footers_total(empty_state(), Set::empty(), footers);
    lemma_sort_events_len(summary_walk(chunks).0.0);
}

/// A valid event record at bit `b` (at 96 or later, below `n`) whose identity is followed
/// by either identity marker, `0x2dc0` or `0x25c0`, is among the events decoded below
/// bit `n`; and every decoded event is such a record at some bit.
pub proof fn lemma_payload_events_markers(p: Seq<u8>, chunk: i32, payload_byte: usize, n: nat, b: int)
    requires
        96 <= b < n,
        (window_spec(p, b) >> 48u64) == 0x2dc0u64 || (window_spec(p, b) >> 48u64) == 0x25c0u64,
        record_at(p, b) is Some,
    ensures
        payload_events(p, chunk, payload_byte, n).contains(record_view(record_at(p, b)->0, chunk, payload_byte)),
    decreases n,
{
    let prev = payload_events(p, chunk, payload_byte, (n - 1) as nat);
    let all = payload_events(p, chunk, payload_byte, n);
    let x = record_view(record_at(p, b)->0, chunk, payload_byte);
    if b == n - 1 {
        assert(is_marker_window(window_spec(p, n - 1)));
        assert(all == prev + seq![x]);
        assert(all[prev.len() as int] == x);
    } else {
        lemma_payload_events_markers(p, chunk, payload_byte, (n - 1) as nat, b);
        let k = choose|k: int| 0 <= k < prev.len() && prev[k] == x;
        assert(all[k] == prev[k]);
    }
}

/// Every event decoded below bit `n` is a valid record at a bit from 96 on whose window
/// starts with one of the two identity markers.
pub proof fn lemma_payload_events_sources(p: Seq<u8>, chunk: i32, payload_byte: usize, n: nat, k: int)
    requires
        0 <= k < payload_events(p, chunk, payload_byte, n).len(),
    ensures
        exists|b: int| #![trigger record_at(p, b)]
            96 <= b < n && ((window_spec(p, b) >> 48u64) == 0x2dc0u64 || (window_spec(p, b) >> 48u64) == 0x25c0u64)
                && record_at(p, b) is Some && payload_events(p, chunk, payload_byte, n)[k] == record_view(
                record_at(p, b)->0,
                chunk,
                payload_byte,
            ),
    decreases n,
{
    let prev = payload_events(p, chunk, payload_byte, (n - 1) as nat);
    let all = payload_events(p, chunk, payload_byte, n);
    if k < prev.len() {
        assert(all[k] == prev[k]);
        lemma_payload_events_sources(p, chunk, payload_byte, (n - 1) as nat, k);
        let b = choose|b: int| #![trigger record_at(p, b)]
            96 <= b < n - 1 && ((window_spec(p, b) >> 48u64) == 0x2dc0u64 || (window_spec(p, b) >> 48u64) == 0x25c0u64)
                && record_at(p, b) is Some && prev[k] == record_view(record_at(p, b)->0, chunk, payload_byte);
        assert(record_at(p, b) is Some);
    } else {
        let b = n - 1;
        assert(record_at(p, b) is Some);
    }
}

} // verus!
