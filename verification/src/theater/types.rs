//! Typed values of the version-41 Theater decoders.
use std::collections::BTreeMap;

use crate::clients::hi::film::{FilmPacket, FilmRegistry};
use crate::text::{owned, push_str, signed_decimal, i64_to_string};
use super::medals::MedalAward;
use vstd::prelude::*;

verus! {

/// Input contract for a versioned, partial decode. Chunk data must be decompressed.
#[derive(Debug, Clone)]
pub struct DecodeOptions {
    /// Film major version from the manifest. Only version 41 is supported.
    pub major_version: i32,
    /// Optional match identity retained in portable exports.
    pub match_id: Option<String>,
    /// Manifest duration, in microseconds; otherwise uses the last packet time.
    pub duration_us: Option<u64>,
    /// Retain packet indexes and accepted bit ranges, for unknown-data inspection.
    pub retain_coverage: bool,
}

impl DecodeOptions {
    /// Version-41 defaults. Supply the manifest duration/identity when available.
    pub fn v41() -> (r: Self)
        ensures
            r.major_version == 41,
            r.match_id is None,
            r.duration_us is None,
            r.retain_coverage,
    {
        DecodeOptions { major_version: 41, match_id: None, duration_us: None, retain_coverage: true }
    }
}

/// Structural errors are separate from unsupported record forms in diagnostics.
#[derive(Debug)]
pub enum DecodeError {
    /// The film version has no checked decoder.
    UnsupportedVersion(i32),
    /// Multiple chunks use the same index.
    DuplicateChunk(i32),
    /// A packet's header or declared payload is incomplete.
    Truncated {
        /// Chunk index.
        chunk: i32,
        /// Byte offset.
        offset: usize,
    },
    /// Required metadata or replication data is absent.
    Missing(&'static str),
    /// A supported capture's independent guards disagree.
    Inconsistent(String),
}

/// The error's message.
pub open spec fn decode_error_message(e: DecodeError) -> Seq<char> {
    match e {
        DecodeError::UnsupportedVersion(v) => "unsupported Theater film major version "@
            + signed_decimal(v as int) + "; supported: 41"@,
        DecodeError::DuplicateChunk(i) => "duplicate chunk index "@ + signed_decimal(i as int),
        DecodeError::Truncated { chunk, offset } => "truncated chunk "@ + signed_decimal(
            chunk as int,
        ) + " at byte "@ + signed_decimal(offset as int),
        DecodeError::Missing(what) => "missing "@ + what@,
        DecodeError::Inconsistent(what) => "inconsistent Theater data: "@ + what@,
    }
}

impl DecodeError {
    /// The error's message, as its `Display` renders it.
    pub fn to_string(&self) -> (r: String)
        requires
            self matches DecodeError::Truncated { offset, .. } ==> offset <= i64::MAX,
        ensures
            r@ == decode_error_message(*self),
    {
        match self {
            DecodeError::UnsupportedVersion(v) => {
                let mut s = owned("unsupported Theater film major version ");
                push_str(&mut s, i64_to_string(*v as i64).as_str());
                push_str(&mut s, "; supported: 41");
                s
            },
            DecodeError::DuplicateChunk(i) => {
                let mut s = owned("duplicate chunk index ");
                push_str(&mut s, i64_to_string(*i as i64).as_str());
                s
            },
            DecodeError::Truncated { chunk, offset } => {
                let mut s = owned("truncated chunk ");
                push_str(&mut s, i64_to_string(*chunk as i64).as_str());
                push_str(&mut s, " at byte ");
                push_str(&mut s, i64_to_string(*offset as i64).as_str());
                s
            },
            DecodeError::Missing(what) => {
                let mut s = owned("missing ");
                push_str(&mut s, what);
                s
            },
            DecodeError::Inconsistent(what) => {
                let mut s = owned("inconsistent Theater data: ");
                push_str(&mut s, what.as_str());
                s
            },
        }
    }
}

/// Original location in a decompressed chunk; bits are MSB-first and half-open.
#[derive(Debug, Clone, Copy, PartialEq, Eq, Structural)]
pub struct SourceSpan {
    /// Chunk index.
    pub chunk: i32,
    /// Packet payload byte offset in that chunk (zero for non-packet data).
    pub payload_byte: usize,
    /// First bit relative to the payload.
    pub bit: usize,
    /// First bit after the checked window; does not imply a complete record.
    pub end_bit: usize,
}

/// A value observed at an exact film timestamp, associated with a pawn life.
#[derive(Debug, Clone, PartialEq)]
pub struct Sample<T> {
    /// Microseconds since the earliest nonzero replication timestamp.
    pub time_us: u64,
    /// Wire identity plus 256 times (generation minus one).
    pub life: u16,
    /// Decoded value; absence of a sample is not a default value.
    pub value: T,
    /// Original checked bytes/bits.
    pub source: SourceSpan,
}

/// Supported raw coordinate bit widths, checked against spawn record boundaries.
#[derive(Debug, Clone, Copy, PartialEq, Eq, Structural)]
pub enum CoordinateLayout {
    /// X: 13 bits, Y: 12 bits, Z: 11 bits; predicted by the Aquarius map bounds.
    X13Y12Z11,
    /// X: 15 bits, Y: 15 bits, Z: 17 bits.
    X15Y15Z17,
    /// X: 17 bits, Y: 17 bits, Z: 16 bits; observed in the Bazaar capture.
    X17Y17Z16,
    /// X: 18 bits, Y: 18 bits, Z: 15 bits.
    X18Y18Z15,
}

/// Width of each raw axis of a layout, in X/Y/Z order.
pub open spec fn layout_axis_bits(layout: CoordinateLayout) -> [usize; 3] {
    match layout {
        CoordinateLayout::X13Y12Z11 => [13, 12, 11],
        CoordinateLayout::X15Y15Z17 => [15, 15, 17],
        CoordinateLayout::X17Y17Z16 => [17, 17, 16],
        CoordinateLayout::X18Y18Z15 => [18, 18, 15],
    }
}

/// Total coordinate width of a layout.
pub open spec fn layout_coordinate_bits(layout: CoordinateLayout) -> nat {
    match layout {
        CoordinateLayout::X13Y12Z11 => 36,
        CoordinateLayout::X15Y15Z17 => 47,
        CoordinateLayout::X17Y17Z16 => 50,
        CoordinateLayout::X18Y18Z15 => 51,
    }
}

impl CoordinateLayout {
    /// Width of each raw axis, in X/Y/Z order.
    pub fn axis_bits(self) -> (r: [usize; 3])
        ensures
            r == layout_axis_bits(self),
    {
        match self {
            CoordinateLayout::X13Y12Z11 => [13, 12, 11],
            CoordinateLayout::X15Y15Z17 => [15, 15, 17],
            CoordinateLayout::X17Y17Z16 => [17, 17, 16],
            CoordinateLayout::X18Y18Z15 => [18, 18, 15],
        }
    }

    /// Sum of the axis widths.
    pub fn coordinate_bits(self) -> (r: usize)
        ensures
            r == layout_coordinate_bits(self),
            r == layout_axis_bits(self)@[0] + layout_axis_bits(self)@[1] + layout_axis_bits(self)@[2],
    {
        let bits = self.axis_bits();
        bits[0] + bits[1] + bits[2]
    }

    /// Position component: five leading bits, coordinates, two trailing bits.
    pub fn position_bits(self) -> (r: usize)
        ensures
            r == 5 + layout_coordinate_bits(self) + 2,
    {
        5 + self.coordinate_bits() + 2
    }
}

/// Recorded raw position. World units and origin are not calibrated.
#[derive(Debug, Clone, Copy, PartialEq, Eq)]
pub struct Position {
    /// X, Y, Z extraction windows.
    pub raw: [u32; 3],
    /// Whether this value comes from a spawn rather than a position update.
    pub spawn: bool,
    /// Input axes in the same checked input chain, when present.
    pub input: Option<InputAxes>,
}

/// Two analog movement axes; 31 is neutral and observed values span 0–62.
#[derive(Debug, Clone, Copy, PartialEq, Eq, Structural)]
pub struct InputAxes {
    /// Forward/back axis.
    pub forward: u8,
    /// Left/right axis.
    pub left: u8,
}

/// Raw desired aim; angular conversions remain provisional.
#[derive(Debug, Clone, Copy, PartialEq, Eq, Structural)]
pub struct Aim {
    /// Cyclic 12-bit yaw.
    pub yaw: u16,
    /// 11-bit pitch, upward increasing near level 1024.
    pub pitch: u16,
}

/// Raw body-health observation, without calibrated hit points.
#[derive(Debug, Clone, Copy, PartialEq, Eq, Structural)]
pub struct BodyVitality {
    /// Raw observed amount, full-scale preview 126.
    pub raw: u8,
    /// Three-bit state code.
    pub state: u8,
}

/// Raw shield observation and checked regeneration countdown.
#[derive(Debug, Clone, Copy, PartialEq, Eq, Structural)]
pub struct ShieldVitality {
    /// Raw observed amount, full-scale preview 64.
    pub raw: u8,
    /// Countdown in nominal 60 Hz ticks, up to 300.
    pub delay_ticks: u16,
    /// Four-bit state code.
    pub state: u8,
}

/// Firing activity; sequence gaps do not establish missing bullets.
#[derive(Debug, Clone, Copy, PartialEq, Eq, Structural)]
pub struct Firing {
    /// Wrapping eight-bit event sequence.
    pub sequence: u8,
    /// Raw 40-bit weapon window: `slot3 + 1 + key32 + 0100` in the checked form.
    pub weapon_window: u64,
}

/// Inventory slot of a firing window in the checked form: low nibble `0100`, and
/// the bits above bit 36 are `1` (slot 0) or `3` (slot 1).
pub open spec fn firing_slot(window: u64) -> Option<u8> {
    if window & 0xf != 4 {
        None
    } else if window >> 36u64 == 1 {
        Some(0u8)
    } else if window >> 36u64 == 3 {
        Some(1u8)
    } else {
        None
    }
}

impl Firing {
    /// Recorded inventory slot from the checked `slot3 + 1 + key32 + 0100` form.
    pub fn weapon_slot(&self) -> (r: Option<u8>)
        ensures
            r == firing_slot(self.weapon_window),
    {
        if self.weapon_window & 0xf != 4 {
            return None;
        }
        let high = self.weapon_window >> 36u64;
        if high == 1 {
            Some(0)
        } else if high == 3 {
            Some(1)
        } else {
            None
        }
    }

    /// The 32 bits above the low nibble, in the checked firing form.
    pub fn weapon_fingerprint(&self) -> (r: Option<u32>)
        ensures
            firing_slot(self.weapon_window) is None ==> r is None,
            firing_slot(self.weapon_window) is Some ==> r == Some((self.weapon_window >> 4u64) as u32),
    {
        if self.weapon_slot().is_none() {
            return None;
        }
        Some((self.weapon_window >> 4u64) as u32)
    }
}

/// Observed magazine quantity, not reserve inventory.
#[derive(Debug, Clone, Copy, PartialEq, Eq, Structural)]
pub struct Magazine {
    /// Zero-based weapon slot, currently 0 or 1.
    pub slot: u8,
    /// Checked quantity 0–36; zero has a different wire width.
    pub rounds: u8,
}

/// Held-weapon evidence from firing, or an observed weapon-set change.
#[derive(Debug, Clone, Copy, PartialEq, Eq, Structural)]
pub struct WeaponObservation {
    /// Zero-based slot from a checked firing field, magazine association or selection.
    pub slot: Option<u8>,
    /// Firing identifies this window independently of ammo. None invalidates the held name.
    pub weapon_window: Option<u64>,
}

/// Scope stage, deliberately distinct from magnification or camera FOV.
#[derive(Debug, Clone, Copy, PartialEq, Eq, Structural)]
pub enum ZoomStage {
    /// Stage zero.
    Unscoped,
    /// Stage one.
    First,
    /// Stage two.
    Second,
}

impl ZoomStage {
    /// Raw stage number 0/1/2.
    pub fn raw(self) -> (r: u8)
        ensures
            r == (match self {
                ZoomStage::Unscoped => 0u8,
                ZoomStage::First => 1u8,
                ZoomStage::Second => 2u8,
            }),
    {
        match self {
            ZoomStage::Unscoped => 0,
            ZoomStage::First => 1,
            ZoomStage::Second => 2,
        }
    }
}

/// A checked spawn and its associated death/next-spawn boundary.
#[derive(Debug, Clone, Copy, PartialEq, Eq)]
pub struct Life {
    /// Unique identity across the four observed generation tags.
    pub id: u16,
    /// Eight-bit wire identity.
    pub wire: u8,
    /// Logical generation 1..=4, encoded on the wire as 01, 10, 11, 00.
    pub generation: u8,
    /// Roster index, independent from spawn serial.
    pub player: u8,
    /// Spawn time in film microseconds.
    pub start_us: u64,
    /// Next spawn for this player, or the film duration.
    pub end_us: u64,
    /// Summary death, when present; zero is not synthesized at death.
    pub death_us: Option<u64>,
    /// The next life begins after a checked round-clock transition without death.
    pub round_reset: bool,
    /// Raw spawn coordinates.
    pub position: [u32; 3],
    /// Checked coordinate format.
    pub layout: CoordinateLayout,
    /// Checked spawn fields.
    pub source: SourceSpan,
}

/// A recorded model-region choice. IDs match Game CMS RegionData identifiers.
#[derive(Debug, Clone, PartialEq, Eq)]
pub struct ArmorRegion {
    /// Model region; signed string identifier, not a cosmetic inventory ID.
    pub region_id: i32,
    /// Selected geometry permutation for this region.
    pub permutation_id: i32,
}

/// Recorded attachment tag identifiers, matched to Game CMS TagId fields.
#[derive(Debug, Clone, PartialEq, Eq)]
pub struct ArmorAttachments {
    /// Chest attachment tag; zero does not identify an item.
    pub chest_tag_id: i32,
    /// Utility/hip attachment tag; zero does not identify an item.
    pub utility_tag_id: i32,
    /// Wrist attachment tag; zero does not identify an item.
    pub wrist_tag_id: i32,
    /// Left shoulder tag; geometry-based variants may use other fields.
    pub left_shoulder_tag_id: i32,
    /// Right shoulder tag; geometry-based variants may use other fields.
    pub right_shoulder_tag_id: i32,
}

/// Partial recorded customization. Unparsed accessory slots are not inferred.
#[derive(Debug, Clone, PartialEq, Eq)]
pub struct ArmorAppearance {
    /// The 22 base model-region pairs in the supported snapshot form.
    pub regions: Vec<ArmorRegion>,
    /// Matches Game CMS VisorId.m_identifier; may be a sentinel for other forms.
    pub visor_id: i32,
    /// Matches Game CMS ColorVariant.m_identifier.
    pub visor_color_id: i32,
    /// Matches armor-theme VariantId.m_identifier; not a universal core ID.
    pub armor_variant_id: i32,
    /// Matches armor-coating StyleId.m_identifier; not the inventory path/hash.
    pub coating_style_id: i32,
    /// Checked attachment fields. None means unavailable, not empty.
    pub attachments: Option<ArmorAttachments>,
    /// Four recorded mythic-effect identifiers matching Game CMS FxIds, padded with zeroes.
    pub mythic_effect_ids: Option<[i32; 4]>,
}

/// Player-level snapshot, which can precede spawning and persists independently of lives.
#[derive(Debug, Clone, PartialEq, Eq)]
pub struct AppearanceSample {
    /// Recorded packet timestamp relative to the film origin.
    pub time_us: u64,
    /// Identifiers read from the film, without live-account defaults or name lookups.
    pub value: ArmorAppearance,
    /// Roster and appearance window; intervening fields remain opaque.
    pub source: SourceSpan,
}

/// Per-player typed streams. Empty streams mean no accepted observations.
#[derive(Debug, Clone, Default, PartialEq)]
pub struct PlayerTrack {
    /// Roster index.
    pub id: u8,
    /// XUID encoded as text to avoid JavaScript integer precision loss.
    pub xuid: Option<String>,
    /// Recorded gamertag, or a fallback for an unbound roster entry.
    pub name: String,
    /// Recorded customization snapshots, bound by XUID/name rather than pawn life.
    pub appearance: Vec<AppearanceSample>,
    /// Independently identified spawns/lifetimes.
    pub lives: Vec<Life>,
    /// Raw positions, including checked spawns.
    pub positions: Vec<Sample<Position>>,
    /// Recorded velocities from checked pawn records.
    pub velocities: Vec<Sample<Velocity>>,
    /// Desired aim observations.
    pub aim: Vec<Sample<Aim>>,
    /// Movement input from checked wire-0/generation-1, roster-0 input chains.
    pub inputs: Vec<Sample<InputAxes>>,
    /// Recorded crouch input in supported command tails; not physical posture.
    pub crouch_input: Vec<Sample<bool>>,
    /// Guarded firing activity.
    pub firing: Vec<Sample<Firing>>,
    /// Victim-bound weapon-hit notifications; amount and full hit payload are unknown.
    pub damage: Vec<Sample<()>>,
    /// Guarded melee activity, with the opaque weapon window.
    pub melee: Vec<Sample<u64>>,
    /// Guarded grenade throw activity; type and hit outcome are unknown.
    pub grenades: Vec<Sample<()>>,
    /// Reload starts; manual/automatic cause and animation duration are unknown.
    pub reloads: Vec<Sample<()>>,
    /// Magazine values.
    pub magazines: Vec<Sample<Magazine>>,
    /// Checked zero-based selected weapon slot (currently 0 or 1).
    pub selections: Vec<Sample<u8>>,
    /// Firing weapon identities, optional slot associations, and weapon-set invalidations.
    pub weapons: Vec<Sample<WeaponObservation>>,
    /// Partial scope-stage observations.
    pub zoom: Vec<Sample<ZoomStage>>,
    /// Independent body health observations.
    pub body: Vec<Sample<BodyVitality>>,
    /// Independent shield observations.
    pub shields: Vec<Sample<ShieldVitality>>,
}

/// A summary event decoded independently from replication records.
#[derive(Debug, Clone, PartialEq, Eq)]
pub struct SummaryEvent {
    /// Recorded XUID as decimal text.
    pub xuid: String,
    /// Bound roster index, if available.
    pub player: Option<u8>,
    /// Recorded gamertag.
    pub name: String,
    /// Film-relative time in microseconds.
    pub time_us: u64,
    /// Summary kind, including unrecognized numeric codes.
    pub kind: SummaryKind,
    /// Raw metadata byte (medal code for medal events).
    pub metadata: u8,
    /// Raw medal flag.
    pub medal_flag: u8,
    /// Raw event type code, when decoded from a footer record.
    pub type_code: Option<u8>,
    /// Medal identity of a medal event.
    pub medal: Option<MedalAward>,
    /// The checked sixty-byte event tail.
    pub source: Option<SourceSpan>,
    /// The checked eight-byte identity.
    pub identity_source: Option<SourceSpan>,
}

/// Summary kinds; no pairing of kills/deaths is implied.
#[derive(Debug, Clone, Copy, PartialEq, Eq, Structural)]
pub enum SummaryKind {
    /// Mode marker.
    Mode,
    /// Death.
    Death,
    /// Kill.
    Kill,
    /// Medal; metadata retains its film code.
    Medal,
    /// Unrecognized code.
    Other(u8),
}

/// A set medal flag makes a medal; otherwise codes 10, 20 and 50 are mode, death and kill.
pub open spec fn summary_kind_spec(type_code: u8, medal_flag: u8) -> SummaryKind {
    if medal_flag != 0 {
        SummaryKind::Medal
    } else if type_code == 10 {
        SummaryKind::Mode
    } else if type_code == 20 {
        SummaryKind::Death
    } else if type_code == 50 {
        SummaryKind::Kill
    } else {
        SummaryKind::Other(type_code)
    }
}

/// How a summary event is classified, for every type code and medal flag: a set medal
/// flag makes a medal award whatever the code; without it, code 10 is a mode highlight
/// (an objective event), 20 a death and 50 a kill, and any other code is kept as it is.
pub proof fn lemma_summary_kind_classes(type_code: u8, medal_flag: u8)
    ensures
        (summary_kind_spec(type_code, medal_flag) == SummaryKind::Medal) <==> medal_flag != 0,
        medal_flag == 0 ==> ((summary_kind_spec(type_code, medal_flag) == SummaryKind::Mode) <==> type_code == 10),
        medal_flag == 0 ==> ((summary_kind_spec(type_code, medal_flag) == SummaryKind::Death) <==> type_code == 20),
        medal_flag == 0 ==> ((summary_kind_spec(type_code, medal_flag) == SummaryKind::Kill) <==> type_code == 50),
        medal_flag == 0 && type_code != 10 && type_code != 20 && type_code != 50 ==> summary_kind_spec(type_code, medal_flag)
            == SummaryKind::Other(type_code),
        summary_kind_spec(type_code, medal_flag) matches SummaryKind::Other(c) ==> c == type_code,
{
}

impl SummaryKind {
    /// Kind from the recorded type code and medal flag.
    pub fn from_fields(type_code: u8, medal_flag: u8) -> (r: Self)
        ensures
            r == summary_kind_spec(type_code, medal_flag),
    {
        if medal_flag != 0 {
            return SummaryKind::Medal;
        }
        match type_code {
            10 => SummaryKind::Mode,
            20 => SummaryKind::Death,
            50 => SummaryKind::Kill,
            other => SummaryKind::Other(other),
        }
    }
}

/// A checked clock observation. Round signature changes are retained explicitly.
#[derive(Debug, Clone, Copy, PartialEq, Eq, Structural)]
pub struct ClockSample {
    /// Film-relative time.
    pub time_us: u64,
    /// Raw 26-bit signature after three uninterpreted leading bits.
    pub signature: u32,
    /// Eight-bit wrapping counter.
    pub counter: u8,
    /// Original location.
    pub source: SourceSpan,
}

/// Controlled grenade track; general Ranked projectile grammar remains unsupported.
#[derive(Debug, Clone, PartialEq)]
pub struct ProjectileTrack {
    /// Checked identity in the two controlled paths.
    pub id: u16,
    /// Two-bit generation tag of the projectile identity.
    pub generation: u8,
    /// Owner roster index, established only under the single-player control guards.
    pub player: u8,
    /// Thrower's life, independent of projectile lifetime.
    pub life: u16,
    /// Projectile spawn time.
    pub start_us: u64,
    /// Checked terminal-event time, or one microsecond after the last update.
    pub end_us: u64,
    /// Recorded coordinates, including spawn; never a simulated ballistic arc.
    pub positions: Vec<Sample<[u32; 3]>>,
    /// Recorded velocities, including the spawn's.
    pub velocities: Vec<Sample<Velocity>>,
    /// Recorded at-rest flags.
    pub at_rest: Vec<Sample<bool>>,
    /// Terminal-event source, in the controlled single-throw form only.
    pub terminal: Option<SourceSpan>,
}

/// A recorded velocity: the explicit stationary form, or a cube-face direction code
/// and a ten-bit logarithmic magnitude code.
#[derive(Debug, Clone, Copy, PartialEq, Eq, Structural)]
pub enum Velocity {
    /// The explicit stationary form.
    Stationary,
    /// A direction code (six cube faces of 293 by 293 cells, stride 294) and a
    /// magnitude code.
    Directed { direction_code: u32, magnitude_code: u16 },
}

/// A structurally checked region; it may include opaque fields, not decoded semantics.
#[derive(Debug, Clone, PartialEq, Eq)]
pub struct CheckedRegion {
    /// Original range.
    pub source: SourceSpan,
    /// Record/guard family.
    pub kind: String,
}

/// Diagnostics distinguish unsupported data from decoded observations.
#[derive(Debug, Clone, Default, PartialEq, Eq)]
pub struct DecodeDiagnostics {
    /// Number of replication frames inspected.
    pub frames: usize,
    /// Counts by rejection/coverage reason. These are candidates, not missed events.
    pub rejected: BTreeMap<String, usize>,
    /// All checked windows; their complement remains unparsed. Windows may overlap.
    pub checked_regions: Vec<CheckedRegion>,
    /// Explicit scope limits for consumers of the portable export.
    pub limitations: Vec<String>,
}

/// Typed partial Theater film, independent of filesystem and network.
#[derive(Debug, Clone, PartialEq)]
pub struct Film {
    /// Portable JSON schema version, separate from the Halo film major version.
    pub schema_version: u32,
    /// Halo film major version.
    pub major_version: i32,
    /// Optional manifest match identity.
    pub match_id: Option<String>,
    /// Film duration in microseconds.
    pub duration_us: u64,
    /// Raw origin timestamp; sample times are relative to this value.
    pub origin_timestamp_us: u64,
    /// Component names; runtime registry bytes are not treated as stable IDs.
    pub registry: FilmRegistry,
    /// Strictly indexed replication packets, optionally omitted for compact export.
    pub packets: Vec<FilmPacket>,
    /// Roster/lives and all accepted player observations.
    pub players: Vec<PlayerTrack>,
    /// Independent summary events.
    pub summary_events: Vec<SummaryEvent>,
    /// Checked clocks, including changes between rounds.
    pub clocks: Vec<ClockSample>,
    /// Only the established controlled grenade tracks.
    pub projectiles: Vec<ProjectileTrack>,
    /// Unsupported candidates, checked source ranges and scope limitations.
    pub diagnostics: DecodeDiagnostics,
}

} // verus!
