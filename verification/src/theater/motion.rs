//! Version-41 pawn records: spawns, pawn headers and their position, aim, vitality,
//! weapon and input components.
use super::bits::{bit_len, bits_value, matches_spec, read_spec, Bits};
use super::combat::{clock, clock_spec, serial, serial_spec, INPUT_END, INPUT_END_BITS};
use super::types::{
    layout_axis_bits, layout_coordinate_bits, Aim, BodyVitality, CoordinateLayout, InputAxes,
    Magazine, ShieldVitality, Velocity,
};
use super::velocity::{read_velocity_spec, read as read_velocity};
use vstd::prelude::*;

verus! {

/// The 49-bit body that follows a spawn's identity.
pub const SPAWN_BODY: u64 = 0x11c3630ed7b40;

pub const SPAWN_BODY_BITS: usize = 49;

/// Observed 63-bit prefixes that precede spawn coordinates.
pub const COORD_PREFIXES: [u64; 3] = [0x60865f80d87cdc48, 0x60865f80187cdc48, 0x60864f80d87cdc48];

pub const COORD_PREFIX_BITS: usize = 63;

/// The 30-bit suffix that closes spawn coordinates, and its captured variant.
pub const COORD_SUFFIX: u64 = 0x3a97381;

pub const COORD_SUFFIX_ALT: u64 = 0x3a97383;

pub const COORD_SUFFIX_BITS: usize = 30;

/// Strictly increasing values.
pub open spec fn increasing(s: Seq<u8>) -> bool {
    forall|i: int| 0 < i < s.len() ==> s[i - 1] < #[trigger] s[i]
}

/// The `count` six-bit component ids read from `start`.
pub open spec fn ids_at(p: Seq<u8>, start: int, count: nat) -> Seq<u8> {
    Seq::new(count, |i: int| bits_value(p, start + 6 * i, 6) as u8)
}

/// A pawn header at `o`: `100010`, then the serial from the wire at +6 and tag at
/// +14, two zero bits at +16, a three-bit component count (not zero) at +18 and that
/// many strictly increasing six-bit component ids. Yields the serial, the ids and
/// the first bit after them.
pub open spec fn pawn_header_spec(p: Seq<u8>, o: int) -> Option<(u16, Seq<u8>, int)> {
    if !matches_spec(p, o, 0b100010, 6) || read_spec(p, o + 16, 2) != Some(0u64) {
        None
    } else {
        match (serial_spec(p, o + 6, o + 14), read_spec(p, o + 18, 3)) {
            (Some(serial), Some(count)) => if count == 0 || o + 21 + 6 * count > bit_len(p)
                || !increasing(ids_at(p, o + 21, count as nat)) {
                None
            } else {
                Some((serial, ids_at(p, o + 21, count as nat), o + 21 + 6 * count))
            },
            _ => None,
        }
    }
}

#[verifier::rlimit(40)]
pub fn pawn_header(bits: Bits, o: usize) -> (r: Option<(u16, Vec<u8>, usize)>)
    requires
        o + 4096 <= usize::MAX,
    ensures
        match pawn_header_spec(bits@, o as int) {
            Some((serial, ids, end)) => r matches Some(x) && x.0 == serial && x.1@ == ids && x.2 == end,
            None => r is None,
        },
        r matches Some(x) ==> 0 < x.1@.len() < 8 && x.2 == o + 21 + 6 * x.1@.len(),
{
    if !bits.matches(o, 0b100010, 6) {
        return None;
    }
    match bits.read(o + 16, 2) {
        Some(0) => {},
        _ => return None,
    }
    let serial = match serial(bits, o + 6, o + 14) {
        Some(s) => s,
        None => return None,
    };
    let count = match bits.read(o + 18, 3) {
        Some(c) => c,
        None => return None,
    };
    if count == 0 {
        return None;
    }
    proof {
        super::bits::lemma_bits_bound(bits@, o + 18, 3);
        vstd::arithmetic::power2::lemma2_to64();
    }
    let count = count as usize;
    let ghost want = ids_at(bits@, o + 21, count as nat);
    let ghost result = if o + 21 + 6 * count > bit_len(bits@) || !increasing(want) {
        None
    } else {
        Some((serial, want, o + 21 + 6 * count))
    };
    assert(pawn_header_spec(bits@, o as int) == result);
    let mut ids: Vec<u8> = Vec::new();
    let mut i: usize = 0;
    while i < count
        invariant
            count < 8,
            i <= count,
            o + 4096 <= usize::MAX,
            want == ids_at(bits@, o + 21, count as nat),
            ids@ == want.subrange(0, i as int),
            increasing(ids@),
            pawn_header_spec(bits@, o as int) == result,
            result == (if o + 21 + 6 * count > bit_len(bits@) || !increasing(want) {
                None
            } else {
                Some((serial, want, o + 21 + 6 * count))
            }),
            i > 0 ==> o + 21 + 6 * i <= bit_len(bits@),
        decreases count - i,
    {
        let id = match bits.read(o + 21 + 6 * i, 6) {
            Some(v) => v,
            None => {
                proof {
                    assert(o + 21 + 6 * count > bit_len(bits@));
                }
                return None;
            },
        };
        proof {
            super::bits::lemma_bits_bound(bits@, o + 21 + 6 * i, 6);
            vstd::arithmetic::power2::lemma2_to64();
        }
        let id = id as u8;
        if i > 0 && ids[i - 1] >= id {
            proof {
                assert(want[i - 1] >= want[i as int]);
                assert(!increasing(want)) by {
                    assert(!(want[i as int - 1] < want[i as int]));
                }
            }
            return None;
        }
        ids.push(id);
        i += 1;
        proof {
            assert(ids@ =~= want.subrange(0, i as int));
        }
    }
    proof {
        assert(ids@ =~= want);
    }
    Some((serial, ids, o + 21 + 6 * count))
}

/// Body vitality at `o`: a set bit, a raw amount of at most 126 in seven bits, and a
/// three-bit state 0, 4 or 6.
pub open spec fn body_spec(p: Seq<u8>, o: int) -> Option<BodyVitality> {
    match (read_spec(p, o + 1, 7), read_spec(p, o + 8, 3), read_spec(p, o, 1)) {
        (Some(raw), Some(state), Some(flag)) => if flag != 1 || raw > 126 || !(state == 0
            || state == 4 || state == 6) {
            None
        } else {
            Some(BodyVitality { raw: raw as u8, state: state as u8 })
        },
        _ => None,
    }
}

pub fn body(bits: Bits, o: usize) -> (r: Option<BodyVitality>)
    requires
        o + 1024 <= usize::MAX,
    ensures
        r == body_spec(bits@, o as int),
{
    let raw = match bits.read(o + 1, 7) {
        Some(v) => v,
        None => return None,
    };
    let state = match bits.read(o + 8, 3) {
        Some(v) => v,
        None => return None,
    };
    let flag = match bits.read(o, 1) {
        Some(v) => v,
        None => return None,
    };
    if flag != 1 || raw > 126 || !(state == 0 || state == 4 || state == 6) {
        return None;
    }
    Some(BodyVitality { raw: raw as u8, state: state as u8 })
}

/// Shield vitality at `o`: a raw amount of at most 64 in eight bits, eight zero bits,
/// a nine-bit regeneration delay of at most 300 ticks and a four-bit state 0, 1 or 12.
pub open spec fn shield_spec(p: Seq<u8>, o: int) -> Option<ShieldVitality> {
    match (read_spec(p, o, 8), read_spec(p, o + 16, 9), read_spec(p, o + 25, 4), read_spec(p, o + 8, 8)) {
        (Some(raw), Some(delay), Some(state), Some(gap)) => if raw > 64 || gap != 0 || delay > 300
            || !(state == 0 || state == 1 || state == 12) {
            None
        } else {
            Some(ShieldVitality { raw: raw as u8, delay_ticks: delay as u16, state: state as u8 })
        },
        _ => None,
    }
}

pub fn shield(bits: Bits, o: usize) -> (r: Option<ShieldVitality>)
    requires
        o + 1024 <= usize::MAX,
    ensures
        r == shield_spec(bits@, o as int),
{
    let raw = match bits.read(o, 8) {
        Some(v) => v,
        None => return None,
    };
    let delay = match bits.read(o + 16, 9) {
        Some(v) => v,
        None => return None,
    };
    let state = match bits.read(o + 25, 4) {
        Some(v) => v,
        None => return None,
    };
    if raw > 64 {
        return None;
    }
    match bits.read(o + 8, 8) {
        Some(0) => {},
        _ => return None,
    }
    if delay > 300 || !(state == 0 || state == 1 || state == 12) {
        return None;
    }
    Some(ShieldVitality { raw: raw as u8, delay_ticks: delay as u16, state: state as u8 })
}

/// Raw X, Y and Z read back to back from `o` with the layout's widths.
pub open spec fn coordinates_spec(p: Seq<u8>, o: int, layout: CoordinateLayout) -> Option<[u32; 3]> {
    let w = layout_axis_bits(layout);
    match (read_spec(p, o, w[0] as nat), read_spec(p, o + w[0], w[1] as nat), read_spec(p, o + w[0] + w[1], w[2] as nat)) {
        (Some(x), Some(y), Some(z)) => Some([x as u32, y as u32, z as u32]),
        _ => None,
    }
}

pub fn coordinates(bits: Bits, o: usize, layout: CoordinateLayout) -> (r: Option<[u32; 3]>)
    requires
        o + 512 <= usize::MAX,
    ensures
        r == coordinates_spec(bits@, o as int, layout),
{
    let w = layout.axis_bits();
    let x = match bits.read(o, w[0]) {
        Some(v) => v,
        None => return None,
    };
    let y = match bits.read(o + w[0], w[1]) {
        Some(v) => v,
        None => return None,
    };
    let z = match bits.read(o + w[0] + w[1], w[2]) {
        Some(v) => v,
        None => return None,
    };
    let r = [x as u32, y as u32, z as u32];
    proof {
        assert(coordinates_spec(bits@, o as int, layout) == Some(r));
    }
    Some(r)
}

/// A position component at `o`: five zero bits, the coordinates, two zero bits.
pub open spec fn position_spec(p: Seq<u8>, o: int, layout: CoordinateLayout) -> Option<[u32; 3]> {
    if read_spec(p, o, 5) != Some(0u64) || read_spec(p, o + 5 + layout_coordinate_bits(layout), 2)
        != Some(0u64) {
        None
    } else {
        coordinates_spec(p, o + 5, layout)
    }
}

pub fn position(bits: Bits, o: usize, layout: CoordinateLayout) -> (r: Option<[u32; 3]>)
    requires
        o + 1024 <= usize::MAX,
    ensures
        r == position_spec(bits@, o as int, layout),
{
    match bits.read(o, 5) {
        Some(0) => {},
        _ => return None,
    }
    match bits.read(o + 5 + layout.coordinate_bits(), 2) {
        Some(0) => {},
        _ => return None,
    }
    coordinates(bits, o + 5, layout)
}

/// An aim component at `o`: a set bit, a 12-bit yaw, an 11-bit pitch and a zero bit.
pub open spec fn aim_spec(p: Seq<u8>, o: int) -> Option<Aim> {
    if read_spec(p, o, 1) != Some(1u64) || read_spec(p, o + 24, 1) != Some(0u64) {
        None
    } else {
        match (read_spec(p, o + 1, 12), read_spec(p, o + 13, 11)) {
            (Some(yaw), Some(pitch)) => Some(Aim { yaw: yaw as u16, pitch: pitch as u16 }),
            _ => None,
        }
    }
}

pub fn aim(bits: Bits, o: usize) -> (r: Option<Aim>)
    requires
        o + 1024 <= usize::MAX,
    ensures
        r == aim_spec(bits@, o as int),
{
    match bits.read(o, 1) {
        Some(1) => {},
        _ => return None,
    }
    match bits.read(o + 24, 1) {
        Some(0) => {},
        _ => return None,
    }
    let yaw = match bits.read(o + 1, 12) {
        Some(v) => v,
        None => return None,
    };
    let pitch = match bits.read(o + 13, 11) {
        Some(v) => v,
        None => return None,
    };
    Some(Aim { yaw: yaw as u16, pitch: pitch as u16 })
}

/// Whether `v` holds `x`.
pub fn contains_u8(v: &Vec<u8>, x: u8) -> (r: bool)
    ensures
        r == v@.contains(x),
{
    let mut i: usize = 0;
    while i < v.len()
        invariant
            i <= v@.len(),
            forall|k: int| 0 <= k < i ==> v@[k] != x,
        decreases v@.len() - i,
    {
        if v[i] == x {
            return true;
        }
        i += 1;
    }
    false
}

/// The components decoded from one pawn record.
#[derive(Debug)]
pub struct Delta {
    pub ids: Vec<u8>,
    pub end: usize,
    pub position: Option<[u32; 3]>,
    pub velocity: Option<(usize, usize, Velocity)>,
    pub aim: Option<Aim>,
    pub body: Option<BodyVitality>,
    pub shield: Option<ShieldVitality>,
    pub magazines: Vec<Magazine>,
    pub selection: Option<u8>,
}

/// A pawn record as plain values.
pub ghost struct DeltaView {
    pub ids: Seq<u8>,
    pub end: int,
    pub position: Option<[u32; 3]>,
    pub velocity: Option<(usize, usize, Velocity)>,
    pub aim: Option<Aim>,
    pub body: Option<BodyVitality>,
    pub shield: Option<ShieldVitality>,
    pub magazines: Seq<Magazine>,
    pub selection: Option<u8>,
}

impl View for Delta {
    type V = DeltaView;

    open spec fn view(&self) -> DeltaView {
        DeltaView {
            ids: self.ids@,
            end: self.end as int,
            position: self.position,
            velocity: self.velocity,
            aim: self.aim,
            body: self.body,
            shield: self.shield,
            magazines: self.magazines@,
            selection: self.selection,
        }
    }
}

/// A record with its component ids and nothing decoded yet.
pub open spec fn empty_delta(ids: Seq<u8>) -> DeltaView {
    DeltaView {
        ids,
        end: 0,
        position: None,
        velocity: None,
        aim: None,
        body: None,
        shield: None,
        magazines: Seq::empty(),
        selection: None,
    }
}

impl Delta {
    pub fn new(ids: Vec<u8>) -> (r: Delta)
        ensures
            r@ == empty_delta(ids@),
    {
        Delta {
            ids,
            end: 0,
            position: None,
            velocity: None,
            aim: None,
            body: None,
            shield: None,
            magazines: Vec::new(),
            selection: None,
        }
    }
}

/// A velocity component's value with its bit range, when its direction is in use.
pub open spec fn velocity_at(at: int, end: int, v: Option<Velocity>) -> Option<(usize, usize, Velocity)> {
    match v {
        Some(v) => Some((at as usize, end as usize, v)),
        None => None,
    }
}

/// The ten-bit command tick component for `tick`: a set bit, the tick, a zero bit.
pub open spec fn tick_word(tick: u8) -> u64 {
    (512 + 2 * tick) as u64
}

/// The components of a clocked record from id `i` on, at bit `at`: a position (0);
/// a velocity (1, kept when its direction code is in use); body vitality (4, only
/// beside 5, kept when it checks) in 11 bits; shield vitality (5, a zero first bit,
/// kept when it checks) in 29 bits; aim (21) in 25 bits; and the command tick (25),
/// which ends the record. Any other id, or a record without the tick, is refused.
pub open spec fn clocked_walk(
    p: Seq<u8>,
    ids: Seq<u8>,
    i: int,
    at: int,
    layout: CoordinateLayout,
    tick: u8,
    d: DeltaView,
) -> Option<DeltaView>
    decreases ids.len() - i,
{
    if i < 0 || i >= ids.len() {
        None
    } else {
        let id = ids[i];
        if id == 0 {
            match position_spec(p, at, layout) {
                Some(v) => clocked_walk(p, ids, i + 1, at + 5 + layout_coordinate_bits(layout) + 2, layout, tick, DeltaView { position: Some(v), ..d }),
                None => None,
            }
        } else if id == 1 {
            match read_velocity_spec(p, at) {
                Some((v, end)) => clocked_walk(p, ids, i + 1, end, layout, tick, DeltaView { velocity: velocity_at(at, end, v), ..d }),
                None => None,
            }
        } else if id == 4 {
            if !d.ids.contains(5u8) || read_spec(p, at, 11) is None {
                None
            } else {
                clocked_walk(p, ids, i + 1, at + 11, layout, tick, DeltaView { body: body_spec(p, at), ..d })
            }
        } else if id == 5 {
            if read_spec(p, at, 1) != Some(0u64) || read_spec(p, at, 29) is None {
                None
            } else {
                clocked_walk(p, ids, i + 1, at + 29, layout, tick, DeltaView { shield: shield_spec(p, at), ..d })
            }
        } else if id == 21 {
            match aim_spec(p, at) {
                Some(a) => clocked_walk(p, ids, i + 1, at + 25, layout, tick, DeltaView { aim: Some(a), ..d }),
                None => None,
            }
        } else if id == 25 {
            if read_spec(p, at, 10) != Some(tick_word(tick)) {
                None
            } else {
                Some(DeltaView { end: at + 10, ..d })
            }
        } else {
            None
        }
    }
}

/// A clocked pawn record at `o`: a pawn header whose components include the command
/// tick, and its components up to the tick.
#[verifier::opaque]
pub open spec fn clocked_fields_spec(p: Seq<u8>, o: int, layout: CoordinateLayout, tick: u8) -> Option<DeltaView> {
    match pawn_header_spec(p, o) {
        Some((_, ids, at)) => if !ids.contains(25u8) {
            None
        } else {
            clocked_walk(p, ids, 0, at, layout, tick, empty_delta(ids))
        },
        None => None,
    }
}

pub fn clocked_fields(bits: Bits, o: usize, layout: CoordinateLayout, tick: u8) -> (r: Option<Delta>)
    requires
        o + 4096 <= usize::MAX,
    ensures
        match clocked_fields_spec(bits@, o as int, layout, tick) {
            Some(v) => r matches Some(d) && d@ == v,
            None => r is None,
        },
        r matches Some(d) ==> d.end <= o + 512 && 0 < d.ids@.len(),
{
    reveal(clocked_fields_spec);
    let (_, ids, mut at) = match pawn_header(bits, o) {
        Some(h) => h,
        None => return None,
    };
    if !contains_u8(&ids, 25) {
        return None;
    }
    let n = ids.len();
    let mut d = Delta::new(crate::text::copy_range(&ids, 0, n));
    proof {
        assert(ids@.subrange(0, n as int) =~= ids@);
    }
    let ghost start = at;
    let mut i: usize = 0;
    while i < n
        invariant
            n == ids@.len(),
            0 < n < 8,
            i <= n,
            o + 4096 <= usize::MAX,
            at <= o + 64 + 64 * i,
            d@.ids == ids@,
            clocked_fields_spec(bits@, o as int, layout, tick) == clocked_walk(bits@, ids@, i as int, at as int, layout, tick, d@),
        decreases n - i,
    {
        let id = ids[i];
        if id == 0 {
            match position(bits, at, layout) {
                Some(v) => {
                    d.position = Some(v);
                    at = at + layout.position_bits();
                },
                None => return None,
            }
        } else if id == 1 {
            match read_velocity(bits, at) {
                Some((v, end)) => {
                    d.velocity = match v {
                        Some(v) => Some((at, end, v)),
                        None => None,
                    };
                    at = end;
                },
                None => return None,
            }
        } else if id == 4 {
            if !contains_u8(&d.ids, 5) {
                return None;
            }
            let b = body(bits, at);
            if bits.read(at, 11).is_none() {
                return None;
            }
            d.body = b;
            at = at + 11;
        } else if id == 5 {
            match bits.read(at, 1) {
                Some(0) => {},
                _ => return None,
            }
            let s = shield(bits, at);
            if bits.read(at, 29).is_none() {
                return None;
            }
            d.shield = s;
            at = at + 29;
        } else if id == 21 {
            match aim(bits, at) {
                Some(a) => {
                    d.aim = Some(a);
                    at = at + 25;
                },
                None => return None,
            }
        } else if id == 25 {
            match bits.read(at, 10) {
                Some(w) => {
                    if w != 512 + 2 * (tick as u64) {
                        return None;
                    }
                },
                None => return None,
            }
            d.end = at + 10;
            return Some(d);
        } else {
            return None;
        }
        i += 1;
    }
    None
}

/// A clocked record that is followed by another record (a set bit) or by the end of
/// input when its last component is the command tick.
pub open spec fn clocked_delta_spec(p: Seq<u8>, o: int, layout: CoordinateLayout, tick: u8) -> Option<DeltaView> {
    match clocked_fields_spec(p, o, layout, tick) {
        None => None,
        Some(d) => if d.ids.last() == 25u8 {
            match read_spec(p, d.end, 1) {
                None => None,
                Some(b) => if b != 1 && !matches_spec(p, d.end, INPUT_END, 16) {
                    None
                } else {
                    Some(d)
                },
            }
        } else {
            Some(d)
        },
    }
}

pub fn clocked_delta(bits: Bits, o: usize, layout: CoordinateLayout, tick: u8) -> (r: Option<Delta>)
    requires
        o + 4096 <= usize::MAX,
    ensures
        match clocked_delta_spec(bits@, o as int, layout, tick) {
            Some(v) => r matches Some(d) && d@ == v,
            None => r is None,
        },
{
    let d = match clocked_fields(bits, o, layout, tick) {
        Some(d) => d,
        None => return None,
    };
    let n = d.ids.len();
    if d.ids[n - 1] == 25 {
        match bits.read(d.end, 1) {
            None => return None,
            Some(b) => if b != 1 && !bits.matches(d.end, INPUT_END, INPUT_END_BITS) {
                return None;
            },
        }
    }
    Some(d)
}

/// A vitality-only record at `o`: a pawn header with a serial under 128 whose
/// components are shield alone, or body then shield, both checking, followed by the
/// end of input.
pub open spec fn isolated_vitality_spec(p: Seq<u8>, o: int) -> Option<DeltaView> {
    match pawn_header_spec(p, o) {
        None => None,
        Some((serial, ids, at)) => if serial >= 128 {
            None
        } else if ids == seq![5u8] {
            match shield_spec(p, at) {
                Some(s) => if matches_spec(p, at + 29, INPUT_END, 16) {
                    Some(DeltaView { shield: Some(s), end: at + 29, ..empty_delta(ids) })
                } else {
                    None
                },
                None => None,
            }
        } else if ids == seq![4u8, 5u8] {
            match (body_spec(p, at), shield_spec(p, at + 11)) {
                (Some(b), Some(s)) => if matches_spec(p, at + 40, INPUT_END, 16) {
                    Some(DeltaView { body: Some(b), shield: Some(s), end: at + 40, ..empty_delta(ids) })
                } else {
                    None
                },
                _ => None,
            }
        } else {
            None
        },
    }
}

pub fn isolated_vitality(bits: Bits, o: usize) -> (r: Option<Delta>)
    requires
        o + 4096 <= usize::MAX,
    ensures
        match isolated_vitality_spec(bits@, o as int) {
            Some(v) => r matches Some(d) && d@ == v,
            None => r is None,
        },
{
    let (serial, ids, at) = match pawn_header(bits, o) {
        Some(h) => h,
        None => return None,
    };
    if serial >= 128 {
        return None;
    }
    let n = ids.len();
    if n == 1 && ids[0] == 5 {
        proof {
            assert(ids@ =~= seq![5u8]);
        }
        let s = match shield(bits, at) {
            Some(s) => s,
            None => return None,
        };
        if !bits.matches(at + 29, INPUT_END, INPUT_END_BITS) {
            return None;
        }
        let mut d = Delta::new(ids);
        d.shield = Some(s);
        d.end = at + 29;
        Some(d)
    } else if n == 2 && ids[0] == 4 && ids[1] == 5 {
        proof {
            assert(ids@ =~= seq![4u8, 5u8]);
        }
        let b = match body(bits, at) {
            Some(b) => b,
            None => return None,
        };
        let s = match shield(bits, at + 11) {
            Some(s) => s,
            None => return None,
        };
        if !bits.matches(at + 40, INPUT_END, INPUT_END_BITS) {
            return None;
        }
        let mut d = Delta::new(ids);
        d.body = Some(b);
        d.shield = Some(s);
        d.end = at + 40;
        Some(d)
    } else {
        proof {
            assert(ids@ != seq![5u8]) by {
                if n == 1 {
                    assert(ids@[0] != seq![5u8][0]);
                }
            }
            assert(ids@ != seq![4u8, 5u8]) by {
                if n == 2 {
                    assert(ids@[0] != seq![4u8, 5u8][0] || ids@[1] != seq![4u8, 5u8][1]);
                }
            }
        }
        None
    }
}

/// What may follow a weapon record at `at`: the end of input, a clocked record (when a
/// tick is known) or a vitality-only record.
pub open spec fn weapon_boundary(p: Seq<u8>, at: int, layout: CoordinateLayout, tick: Option<u8>) -> bool {
    matches_spec(p, at, INPUT_END, 16) || (tick matches Some(t) && clocked_delta_spec(p, at, layout, t) is Some)
        || isolated_vitality_spec(p, at) is Some
}

/// A magazine component of slot `slot` at `at`: `11` for an empty magazine (two bits),
/// or a zero bit, an eight-bit round count from 1 to 36 and a set bit (ten bits).
/// Yields the magazine and the component's width.
pub open spec fn magazine_spec(p: Seq<u8>, at: int, slot: u8) -> Option<(Magazine, int)> {
    match read_spec(p, at, 2) {
        None => None,
        Some(form) => if form == 3 {
            Some((Magazine { slot, rounds: 0 }, 2))
        } else {
            match (read_spec(p, at, 1), read_spec(p, at + 9, 1)) {
                (Some(lead), Some(close)) => if lead != 0 || close != 1 {
                    None
                } else {
                    match read_spec(p, at + 1, 8) {
                        Some(amount) => if 1 <= amount <= 36 {
                            Some((Magazine { slot, rounds: amount as u8 }, 10))
                        } else {
                            None
                        },
                        None => None,
                    }
                },
                _ => None,
            }
        },
    }
}

/// The components of a weapon record from id `i` on, at bit `at`: position (0),
/// velocity (1, kept as in a clocked record), body (4) and shield (5) vitality and aim (21) must each check; the
/// command tick (25) must match `tick`; magazines (30, 33) are kept; an inventory
/// word (31, 34, only beside its magazine) takes 11 bits; an overheat form (35) is
/// nine bits with two low zero bits and at most 21 above them; a selection (42) is
/// `0010001` (slot 0) or `0010011` (slot 1). After the last id comes a boundary.
pub open spec fn weapon_walk(
    p: Seq<u8>,
    ids: Seq<u8>,
    i: int,
    at: int,
    layout: CoordinateLayout,
    tick: Option<u8>,
    d: DeltaView,
) -> Option<DeltaView>
    decreases ids.len() - i,
{
    if i < 0 {
        None
    } else if i >= ids.len() {
        if weapon_boundary(p, at, layout, tick) {
            Some(DeltaView { end: at, ..d })
        } else {
            None
        }
    } else {
        let id = ids[i];
        if id == 0 {
            if position_spec(p, at, layout) is None {
                None
            } else {
                weapon_walk(p, ids, i + 1, at + 5 + layout_coordinate_bits(layout) + 2, layout, tick, d)
            }
        } else if id == 1 {
            match read_velocity_spec(p, at) {
                Some((v, end)) => weapon_walk(p, ids, i + 1, end, layout, tick, DeltaView { velocity: velocity_at(at, end, v), ..d }),
                None => None,
            }
        } else if id == 4 {
            if body_spec(p, at) is None {
                None
            } else {
                weapon_walk(p, ids, i + 1, at + 11, layout, tick, d)
            }
        } else if id == 5 {
            if shield_spec(p, at) is None {
                None
            } else {
                weapon_walk(p, ids, i + 1, at + 29, layout, tick, d)
            }
        } else if id == 21 {
            if aim_spec(p, at) is None {
                None
            } else {
                weapon_walk(p, ids, i + 1, at + 25, layout, tick, d)
            }
        } else if id == 25 {
            match (read_spec(p, at, 10), tick) {
                (Some(w), Some(t)) => if w != tick_word(t) {
                    None
                } else {
                    weapon_walk(p, ids, i + 1, at + 10, layout, tick, d)
                },
                _ => None,
            }
        } else if id == 30 || id == 33 {
            match magazine_spec(p, at, ((id - 30) / 3) as u8) {
                Some((m, width)) => weapon_walk(p, ids, i + 1, at + width, layout, tick, DeltaView { magazines: d.magazines.push(m), ..d }),
                None => None,
            }
        } else if id == 31 || id == 34 {
            if !d.ids.contains((id - 1) as u8) || read_spec(p, at, 11) is None {
                None
            } else {
                weapon_walk(p, ids, i + 1, at + 11, layout, tick, d)
            }
        } else if id == 35 {
            match read_spec(p, at, 9) {
                Some(raw) => if raw & 3 != 0 || raw >> 2u64 > 21 {
                    None
                } else {
                    weapon_walk(p, ids, i + 1, at + 9, layout, tick, d)
                },
                None => None,
            }
        } else if id == 42 {
            match read_spec(p, at, 7) {
                Some(form) => if form == 0b0010001 {
                    weapon_walk(p, ids, i + 1, at + 7, layout, tick, DeltaView { selection: Some(0u8), ..d })
                } else if form == 0b0010011 {
                    weapon_walk(p, ids, i + 1, at + 7, layout, tick, DeltaView { selection: Some(1u8), ..d })
                } else {
                    None
                },
                None => None,
            }
        } else {
            None
        }
    }
}

/// A weapon pawn record at `o`: a pawn header with a magazine or selection component
/// (30, 33 or 42), and its components up to a checked boundary.
#[verifier::opaque]
pub open spec fn weapon_delta_spec(p: Seq<u8>, o: int, layout: CoordinateLayout, tick: Option<u8>) -> Option<DeltaView> {
    match pawn_header_spec(p, o) {
        Some((_, ids, at)) => if !(ids.contains(30u8) || ids.contains(33u8) || ids.contains(42u8)) {
            None
        } else {
            weapon_walk(p, ids, 0, at, layout, tick, empty_delta(ids))
        },
        None => None,
    }
}

fn magazine(bits: Bits, at: usize, slot: u8) -> (r: Option<(Magazine, usize)>)
    requires
        at + 1024 <= usize::MAX,
    ensures
        match magazine_spec(bits@, at as int, slot) {
            Some((m, w)) => r == Some((m, w as usize)),
            None => r is None,
        },
{
    let form = match bits.read(at, 2) {
        Some(f) => f,
        None => return None,
    };
    if form == 3 {
        return Some((Magazine { slot, rounds: 0 }, 2));
    }
    let lead = match bits.read(at, 1) {
        Some(v) => v,
        None => return None,
    };
    let close = match bits.read(at + 9, 1) {
        Some(v) => v,
        None => return None,
    };
    if lead != 0 || close != 1 {
        return None;
    }
    let amount = match bits.read(at + 1, 8) {
        Some(v) => v,
        None => return None,
    };
    if !(1 <= amount && amount <= 36) {
        return None;
    }
    Some((Magazine { slot, rounds: amount as u8 }, 10))
}

pub fn weapon_delta(bits: Bits, o: usize, layout: CoordinateLayout, tick: Option<u8>) -> (r: Option<Delta>)
    requires
        o + 8192 <= usize::MAX,
    ensures
        match weapon_delta_spec(bits@, o as int, layout, tick) {
            Some(v) => r matches Some(d) && d@ == v,
            None => r is None,
        },
{
    reveal(weapon_delta_spec);
    let (_, ids, mut at) = match pawn_header(bits, o) {
        Some(h) => h,
        None => return None,
    };
    if !(contains_u8(&ids, 30) || contains_u8(&ids, 33) || contains_u8(&ids, 42)) {
        return None;
    }
    let n = ids.len();
    let mut d = Delta::new(crate::text::copy_range(&ids, 0, n));
    proof {
        assert(ids@.subrange(0, n as int) =~= ids@);
    }
    let mut i: usize = 0;
    while i < n
        invariant
            n == ids@.len(),
            0 < n < 8,
            i <= n,
            o + 8192 <= usize::MAX,
            at <= o + 64 + 64 * i,
            d@.ids == ids@,
            weapon_delta_spec(bits@, o as int, layout, tick) == weapon_walk(bits@, ids@, i as int, at as int, layout, tick, d@),
        decreases n - i,
    {
        let id = ids[i];
        if id == 0 {
            if position(bits, at, layout).is_none() {
                return None;
            }
            at = at + layout.position_bits();
        } else if id == 1 {
            match read_velocity(bits, at) {
                Some((v, end)) => {
                    d.velocity = match v {
                        Some(v) => Some((at, end, v)),
                        None => None,
                    };
                    at = end;
                },
                None => return None,
            }
        } else if id == 4 {
            if body(bits, at).is_none() {
                return None;
            }
            at = at + 11;
        } else if id == 5 {
            if shield(bits, at).is_none() {
                return None;
            }
            at = at + 29;
        } else if id == 21 {
            if aim(bits, at).is_none() {
                return None;
            }
            at = at + 25;
        } else if id == 25 {
            let w = match bits.read(at, 10) {
                Some(w) => w,
                None => return None,
            };
            let t = match tick {
                Some(t) => t,
                None => return None,
            };
            if w != 512 + 2 * (t as u64) {
                return None;
            }
            at = at + 10;
        } else if id == 30 || id == 33 {
            match magazine(bits, at, (id - 30) / 3) {
                Some((m, width)) => {
                    d.magazines.push(m);
                    at = at + width;
                },
                None => return None,
            }
        } else if id == 31 || id == 34 {
            if !contains_u8(&d.ids, id - 1) || bits.read(at, 11).is_none() {
                return None;
            }
            at = at + 11;
        } else if id == 35 {
            match bits.read(at, 9) {
                Some(raw) => if raw & 3 != 0 || raw >> 2u64 > 21 {
                    return None;
                },
                None => return None,
            }
            at = at + 9;
        } else if id == 42 {
            match bits.read(at, 7) {
                Some(0b0010001) => d.selection = Some(0),
                Some(0b0010011) => d.selection = Some(1),
                _ => return None,
            }
            at = at + 7;
        } else {
            return None;
        }
        i += 1;
    }
    let boundary = bits.matches(at, INPUT_END, INPUT_END_BITS) || (match tick {
        Some(t) => clocked_delta(bits, at, layout, t).is_some(),
        None => false,
    }) || isolated_vitality(bits, at).is_some();
    if !boundary {
        return None;
    }
    d.end = at;
    Some(d)
}

/// A spawn record: the pawn serial, roster index, raw coordinates, their layout and
/// the first bit after the record.
#[derive(Debug, Clone, Copy)]
pub struct Spawn {
    pub serial: u16,
    pub player: u8,
    pub xyz: [u32; 3],
    pub layout: CoordinateLayout,
    pub end: usize,
}

/// The layouts tried for spawn coordinates, in order.
pub open spec fn spawn_layout(k: int) -> CoordinateLayout {
    if k % 4 == 0 {
        CoordinateLayout::X13Y12Z11
    } else if k % 4 == 1 {
        CoordinateLayout::X15Y15Z17
    } else if k % 4 == 2 {
        CoordinateLayout::X17Y17Z16
    } else {
        CoordinateLayout::X18Y18Z15
    }
}

/// Where the coordinates of spawn candidate `k` start: 263 bits in, or 32 more for
/// the candidates from 4 on.
pub open spec fn spawn_coordinates_at(o: int, k: int) -> int {
    o + 263 + if k >= 4 { 32int } else { 0int }
}

/// One of the coordinate prefixes at `at`.
pub open spec fn coord_prefix_at(p: Seq<u8>, at: int) -> bool {
    matches_spec(p, at, COORD_PREFIXES@[0], 63) || matches_spec(p, at, COORD_PREFIXES@[1], 63)
        || matches_spec(p, at, COORD_PREFIXES@[2], 63)
}

/// One of the two coordinate suffixes at `at`.
pub open spec fn coord_suffix_at(p: Seq<u8>, at: int) -> bool {
    matches_spec(p, at, COORD_SUFFIX, 30) || matches_spec(p, at, COORD_SUFFIX_ALT, 30)
}

/// Spawn candidate `k` (0 to 7): a prefix 71 bits before its coordinates and a
/// suffix right after them in its layout.
pub open spec fn spawn_candidate(p: Seq<u8>, o: int, k: int) -> bool {
    coord_prefix_at(p, spawn_coordinates_at(o, k) - 71) && coord_suffix_at(
        p,
        spawn_coordinates_at(o, k) + layout_coordinate_bits(spawn_layout(k)),
    )
}

pub open spec fn spawn_header_spec(p: Seq<u8>, o: int) -> Option<u16> {
    if !matches_spec(p, o + 20, SPAWN_BODY, 49) || read_spec(p, o, 2) is None || read_spec(p, o, 2)
        == Some(3u64) || read_spec(p, o + 2, 8) != Some(0x22u64) {
        None
    } else {
        serial_spec(p, o + 10, o + 18)
    }
}

/// A spawn at `o`: the spawn body at +20, two flag bits other than `11`, the wire
/// identity 0x22 at +2, a serial from the wire at +10 and tag at +18, and exactly one
/// candidate whose coordinates read; the roster index comes from +69. It ends after
/// the coordinates' suffix.
pub open spec fn spawn_spec(p: Seq<u8>, o: int) -> Option<Spawn> {
    match spawn_header_spec(p, o) {
        None => None,
        Some(serial) => if !exists|k: int|
            0 <= k < 8 && spawn_candidate(p, o, k) && forall|j: int|
                0 <= j < 8 && j != k ==> !spawn_candidate(p, o, j) {
            None
        } else {
            let k = choose|k: int|
                0 <= k < 8 && spawn_candidate(p, o, k) && forall|j: int|
                    0 <= j < 8 && j != k ==> !spawn_candidate(p, o, j);
            let at = spawn_coordinates_at(o, k);
            match (coordinates_spec(p, at, spawn_layout(k)), read_spec(p, o + 69, 5)) {
                (Some(xyz), Some(player)) => Some(
                    Spawn {
                        serial,
                        player: player as u8,
                        xyz,
                        layout: spawn_layout(k),
                        end: (at + layout_coordinate_bits(spawn_layout(k)) + 30) as usize,
                    },
                ),
                _ => None,
            }
        },
    }
}

fn coord_prefix(bits: Bits, at: usize) -> (r: bool)
    ensures
        r == coord_prefix_at(bits@, at as int),
{
    bits.matches(at, COORD_PREFIXES[0], COORD_PREFIX_BITS) || bits.matches(at, COORD_PREFIXES[1], COORD_PREFIX_BITS)
        || bits.matches(at, COORD_PREFIXES[2], COORD_PREFIX_BITS)
}

fn coord_suffix(bits: Bits, at: usize) -> (r: bool)
    ensures
        r == coord_suffix_at(bits@, at as int),
{
    bits.matches(at, COORD_SUFFIX, COORD_SUFFIX_BITS) || bits.matches(at, COORD_SUFFIX_ALT, COORD_SUFFIX_BITS)
}

fn layout_at(k: usize) -> (r: CoordinateLayout)
    ensures
        r == spawn_layout(k as int),
{
    if k % 4 == 0 {
        CoordinateLayout::X13Y12Z11
    } else if k % 4 == 1 {
        CoordinateLayout::X15Y15Z17
    } else if k % 4 == 2 {
        CoordinateLayout::X17Y17Z16
    } else {
        CoordinateLayout::X18Y18Z15
    }
}

pub fn spawn(bits: Bits, o: usize) -> (r: Option<Spawn>)
    requires
        o + 4096 <= usize::MAX,
    ensures
        r == spawn_spec(bits@, o as int),
{
    if !bits.matches(o + 20, SPAWN_BODY, SPAWN_BODY_BITS) {
        return None;
    }
    match bits.read(o, 2) {
        Some(3) => return None,
        None => return None,
        _ => {},
    }
    match bits.read(o + 2, 8) {
        Some(0x22) => {},
        _ => return None,
    }
    let serial = match serial(bits, o + 10, o + 18) {
        Some(s) => s,
        None => return None,
    };
    assert(spawn_header_spec(bits@, o as int) == Some(serial));
    let mut count: usize = 0;
    let mut first: usize = 0;
    let mut k: usize = 0;
    while k < 8
        invariant
            k <= 8,
            o + 4096 <= usize::MAX,
            count <= k,
            count == 0 ==> forall|j: int| 0 <= j < k ==> !spawn_candidate(bits@, o as int, j),
            count > 0 ==> first < k && spawn_candidate(bits@, o as int, first as int),
            count == 1 ==> forall|j: int| 0 <= j < k && j != first ==> !spawn_candidate(bits@, o as int, j),
            count > 1 ==> exists|a: int, b: int|
                0 <= a < b < k && spawn_candidate(bits@, o as int, a) && spawn_candidate(bits@, o as int, b),
        decreases 8 - k,
    {
        let at = o + 263 + if k >= 4 { 32 } else { 0 };
        let layout = layout_at(k);
        if coord_prefix(bits, at - 71) && coord_suffix(bits, at + layout.coordinate_bits()) {
            if count == 0 {
                first = k;
            } else {
                assert(spawn_candidate(bits@, o as int, first as int));
                assert(spawn_candidate(bits@, o as int, k as int));
            }
            count = count + 1;
        }
        k += 1;
    }
    if count != 1 {
        proof {
            if count > 1 {
                let (a, b) = choose|a: int, b: int|
                    0 <= a < b < 8 && spawn_candidate(bits@, o as int, a) && spawn_candidate(bits@, o as int, b);
                assert forall|k: int|
                    0 <= k < 8 && spawn_candidate(bits@, o as int, k) implies !(forall|j: int|
                        0 <= j < 8 && j != k ==> !spawn_candidate(bits@, o as int, j)) by {
                    if k == a {
                        assert(b != k && spawn_candidate(bits@, o as int, b));
                    } else {
                        assert(a != k && spawn_candidate(bits@, o as int, a));
                    }
                }
            }
        }
        return None;
    }
    let ghost chosen = choose|k: int|
        0 <= k < 8 && spawn_candidate(bits@, o as int, k) && forall|j: int|
            0 <= j < 8 && j != k ==> !spawn_candidate(bits@, o as int, j);
    assert(chosen == first);
    let layout = layout_at(first);
    let at = o + 263 + if first >= 4 { 32 } else { 0 };
    let xyz = match coordinates(bits, at, layout) {
        Some(v) => v,
        None => return None,
    };
    let player = match bits.read(o + 69, 5) {
        Some(v) => v,
        None => return None,
    };
    Some(Spawn { serial, player: player as u8, xyz, layout, end: at + layout.coordinate_bits() + 30 })
}

/// A checked input chain: its position, velocity and aim, input axes, end, a copied position,
/// whether a secondary block was present and how many auxiliary blocks it had.
#[derive(Debug, Clone, Copy)]
pub struct Chain {
    pub position: Option<[u32; 3]>,
    pub velocity: Option<(usize, usize, Velocity)>,
    pub aim: Option<Aim>,
    pub input: Option<InputAxes>,
    pub end: usize,
    pub copied: Option<[u32; 3]>,
    pub secondary: bool,
    pub auxiliaries: usize,
}

/// The chain's tail at `at`: three zero bits, then one more bit that must be there,
/// and, when `1000000001101` starts there, two input axes of at most 62 in six bits
/// each (25 bits in all).
pub open spec fn chain_input(p: Seq<u8>, at: int, c: Chain) -> Option<Chain> {
    if read_spec(p, at, 3) != Some(0u64) || read_spec(p, at + 3, 1) is None {
        None
    } else if matches_spec(p, at + 3, 0x100d, 13) {
        match (read_spec(p, at + 16, 6), read_spec(p, at + 22, 6)) {
            (Some(forward), Some(left)) => if forward > 62 || left > 62 {
                None
            } else {
                Some(Chain { input: Some(InputAxes { forward: forward as u8, left: left as u8 }), end: (at + 28) as usize, ..c })
            },
            _ => None,
        }
    } else {
        Some(Chain { end: (at + 3) as usize, ..c })
    }
}

/// A copied position at `at` (`10010100110101`, then `0100001000000000`,
/// coordinates from +30 that agree with the chain's position when it has one, and
/// two zero bits), then the tail.
pub open spec fn chain_copied(p: Seq<u8>, at: int, layout: CoordinateLayout, c: Chain) -> Option<Chain> {
    if matches_spec(p, at, 0x2535, 14) {
        if !matches_spec(p, at + 14, 0x4200, 16) {
            None
        } else {
            match coordinates_spec(p, at + 30, layout) {
                None => None,
                Some(xyz) => if (c.position is Some && c.position != Some(xyz)) || read_spec(
                    p,
                    at + 30 + layout_coordinate_bits(layout),
                    2,
                ) != Some(0u64) {
                    None
                } else {
                    chain_input(p, at + 32 + layout_coordinate_bits(layout), Chain { copied: Some(xyz), ..c })
                },
            }
        }
    } else {
        chain_input(p, at, c)
    }
}

/// Auxiliary blocks from `at` (`10010100010010` or `10010100010100`, then
/// `0100001000001000001` and 18 more bits: 51 bits each), counted, then the rest.
pub open spec fn chain_aux(p: Seq<u8>, at: int, layout: CoordinateLayout, c: Chain) -> Option<Chain>
    decreases bit_len(p) - at,
{
    if matches_spec(p, at, 0x2512, 14) || matches_spec(p, at, 0x2514, 14) {
        if !matches_spec(p, at + 14, 0x21041, 19) || read_spec(p, at + 33, 18) is None {
            None
        } else {
            chain_aux(p, at + 51, layout, Chain { auxiliaries: (c.auxiliaries + 1) as usize, ..c })
        }
    } else {
        chain_copied(p, at, layout, c)
    }
}

/// The chain's own clocked record at bit 37 (`10001000000000`), with serial 0 and
/// only position, velocity, aim and tick components. Yields its position, velocity,
/// aim and end; without such a record, nothing and bit 37.
pub open spec fn chain_head(p: Seq<u8>, layout: CoordinateLayout, tick: u8) -> Option<(Option<[u32; 3]>, Option<(usize, usize, Velocity)>, Option<Aim>, int)> {
    if matches_spec(p, 37, 0x2200, 14) {
        match pawn_header_spec(p, 37) {
            None => None,
            Some((serial, ids, _)) => if serial != 0 || !(forall|i: int|
                0 <= i < ids.len() ==> #[trigger] ids[i] == 0 || ids[i] == 1 || ids[i] == 21 || ids[i] == 25) {
                None
            } else {
                match clocked_fields_spec(p, 37, layout, tick) {
                    None => None,
                    Some(d) => Some((d.position, d.velocity, d.aim, d.end)),
                }
            },
        }
    } else {
        Some((None, None, None, 37))
    }
}

/// A secondary block at `at` (`10001000000001`, `010000100010`, 30 more bits).
pub open spec fn chain_secondary(p: Seq<u8>, at: int) -> Option<(bool, int)> {
    if matches_spec(p, at, 0x2201, 14) && matches_spec(p, at + 14, 0x422, 12) {
        if read_spec(p, at + 26, 30) is None {
            None
        } else {
            Some((true, at + 56))
        }
    } else {
        Some((false, at))
    }
}

/// The wire-0, generation-1 input chain at the start of a packet: a strict round
/// clock, the chain's own record, a secondary block, auxiliary blocks, a copied
/// position and the input tail.
pub open spec fn input_chain_spec(p: Seq<u8>, layout: CoordinateLayout) -> Option<Chain> {
    match clock_spec(p, 0, true) {
        None => None,
        Some((_, tick)) => match chain_head(p, layout, tick) {
            None => None,
            Some((position, velocity, aim, a1)) => match chain_secondary(p, a1) {
                None => None,
                Some((secondary, a2)) => chain_aux(
                    p,
                    a2,
                    layout,
                    Chain { position, velocity, aim, input: None, end: 0, copied: None, secondary, auxiliaries: 0 },
                ),
            },
        },
    }
}

fn head_ids_allowed(ids: &Vec<u8>) -> (r: bool)
    ensures
        r == (forall|i: int| 0 <= i < ids@.len() ==> #[trigger] ids@[i] == 0 || ids@[i] == 1 || ids@[i] == 21 || ids@[i] == 25),
{
    let mut i: usize = 0;
    while i < ids.len()
        invariant
            i <= ids@.len(),
            forall|k: int| 0 <= k < i ==> #[trigger] ids@[k] == 0 || ids@[k] == 1 || ids@[k] == 21 || ids@[k] == 25,
        decreases ids@.len() - i,
    {
        let id = ids[i];
        if !(id == 0 || id == 1 || id == 21 || id == 25) {
            return false;
        }
        i += 1;
    }
    true
}

fn tail(bits: Bits, at: usize, c: Chain) -> (r: Option<Chain>)
    requires
        at + 1024 <= usize::MAX,
    ensures
        r == chain_input(bits@, at as int, c),
{
    match bits.read(at, 3) {
        Some(0) => {},
        _ => return None,
    }
    if bits.read(at + 3, 1).is_none() {
        return None;
    }
    if bits.matches(at + 3, 0x100d, 13) {
        let forward = match bits.read(at + 16, 6) {
            Some(v) => v,
            None => return None,
        };
        let left = match bits.read(at + 22, 6) {
            Some(v) => v,
            None => return None,
        };
        if forward > 62 || left > 62 {
            return None;
        }
        Some(Chain { input: Some(InputAxes { forward: forward as u8, left: left as u8 }), end: at + 28, ..c })
    } else {
        Some(Chain { end: at + 3, ..c })
    }
}

fn copied(bits: Bits, at: usize, layout: CoordinateLayout, c: Chain) -> (r: Option<Chain>)
    requires
        at + 2048 <= usize::MAX,
    ensures
        r == chain_copied(bits@, at as int, layout, c),
{
    if !bits.matches(at, 0x2535, 14) {
        return tail(bits, at, c);
    }
    if !bits.matches(at + 14, 0x4200, 16) {
        return None;
    }
    let xyz = match coordinates(bits, at + 30, layout) {
        Some(v) => v,
        None => return None,
    };
    let differs = match c.position {
        Some(v) => !(v[0] == xyz[0] && v[1] == xyz[1] && v[2] == xyz[2]),
        None => false,
    };
    proof {
        if c.position is Some {
            let v = c.position->0;
            assert(differs == (v != xyz)) by {
                if !differs {
                    assert(v =~= xyz);
                }
            }
        }
    }
    if differs {
        return None;
    }
    match bits.read(at + 30 + layout.coordinate_bits(), 2) {
        Some(0) => {},
        _ => return None,
    }
    tail(bits, at + 32 + layout.coordinate_bits(), Chain { copied: Some(xyz), ..c })
}

pub fn input_chain(bits: Bits, layout: CoordinateLayout) -> (r: Option<Chain>)
    requires
        bits@.len() * 8 + 4096 <= usize::MAX,
    ensures
        r == input_chain_spec(bits@, layout),
{
    let tick = match clock(bits, 0, true) {
        Some((_, t)) => t,
        None => return None,
    };
    let mut c = Chain {
        position: None,
        velocity: None,
        aim: None,
        input: None,
        end: 0,
        copied: None,
        secondary: false,
        auxiliaries: 0,
    };
    let mut at: usize = 37;
    if bits.matches(37, 0x2200, 14) {
        let (serial, ids, _) = match pawn_header(bits, 37) {
            Some(h) => h,
            None => return None,
        };
        if serial != 0 || !head_ids_allowed(&ids) {
            return None;
        }
        let d = match clocked_fields(bits, 37, layout, tick) {
            Some(d) => d,
            None => return None,
        };
        c.position = d.position;
        c.velocity = d.velocity;
        c.aim = d.aim;
        at = d.end;
    }
    assert(chain_head(bits@, layout, tick) == Some((c.position, c.velocity, c.aim, at as int)));
    if bits.matches(at, 0x2201, 14) && bits.matches(at + 14, 0x422, 12) {
        if bits.read(at + 26, 30).is_none() {
            return None;
        }
        c.secondary = true;
        at = at + 56;
    }
    assert(input_chain_spec(bits@, layout) == chain_aux(bits@, at as int, layout, c));
    while bits.matches(at, 0x2512, 14) || bits.matches(at, 0x2514, 14)
        invariant
            bits@.len() * 8 + 4096 <= usize::MAX,
            at <= bit_len(bits@) + 1024,
            c.auxiliaries <= at,
            input_chain_spec(bits@, layout) == chain_aux(bits@, at as int, layout, c),
        decreases bit_len(bits@) - at,
    {
        if !bits.matches(at + 14, 0x21041, 19) || bits.read(at + 33, 18).is_none() {
            return None;
        }
        c.auxiliaries = c.auxiliaries + 1;
        at = at + 51;
    }
    copied(bits, at, layout, c)
}

/// A crouch command tail at `o`: `0010000100` (crouching, 10 bits) or `00000` (not,
/// 5 bits), followed only by zero padding to the end of the last byte.
pub open spec fn crouch_input_spec(p: Seq<u8>, o: int) -> Option<(bool, usize)> {
    let form = if matches_spec(p, o, 0x84, 10) {
        Some((true, 10int))
    } else if matches_spec(p, o, 0, 5) {
        Some((false, 5int))
    } else {
        None
    };
    match form {
        None => None,
        Some((crouch, width)) => {
            let end = o + width;
            if (end + 7) / 8 * 8 != bit_len(p) || read_spec(p, end, (bit_len(p) - end) as nat) != Some(0u64) {
                None
            } else {
                Some((crouch, end as usize))
            }
        },
    }
}

pub fn crouch_input(bits: Bits, o: usize) -> (r: Option<(bool, usize)>)
    requires
        o + 4096 <= usize::MAX,
        bits@.len() * 8 + 4096 <= usize::MAX,
    ensures
        r == crouch_input_spec(bits@, o as int),
{
    let (crouch, width) = if bits.matches(o, 0x84, 10) {
        (true, 10usize)
    } else if bits.matches(o, 0, 5) {
        (false, 5usize)
    } else {
        return None;
    };
    let end = o + width;
    let n = bits.len();
    if (end + 7) / 8 * 8 != n {
        return None;
    }
    match bits.read(end, n - end) {
        Some(0) => Some((crouch, end)),
        _ => None,
    }
}

} // verus!
