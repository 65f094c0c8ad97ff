//! Projectile records of the controlled grenade paths: spawns, births, motion
//! records, and the tracks assembled from them.
use super::bits::{bit_len, matches_spec, read_spec, Bits};
use super::combat::{serial, serial_spec, INPUT_END, INPUT_END_BITS};
use super::motion::{coordinates, coordinates_spec, ids_at};
use super::types::{layout_coordinate_bits, CoordinateLayout, Life, PlayerTrack, ProjectileTrack, Sample, SourceSpan, Velocity};
use super::velocity::{direction, direction_spec, packed, packed_spec};
use vstd::prelude::*;

verus! {

/// The 226-bit projectile spawn record, in 64-bit windows (the last is 34 bits).
pub const PROJECTILE_SPAWN: [u64; 4] = [0x9001a60600580b8, 0x8312164b3cf80010, 0x7003401600000000, 0x870078];

pub const PROJECTILE_SPAWN_BITS: usize = 226;

/// The 18-bit header of a projectile delta.
pub const PROJECTILE_DELTA: u64 = 0x24004;

/// The 24-bit terminal record of a projectile.
pub const PROJECTILE_END: u64 = 0xc2c010;

pub const PROJECTILE_END_BITS: usize = 24;

/// The whole spawn record at `o`.
pub open spec fn spawn_record_at(p: Seq<u8>, o: int) -> bool {
    matches_spec(p, o, PROJECTILE_SPAWN@[0], 64) && matches_spec(p, o + 64, PROJECTILE_SPAWN@[1], 64)
        && matches_spec(p, o + 128, PROJECTILE_SPAWN@[2], 64) && matches_spec(p, o + 192, PROJECTILE_SPAWN@[3], 34)
}

/// A projectile spawn at `o`: the spawn record, then 15-, 15- and 17-bit coordinates.
pub open spec fn spawn_spec(p: Seq<u8>, o: int) -> Option<([u32; 3], int)> {
    if !spawn_record_at(p, o) {
        None
    } else {
        match coordinates_spec(p, o + 226, CoordinateLayout::X15Y15Z17) {
            Some(xyz) => Some((xyz, o + 273)),
            None => None,
        }
    }
}

pub fn spawn(bits: Bits, o: usize) -> (r: Option<([u32; 3], usize)>)
    requires
        o + 4096 <= usize::MAX,
    ensures
        match spawn_spec(bits@, o as int) {
            Some((xyz, end)) => r == Some((xyz, end as usize)),
            None => r is None,
        },
{
    if !(bits.matches(o, PROJECTILE_SPAWN[0], 64) && bits.matches(o + 64, PROJECTILE_SPAWN[1], 64) && bits.matches(
        o + 128,
        PROJECTILE_SPAWN[2],
        64,
    ) && bits.matches(o + 192, PROJECTILE_SPAWN[3], 34)) {
        return None;
    }
    match coordinates(bits, o + 226, CoordinateLayout::X15Y15Z17) {
        Some(xyz) => Some((xyz, o + 273)),
        None => None,
    }
}

/// Reads `count` six-bit component ids from `at`.
fn read_ids(bits: Bits, at: usize, count: usize) -> (r: Option<Vec<u8>>)
    requires
        0 < count < 8,
        at + 1024 <= usize::MAX,
    ensures
        at + 6 * count <= bit_len(bits@) ==> (r matches Some(v) && v@ == ids_at(bits@, at as int, count as nat)),
        at + 6 * count > bit_len(bits@) ==> r is None,
{
    let ghost want = ids_at(bits@, at as int, count as nat);
    let mut ids: Vec<u8> = Vec::new();
    let mut i: usize = 0;
    while i < count
        invariant
            count < 8,
            i <= count,
            at + 1024 <= usize::MAX,
            want == ids_at(bits@, at as int, count as nat),
            ids@ == want.subrange(0, i as int),
            i > 0 ==> at + 6 * i <= bit_len(bits@),
        decreases count - i,
    {
        let id = match bits.read(at + 6 * i, 6) {
            Some(v) => v,
            None => return None,
        };
        proof {
            super::bits::lemma_bits_bound(bits@, at + 6 * i, 6);
            vstd::arithmetic::power2::lemma2_to64();
        }
        ids.push(id as u8);
        i += 1;
        proof {
            assert(ids@ =~= want.subrange(0, i as int));
        }
    }
    proof {
        assert(ids@ =~= want);
    }
    Some(ids)
}

/// A projectile delta at `o`: the delta header, component ids 0, 1, 2 and optionally
/// 5 or 20, three zero bits, 15-, 15- and 17-bit coordinates, two zero bits, and the
/// end of input 110 bits after the ids (29 more after a 5, 9 more after a 20).
pub open spec fn delta_spec(p: Seq<u8>, o: int) -> Option<([u32; 3], int)> {
    if !matches_spec(p, o, PROJECTILE_DELTA, 18) {
        None
    } else {
        match read_spec(p, o + 18, 3) {
            None => None,
            Some(count) => {
                let ids = ids_at(p, o + 21, count as nat);
                if !(count == 3 || count == 4) || o + 21 + 6 * count > bit_len(p) || !(ids
                    =~= seq![0u8, 1u8, 2u8] || ids =~= seq![0u8, 1u8, 2u8, 5u8] || ids =~= seq![0u8, 1u8, 2u8, 20u8]) {
                    None
                } else {
                    let at = o + 21 + 6 * count;
                    let end = at + 110 + if ids.last() == 5 {
                        29int
                    } else if ids.last() == 20 {
                        9int
                    } else {
                        0int
                    };
                    if read_spec(p, at, 3) != Some(0u64) || read_spec(p, at + 50, 2) != Some(0u64)
                        || !matches_spec(p, end, INPUT_END, 16) {
                        None
                    } else {
                        match coordinates_spec(p, at + 3, CoordinateLayout::X15Y15Z17) {
                            Some(xyz) => Some((xyz, end + 16)),
                            None => None,
                        }
                    }
                }
            },
        }
    }
}

fn same_ids(ids: &Vec<u8>, want: &[u8]) -> (r: bool)
    ensures
        r == (ids@ =~= want@),
{
    if ids.len() != want.len() {
        return false;
    }
    let mut i: usize = 0;
    while i < ids.len()
        invariant
            ids@.len() == want@.len(),
            i <= ids@.len(),
            forall|k: int| 0 <= k < i ==> ids@[k] == want@[k],
        decreases ids@.len() - i,
    {
        if ids[i] != want[i] {
            return false;
        }
        i += 1;
    }
    true
}

pub fn delta(bits: Bits, o: usize) -> (r: Option<([u32; 3], usize)>)
    requires
        o + 4096 <= usize::MAX,
    ensures
        match delta_spec(bits@, o as int) {
            Some((xyz, end)) => r == Some((xyz, end as usize)),
            None => r is None,
        },
{
    if !bits.matches(o, PROJECTILE_DELTA, 18) {
        return None;
    }
    let count = match bits.read(o + 18, 3) {
        Some(c) => c,
        None => return None,
    };
    if !(count == 3 || count == 4) {
        return None;
    }
    let count = count as usize;
    let ids = match read_ids(bits, o + 21, count) {
        Some(ids) => ids,
        None => return None,
    };
    let a: [u8; 3] = [0, 1, 2];
    let b: [u8; 4] = [0, 1, 2, 5];
    let c: [u8; 4] = [0, 1, 2, 20];
    proof {
        assert(a@ =~= seq![0u8, 1u8, 2u8]);
        assert(b@ =~= seq![0u8, 1u8, 2u8, 5u8]);
        assert(c@ =~= seq![0u8, 1u8, 2u8, 20u8]);
    }
    if !(same_ids(&ids, &a) || same_ids(&ids, &b) || same_ids(&ids, &c)) {
        return None;
    }
    let at = o + 21 + 6 * count;
    let last = ids[count - 1];
    let end = at + 110 + if last == 5 {
        29
    } else if last == 20 {
        9
    } else {
        0
    };
    match bits.read(at, 3) {
        Some(0) => {},
        _ => return None,
    }
    match bits.read(at + 50, 2) {
        Some(0) => {},
        _ => return None,
    }
    if !bits.matches(end, INPUT_END, INPUT_END_BITS) {
        return None;
    }
    match coordinates(bits, at + 3, CoordinateLayout::X15Y15Z17) {
        Some(xyz) => Some((xyz, end + 16)),
        None => None,
    }
}

/// A projectile birth: identity, generation tag, owner roster index, the owner's
/// life, raw coordinates, and the velocity with its bit range.
#[derive(Debug, Clone, Copy)]
pub struct Birth {
    pub id: u16,
    pub generation: u8,
    pub player: u8,
    pub life: u16,
    pub xyz: [u32; 3],
    pub velocity: (usize, usize, Velocity),
}

/// The default-state bits of a birth at `o`: the spawn record's bits 20 to 123, 129
/// to 132 and 143 on.
pub open spec fn birth_frame(p: Seq<u8>, o: int) -> bool {
    matches_spec(p, o + 20, 0xa60600580b883121, 64) && matches_spec(p, o + 84, 0x64b3cf8001, 40)
        && matches_spec(p, o + 129, 0xe, 4) && matches_spec(p, o + 143, 0xa00b000000000010, 64)
        && matches_spec(p, o + 207, 0x70078, 19)
}

/// A birth at `o`: two flag bits other than `11`, two zero bits, the birth frame, a
/// 14-bit identity whose upper six bits are 36, coordinates from +226 in the layout,
/// two zero bits and a packed velocity; generation from +18, owner from +124 and the
/// owner's life from the wire at +133 and tag at +141. It ends after the velocity.
pub open spec fn birth_spec(p: Seq<u8>, o: int, layout: CoordinateLayout) -> Option<(Birth, int)> {
    if read_spec(p, o, 2) is None || read_spec(p, o, 2) == Some(3u64) || read_spec(p, o + 2, 2) != Some(0u64)
        || !birth_frame(p, o) {
        None
    } else {
        match read_spec(p, o + 4, 14) {
            None => None,
            Some(id) => if id / 256 != 36 {
                None
            } else {
                let at = o + 226 + layout_coordinate_bits(layout);
                match coordinates_spec(p, o + 226, layout) {
                    None => None,
                    Some(xyz) => if read_spec(p, at, 2) != Some(0u64) {
                        None
                    } else {
                        match (packed_spec(p, at + 2), read_spec(p, o + 18, 2), read_spec(p, o + 124, 5), serial_spec(p, o + 133, o + 141)) {
                            (Some((v, end)), Some(generation), Some(player), Some(life)) => Some(
                                (
                                    Birth {
                                        id: id as u16,
                                        generation: generation as u8,
                                        player: player as u8,
                                        life,
                                        xyz,
                                        velocity: ((at + 2) as usize, end as usize, v),
                                    },
                                    end,
                                ),
                            ),
                            _ => None,
                        }
                    },
                }
            },
        }
    }
}

pub fn birth(bits: Bits, o: usize, layout: CoordinateLayout) -> (r: Option<(Birth, usize)>)
    requires
        o + 4096 <= usize::MAX,
    ensures
        match birth_spec(bits@, o as int, layout) {
            Some((b, end)) => r == Some((b, end as usize)),
            None => r is None,
        },
{
    match bits.read(o, 2) {
        Some(3) => return None,
        None => return None,
        _ => {},
    }
    match bits.read(o + 2, 2) {
        Some(0) => {},
        _ => return None,
    }
    if !(bits.matches(o + 20, 0xa60600580b883121, 64) && bits.matches(o + 84, 0x64b3cf8001, 40) && bits.matches(o + 129, 0xe, 4)
        && bits.matches(o + 143, 0xa00b000000000010, 64) && bits.matches(o + 207, 0x70078, 19)) {
        return None;
    }
    let id = match bits.read(o + 4, 14) {
        Some(v) => v,
        None => return None,
    };
    if id / 256 != 36 {
        return None;
    }
    let xyz = match coordinates(bits, o + 226, layout) {
        Some(v) => v,
        None => return None,
    };
    let at = o + 226 + layout.coordinate_bits();
    match bits.read(at, 2) {
        Some(0) => {},
        _ => return None,
    }
    let (v, end) = match packed(bits, at + 2) {
        Some(x) => x,
        None => return None,
    };
    let generation = match bits.read(o + 18, 2) {
        Some(x) => x,
        None => return None,
    };
    let player = match bits.read(o + 124, 5) {
        Some(x) => x,
        None => return None,
    };
    let life = match serial(bits, o + 133, o + 141) {
        Some(x) => x,
        None => return None,
    };
    Some((
        Birth {
            id: id as u16,
            generation: generation as u8,
            player: player as u8,
            life,
            xyz,
            velocity: (at + 2, end, v),
        },
        end,
    ))
}

/// A projectile motion record: identity, generation tag, position with its bit
/// range, velocity with its bit range, at-rest flag with its bit range, and end.
#[derive(Debug, Clone, Copy)]
pub struct Record {
    pub id: u16,
    pub generation: u8,
    pub position: Option<(usize, usize, [u32; 3])>,
    pub velocity: (usize, usize, Velocity),
    pub rest: Option<(usize, usize, bool)>,
    pub end: usize,
}

/// The component-id lists of supported records.
pub open spec fn record_ids_allowed(ids: Seq<u8>) -> bool {
    ids =~= seq![0u8, 1u8, 2u8] || ids =~= seq![0u8, 1u8, 2u8, 5u8] || ids =~= seq![0u8, 1u8, 2u8, 20u8]
        || ids =~= seq![0u8, 1u8, 2u8, 18u8] || ids =~= seq![1u8, 2u8] || ids =~= seq![1u8, 2u8, 20u8]
        || ids =~= seq![1u8, 2u8, 18u8]
}

/// A position component at `at`: three zero bits, coordinates, two zero bits.
pub open spec fn record_position(p: Seq<u8>, at: int, layout: CoordinateLayout) -> Option<([u32; 3], int)> {
    if read_spec(p, at, 3) != Some(0u64) {
        None
    } else {
        match coordinates_spec(p, at + 3, layout) {
            None => None,
            Some(xyz) => if read_spec(p, at + 3 + layout_coordinate_bits(layout), 2) != Some(0u64) {
                None
            } else {
                Some((xyz, at + 5 + layout_coordinate_bits(layout)))
            },
        }
    }
}

/// Component 2 at `at`: a zero bit and a used 19-bit direction code, or a set bit;
/// then eight more bits. Yields where it ends.
pub open spec fn record_orientation(p: Seq<u8>, at: int) -> Option<int> {
    match read_spec(p, at, 1) {
        None => None,
        Some(flag) => {
            let q = if flag == 0 { at + 20 } else { at + 1 };
            if flag == 0 && (read_spec(p, at + 1, 19) is None || direction_spec(read_spec(p, at + 1, 19)->0 as u32) is None) {
                None
            } else if read_spec(p, q, 8) is None {
                None
            } else {
                Some(q + 8)
            }
        },
    }
}

/// The last component at `at`: 29 zero bits for 5; for 18, an at-rest bit and an
/// extra bit, the extra bit followed by a used 19-bit direction code; for 20, a
/// nine-bit form starting with a set bit or a single zero bit; nothing otherwise.
pub open spec fn record_last(p: Seq<u8>, at: int, last: u8) -> Option<(Option<(usize, usize, bool)>, int)> {
    if last == 5 {
        if read_spec(p, at, 29) != Some(0u64) {
            None
        } else {
            Some((None, at + 29))
        }
    } else if last == 18 {
        match (read_spec(p, at, 1), read_spec(p, at + 1, 1)) {
            (Some(value), Some(extra)) => if extra != 0 {
                match read_spec(p, at + 2, 19) {
                    Some(code) => if direction_spec(code as u32) is None {
                        None
                    } else {
                        Some((Some((at as usize, (at + 21) as usize, value != 0)), at + 21))
                    },
                    None => None,
                }
            } else {
                Some((Some((at as usize, (at + 2) as usize, value != 0)), at + 2))
            },
            _ => None,
        }
    } else if last == 20 {
        match read_spec(p, at, 1) {
            None => None,
            Some(flag) => {
                let width: int = if flag == 1 { 9 } else { 1 };
                if read_spec(p, at, width as nat) is None {
                    None
                } else {
                    Some((None, at + width))
                }
            },
        }
    } else {
        Some((None, at))
    }
}

/// A projectile record at `o`: a 14-bit identity whose upper six bits are 36, a
/// two-bit generation, two zero bits, two to four supported component ids, then an
/// optional position (when the first id is 0), a packed velocity, component 2 and
/// the last component.
#[verifier::opaque]
pub open spec fn fields_spec(p: Seq<u8>, o: int, layout: CoordinateLayout) -> Option<Record> {
    match (read_spec(p, o, 14), read_spec(p, o + 16, 2), read_spec(p, o + 18, 3), read_spec(p, o + 14, 2)) {
        (Some(id), Some(zero), Some(count), Some(generation)) => {
            let ids = ids_at(p, o + 21, count as nat);
            let at = o + 21 + 6 * count;
            if id / 256 != 36 || zero != 0 || !(2 <= count <= 4) || at > bit_len(p) || !record_ids_allowed(ids) {
                None
            } else {
                let pos = if ids[0] == 0 {
                    match record_position(p, at, layout) {
                        Some((xyz, e)) => Some((Some((at as usize, e as usize, xyz)), e)),
                        None => None,
                    }
                } else {
                    Some((None, at))
                };
                match pos {
                    None => None,
                    Some((position, vstart)) => match packed_spec(p, vstart) {
                        None => None,
                        Some((velocity, vend)) => match record_orientation(p, vend) {
                            None => None,
                            Some(q) => match record_last(p, q, ids.last()) {
                                None => None,
                                Some((rest, end)) => Some(
                                    Record {
                                        id: id as u16,
                                        generation: generation as u8,
                                        position,
                                        velocity: (vstart as usize, vend as usize, velocity),
                                        rest,
                                        end: end as usize,
                                    },
                                ),
                            },
                        },
                    },
                }
            }
        },
        _ => None,
    }
}

fn orientation(bits: Bits, at: usize) -> (r: Option<usize>)
    requires
        at + 1024 <= usize::MAX,
    ensures
        match record_orientation(bits@, at as int) {
            Some(q) => r == Some(q as usize),
            None => r is None,
        },
{
    let flag = match bits.read(at, 1) {
        Some(f) => f,
        None => return None,
    };
    let q = if flag == 0 {
        let code = match bits.read(at + 1, 19) {
            Some(c) => c,
            None => return None,
        };
        if direction(code as u32).is_none() {
            return None;
        }
        at + 20
    } else {
        at + 1
    };
    if bits.read(q, 8).is_none() {
        return None;
    }
    Some(q + 8)
}

fn last_component(bits: Bits, at: usize, last: u8) -> (r: Option<(Option<(usize, usize, bool)>, usize)>)
    requires
        at + 1024 <= usize::MAX,
    ensures
        match record_last(bits@, at as int, last) {
            Some((rest, end)) => r == Some((rest, end as usize)),
            None => r is None,
        },
{
    if last == 5 {
        match bits.read(at, 29) {
            Some(0) => Some((None, at + 29)),
            _ => None,
        }
    } else if last == 18 {
        let value = match bits.read(at, 1) {
            Some(v) => v,
            None => return None,
        };
        let extra = match bits.read(at + 1, 1) {
            Some(v) => v,
            None => return None,
        };
        if extra != 0 {
            let code = match bits.read(at + 2, 19) {
                Some(c) => c,
                None => return None,
            };
            if direction(code as u32).is_none() {
                return None;
            }
            Some((Some((at, at + 21, value != 0)), at + 21))
        } else {
            Some((Some((at, at + 2, value != 0)), at + 2))
        }
    } else if last == 20 {
        let flag = match bits.read(at, 1) {
            Some(f) => f,
            None => return None,
        };
        let width: usize = if flag == 1 { 9 } else { 1 };
        if bits.read(at, width).is_none() {
            return None;
        }
        Some((None, at + width))
    } else {
        Some((None, at))
    }
}

fn ids_allowed(ids: &Vec<u8>) -> (r: bool)
    ensures
        r == record_ids_allowed(ids@),
{
    let a: [u8; 3] = [0, 1, 2];
    let b: [u8; 4] = [0, 1, 2, 5];
    let c: [u8; 4] = [0, 1, 2, 20];
    let d: [u8; 4] = [0, 1, 2, 18];
    let e: [u8; 2] = [1, 2];
    let f: [u8; 3] = [1, 2, 20];
    let g: [u8; 3] = [1, 2, 18];
    proof {
        assert(a@ =~= seq![0u8, 1u8, 2u8]);
        assert(b@ =~= seq![0u8, 1u8, 2u8, 5u8]);
        assert(c@ =~= seq![0u8, 1u8, 2u8, 20u8]);
        assert(d@ =~= seq![0u8, 1u8, 2u8, 18u8]);
        assert(e@ =~= seq![1u8, 2u8]);
        assert(f@ =~= seq![1u8, 2u8, 20u8]);
        assert(g@ =~= seq![1u8, 2u8, 18u8]);
    }
    same_ids(ids, &a) || same_ids(ids, &b) || same_ids(ids, &c) || same_ids(ids, &d) || same_ids(ids, &e)
        || same_ids(ids, &f) || same_ids(ids, &g)
}

#[verifier::spinoff_prover]
#[verifier::rlimit(60)]
pub fn fields(bits: Bits, o: usize, layout: CoordinateLayout) -> (r: Option<Record>)
    requires
        o + 4096 <= usize::MAX,
    ensures
        r == fields_spec(bits@, o as int, layout),
        r matches Some(x) ==> x.end <= o + 1024,
{
    reveal(fields_spec);
    let id = match bits.read(o, 14) {
        Some(v) => v,
        None => return None,
    };
    let zero = match bits.read(o + 16, 2) {
        Some(v) => v,
        None => return None,
    };
    let count = match bits.read(o + 18, 3) {
        Some(v) => v,
        None => return None,
    };
    let generation = match bits.read(o + 14, 2) {
        Some(v) => v,
        None => return None,
    };
    if id / 256 != 36 || zero != 0 || !(2 <= count && count <= 4) {
        return None;
    }
    let count = count as usize;
    let ids = match read_ids(bits, o + 21, count) {
        Some(ids) => ids,
        None => return None,
    };
    if !ids_allowed(&ids) {
        return None;
    }
    let at = o + 21 + 6 * count;
    let (position, vstart) = if ids[0] == 0 {
        match bits.read(at, 3) {
            Some(0) => {},
            _ => return None,
        }
        let xyz = match coordinates(bits, at + 3, layout) {
            Some(v) => v,
            None => return None,
        };
        match bits.read(at + 3 + layout.coordinate_bits(), 2) {
            Some(0) => {},
            _ => return None,
        }
        let e = at + 5 + layout.coordinate_bits();
        (Some((at, e, xyz)), e)
    } else {
        (None, at)
    };
    let (velocity, vend) = match packed(bits, vstart) {
        Some(x) => x,
        None => return None,
    };
    let q = match orientation(bits, vend) {
        Some(q) => q,
        None => return None,
    };
    let (rest, end) = match last_component(bits, q, ids[count - 1]) {
        Some(x) => x,
        None => return None,
    };
    Some(Record {
        id: id as u16,
        generation: generation as u8,
        position,
        velocity: (vstart, vend, velocity),
        rest,
        end,
    })
}

/// A supported record at `o` that is followed by the end of input, another record,
/// or a common auxiliary header (class `100101`, `101001` or `101100`, five bits
/// equal to 1 at +16, and a six-bit form 18 or 1 with a 15- or 24-bit payload).
pub open spec fn record_spec(p: Seq<u8>, o: int, layout: CoordinateLayout) -> Option<Record> {
    match fields_spec(p, o, layout) {
        None => None,
        Some(r) => {
            let q = r.end as int;
            if matches_spec(p, q, INPUT_END, 16) || fields_spec(p, q, layout) is Some {
                Some(r)
            } else {
                match (read_spec(p, q, 6), read_spec(p, q + 16, 5), read_spec(p, q + 21, 6)) {
                    (Some(class), Some(one), Some(form)) => if !(class == 0b100101 || class == 0b101001
                        || class == 0b101100) || one != 1 || !(form == 18 || form == 1) {
                        None
                    } else if read_spec(p, q + 27, if form == 18 { 15nat } else { 24nat }) is None {
                        None
                    } else {
                        Some(r)
                    },
                    _ => None,
                }
            }
        },
    }
}

pub fn record(bits: Bits, o: usize, layout: CoordinateLayout) -> (r: Option<Record>)
    requires
        o + 8192 <= usize::MAX,
    ensures
        r == record_spec(bits@, o as int, layout),
{
    let r = match fields(bits, o, layout) {
        Some(r) => r,
        None => return None,
    };
    let q = r.end;
    if bits.matches(q, INPUT_END, INPUT_END_BITS) || fields(bits, q, layout).is_some() {
        return Some(r);
    }
    let class = match bits.read(q, 6) {
        Some(c) => c,
        None => return None,
    };
    let one = match bits.read(q + 16, 5) {
        Some(c) => c,
        None => return None,
    };
    let form = match bits.read(q + 21, 6) {
        Some(c) => c,
        None => return None,
    };
    if !(class == 0b100101 || class == 0b101001 || class == 0b101100) || one != 1 || !(form == 18 || form == 1) {
        return None;
    }
    let width: usize = if form == 18 { 15 } else { 24 };
    if bits.read(q + 27, width).is_none() {
        return None;
    }
    Some(r)
}

/// Whether sample `a` sorts before `b`: by time, then chunk, payload byte and bit.
pub open spec fn sample_before<T>(a: Sample<T>, b: Sample<T>) -> bool {
    a.time_us < b.time_us || (a.time_us == b.time_us && (a.source.chunk < b.source.chunk || (a.source.chunk
        == b.source.chunk && (a.source.payload_byte < b.source.payload_byte || (a.source.payload_byte
        == b.source.payload_byte && a.source.bit < b.source.bit)))))
}

/// `e` inserted after every sample of `s` that does not sort after it.
pub open spec fn insert_sample<T>(s: Seq<Sample<T>>, e: Sample<T>) -> Seq<Sample<T>>
    decreases s.len(),
{
    if s.len() == 0 {
        seq![e]
    } else if sample_before(e, s[0]) {
        seq![e] + s
    } else {
        seq![s[0]] + insert_sample(s.drop_first(), e)
    }
}

/// Samples in (time, chunk, payload byte, bit) order; equal keys keep their order.
pub open spec fn sort_samples<T>(s: Seq<Sample<T>>) -> Seq<Sample<T>>
    decreases s.len(),
{
    if s.len() == 0 {
        seq![]
    } else {
        insert_sample(sort_samples(s.drop_last()), s.last())
    }
}

proof fn lemma_insert_sample_len<T>(s: Seq<Sample<T>>, e: Sample<T>)
    ensures
        insert_sample(s, e).len() == s.len() + 1,
    decreases s.len(),
{
    if s.len() > 0 && !sample_before(e, s[0]) {
        lemma_insert_sample_len(s.drop_first(), e);
    }
}

/// Sorting keeps the number of samples.
pub proof fn lemma_sort_samples_len<T>(s: Seq<Sample<T>>)
    ensures
        sort_samples(s).len() == s.len(),
    decreases s.len(),
{
    if s.len() > 0 {
        lemma_sort_samples_len(s.drop_last());
        lemma_insert_sample_len(sort_samples(s.drop_last()), s.last());
    }
}

proof fn lemma_insert_sample_at<T>(s: Seq<Sample<T>>, e: Sample<T>, j: int)
    requires
        0 <= j <= s.len(),
        forall|k: int| 0 <= k < j ==> !sample_before(e, #[trigger] s[k]),
        j < s.len() ==> sample_before(e, s[j]),
    ensures
        insert_sample(s, e) == s.insert(j, e),
    decreases j,
{
    if j == 0 {
        if s.len() > 0 {
            assert(seq![e] + s =~= s.insert(0, e));
        } else {
            assert(seq![e] =~= s.insert(0, e));
        }
    } else {
        let t = s.drop_first();
        assert forall|k: int| 0 <= k < j - 1 implies !sample_before(e, #[trigger] t[k]) by {
            assert(t[k] == s[k + 1]);
        }
        lemma_insert_sample_at(t, e, j - 1);
        assert(seq![s[0]] + t.insert(j - 1, e) =~= s.insert(j, e));
    }
}

fn before<T>(a: &Sample<T>, b: &Sample<T>) -> (r: bool)
    ensures
        r == sample_before(*a, *b),
{
    a.time_us < b.time_us || (a.time_us == b.time_us && (a.source.chunk < b.source.chunk || (a.source.chunk
        == b.source.chunk && (a.source.payload_byte < b.source.payload_byte || (a.source.payload_byte
        == b.source.payload_byte && a.source.bit < b.source.bit)))))
}

/// A stable sort by (time, chunk, payload byte, bit).
pub fn sort_by_source<T>(v: Vec<Sample<T>>) -> (r: Vec<Sample<T>>)
    ensures
        r@ == sort_samples(v@),
{
    let ghost all = v@;
    let mut rest = v;
    let mut sorted: Vec<Sample<T>> = Vec::new();
    let ghost mut k: int = 0;
    proof {
        assert(all.subrange(0, 0) =~= Seq::<Sample<T>>::empty());
        assert(rest@ =~= all.subrange(0, all.len() as int));
    }
    while rest.len() > 0
        invariant
            0 <= k <= all.len(),
            rest@.len() + k == all.len(),
            rest@ == all.subrange(k, all.len() as int),
            sorted@ == sort_samples(all.subrange(0, k)),
        decreases rest@.len(),
    {
        let ghost old_rest = rest@;
        let e = rest.remove(0);
        proof {
            assert(rest@ =~= all.subrange(k + 1, all.len() as int));
            assert(e == all[k]);
            assert(all.subrange(0, k + 1).drop_last() =~= all.subrange(0, k));
        }
        let ghost s = sorted@;
        let mut j: usize = 0;
        while j < sorted.len() && !before(&e, &sorted[j])
            invariant
                j <= sorted@.len(),
                s == sorted@,
                forall|m: int| 0 <= m < j ==> !sample_before(e, #[trigger] s[m]),
            decreases sorted@.len() - j,
        {
            j += 1;
        }
        proof {
            lemma_insert_sample_at(s, e, j as int);
        }
        sorted.insert(j, e);
        proof {
            k = k + 1;
        }
    }
    proof {
        assert(all.subrange(0, k) =~= all);
    }
    sorted
}

/// Projectile candidates collected from a film: births, records and terminal events.
pub struct Tracks {
    pub births: Vec<Sample<Birth>>,
    pub records: Vec<Sample<Record>>,
    pub terminals: Vec<(u64, SourceSpan)>,
}

impl Default for Tracks {
    fn default() -> (r: Tracks)
        ensures
            r.births@.len() == 0 && r.records@.len() == 0 && r.terminals@.len() == 0,
    {
        Tracks { births: Vec::new(), records: Vec::new(), terminals: Vec::new() }
    }
}

/// The first player from `k` on with roster index `id`.
pub open spec fn player_from(players: Seq<PlayerTrack>, id: u8, k: int) -> Option<int>
    decreases players.len() - k,
{
    if k < 0 || k >= players.len() {
        None
    } else if players[k].id == id {
        Some(k)
    } else {
        player_from(players, id, k + 1)
    }
}

/// The first life from `k` on with identity `id` that spans time `t`.
pub open spec fn life_from(lives: Seq<Life>, id: u16, t: u64, k: int) -> Option<int>
    decreases lives.len() - k,
{
    if k < 0 || k >= lives.len() {
        None
    } else if lives[k].id == id && lives[k].start_us <= t && t < lives[k].end_us {
        Some(k)
    } else {
        life_from(lives, id, t, k + 1)
    }
}

/// The time of the first birth from `j` on with projectile identity `id`, or
/// `u64::MAX`.
pub open spec fn until_from(births: Seq<Sample<Birth>>, id: u16, j: int) -> u64
    decreases births.len() - j,
{
    if j < 0 || j >= births.len() {
        u64::MAX
    } else if births[j].value.id == id {
        births[j].time_us
    } else {
        until_from(births, id, j + 1)
    }
}

/// The samples of a track followed so far and the time of its last update.
pub ghost struct Trail {
    pub positions: Seq<Sample<[u32; 3]>>,
    pub velocities: Seq<Sample<Velocity>>,
    pub at_rest: Seq<Sample<bool>>,
    pub last: u64,
}

pub open spec fn abs_diff(a: u32, b: u32) -> int {
    if a >= b {
        a - b
    } else {
        b - a
    }
}

/// Some axis differs by more than 128.
pub open spec fn far(a: [u32; 3], b: [u32; 3]) -> bool {
    abs_diff(a[0], b[0]) > 128 || abs_diff(a[1], b[1]) > 128 || abs_diff(a[2], b[2]) > 128
}

/// `src` narrowed to bits `a` to `e`.
pub open spec fn with_span(src: SourceSpan, a: usize, e: usize) -> SourceSpan {
    SourceSpan { bit: a, end_bit: e, ..src }
}

/// Record `s` belongs to the projectile born at `spawn`: same identity and
/// generation, strictly after the birth and strictly before `until`.
pub open spec fn belongs(s: Sample<Record>, spawn: Sample<Birth>, until: u64) -> bool {
    s.value.id == spawn.value.id && s.value.generation == spawn.value.generation && spawn.time_us < s.time_us
        && s.time_us < until
}

/// Following stops at a gap of more than 0.1 s since the last update, or at a first
/// recorded position far from the birth position.
pub open spec fn stops(t: Trail, s: Sample<Record>, spawn: Sample<Birth>) -> bool {
    (s.time_us > t.last && s.time_us - t.last > 100_000) || (s.value.position matches Some(x) && t.positions.len()
        == 1 && far(x.2, spawn.value.xyz))
}

/// The trail with record `s` added: its position, velocity and at-rest flag.
pub open spec fn extend(t: Trail, s: Sample<Record>, life: u16) -> Trail {
    Trail {
        positions: match s.value.position {
            Some((a, e, xyz)) => t.positions.push(
                Sample { time_us: s.time_us, life, value: xyz, source: with_span(s.source, a, e) },
            ),
            None => t.positions,
        },
        velocities: t.velocities.push(
            Sample {
                time_us: s.time_us,
                life,
                value: s.value.velocity.2,
                source: with_span(s.source, s.value.velocity.0, s.value.velocity.1),
            },
        ),
        at_rest: match s.value.rest {
            Some((a, e, v)) => t.at_rest.push(Sample { time_us: s.time_us, life, value: v, source: with_span(s.source, a, e) }),
            None => t.at_rest,
        },
        last: s.time_us,
    }
}

/// The trail after the records from `k` on.
pub open spec fn follow(records: Seq<Sample<Record>>, k: int, spawn: Sample<Birth>, life: u16, until: u64, t: Trail) -> Trail
    decreases records.len() - k,
{
    if k < 0 || k >= records.len() {
        t
    } else if !belongs(records[k], spawn, until) {
        follow(records, k + 1, spawn, life, until, t)
    } else if stops(t, records[k], spawn) {
        t
    } else {
        follow(records, k + 1, spawn, life, until, extend(t, records[k], life))
    }
}

/// The trail at a birth: its position and velocity.
pub open spec fn birth_trail(spawn: Sample<Birth>, life: u16) -> Trail {
    Trail {
        positions: seq![Sample { time_us: spawn.time_us, life, value: spawn.value.xyz, source: spawn.source }],
        velocities: seq![
            Sample {
                time_us: spawn.time_us,
                life,
                value: spawn.value.velocity.2,
                source: with_span(spawn.source, spawn.value.velocity.0, spawn.value.velocity.1),
            },
        ],
        at_rest: seq![],
        last: spawn.time_us,
    }
}

/// A projectile track as plain values.
pub ghost struct TrackView {
    pub id: u16,
    pub generation: u8,
    pub player: u8,
    pub life: u16,
    pub start_us: u64,
    pub end_us: u64,
    pub positions: Seq<Sample<[u32; 3]>>,
    pub velocities: Seq<Sample<Velocity>>,
    pub at_rest: Seq<Sample<bool>>,
    pub terminal: Option<SourceSpan>,
}

pub open spec fn track_view(t: ProjectileTrack) -> TrackView {
    TrackView {
        id: t.id,
        generation: t.generation,
        player: t.player,
        life: t.life,
        start_us: t.start_us,
        end_us: t.end_us,
        positions: t.positions@,
        velocities: t.velocities@,
        at_rest: t.at_rest@,
        terminal: t.terminal,
    }
}

pub open spec fn track_views(s: Seq<ProjectileTrack>) -> Seq<TrackView> {
    s.map_values(|t: ProjectileTrack| track_view(t))
}

/// The single-throw control: one player with one life and one grenade, one birth,
/// 87 positions, projectile 9216 of generation 1, and one terminal event less than
/// 0.1 s after the last update.
pub open spec fn controlled_terminal(
    births: Seq<Sample<Birth>>,
    players: Seq<PlayerTrack>,
    terminals: Seq<(u64, SourceSpan)>,
    player: PlayerTrack,
    spawn: Sample<Birth>,
    t: Trail,
) -> bool {
    players.len() == 1 && player.lives@.len() == 1 && player.grenades@.len() == 1 && births.len() == 1
        && t.positions.len() == 87 && spawn.value.id == 9216 && spawn.value.generation == 1 && terminals.len() == 1
        && terminals[0].0 > t.last && terminals[0].0 - t.last < 100_000
}

/// The track of birth `i` (births and records sorted): its owner is the first player
/// with the birth's roster index, its life the first of that player's lives with
/// the birth's life identity spanning the birth time; records are followed up to the
/// next birth of the same identity; at least three positions are needed. It ends one
/// microsecond after the last update (saturating), or at the terminal event in the
/// single-throw control.
pub open spec fn track_of(
    births: Seq<Sample<Birth>>,
    records: Seq<Sample<Record>>,
    players: Seq<PlayerTrack>,
    terminals: Seq<(u64, SourceSpan)>,
    i: int,
) -> Option<TrackView> {
    let spawn = births[i];
    match player_from(players, spawn.value.player, 0) {
        None => None,
        Some(pk) => {
            let player = players[pk];
            match life_from(player.lives@, spawn.value.life, spawn.time_us, 0) {
                None => None,
                Some(lk) => {
                    let life = player.lives@[lk].id;
                    let until = until_from(births, spawn.value.id, i + 1);
                    let t = follow(records, 0, spawn, life, until, birth_trail(spawn, life));
                    if t.positions.len() < 3 {
                        None
                    } else {
                        let control = controlled_terminal(births, players, terminals, player, spawn, t);
                        Some(
                            TrackView {
                                id: spawn.value.id,
                                generation: spawn.value.generation,
                                player: player.id,
                                life,
                                start_us: spawn.time_us,
                                end_us: if control {
                                    terminals[0].0
                                } else if t.last == u64::MAX {
                                    u64::MAX
                                } else {
                                    (t.last + 1) as u64
                                },
                                positions: t.positions,
                                velocities: t.velocities,
                                at_rest: t.at_rest,
                                terminal: if control {
                                    Some(terminals[0].1)
                                } else {
                                    None
                                },
                            },
                        )
                    }
                },
            }
        },
    }
}

/// The tracks of the first `n` births, in birth order.
pub open spec fn tracks_upto(
    births: Seq<Sample<Birth>>,
    records: Seq<Sample<Record>>,
    players: Seq<PlayerTrack>,
    terminals: Seq<(u64, SourceSpan)>,
    n: int,
) -> Seq<TrackView>
    decreases n,
{
    if n <= 0 {
        seq![]
    } else {
        match track_of(births, records, players, terminals, n - 1) {
            Some(t) => tracks_upto(births, records, players, terminals, n - 1).push(t),
            None => tracks_upto(births, records, players, terminals, n - 1),
        }
    }
}

fn span(src: SourceSpan, a: usize, e: usize) -> (r: SourceSpan)
    ensures
        r == with_span(src, a, e),
{
    SourceSpan { chunk: src.chunk, payload_byte: src.payload_byte, bit: a, end_bit: e }
}

fn is_far(a: [u32; 3], b: [u32; 3]) -> (r: bool)
    ensures
        r == far(a, b),
{
    let mut i: usize = 0;
    while i < 3
        invariant
            i <= 3,
            forall|k: int| 0 <= k < i ==> abs_diff(#[trigger] a[k], b[k]) <= 128,
        decreases 3 - i,
    {
        let d = if a[i] >= b[i] { a[i] - b[i] } else { b[i] - a[i] };
        if d > 128 {
            return true;
        }
        i += 1;
    }
    false
}

/// The samples of the projectile born at `spawn` and the time of its last update.
fn follow_records(records: &Vec<Sample<Record>>, spawn: &Sample<Birth>, life: u16, until: u64) -> (r: (
    Vec<Sample<[u32; 3]>>,
    Vec<Sample<Velocity>>,
    Vec<Sample<bool>>,
    u64,
))
    ensures
        follow(records@, 0, *spawn, life, until, birth_trail(*spawn, life)) == (Trail {
            positions: r.0@,
            velocities: r.1@,
            at_rest: r.2@,
            last: r.3,
        }),
{
    let b = spawn.value;
    let mut positions: Vec<Sample<[u32; 3]>> = Vec::new();
    positions.push(Sample { time_us: spawn.time_us, life, value: b.xyz, source: spawn.source });
    let mut velocities: Vec<Sample<Velocity>> = Vec::new();
    velocities.push(Sample {
        time_us: spawn.time_us,
        life,
        value: b.velocity.2,
        source: span(spawn.source, b.velocity.0, b.velocity.1),
    });
    let mut at_rest: Vec<Sample<bool>> = Vec::new();
    let mut last = spawn.time_us;
    proof {
        assert(positions@ =~= birth_trail(*spawn, life).positions);
        assert(velocities@ =~= birth_trail(*spawn, life).velocities);
        assert(at_rest@ =~= birth_trail(*spawn, life).at_rest);
    }
    let mut k: usize = 0;
    while k < records.len()
        invariant
            k <= records@.len(),
            b == spawn.value,
            follow(records@, 0, *spawn, life, until, birth_trail(*spawn, life)) == follow(
                records@,
                k as int,
                *spawn,
                life,
                until,
                Trail { positions: positions@, velocities: velocities@, at_rest: at_rest@, last },
            ),
        decreases records@.len() - k,
    {
        let s = &records[k];
        let belongs_here = s.value.id == b.id && s.value.generation == b.generation && spawn.time_us < s.time_us
            && s.time_us < until;
        if belongs_here {
            let gap = s.time_us > last && s.time_us - last > 100_000;
            let stop = gap || match s.value.position {
                Some((_, _, xyz)) => positions.len() == 1 && is_far(xyz, b.xyz),
                None => false,
            };
            if stop {
                k = records.len();
                continue;
            }
            let ghost t = Trail { positions: positions@, velocities: velocities@, at_rest: at_rest@, last };
            match s.value.position {
                Some((a, e, xyz)) => {
                    positions.push(Sample { time_us: s.time_us, life, value: xyz, source: span(s.source, a, e) });
                },
                None => {},
            }
            velocities.push(Sample {
                time_us: s.time_us,
                life,
                value: s.value.velocity.2,
                source: span(s.source, s.value.velocity.0, s.value.velocity.1),
            });
            match s.value.rest {
                Some((a, e, v)) => {
                    at_rest.push(Sample { time_us: s.time_us, life, value: v, source: span(s.source, a, e) });
                },
                None => {},
            }
            last = s.time_us;
            proof {
                let x = extend(t, records@[k as int], life);
                assert(positions@ =~= x.positions);
                assert(velocities@ =~= x.velocities);
                assert(at_rest@ =~= x.at_rest);
            }
        }
        k += 1;
    }
    (positions, velocities, at_rest, last)
}

fn find_player(players: &[PlayerTrack], id: u8) -> (r: Option<usize>)
    ensures
        r is Some <==> player_from(players@, id, 0) is Some,
        r matches Some(k) ==> player_from(players@, id, 0) == Some(k as int),
        r matches Some(k) ==> k < players@.len(),
{
    let mut k: usize = 0;
    while k < players.len()
        invariant
            k <= players@.len(),
            player_from(players@, id, 0) == player_from(players@, id, k as int),
        decreases players@.len() - k,
    {
        if players[k].id == id {
            return Some(k);
        }
        k += 1;
    }
    None
}

fn find_life(lives: &Vec<Life>, id: u16, t: u64) -> (r: Option<usize>)
    ensures
        r is Some <==> life_from(lives@, id, t, 0) is Some,
        r matches Some(k) ==> life_from(lives@, id, t, 0) == Some(k as int),
        r matches Some(k) ==> k < lives@.len(),
{
    let mut k: usize = 0;
    while k < lives.len()
        invariant
            k <= lives@.len(),
            life_from(lives@, id, t, 0) == life_from(lives@, id, t, k as int),
        decreases lives@.len() - k,
    {
        if lives[k].id == id && lives[k].start_us <= t && t < lives[k].end_us {
            return Some(k);
        }
        k += 1;
    }
    None
}

fn until_time(births: &Vec<Sample<Birth>>, id: u16, j: usize) -> (r: u64)
    ensures
        r == until_from(births@, id, j as int),
{
    let mut k: usize = j;
    while k < births.len()
        invariant
            j <= k,
            until_from(births@, id, j as int) == until_from(births@, id, k as int),
        decreases births@.len() - k,
    {
        if births[k].value.id == id {
            return births[k].time_us;
        }
        k += 1;
    }
    u64::MAX
}

fn track_for(
    births: &Vec<Sample<Birth>>,
    records: &Vec<Sample<Record>>,
    players: &[PlayerTrack],
    terminals: &Vec<(u64, SourceSpan)>,
    i: usize,
) -> (r: Option<ProjectileTrack>)
    requires
        i < births@.len(),
    ensures
        match track_of(births@, records@, players@, terminals@, i as int) {
            Some(t) => r matches Some(x) && track_view(x) == t,
            None => r is None,
        },
{
    let spawn = &births[i];
    let pk = match find_player(players, spawn.value.player) {
        Some(k) => k,
        None => return None,
    };
    let player = &players[pk];
    let lk = match find_life(&player.lives, spawn.value.life, spawn.time_us) {
        Some(k) => k,
        None => return None,
    };
    let life = player.lives[lk].id;
    let n = births.len();
    let until = until_time(births, spawn.value.id, i + 1);
    let (positions, velocities, at_rest, last) = follow_records(records, spawn, life, until);
    if positions.len() < 3 {
        return None;
    }
    let control = players.len() == 1 && player.lives.len() == 1 && player.grenades.len() == 1 && births.len() == 1
        && positions.len() == 87 && spawn.value.id == 9216 && spawn.value.generation == 1 && terminals.len() == 1
        && terminals[0].0 > last && terminals[0].0 - last < 100_000;
    let end_us = if control {
        terminals[0].0
    } else if last == u64::MAX {
        u64::MAX
    } else {
        last + 1
    };
    let terminal = if control {
        Some(terminals[0].1)
    } else {
        None
    };
    Some(ProjectileTrack {
        id: spawn.value.id,
        generation: spawn.value.generation,
        player: player.id,
        life,
        start_us: spawn.time_us,
        end_us,
        positions,
        velocities,
        at_rest,
        terminal,
    })
}

impl Tracks {
    /// Assembles projectile tracks: births and records are sorted by time and source;
    /// each birth with a known owner and owner's life yields a track of at least three
    /// positions, in birth order.
    pub fn finish(self, players: &[PlayerTrack]) -> (r: Vec<ProjectileTrack>)
        ensures
            track_views(r@) == tracks_upto(
                sort_samples(self.births@),
                sort_samples(self.records@),
                players@,
                self.terminals@,
                sort_samples(self.births@).len() as int,
            ),
    {
        let births = sort_by_source(self.births);
        let records = sort_by_source(self.records);
        let terminals = self.terminals;
        let mut out: Vec<ProjectileTrack> = Vec::new();
        let mut i: usize = 0;
        while i < births.len()
            invariant
                i <= births@.len(),
                track_views(out@) == tracks_upto(births@, records@, players@, terminals@, i as int),
            decreases births@.len() - i,
        {
            let t = track_for(&births, &records, players, &terminals, i);
            match t {
                Some(t) => {
                    out.push(t);
                    proof {
                        assert(track_views(out@) =~= tracks_upto(births@, records@, players@, terminals@, i as int + 1));
                    }
                },
                None => {},
            }
            i += 1;
        }
        out
    }
}

/// Every assembled projectile track starts at its birth with the birth's position,
/// has at least three positions, and ends no earlier than its last update.
pub proof fn lemma_tracks_start_at_birth(
    births: Seq<Sample<Birth>>,
    records: Seq<Sample<Record>>,
    players: Seq<PlayerTrack>,
    terminals: Seq<(u64, SourceSpan)>,
    n: int,
)
    requires
        0 <= n <= births.len(),
    ensures
        forall|k: int| 0 <= k < tracks_upto(births, records, players, terminals, n).len() ==> {
            let t = #[trigger] tracks_upto(births, records, players, terminals, n)[k];
            &&& t.positions.len() >= 3
            &&& t.positions[0].time_us == t.start_us
            &&& exists|i: int| 0 <= i < n && births[i].time_us == t.start_us && t.positions[0].value == births[i].value.xyz
        },
    decreases n,
{
    if n > 0 {
        lemma_tracks_start_at_birth(births, records, players, terminals, n - 1);
        let prior = tracks_upto(births, records, players, terminals, n - 1);
        match track_of(births, records, players, terminals, n - 1) {
            Some(t) => {
                let spawn = births[n - 1];
                let pk = player_from(players, spawn.value.player, 0)->0;
                let life = players[pk].lives@[life_from(players[pk].lives@, spawn.value.life, spawn.time_us, 0)->0].id;
                let until = until_from(births, spawn.value.id, n);
                lemma_follow_keeps_prefix(records, 0, spawn, life, until, birth_trail(spawn, life));
                let all = tracks_upto(births, records, players, terminals, n);
                assert(all == prior.push(t));
                assert forall|k: int| 0 <= k < all.len() implies {
                    let u = #[trigger] all[k];
                    &&& u.positions.len() >= 3
                    &&& u.positions[0].time_us == u.start_us
                    &&& exists|i: int| 0 <= i < n && births[i].time_us == u.start_us && u.positions[0].value == births[i].value.xyz
                } by {
                    if k < prior.len() {
                        assert(all[k] == prior[k]);
                        let u = prior[k];
                        let i = choose|i: int| 0 <= i < n - 1 && births[i].time_us == u.start_us && u.positions[0].value == births[i].value.xyz;
                        assert(0 <= i < n && births[i].time_us == u.start_us && u.positions[0].value == births[i].value.xyz);
                    } else {
                        assert(all[k] == t);
                        assert(births[n - 1].time_us == t.start_us && t.positions[0].value == births[n - 1].value.xyz);
                    }
                }
            },
            None => {},
        }
    }
}

/// Following records only appends to a trail.
proof fn lemma_follow_keeps_prefix(records: Seq<Sample<Record>>, k: int, spawn: Sample<Birth>, life: u16, until: u64, t: Trail)
    requires
        t.positions.len() >= 1,
    ensures
        follow(records, k, spawn, life, until, t).positions.len() >= t.positions.len(),
        follow(records, k, spawn, life, until, t).positions[0] == t.positions[0],
    decreases records.len() - k,
{
    if k < 0 || k >= records.len() {
    } else if !belongs(records[k], spawn, until) {
        lemma_follow_keeps_prefix(records, k + 1, spawn, life, until, t);
    } else if stops(t, records[k], spawn) {
    } else {
        let x = extend(t, records[k], life);
        assert(x.positions.len() >= t.positions.len() && x.positions[0] == t.positions[0]);
        lemma_follow_keeps_prefix(records, k + 1, spawn, life, until, x);
    }
}

} // verus!
