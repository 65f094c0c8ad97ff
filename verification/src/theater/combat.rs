//! Guarded version-41 combat records: firing, hit notifications, melee, grenade
//! throws, reloads and scope stages, with the round clocks that guard them.
use super::bits::{matches_spec, read_spec, Bits};
use super::types::{Firing, ZoomStage};
use vstd::prelude::*;

verus! {

/// The three recorded round-clock signatures (29 bits).
pub const CLOCK_SIGNATURES: [u64; 3] = [
    0b1_0100_0000_1111_0110_1000_0100_0000,
    0b1_0100_0000_1111_1000_1000_0100_0000,
    0b1_0100_0000_1111_1010_1000_0100_0000,
];

/// An optional 31-bit auxiliary block that may precede a clock.
pub const AUX: u64 = 0b010_0000_0000_0010_0100_0010_0110_0000;

pub const AUX_BITS: usize = 31;

/// The 28-bit guard that follows a firing or melee weapon window.
pub const FIRING_GUARD: u64 = 0b0010_1100_1001_0110_0111_1001_1111;

pub const FIRING_GUARD_BITS: usize = 28;

/// The 16-bit command that ends an input chain.
pub const INPUT_END: u64 = 0b0001_0000_0000_1101;

pub const INPUT_END_BITS: usize = 16;

/// A decoded record: the pawn serial, the roster index when recorded, the value, and
/// the first bit after the record.
#[derive(Debug, Clone)]
pub struct Event<T> {
    pub serial: u16,
    pub player: Option<u8>,
    pub value: T,
    pub end: usize,
}

/// Room past a record start for every guarded field.
pub open spec fn addressable(p: Seq<u8>, o: int) -> bool {
    o + 1024 <= usize::MAX && p.len() * 8 + 64 <= usize::MAX
}

/// The pawn serial: the eight-bit wire identity plus 256 times the generation, whose
/// two-bit tags 01, 10, 11, 00 stand for generations 1 to 4.
pub open spec fn serial_spec(p: Seq<u8>, wire: int, generation: int) -> Option<u16> {
    match (read_spec(p, generation, 2), read_spec(p, wire, 8)) {
        (Some(tag), Some(w)) => Some((w + 256 * ((tag + 3) % 4)) as u16),
        _ => None,
    }
}

pub fn serial(bits: Bits, wire: usize, generation: usize) -> (r: Option<u16>)
    ensures
        r == serial_spec(bits@, wire as int, generation as int),
{
    let tag = match bits.read(generation, 2) {
        Some(t) => t,
        None => return None,
    };
    let w = match bits.read(wire, 8) {
        Some(w) => w,
        None => return None,
    };
    proof {
        crate::theater::bits::lemma_bits_bound(bits@, wire as int, 8);
        crate::theater::bits::lemma_bits_bound(bits@, generation as int, 2);
        vstd::arithmetic::power2::lemma2_to64();
    }
    Some((w + 256 * ((tag + 3) % 4)) as u16)
}

/// Whether a 29-bit word matches one of the clock signatures under a mask.
pub open spec fn is_clock_word(word: u64, mask: u64) -> bool {
    word & mask == CLOCK_SIGNATURES@[0] & mask || word & mask == CLOCK_SIGNATURES@[1] & mask
        || word & mask == CLOCK_SIGNATURES@[2] & mask
}

/// A round clock at `offset`: a 29-bit word matching a signature (all 29 bits when
/// strict; otherwise the low 26 bits, with the top three bits 001, 101 or 111), then
/// an eight-bit counter. Yields the low 26 bits and the counter.
pub open spec fn clock_spec(p: Seq<u8>, offset: int, strict: bool) -> Option<(u32, u8)> {
    match read_spec(p, offset, 29) {
        None => None,
        Some(word) => {
            if !is_clock_word(word, if strict { 0x1fff_ffffu64 } else { 0x3ff_ffffu64 }) {
                None
            } else if !strict && !(word >> 26u64 == 1 || word >> 26u64 == 5 || word >> 26u64 == 7) {
                None
            } else {
                match read_spec(p, offset + 29, 8) {
                    Some(counter) => Some(((word & 0x3ff_ffffu64) as u32, counter as u8)),
                    None => None,
                }
            }
        },
    }
}

pub fn clock(bits: Bits, offset: usize, strict: bool) -> (r: Option<(u32, u8)>)
    requires
        offset + 64 <= usize::MAX,
    ensures
        r == clock_spec(bits@, offset as int, strict),
{
    let word = match bits.read(offset, 29) {
        Some(w) => w,
        None => return None,
    };
    let mask: u64 = if strict { 0x1fff_ffff } else { 0x3ff_ffff };
    let mut matched = false;
    let mut i: usize = 0;
    while i < 3
        invariant
            i <= 3,
            matched == (exists|k: int| 0 <= k < i && word & mask == #[trigger] CLOCK_SIGNATURES@[k] & mask),
        decreases 3 - i,
    {
        if word & mask == CLOCK_SIGNATURES[i] & mask {
            matched = true;
        }
        i += 1;
    }
    proof {
        if matched {
            let k = choose|k: int| 0 <= k < 3 && word & mask == #[trigger] CLOCK_SIGNATURES@[k] & mask;
            assert(k == 0 || k == 1 || k == 2);
        } else {
            assert(!(word & mask == CLOCK_SIGNATURES@[0] & mask));
            assert(!(word & mask == CLOCK_SIGNATURES@[1] & mask));
            assert(!(word & mask == CLOCK_SIGNATURES@[2] & mask));
        }
    }
    if !matched {
        return None;
    }
    let top = word >> 26u64;
    if !strict && !(top == 1 || top == 5 || top == 7) {
        return None;
    }
    let counter = match bits.read(offset + 29, 8) {
        Some(c) => c,
        None => return None,
    };
    Some(((word & 0x3ff_ffff) as u32, counter as u8))
}

/// A firing record at `o`: header `10100100110` at +1, `0000` at +22, a zero bit at
/// +34 and the firing guard at +80; serial from the wire at +12 and tag at +20, roster
/// index at +35, sequence from seven bits at +26 and a high bit at +33, and the 40-bit
/// weapon window at +40. It ends at +108.
pub open spec fn firing_spec(p: Seq<u8>, o: int) -> Option<Event<Firing>> {
    if !matches_spec(p, o + 1, 0b10100100110, 11) || !matches_spec(p, o + 22, 0, 4) || read_spec(
        p,
        o + 34,
        1,
    ) != Some(0u64) || !matches_spec(p, o + 80, FIRING_GUARD, 28) {
        None
    } else {
        match (serial_spec(p, o + 12, o + 20), read_spec(p, o + 35, 5), read_spec(p, o + 26, 7), read_spec(p, o + 33, 1), read_spec(p, o + 40, 40)) {
            (Some(serial), Some(player), Some(low), Some(high), Some(window)) => Some(
                Event {
                    serial,
                    player: Some(player as u8),
                    value: Firing { sequence: (low + 128 * high) as u8, weapon_window: window },
                    end: (o + 108) as usize,
                },
            ),
            _ => None,
        }
    }
}

pub fn firing(bits: Bits, o: usize) -> (r: Option<Event<Firing>>)
    requires
        addressable(bits@, o as int),
    ensures
        match firing_spec(bits@, o as int) {
            Some(e) => r matches Some(x) && x.serial == e.serial && x.player == e.player && x.value == e.value && x.end == e.end,
            None => r is None,
        },
{
    if !bits.matches(o + 1, 0b10100100110, 11) || !bits.matches(o + 22, 0, 4) {
        return None;
    }
    match bits.read(o + 34, 1) {
        Some(b) => if b != 0 {
            return None;
        },
        None => return None,
    }
    if !bits.matches(o + 80, FIRING_GUARD, 28) {
        return None;
    }
    let serial = match serial(bits, o + 12, o + 20) {
        Some(s) => s,
        None => return None,
    };
    let player = match bits.read(o + 35, 5) {
        Some(v) => v,
        None => return None,
    };
    let low = match bits.read(o + 26, 7) {
        Some(v) => v,
        None => return None,
    };
    let high = match bits.read(o + 33, 1) {
        Some(v) => v,
        None => return None,
    };
    let window = match bits.read(o + 40, 40) {
        Some(v) => v,
        None => return None,
    };
    proof {
        crate::theater::bits::lemma_bits_bound(bits@, o + 26, 7);
        crate::theater::bits::lemma_bits_bound(bits@, o + 33, 1);
        vstd::arithmetic::power2::lemma2_to64();
    }
    Some(Event {
        serial,
        player: Some(player as u8),
        value: Firing { sequence: (low + 128 * high) as u8, weapon_window: window },
        end: o + 108,
    })
}

/// A hit notification at `o` right after a firing record 108 bits earlier: header
/// `1010101010` at +1 and `000010000000000000` at +21; serial from the wire at +11
/// and tag at +19. It ends at +39; the damage payload is not decoded.
pub open spec fn weapon_damage_spec(p: Seq<u8>, o: int) -> Option<(u16, int)> {
    if o < 108 || firing_spec(p, o - 108) is None || !matches_spec(p, o + 1, 0b1010101010, 10)
        || !matches_spec(p, o + 21, 0b000010000000000000, 18) {
        None
    } else {
        match serial_spec(p, o + 11, o + 19) {
            Some(serial) => Some((serial, o + 39)),
            None => None,
        }
    }
}

pub fn weapon_damage(bits: Bits, o: usize) -> (r: Option<Event<()>>)
    requires
        addressable(bits@, o as int),
    ensures
        match weapon_damage_spec(bits@, o as int) {
            Some((serial, end)) => r matches Some(x) && x.serial == serial && x.player is None && x.end == end,
            None => r is None,
        },
{
    if o < 108 {
        return None;
    }
    if firing(bits, o - 108).is_none() {
        return None;
    }
    if !bits.matches(o + 1, 0b1010101010, 10) || !bits.matches(o + 21, 0b000010000000000000, 18) {
        return None;
    }
    match serial(bits, o + 11, o + 19) {
        Some(serial) => Some(Event { serial, player: None, value: (), end: o + 39 }),
        None => None,
    }
}

/// A melee record at `o` with its companion 31 bits earlier: header `101010001` at
/// +1, `000010` at +20 and the firing guard at +66; the companion has `101001101` at
/// +1, `0011000` at +20 and the same ten bits at +10. Serial from the wire at +10 and
/// tag at +18, roster index from the companion at +27, the 40-bit weapon window at
/// +26. It ends at +94.
pub open spec fn melee_spec(p: Seq<u8>, o: int) -> Option<Event<u64>> {
    if o < 31 || !matches_spec(p, o + 1, 0b101010001, 9) || !matches_spec(p, o + 20, 0b000010, 6)
        || !matches_spec(p, o + 66, FIRING_GUARD, 28) || !matches_spec(p, o - 31 + 1, 0b101001101, 9)
        || !matches_spec(p, o - 31 + 20, 0b0011000, 7) || read_spec(p, o - 31 + 10, 10) is None
        || read_spec(p, o + 10, 10) is None || read_spec(p, o - 31 + 10, 10) != read_spec(p, o + 10, 10) {
        None
    } else {
        match (serial_spec(p, o + 10, o + 18), read_spec(p, o - 31 + 27, 5), read_spec(p, o + 26, 40)) {
            (Some(serial), Some(player), Some(window)) => Some(
                Event { serial, player: Some(player as u8), value: window, end: (o + 94) as usize },
            ),
            _ => None,
        }
    }
}

pub fn melee(bits: Bits, o: usize) -> (r: Option<Event<u64>>)
    requires
        addressable(bits@, o as int),
    ensures
        match melee_spec(bits@, o as int) {
            Some(e) => r matches Some(x) && x.serial == e.serial && x.player == e.player && x.value == e.value && x.end == e.end,
            None => r is None,
        },
{
    if o < 31 {
        return None;
    }
    let c = o - 31;
    if !bits.matches(o + 1, 0b101010001, 9) || !bits.matches(o + 20, 0b000010, 6) || !bits.matches(o + 66, FIRING_GUARD, 28)
        || !bits.matches(c + 1, 0b101001101, 9) || !bits.matches(c + 20, 0b0011000, 7) {
        return None;
    }
    let a = match bits.read(c + 10, 10) {
        Some(v) => v,
        None => return None,
    };
    let b = match bits.read(o + 10, 10) {
        Some(v) => v,
        None => return None,
    };
    if a != b {
        return None;
    }
    let serial = match serial(bits, o + 10, o + 18) {
        Some(s) => s,
        None => return None,
    };
    let player = match bits.read(c + 27, 5) {
        Some(v) => v,
        None => return None,
    };
    let window = match bits.read(o + 26, 40) {
        Some(v) => v,
        None => return None,
    };
    Some(Event { serial, player: Some(player as u8), value: window, end: o + 94 })
}

/// A grenade throw at `o`: header `101001111` at +1 and `0000010` at +20, a 28-bit
/// word at +32 equal to the low 28 bits of a clock signature, and eight more bits at
/// +60; serial from the wire at +10 and tag at +18, roster index at +27. It ends at +68.
pub open spec fn grenade_spec(p: Seq<u8>, o: int) -> Option<Event<()>> {
    if !matches_spec(p, o + 1, 0b101001111, 9) || !matches_spec(p, o + 20, 0b0000010, 7) {
        None
    } else {
        match read_spec(p, o + 32, 28) {
            None => None,
            Some(word) => if !(CLOCK_SIGNATURES@[0] & 0xfff_ffffu64 == word || CLOCK_SIGNATURES@[1]
                & 0xfff_ffffu64 == word || CLOCK_SIGNATURES@[2] & 0xfff_ffffu64 == word)
                || read_spec(p, o + 60, 8) is None {
                None
            } else {
                match (serial_spec(p, o + 10, o + 18), read_spec(p, o + 27, 5)) {
                    (Some(serial), Some(player)) => Some(
                        Event { serial, player: Some(player as u8), value: (), end: (o + 68) as usize },
                    ),
                    _ => None,
                }
            },
        }
    }
}

pub fn grenade(bits: Bits, o: usize) -> (r: Option<Event<()>>)
    requires
        addressable(bits@, o as int),
    ensures
        match grenade_spec(bits@, o as int) {
            Some(e) => r matches Some(x) && x.serial == e.serial && x.player == e.player && x.end == e.end,
            None => r is None,
        },
{
    if !bits.matches(o + 1, 0b101001111, 9) || !bits.matches(o + 20, 0b0000010, 7) {
        return None;
    }
    let word = match bits.read(o + 32, 28) {
        Some(w) => w,
        None => return None,
    };
    let matched = CLOCK_SIGNATURES[0] & 0xfff_ffff == word || CLOCK_SIGNATURES[1] & 0xfff_ffff == word
        || CLOCK_SIGNATURES[2] & 0xfff_ffff == word;
    if !matched || bits.read(o + 60, 8).is_none() {
        return None;
    }
    let serial = match serial(bits, o + 10, o + 18) {
        Some(s) => s,
        None => return None,
    };
    let player = match bits.read(o + 27, 5) {
        Some(v) => v,
        None => return None,
    };
    Some(Event { serial, player: Some(player as u8), value: (), end: o + 68 })
}

/// Where the clock after a record's fixed part starts: after an auxiliary block when
/// one follows.
pub open spec fn after_aux(p: Seq<u8>, next: int) -> int {
    if matches_spec(p, next + 1, AUX, 31) {
        next + 64
    } else {
        next
    }
}

/// A reload start at `o`: header `101001101` at +1 and `0001000` at +20, then an
/// optional auxiliary block and a clock from +31; serial from the wire at +10 and tag
/// at +18, roster index at +27. It ends 37 bits after the clock's start.
pub open spec fn reload_spec(p: Seq<u8>, o: int) -> Option<Event<()>> {
    if !matches_spec(p, o + 1, 0b101001101, 9) || !matches_spec(p, o + 20, 0b0001000, 7)
        || clock_spec(p, after_aux(p, o + 31), false) is None {
        None
    } else {
        match (serial_spec(p, o + 10, o + 18), read_spec(p, o + 27, 5)) {
            (Some(serial), Some(player)) => Some(
                Event { serial, player: Some(player as u8), value: (), end: (after_aux(p, o + 31) + 37) as usize },
            ),
            _ => None,
        }
    }
}

pub fn reload(bits: Bits, o: usize) -> (r: Option<Event<()>>)
    requires
        addressable(bits@, o as int),
    ensures
        match reload_spec(bits@, o as int) {
            Some(e) => r matches Some(x) && x.serial == e.serial && x.player == e.player && x.end == e.end,
            None => r is None,
        },
{
    if !bits.matches(o + 1, 0b101001101, 9) || !bits.matches(o + 20, 0b0001000, 7) {
        return None;
    }
    let mut next = o + 31;
    if bits.matches(next + 1, AUX, AUX_BITS) {
        next = next + 64;
    }
    if clock(bits, next, false).is_none() {
        return None;
    }
    let serial = match serial(bits, o + 10, o + 18) {
        Some(s) => s,
        None => return None,
    };
    let player = match bits.read(o + 27, 5) {
        Some(v) => v,
        None => return None,
    };
    Some(Event { serial, player: Some(player as u8), value: (), end: next + 37 })
}

/// A scope header at `o`: `1001010110` at +1, `00` at +21 and a stage 0, 1 or 2 at
/// +23; serial from the wire at +11 and tag at +19.
pub open spec fn scope_header_spec(p: Seq<u8>, o: int) -> Option<(u16, ZoomStage)> {
    if !matches_spec(p, o + 1, 0b1001010110, 10) || !matches_spec(p, o + 21, 0, 2) {
        None
    } else {
        match read_spec(p, o + 23, 2) {
            Some(level) => if level > 2 {
                None
            } else {
                match serial_spec(p, o + 11, o + 19) {
                    Some(serial) => Some(
                        (
                            serial,
                            if level == 0 {
                                ZoomStage::Unscoped
                            } else if level == 1 {
                                ZoomStage::First
                            } else {
                                ZoomStage::Second
                            },
                        ),
                    ),
                    None => None,
                }
            },
            None => None,
        }
    }
}

pub fn scope_header(bits: Bits, o: usize) -> (r: Option<(u16, ZoomStage)>)
    requires
        o + 64 <= usize::MAX,
    ensures
        r == scope_header_spec(bits@, o as int),
{
    if !bits.matches(o + 1, 0b1001010110, 10) || !bits.matches(o + 21, 0, 2) {
        return None;
    }
    let level = match bits.read(o + 23, 2) {
        Some(0) => ZoomStage::Unscoped,
        Some(1) => ZoomStage::First,
        Some(2) => ZoomStage::Second,
        _ => return None,
    };
    match serial(bits, o + 11, o + 19) {
        Some(s) => Some((s, level)),
        None => None,
    }
}

/// Where a run of up to two further scope headers after the one at `o` ends.
pub open spec fn scope_run_end(p: Seq<u8>, o: int) -> int {
    if scope_header_spec(p, o + 24) is None {
        o + 24
    } else if scope_header_spec(p, o + 48) is None {
        o + 48
    } else {
        o + 72
    }
}

/// A scope change at `o`: a scope header, up to two repeated headers, an optional
/// auxiliary block and a clock. It ends 37 bits after the clock's start.
pub open spec fn zoom_spec(p: Seq<u8>, o: int) -> Option<Event<ZoomStage>> {
    match scope_header_spec(p, o) {
        None => None,
        Some((serial, value)) => if clock_spec(p, after_aux(p, scope_run_end(p, o)), false) is None {
            None
        } else {
            Some(Event { serial, player: None, value, end: (after_aux(p, scope_run_end(p, o)) + 37) as usize })
        },
    }
}

pub fn zoom(bits: Bits, o: usize) -> (r: Option<Event<ZoomStage>>)
    requires
        addressable(bits@, o as int),
    ensures
        match zoom_spec(bits@, o as int) {
            Some(e) => r matches Some(x) && x.serial == e.serial && x.player is None && x.value == e.value && x.end == e.end,
            None => r is None,
        },
{
    let (serial, value) = match scope_header(bits, o) {
        Some(h) => h,
        None => return None,
    };
    let mut next = o + 24;
    if scope_header(bits, next).is_some() {
        next = next + 24;
        if scope_header(bits, next).is_some() {
            next = next + 24;
        }
    }
    if bits.matches(next + 1, AUX, AUX_BITS) {
        next = next + 64;
    }
    if clock(bits, next, false).is_none() {
        return None;
    }
    Some(Event { serial, player: None, value, end: next + 37 })
}

} // verus!
