//! Terminal command records at the end of a packet: per-player input axes, crouch
//! and jump button forms.
use super::bits::{bit_len, matches_spec, read_spec, Bits};
use super::types::InputAxes;
use vstd::prelude::*;

verus! {

/// One terminal command: roster slot, axes, crouch, and where the record, its
/// button form and the record end.
#[derive(Debug, Clone, Copy)]
pub struct Command {
    pub player: u8,
    pub axes: InputAxes,
    pub crouch: bool,
    pub start: usize,
    pub buttons: usize,
    pub end: usize,
}

/// The button form at `at` and its width: `00000` (no crouch), `00100001000`
/// (crouch), `00100100000` (jump without crouch), `00100101000` (jump and crouch).
pub open spec fn buttons_spec(p: Seq<u8>, at: int) -> Option<(bool, int)> {
    if matches_spec(p, at, 0, 5) {
        Some((false, 5))
    } else if matches_spec(p, at, 0x108, 11) {
        Some((true, 11))
    } else if matches_spec(p, at, 0x120, 11) {
        Some((false, 11))
    } else if matches_spec(p, at, 0x128, 11) {
        Some((true, 11))
    } else {
        None
    }
}

/// A command at `at`: a set bit, an eight-bit roster slot 0 or 1, a four-bit header
/// 13 or 14, forward and left axes of at most 62 in six bits each, then a button form.
pub open spec fn command_spec(p: Seq<u8>, at: int) -> Option<Command> {
    match (read_spec(p, at, 1), read_spec(p, at + 1, 8), read_spec(p, at + 9, 4), read_spec(p, at + 13, 6), read_spec(p, at + 19, 6)) {
        (Some(flag), Some(player), Some(header), Some(forward), Some(left)) => if flag != 1 || player > 1
            || !(header == 13 || header == 14) || forward > 62 || left > 62 {
            None
        } else {
            match buttons_spec(p, at + 25) {
                Some((crouch, width)) => Some(
                    Command {
                        player: player as u8,
                        axes: InputAxes { forward: forward as u8, left: left as u8 },
                        crouch,
                        start: at as usize,
                        buttons: (at + 25) as usize,
                        end: (at + 25 + width) as usize,
                    },
                ),
                None => None,
            }
        },
        _ => None,
    }
}

/// Whether `end` reaches the last byte and only zero padding follows it.
pub open spec fn padded_to_end(p: Seq<u8>, end: int) -> bool {
    (end + 7) / 8 * 8 == bit_len(p) && read_spec(p, end, (bit_len(p) - end) as nat) == Some(0u64)
}

/// A command sequence at `at`: one or two commands with increasing roster slots,
/// the last one reaching the final byte, with zero padding after it.
#[verifier::opaque]
pub open spec fn sequence_spec(p: Seq<u8>, at: int) -> Option<Seq<Command>> {
    match command_spec(p, at) {
        None => None,
        Some(first) => if (first.end + 7) / 8 * 8 == bit_len(p) {
            if padded_to_end(p, first.end as int) {
                Some(seq![first])
            } else {
                None
            }
        } else {
            match command_spec(p, first.end as int) {
                None => None,
                Some(second) => if first.player >= second.player || (second.end + 7) / 8 * 8
                    != bit_len(p) || !padded_to_end(p, second.end as int) {
                    None
                } else {
                    Some(seq![first, second])
                },
            }
        },
    }
}

fn buttons(bits: Bits, at: usize) -> (r: Option<(bool, usize)>)
    ensures
        match buttons_spec(bits@, at as int) {
            Some((c, w)) => r == Some((c, w as usize)),
            None => r is None,
        },
{
    if bits.matches(at, 0, 5) {
        Some((false, 5))
    } else if bits.matches(at, 0x108, 11) {
        Some((true, 11))
    } else if bits.matches(at, 0x120, 11) {
        Some((false, 11))
    } else if bits.matches(at, 0x128, 11) {
        Some((true, 11))
    } else {
        None
    }
}

fn command(bits: Bits, at: usize) -> (r: Option<Command>)
    requires
        at + 1024 <= usize::MAX,
    ensures
        r == command_spec(bits@, at as int),
{
    let flag = match bits.read(at, 1) {
        Some(v) => v,
        None => return None,
    };
    let player = match bits.read(at + 1, 8) {
        Some(v) => v,
        None => return None,
    };
    let header = match bits.read(at + 9, 4) {
        Some(v) => v,
        None => return None,
    };
    let forward = match bits.read(at + 13, 6) {
        Some(v) => v,
        None => return None,
    };
    let left = match bits.read(at + 19, 6) {
        Some(v) => v,
        None => return None,
    };
    if flag != 1 || player > 1 || !(header == 13 || header == 14) || forward > 62 || left > 62 {
        return None;
    }
    let (crouch, width) = match buttons(bits, at + 25) {
        Some(b) => b,
        None => return None,
    };
    Some(Command {
        player: player as u8,
        axes: InputAxes { forward: forward as u8, left: left as u8 },
        crouch,
        start: at,
        buttons: at + 25,
        end: at + 25 + width,
    })
}

fn padded(bits: Bits, end: usize) -> (r: bool)
    requires
        end + 8 <= usize::MAX,
    ensures
        r == padded_to_end(bits@, end as int),
{
    let n = bits.len();
    if (end + 7) / 8 * 8 != n {
        return false;
    }
    match bits.read(end, n - end) {
        Some(0) => true,
        _ => false,
    }
}

pub fn sequence(bits: Bits, at: usize) -> (r: Option<Vec<Command>>)
    requires
        at + 2048 <= usize::MAX,
    ensures
        match sequence_spec(bits@, at as int) {
            Some(rows) => r matches Some(v) && v@ == rows,
            None => r is None,
        },
        r matches Some(v) ==> 0 < v@.len() && v@[0].start == at,
{
    reveal(sequence_spec);
    let first = match command(bits, at) {
        Some(c) => c,
        None => return None,
    };
    let mut rows: Vec<Command> = Vec::new();
    rows.push(first);
    if (first.end + 7) / 8 * 8 == bits.len() {
        if padded(bits, first.end) {
            proof {
                assert(rows@ =~= seq![first]);
            }
            return Some(rows);
        }
        return None;
    }
    let second = match command(bits, first.end) {
        Some(c) => c,
        None => return None,
    };
    if first.player >= second.player || (second.end + 7) / 8 * 8 != bits.len() || !padded(bits, second.end) {
        return None;
    }
    rows.push(second);
    proof {
        assert(rows@ =~= seq![first, second]);
    }
    Some(rows)
}

/// A guard at `g`: three zero bits followed by a command sequence.
pub open spec fn valid_guard(p: Seq<u8>, g: int) -> bool {
    read_spec(p, g, 3) == Some(0u64) && sequence_spec(p, g + 3) is Some
}

/// Guards are looked for from 82 bits before the end (two widest commands, the guard
/// and padding) up to 32 bits before it.
pub open spec fn guard_low(p: Seq<u8>) -> int {
    if bit_len(p) >= 82 { bit_len(p) - 82 } else { 0 }
}

pub open spec fn guard_high(p: Seq<u8>) -> int {
    if bit_len(p) >= 32 { bit_len(p) - 32 } else { 0 }
}

/// The first guard of the range.
pub open spec fn first_guard(p: Seq<u8>, g: int) -> bool {
    guard_low(p) <= g < guard_high(p) && valid_guard(p, g) && forall|h: int|
        guard_low(p) <= h < g ==> !valid_guard(p, h)
}

/// Whether some command of `rows` starts at `at`.
pub open spec fn starts_at(rows: Seq<Command>, at: int) -> bool {
    exists|i: int| 0 <= i < rows.len() && rows[i].start == at
}

/// The terminal commands of a packet: the sequence after its first guard, provided
/// that each later guard's sequence starts where one of those commands starts.
pub open spec fn terminal_spec(p: Seq<u8>) -> Option<Seq<Command>> {
    if !exists|g: int| first_guard(p, g) {
        None
    } else {
        let g0 = choose|g: int| first_guard(p, g);
        let rows = sequence_spec(p, g0 + 3)->0;
        if exists|g: int| g0 < g < guard_high(p) && valid_guard(p, g) && !starts_at(rows, g + 3) {
            None
        } else {
            Some(rows)
        }
    }
}

fn any_starts_at(rows: &Vec<Command>, at: usize) -> (r: bool)
    ensures
        r == starts_at(rows@, at as int),
{
    let mut i: usize = 0;
    while i < rows.len()
        invariant
            i <= rows@.len(),
            forall|k: int| 0 <= k < i ==> rows@[k].start != at,
        decreases rows@.len() - i,
    {
        if rows[i].start == at {
            return true;
        }
        i += 1;
    }
    false
}

pub fn terminal(bits: Bits) -> (r: Option<Vec<Command>>)
    requires
        bits@.len() * 8 + 4096 <= usize::MAX,
    ensures
        match terminal_spec(bits@) {
            Some(rows) => r matches Some(v) && v@ == rows,
            None => r is None,
        },
{
    let n = bits.len();
    let lo = if n >= 82 { n - 82 } else { 0 };
    let hi = if n >= 32 { n - 32 } else { 0 };
    let mut found: Option<Vec<Command>> = None;
    let ghost mut g0: int = 0;
    let mut g = lo;
    while g < hi
        invariant
            n == bit_len(bits@),
            bits@.len() * 8 + 4096 <= usize::MAX,
            lo == guard_low(bits@),
            hi == guard_high(bits@),
            lo <= g,
            g <= hi || hi <= lo,
            found is None ==> forall|h: int| lo <= h < g ==> !valid_guard(bits@, h),
            found matches Some(rows) ==> first_guard(bits@, g0) && g0 < g && rows@ == sequence_spec(
                bits@,
                g0 + 3,
            )->0 && forall|h: int| g0 < h < g && valid_guard(bits@, h) ==> starts_at(rows@, h + 3),
        decreases hi - g,
    {
        let guarded = match bits.read(g, 3) {
            Some(0) => true,
            _ => false,
        };
        if guarded {
            match sequence(bits, g + 3) {
                Some(rows) => {
                    match &found {
                        Some(previous) => {
                            if !any_starts_at(previous, rows[0].start) {
                                proof {
                                    let c = choose|g: int| first_guard(bits@, g);
                                    assert(c == g0) by {
                                        if c < g0 {
                                            assert(!valid_guard(bits@, c));
                                        }
                                        if c > g0 {
                                            assert(!valid_guard(bits@, g0));
                                        }
                                    }
                                    assert(rows@[0].start == g + 3);
                                    assert(g0 < g < guard_high(bits@) && valid_guard(bits@, g as int)
                                        && !starts_at(previous@, g + 3));
                                }
                                return None;
                            }
                            proof {
                                assert(rows@[0].start == g + 3);
                            }
                        },
                        None => {
                            proof {
                                g0 = g as int;
                            }
                            found = Some(rows);
                        },
                    }
                },
                None => {},
            }
        }
        g += 1;
    }
    proof {
        match &found {
            Some(rows) => {
                let c = choose|g: int| first_guard(bits@, g);
                assert(first_guard(bits@, g0));
                assert(c == g0) by {
                    if c < g0 {
                        assert(!valid_guard(bits@, c));
                    }
                    if c > g0 {
                        assert(!valid_guard(bits@, g0));
                    }
                }
            },
            None => {
                assert(!exists|g: int| first_guard(bits@, g));
            },
        }
    }
    found
}

} // verus!
